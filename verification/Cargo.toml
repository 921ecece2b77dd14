[package]
name = "oauth_broker"
version = "0.1.0"
edition = "2021"
publish = false

[dependencies]
rspotify = "=0.16.1"
uuid = { version = "=1.27.0", features = ["v4"] }
warp = { version = "=0.4.3", features = ["server"] }
tokio = { version = "=1.53.2", features = ["macros", "rt-multi-thread"] }
futures-util = "=0.3.34"
serde = { version = "=1.0.229", features = ["derive"] }
chrono = "=0.4.45"
