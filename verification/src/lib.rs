//! A per-session OAuth authorization broker.
//!
//! The broker sits between a browser client and a third-party API provider.
//! It issues anonymous session identities via cookies, drives the OAuth
//! authorization-code flow for each session, persists the resulting token in
//! a session-scoped cache, and gates downstream API calls on the presence of
//! a cached token.
//!
//! The verified core is the session-to-token lifecycle: identity assignment
//! (`session`), the token codec and its round trip (`codec`, `token`), the
//! token cache store (`store`), the authorization flow controller (`flow`),
//! and the protected resource gateway (`gateway`). Calls into the provider
//! SDK and the random identity source live behind trusted items in
//! `provider`.

pub mod codec;
pub mod errors;
pub mod flow;
pub mod gateway;
pub mod provider;
pub mod session;
pub mod store;
pub mod token;
