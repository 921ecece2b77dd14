use oauth_broker::codec::{decode_token, encode_token};
use oauth_broker::errors::BrokerError;
use oauth_broker::flow::{finish_exchange, home_redirect, initiate, plan_initiate, validate_callback, InitiateAction};
use oauth_broker::gateway::{gateway_begin, placeholder_json, render_fetch_outcome, ApiPayload, GatewayPlan};
use oauth_broker::session::{resolve_identity, session_id_of};
use oauth_broker::store::TokenCacheStore;
use oauth_broker::token::Token;

fn sample_token() -> Token {
    Token {
        access_token: "tok".to_string(),
        refresh_token: Some("r1".to_string()),
        expires_at: Some(99),
    }
}

fn is_decimal(s: &str) -> bool {
    !s.is_empty() && s.chars().all(|c| c.is_ascii_digit())
}

// --- session identity -------------------------------------------------------

#[test]
fn session_id_of_zero() {
    assert_eq!(session_id_of(0), "0".to_string());
}

#[test]
fn session_id_of_sample() {
    assert_eq!(session_id_of(1234567890), "1234567890".to_string());
}

#[test]
fn session_id_of_max() {
    assert_eq!(
        session_id_of(u128::MAX),
        "340282366920938463463374607431768211455".to_string()
    );
}

#[test]
fn resolve_keeps_existing_cookie() {
    let (id, is_new) = resolve_identity(Some("42".to_string()));
    assert_eq!(id, "42".to_string());
    assert!(!is_new);
}

#[test]
fn resolve_mints_fresh_decimal_identity() {
    let (a, new_a) = resolve_identity(None);
    let (b, new_b) = resolve_identity(None);
    assert!(new_a && new_b);
    assert!(is_decimal(&a));
    assert!(is_decimal(&b));
    // two draws in sequence never coincide
    assert_ne!(a, b);
}

// --- token codec -------------------------------------------------------------

#[test]
fn encode_token_exact_form() {
    assert_eq!(encode_token(&sample_token()), "3:tok+2:r1+99".to_string());
    let bare = Token { access_token: "tok".to_string(), refresh_token: None, expires_at: None };
    assert_eq!(encode_token(&bare), "3:tok--".to_string());
}

#[test]
fn decode_token_round_trip() {
    let t = sample_token();
    let back = decode_token(encode_token(&t).as_str()).expect("round trip");
    assert!(back == t);
}

#[test]
fn decode_token_round_trip_empty_fields() {
    let t = Token { access_token: "".to_string(), refresh_token: None, expires_at: None };
    let back = decode_token(encode_token(&t).as_str()).expect("round trip");
    assert!(back == t);
}

#[test]
fn decode_token_round_trip_awkward_content() {
    // the access token may contain the codec's own delimiters
    let t = Token {
        access_token: "a:b+c-d:e".to_string(),
        refresh_token: Some("::++--".to_string()),
        expires_at: Some(u64::MAX),
    };
    let back = decode_token(encode_token(&t).as_str()).expect("round trip");
    assert!(back == t);
}

#[test]
fn decode_token_rejects_garbage() {
    assert!(decode_token("").is_none());
    assert!(decode_token("not a token").is_none());
    assert!(decode_token("3:tok").is_none());
    assert!(decode_token("3:tok--trailing").is_none());
    assert!(decode_token("9999:tok--").is_none());
}

// --- token cache store -------------------------------------------------------

#[test]
fn write_then_read_returns_written_token() {
    let mut store = TokenCacheStore::new(".cache".to_string());
    let id = "42".to_string();
    let t = sample_token();
    store.write(&id, &t);
    let back = store.read(&id).expect("entry just written");
    assert!(back == t);
}

#[test]
fn has_entry_false_before_write_true_after() {
    let mut store = TokenCacheStore::new(".cache".to_string());
    let id = "7".to_string();
    assert!(!store.has_entry(&id));
    store.write(&id, &sample_token());
    assert!(store.has_entry(&id));
}

#[test]
fn read_missing_entry_is_not_found() {
    let store = TokenCacheStore::new(".cache".to_string());
    assert_eq!(store.read(&"nobody".to_string()).unwrap_err(), BrokerError::NotFound);
}

#[test]
fn read_corrupt_entry_is_corrupt() {
    let mut store = TokenCacheStore::new(".cache".to_string());
    let id = "42".to_string();
    store.restore(&id, "###".to_string());
    assert_eq!(store.read(&id).unwrap_err(), BrokerError::CorruptEntry);
}

#[test]
fn rewrite_replaces_entry() {
    let mut store = TokenCacheStore::new(".cache".to_string());
    let id = "42".to_string();
    store.write(&id, &sample_token());
    let t2 = Token { access_token: "other".to_string(), refresh_token: None, expires_at: None };
    store.write(&id, &t2);
    let back = store.read(&id).expect("entry");
    assert!(back == t2);
}

#[test]
fn restore_round_trips_persisted_blob() {
    let mut store = TokenCacheStore::new(".cache".to_string());
    let id = "42".to_string();
    let blob = store.write(&id, &sample_token());
    let mut fresh = TokenCacheStore::new(".cache".to_string());
    fresh.restore(&id, blob);
    let back = fresh.read(&id).expect("restored entry");
    assert!(back == sample_token());
}

#[test]
fn path_for_joins_root_and_identity() {
    let store = TokenCacheStore::new(".spotify_cache".to_string());
    assert_eq!(store.path_for(&"42".to_string()), ".spotify_cache/42".to_string());
}

// --- authorization flow ------------------------------------------------------

#[test]
fn initiate_fresh_session_redirects_to_provider() {
    // no cookie: 307, a new decimal identity as the cookie, and the
    // provider's authorize endpoint as the redirect target
    let r = initiate(None, "client-id", "client-secret").expect("authorize URL");
    assert_eq!(r.status, 307);
    let cookie = r.set_cookie.expect("a cookie is set for a new session");
    assert!(is_decimal(&cookie));
    assert!(r.location.starts_with("https://accounts.spotify.com/authorize"));
    assert!(r.location.contains("client-id"));
}

#[test]
fn initiate_fresh_sessions_get_distinct_identities() {
    let a = initiate(None, "", "").expect("authorize URL").set_cookie.unwrap();
    let b = initiate(None, "", "").expect("authorize URL").set_cookie.unwrap();
    assert_ne!(a, b);
}

#[test]
fn initiate_existing_session_goes_home() {
    // cookie already set: 307 to `/`, no new cookie
    let r = initiate(Some("42".to_string()), "", "").expect("redirect");
    assert_eq!(r.status, 307);
    assert!(r.set_cookie.is_none());
    assert_eq!(r.location, "/".to_string());
}

#[test]
fn plan_initiate_decides_by_cookie_presence() {
    // a known session is sent home and the provider is never consulted;
    // only a cookie-less request begins authorization
    assert_eq!(plan_initiate(&Some("42".to_string())), InitiateAction::GoHome);
    assert_eq!(plan_initiate(&Some("".to_string())), InitiateAction::GoHome);
    assert_eq!(plan_initiate(&None), InitiateAction::BeginAuthorization);
}

#[test]
fn home_redirect_shape() {
    let a = home_redirect();
    assert_eq!(a.status, 307);
    assert!(a.set_cookie.is_none());
    assert_eq!(a.location, "/".to_string());
}

#[test]
fn callback_without_code_is_rejected() {
    assert_eq!(validate_callback(None).unwrap_err(), BrokerError::MissingAuthorizationCode);
}

#[test]
fn callback_with_code_passes_it_on() {
    assert_eq!(validate_callback(Some("abc".to_string())).unwrap(), "abc".to_string());
}

#[test]
fn successful_exchange_persists_and_goes_home() {
    // cookie `42`, callback with a code the provider accepts: the entry for
    // `42` appears and the response is a 307 to `/`
    let mut store = TokenCacheStore::new(".cache".to_string());
    let id = "42".to_string();
    let code = validate_callback(Some("abc".to_string())).expect("code present");
    assert_eq!(code, "abc".to_string());
    let r = finish_exchange(&mut store, &id, Ok(sample_token())).expect("exchange accepted");
    assert_eq!(r.status, 307);
    assert_eq!(r.location, "/".to_string());
    assert!(r.set_cookie.is_none());
    assert!(store.has_entry(&id));
    assert_eq!(store.path_for(&id), ".cache/42".to_string());
    let back = store.read(&id).expect("persisted token");
    assert!(back == sample_token());
}

#[test]
fn failed_exchange_changes_nothing() {
    let mut store = TokenCacheStore::new(".cache".to_string());
    let id = "42".to_string();
    let e = finish_exchange(&mut store, &id, Err("rejected".to_string())).unwrap_err();
    assert_eq!(e, BrokerError::TokenExchange);
    assert!(!store.has_entry(&id));
}

// --- protected resource gateway ----------------------------------------------

#[test]
fn gateway_without_entry_answers_placeholder() {
    // no cache entry for `99`: the placeholder plan, the provider is never
    // consulted, and the canonical body is `[0]`
    let store = TokenCacheStore::new(".cache".to_string());
    let plan = gateway_begin(&store, &"99".to_string()).expect("plan");
    assert!(matches!(plan, GatewayPlan::RespondPlaceholder));
    assert_eq!(placeholder_json(), "[0]".to_string());
}

#[test]
fn gateway_with_entry_hands_out_token() {
    let mut store = TokenCacheStore::new(".cache".to_string());
    let id = "42".to_string();
    store.write(&id, &sample_token());
    let plan = gateway_begin(&store, &id).expect("plan");
    match plan {
        GatewayPlan::FetchWithToken(t) => assert!(t == sample_token()),
        GatewayPlan::RespondPlaceholder => panic!("entry exists"),
    }
}

#[test]
fn gateway_with_corrupt_entry_reports_it() {
    let mut store = TokenCacheStore::new(".cache".to_string());
    let id = "42".to_string();
    store.restore(&id, "junk".to_string());
    assert_eq!(gateway_begin(&store, &id).unwrap_err(), BrokerError::CorruptEntry);
}

#[test]
fn failed_fetch_soft_fails_to_placeholder() {
    // cache entry present but the provider fetch fails: placeholder, no error
    let p = render_fetch_outcome(Err("expired token".to_string()));
    assert!(matches!(p, ApiPayload::Placeholder));
}

#[test]
fn successful_fetch_is_rendered() {
    let p = render_fetch_outcome(Ok("{\"name\":\"me\"}".to_string()));
    match p {
        ApiPayload::Data(d) => assert_eq!(d, "{\"name\":\"me\"}".to_string()),
        ApiPayload::Placeholder => panic!("fetch succeeded"),
    }
}
