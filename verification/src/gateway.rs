use vstd::prelude::*;

use crate::codec::spec_dec_token;
use crate::errors::BrokerError;
use crate::store::TokenCacheStore;
use crate::token::Token;

verus! {

/// What a protected endpoint must do for a session.
#[derive(Debug)]
pub enum GatewayPlan {
    /// No cache entry exists: the session is unauthenticated. Respond with
    /// the placeholder payload; the provider capability is never invoked.
    RespondPlaceholder,
    /// The session's cached token, to be handed to the provider for the
    /// actual resource fetch.
    FetchWithToken(Token),
}

/// The guard applied by every endpoint that calls the provider on the user's
/// behalf. A session with no cache entry gets the placeholder plan, so the
/// provider is never invoked for it; a session with a readable entry gets
/// its token; an unreadable entry is `CorruptEntry`.
pub fn gateway_begin(store: &TokenCacheStore, id: &String) -> (r: Result<
    GatewayPlan,
    BrokerError,
>)
    requires
        store.wf(),
    ensures
        !store@.contains_key(id@) ==> r == Ok::<GatewayPlan, BrokerError>(
            GatewayPlan::RespondPlaceholder,
        ),
        store@.contains_key(id@) ==> match spec_dec_token(store@[id@]) {
            Some(tv) => (r matches Ok(p) && p matches GatewayPlan::FetchWithToken(t) && t@
                == tv),
            None => r == Err::<GatewayPlan, BrokerError>(BrokerError::CorruptEntry),
        },
{
    if !store.has_entry(id) {
        Ok(GatewayPlan::RespondPlaceholder)
    } else {
        match store.read(id) {
            Ok(t) => Ok(GatewayPlan::FetchWithToken(t)),
            Err(e) => Err(e),
        }
    }
}

/// How a protected endpoint renders the provider's fetch outcome.
pub enum ApiPayload {
    /// The canonical empty marker, rendered as the JSON body `[0]`.
    Placeholder,
    /// The fetched resource, serialized.
    Data(String),
}

/// The canonical placeholder body.
pub fn placeholder_json() -> (s: String)
    ensures
        s@ == "[0]"@,
{
    "[0]".to_owned()
}

/// A successful fetch is rendered as its payload; a provider-level failure
/// (expired token, network failure) is soft-failed to the placeholder,
/// never surfaced as an HTTP error.
pub fn render_fetch_outcome(outcome: Result<String, String>) -> (p: ApiPayload)
    ensures
        outcome matches Ok(d) ==> (p matches ApiPayload::Data(s) && s@ == d@),
        outcome matches Err(_) ==> p == ApiPayload::Placeholder,
{
    match outcome {
        Ok(d) => ApiPayload::Data(d),
        Err(_) => ApiPayload::Placeholder,
    }
}

} // verus!
