use vstd::prelude::*;

use crate::codec::{dec_digits, spec_enc_token};
use crate::errors::BrokerError;
use crate::provider;
use crate::session;
use crate::store::TokenCacheStore;
use crate::token::{Token, TokenView};

verus! {

/// An HTTP-level decision of the flow controller: the status code, the
/// session cookie to set (if any), and the redirect target.
#[derive(Debug)]
pub struct AuthResponse {
    pub status: u16,
    pub set_cookie: Option<String>,
    pub location: String,
}

/// The temporary redirect to `/`, leaving the cookie untouched.
pub fn home_redirect() -> (a: AuthResponse)
    ensures
        a.status == 307 && a.set_cookie is None && a.location@ == "/"@,
{
    AuthResponse { status: 307, set_cookie: None, location: "/".to_owned() }
}

/// The response for a newly minted session, given the outcome of the
/// provider's authorize-URL construction: on success a redirect to that URL
/// carrying the new identity as the cookie; on failure `Provider`.
pub fn initiate_new_session(id: String, url: Result<String, String>) -> (r: Result<
    AuthResponse,
    BrokerError,
>)
    ensures
        url matches Ok(u) ==> (r matches Ok(a) && a.status == 307 && (a.set_cookie matches Some(
            s,
        ) && s@ == id@) && a.location@ == u@),
        url matches Err(_) ==> r == Err::<AuthResponse, BrokerError>(BrokerError::Provider),
{
    match url {
        Ok(u) => Ok(AuthResponse { status: 307, set_cookie: Some(id), location: u }),
        Err(_) => Err(BrokerError::Provider),
    }
}

/// What the initiate phase does with a request.
#[derive(Debug, PartialEq, Eq, Structural)]
pub enum InitiateAction {
    /// The session is already known: redirect home, leave the cookie in
    /// place, and never contact the provider's authorize-URL builder.
    GoHome,
    /// No session yet: mint an identity and request an authorize URL.
    BeginAuthorization,
}

/// The initiate decision: a session with a cookie is sent home, whether or
/// not a token exists; only a session without one reaches the provider.
pub fn plan_initiate(cookie: &Option<String>) -> (a: InitiateAction)
    ensures
        cookie matches Some(_) ==> a == InitiateAction::GoHome,
        cookie is None ==> a == InitiateAction::BeginAuthorization,
{
    match cookie {
        Some(_) => InitiateAction::GoHome,
        None => InitiateAction::BeginAuthorization,
    }
}

/// Initiates the authorization flow for a request.
///
/// A session that is already known (the cookie is present, whether or not a
/// token exists) is redirected to `/`; the cookie is never overwritten and
/// the provider's authorize-URL builder is never contacted (see
/// `plan_initiate`). A new session gets a freshly minted decimal identity as
/// its cookie and is redirected to the provider's authorization URL;
/// `Provider` where that URL cannot be constructed.
pub fn initiate(cookie: Option<String>, client_id: &str, client_secret: &str) -> (r: Result<
    AuthResponse,
    BrokerError,
>)
    ensures
        cookie matches Some(_) ==> (r matches Ok(a) && a.status == 307 && a.set_cookie is None
            && a.location@ == "/"@),
        cookie is None ==> match r {
            Ok(a) => a.status == 307 && a.location@.len() > 0 && (a.set_cookie matches Some(s)
                && exists|n: u128| s@ == dec_digits(n as nat)),
            Err(e) => e == BrokerError::Provider,
        },
{
    match plan_initiate(&cookie) {
        InitiateAction::GoHome => Ok(home_redirect()),
        InitiateAction::BeginAuthorization => {
            let raw = provider::mint_raw_identity();
            let id = session::session_id_of(raw);
            let ghost idv = id@;
            let scopes = provider::required_scopes();
            let uri = provider::callback_redirect_uri();
            let url = provider::provider_authorize_url(
                client_id,
                client_secret,
                &scopes,
                uri.as_str(),
            );
            let r = initiate_new_session(id, url);
            proof {
                assert(idv == dec_digits(raw as nat));
            }
            r
        },
    }
}

/// What the callback phase decides from the optional `code` query parameter:
/// the code itself where one came, `MissingAuthorizationCode` where none did.
pub open spec fn spec_validate_callback(code: Option<Seq<char>>) -> Result<
    Seq<char>,
    BrokerError,
> {
    match code {
        Some(c) => Ok(c),
        None => Err(BrokerError::MissingAuthorizationCode),
    }
}

/// Requires the authorization code of a callback request to be present;
/// the caller must not proceed to the exchange without one.
pub fn validate_callback(code: Option<String>) -> (r: Result<String, BrokerError>)
    ensures
        code matches Some(c) ==> (r matches Ok(rc) && rc@ == c@),
        code is None ==> r == Err::<String, BrokerError>(
            BrokerError::MissingAuthorizationCode,
        ),
{
    match code {
        Some(c) => Ok(c),
        None => Err(BrokerError::MissingAuthorizationCode),
    }
}

/// The cache after the exchange phase: a successful exchange writes the
/// serialized token under the session identity; a failed one leaves the
/// cache exactly as it was.
pub open spec fn spec_exchange_cache(
    cache: Map<Seq<char>, Seq<char>>,
    id: Seq<char>,
    outcome: Result<TokenView, Seq<char>>,
) -> Map<Seq<char>, Seq<char>> {
    match outcome {
        Ok(t) => cache.insert(id, spec_enc_token(t)),
        Err(_) => cache,
    }
}

/// The cache after the whole callback step: with no code the exchange never
/// runs and the cache is untouched; with one, the exchange outcome decides.
pub open spec fn spec_callback_cache(
    cache: Map<Seq<char>, Seq<char>>,
    id: Seq<char>,
    code: Option<Seq<char>>,
    outcome: Result<TokenView, Seq<char>>,
) -> Map<Seq<char>, Seq<char>> {
    match code {
        None => cache,
        Some(_) => spec_exchange_cache(cache, id, outcome),
    }
}

/// Completes the exchange phase for a session, given the provider's outcome
/// for the session's code. Success persists the token through the store and
/// redirects to `/`; a provider failure changes nothing and is reported as
/// `TokenExchange`, never as a crash.
pub fn finish_exchange(
    store: &mut TokenCacheStore,
    id: &String,
    outcome: Result<Token, String>,
) -> (r: Result<AuthResponse, BrokerError>)
    requires
        old(store).wf(),
    ensures
        final(store).wf(),
        final(store).root_view() == old(store).root_view(),
        final(store)@ == spec_exchange_cache(
            old(store)@,
            id@,
            match outcome {
                Ok(t) => Ok::<TokenView, Seq<char>>(t@),
                Err(e) => Err::<TokenView, Seq<char>>(e@),
            },
        ),
        outcome matches Ok(_) ==> (r matches Ok(a) && a.status == 307 && a.set_cookie is None
            && a.location@ == "/"@),
        outcome matches Err(_) ==> r == Err::<AuthResponse, BrokerError>(
            BrokerError::TokenExchange,
        ),
{
    match outcome {
        Ok(t) => {
            store.write(id, &t);
            Ok(home_redirect())
        },
        Err(_) => Err(BrokerError::TokenExchange),
    }
}

/// A callback that carries no authorization code always fails with
/// `MissingAuthorizationCode`, and the token cache store is never reached:
/// whatever the session and whatever any exchange would have returned, the
/// cache after the callback step equals the cache before it.
pub proof fn lemma_missing_code_rejected(
    cache: Map<Seq<char>, Seq<char>>,
    id: Seq<char>,
    outcome: Result<TokenView, Seq<char>>,
)
    ensures
        spec_validate_callback(None) == Err::<Seq<char>, BrokerError>(
            BrokerError::MissingAuthorizationCode,
        ),
        spec_callback_cache(cache, id, None, outcome) == cache,
{
}

} // verus!
