use vstd::prelude::*;

verus! {

/// Relies on uuid's `Uuid::new_v4`: a freshly drawn random version-4
/// identifier, taken as its 128-bit value. The value is random, so nothing
/// is promised of it; two calls may return anything.
#[verifier::external_body]
pub(crate) fn mint_raw_identity() -> u128 {
    uuid::Uuid::new_v4().as_u128()
}

/// The permissions the broker requests from the provider.
pub fn required_scopes() -> (v: Vec<String>)
    ensures
        v@.len() == 2,
        v@[0]@ == "user-read-currently-playing"@,
        v@[1]@ == "playlist-modify-private"@,
{
    let mut v: Vec<String> = Vec::new();
    v.push("user-read-currently-playing".to_owned());
    v.push("playlist-modify-private".to_owned());
    v
}

/// The redirect URI registered with the provider: the callback endpoint.
pub fn callback_redirect_uri() -> (s: String)
    ensures
        s@ == "http://localhost:3030/callback"@,
{
    "http://localhost:3030/callback".to_owned()
}

/// Relies on rspotify's `AuthCodeSpotify::get_authorize_url`: builds the
/// provider's authorization URL from the credentials, the scopes and the
/// redirect URI. The URL embeds a state nonce that rspotify draws at random,
/// so nothing is promised of its text beyond non-emptiness: on success the
/// result is the string form of a parsed absolute URL.
#[verifier::external_body]
pub(crate) fn provider_authorize_url(
    client_id: &str,
    client_secret: &str,
    scopes: &Vec<String>,
    redirect_uri: &str,
) -> (r: Result<String, String>)
    ensures
        r matches Ok(u) ==> u@.len() > 0,
{
    let oauth = rspotify::OAuth {
        scopes: scopes.iter().cloned().collect(),
        redirect_uri: redirect_uri.to_owned(),
        ..rspotify::OAuth::default()
    };
    let creds = rspotify::Credentials::new(client_id, client_secret);
    let client = rspotify::AuthCodeSpotify::with_config(creds, oauth, rspotify::Config::default());
    client.get_authorize_url(true).map_err(|e| e.to_string())
}

} // verus!
