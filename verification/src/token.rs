use vstd::prelude::*;

verus! {

/// Mathematical model of a cached provider token: the access token, the
/// optional refresh token, and the optional expiry instant in seconds since
/// the epoch.
pub ghost struct TokenView {
    pub access: Seq<char>,
    pub refresh: Option<Seq<char>>,
    pub expires_at: Option<u64>,
}

/// A provider-issued OAuth token as the broker caches it per session:
/// the access token, an optional refresh token, and an optional expiry
/// instant in seconds since the epoch.
#[derive(Debug)]
pub struct Token {
    pub access_token: String,
    pub refresh_token: Option<String>,
    pub expires_at: Option<u64>,
}

impl View for Token {
    type V = TokenView;

    open spec fn view(&self) -> TokenView {
        TokenView {
            access: self.access_token@,
            refresh: match self.refresh_token {
                Some(r) => Some(r@),
                None => None,
            },
            expires_at: self.expires_at,
        }
    }
}

impl PartialEq for Token {
    fn eq(&self, other: &Token) -> bool {
        let access_eq = self.access_token.eq(&other.access_token);
        let refresh_eq = match (&self.refresh_token, &other.refresh_token) {
            (None, None) => true,
            (Some(a), Some(b)) => a.eq(b),
            _ => false,
        };
        let expires_eq = match (self.expires_at, other.expires_at) {
            (None, None) => true,
            (Some(a), Some(b)) => a == b,
            _ => false,
        };
        access_eq && refresh_eq && expires_eq
    }
}

impl vstd::std_specs::cmp::PartialEqSpecImpl for Token {
    open spec fn obeys_eq_spec() -> bool {
        true
    }

    open spec fn eq_spec(&self, other: &Token) -> bool {
        self@ == other@
    }
}

} // verus!
