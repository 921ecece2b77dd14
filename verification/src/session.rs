use vstd::prelude::*;

use crate::codec::{dec_digits, lemma_dec_digits_injective, push_dec_digits};
use crate::provider::mint_raw_identity;

verus! {

/// The session identity string of a raw 128-bit identity value: its decimal
/// digits.
pub fn session_id_of(raw: u128) -> (id: String)
    ensures
        id@ == dec_digits(raw as nat),
{
    let mut id = String::new();
    push_dec_digits(&mut id, raw);
    assert(id@ =~= dec_digits(raw as nat));
    id
}

/// Resolves the session identity of a request. An inbound cookie value is
/// returned unchanged, and `is_new` is false. Where no cookie came, a fresh
/// random identity is minted server-side and `is_new` is true; the caller is
/// responsible for setting the cookie on the response.
pub fn resolve_identity(cookie: Option<String>) -> (r: (String, bool))
    ensures
        cookie matches Some(c) ==> r.1 == false && r.0@ == c@,
        cookie is None ==> r.1 == true && exists|n: u128| r.0@ == dec_digits(n as nat),
{
    match cookie {
        Some(c) => (c, false),
        None => {
            let raw = mint_raw_identity();
            let id = session_id_of(raw);
            assert(id@ == dec_digits(raw as nat));
            (id, true)
        },
    }
}

/// Distinct raw identity values always yield distinct session identities:
/// the decimal encoding is injective, so two freshly minted identities
/// coincide only where the random draws themselves coincide.
pub proof fn lemma_identity_injective(a: u128, b: u128)
    requires
        a != b,
    ensures
        dec_digits(a as nat) != dec_digits(b as nat),
{
    lemma_dec_digits_injective(a as nat, b as nat);
}

} // verus!
