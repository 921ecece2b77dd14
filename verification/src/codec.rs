use vstd::prelude::*;

use crate::token::{Token, TokenView};

verus! {

// ---------------------------------------------------------------------------
// Decimal digits
// ---------------------------------------------------------------------------

/// The character for one decimal digit.
pub open spec fn digit_char(d: nat) -> char {
    if d == 0 {
        '0'
    } else if d == 1 {
        '1'
    } else if d == 2 {
        '2'
    } else if d == 3 {
        '3'
    } else if d == 4 {
        '4'
    } else if d == 5 {
        '5'
    } else if d == 6 {
        '6'
    } else if d == 7 {
        '7'
    } else if d == 8 {
        '8'
    } else {
        '9'
    }
}

pub open spec fn is_digit(c: char) -> bool {
    48 <= c as int && c as int <= 57
}

pub open spec fn digit_val(c: char) -> nat {
    (c as int - 48) as nat
}

/// The decimal digit string of `n`, most significant digit first, without
/// leading zeros (`0` itself is the single digit `0`).
pub open spec fn dec_digits(n: nat) -> Seq<char>
    decreases n,
{
    if n < 10 {
        seq![digit_char(n)]
    } else {
        dec_digits(n / 10).push(digit_char(n % 10))
    }
}

pub open spec fn all_digits(s: Seq<char>) -> bool {
    forall|i: int| 0 <= i < s.len() ==> is_digit(#[trigger] s[i])
}

/// The value of a digit string, most significant digit first.
pub open spec fn val_of_digits(s: Seq<char>) -> nat
    decreases s.len(),
{
    if s.len() == 0 {
        0
    } else {
        val_of_digits(s.drop_last()) * 10 + digit_val(s.last())
    }
}

pub proof fn lemma_dec_digits_props(n: nat)
    ensures
        dec_digits(n).len() >= 1,
        all_digits(dec_digits(n)),
        val_of_digits(dec_digits(n)) == n,
    decreases n,
{
    if n < 10 {
        let s = dec_digits(n);
        assert(s == seq![digit_char(n)]);
        assert(s.len() == 1 && s.last() == digit_char(n));
        assert(s.drop_last() =~= Seq::<char>::empty());
        assert(val_of_digits(s.drop_last()) == 0);
        assert(val_of_digits(s) == 0 * 10 + digit_val(digit_char(n)));
        assert(digit_val(digit_char(n)) == n);
    } else {
        lemma_dec_digits_props(n / 10);
        let p = dec_digits(n / 10);
        let s = dec_digits(n);
        assert(s == p.push(digit_char(n % 10)));
        assert(s.drop_last() =~= p);
        assert(s.last() == digit_char(n % 10));
        assert(digit_val(digit_char(n % 10)) == n % 10);
        assert(val_of_digits(s) == (n / 10) * 10 + n % 10);
        assert((n / 10) * 10 + n % 10 == n) by (nonlinear_arith);
        assert forall|i: int| 0 <= i < s.len() implies is_digit(#[trigger] s[i]) by {
            if i < p.len() {
                assert(s[i] == p[i]);
            } else {
                assert(s[i] == digit_char(n % 10));
            }
        }
    }
}

/// Distinct numbers have distinct decimal digit strings.
pub proof fn lemma_dec_digits_injective(a: nat, b: nat)
    requires
        a != b,
    ensures
        dec_digits(a) != dec_digits(b),
{
    lemma_dec_digits_props(a);
    lemma_dec_digits_props(b);
}

/// The value of a digit string never shrinks as the string grows.
pub proof fn lemma_val_prefix_le(s: Seq<char>, k: int)
    requires
        0 <= k <= s.len(),
    ensures
        val_of_digits(s.subrange(0, k)) <= val_of_digits(s),
    decreases s.len() - k,
{
    if k == s.len() {
        assert(s.subrange(0, k) =~= s);
    } else {
        lemma_val_prefix_le(s, k + 1);
        let t = s.subrange(0, k + 1);
        assert(t.drop_last() =~= s.subrange(0, k));
        assert(t.last() == s[k]);
        assert(val_of_digits(t) == val_of_digits(s.subrange(0, k)) * 10 + digit_val(s[k]));
        assert(val_of_digits(s.subrange(0, k)) <= val_of_digits(s.subrange(0, k)) * 10)
            by (nonlinear_arith);
    }
}

// ---------------------------------------------------------------------------
// The shape of a serialized token
// ---------------------------------------------------------------------------

/// The position of the first colon in `s` at or after `i`.
pub open spec fn first_colon_from(s: Seq<char>, i: nat) -> Option<nat>
    decreases s.len() - i,
{
    if i >= s.len() {
        None
    } else if s[i as int] == ':' {
        Some(i)
    } else {
        first_colon_from(s, i + 1)
    }
}

pub proof fn lemma_first_colon_at(s: Seq<char>, i: nat, j: nat)
    requires
        i <= j < s.len(),
        s[j as int] == ':',
        forall|k: int| i <= k < j ==> s[k] != ':',
    ensures
        first_colon_from(s, i) == Some(j),
    decreases j - i,
{
    if i < j {
        lemma_first_colon_at(s, i + 1, j);
    }
}

pub proof fn lemma_first_colon_none(s: Seq<char>, i: nat)
    requires
        i <= s.len(),
        forall|k: int| i <= k < s.len() ==> s[k] != ':',
    ensures
        first_colon_from(s, i) is None,
    decreases s.len() - i,
{
    if i < s.len() {
        lemma_first_colon_none(s, i + 1);
    }
}

/// Reads a length-prefixed string starting at `i`: decimal digits, a colon,
/// then exactly that many characters. Yields the string and the position just
/// past it.
pub open spec fn spec_dec_lenstr(s: Seq<char>, i: nat) -> Option<(Seq<char>, nat)> {
    match first_colon_from(s, i) {
        None => None,
        Some(j) => {
            if j == i {
                None
            } else if !all_digits(s.subrange(i as int, j as int)) {
                None
            } else {
                let n = val_of_digits(s.subrange(i as int, j as int));
                if j + 1 + n > s.len() {
                    None
                } else {
                    Some((s.subrange(j as int + 1, (j + 1 + n) as int), (j + 1 + n) as nat))
                }
            }
        },
    }
}

/// Reads decimal digits from `i` to the end of `s`.
pub open spec fn spec_dec_tailnum(s: Seq<char>, i: nat) -> Option<nat> {
    if i >= s.len() {
        None
    } else if !all_digits(s.subrange(i as int, s.len() as int)) {
        None
    } else {
        Some(val_of_digits(s.subrange(i as int, s.len() as int)))
    }
}

/// Reads the expiry part at `q` and assembles the token.
pub open spec fn spec_dec_expiry(
    s: Seq<char>,
    q: nat,
    access: Seq<char>,
    refresh: Option<Seq<char>>,
) -> Option<TokenView> {
    if q >= s.len() {
        None
    } else if s[q as int] == '-' {
        if q + 1 == s.len() {
            Some(TokenView { access, refresh, expires_at: None })
        } else {
            None
        }
    } else if s[q as int] == '+' {
        match spec_dec_tailnum(s, q + 1) {
            None => None,
            Some(e) => {
                if e <= u64::MAX {
                    Some(TokenView { access, refresh, expires_at: Some(e as u64) })
                } else {
                    None
                }
            },
        }
    } else {
        None
    }
}

/// The deserialized token of a blob, or `None` where the blob is not a
/// serialized token.
pub open spec fn spec_dec_token(s: Seq<char>) -> Option<TokenView> {
    match spec_dec_lenstr(s, 0) {
        None => None,
        Some((access, p)) => {
            if p >= s.len() {
                None
            } else if s[p as int] == '-' {
                spec_dec_expiry(s, p + 1, access, None)
            } else if s[p as int] == '+' {
                match spec_dec_lenstr(s, p + 1) {
                    None => None,
                    Some((refresh, q)) => spec_dec_expiry(s, q, access, Some(refresh)),
                }
            } else {
                None
            }
        },
    }
}

// ---------------------------------------------------------------------------
// Token encoding
// ---------------------------------------------------------------------------

/// A length-prefixed string: the decimal length, a colon, the characters.
pub open spec fn spec_enc_lenstr(s: Seq<char>) -> Seq<char> {
    dec_digits(s.len() as nat) + seq![':'] + s
}

pub open spec fn spec_enc_refresh(r: Option<Seq<char>>) -> Seq<char> {
    match r {
        None => seq!['-'],
        Some(w) => seq!['+'] + spec_enc_lenstr(w),
    }
}

pub open spec fn spec_enc_expiry(e: Option<u64>) -> Seq<char> {
    match e {
        None => seq!['-'],
        Some(v) => seq!['+'] + dec_digits(v as nat),
    }
}

/// The serialized form of a token: the length-prefixed access token, then
/// the optional length-prefixed refresh token, then the optional expiry as
/// trailing decimal digits.
pub open spec fn spec_enc_token(t: TokenView) -> Seq<char> {
    spec_enc_lenstr(t.access) + spec_enc_refresh(t.refresh) + spec_enc_expiry(t.expires_at)
}

/// Relies on `String::push`: appends the given character to the end of the
/// string.
#[verifier::external_body]
fn push_char(s: &mut String, c: char)
    ensures
        final(s)@ == old(s)@.push(c),
{
    s.push(c);
}

fn digit_char_exec(d: u8) -> (c: char)
    requires
        d < 10,
    ensures
        c == digit_char(d as nat),
{
    match d {
        0 => '0',
        1 => '1',
        2 => '2',
        3 => '3',
        4 => '4',
        5 => '5',
        6 => '6',
        7 => '7',
        8 => '8',
        _ => '9',
    }
}

/// Appends the decimal digits of `n` to `s`.
pub fn push_dec_digits(s: &mut String, n: u128)
    ensures
        final(s)@ == old(s)@ + dec_digits(n as nat),
    decreases n,
{
    if n < 10 {
        push_char(s, digit_char_exec(n as u8));
        assert(old(s)@.push(digit_char(n as nat)) =~= old(s)@ + dec_digits(n as nat));
    } else {
        push_dec_digits(s, n / 10);
        push_char(s, digit_char_exec((n % 10) as u8));
        assert((old(s)@ + dec_digits((n / 10) as nat)).push(digit_char((n % 10) as nat)) =~= old(
            s,
        )@ + dec_digits(n as nat));
    }
}

/// Appends the length-prefixed form of `w` to `s`.
fn push_lenstr(s: &mut String, w: &String)
    ensures
        final(s)@ == old(s)@ + spec_enc_lenstr(w@),
{
    let len = w.as_str().unicode_len();
    push_dec_digits(s, len as u128);
    push_char(s, ':');
    s.append(w.as_str());
    assert(((old(s)@ + dec_digits(len as nat)).push(':')) + w@ =~= old(s)@ + spec_enc_lenstr(
        w@,
    ));
}

/// Serializes a token. The result is exactly `spec_enc_token` of the token's
/// model, so `decode_token` recovers the token (see `lemma_token_round_trip`).
pub fn encode_token(t: &Token) -> (b: String)
    ensures
        b@ == spec_enc_token(t@),
{
    let mut b = String::new();
    push_lenstr(&mut b, &t.access_token);
    let ghost after_access = b@;
    match &t.refresh_token {
        None => {
            push_char(&mut b, '-');
            assert(b@ =~= after_access + spec_enc_refresh(t@.refresh));
        },
        Some(r) => {
            push_char(&mut b, '+');
            push_lenstr(&mut b, r);
            assert(b@ =~= after_access + spec_enc_refresh(t@.refresh));
        },
    }
    let ghost after_refresh = b@;
    match t.expires_at {
        None => {
            push_char(&mut b, '-');
            assert(b@ =~= after_refresh + spec_enc_expiry(t@.expires_at));
        },
        Some(e) => {
            push_char(&mut b, '+');
            push_dec_digits(&mut b, e as u128);
            assert(b@ =~= after_refresh + spec_enc_expiry(t@.expires_at));
        },
    }
    assert(b@ =~= spec_enc_token(t@));
    b
}

// ---------------------------------------------------------------------------
// Token decoding
// ---------------------------------------------------------------------------

fn find_colon(s: &str, from: usize) -> (r: Option<usize>)
    requires
        from <= s@.len(),
    ensures
        match r {
            Some(j) => first_colon_from(s@, from as nat) == Some(j as nat) && from <= j
                < s@.len(),
            None => first_colon_from(s@, from as nat) is None,
        },
{
    let n = s.unicode_len();
    let mut i = from;
    while i < n
        invariant
            from <= i <= n,
            n == s@.len(),
            forall|k: int| from <= k < i ==> s@[k] != ':',
        decreases n - i,
    {
        if s.get_char(i) == ':' {
            proof {
                lemma_first_colon_at(s@, from as nat, i as nat);
            }
            return Some(i);
        }
        i = i + 1;
    }
    proof {
        lemma_first_colon_none(s@, from as nat);
    }
    None
}

fn parse_digits_range(s: &str, from: usize, to: usize) -> (r: Option<u64>)
    requires
        from <= to <= s@.len(),
    ensures
        r matches Some(v) ==> all_digits(s@.subrange(from as int, to as int)) && v as nat
            == val_of_digits(s@.subrange(from as int, to as int)),
        r is None ==> !(all_digits(s@.subrange(from as int, to as int)) && val_of_digits(
            s@.subrange(from as int, to as int),
        ) <= u64::MAX),
{
    let ghost whole = s@.subrange(from as int, to as int);
    let mut i = from;
    let mut acc: u128 = 0;
    while i < to
        invariant
            from <= i <= to <= s@.len(),
            acc <= u64::MAX,
            all_digits(s@.subrange(from as int, i as int)),
            acc as nat == val_of_digits(s@.subrange(from as int, i as int)),
            whole == s@.subrange(from as int, to as int),
        decreases to - i,
    {
        let c = s.get_char(i);
        let v = c as u32;
        proof {
            assert(s@.subrange(from as int, i as int + 1).drop_last() =~= s@.subrange(
                from as int,
                i as int,
            ));
            assert(s@.subrange(from as int, i as int + 1).last() == s@[i as int]);
        }
        if v < 48 || v > 57 {
            proof {
                assert(!is_digit(s@[i as int]));
                assert(whole[i - from] == s@[i as int]);
                assert(!all_digits(whole));
            }
            return None;
        }
        let d = (v - 48) as u128;
        let next = acc * 10 + d;
        if next > u64::MAX as u128 {
            proof {
                let upto = s@.subrange(from as int, i as int + 1);
                assert(digit_val(s@[i as int]) == d as nat);
                assert(val_of_digits(upto) == acc as nat * 10 + d as nat);
                lemma_val_prefix_le(whole, i as int + 1 - from);
                assert(whole.subrange(0, i as int + 1 - from) =~= upto);
                assert(val_of_digits(whole) >= val_of_digits(upto));
            }
            return None;
        }
        proof {
            assert(digit_val(s@[i as int]) == d as nat);
            assert(all_digits(s@.subrange(from as int, i as int + 1))) by {
                let upto = s@.subrange(from as int, i as int + 1);
                assert forall|k: int| 0 <= k < upto.len() implies is_digit(
                    #[trigger] upto[k],
                ) by {
                    if k < i - from {
                        assert(upto[k] == s@.subrange(from as int, i as int)[k]);
                    } else {
                        assert(upto[k] == s@[i as int]);
                    }
                }
            }
        }
        acc = next;
        i = i + 1;
    }
    proof {
        assert(s@.subrange(from as int, i as int) =~= whole);
    }
    Some(acc as u64)
}

fn decode_lenstr(s: &str, from: usize) -> (r: Option<(String, usize)>)
    requires
        from <= s@.len(),
    ensures
        match r {
            None => spec_dec_lenstr(s@, from as nat) is None,
            Some(p) => spec_dec_lenstr(s@, from as nat) == Some((p.0@, p.1 as nat)) && from
                < p.1 <= s@.len(),
        },
{
    let n = s.unicode_len();
    assert(n <= usize::MAX);
    let j = match find_colon(s, from) {
        None => {
            return None;
        },
        Some(j) => j,
    };
    if j == from {
        return None;
    }
    let ghost digits = s@.subrange(from as int, j as int);
    let v = match parse_digits_range(s, from, j) {
        None => {
            proof {
                if all_digits(digits) && val_of_digits(digits) > u64::MAX {
                    assert(val_of_digits(digits) > s@.len());
                }
            }
            return None;
        },
        Some(v) => v,
    };
    if (v as u128) > (n - j - 1) as u128 {
        return None;
    }
    let alen = v as usize;
    let w = s.substring_char(j + 1, j + 1 + alen).to_owned();
    assert(w@ == s@.subrange(j as int + 1, (j + 1 + alen) as int));
    Some((w, j + 1 + alen))
}

fn decode_expiry(s: &str, q: usize, access: String, refresh: Option<String>) -> (r: Option<
    Token,
>)
    requires
        q <= s@.len(),
    ensures
        match r {
            None => spec_dec_expiry(
                s@,
                q as nat,
                access@,
                match refresh {
                    Some(w) => Some(w@),
                    None => None,
                },
            ) is None,
            Some(t) => spec_dec_expiry(
                s@,
                q as nat,
                access@,
                match refresh {
                    Some(w) => Some(w@),
                    None => None,
                },
            ) == Some(t@),
        },
{
    let n = s.unicode_len();
    if q >= n {
        return None;
    }
    let c = s.get_char(q);
    if c == '-' {
        if q + 1 == n {
            Some(Token { access_token: access, refresh_token: refresh, expires_at: None })
        } else {
            None
        }
    } else if c == '+' {
        if q + 1 >= n {
            return None;
        }
        let ghost digits = s@.subrange(q as int + 1, s@.len() as int);
        match parse_digits_range(s, q + 1, n) {
            None => {
                proof {
                    if all_digits(digits) {
                        assert(spec_dec_tailnum(s@, q as nat + 1) == Some(
                            val_of_digits(digits),
                        ));
                        assert(val_of_digits(digits) > u64::MAX);
                    }
                }
                None
            },
            Some(v) => {
                assert(spec_dec_tailnum(s@, q as nat + 1) == Some(v as nat));
                Some(
                    Token {
                        access_token: access,
                        refresh_token: refresh,
                        expires_at: Some(v),
                    },
                )
            },
        }
    } else {
        None
    }
}

/// Deserializes a blob, returning exactly what `spec_dec_token` says of it.
pub fn decode_token(s: &str) -> (r: Option<Token>)
    ensures
        match r {
            None => spec_dec_token(s@) is None,
            Some(t) => spec_dec_token(s@) == Some(t@),
        },
{
    let n = s.unicode_len();
    let (access, p) = match decode_lenstr(s, 0) {
        None => {
            return None;
        },
        Some(p) => p,
    };
    if p >= n {
        return None;
    }
    let c = s.get_char(p);
    if c == '-' {
        decode_expiry(s, p + 1, access, None)
    } else if c == '+' {
        let (refresh, q) = match decode_lenstr(s, p + 1) {
            None => {
                return None;
            },
            Some(p) => p,
        };
        decode_expiry(s, q, access, Some(refresh))
    } else {
        None
    }
}

// ---------------------------------------------------------------------------
// The round trip
// ---------------------------------------------------------------------------

proof fn lemma_dec_lenstr_of_enc(s: Seq<char>, i: nat, w: Seq<char>)
    requires
        i + spec_enc_lenstr(w).len() <= s.len(),
        s.subrange(i as int, i as int + spec_enc_lenstr(w).len() as int) == spec_enc_lenstr(w),
    ensures
        spec_dec_lenstr(s, i) == Some((w, (i + spec_enc_lenstr(w).len()) as nat)),
{
    let d = dec_digits(w.len() as nat);
    lemma_dec_digits_props(w.len() as nat);
    let e = spec_enc_lenstr(w);
    let j = i + d.len();
    assert(e[d.len() as int] == ':');
    assert(s[j as int] == e[d.len() as int]);
    assert forall|k: int| i <= k < j implies s[k] != ':' by {
        assert(s[k] == e[k - i]);
        assert(e[k - i] == d[k - i]);
        assert(is_digit(d[k - i]));
    }
    lemma_first_colon_at(s, i, j);
    assert(s.subrange(i as int, j as int) =~= d);
    assert(val_of_digits(d) == w.len());
    assert(j + 1 + w.len() == i + e.len());
    assert(s.subrange(j as int + 1, (j + 1 + w.len()) as int) =~= w) by {
        assert forall|k: int| 0 <= k < w.len() implies s.subrange(
            j as int + 1,
            (j + 1 + w.len()) as int,
        )[k] == w[k] by {
            assert(s[j as int + 1 + k] == e[d.len() as int + 1 + k]);
            assert(e[d.len() as int + 1 + k] == w[k]);
        }
    }
}

/// The round trip: decoding the serialized form of any token model yields
/// exactly that model. With the contracts of `TokenCacheStore::write` and
/// `TokenCacheStore::read`, a write immediately followed by a read of the
/// same identifier returns a token equal to the one written.
pub proof fn lemma_token_round_trip(t: TokenView)
    ensures
        spec_dec_token(spec_enc_token(t)) == Some(t),
{
    let s = spec_enc_token(t);
    let a = spec_enc_lenstr(t.access);
    let r = spec_enc_refresh(t.refresh);
    let x = spec_enc_expiry(t.expires_at);
    assert(s == a + r + x);
    assert(s.subrange(0, a.len() as int) =~= a);
    lemma_dec_lenstr_of_enc(s, 0, t.access);
    let p = a.len();
    assert(r.len() >= 1 && x.len() >= 1) by {
        match t.refresh {
            None => {},
            Some(w) => {
                lemma_dec_digits_props(w.len() as nat);
            },
        }
        match t.expires_at {
            None => {},
            Some(v) => {
                lemma_dec_digits_props(v as nat);
            },
        }
    }
    assert(p < s.len());
    assert(s[p as int] == r[0]);
    let q: nat = match t.refresh {
        None => {
            assert(s[p as int] == '-');
            (p + 1) as nat
        },
        Some(w) => {
            assert(s[p as int] == '+');
            let ew = spec_enc_lenstr(w);
            assert(s.subrange(p as int + 1, p as int + 1 + ew.len() as int) =~= ew) by {
                assert forall|k: int| 0 <= k < ew.len() implies s[p as int + 1 + k] == ew[k] by {
                    assert(s[p as int + 1 + k] == r[1 + k]);
                }
            }
            lemma_dec_lenstr_of_enc(s, p + 1, w);
            (p + 1 + ew.len()) as nat
        },
    };
    assert(q == a.len() + r.len());
    assert(s[q as int] == x[0]);
    match t.expires_at {
        None => {
            assert(s[q as int] == '-');
            assert(q + 1 == s.len());
            assert(spec_dec_expiry(s, q, t.access, t.refresh) == Some(t));
        },
        Some(v) => {
            assert(s[q as int] == '+');
            let d = dec_digits(v as nat);
            lemma_dec_digits_props(v as nat);
            assert(s.subrange(q as int + 1, s.len() as int) =~= d) by {
                assert forall|k: int| 0 <= k < d.len() implies s[q as int + 1 + k] == d[k] by {
                    assert(s[q as int + 1 + k] == x[1 + k]);
                }
            }
            assert(spec_dec_tailnum(s, q + 1) == Some(v as nat));
            assert(spec_dec_expiry(s, q, t.access, t.refresh) == Some(t));
        },
    }
    match t.refresh {
        None => {
            assert(spec_dec_token(s) == spec_dec_expiry(s, p + 1, t.access, None));
        },
        Some(w) => {
            assert(spec_dec_token(s) == spec_dec_expiry(s, q, t.access, Some(w)));
        },
    }
}

} // verus!
