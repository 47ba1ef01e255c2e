//! Access token for the local HTTP endpoints: hex encoding of the random
//! bytes, constant-time comparison, and where a request carries it (the
//! `token=` query pair, else the `X-Neo-Token` header).
use vstd::prelude::*;
use vstd::utf8::{encode_utf8, decode_utf8, encode_utf8_decode_utf8};
use vstd::string::StringSliceAdditionalSpecFns;
use crate::text::{chars_of, first_index, find_char, starts_with, starts_with_exec, push_char};

verus! {

/// Token length in bytes (256 bits).
pub const TOKEN_BYTES: usize = 32;

/// The lower-case hex digit for a value below 16.
pub open spec fn hex_digit(d: u8) -> char {
    if d < 10 {
        (48 + d) as char
    } else {
        (87 + d) as char
    }
}

/// Two lower-case hex digits per byte, high nibble first.
pub open spec fn hex_of(b: Seq<u8>) -> Seq<char>
    decreases b.len(),
{
    if b.len() == 0 {
        Seq::empty()
    } else {
        hex_of(b.drop_last()) + seq![hex_digit(b.last() / 16), hex_digit(b.last() % 16)]
    }
}

fn hex_digit_exec(d: u8) -> (c: char)
    requires
        d < 16,
    ensures
        c == hex_digit(d),
{
    if d < 10 {
        (48 + d) as char
    } else {
        (87 + d) as char
    }
}

/// Hex encoding of `bytes` (a token is `to_hex` of its random bytes).
pub fn to_hex(bytes: &[u8]) -> (s: String)
    ensures
        s@ == hex_of(bytes@),
{
    let mut s = String::new();
    let mut i: usize = 0;
    while i < bytes.len()
        invariant
            i <= bytes@.len(),
            s@ == hex_of(bytes@.take(i as int)),
        decreases bytes@.len() - i,
    {
        let b = bytes[i];
        assert(bytes@.take(i + 1).drop_last() =~= bytes@.take(i as int));
        assert(b >> 4 == b / 16) by (bit_vector);
        assert(b & 0xf == b % 16) by (bit_vector);
        push_char(&mut s, hex_digit_exec(b >> 4));
        push_char(&mut s, hex_digit_exec(b & 0xf));
        assert(s@ =~= hex_of(bytes@.take(i + 1)));
        i = i + 1;
    }
    assert(bytes@.take(bytes@.len() as int) =~= bytes@);
    s
}

pub open spec fn is_hex_char(c: char) -> bool {
    ('0' <= c && c <= '9') || ('a' <= c && c <= 'f')
}

/// A token is twice as many hex digits as it has bytes.
pub proof fn law_hex_shape(b: Seq<u8>)
    ensures
        hex_of(b).len() == 2 * b.len(),
        forall|i: int| 0 <= i < hex_of(b).len() ==> is_hex_char(#[trigger] hex_of(b)[i]),
    decreases b.len(),
{
    if b.len() > 0 {
        law_hex_shape(b.drop_last());
        let p = hex_of(b.drop_last());
        let x = b.last();
        assert(is_hex_char(hex_digit(x / 16)));
        assert(is_hex_char(hex_digit(x % 16)));
        assert forall|i: int| 0 <= i < hex_of(b).len() implies is_hex_char(#[trigger] hex_of(b)[i]) by {
            if i < p.len() {
                assert(hex_of(b)[i] == p[i]);
            }
        }
    }
}

/// Distinct byte strings give distinct tokens (each byte's two digits
/// determine it).
pub proof fn law_hex_injective(a: Seq<u8>, b: Seq<u8>)
    requires
        hex_of(a) == hex_of(b),
    ensures
        a == b,
    decreases a.len(),
{
    law_hex_shape(a);
    law_hex_shape(b);
    if a.len() > 0 {
        let ha = hex_of(a);
        let n = ha.len();
        assert(ha[n - 2] == hex_digit(a.last() / 16));
        assert(hex_of(b)[n - 2] == hex_digit(b.last() / 16));
        assert(ha[n - 1] == hex_digit(a.last() % 16));
        assert(hex_of(b)[n - 1] == hex_digit(b.last() % 16));
        assert(a.last() / 16 == b.last() / 16);
        assert(a.last() % 16 == b.last() % 16);
        assert(hex_of(a.drop_last()) =~= ha.take(n - 2));
        assert(hex_of(b.drop_last()) =~= hex_of(b).take(n - 2));
        law_hex_injective(a.drop_last(), b.drop_last());
        assert(a =~= a.drop_last().push(a.last()));
        assert(b =~= b.drop_last().push(b.last()));
    } else {
        assert(a =~= b);
    }
}

// ── comparison ───────────────────────────────────────────────────────

/// Whether `got` is the expected token. Every byte is looked at whatever
/// the earlier ones were (no early exit that would leak how many bytes
/// matched); only a length mismatch answers at once, and the length of a
/// token is no secret.
pub fn token_matches(expected: &str, got: &str) -> (r: bool)
    ensures
        r == (expected@ == got@),
{
    let a = expected.as_bytes();
    let b = got.as_bytes();
    proof {
        encode_utf8_decode_utf8(expected@);
        encode_utf8_decode_utf8(got@);
    }
    if a.len() != b.len() {
        return false;
    }
    let mut diff: u8 = 0;
    let mut i: usize = 0;
    assert(a@.take(0) =~= b@.take(0));
    while i < a.len()
        invariant
            i <= a@.len(),
            a@.len() == b@.len(),
            (diff == 0) == (a@.take(i as int) == b@.take(i as int)),
        decreases a@.len() - i,
    {
        let x = a[i];
        let y = b[i];
        let d0 = diff;
        diff = diff | (x ^ y);
        assert((d0 | (x ^ y)) == 0 <==> (d0 == 0 && x == y)) by (bit_vector);
        assert(a@.take(i + 1) =~= a@.take(i as int).push(x));
        assert(b@.take(i + 1) =~= b@.take(i as int).push(y));
        proof {
            if a@.take(i + 1) == b@.take(i + 1) {
                assert(a@.take(i + 1)[i as int] == b@.take(i + 1)[i as int]);
                assert(a@.take(i as int) =~= a@.take(i + 1).drop_last());
                assert(b@.take(i as int) =~= b@.take(i + 1).drop_last());
            }
        }
        i = i + 1;
    }
    assert(a@.take(a@.len() as int) =~= a@);
    assert(b@.take(b@.len() as int) =~= b@);
    diff == 0
}

// ── where a request carries the token ────────────────────────────────

/// The value of a `token=` pair, when it is not empty.
pub open spec fn token_value(pair: Seq<char>) -> Option<Seq<char>> {
    if starts_with(pair, "token="@) && pair.len() > 6 {
        Some(pair.skip(6))
    } else {
        None
    }
}

/// The first non-empty `token=` value among the `&`-separated pairs.
pub open spec fn query_token(q: Seq<char>) -> Option<Seq<char>>
    decreases q.len(),
{
    let piece = match first_index(q, '&') {
        Some(k) => q.take(k),
        None => q,
    };
    if token_value(piece) is Some {
        token_value(piece)
    } else {
        match first_index(q, '&') {
            Some(k) => if 0 <= k < q.len() {
                query_token(q.skip(k + 1))
            } else {
                None
            },
            None => None,
        }
    }
}

/// The token a request carries: from the query if it has one, else a
/// non-empty header value.
pub open spec fn request_token(query: Option<Seq<char>>, header: Option<Seq<char>>) -> Option<Seq<char>> {
    let from_query = match query {
        Some(q) => query_token(q),
        None => None,
    };
    if from_query is Some {
        from_query
    } else {
        match header {
            Some(h) => if h.len() > 0 {
                Some(h)
            } else {
                None
            },
            None => None,
        }
    }
}

pub open spec fn str_opt(o: Option<&str>) -> Option<Seq<char>> {
    match o {
        Some(s) => Some(s@),
        None => None,
    }
}

fn query_token_exec<'a>(q: &'a str) -> (r: Option<&'a str>)
    ensures
        str_opt(r) == query_token(q@),
{
    let v = chars_of(q);
    let prefix = chars_of("token=");
    proof {
        reveal_strlit("token=");
    }
    let n = v.len();
    let mut start: usize = 0;
    let mut more = true;
    assert(v@.skip(0) =~= v@);
    while more
        invariant
            start <= n,
            n == v@.len(),
            v@ == q@,
            prefix@ == "token="@,
            prefix@.len() == 6,
            more ==> query_token(q@) == query_token(v@.skip(start as int)),
            !more ==> query_token(q@) is None,
        decreases (if more { n + 1 - start } else { 0 }),
    {
        let ghost rest = v@.skip(start as int);
        let tail = crate::text::sub_chars(v.as_slice(), start, n);
        assert(tail@ =~= rest);
        let found = find_char(tail.as_slice(), '&');
        let end = match found {
            Some(k) => start + k,
            None => n,
        };
        let piece = crate::text::sub_chars(v.as_slice(), start, end);
        proof {
            match found {
                Some(k) => assert(piece@ =~= rest.take(k as int)),
                None => assert(piece@ =~= rest),
            }
        }
        if end - start > 6 && starts_with_exec(piece.as_slice(), prefix.as_slice()) {
            let r = q.substring_char(start + 6, end);
            assert(r@ =~= piece@.skip(6));
            return Some(r);
        }
        match found {
            Some(k) => {
                assert(rest.skip(k + 1) =~= v@.skip(start + k + 1));
                start = start + k + 1;
            },
            None => {
                more = false;
            },
        }
    }
    None
}

/// The token a request carries: the first non-empty `token=` value of the
/// query, else a non-empty `X-Neo-Token` header.
pub fn extract_token<'a>(query: Option<&'a str>, header: Option<&'a str>) -> (r: Option<&'a str>)
    ensures
        str_opt(r) == request_token(str_opt(query), str_opt(header)),
{
    if let Some(q) = query {
        if let Some(v) = query_token_exec(q) {
            return Some(v);
        }
    }
    match header {
        Some(h) => {
            if h.unicode_len() > 0 {
                Some(h)
            } else {
                None
            }
        },
        None => None,
    }
}

} // verus!
