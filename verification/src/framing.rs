//! Text-level HTTP/1.1 framing shared by the clients: UTF-8 byte lengths
//! of character sequences, cutting a byte count off the front, `CRLF`
//! search, hexadecimal chunk sizes and decimal numbers.
use vstd::prelude::*;
use crate::text::{first_index, find_char, push_char, push_str};

verus! {

// ── UTF-8 byte lengths ───────────────────────────────────────────────

/// Bytes the UTF-8 encoding of `c` takes.
pub open spec fn char_len(c: char) -> nat {
    let u = c as u32;
    if u < 0x80 {
        1
    } else if u < 0x800 {
        2
    } else if u < 0x10000 {
        3
    } else {
        4
    }
}

/// Bytes the UTF-8 encoding of `s` takes (what `str::len` counts).
pub open spec fn utf8_len(s: Seq<char>) -> nat
    decreases s.len(),
{
    if s.len() == 0 {
        0
    } else {
        utf8_len(s.drop_last()) + char_len(s.last())
    }
}

pub fn char_len_exec(c: char) -> (r: usize)
    ensures
        r == char_len(c),
{
    let u = c as u32;
    if u < 0x80 {
        1
    } else if u < 0x800 {
        2
    } else if u < 0x10000 {
        3
    } else {
        4
    }
}

pub proof fn lemma_utf8_len_append(a: Seq<char>, b: Seq<char>)
    ensures
        utf8_len(a + b) == utf8_len(a) + utf8_len(b),
    decreases b.len(),
{
    if b.len() == 0 {
        assert(a + b =~= a);
    } else {
        lemma_utf8_len_append(a, b.drop_last());
        assert((a + b).drop_last() =~= a + b.drop_last());
    }
}

pub proof fn lemma_utf8_len_ge_len(s: Seq<char>)
    ensures
        utf8_len(s) >= s.len(),
    decreases s.len(),
{
    if s.len() > 0 {
        lemma_utf8_len_ge_len(s.drop_last());
    }
}

/// `utf8_len` of a character slice, saturating at `usize::MAX`.
pub fn utf8_len_exec(v: &[char]) -> (r: usize)
    ensures
        r == if utf8_len(v@) <= usize::MAX { utf8_len(v@) as int } else { usize::MAX as int },
{
    let mut n: usize = 0;
    let mut i: usize = 0;
    while i < v.len()
        invariant
            i <= v@.len(),
            n == if utf8_len(v@.take(i as int)) <= usize::MAX {
                utf8_len(v@.take(i as int)) as int
            } else {
                usize::MAX as int
            },
        decreases v@.len() - i,
    {
        assert(v@.take(i + 1).drop_last() =~= v@.take(i as int));
        n = n.saturating_add(char_len_exec(v[i]));
        i = i + 1;
    }
    assert(v@.take(v@.len() as int) =~= v@);
    n
}

/// The number of leading characters of `s` whose encoding is exactly `n`
/// bytes; `None` when `n` falls inside a character or past the end.
pub open spec fn byte_prefix(s: Seq<char>, n: int) -> Option<int>
    decreases s.len(),
{
    if n == 0 {
        Some(0)
    } else if s.len() == 0 || char_len(s[0]) > n {
        None
    } else {
        match byte_prefix(s.drop_first(), n - char_len(s[0])) {
            Some(k) => Some(k + 1),
            None => None,
        }
    }
}

pub proof fn lemma_byte_prefix(s: Seq<char>, n: int)
    requires
        n >= 0,
    ensures
        byte_prefix(s, n) matches Some(k) ==> 0 <= k <= s.len() && utf8_len(s.take(k)) == n && (n
            > 0 ==> k > 0),
    decreases s.len(),
{
    if n > 0 && s.len() > 0 && char_len(s[0]) <= n {
        let t = s.drop_first();
        lemma_byte_prefix(t, n - char_len(s[0]));
        if let Some(k) = byte_prefix(t, n - char_len(s[0])) {
            assert(s.take(k + 1) =~= seq![s[0]] + t.take(k));
            lemma_utf8_len_append(seq![s[0]], t.take(k));
            assert(seq![s[0]].drop_last() =~= Seq::<char>::empty());
            assert(seq![s[0]].last() == s[0]);
            assert(utf8_len(Seq::<char>::empty()) == 0);
            assert(utf8_len(seq![s[0]]) == char_len(s[0]));
        }
    }
    if n == 0 {
        assert(s.take(0) =~= Seq::<char>::empty());
    }
}

/// `byte_prefix` computed, scanning from the front.
pub fn byte_prefix_exec(v: &[char], n: usize) -> (r: Option<usize>)
    ensures
        match r {
            Some(k) => byte_prefix(v@, n as int) == Some(k as int),
            None => byte_prefix(v@, n as int) is None,
        },
{
    let mut k: usize = 0;
    let mut left: usize = n;
    assert(v@.skip(0) =~= v@);
    while left > 0
        invariant
            k <= v@.len(),
            left <= n,
            byte_prefix(v@, n as int) == match byte_prefix(v@.skip(k as int), left as int) {
                Some(j) => Some(j + k),
                None => None::<int>,
            },
        decreases left,
    {
        if k == v.len() {
            return None;
        }
        let w = char_len_exec(v[k]);
        let ghost t = v@.skip(k as int);
        assert(t[0] == v@[k as int]);
        if w > left {
            return None;
        }
        assert(t.drop_first() =~= v@.skip(k + 1));
        left = left - w;
        k = k + 1;
    }
    Some(k)
}

// ── line structure ───────────────────────────────────────────────────

/// Position of the first `CRLF` in `s`.
pub open spec fn first_crlf(s: Seq<char>) -> Option<int>
    decreases s.len(),
{
    if s.len() < 2 {
        None
    } else if s[0] == '\r' && s[1] == '\n' {
        Some(0)
    } else {
        match first_crlf(s.drop_first()) {
            Some(i) => Some(i + 1),
            None => None,
        }
    }
}

pub proof fn lemma_first_crlf_bound(s: Seq<char>)
    ensures
        first_crlf(s) matches Some(i) ==> 0 <= i && i + 2 <= s.len() && s[i] == '\r' && s[i + 1]
            == '\n',
    decreases s.len(),
{
    if s.len() >= 2 && !(s[0] == '\r' && s[1] == '\n') {
        lemma_first_crlf_bound(s.drop_first());
    }
}

/// `first_crlf` computed.
pub fn find_crlf(v: &[char]) -> (r: Option<usize>)
    ensures
        match r {
            Some(i) => first_crlf(v@) == Some(i as int),
            None => first_crlf(v@) is None,
        },
        r matches Some(i) ==> i + 2 <= v@.len(),
{
    let n = v.len();
    let mut i: usize = 0;
    assert(v@.skip(0) =~= v@);
    while n > 0 && i < n - 1
        invariant
            i <= n,
            n == v@.len(),
            first_crlf(v@) == match first_crlf(v@.skip(i as int)) {
                Some(j) => Some(j + i),
                None => None::<int>,
            },
        decreases n - i,
    {
        let ghost t = v@.skip(i as int);
        assert(t[0] == v@[i as int] && t[1] == v@[i + 1]);
        if v[i] == '\r' && v[i + 1] == '\n' {
            return Some(i);
        }
        assert(t.drop_first() =~= v@.skip(i + 1));
        i = i + 1;
    }
    None
}

/// The part of `s` before its first `;` (all of it without one): a chunk
/// size without its extensions.
pub open spec fn before_semicolon(s: Seq<char>) -> Seq<char> {
    match first_index(s, ';') {
        Some(k) => s.take(k),
        None => s,
    }
}

pub fn before_semicolon_exec(v: &[char]) -> (r: Vec<char>)
    ensures
        r@ == before_semicolon(v@),
{
    match find_char(v, ';') {
        Some(k) => crate::text::sub_chars(v, 0, k),
        None => crate::text::copy_chars(v),
    }
}

// ── numbers ──────────────────────────────────────────────────────────

/// The value of a hexadecimal digit (either case).
pub open spec fn hex_val(c: char) -> Option<int> {
    if '0' <= c && c <= '9' {
        Some(c as int - '0' as int)
    } else if 'a' <= c && c <= 'f' {
        Some(c as int - 'a' as int + 10)
    } else if 'A' <= c && c <= 'F' {
        Some(c as int - 'A' as int + 10)
    } else {
        None
    }
}

pub open spec fn all_hex(d: Seq<char>) -> bool {
    forall|j: int| 0 <= j < d.len() ==> (#[trigger] hex_val(d[j])) is Some
}

pub open spec fn hex_digits_val(d: Seq<char>) -> int
    decreases d.len(),
{
    if d.len() == 0 {
        0
    } else {
        hex_digits_val(d.drop_last()) * 16 + hex_val(d.last())->0
    }
}

/// A number in hexadecimal as `usize::from_str_radix(_, 16)` reads it: an
/// optional `+`, at least one digit of either case, nothing else, and a
/// value up to `max`.
pub open spec fn parse_hex(s: Seq<char>, max: int) -> Option<int> {
    let d = if s.len() > 0 && s[0] == '+' {
        s.drop_first()
    } else {
        s
    };
    if d.len() > 0 && all_hex(d) && hex_digits_val(d) <= max {
        Some(hex_digits_val(d))
    } else {
        None
    }
}

proof fn lemma_hex_nonneg(d: Seq<char>)
    requires
        all_hex(d),
    ensures
        hex_digits_val(d) >= 0,
    decreases d.len(),
{
    if d.len() > 0 {
        assert(all_hex(d.drop_last()));
        lemma_hex_nonneg(d.drop_last());
        assert(hex_val(d[d.len() - 1]) is Some);
    }
}

fn hex_val_exec(c: char) -> (r: Option<u32>)
    ensures
        match r {
            Some(v) => hex_val(c) == Some(v as int) && v < 16,
            None => hex_val(c) is None,
        },
{
    if '0' <= c && c <= '9' {
        Some(c as u32 - '0' as u32)
    } else if 'a' <= c && c <= 'f' {
        Some(c as u32 - 'a' as u32 + 10)
    } else if 'A' <= c && c <= 'F' {
        Some(c as u32 - 'A' as u32 + 10)
    } else {
        None
    }
}

/// `parse_hex` computed.
pub fn parse_hex_exec(s: &[char], max: usize) -> (r: Option<usize>)
    ensures
        match r {
            Some(v) => parse_hex(s@, max as int) == Some(v as int),
            None => parse_hex(s@, max as int) is None,
        },
{
    let n = s.len();
    let start: usize = if n > 0 && s[0] == '+' {
        1
    } else {
        0
    };
    let ghost d = if s@.len() > 0 && s@[0] == '+' {
        s@.drop_first()
    } else {
        s@
    };
    assert(d =~= s@.subrange(start as int, n as int));
    if start == n {
        return None;
    }
    let mut val: u128 = 0;
    let mut big = false;
    let mut i: usize = start;
    while i < n
        invariant
            start <= i <= n,
            n == s@.len(),
            d == s@.subrange(start as int, n as int),
            d == (if s@.len() > 0 && s@[0] == '+' {
                s@.drop_first()
            } else {
                s@
            }),
            all_hex(d.take(i - start)),
            !big ==> val == hex_digits_val(d.take(i - start)) && val <= max,
            big ==> hex_digits_val(d.take(i - start)) > max,
        decreases n - i,
    {
        let c = s[i];
        let ghost k = i - start;
        assert(d[k] == c);
        let dv = match hex_val_exec(c) {
            Some(v) => v,
            None => {
                assert(!all_hex(d));
                return None;
            },
        };
        assert(d.take(k + 1).drop_last() =~= d.take(k));
        assert(d.take(k + 1).last() == c);
        assert(all_hex(d.take(k + 1))) by {
            assert forall|j: int| 0 <= j < k + 1 implies (#[trigger] hex_val(d.take(k + 1)[j])) is Some by {
                if j < k {
                    assert(d.take(k + 1)[j] == d.take(k)[j]);
                }
            }
        }
        if !big {
            let nv = val * 16 + dv as u128;
            if nv > max as u128 {
                big = true;
            } else {
                val = nv;
            }
        } else {
            proof {
                lemma_hex_nonneg(d.take(k));
            }
        }
        i = i + 1;
    }
    assert(d.take(n - start) =~= d);
    if big {
        None
    } else {
        Some(val as usize)
    }
}

/// Decimal digits of `n`, most significant first.
pub open spec fn dec_of(n: nat) -> Seq<char>
    decreases n,
{
    if n < 10 {
        seq![(48 + n) as char]
    } else {
        dec_of(n / 10).push((48 + n % 10) as char)
    }
}

/// Append `n` in decimal.
pub fn push_dec(s: &mut String, n: u64)
    ensures
        final(s)@ == old(s)@ + dec_of(n as nat),
    decreases n,
{
    if n >= 10 {
        push_dec(s, n / 10);
    }
    let d = (n % 10) as u8;
    push_char(s, (48 + d) as char);
    proof {
        if n >= 10 {
            assert(old(s)@ + dec_of(n as nat) =~= old(s)@ + dec_of((n / 10) as nat) + seq![
                (48 + n % 10) as char,
            ]);
        } else {
            assert(old(s)@ + dec_of(n as nat) =~= old(s)@.push((48 + d) as char));
        }
    }
}

// ── debug quoting ────────────────────────────────────────────────────

/// What `format!("{:?}", s)` gives for a string: quoted, with escapes.
pub uninterp spec fn debug_quoted(s: Seq<char>) -> Seq<char>;

/// Calls the `Debug` formatting of `str` (quotes and escapes it). The
/// escaping rules depend on Unicode property tables, so the result is only
/// named.
#[verifier::external_body]
fn debug_string(t: &str) -> (r: String)
    ensures
        r@ == debug_quoted(t@),
{
    format!("{t:?}")
}

/// Appends `t` quoted and escaped as `Debug` shows it.
pub fn push_debug(s: &mut String, t: &str)
    ensures
        final(s)@ == old(s)@ + debug_quoted(t@),
{
    let d = debug_string(t);
    push_str(s, d.as_str());
}

// ── patterns ─────────────────────────────────────────────────────────

/// Position of the first occurrence of `p` in `s`.
pub open spec fn find_seq(s: Seq<char>, p: Seq<char>) -> Option<int>
    decreases s.len(),
{
    if p.len() > s.len() {
        None
    } else if s.take(p.len() as int) == p {
        Some(0)
    } else if s.len() == 0 {
        None
    } else {
        match find_seq(s.drop_first(), p) {
            Some(i) => Some(i + 1),
            None => None,
        }
    }
}

pub proof fn lemma_find_seq_bound(s: Seq<char>, p: Seq<char>)
    ensures
        find_seq(s, p) matches Some(i) ==> 0 <= i && i + p.len() <= s.len() && s.subrange(
            i,
            i + p.len(),
        ) == p,
    decreases s.len(),
{
    if p.len() <= s.len() && s.take(p.len() as int) != p && s.len() > 0 {
        lemma_find_seq_bound(s.drop_first(), p);
        if let Some(i) = find_seq(s.drop_first(), p) {
            assert(s.subrange(i + 1, i + 1 + p.len()) =~= s.drop_first().subrange(i, i + p.len()));
        }
    }
    if p.len() <= s.len() && s.take(p.len() as int) == p {
        assert(s.subrange(0, p.len() as int) =~= s.take(p.len() as int));
    }
}

/// `find_seq` computed.
pub fn find_seq_exec(v: &[char], p: &[char]) -> (r: Option<usize>)
    ensures
        match r {
            Some(i) => find_seq(v@, p@) == Some(i as int),
            None => find_seq(v@, p@) is None,
        },
{
    let n = v.len();
    let m = p.len();
    let mut i: usize = 0;
    assert(v@.skip(0) =~= v@);
    while i <= n
        invariant
            i <= n,
            n == v@.len(),
            m == p@.len(),
            find_seq(v@, p@) == match find_seq(v@.skip(i as int), p@) {
                Some(j) => Some(j + i),
                None => None::<int>,
            },
        decreases n - i,
    {
        let ghost t = v@.skip(i as int);
        if m > n - i {
            return None;
        }
        let hit = crate::text::occurs_at_exec(v, p, i);
        assert(hit == (t.take(m as int) == p@)) by {
            assert(t.take(m as int) =~= v@.subrange(i as int, i + m));
        }
        if hit {
            return Some(i);
        }
        if i == n {
            return None;
        }
        assert(t.drop_first() =~= v@.skip(i + 1));
        i = i + 1;
    }
    None
}

} // verus!
