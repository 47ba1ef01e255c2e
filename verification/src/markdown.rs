//! Markdown to toned lines for the terminal: fenced code (highlighted),
//! inline code, headings, lists, quotes, rules and emphasis. Inline
//! markers are removed rather than coloured; the text inside inline code
//! is always kept as written.
use vstd::prelude::*;
use crate::tui::Tone;
use crate::syntax::{Lang, lang_of, highlight_of, highlight_line, spans_view};
use crate::text::{chars_of, trim, trim_start, trim_end, first_index, find_char, string_of,
    sub_chars, push_str, push_char, owned, lead_ws, trim_range, leading_ws_len, starts_with,
    word_len, trim_end_chars};
use crate::width::{width_of, seq_width, char_width, chars_width, wrapped, wrap_to_width};
use crate::framing::{find_seq, find_seq_exec, lemma_find_seq_bound};

verus! {

/// A rendered line: (column, text, tone) segments.
pub type Line = Vec<(usize, String, Tone)>;

pub open spec fn line_view(l: Seq<(usize, String, Tone)>) -> Seq<(int, Seq<char>, Tone)> {
    l.map_values(|p: (usize, String, Tone)| (p.0 as int, p.1@, p.2))
}

pub open spec fn lines_of(v: Seq<Line>) -> Seq<Seq<(int, Seq<char>, Tone)>> {
    v.map_values(|l: Line| line_view(l@))
}

// ── line shapes ──────────────────────────────────────────────────────

/// Number of leading spaces.
pub open spec fn lead_spaces(s: Seq<char>) -> nat
    decreases s.len(),
{
    if s.len() > 0 && s[0] == ' ' {
        1 + lead_spaces(s.drop_first())
    } else {
        0
    }
}

proof fn lemma_lead_spaces(s: Seq<char>, k: int)
    requires
        0 <= k <= s.len(),
        forall|j: int| 0 <= j < k ==> s[j] == ' ',
        k == s.len() || s[k] != ' ',
    ensures
        lead_spaces(s) == k,
    decreases k,
{
    if k > 0 {
        lemma_lead_spaces(s.drop_first(), k - 1);
    }
}

pub fn leading_spaces(s: &[char]) -> (r: usize)
    ensures
        r == lead_spaces(s@),
        r <= s@.len(),
{
    let mut i: usize = 0;
    while i < s.len() && s[i] == ' '
        invariant
            i <= s@.len(),
            forall|j: int| 0 <= j < i ==> s@[j] == ' ',
        decreases s@.len() - i,
    {
        i = i + 1;
    }
    proof {
        lemma_lead_spaces(s@, i as int);
    }
    i
}

/// A bullet item (`- `, `* ` or `+ `): the text after the marker.
pub open spec fn bullet_of(s: Seq<char>) -> Option<Seq<char>> {
    if s.len() >= 2 && (s[0] == '-' || s[0] == '*' || s[0] == '+') && s[1] == ' ' {
        Some(s.skip(2))
    } else {
        None
    }
}

pub fn strip_bullet(s: &[char]) -> (r: Option<Vec<char>>)
    ensures
        match r {
            Some(t) => bullet_of(s@) == Some(t@),
            None => bullet_of(s@) is None,
        },
{
    if s.len() >= 2 && (s[0] == '-' || s[0] == '*' || s[0] == '+') && s[1] == ' ' {
        let t = sub_chars(s, 2, s.len());
        assert(t@ =~= s@.skip(2));
        Some(t)
    } else {
        None
    }
}

pub open spec fn is_ascii_digit(c: char) -> bool {
    '0' <= c && c <= '9'
}

/// Number of leading ASCII digits.
pub open spec fn lead_digits(s: Seq<char>) -> nat
    decreases s.len(),
{
    if s.len() > 0 && is_ascii_digit(s[0]) {
        1 + lead_digits(s.drop_first())
    } else {
        0
    }
}

proof fn lemma_lead_digits(s: Seq<char>, k: int)
    requires
        0 <= k <= s.len(),
        forall|j: int| 0 <= j < k ==> is_ascii_digit(#[trigger] s[j]),
        k == s.len() || !is_ascii_digit(s[k]),
    ensures
        lead_digits(s) == k,
    decreases k,
{
    if k > 0 {
        lemma_lead_digits(s.drop_first(), k - 1);
    }
}

/// An ordered item: one to three digits, `. `, the text; gives the number
/// as written and the text.
pub open spec fn ordered_of(s: Seq<char>) -> Option<(Seq<char>, Seq<char>)> {
    let d = lead_digits(s) as int;
    if d == 0 || d > 3 {
        None
    } else if s.len() >= d + 2 && s[d] == '.' && s[d + 1] == ' ' {
        Some((s.take(d), s.skip(d + 2)))
    } else {
        None
    }
}

pub fn strip_ordered(s: &[char]) -> (r: Option<(Vec<char>, Vec<char>)>)
    ensures
        match r {
            Some((a, b)) => ordered_of(s@) == Some((a@, b@)),
            None => ordered_of(s@) is None,
        },
{
    let mut d: usize = 0;
    while d < s.len() && '0' <= s[d] && s[d] <= '9'
        invariant
            d <= s@.len(),
            forall|j: int| 0 <= j < d ==> is_ascii_digit(#[trigger] s@[j]),
        decreases s@.len() - d,
    {
        d = d + 1;
    }
    proof {
        lemma_lead_digits(s@, d as int);
    }
    if d == 0 || d > 3 {
        return None;
    }
    if s.len() - d >= 2 && s[d] == '.' && s[d + 1] == ' ' {
        let a = sub_chars(s, 0, d);
        let b = sub_chars(s, d + 2, s.len());
        assert(a@ =~= s@.take(d as int));
        assert(b@ =~= s@.skip(d + 2));
        Some((a, b))
    } else {
        None
    }
}

/// A horizontal rule: at least three of `-`, `*`, `_` and nothing else.
pub open spec fn is_rule(s: Seq<char>) -> bool {
    s.len() >= 3 && forall|j: int| 0 <= j < s.len() ==> (#[trigger] s[j] == '-' || s[j] == '*' || s[j]
        == '_')
}

fn is_rule_exec(s: &[char]) -> (r: bool)
    ensures
        r == is_rule(s@),
{
    if s.len() < 3 {
        return false;
    }
    let mut i: usize = 0;
    while i < s.len()
        invariant
            i <= s@.len(),
            forall|j: int| 0 <= j < i ==> (#[trigger] s@[j] == '-' || s@[j] == '*' || s@[j] == '_'),
        decreases s@.len() - i,
    {
        let c = s[i];
        if !(c == '-' || c == '*' || c == '_') {
            return false;
        }
        i = i + 1;
    }
    true
}

/// A heading: the first word is all `#`; gives how many.
pub open spec fn heading_of(t: Seq<char>) -> Option<int> {
    let n = word_len(t) as int;
    if n > 0 && forall|j: int| 0 <= j < n ==> #[trigger] t[j] == '#' {
        Some(n)
    } else {
        None
    }
}

// ── inline markup ────────────────────────────────────────────────────

pub open spec fn backtick() -> char {
    '`'
}

/// Inside emphasis only inline code is recognised; the rest takes `tone`.
pub open spec fn inline_simple_of(s: Seq<char>, tone: Tone) -> Seq<(Seq<char>, Tone)>
    decreases s.len(),
{
    match first_index(s, '`') {
        None => if s.len() > 0 {
            seq![(s, tone)]
        } else {
            Seq::empty()
        },
        Some(a) => match first_index(s.skip(a + 1), '`') {
            None => if s.len() > 0 {
                seq![(s, tone)]
            } else {
                Seq::empty()
            },
            Some(b) => {
                proof {
                    crate::text::lemma_first_index_bound(s, '`');
                    crate::text::lemma_first_index_bound(s.skip(a + 1), '`');
                }
                (if a > 0 {
                    seq![(s.take(a), tone)]
                } else {
                    Seq::empty()
                }) + seq![(s.subrange(a + 1, a + 1 + b), Tone::Success)] + inline_simple_of(
                    s.skip(a + 1 + b + 1),
                    tone,
                )
            },
        },
    }
}

pub open spec fn pieces_view(v: Seq<(String, Tone)>) -> Seq<(Seq<char>, Tone)> {
    v.map_values(|p: (String, Tone)| (p.0@, p.1))
}

pub fn inline_simple(s: &[char], tone: Tone) -> (r: Vec<(String, Tone)>)
    ensures
        pieces_view(r@) == inline_simple_of(s@, tone),
{
    let n = s.len();
    let mut out: Vec<(String, Tone)> = Vec::new();
    let mut pos: usize = 0;
    assert(s@.skip(0) =~= s@);
    assert(pieces_view(out@) + inline_simple_of(s@, tone) =~= inline_simple_of(s@, tone));
    while pos <= n
        invariant
            pos <= n,
            n == s@.len(),
            pieces_view(out@) + inline_simple_of(s@.skip(pos as int), tone) == inline_simple_of(
                s@,
                tone,
            ),
        decreases n - pos,
    {
        let ghost rest = s@.skip(pos as int);
        let ghost o0 = pieces_view(out@);
        let r = sub_chars(s, pos, n);
        assert(r@ =~= rest);
        let fa = find_char(r.as_slice(), '`');
        if let Some(a) = fa {
            let after = sub_chars(r.as_slice(), a + 1, r.len());
            assert(after@ =~= rest.skip(a + 1));
            let fb = find_char(after.as_slice(), '`');
            if let Some(b) = fb {
                if a > 0 {
                    let head = sub_chars(r.as_slice(), 0, a);
                    assert(head@ =~= rest.take(a as int));
                    out.push((string_of(head.as_slice()), tone));
                }
                let code = sub_chars(after.as_slice(), 0, b);
                assert(code@ =~= rest.subrange(a + 1, a + 1 + b));
                out.push((string_of(code.as_slice()), Tone::Success));
                assert(rest.skip(a + 1 + b + 1) =~= s@.skip(pos + a + 1 + b + 1));
                proof {
                    let pre = (if a > 0 {
                        seq![(rest.take(a as int), tone)]
                    } else {
                        Seq::<(Seq<char>, Tone)>::empty()
                    });
                    assert(pieces_view(out@) =~= o0 + pre + seq![(code@, Tone::Success)]);
                    assert(pieces_view(out@) + inline_simple_of(rest.skip(a + 1 + b + 1), tone) =~= o0
                        + inline_simple_of(rest, tone));
                }
                pos = pos + a + 1 + b + 1;
                continue;
            }
        }
        if r.len() > 0 {
            out.push((string_of(r.as_slice()), tone));
        }
        assert(pieces_view(out@) =~= o0 + inline_simple_of(rest, tone));
        return out;
    }
    out
}

/// Push `buf` as a piece of `tone`, joining the last piece when it has the
/// same tone; nothing when `buf` is empty.
pub open spec fn flush(spans: Seq<(Seq<char>, Tone)>, buf: Seq<char>, tone: Tone) -> Seq<(Seq<char>, Tone)> {
    if buf.len() == 0 {
        spans
    } else if spans.len() > 0 && spans.last().1 == tone {
        spans.update(spans.len() - 1, (spans.last().0 + buf, tone))
    } else {
        spans.push((buf, tone))
    }
}

/// The emphasis marker starting at `i` (`**` or `*`).
pub open spec fn marker_at(cs: Seq<char>, i: int) -> Seq<char> {
    if i + 1 < cs.len() && cs[i + 1] == '*' {
        seq!['*', '*']
    } else {
        seq!['*']
    }
}

/// The inline scan from position `i`, with pieces so far and pending
/// plain text: inline code keeps its content (success tone), closed
/// emphasis drops its markers (bold primary, emphasis muted), everything
/// else is plain text.
pub open spec fn inline_scan(
    cs: Seq<char>,
    i: int,
    spans: Seq<(Seq<char>, Tone)>,
    buf: Seq<char>,
) -> Seq<(Seq<char>, Tone)>
    decreases cs.len() - i,
{
    if i < 0 || i >= cs.len() {
        flush(spans, buf, Tone::Text)
    } else if cs[i] == '`' && first_index(cs.skip(i + 1), '`') is Some {
        let e = first_index(cs.skip(i + 1), '`')->0;
        proof {
            crate::text::lemma_first_index_bound(cs.skip(i + 1), '`');
        }
        inline_scan(
            cs,
            i + e + 2,
            flush(spans, buf, Tone::Text).push((cs.subrange(i + 1, i + 1 + e), Tone::Success)),
            Seq::empty(),
        )
    } else if cs[i] == '*' && find_seq(cs.skip(i + marker_at(cs, i).len()), marker_at(cs, i)) is Some {
        let m = marker_at(cs, i);
        let from = i + m.len();
        let rel = find_seq(cs.skip(from), m)->0;
        proof {
            lemma_find_seq_bound(cs.skip(from), m);
        }
        let tone = if m.len() == 2 {
            Tone::Primary
        } else {
            Tone::Muted
        };
        inline_scan(
            cs,
            from + rel + m.len(),
            flush(spans, buf, Tone::Text) + inline_simple_of(cs.subrange(from, from + rel), tone),
            Seq::empty(),
        )
    } else {
        inline_scan(cs, i + 1, spans, buf.push(cs[i]))
    }
}

/// Pieces placed at columns from `col` on, each after the previous one's
/// display width.
pub open spec fn place(spans: Seq<(Seq<char>, Tone)>, col: int) -> Seq<(int, Seq<char>, Tone)>
    decreases spans.len(),
{
    if spans.len() == 0 {
        Seq::empty()
    } else {
        seq![(col, spans[0].0, spans[0].1)] + place(spans.drop_first(), col + seq_width(spans[0].0))
    }
}

/// A line of prose with its inline markup, starting at column `base`.
pub open spec fn inline_of(s: Seq<char>, base: int) -> Seq<(int, Seq<char>, Tone)> {
    let spans = inline_scan(s, 0, Seq::empty(), Seq::empty());
    if spans.len() == 0 {
        seq![(base, Seq::<char>::empty(), Tone::Text)]
    } else {
        place(spans, base)
    }
}


/// Total characters held by pieces.
pub open spec fn total_len(spans: Seq<(Seq<char>, Tone)>) -> nat
    decreases spans.len(),
{
    if spans.len() == 0 {
        0
    } else {
        total_len(spans.drop_last()) + spans.last().0.len()
    }
}

proof fn lemma_total_push(spans: Seq<(Seq<char>, Tone)>, x: (Seq<char>, Tone))
    ensures
        total_len(spans.push(x)) == total_len(spans) + x.0.len(),
{
    assert(spans.push(x).drop_last() =~= spans);
}

proof fn lemma_total_append(a: Seq<(Seq<char>, Tone)>, b: Seq<(Seq<char>, Tone)>)
    ensures
        total_len(a + b) == total_len(a) + total_len(b),
    decreases b.len(),
{
    if b.len() == 0 {
        assert(a + b =~= a);
    } else {
        lemma_total_append(a, b.drop_last());
        assert((a + b).drop_last() =~= a + b.drop_last());
    }
}

proof fn lemma_total_flush(spans: Seq<(Seq<char>, Tone)>, buf: Seq<char>, tone: Tone)
    ensures
        total_len(flush(spans, buf, tone)) == total_len(spans) + buf.len(),
{
    if buf.len() > 0 {
        if spans.len() > 0 && spans.last().1 == tone {
            let u = spans.update(spans.len() - 1, (spans.last().0 + buf, tone));
            assert(u.drop_last() =~= spans.drop_last());
        } else {
            lemma_total_push(spans, (buf, tone));
        }
    }
}

proof fn lemma_total_simple(s: Seq<char>, tone: Tone)
    ensures
        total_len(inline_simple_of(s, tone)) <= s.len(),
    decreases s.len(),
{
    crate::text::lemma_first_index_bound(s, '`');
    if let Some(a) = first_index(s, '`') {
        crate::text::lemma_first_index_bound(s.skip(a + 1), '`');
        if let Some(b) = first_index(s.skip(a + 1), '`') {
            let pre = (if a > 0 {
                seq![(s.take(a), tone)]
            } else {
                Seq::<(Seq<char>, Tone)>::empty()
            });
            let mid = seq![(s.subrange(a + 1, a + 1 + b), Tone::Success)];
            let rest = inline_simple_of(s.skip(a + 1 + b + 1), tone);
            lemma_total_simple(s.skip(a + 1 + b + 1), tone);
            lemma_total_append(pre + mid, rest);
            lemma_total_append(pre, mid);
            if a > 0 {
                lemma_total_push(Seq::empty(), (s.take(a), tone));
                assert(seq![(s.take(a), tone)] =~= Seq::<(Seq<char>, Tone)>::empty().push(
                    (s.take(a), tone),
                ));
            }
            lemma_total_push(Seq::empty(), (s.subrange(a + 1, a + 1 + b), Tone::Success));
            assert(mid =~= Seq::<(Seq<char>, Tone)>::empty().push(
                (s.subrange(a + 1, a + 1 + b), Tone::Success),
            ));
        } else if s.len() > 0 {
            lemma_total_push(Seq::empty(), (s, tone));
            assert(seq![(s, tone)] =~= Seq::<(Seq<char>, Tone)>::empty().push((s, tone)));
        }
    } else if s.len() > 0 {
        lemma_total_push(Seq::empty(), (s, tone));
        assert(seq![(s, tone)] =~= Seq::<(Seq<char>, Tone)>::empty().push((s, tone)));
    }
}

proof fn lemma_total_scan(cs: Seq<char>, i: int, spans: Seq<(Seq<char>, Tone)>, buf: Seq<char>)
    requires
        0 <= i <= cs.len(),
    ensures
        total_len(inline_scan(cs, i, spans, buf)) <= total_len(spans) + buf.len() + (cs.len()
            - i),
    decreases cs.len() - i,
{
    if i >= cs.len() {
        lemma_total_flush(spans, buf, Tone::Text);
    } else if cs[i] == '`' && first_index(cs.skip(i + 1), '`') is Some {
        let e = first_index(cs.skip(i + 1), '`')->0;
        crate::text::lemma_first_index_bound(cs.skip(i + 1), '`');
        let f = flush(spans, buf, Tone::Text);
        lemma_total_flush(spans, buf, Tone::Text);
        lemma_total_push(f, (cs.subrange(i + 1, i + 1 + e), Tone::Success));
        lemma_total_scan(
            cs,
            i + e + 2,
            f.push((cs.subrange(i + 1, i + 1 + e), Tone::Success)),
            Seq::empty(),
        );
    } else if cs[i] == '*' && find_seq(cs.skip(i + marker_at(cs, i).len()), marker_at(cs, i)) is Some {
        let m = marker_at(cs, i);
        let from = i + m.len();
        let rel = find_seq(cs.skip(from), m)->0;
        lemma_find_seq_bound(cs.skip(from), m);
        let tone = if m.len() == 2 {
            Tone::Primary
        } else {
            Tone::Muted
        };
        let f = flush(spans, buf, Tone::Text);
        lemma_total_flush(spans, buf, Tone::Text);
        let inner = inline_simple_of(cs.subrange(from, from + rel), tone);
        lemma_total_simple(cs.subrange(from, from + rel), tone);
        lemma_total_append(f, inner);
        lemma_total_scan(cs, from + rel + m.len(), f + inner, Seq::empty());
    } else {
        lemma_total_scan(cs, i + 1, spans, buf.push(cs[i]));
    }
}


pub open spec fn tvec_view(v: Seq<(Vec<char>, Tone)>) -> Seq<(Seq<char>, Tone)> {
    v.map_values(|p: (Vec<char>, Tone)| (p.0@, p.1))
}

fn flush_exec(spans: &mut Vec<(Vec<char>, Tone)>, buf: &mut Vec<char>, tone: Tone)
    ensures
        tvec_view(final(spans)@) == flush(tvec_view(old(spans)@), old(buf)@, tone),
        final(buf)@.len() == 0,
{
    if buf.len() == 0 {
        return;
    }
    let ghost s0 = tvec_view(spans@);
    let n = spans.len();
    if n > 0 && spans[n - 1].1 == tone {
        let (mut t, tn) = spans.pop().unwrap();
        crate::text::append_chars(&mut t, buf.as_slice());
        spans.push((t, tn));
        assert(tvec_view(spans@) =~= s0.update(s0.len() - 1, (s0.last().0 + old(buf)@, tone)));
    } else {
        let b = crate::text::copy_chars(buf.as_slice());
        spans.push((b, tone));
        assert(tvec_view(spans@) =~= s0.push((old(buf)@, tone)));
    }
    *buf = Vec::new();
}

/// A line of prose with its inline markup, starting at column `base`.
pub fn inline(s: &[char], base: usize) -> (r: Line)
    requires
        base + 2 * s@.len() <= usize::MAX,
    ensures
        line_view(r@) == inline_of(s@, base as int),
{
    let n = s.len();
    let mut spans: Vec<(Vec<char>, Tone)> = Vec::new();
    let mut buf: Vec<char> = Vec::new();
    let mut i: usize = 0;
    assert(tvec_view(spans@) =~= Seq::<(Seq<char>, Tone)>::empty());
    assert(buf@ =~= Seq::<char>::empty());
    while i < n
        invariant
            i <= n,
            n == s@.len(),
            inline_scan(s@, 0, Seq::empty(), Seq::empty()) == inline_scan(
                s@,
                i as int,
                tvec_view(spans@),
                buf@,
            ),
        decreases n - i,
    {
        let c = s[i];
        if c == '`' {
            let rest = sub_chars(s, i + 1, n);
            assert(rest@ =~= s@.skip(i + 1));
            let fe = find_char(rest.as_slice(), '`');
            if let Some(e) = fe {
                flush_exec(&mut spans, &mut buf, Tone::Text);
                let code = sub_chars(rest.as_slice(), 0, e);
                assert(code@ =~= s@.subrange(i + 1, i + 1 + e));
                let ghost sp0 = tvec_view(spans@);
                spans.push((code, Tone::Success));
                assert(tvec_view(spans@) =~= sp0.push((code@, Tone::Success)));
                assert(buf@ =~= Seq::<char>::empty());
                i = i + e + 2;
                continue;
            }
        }
        if c == '*' {
            let bold = i + 1 < n && s[i + 1] == '*';
            let mlen: usize = if bold {
                2
            } else {
                1
            };
            let mut m: Vec<char> = Vec::new();
            m.push('*');
            if bold {
                m.push('*');
            }
            assert(m@ =~= marker_at(s@, i as int));
            let from = i + mlen;
            let rest = sub_chars(s, from, n);
            assert(rest@ =~= s@.skip(from as int));
            let fc = find_seq_exec(rest.as_slice(), m.as_slice());
            if let Some(rel) = fc {
                proof {
                    lemma_find_seq_bound(rest@, m@);
                }
                flush_exec(&mut spans, &mut buf, Tone::Text);
                let inner = sub_chars(rest.as_slice(), 0, rel);
                assert(inner@ =~= s@.subrange(from as int, from + rel));
                let tone = if bold {
                    Tone::Primary
                } else {
                    Tone::Muted
                };
                let pieces = inline_simple(inner.as_slice(), tone);
                let ghost sp0 = tvec_view(spans@);
                let mut k: usize = 0;
                while k < pieces.len()
                    invariant
                        k <= pieces@.len(),
                        tvec_view(spans@) == sp0 + pieces_view(pieces@).take(k as int),
                    decreases pieces@.len() - k,
                {
                    let pc = chars_of(pieces[k].0.as_str());
                    let ghost sp1 = tvec_view(spans@);
                    spans.push((pc, pieces[k].1));
                    assert(pieces_view(pieces@).take(k + 1) =~= pieces_view(pieces@).take(
                        k as int,
                    ).push(pieces_view(pieces@)[k as int]));
                    assert(tvec_view(spans@) =~= sp1.push((pc@, pieces[k as int].1)));
                    k = k + 1;
                }
                assert(pieces_view(pieces@).take(pieces@.len() as int) =~= pieces_view(pieces@));
                assert(buf@ =~= Seq::<char>::empty());
                i = from + rel + mlen;
                continue;
            }
        }
        buf.push(c);
        i = i + 1;
    }
    flush_exec(&mut spans, &mut buf, Tone::Text);
    let ghost sp = tvec_view(spans@);
    assert(sp == inline_scan(s@, 0, Seq::empty(), Seq::empty()));
    let mut line: Line = Vec::new();
    if spans.len() == 0 {
        line.push((base, String::new(), Tone::Text));
        assert(line_view(line@) =~= inline_of(s@, base as int));
        return line;
    }
    proof {
        lemma_total_scan(s@, 0, Seq::empty(), Seq::empty());
    }
    let mut col: usize = base;
    let mut k: usize = 0;
    assert(sp.skip(0) =~= sp);
    while k < spans.len()
        invariant
            k <= spans@.len(),
            sp == tvec_view(spans@),
            total_len(sp) <= s@.len(),
            base + 2 * s@.len() <= usize::MAX,
            col as int + 2 * (total_len(sp) - total_len(sp.take(k as int))) <= base + 2 * s@.len(),
            place(sp, base as int) == line_view(line@) + place(sp.skip(k as int), col as int),
        decreases spans@.len() - k,
    {
        let ghost t = sp.skip(k as int);
        assert(t[0] == sp[k as int]);
        assert(t.drop_first() =~= sp.skip(k + 1));
        assert(sp.take(k + 1).drop_last() =~= sp.take(k as int));
        assert(sp.take(k + 1).last() == sp[k as int]);
        let w = chars_width(spans[k].0.as_slice());
        proof {
            crate::width::lemma_width_at_most_twice_len(spans@[k as int].0@);
            lemma_total_prefix(sp, k + 1);
            assert(sp[k as int].0 == spans@[k as int].0@);
        }
        let ghost l0 = line_view(line@);
        let ghost x = (col as int, sp[k as int].0, sp[k as int].1);
        line.push((col, string_of(spans[k].0.as_slice()), spans[k].1));
        assert(line_view(line@) =~= l0 + seq![x]);
        assert(place(t, col as int) == seq![x] + place(t.drop_first(), col + seq_width(t[0].0)));
        assert(l0 + (seq![x] + place(t.drop_first(), col + w)) =~= line_view(line@) + place(
            t.drop_first(),
            col + w,
        ));
        col = col + w;
        k = k + 1;
    }
    assert(sp.skip(sp.len() as int) =~= Seq::<(Seq<char>, Tone)>::empty());
    assert(line_view(line@) + Seq::<(int, Seq<char>, Tone)>::empty() =~= line_view(line@));
    line
}

proof fn lemma_total_prefix(sp: Seq<(Seq<char>, Tone)>, k: int)
    requires
        0 <= k <= sp.len(),
    ensures
        total_len(sp.take(k)) <= total_len(sp),
    decreases sp.len() - k,
{
    if k < sp.len() {
        lemma_total_prefix(sp, k + 1);
        assert(sp.take(k + 1).drop_last() =~= sp.take(k));
    } else {
        assert(sp.take(k) =~= sp);
    }
}


// ── code layout ──────────────────────────────────────────────────────

/// The characters of toned pieces, each with its tone.
pub open spec fn cells(sp: Seq<(Seq<char>, Tone)>) -> Seq<(char, Tone)>
    decreases sp.len(),
{
    if sp.len() == 0 {
        Seq::empty()
    } else {
        cells(sp.drop_last()) + sp.last().0.map_values(|c: char| (c, sp.last().1))
    }
}

/// Hard wrapping of toned characters by display width: a character that
/// would pass `indent + width` starts a new line at `indent`; neighbours of
/// one tone share a segment.
pub open spec fn lay(
    cs: Seq<(char, Tone)>,
    k: int,
    indent: int,
    width: int,
    out: Seq<Seq<(int, Seq<char>, Tone)>>,
    line: Seq<(int, Seq<char>, Tone)>,
    col: int,
) -> Seq<Seq<(int, Seq<char>, Tone)>>
    decreases cs.len() - k,
{
    if k < 0 || k >= cs.len() {
        out.push(line)
    } else {
        let ch = cs[k].0;
        let tone = cs[k].1;
        let cw = width_of(ch) as int;
        let brk = col + cw > indent + width;
        let out2 = if brk {
            out.push(line)
        } else {
            out
        };
        let line2 = if brk {
            Seq::empty()
        } else {
            line
        };
        let col2 = if brk {
            indent
        } else {
            col
        };
        if line2.len() > 0 && line2.last().2 == tone {
            lay(
                cs,
                k + 1,
                indent,
                width,
                out2,
                line2.update(line2.len() - 1, (line2.last().0, line2.last().1.push(ch), tone)),
                col2 + cw,
            )
        } else {
            lay(cs, k + 1, indent, width, out2, line2.push((col2, seq![ch], tone)), col2 + cw)
        }
    }
}

/// Toned pieces laid out from column `indent` in `width` columns (at least
/// one).
pub open spec fn layout_of(sp: Seq<(Seq<char>, Tone)>, indent: int, width: int) -> Seq<
    Seq<(int, Seq<char>, Tone)>,
> {
    lay(
        cells(sp),
        0,
        indent,
        if width < 1 {
            1
        } else {
            width
        },
        Seq::empty(),
        Seq::empty(),
        indent,
    )
}

pub fn layout_styled(spans: &Vec<(String, Tone)>, indent: usize, width: usize) -> (r: Vec<Line>)
    requires
        indent + width + 8 <= usize::MAX,
    ensures
        lines_of(r@) == layout_of(pieces_view(spans@), indent as int, width as int),
{
    let width = if width < 1 {
        1
    } else {
        width
    };
    let ghost sp = pieces_view(spans@);
    // the toned characters, in order
    let mut cs: Vec<(char, Tone)> = Vec::new();
    let mut a: usize = 0;
    while a < spans.len()
        invariant
            a <= spans@.len(),
            sp == pieces_view(spans@),
            cs@ == cells(sp.take(a as int)),
        decreases spans@.len() - a,
    {
        let t = chars_of(spans[a].0.as_str());
        let tone = spans[a].1;
        let ghost c0 = cs@;
        let mut b: usize = 0;
        while b < t.len()
            invariant
                b <= t@.len(),
                cs@ == c0 + t@.take(b as int).map_values(|c: char| (c, tone)),
            decreases t@.len() - b,
        {
            cs.push((t[b], tone));
            assert(t@.take(b + 1) =~= t@.take(b as int).push(t@[b as int]));
            assert(cs@ =~= c0 + t@.take(b + 1).map_values(|c: char| (c, tone)));
            b = b + 1;
        }
        assert(t@.take(t@.len() as int) =~= t@);
        assert(sp.take(a + 1).drop_last() =~= sp.take(a as int));
        assert(sp.take(a + 1).last() == (t@, tone));
        a = a + 1;
    }
    assert(sp.take(spans@.len() as int) =~= sp);
    let mut out: Vec<Line> = Vec::new();
    let mut line: Line = Vec::new();
    let mut col: usize = indent;
    let mut k: usize = 0;
    assert(lines_of(out@) =~= Seq::<Seq<(int, Seq<char>, Tone)>>::empty());
    assert(line_view(line@) =~= Seq::<(int, Seq<char>, Tone)>::empty());
    while k < cs.len()
        invariant
            k <= cs@.len(),
            cs@ == cells(sp),
            indent + width + 7 <= usize::MAX,
            width >= 1,
            col <= indent + width + 2,
            layout_of(sp, indent as int, width as int) == lay(
                cs@,
                k as int,
                indent as int,
                width as int,
                lines_of(out@),
                line_view(line@),
                col as int,
            ),
        decreases cs@.len() - k,
    {
        let (ch, tone) = cs[k];
        let cw = char_width(ch);
        if col + cw > indent + width {
            let ghost o0 = lines_of(out@);
            let ghost l0 = line_view(line@);
            out.push(line);
            assert(lines_of(out@) =~= o0.push(l0));
            line = Vec::new();
            assert(line_view(line@) =~= Seq::<(int, Seq<char>, Tone)>::empty());
            col = indent;
        }
        let n = line.len();
        let ghost l1 = line_view(line@);
        if n > 0 && line[n - 1].2 == tone {
            let (c0, mut t0, tn) = line.pop().unwrap();
            push_char(&mut t0, ch);
            line.push((c0, t0, tn));
            assert(line_view(line@) =~= l1.update(
                l1.len() - 1,
                (l1.last().0, l1.last().1.push(ch), tone),
            ));
        } else {
            let mut t = String::new();
            push_char(&mut t, ch);
            line.push((col, t, tone));
            assert(line_view(line@) =~= l1.push((col as int, seq![ch], tone)));
        }
        col = col + cw;
        k = k + 1;
    }
    let ghost o0 = lines_of(out@);
    let ghost l0 = line_view(line@);
    out.push(line);
    assert(lines_of(out@) =~= o0.push(l0));
    out
}


// ── blocks ───────────────────────────────────────────────────────────

pub open spec fn sat_sub(a: int, b: int) -> int {
    if a > b {
        a - b
    } else {
        0
    }
}

pub open spec fn min(a: int, b: int) -> int {
    if a < b {
        a
    } else {
        b
    }
}

/// The rendering of one line outside code blocks (not empty).
pub open spec fn block_lines(line: Seq<char>, width: int) -> Seq<Seq<(int, Seq<char>, Tone)>> {
    let t = trim_start(line);
    match heading_of(t) {
        Some(h) => {
            let title = trim(t.skip(h));
            let tone = if h <= 2 {
                Tone::Accent
            } else {
                Tone::Info
            };
            wrapped(title, width).map_values(|w: Seq<char>| seq![(0int, w, tone)])
        },
        None => if t.len() > 0 && t[0] == '>' {
            let body = trim_start(t.skip(1));
            wrapped(body, sat_sub(width, 2)).map_values(
                |w: Seq<char>| seq![(0int, "▏"@, Tone::Border), (2int, w, Tone::Muted)],
            )
        } else {
            match bullet_of(t) {
                Some(rest) => {
                    let ind = lead_spaces(line) as int;
                    let ws = wrapped(rest, sat_sub(width, ind + 2));
                    Seq::new(
                        ws.len(),
                        |j: int|
                            if j == 0 {
                                seq![(ind, "• "@, Tone::Primary)] + inline_of(ws[0], ind + 2)
                            } else {
                                seq![(ind, "  "@, Tone::Text), (ind + 2, ws[j], Tone::Text)]
                            },
                    )
                },
                None => match ordered_of(t) {
                    Some((num, rest)) => {
                        let ind = lead_spaces(line) as int;
                        let label = num + seq!['.', ' '];
                        let ws = wrapped(rest, sat_sub(width, ind + label.len()));
                        Seq::new(
                            ws.len(),
                            |j: int|
                                if j == 0 {
                                    seq![(ind, label, Tone::Primary)] + inline_of(
                                        ws[0],
                                        ind + label.len(),
                                    )
                                } else {
                                    seq![(ind + label.len(), ws[j], Tone::Text)]
                                },
                        )
                    },
                    None => if is_rule(t) {
                        seq![seq![(0int, Seq::new(min(width, 40) as nat, |i: int| '─'), Tone::Border)]]
                    } else {
                        wrapped(t, width).map_values(|w: Seq<char>| inline_of(w, 0))
                    },
                },
            }
        },
    }
}

/// Fence state between lines: inside a code block, and its language.
pub struct MdState {
    pub in_code: bool,
    pub lang: Lang,
}

pub open spec fn fence() -> Seq<char> {
    seq!['`', '`', '`']
}

/// One source line: a fence opens or closes a code block (and shows
/// nothing); code is highlighted and hard-wrapped two columns in; an
/// empty line stays empty; anything else is a block.
pub open spec fn render_step(st: MdState, raw: Seq<char>, width: int) -> (MdState, Seq<
    Seq<(int, Seq<char>, Tone)>,
>) {
    let line = trim_end(raw);
    let t = trim_start(line);
    if starts_with(t, fence()) {
        if st.in_code {
            (MdState { in_code: false, lang: st.lang }, Seq::empty())
        } else {
            (MdState { in_code: true, lang: lang_of(t.skip(3)) }, Seq::empty())
        }
    } else if st.in_code {
        (st, layout_of(highlight_of(line, st.lang), 2, sat_sub(width, 4)))
    } else if line.len() == 0 {
        (st, seq![Seq::empty()])
    } else {
        (st, block_lines(line, width))
    }
}

pub open spec fn render_fold(ls: Seq<Seq<char>>, n: int, width: int) -> (MdState, Seq<
    Seq<(int, Seq<char>, Tone)>,
>)
    decreases n,
{
    if n <= 0 {
        (MdState { in_code: false, lang: Lang::Plain }, Seq::empty())
    } else {
        let prev = render_fold(ls, n - 1, width);
        let next = render_step(prev.0, ls[n - 1], width);
        (next.0, prev.1 + next.1)
    }
}

/// The rendering of a Markdown text in `width` columns.
pub open spec fn render_of(text: Seq<char>, width: int) -> Seq<Seq<(int, Seq<char>, Tone)>> {
    render_fold(crate::lines::text_lines(text), crate::lines::text_lines(text).len() as int, width).1
}

pub open spec fn strings_of(v: Seq<String>) -> Seq<Seq<char>> {
    v.map_values(|s: String| s@)
}

fn heading_lines(t: &[char], h: usize, width: usize) -> (r: Vec<Line>)
    requires
        h <= t@.len(),
    ensures
        lines_of(r@) == wrapped(trim(t@.skip(h as int)), width as int).map_values(
            |w: Seq<char>| seq![(0int, w, if h <= 2 { Tone::Accent } else { Tone::Info })],
        ),
{
    let rest = sub_chars(t, h, t.len());
    assert(rest@ =~= t@.skip(h as int));
    let (a, b) = trim_range(rest.as_slice());
    let title = string_of(sub_chars(rest.as_slice(), a, b).as_slice());
    let tone = if h <= 2 {
        Tone::Accent
    } else {
        Tone::Info
    };
    let ws = wrap_to_width(title.as_str(), width);
    let ghost wv = ws@.map_values(|l: String| l@);
    let mut out: Vec<Line> = Vec::new();
    let mut j: usize = 0;
    while j < ws.len()
        invariant
            j <= ws@.len(),
            wv == ws@.map_values(|l: String| l@),
            lines_of(out@) == wv.take(j as int).map_values(|w: Seq<char>| seq![(0int, w, tone)]),
        decreases ws@.len() - j,
    {
        let mut l: Line = Vec::new();
        l.push((0, owned(ws[j].as_str()), tone));
        let ghost o0 = lines_of(out@);
        assert(line_view(l@) =~= seq![(0int, wv[j as int], tone)]);
        out.push(l);
        assert(lines_of(out@) =~= o0.push(line_view(l@)));
        assert(wv.take(j + 1) =~= wv.take(j as int).push(wv[j as int]));
        assert(lines_of(out@) =~= wv.take(j + 1).map_values(|w: Seq<char>| seq![(0int, w, tone)]));
        j = j + 1;
    }
    assert(wv.take(ws@.len() as int) =~= wv);
    out
}

fn quote_lines(t: &[char], width: usize) -> (r: Vec<Line>)
    requires
        t@.len() > 0,
    ensures
        lines_of(r@) == wrapped(trim_start(t@.skip(1)), sat_sub(width as int, 2)).map_values(
            |w: Seq<char>| seq![(0int, "▏"@, Tone::Border), (2int, w, Tone::Muted)],
        ),
{
    let rest = sub_chars(t, 1, t.len());
    assert(rest@ =~= t@.skip(1));
    let a = leading_ws_len(rest.as_slice());
    proof {
        crate::text::lemma_lead_ws_bound(rest@);
    }
    let body_v = sub_chars(rest.as_slice(), a, rest.len());
    assert(body_v@ =~= trim_start(rest@));
    let body = string_of(body_v.as_slice());
    let ws = wrap_to_width(body.as_str(), width.saturating_sub(2));
    let ghost wv = ws@.map_values(|l: String| l@);
    let mut out: Vec<Line> = Vec::new();
    let mut j: usize = 0;
    while j < ws.len()
        invariant
            j <= ws@.len(),
            wv == ws@.map_values(|l: String| l@),
            lines_of(out@) == wv.take(j as int).map_values(
                |w: Seq<char>| seq![(0int, "▏"@, Tone::Border), (2int, w, Tone::Muted)],
            ),
        decreases ws@.len() - j,
    {
        let mut l: Line = Vec::new();
        l.push((0, owned("▏"), Tone::Border));
        l.push((2, owned(ws[j].as_str()), Tone::Muted));
        let ghost o0 = lines_of(out@);
        assert(line_view(l@) =~= seq![(0int, "▏"@, Tone::Border), (2int, wv[j as int], Tone::Muted)]);
        out.push(l);
        assert(lines_of(out@) =~= o0.push(line_view(l@)));
        assert(wv.take(j + 1) =~= wv.take(j as int).push(wv[j as int]));
        assert(lines_of(out@) =~= wv.take(j + 1).map_values(
            |w: Seq<char>| seq![(0int, "▏"@, Tone::Border), (2int, w, Tone::Muted)],
        ));
        j = j + 1;
    }
    assert(wv.take(ws@.len() as int) =~= wv);
    out
}

/// Lines of a list item: the first carries the marker and inline markup,
/// the rest are indented plain continuation lines.
pub open spec fn item_lines(
    ind: int,
    label: Seq<char>,
    first_pad: bool,
    ws: Seq<Seq<char>>,
) -> Seq<Seq<(int, Seq<char>, Tone)>> {
    Seq::new(
        ws.len(),
        |j: int|
            if j == 0 {
                seq![(ind, label, Tone::Primary)] + inline_of(ws[0], ind + label.len())
            } else if first_pad {
                seq![(ind, "  "@, Tone::Text), (ind + 2, ws[j], Tone::Text)]
            } else {
                seq![(ind + label.len(), ws[j], Tone::Text)]
            },
    )
}

fn item_lines_exec(ind: usize, label: &str, pad: bool, rest: &[char], width: usize, Ghost(
    total,
): Ghost<int>) -> (r: Vec<Line>)
    requires
        rest@.len() <= total,
        ind <= total,
        label@.len() <= 5,
        4 * total + 16 <= usize::MAX,
    ensures
        lines_of(r@) == item_lines(
            ind as int,
            label@,
            pad,
            wrapped(rest@, sat_sub(width as int, ind + label@.len())),
        ),
{
    let lv = chars_of(label);
    let ll = lv.len();
    let rs = string_of(rest);
    let ws = wrap_to_width(rs.as_str(), width.saturating_sub(ind + ll));
    let ghost wv = ws@.map_values(|l: String| l@);
    let ghost want = item_lines(ind as int, label@, pad, wv);
    let mut out: Vec<Line> = Vec::new();
    let mut j: usize = 0;
    while j < ws.len()
        invariant
            j <= ws@.len(),
            wv == ws@.map_values(|l: String| l@),
            wv == wrapped(rest@, sat_sub(width as int, ind + label@.len())),
            want == item_lines(ind as int, label@, pad, wv),
            ll == label@.len(),
            ll <= 5,
            ind <= total,
            rest@.len() <= total,
            4 * total + 16 <= usize::MAX,
            lines_of(out@) == want.take(j as int),
        decreases ws@.len() - j,
    {
        let wj = chars_of(ws[j].as_str());
        proof {
            crate::width::lemma_wrapped_piece_len(rest@, sat_sub(width as int, ind + label@.len()), j as int);
        }
        let l: Line = if j == 0 {
            let mut l: Line = Vec::new();
            l.push((ind, owned(label), Tone::Primary));
            let more = inline(wj.as_slice(), ind + ll);
            let ghost l0 = line_view(l@);
            let mut k: usize = 0;
            while k < more.len()
                invariant
                    k <= more@.len(),
                    line_view(l@) == l0 + line_view(more@).take(k as int),
                decreases more@.len() - k,
            {
                let c = more[k].0;
                let tn = more[k].2;
                let t = owned(more[k].1.as_str());
                let ghost l1 = line_view(l@);
                l.push((c, t, tn));
                assert(line_view(more@).take(k + 1) =~= line_view(more@).take(k as int).push(
                    line_view(more@)[k as int],
                ));
                assert(line_view(l@) =~= l1.push(line_view(more@)[k as int]));
                k = k + 1;
            }
            assert(line_view(more@).take(more@.len() as int) =~= line_view(more@));
            assert(line_view(l@) =~= want[j as int]);
            l
        } else if pad {
            let mut l: Line = Vec::new();
            l.push((ind, owned("  "), Tone::Text));
            l.push((ind + 2, owned(ws[j].as_str()), Tone::Text));
            assert(line_view(l@) =~= want[j as int]);
            l
        } else {
            let mut l: Line = Vec::new();
            l.push((ind + ll, owned(ws[j].as_str()), Tone::Text));
            assert(line_view(l@) =~= want[j as int]);
            l
        };
        let ghost o0 = lines_of(out@);
        out.push(l);
        assert(want.take(j + 1) =~= want.take(j as int).push(want[j as int]));
        assert(lines_of(out@) =~= o0.push(line_view(l@)));
        j = j + 1;
    }
    assert(want.take(ws@.len() as int) =~= want);
    out
}


fn repeat_rule(n: usize) -> (r: String)
    ensures
        r@ == Seq::new(n as nat, |i: int| '─'),
{
    let mut r = String::new();
    let mut i: usize = 0;
    while i < n
        invariant
            i <= n,
            r@ == Seq::new(i as nat, |j: int| '─'),
        decreases n - i,
    {
        push_char(&mut r, '─');
        assert(r@ =~= Seq::new((i + 1) as nat, |j: int| '─'));
        i = i + 1;
    }
    r
}

fn block_lines_exec(line: &[char], width: usize, Ghost(total): Ghost<int>) -> (r: Vec<Line>)
    requires
        line@.len() <= total,
        4 * total + 16 <= usize::MAX,
    ensures
        lines_of(r@) == block_lines(line@, width as int),
{
    let a = leading_ws_len(line);
    proof {
        crate::text::lemma_lead_ws_bound(line@);
    }
    let t = sub_chars(line, a, line.len());
    assert(t@ =~= trim_start(line@));
    // the first word, and whether it is all `#`
    let mut k: usize = 0;
    while k < t.len() && !crate::text::is_whitespace(t[k])
        invariant
            k <= t@.len(),
            forall|j: int| 0 <= j < k ==> !crate::text::is_ws(#[trigger] t@[j]),
        decreases t@.len() - k,
    {
        k = k + 1;
    }
    proof {
        crate::text::lemma_word_len(t@, k as int);
    }
    let mut hashes = k > 0;
    let mut j: usize = 0;
    while j < k
        invariant
            j <= k <= t@.len(),
            hashes == (k > 0 && forall|m: int| 0 <= m < j ==> #[trigger] t@[m] == '#'),
        decreases k - j,
    {
        if t[j] != '#' {
            hashes = false;
        }
        j = j + 1;
    }
    if hashes {
        return heading_lines(t.as_slice(), k, width);
    }
    if t.len() > 0 && t[0] == '>' {
        return quote_lines(t.as_slice(), width);
    }
    if let Some(rest) = strip_bullet(t.as_slice()) {
        let ind = leading_spaces(line);
        proof {
            reveal_strlit("• ");
        }
        return item_lines_exec(ind, "• ", true, rest.as_slice(), width, Ghost(total));
    }
    if let Some((num, rest)) = strip_ordered(t.as_slice()) {
        let ind = leading_spaces(line);
        let mut label = string_of(num.as_slice());
        push_str(&mut label, ". ");
        proof {
            reveal_strlit(". ");
            assert(label@ =~= num@ + seq!['.', ' ']);
        }
        return item_lines_exec(ind, label.as_str(), false, rest.as_slice(), width, Ghost(total));
    }
    if is_rule_exec(t.as_slice()) {
        let n = if width < 40 {
            width
        } else {
            40
        };
        let mut l: Line = Vec::new();
        let rule = repeat_rule(n);
        l.push((0, rule, Tone::Border));
        let ghost x = (0int, Seq::new(n as nat, |i: int| '─'), Tone::Border);
        assert(line_view(l@) =~= seq![x]);
        let mut out: Vec<Line> = Vec::new();
        out.push(l);
        assert(lines_of(out@) =~= seq![seq![x]]);
        assert(heading_of(t@) is None);
        assert(block_lines(line@, width as int) == seq![seq![x]]);
        return out;
    }
    let ts = string_of(t.as_slice());
    let ws = wrap_to_width(ts.as_str(), width);
    let ghost wv = ws@.map_values(|l: String| l@);
    let mut out: Vec<Line> = Vec::new();
    let mut i: usize = 0;
    while i < ws.len()
        invariant
            i <= ws@.len(),
            wv == ws@.map_values(|l: String| l@),
            wv == wrapped(t@, width as int),
            t@.len() <= total,
            4 * total + 16 <= usize::MAX,
            lines_of(out@) == wv.take(i as int).map_values(|w: Seq<char>| inline_of(w, 0)),
        decreases ws@.len() - i,
    {
        let wc = chars_of(ws[i].as_str());
        proof {
            crate::width::lemma_wrapped_piece_len(t@, width as int, i as int);
        }
        let l = inline(wc.as_slice(), 0);
        let ghost o0 = lines_of(out@);
        out.push(l);
        assert(lines_of(out@) =~= o0.push(line_view(l@)));
        assert(wv.take(i + 1) =~= wv.take(i as int).push(wv[i as int]));
        assert(lines_of(out@) =~= wv.take(i + 1).map_values(|w: Seq<char>| inline_of(w, 0)));
        i = i + 1;
    }
    assert(wv.take(ws@.len() as int) =~= wv);
    out
}

/// Render Markdown text as toned lines, `width` columns wide (the width
/// budget includes indentation).
pub fn render(text: &str, width: usize) -> (r: Vec<Line>)
    requires
        4 * text@.len() + 16 <= usize::MAX,
        width + 16 <= usize::MAX,
    ensures
        lines_of(r@) == render_of(text@, width as int),
{
    let ls = crate::lines::text_lines_exec(text);
    let ghost lsv = crate::lines::lines_view(ls@);
    let mut out: Vec<Line> = Vec::new();
    let mut in_code = false;
    let mut lang = Lang::Plain;
    let fence_v = chars_of("```");
    proof {
        reveal_strlit("```");
        assert(fence_v@ =~= fence());
    }
    let mut i: usize = 0;
    assert(lines_of(out@) =~= Seq::<Seq<(int, Seq<char>, Tone)>>::empty());
    while i < ls.len()
        invariant
            i <= ls@.len(),
            lsv == crate::lines::lines_view(ls@),
            lsv == crate::lines::text_lines(text@),
            fence_v@ == fence(),
            4 * text@.len() + 16 <= usize::MAX,
            width + 16 <= usize::MAX,
            render_fold(lsv, i as int, width as int) == (MdState { in_code, lang }, lines_of(out@)),
        decreases ls@.len() - i,
    {
        proof {
            crate::lines::lemma_text_lines_len(text@, i as int);
        }
        let raw = &ls[i];
        assert(raw@ == lsv[i as int]);
        let line = trim_end_chars(raw.as_slice());
        proof {
            crate::text::lemma_trail_ws_bound(raw@);
        }
        let a = leading_ws_len(line.as_slice());
        proof {
            crate::text::lemma_lead_ws_bound(line@);
        }
        let t = sub_chars(line.as_slice(), a, line.len());
        assert(t@ =~= trim_start(line@));
        let ghost o0 = lines_of(out@);
        let ghost st0 = MdState { in_code, lang };
        if crate::text::starts_with_exec(t.as_slice(), fence_v.as_slice()) {
            if in_code {
                in_code = false;
            } else {
                in_code = true;
                let rest = sub_chars(t.as_slice(), 3, t.len());
                assert(rest@ =~= t@.skip(3));
                let rs = string_of(rest.as_slice());
                lang = Lang::from_fence(rs.as_str());
            }
            assert(o0 + Seq::<Seq<(int, Seq<char>, Tone)>>::empty() =~= o0);
        } else {
            let mut more: Vec<Line> = if in_code {
                let ls_str = string_of(line.as_slice());
                let spans = highlight_line(ls_str.as_str(), lang);
                assert(pieces_view(spans@) =~= spans_view(spans@));
                layout_styled(&spans, 2, width.saturating_sub(4))
            } else if line.len() == 0 {
                let mut v: Vec<Line> = Vec::new();
                let e: Line = Vec::new();
                assert(line_view(e@) =~= Seq::<(int, Seq<char>, Tone)>::empty());
                v.push(e);
                assert(lines_of(v@) =~= seq![Seq::<(int, Seq<char>, Tone)>::empty()]);
                v
            } else {
                block_lines_exec(line.as_slice(), width, Ghost(text@.len() as int))
            };
            let ghost m0 = lines_of(more@);
            out.append(&mut more);
            assert(lines_of(out@) =~= o0 + m0);
        }
        i = i + 1;
    }
    out
}


// ── laws of fenced code ──────────────────────────────────────────────

/// A line that opens or closes a fenced code block: after trimming, it
/// starts with three backticks.
pub open spec fn is_fence_line(l: Seq<char>) -> bool {
    starts_with(trim_start(trim_end(l)), seq!['`', '`', '`'])
}

/// The rendering of a sequence of source lines.
pub open spec fn render_lines(ls: Seq<Seq<char>>, width: int) -> Seq<Seq<(int, Seq<char>, Tone)>> {
    render_fold(ls, ls.len() as int, width).1
}

/// The first `n` lines rendered from state `st`.
pub open spec fn md_from(st: MdState, ls: Seq<Seq<char>>, n: int, width: int) -> (MdState, Seq<
    Seq<(int, Seq<char>, Tone)>,
>)
    decreases n,
{
    if n <= 0 {
        (st, Seq::empty())
    } else {
        let prev = md_from(st, ls, n - 1, width);
        let next = render_step(prev.0, ls[n - 1], width);
        (next.0, prev.1 + next.1)
    }
}

proof fn lemma_fold_is_from(ls: Seq<Seq<char>>, n: int, width: int)
    ensures
        render_fold(ls, n, width) == md_from(MdState { in_code: false, lang: Lang::Plain }, ls, n, width),
    decreases n,
{
    if n > 0 {
        lemma_fold_is_from(ls, n - 1, width);
    }
}

proof fn lemma_from_prefix(st: MdState, x: Seq<Seq<char>>, y: Seq<Seq<char>>, n: int, width: int)
    requires
        0 <= n <= x.len(),
        n <= y.len(),
        forall|i: int| 0 <= i < n ==> x[i] == y[i],
    ensures
        md_from(st, x, n, width) == md_from(st, y, n, width),
    decreases n,
{
    if n > 0 {
        lemma_from_prefix(st, x, y, n - 1, width);
    }
}

proof fn lemma_from_concat(st: MdState, a: Seq<Seq<char>>, b: Seq<Seq<char>>, j: int, width: int)
    requires
        0 <= j <= b.len(),
    ensures
        md_from(st, a + b, a.len() + j, width) == (
            md_from(md_from(st, a, a.len() as int, width).0, b, j, width).0,
            md_from(st, a, a.len() as int, width).1 + md_from(md_from(st, a, a.len() as int, width).0, b, j, width).1,
        ),
    decreases j,
{
    let r1 = md_from(st, a, a.len() as int, width);
    if j == 0 {
        lemma_from_prefix(st, a + b, a, a.len() as int, width);
        assert(r1.1 + Seq::<Seq<(int, Seq<char>, Tone)>>::empty() =~= r1.1);
    } else {
        lemma_from_concat(st, a, b, j - 1, width);
        let r2 = md_from(r1.0, b, j - 1, width);
        assert((a + b)[a.len() + j - 1] == b[j - 1]);
        let next = render_step(r2.0, b[j - 1], width);
        assert(r1.1 + r2.1 + next.1 =~= r1.1 + (r2.1 + next.1));
    }
}

/// Two states that agree on being in code, and on the language when they
/// are, render the same lines alike and keep agreeing.
proof fn lemma_from_agree(s1: MdState, s2: MdState, b: Seq<Seq<char>>, n: int, width: int)
    requires
        0 <= n <= b.len(),
        s1.in_code == s2.in_code,
        s1.in_code ==> s1.lang == s2.lang,
    ensures
        md_from(s1, b, n, width).1 == md_from(s2, b, n, width).1,
        md_from(s1, b, n, width).0.in_code == md_from(s2, b, n, width).0.in_code,
        md_from(s1, b, n, width).0.in_code ==> md_from(s1, b, n, width).0.lang == md_from(s2, b, n, width).0.lang,
    decreases n,
{
    if n > 0 {
        lemma_from_agree(s1, s2, b, n - 1, width);
    }
}

/// Inside an open code block, lines that are not fences leave the block
/// open in the same language.
proof fn lemma_code_stays(st: MdState, code: Seq<Seq<char>>, n: int, width: int)
    requires
        0 <= n <= code.len(),
        st.in_code,
        forall|i: int| 0 <= i < code.len() ==> !is_fence_line(#[trigger] code[i]),
    ensures
        md_from(st, code, n, width).0 == st,
    decreases n,
{
    if n > 0 {
        lemma_code_stays(st, code, n - 1, width);
        assert(!is_fence_line(code[n - 1]));
    }
}

/// A fenced block rendered from outside code ends outside code: the fence
/// that follows its lines closes it.
proof fn lemma_block_closes(st: MdState, f1: Seq<char>, code: Seq<Seq<char>>, f2: Seq<char>, width: int)
    requires
        !st.in_code,
        is_fence_line(f1),
        is_fence_line(f2),
        forall|i: int| 0 <= i < code.len() ==> !is_fence_line(#[trigger] code[i]),
    ensures
        !md_from(st, seq![f1] + code + seq![f2], code.len() + 2int, width).0.in_code,
{
    let a = seq![f1];
    assert(md_from(st, a, 0, width) == (st, Seq::<Seq<(int, Seq<char>, Tone)>>::empty()));
    assert(a[0] == f1);
    let s1 = md_from(st, a, 1, width).0;
    assert(s1 == render_step(st, f1, width).0);
    assert(s1.in_code);
    lemma_from_concat(st, a, code, code.len() as int, width);
    lemma_code_stays(s1, code, code.len() as int, width);
    let ac = a + code;
    assert(ac.len() == code.len() + 1);
    let sac = md_from(st, ac, ac.len() as int, width).0;
    assert(sac == s1);
    let b = seq![f2];
    assert(md_from(sac, b, 0, width) == (sac, Seq::<Seq<(int, Seq<char>, Tone)>>::empty()));
    assert(b[0] == f2);
    assert(!md_from(sac, b, 1, width).0.in_code);
    lemma_from_concat(st, ac, b, 1, width);
    assert(ac + b =~= seq![f1] + code + seq![f2]);
}

/// A closed code block ends the code: what follows the closing fence is
/// rendered exactly as it would be on its own, as ordinary Markdown (a
/// heading after the block is a heading, not code).
pub proof fn law_closed_block_ends_code(
    f1: Seq<char>,
    code: Seq<Seq<char>>,
    f2: Seq<char>,
    rest: Seq<Seq<char>>,
    width: int,
)
    requires
        is_fence_line(f1),
        is_fence_line(f2),
        forall|i: int| 0 <= i < code.len() ==> !is_fence_line(#[trigger] code[i]),
    ensures
        render_lines(seq![f1] + code + seq![f2] + rest, width) == render_lines(seq![f1] + code + seq![f2], width)
            + render_lines(rest, width),
{
    let init = MdState { in_code: false, lang: Lang::Plain };
    let blk = seq![f1] + code + seq![f2];
    lemma_fold_is_from(blk + rest, (blk + rest).len() as int, width);
    lemma_fold_is_from(blk, blk.len() as int, width);
    lemma_fold_is_from(rest, rest.len() as int, width);
    lemma_from_concat(init, blk, rest, rest.len() as int, width);
    lemma_block_closes(init, f1, code, f2, width);
    let s = md_from(init, blk, blk.len() as int, width).0;
    lemma_from_agree(s, init, rest, rest.len() as int, width);
}

/// No line ends with a carriage return.
pub open spec fn no_cr_ends(ls: Seq<Seq<char>>) -> bool {
    forall|i: int| 0 <= i < ls.len() ==> !(ls[i].len() > 0 && #[trigger] ls[i].last() == '\r')
}

proof fn lemma_join_last(ls: Seq<Seq<char>>)
    requires
        ls.len() >= 1,
        ls.last().len() > 0,
    ensures
        crate::lines::join_lines(ls).len() > 0,
        crate::lines::join_lines(ls).last() == ls.last().last(),
{
}

/// The lines of a text made of newline-free lines joined by line breaks
/// are those lines (the last one not empty).
proof fn lemma_text_lines_join(ls: Seq<Seq<char>>)
    requires
        ls.len() >= 1,
        crate::lines::no_newlines(ls),
        no_cr_ends(ls),
        ls.last().len() > 0,
    ensures
        crate::lines::text_lines(crate::lines::join_lines(ls)) == ls,
{
    let s = crate::lines::join_lines(ls);
    lemma_join_last(ls);
    crate::lines::lemma_split_join(ls);
    assert(ls.last()[ls.last().len() - 1] != '\n');
    assert(crate::lines::text_lines(s) =~= ls);
}

/// The same, on texts: a text made of a fenced block followed by a line
/// break and more lines renders as the block followed by the rendering of
/// the rest on its own (`render("```\nx\n```\n## T")` ends with the
/// heading `T`).
pub proof fn law_closed_block_ends_code_text(
    f1: Seq<char>,
    code: Seq<Seq<char>>,
    f2: Seq<char>,
    rest: Seq<Seq<char>>,
    width: int,
)
    requires
        is_fence_line(f1),
        is_fence_line(f2),
        forall|i: int| 0 <= i < code.len() ==> !is_fence_line(#[trigger] code[i]),
        rest.len() >= 1,
        rest.last().len() > 0,
        crate::lines::no_newlines(seq![f1] + code + seq![f2] + rest),
        no_cr_ends(seq![f1] + code + seq![f2] + rest),
    ensures
        ({
            let blk = seq![f1] + code + seq![f2];
            render_of(crate::lines::join_lines(blk + rest), width) == render_of(
                crate::lines::join_lines(blk),
                width,
            ) + render_of(crate::lines::join_lines(rest), width)
        }),
{
    let blk = seq![f1] + code + seq![f2];
    let all = blk + rest;
    assert forall|i: int, j: int| 0 <= i < blk.len() && 0 <= j < blk[i].len() implies blk[i][j] != '\n' by {
        assert(all[i] == blk[i]);
    }
    assert forall|i: int, j: int| 0 <= i < rest.len() && 0 <= j < rest[i].len() implies rest[i][j] != '\n' by {
        assert(all[blk.len() + i] == rest[i]);
    }
    assert forall|i: int| 0 <= i < blk.len() implies !(blk[i].len() > 0 && #[trigger] blk[i].last() == '\r') by {
        assert(all[i] == blk[i]);
    }
    assert forall|i: int| 0 <= i < rest.len() implies !(rest[i].len() > 0 && #[trigger] rest[i].last() == '\r') by {
        assert(all[blk.len() + i] == rest[i]);
    }
    assert(all.last() == rest.last());
    assert(blk.last() == f2);
    assert(f2.len() > 0) by {
        assert(trim_start(trim_end(f2)).len() >= 3);
        crate::text::lemma_lead_ws_bound(trim_end(f2));
    }
    lemma_text_lines_join(all);
    lemma_text_lines_join(blk);
    lemma_text_lines_join(rest);
    law_closed_block_ends_code(f1, code, f2, rest, width);
}

} // verus!
