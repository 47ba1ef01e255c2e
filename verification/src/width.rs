//! Terminal display width of characters and strings, truncation and
//! wrapping to a column budget.
//!
//! Wide (East Asian wide / fullwidth, emoji) characters take two columns,
//! combining marks and control characters none, everything else one.
use vstd::prelude::*;
use crate::text::{chars_of, string_of};

verus! {

/// Characters that take no column: C0/C1 controls, combining marks,
/// zero-width spaces and joiners, variation selectors.
pub open spec fn is_zero_width(c: char) -> bool {
    let u = c as u32;
    ||| u < 0x20
    ||| 0x7F <= u <= 0x9F
    ||| 0x300 <= u <= 0x36F
    ||| 0x200B <= u <= 0x200F
    ||| 0xFE00 <= u <= 0xFE0F
}

/// Characters that take two columns.
pub open spec fn is_wide(c: char) -> bool {
    let u = c as u32;
    ||| 0x1100 <= u <= 0x115F
    ||| 0x2E80 <= u <= 0x303E
    ||| 0x3041 <= u <= 0x33FF
    ||| 0x3400 <= u <= 0x4DBF
    ||| 0x4E00 <= u <= 0x9FFF
    ||| 0xA000 <= u <= 0xA4CF
    ||| 0xAC00 <= u <= 0xD7A3
    ||| 0xF900 <= u <= 0xFAFF
    ||| 0xFE30 <= u <= 0xFE4F
    ||| 0xFF00 <= u <= 0xFF60
    ||| 0xFFE0 <= u <= 0xFFE6
    ||| 0x1F300 <= u <= 0x1F64F
    ||| 0x1F900 <= u <= 0x1F9FF
    ||| 0x20000 <= u <= 0x3FFFD
}

pub open spec fn width_of(c: char) -> nat {
    if is_zero_width(c) {
        0
    } else if is_wide(c) {
        2
    } else {
        1
    }
}

/// Display width of a character sequence.
pub open spec fn seq_width(s: Seq<char>) -> nat
    decreases s.len(),
{
    if s.len() == 0 {
        0
    } else {
        seq_width(s.drop_last()) + width_of(s.last())
    }
}

/// A character takes at most two columns.
pub proof fn lemma_width_at_most_twice_len(s: Seq<char>)
    ensures
        seq_width(s) <= 2 * s.len(),
    decreases s.len(),
{
    if s.len() > 0 {
        lemma_width_at_most_twice_len(s.drop_last());
    }
}

/// Columns a character takes on the terminal.
pub fn char_width(c: char) -> (r: usize)
    ensures
        r == width_of(c),
{
    let u = c as u32;
    if u < 0x20 || (0x7F <= u && u <= 0x9F) || (0x300 <= u && u <= 0x36F) || (0x200B <= u && u
        <= 0x200F) || (0xFE00 <= u && u <= 0xFE0F) {
        0
    } else if (0x1100 <= u && u <= 0x115F) || (0x2E80 <= u && u <= 0x303E) || (0x3041 <= u && u
        <= 0x33FF) || (0x3400 <= u && u <= 0x4DBF) || (0x4E00 <= u && u <= 0x9FFF) || (0xA000 <= u
        && u <= 0xA4CF) || (0xAC00 <= u && u <= 0xD7A3) || (0xF900 <= u && u <= 0xFAFF) || (0xFE30
        <= u && u <= 0xFE4F) || (0xFF00 <= u && u <= 0xFF60) || (0xFFE0 <= u && u <= 0xFFE6) || (
    0x1F300 <= u && u <= 0x1F64F) || (0x1F900 <= u && u <= 0x1F9FF) || (0x20000 <= u && u
        <= 0x3FFFD) {
        2
    } else {
        1
    }
}

/// Display width of a character slice (saturating at `usize::MAX`).
pub fn chars_width(v: &[char]) -> (r: usize)
    ensures
        r as int == if seq_width(v@) <= usize::MAX {
            seq_width(v@) as int
        } else {
            usize::MAX as int
        },
{
    let mut w: usize = 0;
    let mut i: usize = 0;
    while i < v.len()
        invariant
            i <= v@.len(),
            w as int == if seq_width(v@.take(i as int)) <= usize::MAX {
                seq_width(v@.take(i as int)) as int
            } else {
                usize::MAX as int
            },
        decreases v@.len() - i,
    {
        assert(v@.take(i + 1).drop_last() =~= v@.take(i as int));
        w = w.saturating_add(char_width(v[i]));
        i = i + 1;
    }
    assert(v@.take(v@.len() as int) =~= v@);
    w
}

/// Display width of a string (saturating at `usize::MAX`).
pub fn display_width(s: &str) -> (r: usize)
    ensures
        r as int == if seq_width(s@) <= usize::MAX {
            seq_width(s@) as int
        } else {
            usize::MAX as int
        },
{
    let v = chars_of(s);
    chars_width(v.as_slice())
}

/// Length of the longest prefix of `s` that fits in `max` columns.
pub open spec fn fit_len(s: Seq<char>, max: int, i: int) -> int
    decreases s.len() - i,
{
    if i < 0 || i >= s.len() || seq_width(s.take(i + 1)) > max {
        i
    } else {
        fit_len(s, max, i + 1)
    }
}

/// The longest prefix of `s` whose width is at most `max`.
pub fn truncate_to_width(s: &str, max: usize) -> (r: &str)
    ensures
        r@ == s@.take(fit_len(s@, max as int, 0)),
{
    let v = chars_of(s);
    let n = v.len();
    let mut i: usize = 0;
    let mut w: usize = 0;
    assert(v@.take(0) =~= Seq::<char>::empty());
    while i < n
        invariant
            n == v@.len(),
            v@ == s@,
            i <= n,
            w == seq_width(v@.take(i as int)),
            w <= max,
            fit_len(v@, max as int, 0) == fit_len(v@, max as int, i as int),
        decreases n - i,
    {
        assert(v@.take(i + 1).drop_last() =~= v@.take(i as int));
        let cw = char_width(v[i]);
        if cw > max - w {
            let r = s.substring_char(0, i);
            return r;
        }
        w = w + cw;
        i = i + 1;
    }
    s.substring_char(0, n)
}

/// Greedy character wrapping: the state after some characters.
pub struct WrapState {
    pub lines: Seq<Seq<char>>,
    pub cur: Seq<char>,
    pub cur_w: int,
}

/// Wrap step: start a new line when `c` would overflow a non-empty line.
pub open spec fn wrap_step(st: WrapState, c: char, width: int) -> WrapState {
    let cw = width_of(c) as int;
    if st.cur_w + cw > width && st.cur.len() > 0 {
        WrapState { lines: st.lines.push(st.cur), cur: seq![c], cur_w: cw }
    } else {
        WrapState { lines: st.lines, cur: st.cur.push(c), cur_w: st.cur_w + cw }
    }
}

pub open spec fn wrap_run(s: Seq<char>, width: int, n: int) -> WrapState
    decreases n,
{
    if n <= 0 {
        WrapState { lines: Seq::empty(), cur: Seq::empty(), cur_w: 0 }
    } else {
        wrap_step(wrap_run(s, width, n - 1), s[n - 1], width)
    }
}

/// `s` wrapped to `width` columns (a zero width counts as one).
pub open spec fn wrapped(s: Seq<char>, width: int) -> Seq<Seq<char>> {
    let w = if width < 1 {
        1
    } else {
        width
    };
    let st = wrap_run(s, w, s.len() as int);
    st.lines.push(st.cur)
}

/// Concatenation of lines.
pub open spec fn concat_all(ls: Seq<Seq<char>>) -> Seq<char>
    decreases ls.len(),
{
    if ls.len() == 0 {
        Seq::empty()
    } else {
        concat_all(ls.drop_last()) + ls.last()
    }
}

proof fn lemma_wrap_run(s: Seq<char>, width: int, n: int)
    requires
        0 <= n <= s.len(),
        width >= 2,
    ensures
        concat_all(wrap_run(s, width, n).lines) + wrap_run(s, width, n).cur == s.take(n),
        wrap_run(s, width, n).cur_w == seq_width(wrap_run(s, width, n).cur),
        wrap_run(s, width, n).cur_w <= width,
        forall|i: int|
            0 <= i < wrap_run(s, width, n).lines.len() ==> seq_width(
                #[trigger] wrap_run(s, width, n).lines[i],
            ) <= width,
    decreases n,
{
    if n > 0 {
        lemma_wrap_run(s, width, n - 1);
        let st = wrap_run(s, width, n - 1);
        let c = s[n - 1];
        assert(s.take(n) =~= s.take(n - 1).push(c));
        if st.cur_w + width_of(c) > width && st.cur.len() > 0 {
            let l2 = st.lines.push(st.cur);
            assert(l2.drop_last() =~= st.lines);
            assert(concat_all(l2) + seq![c] =~= s.take(n));
            assert(seq![c].drop_last() =~= Seq::<char>::empty());
            assert(seq_width(Seq::<char>::empty()) == 0);
            assert(seq![c].last() == c);
            assert(seq_width(seq![c]) == width_of(c));
        } else {
            assert(st.cur.push(c).drop_last() =~= st.cur);
            assert(seq_width(st.cur.push(c)) == seq_width(st.cur) + width_of(c));
            assert(concat_all(st.lines) + st.cur.push(c) =~= s.take(n));
        }
    }
}

/// Wrapping loses no character, and with a budget of at least two columns
/// (the widest character) every line fits the budget.
pub proof fn law_wrap_keeps_text_and_fits(s: Seq<char>, width: int)
    requires
        width >= 2,
    ensures
        concat_all(wrapped(s, width)) == s,
        forall|i: int| 0 <= i < wrapped(s, width).len() ==> seq_width(#[trigger] wrapped(s, width)[i]) <= width,
{
    lemma_wrap_run(s, width, s.len() as int);
    let st = wrap_run(s, width, s.len() as int);
    assert(st.lines.push(st.cur).drop_last() =~= st.lines);
    assert(s.take(s.len() as int) =~= s);
    assert forall|i: int| 0 <= i < wrapped(s, width).len() implies seq_width(#[trigger] wrapped(s, width)[i]) <= width by {
        if i < st.lines.len() {
            assert(wrapped(s, width)[i] == st.lines[i]);
        }
    }
}

/// Wrap `s` to `width` columns, breaking between characters.
pub fn wrap_to_width(s: &str, width: usize) -> (r: Vec<String>)
    ensures
        r@.map_values(|l: String| l@) == wrapped(s@, width as int),
{
    let w: usize = if width < 1 {
        1
    } else {
        width
    };
    let v = chars_of(s);
    let n = v.len();
    let mut lines: Vec<String> = Vec::new();
    let mut cur: Vec<char> = Vec::new();
    let mut cur_w: usize = 0;
    let mut i: usize = 0;
    while i < n
        invariant
            n == v@.len(),
            i <= n,
            w >= 1,
            w as int == (if width < 1 {
                1
            } else {
                width as int
            }),
            ({
                let st = wrap_run(v@, w as int, i as int);
                &&& lines@.map_values(|l: String| l@) == st.lines
                &&& cur@ == st.cur
                &&& cur_w as int == st.cur_w
                &&& (st.cur_w <= w || st.cur_w <= 2)
                &&& (st.cur.len() == 0 ==> st.cur_w == 0)
            }),
        decreases n - i,
    {
        let c = v[i];
        let cw = char_width(c);
        let overflow = cw > w || cur_w > w - cw;
        if overflow && cur.len() > 0 {
            let ghost l0 = lines@;
            lines.push(string_of(cur.as_slice()));
            assert(lines@.map_values(|l: String| l@) =~= l0.map_values(|l: String| l@).push(cur@));
            cur = Vec::new();
            cur.push(c);
            assert(cur@ =~= seq![c]);
            cur_w = cw;
        } else {
            cur.push(c);
            cur_w = cur_w + cw;
        }
        i = i + 1;
    }
    let ghost l0 = lines@;
    lines.push(string_of(cur.as_slice()));
    assert(lines@.map_values(|l: String| l@) =~= l0.map_values(|l: String| l@).push(cur@));
    lines
}


proof fn lemma_concat_piece_len(ls: Seq<Seq<char>>, i: int)
    requires
        0 <= i < ls.len(),
    ensures
        ls[i].len() <= concat_all(ls).len(),
    decreases ls.len(),
{
    if i < ls.len() - 1 {
        lemma_concat_piece_len(ls.drop_last(), i);
        assert(ls.drop_last()[i] == ls[i]);
    }
}

proof fn lemma_wrap_run_concat(s: Seq<char>, width: int, n: int)
    requires
        0 <= n <= s.len(),
    ensures
        concat_all(wrap_run(s, width, n).lines) + wrap_run(s, width, n).cur == s.take(n),
    decreases n,
{
    if n > 0 {
        lemma_wrap_run_concat(s, width, n - 1);
        let st = wrap_run(s, width, n - 1);
        let c = s[n - 1];
        assert(s.take(n) =~= s.take(n - 1).push(c));
        if st.cur_w + width_of(c) > width && st.cur.len() > 0 {
            let l2 = st.lines.push(st.cur);
            assert(l2.drop_last() =~= st.lines);
            assert(concat_all(l2) + seq![c] =~= s.take(n));
        } else {
            assert(concat_all(st.lines) + st.cur.push(c) =~= s.take(n));
        }
    }
}

/// No wrapped line is longer than the text.
pub proof fn lemma_wrapped_piece_len(s: Seq<char>, width: int, i: int)
    requires
        0 <= i < wrapped(s, width).len(),
    ensures
        wrapped(s, width)[i].len() <= s.len(),
{
    let w = if width < 1 {
        1
    } else {
        width
    };
    lemma_wrap_run_concat(s, w, s.len() as int);
    let st = wrap_run(s, w, s.len() as int);
    let ls = st.lines.push(st.cur);
    assert(ls.drop_last() =~= st.lines);
    assert(s.take(s.len() as int) =~= s);
    lemma_concat_piece_len(ls, i);
}

} // verus!
