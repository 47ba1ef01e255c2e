//! Splitting text at `'\n'` and joining lines back (`str::split('\n')` and
//! `join("\n")`), with the laws that relate the two.
use vstd::prelude::*;

verus! {

/// The view of a vector of character vectors.
pub open spec fn lines_view(v: Seq<Vec<char>>) -> Seq<Seq<char>> {
    v.map_values(|l: Vec<char>| l@)
}

/// `s.split('\n')`: always at least one (possibly empty) piece.
pub open spec fn split_lines(s: Seq<char>) -> Seq<Seq<char>>
    decreases s.len(),
{
    if s.len() == 0 {
        seq![Seq::<char>::empty()]
    } else if s.last() == '\n' {
        split_lines(s.drop_last()).push(Seq::<char>::empty())
    } else {
        let p = split_lines(s.drop_last());
        p.update(p.len() - 1, p.last().push(s.last()))
    }
}

/// `lines.join("\n")`.
pub open spec fn join_lines(ls: Seq<Seq<char>>) -> Seq<char>
    decreases ls.len(),
{
    if ls.len() == 0 {
        Seq::<char>::empty()
    } else if ls.len() == 1 {
        ls[0]
    } else {
        join_lines(ls.drop_last()) + seq!['\n'] + ls.last()
    }
}

/// No line holds a `'\n'`.
pub open spec fn no_newlines(ls: Seq<Seq<char>>) -> bool {
    forall|i: int, j: int| 0 <= i < ls.len() && 0 <= j < ls[i].len() ==> ls[i][j] != '\n'
}

pub proof fn lemma_split_nonempty(s: Seq<char>)
    ensures
        split_lines(s).len() >= 1,
    decreases s.len(),
{
    if s.len() > 0 {
        lemma_split_nonempty(s.drop_last());
    }
}

/// Number of `'\n'` in `s`.
pub open spec fn nl_count(s: Seq<char>) -> nat
    decreases s.len(),
{
    if s.len() == 0 {
        0
    } else {
        nl_count(s.drop_last()) + if s.last() == '\n' { 1nat } else { 0nat }
    }
}

/// A text has one line more than it has line breaks.
pub proof fn law_split_count(s: Seq<char>)
    ensures
        split_lines(s).len() == nl_count(s) + 1,
    decreases s.len(),
{
    if s.len() > 0 {
        law_split_count(s.drop_last());
    }
}

/// Appending characters to the last line appends them to the joined text.
pub proof fn lemma_join_extend_last(p: Seq<Seq<char>>, t: Seq<char>)
    requires
        p.len() >= 1,
    ensures
        join_lines(p.update(p.len() - 1, p.last() + t)) == join_lines(p) + t,
{
    let q = p.update(p.len() - 1, p.last() + t);
    if p.len() == 1 {
    } else {
        assert(q.drop_last() =~= p.drop_last());
        assert(join_lines(q) =~= join_lines(p) + t);
    }
}

/// Joining a split gives the text back.
pub proof fn lemma_join_split(s: Seq<char>)
    ensures
        join_lines(split_lines(s)) == s,
    decreases s.len(),
{
    if s.len() == 0 {
    } else {
        let s0 = s.drop_last();
        lemma_join_split(s0);
        lemma_split_nonempty(s0);
        let p = split_lines(s0);
        if s.last() == '\n' {
            let q = p.push(Seq::<char>::empty());
            assert(q.drop_last() =~= p);
            assert(join_lines(q) =~= s0 + seq!['\n'] + Seq::<char>::empty());
            assert(s =~= s0 + seq!['\n']);
        } else {
            lemma_join_extend_last(p, seq![s.last()]);
            assert(p.last().push(s.last()) =~= p.last() + seq![s.last()]);
            assert(s =~= s0 + seq![s.last()]);
        }
    }
}

/// Splitting `a + t` where `t` has no newline extends the last piece of `split(a)`.
pub proof fn lemma_split_append_plain(a: Seq<char>, t: Seq<char>)
    requires
        forall|j: int| 0 <= j < t.len() ==> t[j] != '\n',
    ensures
        split_lines(a + t) == split_lines(a).update(
            split_lines(a).len() - 1,
            split_lines(a).last() + t,
        ),
    decreases t.len(),
{
    lemma_split_nonempty(a);
    if t.len() == 0 {
        assert(a + t =~= a);
        assert(split_lines(a).last() + t =~= split_lines(a).last());
        assert(split_lines(a).update(split_lines(a).len() - 1, split_lines(a).last())
            =~= split_lines(a));
    } else {
        let t0 = t.drop_last();
        lemma_split_append_plain(a, t0);
        assert((a + t).drop_last() =~= a + t0);
        assert((a + t).last() == t.last());
        let p = split_lines(a);
        assert(split_lines(a + t0).last() =~= p.last() + t0);
        assert((p.last() + t0).push(t.last()) =~= p.last() + t);
        assert(split_lines(a + t) =~= p.update(p.len() - 1, p.last() + t));
    }
}

/// Splitting a join of newline-free lines gives the lines back.
pub proof fn lemma_split_join(ls: Seq<Seq<char>>)
    requires
        ls.len() >= 1,
        no_newlines(ls),
    ensures
        split_lines(join_lines(ls)) == ls,
    decreases ls.len(),
{
    if ls.len() == 1 {
        let e = Seq::<char>::empty();
        assert(e + ls[0] =~= ls[0]);
        assert forall|j: int| 0 <= j < ls[0].len() implies ls[0][j] != '\n' by {
            assert(ls[0][j] != '\n');
        }
        lemma_split_append_plain(e, ls[0]);
        assert(split_lines(e) =~= seq![e]);
        assert(e + ls[0] =~= ls[0]);
        assert(seq![e].update(0, e + ls[0]) =~= ls);
    } else {
        let init = ls.drop_last();
        assert(no_newlines(init)) by {
            assert forall|i: int, j: int| 0 <= i < init.len() && 0 <= j < init[i].len() implies init[i][j] != '\n' by {
                assert(init[i] == ls[i]);
            }
        }
        lemma_split_join(init);
        let a = join_lines(init) + seq!['\n'];
        assert(a.drop_last() =~= join_lines(init));
        assert(split_lines(a) =~= init.push(Seq::<char>::empty()));
        let last = ls.last();
        assert forall|j: int| 0 <= j < last.len() implies last[j] != '\n' by {
            assert(ls[ls.len() - 1][j] != '\n');
        }
        lemma_split_append_plain(a, last);
        assert(Seq::<char>::empty() + last =~= last);
        assert(init.push(Seq::<char>::empty()).update(init.len() as int, Seq::<char>::empty() + last) =~= ls);
    }
}

/// `text.split('\n')` as vectors.
pub fn split_exec(t: &[char]) -> (r: Vec<Vec<char>>)
    ensures
        lines_view(r@) == split_lines(t@),
{
    let mut out: Vec<Vec<char>> = Vec::new();
    let mut cur: Vec<char> = Vec::new();
    let mut i: usize = 0;
    assert(t@.take(0) =~= Seq::<char>::empty());
    assert(lines_view(out@).push(cur@) =~= seq![Seq::<char>::empty()]);
    while i < t.len()
        invariant
            i <= t@.len(),
            lines_view(out@).push(cur@) == split_lines(t@.take(i as int)),
        decreases t@.len() - i,
    {
        let ghost pre = t@.take(i as int);
        let ghost out0 = out@;
        let ghost cur0 = cur@;
        assert(t@.take(i + 1).drop_last() =~= pre);
        assert(t@.take(i + 1).last() == t@[i as int]);
        let c = t[i];
        if c == '\n' {
            let mut done: Vec<char> = Vec::new();
            std::mem::swap(&mut done, &mut cur);
            out.push(done);
            assert(lines_view(out@) =~= lines_view(out0).push(cur0));
            assert(lines_view(out@).push(cur@) =~= lines_view(out0).push(cur0).push(Seq::<char>::empty()));
        } else {
            cur.push(c);
            let ghost p = lines_view(out0).push(cur0);
            assert(lines_view(out@).push(cur@) =~= p.update(p.len() - 1, p.last().push(c)));
        }
        i = i + 1;
    }
    assert(t@.take(t@.len() as int) =~= t@);
    let ghost out0 = out@;
    let ghost cur0 = cur@;
    out.push(cur);
    assert(lines_view(out@) =~= lines_view(out0).push(cur0));
    out
}

/// `lines.join("\n")` as one vector.
pub fn join_exec(ls: &Vec<Vec<char>>) -> (r: Vec<char>)
    ensures
        r@ == join_lines(lines_view(ls@)),
{
    let mut r: Vec<char> = Vec::new();
    let n = ls.len();
    let mut i: usize = 0;
    while i < n
        invariant
            n == ls@.len(),
            i <= n,
            r@ == join_lines(lines_view(ls@).take(i as int)),
        decreases n - i,
    {
        let ghost p = lines_view(ls@).take(i as int);
        let ghost q = lines_view(ls@).take(i + 1);
        assert(q.drop_last() =~= p);
        assert(q.last() == ls@[i as int]@);
        if i > 0 {
            r.push('\n');
        } else {
            assert(r@ =~= Seq::<char>::empty());
        }
        crate::text::append_chars(&mut r, ls[i].as_slice());
        i = i + 1;
    }
    assert(lines_view(ls@).take(n as int) =~= lines_view(ls@));
    r
}

} // verus!

verus! {

/// Drop one trailing `'\r'`.
pub open spec fn strip_cr(l: Seq<char>) -> Seq<char> {
    if l.len() > 0 && l.last() == '\r' {
        l.drop_last()
    } else {
        l
    }
}

/// `str::lines`: split at `'\n'`, a `'\r'` before a `'\n'` is dropped, and a
/// final line ending does not start another (empty) line.
pub open spec fn text_lines(s: Seq<char>) -> Seq<Seq<char>> {
    if s.len() == 0 {
        Seq::empty()
    } else {
        let p = split_lines(s);
        let n = if s.last() == '\n' {
            p.len() - 1
        } else {
            p.len() as int
        };
        Seq::new(
            n as nat,
            |i: int|
                if i < p.len() - 1 {
                    strip_cr(p[i])
                } else {
                    p[i]
                },
        )
    }
}

pub fn strip_cr_exec(l: Vec<char>) -> (r: Vec<char>)
    ensures
        r@ == strip_cr(l@),
{
    let mut l = l;
    let n = l.len();
    if n > 0 && l[n - 1] == '\r' {
        l.pop();
    }
    l
}

/// The lines of `s` (as `str::lines` gives them).
pub fn text_lines_exec(s: &str) -> (r: Vec<Vec<char>>)
    ensures
        lines_view(r@) == text_lines(s@),
{
    let v = crate::text::chars_of(s);
    if v.len() == 0 {
        let r: Vec<Vec<char>> = Vec::new();
        assert(lines_view(r@) =~= text_lines(s@));
        return r;
    }
    let p = split_exec(v.as_slice());
    proof {
        lemma_split_nonempty(s@);
    }
    let np = p.len();
    let n = if v[v.len() - 1] == '\n' {
        np - 1
    } else {
        np
    };
    let mut r: Vec<Vec<char>> = Vec::new();
    let mut i: usize = 0;
    let ghost pv = lines_view(p@);
    while i < n
        invariant
            n <= np,
            np == p@.len(),
            pv == lines_view(p@),
            r@.len() == i,
            i <= n,
            forall|j: int|
                0 <= j < i ==> #[trigger] r@[j]@ == (if j < np - 1 {
                    strip_cr(pv[j])
                } else {
                    pv[j]
                }),
        decreases n - i,
    {
        let piece = crate::text::copy_chars(p[i].as_slice());
        let piece = if i < np - 1 {
            strip_cr_exec(piece)
        } else {
            piece
        };
        r.push(piece);
        i = i + 1;
    }
    assert(lines_view(r@) =~= text_lines(s@));
    r
}


/// No line of a join is longer than the joined text.
pub proof fn lemma_join_piece_len(ls: Seq<Seq<char>>, i: int)
    requires
        0 <= i < ls.len(),
    ensures
        ls[i].len() <= join_lines(ls).len(),
    decreases ls.len(),
{
    if ls.len() > 1 {
        if i < ls.len() - 1 {
            lemma_join_piece_len(ls.drop_last(), i);
            assert(ls.drop_last()[i] == ls[i]);
        }
    }
}

/// No line of a text is longer than the text.
pub proof fn lemma_text_lines_len(s: Seq<char>, i: int)
    requires
        0 <= i < text_lines(s).len(),
    ensures
        text_lines(s)[i].len() <= s.len(),
{
    lemma_split_nonempty(s);
    lemma_join_split(s);
    let p = split_lines(s);
    lemma_join_piece_len(p, i);
}


/// Joining two non-empty runs of lines puts a line break between them.
pub proof fn lemma_join_concat(a: Seq<Seq<char>>, b: Seq<Seq<char>>)
    requires
        a.len() >= 1,
        b.len() >= 1,
    ensures
        join_lines(a + b) == join_lines(a) + seq!['\n'] + join_lines(b),
    decreases b.len(),
{
    if b.len() == 1 {
        assert((a + b).drop_last() =~= a);
        assert((a + b).last() == b[0]);
    } else {
        lemma_join_concat(a, b.drop_last());
        assert((a + b).drop_last() =~= a + b.drop_last());
        assert((a + b).last() == b.last());
        assert(join_lines(a + b) =~= join_lines(a) + seq!['\n'] + join_lines(b));
    }
}

/// Prefixing the first line prefixes the joined text.
pub proof fn lemma_join_prepend_first(p: Seq<Seq<char>>, h: Seq<char>)
    requires
        p.len() >= 1,
    ensures
        join_lines(p.update(0, h + p[0])) == h + join_lines(p),
    decreases p.len(),
{
    let q = p.update(0, h + p[0]);
    if p.len() > 1 {
        lemma_join_prepend_first(p.drop_last(), h);
        assert(q.drop_last() =~= p.drop_last().update(0, h + p[0]));
        assert(q.last() == p.last());
        assert(join_lines(q) =~= h + join_lines(p));
    }
}

/// What comes before line `A.len()` and after the lines `m` in the joined
/// text of `A + m + B`.
pub open spec fn lines_before(a: Seq<Seq<char>>) -> Seq<char> {
    if a.len() == 0 {
        Seq::empty()
    } else {
        join_lines(a) + seq!['\n']
    }
}

pub open spec fn lines_after(b: Seq<Seq<char>>) -> Seq<char> {
    if b.len() == 0 {
        Seq::empty()
    } else {
        seq!['\n'] + join_lines(b)
    }
}

pub proof fn lemma_join_around(a: Seq<Seq<char>>, m: Seq<Seq<char>>, b: Seq<Seq<char>>)
    requires
        m.len() >= 1,
    ensures
        join_lines(a + m + b) == lines_before(a) + join_lines(m) + lines_after(b),
{
    let am = a + m;
    if a.len() == 0 {
        assert(am =~= m);
    } else {
        lemma_join_concat(a, m);
    }
    if b.len() == 0 {
        assert(am + b =~= am);
    } else {
        lemma_join_concat(am, b);
    }
    assert(join_lines(a + m + b) =~= lines_before(a) + join_lines(m) + lines_after(b));
}

} // verus!
