//! Transcript view state: scroll position and search.
//!
//! The view follows the bottom while the user is there, and stops following
//! as soon as the user scrolls up, until the bottom is visible again.
use vstd::prelude::*;
use crate::text::{contains, unicode_lower, trim, trim_str, to_lowercase, chars_of, contains_exec};

verus! {

/// `a.saturating_sub(b)`.
pub open spec fn sat_sub(a: int, b: int) -> int {
    if a >= b {
        a - b
    } else {
        0
    }
}

pub open spec fn min(a: int, b: int) -> int {
    if a <= b {
        a
    } else {
        b
    }
}

/// Whether line `l` is a hit for the (already lower-cased) query `q`.
pub open spec fn is_hit(l: Seq<char>, q: Seq<char>) -> bool {
    contains(unicode_lower(l), q)
}

/// Indices of the first `n` lines that are hits, in increasing order.
pub open spec fn hits_upto(ls: Seq<Seq<char>>, q: Seq<char>, n: int) -> Seq<usize>
    decreases n,
{
    if n <= 0 {
        Seq::empty()
    } else if is_hit(ls[n - 1], q) {
        hits_upto(ls, q, n - 1).push((n - 1) as usize)
    } else {
        hits_upto(ls, q, n - 1)
    }
}

/// Search state.
#[derive(Debug, Clone)]
pub struct Search {
    /// The query (a substring match, case-insensitive).
    pub query: String,
    /// Line numbers of the hits (ascending).
    pub hits: Vec<usize>,
    /// Which hit is current (for next / previous, cycling).
    pub current: usize,
}

/// The abstract search state.
pub struct SearchModel {
    pub query: Seq<char>,
    pub hits: Seq<usize>,
    pub current: int,
}

impl View for Search {
    type V = SearchModel;

    open spec fn view(&self) -> SearchModel {
        SearchModel { query: self.query@, hits: self.hits@, current: self.current as int }
    }
}

impl SearchModel {
    pub open spec fn wf(self) -> bool {
        if self.hits.len() == 0 {
            self.current == 0
        } else {
            0 <= self.current < self.hits.len()
        }
    }

    /// Move to the next (`forward`) or previous hit, cycling.
    pub open spec fn stepped(self, forward: bool) -> SearchModel {
        let n = self.hits.len() as int;
        SearchModel {
            current: if forward {
                (self.current + 1) % n
            } else {
                (self.current + n - 1) % n
            },
            ..self
        }
    }
}

/// The abstract view state.
pub struct ViewModel {
    /// Lines scrolled up from the bottom (0 = showing the newest).
    pub offset: int,
    pub follow: bool,
    pub search: Option<SearchModel>,
}

impl ViewModel {
    pub open spec fn wf(self) -> bool {
        &&& self.offset >= 0
        &&& self.search matches Some(s) ==> s.wf()
    }

    pub open spec fn fresh() -> ViewModel {
        ViewModel { offset: 0, follow: true, search: None }
    }

    pub open spec fn clamped_offset(self, total: int, viewport: int) -> int {
        min(self.offset, sat_sub(total, viewport))
    }

    /// Visible line range `(start, end)`.
    pub open spec fn window(self, total: int, viewport: int) -> (int, int) {
        let end = total - self.clamped_offset(total, viewport);
        (sat_sub(end, viewport), end)
    }

    pub open spec fn scroll_up(self, n: int, total: int, viewport: int) -> ViewModel {
        let o = min(self.offset + n, sat_sub(total, viewport));
        ViewModel { offset: o, follow: o == 0, ..self }
    }

    pub open spec fn scroll_down(self, n: int) -> ViewModel {
        let o = sat_sub(self.offset, n);
        ViewModel { offset: o, follow: o == 0, ..self }
    }

    pub open spec fn to_top(self, total: int, viewport: int) -> ViewModel {
        ViewModel { offset: sat_sub(total, viewport), follow: false, ..self }
    }

    pub open spec fn to_bottom(self) -> ViewModel {
        ViewModel { offset: 0, follow: true, ..self }
    }

    /// New search over `lines` for `query`; a blank query leaves search mode.
    pub open spec fn set_search(self, lines: Seq<Seq<char>>, query: Seq<char>) -> ViewModel {
        let q = unicode_lower(trim(query));
        if q.len() == 0 {
            ViewModel { search: None, ..self }
        } else {
            let hits = hits_upto(lines, q, lines.len() as int);
            ViewModel {
                search: Some(
                    SearchModel { query: q, hits: hits, current: sat_sub(hits.len() as int, 1) },
                ),
                ..self
            }
        }
    }

    /// Step to the next / previous hit and scroll it to a third of the way
    /// down the viewport.
    pub open spec fn search_step(self, forward: bool, total: int, viewport: int) -> ViewModel {
        match self.search {
            None => self,
            Some(s) => if s.hits.len() == 0 {
                self
            } else {
                let s2 = s.stepped(forward);
                let line = s2.hits[s2.current] as int;
                let target_top = sat_sub(line, viewport / 3);
                let o = sat_sub(sat_sub(total, viewport), target_top);
                ViewModel { offset: o, follow: o == 0, search: Some(s2) }
            },
        }
    }
}

/// Transcript view state.
#[derive(Debug, Clone)]
pub struct TranscriptView {
    offset: usize,
    follow: bool,
    search: Option<Search>,
}

impl View for TranscriptView {
    type V = ViewModel;

    closed spec fn view(&self) -> ViewModel {
        ViewModel {
            offset: self.offset as int,
            follow: self.follow,
            search: match self.search {
                Some(s) => Some(s@),
                None => None,
            },
        }
    }
}

pub fn lower_contains(line: &str, q: &[char]) -> (r: bool)
    ensures
        r == is_hit(line@, q@),
{
    let l = to_lowercase(line);
    let lv = chars_of(l.as_str());
    contains_exec(lv.as_slice(), q)
}

impl TranscriptView {
    pub open spec fn wf(&self) -> bool {
        self@.wf()
    }

    pub fn new() -> (v: Self)
        ensures
            v@ == ViewModel::fresh(),
            v.wf(),
    {
        TranscriptView { offset: 0, follow: true, search: None }
    }

    /// Whether the view follows the bottom.
    pub fn follow(&self) -> (r: bool)
        ensures
            r == self@.follow,
    {
        self.follow
    }

    pub fn offset(&self) -> (r: usize)
        ensures
            r == self@.offset,
    {
        self.offset
    }

    pub fn search(&self) -> (r: Option<&Search>)
        ensures
            match r {
                Some(s) => self@.search == Some(s@),
                None => self@.search is None,
            },
    {
        match &self.search {
            Some(s) => Some(s),
            None => None,
        }
    }

    /// Jump to the newest line and follow again.
    pub fn to_bottom(&mut self)
        requires
            old(self).wf(),
        ensures
            final(self)@ == old(self)@.to_bottom(),
            final(self).wf(),
    {
        self.offset = 0;
        self.follow = true;
    }

    /// Jump to the first line.
    pub fn to_top(&mut self, total: usize, viewport: usize)
        requires
            old(self).wf(),
        ensures
            final(self)@ == old(self)@.to_top(total as int, viewport as int),
            final(self).wf(),
    {
        self.offset = total.saturating_sub(viewport);
        self.follow = false;
    }

    /// Scroll up `n` lines (towards older content).
    pub fn scroll_up(&mut self, n: usize, total: usize, viewport: usize)
        requires
            old(self).wf(),
            old(self)@.offset + n <= usize::MAX,
        ensures
            final(self)@ == old(self)@.scroll_up(n as int, total as int, viewport as int),
            final(self).wf(),
    {
        let max = total.saturating_sub(viewport);
        let o = self.offset + n;
        self.offset = if o < max {
            o
        } else {
            max
        };
        self.follow = self.offset == 0;
    }

    /// Scroll down `n` lines (towards newer content); at the bottom, follow again.
    pub fn scroll_down(&mut self, n: usize, _total: usize, _viewport: usize)
        requires
            old(self).wf(),
        ensures
            final(self)@ == old(self)@.scroll_down(n as int),
            final(self).wf(),
    {
        self.offset = self.offset.saturating_sub(n);
        self.follow = self.offset == 0;
    }

    /// Set the query and recompute the hits; the current hit is the last one.
    pub fn set_search(&mut self, lines: &[String], query: &str)
        requires
            old(self).wf(),
        ensures
            final(self)@ == old(self)@.set_search(
                lines@.map_values(|l: String| l@),
                query@,
            ),
            final(self).wf(),
    {
        let t = trim_str(query);
        let q = to_lowercase(t);
        let qv = chars_of(q.as_str());
        if qv.len() == 0 {
            self.search = None;
            return;
        }
        let ghost ls = lines@.map_values(|l: String| l@);
        let mut hits: Vec<usize> = Vec::new();
        let n = lines.len();
        let mut i: usize = 0;
        while i < n
            invariant
                n == lines@.len(),
                i <= n,
                ls == lines@.map_values(|l: String| l@),
                hits@ == hits_upto(ls, qv@, i as int),
            decreases n - i,
        {
            if lower_contains(lines[i].as_str(), qv.as_slice()) {
                hits.push(i);
            }
            i = i + 1;
        }
        let current = hits.len().saturating_sub(1);
        self.search = Some(Search { query: q, hits, current });
    }

    /// Move to the next / previous hit (cycling) and bring it into view.
    pub fn search_step(&mut self, forward: bool, total_lines: usize, viewport: usize)
        requires
            old(self).wf(),
        ensures
            final(self)@ == old(self)@.search_step(forward, total_lines as int, viewport as int),
            final(self).wf(),
    {
        let line;
        match self.search.as_mut() {
            None => {
                return;
            },
            Some(s) => {
                if s.hits.len() == 0 {
                    return;
                }
                let n = s.hits.len();
                let c = s.current;
                let next = if forward {
                    if c + 1 == n {
                        assert((c + 1) % (n as int) == 0) by (nonlinear_arith)
                            requires c + 1 == n, n > 0;
                        0
                    } else {
                        assert((c + 1) % (n as int) == c + 1) by (nonlinear_arith)
                            requires c + 1 < n, c >= 0;
                        c + 1
                    }
                } else {
                    if c == 0 {
                        assert((c + n - 1) % (n as int) == n - 1) by (nonlinear_arith)
                            requires c == 0, n > 0;
                        n - 1
                    } else {
                        assert((c + n - 1) % (n as int) == c - 1) by (nonlinear_arith)
                            requires c < n, c >= 1;
                        c - 1
                    }
                };
                s.current = next;
                line = s.hits[s.current];
            },
        }
        let target_top = line.saturating_sub(viewport / 3);
        self.offset = total_lines.saturating_sub(viewport).saturating_sub(target_top);
        self.follow = self.offset == 0;
    }

    /// Leave search mode (the scroll position stays).
    pub fn clear_search(&mut self)
        requires
            old(self).wf(),
        ensures
            final(self)@ == (ViewModel { search: None, ..old(self)@ }),
            final(self).wf(),
    {
        self.search = None;
    }

    /// The offset clamped to what the content allows.
    pub fn clamped_offset(&self, total: usize, viewport: usize) -> (r: usize)
        ensures
            r == self@.clamped_offset(total as int, viewport as int),
    {
        let m = total.saturating_sub(viewport);
        if self.offset < m {
            self.offset
        } else {
            m
        }
    }

    /// Visible line range `(start, end)`: never outside `0..total`.
    pub fn window(&self, total: usize, viewport: usize) -> (r: (usize, usize))
        ensures
            (r.0 as int, r.1 as int) == self@.window(total as int, viewport as int),
            r.0 <= r.1 <= total,
    {
        let offset = self.clamped_offset(total, viewport);
        let end = total - offset;
        let start = end.saturating_sub(viewport);
        (start, end)
    }
}

} // verus!

verus! {

/// Stepping forward then backward returns to the same hit.
pub proof fn law_step_round_trip(s: SearchModel)
    requires
        s.wf(),
        s.hits.len() > 0,
    ensures
        s.stepped(true).stepped(false).current == s.current,
        s.stepped(false).stepped(true).current == s.current,
{
    let n = s.hits.len() as int;
    let c = s.current;
    assert(((c + 1) % n + n - 1) % n == c) by (nonlinear_arith)
        requires 0 <= c < n;
    assert(((c + n - 1) % n + 1) % n == c) by (nonlinear_arith)
        requires 0 <= c < n;
}

/// The visible window never leaves `0..total`.
pub proof fn law_window_in_bounds(m: ViewModel, total: int, viewport: int)
    requires
        m.wf(),
        total >= 0,
        viewport >= 0,
    ensures
        0 <= m.window(total, viewport).0 <= m.window(total, viewport).1 <= total,
{
}

/// After stepping to a hit, that hit's line is inside the visible window
/// (for a non-empty viewport and hits that are lines of the transcript).
pub proof fn law_step_brings_hit_into_view(m: ViewModel, forward: bool, total: int, viewport: int)
    requires
        m.wf(),
        m.search matches Some(s) && s.hits.len() > 0 && (forall|i: int|
            0 <= i < s.hits.len() ==> #[trigger] s.hits[i] < total),
        viewport >= 1,
    ensures
        ({
            let m2 = m.search_step(forward, total, viewport);
            let s2 = m2.search->Some_0;
            let line = s2.hits[s2.current] as int;
            let (start, end) = m2.window(total, viewport);
            start <= line < end
        }),
{
    let s = m.search->Some_0;
    let n = s.hits.len() as int;
    let c = s.current;
    let s2 = s.stepped(forward);
    assert(0 <= (c + 1) % n < n) by (nonlinear_arith)
        requires n > 0;
    assert(0 <= (c + n - 1) % n < n) by (nonlinear_arith)
        requires n > 0, 0 <= c < n;
    assert(s2.hits[s2.current] < total);
    assert(viewport / 3 < viewport) by (nonlinear_arith)
        requires viewport >= 1;
}

/// Scrolling down at least as far as the current offset returns to the
/// bottom and resumes following.
pub proof fn law_back_to_bottom_follows(m: ViewModel, n: int)
    requires
        m.wf(),
        n >= m.offset,
    ensures
        m.scroll_down(n).offset == 0,
        m.scroll_down(n).follow,
{
}

/// Scrolling up by a positive amount over content taller than the viewport
/// stops following.
pub proof fn law_scroll_up_stops_following(m: ViewModel, n: int, total: int, viewport: int)
    requires
        m.wf(),
        n > 0,
        total > viewport >= 0,
    ensures
        !m.scroll_up(n, total, viewport).follow,
{
}


/// The hits are exactly the lines containing the query, in increasing
/// order.
pub proof fn law_hits_are_the_matching_lines(ls: Seq<Seq<char>>, q: Seq<char>, n: int)
    requires
        0 <= n <= ls.len(),
        n <= usize::MAX,
    ensures
        forall|k: int| 0 <= k < hits_upto(ls, q, n).len() ==> 0 <= #[trigger] hits_upto(ls, q, n)[k] < n
            && is_hit(ls[hits_upto(ls, q, n)[k] as int], q),
        forall|a: int, b: int| 0 <= a < b < hits_upto(ls, q, n).len() ==> hits_upto(ls, q, n)[a] < hits_upto(ls, q, n)[b],
        forall|i: int| 0 <= i < n && is_hit(ls[i], q) ==> hits_upto(ls, q, n).contains(i as usize),
    decreases n,
{
    if n > 0 {
        law_hits_are_the_matching_lines(ls, q, n - 1);
        let prev = hits_upto(ls, q, n - 1);
        if is_hit(ls[n - 1], q) {
            let h = prev.push((n - 1) as usize);
            assert forall|i: int| 0 <= i < n && is_hit(ls[i], q) implies h.contains(i as usize) by {
                if i < n - 1 {
                    let k = choose|k: int| 0 <= k < prev.len() && prev[k] == i as usize;
                    assert(h[k] == i as usize);
                } else {
                    assert(h[prev.len() as int] == i as usize);
                }
            }
        }
    }
}

} // verus!
