//! Input helpers: command history and fuzzy matching.
use vstd::prelude::*;
use vstd::relations::{total_ordering, sorted_by};
use crate::text::{trim, trim_str, unicode_lower, to_lowercase, chars_of, seq_eq, owned};
use crate::view::{is_hit, lower_contains};
use crate::rank::{key_le, key_le_exec, lemma_key_total};

verus! {

// ── history ──────────────────────────────────────────────────────────

/// Index of the newest entry among the first `n` that contains `q`.
pub open spec fn last_hit(es: Seq<Seq<char>>, q: Seq<char>, n: int) -> Option<int>
    decreases n,
{
    if n <= 0 {
        None
    } else if is_hit(es[n - 1], q) {
        Some(n - 1)
    } else {
        last_hit(es, q, n - 1)
    }
}

/// The abstract history.
pub struct HistoryModel {
    pub entries: Seq<Seq<char>>,
    /// `None` = past the newest entry (typing a new line).
    pub cursor: Option<int>,
    pub max: int,
}

impl HistoryModel {
    pub open spec fn wf(self) -> bool {
        &&& self.max >= 0
        &&& self.entries.len() <= self.max
        &&& self.cursor matches Some(i) ==> 0 <= i < self.entries.len()
    }

    /// Record a submitted line: blank lines and repeats of the newest entry
    /// are not recorded; the oldest entry goes when the bound is passed.
    pub open spec fn push(self, line: Seq<char>) -> HistoryModel {
        let t = trim(line);
        if t.len() == 0 {
            self
        } else if self.entries.len() > 0 && self.entries.last() == t {
            HistoryModel { cursor: None, ..self }
        } else {
            let e = self.entries.push(t);
            HistoryModel {
                entries: if e.len() > self.max {
                    e.drop_first()
                } else {
                    e
                },
                cursor: None,
                ..self
            }
        }
    }

    /// The entry `prev` lands on (it stops at the oldest, no wrap-around).
    pub open spec fn prev_index(self) -> int {
        match self.cursor {
            None => self.entries.len() - 1,
            Some(i) => if i == 0 {
                0
            } else {
                i - 1
            },
        }
    }

    pub open spec fn prev(self) -> HistoryModel {
        if self.entries.len() == 0 {
            self
        } else {
            HistoryModel { cursor: Some(self.prev_index()), ..self }
        }
    }

    pub open spec fn next_entry(self) -> HistoryModel {
        match self.cursor {
            None => self,
            Some(i) => if i + 1 >= self.entries.len() {
                HistoryModel { cursor: None, ..self }
            } else {
                HistoryModel { cursor: Some(i + 1), ..self }
            },
        }
    }

    /// Reverse search: the newest entry containing `needle` (case-insensitive);
    /// an empty needle gives the newest entry.
    pub open spec fn search(self, needle: Seq<char>) -> Option<Seq<char>> {
        if needle.len() == 0 {
            if self.entries.len() == 0 {
                None
            } else {
                Some(self.entries.last())
            }
        } else {
            match last_hit(self.entries, unicode_lower(needle), self.entries.len() as int) {
                Some(i) => Some(self.entries[i]),
                None => None,
            }
        }
    }
}

/// Command history: adjacent duplicates collapse, bounded length.
pub struct History {
    entries: Vec<String>,
    cursor: Option<usize>,
    max: usize,
}

impl View for History {
    type V = HistoryModel;

    closed spec fn view(&self) -> HistoryModel {
        HistoryModel {
            entries: self.entries@.map_values(|e: String| e@),
            cursor: match self.cursor {
                Some(i) => Some(i as int),
                None => None,
            },
            max: self.max as int,
        }
    }
}

impl History {
    pub open spec fn wf(&self) -> bool {
        self@.wf()
    }

    pub fn new(max: usize) -> (h: Self)
        ensures
            h@ == (HistoryModel { entries: Seq::empty(), cursor: None, max: max as int }),
            h.wf(),
    {
        let h = History { entries: Vec::new(), cursor: None, max };
        assert(h@.entries =~= Seq::<Seq<char>>::empty());
        h
    }

    /// Record one submission.
    pub fn push(&mut self, line: &str)
        requires
            old(self).wf(),
        ensures
            final(self)@ == old(self)@.push(line@),
            final(self).wf(),
    {
        let t = trim_str(line);
        let tv = chars_of(t);
        if tv.len() == 0 {
            return;
        }
        let n = self.entries.len();
        if n > 0 {
            let last = chars_of(self.entries[n - 1].as_str());
            if seq_eq(last.as_slice(), tv.as_slice()) {
                self.cursor = None;
                return;
            }
        }
        let ghost e0 = self.entries@;
        self.entries.push(owned(t));
        assert(self.entries@.map_values(|e: String| e@) =~= e0.map_values(|e: String| e@).push(
            t@,
        ));
        if self.entries.len() > self.max {
            let ghost e1 = self.entries@;
            self.entries.remove(0);
            assert(self.entries@.map_values(|e: String| e@) =~= e1.map_values(|e: String| e@).drop_first());
        }
        self.cursor = None;
    }

    pub fn entries(&self) -> (r: &[String])
        ensures
            r@.map_values(|e: String| e@) == self@.entries,
    {
        self.entries.as_slice()
    }

    pub fn is_empty(&self) -> (r: bool)
        ensures
            r == (self@.entries.len() == 0),
    {
        self.entries.len() == 0
    }

    /// Browse towards older entries; stops at the oldest.
    pub fn prev(&mut self) -> (r: Option<&str>)
        requires
            old(self).wf(),
        ensures
            final(self)@ == old(self)@.prev(),
            final(self).wf(),
            match r {
                Some(s) => old(self)@.entries.len() > 0 && s@ == old(self)@.entries[old(self)@.prev_index()],
                None => old(self)@.entries.len() == 0,
            },
    {
        if self.entries.len() == 0 {
            return None;
        }
        let next = match self.cursor {
            None => self.entries.len() - 1,
            Some(i) => if i == 0 {
                0
            } else {
                i - 1
            },
        };
        self.cursor = Some(next);
        Some(self.entries[next].as_str())
    }

    /// Browse towards newer entries; past the newest, back to an empty line.
    pub fn next_entry(&mut self) -> (r: Option<&str>)
        requires
            old(self).wf(),
        ensures
            final(self)@ == old(self)@.next_entry(),
            final(self).wf(),
            match r {
                Some(s) => final(self)@.cursor matches Some(i) && s@ == old(self)@.entries[i],
                None => final(self)@.cursor is None,
            },
    {
        let i = match self.cursor {
            None => {
                return None;
            },
            Some(i) => i,
        };
        if i >= self.entries.len() - 1 {
            self.cursor = None;
            return None;
        }
        self.cursor = Some(i + 1);
        Some(self.entries[i + 1].as_str())
    }

    /// Reset browsing (the user started typing something new).
    pub fn reset_cursor(&mut self)
        requires
            old(self).wf(),
        ensures
            final(self)@ == (HistoryModel { cursor: None, ..old(self)@ }),
            final(self).wf(),
    {
        self.cursor = None;
    }

    /// `ctrl+r`: the newest entry containing `needle`, case-insensitively.
    pub fn search(&self, needle: &str) -> (r: Option<&str>)
        ensures
            match r {
                Some(s) => self@.search(needle@) == Some(s@),
                None => self@.search(needle@) is None,
            },
    {
        let n = self.entries.len();
        let nv = chars_of(needle);
        if nv.len() == 0 {
            if n == 0 {
                return None;
            }
            return Some(self.entries[n - 1].as_str());
        }
        let lowered = to_lowercase(needle);
        let q = chars_of(lowered.as_str());
        let ghost es = self@.entries;
        let mut i = n;
        while i > 0
            invariant
                n == self.entries@.len(),
                es == self@.entries,
                i <= n,
                q@ == unicode_lower(needle@),
                needle@.len() > 0,
                last_hit(es, q@, n as int) == last_hit(es, q@, i as int),
            decreases i,
        {
            assert(self.entries@[i - 1]@ == es[i - 1]);
            if lower_contains(self.entries[i - 1].as_str(), q.as_slice()) {
                assert(last_hit(es, q@, i as int) == Some(i - 1));
                assert(needle@.len() > 0);
                return Some(self.entries[i - 1].as_str());
            }
            i = i - 1;
        }
        None
    }
}

impl Default for History {
    fn default() -> (h: Self)
        ensures
            h@ == (HistoryModel { entries: Seq::empty(), cursor: None, max: 200 }),
    {
        Self::new(200)
    }
}

/// The history never holds more than its bound.
pub proof fn law_history_bounded(m: HistoryModel, line: Seq<char>)
    requires
        m.wf(),
    ensures
        m.push(line).wf(),
        m.push(line).entries.len() <= m.max,
{
}

/// Submitting the same line twice in a row records it once.
pub proof fn law_history_dedups_adjacent(m: HistoryModel, line: Seq<char>)
    requires
        m.wf(),
        m.max > 0,
    ensures
        m.push(line).push(line).entries == m.push(line).entries,
{
}

/// Browsing back from the oldest entry stays on the oldest entry.
pub proof fn law_prev_stops_at_oldest(m: HistoryModel)
    requires
        m.wf(),
        m.cursor == Some(0int),
    ensures
        m.prev().cursor == Some(0int),
{
}

/// Browsing forward from the newest entry returns to an empty input line.
pub proof fn law_next_past_newest_resets(m: HistoryModel)
    requires
        m.wf(),
        m.cursor == Some(m.entries.len() - 1),
    ensures
        m.next_entry().cursor is None,
{
}

// ── fuzzy matching ───────────────────────────────────────────────────

/// `min(x, u32::MAX)`: scores saturate instead of wrapping.
pub open spec fn sat32(x: int) -> int {
    if x > u32::MAX {
        u32::MAX as int
    } else {
        x
    }
}

pub open spec fn sat_sub(a: int, b: int) -> int {
    if a >= b {
        a - b
    } else {
        0
    }
}

/// A word boundary starts after one of these characters.
pub open spec fn is_sep(c: char) -> bool {
    c == '/' || c == '_' || c == '-' || c == '.'
}

/// Matching state: how much of the query is matched, the score so far, and
/// where the previous match was.
pub struct FzState {
    pub qi: int,
    pub score: int,
    pub last: Option<int>,
}

/// One candidate character `c[ci]` against the query `q`.
pub open spec fn fz_step(q: Seq<char>, c: Seq<char>, orig: Seq<char>, ci: int, st: FzState) -> FzState {
    if st.qi >= q.len() || c[ci] != q[st.qi] {
        st
    } else {
        let score = match st.last {
            Some(lm) => if ci == lm + 1 {
                sat32(st.score + 1)
            } else {
                sat32(st.score + 3 + (ci - lm))
            },
            None => {
                let s1 = sat32(st.score + ci);
                if ci == 0 || (0 <= ci - 1 < orig.len() && is_sep(orig[ci - 1])) {
                    sat_sub(s1, 2)
                } else {
                    s1
                }
            },
        };
        FzState { qi: st.qi + 1, score: score, last: Some(ci) }
    }
}

/// The state after the first `n` candidate characters.
pub open spec fn fz_run(q: Seq<char>, c: Seq<char>, orig: Seq<char>, n: int) -> FzState
    decreases n,
{
    if n <= 0 {
        FzState { qi: 0, score: 0, last: None }
    } else {
        fz_step(q, c, orig, n - 1, fz_run(q, c, orig, n - 1))
    }
}

/// Fuzzy score: `Some` iff the (lower-cased) query is a subsequence of the
/// (lower-cased) candidate; smaller is better. Contiguous, early and
/// word-boundary matches score better.
pub open spec fn fuzzy(query: Seq<char>, cand: Seq<char>) -> Option<int> {
    if query.len() == 0 {
        Some(0)
    } else {
        let q = unicode_lower(query);
        let c = unicode_lower(cand);
        let st = fz_run(q, c, cand, c.len() as int);
        if st.qi == q.len() {
            Some(st.score)
        } else {
            None
        }
    }
}

proof fn lemma_fz_bounds(q: Seq<char>, c: Seq<char>, orig: Seq<char>, n: int)
    requires
        0 <= n <= c.len(),
    ensures
        0 <= fz_run(q, c, orig, n).qi <= q.len() || (q.len() == 0 && fz_run(q, c, orig, n).qi == 0),
        0 <= fz_run(q, c, orig, n).score <= u32::MAX,
        fz_run(q, c, orig, n).last matches Some(lm) ==> 0 <= lm < n,
    decreases n,
{
    if n > 0 {
        lemma_fz_bounds(q, c, orig, n - 1);
    }
}

fn sat_u32(x: usize) -> (r: u32)
    ensures
        r == sat32(x as int),
{
    if x > 0xffff_ffffusize {
        0xffff_ffffu32
    } else {
        x as u32
    }
}

/// Fuzzy match `query` against `candidate`.
pub fn fuzzy_score(query: &str, candidate: &str) -> (r: Option<u32>)
    ensures
        match r {
            Some(s) => fuzzy(query@, candidate@) == Some(s as int),
            None => fuzzy(query@, candidate@) is None,
        },
{
    let qs = chars_of(query);
    if qs.len() == 0 {
        return Some(0);
    }
    let ql = to_lowercase(query);
    let cl = to_lowercase(candidate);
    let q = chars_of(ql.as_str());
    let c = chars_of(cl.as_str());
    let orig = chars_of(candidate);
    let mut qi: usize = 0;
    let mut score: u32 = 0;
    let mut last_match: Option<usize> = None;
    let n = c.len();
    let mut ci: usize = 0;
    while ci < n
        invariant
            n == c@.len(),
            ci <= n,
            qi <= q@.len(),
            ({
                let st = fz_run(q@, c@, orig@, ci as int);
                &&& st.qi == qi
                &&& st.score == score
                &&& st.last == match last_match {
                    Some(l) => Some(l as int),
                    None => None::<int>,
                }
            }),
            last_match matches Some(l) ==> l < ci,
        decreases n - ci,
    {
        if qi < q.len() && c[ci] == q[qi] {
            match last_match {
                Some(lm) => {
                    if ci == lm + 1 {
                        score = score.saturating_add(1);
                    } else {
                        score = score.saturating_add(3).saturating_add(sat_u32(ci - lm));
                    }
                },
                None => {
                    score = score.saturating_add(sat_u32(ci));
                    let boundary = ci == 0 || (ci - 1 < orig.len() && (orig[ci - 1] == '/' || orig[ci
                        - 1] == '_' || orig[ci - 1] == '-' || orig[ci - 1] == '.'));
                    if boundary {
                        score = score.saturating_sub(2);
                    }
                },
            }
            last_match = Some(ci);
            qi = qi + 1;
        }
        ci = ci + 1;
    }
    if qi == q.len() {
        Some(score)
    } else {
        None
    }
}

// ── ranking ──────────────────────────────────────────────────────────

/// `(score, text)` keys of the first `n` candidates that match, in input order.
pub open spec fn match_keys(query: Seq<char>, cands: Seq<Seq<char>>, n: int) -> Seq<(int, Seq<char>)>
    decreases n,
{
    if n <= 0 {
        Seq::empty()
    } else {
        match fuzzy(query, cands[n - 1]) {
            Some(s) => match_keys(query, cands, n - 1).push((s, cands[n - 1])),
            None => match_keys(query, cands, n - 1),
        }
    }
}

/// The ranking: matches sorted by score then text, the first `limit`.
pub open spec fn ranked(query: Seq<char>, cands: Seq<Seq<char>>, limit: int) -> Seq<Seq<char>> {
    let keys = match_keys(query, cands, cands.len() as int).sort_by(
        |x: (int, Seq<char>), y: (int, Seq<char>)| key_le(x, y),
    );
    let k = if limit < keys.len() {
        limit
    } else {
        keys.len() as int
    };
    keys.take(k).map_values(|x: (int, Seq<char>)| x.1)
}

pub open spec fn keys_of(v: Seq<(u32, usize)>, cands: Seq<Seq<char>>) -> Seq<(int, Seq<char>)> {
    v.map_values(|p: (u32, usize)| (p.0 as int, cands[p.1 as int]))
}

/// Rank `candidates` by fuzzy score (ties by text) and keep the first `limit`.
pub fn fuzzy_rank<'a>(query: &str, candidates: &'a [String], limit: usize) -> (r: Vec<&'a String>)
    ensures
        r@.map_values(|s: &String| s@) == ranked(
            query@,
            candidates@.map_values(|s: String| s@),
            limit as int,
        ),
{
    let ghost cands = candidates@.map_values(|s: String| s@);
    let ghost leq = |x: (int, Seq<char>), y: (int, Seq<char>)| key_le(x, y);
    proof {
        lemma_key_total();
    }
    let n = candidates.len();
    let mut texts: Vec<Vec<char>> = Vec::new();
    let mut sorted: Vec<(u32, usize)> = Vec::new();
    let mut i: usize = 0;
    assert(keys_of(sorted@, cands) =~= Seq::<(int, Seq<char>)>::empty());
    while i < n
        invariant
            n == candidates@.len(),
            i <= n,
            cands == candidates@.map_values(|s: String| s@),
            total_ordering(leq),
            leq == (|x: (int, Seq<char>), y: (int, Seq<char>)| key_le(x, y)),
            texts@.len() == i,
            forall|j: int| 0 <= j < i ==> #[trigger] texts@[j]@ == cands[j],
            forall|j: int| 0 <= j < sorted@.len() ==> #[trigger] sorted@[j].1 < i,
            sorted_by(keys_of(sorted@, cands), leq),
            keys_of(sorted@, cands).to_multiset() == match_keys(query@, cands, i as int).to_multiset(),
        decreases n - i,
    {
        let t = chars_of(candidates[i].as_str());
        assert(candidates@[i as int]@ == cands[i as int]);
        let ghost mk = match_keys(query@, cands, i as int);
        match fuzzy_score(query, candidates[i].as_str()) {
            None => {
                assert(match_keys(query@, cands, i + 1) == mk);
            },
            Some(s) => {
                // position after every key that is <= (s, t)
                let mut p: usize = 0;
                let m = sorted.len();
                while p < m && key_le_exec(
                    sorted[p].0 as u64,
                    texts[sorted[p].1].as_slice(),
                    s as u64,
                    t.as_slice(),
                )
                    invariant
                        m == sorted@.len(),
                        p <= m,
                        texts@.len() == i,
                        forall|j: int| 0 <= j < i ==> #[trigger] texts@[j]@ == cands[j],
                        forall|j: int| 0 <= j < sorted@.len() ==> #[trigger] sorted@[j].1 < i,
                        forall|j: int|
                            0 <= j < p ==> key_le(#[trigger] keys_of(sorted@, cands)[j], (s as int, t@)),
                    decreases m - p,
                {
                    p = p + 1;
                }
                let ghost old_sorted = sorted@;
                sorted.insert(p, (s, i));
                proof {
                    let ks = keys_of(old_sorted, cands);
                    let x = (s as int, cands[i as int]);
                    assert(keys_of(sorted@, cands) =~= ks.insert(p as int, x));
                    vstd::seq_lib::to_multiset_insert(ks, p as int, x);
                    vstd::seq_lib::to_multiset_build(mk, x);
                    assert(match_keys(query@, cands, i + 1) == mk.push(x));
                    assert forall|a: int, b: int|
                        0 <= a < b < sorted@.len() implies #[trigger] leq(
                        keys_of(sorted@, cands)[a],
                        keys_of(sorted@, cands)[b],
                    ) by {
                        let ks2 = keys_of(sorted@, cands);
                        if a < p as int && b == p as int {
                        } else if a == p as int && b > p as int {
                            if p < m {
                                assert(!key_le(ks[p as int], x));
                                assert(leq(ks[p as int], x) || leq(x, ks[p as int]));
                                if b - 1 > p {
                                    assert(leq(ks[p as int], ks[b - 1]));
                                }
                            }
                        } else if a < p as int && b > p as int {
                            assert(ks2[a] == ks[a]);
                            assert(ks2[b] == ks[b - 1]);
                        } else if b < p as int {
                        } else {
                            assert(ks2[a] == ks[a - 1]);
                            assert(ks2[b] == ks[b - 1]);
                        }
                    }
                }
            },
        }
        texts.push(t);
        i = i + 1;
    }
    proof {
        let mk = match_keys(query@, cands, n as int);
        mk.lemma_sort_by_ensures(leq);
        vstd::seq_lib::lemma_sorted_unique(keys_of(sorted@, cands), mk.sort_by(leq), leq);
    }
    let mut r: Vec<&'a String> = Vec::new();
    let k = if limit < sorted.len() {
        limit
    } else {
        sorted.len()
    };
    let mut j: usize = 0;
    while j < k
        invariant
            k <= sorted@.len(),
            j <= k,
            forall|q: int| 0 <= q < sorted@.len() ==> #[trigger] sorted@[q].1 < n,
            n == candidates@.len(),
            r@.len() == j,
            forall|q: int| 0 <= q < j ==> #[trigger] r@[q]@ == candidates@[sorted@[q].1 as int]@,
        decreases k - j,
    {
        r.push(&candidates[sorted[j].1]);
        j = j + 1;
    }
    proof {
        let keys = match_keys(query@, cands, cands.len() as int).sort_by(leq);
        assert(keys =~= keys_of(sorted@, cands));
        assert(r@.map_values(|s: &String| s@) =~= keys.take(k as int).map_values(
            |x: (int, Seq<char>)| x.1,
        ));
    }
    r
}


/// Directories the file listing does not enter: large ones a user almost
/// never references, and hidden ones.
pub open spec fn skipped_dir(name: Seq<char>) -> bool {
    ||| name == ".git"@
    ||| name == "node_modules"@
    ||| name == "target"@
    ||| name == "dist"@
    ||| name == "build"@
    ||| name == ".venv"@
    ||| name == "__pycache__"@
    ||| name == ".next"@
    ||| name == ".cache"@
    ||| (name.len() > 0 && name[0] == '.')
}

pub fn skips_dir(name: &str) -> (r: bool)
    ensures
        r == skipped_dir(name@),
{
    let v = crate::text::chars_of(name);
    if v.len() > 0 && v[0] == '.' {
        return true;
    }
    crate::text::str_eq(name, ".git") || crate::text::str_eq(name, "node_modules") || crate::text::str_eq(
        name,
        "target",
    ) || crate::text::str_eq(name, "dist") || crate::text::str_eq(name, "build") || crate::text::str_eq(
        name,
        ".venv",
    ) || crate::text::str_eq(name, "__pycache__") || crate::text::str_eq(name, ".next")
        || crate::text::str_eq(name, ".cache")
}

/// Reverse search finds the newest entry holding the needle: what it gives
/// holds it, and no newer entry does.
pub proof fn law_last_hit_is_newest(es: Seq<Seq<char>>, q: Seq<char>, n: int)
    requires
        0 <= n <= es.len(),
    ensures
        last_hit(es, q, n) matches Some(i) ==> 0 <= i < n && is_hit(es[i], q) && forall|j: int|
            i < j < n ==> !is_hit(#[trigger] es[j], q),
        last_hit(es, q, n) is None ==> forall|j: int| 0 <= j < n ==> !is_hit(#[trigger] es[j], q),
    decreases n,
{
    if n > 0 {
        law_last_hit_is_newest(es, q, n - 1);
    }
}


/// `q` is a subsequence of `c`: its characters occur in `c` in order.
pub open spec fn is_subseq(q: Seq<char>, c: Seq<char>) -> bool
    decreases c.len(),
{
    if q.len() == 0 {
        true
    } else if c.len() == 0 {
        false
    } else {
        (q.last() == c.last() && is_subseq(q.drop_last(), c.drop_last())) || is_subseq(q, c.drop_last())
    }
}

/// After `n` candidate characters, the matcher has matched the longest
/// prefix of the query that is a subsequence of them.
proof fn lemma_fz_longest(q: Seq<char>, c: Seq<char>, orig: Seq<char>, n: int)
    requires
        0 <= n <= c.len(),
    ensures
        0 <= fz_run(q, c, orig, n).qi <= q.len(),
        is_subseq(q.take(fz_run(q, c, orig, n).qi), c.take(n)),
        forall|k: int| fz_run(q, c, orig, n).qi < k <= q.len() ==> !is_subseq(#[trigger] q.take(k), c.take(n)),
    decreases n,
{
    if n == 0 {
        assert forall|k: int| 0 < k <= q.len() implies !is_subseq(#[trigger] q.take(k), c.take(0)) by {
            assert(c.take(0).len() == 0);
        }
    } else {
        lemma_fz_longest(q, c, orig, n - 1);
        let p = fz_run(q, c, orig, n - 1).qi;
        let qi = fz_run(q, c, orig, n).qi;
        let cn = c.take(n);
        assert(cn.drop_last() =~= c.take(n - 1));
        assert(cn.last() == c[n - 1]);
        if qi == p + 1 {
            assert(q.take(qi).drop_last() =~= q.take(p));
            assert(q.take(qi).last() == q[p]);
        } else {
            assert(qi == p);
        }
        assert forall|k: int| qi < k <= q.len() implies !is_subseq(#[trigger] q.take(k), cn) by {
            assert(q.take(k).drop_last() =~= q.take(k - 1));
            assert(q.take(k).last() == q[k - 1]);
            if is_subseq(q.take(k), cn) {
                if !is_subseq(q.take(k), c.take(n - 1)) {
                    assert(q.take(k - 1) == q.take(k).drop_last());
                    assert(is_subseq(q.take(k - 1), c.take(n - 1)));
                    assert(k - 1 <= p);
                }
            }
        }
    }
}

/// A fuzzy score exists exactly when the lower-cased query is a subsequence
/// of the lower-cased candidate (an empty query scores 0).
pub proof fn law_fuzzy_is_subsequence(query: Seq<char>, cand: Seq<char>)
    ensures
        query.len() == 0 ==> fuzzy(query, cand) == Some(0int),
        query.len() > 0 ==> (fuzzy(query, cand) is Some <==> is_subseq(unicode_lower(query), unicode_lower(cand))),
{
    if query.len() > 0 {
        let q = unicode_lower(query);
        let c = unicode_lower(cand);
        lemma_fz_longest(q, c, cand, c.len() as int);
        assert(q.take(q.len() as int) =~= q);
        assert(c.take(c.len() as int) =~= c);
    }
}


/// The match keys are the matching candidates with their scores, in order.
pub proof fn law_match_keys(query: Seq<char>, cands: Seq<Seq<char>>, n: int)
    requires
        0 <= n <= cands.len(),
    ensures
        forall|i: int| 0 <= i < match_keys(query, cands, n).len() ==> fuzzy(
            query,
            (#[trigger] match_keys(query, cands, n)[i]).1,
        ) == Some(match_keys(query, cands, n)[i].0) && cands.take(n).contains(match_keys(query, cands, n)[i].1),
        forall|j: int| 0 <= j < n && #[trigger] fuzzy(query, cands[j]) is Some ==> match_keys(query, cands, n).contains(
            (fuzzy(query, cands[j])->0, cands[j]),
        ),
    decreases n,
{
    if n > 0 {
        law_match_keys(query, cands, n - 1);
        let prev = match_keys(query, cands, n - 1);
        assert forall|i: int| 0 <= i < match_keys(query, cands, n).len() implies fuzzy(
            query,
            (#[trigger] match_keys(query, cands, n)[i]).1,
        ) == Some(match_keys(query, cands, n)[i].0) && cands.take(n).contains(match_keys(query, cands, n)[i].1) by {
            let cur = match_keys(query, cands, n);
            if i < prev.len() {
                assert(cur[i] == prev[i]);
                let k = choose|k: int| 0 <= k < n - 1 && #[trigger] cands.take(n - 1)[k] == prev[i].1;
                assert(cands.take(n)[k] == prev[i].1);
            } else {
                assert(cands.take(n)[n - 1] == cands[n - 1]);
            }
        }
        assert forall|j: int| 0 <= j < n && #[trigger] fuzzy(query, cands[j]) is Some implies match_keys(query, cands, n).contains(
            (fuzzy(query, cands[j])->0, cands[j]),
        ) by {
            let cur = match_keys(query, cands, n);
            if j < n - 1 {
                let k = choose|k: int| 0 <= k < prev.len() && #[trigger] prev[k] == (fuzzy(query, cands[j])->0, cands[j]);
                if fuzzy(query, cands[n - 1]) is Some {
                    assert(cur[k] == prev[k]);
                }
            } else {
                assert(cur[prev.len() as int] == (fuzzy(query, cands[j])->0, cands[j]));
            }
        }
    }
}

/// The ranking keeps `min(limit, matches)` candidates, in ascending order
/// of (score, text), each a matching candidate: the sorted keys hold the
/// same keys as the matches, so no match left out ranks before one kept.
pub proof fn law_ranked(query: Seq<char>, cands: Seq<Seq<char>>, limit: int)
    requires
        0 <= limit,
    ensures
        ({
            let keys = match_keys(query, cands, cands.len() as int);
            let leq = |x: (int, Seq<char>), y: (int, Seq<char>)| key_le(x, y);
            let sorted = keys.sort_by(leq);
            let r = ranked(query, cands, limit);
            &&& r.len() == (if limit < keys.len() { limit } else { keys.len() as int })
            &&& sorted.to_multiset() == keys.to_multiset()
            &&& sorted_by(sorted, leq)
            &&& forall|i: int| 0 <= i < r.len() ==> #[trigger] r[i] == sorted[i].1 && fuzzy(query, r[i]) == Some(sorted[i].0)
                && cands.contains(r[i])
        }),
{
    let keys = match_keys(query, cands, cands.len() as int);
    let leq = |x: (int, Seq<char>), y: (int, Seq<char>)| key_le(x, y);
    lemma_key_total();
    keys.lemma_sort_by_ensures(leq);
    law_match_keys(query, cands, cands.len() as int);
    let sorted = keys.sort_by(leq);
    assert(sorted.len() == keys.len()) by {
        vstd::seq_lib::to_multiset_len(sorted);
        vstd::seq_lib::to_multiset_len(keys);
    }
    let r = ranked(query, cands, limit);
    assert forall|i: int| 0 <= i < r.len() implies #[trigger] r[i] == sorted[i].1 && fuzzy(query, r[i]) == Some(
        sorted[i].0,
    ) && cands.contains(r[i]) by {
        assert(sorted.contains(sorted[i]));
        assert(keys.contains(sorted[i]));
        let k = choose|k: int| 0 <= k < keys.len() && #[trigger] keys[k] == sorted[i];
        assert(fuzzy(query, keys[k].1) == Some(keys[k].0));
        assert(cands.take(cands.len() as int) =~= cands);
    }
}

} // verus!
