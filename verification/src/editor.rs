//! Multi-line input editor: cursor, line editing, bounded undo.
//!
//! Columns are **character** indices, never byte offsets, so a cursor can
//! never land inside a multi-byte character. The undo stack holds whole-text
//! snapshots and is bounded (`MAX_UNDO`): the oldest snapshot is dropped
//! rather than letting memory grow with a long session.
use std::collections::VecDeque;
use vstd::prelude::*;
use crate::lines::{lines_view, split_lines, join_lines, split_exec, join_exec};
use crate::lines::{lemma_split_nonempty, lemma_join_split};
use crate::text::{is_ws, is_whitespace, sub_chars, concat_chars, string_of};

verus! {

/// Upper bound on the undo stack (each entry is a whole-text snapshot).
pub const MAX_UNDO: usize = 100;

/// Start of the whitespace run that ends at `i` (walking left).
pub open spec fn back_ws(l: Seq<char>, i: int) -> int
    decreases i,
{
    if 0 < i <= l.len() && is_ws(l[i - 1]) {
        back_ws(l, i - 1)
    } else {
        i
    }
}

/// Start of the non-whitespace run that ends at `i` (walking left).
pub open spec fn back_word(l: Seq<char>, i: int) -> int
    decreases i,
{
    if 0 < i <= l.len() && !is_ws(l[i - 1]) {
        back_word(l, i - 1)
    } else {
        i
    }
}

/// End of the non-whitespace run that starts at `i` (walking right).
pub open spec fn fwd_word(l: Seq<char>, i: int) -> int
    decreases l.len() - i,
{
    if 0 <= i < l.len() && !is_ws(l[i]) {
        fwd_word(l, i + 1)
    } else {
        i
    }
}

/// End of the whitespace run that starts at `i` (walking right).
pub open spec fn fwd_ws(l: Seq<char>, i: int) -> int
    decreases l.len() - i,
{
    if 0 <= i < l.len() && is_ws(l[i]) {
        fwd_ws(l, i + 1)
    } else {
        i
    }
}

/// Start of the word before column `c`: skip whitespace, then the word
/// (shell `ctrl+w` / readline `alt+b`).
pub open spec fn word_start(l: Seq<char>, c: int) -> int {
    back_word(l, back_ws(l, c))
}

/// Start of the next word after column `c` (readline `alt+f`).
pub open spec fn next_word(l: Seq<char>, c: int) -> int {
    fwd_ws(l, fwd_word(l, c))
}

pub open spec fn min(a: int, b: int) -> int {
    if a <= b {
        a
    } else {
        b
    }
}

/// `word_start` computed by scanning left from `c`.
pub fn word_start_exec(l: &[char], c: usize) -> (r: usize)
    requires
        c <= l@.len(),
    ensures
        r == word_start(l@, c as int),
        r <= c,
{
    let mut i = c;
    while i > 0 && is_whitespace(l[i - 1])
        invariant
            i <= c <= l@.len(),
            back_ws(l@, c as int) == back_ws(l@, i as int),
        decreases i,
    {
        i = i - 1;
    }
    let ghost j = i;
    while i > 0 && !is_whitespace(l[i - 1])
        invariant
            i <= j <= l@.len(),
            j == back_ws(l@, c as int),
            back_word(l@, j as int) == back_word(l@, i as int),
        decreases i,
    {
        i = i - 1;
    }
    i
}

/// `next_word` computed by scanning right from `c`.
pub fn next_word_exec(l: &[char], c: usize) -> (r: usize)
    requires
        c <= l@.len(),
    ensures
        r == next_word(l@, c as int),
        c <= r <= l@.len(),
{
    let n = l.len();
    let mut i = c;
    while i < n && !is_whitespace(l[i])
        invariant
            n == l@.len(),
            c <= i <= n,
            fwd_word(l@, c as int) == fwd_word(l@, i as int),
        decreases n - i,
    {
        i = i + 1;
    }
    let ghost j = i;
    while i < n && is_whitespace(l[i])
        invariant
            n == l@.len(),
            c <= j <= i <= n,
            j == fwd_word(l@, c as int),
            fwd_ws(l@, j as int) == fwd_ws(l@, i as int),
        decreases n - i,
    {
        i = i + 1;
    }
    i
}

/// The abstract state of an editor.
pub struct EditorModel {
    pub lines: Seq<Seq<char>>,
    pub row: int,
    pub col: int,
    pub undo: Seq<Seq<char>>,
    pub redo: Seq<Seq<char>>,
    /// The last edit was plain typing (consecutive typing is one undo step).
    pub typing: bool,
}

impl EditorModel {
    /// At least one line, the cursor inside the text, and the undo and redo
    /// stacks together within `MAX_UNDO`.
    pub open spec fn wf(self) -> bool {
        &&& self.lines.len() >= 1
        &&& 0 <= self.row < self.lines.len()
        &&& 0 <= self.col <= self.lines[self.row].len()
        &&& self.undo.len() + self.redo.len() <= MAX_UNDO
    }

    /// The whole text, lines joined with `'\n'`.
    pub open spec fn text(self) -> Seq<char> {
        join_lines(self.lines)
    }

    /// The cursor line.
    pub open spec fn cur(self) -> Seq<char> {
        self.lines[self.row]
    }

    pub open spec fn is_empty(self) -> bool {
        self.lines.len() == 1 && self.lines[0].len() == 0
    }

    pub open spec fn fresh() -> EditorModel {
        EditorModel {
            lines: seq![Seq::<char>::empty()],
            row: 0,
            col: 0,
            undo: Seq::empty(),
            redo: Seq::empty(),
            typing: false,
        }
    }

    /// Record the current text as an undo point; a new edit voids redo.
    pub open spec fn snapshot(self) -> EditorModel {
        let u = self.undo.push(self.text());
        EditorModel {
            undo: if u.len() > MAX_UNDO {
                u.drop_first()
            } else {
                u
            },
            redo: Seq::empty(),
            ..self
        }
    }

    /// Replace the text by `t`, clamping the cursor into it.
    pub open spec fn restored(self, t: Seq<char>) -> EditorModel {
        let ls = split_lines(t);
        let r = min(self.row, ls.len() - 1);
        EditorModel { lines: ls, row: r, col: min(self.col, ls[r].len() as int), ..self }
    }

    pub open spec fn with_cur(self, l: Seq<char>, col: int) -> EditorModel {
        EditorModel { lines: self.lines.update(self.row, l), col: col, ..self }
    }

    pub open spec fn set(self, t: Seq<char>) -> EditorModel {
        let m = self.snapshot();
        let ls = split_lines(t);
        EditorModel {
            lines: ls,
            row: ls.len() - 1,
            col: ls.last().len() as int,
            typing: false,
            ..m
        }
    }

    pub open spec fn clear(self) -> EditorModel {
        if self.is_empty() {
            self
        } else {
            let m = self.snapshot();
            EditorModel { lines: seq![Seq::<char>::empty()], row: 0, col: 0, typing: false, ..m }
        }
    }

    pub open spec fn insert_char(self, c: char) -> EditorModel {
        let m = if self.typing {
            self
        } else {
            self.snapshot()
        };
        EditorModel { typing: true, ..m.with_cur(m.cur().insert(m.col, c), m.col + 1) }
    }

    pub open spec fn insert_str(self, s: Seq<char>) -> EditorModel {
        if s.len() == 0 {
            self
        } else {
            let m = EditorModel { typing: false, ..self.snapshot() };
            let parts = split_lines(s);
            let n = parts.len();
            let head = m.cur().take(m.col);
            let tail = m.cur().skip(m.col);
            if n == 1 {
                m.with_cur(head + parts[0] + tail, m.col + parts[0].len())
            } else {
                EditorModel {
                    lines: m.lines.take(m.row) + seq![head + parts[0]] + parts.subrange(1, n - 1)
                        + seq![parts[n - 1] + tail] + m.lines.skip(m.row + 1),
                    row: m.row + n - 1,
                    col: parts[n - 1].len() as int,
                    ..m
                }
            }
        }
    }

    pub open spec fn newline(self) -> EditorModel {
        let m = EditorModel { typing: false, ..self.snapshot() };
        EditorModel {
            lines: m.lines.take(m.row) + seq![m.cur().take(m.col), m.cur().skip(m.col)]
                + m.lines.skip(m.row + 1),
            row: m.row + 1,
            col: 0,
            ..m
        }
    }

    /// Whether `backspace` removes something.
    pub open spec fn can_backspace(self) -> bool {
        self.col > 0 || self.row > 0
    }

    pub open spec fn backspace(self) -> EditorModel {
        let s = EditorModel { typing: false, ..self };
        if s.col > 0 {
            let m = s.snapshot();
            m.with_cur(m.cur().remove(m.col - 1), m.col - 1)
        } else if s.row > 0 {
            let m = s.snapshot();
            let prev = m.lines[m.row - 1];
            EditorModel {
                lines: m.lines.take(m.row - 1) + seq![prev + m.cur()] + m.lines.skip(m.row + 1),
                row: m.row - 1,
                col: prev.len() as int,
                ..m
            }
        } else {
            s
        }
    }

    /// Whether `delete_forward` removes something.
    pub open spec fn can_delete_forward(self) -> bool {
        self.col < self.cur().len() || self.row < self.lines.len() - 1
    }

    pub open spec fn delete_forward(self) -> EditorModel {
        let s = EditorModel { typing: false, ..self };
        if s.col < s.cur().len() {
            let m = s.snapshot();
            m.with_cur(m.cur().remove(m.col), m.col)
        } else if s.row + 1 < s.lines.len() {
            let m = s.snapshot();
            EditorModel {
                lines: m.lines.take(m.row) + seq![m.cur() + m.lines[m.row + 1]] + m.lines.skip(
                    m.row + 2,
                ),
                ..m
            }
        } else {
            s
        }
    }

    pub open spec fn delete_to_line_end(self) -> EditorModel {
        if self.col < self.cur().len() {
            let m = EditorModel { typing: false, ..self.snapshot() };
            m.with_cur(m.cur().take(m.col), m.col)
        } else if self.row < self.lines.len() - 1 {
            self.delete_forward()
        } else {
            self
        }
    }

    pub open spec fn delete_to_line_start(self) -> EditorModel {
        if self.col > 0 {
            let m = EditorModel { typing: false, ..self.snapshot() };
            m.with_cur(m.cur().skip(m.col), 0)
        } else {
            self
        }
    }

    pub open spec fn delete_word_backward(self) -> EditorModel {
        if self.col == 0 && self.row > 0 {
            self.backspace()
        } else if self.col == 0 {
            self
        } else {
            let m = EditorModel { typing: false, ..self.snapshot() };
            let i = word_start(m.cur(), m.col);
            m.with_cur(m.cur().take(i) + m.cur().skip(m.col), i)
        }
    }

    pub open spec fn move_left(self) -> EditorModel {
        if self.col > 0 {
            EditorModel { col: self.col - 1, ..self }
        } else if self.row > 0 {
            EditorModel { row: self.row - 1, col: self.lines[self.row - 1].len() as int, ..self }
        } else {
            self
        }
    }

    pub open spec fn move_right(self) -> EditorModel {
        if self.col < self.cur().len() {
            EditorModel { col: self.col + 1, ..self }
        } else if self.row < self.lines.len() - 1 {
            EditorModel { row: self.row + 1, col: 0, ..self }
        } else {
            self
        }
    }

    pub open spec fn move_up(self) -> EditorModel {
        if self.row > 0 {
            EditorModel {
                row: self.row - 1,
                col: min(self.col, self.lines[self.row - 1].len() as int),
                ..self
            }
        } else {
            EditorModel { col: 0, ..self }
        }
    }

    pub open spec fn move_down(self) -> EditorModel {
        if self.row < self.lines.len() - 1 {
            EditorModel {
                row: self.row + 1,
                col: min(self.col, self.lines[self.row + 1].len() as int),
                ..self
            }
        } else {
            EditorModel { col: self.cur().len() as int, ..self }
        }
    }

    pub open spec fn word_backward(self) -> EditorModel {
        if self.col == 0 {
            self
        } else {
            EditorModel { col: word_start(self.cur(), self.col), ..self }
        }
    }

    pub open spec fn word_forward(self) -> EditorModel {
        EditorModel { col: next_word(self.cur(), self.col), ..self }
    }

    pub open spec fn undo_step(self) -> EditorModel {
        if self.undo.len() == 0 {
            self
        } else {
            let s = EditorModel {
                undo: self.undo.drop_last(),
                redo: self.redo.push(self.text()),
                typing: false,
                ..self
            };
            s.restored(self.undo.last())
        }
    }

    pub open spec fn redo_step(self) -> EditorModel {
        if self.redo.len() == 0 {
            self
        } else {
            let s = EditorModel {
                redo: self.redo.drop_last(),
                undo: self.undo.push(self.text()),
                typing: false,
                ..self
            };
            s.restored(self.redo.last())
        }
    }
}

/// Multi-line input buffer.
#[derive(Debug, Clone)]
pub struct Editor {
    /// At least one line (an empty editor is one empty line).
    lines: Vec<Vec<char>>,
    row: usize,
    /// Character column.
    col: usize,
    undo: VecDeque<Vec<char>>,
    redo: Vec<Vec<char>>,
    last_was_typing: bool,
}

impl View for Editor {
    type V = EditorModel;

    closed spec fn view(&self) -> EditorModel {
        EditorModel {
            lines: lines_view(self.lines@),
            row: self.row as int,
            col: self.col as int,
            undo: lines_view(self.undo@),
            redo: lines_view(self.redo@),
            typing: self.last_was_typing,
        }
    }
}

proof fn lemma_view_push(v: Seq<Vec<char>>, x: Vec<char>)
    ensures
        lines_view(v.push(x)) == lines_view(v).push(x@),
{
    assert(lines_view(v.push(x)) =~= lines_view(v).push(x@));
}

proof fn lemma_view_update(v: Seq<Vec<char>>, i: int, x: Vec<char>)
    requires
        0 <= i < v.len(),
    ensures
        lines_view(v.update(i, x)) == lines_view(v).update(i, x@),
{
    assert(lines_view(v.update(i, x)) =~= lines_view(v).update(i, x@));
}

fn copy_line_vec(v: &Vec<Vec<char>>) -> (r: Vec<Vec<char>>)
    ensures
        lines_view(r@) == lines_view(v@),
{
    let mut r: Vec<Vec<char>> = Vec::new();
    let mut i: usize = 0;
    while i < v.len()
        invariant
            i <= v@.len(),
            lines_view(r@) == lines_view(v@.take(i as int)),
        decreases v@.len() - i,
    {
        let ghost before = r@;
        r.push(crate::text::copy_chars(v[i].as_slice()));
        proof {
            lemma_view_push(before, r@.last());
            assert(v@.take(i + 1) =~= v@.take(i as int).push(v@[i as int]));
            lemma_view_push(v@.take(i as int), v@[i as int]);
        }
        i = i + 1;
    }
    assert(v@.take(v@.len() as int) =~= v@);
    r
}

fn copy_line_deque(v: &VecDeque<Vec<char>>) -> (r: VecDeque<Vec<char>>)
    ensures
        lines_view(r@) == lines_view(v@),
{
    let mut r: VecDeque<Vec<char>> = VecDeque::new();
    let mut i: usize = 0;
    while i < v.len()
        invariant
            i <= v@.len(),
            lines_view(r@) == lines_view(v@.take(i as int)),
        decreases v@.len() - i,
    {
        let ghost before = r@;
        r.push_back(crate::text::copy_chars(v[i].as_slice()));
        proof {
            lemma_view_push(before, r@.last());
            assert(v@.take(i + 1) =~= v@.take(i as int).push(v@[i as int]));
            lemma_view_push(v@.take(i as int), v@[i as int]);
        }
        i = i + 1;
    }
    assert(v@.take(v@.len() as int) =~= v@);
    r
}

impl Editor {
    pub open spec fn wf(&self) -> bool {
        self@.wf()
    }

    /// An independent copy (same text, cursor and undo history).
    pub fn duplicate(&self) -> (r: Editor)
        ensures
            r@ == self@,
    {
        Editor {
            lines: copy_line_vec(&self.lines),
            row: self.row,
            col: self.col,
            undo: copy_line_deque(&self.undo),
            redo: copy_line_vec(&self.redo),
            last_was_typing: self.last_was_typing,
        }
    }

    pub fn new() -> (e: Self)
        ensures
            e@ == EditorModel::fresh(),
            e.wf(),
    {
        let mut lines: Vec<Vec<char>> = Vec::new();
        lines.push(Vec::new());
        let e = Editor {
            lines,
            row: 0,
            col: 0,
            undo: VecDeque::new(),
            redo: Vec::new(),
            last_was_typing: false,
        };
        assert(e@.lines =~= seq![Seq::<char>::empty()]);
        assert(e@.undo =~= Seq::<Seq<char>>::empty());
        assert(e@.redo =~= Seq::<Seq<char>>::empty());
        e
    }

    pub fn from_text(text: &str) -> (e: Self)
        ensures
            e@ == EditorModel::fresh().set(text@),
            e.wf(),
    {
        let mut e = Self::new();
        e.set(text);
        e
    }

    /// The whole text (lines joined with `'\n'`).
    pub fn text(&self) -> (r: String)
        ensures
            r@ == self@.text(),
    {
        let v = join_exec(&self.lines);
        string_of(v.as_slice())
    }

    /// The lines, for rendering.
    pub fn lines(&self) -> (r: Vec<String>)
        ensures
            r@.len() == self@.lines.len(),
            forall|i: int| 0 <= i < r@.len() ==> #[trigger] r@[i]@ == self@.lines[i],
    {
        let mut r: Vec<String> = Vec::new();
        for i in 0..self.lines.len()
            invariant
                r@.len() == i,
                i <= self.lines@.len(),
                forall|j: int| 0 <= j < i ==> #[trigger] r@[j]@ == self@.lines[j],
        {
            r.push(string_of(self.lines[i].as_slice()));
        }
        r
    }

    pub fn line_count(&self) -> (r: usize)
        ensures
            r == self@.lines.len(),
    {
        self.lines.len()
    }

    pub fn cursor(&self) -> (r: (usize, usize))
        ensures
            r.0 == self@.row,
            r.1 == self@.col,
    {
        (self.row, self.col)
    }

    /// Number of undo snapshots held.
    pub fn undo_depth(&self) -> (r: usize)
        ensures
            r == self@.undo.len(),
    {
        self.undo.len()
    }

    /// All lines empty.
    pub fn is_empty(&self) -> (r: bool)
        requires
            self.wf(),
        ensures
            r == self@.is_empty(),
    {
        self.lines.len() == 1 && self.lines[0].len() == 0
    }

    fn text_chars(&self) -> (r: Vec<char>)
        ensures
            r@ == self@.text(),
    {
        join_exec(&self.lines)
    }

    fn push_undo(&mut self)
        requires
            old(self).wf(),
        ensures
            final(self)@ == old(self)@.snapshot(),
            final(self).wf(),
    {
        let t = self.text_chars();
        let ghost u0 = self.undo@;
        self.undo.push_back(t);
        proof {
            assert(lines_view(self.undo@) =~= lines_view(u0).push(t@));
        }
        if self.undo.len() > MAX_UNDO {
            let ghost u1 = self.undo@;
            self.undo.pop_front();
            proof {
                assert(lines_view(self.undo@) =~= lines_view(u1).drop_first());
            }
        }
        self.redo.clear();
        proof {
            assert(lines_view(self.redo@) =~= Seq::<Seq<char>>::empty());
        }
    }

    /// Replace the text by `t`, clamping the cursor (shared by undo and redo).
    fn restore(&mut self, t: &[char])
        requires
            old(self).wf(),
        ensures
            final(self)@ == old(self)@.restored(t@),
    {
        let ls = split_exec(t);
        proof {
            lemma_split_nonempty(t@);
        }
        self.lines = ls;
        if self.row > self.lines.len() - 1 {
            self.row = self.lines.len() - 1;
        }
        let len = self.lines[self.row].len();
        if self.col > len {
            self.col = len;
        }
    }

    /// Replace the whole content; the cursor goes to the end.
    pub fn set(&mut self, text: &str)
        requires
            old(self).wf(),
        ensures
            final(self)@ == old(self)@.set(text@),
            final(self).wf(),
    {
        self.push_undo();
        let t = crate::text::chars_of(text);
        let ls = split_exec(t.as_slice());
        proof {
            lemma_split_nonempty(text@);
        }
        self.lines = ls;
        self.row = self.lines.len() - 1;
        self.col = self.lines[self.row].len();
        self.last_was_typing = false;
    }

    pub fn clear(&mut self)
        requires
            old(self).wf(),
        ensures
            final(self)@ == old(self)@.clear(),
            final(self).wf(),
    {
        if self.is_empty() {
            return;
        }
        self.push_undo();
        let mut ls: Vec<Vec<char>> = Vec::new();
        ls.push(Vec::new());
        self.lines = ls;
        self.row = 0;
        self.col = 0;
        self.last_was_typing = false;
        assert(self@.lines =~= seq![Seq::<char>::empty()]);
    }

    /// Replace the cursor line by `l` and move the cursor to column `col`.
    fn replace_cur(&mut self, l: Vec<char>, col: usize)
        requires
            old(self).wf(),
            col <= l@.len(),
        ensures
            final(self)@ == old(self)@.with_cur(l@, col as int),
            final(self).wf(),
    {
        let ghost v0 = self.lines@;
        self.lines.set(self.row, l);
        self.col = col;
        proof {
            lemma_view_update(v0, self.row as int, l);
        }
    }

    pub fn insert_char(&mut self, c: char)
        requires
            old(self).wf(),
        ensures
            final(self)@ == old(self)@.insert_char(c),
            final(self).wf(),
    {
        if !self.last_was_typing {
            self.push_undo();
        }
        self.last_was_typing = true;
        let mut l = crate::text::copy_chars(self.lines[self.row].as_slice());
        l.insert(self.col, c);
        let len = l.len();
        assert(self.col < len);
        let col = self.col + 1;
        self.replace_cur(l, col);
    }

    /// Insert a piece of text (a paste); embedded newlines split lines.
    pub fn insert_str(&mut self, s: &str)
        requires
            old(self).wf(),
        ensures
            final(self)@ == old(self)@.insert_str(s@),
            final(self).wf(),
    {
        let sv = crate::text::chars_of(s);
        if sv.len() == 0 {
            return;
        }
        self.push_undo();
        self.last_was_typing = false;
        let parts = split_exec(sv.as_slice());
        proof {
            lemma_split_nonempty(s@);
        }
        let n = parts.len();
        let cur = self.lines[self.row].as_slice();
        let head = sub_chars(cur, 0, self.col);
        let tail = sub_chars(cur, self.col, cur.len());
        assert(head@ =~= self@.cur().take(self.col as int));
        assert(tail@ =~= self@.cur().skip(self.col as int));
        if n == 1 {
            let mid = concat_chars(head.as_slice(), parts[0].as_slice());
            let l = concat_chars(mid.as_slice(), tail.as_slice());
            let col = mid.len();
            self.replace_cur(l, col);
            return;
        }
        let ghost m = self@;
        let ghost u = self.undo@;
        let ghost rd = self.redo@;
        let ghost c0 = self.col;
        let ghost full = self.lines@;
        let row = self.row;
        let mut rest = self.lines.split_off(row);
        let ghost before = self.lines@;
        let ghost rest0 = rest@;
        let _old_cur = rest.remove(0);
        assert(rest@ =~= full.subrange(row + 1, full.len() as int));
        let first = concat_chars(head.as_slice(), parts[0].as_slice());
        self.lines.push(first);
        let mut k: usize = 1;
        while k < n - 1
            invariant
                n == parts@.len(),
                n >= 2,
                1 <= k <= n - 1,
                self.undo@ == u,
                self.redo@ == rd,
                self.col == c0,
                self.row == row,
                self.last_was_typing == false,
                lines_view(self.lines@) == lines_view(before) + seq![head@ + lines_view(parts@)[0]]
                    + lines_view(parts@).subrange(1, k as int),
            decreases n - 1 - k,
        {
            let ghost l0 = self.lines@;
            let piece = crate::text::copy_chars(parts[k].as_slice());
            self.lines.push(piece);
            proof {
                lemma_view_push(l0, piece);
                assert(lines_view(parts@).subrange(1, k + 1) =~= lines_view(parts@).subrange(
                    1,
                    k as int,
                ).push(parts@[k as int]@));
            }
            k = k + 1;
        }
        let last = concat_chars(parts[n - 1].as_slice(), tail.as_slice());
        let last_len = parts[n - 1].len();
        let ghost l1 = self.lines@;
        self.lines.push(last);
        let ghost l2 = self.lines@;
        let ghost r1 = rest@;
        self.lines.append(&mut rest);
        let total = self.lines.len();
        assert(row + n - 1 < total);
        self.row = row + n - 1;
        self.col = last_len;
        proof {
            lemma_view_push(l1, last);
            assert(lines_view(before) =~= m.lines.take(row as int));
            assert(lines_view(r1) =~= lines_view(full).skip(row + 1));
            assert(lines_view(self.lines@) =~= lines_view(l2) + lines_view(r1));
            assert(lines_view(self.lines@) =~= m.lines.take(row as int) + seq![head@ + lines_view(parts@)[0]]
                + lines_view(parts@).subrange(1, n - 1) + seq![lines_view(parts@)[n - 1] + tail@]
                + m.lines.skip(row + 1));
            assert(self@.lines[self.row as int] == lines_view(parts@)[n - 1] + tail@);
            assert(lines_view(parts@)[n - 1] == parts@[n - 1]@);
        }
    }

    /// Split the line at the cursor.
    pub fn newline(&mut self)
        requires
            old(self).wf(),
        ensures
            final(self)@ == old(self)@.newline(),
            final(self).wf(),
    {
        self.push_undo();
        self.last_was_typing = false;
        let ghost m = self@;
        let ghost v0 = self.lines@;
        let row = self.row;
        let cur = self.lines[row].as_slice();
        let head = sub_chars(cur, 0, self.col);
        let tail = sub_chars(cur, self.col, cur.len());
        self.lines.set(row, head);
        let ghost v1 = self.lines@;
        let _n = self.lines.len();
        self.lines.insert(row + 1, tail);
        self.row = row + 1;
        self.col = 0;
        proof {
            lemma_view_update(v0, row as int, head);
            assert(lines_view(self.lines@) =~= lines_view(v1).insert(row + 1, tail@));
            assert(lines_view(self.lines@) =~= m.lines.take(row as int) + seq![
                m.cur().take(m.col),
                m.cur().skip(m.col),
            ] + m.lines.skip(row + 1));
        }
    }

    /// Backspace; returns whether anything was removed.
    pub fn backspace(&mut self) -> (r: bool)
        requires
            old(self).wf(),
        ensures
            final(self)@ == old(self)@.backspace(),
            r == old(self)@.can_backspace(),
            final(self).wf(),
    {
        self.last_was_typing = false;
        if self.col > 0 {
            self.push_undo();
            let mut l = crate::text::copy_chars(self.lines[self.row].as_slice());
            l.remove(self.col - 1);
            let col = self.col - 1;
            self.replace_cur(l, col);
            return true;
        }
        if self.row > 0 {
            self.push_undo();
            let ghost m = self@;
            let ghost v0 = self.lines@;
            let row = self.row;
            let cur = self.lines.remove(row);
            let ghost v1 = self.lines@;
            let prev_len = self.lines[row - 1].len();
            let joined = concat_chars(self.lines[row - 1].as_slice(), cur.as_slice());
            self.lines.set(row - 1, joined);
            self.row = row - 1;
            self.col = prev_len;
            proof {
                lemma_view_update(v1, row - 1, joined);
                assert(lines_view(v1) =~= lines_view(v0).remove(row as int));
                assert(lines_view(self.lines@) =~= m.lines.take(row - 1) + seq![
                    m.lines[row - 1] + m.cur(),
                ] + m.lines.skip(row + 1));
            }
            return true;
        }
        false
    }

    /// Delete the character under the cursor; returns whether anything was removed.
    pub fn delete_forward(&mut self) -> (r: bool)
        requires
            old(self).wf(),
        ensures
            final(self)@ == old(self)@.delete_forward(),
            r == old(self)@.can_delete_forward(),
            final(self).wf(),
    {
        self.last_was_typing = false;
        let len = self.lines[self.row].len();
        if self.col < len {
            self.push_undo();
            let mut l = crate::text::copy_chars(self.lines[self.row].as_slice());
            l.remove(self.col);
            let col = self.col;
            self.replace_cur(l, col);
            return true;
        }
        if self.row < self.lines.len() - 1 {
            self.push_undo();
            let ghost m = self@;
            let ghost v0 = self.lines@;
            let row = self.row;
            let next = self.lines.remove(row + 1);
            let ghost v1 = self.lines@;
            let joined = concat_chars(self.lines[row].as_slice(), next.as_slice());
            self.lines.set(row, joined);
            proof {
                lemma_view_update(v1, row as int, joined);
                assert(lines_view(v1) =~= lines_view(v0).remove(row + 1));
                assert(lines_view(self.lines@) =~= m.lines.take(row as int) + seq![
                    m.cur() + m.lines[row + 1],
                ] + m.lines.skip(row + 2));
            }
            return true;
        }
        false
    }

    /// `ctrl+k`: delete to the end of the line; at the end, join the next line.
    pub fn delete_to_line_end(&mut self)
        requires
            old(self).wf(),
        ensures
            final(self)@ == old(self)@.delete_to_line_end(),
            final(self).wf(),
    {
        let len = self.lines[self.row].len();
        if self.col < len {
            self.push_undo();
            self.last_was_typing = false;
            let l = sub_chars(self.lines[self.row].as_slice(), 0, self.col);
            let col = self.col;
            self.replace_cur(l, col);
            return;
        }
        if self.row < self.lines.len() - 1 {
            self.delete_forward();
        }
    }

    /// `ctrl+u`: delete to the start of the line.
    pub fn delete_to_line_start(&mut self)
        requires
            old(self).wf(),
        ensures
            final(self)@ == old(self)@.delete_to_line_start(),
            final(self).wf(),
    {
        if self.col > 0 {
            self.push_undo();
            self.last_was_typing = false;
            let cur = self.lines[self.row].as_slice();
            let l = sub_chars(cur, self.col, cur.len());
            assert(l@ =~= self@.cur().skip(self.col as int));
            self.replace_cur(l, 0);
        }
    }

    /// `ctrl+w`: delete the word before the cursor (words are split at
    /// whitespace, as in a shell).
    pub fn delete_word_backward(&mut self)
        requires
            old(self).wf(),
        ensures
            final(self)@ == old(self)@.delete_word_backward(),
            final(self).wf(),
    {
        if self.col == 0 && self.row > 0 {
            self.backspace();
            return;
        }
        if self.col == 0 {
            return;
        }
        self.push_undo();
        self.last_was_typing = false;
        let cur = self.lines[self.row].as_slice();
        let i = word_start_exec(cur, self.col);
        let a = sub_chars(cur, 0, i);
        let b = sub_chars(cur, self.col, cur.len());
        let l = concat_chars(a.as_slice(), b.as_slice());
        assert(a@ =~= self@.cur().take(i as int));
        assert(b@ =~= self@.cur().skip(self.col as int));
        self.replace_cur(l, i);
    }

    pub fn move_left(&mut self)
        requires
            old(self).wf(),
        ensures
            final(self)@ == old(self)@.move_left(),
            final(self).wf(),
    {
        if self.col > 0 {
            self.col = self.col - 1;
        } else if self.row > 0 {
            self.row = self.row - 1;
            self.col = self.lines[self.row].len();
        }
    }

    pub fn move_right(&mut self)
        requires
            old(self).wf(),
        ensures
            final(self)@ == old(self)@.move_right(),
            final(self).wf(),
    {
        let len = self.lines[self.row].len();
        if self.col < len {
            self.col = self.col + 1;
        } else if self.row < self.lines.len() - 1 {
            self.row = self.row + 1;
            self.col = 0;
        }
    }

    /// Up one line; on the first line, go to the line start.
    pub fn move_up(&mut self)
        requires
            old(self).wf(),
        ensures
            final(self)@ == old(self)@.move_up(),
            final(self).wf(),
    {
        if self.row > 0 {
            self.row = self.row - 1;
            let len = self.lines[self.row].len();
            if self.col > len {
                self.col = len;
            }
        } else {
            self.col = 0;
        }
    }

    /// Down one line; on the last line, go to the line end.
    pub fn move_down(&mut self)
        requires
            old(self).wf(),
        ensures
            final(self)@ == old(self)@.move_down(),
            final(self).wf(),
    {
        if self.row < self.lines.len() - 1 {
            self.row = self.row + 1;
            let len = self.lines[self.row].len();
            if self.col > len {
                self.col = len;
            }
        } else {
            self.col = self.lines[self.row].len();
        }
    }

    pub fn move_home(&mut self)
        requires
            old(self).wf(),
        ensures
            final(self)@ == (EditorModel { col: 0, ..old(self)@ }),
            final(self).wf(),
    {
        self.col = 0;
    }

    pub fn move_end(&mut self)
        requires
            old(self).wf(),
        ensures
            final(self)@ == (EditorModel { col: old(self)@.cur().len() as int, ..old(self)@ }),
            final(self).wf(),
    {
        self.col = self.lines[self.row].len();
    }

    /// `alt+b`: to the start of the previous word.
    pub fn word_backward(&mut self)
        requires
            old(self).wf(),
        ensures
            final(self)@ == old(self)@.word_backward(),
            final(self).wf(),
    {
        if self.col == 0 {
            return;
        }
        let i = word_start_exec(self.lines[self.row].as_slice(), self.col);
        self.col = i;
    }

    /// `alt+f`: to the start of the next word.
    pub fn word_forward(&mut self)
        requires
            old(self).wf(),
        ensures
            final(self)@ == old(self)@.word_forward(),
            final(self).wf(),
    {
        let i = next_word_exec(self.lines[self.row].as_slice(), self.col);
        self.col = i;
    }

    pub fn undo(&mut self)
        requires
            old(self).wf(),
        ensures
            final(self)@ == old(self)@.undo_step(),
            final(self).wf(),
    {
        let ghost u0 = self.undo@;
        let ghost r0 = self.redo@;
        match self.undo.pop_back() {
            None => {},
            Some(prev) => {
                let t = self.text_chars();
                self.redo.push(t);
                self.last_was_typing = false;
                proof {
                    assert(lines_view(self.undo@) =~= lines_view(u0).drop_last());
                    lemma_view_push(r0, t);
                }
                self.restore(prev.as_slice());
            },
        }
    }

    pub fn redo(&mut self)
        requires
            old(self).wf(),
        ensures
            final(self)@ == old(self)@.redo_step(),
            final(self).wf(),
    {
        let ghost u0 = self.undo@;
        let ghost r0 = self.redo@;
        match self.redo.pop() {
            None => {},
            Some(next) => {
                let t = self.text_chars();
                self.undo.push_back(t);
                self.last_was_typing = false;
                proof {
                    assert(lines_view(self.redo@) =~= lines_view(r0).drop_last());
                    assert(lines_view(self.undo@) =~= lines_view(u0).push(t@));
                }
                self.restore(next.as_slice());
            },
        }
    }
}

} // verus!

verus! {

/// Setting the content and reading it back gives the same text.
pub proof fn law_set_then_text(m: EditorModel, t: Seq<char>)
    ensures
        m.set(t).text() == t,
{
    lemma_join_split(t);
}

/// Restoring a text and reading it back gives the same text.
pub proof fn law_restored_text(m: EditorModel, t: Seq<char>)
    ensures
        m.restored(t).text() == t,
{
    lemma_join_split(t);
}

/// An undo right after an edit that recorded an undo point gives back the
/// text from before that edit.
pub proof fn law_undo_restores_text(m: EditorModel, next: EditorModel)
    requires
        m.wf(),
        next.undo == m.snapshot().undo,
    ensures
        next.undo_step().text() == m.text(),
{
    let u = m.undo.push(m.text());
    if u.len() > MAX_UNDO {
        assert(u.drop_first().last() == m.text());
    }
    lemma_join_split(m.text());
}

/// Undoing a line split gives back the text from before it.
pub proof fn law_undo_newline(m: EditorModel)
    requires
        m.wf(),
    ensures
        m.newline().undo_step().text() == m.text(),
{
    law_undo_restores_text(m, m.newline());
}

/// Undoing a paste gives back the text from before it.
pub proof fn law_undo_insert_str(m: EditorModel, s: Seq<char>)
    requires
        m.wf(),
        s.len() > 0,
    ensures
        m.insert_str(s).undo_step().text() == m.text(),
{
    law_undo_restores_text(m, m.insert_str(s));
}

/// Undoing a replacement of the whole content gives back the old text.
pub proof fn law_undo_set(m: EditorModel, t: Seq<char>)
    requires
        m.wf(),
    ensures
        m.set(t).undo_step().text() == m.text(),
{
    law_undo_restores_text(m, m.set(t));
}

/// A redo right after an undo gives back the text the undo replaced.
pub proof fn law_redo_after_undo(m: EditorModel)
    requires
        m.wf(),
        m.undo.len() > 0,
    ensures
        m.undo_step().redo_step().text() == m.text(),
{
    lemma_join_split(m.text());
}

/// Any new edit that records an undo point empties the redo stack.
pub proof fn law_edit_voids_redo(m: EditorModel)
    ensures
        m.snapshot().redo.len() == 0,
{
}

/// Clearing an editor that is already empty records no undo point.
pub proof fn law_clear_empty_is_noop(m: EditorModel)
    requires
        m.is_empty(),
    ensures
        m.clear() == m,
{
}


/// Setting the content puts the cursor at its very end, on the last of
/// its lines (one more than it has line breaks), and the text reads back.
pub proof fn law_set_cursor(m: EditorModel, t: Seq<char>)
    ensures
        m.set(t).lines.len() == crate::lines::nl_count(t) + 1,
        m.set(t).row == m.set(t).lines.len() - 1,
        m.set(t).col == m.set(t).lines[m.set(t).row].len(),
        m.set(t).text() == t,
{
    crate::lines::law_split_count(t);
    lemma_join_split(t);
}


/// The cursor's position in the whole text, in characters.
pub open spec fn cursor_offset(m: EditorModel) -> int {
    if m.row == 0 {
        m.col
    } else {
        join_lines(m.lines.take(m.row)).len() + 1 + m.col
    }
}

proof fn lemma_text_at_cursor(m: EditorModel)
    requires
        m.wf(),
    ensures
        m.lines =~= m.lines.take(m.row) + seq![m.cur()] + m.lines.skip(m.row + 1),
        m.text() == crate::lines::lines_before(m.lines.take(m.row)) + m.cur() + crate::lines::lines_after(
            m.lines.skip(m.row + 1),
        ),
        cursor_offset(m) == crate::lines::lines_before(m.lines.take(m.row)).len() + m.col,
{
    let a = m.lines.take(m.row);
    let b = m.lines.skip(m.row + 1);
    assert(m.lines =~= a + seq![m.cur()] + b);
    crate::lines::lemma_join_around(a, seq![m.cur()], b);
}

/// Pasting inserts the text at the cursor, character for character, and
/// leaves the cursor just after it.
pub proof fn law_insert_str_at_cursor(m: EditorModel, s: Seq<char>)
    requires
        m.wf(),
        s.len() > 0,
    ensures
        m.insert_str(s).text() == m.text().take(cursor_offset(m)) + s + m.text().skip(cursor_offset(m)),
        cursor_offset(m.insert_str(s)) == cursor_offset(m) + s.len(),
{
    lemma_text_at_cursor(m);
    let a = m.lines.take(m.row);
    let b = m.lines.skip(m.row + 1);
    let pre = crate::lines::lines_before(a);
    let post = crate::lines::lines_after(b);
    let head = m.cur().take(m.col);
    let tail = m.cur().skip(m.col);
    let off = cursor_offset(m);
    assert(m.cur() =~= head + tail);
    assert(m.text() =~= pre + head + tail + post);
    assert(m.text().take(off) =~= pre + head);
    assert(m.text().skip(off) =~= tail + post);
    let parts = split_lines(s);
    lemma_split_nonempty(s);
    lemma_join_split(s);
    let n = parts.len();
    let r = m.insert_str(s);
    if n == 1 {
        assert(join_lines(parts) == parts[0]);
        let mid = head + parts[0] + tail;
        assert(r.lines =~= a + seq![mid] + b);
        crate::lines::lemma_join_around(a, seq![mid], b);
        assert(r.text() =~= pre + head + s + tail + post);
        assert(r.lines.take(r.row) =~= a);
    } else {
        let mm = parts.update(0, head + parts[0]).update(n - 1, parts[n - 1] + tail);
        assert(r.lines =~= a + mm + b);
        crate::lines::lemma_join_prepend_first(parts, head);
        let p1 = parts.update(0, head + parts[0]);
        crate::lines::lemma_join_extend_last(p1, tail);
        assert(p1.update(p1.len() - 1, p1.last() + tail) =~= mm);
        crate::lines::lemma_join_around(a, mm, b);
        assert(r.text() =~= pre + head + s + tail + post);
        let m1 = mm.drop_last();
        assert(r.lines.take(r.row) =~= a + m1);
        crate::lines::lemma_join_around(a, m1, Seq::empty());
        assert(a + m1 + Seq::<Seq<char>>::empty() =~= a + m1);
        assert(mm.drop_last() =~= m1);
        assert(join_lines(mm) == join_lines(m1) + seq!['\n'] + mm.last());
        assert(crate::lines::lines_after(Seq::<Seq<char>>::empty()) =~= Seq::<char>::empty());
    }
}


proof fn lemma_back_ws(l: Seq<char>, i: int)
    requires
        0 <= i <= l.len(),
    ensures
        0 <= back_ws(l, i) <= i,
        forall|j: int| back_ws(l, i) <= j < i ==> is_ws(#[trigger] l[j]),
        back_ws(l, i) == 0 || !is_ws(l[back_ws(l, i) - 1]),
    decreases i,
{
    if 0 < i && is_ws(l[i - 1]) {
        lemma_back_ws(l, i - 1);
    }
}

proof fn lemma_back_word(l: Seq<char>, i: int)
    requires
        0 <= i <= l.len(),
    ensures
        0 <= back_word(l, i) <= i,
        forall|j: int| back_word(l, i) <= j < i ==> !is_ws(#[trigger] l[j]),
        back_word(l, i) == 0 || is_ws(l[back_word(l, i) - 1]),
    decreases i,
{
    if 0 < i && !is_ws(l[i - 1]) {
        lemma_back_word(l, i - 1);
    }
}

/// `alt+b` moves to the start of the word before the cursor: it skips the
/// blanks just before the cursor, then the word, stopping at the line's
/// start or just after a blank.
pub proof fn law_word_backward(m: EditorModel)
    requires
        m.wf(),
        m.col > 0,
    ensures
        ({
            let l = m.cur();
            let w = m.word_backward().col;
            let b = back_ws(l, m.col);
            &&& 0 <= w <= b <= m.col
            &&& forall|j: int| b <= j < m.col ==> is_ws(#[trigger] l[j])
            &&& forall|j: int| w <= j < b ==> !is_ws(#[trigger] l[j])
            &&& (w == 0 || is_ws(l[w - 1]))
            &&& (b == 0 || !is_ws(l[b - 1]))
        }),
        m.word_backward().lines == m.lines,
        m.word_backward().row == m.row,
{
    lemma_back_ws(m.cur(), m.col);
    lemma_back_word(m.cur(), back_ws(m.cur(), m.col));
}


/// An undo right after a redo gives back the text the redo replaced.
pub proof fn law_undo_after_redo(m: EditorModel)
    requires
        m.wf(),
        m.redo.len() > 0,
    ensures
        m.redo_step().undo_step().text() == m.text(),
{
    lemma_join_split(m.text());
}

/// With nothing to undo (or to redo) the step changes nothing.
pub proof fn law_empty_stacks_do_nothing(m: EditorModel)
    ensures
        m.undo.len() == 0 ==> m.undo_step() == m,
        m.redo.len() == 0 ==> m.redo_step() == m,
{
}

/// An undo moves one snapshot from the undo stack to the redo stack, and a
/// redo moves it back.
pub proof fn law_undo_redo_depths(m: EditorModel)
    ensures
        m.undo.len() > 0 ==> m.undo_step().undo.len() == m.undo.len() - 1 && m.undo_step().redo.len()
            == m.redo.len() + 1,
        m.redo.len() > 0 ==> m.redo_step().redo.len() == m.redo.len() - 1 && m.redo_step().undo.len()
            == m.undo.len() + 1,
{
}

} // verus!
