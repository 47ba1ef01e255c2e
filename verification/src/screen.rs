//! The terminal screen: what the session has shown so far (facts) turned
//! into transcript lines, and the whole frame laid out on a grid.
use vstd::prelude::*;
use crate::tui::Tone;
use crate::markdown::{Line, line_view, lines_of, render_of, sat_sub};
use crate::width::{seq_width, wrapped, wrap_to_width, display_width, fit_len};
use crate::framing::{dec_of, push_dec};
use crate::text::{push_str, push_char, starts_with, starts_with_exec, chars_of, string_of, owned, trim};
use crate::lines::{text_lines, lines_view, text_lines_exec};
use crate::paint::{centre_col, put_segs, styled_width, seg_views, ColorMode, Grid, Pal, Cells, at, gradient_step, no_newline_cells, no_nl, tones_from, blank_span, lemma_cell_in_grid, put_run};
use crate::tui::{About, TrustPrompt, Regions, chrome_rows, chrome_rows_of, body_cols_of,
    truncate_left, truncated_left_of, available_rows, MAX_INPUT_ROWS, SIDEBAR_COLS, SIDEBAR_MIN_COLS};
use crate::editor::Editor;
use crate::popup::{Popup, Item};
use crate::view::TranscriptView;
use crate::theme::ThemeName;

verus! {

// ── facts ────────────────────────────────────────────────────────────

/// Progress of a to-do item.
#[derive(Debug, Clone, Copy, PartialEq, Eq, Structural)]
pub enum TodoStatus {
    Pending,
    InProgress,
    Completed,
}

/// One item of the agent's to-do list.
#[derive(Debug, Clone)]
pub struct TodoEntry {
    pub content: String,
    pub status: TodoStatus,
}

/// One changed file, with its line counts.
#[derive(Debug, Clone)]
pub struct FileChange {
    pub path: String,
    pub additions: usize,
    pub deletions: usize,
}

/// Something the session showed the user, as the screen reads it.
#[derive(Debug, Clone)]
pub enum Fact {
    UserSaid(String),
    AssistantSaid(String),
    ToolFinished { name: String, exit_code: i32 },
    PatchPreview { path: String, diff: String },
    TodoList(Vec<TodoEntry>),
    FilesChanged(Vec<FileChange>),
    ApprovalNeeded { detail: String },
    Failed(String),
    TurnFinished { input_tokens: u64, output_tokens: u64 },
    SessionReady { session_id: String },
}

/// A transcript line as segments `(column, text, tone)`.
pub type Seg = (usize, String, Tone);

/// A model line: `(column, text, tone)` segments.
pub type Row = Seq<(int, Seq<char>, Tone)>;

/// Decimal text of a signed number.
pub open spec fn int_dec(n: int) -> Seq<char> {
    if n < 0 {
        seq!['-'] + dec_of((-n) as nat)
    } else {
        dec_of(n as nat)
    }
}

fn push_int(s: &mut String, n: i32)
    ensures
        final(s)@ == old(s)@ + int_dec(n as int),
{
    if n < 0 {
        push_char(s, '-');
        let m: i64 = -(n as i64);
        push_dec(s, m as u64);
        assert(old(s)@ + int_dec(n as int) =~= old(s)@.push('-') + dec_of((-n) as nat));
    } else {
        push_dec(s, n as u64);
    }
}

/// Texts short enough that every width and column computed from them fits
/// a machine word (a width is at most twice the length).
pub open spec fn text_fits(s: Seq<char>) -> bool {
    4 * s.len() + 16 <= usize::MAX
}

/// Sum of the additions and of the deletions of changed files.
pub open spec fn adds_of(fs: Seq<FileChange>) -> nat
    decreases fs.len(),
{
    if fs.len() == 0 {
        0
    } else {
        adds_of(fs.drop_last()) + fs.last().additions as nat
    }
}

pub open spec fn dels_of(fs: Seq<FileChange>) -> nat
    decreases fs.len(),
{
    if fs.len() == 0 {
        0
    } else {
        dels_of(fs.drop_last()) + fs.last().deletions as nat
    }
}

/// A changed file whose path fits, and whose counts fit the sidebar
/// (` +a -d` within its 32 columns).
pub open spec fn file_fits(f: FileChange) -> bool {
    &&& text_fits(f.path@)
    &&& dec_of(f.additions as nat).len() + dec_of(f.deletions as nat).len() <= 28
}

/// A fact whose texts and totals stay within machine limits.
pub open spec fn fact_fits(f: Fact) -> bool {
    match f {
        Fact::UserSaid(t) => text_fits(t@),
        Fact::AssistantSaid(t) => text_fits(t@),
        Fact::ToolFinished { name, .. } => text_fits(name@),
        Fact::FilesChanged(fs) => {
            &&& adds_of(fs@) <= usize::MAX
            &&& dels_of(fs@) <= usize::MAX
            &&& forall|i: int| 0 <= i < fs@.len() ==> file_fits(#[trigger] fs@[i])
        },
        Fact::TurnFinished { input_tokens, output_tokens } => (input_tokens + output_tokens) * 100
            <= u64::MAX,
        _ => true,
    }
}

/// The number of completed items.
pub open spec fn done_of(items: Seq<TodoEntry>) -> nat
    decreases items.len(),
{
    if items.len() == 0 {
        0
    } else {
        done_of(items.drop_last()) + if items.last().status == TodoStatus::Completed {
            1nat
        } else {
            0nat
        }
    }
}

/// A user message: its Markdown rendering two columns narrower, every line
/// behind a bar, then an empty line.
pub open spec fn user_rows(text: Seq<char>, inner: int) -> Seq<Row> {
    render_of(text, sat_sub(inner, 2)).map_values(|l: Row| barred(l)).push(Seq::empty())
}

pub open spec fn shift2(c: int) -> int {
    if c + 2 <= usize::MAX {
        c + 2
    } else {
        usize::MAX as int
    }
}

/// A line behind the user bar: the bar, a space, the line two columns right.
pub open spec fn barred(l: Row) -> Row {
    seq![(0int, "┃"@, Tone::Accent), (2int, " "@, Tone::Text)] + l.map_values(
        |p: (int, Seq<char>, Tone)| (shift2(p.0), p.1, p.2),
    )
}

/// The tone of a diff line: file headers and context muted, additions
/// green, removals red, hunk headers accented.
pub open spec fn diff_tone(l: Seq<char>) -> Tone {
    if starts_with(l, "+++"@) || starts_with(l, "---"@) {
        Tone::Muted
    } else if starts_with(l, "+"@) {
        Tone::Success
    } else if starts_with(l, "-"@) {
        Tone::Error
    } else if starts_with(l, "@@"@) {
        Tone::Accent
    } else {
        Tone::Muted
    }
}

/// Lines shown of a patch preview.
pub const DIFF_LINES: usize = 200;

/// Diff lines, each wrapped to `inner` columns at column 4 in its tone.
pub open spec fn diff_rows(ls: Seq<Seq<char>>, inner: int) -> Seq<Row>
    decreases ls.len(),
{
    if ls.len() == 0 {
        Seq::empty()
    } else {
        diff_rows(ls.drop_last(), inner) + wrapped(ls.last(), inner).map_values(
            |w: Seq<char>| seq![(4int, w, diff_tone(ls.last()))],
        )
    }
}

/// A patch preview: the path, at most `DIFF_LINES` diff lines, and how
/// many more there were.
pub open spec fn patch_rows(path: Seq<char>, diff: Seq<char>, inner: int) -> Seq<Row> {
    let all = text_lines(diff);
    let shown = if all.len() > DIFF_LINES { all.take(DIFF_LINES as int) } else { all };
    let head = seq![seq![(2int, "◆ "@ + path, Tone::Info)]];
    let more = if all.len() > DIFF_LINES {
        seq![seq![(4int, "… 另有 "@ + dec_of((all.len() - DIFF_LINES) as nat) + " 行改动未展示"@, Tone::Muted)]]
    } else {
        Seq::empty()
    };
    head + diff_rows(shown, inner) + more
}

pub open spec fn todo_mark(s: TodoStatus) -> (Seq<char>, Tone) {
    match s {
        TodoStatus::Completed => ("[✓]"@, Tone::Success),
        TodoStatus::InProgress => ("[•]"@, Tone::Warning),
        TodoStatus::Pending => ("[ ]"@, Tone::Muted),
    }
}

/// Each item as its mark and text, wrapped two columns narrower, at column 4.
pub open spec fn todo_item_rows(items: Seq<TodoEntry>, inner: int) -> Seq<Row>
    decreases items.len(),
{
    if items.len() == 0 {
        Seq::empty()
    } else {
        let it = items.last();
        let (mark, tone) = todo_mark(it.status);
        todo_item_rows(items.drop_last(), inner) + wrapped(mark + " "@ + it.content@, sat_sub(inner, 2)).map_values(
            |w: Seq<char>| seq![(4int, w, tone)],
        )
    }
}

/// A to-do list: a progress header, then the items.
pub open spec fn todo_rows(items: Seq<TodoEntry>, inner: int) -> Seq<Row> {
    seq![seq![(2int, "◇ 任务清单 "@ + dec_of(done_of(items)) + "/"@ + dec_of(items.len()), Tone::Info)]]
        + todo_item_rows(items, inner)
}

/// The transcript lines of one fact (`inner`: the text width).
pub open spec fn fact_rows(f: Fact, inner: int) -> Seq<Row> {
    match f {
        Fact::UserSaid(t) => user_rows(t@, inner),
        Fact::AssistantSaid(t) => render_of(t@, inner).push(Seq::empty()),
        Fact::ToolFinished { name, exit_code } => {
            let (icon, tone) = if exit_code == 0 {
                ("✓"@, Tone::Success)
            } else {
                ("✗"@, Tone::Error)
            };
            seq![seq![
                (2int, icon + " "@, tone),
                (4int, name@, Tone::Text),
                (4 + seq_width(name@) as int + 1, "exit "@ + int_dec(exit_code as int), Tone::Muted),
            ]]
        },
        Fact::PatchPreview { path, diff } => patch_rows(path@, diff@, inner),
        Fact::TodoList(items) => todo_rows(items@, inner),
        Fact::FilesChanged(fs) => seq![seq![(
            2int,
            "◆ 已修改 "@ + dec_of(fs@.len()) + " 个文件（+"@ + dec_of(adds_of(fs@)) + " -"@ + dec_of(
                dels_of(fs@),
            ) + "）"@,
            Tone::Info,
        )]],
        Fact::ApprovalNeeded { detail } => seq![seq![(2int, "△ 需要审批："@ + detail@, Tone::Warning)]],
        Fact::Failed(m) => seq![seq![(2int, "✗ "@ + m@, Tone::Error)]],
        Fact::TurnFinished { input_tokens, output_tokens } => seq![seq![(
            2int,
            "· "@ + dec_of(input_tokens as nat) + " in / "@ + dec_of(output_tokens as nat) + " out"@,
            Tone::Muted,
        )]],
        Fact::SessionReady { session_id } => seq![seq![(2int, "· 会话 "@ + session_id@, Tone::Muted)]],
    }
}

/// The transcript: each fact's lines in order.
pub open spec fn transcript_of(facts: Seq<Fact>, inner: int) -> Seq<Row>
    decreases facts.len(),
{
    if facts.len() == 0 {
        Seq::empty()
    } else {
        transcript_of(facts.drop_last(), inner) + fact_rows(facts.last(), inner)
    }
}

/// Appends one line to `out`.
fn push_line(out: &mut Vec<Line>, l: Line)
    ensures
        lines_of(final(out)@) == lines_of(old(out)@).push(line_view(l@)),
{
    let ghost o = lines_of(out@);
    out.push(l);
    assert(lines_of(out@) =~= o.push(line_view(l@)));
}

/// A one-segment line.
fn one_seg(col: usize, text: String, tone: Tone) -> (l: Line)
    ensures
        line_view(l@) == seq![(col as int, text@, tone)],
{
    let mut l: Line = Vec::new();
    l.push((col, text, tone));
    assert(line_view(l@) =~= seq![(col as int, text@, tone)]);
    l
}

/// `prefix` followed by `s`, as a new string.
fn cat(prefix: &str, s: &str) -> (r: String)
    ensures
        r@ == prefix@ + s@,
{
    let mut r = String::new();
    push_str(&mut r, prefix);
    push_str(&mut r, s);
    assert(r@ =~= prefix@ + s@);
    r
}

fn user_lines(text: &str, inner: usize, out: &mut Vec<Line>)
    requires
        text_fits(text@),
        inner + 16 <= usize::MAX,
    ensures
        lines_of(final(out)@) == lines_of(old(out)@) + user_rows(text@, inner as int),
{
    let body = crate::markdown::render(text, inner.saturating_sub(2));
    let ghost bv = lines_of(body@);
    let ghost o0 = lines_of(out@);
    assert(bv == render_of(text@, sat_sub(inner as int, 2)));
    let mut k: usize = 0;
    while k < body.len()
        invariant
            k <= body@.len(),
            bv == lines_of(body@),
            lines_of(out@) == o0 + bv.take(k as int).map_values(|l: Row| barred(l)),
        decreases body@.len() - k,
    {
        let src = &body[k];
        let mut seg: Line = Vec::new();
        seg.push((0, owned("┃"), Tone::Accent));
        seg.push((2, owned(" "), Tone::Text));
        let ghost pre = line_view(seg@);
        let mut j: usize = 0;
        while j < src.len()
            invariant
                j <= src@.len(),
                seg@.len() == 2 + j,
                line_view(seg@) == pre + line_view(src@).take(j as int).map_values(
                    |p: (int, Seq<char>, Tone)| (shift2(p.0), p.1, p.2),
                ),
            decreases src@.len() - j,
        {
            let (col, t, tone) = &src[j];
            let c2 = col.saturating_add(2);
            let ghost s0 = line_view(seg@);
            seg.push((c2, owned(t.as_str()), *tone));
            assert(line_view(seg@) =~= s0.push((c2 as int, t@, *tone)));
            assert(line_view(src@).take(j + 1) =~= line_view(src@).take(j as int).push(line_view(src@)[j as int]));
            assert(line_view(seg@) =~= pre + line_view(src@).take(j + 1).map_values(
                |p: (int, Seq<char>, Tone)| (shift2(p.0), p.1, p.2),
            ));
            j = j + 1;
        }
        assert(line_view(src@).take(src@.len() as int) =~= line_view(src@));
        assert(pre =~= seq![(0int, "┃"@, Tone::Accent), (2int, " "@, Tone::Text)]);
        assert(bv[k as int] == line_view(src@));
        push_line(out, seg);
        assert(bv.take(k + 1) =~= bv.take(k as int).push(bv[k as int]));
        assert(lines_of(out@) =~= o0 + bv.take(k + 1).map_values(|l: Row| barred(l)));
        k = k + 1;
    }
    assert(bv.take(body@.len() as int) =~= bv);
    let empty: Line = Vec::new();
    assert(line_view(empty@) =~= Seq::<(int, Seq<char>, Tone)>::empty());
    push_line(out, empty);
    assert(lines_of(out@) =~= o0 + user_rows(text@, inner as int));
}

fn diff_tone_exec(l: &[char]) -> (t: Tone)
    ensures
        t == diff_tone(l@),
{
    let p3 = chars_of("+++");
    let m3 = chars_of("---");
    let p1 = chars_of("+");
    let m1 = chars_of("-");
    let hh = chars_of("@@");
    if starts_with_exec(l, p3.as_slice()) || starts_with_exec(l, m3.as_slice()) {
        Tone::Muted
    } else if starts_with_exec(l, p1.as_slice()) {
        Tone::Success
    } else if starts_with_exec(l, m1.as_slice()) {
        Tone::Error
    } else if starts_with_exec(l, hh.as_slice()) {
        Tone::Accent
    } else {
        Tone::Muted
    }
}

/// Appends `ws` as lines at column 4 in `tone`.
fn push_wrapped(out: &mut Vec<Line>, ws: Vec<String>, tone: Tone)
    ensures
        lines_of(final(out)@) == lines_of(old(out)@) + ws@.map_values(|l: String| l@).map_values(
            |w: Seq<char>| seq![(4int, w, tone)],
        ),
{
    let ghost o0 = lines_of(out@);
    let ghost wv = ws@.map_values(|l: String| l@);
    let mut j: usize = 0;
    while j < ws.len()
        invariant
            j <= ws@.len(),
            wv == ws@.map_values(|l: String| l@),
            lines_of(out@) == o0 + wv.take(j as int).map_values(|w: Seq<char>| seq![(4int, w, tone)]),
        decreases ws@.len() - j,
    {
        push_line(out, one_seg(4, owned(ws[j].as_str()), tone));
        assert(wv.take(j + 1) =~= wv.take(j as int).push(wv[j as int]));
        assert(lines_of(out@) =~= o0 + wv.take(j + 1).map_values(|w: Seq<char>| seq![(4int, w, tone)]));
        j = j + 1;
    }
    assert(wv.take(ws@.len() as int) =~= wv);
}

fn patch_lines(path: &str, diff: &str, inner: usize, out: &mut Vec<Line>)
    ensures
        lines_of(final(out)@) == lines_of(old(out)@) + patch_rows(path@, diff@, inner as int),
{
    let ghost o0 = lines_of(out@);
    push_line(out, one_seg(2, cat("◆ ", path), Tone::Info));
    let all = text_lines_exec(diff);
    let ghost av = lines_view(all@);
    let n = if all.len() > DIFF_LINES {
        DIFF_LINES
    } else {
        all.len()
    };
    let ghost shown = if av.len() > DIFF_LINES { av.take(DIFF_LINES as int) } else { av };
    assert(shown =~= av.take(n as int));
    let ghost o1 = lines_of(out@);
    let mut k: usize = 0;
    while k < n
        invariant
            k <= n,
            n <= all@.len(),
            av == lines_view(all@),
            lines_of(out@) == o1 + diff_rows(av.take(k as int), inner as int),
        decreases n - k,
    {
        let l = &all[k];
        assert(av[k as int] == l@);
        let tone = diff_tone_exec(l.as_slice());
        let text = string_of(l.as_slice());
        let ws = wrap_to_width(text.as_str(), inner);
        push_wrapped(out, ws, tone);
        assert(av.take(k + 1).drop_last() =~= av.take(k as int));
        k = k + 1;
    }
    if all.len() > DIFF_LINES {
        let mut m = String::new();
        push_str(&mut m, "… 另有 ");
        push_dec(&mut m, (all.len() - DIFF_LINES) as u64);
        push_str(&mut m, " 行改动未展示");
        push_line(out, one_seg(4, m, Tone::Muted));
    }
    assert(lines_of(out@) =~= o0 + patch_rows(path@, diff@, inner as int));
}

fn todo_lines(items: &Vec<TodoEntry>, inner: usize, out: &mut Vec<Line>)
    ensures
        lines_of(final(out)@) == lines_of(old(out)@) + todo_rows(items@, inner as int),
{
    let ghost o0 = lines_of(out@);
    let mut done: usize = 0;
    let mut k: usize = 0;
    while k < items.len()
        invariant
            k <= items@.len(),
            done == done_of(items@.take(k as int)),
            done <= k,
        decreases items@.len() - k,
    {
        assert(items@.take(k + 1).drop_last() =~= items@.take(k as int));
        if items[k].status == TodoStatus::Completed {
            done = done + 1;
        }
        k = k + 1;
    }
    assert(items@.take(items@.len() as int) =~= items@);
    let mut h = String::new();
    push_str(&mut h, "◇ 任务清单 ");
    push_dec(&mut h, done as u64);
    push_str(&mut h, "/");
    push_dec(&mut h, items.len() as u64);
    push_line(out, one_seg(2, h, Tone::Info));
    let ghost o1 = lines_of(out@);
    let mut k: usize = 0;
    while k < items.len()
        invariant
            k <= items@.len(),
            lines_of(out@) == o1 + todo_item_rows(items@.take(k as int), inner as int),
        decreases items@.len() - k,
    {
        let it = &items[k];
        let (mark, tone) = match it.status {
            TodoStatus::Completed => ("[✓]", Tone::Success),
            TodoStatus::InProgress => ("[•]", Tone::Warning),
            TodoStatus::Pending => ("[ ]", Tone::Muted),
        };
        let mut text = String::new();
        push_str(&mut text, mark);
        push_str(&mut text, " ");
        push_str(&mut text, it.content.as_str());
        let ws = wrap_to_width(text.as_str(), inner.saturating_sub(2));
        push_wrapped(out, ws, tone);
        assert(items@.take(k + 1).drop_last() =~= items@.take(k as int));
        assert(text@ =~= mark@ + " "@ + it.content@);
        k = k + 1;
    }
    assert(items@.take(items@.len() as int) =~= items@);
    assert(lines_of(out@) =~= o0 + todo_rows(items@, inner as int));
}

fn files_line(fs: &Vec<FileChange>) -> (l: Line)
    requires
        adds_of(fs@) <= usize::MAX,
        dels_of(fs@) <= usize::MAX,
    ensures
        line_view(l@) == seq![(
            2int,
            "◆ 已修改 "@ + dec_of(fs@.len()) + " 个文件（+"@ + dec_of(adds_of(fs@)) + " -"@ + dec_of(
                dels_of(fs@),
            ) + "）"@,
            Tone::Info,
        )],
{
    let mut adds: usize = 0;
    let mut dels: usize = 0;
    let mut k: usize = 0;
    while k < fs.len()
        invariant
            k <= fs@.len(),
            adds == adds_of(fs@.take(k as int)),
            dels == dels_of(fs@.take(k as int)),
            adds_of(fs@) <= usize::MAX,
            dels_of(fs@) <= usize::MAX,
        decreases fs@.len() - k,
    {
        assert(fs@.take(k + 1).drop_last() =~= fs@.take(k as int));
        proof {
            lemma_sums_grow(fs@, k as int + 1);
        }
        adds = adds + fs[k].additions;
        dels = dels + fs[k].deletions;
        k = k + 1;
    }
    assert(fs@.take(fs@.len() as int) =~= fs@);
    let mut m = String::new();
    push_str(&mut m, "◆ 已修改 ");
    push_dec(&mut m, fs.len() as u64);
    push_str(&mut m, " 个文件（+");
    push_dec(&mut m, adds as u64);
    push_str(&mut m, " -");
    push_dec(&mut m, dels as u64);
    push_str(&mut m, "）");
    one_seg(2, m, Tone::Info)
}

/// Totals over a prefix never exceed the totals over the whole list.
proof fn lemma_sums_grow(fs: Seq<FileChange>, k: int)
    requires
        0 <= k <= fs.len(),
    ensures
        adds_of(fs.take(k)) <= adds_of(fs),
        dels_of(fs.take(k)) <= dels_of(fs),
    decreases fs.len() - k,
{
    if k < fs.len() {
        lemma_sums_grow(fs, k + 1);
        assert(fs.take(k + 1).drop_last() =~= fs.take(k));
    } else {
        assert(fs.take(k) =~= fs);
    }
}

fn tool_line(name: &str, exit_code: i32) -> (l: Line)
    requires
        text_fits(name@),
    ensures
        line_view(l@) == seq![
            (2int, (if exit_code == 0 { "✓"@ } else { "✗"@ }) + " "@, if exit_code == 0 { Tone::Success } else { Tone::Error }),
            (4int, name@, Tone::Text),
            (4 + seq_width(name@) as int + 1, "exit "@ + int_dec(exit_code as int), Tone::Muted),
        ],
{
    let (icon, tone) = if exit_code == 0 {
        ("✓ ", Tone::Success)
    } else {
        ("✗ ", Tone::Error)
    };
    proof {
        crate::width::lemma_width_at_most_twice_len(name@);
        reveal_strlit("✓ ");
        reveal_strlit("✗ ");
        reveal_strlit("✓");
        reveal_strlit("✗");
        reveal_strlit(" ");
    }
    let after = 4 + display_width(name);
    let mut e = String::new();
    push_str(&mut e, "exit ");
    push_int(&mut e, exit_code);
    let mut l: Line = Vec::new();
    l.push((2, owned(icon), tone));
    l.push((4, owned(name), Tone::Text));
    l.push((after + 1, e, Tone::Muted));
    assert("✓"@ + " "@ =~= "✓ "@);
    assert("✗"@ + " "@ =~= "✗ "@);
    assert(line_view(l@) =~= seq![
        (2int, (if exit_code == 0 { "✓"@ } else { "✗"@ }) + " "@, tone),
        (4int, name@, Tone::Text),
        (4 + seq_width(name@) as int + 1, "exit "@ + int_dec(exit_code as int), Tone::Muted),
    ]);
    l
}

/// The transcript lines of one fact, appended to `out`.
fn fact_block(f: &Fact, inner: usize, out: &mut Vec<Line>)
    requires
        fact_fits(*f),
        inner + 16 <= usize::MAX,
    ensures
        lines_of(final(out)@) == lines_of(old(out)@) + fact_rows(*f, inner as int),
{
    let ghost o0 = lines_of(out@);
    match f {
        Fact::UserSaid(text) => user_lines(text.as_str(), inner, out),
        Fact::AssistantSaid(text) => {
            let mut body = crate::markdown::render(text.as_str(), inner);
            let ghost bv = lines_of(body@);
            let ghost ov = out@;
            out.append(&mut body);
            assert(lines_of(out@) =~= o0 + bv);
            let empty: Line = Vec::new();
            assert(line_view(empty@) =~= Seq::<(int, Seq<char>, Tone)>::empty());
            push_line(out, empty);
        },
        Fact::ToolFinished { name, exit_code } => {
            push_line(out, tool_line(name.as_str(), *exit_code));
        },
        Fact::PatchPreview { path, diff } => patch_lines(path.as_str(), diff.as_str(), inner, out),
        Fact::TodoList(items) => todo_lines(items, inner, out),
        Fact::FilesChanged(fs) => push_line(out, files_line(fs)),
        Fact::ApprovalNeeded { detail } => {
            push_line(out, one_seg(2, cat("△ 需要审批：", detail.as_str()), Tone::Warning));
        },
        Fact::Failed(m) => push_line(out, one_seg(2, cat("✗ ", m.as_str()), Tone::Error)),
        Fact::TurnFinished { input_tokens, output_tokens } => {
            let mut m = String::new();
            push_str(&mut m, "· ");
            push_dec(&mut m, *input_tokens);
            push_str(&mut m, " in / ");
            push_dec(&mut m, *output_tokens);
            push_str(&mut m, " out");
            push_line(out, one_seg(2, m, Tone::Muted));
        },
        Fact::SessionReady { session_id } => {
            push_line(out, one_seg(2, cat("· 会话 ", session_id.as_str()), Tone::Muted));
        },
    }
    assert(lines_of(out@) =~= o0 + fact_rows(*f, inner as int));
}

/// The transcript as lines of segments, for a text area `body_cols` wide
/// (four columns go to margins): user messages behind a bar, assistant
/// replies as Markdown, tool results with ✓/✗ and their exit code, patch
/// previews coloured by line kind and cut after `DIFF_LINES` lines (saying
/// how many more), to-do lists with their progress, and one-line notes for
/// the rest.
pub fn fact_lines(facts: &[Fact], body_cols: usize) -> (r: Vec<Line>)
    requires
        body_cols + 16 <= usize::MAX,
        forall|i: int| 0 <= i < facts@.len() ==> fact_fits(#[trigger] facts@[i]),
    ensures
        lines_of(r@) == transcript_of(facts@, sat_sub(body_cols as int, 4)),
{
    let inner = body_cols.saturating_sub(4);
    let mut out: Vec<Line> = Vec::new();
    let mut k: usize = 0;
    assert(lines_of(out@) =~= Seq::<Row>::empty());
    while k < facts.len()
        invariant
            k <= facts@.len(),
            inner + 16 <= usize::MAX,
            inner as int == sat_sub(body_cols as int, 4),
            forall|i: int| 0 <= i < facts@.len() ==> fact_fits(#[trigger] facts@[i]),
            lines_of(out@) == transcript_of(facts@.take(k as int), inner as int),
        decreases facts@.len() - k,
    {
        fact_block(&facts[k], inner, &mut out);
        assert(facts@.take(k + 1).drop_last() =~= facts@.take(k as int));
        k = k + 1;
    }
    assert(facts@.take(facts@.len() as int) =~= facts@);
    out
}

/// The transcript as plain text, one string per line: the same lines as
/// on screen, so search hits land on the rows shown.
pub fn searchable_lines(facts: &[Fact], body_cols: usize) -> (r: Vec<String>)
    requires
        body_cols + 16 <= usize::MAX,
        forall|i: int| 0 <= i < facts@.len() ==> fact_fits(#[trigger] facts@[i]),
    ensures
        r@.len() == transcript_of(facts@, sat_sub(body_cols as int, 4)).len(),
        forall|i: int| 0 <= i < r@.len() ==> #[trigger] r@[i]@ == row_text(
            transcript_of(facts@, sat_sub(body_cols as int, 4))[i],
        ),
{
    let ls = fact_lines(facts, body_cols);
    let ghost lv = lines_of(ls@);
    let mut r: Vec<String> = Vec::new();
    let mut k: usize = 0;
    while k < ls.len()
        invariant
            k <= ls@.len(),
            lv == lines_of(ls@),
            r@.len() == k,
            forall|i: int| 0 <= i < k ==> #[trigger] r@[i]@ == row_text(lv[i]),
        decreases ls@.len() - k,
    {
        let l = &ls[k];
        let mut s = String::new();
        let mut j: usize = 0;
        assert(lv[k as int] == line_view(l@));
        while j < l.len()
            invariant
                j <= l@.len(),
                s@ == row_text(line_view(l@).take(j as int)),
            decreases l@.len() - j,
        {
            push_str(&mut s, l[j].1.as_str());
            assert(line_view(l@).take(j + 1).drop_last() =~= line_view(l@).take(j as int));
            j = j + 1;
        }
        assert(line_view(l@).take(l@.len() as int) =~= line_view(l@));
        r.push(s);
        k = k + 1;
    }
    r
}

/// The text of a line: its segments' texts joined.
pub open spec fn row_text(l: Row) -> Seq<char>
    decreases l.len(),
{
    if l.len() == 0 {
        Seq::empty()
    } else {
        row_text(l.drop_last()) + l.last().1
    }
}

// ── the frame ────────────────────────────────────────────────────────

/// Rows the input chrome needs at the least (one input line).
pub const CHROME_ROWS: usize = 6;

/// Narrowest terminal that shows the word mark.
pub const WORDMARK_MIN_COLS: usize = 32;

/// The hint row: only keys that work.
pub const HINT_LEFT: &'static str = "tab 补全  ctrl+f 搜索";
pub const HINT_RIGHT: &'static str = "@ 引用  pgup/pgdn 滚动  ctrl+c 退出";

/// What the approval prompt puts before the input.
pub const APPROVAL_PROMPT: &'static str = "y 批准 / n 拒绝 > ";

/// A piece of centred text and its tone.
pub type Styled = (String, Tone);

/// One frame of the terminal.
pub struct Screen<'a> {
    pub cols: usize,
    pub rows: usize,
    /// What the session has shown so far.
    pub facts: &'a [Fact],
    /// The input (multi-line editor).
    pub input: &'a Editor,
    /// Status text (right of the bottom line; empty: none).
    pub status: &'a str,
    /// An approval is pending: the box border turns to the warning colour.
    pub awaiting_input: bool,
    /// Show the terminal cursor in the input.
    pub show_cursor: bool,
    /// First-screen information, shown while there are no facts yet.
    pub about: Option<&'a About>,
    /// `Some`: the workspace trust prompt.
    pub trust: Option<&'a TrustPrompt>,
    pub theme: ThemeName,
    /// An open popup.
    pub popup: Option<&'a Popup>,
    /// A prepared page (help, keys) shown instead of the transcript.
    pub preformatted: Option<&'a Vec<Vec<Seg>>>,
    /// The sidebar is open (hidden anyway on narrow terminals).
    pub sidebar: bool,
    /// Transcript scrolling and search (`None`: follow the bottom).
    pub view: Option<&'a TranscriptView>,
    /// What colours the terminal shows.
    pub color: ColorMode,
}

/// The input box width for a text area `body` wide: four columns of
/// margin, at most 76; on very narrow areas two columns less, at least 8.
pub open spec fn box_width_of(body: int) -> int {
    if body >= 28 {
        if body - 4 < 76 { body - 4 } else { 76 }
    } else {
        let w = sat_sub(body, 2);
        if w > 8 { w } else { 8 }
    }
}

/// A frame whose cells, lines and cursor column fit machine words.
pub open spec fn frame_fits(cols: int, rows: int) -> bool {
    &&& cols <= usize::MAX / 8
    &&& rows <= usize::MAX / 8
    &&& cols * rows <= usize::MAX / 8
}

/// Prompt rows as `(indent, text, tone)`.
pub open spec fn rows_view(v: Seq<(usize, String, Tone)>) -> Seq<(int, Seq<char>, Tone)> {
    v.map_values(|r: (usize, String, Tone)| (r.0 as int, r.1@, r.2))
}

/// `text` wrapped to the prompt's width less `indent`, as rows at
/// `indent` in `tone`.
pub open spec fn trust_piece(cols: int, indent: int, text: Seq<char>, tone: Tone) -> Seq<(int, Seq<char>, Tone)> {
    wrapped(text, sat_sub(cols, 6 + indent)).map_values(|l: Seq<char>| (indent, l, tone))
}

pub open spec fn blank_row() -> (int, Seq<char>, Tone) {
    (0, Seq::empty(), Tone::Blank)
}

/// One of the two choices: the selected one marked `●` in the text tone,
/// the other `○`, muted.
pub open spec fn trust_option(label: Seq<char>, selected: bool) -> (int, Seq<char>, Tone) {
    if selected {
        (2, "●"@ + " "@ + label, Tone::Text)
    } else {
        (2, "○"@ + " "@ + label, Tone::Muted)
    }
}

/// The workspace shown in the trust prompt (empty without one).
pub open spec fn workspace_of(about: Option<&About>) -> Seq<char> {
    match about {
        Some(a) => a.workspace@,
        None => Seq::empty(),
    }
}

/// The prompt's rows: the workspace, the risk explained, the two choices
/// and the keys.
pub open spec fn trust_rows(cols: int, ws: Seq<char>, selected: int) -> Seq<(int, Seq<char>, Tone)> {
    trust_piece(cols, 0, "● 访问工作区："@, Tone::Info) + trust_piece(cols, 2, ws, Tone::Text) + seq![blank_row()]
        + trust_piece(cols, 0, TRUST_QUESTION@, Tone::Text) + trust_piece(cols, 0, TRUST_CHECK@, Tone::Muted)
        + trust_piece(cols, 0, TRUST_RISK@, Tone::Error) + seq![blank_row()] + trust_piece(
        cols,
        0,
        "◆"@,
        Tone::Accent,
    ) + seq![blank_row()] + seq![
        trust_option(TRUST_YES@, selected == 0),
        trust_option(TRUST_NO@, selected == 1),
    ] + seq![blank_row()] + trust_piece(cols, 2, TRUST_KEYS@, Tone::Border)
}

pub const TRUST_QUESTION: &'static str = "安全确认：这个目录是你自己创建或信任的吗？（自己的代码、知名开源项目、团队内部项目）";
pub const TRUST_CHECK: &'static str = "如果不是，请先检查这个目录里的内容 —— 接下来 Neo 能读取、编辑并执行其中的文件。";
pub const TRUST_RISK: &'static str = "如果这个目录含有恶意脚本，它们可以执行任意代码、读取、修改或窃取你的文件。";
pub const TRUST_YES: &'static str = "是的，我信任此目录";
pub const TRUST_NO: &'static str = "否，退出";
pub const TRUST_KEYS: &'static str = "↑/↓ 选择 · Enter 确认 · y/n 快捷 · Ctrl+C 退出";

/// `put` as the grid does it: rows past the bottom write nothing.
pub open spec fn put_at(c: Cells, cols: int, nrows: int, cap: int, row: int, col: int, text: Seq<char>, tone: Tone) -> Cells {
    if row < nrows {
        put_run(c, cols, cap, row, col, text, tone).0
    } else {
        c
    }
}

pub open spec fn sat_add_usize(a: int, b: int) -> int {
    if a + b > usize::MAX {
        usize::MAX as int
    } else {
        a + b
    }
}

/// The rows written from row `top` on, three columns in plus each row's
/// indent (empty rows write nothing).
pub open spec fn placed_rows(c: Cells, cols: int, nrows: int, cap: int, top: int, rs: Seq<(int, Seq<char>, Tone)>) -> Cells
    decreases rs.len(),
{
    if rs.len() == 0 {
        c
    } else {
        let prev = placed_rows(c, cols, nrows, cap, top, rs.drop_last());
        let r = rs.last();
        if r.1.len() != 0 {
            put_at(prev, cols, nrows, cap, sat_add_usize(top, rs.len() - 1), 3 + r.0, r.1, r.2)
        } else {
            prev
        }
    }
}

/// The bar `┃` in column 1 on rows `top` up to `r`.
pub open spec fn bar_rows(c: Cells, cols: int, nrows: int, cap: int, top: int, r: int) -> Cells
    decreases r - top,
{
    if r <= top {
        c
    } else {
        put_at(bar_rows(c, cols, nrows, cap, top, r - 1), cols, nrows, cap, r - 1, 1, "┃"@, Tone::Accent)
    }
}

/// The prompt drawn: its rows centred vertically, the bar beside them.
pub open spec fn trust_drawn(c: Cells, cols: int, nrows: int, cap: int, rs: Seq<(int, Seq<char>, Tone)>) -> Cells {
    let n = rs.len() as int;
    let top = sat_sub(nrows, n) / 2;
    let bottom = if top + n < nrows { top + n } else { nrows };
    bar_rows(placed_rows(c, cols, nrows, cap, top, rs), cols, nrows, cap, top, bottom)
}

/// One write on the grid: row, column, text and tone.
pub type Op = (int, int, Seq<char>, Tone);

/// The writes `ops` made one after another, as `put` makes them.
pub open spec fn apply_ops(c: Cells, cols: int, nrows: int, cap: int, ops: Seq<Op>) -> Cells
    decreases ops.len(),
{
    if ops.len() == 0 {
        c
    } else {
        let o = ops.last();
        put_at(apply_ops(c, cols, nrows, cap, ops.drop_last()), cols, nrows, cap, o.0, o.1, o.2, o.3)
    }
}

pub proof fn lemma_apply_push(c: Cells, cols: int, nrows: int, cap: int, ops: Seq<Op>, o: Op)
    ensures
        apply_ops(c, cols, nrows, cap, ops.push(o)) == put_at(
            apply_ops(c, cols, nrows, cap, ops),
            cols,
            nrows,
            cap,
            o.0,
            o.1,
            o.2,
            o.3,
        ),
{
    assert(ops.push(o).drop_last() =~= ops);
}

pub proof fn lemma_apply_concat(c: Cells, cols: int, nrows: int, cap: int, a: Seq<Op>, b: Seq<Op>)
    ensures
        apply_ops(c, cols, nrows, cap, a + b) == apply_ops(apply_ops(c, cols, nrows, cap, a), cols, nrows, cap, b),
    decreases b.len(),
{
    if b.len() == 0 {
        assert(a + b =~= a);
    } else {
        lemma_apply_concat(c, cols, nrows, cap, a, b.drop_last());
        assert((a + b).drop_last() =~= a + b.drop_last());
        assert((a + b).last() == b.last());
    }
}

/// The token use of the latest finished turn (none yet: zero and zero).
pub open spec fn last_usage(facts: Seq<Fact>) -> (u64, u64)
    decreases facts.len(),
{
    if facts.len() == 0 {
        (0, 0)
    } else {
        match facts.last() {
            Fact::TurnFinished { input_tokens, output_tokens } => (input_tokens, output_tokens),
            _ => last_usage(facts.drop_last()),
        }
    }
}

/// The latest to-do list.
pub open spec fn latest_todo(facts: Seq<Fact>) -> Option<Seq<TodoEntry>>
    decreases facts.len(),
{
    if facts.len() == 0 {
        None
    } else {
        match facts.last() {
            Fact::TodoList(items) => Some(items@),
            _ => latest_todo(facts.drop_last()),
        }
    }
}

/// The latest set of changed files.
pub open spec fn latest_files(facts: Seq<Fact>) -> Option<Seq<FileChange>>
    decreases facts.len(),
{
    if facts.len() == 0 {
        None
    } else {
        match facts.last() {
            Fact::FilesChanged(fs) => Some(fs@),
            _ => latest_files(facts.drop_last()),
        }
    }
}

pub open spec fn limit_of(about: Option<&About>) -> u64 {
    match about {
        Some(a) => a.context_limit,
        None => 0,
    }
}

/// The share of the context window in use, as a percentage (at most 999).
pub open spec fn pct_of(used: int, limit: int) -> int {
    let q = used * 100 / limit;
    if q < 999 {
        q
    } else {
        999
    }
}

/// The window line: "上限未知" when the limit is unknown, else the share
/// in use, red from 90 %, yellow from 70 %.
pub open spec fn limit_line(used: int, limit: int) -> (Seq<char>, Tone) {
    if limit == 0 {
        ("上限未知"@, Tone::Muted)
    } else {
        let pct = pct_of(used, limit);
        (
            dec_of(pct as nat) + "% of "@ + dec_of(limit as nat),
            if pct >= 90 {
                Tone::Error
            } else if pct >= 70 {
                Tone::Warning
            } else {
                Tone::Muted
            },
        )
    }
}

/// The rule down the panel's left edge.
pub open spec fn rule_ops(nrows: int, x0: int) -> Seq<Op> {
    Seq::new(nrows as nat, |r: int| (r, x0, "│"@, Tone::Border))
}

/// The context section from row 1: its title (where there is room), the
/// latest turn's tokens and the window line; with the row after it.
pub open spec fn context_ops(facts: Seq<Fact>, about: Option<&About>, nrows: int, x0: int) -> (Seq<Op>, int) {
    let u = last_usage(facts);
    let title = if 1 < nrows {
        seq![(1int, x0 + 2, "Context"@, Tone::Text)]
    } else {
        Seq::empty()
    };
    let r: int = if 1 < nrows { 2 } else { 1 };
    let l = limit_line(u.0 + u.1, limit_of(about) as int);
    (
        title + seq![
            (r, x0 + 2, dec_of(u.0 as nat) + " in / "@ + dec_of(u.1 as nat) + " out"@, Tone::Muted),
            (r + 1, x0 + 2, l.0, l.1),
        ],
        r + 2,
    )
}

pub open spec fn sidebar_mark(st: TodoStatus) -> (Seq<char>, Tone) {
    match st {
        TodoStatus::Completed => ("✓"@, Tone::Success),
        TodoStatus::InProgress => ("•"@, Tone::Warning),
        TodoStatus::Pending => ("·"@, Tone::Muted),
    }
}

/// The first `n` to-do items from row `top`: the mark, then the text cut
/// to the panel.
pub open spec fn todo_item_ops(items: Seq<TodoEntry>, n: int, top: int, x0: int, inner: int) -> Seq<Op>
    decreases n,
{
    if n <= 0 {
        Seq::empty()
    } else {
        let it = items[n - 1];
        let m = sidebar_mark(it.status);
        let max = sat_sub(inner, 3);
        todo_item_ops(items, n - 1, top, x0, inner) + seq![
            (top + n - 1, x0 + 2, m.0, m.1),
            (top + n - 1, x0 + 4, it.content@.take(fit_len(it.content@, max, 0)), m.1),
        ]
    }
}

pub open spec fn min_int(a: int, b: int) -> int {
    if a < b {
        a
    } else {
        b
    }
}

/// A section title at `row` where there is room; with the row after it.
pub open spec fn title_ops(row: int, nrows: int, x0: int, title: Seq<char>) -> (Seq<Op>, int) {
    if row < nrows {
        (seq![(row, x0 + 2, title, Tone::Text)], row + 1)
    } else {
        (Seq::empty(), row)
    }
}

/// The to-do section after a blank row: "Todo done/total", up to 12 items
/// while rows remain, and how many more there are; with the row after it.
pub open spec fn todo_ops(facts: Seq<Fact>, nrows: int, x0: int, inner: int, row: int) -> (Seq<Op>, int) {
    match latest_todo(facts) {
        None => (Seq::empty(), row),
        Some(items) => {
            let t = title_ops(
                row + 1,
                nrows,
                x0,
                "Todo "@ + dec_of(done_of(items)) + "/"@ + dec_of(items.len()),
            );
            let n = min_int(min_int(items.len() as int, 12), sat_sub(nrows, t.1));
            let body = t.0 + todo_item_ops(items, n, t.1, x0, inner);
            let r = t.1 + n;
            if items.len() > 12 {
                (
                    body + seq![
                        (r, x0 + 2, "… 另 "@ + dec_of((items.len() - 12) as nat) + " 项"@, Tone::Muted),
                    ],
                    r + 1,
                )
            } else {
                (body, r)
            }
        },
    }
}

/// ` +a -d` for a changed file.
pub open spec fn counts_of(f: FileChange) -> Seq<char> {
    " +"@ + dec_of(f.additions as nat) + " -"@ + dec_of(f.deletions as nat)
}

/// One changed file on `row`: its path cut from the left to leave room for
/// the counts, and the counts right-aligned where they clear the path (red
/// for a file only shortened).
pub open spec fn file_row_ops(f: FileChange, row: int, x0: int, w: int) -> Seq<Op> {
    let counts = counts_of(f);
    let name = truncated_left_of(f.path@, sat_sub(w - 3, counts.len() as int));
    let cx = x0 + w - 2 - counts.len();
    let first = seq![(row, x0 + 2, name, Tone::Muted)];
    if cx > sat_add_usize(x0 + 2, seq_width(name) as int) {
        first + seq![
            (
                row,
                cx,
                trim(counts),
                if f.deletions > 0 && f.additions == 0 {
                    Tone::Error
                } else {
                    Tone::Success
                },
            ),
        ]
    } else {
        first
    }
}

pub open spec fn file_item_ops(fs: Seq<FileChange>, n: int, top: int, x0: int, w: int) -> Seq<Op>
    decreases n,
{
    if n <= 0 {
        Seq::empty()
    } else {
        file_item_ops(fs, n - 1, top, x0, w) + file_row_ops(fs[n - 1], top + n - 1, x0, w)
    }
}

/// The changed-files section after a blank row: its title, up to 10 files
/// while rows remain, and how many more there are.
pub open spec fn files_ops(facts: Seq<Fact>, nrows: int, x0: int, w: int, row: int) -> Seq<Op> {
    match latest_files(facts) {
        None => Seq::empty(),
        Some(fs) => {
            let t = title_ops(row + 1, nrows, x0, "Modified Files"@);
            let n = min_int(min_int(fs.len() as int, 10), sat_sub(nrows, t.1));
            let body = t.0 + file_item_ops(fs, n, t.1, x0, w);
            let r = t.1 + n;
            if fs.len() > 10 && r < nrows {
                body + seq![(r, x0 + 2, "… 另 "@ + dec_of((fs.len() - 10) as nat) + " 个"@, Tone::Muted)]
            } else {
                body
            }
        },
    }
}

/// The branch (the model when there is none) two rows from the bottom.
pub open spec fn footer_ops(about: Option<&About>, nrows: int, x0: int, inner: int) -> Seq<Op> {
    match about {
        Some(a) => if nrows > 2 {
            let label = if a.branch@.len() == 0 {
                a.model@
            } else {
                a.branch@
            };
            seq![(nrows - 2, x0 + 2, label.take(fit_len(label, inner, 0)), Tone::Border)]
        } else {
            Seq::empty()
        },
        None => Seq::empty(),
    }
}

/// Every write of the sidebar, in order.
pub open spec fn sidebar_ops(facts: Seq<Fact>, about: Option<&About>, cols: int, nrows: int, x0: int) -> Seq<Op> {
    let w = cols - x0;
    let c = context_ops(facts, about, nrows, x0);
    let t = todo_ops(facts, nrows, x0, w - 3, c.1);
    rule_ops(nrows, x0) + c.0 + t.0 + files_ops(facts, nrows, x0, w, t.1) + footer_ops(about, nrows, x0, w - 3)
}

/// `c` with the cells `lo..hi` turned to blanks in `tone`.
pub open spec fn blanked(c: Cells, lo: int, hi: int, tone: Tone) -> Cells {
    Cells {
        ch: Seq::new(c.ch.len(), |j: int| if lo <= j < hi { ' ' } else { c.ch[j] }),
        tone: Seq::new(c.tone.len(), |j: int| if lo <= j < hi { tone } else { c.tone[j] }),
        skip: Seq::new(c.skip.len(), |j: int| if lo <= j < hi { false } else { c.skip[j] }),
    }
}

pub proof fn lemma_blank_span_is(h: Cells, g: Cells, lo: int, hi: int, tone: Tone)
    requires
        blank_span(h, g, lo, hi, tone),
        g.tone.len() == g.ch.len(),
        g.skip.len() == g.ch.len(),
    ensures
        h == blanked(g, lo, hi, tone),
{
    let b = blanked(g, lo, hi, tone);
    assert forall|j: int| 0 <= j < g.ch.len() implies h.tone[j] == b.tone[j] && h.skip[j] == b.skip[j] by {
        assert(h.ch[j] == (if lo <= j < hi { ' ' } else { g.ch[j] }));
    }
    assert(h.ch =~= b.ch);
    assert(h.tone =~= b.tone);
    assert(h.skip =~= b.skip);
}

/// `blank` as the grid does it: columns `lo` up to `hi` (cut at the
/// grid's width) of `row`; a row past the bottom writes nothing.
pub open spec fn blank_at(c: Cells, cols: int, nrows: int, row: int, lo: int, hi: int, tone: Tone) -> Cells {
    if row < nrows {
        blanked(c, at(cols, row, lo), at(cols, row, if hi < cols { hi } else { cols }), tone)
    } else {
        c
    }
}

/// Rows `from` up to `to` blanked from column `lo` up to `hi`.
pub open spec fn blank_rows(c: Cells, cols: int, nrows: int, from: int, to: int, lo: int, hi: int, tone: Tone) -> Cells
    decreases to - from,
{
    if to <= from {
        c
    } else {
        blank_at(blank_rows(c, cols, nrows, from, to - 1, lo, hi, tone), cols, nrows, to - 1, lo, hi, tone)
    }
}

/// The longest prefix of `s` that fits `max` columns.
pub open spec fn fit_prefix(s: Seq<char>, max: int) -> Seq<char> {
    s.take(fit_len(s, max, 0))
}

/// Display width, saturating at `usize::MAX`.
pub open spec fn sat_width(s: Seq<char>) -> int {
    if seq_width(s) <= usize::MAX {
        seq_width(s) as int
    } else {
        usize::MAX as int
    }
}

/// The example shown in the placeholder.
pub open spec fn example_of(about: Option<&About>) -> Seq<char> {
    match about {
        Some(a) => if a.example@.len() != 0 {
            a.example@
        } else {
            "输入任务"@
        },
        None => "输入任务"@,
    }
}

/// Mode and model under the input (`mode ⏵ model`, or the model alone).
pub open spec fn mode_line_of(about: Option<&About>) -> Seq<char> {
    match about {
        Some(a) => if a.mode_short@.len() != 0 {
            a.mode_short@ + " ⏵ "@ + a.model@
        } else {
            a.model@
        },
        None => Seq::empty(),
    }
}

/// The workspace (and branch) on the status row.
pub open spec fn ws_line_of(about: Option<&About>) -> Seq<char> {
    match about {
        Some(a) => if a.branch@.len() != 0 {
            a.workspace@ + ":"@ + a.branch@
        } else {
            a.workspace@
        },
        None => Seq::empty(),
    }
}

/// The writes for input lines `first` up to `first + n` on rows from
/// `top + 1`: the side borders, and the line (the approval prompt before
/// the first one while an approval is pending) cut to the box, or the
/// placeholder with its example on an empty single-line input.
pub open spec fn input_line_ops(
    lines: Seq<Seq<char>>,
    first: int,
    n: int,
    top: int,
    left: int,
    box_w: int,
    border: Tone,
    awaiting: bool,
    example: Seq<char>,
) -> Seq<Op>
    decreases n,
{
    if n <= 0 {
        Seq::empty()
    } else {
        let i = first + n - 1;
        let rr = top + 1 + (n - 1);
        let inner_w = sat_sub(box_w, 4);
        let text = if lines[i].len() == 0 && lines.len() == 1 && !awaiting {
            (fit_prefix("输入任务… 例："@ + example, inner_w), Tone::Muted)
        } else {
            let prefix = if awaiting && i == first {
                APPROVAL_PROMPT@
            } else {
                Seq::empty()
            };
            (fit_prefix(prefix + lines[i], inner_w), Tone::Text)
        };
        input_line_ops(lines, first, n - 1, top, left, box_w, border, awaiting, example) + seq![
            (rr, left, "│"@, border),
            (rr, left + 2, text.0, text.1),
            (rr, left + box_w - 1, "│"@, border),
        ]
    }
}

/// How many input lines there are, on the box's last line row, where
/// some are hidden and the note fits.
pub open spec fn more_ops_of(top: int, shown: int, total: int, left: int, box_w: int) -> Seq<Op> {
    let more = "… 共 "@ + dec_of(total as nat) + " 行 "@;
    let mw = sat_width(more);
    if total > shown && left + box_w > sat_add_usize(mw, 4) {
        seq![(top + shown, left + box_w - mw - 2, more, Tone::Muted)]
    } else {
        Seq::empty()
    }
}

/// The mode and model row and the bottom edge.
pub open spec fn stat_ops_of(stat_row: int, left: int, box_w: int, border: Tone, mode: Seq<char>) -> Seq<Op> {
    let bar = repeat_seq("─"@, (box_w - 2) as nat);
    seq![
        (stat_row, left, "│"@, border),
        (stat_row, left + 2, fit_prefix(mode, sat_sub(box_w, 4)), Tone::Muted),
        (stat_row, left + box_w - 1, "│"@, border),
        (stat_row + 1, left, "╰"@, border),
        (stat_row + 1, left + 1, bar, border),
        (stat_row + 1, left + box_w - 1, "╯"@, border),
    ]
}

/// The key hints under the box: the left ones, and the right ones where
/// they clear them.
pub open spec fn hint_ops_of(hint_row: int, nrows: int, left: int, box_w: int) -> Seq<Op> {
    let hx = sat_sub(left + box_w, sat_add_usize(sat_width(HINT_RIGHT@), 2));
    if hint_row < nrows {
        seq![(hint_row, left + 2, HINT_LEFT@, Tone::Border)] + if hx > sat_add_usize(left + 2, sat_width(HINT_LEFT@)) {
            seq![(hint_row, hx, HINT_RIGHT@, Tone::Border)]
        } else {
            Seq::empty()
        }
    } else {
        Seq::empty()
    }
}

/// The status row: the workspace cut to the text area, and the status
/// right-aligned where both fit (warning colour while an approval is
/// pending).
pub open spec fn status_ops_of(
    status_row: int,
    nrows: int,
    body: int,
    ws_line: Seq<char>,
    status: Seq<char>,
    awaiting: bool,
) -> Seq<Op> {
    let ws_shown = fit_prefix(ws_line, sat_sub(body, 6));
    let wsw = sat_width(ws_shown);
    let stw = sat_width(status);
    if status_row < nrows {
        seq![(status_row, 2int, ws_shown, Tone::Dim)] + if !(status.len() == 0 || sat_add_usize(
            sat_add_usize(wsw, stw),
            4,
        ) > body) {
            seq![(status_row, body - stw - 2, status, if awaiting { Tone::Warning } else { Tone::Muted })]
        } else {
            Seq::empty()
        }
    } else {
        Seq::empty()
    }
}

/// A transcript segment's tone: the current search hit in the warning
/// colour, other hits in the success colour, else its own.
pub open spec fn hit_tone(cur: bool, hit: bool, t: Tone) -> Tone {
    if cur {
        Tone::Warning
    } else if hit {
        Tone::Success
    } else {
        t
    }
}

/// The first `k` segments of a transcript line on `row`.
pub open spec fn seg_ops(row: int, segs: Row, cur: bool, hit: bool, k: int) -> Seq<Op>
    decreases k,
{
    if k <= 0 {
        Seq::empty()
    } else {
        seg_ops(row, segs, cur, hit, k - 1) + seq![
            (row, segs[k - 1].0, segs[k - 1].1, hit_tone(cur, hit, segs[k - 1].2)),
        ]
    }
}

/// A transcript line on `row`, with the hit mark (`▶` on the current hit)
/// two columns from the text area's right edge where there is room.
pub open spec fn line_ops(row: int, segs: Row, cur: bool, hit: bool, body_cols: int) -> Seq<Op> {
    let x = sat_sub(body_cols, 2);
    seg_ops(row, segs, cur, hit, segs.len() as int) + if hit && x > 4 {
        seq![(row, x, if cur { "▶"@ } else { "│"@ }, if cur { Tone::Warning } else { Tone::Success })]
    } else {
        Seq::empty()
    }
}

/// Whether line `abs` is a search hit, and the current one.
pub open spec fn is_hit_line(hits: Seq<usize>, abs: int) -> bool {
    exists|j: int| 0 <= j < hits.len() && hits[j] == abs
}

pub open spec fn is_current_line(hits: Seq<usize>, current: Option<int>, abs: int) -> bool {
    match current {
        Some(c) => c < hits.len() && hits[c] == abs,
        None => false,
    }
}

/// Lines `start` up to `start + n` of `ls` on rows from `top`.
pub open spec fn window_ops(
    ls: Seq<Row>,
    start: int,
    top: int,
    n: int,
    hits: Seq<usize>,
    current: Option<int>,
    body_cols: int,
) -> Seq<Op>
    decreases n,
{
    if n <= 0 {
        Seq::empty()
    } else {
        let abs = start + n - 1;
        window_ops(ls, start, top, n - 1, hits, current, body_cols) + line_ops(
            top + n - 1,
            ls[abs],
            is_current_line(hits, current, abs),
            is_hit_line(hits, abs),
            body_cols,
        )
    }
}

/// A fresh grid's cells: blanks, never written.
pub open spec fn fresh_cells(n: int) -> Cells {
    Cells {
        ch: Seq::new(n as nat, |j: int| ' '),
        tone: Seq::new(n as nat, |j: int| Tone::Blank),
        skip: Seq::new(n as nat, |j: int| false),
    }
}

/// The starfield over every cell not written.
pub open spec fn stars_filled(c: Cells, cols: int) -> Cells {
    Cells {
        ch: Seq::new(c.ch.len(), |j: int| crate::paint::starred(c, cols, j).0),
        tone: Seq::new(c.tone.len(), |j: int| crate::paint::starred(c, cols, j).1),
        skip: c.skip,
    }
}

pub proof fn lemma_stars_filled(h: Cells, g: Cells, cols: int)
    requires
        crate::paint::stars_upto(h, g, cols, g.ch.len() as int),
        h.skip == g.skip,
        g.tone.len() == g.ch.len(),
    ensures
        h == stars_filled(g, cols),
{
    let b = stars_filled(g, cols);
    assert forall|j: int| 0 <= j < g.ch.len() implies h.tone[j] == b.tone[j] by {
        assert(h.ch[j] == crate::paint::starred(g, cols, j).0);
    }
    assert(h.ch =~= b.ch);
    assert(h.tone =~= b.tone);
}

/// The first `n` lines of a prepared page, from the second row.
pub open spec fn page_ops(ls: Seq<Row>, n: int) -> Seq<Op>
    decreases n,
{
    if n <= 0 {
        Seq::empty()
    } else {
        page_ops(ls, n - 1) + seg_ops(n, ls[n - 1], false, false, ls[n - 1].len() as int)
    }
}

/// How many lines of a prepared page fit above the chrome (a row is kept
/// for the note when it is cut).
pub open spec fn page_shown(len: int, nrows: int, chrome: int) -> int {
    let a1 = sat_sub(sat_sub(nrows, chrome), 1);
    if len < a1 { len } else { a1 }
}

/// A prepared page's writes: its lines, and a note of how many did not
/// fit.
pub open spec fn page_all_ops(ls: Seq<Row>, nrows: int, chrome: int) -> Seq<Op> {
    let shown = page_shown(ls.len() as int, nrows, chrome);
    page_ops(ls, shown) + if ls.len() > shown {
        seq![
            (
                shown + 1,
                2int,
                "… 还有 "@ + dec_of((ls.len() - shown) as nat) + " 行（终端太小，请放大窗口查看）"@,
                Tone::Border,
            ),
        ]
    } else {
        Seq::empty()
    }
}

/// One line centred on `row` (nothing on a row past the bottom).
pub open spec fn centred_at(c: Cells, cols: int, nrows: int, cap: int, row: int, line: (Seq<char>, Tone)) -> Cells {
    if row < nrows {
        put_segs(c, cols, cap, row, centre_col(cols, styled_width(seq![line])), seq![line]).0
    } else {
        c
    }
}

/// Lines centred one per row from row `top`.
pub open spec fn centred_rows(c: Cells, cols: int, nrows: int, cap: int, top: int, ls: Seq<(Seq<char>, Tone)>) -> Cells
    decreases ls.len(),
{
    if ls.len() == 0 {
        c
    } else {
        centred_at(centred_rows(c, cols, nrows, cap, top, ls.drop_last()), cols, nrows, cap, top + ls.len() - 1, ls.last())
    }
}

/// The column after writing `text` from column `c` (see `put_run`): the
/// same whatever the cells hold.
pub open spec fn run_end(cap: int, c: int, text: Seq<char>) -> int
    decreases text.len(),
{
    if text.len() == 0 {
        c
    } else {
        let w = crate::width::width_of(text[0]) as int;
        if w == 0 {
            run_end(cap, c, text.drop_first())
        } else if c + w > cap {
            c
        } else {
            run_end(cap, c + w, text.drop_first())
        }
    }
}

pub proof fn lemma_put_run_end(g: Cells, cols: int, cap: int, row: int, c: int, text: Seq<char>, tone: Tone)
    ensures
        put_run(g, cols, cap, row, c, text, tone).1 == run_end(cap, c, text),
    decreases text.len(),
{
    if text.len() > 0 {
        let w = crate::width::width_of(text[0]) as int;
        if w == 0 {
            lemma_put_run_end(g, cols, cap, row, c, text.drop_first(), tone);
        } else if c + w <= cap {
            lemma_put_run_end(
                crate::paint::place(g, at(cols, row, c), text[0], w, tone),
                cols,
                cap,
                row,
                c + w,
                text.drop_first(),
                tone,
            );
        }
    }
}

/// What `put` returns: the column after the text (the column itself on a
/// row past the bottom).
pub open spec fn put_end(nrows: int, cap: int, row: int, col: int, text: Seq<char>) -> int {
    if row < nrows {
        run_end(cap, col, text)
    } else {
        col
    }
}

/// A popup row of one item: the mark (`▸` on the selected one), the label
/// cut to the box, the detail right-aligned where it clears the label.
pub open spec fn item_row_ops(it: Item, sel: bool, row: int, left: int, box_w: int, nrows: int, cap: int) -> Seq<Op> {
    let inner = sat_sub(box_w, 4);
    let mark = if sel { "▸ "@ } else { "  "@ };
    let lt = if sel { Tone::Primary } else { Tone::Text };
    let label = fit_prefix(it.label@, sat_sub(inner, 2));
    let used = put_end(nrows, cap, row, left + 4, label);
    let d = fit_prefix(it.detail@, 34);
    let dx = sat_sub(left + box_w - 2, sat_width(d));
    let det = if it.detail@.len() != 0 && dx > sat_add_usize(used, 2) {
        seq![(row, dx, d, Tone::Muted)]
    } else {
        Seq::empty()
    };
    seq![(row, left, "│"@, Tone::BorderActive), (row, left + 2, mark, Tone::Primary), (row, left + 4, label, lt)]
        + det + seq![(row, left + box_w - 1, "│"@, Tone::BorderActive)]
}

/// Items `start` up to `start + k` on rows from `top + 2`.
pub open spec fn item_ops(
    items: Seq<Item>,
    selected: int,
    start: int,
    k: int,
    top: int,
    left: int,
    box_w: int,
    nrows: int,
    cap: int,
) -> Seq<Op>
    decreases k,
{
    if k <= 0 {
        Seq::empty()
    } else {
        item_ops(items, selected, start, k - 1, top, left, box_w, nrows, cap) + item_row_ops(
            items[start + k - 1],
            start + k - 1 == selected,
            top + 2 + k - 1,
            left,
            box_w,
            nrows,
            cap,
        )
    }
}

/// A popup's top edge and title row.
pub open spec fn popup_head_ops(top: int, left: int, box_w: int, title: Seq<char>) -> Seq<Op> {
    let bar = repeat_seq("─"@, (box_w - 2) as nat);
    seq![
        (top, left, "╭"@, Tone::BorderActive),
        (top, left + 1, bar, Tone::BorderActive),
        (top, left + box_w - 1, "╮"@, Tone::BorderActive),
        (top + 1, left, "│"@, Tone::BorderActive),
        (top + 1, left + 2, fit_prefix(title, sat_sub(box_w, 4)), Tone::Muted),
        (top + 1, left + box_w - 1, "│"@, Tone::BorderActive),
    ]
}

/// A popup's bottom edge on `row`.
pub open spec fn popup_edge_ops(row: int, left: int, box_w: int) -> Seq<Op> {
    let bar = repeat_seq("─"@, (box_w - 2) as nat);
    seq![
        (row, left, "╰"@, Tone::BorderActive),
        (row, left + 1, bar, Tone::BorderActive),
        (row, left + box_w - 1, "╯"@, Tone::BorderActive),
    ]
}

/// A boxed message row.
pub open spec fn popup_line_ops(row: int, left: int, box_w: int, text: Seq<char>) -> Seq<Op> {
    seq![
        (row, left, "│"@, Tone::BorderActive),
        (row, left + 2, text, Tone::Muted),
        (row, left + box_w - 1, "│"@, Tone::BorderActive),
    ]
}

/// The full popup's title (the kind alone on an empty query).
pub open spec fn popup_title(pop: Popup) -> Seq<char> {
    if pop.query@.len() == 0 {
        pop.kind.title_of()
    } else {
        pop.kind.title_of() + " · "@ + pop.query@
    }
}

/// The visible items from the scroll position, or a message on an empty
/// list.
pub open spec fn popup_list_ops(pop: Popup, top: int, left: int, box_w: int, visible: int, nrows: int, cap: int) -> Seq<Op> {
    let n = pop.items@.len() as int;
    if n == 0 {
        popup_line_ops(top + 2, left, box_w, if pop.query@.len() == 0 { "（无候选）"@ } else { "无匹配"@ })
    } else {
        item_ops(
            pop.items@,
            pop.selected as int,
            crate::popup::scroll_top_of(n, pop.selected as int, visible),
            visible,
            top,
            left,
            box_w,
            nrows,
            cap,
        )
    }
}

/// Below the list: how many more there are, the bottom edge, and the keys
/// where they fit above the chrome.
pub open spec fn popup_tail_ops(pop: Popup, top: int, left: int, box_w: int, visible: int, chrome_top: int) -> Seq<Op> {
    let n = pop.items@.len() as int;
    let row = if n == 0 { 3 } else { 2 + visible };
    let more = if pop.truncated && n != 0 {
        popup_line_ops(top + row, left, box_w, "↑↓ 还有 "@ + dec_of((n - visible) as nat) + " 项…"@)
    } else {
        Seq::empty()
    };
    let row2 = if pop.truncated && n != 0 { row + 1 } else { row };
    let keys = if top + row2 + 1 < chrome_top {
        seq![(top + row2 + 1, left + 2, POPUP_KEYS@, Tone::Border)]
    } else {
        Seq::empty()
    };
    more + popup_edge_ops(top + row2, left, box_w) + keys
}

pub open spec fn popup_full_ops(
    pop: Popup,
    top: int,
    left: int,
    box_w: int,
    visible: int,
    chrome_top: int,
    nrows: int,
    cap: int,
) -> Seq<Op> {
    popup_head_ops(top, left, box_w, popup_title(pop)) + popup_list_ops(pop, top, left, box_w, visible, nrows, cap)
        + popup_tail_ops(pop, top, left, box_w, visible, chrome_top)
}

pub const POPUP_KEYS: &'static str = "↑↓ 选择   Enter 确认   Esc 取消";

impl<'a> Screen<'a> {
    /// How many input lines the box shows.
    pub open spec fn shown_lines(&self) -> int {
        let total = self.input@.lines.len() as int;
        if total < MAX_INPUT_ROWS { total } else { MAX_INPUT_ROWS as int }
    }

    /// The box's left column.
    pub open spec fn chrome_left(&self) -> int {
        let body = body_cols_of(self.cols as int, self.sidebar);
        sat_sub(body, box_width_of(body)) / 2
    }

    /// The box's border tone: the warning colour while an approval is
    /// pending.
    pub open spec fn chrome_border(&self) -> Tone {
        if self.awaiting_input { Tone::Warning } else { Tone::BorderActive }
    }

    /// The popup's geometry above chrome at `chrome_top`: whether it is
    /// the compact form (no room for items), its top row and its height.
    pub open spec fn popup_frame(&self, pop: Popup, chrome_top: int) -> (bool, int, int) {
        let n = pop.items@.len() as int;
        let hint = if n == 0 { 1int } else { 0 };
        let foot = if pop.truncated { 1int } else { 0 };
        let visible = self.popup_visible(pop, chrome_top);
        let compact = sat_sub(chrome_top, 2) < 3 || n > 0 && visible == 0;
        let height = if compact { 3 + hint } else { 2 + visible + hint + foot };
        (compact, chrome_top - height - 1, height)
    }

    /// Every write of the popup after its box is blanked: the compact form
    /// is the title (`kind · query`) between the edges; the full form has
    /// the title (the kind alone on an empty query), the visible items (a
    /// message on an empty list), how many more there are, the bottom edge
    /// and the keys under it where they fit above the chrome.
    pub open spec fn popup_ops(&self, pop: Popup, chrome_top: int, cap: int) -> Seq<Op> {
        let body = body_cols_of(self.cols as int, self.sidebar);
        let box_w = box_width_of(body);
        let left = sat_sub(body, box_w) / 2;
        let visible = self.popup_visible(pop, chrome_top);
        let (compact, top, height) = self.popup_frame(pop, chrome_top);
        if compact {
            popup_head_ops(top, left, box_w, pop.kind.title_of() + " · "@ + pop.query@) + popup_edge_ops(top + 2, left, box_w)
        } else {
            popup_full_ops(pop, top, left, box_w, visible, chrome_top, self.rows as int, cap)
        }
    }

    /// The popup drawn above chrome at `chrome_top` (nothing where it does
    /// not fit): its box blanked, then its writes.
    pub open spec fn popup_drawn(&self, pop: Popup, c: Cells, cap: int, chrome_top: int) -> Cells {
        let cols = self.cols as int;
        let nrows = self.rows as int;
        let body = body_cols_of(cols, self.sidebar);
        let box_w = box_width_of(body);
        let left = sat_sub(body, box_w) / 2;
        let (compact, top, height) = self.popup_frame(pop, chrome_top);
        if chrome_top < height + 1 {
            c
        } else {
            let end = if top + height < nrows { top + height } else { nrows };
            let inside = blank_rows(c, cols, nrows, top, end, left, left + box_w, Tone::Text);
            apply_ops(inside, cols, nrows, cap, self.popup_ops(pop, chrome_top, cap))
        }
    }

    /// The box's top edge.
    pub open spec fn chrome_top_ops(&self, top: int) -> Seq<Op> {
        let body = body_cols_of(self.cols as int, self.sidebar);
        let box_w = box_width_of(body);
        let left = sat_sub(body, box_w) / 2;
        let border = if self.awaiting_input { Tone::Warning } else { Tone::BorderActive };
        let bar = repeat_seq("─"@, (box_w - 2) as nat);
        seq![(top, left, "╭"@, border), (top, left + 1, bar, border), (top, left + box_w - 1, "╮"@, border)]
    }

    /// The writes below the input lines: how many lines there are when
    /// some are hidden, the mode and model row, the bottom edge, the hint
    /// row and the status row.
    pub open spec fn chrome_tail_ops(&self, top: int) -> Seq<Op> {
        let body = body_cols_of(self.cols as int, self.sidebar);
        let box_w = box_width_of(body);
        let left = sat_sub(body, box_w) / 2;
        let border = if self.awaiting_input { Tone::Warning } else { Tone::BorderActive };
        let total = self.input@.lines.len() as int;
        let shown = if total < MAX_INPUT_ROWS { total } else { MAX_INPUT_ROWS as int };
        let stat_row = top + 1 + shown;
        more_ops_of(top, shown, total, left, box_w) + stat_ops_of(
            stat_row,
            left,
            box_w,
            border,
            mode_line_of(self.about),
        ) + hint_ops_of(stat_row + 2, self.rows as int, left, box_w) + status_ops_of(
            stat_row + 3,
            self.rows as int,
            body,
            ws_line_of(self.about),
            self.status@,
            self.awaiting_input,
        )
    }

    /// Every write of the chrome after the box's inside is blanked.
    pub open spec fn chrome_ops(&self, top: int) -> Seq<Op> {
        let body = body_cols_of(self.cols as int, self.sidebar);
        let box_w = box_width_of(body);
        let left = sat_sub(body, box_w) / 2;
        let border = if self.awaiting_input { Tone::Warning } else { Tone::BorderActive };
        let lines = self.input@.lines;
        let total = lines.len() as int;
        let shown = if total < MAX_INPUT_ROWS { total } else { MAX_INPUT_ROWS as int };
        input_line_ops(lines, total - shown, shown, top, left, box_w, border, self.awaiting_input, example_of(self.about))
            + self.chrome_tail_ops(top)
    }

    /// The chrome drawn from row `top` (nothing when it does not fit):
    /// the top edge, the box's inside blanked, then every other write.
    pub open spec fn chrome_drawn(&self, c: Cells, cap: int, top: int) -> Cells {
        let cols = self.cols as int;
        let nrows = self.rows as int;
        if top + CHROME_ROWS > nrows {
            c
        } else {
            let body = body_cols_of(cols, self.sidebar);
            let box_w = box_width_of(body);
            let left = sat_sub(body, box_w) / 2;
            let total = self.input@.lines.len() as int;
            let shown = if total < MAX_INPUT_ROWS { total } else { MAX_INPUT_ROWS as int };
            let area_bottom = top + 1 + shown + 1;
            let area_end = if area_bottom < nrows { area_bottom } else { nrows };
            let edged = apply_ops(c, cols, nrows, cap, self.chrome_top_ops(top));
            let inside = blank_rows(edged, cols, nrows, top + 1, area_end, left + 1, left + box_w - 1, Tone::Text);
            apply_ops(inside, cols, nrows, cap, self.chrome_ops(top))
        }
    }
}

impl<'a> Screen<'a> {
    pub open spec fn fits(&self) -> bool {
        &&& frame_fits(self.cols as int, self.rows as int)
        &&& self.input.wf()
        &&& self.input@.col <= usize::MAX / 8
        &&& forall|i: int| 0 <= i < self.facts@.len() ==> fact_fits(#[trigger] self.facts@[i])
    }

    /// Columns of the text area (the sidebar takes the right side when shown).
    pub fn body_cols(&self) -> (r: usize)
        ensures
            r == body_cols_of(self.cols as int, self.sidebar),
    {
        if self.sidebar && self.cols >= SIDEBAR_MIN_COLS {
            self.cols - SIDEBAR_COLS
        } else {
            self.cols
        }
    }

    /// Width of the input box (and of popups).
    pub fn box_width(&self) -> (r: usize)
        ensures
            r == box_width_of(body_cols_of(self.cols as int, self.sidebar)),
    {
        let avail = self.body_cols();
        if avail >= 28 {
            if avail - 4 < 76 {
                avail - 4
            } else {
                76
            }
        } else {
            let w = avail.saturating_sub(2);
            if w > 8 {
                w
            } else {
                8
            }
        }
    }

    /// Where the input cursor goes (1-based row and column) when the chrome
    /// starts at row `top`: on the editor's cursor, within the shown lines,
    /// after the approval prompt on its line. `None` when the chrome does
    /// not fit or the cursor is hidden.
    pub open spec fn cursor_at(&self, top: int) -> Option<(int, int)> {
        if top + CHROME_ROWS > self.rows || !self.show_cursor {
            None
        } else {
            let total = self.input@.lines.len() as int;
            let shown = if total < MAX_INPUT_ROWS { total } else { MAX_INPUT_ROWS as int };
            let first = total - shown;
            let crow = self.input@.row;
            let vis = if sat_sub(crow, first) < sat_sub(shown, 1) {
                sat_sub(crow, first)
            } else {
                sat_sub(shown, 1)
            };
            let prefix_w = if self.awaiting_input && crow == first {
                seq_width(APPROVAL_PROMPT@) as int
            } else {
                0
            };
            let body = body_cols_of(self.cols as int, self.sidebar);
            let left = sat_sub(body, box_width_of(body)) / 2;
            Some((top + 2 + vis, left + 3 + prefix_w + self.input@.col))
        }
    }

    /// The input box, the hint row and the status row, from row `top`:
    /// the box border turns to the warning colour while an approval is
    /// pending; the box shows the last `MAX_INPUT_ROWS` input lines (saying
    /// how many there are when some are hidden), a placeholder with an
    /// example on an empty input, and the mode and model below them. Gives
    /// the cursor position (see `cursor_at`).
    #[verifier::spinoff_prover]
    #[verifier::rlimit(60)]
    pub fn draw_chrome(&self, g: &mut Grid, top: usize) -> (cursor: Option<(usize, usize)>)
        requires
            self.fits(),
            old(g).wf(),
            no_newline_cells(old(g).cells()),
            old(g).cols == self.cols,
            old(g).rows == self.rows,
            top <= usize::MAX / 8,
        ensures
            final(g).wf(),
            no_newline_cells(final(g).cells()),
            final(g).cols == old(g).cols,
            final(g).rows == old(g).rows,
            final(g).put_limit == old(g).put_limit,
            final(g).cells() == self.chrome_drawn(old(g).cells(), old(g).cap(), top as int),
            match cursor {
                Some((r, c)) => self.cursor_at(top as int) == Some((r as int, c as int)),
                None => self.cursor_at(top as int) is None,
            },
    {
        if top + CHROME_ROWS > self.rows {
            return None;
        }
        let ghost c0 = g.cells();
        let ghost cols = g.cols as int;
        let ghost nrows = g.rows as int;
        let ghost cap = g.cap();
        let body = self.body_cols();
        let box_w = self.box_width();
        let left = body.saturating_sub(box_w) / 2;
        let inner_w = box_w.saturating_sub(4);
        let border = if self.awaiting_input {
            Tone::Warning
        } else {
            Tone::BorderActive
        };
        let bar = repeat_str("─", box_w - 2);
        let ghost mut ops: Seq<Op> = Seq::empty();
        let ghost o: Op = (top as int, left as int, "╭"@, border);
        g.put(top, left, "╭", border);
        proof {
            lemma_apply_push(c0, cols, nrows, cap, ops, o);
            ops = ops.push(o);
        }
        let ghost o: Op = (top as int, left + 1, bar@, border);
        g.put(top, left + 1, bar.as_str(), border);
        proof {
            lemma_apply_push(c0, cols, nrows, cap, ops, o);
            ops = ops.push(o);
        }
        let ghost o: Op = (top as int, left + box_w - 1, "╮"@, border);
        g.put(top, left + box_w - 1, "╮", border);
        proof {
            lemma_apply_push(c0, cols, nrows, cap, ops, o);
            ops = ops.push(o);
            assert(ops =~= self.chrome_top_ops(top as int));
        }
        let ghost edged = g.cells();

        let total = self.input.line_count();
        let shown = if total < MAX_INPUT_ROWS {
            total
        } else {
            MAX_INPUT_ROWS
        };
        let first = total - shown;
        let (crow, ccol) = self.input.cursor();
        let area_bottom = top + 1 + shown + 1;
        let area_end = if area_bottom < self.rows {
            area_bottom
        } else {
            self.rows
        };
        let mut r = top + 1;
        while r < area_end
            invariant
                g.wf(),
                no_newline_cells(g.cells()),
                g.cols == self.cols,
                g.rows == self.rows,
                g.put_limit == old(g).put_limit,
                g.cap() == cap,
                cols == self.cols,
                nrows == self.rows,
                top + 1 <= r <= area_end,
                frame_fits(self.cols as int, self.rows as int),
                left + box_w <= (if body < 8 { 8 } else { body }),
                box_w >= 8,
                body <= self.cols,
                g.cells() == blank_rows(edged, cols, nrows, top + 1, r as int, left + 1, left + box_w - 1, Tone::Text),
            decreases area_end - r,
        {
            let ghost prev = g.cells();
            g.blank(r, left + 1, left + box_w - 1, Tone::Text);
            proof {
                if r < self.rows {
                    lemma_blank_span_is(
                        g.cells(),
                        prev,
                        at(cols, r as int, left + 1),
                        at(cols, r as int, if left + box_w - 1 < cols { left + box_w - 1 } else { cols }),
                        Tone::Text,
                    );
                }
            }
            r = r + 1;
        }
        let ghost c1 = g.cells();
        proof {
            ops = Seq::empty();
        }
        let lines = self.input.lines();
        let ghost example = example_of(self.about);
        let mut i = first;
        while i < total
            invariant
                g.wf(),
                no_newline_cells(g.cells()),
                g.cols == self.cols,
                g.rows == self.rows,
                g.put_limit == old(g).put_limit,
                g.cap() == cap,
                cols == self.cols,
                nrows == self.rows,
                first <= i <= total,
                total == lines@.len(),
                total == self.input@.lines.len(),
                forall|k: int| 0 <= k < lines@.len() ==> #[trigger] lines@[k]@ == self.input@.lines[k],
                total - first == shown,
                shown <= MAX_INPUT_ROWS,
                top + CHROME_ROWS <= self.rows,
                frame_fits(self.cols as int, self.rows as int),
                left + box_w <= (if body < 8 { 8 } else { body }),
                box_w >= 8,
                body <= self.cols,
                inner_w == sat_sub(box_w as int, 4),
                example == example_of(self.about),
                g.cells() == apply_ops(c1, cols, nrows, cap, ops),
                ops == input_line_ops(
                    self.input@.lines,
                    first as int,
                    i - first,
                    top as int,
                    left as int,
                    box_w as int,
                    border,
                    self.awaiting_input,
                    example,
                ),
            decreases total - i,
        {
            let line = &lines[i];
            let rr = top + 1 + (i - first);
            let ghost o: Op = (rr as int, left as int, "│"@, border);
            g.put(rr, left, "│", border);
            proof {
                lemma_apply_push(c1, cols, nrows, cap, ops, o);
                ops = ops.push(o);
            }
            if line.unicode_len() == 0 && total == 1 && !self.awaiting_input {
                let ex = match self.about {
                    Some(a) => {
                        if a.example.unicode_len() != 0 {
                            owned(a.example.as_str())
                        } else {
                            owned("输入任务")
                        }
                    },
                    None => owned("输入任务"),
                };
                let hint = cat("输入任务… 例：", ex.as_str());
                let hint = crate::width::truncate_to_width(hint.as_str(), inner_w);
                let ghost o: Op = (rr as int, left + 2, hint@, Tone::Muted);
                g.put(rr, left + 2, hint, Tone::Muted);
                proof {
                    lemma_apply_push(c1, cols, nrows, cap, ops, o);
                    ops = ops.push(o);
                }
            } else {
                let prefix = if self.awaiting_input && i == first {
                    APPROVAL_PROMPT
                } else {
                    ""
                };
                let text = cat(prefix, line.as_str());
                proof {
                    if !(self.awaiting_input && i == first) {
                        reveal_strlit("");
                        assert(text@ =~= Seq::<char>::empty() + self.input@.lines[i as int]);
                    }
                }
                let text = crate::width::truncate_to_width(text.as_str(), inner_w);
                let ghost o: Op = (rr as int, left + 2, text@, Tone::Text);
                g.put(rr, left + 2, text, Tone::Text);
                proof {
                    lemma_apply_push(c1, cols, nrows, cap, ops, o);
                    ops = ops.push(o);
                }
            }
            let ghost o: Op = (rr as int, left + box_w - 1, "│"@, border);
            g.put(rr, left + box_w - 1, "│", border);
            proof {
                lemma_apply_push(c1, cols, nrows, cap, ops, o);
                ops = ops.push(o);
                assert(ops =~= input_line_ops(
                    self.input@.lines,
                    first as int,
                    i + 1 - first,
                    top as int,
                    left as int,
                    box_w as int,
                    border,
                    self.awaiting_input,
                    example,
                ));
            }
            i = i + 1;
        }
        let ghost body_ops = ops;
        let ghost c2 = g.cells();
        self.draw_chrome_tail(g, top);
        proof {
            lemma_apply_concat(c1, cols, nrows, cap, ops, self.chrome_tail_ops(top as int));
            ops = ops + self.chrome_tail_ops(top as int);
            assert(body as int == body_cols_of(self.cols as int, self.sidebar));
            assert(box_w as int == box_width_of(body as int));
            assert(ops =~= self.chrome_ops(top as int));
        }
        if self.show_cursor {
            let d = crow.saturating_sub(first);
            let s1 = shown.saturating_sub(1);
            let vis_row = if d < s1 {
                d
            } else {
                s1
            };
            let prefix_w = if self.awaiting_input && crow == first {
                display_width(APPROVAL_PROMPT)
            } else {
                0
            };
            proof {
                reveal_strlit("y 批准 / n 拒绝 > ");
                crate::width::lemma_width_at_most_twice_len(APPROVAL_PROMPT@);
            }
            Some((top + 2 + vis_row, left + 3 + prefix_w + ccol))
        } else {
            None
        }
    }

    /// The chrome below the input lines (see `chrome_tail_ops`).
    #[verifier::spinoff_prover]
    #[verifier::rlimit(100)]
    fn draw_chrome_tail(&self, g: &mut Grid, top: usize)
        requires
            self.fits(),
            old(g).wf(),
            no_newline_cells(old(g).cells()),
            old(g).cols == self.cols,
            old(g).rows == self.rows,
            top <= usize::MAX / 8,
            top + CHROME_ROWS <= self.rows,
        ensures
            final(g).wf(),
            no_newline_cells(final(g).cells()),
            final(g).cols == old(g).cols,
            final(g).rows == old(g).rows,
            final(g).put_limit == old(g).put_limit,
            final(g).cells() == apply_ops(
                old(g).cells(),
                old(g).cols as int,
                old(g).rows as int,
                old(g).cap(),
                self.chrome_tail_ops(top as int),
            ),
    {
        let ghost c1 = g.cells();
        let ghost cols = g.cols as int;
        let ghost nrows = g.rows as int;
        let ghost cap = g.cap();
        self.draw_box_end(g, top);
        self.draw_hints(g, top);
        proof {
            let body = body_cols_of(self.cols as int, self.sidebar);
            let box_w = box_width_of(body);
            let a = more_ops_of(top as int, self.shown_lines(), self.input@.lines.len() as int, self.chrome_left(), box_w)
                + stat_ops_of(top + 1 + self.shown_lines(), self.chrome_left(), box_w, self.chrome_border(), mode_line_of(self.about));
            let b = hint_ops_of(top + 3 + self.shown_lines(), self.rows as int, self.chrome_left(), box_w) + status_ops_of(
                top + 4 + self.shown_lines(),
                self.rows as int,
                body,
                ws_line_of(self.about),
                self.status@,
                self.awaiting_input,
            );
            lemma_apply_concat(c1, cols, nrows, cap, a, b);
            assert(a + b =~= self.chrome_tail_ops(top as int));
        }
    }

    /// The box's last rows (see `more_ops_of` and `stat_ops_of`).
    #[verifier::spinoff_prover]
    #[verifier::rlimit(100)]
    fn draw_box_end(&self, g: &mut Grid, top: usize)
        requires
            self.fits(),
            old(g).wf(),
            no_newline_cells(old(g).cells()),
            old(g).cols == self.cols,
            old(g).rows == self.rows,
            top <= usize::MAX / 8,
            top + CHROME_ROWS <= self.rows,
        ensures
            final(g).wf(),
            no_newline_cells(final(g).cells()),
            final(g).cols == old(g).cols,
            final(g).rows == old(g).rows,
            final(g).put_limit == old(g).put_limit,
            final(g).cells() == apply_ops(
                old(g).cells(),
                old(g).cols as int,
                old(g).rows as int,
                old(g).cap(),
                more_ops_of(top as int, self.shown_lines(), self.input@.lines.len() as int, self.chrome_left(), box_width_of(body_cols_of(self.cols as int, self.sidebar))) + stat_ops_of(top + 1 + self.shown_lines(), self.chrome_left(), box_width_of(body_cols_of(self.cols as int, self.sidebar)), self.chrome_border(), mode_line_of(self.about)),
            ),
    {
        let ghost c1 = g.cells();
        let ghost cols = g.cols as int;
        let ghost nrows = g.rows as int;
        let ghost cap = g.cap();
        let ghost mut ops: Seq<Op> = Seq::empty();
        let body = self.body_cols();
        let box_w = self.box_width();
        let left = body.saturating_sub(box_w) / 2;
        let inner_w = box_w.saturating_sub(4);
        let border = if self.awaiting_input {
            Tone::Warning
        } else {
            Tone::BorderActive
        };
        let bar = repeat_str("─", box_w - 2);
        let total = self.input.line_count();
        let shown = if total < MAX_INPUT_ROWS {
            total
        } else {
            MAX_INPUT_ROWS
        };
        if total > shown {
            let mut more = String::new();
            push_str(&mut more, "… 共 ");
            push_dec(&mut more, total as u64);
            push_str(&mut more, " 行 ");
            proof {
                assert(more@ =~= "… 共 "@ + dec_of(total as nat) + " 行 "@);
            }
            let mw = display_width(more.as_str());
            let rr = top + shown;
            if left + box_w > mw.saturating_add(4) {
                let ghost o: Op = (rr as int, left + box_w - mw - 2, more@, Tone::Muted);
                g.put(rr, left + box_w - mw - 2, more.as_str(), Tone::Muted);
                proof {
                    lemma_apply_push(c1, cols, nrows, cap, ops, o);
                    ops = ops.push(o);
                }
            }
        }
        let ghost more_end = ops;
        proof {
            assert(ops =~= more_ops_of(top as int, shown as int, total as int, left as int, box_w as int));
        }
        let stat_row = top + 1 + shown;
        let ghost o: Op = (stat_row as int, left as int, "│"@, border);
        g.put(stat_row, left, "│", border);
        proof {
            lemma_apply_push(c1, cols, nrows, cap, ops, o);
            ops = ops.push(o);
        }
        let inner = match self.about {
            Some(a) => {
                if a.mode_short.unicode_len() != 0 {
                    let mut m = String::new();
                    push_str(&mut m, a.mode_short.as_str());
                    push_str(&mut m, " ⏵ ");
                    push_str(&mut m, a.model.as_str());
                    m
                } else {
                    owned(a.model.as_str())
                }
            },
            None => String::new(),
        };
        proof {
            assert(inner@ =~= mode_line_of(self.about));
        }
        let mline = crate::width::truncate_to_width(inner.as_str(), inner_w);
        let ghost o: Op = (stat_row as int, left + 2, mline@, Tone::Muted);
        g.put(stat_row, left + 2, mline, Tone::Muted);
        proof {
            lemma_apply_push(c1, cols, nrows, cap, ops, o);
            ops = ops.push(o);
        }
        let ghost o: Op = (stat_row as int, left + box_w - 1, "│"@, border);
        g.put(stat_row, left + box_w - 1, "│", border);
        proof {
            lemma_apply_push(c1, cols, nrows, cap, ops, o);
            ops = ops.push(o);
        }
        let bottom = stat_row + 1;
        let ghost o: Op = (bottom as int, left as int, "╰"@, border);
        g.put(bottom, left, "╰", border);
        proof {
            lemma_apply_push(c1, cols, nrows, cap, ops, o);
            ops = ops.push(o);
        }
        let ghost o: Op = (bottom as int, left + 1, bar@, border);
        g.put(bottom, left + 1, bar.as_str(), border);
        proof {
            lemma_apply_push(c1, cols, nrows, cap, ops, o);
            ops = ops.push(o);
        }
        let ghost o: Op = (bottom as int, left + box_w - 1, "╯"@, border);
        g.put(bottom, left + box_w - 1, "╯", border);
        proof {
            lemma_apply_push(c1, cols, nrows, cap, ops, o);
            ops = ops.push(o);
        }
        let ghost stat_end = ops;
        proof {
            assert(ops =~= more_end + stat_ops_of(stat_row as int, left as int, box_w as int, border, mode_line_of(self.about)));
        }
        proof {
            assert(body as int == body_cols_of(self.cols as int, self.sidebar));
            assert(box_w as int == box_width_of(body as int));
        }
    }

    /// The hint and status rows under the box (see `hint_ops_of` and
    /// `status_ops_of`).
    #[verifier::spinoff_prover]
    #[verifier::rlimit(100)]
    fn draw_hints(&self, g: &mut Grid, top: usize)
        requires
            self.fits(),
            old(g).wf(),
            no_newline_cells(old(g).cells()),
            old(g).cols == self.cols,
            old(g).rows == self.rows,
            top <= usize::MAX / 8,
            top + CHROME_ROWS <= self.rows,
        ensures
            final(g).wf(),
            no_newline_cells(final(g).cells()),
            final(g).cols == old(g).cols,
            final(g).rows == old(g).rows,
            final(g).put_limit == old(g).put_limit,
            final(g).cells() == apply_ops(
                old(g).cells(),
                old(g).cols as int,
                old(g).rows as int,
                old(g).cap(),
                hint_ops_of(top + 3 + self.shown_lines(), self.rows as int, self.chrome_left(), box_width_of(body_cols_of(self.cols as int, self.sidebar))) + status_ops_of(top + 4 + self.shown_lines(), self.rows as int, body_cols_of(self.cols as int, self.sidebar), ws_line_of(self.about), self.status@, self.awaiting_input),
            ),
    {
        let ghost c1 = g.cells();
        let ghost cols = g.cols as int;
        let ghost nrows = g.rows as int;
        let ghost cap = g.cap();
        let ghost mut ops: Seq<Op> = Seq::empty();
        let body = self.body_cols();
        let box_w = self.box_width();
        let left = body.saturating_sub(box_w) / 2;
        let inner_w = box_w.saturating_sub(4);
        let border = if self.awaiting_input {
            Tone::Warning
        } else {
            Tone::BorderActive
        };
        let bar = repeat_str("─", box_w - 2);
        let total = self.input.line_count();
        let shown = if total < MAX_INPUT_ROWS {
            total
        } else {
            MAX_INPUT_ROWS
        };
        let stat_row = top + 1 + shown;
        let bottom = stat_row + 1;
        let ghost stat_end = ops;
        let hint_row = bottom + 1;
        if hint_row < self.rows {
            let ghost o: Op = (hint_row as int, left + 2, HINT_LEFT@, Tone::Border);
            g.put(hint_row, left + 2, HINT_LEFT, Tone::Border);
            proof {
                lemma_apply_push(c1, cols, nrows, cap, ops, o);
                ops = ops.push(o);
            }
            let hw = display_width(HINT_RIGHT);
            let hx = (left + box_w).saturating_sub(hw.saturating_add(2));
            if hx > (left + 2).saturating_add(display_width(HINT_LEFT)) {
                let ghost o: Op = (hint_row as int, hx as int, HINT_RIGHT@, Tone::Border);
                g.put(hint_row, hx, HINT_RIGHT, Tone::Border);
                proof {
                    lemma_apply_push(c1, cols, nrows, cap, ops, o);
                    ops = ops.push(o);
                }
            }
        }
        let ghost hint_end = ops;
        proof {
            assert(ops =~= stat_end + hint_ops_of(hint_row as int, self.rows as int, left as int, box_w as int));
        }
        let status_row = hint_row + 1;
        if status_row < self.rows {
            let ws_line = match self.about {
                Some(a) => {
                    if a.branch.unicode_len() != 0 {
                        let mut m = String::new();
                        push_str(&mut m, a.workspace.as_str());
                        push_str(&mut m, ":");
                        push_str(&mut m, a.branch.as_str());
                        m
                    } else {
                        owned(a.workspace.as_str())
                    }
                },
                None => String::new(),
            };
            proof {
                assert(ws_line@ =~= ws_line_of(self.about));
            }
            let ws_shown = crate::width::truncate_to_width(ws_line.as_str(), body.saturating_sub(6));
            let wsw = display_width(ws_shown);
            let stw = display_width(self.status);
            let ghost o: Op = (status_row as int, 2int, ws_shown@, Tone::Dim);
            g.put(status_row, 2, ws_shown, Tone::Dim);
            proof {
                lemma_apply_push(c1, cols, nrows, cap, ops, o);
                ops = ops.push(o);
            }
            if !(self.status.unicode_len() == 0 || wsw.saturating_add(stw).saturating_add(4) > body) {
                let tone = if self.awaiting_input {
                    Tone::Warning
                } else {
                    Tone::Muted
                };
                let ghost o: Op = (status_row as int, body - stw - 2, self.status@, tone);
                g.put(status_row, body - stw - 2, self.status, tone);
                proof {
                    lemma_apply_push(c1, cols, nrows, cap, ops, o);
                    ops = ops.push(o);
                }
            }
        }
        proof {
            assert(ops =~= hint_end + status_ops_of(status_row as int, self.rows as int, body as int, ws_line_of(self.about), self.status@, self.awaiting_input));
            assert(body as int == body_cols_of(self.cols as int, self.sidebar));
            assert(box_w as int == box_width_of(body as int));
        }
    }

    /// How many popup items fit above chrome starting at `chrome_top`: at
    /// most the kind's row limit, and what is left after the frame, the
    /// title, and the hint and footer rows.
    pub open spec fn popup_visible(&self, pop: Popup, chrome_top: int) -> int {
        let avail = sat_sub(chrome_top, 2);
        let hint = if pop.items@.len() == 0 { 1int } else { 0 };
        let foot = if pop.truncated { 1int } else { 0 };
        let for_items = sat_sub(avail, 3 + hint + foot);
        let n = pop.items@.len() as int;
        let m = pop.kind.rows_of() as int;
        let a = if n < m { n } else { m };
        if a < for_items { a } else { for_items }
    }

    /// The popup's rows for each visible item (row, left and right
    /// column of the box) with the item's index, top to bottom: nothing
    /// when no item fits or the list is empty.
    pub open spec fn popup_rows_of(&self, chrome_top: int) -> Seq<((int, int, int), int)> {
        match self.popup {
            None => Seq::empty(),
            Some(pop) => {
                let body = body_cols_of(self.cols as int, self.sidebar);
                let box_w = box_width_of(body);
                let left = sat_sub(body, box_w) / 2;
                let hint = if pop.items@.len() == 0 { 1int } else { 0 };
                let foot = if pop.truncated { 1int } else { 0 };
                let visible = self.popup_visible(*pop, chrome_top);
                let height = 2 + visible + hint + foot;
                if visible == 0 || chrome_top < height + 1 || pop.items@.len() == 0 {
                    Seq::empty()
                } else {
                    let top = chrome_top - height - 1;
                    let start = crate::popup::scroll_top_of(pop.items@.len() as int, pop.selected as int, visible);
                    Seq::new(visible as nat, |k: int| ((top + 2 + k, left, left + box_w), start + k))
                }
            },
        }
    }

    /// Where the popup's items are on screen, for mouse hits; the same
    /// geometry as `draw_popup`.
    pub fn popup_item_rows(&self, chrome_top: usize) -> (r: Vec<((usize, usize, usize), usize)>)
        requires
            frame_fits(self.cols as int, self.rows as int),
        ensures
            r@.len() == self.popup_rows_of(chrome_top as int).len(),
            forall|k: int| 0 <= k < r@.len() ==> {
                let (a, b) = #[trigger] r@[k];
                let (x, y) = self.popup_rows_of(chrome_top as int)[k];
                a.0 == x.0 && a.1 == x.1 && a.2 == x.2 && b == y
            },
    {
        let pop = match self.popup {
            Some(p) => p,
            None => return Vec::new(),
        };
        let body = self.body_cols();
        let box_w = self.box_width();
        let left = body.saturating_sub(box_w) / 2;
        let max_rows = pop.kind.max_rows();
        let avail = chrome_top.saturating_sub(2);
        let hint_rows: usize = if pop.is_empty() {
            1
        } else {
            0
        };
        let foot_rows: usize = if pop.truncated {
            1
        } else {
            0
        };
        let for_items = avail.saturating_sub(3 + hint_rows + foot_rows);
        let n = pop.items.len();
        let a = if n < max_rows {
            n
        } else {
            max_rows
        };
        let visible = if a < for_items {
            a
        } else {
            for_items
        };
        let height = 2 + visible + hint_rows + foot_rows;
        if visible == 0 || chrome_top < height + 1 {
            return Vec::new();
        }
        let top = chrome_top - height - 1;
        if pop.is_empty() {
            return Vec::new();
        }
        let start = pop.scroll_top(visible);
        let mut out: Vec<((usize, usize, usize), usize)> = Vec::new();
        let mut k: usize = 0;
        while k < visible
            invariant
                k <= visible,
                visible <= n,
                start + visible <= n,
                out@.len() == k,
                top + 2 + visible <= chrome_top,
                left + box_w <= (if body < 8 { 8 } else { body }),
                body <= self.cols,
                frame_fits(self.cols as int, self.rows as int),
                forall|j: int| 0 <= j < k ==> {
                    let (a, b) = #[trigger] out@[j];
                    a.0 == top + 2 + j && a.1 == left && a.2 == left + box_w && b == start + j
                },
            decreases visible - k,
        {
            out.push(((top + 2 + k, left, left + box_w), start + k));
            k = k + 1;
        }
        out
    }

    /// The rows and columns the popup covers (cut to the screen), if it is
    /// drawn: the full box, or just the framed title when no item fits.
    pub open spec fn popup_box(&self, pop: Popup, chrome_top: int) -> Option<(int, int, int, int)> {
        let body = body_cols_of(self.cols as int, self.sidebar);
        let box_w = box_width_of(body);
        let left = sat_sub(body, box_w) / 2;
        let cend = if left + box_w < self.cols { left + box_w } else { self.cols as int };
        let avail = sat_sub(chrome_top, 2);
        let hint = if pop.items@.len() == 0 { 1int } else { 0 };
        let foot = if pop.truncated { 1int } else { 0 };
        let visible = self.popup_visible(pop, chrome_top);
        let height = if avail < 3 || pop.items@.len() > 0 && visible == 0 {
            3 + hint
        } else {
            2 + visible + hint + foot
        };
        if chrome_top < height + 1 {
            None
        } else {
            let top = chrome_top - height - 1;
            Some((top, if top + height < self.rows { top + height } else { self.rows as int }, left, cend))
        }
    }

    /// The popup above the input box: a frame with the kind and filter as
    /// title, the visible items (the selected one marked, details right
    /// when they fit), a footer when the list was cut, and a hint below.
    /// The whole box is blanked first, so nothing underneath shows through.
    /// When no item fits, the frame with its title alone is drawn, if that
    /// fits.
    #[verifier::spinoff_prover]
    #[verifier::rlimit(80)]
    #[verifier::spinoff_prover]
    #[verifier::rlimit(80)]
    pub fn draw_popup(&self, g: &mut Grid, pop: &Popup, chrome_top: usize)
        requires
            frame_fits(self.cols as int, self.rows as int),
            old(g).wf(),
            no_newline_cells(old(g).cells()),
            old(g).cols == self.cols,
            old(g).rows == self.rows,
            chrome_top <= usize::MAX / 8,
        ensures
            final(g).wf(),
            no_newline_cells(final(g).cells()),
            final(g).cols == old(g).cols,
            final(g).rows == old(g).rows,
            final(g).put_limit == old(g).put_limit,
            self.popup_box(*pop, chrome_top as int) matches Some((r0, r1, c0, c1)) ==> box_written(
                final(g).cells(),
                self.cols as int,
                r0,
                r1,
                c0,
                c1,
            ),
            final(g).cells() == self.popup_drawn(*pop, old(g).cells(), old(g).cap(), chrome_top as int),
    {
        let ghost c0 = g.cells();
        let ghost cols = g.cols as int;
        let ghost nrows = g.rows as int;
        let ghost cap = g.cap();
        let body = self.body_cols();
        let box_w = self.box_width();
        let left = body.saturating_sub(box_w) / 2;
        let inner = box_w.saturating_sub(4);
        let max_rows = pop.kind.max_rows();
        let avail = chrome_top.saturating_sub(2);
        let hint_rows: usize = if pop.is_empty() {
            1
        } else {
            0
        };
        let foot_rows: usize = if pop.truncated {
            1
        } else {
            0
        };
        let for_items = avail.saturating_sub(3 + hint_rows + foot_rows);
        let n = pop.items.len();
        let a = if n < max_rows {
            n
        } else {
            max_rows
        };
        let visible = if a < for_items {
            a
        } else {
            for_items
        };
        assert(visible as int == self.popup_visible(*pop, chrome_top as int));
        let bar = repeat_str("─", box_w - 2);
        let compact = available_rows(avail) == 0 || n > 0 && visible == 0;
        let height = if compact {
            3 + hint_rows
        } else {
            2 + visible + hint_rows + foot_rows
        };
        assert((compact, chrome_top - height - 1, height as int) == self.popup_frame(*pop, chrome_top as int));
        if chrome_top < height + 1 {
            return;
        }
        let top = chrome_top - height - 1;
        let end = if top + height < self.rows {
            top + height
        } else {
            self.rows
        };
        let cend = if left + box_w < self.cols {
            left + box_w
        } else {
            self.cols
        };
        let ghost bx = (top as int, end as int, left as int, cend as int);
        proof {
            lemma_box_empty(g.cells(), self.cols as int, top as int, (if top < end { top } else { end }) as int, left as int, cend as int);
        }
        let mut r = top;
        while r < end
            invariant
                g.wf(),
                no_newline_cells(g.cells()),
                g.cols == self.cols,
                g.rows == self.rows,
                g.put_limit == old(g).put_limit,
                g.cap() == cap,
                cols == self.cols,
                nrows == self.rows,
                frame_fits(self.cols as int, self.rows as int),
                left + box_w <= (if body < 8 { 8 } else { body }),
                body <= self.cols,
                top <= r,
                r <= end || end < top,
                end < top ==> r == top,
                end <= self.rows,
                cend as int == (if left + box_w < self.cols { left + box_w } else { self.cols as int }),
                box_written(g.cells(), self.cols as int, top as int, (if r < end { r } else { end }) as int, left as int, cend as int),
                g.cells() == blank_rows(c0, cols, nrows, top as int, r as int, left as int, left + box_w, Tone::Text),
            decreases end - r,
        {
            let ghost g0 = g.cells();
            g.blank(r, left, left + box_w, Tone::Text);
            proof {
                lemma_box_blank_row(g0, g.cells(), self.cols as int, self.rows as int, top as int, r as int, left as int, cend as int, Tone::Text);
                lemma_blank_span_is(
                    g.cells(),
                    g0,
                    at(cols, r as int, left as int),
                    at(cols, r as int, if left + box_w < cols { left + box_w } else { cols }),
                    Tone::Text,
                );
            }
            r = r + 1;
        }
        let ghost c1 = g.cells();
        proof {
            if end < top {
                assert(g.cells() == blank_rows(c0, cols, nrows, top as int, end as int, left as int, left + box_w, Tone::Text));
            }
        }
        let ghost mut ops: Seq<Op> = Seq::empty();
        if compact {
            let mut title = String::new();
            push_str(&mut title, pop.kind.title());
            push_str(&mut title, " · ");
            push_str(&mut title, pop.query.as_str());
            self.popup_head(g, top, left, box_w, title.as_str(), Ghost(bx));
            proof {
                let h = popup_head_ops(top as int, left as int, box_w as int, title@);
                lemma_apply_concat(c1, cols, nrows, cap, ops, h);
                ops = ops + h;
            }
            self.popup_edge(g, top + 2, left, box_w, Ghost(bx));
            proof {
                let h = popup_edge_ops(top + 2, left as int, box_w as int);
                lemma_apply_concat(c1, cols, nrows, cap, ops, h);
                ops = ops + h;
                assert(title@ =~= pop.kind.title_of() + " · "@ + pop.query@);
                assert(ops =~= self.popup_ops(*pop, chrome_top as int, cap));
            }
            return;
        }
        self.popup_full(g, pop, chrome_top, top, left, box_w, visible, Ghost(bx));
        proof {
            let h = popup_full_ops(*pop, top as int, left as int, box_w as int, visible as int, chrome_top as int, nrows, cap);
            lemma_apply_concat(c1, cols, nrows, cap, ops, h);
            ops = ops + h;
            assert(ops =~= self.popup_ops(*pop, chrome_top as int, cap));
        }
    }

    /// The full popup from its title down (see `popup_full_ops`).
    #[verifier::spinoff_prover]
    fn popup_full(
        &self,
        g: &mut Grid,
        pop: &Popup,
        chrome_top: usize,
        top: usize,
        left: usize,
        box_w: usize,
        visible: usize,
        Ghost(bx): Ghost<(int, int, int, int)>,
    )
        requires
            old(g).wf(),
            no_newline_cells(old(g).cells()),
            frame_fits(self.cols as int, self.rows as int),
            old(g).cols == self.cols,
            old(g).rows == self.rows,
            0 <= bx.0,
            bx.1 <= old(g).rows,
            0 <= bx.2,
            bx.3 <= old(g).cols,
            box_written(old(g).cells(), old(g).cols as int, bx.0, bx.1, bx.2, bx.3),
            8 <= box_w,
            left + box_w <= usize::MAX / 8,
            chrome_top <= usize::MAX / 8,
            top + 2 + visible + (if pop.items@.len() == 0 { 1int } else { 0 }) + (if pop.truncated { 1int } else { 0 }) < chrome_top,
            visible <= pop.items@.len(),
            pop.items@.len() > 0 ==> visible > 0,
        ensures
            final(g).wf(),
            no_newline_cells(final(g).cells()),
            final(g).cols == old(g).cols,
            final(g).rows == old(g).rows,
            final(g).put_limit == old(g).put_limit,
            box_written(final(g).cells(), old(g).cols as int, bx.0, bx.1, bx.2, bx.3),
            final(g).cells() == apply_ops(
                old(g).cells(),
                old(g).cols as int,
                old(g).rows as int,
                old(g).cap(),
                popup_full_ops(*pop, top as int, left as int, box_w as int, visible as int, chrome_top as int, old(g).rows as int, old(g).cap()),
            ),
    {
        let ghost c1 = g.cells();
        let ghost cols = g.cols as int;
        let ghost nrows = g.rows as int;
        let ghost cap = g.cap();
        let ghost mut ops: Seq<Op> = Seq::empty();
        let inner = box_w.saturating_sub(4);
        let n = pop.items.len();
        let title = if pop.query.unicode_len() == 0 {
            owned(pop.kind.title())
        } else {
            let mut t = String::new();
            push_str(&mut t, pop.kind.title());
            push_str(&mut t, " · ");
            push_str(&mut t, pop.query.as_str());
            t
        };
        self.popup_head(g, top, left, box_w, title.as_str(), Ghost(bx));
        proof {
            let h = popup_head_ops(top as int, left as int, box_w as int, title@);
            lemma_apply_concat(c1, cols, nrows, cap, ops, h);
            ops = ops + h;
        }
        let ghost head = ops;
        let mut row: usize = 2;
        if pop.is_empty() {
            let msg = if pop.query.unicode_len() == 0 {
                "（无候选）"
            } else {
                "无匹配"
            };
            self.popup_line(g, top + row, left, box_w, msg, Ghost(bx));
            proof {
                let h = popup_line_ops(top + row, left as int, box_w as int, msg@);
                lemma_apply_concat(c1, cols, nrows, cap, ops, h);
                ops = ops + h;
            }
            row = row + 1;
        } else {
            let start = pop.scroll_top(visible);
            let mut i = start;
            while i < start + visible
                invariant
                    g.wf(),
                    no_newline_cells(g.cells()),
                    g.cols == self.cols,
                    g.rows == self.rows,
                    g.put_limit == old(g).put_limit,
                    g.cap() == cap,
                    cols == self.cols,
                    nrows == self.rows,
                    frame_fits(self.cols as int, self.rows as int),
                    left + box_w <= usize::MAX / 8,
                    box_w >= 8,
                    inner == sat_sub(box_w as int, 4),
                    start <= i <= start + visible,
                    start + visible <= n,
                    n == pop.items@.len(),
                    row == 2 + (i - start),
                    top + 2 + visible + (if pop.items@.len() == 0 { 1int } else { 0 }) + (if pop.truncated { 1int } else { 0 }) < chrome_top,
                    chrome_top <= usize::MAX / 8,
                    bx.1 <= self.rows,
                    bx.3 <= self.cols,
                    0 <= bx.0,
                    0 <= bx.2,
                    box_written(g.cells(), self.cols as int, bx.0, bx.1, bx.2, bx.3),
                    g.cells() == apply_ops(c1, cols, nrows, cap, ops),
                    ops == head + item_ops(
                        pop.items@,
                        pop.selected as int,
                        start as int,
                        i - start,
                        top as int,
                        left as int,
                        box_w as int,
                        nrows,
                        cap,
                    ),
                decreases start + visible - i,
            {
                let ghost before = ops;
                let rr = top + row;
                self.popup_item(g, pop, i, rr, left, box_w, Ghost(bx));
                proof {
                    let h = item_row_ops(pop.items@[i as int], i == pop.selected, rr as int, left as int, box_w as int, nrows, cap);
                    lemma_apply_concat(c1, cols, nrows, cap, ops, h);
                    ops = ops + h;
                    assert(ops =~= head + item_ops(
                        pop.items@,
                        pop.selected as int,
                        start as int,
                        i + 1 - start,
                        top as int,
                        left as int,
                        box_w as int,
                        nrows,
                        cap,
                    ));
                }
                row = row + 1;
                i = i + 1;
            }
        }
        proof {
            assert(title@ == popup_title(*pop));
            assert(ops =~= head + popup_list_ops(*pop, top as int, left as int, box_w as int, visible as int, nrows, cap));
        }
        let ghost listed = ops;
        self.popup_tail(g, pop, chrome_top, top, left, box_w, visible, row, Ghost(bx));
        proof {
            let h = popup_tail_ops(*pop, top as int, left as int, box_w as int, visible as int, chrome_top as int);
            lemma_apply_concat(c1, cols, nrows, cap, ops, h);
            ops = ops + h;
            assert(ops =~= popup_full_ops(*pop, top as int, left as int, box_w as int, visible as int, chrome_top as int, nrows, cap));
        }
    }

    /// One item's popup row (see `item_row_ops`).
    #[verifier::spinoff_prover]
    fn popup_item(
        &self,
        g: &mut Grid,
        pop: &Popup,
        i: usize,
        rr: usize,
        left: usize,
        box_w: usize,
        Ghost(bx): Ghost<(int, int, int, int)>,
    )
        requires
            old(g).wf(),
            no_newline_cells(old(g).cells()),
            0 <= bx.0,
            bx.1 <= old(g).rows,
            0 <= bx.2,
            bx.3 <= old(g).cols,
            box_written(old(g).cells(), old(g).cols as int, bx.0, bx.1, bx.2, bx.3),
            8 <= box_w,
            left + box_w <= usize::MAX / 8,
            i < pop.items@.len(),
        ensures
            final(g).wf(),
            no_newline_cells(final(g).cells()),
            final(g).cols == old(g).cols,
            final(g).rows == old(g).rows,
            final(g).put_limit == old(g).put_limit,
            box_written(final(g).cells(), old(g).cols as int, bx.0, bx.1, bx.2, bx.3),
            final(g).cells() == apply_ops(
                old(g).cells(),
                old(g).cols as int,
                old(g).rows as int,
                old(g).cap(),
                item_row_ops(pop.items@[i as int], i == pop.selected, rr as int, left as int, box_w as int, old(g).rows as int, old(g).cap()),
            ),
    {
        let ghost c1 = g.cells();
        let ghost cols = g.cols as int;
        let ghost nrows = g.rows as int;
        let ghost cap = g.cap();
        let ghost mut ops: Seq<Op> = Seq::empty();
        let inner = box_w.saturating_sub(4);
        let ghost before = ops;
        let item = &pop.items[i];
        let selected = i == pop.selected;
        let (mark, label_tone) = if selected {
            ("▸ ", Tone::Primary)
        } else {
            ("  ", Tone::Text)
        };
        let ghost o: Op = (rr as int, left as int, "│"@, Tone::BorderActive);
        put_in_box(g, rr, left, "│", Tone::BorderActive, Ghost(bx));
        proof {
            lemma_apply_push(c1, cols, nrows, cap, ops, o);
            ops = ops.push(o);
        }
        let ghost o: Op = (rr as int, left + 2, mark@, Tone::Primary);
        put_in_box(g, rr, left + 2, mark, Tone::Primary, Ghost(bx));
        proof {
            lemma_apply_push(c1, cols, nrows, cap, ops, o);
            ops = ops.push(o);
        }
        let label = crate::width::truncate_to_width(item.label.as_str(), inner.saturating_sub(2));
        let ghost o: Op = (rr as int, left + 4, label@, label_tone);
        let ghost gl = g.cells();
        let used = put_in_box(g, rr, left + 4, label, label_tone, Ghost(bx));
        proof {
            lemma_apply_push(c1, cols, nrows, cap, ops, o);
            ops = ops.push(o);
            lemma_put_run_end(gl, cols, cap, rr as int, left + 4, label@, label_tone);
            assert(used as int == put_end(nrows, cap, rr as int, left + 4, label@));
        }
        if item.detail.unicode_len() != 0 {
            let d = crate::width::truncate_to_width(item.detail.as_str(), 34);
            let dw = display_width(d);
            let dx = (left + box_w - 2).saturating_sub(dw);
            if dx > used.saturating_add(2) {
                let ghost o: Op = (rr as int, dx as int, d@, Tone::Muted);
                put_in_box(g, rr, dx, d, Tone::Muted, Ghost(bx));
                proof {
                    lemma_apply_push(c1, cols, nrows, cap, ops, o);
                    ops = ops.push(o);
                }
            }
        }
        let ghost o: Op = (rr as int, left + box_w - 1, "│"@, Tone::BorderActive);
        put_in_box(g, rr, left + box_w - 1, "│", Tone::BorderActive, Ghost(bx));
        proof {
            lemma_apply_push(c1, cols, nrows, cap, ops, o);
            ops = ops.push(o);
            assert(ops =~= before + item_row_ops(
                pop.items@[i as int],
                i == pop.selected,
                rr as int,
                left as int,
                box_w as int,
                nrows,
                cap,
            ));
        }
        proof {
            assert(ops =~= item_row_ops(pop.items@[i as int], i == pop.selected, rr as int, left as int, box_w as int, nrows, cap));
        }
    }

    /// Below the popup's list (see `popup_tail_ops`).
    fn popup_tail(
        &self,
        g: &mut Grid,
        pop: &Popup,
        chrome_top: usize,
        top: usize,
        left: usize,
        box_w: usize,
        visible: usize,
        row: usize,
        Ghost(bx): Ghost<(int, int, int, int)>,
    )
        requires
            old(g).wf(),
            no_newline_cells(old(g).cells()),
            frame_fits(self.cols as int, self.rows as int),
            old(g).cols == self.cols,
            old(g).rows == self.rows,
            0 <= bx.0,
            bx.1 <= old(g).rows,
            0 <= bx.2,
            bx.3 <= old(g).cols,
            box_written(old(g).cells(), old(g).cols as int, bx.0, bx.1, bx.2, bx.3),
            8 <= box_w,
            left + box_w <= usize::MAX / 8,
            chrome_top <= usize::MAX / 8,
            top + 2 + visible + (if pop.items@.len() == 0 { 1int } else { 0 }) + (if pop.truncated { 1int } else { 0 }) < chrome_top,
            visible <= pop.items@.len(),
            pop.items@.len() > 0 ==> visible > 0,
            row == (if pop.items@.len() == 0 { 3int } else { 2 + visible }),
        ensures
            final(g).wf(),
            no_newline_cells(final(g).cells()),
            final(g).cols == old(g).cols,
            final(g).rows == old(g).rows,
            final(g).put_limit == old(g).put_limit,
            box_written(final(g).cells(), old(g).cols as int, bx.0, bx.1, bx.2, bx.3),
            final(g).cells() == apply_ops(
                old(g).cells(),
                old(g).cols as int,
                old(g).rows as int,
                old(g).cap(),
                popup_tail_ops(*pop, top as int, left as int, box_w as int, visible as int, chrome_top as int),
            ),
    {
        let ghost c1 = g.cells();
        let ghost cols = g.cols as int;
        let ghost nrows = g.rows as int;
        let ghost cap = g.cap();
        let ghost mut ops: Seq<Op> = Seq::empty();
        let inner = box_w.saturating_sub(4);
        let n = pop.items.len();
        let mut row = row;
        if pop.truncated && !pop.is_empty() {
            let more = n - visible;
            let mut m = String::new();
            push_str(&mut m, "↑↓ 还有 ");
            push_dec(&mut m, more as u64);
            push_str(&mut m, " 项…");
            self.popup_line(g, top + row, left, box_w, m.as_str(), Ghost(bx));
            proof {
                let h = popup_line_ops(top + row, left as int, box_w as int, m@);
                lemma_apply_concat(c1, cols, nrows, cap, ops, h);
                ops = ops + h;
                assert(m@ =~= "↑↓ 还有 "@ + dec_of((n - visible) as nat) + " 项…"@);
            }
            row = row + 1;
        }
        self.popup_edge(g, top + row, left, box_w, Ghost(bx));
        proof {
            let h = popup_edge_ops(top + row, left as int, box_w as int);
            lemma_apply_concat(c1, cols, nrows, cap, ops, h);
            ops = ops + h;
        }
        if top + row + 1 < chrome_top {
            let ghost o: Op = (top + row + 1, left + 2, POPUP_KEYS@, Tone::Border);
            put_in_box(g, top + row + 1, left + 2, POPUP_KEYS, Tone::Border, Ghost(bx));
            proof {
                lemma_apply_push(c1, cols, nrows, cap, ops, o);
                ops = ops.push(o);
            }
        }
        proof {
            assert(ops =~= popup_tail_ops(*pop, top as int, left as int, box_w as int, visible as int, chrome_top as int));
        }
    }


    /// A popup's top edge and title row (see `popup_head_ops`).
    fn popup_head(&self, g: &mut Grid, top: usize, left: usize, box_w: usize, title: &str, Ghost(bx): Ghost<(int, int, int, int)>)
        requires
            old(g).wf(),
            no_newline_cells(old(g).cells()),
            0 <= bx.0,
            bx.1 <= old(g).rows,
            0 <= bx.2,
            bx.3 <= old(g).cols,
            box_written(old(g).cells(), old(g).cols as int, bx.0, bx.1, bx.2, bx.3),
            8 <= box_w,
            left + box_w <= usize::MAX / 8,
            top <= usize::MAX / 8,
        ensures
            final(g).wf(),
            no_newline_cells(final(g).cells()),
            final(g).cols == old(g).cols,
            final(g).rows == old(g).rows,
            final(g).put_limit == old(g).put_limit,
            box_written(final(g).cells(), old(g).cols as int, bx.0, bx.1, bx.2, bx.3),
            final(g).cells() == apply_ops(
                old(g).cells(),
                old(g).cols as int,
                old(g).rows as int,
                old(g).cap(),
                popup_head_ops(top as int, left as int, box_w as int, title@),
            ),
    {
        let ghost c1 = g.cells();
        let ghost cols = g.cols as int;
        let ghost nrows = g.rows as int;
        let ghost cap = g.cap();
        let ghost mut ops: Seq<Op> = Seq::empty();
        let bar = repeat_str("─", box_w - 2);
        let t = crate::width::truncate_to_width(title, box_w.saturating_sub(4));
        let ghost all = popup_head_ops(top as int, left as int, box_w as int, title@);
        let ghost o = all[0];
        put_in_box(g, top, left, "╭", Tone::BorderActive, Ghost(bx));
        proof { lemma_apply_push(c1, cols, nrows, cap, ops, o); ops = ops.push(o); }
        let ghost o = all[1];
        put_in_box(g, top, left + 1, bar.as_str(), Tone::BorderActive, Ghost(bx));
        proof { lemma_apply_push(c1, cols, nrows, cap, ops, o); ops = ops.push(o); }
        let ghost o = all[2];
        put_in_box(g, top, left + box_w - 1, "╮", Tone::BorderActive, Ghost(bx));
        proof { lemma_apply_push(c1, cols, nrows, cap, ops, o); ops = ops.push(o); }
        let ghost o = all[3];
        put_in_box(g, top + 1, left, "│", Tone::BorderActive, Ghost(bx));
        proof { lemma_apply_push(c1, cols, nrows, cap, ops, o); ops = ops.push(o); }
        let ghost o = all[4];
        put_in_box(g, top + 1, left + 2, t, Tone::Muted, Ghost(bx));
        proof { lemma_apply_push(c1, cols, nrows, cap, ops, o); ops = ops.push(o); }
        let ghost o = all[5];
        put_in_box(g, top + 1, left + box_w - 1, "│", Tone::BorderActive, Ghost(bx));
        proof { lemma_apply_push(c1, cols, nrows, cap, ops, o); ops = ops.push(o); assert(ops =~= all); }
    }

    /// A popup's bottom edge (see `popup_edge_ops`).
    fn popup_edge(&self, g: &mut Grid, row: usize, left: usize, box_w: usize, Ghost(bx): Ghost<(int, int, int, int)>)
        requires
            old(g).wf(),
            no_newline_cells(old(g).cells()),
            0 <= bx.0,
            bx.1 <= old(g).rows,
            0 <= bx.2,
            bx.3 <= old(g).cols,
            box_written(old(g).cells(), old(g).cols as int, bx.0, bx.1, bx.2, bx.3),
            8 <= box_w,
            left + box_w <= usize::MAX / 8,
        ensures
            final(g).wf(),
            no_newline_cells(final(g).cells()),
            final(g).cols == old(g).cols,
            final(g).rows == old(g).rows,
            final(g).put_limit == old(g).put_limit,
            box_written(final(g).cells(), old(g).cols as int, bx.0, bx.1, bx.2, bx.3),
            final(g).cells() == apply_ops(
                old(g).cells(),
                old(g).cols as int,
                old(g).rows as int,
                old(g).cap(),
                popup_edge_ops(row as int, left as int, box_w as int),
            ),
    {
        let ghost c1 = g.cells();
        let ghost cols = g.cols as int;
        let ghost nrows = g.rows as int;
        let ghost cap = g.cap();
        let ghost mut ops: Seq<Op> = Seq::empty();
        let bar = repeat_str("─", box_w - 2);
        let ghost all = popup_edge_ops(row as int, left as int, box_w as int);
        let ghost o = all[0];
        put_in_box(g, row, left, "╰", Tone::BorderActive, Ghost(bx));
        proof { lemma_apply_push(c1, cols, nrows, cap, ops, o); ops = ops.push(o); }
        let ghost o = all[1];
        put_in_box(g, row, left + 1, bar.as_str(), Tone::BorderActive, Ghost(bx));
        proof { lemma_apply_push(c1, cols, nrows, cap, ops, o); ops = ops.push(o); }
        let ghost o = all[2];
        put_in_box(g, row, left + box_w - 1, "╯", Tone::BorderActive, Ghost(bx));
        proof { lemma_apply_push(c1, cols, nrows, cap, ops, o); ops = ops.push(o); assert(ops =~= all); }
    }

    /// A boxed message row (see `popup_line_ops`).
    fn popup_line(&self, g: &mut Grid, row: usize, left: usize, box_w: usize, text: &str, Ghost(bx): Ghost<(int, int, int, int)>)
        requires
            old(g).wf(),
            no_newline_cells(old(g).cells()),
            0 <= bx.0,
            bx.1 <= old(g).rows,
            0 <= bx.2,
            bx.3 <= old(g).cols,
            box_written(old(g).cells(), old(g).cols as int, bx.0, bx.1, bx.2, bx.3),
            8 <= box_w,
            left + box_w <= usize::MAX / 8,
        ensures
            final(g).wf(),
            no_newline_cells(final(g).cells()),
            final(g).cols == old(g).cols,
            final(g).rows == old(g).rows,
            final(g).put_limit == old(g).put_limit,
            box_written(final(g).cells(), old(g).cols as int, bx.0, bx.1, bx.2, bx.3),
            final(g).cells() == apply_ops(
                old(g).cells(),
                old(g).cols as int,
                old(g).rows as int,
                old(g).cap(),
                popup_line_ops(row as int, left as int, box_w as int, text@),
            ),
    {
        let ghost c1 = g.cells();
        let ghost cols = g.cols as int;
        let ghost nrows = g.rows as int;
        let ghost cap = g.cap();
        let ghost mut ops: Seq<Op> = Seq::empty();
        let ghost all = popup_line_ops(row as int, left as int, box_w as int, text@);
        let ghost o = all[0];
        put_in_box(g, row, left, "│", Tone::BorderActive, Ghost(bx));
        proof { lemma_apply_push(c1, cols, nrows, cap, ops, o); ops = ops.push(o); }
        let ghost o = all[1];
        put_in_box(g, row, left + 2, text, Tone::Muted, Ghost(bx));
        proof { lemma_apply_push(c1, cols, nrows, cap, ops, o); ops = ops.push(o); }
        let ghost o = all[2];
        put_in_box(g, row, left + box_w - 1, "│", Tone::BorderActive, Ghost(bx));
        proof { lemma_apply_push(c1, cols, nrows, cap, ops, o); ops = ops.push(o); assert(ops =~= all); }
    }

    /// The word mark's colour on row `i` of 6: a vertical gradient from the
    /// theme's primary colour to its accent colour.
    pub open spec fn logo_tone(&self, i: int) -> Tone {
        let t = crate::theme::theme_of(self.theme);
        Tone::Rgb(
            crate::paint::gradient_spec(t.primary.0, t.accent.0, i, 5) as u8,
            crate::paint::gradient_spec(t.primary.1, t.accent.1, i, 5) as u8,
            crate::paint::gradient_spec(t.primary.2, t.accent.2, i, 5) as u8,
        )
    }

    /// The first screen's centred lines: the word mark (rows trimmed at the
    /// end, in gradient colours; `NEO` on terminals too narrow for it), the
    /// name and tagline, optionally the subtitle, and optionally version and
    /// session; `gaps` puts empty lines between the groups.
    pub open spec fn hero_of(&self, a: About, logo: bool, subtitle: bool, meta: bool, gaps: bool) -> Seq<(Seq<char>, Tone)> {
        let mark = if logo && self.cols >= WORDMARK_MIN_COLS {
            Seq::new(6, |i: int| (crate::text::trim_end(crate::tui::wordmark_rows()[i]), self.logo_tone(i)))
        } else {
            seq![("NEO"@, Tone::Primary)]
        };
        let gap: Seq<(Seq<char>, Tone)> = if gaps { seq![(Seq::empty(), Tone::Blank)] } else { Seq::empty() };
        let sub: Seq<(Seq<char>, Tone)> = if subtitle {
            seq![("Rust 内核 · TUI / Web / Exec 共享同一内核"@, Tone::Info)]
        } else {
            Seq::empty()
        };
        let info: Seq<(Seq<char>, Tone)> = if meta {
            gap + seq![("v"@ + a.version@ + " · 会话 "@ + a.session@, Tone::Muted)]
        } else {
            Seq::empty()
        };
        mark + gap + seq![("Neo"@, Tone::Text), (" —— 编程 Agent 内核"@, Tone::Muted)] + sub + info
    }

    pub fn hero_lines(&self, a: &About, logo: bool, subtitle: bool, meta: bool, gaps: bool) -> (r: Vec<Styled>)
        ensures
            r@.map_values(|p: Styled| (p.0@, p.1)) == self.hero_of(*a, logo, subtitle, meta, gaps),
    {
        let mut hero: Vec<Styled> = Vec::new();
        if logo && self.cols >= WORDMARK_MIN_COLS {
            let t = crate::theme::get(self.theme);
            let (pr, ac) = (t.primary, t.accent);
            let rows = crate::tui::wordmark();
            let mut i: usize = 0;
            while i < 6
                invariant
                    i <= 6,
                    t == crate::theme::theme_of(self.theme),
                    pr == t.primary,
                    ac == t.accent,
                    rows@.map_values(|x: &'static str| x@) == crate::tui::wordmark_rows(),
                    hero@.map_values(|p: Styled| (p.0@, p.1)) == Seq::new(
                        i as nat,
                        |k: int| (crate::text::trim_end(crate::tui::wordmark_rows()[k]), self.logo_tone(k)),
                    ),
                decreases 6 - i,
            {
                let tone = Tone::Rgb(
                    gradient_step(pr.0, ac.0, i as u32, 5),
                    gradient_step(pr.1, ac.1, i as u32, 5),
                    gradient_step(pr.2, ac.2, i as u32, 5),
                );
                let row = rows[i];
                assert(row@ == crate::tui::wordmark_rows()[i as int]);
                let v = chars_of(row);
                let trimmed = crate::text::trim_end_chars(v.as_slice());
                let ghost h0 = hero@.map_values(|p: Styled| (p.0@, p.1));
                assert(tone == self.logo_tone(i as int));
                let st = string_of(trimmed.as_slice());
                hero.push((st, tone));
                assert(hero@.map_values(|p: Styled| (p.0@, p.1)) =~= h0.push((st@, tone)));
                assert(hero@.map_values(|p: Styled| (p.0@, p.1)) =~= Seq::new(
                    (i + 1) as nat,
                    |k: int| (crate::text::trim_end(crate::tui::wordmark_rows()[k]), self.logo_tone(k)),
                ));
                i = i + 1;
            }
        } else {
            hero.push((owned("NEO"), Tone::Primary));
        }
        let ghost h1 = hero@.map_values(|p: Styled| (p.0@, p.1));
        if gaps {
            hero.push((String::new(), Tone::Blank));
        }
        hero.push((owned("Neo"), Tone::Text));
        hero.push((owned(" —— 编程 Agent 内核"), Tone::Muted));
        if subtitle {
            hero.push((owned("Rust 内核 · TUI / Web / Exec 共享同一内核"), Tone::Info));
        }
        if meta {
            if gaps {
                hero.push((String::new(), Tone::Blank));
            }
            let mut m = String::new();
            push_str(&mut m, "v");
            push_str(&mut m, a.version.as_str());
            push_str(&mut m, " · 会话 ");
            push_str(&mut m, a.session.as_str());
            hero.push((m, Tone::Muted));
        }
        assert(hero@.map_values(|p: Styled| (p.0@, p.1)) =~= self.hero_of(*a, logo, subtitle, meta, gaps));
        hero
    }

    /// The right-hand panel from column `x0`: a rule down its left edge; the
    /// latest turn's token use and its share of the context window (none
    /// when the window is unknown); the latest to-do list with its progress
    /// (12 items at most); the latest changed files with their line counts
    /// (10 at most, paths cut from the left); the branch (or model) at the
    /// bottom.
    pub fn draw_sidebar(&self, g: &mut Grid, x0: usize)
        requires
            self.fits(),
            old(g).wf(),
            no_newline_cells(old(g).cells()),
            old(g).cols == self.cols,
            old(g).rows == self.rows,
            x0 + SIDEBAR_COLS == self.cols,
        ensures
            final(g).wf(),
            no_newline_cells(final(g).cells()),
            final(g).cols == old(g).cols,
            final(g).rows == old(g).rows,
            final(g).put_limit == old(g).put_limit,
            final(g).cells() == apply_ops(
                old(g).cells(),
                old(g).cols as int,
                old(g).rows as int,
                old(g).cap(),
                sidebar_ops(self.facts@, self.about, self.cols as int, self.rows as int, x0 as int),
            ),
    {
        let ghost c0 = g.cells();
        let ghost cols = g.cols as int;
        let ghost nrows = g.rows as int;
        let ghost cap = g.cap();
        let ghost facts = self.facts@;
        let ghost x = x0 as int;
        let w = self.cols - x0;
        let inner = w - 3;
        let ghost mut ops: Seq<Op> = Seq::empty();
        let mut r: usize = 0;
        while r < self.rows
            invariant
                g.wf(),
                no_newline_cells(g.cells()),
                g.cols == self.cols,
                g.rows == self.rows,
                g.put_limit == old(g).put_limit,
                g.cap() == cap,
                cols == self.cols,
                nrows == self.rows,
                x == x0,
                r <= self.rows,
                ops == rule_ops(nrows, x).take(r as int),
                g.cells() == apply_ops(c0, cols, nrows, cap, ops),
            decreases self.rows - r,
        {
            let ghost o: Op = (r as int, x, "│"@, Tone::Border);
            g.put(r, x0, "│", Tone::Border);
            proof {
                lemma_apply_push(c0, cols, nrows, cap, ops, o);
                ops = ops.push(o);
                assert(ops =~= rule_ops(nrows, x).take(r + 1));
            }
            r = r + 1;
        }
        proof {
            assert(ops =~= rule_ops(nrows, x));
        }
        let row = self.sidebar_context(g, x0);
        proof {
            let sec = context_ops(facts, self.about, nrows, x).0;
            lemma_apply_concat(c0, cols, nrows, cap, ops, sec);
            ops = ops + sec;
        }
        let row = self.sidebar_todo(g, x0, row);
        proof {
            let sec = todo_ops(facts, nrows, x, inner as int, context_ops(facts, self.about, nrows, x).1).0;
            lemma_apply_concat(c0, cols, nrows, cap, ops, sec);
            ops = ops + sec;
        }
        self.sidebar_files(g, x0, row);
        proof {
            let c = context_ops(facts, self.about, nrows, x);
            let sec = files_ops(facts, nrows, x, w as int, todo_ops(facts, nrows, x, inner as int, c.1).1);
            lemma_apply_concat(c0, cols, nrows, cap, ops, sec);
            ops = ops + sec;
        }
        // the branch (or the model) at the bottom
        let ghost base = ops;
        if let Some(a) = self.about {
            if self.rows > 2 {
                let label = if a.branch.unicode_len() == 0 {
                    a.model.as_str()
                } else {
                    a.branch.as_str()
                };
                let t = crate::width::truncate_to_width(label, inner);
                let ghost o: Op = (self.rows - 2, x + 2, t@, Tone::Border);
                g.put(self.rows - 2, x0 + 2, t, Tone::Border);
                proof {
                    lemma_apply_push(c0, cols, nrows, cap, ops, o);
                    ops = ops.push(o);
                }
            }
        }
        proof {
            assert(ops =~= base + footer_ops(self.about, nrows, x, inner as int));
            assert(ops =~= sidebar_ops(facts, self.about, self.cols as int, self.rows as int, x));
        }
    }

    /// The sidebar's context section (see `context_ops`); gives the row
    /// after it.
    fn sidebar_context(&self, g: &mut Grid, x0: usize) -> (row: usize)
        requires
            self.fits(),
            old(g).wf(),
            no_newline_cells(old(g).cells()),
            old(g).cols == self.cols,
            old(g).rows == self.rows,
            x0 + SIDEBAR_COLS == self.cols,
        ensures
            final(g).wf(),
            no_newline_cells(final(g).cells()),
            final(g).cols == old(g).cols,
            final(g).rows == old(g).rows,
            final(g).put_limit == old(g).put_limit,
            final(g).cells() == apply_ops(
                old(g).cells(),
                old(g).cols as int,
                old(g).rows as int,
                old(g).cap(),
                context_ops(self.facts@, self.about, self.rows as int, x0 as int).0,
            ),
            row as int == context_ops(self.facts@, self.about, self.rows as int, x0 as int).1,
    {
        let ghost c0 = g.cells();
        let ghost cols = g.cols as int;
        let ghost nrows = g.rows as int;
        let ghost cap = g.cap();
        let ghost facts = self.facts@;
        let ghost x = x0 as int;
        let ghost mut ops: Seq<Op> = Seq::empty();
        let mut row: usize = 1;
        // the latest turn's usage
        let mut last: (u64, u64) = (0, 0);
        let mut k = self.facts.len();
        proof {
            assert(self.facts@.take(k as int) =~= self.facts@);
        }
        while k > 0
            invariant_except_break
                last == (0u64, 0u64),
                last_usage(facts) == last_usage(facts.take(k as int)),
            invariant
                k <= self.facts@.len(),
                facts == self.facts@,
                self.fits(),
                (last.0 + last.1) * 100 <= u64::MAX,
            ensures
                last == last_usage(facts),
                (last.0 + last.1) * 100 <= u64::MAX,
            decreases k,
        {
            k = k - 1;
            proof {
                assert(facts.take(k + 1).drop_last() =~= facts.take(k as int));
                assert(facts.take(k + 1).last() == facts[k as int]);
            }
            if let Fact::TurnFinished { input_tokens, output_tokens } = &self.facts[k] {
                assert(fact_fits(self.facts@[k as int]));
                last = (*input_tokens, *output_tokens);
                break;
            }
        }
        let (last_in, last_out) = last;
        let ghost base = ops;
        if row < self.rows {
            let ghost o: Op = (1int, x + 2, "Context"@, Tone::Text);
            g.put(row, x0 + 2, "Context", Tone::Text);
            proof {
                lemma_apply_push(c0, cols, nrows, cap, ops, o);
                ops = ops.push(o);
            }
            row = row + 1;
        }
        let mut usage = String::new();
        push_dec(&mut usage, last_in);
        push_str(&mut usage, " in / ");
        push_dec(&mut usage, last_out);
        push_str(&mut usage, " out");
        proof {
            assert(usage@ =~= dec_of(last_in as nat) + " in / "@ + dec_of(last_out as nat) + " out"@);
        }
        let ghost o1: Op = (row as int, x + 2, usage@, Tone::Muted);
        g.put(row, x0 + 2, usage.as_str(), Tone::Muted);
        proof {
            lemma_apply_push(c0, cols, nrows, cap, ops, o1);
            ops = ops.push(o1);
        }
        row = row + 1;
        let limit: u64 = match self.about {
            Some(a) => a.context_limit,
            None => 0,
        };
        if limit == 0 {
            let ghost o: Op = (row as int, x + 2, "上限未知"@, Tone::Muted);
            g.put(row, x0 + 2, "上限未知", Tone::Muted);
            proof {
                lemma_apply_push(c0, cols, nrows, cap, ops, o);
                ops = ops.push(o);
            }
            row = row + 1;
        } else {
            let used = last_in + last_out;
            let q = used * 100 / limit;
            let pct = if q < 999 {
                q
            } else {
                999
            };
            let tone = if pct >= 90 {
                Tone::Error
            } else if pct >= 70 {
                Tone::Warning
            } else {
                Tone::Muted
            };
            let mut m = String::new();
            push_dec(&mut m, pct);
            push_str(&mut m, "% of ");
            push_dec(&mut m, limit);
            proof {
                assert(pct as int == pct_of(last_in + last_out, limit as int));
                assert(m@ =~= dec_of(pct as nat) + "% of "@ + dec_of(limit as nat));
            }
            let ghost o: Op = (row as int, x + 2, m@, tone);
            g.put(row, x0 + 2, m.as_str(), tone);
            proof {
                lemma_apply_push(c0, cols, nrows, cap, ops, o);
                ops = ops.push(o);
            }
            row = row + 1;
        }
        proof {
            let c = context_ops(facts, self.about, nrows, x);
            assert(ops =~= base + c.0);
            assert(row == c.1);
        }
        row
    }

    /// The sidebar's to-do section after row `row` (see `todo_ops`); gives
    /// the row after it.
    fn sidebar_todo(&self, g: &mut Grid, x0: usize, row: usize) -> (end: usize)
        requires
            self.fits(),
            old(g).wf(),
            no_newline_cells(old(g).cells()),
            old(g).cols == self.cols,
            old(g).rows == self.rows,
            x0 + SIDEBAR_COLS == self.cols,
            row <= 8,
        ensures
            final(g).wf(),
            no_newline_cells(final(g).cells()),
            final(g).cols == old(g).cols,
            final(g).rows == old(g).rows,
            final(g).put_limit == old(g).put_limit,
            final(g).cells() == apply_ops(
                old(g).cells(),
                old(g).cols as int,
                old(g).rows as int,
                old(g).cap(),
                todo_ops(self.facts@, self.rows as int, x0 as int, SIDEBAR_COLS - 3, row as int).0,
            ),
            end as int == todo_ops(self.facts@, self.rows as int, x0 as int, SIDEBAR_COLS - 3, row as int).1,
            end <= row + 16,
    {
        let ghost c0 = g.cells();
        let ghost cols = g.cols as int;
        let ghost nrows = g.rows as int;
        let ghost cap = g.cap();
        let ghost facts = self.facts@;
        let ghost x = x0 as int;
        let ghost mut ops: Seq<Op> = Seq::empty();
        let w = self.cols - x0;
        let inner = w - 3;
        let mut row = row;
        // the latest to-do list
        let ghost base = ops;
        let ghost row_c = row as int;
        let mut k = self.facts.len();
        proof {
            assert(self.facts@.take(k as int) =~= self.facts@);
        }
        let mut todo: Option<&Vec<TodoEntry>> = None;
        while k > 0
            invariant_except_break
                todo is None,
                latest_todo(facts) == latest_todo(facts.take(k as int)),
            invariant
                k <= self.facts@.len(),
                facts == self.facts@,
            ensures
                match todo {
                    None => latest_todo(facts) is None,
                    Some(items) => latest_todo(facts) == Some(items@),
                },
            decreases k,
        {
            k = k - 1;
            proof {
                assert(facts.take(k + 1).drop_last() =~= facts.take(k as int));
                assert(facts.take(k + 1).last() == facts[k as int]);
            }
            if let Fact::TodoList(items) = &self.facts[k] {
                todo = Some(items);
                break;
            }
        }
        if let Some(items) = todo {
            let mut done: usize = 0;
            let mut j: usize = 0;
            while j < items.len()
                invariant
                    j <= items@.len(),
                    done <= j,
                    done == done_of(items@.take(j as int)),
                decreases items@.len() - j,
            {
                proof {
                    assert(items@.take(j + 1).drop_last() =~= items@.take(j as int));
                }
                if items[j].status == TodoStatus::Completed {
                    done = done + 1;
                }
                j = j + 1;
            }
            proof {
                assert(items@.take(j as int) =~= items@);
            }
            row = row + 1;
            if row < self.rows {
                let mut h = String::new();
                push_str(&mut h, "Todo ");
                push_dec(&mut h, done as u64);
                push_str(&mut h, "/");
                push_dec(&mut h, items.len() as u64);
                proof {
                    assert(h@ =~= "Todo "@ + dec_of(done_of(items@)) + "/"@ + dec_of(items@.len()));
                }
                let ghost o: Op = (row as int, x + 2, h@, Tone::Text);
                g.put(row, x0 + 2, h.as_str(), Tone::Text);
                proof {
                    lemma_apply_push(c0, cols, nrows, cap, ops, o);
                    ops = ops.push(o);
                }
                row = row + 1;
            }
            let ghost head = ops;
            let ghost top = row as int;
            let mut j: usize = 0;
            while j < items.len() && j < 12 && row < self.rows
                invariant
                    g.wf(),
                    no_newline_cells(g.cells()),
                    g.cols == self.cols,
                    g.rows == self.rows,
                    g.put_limit == old(g).put_limit,
                    g.cap() == cap,
                    cols == self.cols,
                    nrows == self.rows,
                    x == x0,
                    g.cells() == apply_ops(c0, cols, nrows, cap, ops),
                    j <= items@.len(),
                    j <= 12,
                    j <= sat_sub(nrows, top),
                    row == top + j,
                    top <= 40,
                    frame_fits(self.cols as int, self.rows as int),
                    x0 + SIDEBAR_COLS == self.cols,
                    inner == SIDEBAR_COLS - 3,
                    ops == head + todo_item_ops(items@, j as int, top, x, inner as int),
                decreases items@.len() - j,
            {
                let it = &items[j];
                let (mark, tone) = match it.status {
                    TodoStatus::Completed => ("✓", Tone::Success),
                    TodoStatus::InProgress => ("•", Tone::Warning),
                    TodoStatus::Pending => ("·", Tone::Muted),
                };
                let ghost o: Op = (row as int, x + 2, mark@, tone);
                g.put(row, x0 + 2, mark, tone);
                proof {
                    lemma_apply_push(c0, cols, nrows, cap, ops, o);
                    ops = ops.push(o);
                }
                let text = crate::width::truncate_to_width(it.content.as_str(), inner.saturating_sub(3));
                let ghost o2: Op = (row as int, x + 4, text@, tone);
                g.put(row, x0 + 4, text, tone);
                proof {
                    lemma_apply_push(c0, cols, nrows, cap, ops, o2);
                    ops = ops.push(o2);
                    assert(sidebar_mark(items@[j as int].status) == (mark@, tone));
                    assert(ops =~= head + todo_item_ops(items@, j + 1, top, x, inner as int));
                }
                row = row + 1;
                j = j + 1;
            }
            proof {
                assert(j == min_int(min_int(items@.len() as int, 12), sat_sub(nrows, top)));
            }
            if items.len() > 12 {
                let mut m = String::new();
                push_str(&mut m, "… 另 ");
                push_dec(&mut m, (items.len() - 12) as u64);
                push_str(&mut m, " 项");
                proof {
                    assert(m@ =~= "… 另 "@ + dec_of((items@.len() - 12) as nat) + " 项"@);
                }
                let ghost o: Op = (row as int, x + 2, m@, Tone::Muted);
                g.put(row, x0 + 2, m.as_str(), Tone::Muted);
                proof {
                    lemma_apply_push(c0, cols, nrows, cap, ops, o);
                    ops = ops.push(o);
                }
                row = row + 1;
            }
            proof {
                let t = todo_ops(facts, nrows, x, inner as int, row_c);
                assert(ops =~= base + t.0);
                assert(row == t.1);
            }
        } else {
            proof {
                assert(ops =~= base + todo_ops(facts, nrows, x, inner as int, row_c).0);
            }
        }
        row
    }

    /// The sidebar's changed-files section after row `row` (see
    /// `files_ops`).
    fn sidebar_files(&self, g: &mut Grid, x0: usize, row: usize)
        requires
            self.fits(),
            old(g).wf(),
            no_newline_cells(old(g).cells()),
            old(g).cols == self.cols,
            old(g).rows == self.rows,
            x0 + SIDEBAR_COLS == self.cols,
            row <= 32,
        ensures
            final(g).wf(),
            no_newline_cells(final(g).cells()),
            final(g).cols == old(g).cols,
            final(g).rows == old(g).rows,
            final(g).put_limit == old(g).put_limit,
            final(g).cells() == apply_ops(
                old(g).cells(),
                old(g).cols as int,
                old(g).rows as int,
                old(g).cap(),
                files_ops(self.facts@, self.rows as int, x0 as int, SIDEBAR_COLS as int, row as int),
            ),
    {
        let ghost c0 = g.cells();
        let ghost cols = g.cols as int;
        let ghost nrows = g.rows as int;
        let ghost cap = g.cap();
        let ghost facts = self.facts@;
        let ghost x = x0 as int;
        let ghost mut ops: Seq<Op> = Seq::empty();
        let w = self.cols - x0;
        let inner = w - 3;
        let mut row = row;
        // the latest changed files
        let ghost base = ops;
        let ghost row_t = row as int;
        let mut k = self.facts.len();
        proof {
            assert(self.facts@.take(k as int) =~= self.facts@);
        }
        let mut files: Option<&Vec<FileChange>> = None;
        while k > 0
            invariant_except_break
                files is None,
                latest_files(facts) == latest_files(facts.take(k as int)),
            invariant
                k <= self.facts@.len(),
                facts == self.facts@,
                self.fits(),
                files matches Some(fs) ==> forall|i: int| 0 <= i < fs@.len() ==> file_fits(#[trigger] fs@[i]),
            ensures
                files matches Some(fs) ==> forall|i: int| 0 <= i < fs@.len() ==> file_fits(#[trigger] fs@[i]),
                match files {
                    None => latest_files(facts) is None,
                    Some(fs) => latest_files(facts) == Some(fs@),
                },
            decreases k,
        {
            k = k - 1;
            proof {
                assert(facts.take(k + 1).drop_last() =~= facts.take(k as int));
                assert(facts.take(k + 1).last() == facts[k as int]);
            }
            if let Fact::FilesChanged(fs) = &self.facts[k] {
                assert(fact_fits(self.facts@[k as int]));
                files = Some(fs);
                break;
            }
        }
        if let Some(fs) = files {
            row = row + 1;
            if row < self.rows {
                let ghost o: Op = (row as int, x + 2, "Modified Files"@, Tone::Text);
                g.put(row, x0 + 2, "Modified Files", Tone::Text);
                proof {
                    lemma_apply_push(c0, cols, nrows, cap, ops, o);
                    ops = ops.push(o);
                }
                row = row + 1;
            }
            let ghost head = ops;
            let ghost top = row as int;
            let mut j: usize = 0;
            while j < fs.len() && j < 10 && row < self.rows
                invariant
                    g.wf(),
                    no_newline_cells(g.cells()),
                    g.cols == self.cols,
                    g.rows == self.rows,
                    g.put_limit == old(g).put_limit,
                    g.cap() == cap,
                    cols == self.cols,
                    nrows == self.rows,
                    x == x0,
                    g.cells() == apply_ops(c0, cols, nrows, cap, ops),
                    j <= fs@.len(),
                    j <= 10,
                    j <= sat_sub(nrows, top),
                    row == top + j,
                    top <= 40,
                    frame_fits(self.cols as int, self.rows as int),
                    x0 + SIDEBAR_COLS == self.cols,
                    inner == SIDEBAR_COLS - 3,
                    w == SIDEBAR_COLS,
                    forall|i: int| 0 <= i < fs@.len() ==> file_fits(#[trigger] fs@[i]),
                    ops == head + file_item_ops(fs@, j as int, top, x, w as int),
                decreases fs@.len() - j,
            {
                let ghost before = ops;
                let f = &fs[j];
                assert(file_fits(fs@[j as int]));
                let mut counts = String::new();
                push_str(&mut counts, " +");
                push_dec(&mut counts, f.additions as u64);
                push_str(&mut counts, " -");
                push_dec(&mut counts, f.deletions as u64);
                proof {
                    reveal_strlit(" +");
                    reveal_strlit(" -");
                    crate::width::lemma_width_at_most_twice_len(f.path@);
                    assert(counts@ =~= counts_of(fs@[j as int]));
                }
                let clen = counts.unicode_len();
                let budget = inner.saturating_sub(clen);
                let name = truncate_left(f.path.as_str(), budget);
                let ghost o: Op = (row as int, x + 2, name@, Tone::Muted);
                g.put(row, x0 + 2, name.as_str(), Tone::Muted);
                proof {
                    lemma_apply_push(c0, cols, nrows, cap, ops, o);
                    ops = ops.push(o);
                    crate::tui::law_truncate_left_fits(f.path@, budget as int);
                }
                let cx = x0 + w - 2 - clen;
                if cx > (x0 + 2).saturating_add(display_width(name.as_str())) {
                    let tone = if f.deletions > 0 && f.additions == 0 {
                        Tone::Error
                    } else {
                        Tone::Success
                    };
                    let shown = crate::text::trim_str(counts.as_str());
                    let ghost o2: Op = (row as int, cx as int, shown@, tone);
                    g.put(row, cx, shown, tone);
                    proof {
                        lemma_apply_push(c0, cols, nrows, cap, ops, o2);
                        ops = ops.push(o2);
                    }
                }
                proof {
                    assert(ops =~= before + file_row_ops(fs@[j as int], row as int, x, w as int));
                    assert(ops =~= head + file_item_ops(fs@, j + 1, top, x, w as int));
                }
                row = row + 1;
                j = j + 1;
            }
            proof {
                assert(j == min_int(min_int(fs@.len() as int, 10), sat_sub(nrows, top)));
            }
            if fs.len() > 10 && row < self.rows {
                let mut m = String::new();
                push_str(&mut m, "… 另 ");
                push_dec(&mut m, (fs.len() - 10) as u64);
                push_str(&mut m, " 个");
                proof {
                    assert(m@ =~= "… 另 "@ + dec_of((fs@.len() - 10) as nat) + " 个"@);
                }
                let ghost o: Op = (row as int, x + 2, m@, Tone::Muted);
                g.put(row, x0 + 2, m.as_str(), Tone::Muted);
                proof {
                    lemma_apply_push(c0, cols, nrows, cap, ops, o);
                    ops = ops.push(o);
                }
            }
            proof {
                assert(ops =~= base + files_ops(facts, nrows, x, w as int, row_t));
            }
        } else {
            proof {
                assert(ops =~= base + files_ops(facts, nrows, x, w as int, row_t));
            }
        }
    }

    /// Wraps `text` to the prompt's width less `indent` and appends the
    /// pieces as rows at `indent` in `tone`.
    fn trust_push(&self, indent: usize, text: &str, tone: Tone, rows: &mut Vec<(usize, String, Tone)>)
        requires
            indent <= 8,
            forall|k: int| 0 <= k < old(rows)@.len() ==> (#[trigger] old(rows)@[k]).0 <= 8,
        ensures
            forall|k: int| 0 <= k < final(rows)@.len() ==> (#[trigger] final(rows)@[k]).0 <= 8,
            rows_view(final(rows)@) == rows_view(old(rows)@) + trust_piece(
                self.cols as int,
                indent as int,
                text@,
                tone,
            ),
    {
        let w = self.cols.saturating_sub(3 * 2 + indent);
        let ws = wrap_to_width(text, w);
        let mut j: usize = 0;
        while j < ws.len()
            invariant
                j <= ws@.len(),
                indent <= 8,
                forall|k: int| 0 <= k < rows@.len() ==> (#[trigger] rows@[k]).0 <= 8,
                ws@.map_values(|l: String| l@) == wrapped(text@, w as int),
                w as int == sat_sub(self.cols as int, 6 + indent),
                rows_view(rows@) == rows_view(old(rows)@) + trust_piece(
                    self.cols as int,
                    indent as int,
                    text@,
                    tone,
                ).take(j as int),
            decreases ws@.len() - j,
        {
            let ghost before = rows@;
            let item = (indent, owned(ws[j].as_str()), tone);
            rows.push(item);
            proof {
                let piece = trust_piece(self.cols as int, indent as int, text@, tone);
                assert(rows@ == before.push(item));
                assert(ws@.map_values(|l: String| l@)[j as int] == ws@[j as int]@);
                assert(piece.len() == ws@.len());
                assert(piece[j as int] == (indent as int, ws@[j as int]@, tone));
                assert(rows_view(rows@) =~= rows_view(before).push((indent as int, ws@[j as int]@, tone)));
                assert(piece.take(j + 1) =~= piece.take(j as int).push(piece[j as int]));
                assert(rows_view(rows@) =~= rows_view(old(rows)@) + piece.take(j + 1));
            }
            j = j + 1;
        }
        proof {
            assert(trust_piece(self.cols as int, indent as int, text@, tone).len() == ws@.len());
            assert(trust_piece(self.cols as int, indent as int, text@, tone).take(j as int) =~= trust_piece(
                self.cols as int,
                indent as int,
                text@,
                tone,
            ));
        }
    }

    /// The workspace trust prompt, centred vertically behind a bar: the
    /// workspace, the risk explained, the two choices (the selected one
    /// marked) and the keys.
    #[verifier::spinoff_prover]
    pub fn layout_trust(&self, g: &mut Grid, t: &TrustPrompt)
        requires
            frame_fits(self.cols as int, self.rows as int),
            old(g).wf(),
            no_newline_cells(old(g).cells()),
            old(g).cols == self.cols,
            old(g).rows == self.rows,
        ensures
            final(g).wf(),
            no_newline_cells(final(g).cells()),
            final(g).cols == old(g).cols,
            final(g).rows == old(g).rows,
            final(g).put_limit == old(g).put_limit,
            final(g).cells() == trust_drawn(
                old(g).cells(),
                old(g).cols as int,
                old(g).rows as int,
                old(g).cap(),
                trust_rows(self.cols as int, workspace_of(self.about), t.selected as int),
            ),
    {
        let m: usize = 3;
        let ghost cols = self.cols as int;
        let ghost c0 = g.cells();
        let ghost cap = g.cap();
        let mut rows: Vec<(usize, String, Tone)> = Vec::new();
        proof {
            assert(rows_view(rows@) =~= Seq::empty());
        }
        self.trust_push(0, "● 访问工作区：", Tone::Info, &mut rows);
        let ws = match self.about {
            Some(a) => owned(a.workspace.as_str()),
            None => String::new(),
        };
        assert(ws@ == workspace_of(self.about));
        self.trust_push(2, ws.as_str(), Tone::Text, &mut rows);
        let ghost p1 = rows_view(rows@);
        rows.push((0, String::new(), Tone::Blank));
        proof {
            assert(rows_view(rows@) =~= p1.push(blank_row()));
        }
        self.trust_push(0, TRUST_QUESTION, Tone::Text, &mut rows);
        self.trust_push(0, TRUST_CHECK, Tone::Muted, &mut rows);
        self.trust_push(0, TRUST_RISK, Tone::Error, &mut rows);
        let ghost p2 = rows_view(rows@);
        rows.push((0, String::new(), Tone::Blank));
        proof {
            assert(rows_view(rows@) =~= p2.push(blank_row()));
        }
        self.trust_push(0, "◆", Tone::Accent, &mut rows);
        let ghost p3 = rows_view(rows@);
        rows.push((0, String::new(), Tone::Blank));
        proof {
            assert(rows_view(rows@) =~= p3.push(blank_row()));
        }
        let ghost pre = rows_view(rows@);
        let ghost choices = seq![
            trust_option(TRUST_YES@, t.selected == 0),
            trust_option(TRUST_NO@, t.selected == 1),
        ];
        let opts = [TRUST_YES, TRUST_NO];
        let mut i: usize = 0;
        while i < 2
            invariant
                i <= 2,
                opts@ == seq![TRUST_YES, TRUST_NO],
                forall|k: int| 0 <= k < rows@.len() ==> (#[trigger] rows@[k]).0 <= 8,
                choices == seq![
                    trust_option(TRUST_YES@, t.selected == 0),
                    trust_option(TRUST_NO@, t.selected == 1),
                ],
                rows_view(rows@) == pre + choices.take(i as int),
            decreases 2 - i,
        {
            let ghost before = rows_view(rows@);
            let selected = i == t.selected;
            let (dot, tt) = if selected {
                ("●", Tone::Text)
            } else {
                ("○", Tone::Muted)
            };
            let mut line = String::new();
            push_str(&mut line, dot);
            push_str(&mut line, " ");
            push_str(&mut line, opts[i]);
            let item = (2, line, tt);
            rows.push(item);
            proof {
                assert(line@ == dot@ + " "@ + opts@[i as int]@);
                assert(choices[i as int] == (2int, line@, tt));
                assert(rows_view(rows@) =~= before.push(choices[i as int]));
                assert(choices.take(i + 1) =~= choices.take(i as int).push(choices[i as int]));
            }
            i = i + 1;
        }
        let ghost p4 = rows_view(rows@);
        rows.push((0, String::new(), Tone::Blank));
        proof {
            assert(rows_view(rows@) =~= p4.push(blank_row()));
        }
        self.trust_push(2, TRUST_KEYS, Tone::Border, &mut rows);
        let ghost rs = rows_view(rows@);
        proof {
            assert(choices.take(2) =~= choices);
            assert(rs =~= trust_rows(self.cols as int, workspace_of(self.about), t.selected as int));
        }
        let n = rows.len();
        let top = self.rows.saturating_sub(n) / 2;
        let mut i: usize = 0;
        while i < n
            invariant
                g.wf(),
                no_newline_cells(g.cells()),
                g.cols == self.cols,
                g.rows == self.rows,
                g.put_limit == old(g).put_limit,
                g.cap() == cap,
                n == rows@.len(),
                rs == rows_view(rows@),
                i <= n,
                forall|k: int| 0 <= k < n ==> (#[trigger] rows@[k]).0 <= 8,
                m == 3,
                top <= self.rows,
                top as int == sat_sub(self.rows as int, n as int) / 2,
                frame_fits(self.cols as int, self.rows as int),
                g.cells() == placed_rows(c0, cols, self.rows as int, cap, top as int, rs.take(i as int)),
                cols == self.cols,
            decreases n - i,
        {
            let ghost prev = g.cells();
            let item = &rows[i];
            assert(rows@[i as int].0 <= 8);
            let indent = item.0;
            proof {
                assert(rs.take(i + 1).drop_last() =~= rs.take(i as int));
                assert(rs.take(i + 1).last() == rs[i as int]);
                assert(rs[i as int] == (indent as int, item.1@, item.2));
            }
            if item.1.unicode_len() != 0 {
                g.put(top.saturating_add(i), m + indent, item.1.as_str(), item.2);
            }
            i = i + 1;
        }
        proof {
            assert(rs.take(n as int) =~= rs);
        }
        let ghost placed = g.cells();
        let bar_bottom = if top + n < self.rows {
            top + n
        } else {
            self.rows
        };
        let mut r = top;
        while r < bar_bottom
            invariant
                g.wf(),
                no_newline_cells(g.cells()),
                g.cols == self.cols,
                g.rows == self.rows,
                g.put_limit == old(g).put_limit,
                g.cap() == cap,
                cols == self.cols,
                top <= r <= bar_bottom,
                bar_bottom <= self.rows,
                g.cells() == bar_rows(placed, cols, self.rows as int, cap, top as int, r as int),
            decreases bar_bottom - r,
        {
            g.put(r, 1, "┃", Tone::Accent);
            r = r + 1;
        }
    }

    /// The first screen's lines: the richest set that leaves room for the
    /// chrome (word mark, subtitle and meta, gaps), dropping the meta, then
    /// the subtitle, then the word mark, then the gaps.
    pub open spec fn welcome_hero(&self, a: About) -> Seq<(Seq<char>, Tone)> {
        let t1 = self.hero_of(a, true, true, true, true);
        let t2 = self.hero_of(a, true, true, false, true);
        let t3 = self.hero_of(a, true, false, false, true);
        let t4 = self.hero_of(a, false, false, false, true);
        let t5 = self.hero_of(a, false, false, false, false);
        let room = self.rows - chrome_rows_of(1);
        if t1.len() <= room {
            t1
        } else if t2.len() <= room {
            t2
        } else if t3.len() <= room {
            t3
        } else if t4.len() <= room {
            t4
        } else {
            t5
        }
    }

    /// Row where the chrome starts on the first screen: the lines and the
    /// chrome are centred together.
    pub open spec fn welcome_top(&self, a: About) -> int {
        let h = self.welcome_hero(a).len() as int;
        sat_sub(self.rows as int, h + chrome_rows_of(self.input@.lines.len() as int)) / 2 + h
    }

    /// The first screen: its lines and the input chrome, centred together.
    /// Gives the chrome's top row and the cursor.
    pub fn layout_welcome(&self, g: &mut Grid, a: &About) -> (r: (usize, Option<(usize, usize)>))
        requires
            self.fits(),
            old(g).wf(),
            no_newline_cells(old(g).cells()),
            old(g).cols == self.cols,
            old(g).rows == self.rows,
        ensures
            final(g).wf(),
            no_newline_cells(final(g).cells()),
            final(g).cols == old(g).cols,
            final(g).rows == old(g).rows,
            final(g).put_limit == old(g).put_limit,
            r.0 == self.welcome_top(*a),
            final(g).cells() == self.chrome_drawn(
                centred_rows(
                    old(g).cells(),
                    old(g).cols as int,
                    old(g).rows as int,
                    old(g).cap(),
                    self.welcome_top(*a) - self.welcome_hero(*a).len(),
                    self.welcome_hero(*a),
                ),
                old(g).cap(),
                self.welcome_top(*a),
            ),
            match r.1 {
                Some((y, x)) => self.cursor_at(r.0 as int) == Some((y as int, x as int)),
                None => self.cursor_at(r.0 as int) is None,
            },
    {
        let room = self.rows as i64 - chrome_rows(1) as i64;
        let t1 = self.hero_lines(a, true, true, true, true);
        let chosen = if (t1.len() as i64) <= room {
            t1
        } else {
            let t2 = self.hero_lines(a, true, true, false, true);
            if (t2.len() as i64) <= room {
                t2
            } else {
                let t3 = self.hero_lines(a, true, false, false, true);
                if (t3.len() as i64) <= room {
                    t3
                } else {
                    let t4 = self.hero_lines(a, false, false, false, true);
                    if (t4.len() as i64) <= room {
                        t4
                    } else {
                        self.hero_lines(a, false, false, false, false)
                    }
                }
            }
        };
        let ghost hero = self.welcome_hero(*a);
        assert(chosen@.map_values(|p: Styled| (p.0@, p.1)) == hero);
        assert(chosen@.len() == hero.len());
        let ghost c0 = g.cells();
        let ghost cols = g.cols as int;
        let ghost nrows = g.rows as int;
        let ghost cap = g.cap();
        let n = chosen.len();
        assert(n <= 16);
        let group = n + chrome_rows(self.input.line_count());
        let group_top = self.rows.saturating_sub(group) / 2;
        let mut i: usize = 0;
        while i < n
            invariant
                g.wf(),
                no_newline_cells(g.cells()),
                g.cols == self.cols,
                g.rows == self.rows,
                g.put_limit == old(g).put_limit,
                i <= n,
                n == chosen@.len(),
                n <= 16,
                group_top <= self.rows,
                frame_fits(self.cols as int, self.rows as int),
                g.cap() == cap,
                cols == self.cols,
                nrows == self.rows,
                chosen@.map_values(|p: Styled| (p.0@, p.1)) == hero,
                g.cells() == centred_rows(c0, cols, nrows, cap, group_top as int, hero.take(i as int)),
            decreases n - i,
        {
            let mut one: Vec<Styled> = Vec::new();
            one.push((owned(chosen[i].0.as_str()), chosen[i].1));
            proof {
                assert(hero[i as int] == (chosen@[i as int].0@, chosen@[i as int].1));
                assert(seg_views(one@) =~= seq![hero[i as int]]);
                assert(hero.take(i + 1).drop_last() =~= hero.take(i as int));
                assert(hero.take(i + 1).last() == hero[i as int]);
            }
            g.put_centered_styled(group_top + i, one.as_slice());
            i = i + 1;
        }
        proof {
            assert(hero.take(n as int) =~= hero);
        }
        let top = group_top + n;
        let cursor = self.draw_chrome(g, top);
        (top, cursor)
    }

    /// The conversation: the visible window of the transcript above the
    /// chrome (bottom-aligned while following, top-aligned when scrolled),
    /// search hits coloured and marked at the right edge (the current one
    /// with ▶), and a note of how many lines are below when scrolled up.
    /// Gives the chrome's top row (the rows left after the chrome) and the
    /// cursor.
    #[verifier::spinoff_prover]
    #[verifier::rlimit(60)]
    pub fn layout_transcript(&self, g: &mut Grid) -> (r: (usize, Option<(usize, usize)>))
        requires
            self.fits(),
            self.rows >= chrome_rows_of(self.input@.lines.len() as int),
            old(g).wf(),
            no_newline_cells(old(g).cells()),
            old(g).cols == self.cols,
            old(g).rows == self.rows,
        ensures
            final(g).wf(),
            no_newline_cells(final(g).cells()),
            final(g).cols == old(g).cols,
            final(g).rows == old(g).rows,
            final(g).put_limit == old(g).put_limit,
            r.0 == self.rows - chrome_rows_of(self.input@.lines.len() as int),
            final(g).cells() == self.chrome_drawn(
                apply_ops(old(g).cells(), old(g).cols as int, old(g).rows as int, old(g).cap(), self.transcript_ops()),
                old(g).cap(),
                self.rows - chrome_rows_of(self.input@.lines.len() as int),
            ),
            match r.1 {
                Some((y, x)) => self.cursor_at(r.0 as int) == Some((y as int, x as int)),
                None => self.cursor_at(r.0 as int) is None,
            },
    {
        let lines = fact_lines(self.facts, self.body_cols());
        let body = self.rows.saturating_sub(chrome_rows(self.input.line_count()));
        let total = lines.len();
        let (start, end) = match self.view {
            Some(v) => v.window(total, body),
            None => (total.saturating_sub(body), total),
        };
        let stop = if end < total {
            end
        } else {
            total
        };
        let count = if start < stop {
            stop - start
        } else {
            0
        };
        let follow = match self.view {
            Some(v) => v.follow(),
            None => true,
        };
        let top = if follow {
            body.saturating_sub(count)
        } else {
            0
        };
        let none: Vec<usize> = Vec::new();
        let (current, hits): (Option<usize>, &Vec<usize>) = match self.view {
            Some(v) => match v.search() {
                Some(s) => (Some(s.current), &s.hits),
                None => (None, &none),
            },
            None => (None, &none),
        };
        let body_cols = self.body_cols();
        let ghost c0 = g.cells();
        let ghost cols = g.cols as int;
        let ghost nrows = g.rows as int;
        let ghost cap = g.cap();
        let ghost ls = transcript_of(self.facts@, sat_sub(body_cols as int, 4));
        let ghost cur_spec: Option<int> = match current {
            Some(c) => Some(c as int),
            None => None,
        };
        let ghost mut ops: Seq<Op> = Seq::empty();
        proof {
            assert(lines_of(lines@) == ls);
            assert(ls.len() == lines@.len());
        }
        let mut i: usize = 0;
        while i < count
            invariant
                g.wf(),
                no_newline_cells(g.cells()),
                g.cols == self.cols,
                g.rows == self.rows,
                g.put_limit == old(g).put_limit,
                i <= count,
                total == lines@.len(),
                count <= total,
                start + count <= total,
                top == 0 || top + count <= body,
                top <= self.rows,
                frame_fits(self.cols as int, self.rows as int),
                g.cap() == cap,
                cols == self.cols,
                nrows == self.rows,
                lines_of(lines@) == ls,
                cur_spec == (match current {
                    Some(c) => Some(c as int),
                    None => None,
                }),
                g.cells() == apply_ops(c0, cols, nrows, cap, ops),
                ops == window_ops(ls, start as int, top as int, i as int, hits@, cur_spec, body_cols as int),
            decreases count - i,
        {
            let abs = start + i;
            let mut is_hit = false;
            let mut h: usize = 0;
            while h < hits.len()
                invariant
                    h <= hits@.len(),
                    is_hit == exists|j: int| 0 <= j < h && hits@[j] == abs,
                decreases hits@.len() - h,
            {
                if hits[h] == abs {
                    is_hit = true;
                }
                h = h + 1;
            }
            assert(is_hit == is_hit_line(hits@, abs as int));
            let is_current = match current {
                Some(c) => c < hits.len() && hits[c] == abs,
                None => false,
            };
            assert(is_current == is_current_line(hits@, cur_spec, abs as int));
            let segs = &lines[abs];
            let row_i = top + i;
            let ghost base = ops;
            let ghost sv = ls[abs as int];
            assert(sv == line_view(segs@));
            let mut k: usize = 0;
            while k < segs.len()
                invariant
                    g.wf(),
                    no_newline_cells(g.cells()),
                    g.cols == self.cols,
                    g.rows == self.rows,
                    g.put_limit == old(g).put_limit,
                    g.cap() == cap,
                    cols == self.cols,
                    nrows == self.rows,
                    k <= segs@.len(),
                    sv == line_view(segs@),
                    g.cells() == apply_ops(c0, cols, nrows, cap, ops),
                    ops == base + seg_ops(row_i as int, sv, is_current, is_hit, k as int),
                decreases segs@.len() - k,
            {
                let tone = if is_current {
                    Tone::Warning
                } else if is_hit {
                    Tone::Success
                } else {
                    segs[k].2
                };
                let ghost o: Op = (row_i as int, segs@[k as int].0 as int, segs@[k as int].1@, tone);
                g.put(row_i, segs[k].0, segs[k].1.as_str(), tone);
                proof {
                    lemma_apply_push(c0, cols, nrows, cap, ops, o);
                    ops = ops.push(o);
                    assert(sv[k as int] == (segs@[k as int].0 as int, segs@[k as int].1@, segs@[k as int].2));
                    assert(ops =~= base + seg_ops(row_i as int, sv, is_current, is_hit, k + 1));
                }
                k = k + 1;
            }
            if is_hit {
                let mark = if is_current {
                    "▶"
                } else {
                    "│"
                };
                let x = body_cols.saturating_sub(2);
                if x > 4 {
                    let mt = if is_current {
                        Tone::Warning
                    } else {
                        Tone::Success
                    };
                    let ghost o: Op = (row_i as int, x as int, mark@, mt);
                    g.put(row_i, x, mark, mt);
                    proof {
                        lemma_apply_push(c0, cols, nrows, cap, ops, o);
                        ops = ops.push(o);
                    }
                }
            }
            proof {
                assert(ops =~= base + line_ops(row_i as int, sv, is_current, is_hit, body_cols as int));
                assert(ops =~= window_ops(ls, start as int, top as int, i + 1, hits@, cur_spec, body_cols as int));
            }
            i = i + 1;
        }
        let ghost listed = ops;
        if let Some(v) = self.view {
            let off = v.clamped_offset(total, body);
            if off > 0 && body > 0 {
                let mut msg = String::new();
                push_str(&mut msg, "↓ 下方还有 ");
                push_dec(&mut msg, off as u64);
                push_str(&mut msg, " 行（ctrl+e 到底）");
                proof {
                    assert(msg@ =~= "↓ 下方还有 "@ + dec_of(off as nat) + " 行（ctrl+e 到底）"@);
                }
                let ghost o: Op = ((body - 1) as int, 2int, msg@, Tone::Muted);
                g.put(body - 1, 2, msg.as_str(), Tone::Muted);
                proof {
                    lemma_apply_push(c0, cols, nrows, cap, ops, o);
                    ops = ops.push(o);
                }
            }
        }
        proof {
            assert(body_cols as int == body_cols_of(self.cols as int, self.sidebar));
            assert(ops =~= self.transcript_ops());
        }
        let top2 = self.rows - chrome_rows(self.input.line_count());
        let cursor = self.draw_chrome(g, top2);
        (top2, cursor)
    }

    /// The transcript's writes: the visible window (bottom-aligned while
    /// following), hits coloured and marked, and how many lines are below
    /// when scrolled up.
    pub open spec fn transcript_ops(&self) -> Seq<Op> {
        let bc = body_cols_of(self.cols as int, self.sidebar);
        let ls = transcript_of(self.facts@, sat_sub(bc, 4));
        let body = sat_sub(self.rows as int, chrome_rows_of(self.input@.lines.len() as int));
        let total = ls.len() as int;
        let w = match self.view {
            Some(v) => v@.window(total, body),
            None => (sat_sub(total, body), total),
        };
        let stop = if w.1 < total { w.1 } else { total };
        let count = if w.0 < stop { stop - w.0 } else { 0 };
        let follow = match self.view {
            Some(v) => v@.follow,
            None => true,
        };
        let top = if follow { sat_sub(body, count) } else { 0 };
        let hits = match self.view {
            Some(v) => match v@.search {
                Some(s) => s.hits,
                None => Seq::empty(),
            },
            None => Seq::empty(),
        };
        let current = match self.view {
            Some(v) => match v@.search {
                Some(s) => Some(s.current),
                None => None,
            },
            None => None,
        };
        let note = match self.view {
            Some(v) => {
                let off = v@.clamped_offset(total, body);
                if off > 0 && body > 0 {
                    seq![(body - 1, 2int, "↓ 下方还有 "@ + dec_of(off as nat) + " 行（ctrl+e 到底）"@, Tone::Muted)]
                } else {
                    Seq::empty()
                }
            },
            None => Seq::empty(),
        };
        window_ops(ls, w.0, top, count, hits, current, bc) + note
    }

    /// The sidebar is shown: asked for, and the terminal is wide enough.
    pub open spec fn shows_sidebar(&self) -> bool {
        self.sidebar && self.cols >= SIDEBAR_MIN_COLS
    }

    /// The frame's layout: a prepared page, the trust prompt, the first
    /// screen (no facts yet and first-screen information given), or the
    /// conversation.
    pub open spec fn is_transcript(&self) -> bool {
        self.preformatted is None && self.trust is None && !(self.facts@.len() == 0
            && self.about is Some)
    }

    /// Row where the input chrome starts.
    pub open spec fn chrome_top(&self) -> int {
        let chrome = chrome_rows_of(self.input@.lines.len() as int);
        if self.preformatted is Some {
            sat_sub(self.rows as int, chrome)
        } else if self.trust is Some {
            0
        } else if self.facts@.len() == 0 && self.about is Some {
            self.welcome_top(*self.about.unwrap())
        } else {
            self.rows - chrome
        }
    }

    /// Where the terminal cursor is put (1-based), if shown: none on the
    /// trust prompt.
    pub open spec fn frame_cursor(&self) -> Option<(int, int)> {
        if self.preformatted is None && self.trust is Some {
            None
        } else {
            self.cursor_at(self.chrome_top())
        }
    }

    /// Where writing stops while the content is laid out: the sidebar's
    /// left column when it is shown, else the grid's width.
    pub open spec fn content_cap(&self) -> int {
        if self.shows_sidebar() { self.cols - SIDEBAR_COLS } else { self.cols as int }
    }

    /// The content's cells: a prepared page, the trust prompt, the first
    /// screen or the conversation, each with the chrome where it has one.
    pub open spec fn content_cells(&self) -> Cells {
        let cols = self.cols as int;
        let nrows = self.rows as int;
        let c0 = fresh_cells(cols * nrows);
        let cap = self.content_cap();
        let chrome = chrome_rows_of(self.input@.lines.len() as int);
        match self.preformatted {
            Some(lines) => self.chrome_drawn(
                apply_ops(c0, cols, nrows, cap, page_all_ops(lines_of(lines@), nrows, chrome)),
                cap,
                sat_sub(nrows, chrome),
            ),
            None => match self.trust {
                Some(t) => trust_drawn(
                    c0,
                    cols,
                    nrows,
                    cap,
                    trust_rows(cols, workspace_of(self.about), t.selected as int),
                ),
                None => if self.facts@.len() == 0 && self.about is Some {
                    let a = *self.about.unwrap();
                    self.chrome_drawn(
                        centred_rows(
                            c0,
                            cols,
                            nrows,
                            cap,
                            self.welcome_top(a) - self.welcome_hero(a).len(),
                            self.welcome_hero(a),
                        ),
                        cap,
                        self.welcome_top(a),
                    )
                } else {
                    self.chrome_drawn(apply_ops(c0, cols, nrows, cap, self.transcript_ops()), cap, nrows - chrome)
                },
            },
        }
    }

    /// The frame's cells: the content, the popup over it, the sidebar (or
    /// the grip where it is hidden), then the starfield in what is left.
    pub open spec fn frame_cells(&self) -> Cells {
        let cols = self.cols as int;
        let nrows = self.rows as int;
        let c1 = match self.popup {
            Some(pop) => self.popup_drawn(*pop, self.content_cells(), self.content_cap(), self.chrome_top()),
            None => self.content_cells(),
        };
        let c2 = if self.shows_sidebar() {
            apply_ops(c1, cols, nrows, cols, sidebar_ops(self.facts@, self.about, cols, nrows, cols - SIDEBAR_COLS))
        } else if cols > 8 && nrows > 2 {
            put_at(c1, cols, nrows, cols, nrows - 1, cols - 1, "‹"@, Tone::BorderActive)
        } else {
            c1
        };
        stars_filled(c2, cols)
    }

    /// The frame's lines, one per row, coloured per `color`.
    pub open spec fn frame_lines(&self) -> Seq<Seq<char>> {
        Seq::new(
            self.rows as nat,
            |r: int| crate::paint::row_line(
                self.frame_cells(),
                self.color,
                crate::theme::theme_of(self.theme),
                self.cols as int,
                r,
            ),
        )
    }

    /// The whole frame as terminal output, and where things are (for mouse
    /// hits). The frame clears the screen, writes one line per row (rows
    /// joined by CR LF, colours per `color`), then shows the cursor at its
    /// place or hides it. Layout: a prepared page from the second row (with
    /// a note when it is cut), the trust prompt, the first screen, or the
    /// conversation; then the popup over the content, then the sidebar in
    /// its own columns (or, when it is hidden, a grip in the bottom-right
    /// cell); the starfield fills what is left.
    #[verifier::spinoff_prover]
    #[verifier::rlimit(40)]
    pub fn render_with_regions(&self) -> (r: (String, Regions))
        requires
            self.fits(),
            self.is_transcript() ==> self.rows >= chrome_rows_of(self.input@.lines.len() as int),
        ensures
            r.1.transcript == (if self.trust is None && self.preformatted is None {
                Some((0usize, sat_sub(self.rows as int, chrome_rows_of(self.input@.lines.len() as int)) as usize))
            } else {
                None
            }),
            r.1.sidebar == (if self.shows_sidebar() {
                Some(((self.cols - SIDEBAR_COLS) as usize, self.cols, 0usize, self.rows))
            } else {
                None
            }),
            r.1.sidebar_grip == (if !self.shows_sidebar() && self.cols > 8 && self.rows > 2 {
                Some((self.cols, self.rows))
            } else {
                None
            }),
            ({
                let body = body_cols_of(self.cols as int, self.sidebar);
                let left = sat_sub(body, box_width_of(body)) / 2;
                r.1.input_box == Some((left as usize, (left + box_width_of(body)) as usize, self.chrome_top() as usize, self.rows))
            }),
            r.1.scroll_hint_rows@.len() == 0,
            self.popup is None ==> r.1.popup_items@.len() == 0,
            self.popup is Some ==> r.1.popup_items@.len() == self.popup_rows_of(self.chrome_top()).len(),
            self.popup is Some ==> forall|k: int| 0 <= k < r.1.popup_items@.len() ==> {
                let (a, b) = #[trigger] r.1.popup_items@[k];
                let (x, y) = self.popup_rows_of(self.chrome_top())[k];
                a.0 == x.0 && a.1 == x.1 && a.2 == x.2 && b == y
            },
            r.0@ == "\u{1b}[H\u{1b}[2J"@ + join_crlf(self.frame_lines()) + cursor_text(self.frame_cursor()),
            forall|i: int| 0 <= i < self.rows ==> no_nl(#[trigger] self.frame_lines()[i]),
    {
        let p = Pal::new(self.color, self.theme);
        proof {
            assert(self.cols * self.rows <= usize::MAX) by (nonlinear_arith)
                requires
                    self.cols * self.rows <= usize::MAX / 8,
            ;
        }
        let mut g = Grid::new(self.cols, self.rows);
        proof {
            let f = fresh_cells(self.cols * self.rows);
            assert(g.cells().ch =~= f.ch);
            assert(g.cells().tone =~= f.tone);
            assert(g.cells().skip =~= f.skip);
        }
        let mut regions = Regions::default();
        let show_sidebar = self.sidebar && self.cols >= SIDEBAR_MIN_COLS;
        let side_x0: Option<usize> = if show_sidebar {
            Some(self.cols - SIDEBAR_COLS)
        } else {
            None
        };
        if let Some(x0) = side_x0 {
            g.clamp_put(x0);
        }
        assert(g.cap() == self.content_cap());
        let ghost cap = g.cap();
        let ghost cols = self.cols as int;
        let ghost nrows = self.rows as int;
        let ghost c0 = g.cells();
        let chrome = chrome_rows(self.input.line_count());
        let body_rows = self.rows.saturating_sub(chrome);
        let (chrome_top, cursor) = if let Some(lines) = self.preformatted {
            let avail = self.rows.saturating_sub(chrome);
            let a1 = avail.saturating_sub(1);
            let shown = if lines.len() < a1 {
                lines.len()
            } else {
                a1
            };
            let ghost ls = lines_of(lines@);
            let ghost mut ops: Seq<Op> = Seq::empty();
            let mut i: usize = 0;
            while i < shown
                invariant
                    g.wf(),
                    no_newline_cells(g.cells()),
                    g.cols == self.cols,
                    g.rows == self.rows,
                    g.cap() == cap,
                    cols == self.cols,
                    nrows == self.rows,
                    i <= shown,
                    shown <= lines@.len(),
                    shown <= self.rows,
                    frame_fits(self.cols as int, self.rows as int),
                    ls == lines_of(lines@),
                    g.cells() == apply_ops(c0, cols, nrows, cap, ops),
                    ops == page_ops(ls, i as int),
                decreases shown - i,
            {
                let segs = &lines[i];
                let ghost base = ops;
                let ghost sv = ls[i as int];
                assert(sv == line_view(segs@));
                let mut k: usize = 0;
                while k < segs.len()
                    invariant
                        g.wf(),
                        no_newline_cells(g.cells()),
                        g.cols == self.cols,
                        g.rows == self.rows,
                        g.cap() == cap,
                        cols == self.cols,
                        nrows == self.rows,
                        k <= segs@.len(),
                        i < shown,
                        shown <= self.rows,
                        frame_fits(self.cols as int, self.rows as int),
                        sv == line_view(segs@),
                        g.cells() == apply_ops(c0, cols, nrows, cap, ops),
                        ops == base + seg_ops(i + 1, sv, false, false, k as int),
                    decreases segs@.len() - k,
                {
                    let ghost o: Op = (i + 1, segs@[k as int].0 as int, segs@[k as int].1@, segs@[k as int].2);
                    g.put(i + 1, segs[k].0, segs[k].1.as_str(), segs[k].2);
                    proof {
                        lemma_apply_push(c0, cols, nrows, cap, ops, o);
                        ops = ops.push(o);
                        assert(sv[k as int] == (segs@[k as int].0 as int, segs@[k as int].1@, segs@[k as int].2));
                        assert(ops =~= base + seg_ops(i + 1, sv, false, false, k + 1));
                    }
                    k = k + 1;
                }
                proof {
                    assert(ops =~= page_ops(ls, i + 1));
                }
                i = i + 1;
            }
            if lines.len() > shown {
                let more = lines.len() - shown;
                let mut m = String::new();
                push_str(&mut m, "… 还有 ");
                push_dec(&mut m, more as u64);
                push_str(&mut m, " 行（终端太小，请放大窗口查看）");
                let ghost o: Op = (shown + 1, 2int, m@, Tone::Border);
                g.put(shown + 1, 2, m.as_str(), Tone::Border);
                proof {
                    lemma_apply_push(c0, cols, nrows, cap, ops, o);
                    ops = ops.push(o);
                    assert(m@ =~= "… 还有 "@ + dec_of((ls.len() - shown) as nat) + " 行（终端太小，请放大窗口查看）"@);
                }
            }
            proof {
                assert(shown as int == page_shown(ls.len() as int, nrows, chrome as int));
                assert(ops =~= page_all_ops(ls, nrows, chrome as int));
            }
            let top = self.rows.saturating_sub(chrome);
            let c = self.draw_chrome(&mut g, top);
            (top, c)
        } else if let Some(t) = self.trust {
            self.layout_trust(&mut g, t);
            (0, None)
        } else if self.facts.len() == 0 && self.about.is_some() {
            let a = self.about.unwrap();
            self.layout_welcome(&mut g, a)
        } else {
            self.layout_transcript(&mut g)
        };
        assert(g.cells() == self.content_cells());
        assert(chrome_top as int == self.chrome_top());
        assert(g.cap() == cap);
        if let Some(pop) = self.popup {
            self.draw_popup(&mut g, pop, chrome_top);
        }
        let ghost c1 = g.cells();
        if let Some(x0) = side_x0 {
            g.clamp_put(usize::MAX);
            self.draw_sidebar(&mut g, x0);
            regions.sidebar = Some((x0, self.cols, 0, self.rows));
        }
        if side_x0.is_none() && self.cols > 8 && self.rows > 2 {
            let gy = self.rows - 1;
            let gx = self.cols - 1;
            g.put(gy, gx, "‹", Tone::BorderActive);
            regions.sidebar_grip = Some((gx + 1, gy + 1));
        }
        if self.trust.is_none() && self.preformatted.is_none() {
            regions.transcript = Some((0, body_rows));
        }
        let body = self.body_cols();
        let box_w = self.box_width();
        let left = body.saturating_sub(box_w) / 2;
        regions.input_box = Some((left, left + box_w, chrome_top, self.rows));
        if self.popup.is_some() {
            regions.popup_items = self.popup_item_rows(chrome_top);
        }
        let ghost c2 = g.cells();
        let ghost g2 = g;
        g.fill_stars();
        proof {
            lemma_stars_filled(g.cells(), c2, self.cols as int);
            assert(g.cells() == self.frame_cells());
        }
        let ls = g.lines(&p);
        let ghost lv = ls@.map_values(|l: String| l@);
        let mut out = String::new();
        push_str(&mut out, "\u{1b}[H\u{1b}[2J");
        let mut k: usize = 0;
        while k < ls.len()
            invariant
                k <= ls@.len(),
                lv == ls@.map_values(|l: String| l@),
                out@ == "\u{1b}[H\u{1b}[2J"@ + join_crlf(lv.take(k as int)),
            decreases ls@.len() - k,
        {
            assert(lv.take(k + 1).drop_last() =~= lv.take(k as int));
            if k > 0 {
                push_str(&mut out, "\r\n");
            }
            push_str(&mut out, ls[k].as_str());
            proof {
                if k == 0 {
                    assert(lv.take(0) =~= Seq::<Seq<char>>::empty());
                }
            }
            assert(out@ =~= "\u{1b}[H\u{1b}[2J"@ + join_crlf(lv.take(k + 1)));
            k = k + 1;
        }
        assert(lv.take(ls@.len() as int) =~= lv);
        assert(lv =~= self.frame_lines());
        let tail = cursor_suffix(cursor);
        push_str(&mut out, tail.as_str());
        assert(out@ =~= "\u{1b}[H\u{1b}[2J"@ + join_crlf(lv) + cursor_text(self.frame_cursor()));
        (out, regions)
    }

    /// The frame as terminal output (see `render_with_regions`).
    pub fn render(&self) -> (r: String)
        requires
            self.fits(),
            self.is_transcript() ==> self.rows >= chrome_rows_of(self.input@.lines.len() as int),
        ensures
            r@ == "\u{1b}[H\u{1b}[2J"@ + join_crlf(self.frame_lines()) + cursor_text(self.frame_cursor()),
            forall|i: int| 0 <= i < self.rows ==> no_nl(#[trigger] self.frame_lines()[i]),
    {
        self.render_with_regions().0
    }
}

/// Lines joined by CR LF.
pub open spec fn join_crlf(ls: Seq<Seq<char>>) -> Seq<char>
    decreases ls.len(),
{
    if ls.len() == 0 {
        Seq::empty()
    } else if ls.len() == 1 {
        ls[0]
    } else {
        join_crlf(ls.drop_last()) + "\r\n"@ + ls.last()
    }
}

/// What follows the frame: the cursor moved to its place and shown, or
/// hidden.
pub open spec fn cursor_text(c: Option<(int, int)>) -> Seq<char> {
    match c {
        Some((r, col)) => "\u{1b}["@ + dec_of(r as nat) + ";"@ + dec_of(col as nat) + "H\u{1b}[?25h"@,
        None => "\u{1b}[?25l"@,
    }
}

fn cursor_suffix(c: Option<(usize, usize)>) -> (s: String)
    ensures
        s@ == cursor_text(match c {
            Some((r, col)) => Some((r as int, col as int)),
            None => None,
        }),
{
    let mut s = String::new();
    match c {
        Some((r, col)) => {
            push_str(&mut s, "\u{1b}[");
            push_dec(&mut s, r as u64);
            push_str(&mut s, ";");
            push_dec(&mut s, col as u64);
            push_str(&mut s, "H\u{1b}[?25h");
        },
        None => push_str(&mut s, "\u{1b}[?25l"),
    }
    s
}

/// `s` repeated `n` times.
pub open spec fn repeat_seq(s: Seq<char>, n: nat) -> Seq<char>
    decreases n,
{
    if n == 0 {
        Seq::empty()
    } else {
        repeat_seq(s, (n - 1) as nat) + s
    }
}

/// `str::repeat`.
pub fn repeat_str(s: &str, n: usize) -> (r: String)
    ensures
        r@ == repeat_seq(s@, n as nat),
{
    let mut r = String::new();
    let mut k: usize = 0;
    while k < n
        invariant
            k <= n,
            r@ == repeat_seq(s@, k as nat),
        decreases n - k,
    {
        push_str(&mut r, s);
        k = k + 1;
    }
    r
}

/// `Grid::put` inside a drawn box: the box stays written.
fn put_in_box(g: &mut Grid, row: usize, col: usize, text: &str, tone: Tone, Ghost(bx): Ghost<(int, int, int, int)>) -> (end: usize)
    requires
        old(g).wf(),
        no_newline_cells(old(g).cells()),
        tone != Tone::Blank,
        0 <= bx.0,
        bx.1 <= old(g).rows,
        0 <= bx.2,
        bx.3 <= old(g).cols,
        box_written(old(g).cells(), old(g).cols as int, bx.0, bx.1, bx.2, bx.3),
    ensures
        final(g).wf(),
        no_newline_cells(final(g).cells()),
        final(g).cols == old(g).cols,
        final(g).rows == old(g).rows,
        final(g).put_limit == old(g).put_limit,
        box_written(final(g).cells(), old(g).cols as int, bx.0, bx.1, bx.2, bx.3),
        row >= old(g).rows ==> end == col && final(g).cells() == old(g).cells(),
        row < old(g).rows ==> (final(g).cells(), end as int) == put_run(
            old(g).cells(),
            old(g).cols as int,
            old(g).cap(),
            row as int,
            col as int,
            text@,
            tone,
        ),
{
    let ghost g0 = g.cells();
    let e = g.put(row, col, text, tone);
    proof {
        lemma_box_kept(g0, g.cells(), g.cols as int, g.rows as int, bx.0, bx.1, bx.2, bx.3, tone);
    }
    e
}

/// Every cell of rows `r0..r1`, columns `c0..c1` has been written (so the
/// starfield never shows there).
#[verifier::opaque]
pub open spec fn box_written(g: Cells, cols: int, r0: int, r1: int, c0: int, c1: int) -> bool {
    forall|r: int, c: int|
        r0 <= r < r1 && c0 <= c < c1 ==> #[trigger] g.tone[at(cols, r, c)] != Tone::Blank
}

/// An empty box is written.
pub proof fn lemma_box_empty(g: Cells, cols: int, r0: int, r1: int, c0: int, c1: int)
    requires
        r1 <= r0,
    ensures
        box_written(g, cols, r0, r1, c0, c1),
{
    reveal(box_written);
}

/// Writing in a tone other than `Blank` keeps written cells written.
pub proof fn lemma_box_kept(g: Cells, h: Cells, cols: int, rows: int, r0: int, r1: int, c0: int, c1: int, tone: Tone)
    requires
        box_written(g, cols, r0, r1, c0, c1),
        tones_from(h, g, tone),
        tone != Tone::Blank,
        0 <= r0,
        r1 <= rows,
        0 <= c0,
        c1 <= cols,
        g.tone.len() == cols * rows,
    ensures
        box_written(h, cols, r0, r1, c0, c1),
{
    reveal(box_written);
    assert forall|r: int, c: int| r0 <= r < r1 && c0 <= c < c1 implies #[trigger] h.tone[at(cols, r, c)] != Tone::Blank by {
        lemma_cell_in_grid(cols, rows, r, c);
        assert(g.tone[at(cols, r, c)] != Tone::Blank);
    }
}

/// Blanking row `r` over `c0..c1` in a tone other than `Blank` extends
/// the written box by that row.
pub proof fn lemma_box_blank_row(g: Cells, h: Cells, cols: int, rows: int, r0: int, r: int, c0: int, c1: int, tone: Tone)
    requires
        box_written(g, cols, r0, r, c0, c1),
        blank_span(h, g, at(cols, r, c0), at(cols, r, c1), tone),
        tone != Tone::Blank,
        0 <= r0,
        r < rows,
        0 <= c0,
        c1 <= cols,
        g.tone.len() == cols * rows,
        g.ch.len() == cols * rows,
    ensures
        box_written(h, cols, r0, r + 1, c0, c1),
{
    reveal(box_written);
    assert forall|rr: int, c: int| r0 <= rr < r + 1 && c0 <= c < c1 implies #[trigger] h.tone[at(cols, rr, c)] != Tone::Blank by {
        lemma_cell_in_grid(cols, rows, rr, c);
        let j = at(cols, rr, c);
        assert(0 <= j < g.ch.len());
        assert(h.ch[j] == (if at(cols, r, c0) <= j < at(cols, r, c1) { ' ' } else { g.ch[j] }));
        assert(h.tone[j] == (if at(cols, r, c0) <= j < at(cols, r, c1) { tone } else { g.tone[j] }));
        if rr < r {
            assert(rr * cols + cols <= r * cols) by (nonlinear_arith)
                requires
                    rr < r,
                    0 <= cols,
            ;
            assert(g.tone[at(cols, rr, c)] != Tone::Blank);
        }
    }
}

/// The starfield never covers what was written: a cell whose tone is not
/// `Blank` keeps its character and tone.
pub proof fn law_stars_never_cover_content(g: Cells, cols: int, i: int)
    requires
        g.tone[i] != Tone::Blank,
    ensures
        crate::paint::starred(g, cols, i) == (g.ch[i], g.tone[i]),
{
}

/// A drawn popup stays opaque once the starfield is laid: its box is still
/// fully written.
pub proof fn law_popup_stays_opaque(g: Cells, h: Cells, cols: int, rows: int, r0: int, r1: int, c0: int, c1: int)
    requires
        box_written(g, cols, r0, r1, c0, c1),
        crate::paint::stars_upto(h, g, cols, g.ch.len() as int),
        0 <= r0,
        r1 <= rows,
        0 <= c0,
        c1 <= cols,
        g.ch.len() == cols * rows,
        g.tone.len() == cols * rows,
    ensures
        box_written(h, cols, r0, r1, c0, c1),
{
    reveal(box_written);
    assert forall|r: int, c: int| r0 <= r < r1 && c0 <= c < c1 implies #[trigger] h.tone[at(cols, r, c)] != Tone::Blank by {
        lemma_cell_in_grid(cols, rows, r, c);
        let j = at(cols, r, c);
        assert(h.ch[j] == (if j < g.ch.len() { crate::paint::starred(g, cols, j).0 } else { g.ch[j] }));
        assert(g.tone[j] != Tone::Blank);
    }
}

/// Mouse hits and drawing agree: every popup row `popup_item_rows`
/// reports lies in the box `draw_popup` fills, below its title, and spans
/// the box's columns.
pub proof fn law_popup_hits_match_the_drawn_box(s: Screen, chrome_top: int, k: int)
    requires
        s.popup is Some,
        0 <= k < s.popup_rows_of(chrome_top).len(),
    ensures
        ({
            let ((y, x0, x1), _) = s.popup_rows_of(chrome_top)[k];
            s.popup_box(*s.popup.unwrap(), chrome_top) matches Some((r0, r1, c0, c1)) && r0 + 2 <= y
                && (y < s.rows ==> y < r1) && x0 == c0 && (if x1 < s.cols { x1 } else { s.cols as int })
                == c1
        }),
{
}

/// Line breaks in a text.
pub open spec fn newlines(s: Seq<char>) -> nat
    decreases s.len(),
{
    if s.len() == 0 {
        0
    } else {
        newlines(s.drop_last()) + if s.last() == '\n' { 1nat } else { 0nat }
    }
}

proof fn lemma_newlines_concat(a: Seq<char>, b: Seq<char>)
    ensures
        newlines(a + b) == newlines(a) + newlines(b),
    decreases b.len(),
{
    if b.len() == 0 {
        assert(a + b =~= a);
    } else {
        lemma_newlines_concat(a, b.drop_last());
        assert((a + b).drop_last() =~= a + b.drop_last());
    }
}

proof fn lemma_no_nl_newlines(s: Seq<char>)
    requires
        no_nl(s),
    ensures
        newlines(s) == 0,
    decreases s.len(),
{
    if s.len() > 0 {
        assert(no_nl(s.drop_last()));
        lemma_no_nl_newlines(s.drop_last());
    }
}

proof fn lemma_join_newlines(ls: Seq<Seq<char>>)
    requires
        ls.len() >= 1,
        forall|i: int| 0 <= i < ls.len() ==> no_nl(#[trigger] ls[i]),
    ensures
        newlines(join_crlf(ls)) == ls.len() - 1,
    decreases ls.len(),
{
    if ls.len() == 1 {
        lemma_no_nl_newlines(ls[0]);
    } else {
        let init = ls.drop_last();
        assert forall|i: int| 0 <= i < init.len() implies no_nl(#[trigger] init[i]) by {
            assert(init[i] == ls[i]);
        }
        lemma_join_newlines(init);
        reveal_strlit("\r\n");
        lemma_newlines_concat(join_crlf(init), "\r\n"@);
        lemma_newlines_concat(join_crlf(init) + "\r\n"@, ls.last());
        assert(newlines("\r\n"@) == 1) by {
            let crlf = "\r\n"@;
            let cr = seq!['\r'];
            assert(crlf.len() == 2 && crlf[0] == '\r' && crlf[1] == '\n');
            assert(crlf.drop_last() =~= cr);
            assert(cr.drop_last() =~= Seq::<char>::empty());
            assert(newlines(Seq::<char>::empty()) == 0);
            assert(newlines(cr) == 0);
            assert(newlines(crlf) == newlines(cr) + 1);
        }
        lemma_no_nl_newlines(ls.last());
    }
}

/// A frame of `n` rows (the shape `render` produces) writes exactly
/// `n - 1` line breaks: one screenful, so the terminal never scrolls.
pub proof fn law_frame_is_one_screenful(ls: Seq<Seq<char>>, cursor: Option<(int, int)>)
    requires
        ls.len() >= 1,
        forall|i: int| 0 <= i < ls.len() ==> no_nl(#[trigger] ls[i]),
        cursor matches Some((r, c)) ==> r >= 0 && c >= 0,
    ensures
        newlines("\u{1b}[H\u{1b}[2J"@ + join_crlf(ls) + cursor_text(cursor)) == ls.len() - 1,
{
    reveal_strlit("\u{1b}[H\u{1b}[2J");
    reveal_strlit("\u{1b}[");
    reveal_strlit(";");
    reveal_strlit("H\u{1b}[?25h");
    reveal_strlit("\u{1b}[?25l");
    lemma_join_newlines(ls);
    let pre = "\u{1b}[H\u{1b}[2J"@;
    assert(no_nl(pre));
    lemma_no_nl_newlines(pre);
    let tail = cursor_text(cursor);
    match cursor {
        Some((r, c)) => {
            crate::paint::lemma_dec_no_nl(r as nat);
            crate::paint::lemma_dec_no_nl(c as nat);
            crate::paint::lemma_no_nl_concat("\u{1b}["@, dec_of(r as nat));
            crate::paint::lemma_no_nl_concat("\u{1b}["@ + dec_of(r as nat), ";"@);
            crate::paint::lemma_no_nl_concat("\u{1b}["@ + dec_of(r as nat) + ";"@, dec_of(c as nat));
            crate::paint::lemma_no_nl_concat(
                "\u{1b}["@ + dec_of(r as nat) + ";"@ + dec_of(c as nat),
                "H\u{1b}[?25h"@,
            );
        },
        None => {},
    }
    assert(no_nl(tail));
    lemma_no_nl_newlines(tail);
    lemma_newlines_concat(pre, join_crlf(ls));
    lemma_newlines_concat(pre + join_crlf(ls), tail);
}

} // verus!
