//! Project instructions (`AGENTS.md`): which files are read, in what
//! order, and how they are merged under a byte cap.
//!
//! ```text
//! ~/.neo/AGENTS.override.md   highest precedence
//! ~/.neo/AGENTS.md            personal baseline
//! <repo>/AGENTS.md            shared by the team
//! <repo>/sub/dir/AGENTS.md    nested, the more specific the later
//! ```
//!
//! The repository is bounded by its git root (the nearest ancestor that
//! holds `.git`); without one only the working directory itself counts.
//! Paths are handled as text here: the caller lists the working
//! directory's ancestors (nearest first), says which of them hold `.git`,
//! and reads the files that exist.
use vstd::prelude::*;
use crate::framing::{utf8_len, utf8_len_exec, lemma_utf8_len_append};
use crate::text::{trim_end, chars_of, owned, push_str, push_char, string_of, str_eq, trim_end_chars};
use crate::mcp::tool::{truncated_utf8, truncate_utf8, law_truncate_within_limit};

verus! {

/// Cap on the merged text, in bytes (32 KiB).
pub const MAX_BYTES: usize = 32768;

/// At most this many repository directories contribute a file.
pub const MAX_REPO_FILES: usize = 16;

pub const OVERRIDE_LABEL: &'static str = "最高优先级（override）";
pub const PERSONAL_LABEL: &'static str = "个人基线";
pub const REPO_LABEL: &'static str = "仓库约定";
pub const NESTED_LABEL: &'static str = "目录级联（越具体越靠后）";

/// The line that opens the injected text and states the precedence.
pub const HEADER: &'static str = "以下内容来自工作区与用户目录的 AGENTS.md，是**必须遵守**的项目约定；出现冲突时以标注「最高优先级」的为准。";

/// Added to the header when the cap cut the text.
pub const TRUNCATED_NOTE: &'static str = "（注意：内容已按 32 KiB 上限截断，未展示的部分不生效）";

pub const EMPTY_SUMMARY: &'static str = "未找到项目指令（AGENTS.md）";

// ── paths as text ────────────────────────────────────────────────────

/// `dir` joined with a relative `name`: a separator goes between them
/// unless `dir` is empty or already ends with one.
pub open spec fn joined(dir: Seq<char>, name: Seq<char>) -> Seq<char> {
    if dir.len() > 0 && dir.last() != '/' {
        dir + "/"@ + name
    } else {
        dir + name
    }
}

pub fn join_name(dir: &str, name: &str) -> (r: String)
    ensures
        r@ == joined(dir@, name@),
{
    let v = chars_of(dir);
    let mut out = owned(dir);
    if v.len() > 0 && v[v.len() - 1] != '/' {
        push_char(&mut out, '/');
    }
    push_str(&mut out, name);
    proof {
        if v@.len() > 0 && v@.last() != '/' {
            assert(seq!['/'] =~= "/"@) by {
                reveal_strlit("/");
            }
        }
    }
    out
}

/// The last component of a path (after dropping trailing separators).
pub open spec fn last_component(p: Seq<char>) -> Seq<char>
    decreases p.len(),
{
    if p.len() > 0 && p.last() == '/' {
        last_component(p.drop_last())
    } else {
        after_last_slash(p)
    }
}

pub open spec fn after_last_slash(p: Seq<char>) -> Seq<char>
    decreases p.len(),
{
    if p.len() == 0 {
        p
    } else if p.last() == '/' {
        Seq::empty()
    } else {
        after_last_slash(p.drop_last()).push(p.last())
    }
}

fn after_last_slash_exec(v: &[char], n: usize) -> (r: Vec<char>)
    requires
        n <= v@.len(),
    ensures
        r@ == after_last_slash(v@.take(n as int)),
    decreases n,
{
    if n == 0 {
        assert(v@.take(0) =~= Seq::<char>::empty());
        Vec::new()
    } else if v[n - 1] == '/' {
        Vec::new()
    } else {
        assert(v@.take(n as int).drop_last() =~= v@.take(n - 1));
        let mut r = after_last_slash_exec(v, n - 1);
        r.push(v[n - 1]);
        r
    }
}

fn last_component_exec(v: &[char], n: usize) -> (r: Vec<char>)
    requires
        n <= v@.len(),
    ensures
        r@ == last_component(v@.take(n as int)),
    decreases n,
{
    if n > 0 && v[n - 1] == '/' {
        assert(v@.take(n as int).drop_last() =~= v@.take(n - 1));
        last_component_exec(v, n - 1)
    } else {
        after_last_slash_exec(v, n)
    }
}

/// The configuration directory: `NEO_HOME`, else `HOME`; `.neo` is
/// appended unless the path already ends in a `.neo` component.
pub open spec fn neo_home_spec(neo_home: Option<Seq<char>>, home: Option<Seq<char>>) -> Option<
    Seq<char>,
> {
    let base = match neo_home {
        Some(h) => Some(h),
        None => home,
    };
    match base {
        Some(h) => if last_component(h) == ".neo"@ {
            Some(h)
        } else {
            Some(joined(h, ".neo"@))
        },
        None => None,
    }
}

/// The configuration directory from the values of `NEO_HOME` and `HOME`.
pub fn neo_home(neo_home_var: Option<&str>, home_var: Option<&str>) -> (r: Option<String>)
    ensures
        match r {
            Some(s) => neo_home_spec(
                match neo_home_var { Some(h) => Some(h@), None => None },
                match home_var { Some(h) => Some(h@), None => None },
            ) == Some(s@),
            None => neo_home_spec(
                match neo_home_var { Some(h) => Some(h@), None => None },
                match home_var { Some(h) => Some(h@), None => None },
            ) is None,
        },
{
    let base = match neo_home_var {
        Some(h) => Some(h),
        None => home_var,
    };
    match base {
        Some(h) => {
            let v = chars_of(h);
            let last = last_component_exec(v.as_slice(), v.len());
            assert(v@.take(v@.len() as int) =~= v@);
            let name = ".neo";
            if str_eq(string_of(last.as_slice()).as_str(), name) {
                Some(owned(h))
            } else {
                Some(join_name(h, name))
            }
        },
        None => None,
    }
}

// ── which files ──────────────────────────────────────────────────────

/// The nearest ancestor (index into the ancestor list, nearest first)
/// that holds `.git`.
pub fn git_root(has_git: &[bool]) -> (r: Option<usize>)
    ensures
        match r {
            Some(i) => i < has_git@.len() && has_git@[i as int] && forall|j: int|
                0 <= j < i ==> !has_git@[j],
            None => forall|j: int| 0 <= j < has_git@.len() ==> !has_git@[j],
        },
{
    let mut i: usize = 0;
    while i < has_git.len()
        invariant
            i <= has_git@.len(),
            forall|j: int| 0 <= j < i ==> !has_git@[j],
        decreases has_git@.len() - i,
    {
        if has_git[i] {
            return Some(i);
        }
        i = i + 1;
    }
    None
}

/// The repository directories, from the root down to the working
/// directory: with a git root at `chain[k]`, `chain[k], …, chain[0]`;
/// without one, the working directory alone.
pub open spec fn repo_dirs(chain: Seq<Seq<char>>, root: Option<int>) -> Seq<Seq<char>> {
    match root {
        Some(k) => chain.take(k + 1).reverse(),
        None => chain.take(1),
    }
}

pub open spec fn strs(v: Seq<String>) -> Seq<Seq<char>> {
    v.map_values(|s: String| s@)
}

/// `root` to the working directory, both ends included, from the root
/// down.
pub fn dirs_between(chain: &[String], root: usize) -> (r: Vec<String>)
    requires
        root < chain@.len(),
    ensures
        strs(r@) == repo_dirs(strs(chain@), Some(root as int)),
{
    let mut out: Vec<String> = Vec::new();
    let len = chain.len();
    assert(root < len);
    let mut i: usize = root + 1;
    while i > 0
        invariant
            i <= root + 1,
            root < chain@.len(),
            out@.len() == root + 1 - i,
            forall|j: int| 0 <= j < out@.len() ==> out@[j]@ == chain@[root - j]@,
        decreases i,
    {
        i = i - 1;
        out.push(owned(chain[i].as_str()));
    }
    proof {
        let want = strs(chain@).take(root + 1).reverse();
        assert(strs(out@) =~= want);
    }
    out
}

/// The candidate files, in the order of precedence, each with its label.
pub open spec fn discovered(home: Option<Seq<char>>, chain: Seq<Seq<char>>, root: Option<int>) -> Seq<
    (Seq<char>, Seq<char>),
> {
    let personal: Seq<(Seq<char>, Seq<char>)> = match home {
        Some(h) => seq![
            (joined(h, "AGENTS.override.md"@), OVERRIDE_LABEL@),
            (joined(h, "AGENTS.md"@), PERSONAL_LABEL@),
        ],
        None => Seq::empty(),
    };
    let dirs = repo_dirs(chain, root);
    let kept = if dirs.len() > MAX_REPO_FILES {
        dirs.take(MAX_REPO_FILES as int)
    } else {
        dirs
    };
    personal + Seq::new(
        kept.len(),
        |i: int|
            (
                joined(kept[i], "AGENTS.md"@),
                if root is Some && kept[i] == chain[root->0] {
                    REPO_LABEL@
                } else {
                    NESTED_LABEL@
                },
            ),
    )
}

pub open spec fn pair_views(v: Seq<(String, &'static str)>) -> Seq<(Seq<char>, Seq<char>)> {
    v.map_values(|p: (String, &'static str)| (p.0@, p.1@))
}

/// Which files to read, in order: the two personal files under `home`
/// (when there is one), then `AGENTS.md` in each repository directory
/// from the git root down to the working directory (at most
/// `MAX_REPO_FILES` of them), or in the working directory alone when no
/// ancestor holds `.git`. `chain` lists the working directory and its
/// ancestors, nearest first; `root` indexes the git root in it.
pub fn discover(home: Option<&str>, chain: &[String], root: Option<usize>) -> (r: Vec<
    (String, &'static str),
>)
    requires
        chain@.len() >= 1,
        root matches Some(k) ==> k < chain@.len(),
    ensures
        pair_views(r@) == discovered(
            match home { Some(h) => Some(h@), None => None },
            strs(chain@),
            match root { Some(k) => Some(k as int), None => None },
        ),
{
    let ghost hv = match home { Some(h) => Some(h@), None => None };
    let ghost rv: Option<int> = match root { Some(k) => Some(k as int), None => None };
    let mut out: Vec<(String, &'static str)> = Vec::new();
    if let Some(h) = home {
        out.push((join_name(h, "AGENTS.override.md"), OVERRIDE_LABEL));
        out.push((join_name(h, "AGENTS.md"), PERSONAL_LABEL));
    }
    let ghost personal = pair_views(out@);
    proof {
        let want: Seq<(Seq<char>, Seq<char>)> = match hv {
            Some(h) => seq![
                (joined(h, "AGENTS.override.md"@), OVERRIDE_LABEL@),
                (joined(h, "AGENTS.md"@), PERSONAL_LABEL@),
            ],
            None => Seq::empty(),
        };
        assert(personal =~= want);
    }
    let dirs: Vec<String> = match root {
        Some(k) => dirs_between(chain, k),
        None => {
            let mut d: Vec<String> = Vec::new();
            d.push(owned(chain[0].as_str()));
            assert(strs(d@) =~= strs(chain@).take(1));
            d
        },
    };
    let ghost dv = repo_dirs(strs(chain@), rv);
    assert(strs(dirs@) == dv);
    let n = if dirs.len() > MAX_REPO_FILES { MAX_REPO_FILES } else { dirs.len() };
    let ghost kept = if dv.len() > MAX_REPO_FILES { dv.take(MAX_REPO_FILES as int) } else { dv };
    let ghost p0 = out@.len();
    let mut i: usize = 0;
    while i < n
        invariant
            n <= dirs@.len(),
            n == kept.len(),
            kept =~= strs(dirs@).take(n as int),
            strs(dirs@) == dv,
            chain@.len() >= 1,
            root matches Some(k) ==> k < chain@.len(),
            rv == match root { Some(k) => Some(k as int), None => None::<int> },
            i <= n,
            p0 == personal.len(),
            out@.len() == p0 + i,
            pair_views(out@).take(p0 as int) == personal,
            forall|j: int|
                0 <= j < i ==> pair_views(out@)[p0 + j] == (
                    joined(kept[j], "AGENTS.md"@),
                    if rv is Some && kept[j] == strs(chain@)[rv->0] {
                        REPO_LABEL@
                    } else {
                        NESTED_LABEL@
                    },
                ),
        decreases n - i,
    {
        let d = dirs[i].as_str();
        let is_root = match root {
            Some(k) => str_eq(d, chain[k].as_str()),
            None => false,
        };
        let label = if is_root { REPO_LABEL } else { NESTED_LABEL };
        let ghost before = pair_views(out@);
        out.push((join_name(d, "AGENTS.md"), label));
        proof {
            assert(kept[i as int] == dirs@[i as int]@);
            assert(pair_views(out@).take(p0 as int) =~= before.take(p0 as int));
            assert forall|j: int| 0 <= j < i + 1 implies pair_views(out@)[p0 + j] == (
                joined(kept[j], "AGENTS.md"@),
                if rv is Some && kept[j] == strs(chain@)[rv->0] {
                    REPO_LABEL@
                } else {
                    NESTED_LABEL@
                },
            ) by {
                if j < i {
                    assert(pair_views(out@)[p0 + j] == before[p0 + j]);
                }
            }
        }
        i = i + 1;
    }
    proof {
        let want = discovered(hv, strs(chain@), rv);
        let tail = Seq::new(
            kept.len(),
            |j: int|
                (
                    joined(kept[j], "AGENTS.md"@),
                    if rv is Some && kept[j] == strs(chain@)[rv->0] {
                        REPO_LABEL@
                    } else {
                        NESTED_LABEL@
                    },
                ),
        );
        assert(pair_views(out@) =~= personal + tail);
    }
    out
}

// ── merging ──────────────────────────────────────────────────────────

/// A file that was found, with its label and what reading it gave
/// (`None`: it could not be read, and is skipped).
pub struct Found {
    pub path: String,
    pub label: String,
    pub content: Option<String>,
}

pub struct FoundModel {
    pub path: Seq<char>,
    pub label: Seq<char>,
    pub content: Option<Seq<char>>,
}

impl View for Found {
    type V = FoundModel;

    open spec fn view(&self) -> FoundModel {
        FoundModel {
            path: self.path@,
            label: self.label@,
            content: match self.content {
                Some(c) => Some(c@),
                None => None,
            },
        }
    }
}

pub open spec fn found_views(v: Seq<Found>) -> Seq<FoundModel> {
    v.map_values(|f: Found| f@)
}

/// One file's section: a comment naming its source and label, then the
/// content without trailing whitespace.
pub open spec fn section(path: Seq<char>, label: Seq<char>, content: Seq<char>) -> Seq<char> {
    "\n<!-- 来源："@ + path + " · "@ + label + " -->\n"@ + trim_end(content) + "\n"@
}

pub struct MergeState {
    pub block: Seq<char>,
    pub sources: Seq<Seq<char>>,
    pub truncated: bool,
    pub done: bool,
}

pub open spec fn room_left(block: Seq<char>) -> int {
    if utf8_len(block) >= MAX_BYTES {
        0
    } else {
        MAX_BYTES - utf8_len(block)
    }
}

/// One file merged in: a section that fits is added whole; one that does
/// not is cut to the room left (never inside a character), added if
/// anything is left of it, and ends the merge.
pub open spec fn merge_step(s: MergeState, f: FoundModel) -> MergeState {
    match f.content {
        None => s,
        Some(c) => {
            let sec = section(f.path, f.label, c);
            let room = room_left(s.block);
            if utf8_len(sec) > room {
                let cut = truncated_utf8(sec, room).0;
                MergeState {
                    block: s.block + cut,
                    sources: if cut.len() > 0 {
                        s.sources.push(f.path)
                    } else {
                        s.sources
                    },
                    truncated: true,
                    done: true,
                }
            } else {
                MergeState {
                    block: s.block + sec,
                    sources: s.sources.push(f.path),
                    truncated: s.truncated,
                    done: false,
                }
            }
        },
    }
}

pub open spec fn merged(fs: Seq<FoundModel>) -> MergeState
    decreases fs.len(),
{
    if fs.len() == 0 {
        MergeState { block: Seq::empty(), sources: Seq::empty(), truncated: false, done: false }
    } else {
        let s = merged(fs.drop_last());
        if s.done {
            s
        } else {
            merge_step(s, fs.last())
        }
    }
}

/// The merged project instructions.
pub struct Instructions {
    /// The files that contributed, in order.
    pub sources: Vec<String>,
    /// The text injected into the prompt (empty when nothing was found).
    pub block: String,
    /// Whether the cap cut the text.
    pub truncated: bool,
}

pub struct InstructionsModel {
    pub sources: Seq<Seq<char>>,
    pub block: Seq<char>,
    pub truncated: bool,
}

impl View for Instructions {
    type V = InstructionsModel;

    open spec fn view(&self) -> InstructionsModel {
        InstructionsModel { sources: strs(self.sources@), block: self.block@, truncated: self.truncated }
    }
}

/// What the files merge to: nothing when no section was added; else the
/// header (with the truncation note when the cap cut the text), a line
/// break and the sections.
pub open spec fn instructions_of(fs: Seq<FoundModel>) -> InstructionsModel {
    let s = merged(fs);
    if s.block.len() == 0 {
        InstructionsModel { sources: Seq::empty(), block: Seq::empty(), truncated: false }
    } else {
        InstructionsModel {
            sources: s.sources,
            block: HEADER@ + (if s.truncated {
                TRUNCATED_NOTE@
            } else {
                ""@
            }) + "\n"@ + s.block,
            truncated: s.truncated,
        }
    }
}

proof fn lemma_merged_bounded(fs: Seq<FoundModel>)
    ensures
        utf8_len(merged(fs).block) <= MAX_BYTES,
    decreases fs.len(),
{
    if fs.len() > 0 {
        lemma_merged_bounded(fs.drop_last());
        let s = merged(fs.drop_last());
        if !s.done {
            match fs.last().content {
                None => {},
                Some(c) => {
                    let sec = section(fs.last().path, fs.last().label, c);
                    let room = room_left(s.block);
                    if utf8_len(sec) > room {
                        law_truncate_within_limit(sec, room);
                        lemma_utf8_len_append(s.block, truncated_utf8(sec, room).0);
                    } else {
                        lemma_utf8_len_append(s.block, sec);
                    }
                },
            }
        }
    }
}

/// The merged text never passes the cap by more than the header, and it
/// is marked truncated exactly when the cap cut a section that was
/// (partly) added.
pub proof fn law_merged_text_within_cap(fs: Seq<FoundModel>)
    ensures
        utf8_len(instructions_of(fs).block) <= utf8_len(HEADER@) + utf8_len(TRUNCATED_NOTE@) + 1
            + MAX_BYTES,
        instructions_of(fs).truncated == (merged(fs).truncated && merged(fs).block.len() > 0),
{
    lemma_merged_bounded(fs);
    let s = merged(fs);
    if s.block.len() > 0 {
        let note = if s.truncated { TRUNCATED_NOTE@ } else { ""@ };
        assert(instructions_of(fs).block == HEADER@ + note + "\n"@ + s.block);
        lemma_utf8_len_append(HEADER@ + note + "\n"@, s.block);
        lemma_utf8_len_append(HEADER@ + note, "\n"@);
        lemma_utf8_len_append(HEADER@, note);
        assert("\n"@ =~= seq!['\n']) by {
            reveal_strlit("\n");
        }
        assert(seq!['\n'].drop_last() =~= Seq::<char>::empty());
        assert(utf8_len(Seq::<char>::empty()) == 0);
        assert(utf8_len(seq!['\n']) == 1);
        assert(""@ =~= Seq::<char>::empty()) by {
            reveal_strlit("");
        }
        assert(utf8_len(note) <= utf8_len(TRUNCATED_NOTE@));
    }
}

/// Sections stay in the order of the files and each source is listed
/// once, in that order: a file later in the list never comes first.
pub proof fn law_sources_follow_precedence(fs: Seq<FoundModel>, k: int)
    requires
        0 <= k <= fs.len(),
    ensures
        merged(fs.take(k)).sources.len() <= merged(fs).sources.len(),
        merged(fs).sources.take(merged(fs.take(k)).sources.len() as int) == merged(fs.take(
            k,
        )).sources,
        merged(fs.take(k)).block.len() <= merged(fs).block.len(),
        merged(fs).block.take(merged(fs.take(k)).block.len() as int) == merged(fs.take(k)).block,
    decreases fs.len() - k,
{
    if k == fs.len() {
        assert(fs.take(k) =~= fs);
    } else {
        law_sources_follow_precedence(fs, k + 1);
        let a = merged(fs.take(k));
        assert(fs.take(k + 1).drop_last() =~= fs.take(k));
        let b = merged(fs.take(k + 1));
        assert(b.sources.take(a.sources.len() as int) =~= a.sources);
        assert(b.block.take(a.block.len() as int) =~= a.block);
        let c = merged(fs);
        assert(c.sources.take(a.sources.len() as int) =~= b.sources.take(
            b.sources.len() as int,
        ).take(a.sources.len() as int));
        assert(c.block.take(a.block.len() as int) =~= b.block.take(b.block.len() as int).take(
            a.block.len() as int,
        ));
    }
}

fn section_exec(path: &str, label: &str, content: &str) -> (r: String)
    ensures
        r@ == section(path@, label@, content@),
{
    let mut s = owned("\n<!-- 来源：");
    push_str(&mut s, path);
    push_str(&mut s, " · ");
    push_str(&mut s, label);
    push_str(&mut s, " -->\n");
    let body = trim_end_chars(chars_of(content).as_slice());
    push_str(&mut s, string_of(body.as_slice()).as_str());
    push_str(&mut s, "\n");
    s
}

/// Merge the found files, in order, under the byte cap: each readable
/// file adds its section; the first that does not fit is cut to the room
/// left on a character boundary, marks the result truncated, and ends the
/// merge. A header that states the precedence (and the cut) opens the
/// text; with no section at all the result is empty.
pub fn merge(found: &[Found]) -> (r: Instructions)
    requires
        forall|i: int|
            #![trigger found@[i]]
            0 <= i < found@.len() ==> (found@[i].content matches Some(c) ==> utf8_len(
                section(found@[i].path@, found@[i].label@, c@),
            ) < usize::MAX),
    ensures
        r@ == instructions_of(found_views(found@)),
{
    let ghost fs = found_views(found@);
    let mut block = String::new();
    let mut used: usize = 0;
    let mut sources: Vec<String> = Vec::new();
    let mut truncated = false;
    let mut i: usize = 0;
    let mut done = false;
    proof {
        assert(fs.take(0) =~= Seq::<FoundModel>::empty());
        assert(block@ =~= Seq::<char>::empty());
        assert(strs(sources@) =~= Seq::<Seq<char>>::empty());
    }
    while i < found.len() && !done
        invariant
            i <= found@.len(),
            fs == found_views(found@),
            forall|j: int|
                #![trigger found@[j]]
                0 <= j < found@.len() ==> (found@[j].content matches Some(c) ==> utf8_len(
                    section(found@[j].path@, found@[j].label@, c@),
                ) < usize::MAX),
            used == utf8_len(block@),
            used <= MAX_BYTES,
            done ==> merged(fs).block == block@ && merged(fs).sources == strs(sources@)
                && merged(fs).truncated == truncated && merged(fs).done,
            !done ==> merged(fs.take(i as int)) == (MergeState {
                block: block@,
                sources: strs(sources@),
                truncated,
                done: false,
            }),
        decreases found@.len() - i, if done { 0int } else { 1int },
    {
        let f = &found[i];
        let ghost prev = merged(fs.take(i as int));
        proof {
            assert(fs.take(i + 1).drop_last() =~= fs.take(i as int));
            assert(fs.take(i + 1).last() == found@[i as int]@);
        }
        match &f.content {
            None => {},
            Some(c) => {
                let sec = section_exec(f.path.as_str(), f.label.as_str(), c.as_str());
                let sv = chars_of(sec.as_str());
                let n = utf8_len_exec(sv.as_slice());
                let room = MAX_BYTES - used;
                if n > room {
                    let (cut, _) = truncate_utf8(sec.as_str(), room);
                    proof {
                        law_truncate_within_limit(sec@, room as int);
                        lemma_utf8_len_append(block@, cut@);
                    }
                    let cv = chars_of(cut.as_str());
                    if cv.len() > 0 {
                        push_str(&mut block, cut.as_str());
                        sources.push(owned(f.path.as_str()));
                    }
                    used = utf8_len_exec(chars_of(block.as_str()).as_slice());
                    truncated = true;
                    done = true;
                    proof {
                        assert(strs(sources@) =~= if cut@.len() > 0 {
                            prev.sources.push(f.path@)
                        } else {
                            prev.sources
                        });
                        lemma_merged_done_stays(fs, i as int + 1);
                    }
                } else {
                    proof {
                        lemma_utf8_len_append(block@, sec@);
                    }
                    push_str(&mut block, sec.as_str());
                    used = used + n;
                    sources.push(owned(f.path.as_str()));
                    assert(strs(sources@) =~= prev.sources.push(f.path@));
                }
            },
        }
        i = i + 1;
        if i == found.len() && !done {
            assert(fs.take(i as int) =~= fs);
        }
    }
    proof {
        if !done {
            assert(fs.take(i as int) =~= fs);
        }
    }
    if used == 0 {
        proof {
            lemma_utf8_len_zero(block@);
        }
        let none: Vec<String> = Vec::new();
        assert(strs(none@) =~= Seq::<Seq<char>>::empty());
        return Instructions { sources: none, block: String::new(), truncated: false };
    }
    let mut full = owned(HEADER);
    if truncated {
        push_str(&mut full, TRUNCATED_NOTE);
    } else {
        push_str(&mut full, "");
    }
    push_str(&mut full, "\n");
    push_str(&mut full, block.as_str());
    Instructions { sources, block: full, truncated }
}

proof fn lemma_utf8_len_zero(s: Seq<char>)
    ensures
        (utf8_len(s) == 0) == (s.len() == 0),
    decreases s.len(),
{
    if s.len() > 0 {
        lemma_utf8_len_zero(s.drop_last());
    }
}

proof fn lemma_merged_done_stays(fs: Seq<FoundModel>, k: int)
    requires
        0 <= k <= fs.len(),
        merged(fs.take(k)).done,
    ensures
        merged(fs) == merged(fs.take(k)),
    decreases fs.len() - k,
{
    if k == fs.len() {
        assert(fs.take(k) =~= fs);
    } else {
        assert(fs.take(k + 1).drop_last() =~= fs.take(k));
        lemma_merged_done_stays(fs, k + 1);
    }
}

impl Instructions {
    /// Nothing to inject.
    pub fn empty() -> (r: Self)
        ensures
            r@.sources.len() == 0,
            r@.block.len() == 0,
            !r@.truncated,
    {
        let none: Vec<String> = Vec::new();
        assert(strs(none@) =~= Seq::<Seq<char>>::empty());
        Instructions { sources: none, block: String::new(), truncated: false }
    }

    pub fn is_empty(&self) -> (r: bool)
        ensures
            r == (self.block@.len() == 0),
    {
        chars_of(self.block.as_str()).len() == 0
    }

    /// The size of the injected text in bytes.
    pub fn bytes(&self) -> (r: usize)
        requires
            utf8_len(self.block@) <= usize::MAX,
        ensures
            r == utf8_len(self.block@),
    {
        utf8_len_exec(chars_of(self.block.as_str()).as_slice())
    }

    /// One line for the status view: that nothing was found, or which
    /// files were loaded (and whether the text was cut).
    pub fn summary(&self) -> (r: String)
        ensures
            self.block@.len() == 0 ==> r@ == EMPTY_SUMMARY@,
            self.block@.len() > 0 ==> r@ == summary_of(strs(self.sources@), self.truncated),
    {
        if chars_of(self.block.as_str()).len() == 0 {
            return owned(EMPTY_SUMMARY);
        }
        let mut s = owned("项目指令：");
        let mut i: usize = 0;
        while i < self.sources.len()
            invariant
                i <= self.sources@.len(),
                s@ == "项目指令："@ + joined_list(strs(self.sources@).take(i as int)),
            decreases self.sources@.len() - i,
        {
            if i > 0 {
                push_str(&mut s, "、");
            }
            push_str(&mut s, self.sources[i].as_str());
            proof {
                let t = strs(self.sources@).take(i + 1);
                assert(t.drop_last() =~= strs(self.sources@).take(i as int));
            }
            i = i + 1;
        }
        assert(strs(self.sources@).take(i as int) =~= strs(self.sources@));
        if self.truncated {
            push_str(&mut s, "（已截断）");
        }
        s
    }
}

/// Items joined with `、`.
pub open spec fn joined_list(v: Seq<Seq<char>>) -> Seq<char>
    decreases v.len(),
{
    if v.len() == 0 {
        Seq::empty()
    } else if v.len() == 1 {
        v[0]
    } else {
        joined_list(v.drop_last()) + "、"@ + v.last()
    }
}

pub open spec fn summary_of(sources: Seq<Seq<char>>, truncated: bool) -> Seq<char> {
    "项目指令："@ + joined_list(sources) + if truncated {
        "（已截断）"@
    } else {
        Seq::empty()
    }
}

} // verus!
