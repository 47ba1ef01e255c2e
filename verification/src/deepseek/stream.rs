//! The streamed chat response as a state machine: SSE lines framed from
//! payload bytes, each event's pieces turned into deltas in arrival order,
//! tool calls assembled from fragments by index, and the end of the stream
//! judged complete or cut. Decoding each event's JSON is the caller's part:
//! the machine hands out a `data:` payload and takes back the decoded event.
use vstd::prelude::*;
use std::collections::VecDeque;
use crate::text::{chars_of, trim, trim_str, str_eq, push_str, owned, string_of};
use crate::framing::{utf8_len, utf8_len_exec};
use super::{utf8_lossy, lossy_string, preview_of, preview_text};

verus! {

/// Largest JSON body buffered, and largest assembled tool arguments
/// (16 MiB).
pub const MAX_FALLBACK_BODY: usize = 16777216;

/// Longest SSE line.
pub const MAX_SSE_LINE: usize = 1048576;

/// One piece of the model's answer.
#[derive(Debug, Clone, PartialEq, Eq)]
pub enum Delta {
    Reasoning(String),
    Text(String),
    /// A complete tool call; `args` is its arguments as JSON text.
    ToolCall { id: String, name: String, args: String },
    Usage { input_tokens: u64, output_tokens: u64 },
}

pub enum DeltaModel {
    Reasoning(Seq<char>),
    Text(Seq<char>),
    ToolCall(Seq<char>, Seq<char>, Seq<char>),
    Usage(u64, u64),
}

pub open spec fn delta_view(d: Delta) -> DeltaModel {
    match d {
        Delta::Reasoning(t) => DeltaModel::Reasoning(t@),
        Delta::Text(t) => DeltaModel::Text(t@),
        Delta::ToolCall { id, name, args } => DeltaModel::ToolCall(id@, name@, args@),
        Delta::Usage { input_tokens, output_tokens } => DeltaModel::Usage(input_tokens, output_tokens),
    }
}

pub open spec fn deltas_view(v: Seq<Delta>) -> Seq<DeltaModel> {
    v.map_values(|d: Delta| delta_view(d))
}

/// One fragment of a streamed tool call, as decoded from an event.
#[derive(Debug, Clone)]
pub struct Fragment {
    /// The call it belongs to (0 when absent).
    pub index: usize,
    pub id: Option<String>,
    /// `Some` when the fragment has a `function` object: its name and
    /// argument text, each if present.
    pub function: Option<(Option<String>, Option<String>)>,
}

/// The first choice of an event.
#[derive(Debug, Clone)]
pub struct Choice {
    /// The `delta` object, if present: reasoning text, answer text, and
    /// tool-call fragments.
    pub delta: Option<(Option<String>, Option<String>, Vec<Fragment>)>,
    /// A `finish_reason` string is present.
    pub finished: bool,
}

/// A decoded SSE event: an error message (the `error` object's `message`,
/// or 未知错误), the first choice, and token usage (when present and not
/// null).
#[derive(Debug, Clone)]
pub struct SseEvent {
    pub error: Option<String>,
    pub choice: Option<Choice>,
    pub usage: Option<(u64, u64)>,
}

/// What the body turned out to be, from its first non-blank byte.
#[derive(Debug, Clone, Copy, PartialEq, Eq, Structural)]
pub enum BodyMode {
    Undecided,
    Sse,
    /// A whole JSON answer (the gateway ignored the stream flag).
    Json,
}

/// A tool call being assembled.
#[derive(Debug, Clone)]
pub struct ToolAcc {
    pub id: String,
    pub name: String,
    pub args: String,
}

pub type AccModel = (Seq<char>, Seq<char>, Seq<char>);

pub open spec fn tools_view(t: Seq<(usize, ToolAcc)>) -> Seq<(usize, AccModel)> {
    t.map_values(|p: (usize, ToolAcc)| (p.0, (p.1.id@, p.1.name@, p.1.args@)))
}

/// Indices strictly increase: one entry per call, in index order.
pub open spec fn sorted_unique(t: Seq<(usize, AccModel)>) -> bool {
    forall|i: int, j: int| 0 <= i < j < t.len() ==> #[trigger] t[i].0 < #[trigger] t[j].0
}

/// The stream's state.
pub struct SseStream {
    pub line: Vec<u8>,
    pub mode: BodyMode,
    pub json_buf: Vec<u8>,
    pub tools: Vec<(usize, ToolAcc)>,
    pub tools_flushed: bool,
    /// Some `data:` line came (an empty answer differs from a cut one).
    pub received_any: bool,
    /// A `finish_reason` came (complete even without `[DONE]`).
    pub saw_finish: bool,
    pub pending: VecDeque<Delta>,
    pub done: bool,
    pub err: Option<String>,
}

/// The state as values.
pub struct StreamModel {
    pub line: Seq<u8>,
    pub mode: BodyMode,
    pub json_buf: Seq<u8>,
    pub tools: Seq<(usize, AccModel)>,
    pub tools_flushed: bool,
    pub received_any: bool,
    pub saw_finish: bool,
    pub pending: Seq<DeltaModel>,
    pub done: bool,
    pub err: Option<Seq<char>>,
}

pub open spec fn opt_view(o: Option<String>) -> Option<Seq<char>> {
    match o {
        Some(s) => Some(s@),
        None => None,
    }
}

impl SseStream {
    pub open spec fn model(&self) -> StreamModel {
        StreamModel {
            line: self.line@,
            mode: self.mode,
            json_buf: self.json_buf@,
            tools: tools_view(self.tools@),
            tools_flushed: self.tools_flushed,
            received_any: self.received_any,
            saw_finish: self.saw_finish,
            pending: deltas_view(self.pending@),
            done: self.done,
            err: opt_view(self.err),
        }
    }

    pub open spec fn wf(&self) -> bool {
        sorted_unique(tools_view(self.tools@))
    }
}

// ── the model of each step ───────────────────────────────────────────

/// The tool calls as deltas, in index order; a call without an id gets
/// `call-unknown`.
pub open spec fn flushed_calls(t: Seq<(usize, AccModel)>) -> Seq<DeltaModel>
    decreases t.len(),
{
    if t.len() == 0 {
        Seq::empty()
    } else {
        let (id, name, args) = t[0].1;
        seq![DeltaModel::ToolCall(if id.len() == 0 { "call-unknown"@ } else { id }, name, args)]
            + flushed_calls(t.drop_first())
    }
}

/// Flushing: the assembled calls become deltas, once.
pub open spec fn flush_spec(s: StreamModel) -> StreamModel {
    if s.tools_flushed {
        s
    } else {
        StreamModel {
            tools_flushed: true,
            pending: s.pending + flushed_calls(s.tools),
            tools: Seq::empty(),
            ..s
        }
    }
}

/// Where the entry for `idx` is, or where it would go.
pub open spec fn slot_of(t: Seq<(usize, AccModel)>, idx: usize) -> int
    decreases t.len(),
{
    if t.len() == 0 || t[0].0 >= idx {
        0
    } else {
        1 + slot_of(t.drop_first(), idx)
    }
}

/// The accumulator for `idx` made present (empty when new).
pub open spec fn with_entry(t: Seq<(usize, AccModel)>, idx: usize) -> Seq<(usize, AccModel)> {
    let k = slot_of(t, idx);
    if k < t.len() && t[k].0 == idx {
        t
    } else {
        t.insert(k, (idx, (Seq::empty(), Seq::empty(), Seq::empty())))
    }
}

/// A fragment applied to its accumulator: a non-empty id or name replaces
/// the one held, argument text is appended. Gives the entries and whether
/// the arguments grew past the limit.
pub open spec fn apply_fragment(t: Seq<(usize, AccModel)>, f: Fragment) -> (Seq<(usize, AccModel)>, bool) {
    let t1 = with_entry(t, f.index);
    let k = slot_of(t, f.index);
    let (id, name, args) = t1[k].1;
    let id2 = match f.id {
        Some(i) => if i@.len() > 0 { i@ } else { id },
        None => id,
    };
    let (name2, args2) = match f.function {
        Some((n, a)) => (
            match n {
                Some(nn) => if nn@.len() > 0 { nn@ } else { name },
                None => name,
            },
            match a {
                Some(aa) => args + aa@,
                None => args,
            },
        ),
        None => (name, args),
    };
    let over = f.function matches Some((_, Some(_))) && utf8_len(args2) > MAX_FALLBACK_BODY;
    (t1.update(k, (f.index, (id2, name2, args2))), over)
}

/// Fragments applied in order, stopping at the first that overflows.
pub open spec fn apply_fragments(t: Seq<(usize, AccModel)>, fs: Seq<Fragment>) -> (Seq<(usize, AccModel)>, bool)
    decreases fs.len(),
{
    if fs.len() == 0 {
        (t, false)
    } else {
        let (t2, over) = apply_fragment(t, fs[0]);
        if over {
            (t2, true)
        } else {
            apply_fragments(t2, fs.drop_first())
        }
    }
}

/// Usage, when the event has it, as a delta.
pub open spec fn with_usage(s: StreamModel, u: Option<(u64, u64)>) -> StreamModel {
    match u {
        Some((i, o)) => StreamModel { pending: s.pending.push(DeltaModel::Usage(i, o)), ..s },
        None => s,
    }
}

/// The first choice's delta: reasoning then text (when not empty) become
/// deltas and the tool-call fragments are assembled. Gives the state and
/// whether arguments grew past the limit.
pub open spec fn delta_spec(s: StreamModel, d: Option<(Option<String>, Option<String>, Vec<Fragment>)>) -> (StreamModel, bool) {
    match d {
        None => (s, false),
        Some((r, c, fs)) => {
            let p1 = match r {
                Some(rr) => if rr@.len() > 0 { s.pending.push(DeltaModel::Reasoning(rr@)) } else { s.pending },
                None => s.pending,
            };
            let p2 = match c {
                Some(cc) => if cc@.len() > 0 { p1.push(DeltaModel::Text(cc@)) } else { p1 },
                None => p1,
            };
            let (t2, over) = apply_fragments(s.tools, fs@);
            (StreamModel { pending: p2, tools: t2, ..s }, over)
        },
    }
}

/// An event: an error ends the stream with that error; otherwise the first
/// choice's delta is taken in (arguments past the limit are an error and
/// end the event), a finish reason marks the answer complete and flushes
/// the calls; then usage, when present, becomes a delta.
pub open spec fn event_spec(s: StreamModel, ev: SseEvent) -> StreamModel {
    match ev.error {
        Some(m) => StreamModel { err: Some("模型返回错误："@ + m@), ..s },
        None => match ev.choice {
            None => with_usage(s, ev.usage),
            Some(ch) => {
                let (s1, over) = delta_spec(s, ch.delta);
                if over {
                    StreamModel { err: Some("工具调用参数超出上限（16 MiB）"@), ..s1 }
                } else {
                    let s2 = if ch.finished {
                        flush_spec(StreamModel { saw_finish: true, ..s1 })
                    } else {
                        s1
                    };
                    with_usage(s2, ev.usage)
                }
            },
        },
    }
}

// ── the steps ────────────────────────────────────────────────────────

proof fn lemma_slot_prefix(t: Seq<(usize, AccModel)>, idx: usize, k: int)
    requires
        0 <= k <= t.len(),
        forall|j: int| 0 <= j < k ==> (#[trigger] t[j]).0 < idx,
    ensures
        slot_of(t, idx) == k + slot_of(t.skip(k), idx),
    decreases k,
{
    if k > 0 {
        assert(t[0].0 < idx);
        let d = t.drop_first();
        assert forall|j: int| 0 <= j < k - 1 implies (#[trigger] d[j]).0 < idx by {
            assert(d[j] == t[j + 1]);
        }
        lemma_slot_prefix(d, idx, k - 1);
        assert(d.skip(k - 1) =~= t.skip(k));
    } else {
        assert(t.skip(0) =~= t);
    }
}

proof fn lemma_flushed_calls_len(t: Seq<(usize, AccModel)>)
    ensures
        flushed_calls(t).len() == t.len(),
    decreases t.len(),
{
    if t.len() > 0 {
        lemma_flushed_calls_len(t.drop_first());
    }
}

fn acc_view_of(a: &ToolAcc) -> (r: ToolAcc)
    ensures
        r.id@ == a.id@,
        r.name@ == a.name@,
        r.args@ == a.args@,
{
    ToolAcc { id: a.id.clone(), name: a.name.clone(), args: a.args.clone() }
}

impl SseStream {
    /// A stream before its first byte.
    pub fn new() -> (s: SseStream)
        ensures
            s.wf(),
            s.model() == (StreamModel {
                line: Seq::empty(),
                mode: BodyMode::Undecided,
                json_buf: Seq::empty(),
                tools: Seq::empty(),
                tools_flushed: false,
                received_any: false,
                saw_finish: false,
                pending: Seq::empty(),
                done: false,
                err: None,
            }),
    {
        let s = SseStream {
            line: Vec::new(),
            mode: BodyMode::Undecided,
            json_buf: Vec::new(),
            tools: Vec::new(),
            tools_flushed: false,
            received_any: false,
            saw_finish: false,
            pending: VecDeque::new(),
            done: false,
            err: None,
        };
        assert(tools_view(s.tools@) =~= Seq::<(usize, AccModel)>::empty());
        assert(deltas_view(s.pending@) =~= Seq::<DeltaModel>::empty());
        s
    }

    /// The assembled tool calls become deltas (once), in index order.
    pub fn flush_tools(&mut self)
        requires
            old(self).wf(),
        ensures
            final(self).wf(),
            final(self).model() == flush_spec(old(self).model()),
    {
        if self.tools_flushed {
            return;
        }
        self.tools_flushed = true;
        let ghost t0 = tools_view(self.tools@);
        let ghost p0 = deltas_view(self.pending@);
        let ghost m1 = self.model();
        let mut k: usize = 0;
        while k < self.tools.len()
            invariant
                k <= self.tools@.len(),
                tools_view(self.tools@) == t0,
                self.model() == (StreamModel { pending: deltas_view(self.pending@), ..m1 }),
                deltas_view(self.pending@) == p0 + flushed_calls(t0).take(k as int),
            decreases self.tools@.len() - k,
        {
            let id = if self.tools[k].1.id.unicode_len() == 0 {
                owned("call-unknown")
            } else {
                self.tools[k].1.id.clone()
            };
            let d = Delta::ToolCall { id, name: self.tools[k].1.name.clone(), args: self.tools[k].1.args.clone() };
            let ghost pv = deltas_view(self.pending@);
            self.pending.push_back(d);
            proof {
                assert(deltas_view(self.pending@) =~= pv.push(delta_view(d)));
                lemma_flushed_calls_len(t0);
                lemma_calls_take(t0, k as int);
            }
            k = k + 1;
        }
        proof {
            lemma_flushed_calls_len(t0);
            assert(flushed_calls(t0).take(t0.len() as int) =~= flushed_calls(t0));
        }
        self.tools = Vec::new();
        assert(tools_view(self.tools@) =~= Seq::<(usize, AccModel)>::empty());
    }
}

proof fn lemma_calls_take(t: Seq<(usize, AccModel)>, k: int)
    requires
        0 <= k < t.len(),
    ensures
        flushed_calls(t).take(k + 1) == flushed_calls(t).take(k).push(
            DeltaModel::ToolCall(if t[k].1.0.len() == 0 { "call-unknown"@ } else { t[k].1.0 }, t[k].1.1, t[k].1.2),
        ),
    decreases k,
{
    lemma_flushed_calls_len(t);
    if k == 0 {
        assert(flushed_calls(t).take(1) =~= flushed_calls(t).take(0).push(flushed_calls(t)[0]));
    } else {
        lemma_calls_take(t.drop_first(), k - 1);
        lemma_flushed_calls_len(t.drop_first());
        let f = flushed_calls(t);
        let g = flushed_calls(t.drop_first());
        assert(f.take(k + 1) =~= f.take(1) + g.take(k));
        assert(f.take(k) =~= f.take(1) + g.take(k - 1));
        assert(t.drop_first()[k - 1] == t[k]);
    }
}

fn empty_acc() -> (a: ToolAcc)
    ensures
        a.id@ == Seq::<char>::empty(),
        a.name@ == Seq::<char>::empty(),
        a.args@ == Seq::<char>::empty(),
{
    ToolAcc { id: String::new(), name: String::new(), args: String::new() }
}

/// Applies a fragment to the accumulators (see `apply_fragment`); `true`
/// when the arguments grew past the limit.
fn apply_fragment_exec(tools: &mut Vec<(usize, ToolAcc)>, f: &Fragment) -> (over: bool)
    requires
        sorted_unique(tools_view(old(tools)@)),
    ensures
        (tools_view(final(tools)@), over) == apply_fragment(tools_view(old(tools)@), *f),
        sorted_unique(tools_view(final(tools)@)),
{
    let ghost t = tools_view(tools@);
    let idx = f.index;
    let mut k: usize = 0;
    while k < tools.len() && tools[k].0 < idx
        invariant
            k <= tools@.len(),
            t == tools_view(tools@),
            forall|j: int| 0 <= j < k ==> (#[trigger] t[j]).0 < idx,
        decreases tools@.len() - k,
    {
        k = k + 1;
    }
    proof {
        lemma_slot_prefix(t, idx, k as int);
        assert(slot_of(t.skip(k as int), idx) == 0);
    }
    if !(k < tools.len() && tools[k].0 == idx) {
        tools.insert(k, (idx, empty_acc()));
        proof {
            let e = (idx, (Seq::<char>::empty(), Seq::<char>::empty(), Seq::<char>::empty()));
            assert(tools_view(tools@) =~= t.insert(k as int, e));
            let t2 = tools_view(tools@);
            assert forall|i: int, j: int| 0 <= i < j < t2.len() implies #[trigger] t2[i].0 < #[trigger] t2[j].0 by {
                if j < k {
                } else if j == k {
                    assert(t[i].0 < idx);
                } else if i < k {
                    assert(t[i].0 < idx);
                    assert(t[k as int].0 >= idx);
                    if j - 1 > k {
                        assert(t[k as int].0 < t[j - 1].0);
                    }
                } else if i == k {
                    assert(t[k as int].0 > idx);
                    if j - 1 > k {
                        assert(t[k as int].0 < t[j - 1].0);
                    }
                } else {
                    assert(t[i - 1].0 < t[j - 1].0);
                }
            }
        }
    }
    let ghost t1 = tools_view(tools@);
    assert(t1 == with_entry(t, idx));
    let id2 = match &f.id {
        Some(i) => {
            if i.unicode_len() > 0 {
                i.clone()
            } else {
                tools[k].1.id.clone()
            }
        },
        None => tools[k].1.id.clone(),
    };
    let (name2, args2, has_args) = match &f.function {
        Some((n, a)) => {
            let nm = match n {
                Some(nn) => {
                    if nn.unicode_len() > 0 {
                        nn.clone()
                    } else {
                        tools[k].1.name.clone()
                    }
                },
                None => tools[k].1.name.clone(),
            };
            match a {
                Some(aa) => {
                    let mut ar = tools[k].1.args.clone();
                    push_str(&mut ar, aa.as_str());
                    (nm, ar, true)
                },
                None => (nm, tools[k].1.args.clone(), false),
            }
        },
        None => (tools[k].1.name.clone(), tools[k].1.args.clone(), false),
    };
    let over = if has_args {
        let av = chars_of(args2.as_str());
        utf8_len_exec(av.as_slice()) > MAX_FALLBACK_BODY
    } else {
        false
    };
    let ghost before = tools_view(tools@);
    tools.set(k, (idx, ToolAcc { id: id2, name: name2, args: args2 }));
    proof {
        assert(tools_view(tools@) =~= before.update(k as int, (idx, (id2@, name2@, args2@))));
        let t2 = tools_view(tools@);
        assert forall|i: int, j: int| 0 <= i < j < t2.len() implies #[trigger] t2[i].0 < #[trigger] t2[j].0 by {
            assert(t1[i].0 < t1[j].0);
        }
    }
    over
}

fn apply_fragments_exec(tools: &mut Vec<(usize, ToolAcc)>, fs: &Vec<Fragment>) -> (over: bool)
    requires
        sorted_unique(tools_view(old(tools)@)),
    ensures
        (tools_view(final(tools)@), over) == apply_fragments(tools_view(old(tools)@), fs@),
        sorted_unique(tools_view(final(tools)@)),
{
    let ghost goal = apply_fragments(tools_view(tools@), fs@);
    let mut k: usize = 0;
    assert(fs@.skip(0) =~= fs@);
    while k < fs.len()
        invariant
            k <= fs@.len(),
            sorted_unique(tools_view(tools@)),
            goal == apply_fragments(tools_view(old(tools)@), fs@),
            apply_fragments(tools_view(tools@), fs@.skip(k as int)) == goal,
        decreases fs@.len() - k,
    {
        let ghost rest = fs@.skip(k as int);
        assert(rest[0] == fs@[k as int]);
        assert(rest.drop_first() =~= fs@.skip(k + 1));
        let ghost t_prev = tools_view(tools@);
        let over = apply_fragment_exec(tools, &fs[k]);
        assert(apply_fragments(t_prev, rest) == (if over {
            (tools_view(tools@), true)
        } else {
            apply_fragments(tools_view(tools@), rest.drop_first())
        }));
        if over {
            return true;
        }
        k = k + 1;
    }
    assert(fs@.skip(k as int) =~= Seq::<Fragment>::empty());
    false
}

impl SseStream {
    /// Takes in a decoded event (see `event_spec`).
    pub fn handle_event(&mut self, ev: &SseEvent)
        requires
            old(self).wf(),
        ensures
            final(self).wf(),
            final(self).model() == event_spec(old(self).model(), *ev),
    {
        if let Some(m) = &ev.error {
            let mut e = owned("模型返回错误：");
            push_str(&mut e, m.as_str());
            self.err = Some(e);
            return;
        }
        if let Some(ch) = &ev.choice {
            if let Some((r, c, fs)) = &ch.delta {
                let ghost p0 = deltas_view(self.pending@);
                if let Some(rr) = r {
                    if rr.unicode_len() > 0 {
                        let d = Delta::Reasoning(rr.clone());
                        self.pending.push_back(d);
                        assert(deltas_view(self.pending@) =~= p0.push(delta_view(d)));
                    }
                }
                let ghost p1 = deltas_view(self.pending@);
                if let Some(cc) = c {
                    if cc.unicode_len() > 0 {
                        let d = Delta::Text(cc.clone());
                        self.pending.push_back(d);
                        assert(deltas_view(self.pending@) =~= p1.push(delta_view(d)));
                    }
                }
                let over = apply_fragments_exec(&mut self.tools, fs);
                if over {
                    self.err = Some(owned("工具调用参数超出上限（16 MiB）"));
                    return;
                }
            }
            if ch.finished {
                self.saw_finish = true;
                self.flush_tools();
            }
        }
        if let Some((i, o)) = ev.usage {
            let ghost p2 = deltas_view(self.pending@);
            let d = Delta::Usage { input_tokens: i, output_tokens: o };
            self.pending.push_back(d);
            assert(deltas_view(self.pending@) =~= p2.push(delta_view(d)));
        }
    }

    /// A `data:` payload that is not JSON ends the stream with an error.
    pub fn bad_json(&mut self, payload: &str)
        ensures
            final(self).model() == (StreamModel {
                err: Some("SSE 事件不是合法 JSON："@ + preview_of(payload@)),
                ..old(self).model()
            }),
            final(self).tools@ == old(self).tools@,
    {
        let mut e = owned("SSE 事件不是合法 JSON：");
        let pv = preview_text(payload);
        push_str(&mut e, pv.as_str());
        self.err = Some(e);
    }
}

pub fn copy_delta(d: &Delta) -> (r: Delta)
    ensures
        delta_view(r) == delta_view(*d),
{
    match d {
        Delta::Reasoning(t) => Delta::Reasoning(t.clone()),
        Delta::Text(t) => Delta::Text(t.clone()),
        Delta::ToolCall { id, name, args } => Delta::ToolCall { id: id.clone(), name: name.clone(), args: args.clone() },
        Delta::Usage { input_tokens, output_tokens } => Delta::Usage { input_tokens: *input_tokens, output_tokens: *output_tokens },
    }
}

fn byte_range(v: &[u8], a: usize, b: usize) -> (r: Vec<u8>)
    requires
        a <= b <= v@.len(),
    ensures
        r@ == v@.subrange(a as int, b as int),
{
    let mut r: Vec<u8> = Vec::new();
    let mut i = a;
    while i < b
        invariant
            a <= i <= b,
            b <= v@.len(),
            r@ == v@.subrange(a as int, i as int),
        decreases b - i,
    {
        r.push(v[i]);
        assert(v@.subrange(a as int, i + 1) =~= v@.subrange(a as int, i as int).push(v@[i as int]));
        i = i + 1;
    }
    r
}

// ── lines and batches ────────────────────────────────────────────────

/// The bytes `data:`.
pub open spec fn data_tag() -> Seq<u8> {
    seq![100u8, 97u8, 116u8, 97u8, 58u8]
}

/// What follows `data:` on a line (a final carriage return dropped), if
/// the line is a data line.
pub open spec fn data_payload(line: Seq<u8>) -> Option<Seq<u8>> {
    let l = if line.len() > 0 && line.last() == 13u8 { line.drop_last() } else { line };
    if l.len() >= 5 && l.take(5) == data_tag() {
        Some(l.skip(5))
    } else {
        None
    }
}

/// A complete line: other lines (events, ids, comments, blanks) change
/// nothing; a data line marks that data came, and its payload (one
/// leading space dropped) either is `[DONE]`, which flushes the tool calls
/// and ends the stream, or is handed out for decoding.
pub open spec fn line_spec(s: StreamModel, line: Seq<u8>) -> (StreamModel, Option<Seq<char>>) {
    match data_payload(line) {
        None => (s, None),
        Some(rest) => {
            let text = utf8_lossy(rest);
            let payload = if text.len() > 0 && text[0] == ' ' { text.drop_first() } else { text };
            let s1 = StreamModel { received_any: true, ..s };
            if trim(payload) == "[DONE]"@ {
                (StreamModel { done: true, ..flush_spec(s1) }, None)
            } else {
                (s1, Some(payload))
            }
        },
    }
}

/// How a batch of bytes was taken in.
#[derive(Debug, Clone, PartialEq, Eq)]
pub enum Ingest {
    /// All taken (or the stream has ended).
    Done,
    /// A data payload to decode; then go on from byte `next`.
    Payload { text: String, next: usize },
    /// The body is broken (the message).
    Fail(String),
}

pub enum IngestModel {
    Done,
    Payload(Seq<char>, int),
    Fail(Seq<char>),
}

pub open spec fn ingest_view(i: Ingest) -> IngestModel {
    match i {
        Ingest::Done => IngestModel::Done,
        Ingest::Payload { text, next } => IngestModel::Payload(text@, next as int),
        Ingest::Fail(m) => IngestModel::Fail(m@),
    }
}

/// SSE bytes from position `i`: stop once the stream ended or failed; a
/// line feed completes a line (a payload stops the scan); other bytes
/// extend the line, which may not grow past `MAX_SSE_LINE`.
pub open spec fn scan_spec(s: StreamModel, raw: Seq<u8>, i: int) -> (StreamModel, IngestModel)
    decreases raw.len() - i,
{
    if i >= raw.len() || i < 0 || s.done || s.err is Some {
        (s, IngestModel::Done)
    } else if raw[i] == 10u8 {
        let (s2, p) = line_spec(StreamModel { line: Seq::empty(), ..s }, s.line);
        match p {
            Some(t) => (s2, IngestModel::Payload(t, i + 1)),
            None => scan_spec(s2, raw, i + 1),
        }
    } else if s.line.len() >= MAX_SSE_LINE {
        (s, IngestModel::Fail("SSE 单行超过上限"@))
    } else {
        scan_spec(StreamModel { line: s.line.push(raw[i]), ..s }, raw, i + 1)
    }
}

/// ASCII whitespace (space, tab, line feed, form feed, carriage return).
pub open spec fn ascii_ws(b: u8) -> bool {
    b == 32u8 || b == 9u8 || b == 10u8 || b == 12u8 || b == 13u8
}

/// The first byte that is not ASCII whitespace.
pub open spec fn first_solid(raw: Seq<u8>) -> Option<u8>
    decreases raw.len(),
{
    if raw.len() == 0 {
        None
    } else if !ascii_ws(raw[0]) {
        Some(raw[0])
    } else {
        first_solid(raw.drop_first())
    }
}

/// A batch from position `from` (0: a new batch): an undecided body is
/// judged by the batch's first non-blank byte (`{`: a whole JSON answer,
/// else SSE; an all-blank batch changes nothing); JSON is buffered up to
/// `MAX_FALLBACK_BODY`; SSE is scanned.
pub open spec fn ingest_spec(s: StreamModel, raw: Seq<u8>, from: int) -> (StreamModel, IngestModel) {
    let mode = if s.mode == BodyMode::Undecided {
        match first_solid(raw) {
            None => BodyMode::Undecided,
            Some(b) => if b == 123u8 { BodyMode::Json } else { BodyMode::Sse },
        }
    } else {
        s.mode
    };
    let s1 = StreamModel { mode, ..s };
    match mode {
        BodyMode::Undecided => (s, IngestModel::Done),
        BodyMode::Json => if from == 0 {
            let buf = s.json_buf + raw;
            if buf.len() > MAX_FALLBACK_BODY {
                (StreamModel { json_buf: buf, ..s1 }, IngestModel::Fail("响应体超出上限（16 MiB）"@))
            } else {
                (StreamModel { json_buf: buf, ..s1 }, IngestModel::Done)
            }
        } else {
            (s1, IngestModel::Done)
        },
        BodyMode::Sse => scan_spec(s1, raw, from),
    }
}

/// The end of an SSE body: the calls are flushed; no data at all is an
/// empty answer, data without a finish is a cut one; the stream ends.
pub open spec fn finish_sse_spec(s: StreamModel) -> StreamModel {
    let s1 = flush_spec(s);
    let err = if !s1.received_any {
        Some("响应为空（未收到任何数据）"@)
    } else if !s1.saw_finish {
        Some("连接在响应完成前关闭"@)
    } else {
        s1.err
    };
    StreamModel { err, done: true, ..s1 }
}

/// What the stream gives next.
#[derive(Debug, Clone, PartialEq, Eq)]
pub enum Output {
    /// The next delta.
    Delta(Delta),
    /// The stream is over.
    Finished,
    /// More of the body must be read first.
    NeedInput,
}

pub enum OutputModel {
    Delta(DeltaModel),
    Finished,
    NeedInput,
}

pub open spec fn output_view(o: Output) -> OutputModel {
    match o {
        Output::Delta(d) => OutputModel::Delta(delta_view(d)),
        Output::Finished => OutputModel::Finished,
        Output::NeedInput => OutputModel::NeedInput,
    }
}

/// Deltas first, in order; then an error, once, as a text delta (which
/// ends the stream); then the end; otherwise more input.
pub open spec fn next_spec(s: StreamModel) -> (StreamModel, OutputModel) {
    if s.pending.len() > 0 {
        (StreamModel { pending: s.pending.drop_first(), ..s }, OutputModel::Delta(s.pending[0]))
    } else if s.err is Some {
        (
            StreamModel { err: None, done: true, ..s },
            OutputModel::Delta(DeltaModel::Text("[provider 错误] "@ + s.err->0)),
        )
    } else if s.done {
        (s, OutputModel::Finished)
    } else {
        (s, OutputModel::NeedInput)
    }
}

impl SseStream {
    /// Takes a complete line (see `line_spec`); a payload to decode comes
    /// back.
    pub fn handle_line(&mut self, line: &[u8]) -> (r: Option<String>)
        requires
            old(self).wf(),
        ensures
            final(self).wf(),
            (final(self).model(), opt_view(r)) == line_spec(old(self).model(), line@),
    {
        let n = line.len();
        let end = if n > 0 && line[n - 1] == 13 {
            n - 1
        } else {
            n
        };
        let ghost l = if line@.len() > 0 && line@.last() == 13u8 { line@.drop_last() } else { line@ };
        assert(line@.take(end as int) =~= l);
        if !(end >= 5 && line[0] == 100 && line[1] == 97 && line[2] == 116 && line[3] == 97 && line[4] == 58) {
            proof {
                if l.len() >= 5 && l.take(5) == data_tag() {
                    assert(l.take(5)[0] == l[0]);
                    assert(l.take(5)[1] == l[1]);
                    assert(l.take(5)[2] == l[2]);
                    assert(l.take(5)[3] == l[3]);
                    assert(l.take(5)[4] == l[4]);
                }
            }
            return None;
        }
        assert(l.take(5) =~= data_tag());
        let rest = byte_range(line, 5, end);
        assert(rest@ =~= l.skip(5));
        let text = lossy_string(rest.as_slice());
        let tv = chars_of(text.as_str());
        let payload_v = if tv.len() > 0 && tv[0] == ' ' {
            crate::text::sub_chars(tv.as_slice(), 1, tv.len())
        } else {
            crate::text::copy_chars(tv.as_slice())
        };
        proof {
            if tv@.len() > 0 && tv@[0] == ' ' {
                assert(payload_v@ =~= tv@.drop_first());
            }
        }
        let payload = string_of(payload_v.as_slice());
        self.received_any = true;
        if str_eq(trim_str(payload.as_str()), "[DONE]") {
            self.flush_tools();
            self.done = true;
            return None;
        }
        Some(payload)
    }

    /// Takes in a batch of body bytes from position `from` (0: a new
    /// batch; see `ingest_spec`). After a payload, the caller decodes it,
    /// hands the event to `handle_event` (or the payload to `bad_json`),
    /// and goes on from `next`.
    pub fn ingest_from(&mut self, raw: &[u8], from: usize) -> (r: Ingest)
        requires
            old(self).wf(),
            old(self).line@.len() <= MAX_SSE_LINE,
        ensures
            final(self).wf(),
            final(self).line@.len() <= MAX_SSE_LINE,
            (final(self).model(), ingest_view(r)) == ingest_spec(old(self).model(), raw@, from as int),
    {
        let ghost s0 = self.model();
        if self.mode == BodyMode::Undecided {
            let mut i: usize = 0;
            let mut found: Option<u8> = None;
            assert(raw@.skip(0) =~= raw@);
            while i < raw.len() && found.is_none()
                invariant
                    i <= raw@.len(),
                    found is None ==> first_solid(raw@) == first_solid(raw@.skip(i as int)),
                    found matches Some(b) ==> first_solid(raw@) == Some(b),
                decreases raw@.len() - i,
            {
                let b = raw[i];
                assert(raw@.skip(i as int)[0] == b);
                assert(raw@.skip(i as int).drop_first() =~= raw@.skip(i + 1));
                if !(b == 32 || b == 9 || b == 10 || b == 12 || b == 13) {
                    found = Some(b);
                }
                i = i + 1;
            }
            proof {
                if found is None {
                    assert(raw@.skip(i as int) =~= Seq::<u8>::empty());
                }
            }
            match found {
                None => {
                    return Ingest::Done;
                },
                Some(b) => {
                    self.mode = if b == 123 {
                        BodyMode::Json
                    } else {
                        BodyMode::Sse
                    };
                },
            }
        }
        match self.mode {
            BodyMode::Json => {
                if from != 0 {
                    return Ingest::Done;
                }
                let ghost j0 = self.json_buf@;
                let ghost m0 = self.model();
                let mut k: usize = 0;
                while k < raw.len()
                    invariant
                        k <= raw@.len(),
                        self.json_buf@ == j0 + raw@.take(k as int),
                        self.model() == (StreamModel { json_buf: self.json_buf@, ..m0 }),
                    decreases raw@.len() - k,
                {
                    self.json_buf.push(raw[k]);
                    assert(raw@.take(k + 1) =~= raw@.take(k as int).push(raw@[k as int]));
                    k = k + 1;
                }
                assert(raw@.take(raw@.len() as int) =~= raw@);
                if self.json_buf.len() > MAX_FALLBACK_BODY {
                    Ingest::Fail(owned("响应体超出上限（16 MiB）"))
                } else {
                    Ingest::Done
                }
            },
            BodyMode::Sse => self.scan(raw, from),
            BodyMode::Undecided => Ingest::Done,
        }
    }

    fn scan(&mut self, raw: &[u8], from: usize) -> (r: Ingest)
        requires
            old(self).wf(),
            old(self).line@.len() <= MAX_SSE_LINE,
        ensures
            final(self).wf(),
            final(self).line@.len() <= MAX_SSE_LINE,
            (final(self).model(), ingest_view(r)) == scan_spec(old(self).model(), raw@, from as int),
    {
        let mut i = from;
        while i < raw.len()
            invariant
                self.wf(),
                self.line@.len() <= MAX_SSE_LINE,
                from <= i,
                scan_spec(self.model(), raw@, i as int) == scan_spec(old(self).model(), raw@, from as int),
            decreases raw@.len() - i,
        {
            if self.done || self.err.is_some() {
                return Ingest::Done;
            }
            let b = raw[i];
            if b == 10 {
                let mut line: Vec<u8> = Vec::new();
                std::mem::swap(&mut line, &mut self.line);
                let p = self.handle_line(line.as_slice());
                match p {
                    Some(t) => {
                        return Ingest::Payload { text: t, next: i + 1 };
                    },
                    None => {},
                }
            } else {
                if self.line.len() >= MAX_SSE_LINE {
                    return Ingest::Fail(owned("SSE 单行超过上限"));
                }
                self.line.push(b);
            }
            i = i + 1;
        }
        Ingest::Done
    }

    /// The end of the body. An SSE body is judged here (see
    /// `finish_sse_spec`) and `false` comes back; for a whole JSON answer
    /// nothing changes and `true` comes back: the caller decodes the
    /// buffered answer and hands the result to `finish_json`.
    pub fn finish_stream(&mut self) -> (needs_json: bool)
        requires
            old(self).wf(),
        ensures
            final(self).wf(),
            needs_json == (old(self).mode == BodyMode::Json),
            needs_json ==> final(self).model() == old(self).model(),
            !needs_json ==> final(self).model() == finish_sse_spec(old(self).model()),
    {
        if self.mode == BodyMode::Json {
            return true;
        }
        self.flush_tools();
        if !self.received_any {
            self.err = Some(owned("响应为空（未收到任何数据）"));
        } else if !self.saw_finish {
            self.err = Some(owned("连接在响应完成前关闭"));
        }
        self.done = true;
        false
    }

    /// The end of a whole JSON answer: its deltas, or its error; the
    /// stream ends.
    pub fn finish_json(&mut self, r: Result<Vec<Delta>, String>)
        ensures
            final(self).model() == (match r {
                Ok(ds) => StreamModel { pending: old(self).model().pending + deltas_view(ds@), done: true, ..old(self).model() },
                Err(e) => StreamModel { err: Some(e@), done: true, ..old(self).model() },
            }),
            final(self).tools@ == old(self).tools@,
    {
        match r {
            Ok(ds) => {
                let ghost p0 = deltas_view(self.pending@);
                let mut k: usize = 0;
                while k < ds.len()
                    invariant
                        k <= ds@.len(),
                        deltas_view(self.pending@) == p0 + deltas_view(ds@.take(k as int)),
                        self.model() == (StreamModel { pending: deltas_view(self.pending@), ..old(self).model() }),
                        self.tools@ == old(self).tools@,
                    decreases ds@.len() - k,
                {
                    let d = copy_delta(&ds[k]);
                    let ghost pv = deltas_view(self.pending@);
                    self.pending.push_back(d);
                    assert(deltas_view(self.pending@) =~= pv.push(delta_view(d)));
                    assert(deltas_view(ds@.take(k + 1)) =~= deltas_view(ds@.take(k as int)).push(delta_view(ds@[k as int])));
                    k = k + 1;
                }
                assert(ds@.take(ds@.len() as int) =~= ds@);
            },
            Err(e) => {
                self.err = Some(e);
            },
        }
        self.done = true;
    }

    /// What the stream gives next (see `next_spec`).
    pub fn next_output(&mut self) -> (r: Output)
        requires
            old(self).wf(),
        ensures
            final(self).wf(),
            (final(self).model(), output_view(r)) == next_spec(old(self).model()),
    {
        let ghost p0 = self.pending@;
        match self.pending.pop_front() {
            Some(d) => {
                assert(deltas_view(self.pending@) =~= deltas_view(p0).drop_first());
                return Output::Delta(d);
            },
            None => {},
        }
        match self.err.take() {
            Some(e) => {
                self.done = true;
                let mut t = owned("[provider 错误] ");
                push_str(&mut t, e.as_str());
                Output::Delta(Delta::Text(t))
            },
            None => {
                if self.done {
                    Output::Finished
                } else {
                    Output::NeedInput
                }
            },
        }
    }
}

// ── a whole answer ───────────────────────────────────────────────────

/// One tool call of a whole answer: its id, and its `function` object (the
/// name and argument text, each if present) when it has one.
#[derive(Debug, Clone)]
pub struct CompletionCall {
    pub id: Option<String>,
    pub function: Option<(Option<String>, Option<String>)>,
}

/// The message of a whole answer: reasoning, text, and the tool calls
/// (when `tool_calls` is an array).
#[derive(Debug, Clone)]
pub struct CompletionMessage {
    pub reasoning: Option<String>,
    pub content: Option<String>,
    pub tool_calls: Option<Vec<CompletionCall>>,
}

/// A decoded whole answer: an error message (the `error` object's
/// `message`, or 未知错误), the first choice (`Some(None)`: it has no
/// message), and usage (when the key is present).
#[derive(Debug, Clone)]
pub struct Completion {
    pub error: Option<String>,
    pub choice: Option<Option<CompletionMessage>>,
    pub usage: Option<(u64, u64)>,
}

/// The tool calls as deltas; the first call without a function or name
/// is an error. Arguments default to `{}`, ids to `call-unknown`.
pub open spec fn calls_spec(cs: Seq<CompletionCall>) -> Result<Seq<DeltaModel>, Seq<char>>
    decreases cs.len(),
{
    if cs.len() == 0 {
        Ok(Seq::empty())
    } else {
        let c = cs[0];
        match c.function {
            None => Err("tool_call 缺少 function"@),
            Some((n, a)) => match n {
                None => Err("function 缺少 name"@),
                Some(name) => {
                    let args = match a {
                        Some(x) => x@,
                        None => "{}"@,
                    };
                    let id = match c.id {
                        Some(i) => i@,
                        None => "call-unknown"@,
                    };
                    match calls_spec(cs.drop_first()) {
                        Err(e) => Err(e),
                        Ok(rest) => Ok(seq![DeltaModel::ToolCall(id, name@, args)] + rest),
                    }
                },
            },
        }
    }
}

/// A whole answer as deltas: its error, or a missing choice or message,
/// is an error; otherwise reasoning then text (when not empty), the tool
/// calls, then usage.
pub open spec fn completion_spec(c: Completion) -> Result<Seq<DeltaModel>, Seq<char>> {
    match c.error {
        Some(m) => Err("模型返回错误："@ + m@),
        None => match c.choice {
            None => Err("响应缺少 choices[0]"@),
            Some(None) => Err("choices[0] 缺少 message"@),
            Some(Some(msg)) => {
                let r: Seq<DeltaModel> = match msg.reasoning {
                    Some(t) => if t@.len() > 0 { seq![DeltaModel::Reasoning(t@)] } else { Seq::empty() },
                    None => Seq::empty(),
                };
                let t: Seq<DeltaModel> = match msg.content {
                    Some(x) => if x@.len() > 0 { seq![DeltaModel::Text(x@)] } else { Seq::empty() },
                    None => Seq::empty(),
                };
                let calls = match msg.tool_calls {
                    Some(cs) => calls_spec(cs@),
                    None => Ok(Seq::empty()),
                };
                match calls {
                    Err(e) => Err(e),
                    Ok(cd) => {
                        let u: Seq<DeltaModel> = match c.usage {
                            Some((i, o)) => seq![DeltaModel::Usage(i, o)],
                            None => Seq::empty(),
                        };
                        Ok(r + t + cd + u)
                    },
                }
            },
        },
    }
}

pub open spec fn result_view(r: Result<Vec<Delta>, String>) -> Result<Seq<DeltaModel>, Seq<char>> {
    match r {
        Ok(v) => Ok(deltas_view(v@)),
        Err(e) => Err(e@),
    }
}

fn calls_exec(cs: &Vec<CompletionCall>) -> (r: Result<Vec<Delta>, String>)
    ensures
        result_view(r) == calls_spec(cs@),
{
    let mut out: Vec<Delta> = Vec::new();
    let mut k: usize = 0;
    assert(cs@.skip(0) =~= cs@);
    while k < cs.len()
        invariant
            k <= cs@.len(),
            calls_spec(cs@) == match calls_spec(cs@.skip(k as int)) {
                Ok(rest) => Ok(deltas_view(out@) + rest),
                Err(e) => Err::<Seq<DeltaModel>, Seq<char>>(e),
            },
        decreases cs@.len() - k,
    {
        let ghost rest = cs@.skip(k as int);
        assert(rest[0] == cs@[k as int]);
        assert(rest.drop_first() =~= cs@.skip(k + 1));
        let call = &cs[k];
        let (n, a) = match &call.function {
            None => return Err(owned("tool_call 缺少 function")),
            Some(f) => f,
        };
        let name = match n {
            None => return Err(owned("function 缺少 name")),
            Some(nm) => nm.clone(),
        };
        let args = match a {
            Some(x) => x.clone(),
            None => owned("{}"),
        };
        let id = match &call.id {
            Some(i) => i.clone(),
            None => owned("call-unknown"),
        };
        let d = Delta::ToolCall { id, name, args };
        let ghost o0 = deltas_view(out@);
        out.push(d);
        assert(deltas_view(out@) =~= o0.push(delta_view(d)));
        proof {
            match calls_spec(cs@.skip(k + 1)) {
                Ok(r2) => {
                    assert(o0 + (seq![delta_view(d)] + r2) =~= deltas_view(out@) + r2);
                },
                Err(_) => {},
            }
        }
        k = k + 1;
    }
    assert(cs@.skip(k as int) =~= Seq::<CompletionCall>::empty());
    assert(deltas_view(out@) + Seq::<DeltaModel>::empty() =~= deltas_view(out@));
    Ok(out)
}

/// The deltas of a whole (non-streamed) answer (see `completion_spec`).
pub fn completion_deltas(c: &Completion) -> (r: Result<Vec<Delta>, String>)
    ensures
        result_view(r) == completion_spec(*c),
{
    if let Some(m) = &c.error {
        let mut e = owned("模型返回错误：");
        push_str(&mut e, m.as_str());
        return Err(e);
    }
    let msg = match &c.choice {
        None => return Err(owned("响应缺少 choices[0]")),
        Some(None) => return Err(owned("choices[0] 缺少 message")),
        Some(Some(m)) => m,
    };
    let mut out: Vec<Delta> = Vec::new();
    if let Some(t) = &msg.reasoning {
        if t.unicode_len() > 0 {
            out.push(Delta::Reasoning(t.clone()));
        }
    }
    let ghost o1 = deltas_view(out@);
    if let Some(x) = &msg.content {
        if x.unicode_len() > 0 {
            out.push(Delta::Text(x.clone()));
        }
    }
    let ghost o2 = deltas_view(out@);
    let mut calls = match &msg.tool_calls {
        Some(cs) => match calls_exec(cs) {
            Ok(v) => v,
            Err(e) => return Err(e),
        },
        None => Vec::new(),
    };
    let ghost cv = deltas_view(calls@);
    out.append(&mut calls);
    let ghost o3 = deltas_view(out@);
    if let Some((i, o)) = c.usage {
        out.push(Delta::Usage { input_tokens: i, output_tokens: o });
    }
    proof {
        assert(o3 =~= o2 + cv);
        match c.usage {
            Some((i, o)) => assert(deltas_view(out@) =~= o3 + seq![DeltaModel::Usage(i, o)]),
            None => assert(deltas_view(out@) =~= o3 + Seq::<DeltaModel>::empty()),
        }
        match &msg.reasoning {
            Some(t) => if t@.len() > 0 {
                assert(o1 =~= seq![DeltaModel::Reasoning(t@)]);
            } else {
                assert(o1 =~= Seq::<DeltaModel>::empty());
            },
            None => assert(o1 =~= Seq::<DeltaModel>::empty()),
        }
        match &msg.content {
            Some(x) => if x@.len() > 0 {
                assert(o2 =~= o1 + seq![DeltaModel::Text(x@)]);
            } else {
                assert(o2 =~= o1 + Seq::<DeltaModel>::empty());
            },
            None => assert(o2 =~= o1 + Seq::<DeltaModel>::empty()),
        }
    }
    Ok(out)
}

// ── laws ─────────────────────────────────────────────────────────────

/// Tool calls are emitted once: flushing again adds nothing.
pub proof fn law_tool_calls_flush_once(s: StreamModel)
    ensures
        flush_spec(flush_spec(s)) == flush_spec(s),
{
}

/// An error is shown, as text, before the stream ends: with no delta
/// waiting, the next output is the error and the one after it is the end.
pub proof fn law_error_shown_before_the_end(s: StreamModel)
    requires
        s.pending.len() == 0,
        s.err is Some,
    ensures
        next_spec(s).1 == OutputModel::Delta(DeltaModel::Text("[provider 错误] "@ + s.err->0)),
        next_spec(next_spec(s).0).1 == OutputModel::Finished,
{
}

/// A body that ends without any data is an error, and so is one whose data
/// never finished (no `[DONE]`, no finish reason): a cut answer is never
/// passed off as complete.
pub proof fn law_cut_or_empty_answers_are_errors(s: StreamModel)
    requires
        s.mode != BodyMode::Json,
        !s.received_any || !s.saw_finish,
    ensures
        finish_sse_spec(s).err == Some(if !s.received_any {
            "响应为空（未收到任何数据）"@
        } else {
            "连接在响应完成前关闭"@
        }),
        finish_sse_spec(s).done,
{
}

/// Once the stream has ended or failed, further bytes change nothing.
pub proof fn law_ended_stream_ignores_bytes(s: StreamModel, raw: Seq<u8>, i: int)
    requires
        s.done || s.err is Some,
    ensures
        scan_spec(s, raw, i) == (s, IngestModel::Done),
{
}

} // verus!
