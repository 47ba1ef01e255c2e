//! What goes to the model service: the provider's settings, the HTTP
//! request frame, how a tool result is told to the model, and a scripted
//! provider that answers without a network (offline mode, self checks).
use vstd::prelude::*;
use crate::framing::{utf8_len, utf8_len_exec, dec_of, push_dec};
use crate::mcp::client::{signed_dec, push_signed};
use crate::deepseek::stream::{Delta, DeltaModel, delta_view, deltas_view, copy_delta};
use crate::text::{owned, push_str, push_char, chars_of, trim, trim_str, contains, occurs_at};

verus! {

pub const DEFAULT_ENDPOINT: &'static str = "api.deepseek.com";
pub const DEFAULT_PATH: &'static str = "/chat/completions";
pub const DEFAULT_MODEL: &'static str = "deepseek-chat";
pub const DEFAULT_LABEL: &'static str = "deepseek";

/// Where and how to reach an OpenAI-compatible chat endpoint.
#[derive(Debug, Clone)]
pub struct ProviderConfig {
    pub api_key: String,
    /// Host name (HTTPS on port 443).
    pub endpoint: String,
    pub path: String,
    pub model: String,
    /// The name the provider reports (registrations check it).
    pub label: String,
}

/// The settings from the values of `DEEPSEEK_API_KEY`, `DEEPSEEK_BASE_URL`
/// and `DEEPSEEK_MODEL`: the key is required and must not be blank; the
/// others fall back to the defaults.
pub fn config_from_env(api_key: Option<&str>, base_url: Option<&str>, model: Option<&str>) -> (r:
    Result<ProviderConfig, String>)
    ensures
        api_key is None ==> (r matches Err(m) && m@ == "未设置环境变量 DEEPSEEK_API_KEY"@),
        api_key is Some && trim(api_key->0@).len() == 0 ==> (r matches Err(m) && m@
            == "DEEPSEEK_API_KEY 为空"@),
        api_key is Some && trim(api_key->0@).len() > 0 ==> (r matches Ok(c) && c.api_key@ == api_key->0@
            && c.endpoint@ == (match base_url {
            Some(u) => u@,
            None => DEFAULT_ENDPOINT@,
        }) && c.path@ == DEFAULT_PATH@ && c.model@ == (match model {
            Some(m) => m@,
            None => DEFAULT_MODEL@,
        }) && c.label@ == DEFAULT_LABEL@),
{
    let key = match api_key {
        None => return Err(owned("未设置环境变量 DEEPSEEK_API_KEY")),
        Some(k) => k,
    };
    if chars_of(trim_str(key)).len() == 0 {
        return Err(owned("DEEPSEEK_API_KEY 为空"));
    }
    Ok(ProviderConfig {
        api_key: owned(key),
        endpoint: owned(match base_url {
            Some(u) => u,
            None => DEFAULT_ENDPOINT,
        }),
        path: owned(DEFAULT_PATH),
        model: owned(match model {
            Some(m) => m,
            None => DEFAULT_MODEL,
        }),
        label: owned(DEFAULT_LABEL),
    })
}

/// One HTTP/1.1 POST: the headers the service needs (including an
/// explicit refusal of compression, since the answer is read as text) and
/// the body with its length in bytes.
pub open spec fn frame_of(path: Seq<char>, host: Seq<char>, key: Seq<char>, accept: Seq<char>, body: Seq<
    char,
>) -> Seq<char> {
    "POST "@ + path + " HTTP/1.1\r\nHost: "@ + host + "\r\nAuthorization: Bearer "@ + key
        + "\r\nContent-Type: application/json\r\nAccept: "@ + accept
        + "\r\nAccept-Encoding: identity\r\nContent-Length: "@ + dec_of(utf8_len(body))
        + "\r\nConnection: close\r\n\r\n"@ + body
}

pub fn request_frame(path: &str, host: &str, key: &str, accept: &str, body: &str) -> (r: String)
    requires
        utf8_len(body@) <= usize::MAX,
    ensures
        r@ == frame_of(path@, host@, key@, accept@, body@),
{
    let mut s = owned("POST ");
    push_str(&mut s, path);
    push_str(&mut s, " HTTP/1.1\r\nHost: ");
    push_str(&mut s, host);
    push_str(&mut s, "\r\nAuthorization: Bearer ");
    push_str(&mut s, key);
    push_str(&mut s, "\r\nContent-Type: application/json\r\nAccept: ");
    push_str(&mut s, accept);
    push_str(&mut s, "\r\nAccept-Encoding: identity\r\nContent-Length: ");
    let n = utf8_len_exec(chars_of(body).as_slice());
    push_dec(&mut s, n as u64);
    push_str(&mut s, "\r\nConnection: close\r\n\r\n");
    push_str(&mut s, body);
    s
}

impl ProviderConfig {
    /// Report another name (an alias or a gateway registration).
    pub fn with_label(self, l: &str) -> (r: Self)
        ensures
            r.label@ == l@,
            r.api_key == self.api_key,
            r.endpoint == self.endpoint,
            r.path == self.path,
            r.model == self.model,
    {
        ProviderConfig { label: owned(l), ..self }
    }

    pub fn with_model(self, m: &str) -> (r: Self)
        ensures
            r.model@ == m@,
            r.api_key == self.api_key,
            r.endpoint == self.endpoint,
            r.path == self.path,
            r.label == self.label,
    {
        ProviderConfig { model: owned(m), ..self }
    }

    /// The request frame for a plain JSON answer.
    pub fn build_request(&self, body: &str) -> (r: String)
        requires
            utf8_len(body@) <= usize::MAX,
        ensures
            r@ == frame_of(self.path@, self.endpoint@, self.api_key@, "application/json"@, body@),
    {
        request_frame(self.path.as_str(), self.endpoint.as_str(), self.api_key.as_str(), "application/json", body)
    }

    /// The request frame for a streamed (SSE) answer.
    pub fn build_stream_request(&self, body: &str) -> (r: String)
        requires
            utf8_len(body@) <= usize::MAX,
        ensures
            r@ == frame_of(self.path@, self.endpoint@, self.api_key@, "text/event-stream"@, body@),
    {
        request_frame(self.path.as_str(), self.endpoint.as_str(), self.api_key.as_str(), "text/event-stream", body)
    }
}

// ── a tool result, as the model reads it ─────────────────────────────

/// The tool's stdout, then its stderr when there is any (on a line of its
/// own, marked), its exit code when it is not zero, and a note when the
/// output was cut: refusals and failures live in stderr, and a model shown
/// only stdout takes them for silent success.
pub open spec fn result_text(stdout: Seq<char>, stderr: Seq<char>, exit_code: i32, truncated: bool) -> Seq<
    char,
> {
    let c1 = if trim(stderr).len() > 0 {
        (if stdout.len() > 0 && stdout.last() != '\n' {
            stdout.push('\n')
        } else {
            stdout
        }) + "[stderr] "@ + stderr
    } else {
        stdout
    };
    let c2 = if exit_code != 0 {
        c1 + "\n[exit_code] "@ + signed_dec(exit_code as int)
    } else {
        c1
    };
    if truncated {
        c2 + "\n[truncated] 输出已被截断"@
    } else {
        c2
    }
}

pub fn tool_result_text(stdout: &str, stderr: &str, exit_code: i32, truncated: bool) -> (r: String)
    ensures
        r@ == result_text(stdout@, stderr@, exit_code, truncated),
{
    let mut content = owned(stdout);
    if chars_of(trim_str(stderr)).len() > 0 {
        let v = chars_of(stdout);
        if v.len() > 0 && v[v.len() - 1] != '\n' {
            push_char(&mut content, '\n');
        }
        push_str(&mut content, "[stderr] ");
        push_str(&mut content, stderr);
    }
    if exit_code != 0 {
        push_str(&mut content, "\n[exit_code] ");
        push_signed(&mut content, exit_code as i64);
    }
    if truncated {
        push_str(&mut content, "\n[truncated] 输出已被截断");
    }
    content
}

// ── the scripted provider ────────────────────────────────────────────

/// A provider that answers from a script: the step is the number of
/// assistant messages in the request, so the same request sequence always
/// gets the same answers; past the script it answers `tail`.
pub struct ScriptedProvider {
    pub script: Vec<Vec<Delta>>,
    pub tail: String,
    /// The name it reports (default `mock`).
    pub label: String,
}

pub open spec fn script_view(v: Seq<Vec<Delta>>) -> Seq<Seq<DeltaModel>> {
    v.map_values(|s: Vec<Delta>| deltas_view(s@))
}

/// The answer to a request holding `turns` assistant messages.
pub open spec fn scripted_answer(script: Seq<Seq<DeltaModel>>, tail: Seq<char>, turns: int) -> Seq<
    DeltaModel,
> {
    if 0 <= turns < script.len() {
        script[turns]
    } else {
        seq![DeltaModel::Text(tail)]
    }
}

/// A tool call with a fixed id (`selftest-<seq>-<name>`): replays must be
/// identical, and two calls in one turn need distinct ids.
pub fn tool_call_n(seq: usize, name: &str, args: &str) -> (d: Delta)
    ensures
        delta_view(d) == DeltaModel::ToolCall(
            "selftest-"@ + dec_of(seq as nat) + "-"@ + name@,
            name@,
            args@,
        ),
{
    let mut id = owned("selftest-");
    push_dec(&mut id, seq as u64);
    push_str(&mut id, "-");
    push_str(&mut id, name);
    Delta::ToolCall { id, name: owned(name), args: owned(args) }
}

/// `tool_call_n` with sequence number 0.
pub fn tool_call(name: &str, args: &str) -> (d: Delta)
    ensures
        delta_view(d) == DeltaModel::ToolCall("selftest-"@ + dec_of(0) + "-"@ + name@, name@, args@),
{
    tool_call_n(0, name, args)
}

pub const DEMO_REASONING: &'static str = "先看依赖方向是否合法，再确认缩进与行号，最后跑门禁验证。";
pub const DEMO_TODO_ARGS: &'static str = "{\"items\":[{\"content\":\"读取配置\",\"status\":\"completed\"},{\"content\":\"实现高亮\",\"status\":\"in_progress\"},{\"content\":\"补测试\",\"status\":\"pending\"}]}";
pub const DEMO_REPLY: &'static str = "# 完成情况\n\n这是一段**说明**，含 `cargo test` 行内代码。\n\n- 第一项\n- 第二项\n\n```rust\nfn main() {\n    let s = \"hi\"; // 注释\n    println!(\"{}\", s);\n}\n```\n\n> 引用：注意代码块已高亮。";

impl ScriptedProvider {
    /// Offline mode: one sentence, always.
    pub fn text_only(text: &str) -> (p: Self)
        ensures
            p.script@.len() == 0,
            p.tail@ == text@,
            p.label@ == "mock"@,
    {
        ScriptedProvider { script: Vec::new(), tail: owned(text), label: owned("mock") }
    }

    pub fn scripted(steps: Vec<Vec<Delta>>, tail: &str) -> (p: Self)
        ensures
            p.script@ == steps@,
            p.tail@ == tail@,
            p.label@ == "mock"@,
    {
        ScriptedProvider { script: steps, tail: owned(tail), label: owned("mock") }
    }

    /// Report another name.
    pub fn with_name(self, name: &str) -> (p: Self)
        ensures
            p.label@ == name@,
            p.script@ == self.script@,
            p.tail@ == self.tail@,
    {
        ScriptedProvider { label: owned(name), ..self }
    }

    /// A demonstration: some reasoning and a to-do list, then a markdown
    /// answer (to see the rendering without a model).
    pub fn demo() -> (p: Self)
        ensures
            script_view(p.script@) == seq![
                seq![
                    DeltaModel::Reasoning(DEMO_REASONING@),
                    DeltaModel::ToolCall("todo1"@, "todowrite"@, DEMO_TODO_ARGS@),
                ],
            ],
            p.tail@ == DEMO_REPLY@,
            p.label@ == "mock"@,
    {
        let mut step: Vec<Delta> = Vec::new();
        step.push(Delta::Reasoning(owned(DEMO_REASONING)));
        step.push(Delta::ToolCall { id: owned("todo1"), name: owned("todowrite"), args: owned(DEMO_TODO_ARGS) });
        let ghost first = seq![
            DeltaModel::Reasoning(DEMO_REASONING@),
            DeltaModel::ToolCall("todo1"@, "todowrite"@, DEMO_TODO_ARGS@),
        ];
        assert(deltas_view(step@) =~= first);
        let mut steps: Vec<Vec<Delta>> = Vec::new();
        steps.push(step);
        let p = Self::scripted(steps, DEMO_REPLY);
        assert(script_view(p.script@)[0] == first);
        assert(script_view(p.script@) =~= seq![
            seq![
                DeltaModel::Reasoning(DEMO_REASONING@),
                DeltaModel::ToolCall("todo1"@, "todowrite"@, DEMO_TODO_ARGS@),
            ],
        ]);
        p
    }

    pub fn name(&self) -> (r: &str)
        ensures
            r@ == self.label@,
    {
        self.label.as_str()
    }

    /// The answer to a request holding `assistant_turns` assistant
    /// messages.
    pub fn answer(&self, assistant_turns: usize) -> (r: Vec<Delta>)
        ensures
            deltas_view(r@) == scripted_answer(script_view(self.script@), self.tail@, assistant_turns as int),
    {
        if assistant_turns < self.script.len() {
            let step = &self.script[assistant_turns];
            let mut out: Vec<Delta> = Vec::new();
            let mut i: usize = 0;
            while i < step.len()
                invariant
                    i <= step@.len(),
                    deltas_view(out@) == deltas_view(step@).take(i as int),
                decreases step@.len() - i,
            {
                let ghost before = out@;
                let d = copy_delta(&step[i]);
                out.push(d);
                assert(out@ == before.push(d));
                assert(deltas_view(out@) =~= deltas_view(before).push(delta_view(d)));
                assert(deltas_view(out@) =~= deltas_view(step@).take(i + 1));
                i = i + 1;
            }
            assert(deltas_view(step@).take(step@.len() as int) =~= deltas_view(step@));
            out
        } else {
            let mut out: Vec<Delta> = Vec::new();
            out.push(Delta::Text(owned(self.tail.as_str())));
            assert(deltas_view(out@) =~= seq![DeltaModel::Text(self.tail@)]);
            out
        }
    }
}


// ── the conversation, as the service reads it ────────────────────────

/// A tool call the assistant made; `arguments` is its JSON text.
#[derive(Debug, Clone, PartialEq, Eq)]
pub struct CallText {
    pub id: String,
    pub name: String,
    pub arguments: String,
}

/// One message of the conversation.
#[derive(Debug, Clone, PartialEq, Eq)]
pub enum ChatMessage {
    System(String),
    User(String),
    Assistant { text: String, tool_calls: Vec<CallText> },
    ToolResult { id: String, name: String, stdout: String, stderr: String, exit_code: i32, truncated: bool },
}

#[derive(Debug, Clone, Copy, PartialEq, Eq, Structural)]
pub enum Role {
    System,
    User,
    Assistant,
    Tool,
}

/// One entry of the `messages` array: `content` is JSON null when `None`;
/// `tool_calls` is written only when there are any.
#[derive(Debug, Clone, PartialEq, Eq)]
pub struct WireMessage {
    pub role: Role,
    pub content: Option<String>,
    pub tool_calls: Vec<CallText>,
    pub tool_call_id: Option<String>,
    pub name: Option<String>,
}

pub struct CallModel {
    pub id: Seq<char>,
    pub name: Seq<char>,
    pub arguments: Seq<char>,
}

pub open spec fn calls_view(v: Seq<CallText>) -> Seq<CallModel> {
    v.map_values(|c: CallText| CallModel { id: c.id@, name: c.name@, arguments: c.arguments@ })
}

pub struct WireModel {
    pub role: Role,
    pub content: Option<Seq<char>>,
    pub tool_calls: Seq<CallModel>,
    pub tool_call_id: Option<Seq<char>>,
    pub name: Option<Seq<char>>,
}

pub open spec fn ostr(o: Option<String>) -> Option<Seq<char>> {
    match o {
        Some(s) => Some(s@),
        None => None,
    }
}

pub open spec fn wire_view(w: WireMessage) -> WireModel {
    WireModel {
        role: w.role,
        content: ostr(w.content),
        tool_calls: calls_view(w.tool_calls@),
        tool_call_id: ostr(w.tool_call_id),
        name: ostr(w.name),
    }
}

pub open spec fn wires_view(v: Seq<WireMessage>) -> Seq<WireModel> {
    v.map_values(|w: WireMessage| wire_view(w))
}

/// How one message is sent: system and user text as they are; the
/// assistant's text (null when empty) with its tool calls; a tool result
/// under the tool role, naming the call it answers, with the text of
/// [`result_text`].
pub open spec fn wire_of(m: ChatMessage) -> WireModel {
    match m {
        ChatMessage::System(s) => WireModel {
            role: Role::System,
            content: Some(s@),
            tool_calls: Seq::empty(),
            tool_call_id: None,
            name: None,
        },
        ChatMessage::User(s) => WireModel {
            role: Role::User,
            content: Some(s@),
            tool_calls: Seq::empty(),
            tool_call_id: None,
            name: None,
        },
        ChatMessage::Assistant { text, tool_calls } => WireModel {
            role: Role::Assistant,
            content: if text@.len() == 0 {
                None
            } else {
                Some(text@)
            },
            tool_calls: calls_view(tool_calls@),
            tool_call_id: None,
            name: None,
        },
        ChatMessage::ToolResult { id, name, stdout, stderr, exit_code, truncated } => WireModel {
            role: Role::Tool,
            content: Some(result_text(stdout@, stderr@, exit_code, truncated)),
            tool_calls: Seq::empty(),
            tool_call_id: Some(id@),
            name: Some(name@),
        },
    }
}

fn copy_calls(v: &Vec<CallText>) -> (r: Vec<CallText>)
    ensures
        calls_view(r@) == calls_view(v@),
{
    let mut r: Vec<CallText> = Vec::new();
    let mut i: usize = 0;
    while i < v.len()
        invariant
            i <= v@.len(),
            calls_view(r@) == calls_view(v@).take(i as int),
        decreases v@.len() - i,
    {
        let c = &v[i];
        let ghost before = r@;
        let x = CallText { id: owned(c.id.as_str()), name: owned(c.name.as_str()), arguments: owned(c.arguments.as_str()) };
        r.push(x);
        assert(r@ == before.push(x));
        assert(calls_view(r@) =~= calls_view(before).push(
            CallModel { id: c.id@, name: c.name@, arguments: c.arguments@ },
        ));
        assert(calls_view(v@)[i as int] == CallModel { id: c.id@, name: c.name@, arguments: c.arguments@ });
        assert(calls_view(r@) =~= calls_view(v@).take(i + 1));
        i = i + 1;
    }
    assert(calls_view(v@).take(v@.len() as int) =~= calls_view(v@));
    r
}

fn wire_message(m: &ChatMessage) -> (w: WireMessage)
    ensures
        wire_view(w) == wire_of(*m),
{
    match m {
        ChatMessage::System(s) => {
            let w = WireMessage { role: Role::System, content: Some(owned(s.as_str())), tool_calls: Vec::new(), tool_call_id: None, name: None };
            assert(calls_view(w.tool_calls@) =~= Seq::<CallModel>::empty());
            w
        },
        ChatMessage::User(s) => {
            let w = WireMessage { role: Role::User, content: Some(owned(s.as_str())), tool_calls: Vec::new(), tool_call_id: None, name: None };
            assert(calls_view(w.tool_calls@) =~= Seq::<CallModel>::empty());
            w
        },
        ChatMessage::Assistant { text, tool_calls } => {
            let content = if chars_of(text.as_str()).len() == 0 {
                None
            } else {
                Some(owned(text.as_str()))
            };
            WireMessage { role: Role::Assistant, content, tool_calls: copy_calls(tool_calls), tool_call_id: None, name: None }
        },
        ChatMessage::ToolResult { id, name, stdout, stderr, exit_code, truncated } => {
            let content = tool_result_text(stdout.as_str(), stderr.as_str(), *exit_code, *truncated);
            let w = WireMessage {
                role: Role::Tool,
                content: Some(content),
                tool_calls: Vec::new(),
                tool_call_id: Some(owned(id.as_str())),
                name: Some(owned(name.as_str())),
            };
            assert(calls_view(w.tool_calls@) =~= Seq::<CallModel>::empty());
            w
        },
    }
}

/// The `messages` array: the system prompt first, then every message in
/// order.
pub fn encode_messages(system: &str, messages: &[ChatMessage]) -> (r: Vec<WireMessage>)
    ensures
        wires_view(r@).len() == messages@.len() + 1,
        wires_view(r@)[0] == (WireModel {
            role: Role::System,
            content: Some(system@),
            tool_calls: Seq::empty(),
            tool_call_id: None,
            name: None,
        }),
        forall|i: int|
            0 <= i < messages@.len() ==> #[trigger] wires_view(r@)[i + 1] == wire_of(messages@[i]),
{
    let mut out: Vec<WireMessage> = Vec::new();
    let first = WireMessage { role: Role::System, content: Some(owned(system)), tool_calls: Vec::new(), tool_call_id: None, name: None };
    assert(calls_view(first.tool_calls@) =~= Seq::<CallModel>::empty());
    out.push(first);
    let mut i: usize = 0;
    while i < messages.len()
        invariant
            i <= messages@.len(),
            out@.len() == i + 1,
            wires_view(out@)[0] == (WireModel {
                role: Role::System,
                content: Some(system@),
                tool_calls: Seq::empty(),
                tool_call_id: None,
                name: None,
            }),
            forall|j: int| 0 <= j < i ==> #[trigger] wires_view(out@)[j + 1] == wire_of(messages@[j]),
            out@.len() == i + 1,
        decreases messages@.len() - i,
    {
        let ghost before = out@;
        let w = wire_message(&messages[i]);
        out.push(w);
        assert(out@ == before.push(w));
        assert forall|j: int| 0 <= j < i + 1 implies #[trigger] wires_view(out@)[j + 1] == wire_of(messages@[j]) by {
            if j < i {
                assert(out@[j + 1] == before[j + 1]);
                assert(wires_view(before)[j + 1] == wire_of(messages@[j]));
            } else {
                assert(out@[j + 1] == w);
            }
        }
        i = i + 1;
    }
    out
}

/// A tool result goes out under the tool role carrying the id of the call
/// it answers, whatever the tool is called; an assistant's calls go out with
/// their ids unchanged. So whenever a result answers a call of an earlier
/// assistant message (same id), the encoded result names exactly that
/// encoded call, and two results for one call carry the same id even when
/// they name different tools.
pub proof fn law_results_answer_their_calls(messages: Seq<ChatMessage>, a: int, k: int, t: int)
    requires
        0 <= a < messages.len(),
        0 <= t < messages.len(),
        messages[a] is Assistant,
        messages[t] is ToolResult,
        0 <= k < messages[a]->Assistant_tool_calls@.len(),
        messages[t]->ToolResult_id@ == messages[a]->Assistant_tool_calls@[k].id@,
    ensures
        wire_of(messages[t]).role == Role::Tool,
        wire_of(messages[t]).tool_call_id == Some(wire_of(messages[a]).tool_calls[k].id),
{
}

/// The id a tool result is sent with is the id it carries, and depends on
/// nothing else of it.
pub proof fn law_result_id_is_its_own(m1: ChatMessage, m2: ChatMessage)
    requires
        m1 is ToolResult,
        m2 is ToolResult,
    ensures
        wire_of(m1).tool_call_id == Some(m1->ToolResult_id@),
        m1->ToolResult_id@ == m2->ToolResult_id@ ==> wire_of(m1).tool_call_id == wire_of(m2).tool_call_id,
        m1->ToolResult_id@ != m2->ToolResult_id@ ==> wire_of(m1).tool_call_id != wire_of(m2).tool_call_id,
{
}

proof fn lemma_occurs_in_middle(a: Seq<char>, b: Seq<char>, c: Seq<char>)
    ensures
        occurs_at(a + b + c, b, a.len() as int),
{
    assert((a + b + c).subrange(a.len() as int, (a.len() + b.len()) as int) =~= b);
}

/// What a tool call ended with always reaches the model: a non-blank
/// stderr and a non-zero exit code are in the text it reads, and a clean
/// success (no stderr, exit 0, nothing cut) is its stdout alone.
pub proof fn law_tool_failures_reach_the_model(stdout: Seq<char>, stderr: Seq<char>, exit_code: i32, truncated: bool)
    ensures
        trim(stderr).len() > 0 ==> contains(result_text(stdout, stderr, exit_code, truncated), stderr),
        exit_code != 0 ==> contains(
            result_text(stdout, stderr, exit_code, truncated),
            signed_dec(exit_code as int),
        ),
        trim(stderr).len() == 0 && exit_code == 0 && !truncated ==> result_text(
            stdout,
            stderr,
            exit_code,
            truncated,
        ) == stdout,
{
    let r = result_text(stdout, stderr, exit_code, truncated);
    let c1 = if trim(stderr).len() > 0 {
        (if stdout.len() > 0 && stdout.last() != '\n' {
            stdout.push('\n')
        } else {
            stdout
        }) + "[stderr] "@ + stderr
    } else {
        stdout
    };
    let c2 = if exit_code != 0 {
        c1 + "\n[exit_code] "@ + signed_dec(exit_code as int)
    } else {
        c1
    };
    let tail = if truncated { "\n[truncated] 输出已被截断"@ } else { Seq::<char>::empty() };
    assert(r =~= c2 + tail);
    if trim(stderr).len() > 0 {
        let pre = (if stdout.len() > 0 && stdout.last() != '\n' {
            stdout.push('\n')
        } else {
            stdout
        }) + "[stderr] "@;
        let after = (if exit_code != 0 {
            "\n[exit_code] "@ + signed_dec(exit_code as int)
        } else {
            Seq::<char>::empty()
        }) + tail;
        assert(r =~= pre + stderr + after);
        lemma_occurs_in_middle(pre, stderr, after);
    }
    if exit_code != 0 {
        lemma_occurs_in_middle(c1 + "\n[exit_code] "@, signed_dec(exit_code as int), tail);
        assert(r =~= c1 + "\n[exit_code] "@ + signed_dec(exit_code as int) + tail);
    }
}
} // verus!
