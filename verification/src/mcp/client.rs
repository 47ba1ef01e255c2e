//! The MCP client's decisions: request numbering and what a reply means
//! for the request waiting on it, the version check of the handshake,
//! following `tools/list` pages, joining a call's content, and the HTTP
//! transport's queue of received messages.
//!
//! Sending, waiting and spawning belong to the caller; it hands each
//! reply (already decoded) to these functions.
use std::collections::VecDeque;
use vstd::prelude::*;
use crate::framing::{dec_of, push_dec, debug_quoted, push_debug};
use crate::mcp::wire::Response;
use crate::mcp::http::{HttpResponse, first_header, headers_view, sse_data_lines, data_lines,
    strings_view};
use crate::lines::text_lines;
use crate::text::{owned, push_str, push_char, chars_of, string_of, str_eq, trim, trim_str,
    ascii_lower, contains, str_contains};

verus! {

/// Most `tools/list` pages followed (an unbounded loop would be a defect).
pub const MAX_TOOL_PAGES: usize = 100;
pub const HANDSHAKE_TIMEOUT_SECS: u64 = 15;
pub const LIST_TIMEOUT_SECS: u64 = 15;
pub const CALL_TIMEOUT_SECS: u64 = 120;

/// Protocol versions the HTTP transport accepts.
pub const HTTP_PROTOCOL_VERSIONS: [&'static str; 2] = ["2025-03-26", "2025-06-18"];

// ── errors ───────────────────────────────────────────────────────────

/// Every way a server connection can fail; each says where to look.
#[derive(Debug, Clone, PartialEq, Eq)]
pub enum McpError {
    /// The process did not start (no such command, not executable).
    Spawn(String),
    /// The pipe failed.
    Io(String),
    /// The peer does not speak the expected protocol.
    Protocol(String),
    /// A wait timed out (the connection is unusable afterwards).
    Timeout { method: String, secs: u64 },
    /// The server answered with a JSON-RPC error.
    Server { code: i64, message: String },
    /// The server process exited (with the tail of its stderr).
    Exited { stderr_tail: String },
}

/// Decimal text of a signed integer.
pub open spec fn signed_dec(n: int) -> Seq<char> {
    if n < 0 {
        seq!['-'] + dec_of((-n) as nat)
    } else {
        dec_of(n as nat)
    }
}

pub fn push_signed(s: &mut String, n: i64)
    ensures
        final(s)@ == old(s)@ + signed_dec(n as int),
{
    if n < 0 {
        push_char(s, '-');
        let m: u64 = if n == i64::MIN {
            9223372036854775808u64
        } else {
            (-n) as u64
        };
        push_dec(s, m);
        assert(old(s)@.push('-') + dec_of(m as nat) =~= old(s)@ + (seq!['-'] + dec_of(m as nat)));
    } else {
        push_dec(s, n as u64);
    }
}

/// The text shown for an error.
pub open spec fn error_text(e: McpError) -> Seq<char> {
    match e {
        McpError::Spawn(m) => "无法启动 MCP 服务器："@ + m@,
        McpError::Io(m) => "MCP 服务器管道错误："@ + m@,
        McpError::Protocol(m) => "MCP 协议错误："@ + m@,
        McpError::Timeout { method, secs } => "MCP 请求「"@ + method@ + "」等待 "@ + dec_of(
            secs as nat,
        ) + "s 超时（连接已不可用，需重启 Neo）"@,
        McpError::Server { code, message } => "MCP 服务器错误（"@ + signed_dec(code as int)
            + "）："@ + message@,
        McpError::Exited { stderr_tail } => "MCP 服务器进程已退出。stderr 尾部："@ + stderr_tail@,
    }
}

impl McpError {
    /// The error as a sentence.
    pub fn message(&self) -> (r: String)
        ensures
            r@ == error_text(*self),
    {
        match self {
            McpError::Spawn(m) => {
                let mut s = owned("无法启动 MCP 服务器：");
                push_str(&mut s, m.as_str());
                s
            },
            McpError::Io(m) => {
                let mut s = owned("MCP 服务器管道错误：");
                push_str(&mut s, m.as_str());
                s
            },
            McpError::Protocol(m) => {
                let mut s = owned("MCP 协议错误：");
                push_str(&mut s, m.as_str());
                s
            },
            McpError::Timeout { method, secs } => {
                let mut s = owned("MCP 请求「");
                push_str(&mut s, method.as_str());
                push_str(&mut s, "」等待 ");
                push_dec(&mut s, *secs);
                push_str(&mut s, "s 超时（连接已不可用，需重启 Neo）");
                s
            },
            McpError::Server { code, message } => {
                let mut s = owned("MCP 服务器错误（");
                push_signed(&mut s, *code);
                push_str(&mut s, "）：");
                push_str(&mut s, message.as_str());
                s
            },
            McpError::Exited { stderr_tail } => {
                let mut s = owned("MCP 服务器进程已退出。stderr 尾部：");
                push_str(&mut s, stderr_tail.as_str());
                s
            },
        }
    }
}

/// How waiting for a line can fail.
#[derive(Debug, Clone, Copy, PartialEq, Eq, Structural)]
pub enum RecvError {
    Timeout,
    Closed,
}

// ── the handshake ────────────────────────────────────────────────────

/// `accepted` joined with ` / `.
pub open spec fn versions_text(accepted: Seq<Seq<char>>) -> Seq<char>
    decreases accepted.len(),
{
    if accepted.len() == 0 {
        Seq::empty()
    } else if accepted.len() == 1 {
        accepted[0]
    } else {
        versions_text(accepted.drop_last()) + " / "@ + accepted.last()
    }
}

pub open spec fn strs_view(v: Seq<&str>) -> Seq<Seq<char>> {
    v.map_values(|s: &str| s@)
}

/// The server's protocol version (absent reads as empty) must be one the
/// client accepts.
pub fn check_version(got: Option<&str>, accepted: &[&str]) -> (r: Result<(), McpError>)
    ensures
        ({
            let g = match got { Some(v) => v@, None => Seq::<char>::empty() };
            if strs_view(accepted@).contains(g) {
                r is Ok
            } else {
                r matches Err(McpError::Protocol(m)) && m@ == "协议版本不一致：客户端 "@
                    + versions_text(strs_view(accepted@)) + "，服务器 "@ + debug_quoted(g)
            }
        }),
{
    let g = match got {
        Some(v) => v,
        None => "",
    };
    let ghost gv: Seq<char> = match got { Some(v) => v@, None => Seq::<char>::empty() };
    proof {
        reveal_strlit("");
        assert(g@ =~= gv);
    }
    let mut i: usize = 0;
    while i < accepted.len()
        invariant
            i <= accepted@.len(),
            forall|j: int| 0 <= j < i ==> accepted@[j]@ != g@,
            g@ == gv,
            gv == match got { Some(v) => v@, None => Seq::<char>::empty() },
        decreases accepted@.len() - i,
    {
        if str_eq(accepted[i], g) {
            assert(strs_view(accepted@)[i as int] == g@);
            assert(strs_view(accepted@).contains(g@));
            return Ok(());
        }
        i = i + 1;
    }
    proof {
        assert forall|j: int| 0 <= j < strs_view(accepted@).len() implies strs_view(accepted@)[j] != g@ by {}
    }
    let mut m = owned("协议版本不一致：客户端 ");
    let mut k: usize = 0;
    while k < accepted.len()
        invariant
            k <= accepted@.len(),
            m@ == "协议版本不一致：客户端 "@ + versions_text(strs_view(accepted@).take(k as int)),
        decreases accepted@.len() - k,
    {
        if k > 0 {
            push_str(&mut m, " / ");
        }
        push_str(&mut m, accepted[k]);
        proof {
            let t = strs_view(accepted@).take(k + 1);
            assert(t.drop_last() =~= strs_view(accepted@).take(k as int));
        }
        k = k + 1;
    }
    assert(strs_view(accepted@).take(k as int) =~= strs_view(accepted@));
    push_str(&mut m, "，服务器 ");
    push_debug(&mut m, g);
    Err(McpError::Protocol(m))
}


// ── requests and replies ─────────────────────────────────────────────

/// A session with one server: request numbering, and whether an earlier
/// timeout made the connection unusable (a late reply could not be told
/// apart from the next one's).
pub struct McpClient {
    pub next_id: u64,
    pub poisoned: bool,
}

/// What came back while waiting for a reply.
pub enum Reply<T> {
    /// A line, classified (see `wire::parse_message`).
    Line(Result<Option<Response<T>>, String>),
    /// The server closed its output.
    Eof,
    /// The wait timed out.
    TimedOut,
    /// The channel closed.
    Closed,
}

/// What the waiting request does next.
#[derive(Debug, PartialEq, Eq)]
pub enum Await<T> {
    /// Not for this request: keep waiting.
    Wait,
    /// The request's answer.
    Done(Result<Option<T>, McpError>),
    /// The server went away: fail with its stderr tail.
    Exited,
}

impl McpClient {
    /// A fresh session; requests are numbered from 1.
    pub fn new() -> (c: Self)
        ensures
            c.next_id == 1,
            !c.poisoned,
    {
        McpClient { next_id: 1, poisoned: false }
    }

    /// Number a new request, unless an earlier timeout poisoned the
    /// connection.
    pub fn begin_request(&mut self) -> (r: Result<u64, McpError>)
        ensures
            old(self).poisoned ==> (r matches Err(McpError::Protocol(m)) && m@
                == "连接已因先前的超时被污染"@) && *final(self) == *old(self),
            !old(self).poisoned ==> r == Ok::<u64, McpError>(old(self).next_id),
            !old(self).poisoned ==> final(self).next_id == (if old(self).next_id == u64::MAX {
                0
            } else {
                old(self).next_id + 1
            }),
            !old(self).poisoned ==> !final(self).poisoned,
    {
        if self.poisoned {
            return Err(McpError::Protocol(owned("连接已因先前的超时被污染")));
        }
        let id = self.next_id;
        self.next_id = if id == u64::MAX { 0 } else { id + 1 };
        Ok(id)
    }

    /// What a reply means for request `id` (sent as `method` with a
    /// `secs`-second wait): its result or error when the ids match; a
    /// line that does not parse is a protocol error; other replies and
    /// notifications are skipped; a timeout poisons the connection; end
    /// of output means the server exited.
    pub fn on_reply<T>(&mut self, id: u64, method: &str, secs: u64, reply: Reply<T>) -> (a: Await<T>)
        ensures
            match reply {
                Reply::Line(Err(e)) => a == Await::<T>::Done(Err(McpError::Protocol(e)))
                    && *final(self) == *old(self),
                Reply::Line(Ok(Some(Response::Success { id: rid, result }))) => (if rid == id {
                    a == Await::<T>::Done(Ok(result))
                } else {
                    a == Await::<T>::Wait
                }) && *final(self) == *old(self),
                Reply::Line(Ok(Some(Response::Failure { id: rid, code, message }))) => (if rid
                    == Some(id) {
                    a == Await::<T>::Done(Err(McpError::Server { code, message }))
                } else {
                    a == Await::<T>::Wait
                }) && *final(self) == *old(self),
                Reply::Line(Ok(None)) => a == Await::<T>::Wait && *final(self) == *old(self),
                Reply::Eof | Reply::Closed => a == Await::<T>::Exited && *final(self) == *old(self),
                Reply::TimedOut => (a matches Await::Done(Err(McpError::Timeout { method: m, secs: t })) && m@ == method@
                    && t == secs) && final(self).poisoned && final(self).next_id == old(self).next_id,
            },
    {
        match reply {
            Reply::Line(Err(e)) => Await::Done(Err(McpError::Protocol(e))),
            Reply::Line(Ok(Some(Response::Success { id: rid, result }))) => {
                if rid == id {
                    Await::Done(Ok(result))
                } else {
                    Await::Wait
                }
            },
            Reply::Line(Ok(Some(Response::Failure { id: rid, code, message }))) => {
                if rid == Some(id) {
                    Await::Done(Err(McpError::Server { code, message }))
                } else {
                    Await::Wait
                }
            },
            Reply::Line(Ok(None)) => Await::Wait,
            Reply::Eof | Reply::Closed => Await::Exited,
            Reply::TimedOut => {
                self.poisoned = true;
                Await::Done(Err(McpError::Timeout { method: owned(method), secs }))
            },
        }
    }
}

// ── tools/list ───────────────────────────────────────────────────────

/// One entry of `tools`, as far as it is read.
pub struct ToolEntry {
    /// `name` when it is a string.
    pub name: Option<String>,
    /// `description` when it is a string.
    pub description: Option<String>,
    /// `inputSchema` as JSON text, when present.
    pub input_schema: Option<String>,
    /// `annotations.readOnlyHint` when it is a boolean.
    pub read_only_hint: Option<bool>,
}

/// One `tools/list` result.
pub struct ToolsPage {
    /// `tools` (absent or not an array: none).
    pub tools: Vec<ToolEntry>,
    /// `nextCursor` when it is a string.
    pub next_cursor: Option<String>,
}

/// A tool a server declares.
#[derive(Debug, Clone, PartialEq, Eq)]
pub struct ToolInfo {
    pub name: String,
    pub description: String,
    /// The JSON Schema of its arguments, as the server declared it.
    pub input_schema: String,
    /// The server's read-only hint; without one the tool counts as
    /// writing (mistaking a write for a read would skip approval).
    pub read_only_hint: Option<bool>,
}

pub const DEFAULT_SCHEMA: &'static str = "{\"type\":\"object\"}";

pub struct ToolInfoModel {
    pub name: Seq<char>,
    pub description: Seq<char>,
    pub input_schema: Seq<char>,
    pub read_only_hint: Option<bool>,
}

pub open spec fn opt_str(o: Option<String>) -> Option<Seq<char>> {
    match o {
        Some(s) => Some(s@),
        None => None,
    }
}

/// The tools a page adds: entries without a name are skipped (they could
/// not be called); a missing description is empty and a missing schema
/// is an empty object schema.
pub open spec fn page_tools(es: Seq<ToolEntry>) -> Seq<ToolInfoModel>
    decreases es.len(),
{
    if es.len() == 0 {
        Seq::empty()
    } else {
        let e = es.last();
        let rest = page_tools(es.drop_last());
        let name = match e.name {
            Some(n) => n@,
            None => Seq::empty(),
        };
        if name.len() == 0 {
            rest
        } else {
            rest.push(
                ToolInfoModel {
                    name,
                    description: match e.description {
                        Some(d) => d@,
                        None => ""@,
                    },
                    input_schema: match e.input_schema {
                        Some(x) => x@,
                        None => DEFAULT_SCHEMA@,
                    },
                    read_only_hint: e.read_only_hint,
                },
            )
        }
    }
}

pub open spec fn infos_view(v: Seq<ToolInfo>) -> Seq<ToolInfoModel> {
    v.map_values(
        |t: ToolInfo|
            ToolInfoModel {
                name: t.name@,
                description: t.description@,
                input_schema: t.input_schema@,
                read_only_hint: t.read_only_hint,
            },
    )
}

/// Following `tools/list` pages.
pub struct ToolListing {
    pub tools: Vec<ToolInfo>,
    pub pages: usize,
    /// The cursor for the next request (`None` before the first).
    pub cursor: Option<String>,
}

/// After a page: ask for the next one, or stop.
#[derive(Debug, PartialEq, Eq)]
pub enum Listing {
    More,
    Done,
    /// Too many pages: the listing never ends.
    TooMany(McpError),
}

impl ToolListing {
    pub fn new() -> (l: Self)
        ensures
            l.tools@.len() == 0,
            l.pages == 0,
            l.cursor is None,
    {
        ToolListing { tools: Vec::new(), pages: 0, cursor: None }
    }

    /// Take a page: its named tools are added; a non-empty `nextCursor`
    /// asks for another page, up to `MAX_TOOL_PAGES`.
    pub fn absorb(&mut self, page: ToolsPage) -> (r: Listing)
        requires
            old(self).pages < MAX_TOOL_PAGES,
        ensures
            infos_view(final(self).tools@) == infos_view(old(self).tools@) + page_tools(page.tools@),
            final(self).pages == old(self).pages + 1,
            opt_str(final(self).cursor) == (match page.next_cursor {
                Some(c) => if c@.len() > 0 {
                    Some(c@)
                } else {
                    None
                },
                None => None,
            }),
            final(self).cursor is None ==> r == Listing::Done,
            final(self).cursor is Some && final(self).pages < MAX_TOOL_PAGES ==> r == Listing::More,
            final(self).cursor is Some && final(self).pages == MAX_TOOL_PAGES ==> (r matches Listing::TooMany(
                McpError::Protocol(m),
            ) && m@ == "tools/list 分页超过 100 页仍未结束"@),
    {
        let ghost before = infos_view(self.tools@);
        let es = page.tools;
        let mut i: usize = 0;
        while i < es.len()
            invariant
                i <= es@.len(),
                infos_view(self.tools@) == before + page_tools(es@.take(i as int)),
                self.pages == old(self).pages,
                self.pages < MAX_TOOL_PAGES,
            decreases es@.len() - i,
        {
            let e = &es[i];
            let name = match &e.name {
                Some(n) => owned(n.as_str()),
                None => owned(""),
            };
            proof {
                assert(es@.take(i + 1).drop_last() =~= es@.take(i as int));
                assert(es@.take(i + 1).last() == es@[i as int]);
                reveal_strlit("");
            }
            if name.unicode_len() > 0 {
                let description = match &e.description {
                    Some(d) => owned(d.as_str()),
                    None => owned(""),
                };
                let input_schema = match &e.input_schema {
                    Some(x) => owned(x.as_str()),
                    None => owned(DEFAULT_SCHEMA),
                };
                let ghost t0 = self.tools@;
                self.tools.push(ToolInfo { name, description, input_schema, read_only_hint: e.read_only_hint });
                assert(infos_view(self.tools@) =~= infos_view(t0) + seq![infos_view(self.tools@).last()]);
                assert(infos_view(self.tools@) =~= before + page_tools(es@.take(i + 1)));
            } else {
                assert(page_tools(es@.take(i + 1)) == page_tools(es@.take(i as int)));
            }
            i = i + 1;
        }
        assert(es@.take(es@.len() as int) =~= es@);
        self.pages = self.pages + 1;
        self.cursor = match page.next_cursor {
            Some(c) => if c.unicode_len() > 0 {
                Some(c)
            } else {
                None
            },
            None => None,
        };
        if self.cursor.is_none() {
            Listing::Done
        } else if self.pages < MAX_TOOL_PAGES {
            Listing::More
        } else {
            Listing::TooMany(McpError::Protocol(owned("tools/list 分页超过 100 页仍未结束")))
        }
    }
}

// ── tools/call ───────────────────────────────────────────────────────

/// One item of a call's `content`, as far as it is read.
pub struct ContentItem {
    /// `type` when it is a string.
    pub kind: Option<String>,
    /// `text` when it is a string.
    pub text: Option<String>,
}

/// A `tools/call` result, as far as it is read.
pub struct CallResult {
    /// `isError` when it is a boolean.
    pub is_error: Option<bool>,
    /// `content` when it is an array.
    pub content: Option<Vec<ContentItem>>,
}

/// What a call gave: its text content joined, non-text content marked.
#[derive(Debug, Clone, PartialEq, Eq)]
pub struct CallOutcome {
    pub text: String,
    /// The tool reported a failure (the protocol call itself succeeded).
    pub is_error: bool,
}

/// An item's text: the text of a text item, an honest placeholder for
/// anything else (a missing type reads as `unknown`).
pub open spec fn piece(c: ContentItem) -> Seq<char> {
    let k = match c.kind {
        Some(k) => k@,
        None => "unknown"@,
    };
    if k == "text"@ {
        match c.text {
            Some(t) => t@,
            None => Seq::empty(),
        }
    } else {
        "[非文本内容："@ + k + "]"@
    }
}

/// Items joined: a line break goes before an item when something came
/// before it.
pub open spec fn joined_content(cs: Seq<ContentItem>) -> Seq<char>
    decreases cs.len(),
{
    if cs.len() == 0 {
        Seq::empty()
    } else {
        let acc = joined_content(cs.drop_last());
        (if acc.len() > 0 {
            acc.push('\n')
        } else {
            acc
        }) + piece(cs.last())
    }
}

pub fn call_outcome(r: CallResult) -> (o: CallOutcome)
    ensures
        o.is_error == (r.is_error == Some(true)),
        o.text@ == match r.content {
            Some(cs) => joined_content(cs@),
            None => Seq::empty(),
        },
{
    let is_error = match r.is_error {
        Some(b) => b,
        None => false,
    };
    let mut text = String::new();
    if let Some(items) = r.content {
        let mut i: usize = 0;
        let mut len: usize = 0;
        while i < items.len()
            invariant
                i <= items@.len(),
                text@ == joined_content(items@.take(i as int)),
                len == text@.len(),
            decreases items@.len() - i,
        {
            proof {
                assert(items@.take(i + 1).drop_last() =~= items@.take(i as int));
                assert(items@.take(i + 1).last() == items@[i as int]);
            }
            let item = &items[i];
            let k = match &item.kind {
                Some(k) => owned(k.as_str()),
                None => owned("unknown"),
            };
            if len > 0 {
                push_char(&mut text, '\n');
            }
            if str_eq(k.as_str(), "text") {
                match &item.text {
                    Some(t) => push_str(&mut text, t.as_str()),
                    None => {
                        proof {
                            reveal_strlit("");
                        }
                        push_str(&mut text, "")
                    },
                }
            } else {
                push_str(&mut text, "[非文本内容：");
                push_str(&mut text, k.as_str());
                push_str(&mut text, "]");
            }
            len = chars_of(text.as_str()).len();
            i = i + 1;
        }
        assert(items@.take(items@.len() as int) =~= items@);
    }
    CallOutcome { text, is_error }
}

// ── the HTTP transport ───────────────────────────────────────────────

/// The Streamable HTTP transport seen as a line peer: each request is a
/// POST whose answer (JSON, or a short SSE stream) is queued as lines;
/// the session id the server gives is sent back with later requests.
pub struct HttpChild {
    pub url: String,
    pub session_id: Option<String>,
    /// Messages received and not yet read.
    pub pending: VecDeque<String>,
    /// The last HTTP failure (shown in place of a process's stderr).
    pub last_error: Option<String>,
}

/// The messages an answer carries: the `data:` payloads of an SSE
/// answer, else the trimmed body when there is one.
pub open spec fn answer_lines(resp: HttpResponse) -> Seq<Seq<char>> {
    let sse = match first_header(headers_view(resp.headers@), ascii_lower("content-type"@)) {
        Some(c) => contains(c, "text/event-stream"@),
        None => false,
    };
    if sse {
        data_lines(text_lines(resp.body@))
    } else if trim(resp.body@).len() > 0 {
        seq![trim(resp.body@)]
    } else {
        Seq::empty()
    }
}

/// The failure text of an unexpected status: the status and the first
/// 200 characters of the body.
pub open spec fn status_failure(resp: HttpResponse) -> Seq<char> {
    "HTTP "@ + dec_of(resp.status as nat) + ": "@ + resp.body@.take(
        if resp.body@.len() < 200 {
            resp.body@.len() as int
        } else {
            200
        },
    )
}

impl HttpChild {
    pub fn new(url: &str) -> (c: Self)
        ensures
            c.url@ == url@,
            c.session_id is None,
            c.pending@.len() == 0,
            c.last_error is None,
    {
        HttpChild { url: owned(url), session_id: None, pending: VecDeque::new(), last_error: None }
    }

    /// Headers for the next request: the session id, once there is one.
    pub fn request_headers(&self) -> (r: Vec<(String, String)>)
        ensures
            match self.session_id {
                Some(sid) => r@.len() == 1 && r@[0].0@ == "Mcp-Session-Id"@ && r@[0].1@ == sid@,
                None => r@.len() == 0,
            },
    {
        let mut r: Vec<(String, String)> = Vec::new();
        if let Some(sid) = &self.session_id {
            r.push((owned("Mcp-Session-Id"), owned(sid.as_str())));
        }
        r
    }

    /// Take the answer to a request (or the failure to send it). Earlier
    /// unread messages are dropped; a new session id is kept; 200 queues
    /// the answer's messages, 202 (a notification taken) queues nothing,
    /// any other status fails and is remembered.
    pub fn absorb(&mut self, answer: Result<HttpResponse, String>) -> (r: Result<(), String>)
        ensures
            final(self).url == old(self).url,
            match answer {
                Err(e) => r == Err::<(), String>(e) && final(self).pending@.len() == 0
                    && final(self).session_id == old(self).session_id
                    && final(self).last_error == old(self).last_error,
                Ok(resp) => {
                    &&& opt_str(final(self).session_id) == match first_header(
                        headers_view(resp.headers@),
                        ascii_lower("mcp-session-id"@),
                    ) {
                        Some(v) => Some(v),
                        None => opt_str(old(self).session_id),
                    }
                    &&& if resp.status == 200 {
                        &&& r is Ok
                        &&& strings_view(final(self).pending@) == answer_lines(resp)
                        &&& final(self).last_error == old(self).last_error
                    } else if resp.status == 202 {
                        &&& r is Ok
                        &&& final(self).pending@.len() == 0
                        &&& final(self).last_error == old(self).last_error
                    } else {
                        &&& r matches Err(m) && m@ == status_failure(resp)
                        &&& final(self).pending@.len() == 0
                        &&& opt_str(final(self).last_error) == Some(status_failure(resp))
                    }
                },
            },
    {
        self.pending.clear();
        let resp = match answer {
            Err(e) => return Err(e),
            Ok(resp) => resp,
        };
        if let Some(sid) = resp.header("mcp-session-id") {
            self.session_id = Some(owned(sid));
        }
        if resp.status == 200 {
            let sse = match resp.header("content-type") {
                Some(c) => str_contains(c, "text/event-stream"),
                None => false,
            };
            if sse {
                let lines = sse_data_lines(resp.body.as_str());
                let mut i: usize = 0;
                while i < lines.len()
                    invariant
                        i <= lines@.len(),
                        strings_view(self.pending@) == strings_view(lines@).take(i as int),
                        self.url == old(self).url,
                        self.last_error == old(self).last_error,
                        opt_str(self.session_id) == match first_header(
                            headers_view(resp.headers@),
                            ascii_lower("mcp-session-id"@),
                        ) {
                            Some(v) => Some(v),
                            None => opt_str(old(self).session_id),
                        },
                    decreases lines@.len() - i,
                {
                    let ghost p0 = self.pending@;
                    let line = owned(lines[i].as_str());
                    self.pending.push_back(line);
                    assert(self.pending@ == p0.push(line));
                    assert(strings_view(self.pending@) =~= strings_view(p0).push(line@));
                    assert(strings_view(self.pending@) =~= strings_view(lines@).take(i + 1));
                    i = i + 1;
                }
                assert(strings_view(lines@).take(lines@.len() as int) =~= strings_view(lines@));
            } else {
                let t = trim_str(resp.body.as_str());
                if t.unicode_len() > 0 {
                    self.pending.push_back(owned(t));
                    assert(strings_view(self.pending@) =~= seq![t@]);
                }
            }
            Ok(())
        } else if resp.status == 202 {
            Ok(())
        } else {
            let mut msg = owned("HTTP ");
            push_dec(&mut msg, resp.status as u64);
            push_str(&mut msg, ": ");
            let bv = chars_of(resp.body.as_str());
            let n = if bv.len() < 200 { bv.len() } else { 200 };
            let excerpt = crate::text::sub_chars(bv.as_slice(), 0, n);
            push_str(&mut msg, string_of(excerpt.as_slice()).as_str());
            self.last_error = Some(owned(msg.as_str()));
            Err(msg)
        }
    }

    /// The next queued message (`None`: this answer is used up).
    pub fn next_line(&mut self) -> (r: Option<String>)
        ensures
            old(self).pending@.len() == 0 ==> r is None && final(self).pending@.len() == 0,
            old(self).pending@.len() > 0 ==> r == Some(old(self).pending@[0]) && final(self).pending@
                == old(self).pending@.drop_first(),
            final(self).session_id == old(self).session_id,
            final(self).last_error == old(self).last_error,
    {
        self.pending.pop_front()
    }

    /// A remote server has no process that could exit.
    pub fn exited(&self) -> (r: bool)
        ensures
            !r,
    {
        false
    }

    /// The last failure, in place of a process's stderr.
    pub fn stderr_tail(&self) -> (r: String)
        ensures
            r@ == match self.last_error {
                Some(e) => e@,
                None => Seq::empty(),
            },
    {
        match &self.last_error {
            Some(e) => owned(e.as_str()),
            None => String::new(),
        }
    }

    /// Drop the session (there is no connection to kill).
    pub fn kill(&mut self)
        ensures
            final(self).session_id is None,
            final(self).url == old(self).url,
            final(self).pending@ == old(self).pending@,
            final(self).last_error == old(self).last_error,
    {
        self.session_id = None;
    }
}
} // verus!
