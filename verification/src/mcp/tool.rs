//! MCP tools as the kernel sees them: qualified names, the resource
//! catalog in the reading tool's description, and output cut to a byte
//! limit on character boundaries.
use vstd::prelude::*;
use crate::text::{chars_of, push_str, push_char, string_of, owned};
use crate::framing::{char_len, char_len_exec, utf8_len, utf8_len_exec, dec_of, push_dec};
use crate::mcp::client::{CallOutcome, McpError, ToolInfo, error_text};

verus! {

/// Most resources listed in the description (the menu itself stays
/// bounded).
pub const MAX_LISTED_RESOURCES: usize = 50;

/// A resource a server declares.
#[derive(Debug, Clone)]
pub struct ResourceInfo {
    pub uri: String,
    pub name: String,
    pub description: String,
    pub mime_type: String,
}

/// Tool names go into prompts and logs: every character other than an
/// ASCII letter, digit or `_` becomes `_`.
pub open spec fn sanitized_char(c: char) -> char {
    if ('a' <= c && c <= 'z') || ('A' <= c && c <= 'Z') || ('0' <= c && c <= '9') || c == '_' {
        c
    } else {
        '_'
    }
}

pub fn sanitize(raw: &str) -> (r: String)
    ensures
        r@ == raw@.map_values(|c: char| sanitized_char(c)),
{
    let v = chars_of(raw);
    let mut r = String::new();
    let mut i: usize = 0;
    while i < v.len()
        invariant
            i <= v@.len(),
            r@ == v@.take(i as int).map_values(|c: char| sanitized_char(c)),
        decreases v@.len() - i,
    {
        let c = v[i];
        let keep = ('a' <= c && c <= 'z') || ('A' <= c && c <= 'Z') || ('0' <= c && c <= '9') || c
            == '_';
        push_char(
            &mut r,
            if keep {
                c
            } else {
                '_'
            },
        );
        assert(v@.take(i + 1) =~= v@.take(i as int).push(c));
        assert(r@ =~= v@.take(i + 1).map_values(|c: char| sanitized_char(c)));
        i = i + 1;
    }
    assert(v@.take(v@.len() as int) =~= v@);
    r
}

// ── output limits ────────────────────────────────────────────────────

/// The number of leading characters of `s` that fit in `max` bytes.
pub open spec fn fit_chars(s: Seq<char>, max: int) -> int
    decreases s.len(),
{
    if s.len() == 0 || char_len(s[0]) > max {
        0
    } else {
        1 + fit_chars(s.drop_first(), max - char_len(s[0]))
    }
}

/// Text cut to `max` bytes without splitting a character, and whether
/// anything was cut.
pub open spec fn truncated_utf8(s: Seq<char>, max: int) -> (Seq<char>, bool) {
    if utf8_len(s) <= max {
        (s, false)
    } else {
        (s.take(fit_chars(s, max)), true)
    }
}

proof fn lemma_fit_chars(s: Seq<char>, max: int)
    requires
        max >= 0,
    ensures
        0 <= fit_chars(s, max) <= s.len(),
        utf8_len(s.take(fit_chars(s, max))) <= max,
    decreases s.len(),
{
    if s.len() == 0 || char_len(s[0]) > max {
        assert(s.take(0) =~= Seq::<char>::empty());
    } else {
        let t = s.drop_first();
        lemma_fit_chars(t, max - char_len(s[0]));
        let k = fit_chars(t, max - char_len(s[0]));
        assert(s.take(k + 1) =~= seq![s[0]] + t.take(k));
        crate::framing::lemma_utf8_len_append(seq![s[0]], t.take(k));
        assert(seq![s[0]].drop_last() =~= Seq::<char>::empty());
        assert(seq![s[0]].last() == s[0]);
        assert(utf8_len(Seq::<char>::empty()) == 0);
        assert(utf8_len(seq![s[0]]) == char_len(s[0]));
    }
}

/// A cut never passes its byte limit.
pub proof fn law_truncate_within_limit(s: Seq<char>, max: int)
    requires
        max >= 0,
    ensures
        utf8_len(truncated_utf8(s, max).0) <= max,
        truncated_utf8(s, max).1 == (utf8_len(s) > max),
{
    lemma_fit_chars(s, max);
}

/// Cut `s` to at most `max` bytes on a character boundary.
pub fn truncate_utf8(s: &str, max: usize) -> (r: (String, bool))
    requires
        utf8_len(s@) <= usize::MAX,
    ensures
        (r.0@, r.1) == truncated_utf8(s@, max as int),
{
    let v = chars_of(s);
    if utf8_len_exec(v.as_slice()) <= max {
        return (owned(s), false);
    }
    let mut k: usize = 0;
    let mut left: usize = max;
    assert(v@.skip(0) =~= v@);
    while k < v.len() && char_len_exec(v[k]) <= left
        invariant
            k <= v@.len(),
            left <= max,
            fit_chars(v@, max as int) == k + fit_chars(v@.skip(k as int), left as int),
        decreases v@.len() - k,
    {
        assert(v@.skip(k as int)[0] == v@[k as int]);
        assert(v@.skip(k as int).drop_first() =~= v@.skip(k + 1));
        left = left - char_len_exec(v[k]);
        k = k + 1;
    }
    proof {
        if k < v@.len() {
            assert(v@.skip(k as int)[0] == v@[k as int]);
        }
    }
    let cut = crate::text::sub_chars(v.as_slice(), 0, k);
    assert(cut@ =~= v@.take(k as int));
    (string_of(cut.as_slice()), true)
}

// ── the resource reading tool ────────────────────────────────────────

/// One catalog line: `- uri（mime）description`.
pub open spec fn catalog_line(r: ResourceInfo) -> Seq<char> {
    "- "@ + r.uri@ + "（"@ + r.mime_type@ + "）"@ + r.description@ + "\n"@
}

pub open spec fn catalog_lines(rs: Seq<ResourceInfo>) -> Seq<char>
    decreases rs.len(),
{
    if rs.len() == 0 {
        Seq::empty()
    } else {
        catalog_lines(rs.drop_last()) + catalog_line(rs.last())
    }
}

/// The catalog: the first `MAX_LISTED_RESOURCES` resources, one line
/// each, then how many were left out.
pub open spec fn catalog_of(rs: Seq<ResourceInfo>) -> Seq<char> {
    if rs.len() > MAX_LISTED_RESOURCES {
        catalog_lines(rs.take(MAX_LISTED_RESOURCES as int)) + "… 还有 "@ + dec_of(
            (rs.len() - MAX_LISTED_RESOURCES) as nat,
        ) + " 条未列出\n"@
    } else {
        catalog_lines(rs)
    }
}

/// The argument schema of the reading tool.
pub const RESOURCE_SCHEMA: &'static str = "{\"type\":\"object\",\"properties\":{\"uri\":{\"type\":\"string\",\"description\":\"资源 URI\"}},\"required\":[\"uri\"]}";

/// A server's resources exposed as one read-only tool,
/// `mcp__<server>__read_resource`, that takes a URI. Its description is
/// fixed at construction (a stable prompt prefix).
pub struct McpResourceTool {
    pub qualified_name: String,
    /// The catalog shown in the description.
    pub catalog: String,
    /// How many resources the server declared.
    pub catalog_count: usize,
}

impl McpResourceTool {
    pub fn new(server_name: &str, resources: &[ResourceInfo]) -> (t: Self)
        ensures
            t.qualified_name@ == "mcp__"@ + server_name@.map_values(|c: char| sanitized_char(c))
                + "__read_resource"@,
            t.catalog@ == catalog_of(resources@),
            t.catalog_count == resources@.len(),
    {
        let mut catalog = String::new();
        let n = resources.len();
        let k = if n < MAX_LISTED_RESOURCES {
            n
        } else {
            MAX_LISTED_RESOURCES
        };
        let mut i: usize = 0;
        while i < k
            invariant
                k <= resources@.len(),
                k == if resources@.len() < MAX_LISTED_RESOURCES {
                    resources@.len()
                } else {
                    MAX_LISTED_RESOURCES as nat
                },
                i <= k,
                catalog@ == catalog_lines(resources@.take(i as int)),
            decreases k - i,
        {
            let r = &resources[i];
            push_str(&mut catalog, "- ");
            push_str(&mut catalog, r.uri.as_str());
            push_str(&mut catalog, "（");
            push_str(&mut catalog, r.mime_type.as_str());
            push_str(&mut catalog, "）");
            push_str(&mut catalog, r.description.as_str());
            push_str(&mut catalog, "\n");
            assert(resources@.take(i + 1).drop_last() =~= resources@.take(i as int));
            assert(catalog@ =~= catalog_lines(resources@.take(i + 1)));
            i = i + 1;
        }
        if n > MAX_LISTED_RESOURCES {
            push_str(&mut catalog, "… 还有 ");
            push_dec(&mut catalog, (n - MAX_LISTED_RESOURCES) as u64);
            push_str(&mut catalog, " 条未列出\n");
        } else {
            assert(resources@.take(k as int) =~= resources@);
        }
        let mut name = owned("mcp__");
        let s = sanitize(server_name);
        push_str(&mut name, s.as_str());
        push_str(&mut name, "__read_resource");
        McpResourceTool { qualified_name: name, catalog, catalog_count: n }
    }

    pub fn name(&self) -> (r: &str)
        ensures
            r@ == self.qualified_name@,
    {
        self.qualified_name.as_str()
    }

    /// The description shown to the model: name, argument schema, what it
    /// does, and the catalog.
    pub fn describe(&self) -> (r: String)
        ensures
            r@ == self.qualified_name@ + "(MCP 参数 schema: "@ + RESOURCE_SCHEMA@
                + "): 读取外部服务器声明的资源。\n可用资源（"@ + dec_of(self.catalog_count as nat)
                + " 条）：\n"@ + self.catalog@,
    {
        let mut d = owned(self.qualified_name.as_str());
        push_str(&mut d, "(MCP 参数 schema: ");
        push_str(&mut d, RESOURCE_SCHEMA);
        push_str(&mut d, "): 读取外部服务器声明的资源。\n可用资源（");
        push_dec(&mut d, self.catalog_count as u64);
        push_str(&mut d, " 条）：\n");
        push_str(&mut d, self.catalog.as_str());
        d
    }
}

/// The catalog lists at most `MAX_LISTED_RESOURCES` resources, however many
/// the server declares.
pub proof fn law_catalog_lists_at_most_the_limit(rs: Seq<ResourceInfo>)
    ensures
        rs.len() > MAX_LISTED_RESOURCES ==> catalog_of(rs) == catalog_lines(
            rs.take(MAX_LISTED_RESOURCES as int),
        ) + "… 还有 "@ + dec_of((rs.len() - MAX_LISTED_RESOURCES) as nat) + " 条未列出\n"@,
{
}


// ── what a tool call gives the kernel ────────────────────────────────

/// Whether a call only reads or may change something (which decides
/// whether it needs approval).
#[derive(Debug, Clone, Copy, PartialEq, Eq, Structural)]
pub enum CallKind {
    Read,
    Write,
}

/// A tool's result as the kernel takes it.
#[derive(Debug, Clone, PartialEq, Eq)]
pub struct ToolOutput {
    pub exit_code: i32,
    pub stdout: String,
    pub stderr: String,
    pub truncated: bool,
}

/// A failure the model can understand: exit -1 with the reason on
/// stderr.
pub fn failure(e: &McpError) -> (o: ToolOutput)
    ensures
        o.exit_code == -1,
        o.stdout@.len() == 0,
        o.stderr@ == error_text(*e),
        !o.truncated,
{
    ToolOutput { exit_code: -1, stdout: String::new(), stderr: e.message(), truncated: false }
}

impl McpResourceTool {
    /// Resources are read-only by the protocol's definition.
    pub fn call_kind(&self) -> (k: CallKind)
        ensures
            k == CallKind::Read,
    {
        CallKind::Read
    }

    /// The argument schema (a required `uri`).
    pub fn parameters(&self) -> (r: &'static str)
        ensures
            r@ == RESOURCE_SCHEMA@,
    {
        RESOURCE_SCHEMA
    }

    /// The answer when the call names no `uri`.
    pub fn missing_uri(&self) -> (o: ToolOutput)
        ensures
            o.exit_code == -1,
            o.stdout@.len() == 0,
            o.stderr@ == "MCP 协议错误："@ + "缺少 uri 参数"@,
            !o.truncated,
    {
        failure(&McpError::Protocol(owned("缺少 uri 参数")))
    }

    /// What reading a resource gives: its text cut to `max` bytes; the
    /// result is truncated when the server or the cut shortened it, and
    /// stderr says so when only the server did.
    pub fn read_output(&self, read: Result<(String, bool), McpError>, max: usize) -> (o: ToolOutput)
        requires
            read matches Ok((t, _)) ==> utf8_len(t@) <= usize::MAX,
        ensures
            match read {
                Ok((text, server_cut)) => {
                    let (t, cut) = truncated_utf8(text@, max as int);
                    &&& o.exit_code == 0
                    &&& o.stdout@ == t
                    &&& o.stderr@ == if server_cut && !cut {
                        "资源正文已按服务器侧上限截断"@
                    } else {
                        Seq::empty()
                    }
                    &&& o.truncated == (server_cut || cut)
                },
                Err(e) => o.exit_code == -1 && o.stdout@.len() == 0 && o.stderr@ == error_text(e)
                    && !o.truncated,
            },
    {
        match read {
            Ok((text, server_cut)) => {
                let (t, cut) = truncate_utf8(text.as_str(), max);
                let stderr = if server_cut && !cut {
                    owned("资源正文已按服务器侧上限截断")
                } else {
                    String::new()
                };
                ToolOutput { exit_code: 0, stdout: t, stderr, truncated: server_cut || cut }
            },
            Err(e) => failure(&e),
        }
    }
}

/// A server's tool as the kernel sees it: `mcp__<server>__<tool>`, its
/// description with the declared argument schema, and its read-only hint.
pub struct McpTool {
    pub qualified_name: String,
    pub description: String,
    pub input_schema: String,
    pub read_only_hint: Option<bool>,
}

impl McpTool {
    pub fn new(server_name: &str, info: &ToolInfo) -> (t: Self)
        ensures
            t.qualified_name@ == "mcp__"@ + server_name@.map_values(|c: char| sanitized_char(c))
                + "__"@ + info.name@.map_values(|c: char| sanitized_char(c)),
            t.description@ == info.description@,
            t.input_schema@ == info.input_schema@,
            t.read_only_hint == info.read_only_hint,
    {
        let mut name = owned("mcp__");
        let s = sanitize(server_name);
        push_str(&mut name, s.as_str());
        push_str(&mut name, "__");
        let n = sanitize(info.name.as_str());
        push_str(&mut name, n.as_str());
        McpTool {
            qualified_name: name,
            description: owned(info.description.as_str()),
            input_schema: owned(info.input_schema.as_str()),
            read_only_hint: info.read_only_hint,
        }
    }

    pub fn name(&self) -> (r: &str)
        ensures
            r@ == self.qualified_name@,
    {
        self.qualified_name.as_str()
    }

    /// `name(MCP 参数 schema: <schema>): <description>`, the schema
    /// embedded as the server declared it.
    pub fn describe(&self) -> (r: String)
        ensures
            r@ == self.qualified_name@ + "(MCP 参数 schema: "@ + self.input_schema@ + "): "@
                + self.description@,
    {
        let mut d = owned(self.qualified_name.as_str());
        push_str(&mut d, "(MCP 参数 schema: ");
        push_str(&mut d, self.input_schema.as_str());
        push_str(&mut d, "): ");
        push_str(&mut d, self.description.as_str());
        d
    }

    /// Only a declared read-only hint makes a call a read; without one
    /// it is a write.
    pub fn call_kind(&self) -> (k: CallKind)
        ensures
            k == (if self.read_only_hint == Some(true) {
                CallKind::Read
            } else {
                CallKind::Write
            }),
    {
        match self.read_only_hint {
            Some(true) => CallKind::Read,
            _ => CallKind::Write,
        }
    }

    /// The declared argument schema, unchanged.
    pub fn parameters(&self) -> (r: &str)
        ensures
            r@ == self.input_schema@,
    {
        self.input_schema.as_str()
    }

    /// What a call gives the kernel: the text cut to `max` bytes, exit
    /// -1 with a note on stderr when the tool reported a failure; a failed
    /// call is a failure with its reason.
    pub fn call_output(&self, call: Result<CallOutcome, McpError>, max: usize) -> (o: ToolOutput)
        requires
            call matches Ok(c) ==> utf8_len(c.text@) <= usize::MAX,
        ensures
            match call {
                Ok(c) => {
                    let (t, cut) = truncated_utf8(c.text@, max as int);
                    &&& o.exit_code == (if c.is_error { -1i32 } else { 0i32 })
                    &&& o.stdout@ == t
                    &&& o.stderr@ == if c.is_error {
                        "工具自报执行失败（isError）"@
                    } else {
                        Seq::empty()
                    }
                    &&& o.truncated == cut
                },
                Err(e) => o.exit_code == -1 && o.stdout@.len() == 0 && o.stderr@ == error_text(e)
                    && !o.truncated,
            },
    {
        match call {
            Ok(c) => {
                let (t, cut) = truncate_utf8(c.text.as_str(), max);
                let stderr = if c.is_error {
                    owned("工具自报执行失败（isError）")
                } else {
                    String::new()
                };
                ToolOutput { exit_code: if c.is_error { -1 } else { 0 }, stdout: t, stderr, truncated: cut }
            },
            Err(e) => failure(&e),
        }
    }
}
} // verus!
