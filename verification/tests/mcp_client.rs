use neo::mcp::client::{
    call_outcome, check_version, Await, CallResult, ContentItem, HttpChild, Listing, McpClient, McpError, Reply,
    ToolEntry, ToolInfo, ToolListing, ToolsPage, HTTP_PROTOCOL_VERSIONS,
};
use neo::mcp::config::{parse_user_config, project_candidates, reject_project_level, user_config_path, ConfigDoc, ServerEntry, ServerSpec};
use neo::mcp::http::HttpResponse;
use neo::mcp::tool::{CallKind, McpResourceTool, McpTool, ResourceInfo};
use neo::mcp::wire::{parse_message, ErrorField, Message, Response, PROTOCOL_VERSION};
use serde_json::Value;

// ── decoding, as the caller does it ──────────────────────────────────

fn parse_line(line: &str) -> Result<Option<Response<Value>>, String> {
    let v: Value = serde_json::from_str(line).map_err(|e| format!("不是合法 JSON：{e}"))?;
    let m = match v.as_object() {
        None => Message { is_object: false, has_method: false, id: None, error: None, result: None },
        Some(obj) => Message {
            is_object: true,
            has_method: obj.contains_key("method"),
            id: obj.get("id").and_then(Value::as_u64),
            error: obj.get("error").map(|e| ErrorField {
                code: e.get("code").and_then(Value::as_i64),
                message: e.get("message").and_then(Value::as_str).map(String::from),
            }),
            result: obj.get("result").cloned(),
        },
    };
    parse_message(m)
}

fn spec_of(v: &Value) -> Result<ServerSpec, String> {
    let name = v.get("name").and_then(Value::as_str).ok_or("missing field `name`")?.to_string();
    let command = v.get("command").and_then(Value::as_str).unwrap_or("").to_string();
    let args = match v.get("args") {
        None => Vec::new(),
        Some(a) => a
            .as_array()
            .ok_or("invalid type: expected a sequence")?
            .iter()
            .map(|x| x.as_str().map(String::from).ok_or("invalid type: expected a string".to_string()))
            .collect::<Result<Vec<_>, _>>()?,
    };
    let url = v.get("url").and_then(Value::as_str).map(String::from);
    Ok(ServerSpec { name, command, args, url })
}

fn parse_config(raw: &str) -> Result<Vec<ServerSpec>, String> {
    let v: Value = serde_json::from_str(raw).map_err(|e| e.to_string())?;
    let servers = v.get("servers").and_then(Value::as_array).map(|a| {
        a.iter()
            .map(|s| ServerEntry {
                name: s.get("name").and_then(Value::as_str).map(String::from),
                command: s.get("command").and_then(Value::as_str).map(String::from),
                has_url: s.get("url").and_then(Value::as_str).is_some(),
                text: s.to_string(),
                spec: spec_of(s),
            })
            .collect()
    });
    parse_user_config(ConfigDoc { servers })
}

fn page_of(raw: &str) -> ToolsPage {
    let v: Value = serde_json::from_str(raw).unwrap();
    let tools = v
        .get("tools")
        .and_then(Value::as_array)
        .map(|a| {
            a.iter()
                .map(|t| ToolEntry {
                    name: t.get("name").and_then(Value::as_str).map(String::from),
                    description: t.get("description").and_then(Value::as_str).map(String::from),
                    input_schema: t.get("inputSchema").map(|s| s.to_string()),
                    read_only_hint: t.get("annotations").and_then(|a| a.get("readOnlyHint")).and_then(Value::as_bool),
                })
                .collect()
        })
        .unwrap_or_default();
    ToolsPage { tools, next_cursor: v.get("nextCursor").and_then(Value::as_str).map(String::from) }
}

fn call_of(raw: &str) -> CallResult {
    let v: Value = serde_json::from_str(raw).unwrap();
    CallResult {
        is_error: v.get("isError").and_then(Value::as_bool),
        content: v.get("content").and_then(Value::as_array).map(|a| {
            a.iter()
                .map(|c| ContentItem {
                    kind: c.get("type").and_then(Value::as_str).map(String::from),
                    text: c.get("text").and_then(Value::as_str).map(String::from),
                })
                .collect()
        }),
    }
}

fn info(name: &str, ro: Option<bool>) -> ToolInfo {
    ToolInfo {
        name: name.into(),
        description: "做一件事".into(),
        input_schema: r#"{"type":"object","properties":{"q":{"type":"string"}}}"#.into(),
        read_only_hint: ro,
    }
}

// ── wire ─────────────────────────────────────────────────────────────

#[test]
fn parses_success_response() {
    let r = parse_line(r#"{"jsonrpc":"2.0","id":7,"result":{"tools":[]}}"#).unwrap();
    match r {
        Some(Response::Success { id, result }) => {
            assert_eq!(id, 7);
            assert_eq!(result.unwrap()["tools"], Value::Array(Vec::new()));
        }
        other => panic!("应为成功响应：{other:?}"),
    }
}

#[test]
fn parses_error_response() {
    let r = parse_line(r#"{"jsonrpc":"2.0","id":3,"error":{"code":-32601,"message":"no such method"}}"#).unwrap();
    match r {
        Some(Response::Failure { id, code, message }) => {
            assert_eq!(id, Some(3));
            assert_eq!(code, -32601);
            assert_eq!(message, "no such method");
        }
        other => panic!("应为错误响应：{other:?}"),
    }
}

#[test]
fn drops_notifications_instead_of_failing() {
    let r = parse_line(r#"{"jsonrpc":"2.0","method":"notifications/message","params":{"level":"info"}}"#).unwrap();
    assert!(r.is_none(), "通知应被丢弃而不是当错误");
}

#[test]
fn rejects_non_object_and_bad_json() {
    assert!(parse_line("[1,2]").is_err());
    assert!(parse_line("not json").is_err());
}

#[test]
fn error_without_code_or_message_gets_defaults_and_result_needs_an_id() {
    match parse_line(r#"{"jsonrpc":"2.0","error":{}}"#).unwrap() {
        Some(Response::Failure { id, code, message }) => {
            assert_eq!(id, None);
            assert_eq!(code, -32603);
            assert_eq!(message, "（服务器未给错误说明）");
        }
        other => panic!("{other:?}"),
    }
    assert_eq!(parse_line(r#"{"jsonrpc":"2.0","result":1}"#).unwrap_err(), "成功响应缺少 id");
    assert_eq!(parse_line("[1]").unwrap_err(), "消息必须是 JSON 对象");
}

// ── configuration ────────────────────────────────────────────────────

#[test]
fn parses_valid_config() {
    let raw = r#"{"servers":[
        {"name":"fs","command":"npx","args":["-y","mcp-fs"]},
        {"name":"git","command":"/usr/local/bin/mcp-git"}
    ]}"#;
    let servers = parse_config(raw).unwrap();
    assert_eq!(servers.len(), 2);
    assert_eq!(servers[0].name, "fs");
    assert_eq!(servers[0].args, vec!["-y", "mcp-fs"]);
    assert!(servers[1].args.is_empty(), "args 缺省为空");
}

#[test]
fn rejects_incomplete_entries() {
    assert!(parse_config(r#"{"servers":[{"name":"x"}]}"#).is_err());
    assert!(parse_config(r#"{"servers":[{"command":"x"}]}"#).is_err());
    assert!(parse_config(r#"{}"#).is_err());
    assert!(parse_config("not json").is_err());
}

#[test]
fn command_and_url_are_mutually_exclusive_but_one_is_required() {
    let ok_http = parse_config(r#"{"servers":[{"name":"remote","url":"http://127.0.0.1:9999/mcp"}]}"#).unwrap();
    assert_eq!(ok_http[0].url.as_deref(), Some("http://127.0.0.1:9999/mcp"));
    assert!(parse_config(r#"{"servers":[{"name":"x","command":"a","url":"http://b"}]}"#).is_err());
    assert!(parse_config(r#"{"servers":[{"name":"x"}]}"#).is_err());
}

#[test]
fn config_errors_say_which_entry_and_why() {
    assert_eq!(parse_config(r#"{}"#).unwrap_err(), "缺少 servers 数组");
    assert_eq!(
        parse_config(r#"{"servers":[{"name":"x"}]}"#).unwrap_err(),
        r#"servers 里的条目缺少 name 或 transport（command / url）：{"name":"x"}"#
    );
    assert_eq!(
        parse_config(r#"{"servers":[{"name":"x","command":"a","url":"http://b"}]}"#).unwrap_err(),
        "服务器 x 必须且只能填 command（stdio）或 url（HTTP）之一"
    );
}

#[test]
fn project_level_files_are_rejected_with_reason() {
    let err = reject_project_level("/tmp/neo-mcp-test", &[true, false]).unwrap_err();
    assert!(err.contains("供应链"), "错误要说清为什么拒绝：{err}");
    assert!(err.contains("用户级"), "错误要给出正确位置：{err}");
    assert!(err.contains("/tmp/neo-mcp-test/mcp.json"));
    let err = reject_project_level("/tmp/neo-mcp-test", &[false, true]).unwrap_err();
    assert!(err.contains("/tmp/neo-mcp-test/.neo/mcp.json"));
}

#[test]
fn workspace_without_project_config_is_accepted() {
    assert!(reject_project_level("/tmp/neo-mcp-clean", &[false, false]).is_ok());
    assert_eq!(
        project_candidates("/w"),
        vec!["/w/mcp.json".to_string(), "/w/.neo/mcp.json".to_string()]
    );
    assert_eq!(user_config_path(None, Some("/home/u")), Some("/home/u/.neo/mcp.json".to_string()));
    assert_eq!(user_config_path(None, None), None);
}

// ── the client ───────────────────────────────────────────────────────

#[test]
fn list_tools_follows_pagination_cursor() {
    let mut l = ToolListing::new();
    let page1 = page_of(r#"{"tools":[{"name":"a","description":"A","inputSchema":{"type":"object"}}],"nextCursor":"p2"}"#);
    assert_eq!(l.absorb(page1), Listing::More);
    assert_eq!(l.cursor.as_deref(), Some("p2"), "第二页请求必须带游标");
    let page2 = page_of(r#"{"tools":[{"name":"b","description":"B","inputSchema":{"type":"object"}}]}"#);
    assert_eq!(l.absorb(page2), Listing::Done);
    assert_eq!(l.tools.len(), 2, "两页应合并");
    assert_eq!(l.tools[0].name, "a");
    assert_eq!(l.tools[1].name, "b");
}

#[test]
fn read_only_hint_is_parsed_and_absent_hint_is_none() {
    let mut l = ToolListing::new();
    l.absorb(page_of(
        r#"{"tools":[
            {"name":"ro","description":"","inputSchema":{"type":"object"},"annotations":{"readOnlyHint":true}},
            {"name":"rw","description":"","inputSchema":{"type":"object"}}
        ]}"#,
    ));
    assert_eq!(l.tools[0].read_only_hint, Some(true));
    assert_eq!(l.tools[1].read_only_hint, None, "无 hint 不得臆造");
}

#[test]
fn nameless_tools_are_skipped_and_defaults_filled() {
    let mut l = ToolListing::new();
    l.absorb(page_of(r#"{"tools":[{"description":"no name"},{"name":"x"}],"nextCursor":""}"#));
    assert_eq!(l.tools.len(), 1);
    assert_eq!(l.tools[0].description, "");
    assert_eq!(l.tools[0].input_schema, r#"{"type":"object"}"#);
    assert_eq!(l.cursor, None);
}

#[test]
fn endless_pagination_is_an_error() {
    let mut l = ToolListing::new();
    let mut last = Listing::More;
    for _ in 0..100 {
        last = l.absorb(page_of(r#"{"tools":[],"nextCursor":"again"}"#));
    }
    match last {
        Listing::TooMany(e) => assert_eq!(e.message(), "MCP 协议错误：tools/list 分页超过 100 页仍未结束"),
        other => panic!("{other:?}"),
    }
}

#[test]
fn call_tool_joins_text_content_and_marks_non_text() {
    let out = call_outcome(call_of(
        r#"{"content":[
            {"type":"text","text":"第一段"},
            {"type":"image","data":"...","mimeType":"image/png"},
            {"type":"text","text":"第二段"}
        ]}"#,
    ));
    assert_eq!(out.text, "第一段\n[非文本内容：image]\n第二段");
    assert!(!out.is_error);
}

#[test]
fn server_side_tool_error_maps_to_is_error() {
    let out = call_outcome(call_of(r#"{"content":[{"type":"text","text":"boom"}],"isError":true}"#));
    assert!(out.is_error, "isError 必须如实上抛");
    assert_eq!(out.text, "boom");
}

#[test]
fn json_rpc_error_response_surfaces_code_and_message() {
    let mut c = McpClient::new();
    let id = c.begin_request().unwrap();
    assert_eq!(id, 1, "首个请求 id 应为 1（确定性编号）");
    let reply = parse_line(r#"{"jsonrpc":"2.0","id":1,"error":{"code":-32601,"message":"no such tool"}}"#);
    let err = match c.on_reply(id, "tools/call", 120, Reply::Line(reply)) {
        Await::Done(Err(e)) => e,
        other => panic!("{other:?}"),
    };
    assert!(matches!(err, McpError::Server { code: -32601, .. }), "{err:?}");
    assert!(err.message().contains("no such tool"));
    assert_eq!(err.message(), "MCP 服务器错误（-32601）：no such tool");
}

#[test]
fn replies_for_other_requests_are_skipped() {
    let mut c = McpClient::new();
    let id = c.begin_request().unwrap();
    let other = parse_line(r#"{"jsonrpc":"2.0","id":9,"result":{}}"#);
    assert_eq!(c.on_reply(id, "x", 1, Reply::Line(other)), Await::Wait);
    let note = parse_line(r#"{"jsonrpc":"2.0","method":"notifications/progress"}"#);
    assert_eq!(c.on_reply(id, "x", 1, Reply::Line(note)), Await::Wait);
    let mine = parse_line(r#"{"jsonrpc":"2.0","id":1,"result":{"ok":true}}"#);
    match c.on_reply(id, "x", 1, Reply::Line(mine)) {
        Await::Done(Ok(Some(v))) => assert_eq!(v["ok"], Value::Bool(true)),
        other => panic!("{other:?}"),
    }
    let bad: Result<Option<Response<Value>>, String> = Err("不是合法 JSON：x".to_string());
    assert_eq!(
        c.on_reply(id, "x", 1, Reply::Line(bad)),
        Await::Done(Err(McpError::Protocol("不是合法 JSON：x".to_string())))
    );
    assert_eq!(c.begin_request().unwrap(), 2);
}

#[test]
fn timeout_poisons_the_connection() {
    let mut c = McpClient::new();
    let id = c.begin_request().unwrap();
    let r: Await<Value> = c.on_reply(id, "tools/list", 15, Reply::TimedOut);
    assert_eq!(r, Await::Done(Err(McpError::Timeout { method: "tools/list".to_string(), secs: 15 })));
    assert!(c.poisoned);
    let err = c.begin_request().unwrap_err();
    assert!(matches!(err, McpError::Protocol(_)), "{err:?}");
    assert!(err.message().contains("污染"), "错误要说明连接不可再用的原因");
}

#[test]
fn eof_maps_to_exited_error() {
    let mut c = McpClient::new();
    let id = c.begin_request().unwrap();
    let r: Await<Value> = c.on_reply(id, "tools/list", 15, Reply::Eof);
    assert_eq!(r, Await::Exited);
    let e = McpError::Exited { stderr_tail: "boom".to_string() };
    assert_eq!(e.message(), "MCP 服务器进程已退出。stderr 尾部：boom");
}

#[test]
fn version_mismatch_is_an_explicit_error() {
    let err = check_version(Some("1999-01-01"), &[PROTOCOL_VERSION]).unwrap_err();
    assert!(err.message().contains("1999-01-01"), "错误要说清两边的版本：{}", err.message());
    assert_eq!(
        err,
        McpError::Protocol("协议版本不一致：客户端 2024-11-05，服务器 \"1999-01-01\"".to_string())
    );
    assert!(check_version(Some(PROTOCOL_VERSION), &[PROTOCOL_VERSION]).is_ok());
    assert!(check_version(Some("2025-06-18"), &HTTP_PROTOCOL_VERSIONS).is_ok());
    assert_eq!(
        check_version(None, &HTTP_PROTOCOL_VERSIONS).unwrap_err(),
        McpError::Protocol("协议版本不一致：客户端 2025-03-26 / 2025-06-18，服务器 \"\"".to_string())
    );
}

#[test]
fn timeouts_read_as_sentences() {
    let e = McpError::Timeout { method: "tools/call".to_string(), secs: 120 };
    assert_eq!(e.message(), "MCP 请求「tools/call」等待 120s 超时（连接已不可用，需重启 Neo）");
    assert_eq!(McpError::Spawn("nope".into()).message(), "无法启动 MCP 服务器：nope");
    assert_eq!(McpError::Io("pipe".into()).message(), "MCP 服务器管道错误：pipe");
}

// ── the HTTP transport ───────────────────────────────────────────────

fn response(status: u16, headers: &[(&str, &str)], body: &str) -> HttpResponse {
    HttpResponse {
        status,
        headers: headers.iter().map(|(k, v)| (k.to_string(), v.to_string())).collect(),
        body: body.to_string(),
    }
}

#[test]
fn http_transport_queues_json_and_sse_answers() {
    let mut c = HttpChild::new("http://127.0.0.1:9/mcp");
    assert!(c.request_headers().is_empty());
    let r = c.absorb(Ok(response(200, &[("mcp-session-id", "s-1"), ("content-type", "application/json")], " {\"id\":1} \n")));
    assert!(r.is_ok());
    assert_eq!(c.session_id.as_deref(), Some("s-1"));
    assert_eq!(c.request_headers(), vec![("Mcp-Session-Id".to_string(), "s-1".to_string())]);
    assert_eq!(c.next_line().as_deref(), Some("{\"id\":1}"));
    assert_eq!(c.next_line(), None);
    let sse = "event: message\ndata: {\"id\":2}\n\ndata: {\"id\":3}\n\n";
    c.absorb(Ok(response(200, &[("content-type", "text/event-stream")], sse))).unwrap();
    assert_eq!(c.next_line().as_deref(), Some("{\"id\":2}"));
    assert_eq!(c.next_line().as_deref(), Some("{\"id\":3}"));
    assert!(c.absorb(Ok(response(202, &[], ""))).is_ok());
    assert_eq!(c.next_line(), None);
    assert!(!c.exited());
}

#[test]
fn http_error_status_surfaces_the_reason() {
    let mut c = HttpChild::new("http://127.0.0.1:9/wrong");
    let err = c.absorb(Ok(response(404, &[], "endpoint not found"))).unwrap_err();
    assert_eq!(err, "HTTP 404: endpoint not found");
    assert_eq!(c.stderr_tail(), "HTTP 404: endpoint not found");
    assert_eq!(c.absorb(Err("connection refused".to_string())).unwrap_err(), "connection refused");
    c.kill();
    assert!(c.session_id.is_none());
}

// ── tools ────────────────────────────────────────────────────────────

#[test]
fn qualified_name_sanitizes_server_and_tool() {
    let t = McpTool::new("my-server.v2", &info("search/all", None));
    assert_eq!(t.name(), "mcp__my_server_v2__search_all", "非法字符收敛为下划线");
}

#[test]
fn describe_is_stable_and_embeds_schema() {
    let t = McpTool::new("srv", &info("q", Some(true)));
    let d1 = t.describe();
    assert_eq!(d1, t.describe(), "两次调用必须逐字节相同");
    assert!(d1.contains(r#""type":"object""#), "schema 必须内嵌：{d1}");
    assert!(d1.contains("做一件事"));
    assert_eq!(t.parameters(), r#"{"type":"object","properties":{"q":{"type":"string"}}}"#);
}

#[test]
fn call_kind_favors_write_without_an_explicit_hint() {
    assert_eq!(McpTool::new("s", &info("a", Some(true))).call_kind(), CallKind::Read);
    assert_eq!(McpTool::new("s", &info("b", Some(false))).call_kind(), CallKind::Write);
    assert_eq!(McpTool::new("s", &info("c", None)).call_kind(), CallKind::Write, "无 hint 一律按写（误判成读会绕过审批）");
}

#[test]
fn tool_failure_carries_the_reason_in_stderr() {
    let t = McpTool::new("s", &info("a", None));
    let out = t.call_output(Err(McpError::Server { code: -32601, message: "没有这个工具".into() }), 1024);
    assert_eq!(out.exit_code, -1);
    assert!(out.stderr.contains("没有这个工具"), "{}", out.stderr);
}

#[test]
fn tool_output_is_cut_and_reports_tool_errors() {
    let t = McpTool::new("s", &info("a", None));
    let ok = neo::mcp::client::CallOutcome { text: "约约约".to_string(), is_error: false };
    let out = t.call_output(Ok(ok), 7);
    assert_eq!((out.exit_code, out.stdout.as_str(), out.truncated), (0, "约约", true));
    let bad = neo::mcp::client::CallOutcome { text: "boom".to_string(), is_error: true };
    let out = t.call_output(Ok(bad), 100);
    assert_eq!(out.exit_code, -1);
    assert_eq!(out.stderr, "工具自报执行失败（isError）");
}

#[test]
fn resource_tool_requires_uri_argument() {
    let resources = vec![ResourceInfo {
        uri: "res://x".into(),
        name: "x".into(),
        description: String::new(),
        mime_type: "text/plain".into(),
    }];
    let t = McpResourceTool::new("s", &resources);
    let out = t.missing_uri();
    assert_eq!(out.exit_code, -1);
    assert!(out.stderr.contains("缺少 uri"), "{}", out.stderr);
    let read = t.read_output(Ok(("正文".to_string(), true)), 100);
    assert_eq!(read.stderr, "资源正文已按服务器侧上限截断");
    assert!(read.truncated);
}
