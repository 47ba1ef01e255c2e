use neo::deepseek::request::{
    config_from_env, encode_messages, request_frame, tool_call_n, tool_result_text, CallText, ChatMessage, Role,
    ScriptedProvider, DEFAULT_LABEL,
};
use neo::deepseek::stream::Delta;

fn provider() -> neo::deepseek::request::ProviderConfig {
    config_from_env(Some("k"), Some("e.invalid"), Some("m")).unwrap().with_label(DEFAULT_LABEL)
}

#[test]
fn stream_request_declares_event_stream_accept() {
    let req = provider().build_stream_request("{}");
    assert!(req.contains("Accept: text/event-stream"), "流式请求要声明 SSE：{req}");
}

#[test]
fn request_declares_identity_encoding() {
    let mut p = provider();
    p.path = "/p".to_string();
    let req = p.build_request("{}");
    assert!(req.contains("Accept-Encoding: identity"), "缺 identity 声明：{req}");
    assert!(req.starts_with("POST /p HTTP/1.1"), "请求行应含 path：{req}");
}

#[test]
fn the_frame_counts_body_bytes() {
    let f = request_frame("/x", "h", "key", "application/json", "{\"q\":\"你\"}");
    assert_eq!(
        f,
        "POST /x HTTP/1.1\r\nHost: h\r\nAuthorization: Bearer key\r\nContent-Type: application/json\r\nAccept: application/json\r\nAccept-Encoding: identity\r\nContent-Length: 11\r\nConnection: close\r\n\r\n{\"q\":\"你\"}"
    );
}

#[test]
fn settings_come_from_the_environment_values() {
    assert_eq!(config_from_env(None, None, None).unwrap_err(), "未设置环境变量 DEEPSEEK_API_KEY");
    assert_eq!(config_from_env(Some("  "), None, None).unwrap_err(), "DEEPSEEK_API_KEY 为空");
    let c = config_from_env(Some("sk"), None, None).unwrap();
    assert_eq!((c.endpoint.as_str(), c.path.as_str(), c.model.as_str(), c.label.as_str()),
        ("api.deepseek.com", "/chat/completions", "deepseek-chat", "deepseek"));
    let c = c.with_model("glm").with_label("gw");
    assert_eq!((c.model.as_str(), c.label.as_str()), ("glm", "gw"));
}

fn tool_content(stdout: &str, stderr: &str, exit_code: i32, truncated: bool) -> String {
    let msgs = vec![ChatMessage::ToolResult {
        id: "c1".into(),
        name: "bash".into(),
        stdout: stdout.into(),
        stderr: stderr.into(),
        exit_code,
        truncated,
    }];
    let encoded = encode_messages("sys", &msgs);
    let tool = encoded.iter().find(|m| m.role == Role::Tool).expect("应有 tool 消息");
    tool.content.clone().unwrap()
}

#[test]
fn tool_result_carries_stderr_and_exit_code_to_the_model() {
    let content = tool_content("", "用户拒绝了该调用", -1, false);
    assert!(content.contains("用户拒绝了该调用"), "拒绝原因必须到达模型：{content}");
    assert!(content.contains("-1"), "退出码必须到达模型：{content}");
    assert_eq!(tool_result_text("out", "err", 2, false), "out\n[stderr] err\n[exit_code] 2");
}

#[test]
fn successful_tool_result_without_stderr_is_not_polluted() {
    let content = tool_content("file.txt", "", 0, false);
    assert_eq!(content, "file.txt", "干净的成功结果不该加标记：{content}");
}

#[test]
fn truncated_tool_result_is_labelled_for_the_model() {
    let content = tool_content("head", "", 0, true);
    assert!(content.contains("truncated"), "应标注截断：{content}");
    assert_eq!(content, "head\n[truncated] 输出已被截断");
}

#[test]
fn messages_keep_roles_and_order() {
    let msgs = vec![
        ChatMessage::User("hi".into()),
        ChatMessage::Assistant {
            text: String::new(),
            tool_calls: vec![CallText { id: "c1".into(), name: "bash".into(), arguments: "{\"cmd\":\"ls\"}".into() }],
        },
    ];
    let e = encode_messages("sys", &msgs);
    assert_eq!(e.len(), 3);
    assert_eq!((e[0].role, e[0].content.as_deref()), (Role::System, Some("sys")));
    assert_eq!((e[1].role, e[1].content.as_deref()), (Role::User, Some("hi")));
    assert_eq!(e[2].role, Role::Assistant);
    assert_eq!(e[2].content, None);
    assert_eq!(e[2].tool_calls[0].name, "bash");
}

#[test]
fn the_scripted_provider_follows_its_script() {
    let p = ScriptedProvider::text_only("离线").with_name("demo");
    assert_eq!(p.name(), "demo");
    assert_eq!(p.answer(0), vec![Delta::Text("离线".into())]);
    let d = ScriptedProvider::demo();
    assert_eq!(d.answer(0).len(), 2);
    assert!(matches!(&d.answer(1)[0], Delta::Text(t) if t.starts_with("# 完成情况")));
    assert_eq!(
        tool_call_n(2, "apply_patch", "{}"),
        Delta::ToolCall { id: "selftest-2-apply_patch".into(), name: "apply_patch".into(), args: "{}".into() }
    );
}
