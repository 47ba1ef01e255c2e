use neo::mcp::tool::{sanitize, truncate_utf8, CallKind, McpResourceTool, ResourceInfo};

#[test]
fn output_is_truncated_on_char_boundary() {
    let s = "约".repeat(100); // 每字 3 字节
    let (cut, truncated) = truncate_utf8(&s, 100);
    assert!(truncated);
    assert_eq!(cut.chars().count(), 33, "100 字节 = 33 个汉字（99 字节）");
    // 截断结果必须是合法 UTF-8（不 panic 即为证）
    assert_eq!(cut.len(), 99);
    let (_, t2) = truncate_utf8("short", 100);
    assert!(!t2);
}

#[test]
fn resource_catalog_itself_is_bounded() {
    let many: Vec<ResourceInfo> = (0..80)
        .map(|i| ResourceInfo {
            uri: format!("res://{i}"),
            name: format!("r{i}"),
            description: String::new(),
            mime_type: "text/plain".into(),
        })
        .collect();
    let t = McpResourceTool::new("s", &many);
    assert!(t.describe().contains("还有 30 条未列出"), "超出目录上限要如实标注");
    assert!(t.describe().len() < 10_000, "目录本身要有界");
}

#[test]
fn resource_tool_lists_catalog_and_is_read() {
    let resources = vec![
        ResourceInfo {
            uri: "file:///logs/app.log".into(),
            name: "应用日志".into(),
            description: "最近的应用日志".into(),
            mime_type: "text/plain".into(),
        },
        ResourceInfo {
            uri: "db://main/users".into(),
            name: "用户表".into(),
            description: "".into(),
            mime_type: "application/json".into(),
        },
    ];
    let t = McpResourceTool::new("my-srv", &resources);
    assert_eq!(t.name(), "mcp__my_srv__read_resource", "每服务器一个读取工具");
    assert_eq!(t.call_kind(), CallKind::Read, "资源在 MCP 定义上是只读的");
    let d1 = t.describe();
    assert_eq!(d1, t.describe(), "描述必须字节稳定");
    assert!(d1.contains("file:///logs/app.log"), "目录要含 URI：{d1}");
    assert!(d1.contains("2 条"), "目录要标注条数：{d1}");
    assert!(d1.contains(r#""required":["uri"]"#), "参数 schema 要说明必填 uri");
    assert!(d1.contains("- file:///logs/app.log（text/plain）最近的应用日志\n"));
}

#[test]
fn names_are_sanitized_and_cuts_respect_small_limits() {
    assert_eq!(sanitize("my-server.v2/search all"), "my_server_v2_search_all");
    assert_eq!(truncate_utf8("你好", 2), (String::new(), true));
    assert_eq!(truncate_utf8("a你好", 4), ("a你".to_string(), true));
    assert_eq!(truncate_utf8("", 0), (String::new(), false));
}
