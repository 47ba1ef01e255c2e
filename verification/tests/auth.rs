use std::hash::{BuildHasher, Hasher};
use neo::web::auth::{extract_token, to_hex, token_matches, TOKEN_BYTES};

fn sample_token() -> String {
    let bytes: Vec<u8> = (0..TOKEN_BYTES as u32).map(|i| (i * 37 + 11) as u8).collect();
    to_hex(&bytes)
}

/// Bytes from the standard library's per-process random hash keys (the
/// test's stand-in for the system random source the host reads).
fn random_bytes() -> Vec<u8> {
    let mut out = Vec::new();
    while out.len() < TOKEN_BYTES {
        let mut h = std::collections::hash_map::RandomState::new().build_hasher();
        h.write_usize(out.len());
        out.extend_from_slice(&h.finish().to_le_bytes());
    }
    out.truncate(TOKEN_BYTES);
    out
}

#[test]
fn tokens_are_64_hex_chars_and_unique() {
    let a = to_hex(&random_bytes());
    let b = to_hex(&random_bytes());
    assert_eq!(a.len(), TOKEN_BYTES * 2);
    assert!(a.chars().all(|c| c.is_ascii_hexdigit()), "必须是十六进制：{a}");
    assert_ne!(a, b, "两次生成不能相同");
}

#[test]
fn tokens_are_64_hex_chars() {
    let a = sample_token();
    assert_eq!(a.len(), TOKEN_BYTES * 2);
    assert!(a.chars().all(|c| c.is_ascii_hexdigit()), "必须是十六进制：{a}");
    assert_eq!(to_hex(&[0x00, 0x0f, 0xa5, 0xff]), "000fa5ff");
    assert_eq!(to_hex(&[]), "");
}

#[test]
fn comparison_accepts_only_the_exact_token() {
    let t = sample_token();
    assert!(token_matches(&t, &t));
    assert!(!token_matches(&t, ""));
    assert!(!token_matches(&t, "short"));
    assert!(!token_matches(&t, &format!("{t}0")));
    // 只差最后一位也必须判否（不能被前缀匹配骗过）
    let mut last_diff = t.clone();
    last_diff.pop();
    last_diff.push(if t.ends_with('0') { '1' } else { '0' });
    assert!(!token_matches(&t, &last_diff));
}

#[test]
fn extraction_prefers_the_query_and_falls_back_to_the_header() {
    assert_eq!(extract_token(Some("token=abc"), None), Some("abc"));
    assert_eq!(extract_token(Some("a=1&token=abc&b=2"), None), Some("abc"));
    assert_eq!(extract_token(None, Some("xyz")), Some("xyz"));
    // 空的 query 值不算数，应继续看头
    assert_eq!(extract_token(Some("token="), Some("xyz")), Some("xyz"));
    assert_eq!(extract_token(Some("other=1"), None), None);
    assert_eq!(extract_token(None, None), None);
}

#[test]
fn the_first_non_empty_token_pair_wins() {
    assert_eq!(extract_token(Some("token=&token=b&token=c"), None), Some("b"));
    assert_eq!(extract_token(Some("&&token=x"), Some("h")), Some("x"));
    assert_eq!(extract_token(Some("tokens=1"), Some("")), None);
}

#[test]
fn the_builtin_page_plumbs_the_token_onto_every_request() {
    let html = neo::web::page::INDEX_HTML;
    assert!(
        html.contains("new URLSearchParams(location.hash.slice(1))"),
        "令牌必须来自 URL fragment（不发给服务器、不进 Referer）"
    );
    assert!(
        !html.contains("location.search"),
        "不能从 query 取令牌 —— 那会把令牌发到服务端与 Referer"
    );
    for call in [
        "fetch(apiPath('./api/goal?action=advance'))",
        "fetch(apiPath('./api/goal?action=' + action))",
        "fetch(apiPath('./api/goal'), { method: 'POST', body: text })",
        "fetch(apiPath('./api/turn'), { method: 'POST', body: text })",
        "new EventSource(apiPath('./api/events'))",
    ] {
        assert!(html.contains(call), "页面请求未接令牌：{call}");
    }
    // 审批那一条是拼接的，单独查
    assert!(
        html.contains("fetch(apiPath('./api/approve?id='"),
        "审批请求未接令牌"
    );
    // EventSource 不能设自定义头 —— 这正是选 query 而非头的原因
    assert!(
        !html.contains("new EventSource('./api/events')"),
        "SSE 必须走 apiPath（EventSource 设不了请求头）"
    );
}
