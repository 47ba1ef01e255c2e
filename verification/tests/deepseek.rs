use neo::deepseek::{decode_chunked, preview_text, try_decode_chunked};

#[test]
fn decodes_a_single_chunk() {
    let body = "1d1\r\n{\"ok\":true}\r\n0\r\n\r\n";
    // 长度按其真实字节数算，避免手写错误
    let payload = "{\"ok\":true}";
    let manual = format!("{:x}\r\n{payload}\r\n0\r\n\r\n", payload.len());
    assert_eq!(decode_chunked(&manual).unwrap(), payload);
    let _ = body;
}

#[test]
fn decodes_multiple_chunks_and_concatenates() {
    let a = "{\"a\":";
    let b = "1}";
    let raw = format!(
        "{:x}\r\n{a}\r\n{:x}\r\n{b}\r\n0\r\n\r\n",
        a.len(),
        b.len()
    );
    assert_eq!(decode_chunked(&raw).unwrap(), "{\"a\":1}");
}

#[test]
fn tolerates_chunk_extensions_and_trailers() {
    // 有些实现会在长度后带 `;ext`，结束块后带 trailer —— 都要能跳过
    let p = "{\"x\":1}";
    let raw = format!("{:x};ext=1\r\n{p}\r\n0\r\nX-Trace: abc\r\n\r\n", p.len());
    assert_eq!(decode_chunked(&raw).unwrap(), p);
}

#[test]
fn handles_uppercase_hex_lengths() {
    let p = "A".repeat(0x1A);
    let raw = format!("1A\r\n{p}\r\n0\r\n\r\n");
    assert_eq!(decode_chunked(&raw).unwrap(), p);
}

#[test]
fn decodes_a_realistic_api_response_prefix() {
    // 真实响应实测以 `1d1\r\n{...` 开头；这里用缩小的等价结构
    let json = r#"{"id":"x","object":"chat.completion","choices":[{"message":{"content":"你好"}}]}"#;
    let raw = format!("{:x}\r\n{json}\r\n0\r\n\r\n", json.len());
    let decoded = decode_chunked(&raw).unwrap();
    assert_eq!(decoded, json);
    // 解出来的必须是合法 JSON（这才是最初的目的）
    assert!(serde_json::from_str::<serde_json::Value>(&decoded).is_ok());
}

#[test]
fn chunked_decoding_is_what_makes_json_parse_work() {
    // 正向证明：不解码则 JSON 解析失败（复现真实报错），解码后成功。
    let json = r#"{"ok":true}"#;
    let raw = format!("{:x}\r\n{json}\r\n0\r\n\r\n", json.len());
    assert!(
        serde_json::from_str::<serde_json::Value>(&raw).is_err(),
        "原始 chunked 文本不该能当 JSON 解析（这正是修复前的症状）"
    );
    let decoded = decode_chunked(&raw).unwrap();
    assert!(serde_json::from_str::<serde_json::Value>(&decoded).is_ok());
}

#[test]
fn malformed_chunked_is_an_error_not_a_silent_truncation() {
    // 声明长度超过实际数据：必须报错，不能悄悄给一段截断的 JSON
    let raw = "100\r\nshort\r\n0\r\n\r\n";
    assert!(decode_chunked(raw).is_err(), "声明 256 字节但只有 5 字节，应报错");
    // 长度不是十六进制
    assert!(decode_chunked("zz\r\ndata\r\n").is_err());
}

#[test]
fn oversized_chunk_is_rejected_before_allocating() {
    // 内存有界：异常大的单块声明要在分配前拒绝
    let raw = "7fffffff\r\nx\r\n0\r\n\r\n";
    let err = decode_chunked(raw).unwrap_err();
    assert!(err.contains("上限"), "应提示超过上限：{err}");
}

#[test]
fn empty_body_is_an_empty_chunk_stream() {
    assert_eq!(decode_chunked("0\r\n\r\n").unwrap(), "");
}

#[test]
fn preview_text_is_printable_and_bounded() {
    let got = preview_text("HTTP/1.1 200 OK\u{0007}\u{0001}body");
    assert!(!got.contains('\u{0007}'), "控制字符必须替换：{got:?}");
    assert!(got.contains("HTTP/1.1 200 OK"));
    assert!(preview_text("a\nb").contains('\n'), "换行要保留");
    assert!(preview_text(&"x".repeat(5000)).chars().count() <= 200, "预览要有上限");
}


#[test]
fn chunk_faults_carry_their_numbers() {
    assert_eq!(
        decode_chunked("7fffffff\r\nx\r\n").unwrap_err(),
        "chunked 单块长度 2147483647 超出上限 16777216"
    );
    assert_eq!(
        decode_chunked("10\r\nshort").unwrap_err(),
        "chunked 数据不完整：声明 16 字节但剩余不足"
    );
    assert_eq!(decode_chunked("junk").unwrap_err(), "chunked 响应格式错误：块头缺少 CRLF");
    // whitespace after the last chunk is a clean end; so is a bare CRLF size line
    assert_eq!(decode_chunked("2\r\nab\r\n  ").unwrap(), "ab");
    assert_eq!(decode_chunked("2\r\nab\r\n\r\n").unwrap(), "ab");
    assert!(try_decode_chunked("1\r\n你").is_none());
}

#[test]
fn success_is_exactly_2xx() {
    assert!(neo::deepseek::is_success(200));
    assert!(neo::deepseek::is_success(299));
    assert!(!neo::deepseek::is_success(199));
    assert!(!neo::deepseek::is_success(300));
    assert!(!neo::deepseek::is_success(404));
}
