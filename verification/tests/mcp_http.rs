use neo::mcp::http::{decode_chunked, parse_response, sse_data_lines, try_decode_chunked, MAX_RESPONSE_BYTES};


#[test]
fn parses_plain_json_response() {
    let raw = "HTTP/1.1 200 OK\r\nContent-Type: application/json\r\nContent-Length: 2\r\n\r\n{}";
    let r = parse_response(raw).unwrap();
    assert_eq!(r.status, 200);
    assert_eq!(r.header("content-type"), Some("application/json"));
    assert_eq!(r.body, "{}");
}

#[test]
fn decodes_chunked_bodies() {
    // 5 字节 "hello" + 2 字节 "hi" + 终止块
    let raw = "HTTP/1.1 200 OK\r\nTransfer-Encoding: chunked\r\n\r\n\
               5\r\nhello\r\n2\r\nhi\r\n0\r\n\r\n";
    let r = parse_response(raw).unwrap();
    assert_eq!(r.body, "hellohi");
}

#[test]
fn chunked_with_extensions_and_trailer() {
    let raw = "HTTP/1.1 200 OK\r\nTransfer-Encoding: chunked\r\n\r\n\
               3;ext=1\r\nabc\r\n0\r\nX-Trailer: y\r\n\r\n";
    let r = parse_response(raw).unwrap();
    assert_eq!(r.body, "abc");
}

#[test]
fn response_size_is_bounded() {
    let big = "x".repeat(MAX_RESPONSE_BYTES + 1);
    let raw = format!("HTTP/1.1 200 OK\r\nContent-Length: {}\r\n\r\n{big}", big.len());
    assert!(parse_response(&raw).is_err(), "超限响应必须报错");
}

#[test]
fn extracts_data_lines_from_sse() {
    let body = ": keepalive\n\
                event: message\n\
                data: {\"jsonrpc\":\"2.0\",\"id\":1}\n\
                \n\
                data: {\"jsonrpc\":\"2.0\",\"id\":2}\n\n";
    let lines = sse_data_lines(body);
    assert_eq!(lines, vec![
        r#"{"jsonrpc":"2.0","id":1}"#,
        r#"{"jsonrpc":"2.0","id":2}"#,
    ]);
}

#[test]
fn chunked_errors_name_their_cause() {
    assert_eq!(decode_chunked("5\r\nabc").unwrap_err(), "chunked 格式错误：块不完整");
    assert_eq!(decode_chunked("no crlf").unwrap_err(), "chunked 格式错误：缺少块长行");
    assert_eq!(decode_chunked("zz\r\n").unwrap_err(), "chunked 块长无法解析：\"zz\"");
    assert_eq!(decode_chunked("100001\r\nx").unwrap_err(), "chunked 内容超过响应上限");
    // sizes count bytes, so a multi-byte character is taken whole
    assert_eq!(decode_chunked("3\r\n你\r\n0\r\n\r\n").unwrap(), "你");
    // a size that ends inside a character is reported, never cut
    assert!(try_decode_chunked("2\r\n你\r\n0\r\n\r\n").is_none());
}

#[test]
fn malformed_heads_are_refused() {
    assert_eq!(parse_response("HTTP/1.1 200 OK").err().unwrap(), "响应缺少头/体分隔");
    assert_eq!(parse_response("\r\n\r\nbody").err().unwrap(), "响应为空");
    assert_eq!(parse_response("HTTP/1.1 abc\r\n\r\n").err().unwrap(), "状态行无法解析：HTTP/1.1 abc");
    let r = parse_response("HTTP/1.1 404 Not Found\r\nX-A:  b \r\nnocolon\r\n\r\n").unwrap();
    assert_eq!(r.status, 404);
    assert_eq!(r.headers.len(), 1);
    assert_eq!(r.header("X-a"), Some("b"));
    assert_eq!(r.header("missing"), None);
    assert!(MAX_RESPONSE_BYTES == 1024 * 1024);
}
