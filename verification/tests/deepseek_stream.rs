use neo::deepseek::stream::{
    completion_deltas, Choice, Completion, CompletionCall, CompletionMessage, Delta, Fragment, Ingest,
    Output, SseEvent, SseStream,
};
use neo::deepseek::{error_text, head_step, parse_head, try_decode_chunked, HeadStep, Payload, PayloadReader};
use serde_json::Value;

fn opt_str(v: Option<&Value>) -> Option<String> {
    v.and_then(|x| x.as_str()).map(|s| s.to_string())
}

fn event_of(v: &Value) -> SseEvent {
    let error = v.get("error").map(|e| opt_str(e.get("message")).unwrap_or_else(|| "未知错误".to_string()));
    let choice = v.get("choices").and_then(|c| c.get(0)).map(|ch| Choice {
        delta: ch.get("delta").map(|d| {
            let frags = d
                .get("tool_calls")
                .and_then(|c| c.as_array())
                .map(|fs| {
                    fs.iter()
                        .map(|f| Fragment {
                            index: f.get("index").and_then(|i| i.as_u64()).unwrap_or(0) as usize,
                            id: opt_str(f.get("id")),
                            function: f.get("function").map(|func| (opt_str(func.get("name")), opt_str(func.get("arguments")))),
                        })
                        .collect()
                })
                .unwrap_or_default();
            (opt_str(d.get("reasoning_content")), opt_str(d.get("content")), frags)
        }),
        finished: ch.get("finish_reason").and_then(|f| f.as_str()).is_some(),
    });
    let usage = v.get("usage").filter(|u| !u.is_null()).map(|u| {
        (
            u.get("prompt_tokens").and_then(|t| t.as_u64()).unwrap_or(0),
            u.get("completion_tokens").and_then(|t| t.as_u64()).unwrap_or(0),
        )
    });
    SseEvent { error, choice, usage }
}

fn completion_of(text: &str) -> Result<Vec<Delta>, String> {
    let v: Value = serde_json::from_str(text).map_err(|e| format!("响应不是合法 JSON：{e}"))?;
    let c = Completion {
        error: v.get("error").map(|e| opt_str(e.get("message")).unwrap_or_else(|| "未知错误".to_string())),
        choice: v.get("choices").and_then(|c| c.get(0)).map(|ch| {
            ch.get("message").map(|m| CompletionMessage {
                reasoning: opt_str(m.get("reasoning_content")),
                content: opt_str(m.get("content")),
                tool_calls: m.get("tool_calls").and_then(|c| c.as_array()).map(|cs| {
                    cs.iter()
                        .map(|call| CompletionCall {
                            id: opt_str(call.get("id")),
                            function: call.get("function").map(|f| (opt_str(f.get("name")), opt_str(f.get("arguments")))),
                        })
                        .collect()
                }),
            })
        }),
        usage: v.get("usage").map(|u| {
            (
                u.get("prompt_tokens").and_then(|t| t.as_u64()).unwrap_or(0),
                u.get("completion_tokens").and_then(|t| t.as_u64()).unwrap_or(0),
            )
        }),
    };
    completion_deltas(&c)
}

/// Runs a whole raw response through the head reader, the chunk decoder
/// and the stream, decoding each event's JSON as the host does.
fn stream_deltas(raw: Vec<u8>) -> Vec<Delta> {
    let mut st = SseStream::new();
    let mut out = Vec::new();
    let mut pos = 0usize;
    let mut next = |pos: &mut usize| -> Option<u8> {
        let b = raw.get(*pos).copied();
        if b.is_some() {
            *pos += 1;
        }
        b
    };
    let mut head = Vec::new();
    let opened = loop {
        match head_step(&mut head, next(&mut pos)) {
            HeadStep::More => {}
            HeadStep::Done => break parse_head(&head),
            HeadStep::Fail(m) => break Err(m),
        }
    };
    let mut reader = match opened {
        Ok((status, chunked)) if (200..300).contains(&status) => Some(PayloadReader::new(chunked)),
        Ok((status, chunked)) => {
            let rest = String::from_utf8_lossy(&raw[pos..]).into_owned();
            let ok = !chunked || try_decode_chunked(&rest).is_some();
            assert!(ok);
            st.finish_json(Err(error_text(status, chunked, &rest)));
            None
        }
        Err(e) => {
            st.finish_json(Err(e));
            None
        }
    };
    loop {
        match st.next_output() {
            Output::Delta(d) => out.push(d),
            Output::Finished => return out,
            Output::NeedInput => {
                let r = reader.as_mut().unwrap();
                let mut batch = Vec::new();
                let mut ended = false;
                if r.chunked {
                    loop {
                        match r.feed(next(&mut pos)) {
                            Payload::Byte(b) => {
                                batch.push(b);
                                break;
                            }
                            Payload::More => {}
                            Payload::End => {
                                ended = true;
                                break;
                            }
                            Payload::Fail(e) => {
                                st.finish_json(Err(e));
                                ended = true;
                                break;
                            }
                        }
                    }
                } else {
                    while let Some(b) = next(&mut pos) {
                        batch.push(b);
                    }
                    if batch.is_empty() {
                        ended = true;
                    }
                }
                if !batch.is_empty() {
                    let mut from = 0;
                    loop {
                        match st.ingest_from(&batch, from) {
                            Ingest::Done => break,
                            Ingest::Payload { text, next } => {
                                match serde_json::from_str::<Value>(&text) {
                                    Ok(v) => st.handle_event(&event_of(&v)),
                                    Err(_) => st.bad_json(&text),
                                }
                                from = next;
                            }
                            Ingest::Fail(e) => {
                                st.finish_json(Err(e));
                                break;
                            }
                        }
                    }
                } else if ended && !st.done {
                    if st.finish_stream() {
                        let text = String::from_utf8_lossy(&st.json_buf).into_owned();
                        st.finish_json(completion_of(&text));
                    }
                }
            }
        }
    }
}

fn chunked_response(body: &str, sizes: &[usize]) -> Vec<u8> {
    let mut raw = String::from(
        "HTTP/1.1 200 OK\r\nContent-Type: text/event-stream\r\nTransfer-Encoding: chunked\r\n\r\n",
    );
    let mut rest = body;
    let mut i = 0;
    while !rest.is_empty() {
        let mut n = sizes[i % sizes.len()].min(rest.len());
        while n < rest.len() && !rest.is_char_boundary(n) {
            n += 1;
        }
        i += 1;
        raw.push_str(&format!("{:x}\r\n{}\r\n", n, &rest[..n]));
        rest = &rest[n..];
    }
    raw.push_str("0\r\n\r\n");
    raw.into_bytes()
}

fn sse_body(events: &[&str]) -> String {
    events.iter().map(|e| format!("data: {e}\n\n")).collect()
}

#[test]
fn sse_stream_yields_reasoning_then_text_deltas() {
    let body = &sse_body(&[
        r#"{"id":"1","choices":[{"index":0,"delta":{"role":"assistant","reasoning_content":"先看"}}]}"#,
        r#"{"id":"1","choices":[{"index":0,"delta":{"reasoning_content":"依赖方向。"}}]}"#,
        r#"{"id":"1","choices":[{"index":0,"delta":{"content":"结论："}}]}"#,
        r#"{"id":"1","choices":[{"index":0,"delta":{"content":"合法。"},"finish_reason":"stop"}]}"#,
        r#"{"id":"1","choices":[],"usage":{"prompt_tokens":3,"completion_tokens":2}}"#,
        "[DONE]",
    ]);
    let d = stream_deltas(chunked_response(body, &[13]));
    assert_eq!(
        d,
        vec![
            Delta::Reasoning("先看".into()),
            Delta::Reasoning("依赖方向。".into()),
            Delta::Text("结论：".into()),
            Delta::Text("合法。".into()),
            Delta::Usage { input_tokens: 3, output_tokens: 2 },
        ],
        "增量必须按到达顺序实时产出：{d:?}"
    );
}

#[test]
fn sse_tool_call_fragments_are_accumulated_by_index() {
    let body = &sse_body(&[
        r#"{"choices":[{"index":0,"delta":{"tool_calls":[{"index":0,"id":"c1","type":"function","function":{"name":"bash","arguments":""}}]}}]}"#,
        r#"{"choices":[{"index":0,"delta":{"tool_calls":[{"index":0,"function":{"arguments":"{\"cmd\":"}}]}}]}"#,
        r#"{"choices":[{"index":0,"delta":{"tool_calls":[{"index":0,"function":{"arguments":"\"ls\"}"}}]}}]}"#,
        r#"{"choices":[{"index":0,"delta":{},"finish_reason":"tool_calls"}]}"#,
        r#"{"choices":[],"usage":{"prompt_tokens":1,"completion_tokens":1}}"#,
        "[DONE]",
    ]);
    let d = stream_deltas(chunked_response(body, &[29]));
    assert_eq!(d.len(), 2, "分片应聚合成一次完整工具调用：{d:?}");
    match &d[0] {
        Delta::ToolCall { id, name, args } => {
            assert_eq!(id, "c1");
            assert_eq!(name, "bash");
            let v: Value = serde_json::from_str(args).unwrap();
            assert_eq!(v["cmd"], "ls");
        }
        other => panic!("应解析出工具调用，实际 {other:?}"),
    }
    assert!(matches!(&d[1], Delta::Usage { input_tokens: 1, output_tokens: 1 }));
}

#[test]
fn sse_ignores_comment_and_event_lines() {
    let body = ": keep-alive\nevent: ping\ndata: {\"choices\":[{\"index\":0,\"delta\":{\"content\":\"好\"}}]}\n\ndata: [DONE]\n\n";
    let d = stream_deltas(chunked_response(body, &[11]));
    assert_eq!(d, vec![Delta::Text("好".into())], "{d:?}");
}

#[test]
fn json_fallback_when_gateway_ignores_stream_flag() {
    let raw = "HTTP/1.1 200 OK\r\nContent-Type: application/json\r\n\r\n{\"choices\":[{\"message\":{\"reasoning_content\":\"想\",\"content\":\"答\"}}]}".as_bytes().to_vec();
    let d = stream_deltas(raw);
    assert_eq!(d, vec![Delta::Reasoning("想".into()), Delta::Text("答".into())], "{d:?}");
}

#[test]
fn http_error_surfaces_as_provider_error_text() {
    let raw = "HTTP/1.1 401 Unauthorized\r\nContent-Type: application/json\r\n\r\n{\"error\":{\"message\":\"invalid api key\"}}".as_bytes().to_vec();
    let d = stream_deltas(raw);
    assert_eq!(d.len(), 1);
    match &d[0] {
        Delta::Text(t) => {
            assert!(t.contains("[provider 错误] HTTP 401"), "{t}");
            assert!(t.contains("invalid api key"), "错误原因必须可见：{t}");
        }
        other => panic!("应透出错误增量，实际 {other:?}"),
    }
}

#[test]
fn truncated_stream_is_an_error_not_silent_partial() {
    let body = "data: {\"choices\":[{\"index\":0,\"delta\":{\"content\":\"写了一半\"}}]}\n\n";
    let d = stream_deltas(chunked_response(body, &[9]));
    assert!(matches!(&d[0], Delta::Text(t) if t == "写了一半"), "{d:?}");
    let last = d.last().expect("应有错误增量");
    assert!(
        matches!(last, Delta::Text(t) if t.contains("连接在响应完成前关闭")),
        "断流必须显式报错：{d:?}"
    );
}

#[test]
fn empty_response_is_an_error_like_the_batched_path() {
    let d = stream_deltas(chunked_response("", &[1]));
    assert!(matches!(&d[0], Delta::Text(t) if t.contains("响应为空")), "{d:?}");
}

#[test]
fn parses_a_plain_text_completion() {
    let body = r#"{"choices":[{"message":{"content":"hello"}}],"usage":{"prompt_tokens":3,"completion_tokens":1}}"#;
    let d = completion_of(body).unwrap();
    assert!(matches!(&d[0], Delta::Text(t) if t == "hello"));
    assert!(matches!(d.last(), Some(Delta::Usage { input_tokens: 3, output_tokens: 1 })));
}

#[test]
fn parses_a_tool_call_with_stringified_arguments() {
    let body = r#"{"choices":[{"message":{"content":null,"tool_calls":[{"id":"c1","type":"function","function":{"name":"bash","arguments":"{\"cmd\":\"ls\"}"}}]}}]}"#;
    let d = completion_of(body).unwrap();
    match &d[0] {
        Delta::ToolCall { id, name, args } => {
            assert_eq!(name, "bash");
            let v: Value = serde_json::from_str(args).unwrap();
            assert_eq!(v["cmd"], "ls");
            assert_eq!(id, "c1");
        }
        other => panic!("应解析出工具调用，实际 {other:?}"),
    }
}

#[test]
fn surfaces_a_model_side_error() {
    let body = r#"{"error":{"message":"invalid api key"}}"#;
    let e = completion_of(body).unwrap_err();
    assert!(e.contains("invalid api key"), "应透出模型侧错误：{e}");
}

#[test]
fn rejects_a_response_without_choices() {
    assert!(completion_of(r#"{"id":"x"}"#).is_err());
}

#[test]
fn parses_reasoning_content_into_a_reasoning_delta() {
    let body = r#"{"choices":[{"message":{
        "reasoning_content":"先看依赖方向。","content":"结论：合法。"}}]}"#;
    let deltas = completion_of(body).unwrap();
    assert!(
        deltas.iter().any(|d| matches!(d, Delta::Reasoning(t) if t.contains("依赖方向"))),
        "必须把 reasoning_content 解析成 Reasoning 增量：{deltas:?}"
    );
    let ri = deltas.iter().position(|d| matches!(d, Delta::Reasoning(_))).unwrap();
    let ti = deltas.iter().position(|d| matches!(d, Delta::Text(_))).unwrap();
    assert!(ri < ti, "推理应排在正文之前");
    let plain = r#"{"choices":[{"message":{"content":"hi"}}]}"#;
    assert!(!completion_of(plain).unwrap().iter().any(|d| matches!(d, Delta::Reasoning(_))));
}

#[test]
fn completion_errors_name_what_is_missing() {
    let c = Completion { error: None, choice: Some(None), usage: None };
    assert_eq!(completion_deltas(&c), Err("choices[0] 缺少 message".to_string()));
    let call = CompletionCall { id: None, function: Some((None, None)) };
    let msg = CompletionMessage { reasoning: None, content: Some(String::new()), tool_calls: Some(vec![call]) };
    let c = Completion { error: None, choice: Some(Some(msg)), usage: None };
    assert_eq!(completion_deltas(&c), Err("function 缺少 name".to_string()));
    let call = CompletionCall { id: None, function: Some((Some("f".into()), None)) };
    let msg = CompletionMessage { reasoning: None, content: None, tool_calls: Some(vec![call]) };
    let c = Completion { error: None, choice: Some(Some(msg)), usage: Some((0, 0)) };
    assert_eq!(
        completion_deltas(&c),
        Ok(vec![
            Delta::ToolCall { id: "call-unknown".into(), name: "f".into(), args: "{}".into() },
            Delta::Usage { input_tokens: 0, output_tokens: 0 },
        ])
    );
}

#[test]
fn chunk_reader_frames_and_fails() {
    let mut r = PayloadReader::new(true);
    let mut got = Vec::new();
    for b in b"3;ext=1\r\nabc\r\n0\r\n".iter() {
        match r.feed(Some(*b)) {
            Payload::Byte(x) => got.push(x),
            Payload::More => {}
            Payload::End => break,
            Payload::Fail(e) => panic!("{e}"),
        }
    }
    assert_eq!(got, b"abc");
    assert!(r.finished);
    assert_eq!(r.feed(None), Payload::End);
    let mut r = PayloadReader::new(true);
    for b in b"zz" {
        assert_eq!(r.feed(Some(*b)), Payload::More);
    }
    assert_eq!(r.feed(Some(b'\n')), Payload::Fail("chunked 块长度不是合法十六进制：\"zz\"".to_string()));
    let mut r = PayloadReader::new(true);
    for b in b"2000000\r" {
        r.feed(Some(*b));
    }
    assert_eq!(r.feed(Some(b'\n')), Payload::Fail("chunked 单块长度 33554432 超出上限 16777216".to_string()));
    let mut r = PayloadReader::new(true);
    assert_eq!(r.feed(Some(b'5')), Payload::More);
    assert_eq!(r.feed(None), Payload::Fail("chunked 数据不完整：连接提前关闭".to_string()));
    let mut r = PayloadReader::new(true);
    for _ in 0..64 {
        assert_eq!(r.feed(Some(b'1')), Payload::More);
    }
    assert_eq!(r.feed(Some(b'1')), Payload::Fail("chunked 块长行异常过长".to_string()));
}

#[test]
fn head_reader_finds_status_and_chunking() {
    let mut head = Vec::new();
    let raw = b"HTTP/1.1 200 OK\r\nTransfer-Encoding: Chunked\r\n\r\n";
    for (i, b) in raw.iter().enumerate() {
        let step = head_step(&mut head, Some(*b));
        if i + 1 < raw.len() {
            assert_eq!(step, HeadStep::More);
        } else {
            assert_eq!(step, HeadStep::Done);
        }
    }
    assert_eq!(parse_head(&head), Ok((200, true)));
    assert_eq!(parse_head(b"HTTP/1.1 404 Not Found\r\n\r\n"), Ok((404, false)));
    assert!(parse_head(b"garbage\r\n\r\n").unwrap_err().starts_with("无法解析 HTTP 状态行："));
    let mut head = Vec::new();
    assert_eq!(head_step(&mut head, None), HeadStep::Fail("未收到 HTTP 响应（连接提前关闭）".to_string()));
}
