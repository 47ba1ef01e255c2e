//! JSON-RPC 2.0 messages from an MCP server: which lines are responses,
//! which are errors, and which are notifications to drop.
//!
//! A line is decoded by the caller into a [`Message`] that holds what the
//! client reads of it (the `result` payload is carried as it was decoded).
use vstd::prelude::*;
use crate::text::owned;

verus! {

/// The protocol version of the stdio transport (one version, no
/// negotiation: a mismatch is an explicit error).
pub const PROTOCOL_VERSION: &'static str = "2024-11-05";

/// The `error` member of a response, as far as it is read.
pub struct ErrorField {
    /// `code` when it is an integer that fits in `i64`.
    pub code: Option<i64>,
    /// `message` when it is a string.
    pub message: Option<String>,
}

/// One line from the server.
pub struct Message<T> {
    /// The line is a JSON object.
    pub is_object: bool,
    /// It has a `method` member (a request or notification to the client).
    pub has_method: bool,
    /// `id` when it is an unsigned integer.
    pub id: Option<u64>,
    /// The `error` member, when present.
    pub error: Option<ErrorField>,
    /// The `result` member (`None`: absent, which reads as JSON null).
    pub result: Option<T>,
}

/// A response: a result or an error.
#[derive(Debug, PartialEq, Eq)]
#[allow(inconsistent_fields)]
pub enum Response<T> {
    /// A result for request `id`.
    Success { id: u64, result: Option<T> },
    /// An error, for request `id` when the server named one.
    Failure { id: Option<u64>, code: i64, message: String },
}

/// The text of an error response's message.
pub open spec fn error_message_of(e: ErrorField) -> Seq<char> {
    match e.message {
        Some(s) => s@,
        None => "（服务器未给错误说明）"@,
    }
}

/// What a line means: not an object is a protocol error; anything with a
/// method is dropped (`None`); an error member makes an error response
/// (code -32603 and a placeholder text when they are missing); otherwise a
/// result response, which must carry an id.
pub fn parse_message<T>(m: Message<T>) -> (r: Result<Option<Response<T>>, String>)
    ensures
        !m.is_object ==> (r matches Err(e) && e@ == "消息必须是 JSON 对象"@),
        m.is_object && m.has_method ==> r matches Ok(None),
        m.is_object && !m.has_method && m.error is Some ==> (r matches Ok(
            Some(Response::Failure { id, code, message }),
        ) && id == m.id && code == (match m.error->0.code {
            Some(c) => c,
            None => -32603i64,
        }) && message@ == error_message_of(m.error->0)),
        m.is_object && !m.has_method && m.error is None && m.id is None ==> (r matches Err(e)
            && e@ == "成功响应缺少 id"@),
        m.is_object && !m.has_method && m.error is None && m.id is Some ==> (r matches Ok(
            Some(Response::Success { id, result }),
        ) && id == m.id->0 && result == m.result),
{
    if !m.is_object {
        return Err(owned("消息必须是 JSON 对象"));
    }
    if m.has_method {
        return Ok(None);
    }
    match m.error {
        Some(e) => {
            let code = match e.code {
                Some(c) => c,
                None => -32603,
            };
            let message = match e.message {
                Some(s) => s,
                None => owned("（服务器未给错误说明）"),
            };
            Ok(Some(Response::Failure { id: m.id, code, message }))
        },
        None => match m.id {
            None => Err(owned("成功响应缺少 id")),
            Some(id) => Ok(Some(Response::Success { id, result: m.result })),
        },
    }
}

} // verus!
