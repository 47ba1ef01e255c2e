//! The DeepSeek-compatible client's byte-level pieces: chunked transfer
//! decoding of a whole response (with a per-chunk limit) and the printable
//! preview of a response used in error messages.
use vstd::prelude::*;

pub mod stream;
pub mod request;

use crate::text::{chars_of, trim, starts_with, push_str, push_char, string_of, sub_chars,
    append_chars, owned};
use crate::lines::text_lines_exec;
use crate::framing::{utf8_len, utf8_len_exec, byte_prefix, byte_prefix_exec, lemma_byte_prefix,
    first_crlf, find_crlf, lemma_first_crlf_bound, before_semicolon, before_semicolon_exec,
    parse_hex, parse_hex_exec, debug_quoted, push_debug, dec_of, push_dec};

verus! {

/// Largest chunk accepted (16 MiB): a bad response must not make us
/// reserve a huge buffer.
pub const MAX_CHUNK: usize = 16777216;

/// Why a chunked response is refused.
pub enum ChunkFault {
    /// Text left over that is no size line.
    NoCrlf,
    /// The size is not hexadecimal (the offending text).
    BadHex(Seq<char>),
    /// A chunk larger than `MAX_CHUNK` (its size).
    TooBig(int),
    /// Less data than a chunk's size (its size).
    Short(int),
}

/// How decoding ends.
pub enum Decoded {
    Done(Seq<char>),
    Failed(ChunkFault),
    /// A chunk size ends inside a multi-byte character.
    Splits,
}

pub open spec fn crlf() -> Seq<char> {
    seq!['\r', '\n']
}

/// Decode chunks from `rest` after `out`: a size line of hexadecimal with
/// optional `;extensions`; an empty size line or size zero ends the body,
/// and so does running out of size lines when only whitespace is left.
pub open spec fn decode_from(rest: Seq<char>, out: Seq<char>) -> Decoded
    decreases rest.len(),
{
    match first_crlf(rest) {
        None => if trim(rest).len() == 0 {
            Decoded::Done(out)
        } else {
            Decoded::Failed(ChunkFault::NoCrlf)
        },
        Some(nl) => {
            let size_hex = trim(before_semicolon(rest.take(nl)));
            let after = rest.skip(nl + 2);
            if size_hex.len() == 0 {
                Decoded::Done(out)
            } else {
                match parse_hex(size_hex, usize::MAX as int) {
                    None => Decoded::Failed(ChunkFault::BadHex(size_hex)),
                    Some(size) => if size > MAX_CHUNK {
                        Decoded::Failed(ChunkFault::TooBig(size))
                    } else if size == 0 {
                        Decoded::Done(out)
                    } else if utf8_len(after) < size {
                        Decoded::Failed(ChunkFault::Short(size))
                    } else {
                        match byte_prefix(after, size) {
                            None => Decoded::Splits,
                            Some(k) => {
                                proof {
                                    lemma_first_crlf_bound(rest);
                                    lemma_byte_prefix(after, size);
                                }
                                let rest2 = after.skip(k);
                                let rest3 = if starts_with(rest2, crlf()) {
                                    rest2.skip(2)
                                } else {
                                    rest2
                                };
                                decode_from(rest3, out + after.take(k))
                            },
                        }
                    },
                }
            }
        },
    }
}

/// The error text for a refused chunked response.
pub open spec fn fault_message(f: ChunkFault) -> Seq<char> {
    match f {
        ChunkFault::NoCrlf => "chunked 响应格式错误：块头缺少 CRLF"@,
        ChunkFault::BadHex(s) => "chunked 块长度不是合法十六进制："@ + debug_quoted(s),
        ChunkFault::TooBig(n) => "chunked 单块长度 "@ + dec_of(n as nat) + " 超出上限 16777216"@,
        ChunkFault::Short(n) => "chunked 数据不完整：声明 "@ + dec_of(n as nat) + " 字节但剩余不足"@,
    }
}

/// Decode a chunked response; `None` where a chunk size ends inside a
/// character.
pub fn try_decode_chunked(body: &str) -> (r: Option<Result<String, String>>)
    ensures
        match decode_from(body@, Seq::empty()) {
            Decoded::Done(s) => r matches Some(Ok(t)) && t@ == s,
            Decoded::Failed(f) => r matches Some(Err(m)) && m@ == fault_message(f),
            Decoded::Splits => r is None,
        },
{
    let v = chars_of(body);
    let n = v.len();
    let mut pos: usize = 0;
    let mut out: Vec<char> = Vec::new();
    assert(v@.skip(0) =~= v@);
    while pos <= n
        invariant
            pos <= n,
            n == v@.len(),
            v@ == body@,
            decode_from(body@, Seq::empty()) == decode_from(v@.skip(pos as int), out@),
        decreases n - pos,
    {
        let ghost rest = v@.skip(pos as int);
        let tail = sub_chars(v.as_slice(), pos, n);
        assert(tail@ =~= rest);
        let nl = match find_crlf(tail.as_slice()) {
            Some(i) => i,
            None => {
                let (a, b) = crate::text::trim_range(tail.as_slice());
                if a == b {
                    return Some(Ok(string_of(out.as_slice())));
                }
                return Some(Err(owned("chunked 响应格式错误：块头缺少 CRLF")));
            },
        };
        let line = sub_chars(tail.as_slice(), 0, nl);
        let semi = before_semicolon_exec(line.as_slice());
        let (a, b) = crate::text::trim_range(semi.as_slice());
        let size_v = sub_chars(semi.as_slice(), a, b);
        if size_v.len() == 0 {
            return Some(Ok(string_of(out.as_slice())));
        }
        let size = match parse_hex_exec(size_v.as_slice(), usize::MAX) {
            Some(s) => s,
            None => {
                let mut m = owned("chunked 块长度不是合法十六进制：");
                let sv = string_of(size_v.as_slice());
                push_debug(&mut m, sv.as_str());
                return Some(Err(m));
            },
        };
        if size > MAX_CHUNK {
            let mut m = owned("chunked 单块长度 ");
            push_dec(&mut m, size as u64);
            push_str(&mut m, " 超出上限 16777216");
            return Some(Err(m));
        }
        if size == 0 {
            return Some(Ok(string_of(out.as_slice())));
        }
        let after = sub_chars(tail.as_slice(), nl + 2, tail.len());
        assert(after@ =~= rest.skip(nl + 2));
        if utf8_len_exec(after.as_slice()) < size {
            let mut m = owned("chunked 数据不完整：声明 ");
            push_dec(&mut m, size as u64);
            push_str(&mut m, " 字节但剩余不足");
            return Some(Err(m));
        }
        let k = match byte_prefix_exec(after.as_slice(), size) {
            Some(k) => k,
            None => return None,
        };
        proof {
            lemma_byte_prefix(after@, size as int);
            lemma_first_crlf_bound(rest);
        }
        let chunk = sub_chars(after.as_slice(), 0, k);
        assert(chunk@ =~= after@.take(k as int));
        let ghost out0 = out@;
        append_chars(&mut out, chunk.as_slice());
        let mut next = pos + nl + 2 + k;
        let ghost rest2 = after@.skip(k as int);
        assert(rest2 =~= v@.skip(next as int));
        if next < n && n - next >= 2 && v[next] == '\r' && v[next + 1] == '\n' {
            assert(starts_with(rest2, crlf())) by {
                assert(rest2.take(2) =~= crlf());
            }
            assert(rest2.skip(2) =~= v@.skip(next + 2));
            next = next + 2;
        } else {
            assert(!starts_with(rest2, crlf())) by {
                if starts_with(rest2, crlf()) {
                    assert(rest2.take(2) == crlf());
                    assert(rest2[0] == '\r' && rest2[1] == '\n');
                }
            }
        }
        assert(out@ =~= out0 + after@.take(k as int));
        pos = next;
    }
    None
}

/// Decode an HTTP/1.1 chunked response body. Chunk sizes must end on
/// character boundaries.
pub fn decode_chunked(body: &str) -> (r: Result<String, String>)
    requires
        !(decode_from(body@, Seq::empty()) is Splits),
    ensures
        match decode_from(body@, Seq::empty()) {
            Decoded::Done(s) => r matches Ok(t) && t@ == s,
            Decoded::Failed(f) => r matches Err(m) && m@ == fault_message(f),
            Decoded::Splits => false,
        },
{
    match try_decode_chunked(body) {
        Some(r) => r,
        None => {
            proof {
                assert(false);
            }
            Err(String::new())
        },
    }
}

// ── previews ─────────────────────────────────────────────────────────

/// `char::is_control`: the C0 and C1 control characters.
pub open spec fn is_control(c: char) -> bool {
    (c as u32) < 0x20 || (0x7f <= (c as u32) && (c as u32) <= 0x9f)
}

/// A character as the preview shows it: controls other than line breaks
/// become `.`.
pub open spec fn shown(c: char) -> char {
    if is_control(c) && c != '\n' && c != '\r' {
        '.'
    } else {
        c
    }
}

/// The first 200 characters of `s`, printable.
pub open spec fn preview_of(s: Seq<char>) -> Seq<char> {
    let t = if s.len() > 200 {
        s.take(200)
    } else {
        s
    };
    t.map_values(|c: char| shown(c))
}

/// A printable, bounded preview of a response for error messages.
pub fn preview_text(s: &str) -> (r: String)
    ensures
        r@ == preview_of(s@),
{
    let v = chars_of(s);
    let n = if v.len() > 200 {
        200
    } else {
        v.len()
    };
    let mut r = String::new();
    let mut i: usize = 0;
    while i < n
        invariant
            n <= v@.len(),
            n == if v@.len() > 200 { 200 } else { v@.len() },
            i <= n,
            r@ == v@.take(i as int).map_values(|c: char| shown(c)),
        decreases n - i,
    {
        let c = v[i];
        let u = c as u32;
        let d = if (u < 0x20 || (0x7f <= u && u <= 0x9f)) && c != '\n' && c != '\r' {
            '.'
        } else {
            c
        };
        push_char(&mut r, d);
        assert(v@.take(i + 1) =~= v@.take(i as int).push(c));
        assert(r@ =~= v@.take(i + 1).map_values(|c: char| shown(c)));
        i = i + 1;
    }
    assert(v@.take(n as int) =~= (if v@.len() > 200 { v@.take(200) } else { v@ }));
    r
}

/// A preview never holds more than 200 characters, and no control
/// character other than a line break.
pub proof fn law_preview_bounded_and_printable(s: Seq<char>)
    ensures
        preview_of(s).len() <= 200,
        forall|i: int|
            0 <= i < preview_of(s).len() ==> !is_control(#[trigger] preview_of(s)[i]) || preview_of(
                s,
            )[i] == '\n' || preview_of(s)[i] == '\r',
{
}

// ── reading a streamed response ──────────────────────────────────────

/// Longest response head read.
pub const MAX_HEAD: usize = 65536;

/// Reading the response head, after one more byte.
#[derive(Debug, Clone, PartialEq, Eq)]
pub enum HeadStep {
    /// Keep reading.
    More,
    /// The head ends with the blank line.
    Done,
    /// The head cannot be read (the message).
    Fail(String),
}

pub enum HeadStepModel {
    More,
    Done,
    Fail(Seq<char>),
}

pub open spec fn head_step_view(h: HeadStep) -> HeadStepModel {
    match h {
        HeadStep::More => HeadStepModel::More,
        HeadStep::Done => HeadStepModel::Done,
        HeadStep::Fail(m) => HeadStepModel::Fail(m@),
    }
}

pub open spec fn ends_blank_line(h: Seq<u8>) -> bool {
    h.len() >= 4 && h.subrange(h.len() - 4, h.len() as int) == seq![13u8, 10u8, 13u8, 10u8]
}

/// One read of the head: the connection closing is an error; the byte is
/// kept; more than `MAX_HEAD` bytes is an error; the blank line ends it.
pub open spec fn head_step_spec(head: Seq<u8>, b: Option<u8>) -> (Seq<u8>, HeadStepModel) {
    match b {
        None => (head, HeadStepModel::Fail("未收到 HTTP 响应（连接提前关闭）"@)),
        Some(c) => {
            let h = head.push(c);
            if h.len() > MAX_HEAD {
                (h, HeadStepModel::Fail("HTTP 响应头超过上限"@))
            } else if ends_blank_line(h) {
                (h, HeadStepModel::Done)
            } else {
                (h, HeadStepModel::More)
            }
        },
    }
}

/// Adds one read (`None`: the connection closed) to the head read so far.
pub fn head_step(head: &mut Vec<u8>, b: Option<u8>) -> (r: HeadStep)
    requires
        old(head)@.len() <= MAX_HEAD,
    ensures
        (final(head)@, head_step_view(r)) == head_step_spec(old(head)@, b),
{
    match b {
        None => HeadStep::Fail(owned("未收到 HTTP 响应（连接提前关闭）")),
        Some(c) => {
            head.push(c);
            let n = head.len();
            if n > MAX_HEAD {
                return HeadStep::Fail(owned("HTTP 响应头超过上限"));
            }
            if n >= 4 && head[n - 4] == 13 && head[n - 3] == 10 && head[n - 2] == 13 && head[n - 1] == 10 {
                assert(head@.subrange(n - 4, n as int) =~= seq![13u8, 10u8, 13u8, 10u8]);
                HeadStep::Done
            } else {
                proof {
                    if n >= 4 && ends_blank_line(head@) {
                        assert(head@.subrange(n - 4, n as int)[0] == head@[n - 4]);
                        assert(head@.subrange(n - 4, n as int)[1] == head@[n - 3]);
                        assert(head@.subrange(n - 4, n as int)[2] == head@[n - 2]);
                        assert(head@.subrange(n - 4, n as int)[3] == head@[n - 1]);
                    }
                }
                HeadStep::More
            }
        },
    }
}

/// What `String::from_utf8_lossy` makes of bytes (invalid sequences become
/// U+FFFD).
pub uninterp spec fn utf8_lossy(b: Seq<u8>) -> Seq<char>;

/// Calls `String::from_utf8_lossy`: the text of the bytes, invalid
/// sequences replaced. Only the named result is claimed, and that valid
/// UTF-8 comes back as its own text.
#[verifier::external_body]
pub(crate) fn lossy_string(b: &[u8]) -> (s: String)
    ensures
        s@ == utf8_lossy(b@),
        vstd::utf8::valid_utf8(b@) ==> s@ == vstd::utf8::decode_utf8(b@),
{
    String::from_utf8_lossy(b).into_owned()
}

/// The status code and whether the body is chunked: the status is the
/// second word of the first line; chunked when a line, lower-cased,
/// starts with `transfer-encoding` and mentions `chunked`.
pub open spec fn head_of(text: Seq<char>) -> Result<(int, bool), Seq<char>> {
    let ls = crate::lines::text_lines(text);
    let status = if ls.len() == 0 { None } else { crate::mcp::http::status_of(ls[0]) };
    match status {
        None => Err("无法解析 HTTP 状态行："@ + preview_of(text)),
        Some(st) => Ok((st, exists|i: int| 0 <= i < crate::lines::text_lines(crate::text::ascii_lower(text)).len()
            && te_chunked(#[trigger] crate::lines::text_lines(crate::text::ascii_lower(text))[i]))),
    }
}

pub open spec fn te_chunked(l: Seq<char>) -> bool {
    starts_with(l, "transfer-encoding"@) && crate::text::contains(l, "chunked"@)
}

/// Reads the status and the transfer coding from a complete head (its
/// bytes as read).
pub fn parse_head(head: &[u8]) -> (r: Result<(u16, bool), String>)
    ensures
        match head_of(utf8_lossy(head@)) {
            Ok((st, ch)) => r matches Ok((s2, c2)) && s2 == st && c2 == ch,
            Err(m) => r matches Err(m2) && m2@ == m,
        },
{
    let text = lossy_string(head);
    let ls = text_lines_exec(text.as_str());
    let ghost lsv = crate::lines::lines_view(ls@);
    let status: Option<usize> = if ls.len() == 0 {
        None
    } else {
        let first = &ls[0];
        match crate::text::next_word_exec(first.as_slice()) {
            Some((_, rest)) => match crate::text::next_word_exec(rest.as_slice()) {
                Some((w, _)) => crate::mouse::parse_uint(w.as_slice(), 65535),
                None => None,
            },
            None => None,
        }
    };
    let st = match status {
        Some(st) => st as u16,
        None => {
            let mut m = owned("无法解析 HTTP 状态行：");
            let pv = preview_text(text.as_str());
            push_str(&mut m, pv.as_str());
            return Err(m);
        },
    };
    let tv = chars_of(text.as_str());
    let lower = crate::text::to_ascii_lower(tv.as_slice());
    let lower_s = string_of(lower.as_slice());
    let lls = text_lines_exec(lower_s.as_str());
    let ghost llv = crate::lines::lines_view(lls@);
    let te = chars_of("transfer-encoding");
    let ck = chars_of("chunked");
    let mut chunked = false;
    let mut j: usize = 0;
    while j < lls.len()
        invariant
            j <= lls@.len(),
            llv == crate::lines::lines_view(lls@),
            te@ == "transfer-encoding"@,
            ck@ == "chunked"@,
            chunked == exists|i: int| 0 <= i < j && te_chunked(#[trigger] llv[i]),
        decreases lls@.len() - j,
    {
        let l = &lls[j];
        assert(llv[j as int] == l@);
        if crate::text::starts_with_exec(l.as_slice(), te.as_slice()) && crate::text::contains_exec(l.as_slice(), ck.as_slice()) {
            chunked = true;
        }
        j = j + 1;
    }
    Ok((st, chunked))
}

/// Where decoding a chunked stream stands: the size line being read, the
/// bytes left of the current chunk, and whether the last chunk came.
#[derive(Debug, Clone)]
pub struct PayloadReader {
    pub chunked: bool,
    pub size_line: Vec<char>,
    pub remaining: usize,
    pub finished: bool,
}

/// What one read of a chunked stream gives.
#[derive(Debug, Clone, PartialEq, Eq)]
pub enum Payload {
    /// A payload byte.
    Byte(u8),
    /// Framing only: read on.
    More,
    /// The stream ended properly.
    End,
    /// The stream is broken (the message).
    Fail(String),
}

pub enum PayloadModel {
    Byte(u8),
    More,
    End,
    Fail(Seq<char>),
}

pub open spec fn payload_view(p: Payload) -> PayloadModel {
    match p {
        Payload::Byte(b) => PayloadModel::Byte(b),
        Payload::More => PayloadModel::More,
        Payload::End => PayloadModel::End,
        Payload::Fail(m) => PayloadModel::Fail(m@),
    }
}

/// The reader as values: size line, bytes left, finished.
pub struct ReaderModel {
    pub size_line: Seq<char>,
    pub remaining: int,
    pub finished: bool,
}

/// A line without its trailing carriage returns.
pub open spec fn trim_cr(l: Seq<char>) -> Seq<char>
    decreases l.len(),
{
    if l.len() > 0 && l.last() == '\r' {
        trim_cr(l.drop_last())
    } else {
        l
    }
}

/// One read of a chunked stream (`None`: the connection closed): after
/// the last chunk nothing more comes; closing mid-chunk or mid-size-line
/// is an error, between chunks it ends the stream; inside a chunk the byte
/// is payload; otherwise bytes build the size line until a line feed: an
/// empty line is skipped, else its hexadecimal size (extensions after `;`
/// ignored) starts the next chunk, size zero ends the stream, and a bad or
/// oversized size is an error; a size line over 64 bytes is an error.
pub open spec fn feed_spec(st: ReaderModel, b: Option<u8>) -> (ReaderModel, PayloadModel) {
    if st.finished {
        (st, PayloadModel::End)
    } else {
        match b {
            None => if st.remaining > 0 || st.size_line.len() > 0 {
                (st, PayloadModel::Fail("chunked 数据不完整：连接提前关闭"@))
            } else {
                (ReaderModel { finished: true, ..st }, PayloadModel::End)
            },
            Some(c) => if st.remaining > 0 {
                (ReaderModel { remaining: st.remaining - 1, ..st }, PayloadModel::Byte(c))
            } else if c == 10u8 {
                let line = trim_cr(st.size_line);
                let st2 = ReaderModel { size_line: Seq::empty(), ..st };
                if line.len() == 0 {
                    (st2, PayloadModel::More)
                } else {
                    let hex = trim(before_semicolon(line));
                    match parse_hex(hex, usize::MAX as int) {
                        None => (st2, PayloadModel::Fail("chunked 块长度不是合法十六进制："@ + debug_quoted(hex))),
                        Some(size) => if size > MAX_CHUNK {
                            (st2, PayloadModel::Fail("chunked 单块长度 "@ + dec_of(size as nat) + " 超出上限 16777216"@))
                        } else if size == 0 {
                            (ReaderModel { finished: true, ..st2 }, PayloadModel::End)
                        } else {
                            (ReaderModel { remaining: size, ..st2 }, PayloadModel::More)
                        },
                    }
                }
            } else if st.size_line.len() >= 64 {
                (st, PayloadModel::Fail("chunked 块长行异常过长"@))
            } else {
                (ReaderModel { size_line: st.size_line.push(c as char), ..st }, PayloadModel::More)
            },
        }
    }
}

impl PayloadReader {
    pub open spec fn model(&self) -> ReaderModel {
        ReaderModel { size_line: self.size_line@, remaining: self.remaining as int, finished: self.finished }
    }

    /// A reader at the start of a body (`chunked`: the head said so).
    pub fn new(chunked: bool) -> (r: PayloadReader)
        ensures
            r.chunked == chunked,
            r.model() == (ReaderModel { size_line: Seq::empty(), remaining: 0, finished: false }),
    {
        PayloadReader { chunked, size_line: Vec::new(), remaining: 0, finished: false }
    }

    /// One read of a chunked body (see `feed_spec`).
    pub fn feed(&mut self, b: Option<u8>) -> (r: Payload)
        requires
            old(self).size_line@.len() <= 64,
        ensures
            (final(self).model(), payload_view(r)) == feed_spec(old(self).model(), b),
            final(self).chunked == old(self).chunked,
            final(self).size_line@.len() <= 64,
    {
        if self.finished {
            return Payload::End;
        }
        match b {
            None => {
                if self.remaining > 0 || self.size_line.len() > 0 {
                    Payload::Fail(owned("chunked 数据不完整：连接提前关闭"))
                } else {
                    self.finished = true;
                    Payload::End
                }
            },
            Some(c) => {
                if self.remaining > 0 {
                    self.remaining = self.remaining - 1;
                    return Payload::Byte(c);
                }
                if c == 10 {
                    let mut line = Vec::new();
                    std::mem::swap(&mut line, &mut self.size_line);
                    let ghost l0 = line@;
                    while line.len() > 0 && line[line.len() - 1] == '\r'
                        invariant
                            trim_cr(line@) == trim_cr(l0),
                        decreases line@.len(),
                    {
                        let ghost prev = line@;
                        line.pop();
                        assert(line@ =~= prev.drop_last());
                    }
                    assert(trim_cr(line@) == line@);
                    if line.len() == 0 {
                        return Payload::More;
                    }
                    let bs = before_semicolon_exec(line.as_slice());
                    let (ta, tb) = crate::text::trim_range(bs.as_slice());
                    let hex_v = sub_chars(bs.as_slice(), ta, tb);
                    match parse_hex_exec(hex_v.as_slice(), usize::MAX) {
                        None => {
                            let hs = string_of(hex_v.as_slice());
                            let mut m = owned("chunked 块长度不是合法十六进制：");
                            push_debug(&mut m, hs.as_str());
                            Payload::Fail(m)
                        },
                        Some(size) => {
                            if size > MAX_CHUNK {
                                let mut m = owned("chunked 单块长度 ");
                                push_dec(&mut m, size as u64);
                                push_str(&mut m, " 超出上限 16777216");
                                Payload::Fail(m)
                            } else if size == 0 {
                                self.finished = true;
                                Payload::End
                            } else {
                                self.remaining = size;
                                Payload::More
                            }
                        },
                    }
                } else if self.size_line.len() >= 64 {
                    Payload::Fail(owned("chunked 块长行异常过长"))
                } else {
                    self.size_line.push(c as char);
                    Payload::More
                }
            },
        }
    }
}

/// Once the last chunk came, the reader stays finished and gives nothing.
pub proof fn law_finished_reader_stays_finished(st: ReaderModel, b: Option<u8>)
    requires
        st.finished,
    ensures
        feed_spec(st, b) == (st, PayloadModel::End),
{
}

/// Inside a chunk every byte is payload, passed on unchanged, and the
/// chunk shrinks by one.
pub proof fn law_chunk_bytes_pass_through(st: ReaderModel, c: u8)
    requires
        !st.finished,
        st.remaining > 0,
    ensures
        feed_spec(st, Some(c)).1 == PayloadModel::Byte(c),
        feed_spec(st, Some(c)).0.remaining == st.remaining - 1,
{
}

/// The body of an error response as read: chunk-decoded when chunked and
/// decodable, else as it came.
pub open spec fn error_body_of(chunked: bool, body: Seq<char>) -> Seq<char> {
    if chunked {
        match decode_from(body, Seq::empty()) {
            Decoded::Done(t) => t,
            _ => body,
        }
    } else {
        body
    }
}

/// Whether a status answers with success (2xx), so that the body is the
/// streamed answer.
pub fn is_success(status: u16) -> (r: bool)
    ensures
        r == (200 <= status && status < 300),
{
    200 <= status && status < 300
}

/// The message for a response that is not 2xx: `HTTP <status>：` and the
/// trimmed body.
pub fn error_text(status: u16, chunked: bool, body: &str) -> (r: String)
    requires
        chunked ==> !(decode_from(body@, Seq::empty()) is Splits),
    ensures
        r@ == "HTTP "@ + dec_of(status as nat) + "："@ + trim(error_body_of(chunked, body@)),
{
    let text = if chunked {
        match decode_chunked(body) {
            Ok(t) => t,
            Err(_) => owned(body),
        }
    } else {
        owned(body)
    };
    let mut m = owned("HTTP ");
    push_dec(&mut m, status as u64);
    push_str(&mut m, "：");
    push_str(&mut m, crate::text::trim_str(text.as_str()));
    m
}

} // verus!
