//! The MCP Streamable HTTP transport's response handling: status line and
//! headers, chunked bodies (bounded), and the `data:` lines of a short SSE
//! response.
use vstd::prelude::*;
use crate::text::{chars_of, trim, trim_end, starts_with, push_str, push_char, string_of, sub_chars,
    copy_chars, append_chars, ascii_lower, contains, first_index, find_char, next_word,
    next_word_exec, to_ascii_lower, contains_exec, trim_end_chars, chars_eq_str, owned};
use crate::lines::{text_lines, text_lines_exec, lines_view};
use crate::mouse::{parse_num, parse_uint};
use crate::framing::{utf8_len, utf8_len_exec, byte_prefix, byte_prefix_exec, lemma_byte_prefix,
    first_crlf, find_crlf, lemma_first_crlf_bound, before_semicolon, before_semicolon_exec,
    parse_hex, parse_hex_exec, lemma_utf8_len_append, debug_quoted, push_debug, find_seq,
    find_seq_exec, lemma_find_seq_bound};

verus! {

/// Largest response body accepted (1 MiB): past it the server is broken
/// or hostile, and a cut JSON-RPC frame cannot be parsed safely.
pub const MAX_RESPONSE_BYTES: usize = 1048576;

// ── chunked transfer coding ──────────────────────────────────────────

/// Why a chunked body is refused.
pub enum ChunkError {
    /// No `CRLF` after a size line.
    NoSizeLine,
    /// The size is not hexadecimal (the offending text).
    BadSize(Seq<char>),
    /// The decoded body would pass the response limit.
    TooLarge,
    /// A chunk is shorter than its size says.
    Incomplete,
}

/// How decoding a chunked body ends.
pub enum Dechunk {
    Done(Seq<char>),
    Failed(ChunkError),
    /// A chunk size ends inside a multi-byte character (a `str` cannot be
    /// cut there).
    Splits,
}

pub open spec fn crlf() -> Seq<char> {
    seq!['\r', '\n']
}

/// Decode chunks from `rest`, after `out` was decoded: size lines are
/// hexadecimal with optional `;extensions`, a zero size ends the body (any
/// trailer is ignored), data is followed by an optional `CRLF`.
pub open spec fn dechunk(rest: Seq<char>, out: Seq<char>) -> Dechunk
    decreases rest.len(),
{
    match first_crlf(rest) {
        None => Dechunk::Failed(ChunkError::NoSizeLine),
        Some(i) => {
            let size_str = trim(before_semicolon(rest.take(i)));
            let after = rest.skip(i + 2);
            match parse_hex(size_str, usize::MAX as int) {
                None => Dechunk::Failed(ChunkError::BadSize(size_str)),
                Some(size) => if size == 0 {
                    Dechunk::Done(out)
                } else if utf8_len(out) + size > MAX_RESPONSE_BYTES {
                    Dechunk::Failed(ChunkError::TooLarge)
                } else if utf8_len(after) < size {
                    Dechunk::Failed(ChunkError::Incomplete)
                } else {
                    match byte_prefix(after, size) {
                        None => Dechunk::Splits,
                        Some(k) => {
                            proof {
                                lemma_first_crlf_bound(rest);
                                lemma_byte_prefix(after, size);
                            }
                            let rest2 = after.skip(k);
                            let rest3 = if starts_with(rest2, crlf()) {
                                rest2.skip(2)
                            } else {
                                rest2
                            };
                            dechunk(rest3, out + after.take(k))
                        },
                    }
                },
            }
        },
    }
}

/// The error text for a refused chunked body.
pub open spec fn chunk_message(e: ChunkError) -> Seq<char> {
    match e {
        ChunkError::NoSizeLine => "chunked 格式错误：缺少块长行"@,
        ChunkError::BadSize(s) => "chunked 块长无法解析："@ + debug_quoted(s),
        ChunkError::TooLarge => "chunked 内容超过响应上限"@,
        ChunkError::Incomplete => "chunked 格式错误：块不完整"@,
    }
}

/// Decode a chunked body; `None` where a chunk size ends inside a
/// character.
pub fn try_decode_chunked(body: &str) -> (r: Option<Result<String, String>>)
    ensures
        match dechunk(body@, Seq::empty()) {
            Dechunk::Done(s) => r matches Some(Ok(t)) && t@ == s,
            Dechunk::Failed(e) => r matches Some(Err(m)) && m@ == chunk_message(e),
            Dechunk::Splits => r is None,
        },
{
    let v = chars_of(body);
    let n = v.len();
    let mut pos: usize = 0;
    let mut out: Vec<char> = Vec::new();
    let mut out_bytes: usize = 0;
    assert(v@.skip(0) =~= v@);
    while pos <= n
        invariant
            pos <= n,
            n == v@.len(),
            v@ == body@,
            out_bytes == utf8_len(out@),
            out_bytes <= MAX_RESPONSE_BYTES,
            dechunk(body@, Seq::empty()) == dechunk(v@.skip(pos as int), out@),
        decreases n - pos,
    {
        let ghost rest = v@.skip(pos as int);
        let tail = sub_chars(v.as_slice(), pos, n);
        assert(tail@ =~= rest);
        let i = match find_crlf(tail.as_slice()) {
            Some(i) => i,
            None => return Some(Err(crate::text::owned("chunked 格式错误：缺少块长行"))),
        };
        let line = sub_chars(tail.as_slice(), 0, i);
        let semi = before_semicolon_exec(line.as_slice());
        let trimmed = crate::text::trim_range(semi.as_slice());
        let size_v = sub_chars(semi.as_slice(), trimmed.0, trimmed.1);
        assert(size_v@ == trim(before_semicolon(rest.take(i as int))));
        let size = match parse_hex_exec(size_v.as_slice(), usize::MAX) {
            Some(s) => s,
            None => {
                let mut m = crate::text::owned("chunked 块长无法解析：");
                let sv = string_of(size_v.as_slice());
                push_debug(&mut m, sv.as_str());
                return Some(Err(m));
            },
        };
        if size == 0 {
            return Some(Ok(string_of(out.as_slice())));
        }
        if size > MAX_RESPONSE_BYTES - out_bytes {
            return Some(Err(crate::text::owned("chunked 内容超过响应上限")));
        }
        let after = sub_chars(tail.as_slice(), i + 2, tail.len());
        assert(after@ =~= rest.skip(i + 2));
        if utf8_len_exec(after.as_slice()) < size {
            return Some(Err(crate::text::owned("chunked 格式错误：块不完整")));
        }
        let k = match byte_prefix_exec(after.as_slice(), size) {
            Some(k) => k,
            None => return None,
        };
        proof {
            lemma_byte_prefix(after@, size as int);
            lemma_first_crlf_bound(rest);
            lemma_utf8_len_append(out@, after@.take(k as int));
        }
        let chunk = sub_chars(after.as_slice(), 0, k);
        assert(chunk@ =~= after@.take(k as int));
        let ghost out0 = out@;
        append_chars(&mut out, chunk.as_slice());
        out_bytes = out_bytes + size;
        let mut next = pos + i + 2 + k;
        let ghost rest2 = after@.skip(k as int);
        assert(rest2 =~= v@.skip(next as int));
        if next < n && n - next >= 2 && v[next] == '\r' && v[next + 1] == '\n' {
            assert(starts_with(rest2, crlf())) by {
                assert(rest2.take(2) =~= crlf());
            }
            assert(rest2.skip(2) =~= v@.skip(next + 2));
            next = next + 2;
        } else {
            assert(!starts_with(rest2, crlf())) by {
                if starts_with(rest2, crlf()) {
                    assert(rest2.take(2) == crlf());
                    assert(rest2[0] == '\r' && rest2[1] == '\n');
                }
            }
        }
        assert(out@ =~= out0 + after@.take(k as int));
        pos = next;
    }
    None
}


/// Decode a chunked body. Sizes must end on character boundaries (a `str`
/// cannot be cut inside a character).
pub fn decode_chunked(body: &str) -> (r: Result<String, String>)
    requires
        !(dechunk(body@, Seq::empty()) is Splits),
    ensures
        match dechunk(body@, Seq::empty()) {
            Dechunk::Done(s) => r matches Ok(t) && t@ == s,
            Dechunk::Failed(e) => r matches Err(m) && m@ == chunk_message(e),
            Dechunk::Splits => false,
        },
{
    match try_decode_chunked(body) {
        Some(r) => r,
        None => {
            proof {
                assert(false);
            }
            Err(String::new())
        },
    }
}

// ── responses ────────────────────────────────────────────────────────

/// A parsed HTTP response.
pub struct HttpResponse {
    pub status: u16,
    /// Headers, names lower-cased.
    pub headers: Vec<(String, String)>,
    pub body: String,
}

pub open spec fn headers_view(v: Seq<(String, String)>) -> Seq<(Seq<char>, Seq<char>)> {
    v.map_values(|p: (String, String)| (p.0@, p.1@))
}

/// The value of the first header named `name`.
pub open spec fn first_header(hs: Seq<(Seq<char>, Seq<char>)>, name: Seq<char>) -> Option<Seq<char>>
    decreases hs.len(),
{
    if hs.len() == 0 {
        None
    } else if hs[0].0 == name {
        Some(hs[0].1)
    } else {
        first_header(hs.drop_first(), name)
    }
}

impl HttpResponse {
    /// A header's value, looked up case-insensitively (names are stored
    /// lower-cased).
    pub fn header(&self, name: &str) -> (r: Option<&str>)
        ensures
            match r {
                Some(v) => first_header(headers_view(self.headers@), ascii_lower(name@)) == Some(v@),
                None => first_header(headers_view(self.headers@), ascii_lower(name@)) is None,
            },
    {
        let nv = chars_of(name);
        let key = to_ascii_lower(nv.as_slice());
        let ghost hs = headers_view(self.headers@);
        let mut i: usize = 0;
        assert(hs.skip(0) =~= hs);
        while i < self.headers.len()
            invariant
                i <= self.headers@.len(),
                hs == headers_view(self.headers@),
                key@ == ascii_lower(name@),
                first_header(hs, key@) == first_header(hs.skip(i as int), key@),
            decreases self.headers@.len() - i,
        {
            assert(hs.skip(i as int)[0] == hs[i as int]);
            assert(hs.skip(i as int).drop_first() =~= hs.skip(i + 1));
            if chars_eq_str(key.as_slice(), self.headers[i].0.as_str()) {
                return Some(self.headers[i].1.as_str());
            }
            i = i + 1;
        }
        None
    }
}

/// The header a line holds: `name: value`, name trimmed and lower-cased,
/// value trimmed; lines without a colon are skipped.
pub open spec fn header_of(line: Seq<char>) -> Option<(Seq<char>, Seq<char>)> {
    match first_index(line, ':') {
        Some(k) => Some((ascii_lower(trim(line.take(k))), trim(line.skip(k + 1)))),
        None => None,
    }
}

pub open spec fn headers_of(ls: Seq<Seq<char>>) -> Seq<(Seq<char>, Seq<char>)>
    decreases ls.len(),
{
    if ls.len() == 0 {
        Seq::empty()
    } else {
        match header_of(ls.last()) {
            Some(h) => headers_of(ls.drop_last()).push(h),
            None => headers_of(ls.drop_last()),
        }
    }
}

/// Whether the headers announce a chunked body.
pub open spec fn is_chunked(hs: Seq<(Seq<char>, Seq<char>)>) -> bool {
    exists|i: int|
        0 <= i < hs.len() && hs[i].0 == "transfer-encoding"@ && contains(
            ascii_lower(#[trigger] hs[i].1),
            "chunked"@,
        )
}

/// The status code: the second word of the status line, a `u16`.
pub open spec fn status_of(line: Seq<char>) -> Option<int> {
    match next_word(line) {
        Some((_, rest)) => match next_word(rest) {
            Some((w, _)) => parse_num(w, 65535),
            None => None,
        },
        None => None,
    }
}

pub struct ResponseModel {
    pub status: int,
    pub headers: Seq<(Seq<char>, Seq<char>)>,
    pub body: Seq<char>,
}

pub enum Parsed {
    Response(ResponseModel),
    Refused(Seq<char>),
    /// A chunk size ends inside a character.
    Splits,
}

pub open spec fn blank_line() -> Seq<char> {
    seq!['\r', '\n', '\r', '\n']
}

/// What a raw response parses to: head and body split at the first blank
/// line; the status from the first head line; the other head lines with
/// a colon are headers; a chunked body is decoded; the body must stay
/// within the limit.
pub open spec fn response_of(raw: Seq<char>) -> Parsed {
    match find_seq(raw, blank_line()) {
        None => Parsed::Refused("响应缺少头/体分隔"@),
        Some(i) => {
            let ls = text_lines(raw.take(i));
            let body = raw.skip(i + 4);
            if ls.len() == 0 {
                Parsed::Refused("响应为空"@)
            } else {
                match status_of(ls[0]) {
                    None => Parsed::Refused("状态行无法解析："@ + ls[0]),
                    Some(st) => {
                        let hs = headers_of(ls.skip(1));
                        let decoded = if is_chunked(hs) {
                            dechunk(body, Seq::empty())
                        } else {
                            Dechunk::Done(body)
                        };
                        match decoded {
                            Dechunk::Splits => Parsed::Splits,
                            Dechunk::Failed(e) => Parsed::Refused(chunk_message(e)),
                            Dechunk::Done(b) => if utf8_len(b) > MAX_RESPONSE_BYTES {
                                Parsed::Refused("响应超过 1048576 字节上限"@)
                            } else {
                                Parsed::Response(ResponseModel { status: st, headers: hs, body: b })
                            },
                        }
                    },
                }
            }
        },
    }
}

pub open spec fn response_matches(r: Result<HttpResponse, String>, p: Parsed) -> bool {
    match p {
        Parsed::Response(m) => r matches Ok(h) && h.status == m.status && headers_view(h.headers@)
            == m.headers && h.body@ == m.body,
        Parsed::Refused(msg) => r matches Err(e) && e@ == msg,
        Parsed::Splits => false,
    }
}

fn header_exec(line: &[char]) -> (r: Option<(String, String)>)
    ensures
        match r {
            Some((k, v)) => header_of(line@) == Some((k@, v@)),
            None => header_of(line@) is None,
        },
{
    let n = line.len();
    let found = find_char(line, ':');
    match found {
        Some(k) => {
            assert(k < n);
            let name = sub_chars(line, 0, k);
            let (a, b) = crate::text::trim_range(name.as_slice());
            let name_t = sub_chars(name.as_slice(), a, b);
            let key = to_ascii_lower(name_t.as_slice());
            let value = sub_chars(line, k + 1, n);
            let (c, d) = crate::text::trim_range(value.as_slice());
            let value_t = sub_chars(value.as_slice(), c, d);
            assert(value@ =~= line@.skip(k + 1));
            Some((string_of(key.as_slice()), string_of(value_t.as_slice())))
        },
        None => None,
    }
}

/// Try to parse a raw response; `None` where a chunk size of a chunked
/// body ends inside a character.
pub fn try_parse_response(raw: &str) -> (r: Option<Result<HttpResponse, String>>)
    ensures
        match response_of(raw@) {
            Parsed::Splits => r is None,
            p => r matches Some(x) && response_matches(x, p),
        },
{
    let v = chars_of(raw);
    let blank = chars_of("\r\n\r\n");
    proof {
        reveal_strlit("\r\n\r\n");
        assert(blank@ =~= blank_line());
    }
    let i = match find_seq_exec(v.as_slice(), blank.as_slice()) {
        Some(i) => i,
        None => return Some(Err(owned("响应缺少头/体分隔"))),
    };
    proof {
        lemma_find_seq_bound(v@, blank@);
        assert(blank@.len() == 4);
        assert(i + 4 <= v@.len());
    }
    let body_v = sub_chars(v.as_slice(), i + 4, v.len());
    assert(body_v@ =~= raw@.skip(i + 4));
    let head = sub_chars(v.as_slice(), 0, i);
    let head_s = string_of(head.as_slice());
    let ls = text_lines_exec(head_s.as_str());
    assert(head@ =~= raw@.take(i as int));
    if ls.len() == 0 {
        return Some(Err(owned("响应为空")));
    }
    let first = &ls[0];
    let w1 = next_word_exec(first.as_slice());
    let status: Option<usize> = match w1 {
        Some((_, rest)) => match next_word_exec(rest.as_slice()) {
            Some((w, _)) => parse_uint(w.as_slice(), 65535),
            None => None,
        },
        None => None,
    };
    let status = match status {
        Some(st) => st as u16,
        None => {
            let mut m = owned("状态行无法解析：");
            let fs = string_of(first.as_slice());
            push_str(&mut m, fs.as_str());
            return Some(Err(m));
        },
    };
    let ghost lsv = lines_view(ls@);
    let mut headers: Vec<(String, String)> = Vec::new();
    let mut chunked = false;
    let mut j: usize = 1;
    let te = chars_of("transfer-encoding");
    let ck = chars_of("chunked");
    assert(lsv.skip(1).take(0) =~= Seq::<Seq<char>>::empty());
    while j < ls.len()
        invariant
            1 <= j <= ls@.len(),
            lsv == lines_view(ls@),
            te@ == "transfer-encoding"@,
            ck@ == "chunked"@,
            headers_view(headers@) == headers_of(lsv.skip(1).take(j - 1)),
            chunked == is_chunked(headers_view(headers@)),
        decreases ls@.len() - j,
    {
        let ghost before = headers_view(headers@);
        assert(lsv.skip(1).take(j as int).drop_last() =~= lsv.skip(1).take(j - 1));
        assert(lsv.skip(1).take(j as int).last() == ls@[j as int]@);
        match header_exec(ls[j].as_slice()) {
            Some((k, val)) => {
                let kv = chars_of(k.as_str());
                let vv = chars_of(val.as_str());
                let lv = to_ascii_lower(vv.as_slice());
                let hit = crate::text::seq_eq(kv.as_slice(), te.as_slice()) && contains_exec(
                    lv.as_slice(),
                    ck.as_slice(),
                );
                headers.push((k, val));
                proof {
                    let after = headers_view(headers@);
                    assert(after =~= before.push((kv@, vv@)));
                    assert(hit == (kv@ == "transfer-encoding"@ && contains(
                        ascii_lower(vv@),
                        "chunked"@,
                    )));
                    if is_chunked(before) {
                        let w = choose|x: int|
                            0 <= x < before.len() && before[x].0 == "transfer-encoding"@
                                && contains(ascii_lower(#[trigger] before[x].1), "chunked"@);
                        assert(after[w] == before[w]);
                        assert(is_chunked(after));
                    }
                    if hit {
                        assert(after[before.len() as int] == (kv@, vv@));
                        assert(after[before.len() as int].0 == "transfer-encoding"@);
                        assert(contains(ascii_lower(after[before.len() as int].1), "chunked"@));
                        assert(is_chunked(after));
                    }
                    if is_chunked(after) {
                        let w = choose|x: int|
                            0 <= x < after.len() && after[x].0 == "transfer-encoding"@
                                && contains(ascii_lower(#[trigger] after[x].1), "chunked"@);
                        if w < before.len() {
                            assert(after[w] == before[w]);
                            assert(is_chunked(before));
                        } else {
                            assert(after[w] == (kv@, vv@));
                        }
                    }
                }
                chunked = chunked || hit;
            },
            None => {},
        }
        j = j + 1;
    }
    assert(lsv.skip(1).take(ls@.len() - 1) =~= lsv.skip(1));
    let body_s = string_of(body_v.as_slice());
    let body = if chunked {
        match try_decode_chunked(body_s.as_str()) {
            None => return None,
            Some(Err(e)) => return Some(Err(e)),
            Some(Ok(b)) => b,
        }
    } else {
        body_s
    };
    let bv = chars_of(body.as_str());
    if crate::framing::utf8_len_exec(bv.as_slice()) > MAX_RESPONSE_BYTES {
        return Some(Err(owned("响应超过 1048576 字节上限")));
    }
    Some(Ok(HttpResponse { status, headers, body }))
}

/// Parse a raw response (the status line, headers, a plain or chunked
/// body within the limit). A chunked body's sizes must end on character
/// boundaries.
pub fn parse_response(raw: &str) -> (r: Result<HttpResponse, String>)
    requires
        !(response_of(raw@) is Splits),
    ensures
        response_matches(r, response_of(raw@)),
{
    match try_parse_response(raw) {
        Some(r) => r,
        None => {
            proof {
                assert(false);
            }
            Err(String::new())
        },
    }
}

// ── server-sent events ───────────────────────────────────────────────

pub open spec fn data_prefix() -> Seq<char> {
    seq!['d', 'a', 't', 'a', ':']
}

/// The payload of a `data:` line (one optional space dropped, trailing
/// whitespace trimmed), when not empty.
pub open spec fn data_of(line: Seq<char>) -> Option<Seq<char>> {
    if starts_with(line, data_prefix()) {
        let d = line.skip(5);
        let d2 = if d.len() > 0 && d[0] == ' ' {
            d.skip(1)
        } else {
            d
        };
        if trim_end(d2).len() > 0 {
            Some(trim_end(d2))
        } else {
            None
        }
    } else {
        None
    }
}

pub open spec fn data_lines(ls: Seq<Seq<char>>) -> Seq<Seq<char>>
    decreases ls.len(),
{
    if ls.len() == 0 {
        Seq::empty()
    } else {
        match data_of(ls.last()) {
            Some(d) => data_lines(ls.drop_last()).push(d),
            None => data_lines(ls.drop_last()),
        }
    }
}

pub open spec fn strings_view(v: Seq<String>) -> Seq<Seq<char>> {
    v.map_values(|s: String| s@)
}

/// The `data:` payloads of an SSE body, one message each; `event:` and
/// comment lines are skipped.
pub fn sse_data_lines(body: &str) -> (r: Vec<String>)
    ensures
        strings_view(r@) == data_lines(text_lines(body@)),
{
    let ls = text_lines_exec(body);
    let ghost lsv = lines_view(ls@);
    let pre = chars_of("data:");
    proof {
        reveal_strlit("data:");
        assert(pre@ =~= data_prefix());
    }
    let mut out: Vec<String> = Vec::new();
    let mut j: usize = 0;
    assert(lsv.take(0) =~= Seq::<Seq<char>>::empty());
    while j < ls.len()
        invariant
            j <= ls@.len(),
            lsv == lines_view(ls@),
            pre@ == data_prefix(),
            strings_view(out@) == data_lines(lsv.take(j as int)),
        decreases ls@.len() - j,
    {
        let line = &ls[j];
        assert(lsv.take(j + 1).drop_last() =~= lsv.take(j as int));
        assert(lsv.take(j + 1).last() == line@);
        if crate::text::starts_with_exec(line.as_slice(), pre.as_slice()) {
            let d = sub_chars(line.as_slice(), 5, line.len());
            assert(d@ =~= line@.skip(5));
            let d2 = if d.len() > 0 && d[0] == ' ' {
                let x = sub_chars(d.as_slice(), 1, d.len());
                assert(x@ =~= d@.skip(1));
                x
            } else {
                d
            };
            let t = trim_end_chars(d2.as_slice());
            if t.len() > 0 {
                let ghost o0 = strings_view(out@);
                let ts = string_of(t.as_slice());
                out.push(ts);
                assert(strings_view(out@) =~= o0.push(t@));
            }
        }
        j = j + 1;
    }
    assert(lsv.take(ls@.len() as int) =~= lsv);
    out
}

} // verus!
