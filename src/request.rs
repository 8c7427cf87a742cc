//! Decoding one frame of bytes into a request.
use vstd::prelude::*;
use vstd::slice::slice_subrange;
use vstd::utf8::{
    decode_utf8, encode_utf8, encode_utf8_decode_utf8, encode_utf8_valid_utf8, valid_utf8,
};
use crate::body::{body_decoded, Body};
use crate::errors::LioneError;
use crate::fields::StringMap;
use crate::method::{method_of, Method};
use crate::text::{
    chars_of, decode_chars, find, find_byte, find_char, find_in_bytes, find_token_end, lower_of,
    parse_usize, parse_usize_spec, skip_whitespace, skip_ws, slice_chars, string_of, to_lowercase,
    token_end, trim, trim_chars, trim_end_nul, trim_nul_end,
};

verus! {

/// The size of the buffer that one request is read into.
pub const FRAME_SIZE: usize = 1024;

/// Why a frame does not decode, as the contracts speak of it.
pub enum Fault {
    MethodNotFound(Seq<char>),
    ParseError,
    EmptyRequest,
    TodoError,
}

/// `e` is the error that `f` describes.
pub open spec fn is_fault(e: LioneError, f: Fault) -> bool {
    match f {
        Fault::MethodNotFound(t) => e matches LioneError::MethodNotFound(m) && m@ == t,
        Fault::ParseError => e is ParseError,
        Fault::EmptyRequest => e is EmptyRequest,
        Fault::TodoError => e is TodoError,
    }
}

/// What one `key=value` pair adds to a query mapping: its lower-cased,
/// trimmed key mapped to its trimmed value, split at the first `=`; a pair
/// without `=` adds nothing.
pub open spec fn pair_step(
    pair: Seq<char>,
    m: Map<Seq<char>, Seq<char>>,
) -> Map<Seq<char>, Seq<char>> {
    let eq = find_char(pair, '=', 0);
    if eq < pair.len() {
        m.insert(
            lower_of(trim(pair.subrange(0, eq))),
            trim(pair.subrange(eq + 1, pair.len() as int)),
        )
    } else {
        m
    }
}

/// The decoded query string from offset `start` on: each `&`-separated pair,
/// left to right, applied by `pair_step`.
pub open spec fn query_from(
    s: Seq<char>,
    start: int,
    m: Map<Seq<char>, Seq<char>>,
) -> Map<Seq<char>, Seq<char>>
    decreases s.len() - start,
{
    if 0 <= start <= s.len() {
        let e = find_char(s, '&', start);
        let m2 = pair_step(s.subrange(start, e), m);
        if start <= e < s.len() {
            query_from(s, e + 1, m2)
        } else {
            m2
        }
    } else {
        m
    }
}

proof fn lemma_find_char_shift(pre: Seq<char>, rest: Seq<char>, c: char, i: int)
    requires
        0 <= i <= rest.len(),
    ensures
        find_char(pre + rest, c, pre.len() + i) == pre.len() + find_char(rest, c, i),
    decreases rest.len() - i,
{
    if i < rest.len() {
        assert((pre + rest)[pre.len() + i] == rest[i]);
        if rest[i] != c {
            lemma_find_char_shift(pre, rest, c, i + 1);
        }
    }
}

proof fn lemma_find_char_absent(s: Seq<char>, c: char, i: int)
    requires
        0 <= i <= s.len(),
        !s.contains(c),
    ensures
        find_char(s, c, i) == s.len(),
    decreases s.len() - i,
{
    if i < s.len() {
        assert(s[i] != c);
        lemma_find_char_absent(s, c, i + 1);
    }
}

proof fn lemma_find_char_bounds(s: Seq<char>, c: char, i: int)
    requires
        0 <= i <= s.len(),
    ensures
        i <= find_char(s, c, i) <= s.len(),
    decreases s.len() - i,
{
    if i < s.len() && s[i] != c {
        lemma_find_char_bounds(s, c, i + 1);
    }
}

proof fn lemma_query_shift(pre: Seq<char>, rest: Seq<char>, i: int, m: Map<Seq<char>, Seq<char>>)
    requires
        0 <= i <= rest.len(),
    ensures
        query_from(pre + rest, pre.len() + i, m) == query_from(rest, i, m),
    decreases rest.len() - i,
{
    let s = pre + rest;
    lemma_find_char_shift(pre, rest, '&', i);
    lemma_find_char_bounds(rest, '&', i);
    let e = find_char(rest, '&', i);
    assert(s.subrange(pre.len() + i, pre.len() + e) =~= rest.subrange(i, e));
    if i <= e < rest.len() {
        lemma_query_shift(pre, rest, e + 1, pair_step(rest.subrange(i, e), m));
    }
}

/// A query string decodes pair by pair from the left: the first pair (up to
/// the first `&`) is applied, then the rest of the string.
pub proof fn lemma_query_split(pair: Seq<char>, rest: Seq<char>, m: Map<Seq<char>, Seq<char>>)
    requires
        !pair.contains('&'),
    ensures
        query_from(pair + seq!['&'] + rest, 0, m) == query_from(rest, 0, pair_step(pair, m)),
{
    let s = pair + seq!['&'] + rest;
    lemma_find_char_after(pair, '&', rest, 0);
    assert(s.subrange(0, pair.len() as int) =~= pair);
    lemma_query_shift(pair + seq!['&'], rest, 0, pair_step(pair, m));
    assert(pair + seq!['&'] + rest == s);
}

/// A query string without `&` is one pair.
pub proof fn lemma_query_last_pair(pair: Seq<char>, m: Map<Seq<char>, Seq<char>>)
    requires
        !pair.contains('&'),
    ensures
        query_from(pair, 0, m) == pair_step(pair, m),
{
    lemma_find_char_absent(pair, '&', 0);
    assert(pair.subrange(0, pair.len() as int) =~= pair);
}

/// `k1=v1&k2=v2` decodes to the lower-cased, trimmed keys mapped to the
/// trimmed values, the second pair winning where the keys agree.
pub proof fn lemma_query_two_pairs(k1: Seq<char>, v1: Seq<char>, k2: Seq<char>, v2: Seq<char>)
    requires
        !k1.contains('&') && !k1.contains('='),
        !k2.contains('&') && !k2.contains('='),
        !v1.contains('&') && !v2.contains('&'),
    ensures
        query_of(k1 + seq!['='] + v1 + seq!['&'] + k2 + seq!['='] + v2) == Map::<
            Seq<char>,
            Seq<char>,
        >::empty().insert(lower_of(trim(k1)), trim(v1)).insert(lower_of(trim(k2)), trim(v2)),
{
    let p1 = k1 + seq!['='] + v1;
    let p2 = k2 + seq!['='] + v2;
    lemma_pair(k1, v1);
    lemma_pair(k2, v2);
    assert(k1 + seq!['='] + v1 + seq!['&'] + k2 + seq!['='] + v2 =~= p1 + seq!['&'] + p2);
    lemma_query_split(p1, p2, Map::empty());
    lemma_query_last_pair(p2, pair_step(p1, Map::empty()));
}

/// A pair `k=v` whose key holds no `=` and which holds no `&`.
proof fn lemma_pair(k: Seq<char>, v: Seq<char>)
    requires
        !k.contains('&') && !k.contains('='),
        !v.contains('&'),
    ensures
        !(k + seq!['='] + v).contains('&'),
        forall|m: Map<Seq<char>, Seq<char>>| #[trigger] pair_step(k + seq!['='] + v, m) == m.insert(lower_of(trim(k)), trim(v)),
{
    let p = k + seq!['='] + v;
    lemma_find_char_after(k, '=', v, 0);
    assert(p.subrange(0, k.len() as int) =~= k);
    assert(p.subrange(k.len() + 1 as int, p.len() as int) =~= v);
    assert forall|i: int| 0 <= i < p.len() implies p[i] != '&' by {
        if i < k.len() {
            assert(p[i] == k[i]);
        } else if i > k.len() {
            assert(p[i] == v[i - k.len() - 1]);
        }
    }
}

/// The mapping a whole query string decodes to.
pub open spec fn query_of(s: Seq<char>) -> Map<Seq<char>, Seq<char>> {
    query_from(s, 0, Map::empty())
}

/// The path of a URI: what precedes the first `?`, trimmed.
pub open spec fn uri_path(uri: Seq<char>) -> Seq<char> {
    trim(uri.subrange(0, find_char(uri, '?', 0)))
}

/// The query of a URI: what follows the first `?`, decoded; empty without `?`.
pub open spec fn uri_query(uri: Seq<char>) -> Map<Seq<char>, Seq<char>> {
    let q = find_char(uri, '?', 0);
    if q < uri.len() {
        query_of(uri.subrange(q + 1, uri.len() as int))
    } else {
        Map::empty()
    }
}

/// The method and URI named by a request line: its first two
/// whitespace-separated tokens; the rest of the line is ignored.
pub open spec fn request_line_of(line: Seq<u8>) -> Result<(Method, Seq<char>), Fault> {
    if !valid_utf8(line) {
        Err(Fault::TodoError)
    } else {
        let cs = decode_utf8(line);
        let s1 = skip_ws(cs, 0);
        let e1 = token_end(cs, s1);
        let s2 = skip_ws(cs, e1);
        let e2 = token_end(cs, s2);
        if s1 >= cs.len() {
            Err(Fault::TodoError)
        } else if method_of(cs.subrange(s1, e1)) is None {
            Err(Fault::MethodNotFound(cs.subrange(s1, e1)))
        } else if s2 >= cs.len() {
            Err(Fault::TodoError)
        } else {
            Ok((method_of(cs.subrange(s1, e1))->0, cs.subrange(s2, e2)))
        }
    }
}

/// The name and value of a header line `name: value`, split at the first
/// colon, each trimmed and lower-cased.
pub open spec fn header_of(line: Seq<u8>) -> Option<(Seq<char>, Seq<char>)> {
    if !valid_utf8(line) {
        None
    } else {
        let cs = decode_utf8(line);
        let i = find_char(cs, ':', 0);
        if i >= cs.len() {
            None
        } else {
            Some(
                (
                    lower_of(trim(cs.subrange(0, i))),
                    lower_of(trim(cs.subrange(i + 1, cs.len() as int))),
                ),
            )
        }
    }
}

proof fn lemma_find_char_after(pre: Seq<char>, c: char, rest: Seq<char>, i: int)
    requires
        0 <= i <= pre.len(),
        !pre.contains(c),
    ensures
        find_char(pre + seq![c] + rest, c, i) == pre.len(),
    decreases pre.len() - i,
{
    let s = pre + seq![c] + rest;
    if i < pre.len() {
        assert(s[i] == pre[i]);
        lemma_find_char_after(pre, c, rest, i + 1);
    } else {
        assert(s[i] == c);
    }
}

/// A header line `name: value` (the name holding no colon), sent as UTF-8,
/// decodes to the lower-cased, trimmed name mapped to the lower-cased,
/// trimmed value.
pub proof fn lemma_header_line(name: Seq<char>, value: Seq<char>)
    requires
        !name.contains(':'),
    ensures
        header_of(encode_utf8(name + seq![':'] + value)) == Some(
            (lower_of(trim(name)), lower_of(trim(value))),
        ),
{
    let cs = name + seq![':'] + value;
    encode_utf8_valid_utf8(cs);
    encode_utf8_decode_utf8(cs);
    lemma_find_char_after(name, ':', value, 0);
    assert(cs.subrange(0, name.len() as int) =~= name);
    assert(cs.subrange(name.len() + 1 as int, cs.len() as int) =~= value);
}

proof fn lemma_encode_len(cs: Seq<char>)
    ensures
        encode_utf8(cs).len() >= cs.len(),
    decreases cs.len(),
{
    if cs.len() > 0 {
        lemma_encode_len(cs.drop_first());
    }
}

/// The encoding of a header line is no lone carriage return.
proof fn lemma_header_line_not_cr(name: Seq<char>, value: Seq<char>)
    ensures
        encode_utf8(name + seq![':'] + value) != seq![13u8],
{
    let cs = name + seq![':'] + value;
    lemma_encode_len(cs);
    if encode_utf8(cs) == seq![13u8] {
        assert(cs =~= seq![':']);
        assert(cs.drop_first() =~= Seq::<char>::empty());
        assert(':' as u32 == 58u32);
        assert((58u32 & 0x7F) as u8 == 58u8) by (bit_vector);
        assert(encode_utf8(cs) =~= seq![58u8]);
        assert(seq![58u8][0] != seq![13u8][0]);
    }
}

proof fn lemma_find_byte_line(b: Seq<u8>, start: int, line: Seq<u8>, i: int)
    requires
        0 <= start,
        0 <= i <= line.len(),
        start + line.len() < b.len(),
        b.subrange(start, start + line.len()) == line,
        b[start + line.len()] == 10u8,
        !line.contains(10u8),
    ensures
        find_byte(b, 10u8, start + i) == start + line.len(),
    decreases line.len() - i,
{
    if i < line.len() {
        assert(b[start + i] == b.subrange(start, start + line.len())[i]);
        lemma_find_byte_line(b, start, line, i + 1);
    }
}

/// Where the frame holds the header line `name: value` at offset `start`,
/// ended by a line feed, the decoded headers hold its lower-cased, trimmed
/// name mapped to its lower-cased, trimmed value, and decoding goes on after
/// the line.
pub proof fn lemma_header_in_frame(
    b: Seq<u8>,
    start: int,
    name: Seq<char>,
    value: Seq<char>,
    m: Map<Seq<char>, Seq<char>>,
)
    requires
        !name.contains(':'),
        !encode_utf8(name + seq![':'] + value).contains(10u8),
        0 <= start,
        start + encode_utf8(name + seq![':'] + value).len() < b.len(),
        b.subrange(start, start + encode_utf8(name + seq![':'] + value).len()) == encode_utf8(
            name + seq![':'] + value,
        ),
        b[start + encode_utf8(name + seq![':'] + value).len()] == 10u8,
    ensures
        headers_from(b, start, m) == headers_from(
            b,
            start + encode_utf8(name + seq![':'] + value).len() + 1,
            m.insert(lower_of(trim(name)), lower_of(trim(value))),
        ),
{
    let line = encode_utf8(name + seq![':'] + value);
    lemma_find_byte_line(b, start, line, 0);
    lemma_header_line(name, value);
    lemma_header_line_not_cr(name, value);
}

/// The headers held by the lines of `b` from offset `start` on, up to a line
/// that is a lone carriage return or the end of the frame; `None` where one
/// of them is no header line.
pub open spec fn headers_from(
    b: Seq<u8>,
    start: int,
    m: Map<Seq<char>, Seq<char>>,
) -> Option<Map<Seq<char>, Seq<char>>>
    decreases b.len() - start,
{
    if 0 <= start <= b.len() {
        let e = find_byte(b, 10u8, start);
        let line = b.subrange(start, e);
        if line == seq![13u8] {
            Some(m)
        } else {
            match header_of(line) {
                None => None,
                Some(h) => {
                    let m2 = m.insert(h.0, h.1);
                    if start <= e < b.len() {
                        headers_from(b, e + 1, m2)
                    } else {
                        Some(m2)
                    }
                },
            }
        }
    } else {
        Some(m)
    }
}

/// The first offset at or after `i` where `\r\n\r\n` starts, or -1.
pub open spec fn find_blank_line(b: Seq<u8>, i: int) -> int
    decreases b.len() - i,
{
    if i < 0 || i + 4 > b.len() {
        -1
    } else if b.subrange(i, i + 4) == seq![13u8, 10u8, 13u8, 10u8] {
        i
    } else {
        find_blank_line(b, i + 1)
    }
}

/// The decoded parts of a frame: method, path, query, headers, and the body
/// text where a content length is given.
pub struct Parts {
    pub method: Method,
    pub path: Seq<char>,
    pub query: Map<Seq<char>, Seq<char>>,
    pub headers: Map<Seq<char>, Seq<char>>,
    pub body: Option<Seq<char>>,
}

/// The body text that a frame carries: `n` bytes after the first blank line,
/// cut at the end of the frame, decoded as UTF-8, without trailing NULs and
/// surrounding whitespace.
pub open spec fn body_text(b: Seq<u8>, n: nat) -> Result<Seq<char>, Fault> {
    let p = find_blank_line(b, 0);
    if p < 0 {
        Err(Fault::EmptyRequest)
    } else {
        let start = p + 4;
        let end = if start + n > b.len() {
            b.len() as int
        } else {
            start + n
        };
        let bytes = b.subrange(start, end);
        if !valid_utf8(bytes) {
            Err(Fault::EmptyRequest)
        } else {
            Ok(trim(trim_end_nul(decode_utf8(bytes))))
        }
    }
}

/// What a frame decodes to, before its body is interpreted.
pub open spec fn frame_parts(b: Seq<u8>) -> Result<Parts, Fault> {
    if forall|i: int| 0 <= i < b.len() ==> b[i] == 0u8 {
        Err(Fault::EmptyRequest)
    } else {
        let e0 = find_byte(b, 10u8, 0);
        match request_line_of(b.subrange(0, e0)) {
            Err(f) => Err(f),
            Ok(rl) => {
                let hs = if e0 < b.len() {
                    headers_from(b, e0 + 1, Map::empty())
                } else {
                    Some(Map::empty())
                };
                match hs {
                    None => Err(Fault::TodoError),
                    Some(h) => {
                        let parts = Parts {
                            method: rl.0,
                            path: uri_path(rl.1),
                            query: uri_query(rl.1),
                            headers: h,
                            body: None,
                        };
                        if h.contains_key("content-length"@) {
                            match parse_usize_spec(h["content-length"@]) {
                                None => Err(Fault::EmptyRequest),
                                Some(n) => match body_text(b, n) {
                                    Err(f) => Err(f),
                                    Ok(t) => Ok(Parts { body: Some(t), ..parts }),
                                },
                            }
                        } else {
                            Ok(parts)
                        }
                    },
                }
            },
        }
    }
}

/// The content type among decoded headers.
pub open spec fn content_type_of(h: Map<Seq<char>, Seq<char>>) -> Option<Seq<char>> {
    if h.contains_key("content-type"@) {
        Some(h["content-type"@])
    } else {
        None
    }
}

/// A decoded request.
#[derive(Debug, Clone)]
pub struct Request {
    pub method: Method,
    pub path: String,
    pub query: StringMap,
    pub headers: StringMap,
    pub body: Body,
}

impl Request {
    /// The request agrees with the decoded parts, apart from its body.
    pub open spec fn has_parts(&self, p: Parts) -> bool {
        &&& self.method == p.method
        &&& self.path@ == p.path
        &&& self.query.wf()
        &&& self.headers.wf()
        &&& self.query@ == p.query
        &&& self.headers@ == p.headers
    }

    /// Decodes one frame into a request.
    pub fn decode(frame: &[u8]) -> (r: Result<Request, LioneError>)
        ensures
            match frame_parts(frame@) {
                Err(f) => r matches Err(e) && is_fault(e, f),
                Ok(p) => match p.body {
                    None => r matches Ok(req) && req.has_parts(p) && req.body is Empty,
                    Some(t) => {
                        &&& body_decoded(
                            t,
                            content_type_of(p.headers),
                            match r {
                                Ok(req) => Ok(req.body),
                                Err(e) => Err(e),
                            },
                        )
                        &&& r matches Ok(req) ==> req.has_parts(p)
                    },
                },
            },
    {
        if all_nul(frame) {
            return Err(LioneError::EmptyRequest);
        }
        let e0 = find_in_bytes(frame, 10u8, 0);
        let (method, uri) = match parse_request_line(slice_subrange(frame, 0, e0)) {
            Ok(x) => x,
            Err(e) => return Err(e),
        };
        let (path, query) = parse_uri(&uri);
        let headers = if e0 < frame.len() {
            match parse_headers(frame, e0 + 1) {
                Some(h) => h,
                None => return Err(LioneError::TodoError),
            }
        } else {
            StringMap::new()
        };
        let mut req = Request { method, path, query, headers, body: Body::Empty };
        let length = match req.headers.get("content-length") {
            None => return Ok(req),
            Some(v) => parse_usize(&chars_of(v.as_str())),
        };
        let n = match length {
            None => return Err(LioneError::EmptyRequest),
            Some(n) => n,
        };
        let text = match extract_body(frame, n) {
            Ok(t) => t,
            Err(e) => return Err(e),
        };
        let content_type = match req.headers.get("content-type") {
            Some(c) => Some(c.as_str()),
            None => None,
        };
        let body = Body::parse(string_of(text.as_slice()), content_type);
        match body {
            Ok(b) => {
                req.body = b;
                Ok(req)
            },
            Err(e) => Err(e),
        }
    }
}

/// Whether every byte of the frame is NUL (an empty frame included).
fn all_nul(b: &[u8]) -> (r: bool)
    ensures
        r == forall|i: int| 0 <= i < b@.len() ==> b@[i] == 0u8,
{
    let mut i: usize = 0;
    while i < b.len()
        invariant
            i <= b@.len(),
            forall|j: int| 0 <= j < i ==> b@[j] == 0u8,
        decreases b@.len() - i,
    {
        if b[i] != 0 {
            return false;
        }
        i = i + 1;
    }
    true
}

/// Parses the request line into its method and URI.
pub fn parse_request_line(line: &[u8]) -> (r: Result<(Method, Vec<char>), LioneError>)
    ensures
        match request_line_of(line@) {
            Err(f) => r matches Err(e) && is_fault(e, f),
            Ok(p) => r matches Ok(q) && q.0 == p.0 && q.1@ == p.1,
        },
{
    let cs = match decode_chars(line) {
        Some(cs) => cs,
        None => return Err(LioneError::TodoError),
    };
    let s1 = skip_whitespace(&cs, 0);
    let e1 = find_token_end(&cs, s1);
    let s2 = skip_whitespace(&cs, e1);
    let e2 = find_token_end(&cs, s2);
    if s1 >= cs.len() {
        return Err(LioneError::TodoError);
    }
    let method = match Method::from_chars(&slice_chars(&cs, s1, e1)) {
        Ok(m) => m,
        Err(e) => return Err(e),
    };
    if s2 >= cs.len() {
        return Err(LioneError::TodoError);
    }
    Ok((method, slice_chars(&cs, s2, e2)))
}

/// Splits a URI into its trimmed path and its decoded query.
pub fn parse_uri(uri: &Vec<char>) -> (r: (String, StringMap))
    ensures
        r.0@ == uri_path(uri@),
        r.1.wf(),
        r.1@ == uri_query(uri@),
{
    let q = find(uri, '?', 0);
    let path = string_of(trim_chars(&slice_chars(uri, 0, q)).as_slice());
    if q < uri.len() {
        (path, parse_query(&slice_chars(uri, q + 1, uri.len())))
    } else {
        (path, StringMap::new())
    }
}

/// Decodes a query string `k1=v1&k2=v2` into a mapping.
pub fn parse_query(query: &Vec<char>) -> (r: StringMap)
    ensures
        r.wf(),
        r@ == query_of(query@),
{
    let mut m = StringMap::new();
    let mut start: usize = 0;
    loop
        invariant
            start <= query@.len(),
            m.wf(),
            query_from(query@, start as int, m@) == query_of(query@),
        decreases query@.len() - start,
    {
        let e = find(query, '&', start);
        let pair = slice_chars(query, start, e);
        let eq = find(&pair, '=', 0);
        if eq < pair.len() {
            let key = to_lowercase(string_of(trim_chars(&slice_chars(&pair, 0, eq)).as_slice()).as_str());
            let value = string_of(trim_chars(&slice_chars(&pair, eq + 1, pair.len())).as_slice());
            m.insert(key, value);
        }
        if e >= query.len() {
            return m;
        }
        start = e + 1;
    }
}

/// Parses a header line `name: value` into its lower-cased, trimmed name and value.
pub fn parse_header_line(line: &[u8]) -> (r: Result<(String, String), LioneError>)
    ensures
        r is Ok == header_of(line@) is Some,
        r matches Ok(p) ==> header_of(line@) == Some((p.0@, p.1@)),
        r matches Err(e) ==> e is TodoError,
{
    let cs = match decode_chars(line) {
        Some(cs) => cs,
        None => return Err(LioneError::TodoError),
    };
    let i = find(&cs, ':', 0);
    if i >= cs.len() {
        return Err(LioneError::TodoError);
    }
    let name = to_lowercase(string_of(trim_chars(&slice_chars(&cs, 0, i)).as_slice()).as_str());
    let value = to_lowercase(
        string_of(trim_chars(&slice_chars(&cs, i + 1, cs.len())).as_slice()).as_str(),
    );
    Ok((name, value))
}

/// Reads the header lines from offset `start` on.
fn parse_headers(b: &[u8], start: usize) -> (r: Option<StringMap>)
    requires
        start <= b@.len(),
    ensures
        r is Some == headers_from(b@, start as int, Map::empty()) is Some,
        r matches Some(m) ==> m.wf() && m@ == headers_from(b@, start as int, Map::empty())->0,
{
    let mut m = StringMap::new();
    let mut i: usize = start;
    loop
        invariant
            i <= b@.len(),
            m.wf(),
            headers_from(b@, i as int, m@) == headers_from(b@, start as int, Map::empty()),
        decreases b@.len() - i,
    {
        let e = find_in_bytes(b, 10u8, i);
        let line = slice_subrange(b, i, e);
        if line.len() == 1 && line[0] == 13u8 {
            assert(line@ =~= seq![13u8]);
            return Some(m);
        }
        assert(line@ != seq![13u8]) by {
            if line@ == seq![13u8] {
                assert(line@.len() == 1 && line@[0] == 13u8);
            }
        }
        match parse_header_line(line) {
            Ok((k, v)) => {
                m.insert(k, v);
            },
            Err(_) => return None,
        }
        if e >= b.len() {
            return Some(m);
        }
        i = e + 1;
    }
}

/// The first offset where `\r\n\r\n` starts, if any.
fn find_blank(b: &[u8]) -> (r: Option<usize>)
    ensures
        r matches Some(p) ==> p as int == find_blank_line(b@, 0) && p + 4 <= b@.len(),
        r is None ==> find_blank_line(b@, 0) == -1,
{
    let mut i: usize = 0;
    while b.len() >= 4 && i <= b.len() - 4
        invariant
            find_blank_line(b@, i as int) == find_blank_line(b@, 0),
        decreases b@.len() - i,
    {
        if b[i] == 13u8 && b[i + 1] == 10u8 && b[i + 2] == 13u8 && b[i + 3] == 10u8 {
            assert(b@.subrange(i as int, i + 4) =~= seq![13u8, 10u8, 13u8, 10u8]);
            return Some(i);
        }
        assert(b@.subrange(i as int, i + 4) != seq![13u8, 10u8, 13u8, 10u8]) by {
            if b@.subrange(i as int, i + 4) == seq![13u8, 10u8, 13u8, 10u8] {
                assert(b@.subrange(i as int, i + 4)[0] == 13u8);
                assert(b@.subrange(i as int, i + 4)[1] == 10u8);
                assert(b@.subrange(i as int, i + 4)[2] == 13u8);
                assert(b@.subrange(i as int, i + 4)[3] == 10u8);
            }
        }
        i = i + 1;
    }
    None
}

/// Takes the body text of `n` bytes after the first blank line.
fn extract_body(b: &[u8], n: usize) -> (r: Result<Vec<char>, LioneError>)
    ensures
        match body_text(b@, n as nat) {
            Err(f) => r matches Err(e) && is_fault(e, f),
            Ok(t) => r matches Ok(v) && v@ == t,
        },
{
    let p = match find_blank(b) {
        Some(p) => p,
        None => return Err(LioneError::EmptyRequest),
    };
    let len = b.len();
    assert(p + 4 <= len);
    let start = p + 4;
    let end = if n > b.len() - start {
        b.len()
    } else {
        start + n
    };
    match decode_chars(slice_subrange(b, start, end)) {
        Some(cs) => Ok(trim_chars(&trim_nul_end(&cs))),
        None => Err(LioneError::EmptyRequest),
    }
}

} // verus!
