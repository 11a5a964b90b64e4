//! The request scanner: parses one fully buffered HTTP/1.1 request into a
//! zero-copy view. Every field of the view is an (offset, offset) pair
//! into the caller's buffer; nothing is copied during scanning.
use vstd::prelude::*;

use crate::text::{
    check_utf8, is_dec_seq, is_utf8_between, is_ws_byte, dec_value, parse_dec, to_lower,
};

verus! {

/// Why a scan (or an adaptation) failed.
#[derive(Clone, Copy, PartialEq, Eq, Structural, Debug)]
pub enum ParseError {
    /// Not enough data yet: the request line, a header line, or the
    /// declared body is not fully present. The caller must accumulate
    /// more bytes and re-scan from the start.
    Partial,
    InvalidMethod,
    InvalidPath,
    InvalidVersion,
    /// A malformed header line: no colon, a name that is not valid text,
    /// or a `Content-Length` value that is not a number that fits.
    InvalidHeader,
    /// The message has more header lines than the caller-provided
    /// storage capacity admits.
    TooManyHeaders,
}

/// One header of the scanned request: the name and value as ranges of
/// the caller's buffer. The value range starts after any leading spaces
/// and tabs; trailing whitespace is part of the range.
#[derive(Clone, Copy, PartialEq, Eq, Structural, Debug)]
pub struct Header {
    pub name_start: usize,
    pub name_end: usize,
    pub value_start: usize,
    pub value_end: usize,
}

/// The zero-copy view of a scanned request: request-line tokens and the
/// body as ranges of the caller's buffer. The headers themselves sit in
/// the caller's storage vector; `header_count` says how many are valid.
#[derive(Clone, Copy, PartialEq, Eq, Structural, Debug)]
pub struct Request {
    pub method_start: usize,
    pub method_end: usize,
    pub path_start: usize,
    pub path_end: usize,
    pub version_start: usize,
    pub version_end: usize,
    pub header_count: usize,
    pub body_start: usize,
    pub body_end: usize,
}

/// First position `e >= from` with a CRLF pair at `s[e], s[e+1]`, if any.
pub open spec fn spec_find_crlf(s: Seq<u8>, from: int) -> Option<int>
    decreases s.len() - from,
{
    if from < 0 || from + 2 > s.len() {
        None
    } else if s[from] == 13 && s[from + 1] == 10 {
        Some(from)
    } else {
        spec_find_crlf(s, from + 1)
    }
}

pub proof fn lemma_find_crlf_bounds(s: Seq<u8>, from: int)
    ensures
        (match spec_find_crlf(s, from) {
            Some(e) => from <= e && e + 2 <= s.len() && s[e] == 13 && s[e + 1] == 10,
            None => true,
        }),
    decreases s.len() - from,
{
    if from < 0 || from + 2 > s.len() {
    } else if s[from] == 13 && s[from + 1] == 10 {
    } else {
        lemma_find_crlf_bounds(s, from + 1);
    }
}

/// First position of byte `b` in `s[from..to]`, or `to` if absent.
pub open spec fn spec_find_byte(s: Seq<u8>, from: int, to: int, b: u8) -> int
    decreases to - from,
{
    if from >= to {
        to
    } else if s[from] == b {
        from
    } else {
        spec_find_byte(s, from + 1, to, b)
    }
}

/// First position in `s[from..to]` that is not a space or tab, or `to`.
pub open spec fn spec_skip_ws(s: Seq<u8>, from: int, to: int) -> int
    decreases to - from,
{
    if from >= to {
        to
    } else if is_ws_byte(s[from]) {
        spec_skip_ws(s, from + 1, to)
    } else {
        from
    }
}

/// How one header line `s[pos..e]` is read: the name runs to the first
/// colon and must be valid text; the value starts after the colon with
/// leading spaces and tabs stripped and runs to the end of the line,
/// trailing whitespace kept verbatim. `None` is a malformed line.
pub open spec fn spec_header_line(s: Seq<u8>, pos: int, e: int) -> Option<Header> {
    let colon = spec_find_byte(s, pos, e, 58);
    if colon == e {
        None
    } else if !is_utf8_between(s, pos, colon) {
        None
    } else {
        let vs = spec_skip_ws(s, colon + 1, e);
        Some(
            Header {
                name_start: pos as usize,
                name_end: colon as usize,
                value_start: vs as usize,
                value_end: e as usize,
            },
        )
    }
}

/// Outcome of scanning the header section.
pub enum HeaderScan {
    /// The blank line was reached: the headers in input order, and the
    /// offset just past the terminating CRLF.
    Done { headers: Seq<Header>, end: int },
    Fail { err: ParseError },
}

/// Scans header lines from `pos` until a blank line, with `cap` storage
/// slots left. A line without its CRLF is `Partial`; a non-blank line
/// beyond capacity is `TooManyHeaders`; a malformed line is
/// `InvalidHeader`. Capacity is checked before the line is parsed.
pub open spec fn spec_scan_headers(s: Seq<u8>, pos: int, cap: int) -> HeaderScan
    decreases s.len() - pos,
        via spec_scan_headers_dec
{
    match spec_find_crlf(s, pos) {
        None => HeaderScan::Fail { err: ParseError::Partial },
        Some(e) => {
            if e == pos {
                HeaderScan::Done { headers: Seq::empty(), end: pos + 2 }
            } else if cap <= 0 {
                HeaderScan::Fail { err: ParseError::TooManyHeaders }
            } else {
                match spec_header_line(s, pos, e) {
                    None => HeaderScan::Fail { err: ParseError::InvalidHeader },
                    Some(h) => match spec_scan_headers(s, e + 2, cap - 1) {
                        HeaderScan::Done { headers, end } => HeaderScan::Done {
                            headers: seq![h] + headers,
                            end,
                        },
                        HeaderScan::Fail { err } => HeaderScan::Fail { err },
                    },
                }
            }
        },
    }
}

#[via_fn]
proof fn spec_scan_headers_dec(s: Seq<u8>, pos: int, cap: int) {
    lemma_find_crlf_bounds(s, pos);
}

/// The lower-cased name of the length-framing header, as bytes:
/// `content-length`.
pub open spec fn content_length_name() -> Seq<u8> {
    seq![99u8, 111u8, 110u8, 116u8, 101u8, 110u8, 116u8, 45u8, 108u8, 101u8, 110u8, 103u8, 116u8, 104u8]
}

/// Whether header `h` names `Content-Length`, case-insensitively.
pub open spec fn is_cl_header(s: Seq<u8>, h: Header) -> bool {
    to_lower(s.subrange(h.name_start as int, h.name_end as int)) == content_length_name()
}

/// The declared body length: the value of the first `Content-Length`
/// header at or after index `i` (0 with no such header). `None` when
/// that value is not a digit run that fits in `usize`.
pub open spec fn spec_content_length(s: Seq<u8>, hs: Seq<Header>, i: int) -> Option<int>
    decreases hs.len() - i,
{
    if i < 0 || i >= hs.len() {
        Some(0)
    } else if is_cl_header(s, hs[i]) {
        let v = s.subrange(hs[i].value_start as int, hs[i].value_end as int);
        if is_dec_seq(v) && dec_value(v) <= usize::MAX as int {
            Some(dec_value(v))
        } else {
            None
        }
    } else {
        spec_content_length(s, hs, i + 1)
    }
}

/// The whole scan, as a function of the buffer and the header-storage
/// capacity: the request line splits on single spaces into exactly three
/// non-empty tokens, the header section runs to the first blank line,
/// and the body is the declared number of bytes after it. Bytes past
/// the body are not consumed.
pub open spec fn spec_scan(s: Seq<u8>, cap: int) -> Result<(Request, Seq<Header>), ParseError> {
    match spec_find_crlf(s, 0) {
        None => Err(ParseError::Partial),
        Some(rl_end) => {
            let m_end = spec_find_byte(s, 0, rl_end, 32);
            if m_end == 0 {
                Err(ParseError::InvalidMethod)
            } else if m_end == rl_end {
                Err(ParseError::InvalidPath)
            } else {
                let p_start = m_end + 1;
                let p_end = spec_find_byte(s, p_start, rl_end, 32);
                if p_end == p_start {
                    Err(ParseError::InvalidPath)
                } else if p_end == rl_end {
                    Err(ParseError::InvalidVersion)
                } else {
                    let v_start = p_end + 1;
                    let v_end = spec_find_byte(s, v_start, rl_end, 32);
                    if v_end == v_start {
                        Err(ParseError::InvalidVersion)
                    } else {
                        match spec_scan_headers(s, rl_end + 2, cap) {
                            HeaderScan::Fail { err } => Err(err),
                            HeaderScan::Done { headers, end } => match spec_content_length(
                                s,
                                headers,
                                0,
                            ) {
                                None => Err(ParseError::InvalidHeader),
                                Some(cl) => {
                                    if s.len() < end + cl {
                                        Err(ParseError::Partial)
                                    } else if !is_utf8_between(s, 0, m_end) {
                                        Err(ParseError::InvalidMethod)
                                    } else if !is_utf8_between(s, p_start, p_end) {
                                        Err(ParseError::InvalidPath)
                                    } else if !is_utf8_between(s, v_start, v_end) {
                                        Err(ParseError::InvalidVersion)
                                    } else {
                                        Ok(
                                            (
                                                Request {
                                                    method_start: 0,
                                                    method_end: m_end as usize,
                                                    path_start: p_start as usize,
                                                    path_end: p_end as usize,
                                                    version_start: v_start as usize,
                                                    version_end: v_end as usize,
                                                    header_count: headers.len() as usize,
                                                    body_start: end as usize,
                                                    body_end: (end + cl) as usize,
                                                },
                                                headers,
                                            ),
                                        )
                                    }
                                },
                            },
                        }
                    }
                }
            }
        },
    }
}

/// All ranges of `h` lie inside a buffer of length `s.len()`, in order.
pub open spec fn header_wf(h: Header, s: Seq<u8>) -> bool {
    h.name_start <= h.name_end && h.name_end <= s.len() && h.value_start <= h.value_end
        && h.value_end <= s.len()
}

/// All ranges of the scanned request lie inside the buffer, and
/// `header_count` matches the storage.
pub open spec fn req_wf(req: Request, hs: Seq<Header>, s: Seq<u8>) -> bool {
    &&& req.method_start <= req.method_end <= s.len()
    &&& req.path_start <= req.path_end <= s.len()
    &&& req.version_start <= req.version_end <= s.len()
    &&& req.body_start <= req.body_end <= s.len()
    &&& req.header_count == hs.len()
    &&& forall|i: int| 0 <= i < hs.len() ==> header_wf(hs[i], s)
}

/// First position `e >= from` in `buffer` holding a CRLF pair, if any.
pub fn find_crlf(buffer: &[u8], from: usize) -> (r: Option<usize>)
    ensures
        (match r {
            Some(e) => from <= e && e + 2 <= buffer.len() && spec_find_crlf(buffer@, from as int)
                == Some(e as int),
            None => spec_find_crlf(buffer@, from as int) is None,
        }),
{
    if buffer.len() < 2 || from > buffer.len() - 2 {
        return None;
    }
    let mut i = from;
    while i <= buffer.len() - 2
        invariant
            from <= i,
            2 <= buffer.len(),
            spec_find_crlf(buffer@, from as int) == spec_find_crlf(buffer@, i as int),
        decreases buffer.len() - i,
    {
        if buffer[i] == 13 && buffer[i + 1] == 10 {
            return Some(i);
        }
        i = i + 1;
    }
    None
}

/// First position of `b` in `buffer[from..to]`, or `to` if absent.
pub fn find_byte(buffer: &[u8], from: usize, to: usize, b: u8) -> (r: usize)
    requires
        from <= to,
        to <= buffer.len(),
    ensures
        r == spec_find_byte(buffer@, from as int, to as int, b),
        from <= r <= to,
{
    let mut i = from;
    while i < to
        invariant
            from <= i <= to <= buffer.len(),
            spec_find_byte(buffer@, from as int, to as int, b) == spec_find_byte(
                buffer@,
                i as int,
                to as int,
                b,
            ),
        decreases to - i,
    {
        if buffer[i] == b {
            return i;
        }
        i = i + 1;
    }
    to
}

/// First position in `buffer[from..to]` that is not a space or tab.
pub fn skip_ws(buffer: &[u8], from: usize, to: usize) -> (r: usize)
    requires
        from <= to,
        to <= buffer.len(),
    ensures
        r == spec_skip_ws(buffer@, from as int, to as int),
        from <= r <= to,
{
    let mut i = from;
    while i < to
        invariant
            from <= i <= to <= buffer.len(),
            spec_skip_ws(buffer@, from as int, to as int) == spec_skip_ws(
                buffer@,
                i as int,
                to as int,
            ),
        decreases to - i,
    {
        let b = buffer[i];
        if !(b == 32 || b == 9) {
            return i;
        }
        i = i + 1;
    }
    to
}

/// Builds the exec form of `content_length_name`.
fn content_length_pat() -> (r: Vec<u8>)
    ensures
        r@ == content_length_name(),
{
    let mut v: Vec<u8> = Vec::new();
    v.push(99);
    v.push(111);
    v.push(110);
    v.push(116);
    v.push(101);
    v.push(110);
    v.push(116);
    v.push(45);
    v.push(108);
    v.push(101);
    v.push(110);
    v.push(103);
    v.push(116);
    v.push(104);
    proof {
        assert(v@ =~= content_length_name());
    }
    v
}

/// Scans one HTTP/1.1 request out of `buffer`. `headers` is the
/// caller-owned header storage; it is cleared and then filled with at
/// most `capacity` entries. On success the result is the request view
/// and the number of bytes the request occupied (header section plus
/// declared body); bytes past that are left untouched. On failure the
/// error carries nothing; entries scanned before the failure may remain
/// in the storage, as mere scratch. The scan is a pure function of
/// `buffer` and `capacity`, stated by `spec_scan`.
pub fn parse_request(buffer: &[u8], headers: &mut Vec<Header>, capacity: usize) -> (r: Result<
    (Request, usize),
    ParseError,
>)
    ensures
        (match r {
            Ok((req, n)) => {
                &&& spec_scan(buffer@, capacity as int) == Ok::<_, ParseError>((
                    req,
                    final(headers)@,
                ))
                &&& n == req.body_end
                &&& req_wf(req, final(headers)@, buffer@)
            },
            Err(e) => spec_scan(buffer@, capacity as int) == Err::<(Request, Seq<Header>), _>(e),
        }),
{
    headers.clear();
    let rl_end = match find_crlf(buffer, 0) {
        Some(e) => e,
        None => {
            return Err(ParseError::Partial);
        },
    };
    let m_end = find_byte(buffer, 0, rl_end, 32);
    if m_end == 0 {
        return Err(ParseError::InvalidMethod);
    }
    if m_end == rl_end {
        return Err(ParseError::InvalidPath);
    }
    let p_start = m_end + 1;
    let p_end = find_byte(buffer, p_start, rl_end, 32);
    if p_end == p_start {
        return Err(ParseError::InvalidPath);
    }
    if p_end == rl_end {
        return Err(ParseError::InvalidVersion);
    }
    let v_start = p_end + 1;
    let v_end = find_byte(buffer, v_start, rl_end, 32);
    if v_end == v_start {
        return Err(ParseError::InvalidVersion);
    }

    let header_start = rl_end + 2;
    let mut cursor = header_start;
    let mut count: usize = 0;
    loop
        invariant_except_break
            spec_rl(buffer@, rl_end as int, m_end as int, p_end as int, v_end as int),
            header_start == rl_end + 2,
            count <= capacity,
            headers@.len() == count,
            cursor <= buffer.len(),
            forall|i: int| 0 <= i < headers@.len() ==> header_wf(headers@[i], buffer@),
            (match spec_scan_headers(buffer@, cursor as int, capacity - count) {
                HeaderScan::Done { headers: hs2, end } => spec_scan_headers(
                    buffer@,
                    header_start as int,
                    capacity as int,
                ) == (HeaderScan::Done { headers: headers@ + hs2, end }),
                HeaderScan::Fail { err } => spec_scan_headers(
                    buffer@,
                    header_start as int,
                    capacity as int,
                ) == (HeaderScan::Fail { err }),
            }),
        ensures
            count <= capacity,
            headers@.len() == count,
            cursor <= buffer.len(),
            forall|i: int| 0 <= i < headers@.len() ==> header_wf(headers@[i], buffer@),
            spec_scan_headers(buffer@, header_start as int, capacity as int) == (HeaderScan::Done {
                headers: headers@,
                end: cursor as int,
            }),
        decreases buffer.len() - cursor,
    {
        let he = match find_crlf(buffer, cursor) {
            Some(e) => e,
            None => {
                return Err(ParseError::Partial);
            },
        };
        if he == cursor {
            proof {
                assert(headers@ + Seq::<Header>::empty() =~= headers@);
            }
            cursor = cursor + 2;
            break;
        }
        if count >= capacity {
            return Err(ParseError::TooManyHeaders);
        }
        let colon = find_byte(buffer, cursor, he, 58);
        if colon == he {
            return Err(ParseError::InvalidHeader);
        }
        if !check_utf8(buffer, cursor, colon) {
            return Err(ParseError::InvalidHeader);
        }
        let vs = skip_ws(buffer, colon + 1, he);
        let h = Header { name_start: cursor, name_end: colon, value_start: vs, value_end: he };
        let ghost old_hs = headers@;
        headers.push(h);
        count = count + 1;
        proof {
            assert(spec_header_line(buffer@, cursor as int, he as int) == Some(h));
            match spec_scan_headers(buffer@, he + 2, capacity - count) {
                HeaderScan::Done { headers: hs2, end } => {
                    assert(old_hs + (seq![h] + hs2) =~= headers@ + hs2);
                },
                HeaderScan::Fail { err } => {},
            }
        }
        cursor = he + 2;
    }

    let ghost s = buffer@;
    let ghost hs = headers@;
    let cl_name = content_length_pat();
    let mut cl: usize = 0;
    let mut j: usize = 0;
    loop
        invariant_except_break
            spec_rl(buffer@, rl_end as int, m_end as int, p_end as int, v_end as int),
            spec_scan_headers(buffer@, rl_end + 2, capacity as int) == (HeaderScan::Done {
                headers: hs,
                end: cursor as int,
            }),
            cursor <= buffer.len(),
            j <= count,
            count == headers@.len(),
            headers@ == hs,
            cl == 0usize,
            buffer@ == s,
            forall|i: int| 0 <= i < hs.len() ==> header_wf(hs[i], s),
            cl_name@ == content_length_name(),
            spec_content_length(s, hs, 0) == spec_content_length(s, hs, j as int),
        ensures
            headers@ == hs,
            spec_content_length(s, hs, 0) == Some(cl as int),
        decreases count - j,
    {
        if j >= count {
            break;
        }
        let h = headers[j];
        if range_lower_eq_header(buffer, h, &cl_name) {
            match parse_dec(buffer, h.value_start, h.value_end) {
                Some(v) => {
                    cl = v;
                    break;
                },
                None => {
                    return Err(ParseError::InvalidHeader);
                },
            }
        }
        j = j + 1;
    }

    let body_start = cursor;
    if buffer.len() - body_start < cl {
        return Err(ParseError::Partial);
    }
    let body_end = body_start + cl;
    if !check_utf8(buffer, 0, m_end) {
        return Err(ParseError::InvalidMethod);
    }
    if !check_utf8(buffer, p_start, p_end) {
        return Err(ParseError::InvalidPath);
    }
    if !check_utf8(buffer, v_start, v_end) {
        return Err(ParseError::InvalidVersion);
    }
    let req = Request {
        method_start: 0,
        method_end: m_end,
        path_start: p_start,
        path_end: p_end,
        version_start: v_start,
        version_end: v_end,
        header_count: count,
        body_start,
        body_end,
    };
    Ok((req, body_end))
}

/// The request line of `s` ends at `rl_end` and splits on single spaces
/// into three non-empty tokens, at `[0, m_end)`, `[m_end + 1, p_end)` and
/// `[p_end + 1, v_end)`.
pub open spec fn spec_rl(s: Seq<u8>, rl_end: int, m_end: int, p_end: int, v_end: int) -> bool {
    &&& spec_find_crlf(s, 0) == Some(rl_end)
    &&& rl_end + 2 <= s.len()
    &&& m_end == spec_find_byte(s, 0, rl_end, 32)
    &&& m_end != 0
    &&& m_end != rl_end
    &&& p_end == spec_find_byte(s, m_end + 1, rl_end, 32)
    &&& p_end != m_end + 1
    &&& p_end != rl_end
    &&& v_end == spec_find_byte(s, p_end + 1, rl_end, 32)
    &&& v_end != p_end + 1
    &&& 0 <= m_end <= rl_end
    &&& m_end + 1 <= p_end <= rl_end
    &&& p_end + 1 <= v_end <= rl_end
}

/// Compares the lower-cased name bytes of `h` with `pat`.
fn range_lower_eq_header(buffer: &[u8], h: Header, pat: &Vec<u8>) -> (r: bool)
    requires
        header_wf(h, buffer@),
    ensures
        r == (to_lower(buffer@.subrange(h.name_start as int, h.name_end as int)) == pat@),
{
    crate::text::range_lower_eq(buffer, h.name_start, h.name_end, pat)
}

pub proof fn lemma_find_byte_props(s: Seq<u8>, from: int, to: int, b: u8)
    requires
        0 <= from <= to <= s.len(),
    ensures
        ({
            let r = spec_find_byte(s, from, to, b);
            &&& from <= r <= to
            &&& (r < to ==> s[r] == b)
            &&& forall|i: int| from <= i < r ==> s[i] != b
        }),
    decreases to - from,
{
    if from < to && s[from] != b {
        lemma_find_byte_props(s, from + 1, to, b);
    }
}

pub proof fn lemma_skip_ws_props(s: Seq<u8>, from: int, to: int)
    requires
        0 <= from <= to <= s.len(),
    ensures
        ({
            let r = spec_skip_ws(s, from, to);
            &&& from <= r <= to
            &&& (r < to ==> !is_ws_byte(s[r]))
            &&& forall|i: int| from <= i < r ==> is_ws_byte(s[i])
        }),
    decreases to - from,
{
    if from < to && is_ws_byte(s[from]) {
        lemma_skip_ws_props(s, from + 1, to);
    }
}

/// Only leading spaces and tabs are stripped from a header value; the
/// value runs from the first non-blank byte after the colon to the exact
/// end of the line, so trailing whitespace is preserved byte for byte.
pub proof fn lemma_header_value_trim(s: Seq<u8>, pos: int, e: int, h: Header)
    requires
        0 <= pos <= e <= s.len(),
        s.len() <= usize::MAX as int,
        spec_header_line(s, pos, e) == Some(h),
    ensures
        h.name_start == pos,
        pos <= h.name_end < e,
        s[h.name_end as int] == 58,
        forall|i: int| pos <= i < h.name_end ==> s[i] != 58,
        h.name_end + 1 <= h.value_start <= e,
        h.value_end == e,
        forall|i: int| h.name_end + 1 <= i < h.value_start ==> is_ws_byte(s[i]),
        h.value_start < e ==> !is_ws_byte(s[h.value_start as int]),
{
    lemma_find_byte_props(s, pos, e, 58);
    let colon = spec_find_byte(s, pos, e, 58);
    lemma_skip_ws_props(s, colon + 1, e);
}

/// A header section that scanned to completion under some capacity
/// scans identically under any capacity admitting its header count.
pub proof fn lemma_headers_capacity_monotone(
    s: Seq<u8>,
    pos: int,
    c1: int,
    c2: int,
    hs: Seq<Header>,
    end: int,
)
    requires
        spec_scan_headers(s, pos, c1) == (HeaderScan::Done { headers: hs, end }),
        hs.len() <= c2,
    ensures
        spec_scan_headers(s, pos, c2) == (HeaderScan::Done { headers: hs, end }),
    decreases s.len() - pos,
{
    lemma_find_crlf_bounds(s, pos);
    match spec_find_crlf(s, pos) {
        None => {},
        Some(e) => {
            if e == pos {
            } else if c1 <= 0 {
            } else {
                match spec_header_line(s, pos, e) {
                    None => {},
                    Some(h) => {
                        match spec_scan_headers(s, e + 2, c1 - 1) {
                            HeaderScan::Done { headers: hs2, end: end2 } => {
                                assert(hs == seq![h] + hs2);
                                lemma_headers_capacity_monotone(s, e + 2, c1 - 1, c2 - 1, hs2, end2);
                            },
                            HeaderScan::Fail { .. } => {},
                        }
                    },
                }
            }
        },
    }
}

/// A header section holding more well-formed header lines than the
/// capacity admits fails with `TooManyHeaders`, at the first line beyond
/// capacity; the error itself carries no header.
pub proof fn lemma_headers_over_capacity(
    s: Seq<u8>,
    pos: int,
    cap: int,
    c1: int,
    hs: Seq<Header>,
    end: int,
)
    requires
        spec_scan_headers(s, pos, c1) == (HeaderScan::Done { headers: hs, end }),
        0 <= cap < hs.len(),
    ensures
        spec_scan_headers(s, pos, cap) == (HeaderScan::Fail { err: ParseError::TooManyHeaders }),
    decreases s.len() - pos,
{
    lemma_find_crlf_bounds(s, pos);
    match spec_find_crlf(s, pos) {
        None => {},
        Some(e) => {
            if e == pos {
            } else if c1 <= 0 {
            } else {
                match spec_header_line(s, pos, e) {
                    None => {},
                    Some(h) => {
                        match spec_scan_headers(s, e + 2, c1 - 1) {
                            HeaderScan::Done { headers: hs2, end: end2 } => {
                                assert(hs == seq![h] + hs2);
                                if cap > 0 {
                                    lemma_headers_over_capacity(s, e + 2, cap - 1, c1 - 1, hs2, end2);
                                }
                            },
                            HeaderScan::Fail { .. } => {},
                        }
                    },
                }
            }
        },
    }
}

/// A completed header section ends just past a blank line that is
/// really there, within the buffer, and holds at most `cap` headers.
pub proof fn lemma_scan_headers_done(s: Seq<u8>, pos: int, cap: int, hs: Seq<Header>, end: int)
    requires
        0 <= pos,
        spec_scan_headers(s, pos, cap) == (HeaderScan::Done { headers: hs, end }),
    ensures
        pos + 2 <= end <= s.len(),
        s[end - 2] == 13 && s[end - 1] == 10,
        cap >= 0 ==> hs.len() <= cap,
        hs.len() <= end - pos,
    decreases s.len() - pos,
{
    lemma_find_crlf_bounds(s, pos);
    match spec_find_crlf(s, pos) {
        None => {},
        Some(e) => {
            if e == pos {
            } else if cap <= 0 {
            } else {
                match spec_header_line(s, pos, e) {
                    None => {},
                    Some(h) => {
                        match spec_scan_headers(s, e + 2, cap - 1) {
                            HeaderScan::Done { headers: hs2, end: end2 } => {
                                lemma_scan_headers_done(s, e + 2, cap - 1, hs2, end2);
                            },
                            HeaderScan::Fail { .. } => {},
                        }
                    },
                }
            }
        },
    }
}

/// What a successful scan guarantees: the headers fit the capacity and
/// are counted exactly; the bytes consumed are the header-section length
/// (`body_start`) plus the declared body length; the terminating blank
/// line is really present; and the body lies entirely within the buffer,
/// so no truncated body is ever returned.
pub proof fn lemma_scan_ok_shape(s: Seq<u8>, cap: int, req: Request, hs: Seq<Header>)
    requires
        s.len() <= usize::MAX as int,
        0 <= cap,
        spec_scan(s, cap) == Ok::<_, ParseError>((req, hs)),
    ensures
        req.header_count == hs.len(),
        hs.len() <= cap,
        spec_content_length(s, hs, 0) == Some(req.body_end - req.body_start),
        req.body_end <= s.len(),
        4 <= req.body_start <= req.body_end,
        s[req.body_start - 2] == 13 && s[req.body_start - 1] == 10,
        (match spec_find_crlf(s, 0) {
            Some(rl_end) => spec_scan_headers(s, rl_end + 2, cap) == (HeaderScan::Done {
                headers: hs,
                end: req.body_start as int,
            }),
            None => false,
        }),
{
    lemma_find_crlf_bounds(s, 0);
    match spec_find_crlf(s, 0) {
        None => {},
        Some(rl_end) => {
            match spec_scan_headers(s, rl_end + 2, cap) {
                HeaderScan::Done { headers: hs0, end } => {
                    lemma_scan_headers_done(s, rl_end + 2, cap, hs0, end);
                    match spec_content_length(s, hs0, 0) {
                        Some(cl) => {
                            lemma_content_length_nonneg(s, hs0, 0, cl);
                        },
                        None => {},
                    }
                },
                HeaderScan::Fail { .. } => {},
            }
        },
    }
}

/// A declared content length is never negative.
pub proof fn lemma_content_length_nonneg(s: Seq<u8>, hs: Seq<Header>, i: int, cl: int)
    requires
        spec_content_length(s, hs, i) == Some(cl),
    ensures
        cl >= 0,
    decreases hs.len() - i,
{
    if i < 0 || i >= hs.len() {
    } else if is_cl_header(s, hs[i]) {
        let v = s.subrange(hs[i].value_start as int, hs[i].value_end as int);
        if is_dec_seq(v) && dec_value(v) <= usize::MAX as int {
            crate::text::lemma_dec_value_nonneg(v);
        }
    } else {
        lemma_content_length_nonneg(s, hs, i + 1, cl);
    }
}

/// A request that scans successfully under some capacity scans to the
/// very same outcome under any capacity that admits its header count:
/// the same `k` headers in input order and the same bytes consumed.
pub proof fn lemma_scan_success_capacity(
    s: Seq<u8>,
    c1: int,
    c2: int,
    req: Request,
    hs: Seq<Header>,
)
    requires
        spec_scan(s, c1) == Ok::<_, ParseError>((req, hs)),
        hs.len() <= c2,
    ensures
        spec_scan(s, c2) == Ok::<_, ParseError>((req, hs)),
{
    match spec_find_crlf(s, 0) {
        None => {},
        Some(rl_end) => {
            match spec_scan_headers(s, rl_end + 2, c1) {
                HeaderScan::Done { headers: hs0, end } => {
                    lemma_headers_capacity_monotone(s, rl_end + 2, c1, c2, hs0, end);
                },
                HeaderScan::Fail { .. } => {},
            }
        },
    }
}

/// If a request is well-formed with `k` headers but the storage capacity
/// is below `k`, the scan fails with `TooManyHeaders`, and the error
/// exposes none of the headers scanned before that point.
pub proof fn lemma_scan_too_many_headers(
    s: Seq<u8>,
    c1: int,
    cap: int,
    req: Request,
    hs: Seq<Header>,
)
    requires
        spec_scan(s, c1) == Ok::<_, ParseError>((req, hs)),
        0 <= cap < hs.len(),
    ensures
        spec_scan(s, cap) == Err::<(Request, Seq<Header>), _>(ParseError::TooManyHeaders),
{
    match spec_find_crlf(s, 0) {
        None => {},
        Some(rl_end) => {
            match spec_scan_headers(s, rl_end + 2, c1) {
                HeaderScan::Done { headers: hs0, end } => {
                    lemma_headers_over_capacity(s, rl_end + 2, cap, c1, hs0, end);
                },
                HeaderScan::Fail { .. } => {},
            }
        },
    }
}

/// The first CRLF at or after `pos` sits exactly at `e` when `e` holds
/// one and no earlier pair does.
pub proof fn lemma_find_crlf_first(s: Seq<u8>, pos: int, e: int)
    requires
        0 <= pos <= e,
        e + 2 <= s.len(),
        s[e] == 13 && s[e + 1] == 10,
        forall|i: int| pos <= i < e ==> !((#[trigger] s[i]) == 13 && s[i + 1] == 10),
    ensures
        spec_find_crlf(s, pos) == Some(e),
    decreases e - pos,
{
    if pos < e {
        lemma_find_crlf_first(s, pos + 1, e);
    }
}

/// The first occurrence of `b` in `s[pos..to]` sits exactly at `e` when
/// `e` holds one (or `e == to` with none at all) and no earlier index
/// does.
pub proof fn lemma_find_byte_first(s: Seq<u8>, pos: int, to: int, e: int, b: u8)
    requires
        0 <= pos <= e <= to <= s.len(),
        e < to ==> s[e] == b,
        forall|i: int| pos <= i < e ==> s[i] != b,
    ensures
        spec_find_byte(s, pos, to, b) == e,
    decreases e - pos,
{
    if pos < e {
        lemma_find_byte_first(s, pos + 1, to, e, b);
    }
}

/// `s[start..e]` is one well-formed header line whose CRLF sits at `e`:
/// no CRLF pair inside, a colon before the end, and a name of valid
/// text up to the first colon.
pub open spec fn wf_header_line(s: Seq<u8>, start: int, e: int) -> bool {
    &&& 0 <= start < e
    &&& e + 2 <= s.len()
    &&& s[e] == 13 && s[e + 1] == 10
    &&& forall|i: int| start <= i < e ==> !((#[trigger] s[i]) == 13 && s[i + 1] == 10)
    &&& spec_find_byte(s, start, e, 58) < e
    &&& is_utf8_between(s, start, spec_find_byte(s, start, e, 58))
}

/// From `pos` on, `s` holds exactly the header lines at `lines` (each
/// entry a line start and its CRLF position), then the blank line, with
/// `end` just past the terminating CRLF.
pub open spec fn wf_header_section(s: Seq<u8>, pos: int, lines: Seq<(int, int)>, end: int) -> bool
    decreases lines.len(),
{
    if lines.len() == 0 {
        &&& 0 <= pos
        &&& pos + 2 <= s.len()
        &&& s[pos] == 13 && s[pos + 1] == 10
        &&& end == pos + 2
    } else {
        &&& lines[0].0 == pos
        &&& wf_header_line(s, pos, lines[0].1)
        &&& wf_header_section(s, lines[0].1 + 2, lines.subrange(1, lines.len() as int), end)
    }
}

/// The header view that scanning the line `[start, e)` yields.
pub open spec fn header_at_line(s: Seq<u8>, start: int, e: int) -> Header {
    let colon = spec_find_byte(s, start, e, 58);
    Header {
        name_start: start as usize,
        name_end: colon as usize,
        value_start: spec_skip_ws(s, colon + 1, e) as usize,
        value_end: e as usize,
    }
}

/// The header views that scanning the lines at `lines` yields, in input
/// order.
pub open spec fn headers_of_lines(s: Seq<u8>, lines: Seq<(int, int)>) -> Seq<Header> {
    Seq::new(lines.len(), |i: int| header_at_line(s, lines[i].0, lines[i].1))
}

/// Scanning a well-formed header section under sufficient capacity
/// finds exactly its lines, in order, and stops just past the blank
/// line.
pub proof fn lemma_scan_headers_layout(
    s: Seq<u8>,
    pos: int,
    lines: Seq<(int, int)>,
    end: int,
    cap: int,
)
    requires
        wf_header_section(s, pos, lines, end),
        lines.len() <= cap,
    ensures
        spec_scan_headers(s, pos, cap) == (HeaderScan::Done {
            headers: headers_of_lines(s, lines),
            end,
        }),
    decreases lines.len(),
{
    if lines.len() == 0 {
        assert(spec_find_crlf(s, pos) == Some(pos));
        assert(headers_of_lines(s, lines) =~= Seq::<Header>::empty());
    } else {
        let e = lines[0].1;
        lemma_find_crlf_first(s, pos, e);
        let h = header_at_line(s, pos, e);
        assert(spec_header_line(s, pos, e) == Some(h));
        let tail = lines.subrange(1, lines.len() as int);
        lemma_scan_headers_layout(s, e + 2, tail, end, cap - 1);
        assert(seq![h] + headers_of_lines(s, tail) =~= headers_of_lines(s, lines));
    }
}

/// `s` is laid out as one whole well-formed request: a request line
/// ending at `rl_end` whose three non-empty tokens end at `m_end`,
/// `p_end` and `v_end` and are valid text, then the header lines at
/// `lines`, then the blank line, with the body starting at `body_start`.
pub open spec fn wf_request_layout(
    s: Seq<u8>,
    rl_end: int,
    m_end: int,
    p_end: int,
    v_end: int,
    lines: Seq<(int, int)>,
    body_start: int,
) -> bool {
    &&& rl_end + 2 <= s.len()
    &&& s[rl_end] == 13 && s[rl_end + 1] == 10
    &&& forall|i: int| 0 <= i < rl_end ==> !((#[trigger] s[i]) == 13 && s[i + 1] == 10)
    &&& 0 < m_end < rl_end
    &&& s[m_end] == 32
    &&& forall|i: int| 0 <= i < m_end ==> s[i] != 32
    &&& m_end + 1 < p_end < rl_end
    &&& s[p_end] == 32
    &&& forall|i: int| m_end + 1 <= i < p_end ==> s[i] != 32
    &&& p_end + 1 < v_end <= rl_end
    &&& (v_end < rl_end ==> s[v_end] == 32)
    &&& forall|i: int| p_end + 1 <= i < v_end ==> s[i] != 32
    &&& is_utf8_between(s, 0, m_end)
    &&& is_utf8_between(s, m_end + 1, p_end)
    &&& is_utf8_between(s, p_end + 1, v_end)
    &&& wf_header_section(s, rl_end + 2, lines, body_start)
}

/// Any buffer laid out as a well-formed request with `k` header lines
/// and a consistent declared body length scans successfully under every
/// capacity admitting `k`: exactly those `k` headers come back in input
/// order, and the bytes consumed are the header-section length
/// (`body_start`) plus the declared body length.
pub proof fn lemma_scan_well_formed(
    s: Seq<u8>,
    cap: int,
    rl_end: int,
    m_end: int,
    p_end: int,
    v_end: int,
    lines: Seq<(int, int)>,
    body_start: int,
    cl: int,
)
    requires
        s.len() <= usize::MAX as int,
        wf_request_layout(s, rl_end, m_end, p_end, v_end, lines, body_start),
        lines.len() <= cap,
        spec_content_length(s, headers_of_lines(s, lines), 0) == Some(cl),
        body_start + cl <= s.len(),
    ensures
        spec_scan(s, cap) == Ok::<_, ParseError>((
            Request {
                method_start: 0,
                method_end: m_end as usize,
                path_start: (m_end + 1) as usize,
                path_end: p_end as usize,
                version_start: (p_end + 1) as usize,
                version_end: v_end as usize,
                header_count: lines.len() as usize,
                body_start: body_start as usize,
                body_end: (body_start + cl) as usize,
            },
            headers_of_lines(s, lines),
        )),
{
    lemma_find_crlf_first(s, 0, rl_end);
    lemma_find_byte_first(s, 0, rl_end, m_end, 32);
    lemma_find_byte_first(s, m_end + 1, rl_end, p_end, 32);
    lemma_find_byte_first(s, p_end + 1, rl_end, v_end, 32);
    lemma_scan_headers_layout(s, rl_end + 2, lines, body_start, cap);
    lemma_scan_headers_done(s, rl_end + 2, cap, headers_of_lines(s, lines), body_start);
    lemma_content_length_nonneg(s, headers_of_lines(s, lines), 0, cl);
}

/// If the request line is well-formed but the header section runs out of
/// buffer before its blank line, or the declared body length exceeds
/// what the buffer holds past the headers, the scan fails with
/// `Partial`: a truncated request is never returned.
pub proof fn lemma_scan_partial(
    s: Seq<u8>,
    cap: int,
    rl_end: int,
    m_end: int,
    p_end: int,
    v_end: int,
)
    requires
        spec_rl(s, rl_end, m_end, p_end, v_end),
        ({
            ||| spec_scan_headers(s, rl_end + 2, cap) == (HeaderScan::Fail {
                err: ParseError::Partial,
            })
            ||| (match spec_scan_headers(s, rl_end + 2, cap) {
                HeaderScan::Done { headers, end } => (match spec_content_length(s, headers, 0) {
                    Some(cl) => s.len() < end + cl,
                    None => false,
                }),
                HeaderScan::Fail { .. } => false,
            })
        }),
    ensures
        spec_scan(s, cap) == Err::<(Request, Seq<Header>), _>(ParseError::Partial),
{
}

} // verus!
