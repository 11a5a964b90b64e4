use minihttp::{parse_request, Header, HttpRequest, Method, ParseError, Request};

fn scan(buffer: &[u8], capacity: usize) -> (Result<(Request, usize), ParseError>, Vec<Header>) {
    let mut headers: Vec<Header> = Vec::new();
    let r = parse_request(buffer, &mut headers, capacity);
    (r, headers)
}

fn name_of<'a>(buffer: &'a [u8], h: &Header) -> &'a [u8] {
    &buffer[h.name_start..h.name_end]
}

fn value_of<'a>(buffer: &'a [u8], h: &Header) -> &'a [u8] {
    &buffer[h.value_start..h.value_end]
}

#[test]
fn scan_get_with_headers() {
    let buffer = b"GET /test HTTP/1.1\r\nHost: example.com\r\nConnection: keep-alive\r\n\r\n";
    let (r, headers) = scan(buffer, 32);
    let (req, consumed) = r.expect("well-formed request must scan");
    assert_eq!(consumed, buffer.len());
    assert_eq!(&buffer[req.method_start..req.method_end], b"GET");
    assert_eq!(&buffer[req.path_start..req.path_end], b"/test");
    assert_eq!(&buffer[req.version_start..req.version_end], b"HTTP/1.1");
    assert_eq!(req.header_count, 2);
    assert_eq!(headers.len(), 2);
    assert_eq!(name_of(buffer, &headers[0]), b"Host");
    assert_eq!(value_of(buffer, &headers[0]), b"example.com");
    assert_eq!(name_of(buffer, &headers[1]), b"Connection");
    assert_eq!(value_of(buffer, &headers[1]), b"keep-alive");
    assert_eq!(req.body_start, req.body_end);
}

#[test]
fn scan_partial_request_line() {
    let buffer = b"GET /test HTTP/1.1\r\nHost: examp";
    let (r, _) = scan(buffer, 32);
    assert_eq!(r, Err(ParseError::Partial));
}

#[test]
fn scan_empty_method() {
    let buffer = b" /test HTTP/1.1\r\n\r\n";
    let (r, _) = scan(buffer, 32);
    assert_eq!(r, Err(ParseError::InvalidMethod));
}

#[test]
fn scan_missing_path() {
    let buffer = b"GET \r\n\r\n";
    let (r, _) = scan(buffer, 32);
    assert_eq!(r, Err(ParseError::InvalidPath));
}

#[test]
fn scan_missing_version() {
    let buffer = b"GET /test\r\n\r\n";
    let (r, _) = scan(buffer, 32);
    assert_eq!(r, Err(ParseError::InvalidVersion));
}

#[test]
fn scan_header_without_colon() {
    let buffer = b"GET /test HTTP/1.1\r\nHost example.com\r\n\r\n";
    let (r, _) = scan(buffer, 32);
    assert_eq!(r, Err(ParseError::InvalidHeader));
}

#[test]
fn scan_too_many_headers() {
    let buffer = b"GET /test HTTP/1.1\r\nHeader1: a\r\nHeader2: b\r\nHeader3: c\r\n\r\n";
    let (r, _) = scan(buffer, 2);
    assert_eq!(r, Err(ParseError::TooManyHeaders));
}

#[test]
fn scan_zero_capacity_storage() {
    let buffer = b"GET /test HTTP/1.1\r\nHost: a\r\n\r\n";
    let (r, _) = scan(buffer, 0);
    assert_eq!(r, Err(ParseError::TooManyHeaders));
}

#[test]
fn scan_zero_capacity_without_headers() {
    let buffer = b"GET /test HTTP/1.1\r\n\r\n";
    let (r, _) = scan(buffer, 0);
    assert!(r.is_ok());
}

#[test]
fn scan_value_trimming_is_byte_exact() {
    let buffer = b"GET / HTTP/1.1\r\nX-Pad: \t value \t\r\n\r\n";
    let (r, headers) = scan(buffer, 32);
    let (req, _) = r.expect("well-formed request must scan");
    assert_eq!(req.header_count, 1);
    assert_eq!(value_of(buffer, &headers[0]), b"value \t");
}

#[test]
fn scan_empty_value_after_trim() {
    let buffer = b"GET / HTTP/1.1\r\nX-Empty:   \r\n\r\n";
    let (r, headers) = scan(buffer, 32);
    let (req, _) = r.expect("well-formed request must scan");
    assert_eq!(req.header_count, 1);
    assert_eq!(value_of(buffer, &headers[0]), b"");
}

#[test]
fn scan_body_framed_by_content_length() {
    let buffer = b"POST /submit HTTP/1.1\r\nContent-Length: 5\r\n\r\nhelloEXTRA";
    let (r, _) = scan(buffer, 32);
    let (req, consumed) = r.expect("well-formed request must scan");
    assert_eq!(&buffer[req.body_start..req.body_end], b"hello");
    assert_eq!(consumed, buffer.len() - 5);
}

#[test]
fn scan_trailing_bytes_not_consumed() {
    let buffer = b"GET / HTTP/1.1\r\n\r\nEXTRA";
    let (r, _) = scan(buffer, 32);
    let (req, consumed) = r.expect("well-formed request must scan");
    assert_eq!(req.body_start, req.body_end);
    assert_eq!(consumed, buffer.len() - 5);
}

#[test]
fn scan_partial_body() {
    let buffer = b"POST /submit HTTP/1.1\r\nContent-Length: 10\r\n\r\nabc";
    let (r, _) = scan(buffer, 32);
    assert_eq!(r, Err(ParseError::Partial));
}

#[test]
fn scan_missing_blank_line() {
    let buffer = b"GET / HTTP/1.1\r\nHost: a\r\n";
    let (r, _) = scan(buffer, 32);
    assert_eq!(r, Err(ParseError::Partial));
}

#[test]
fn scan_content_length_case_insensitive() {
    let buffer = b"POST / HTTP/1.1\r\ncontent-LENGTH: 3\r\n\r\nabc";
    let (r, _) = scan(buffer, 32);
    let (req, _) = r.expect("well-formed request must scan");
    assert_eq!(&buffer[req.body_start..req.body_end], b"abc");
}

#[test]
fn scan_first_content_length_wins() {
    let buffer = b"POST / HTTP/1.1\r\nContent-Length: 3\r\nContent-Length: 7\r\n\r\nabcdefg";
    let (r, _) = scan(buffer, 32);
    let (req, _) = r.expect("well-formed request must scan");
    assert_eq!(&buffer[req.body_start..req.body_end], b"abc");
}

#[test]
fn scan_non_numeric_content_length() {
    let buffer = b"POST / HTTP/1.1\r\nContent-Length: abc\r\n\r\n";
    let (r, _) = scan(buffer, 32);
    assert_eq!(r, Err(ParseError::InvalidHeader));
}

#[test]
fn scan_oversized_content_length() {
    let buffer = b"POST / HTTP/1.1\r\nContent-Length: 99999999999999999999999999\r\n\r\n";
    let (r, _) = scan(buffer, 32);
    assert_eq!(r, Err(ParseError::InvalidHeader));
}

#[test]
fn scan_non_utf8_header_name() {
    let mut buffer = b"GET / HTTP/1.1\r\nX-?: a\r\n\r\n".to_vec();
    let pos = 18; // the `?` placeholder inside the header name
    assert_eq!(buffer[pos], b'?');
    buffer[pos] = 0xFF;
    let (r, _) = scan(&buffer, 32);
    assert_eq!(r, Err(ParseError::InvalidHeader));
}

#[test]
fn scan_empty_request_line() {
    let buffer = b"\r\n\r\n";
    let (r, _) = scan(buffer, 32);
    assert_eq!(r, Err(ParseError::InvalidMethod));
}

#[test]
fn scan_extra_request_line_parts_ignored() {
    let buffer = b"GET /x HTTP/1.1 extra\r\n\r\n";
    let (r, _) = scan(buffer, 32);
    let (req, _) = r.expect("a third token ends at the next space");
    assert_eq!(&buffer[req.version_start..req.version_end], b"HTTP/1.1");
}

#[test]
fn adapt_post_with_json_body() {
    let buffer = b"POST /api/users HTTP/1.1\r\nContent-Type: application/json\r\nContent-Length: 17\r\nHost: localhost\r\n\r\n{\"user\": \"alice\"}";
    let (r, headers) = scan(buffer, 32);
    let (req, _) = r.expect("well-formed request must scan");
    let http_request =
        HttpRequest::try_from(buffer, &headers, &req).expect("adaptation must succeed");
    assert_eq!(http_request.method, Method::Post);
    assert_eq!(http_request.path, b"/api/users".to_vec());
    assert_eq!(http_request.version, b"HTTP/1.1".to_vec());
    assert_eq!(
        http_request.headers.get(b"content-type"),
        Some(b"application/json".to_vec())
    );
    assert_eq!(http_request.headers.get(b"content-length"), Some(b"17".to_vec()));
    assert_eq!(http_request.body, b"{\"user\": \"alice\"}".to_vec());
}

#[test]
fn adapt_rejects_unknown_verb() {
    let buffer = b"BREW /pot HTTP/1.1\r\n\r\n";
    let (r, headers) = scan(buffer, 32);
    let (req, _) = r.expect("the scanner accepts any non-empty method token");
    let adapted = HttpRequest::try_from(buffer, &headers, &req);
    assert!(adapted.is_err());
    assert_eq!(adapted.unwrap_err(), ParseError::InvalidMethod);
}

#[test]
fn adapt_recognizes_all_nine_verbs() {
    let cases: Vec<(&[u8], Method)> = vec![
        (b"GET", Method::Get),
        (b"POST", Method::Post),
        (b"PUT", Method::Put),
        (b"DELETE", Method::Delete),
        (b"HEAD", Method::Head),
        (b"OPTIONS", Method::Options),
        (b"CONNECT", Method::Connect),
        (b"PATCH", Method::Patch),
        (b"TRACE", Method::Trace),
    ];
    for (verb, expected) in cases {
        let mut buffer = verb.to_vec();
        buffer.extend_from_slice(b" / HTTP/1.1\r\n\r\n");
        let (r, headers) = scan(&buffer, 32);
        let (req, _) = r.expect("well-formed request must scan");
        let adapted =
            HttpRequest::try_from(&buffer, &headers, &req).expect("recognized verb must adapt");
        assert_eq!(adapted.method, expected);
    }
}

#[test]
fn adapt_lowercases_names_and_keeps_last_duplicate() {
    let buffer = b"GET / HTTP/1.1\r\nX-Dup: first\r\nx-DUP: second\r\n\r\n";
    let (r, headers) = scan(buffer, 32);
    let (req, _) = r.expect("well-formed request must scan");
    let adapted = HttpRequest::try_from(buffer, &headers, &req).expect("adaptation must succeed");
    assert_eq!(adapted.headers.len(), 1);
    assert_eq!(adapted.headers.get(b"x-dup"), Some(b"second".to_vec()));
    assert_eq!(adapted.headers.get(b"X-Dup"), None);
}
