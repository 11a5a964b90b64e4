use minihttp::{HeaderMap, Response};

fn count_occurrences(haystack: &[u8], needle: &[u8]) -> usize {
    if needle.is_empty() || haystack.len() < needle.len() {
        return 0;
    }
    let mut count = 0;
    for i in 0..=haystack.len() - needle.len() {
        if &haystack[i..i + needle.len()] == needle {
            count += 1;
        }
    }
    count
}

#[test]
fn new_sets_fields() {
    let res = Response::new(204, b"No Content".to_vec(), None);
    assert_eq!(res.status_code, 204);
    assert_eq!(res.status_text, b"No Content".to_vec());
    assert!(res.body.is_none());
    assert_eq!(res.headers.len(), 0);
}

#[test]
fn encode_ok_with_body() {
    let res = Response::ok(b"hi".to_vec(), b"text/html");
    let bytes = res.into_bytes();
    assert_eq!(
        bytes,
        b"HTTP/1.1 200 OK\r\nContent-Type: text/html\r\nContent-Length: 2\r\n\r\nhi".to_vec()
    );
}

#[test]
fn encode_not_found() {
    let res = Response::not_found();
    let bytes = res.into_bytes();
    assert_eq!(
        bytes,
        b"HTTP/1.1 404 Not Found\r\nContent-Type: text/html\r\nContent-Length: 22\r\n\r\n<h1>404 Not Found</h1>"
            .to_vec()
    );
}

#[test]
fn encode_bad_request() {
    let res = Response::bad_request();
    let bytes = res.into_bytes();
    assert_eq!(
        bytes,
        b"HTTP/1.1 400 Bad Request\r\nContent-Type: text/html\r\nContent-Length: 24\r\n\r\n<h1>400 Bad Request</h1>"
            .to_vec()
    );
}

#[test]
fn encode_without_body_has_zero_content_length() {
    let res = Response::new(204, b"No Content".to_vec(), None);
    let bytes = res.into_bytes();
    assert_eq!(bytes, b"HTTP/1.1 204 No Content\r\nContent-Length: 0\r\n\r\n".to_vec());
}

#[test]
fn encode_no_content_constructor() {
    let res = Response::no_content();
    assert_eq!(res.status_code, 204);
    assert!(res.body.is_none());
    let bytes = res.into_bytes();
    assert_eq!(bytes, b"HTTP/1.1 204 No Content\r\nContent-Length: 0\r\n\r\n".to_vec());
}

#[test]
fn encode_always_appends_exact_content_length() {
    let mut res = Response::new(200, b"OK".to_vec(), Some(b"abcdefghij".to_vec()));
    res.headers.insert(b"X-One".to_vec(), b"1".to_vec());
    let bytes = res.into_bytes();
    assert_eq!(count_occurrences(&bytes, b"Content-Length: 10\r\n"), 1);
}

#[test]
fn encode_keeps_caller_content_length_as_duplicate() {
    let mut res = Response::new(200, b"OK".to_vec(), Some(b"hi".to_vec()));
    res.headers.insert(b"Content-Length".to_vec(), b"999".to_vec());
    let bytes = res.into_bytes();
    // The caller's line is not suppressed; the computed one is appended
    // after it, so two Content-Length lines coexist on the wire.
    assert_eq!(count_occurrences(&bytes, b"Content-Length: 999\r\n"), 1);
    assert_eq!(count_occurrences(&bytes, b"Content-Length: 2\r\n"), 1);
    assert_eq!(count_occurrences(&bytes, b"Content-Length: "), 2);
}

#[test]
fn encode_multi_digit_status_and_lengths() {
    let res = Response::new(599, b"Custom".to_vec(), Some(vec![b'x'; 123]));
    let bytes = res.into_bytes();
    assert!(bytes.starts_with(b"HTTP/1.1 599 Custom\r\n"));
    assert_eq!(count_occurrences(&bytes, b"Content-Length: 123\r\n"), 1);
    assert!(bytes.ends_with(&vec![b'x'; 123][..]));
}

#[test]
fn header_map_insert_get_and_overwrite() {
    let mut map = HeaderMap::new();
    assert_eq!(map.len(), 0);
    map.insert(b"a".to_vec(), b"1".to_vec());
    map.insert(b"b".to_vec(), b"2".to_vec());
    assert_eq!(map.len(), 2);
    assert_eq!(map.get(b"a"), Some(b"1".to_vec()));
    map.insert(b"a".to_vec(), b"3".to_vec());
    assert_eq!(map.len(), 2);
    assert_eq!(map.get(b"a"), Some(b"3".to_vec()));
    assert_eq!(map.get(b"b"), Some(b"2".to_vec()));
    assert_eq!(map.get(b"c"), None);
}

#[test]
fn encode_headers_in_insertion_order_with_overwrite_at_end() {
    let mut res = Response::new(200, b"OK".to_vec(), None);
    res.headers.insert(b"A".to_vec(), b"1".to_vec());
    res.headers.insert(b"B".to_vec(), b"2".to_vec());
    res.headers.insert(b"A".to_vec(), b"3".to_vec());
    let bytes = res.into_bytes();
    assert_eq!(count_occurrences(&bytes, b"A: 1\r\n"), 0);
    assert_eq!(count_occurrences(&bytes, b"A: 3\r\n"), 1);
    assert_eq!(count_occurrences(&bytes, b"B: 2\r\n"), 1);
}
