//! Parsing one HTTP request from buffered bytes.

use porty::request::{parse_http_request, parse_request_line, ParseError, ParseOutcome};

fn complete(buf: &[u8]) -> (porty::request::HttpRequest, usize) {
    match parse_http_request(buf) {
        ParseOutcome::Complete(req, consumed) => (req, consumed),
        ParseOutcome::Incomplete => panic!("expected a complete request"),
        ParseOutcome::Malformed(e) => panic!("expected a complete request, got {:?}", e),
    }
}

fn malformed(buf: &[u8]) -> ParseError {
    match parse_http_request(buf) {
        ParseOutcome::Malformed(e) => e,
        _ => panic!("expected a malformed request"),
    }
}

#[test]
fn request_line_splits_at_first_question_mark() {
    let (req, _) = complete(b"GET /path?query HTTP/1.1\r\n\r\n");
    assert_eq!(req.method, b"GET".to_vec());
    assert_eq!(req.path, b"/path".to_vec());
    assert_eq!(req.query, b"query".to_vec());

    let (req, _) = complete(b"POST /a?x=1?y=2 HTTP/1.1\r\n\r\n");
    assert_eq!(req.path, b"/a".to_vec());
    assert_eq!(req.query, b"x=1?y=2".to_vec());
}

#[test]
fn request_without_question_mark_has_empty_query() {
    let (req, _) = complete(b"GET /plain HTTP/1.1\r\n\r\n");
    assert_eq!(req.path, b"/plain".to_vec());
    assert_eq!(req.query, b"".to_vec());
}

#[test]
fn request_line_without_version_is_accepted() {
    let r = parse_request_line(b"GET /x");
    let (method, path, query) = r.expect("two tokens suffice");
    assert_eq!(method, b"GET".to_vec());
    assert_eq!(path, b"/x".to_vec());
    assert_eq!(query, b"".to_vec());
}

#[test]
fn request_line_errors() {
    assert_eq!(parse_request_line(b"GET").unwrap_err(), ParseError::BadRequestLine);
    assert_eq!(parse_request_line(b"").unwrap_err(), ParseError::BadRequestLine);
    assert_eq!(
        parse_request_line(b"GET / FTP/1.1").unwrap_err(),
        ParseError::BadVersion
    );
    assert_eq!(malformed(b"GET\r\n\r\n"), ParseError::BadRequestLine);
    assert_eq!(malformed(b"GET / FTP/1.1\r\n\r\n"), ParseError::BadVersion);
}

#[test]
fn empty_head_is_rejected() {
    assert_eq!(malformed(b"\r\n"), ParseError::EmptyRequest);
    assert_eq!(malformed(b"\n"), ParseError::EmptyRequest);
}

#[test]
fn header_keys_are_lowercased_and_trimmed() {
    let (req, _) = complete(b"GET / HTTP/1.1\r\n  X-Foo  :  Bar Baz  \r\n\r\n");
    let v = req.headers.get(b"x-foo").expect("key stored lower-cased");
    assert_eq!(v, &b"Bar Baz".to_vec());
}

#[test]
fn repeated_header_key_keeps_last_value() {
    let (req, _) = complete(b"GET / HTTP/1.1\r\nA: 1\r\nB: 2\r\nA: 3\r\n\r\n");
    assert_eq!(req.headers.get(b"a"), Some(&b"3".to_vec()));
    assert_eq!(req.headers.get(b"b"), Some(&b"2".to_vec()));
    assert_eq!(req.headers.count(), 2);
}

#[test]
fn header_errors() {
    assert_eq!(malformed(b"GET / HTTP/1.1\r\nnocolonhere\r\n\r\n"), ParseError::BadHeaderLine);
    assert_eq!(malformed(b"GET / HTTP/1.1\r\n : v\r\n\r\n"), ParseError::EmptyHeaderName);
}

#[test]
fn whitespace_only_header_line_is_skipped() {
    let (req, _) = complete(b"GET / HTTP/1.1\r\nA: 1\r\n   \r\nB: 2\r\n\r\n");
    assert_eq!(req.headers.get(b"a"), Some(&b"1".to_vec()));
    assert_eq!(req.headers.get(b"b"), Some(&b"2".to_vec()));
}

#[test]
fn content_length_reads_exactly_that_many_bytes() {
    let buf = b"POST /u HTTP/1.1\r\ncontent-length: 5\r\n\r\nhelloEXTRA";
    let (req, consumed) = complete(buf);
    assert_eq!(req.body, b"hello".to_vec());
    assert_eq!(consumed, buf.len() - b"EXTRA".len());
}

#[test]
fn body_not_fully_buffered_is_incomplete() {
    let buf = b"POST /u HTTP/1.1\r\nContent-Length: 9\r\n\r\nhello";
    assert!(matches!(parse_http_request(buf), ParseOutcome::Incomplete));
}

#[test]
fn missing_or_invalid_content_length_means_empty_body() {
    let (req, consumed) = complete(b"GET / HTTP/1.1\r\n\r\nleftover");
    assert_eq!(req.body, b"".to_vec());
    assert_eq!(consumed, b"GET / HTTP/1.1\r\n\r\n".len());

    let (req, _) = complete(b"GET / HTTP/1.1\r\nContent-Length: abc\r\n\r\nrest");
    assert_eq!(req.body, b"".to_vec());
}

#[test]
fn content_length_with_plus_sign_parses() {
    let (req, _) = complete(b"POST / HTTP/1.1\r\nContent-Length: +3\r\n\r\nabcdef");
    assert_eq!(req.body, b"abc".to_vec());
}

#[test]
fn head_without_blank_line_is_incomplete() {
    assert!(matches!(
        parse_http_request(b"GET / HTTP/1.1\r\nA: 1\r\n"),
        ParseOutcome::Incomplete
    ));
    assert!(matches!(parse_http_request(b""), ParseOutcome::Incomplete));
}

#[test]
fn bare_newline_terminators_are_tolerated() {
    let (req, _) = complete(b"GET /n HTTP/1.1\nHost: h\n\n");
    assert_eq!(req.path, b"/n".to_vec());
    assert_eq!(req.headers.get(b"host"), Some(&b"h".to_vec()));
}
