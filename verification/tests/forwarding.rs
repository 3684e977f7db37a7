//! Building the upstream request, tracking the response, the retry
//! schedule, and the synthesized error responses.

use porty::forward::{
    backoff_delay_ms, bad_gateway_response, build_upstream_request, missing_params_response,
    synth_error_response, ResponseTracker, RetryDecision, RetrySession, UpstreamFailure,
};
use porty::request::{parse_http_request, ParseOutcome};

fn request(buf: &[u8]) -> porty::request::HttpRequest {
    match parse_http_request(buf) {
        ParseOutcome::Complete(req, _) => req,
        _ => panic!("expected a complete request"),
    }
}

#[test]
fn upstream_request_rewrites_host_and_cleans_query() {
    let req = request(
        b"POST /api?a=1&porty_host=x&porty_port=2&b=3 HTTP/1.1\r\nHost: old\r\ncontent-length: 4\r\n\r\nbody",
    );
    let wire = build_upstream_request(&req, b"upstream");
    assert_eq!(
        wire,
        b"POST /api?a=1&b=3 HTTP/1.1\r\nhost: upstream\r\ncontent-length: 4\r\n\r\nbody".to_vec()
    );
}

#[test]
fn upstream_request_appends_host_when_absent() {
    let req = request(b"GET /p HTTP/1.1\r\nA: 1\r\n\r\n");
    let wire = build_upstream_request(&req, b"t");
    assert_eq!(wire, b"GET /p HTTP/1.1\r\na: 1\r\nhost: t\r\n\r\n".to_vec());
}

#[test]
fn upstream_request_drops_query_when_nothing_remains() {
    let req = request(b"GET /p?porty_host=h&porty_port=1 HTTP/1.1\r\n\r\n");
    let wire = build_upstream_request(&req, b"h");
    assert_eq!(wire, b"GET /p HTTP/1.1\r\nhost: h\r\n\r\n".to_vec());
}

#[test]
fn tracker_reports_first_line_and_byte_tally() {
    let mut t = ResponseTracker::new();
    t.on_chunk(b"HTTP/1.1 200");
    t.on_chunk(b" OK\r\nContent-Length: 2\r\n\r\nhi");
    let info = t.finish();
    assert_eq!(info.status, b"HTTP/1.1 200 OK".to_vec());
    assert_eq!(info.body_size, b"HTTP/1.1 200 OK\r\nContent-Length: 2\r\n\r\nhi".len());
}

#[test]
fn tracker_without_line_boundary_reports_unknown() {
    let mut t = ResponseTracker::new();
    t.on_chunk(b"no newline yet");
    let info = t.finish();
    assert_eq!(info.status, b"Unknown".to_vec());
    assert_eq!(info.body_size, 14);

    let empty = ResponseTracker::new().finish();
    assert_eq!(empty.status, b"Unknown".to_vec());
    assert_eq!(empty.body_size, 0);
}

#[test]
fn tracker_blank_first_line_reports_unknown() {
    let mut t = ResponseTracker::new();
    t.on_chunk(b"\r\nrest");
    assert_eq!(t.finish().status, b"Unknown".to_vec());
}

#[test]
fn backoff_doubles_from_100ms_without_cap() {
    assert_eq!(backoff_delay_ms(1), 100);
    assert_eq!(backoff_delay_ms(2), 200);
    assert_eq!(backoff_delay_ms(3), 400);
    assert_eq!(backoff_delay_ms(10), 100 * 512);
}

#[test]
fn two_retries_mean_exactly_three_attempts() {
    let mut s = RetrySession::new(2);
    let mut delays = Vec::new();
    let mut attempts = 0;
    loop {
        delays.push(s.current_delay_ms());
        attempts += 1;
        // every attempt fails
        match s.record_failure(UpstreamFailure::ConnectError) {
            RetryDecision::Retry => continue,
            RetryDecision::GiveUp => break,
        }
    }
    assert_eq!(attempts, 3);
    assert_eq!(delays, vec![0, 100, 200]);
    let resp = bad_gateway_response();
    let expected = b"HTTP/1.1 502 Bad Gateway\r\nContent-Type: text/plain\r\nContent-Length: 43\r\nConnection: close\r\n\r\n502 Backend connection failed after retries";
    assert_eq!(resp, expected.to_vec());
}

#[test]
fn zero_retries_mean_one_attempt() {
    let mut s = RetrySession::new(0);
    assert_eq!(s.current_delay_ms(), 0);
    assert!(matches!(
        s.record_failure(UpstreamFailure::Timeout),
        RetryDecision::GiveUp
    ));
}

#[test]
fn missing_params_response_is_the_exact_400() {
    let expected = b"HTTP/1.1 400 Bad Request\r\nContent-Type: text/plain\r\nContent-Length: 48\r\nConnection: close\r\n\r\n400 Missing porty_host and porty_port parameters";
    assert_eq!(missing_params_response(), expected.to_vec());
}

#[test]
fn synthesized_responses_carry_the_right_reason_phrase() {
    let r404 = synth_error_response(404, b"m");
    assert!(r404.starts_with(b"HTTP/1.1 404 Not Found\r\n"));
    assert!(r404.ends_with(b"\r\n\r\n404 m"));
    assert!(synth_error_response(500, b"m").starts_with(b"HTTP/1.1 500 Internal Server Error\r\n"));
    assert!(synth_error_response(503, b"m").starts_with(b"HTTP/1.1 503 Service Unavailable\r\n"));
    assert!(synth_error_response(504, b"m").starts_with(b"HTTP/1.1 504 Gateway Timeout\r\n"));
    assert!(synth_error_response(418, b"m").starts_with(b"HTTP/1.1 418 Error\r\n"));
}
