//! Choosing the upstream target and cleaning the query string.

use porty::request::{parse_http_request, ParseOutcome};
use porty::resolve::{clean_query_string, extract_dynamic_route, resolve_route};

fn request(buf: &[u8]) -> porty::request::HttpRequest {
    match parse_http_request(buf) {
        ParseOutcome::Complete(req, _) => req,
        _ => panic!("expected a complete request"),
    }
}

#[test]
fn porty_parameters_resolve_dynamically() {
    let d = extract_dynamic_route(b"porty_host=h&porty_port=9999").expect("resolves");
    assert_eq!(d.target_host, b"h".to_vec());
    assert_eq!(d.target_port, 9999);
}

#[test]
fn unparseable_porty_port_resolves_to_no_dynamic_route() {
    assert!(extract_dynamic_route(b"porty_host=h&porty_port=abc").is_none());
    assert!(extract_dynamic_route(b"porty_host=h&porty_port=65536").is_none());
    assert!(extract_dynamic_route(b"porty_host=h").is_none());
    assert!(extract_dynamic_route(b"porty_port=80").is_none());
    assert!(extract_dynamic_route(b"").is_none());
}

#[test]
fn repeated_query_key_keeps_last_value() {
    let d = extract_dynamic_route(b"porty_port=1&porty_host=a&porty_port=2").expect("resolves");
    assert_eq!(d.target_host, b"a".to_vec());
    assert_eq!(d.target_port, 2);
}

#[test]
fn unparseable_dynamic_port_falls_back_to_default_target() {
    let req = request(b"GET /x?porty_host=h&porty_port=abc HTTP/1.1\r\n\r\n");
    let d = resolve_route(&req, None, b"fallback:8081").expect("default target resolves");
    assert_eq!(d.target_host, b"fallback".to_vec());
    assert_eq!(d.target_port, 8081);
}

#[test]
fn host_match_uses_configured_default_despite_porty_parameters() {
    let req = request(
        b"GET /x?porty_host=evil&porty_port=1 HTTP/1.1\r\nHost: api.example.com\r\n\r\n",
    );
    let cfg_host = b"api.example.com".to_vec();
    let d = resolve_route(&req, Some(&cfg_host), b"api.example.com:80").expect("resolves");
    assert_eq!(d.target_host, b"api.example.com".to_vec());
    assert_eq!(d.target_port, 80);
}

#[test]
fn host_match_is_case_sensitive_and_exact() {
    let req = request(
        b"GET /x?porty_host=h&porty_port=7 HTTP/1.1\r\nHost: API.example.com\r\n\r\n",
    );
    let cfg_host = b"api.example.com".to_vec();
    let d = resolve_route(&req, Some(&cfg_host), b"cfg:80").expect("resolves");
    assert_eq!(d.target_host, b"h".to_vec());
    assert_eq!(d.target_port, 7);
}

#[test]
fn host_match_target_without_port_defaults_to_80() {
    let req = request(b"GET / HTTP/1.1\r\nHost: a\r\n\r\n");
    let cfg_host = b"a".to_vec();
    let d = resolve_route(&req, Some(&cfg_host), b"bare-host").expect("resolves");
    assert_eq!(d.target_host, b"bare-host".to_vec());
    assert_eq!(d.target_port, 80);
}

#[test]
fn default_target_needs_host_colon_port_shape() {
    let req = request(b"GET / HTTP/1.1\r\n\r\n");
    assert!(resolve_route(&req, None, b"no-port-here").is_none());
    assert!(resolve_route(&req, None, b"a:b:c").is_none());
    let d = resolve_route(&req, None, b"h:notaport").expect("resolves with port 80");
    assert_eq!(d.target_port, 80);
}

#[test]
fn cleaning_strips_porty_pairs_and_keeps_order() {
    assert_eq!(
        clean_query_string(b"a=1&porty_host=x&porty_port=2&b=3"),
        b"a=1&b=3".to_vec()
    );
}

#[test]
fn cleaning_edge_cases() {
    assert_eq!(clean_query_string(b""), b"".to_vec());
    assert_eq!(clean_query_string(b"porty_host=x&porty_port=2"), b"".to_vec());
    assert_eq!(clean_query_string(b"a=1&&b=2"), b"a=1&&b=2".to_vec());
    assert_eq!(clean_query_string(b"porty_hostile=1"), b"porty_hostile=1".to_vec());
}
