//! The admission ledger, the byte splice, configuration, and the
//! byte-level helpers.

use porty::admission::AdmissionController;
use porty::config::{
    buffer_bytes, host_port_bytes, log_level_from_bytes, mode_from_bytes, Config, LogLevel, Mode,
    Route,
};
use porty::splice::ByteStreamForwarder;
use porty::text::{parse_uint_capped, u64_to_dec};

#[test]
fn single_slot_admits_again_only_after_release() {
    let mut a = AdmissionController::new(1);
    assert!(a.try_acquire());
    assert!(!a.try_acquire());
    assert!(!a.try_acquire());
    a.release();
    assert!(a.try_acquire());
}

#[test]
fn admission_never_exceeds_the_cap() {
    let mut a = AdmissionController::new(3);
    let mut admitted = 0;
    for _ in 0..10 {
        if a.try_acquire() {
            admitted += 1;
        }
    }
    assert_eq!(admitted, 3);
    let mut zero = AdmissionController::new(0);
    assert!(!zero.try_acquire());
}

#[test]
fn splice_round_trips_bytes_and_counts_them() {
    let mut f = ByteStreamForwarder::new();
    let payload: Vec<u8> = (0..=255u8).collect();
    let out = f.on_chunk(&payload);
    assert_eq!(out, payload);
    let out = f.on_chunk(b"");
    assert_eq!(out, b"".to_vec());
    let out = f.on_chunk(b"\x00\xff tail");
    assert_eq!(out, b"\x00\xff tail".to_vec());
    assert_eq!(f.total_bytes(), 256 + 0 + 7);
}

#[test]
fn default_config_matches_the_documented_values() {
    let c = Config::default();
    assert_eq!(c.listen_addr, b"0.0.0.0".to_vec());
    assert_eq!(c.listen_port, 8080);
    assert_eq!(c.target_addr, b"127.0.0.1".to_vec());
    assert_eq!(c.target_port, 80);
    assert_eq!(c.max_connections, 100);
    assert_eq!(c.buffer_size_kb, 8);
    assert!(c.log_requests);
    assert_eq!(c.log_format, b"default".to_vec());
    assert!(c.routes.is_empty());
}

#[test]
fn mode_and_log_level_tags() {
    assert_eq!(mode_from_bytes(b"http"), Mode::Http);
    assert_eq!(mode_from_bytes(b"tcp"), Mode::Tcp);
    assert_eq!(mode_from_bytes(b""), Mode::Tcp);
    assert_eq!(log_level_from_bytes(b"none"), LogLevel::Silent);
    assert_eq!(log_level_from_bytes(b"verbose"), LogLevel::Verbose);
    assert_eq!(log_level_from_bytes(b"basic"), LogLevel::Basic);
    assert_eq!(log_level_from_bytes(b"anything"), LogLevel::Basic);
    assert!(!LogLevel::Silent.allows_logging());
    assert!(LogLevel::Basic.allows_logging());
    assert!(LogLevel::Verbose.is_verbose());
    assert!(!LogLevel::Basic.is_verbose());
}

fn sample_route(name: &[u8], enabled: bool) -> Route {
    Route {
        name: name.to_vec(),
        listen_port: 9000,
        target_addr: b"127.0.0.1".to_vec(),
        target_port: 80,
        enabled,
        mode: Mode::Tcp,
        host: None,
        log_level: LogLevel::Basic,
        timeout_seconds: 30,
        max_retries: 2,
    }
}

#[test]
fn only_enabled_routes_start() {
    let mut c = Config::default();
    c.routes.push(sample_route(b"a", true));
    c.routes.push(sample_route(b"b", false));
    c.routes.push(sample_route(b"c", true));
    let started = c.enabled_routes();
    assert_eq!(started.len(), 2);
    assert_eq!(started[0].name, b"a".to_vec());
    assert_eq!(started[1].name, b"c".to_vec());
}

#[test]
fn listener_and_target_addresses_format_as_host_colon_port() {
    assert_eq!(host_port_bytes(b"0.0.0.0", 8080), b"0.0.0.0:8080".to_vec());
    assert_eq!(host_port_bytes(b"h", 80), b"h:80".to_vec());
}

#[test]
fn buffer_size_is_kib() {
    assert_eq!(buffer_bytes(8), 8192);
    assert_eq!(buffer_bytes(0), 0);
}

#[test]
fn unsigned_decimal_parsing_follows_the_standard_rules() {
    assert_eq!(parse_uint_capped(b"0", 65535), Some(0));
    assert_eq!(parse_uint_capped(b"9999", 65535), Some(9999));
    assert_eq!(parse_uint_capped(b"+123", 65535), Some(123));
    assert_eq!(parse_uint_capped(b"007", 65535), Some(7));
    assert_eq!(parse_uint_capped(b"65536", 65535), None);
    assert_eq!(parse_uint_capped(b"", 65535), None);
    assert_eq!(parse_uint_capped(b"+", 65535), None);
    assert_eq!(parse_uint_capped(b"-1", 65535), None);
    assert_eq!(parse_uint_capped(b"1 2", 65535), None);
    assert_eq!(parse_uint_capped(b"12a", 65535), None);
}

#[test]
fn decimal_formatting_is_exact() {
    assert_eq!(u64_to_dec(0), b"0".to_vec());
    assert_eq!(u64_to_dec(80), b"80".to_vec());
    assert_eq!(u64_to_dec(65535), b"65535".to_vec());
    assert_eq!(u64_to_dec(u64::MAX), b"18446744073709551615".to_vec());
}
