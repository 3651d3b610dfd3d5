//! Unit tests of the cache, the address parser, and the helper routines.

use http_file::cache::CacheDB;
use http_file::codec::{parse_field_line, parse_status_line, serialize_request};
use http_file::decimal::{parse_u64, u64_to_string};
use http_file::error::{is_recoverable, ErrorType, IoKind};
use http_file::http_action::{validate_chunk_response, validate_size_response};
use http_file::strutil::substring_until_pattern;
use http_file::transport::{RequestHead, ResponseHead};
use http_file::uri::URI;

#[test]
fn cache_evicts_least_recently_touched() {
    // fill three slots, touch the oldest with a get, then insert a fourth
    // offset: the evicted slot is the least recently touched one, not the
    // least recently inserted one
    let mut cache = CacheDB::new(3, 4);
    cache.insert(&[1], 10);
    cache.insert(&[2], 20);
    cache.insert(&[3], 30);
    let _ = cache.get(10);
    cache.insert(&[4], 40);
    assert!(!cache.contains(20));
    assert!(cache.contains(10));
    assert!(cache.contains(30));
    assert!(cache.contains(40));
}

#[test]
fn cache_eviction_is_insertion_order_without_touches() {
    let mut cache = CacheDB::new(2, 4);
    cache.insert(&[1], 100);
    cache.insert(&[2], 200);
    cache.insert(&[3], 300);
    assert!(!cache.contains(100));
    assert!(cache.contains(200));
    assert!(cache.contains(300));
}

#[test]
fn cache_contains_from_insert_until_eviction() {
    let mut cache = CacheDB::new(2, 4);
    assert!(!cache.contains(7));
    cache.insert(&[9], 7);
    assert!(cache.contains(7));
    cache.insert(&[9], 8);
    assert!(cache.contains(7));
    cache.insert(&[9], 9);
    assert!(!cache.contains(7));
    assert!(cache.contains(8));
    assert!(cache.contains(9));
}

#[test]
fn cache_get_returns_inserted_prefix_and_kept_tail() {
    // a short insert overwrites only the front of the evicted slot's
    // buffer; the slot keeps its previous bytes (zeroes, initially) behind
    let mut cache = CacheDB::new(2, 4);
    cache.insert(&[9, 8], 100);
    let data = cache.get(100);
    assert_eq!(data, vec![9, 8, 0, 0]);
}

#[test]
fn cache_never_exceeds_capacity() {
    let mut cache = CacheDB::new(3, 2);
    for i in 0..10u64 {
        cache.insert(&[i as u8], i * 100);
    }
    let contained: Vec<u64> = (0..10u64).map(|i| i * 100).filter(|o| cache.contains(*o)).collect();
    assert_eq!(contained, vec![700, 800, 900]);
}

#[test]
fn parse_full_address_with_default_port() {
    let u = URI::parse("http://example.test/archive/part%201.zip").unwrap();
    assert_eq!(u.protocol, "http");
    assert_eq!(u.server, "example.test:80");
    assert_eq!(u.resource, "/archive/part%201.zip");
    assert_eq!(u.name, "part 1.zip");
}

#[test]
fn parse_https_gets_443() {
    let u = URI::parse("https://example.test/x").unwrap();
    assert_eq!(u.server, "example.test:443");
    assert_eq!(u.name, "x");
}

#[test]
fn parse_keeps_explicit_port() {
    let u = URI::parse("http://example.test:8080/x").unwrap();
    assert_eq!(u.server, "example.test:8080");
}

#[test]
fn parse_trailing_slash_gives_placeholder_name() {
    let u = URI::parse("http://example.test/dir/").unwrap();
    assert_eq!(u.name, "UNNAMED");
    assert_eq!(u.resource, "/dir/");
}

#[test]
fn parse_rejects_unsupported_scheme() {
    let e = URI::parse("ftp://example.test/x").unwrap_err();
    assert!(matches!(e.error_type, ErrorType::InvalidParameter));
    assert!(e.description.contains("ftp"));
}

#[test]
fn parse_rejects_shapeless_address() {
    assert!(matches!(
        URI::parse("example.test/x").unwrap_err().error_type,
        ErrorType::InvalidParameter
    ));
    assert!(matches!(
        URI::parse("http://example.test").unwrap_err().error_type,
        ErrorType::InvalidParameter
    ));
}

#[test]
fn decode_replaces_bad_escapes_and_drops_truncated_ones() {
    assert_eq!(URI::uri_decode("a%20b"), "a b");
    assert_eq!(URI::uri_decode("a%zzb"), "a\u{FFFD}b");
    assert_eq!(URI::uri_decode("a%4"), "a");
    assert_eq!(URI::uri_decode("%41%42"), "AB");
}

#[test]
fn decimal_round_trips() {
    assert_eq!(u64_to_string(0), "0");
    assert_eq!(u64_to_string(123), "123");
    assert_eq!(u64_to_string(u64::MAX), "18446744073709551615");
    assert_eq!(parse_u64("0"), Some(0));
    assert_eq!(parse_u64("1050"), Some(1050));
    assert_eq!(parse_u64("18446744073709551615"), Some(u64::MAX));
    assert_eq!(parse_u64("18446744073709551616"), None);
    assert_eq!(parse_u64(""), None);
    assert_eq!(parse_u64("12a"), None);
}

#[test]
fn substring_extraction_and_errors() {
    let mut off = 0usize;
    let piece = substring_until_pattern("a://b/c", &mut off, "://", true).unwrap();
    assert_eq!(piece, "a");
    assert_eq!(off, 4);
    let piece = substring_until_pattern("a://b/c", &mut off, "/", false).unwrap();
    assert_eq!(piece, "b");
    assert_eq!(off, 5);
    let e = substring_until_pattern("a://b/c", &mut off, "#", true).unwrap_err();
    assert!(matches!(e.error_type, ErrorType::InvalidParameter));
    assert_eq!(off, 5);
}

#[test]
fn recoverable_kinds_are_the_transient_ones() {
    assert!(is_recoverable(IoKind::ConnectionReset));
    assert!(is_recoverable(IoKind::ConnectionAborted));
    assert!(is_recoverable(IoKind::BrokenPipe));
    assert!(is_recoverable(IoKind::WouldBlock));
    assert!(is_recoverable(IoKind::TimedOut));
    assert!(is_recoverable(IoKind::UnexpectedEof));
    assert!(!is_recoverable(IoKind::NotFound));
    assert!(!is_recoverable(IoKind::PermissionDenied));
    assert!(!is_recoverable(IoKind::OtherIo));
}

#[test]
fn io_kinds_map_to_error_taxonomy() {
    assert!(matches!(ErrorType::from(IoKind::NotFound), ErrorType::IOAccessError));
    assert!(matches!(ErrorType::from(IoKind::PermissionDenied), ErrorType::IOAccessError));
    assert!(matches!(ErrorType::from(IoKind::ConnectionReset), ErrorType::IOReadWriteError));
    assert!(matches!(ErrorType::from(IoKind::UnexpectedEof), ErrorType::IOReadWriteError));
    assert!(matches!(ErrorType::from(IoKind::TimedOut), ErrorType::TimedOut));
    assert!(matches!(ErrorType::from(IoKind::WouldBlock), ErrorType::GenericIOError(_)));
}

#[test]
fn status_line_parsing() {
    let (status, reason) = parse_status_line("HTTP/1.1 206 Partial Content").unwrap();
    assert_eq!(status, 206);
    assert_eq!(reason, "Partial Content");
    let (status, reason) = parse_status_line("HTTP/1.1 200").unwrap();
    assert_eq!(status, 200);
    assert_eq!(reason, "");
    assert!(matches!(
        parse_status_line("HTTP/1.1 abc OK").unwrap_err().error_type,
        ErrorType::InvalidData
    ));
    assert!(matches!(
        parse_status_line("no-spaces-here").unwrap_err().error_type,
        ErrorType::InvalidData
    ));
    assert!(matches!(
        parse_status_line("HTTP/1.1 99999 Too Big").unwrap_err().error_type,
        ErrorType::InvalidData
    ));
}

#[test]
fn field_line_parsing() {
    let (name, value) = parse_field_line("Content-Length:  42").unwrap();
    assert_eq!(name, "Content-Length");
    assert_eq!(value, "42");
    let (name, value) = parse_field_line("Accept-Ranges:bytes").unwrap();
    assert_eq!(name, "Accept-Ranges");
    assert_eq!(value, "bytes");
    assert!(matches!(
        parse_field_line("no colon at all").unwrap_err().error_type,
        ErrorType::InvalidData
    ));
}

#[test]
fn request_serialization() {
    let request = RequestHead {
        method: "GET".to_string(),
        resource: "/x".to_string(),
        fields: vec![
            ("Host".to_string(), "example.test:80".to_string()),
            ("Range".to_string(), "bytes=0-99".to_string()),
        ],
    };
    let wire = serialize_request(&request);
    assert_eq!(
        wire,
        "GET /x HTTP/1.1\r\nHost: example.test:80\r\nRange: bytes=0-99\r\n\r\n"
    );
}

fn head(status: u16, reason: &str, fields: Vec<(&str, &str)>) -> ResponseHead {
    ResponseHead {
        status,
        reason: reason.to_string(),
        fields: fields.into_iter().map(|(k, v)| (k.to_string(), v.to_string())).collect(),
    }
}

#[test]
fn chunk_response_validation_cases() {
    let ok = head(206, "Partial Content", vec![("Content-Range", "bytes 100-199/1000")]);
    assert!(validate_chunk_response(&ok, 100, 100).is_ok());

    let wrong_status = head(404, "Not Found", vec![]);
    let e = validate_chunk_response(&wrong_status, 100, 100).unwrap_err();
    assert!(matches!(e.error_type, ErrorType::IOAccessError));
    assert!(e.description.contains("404"));
    assert!(e.description.contains("Not Found"));

    let missing = head(206, "Partial Content", vec![]);
    let e = validate_chunk_response(&missing, 100, 100).unwrap_err();
    assert!(matches!(e.error_type, ErrorType::Unsupported));

    let mismatched = head(206, "Partial Content", vec![("Content-Range", "bytes 100-200/1000")]);
    let e = validate_chunk_response(&mismatched, 100, 100).unwrap_err();
    assert!(matches!(e.error_type, ErrorType::InvalidData));

    let unreadable = head(206, "Partial Content", vec![("Content-Range", "bytes 100-199")]);
    let e = validate_chunk_response(&unreadable, 100, 100).unwrap_err();
    assert!(matches!(e.error_type, ErrorType::InvalidParameter));
}

#[test]
fn size_response_validation_cases() {
    let ok = head(200, "OK", vec![("Accept-Ranges", "bytes"), ("Content-Length", "1000")]);
    assert_eq!(validate_size_response(&ok).unwrap(), 1000);

    let e = validate_size_response(&head(500, "Oops", vec![])).unwrap_err();
    assert!(matches!(e.error_type, ErrorType::IOAccessError));
    assert!(e.description.contains("500"));

    let e = validate_size_response(&head(200, "OK", vec![("Content-Length", "1000")]))
        .unwrap_err();
    assert!(matches!(e.error_type, ErrorType::Unsupported));

    let e = validate_size_response(
        &head(200, "OK", vec![("Accept-Ranges", "none"), ("Content-Length", "1000")]),
    )
    .unwrap_err();
    assert!(matches!(e.error_type, ErrorType::Unsupported));

    let e = validate_size_response(&head(200, "OK", vec![("Accept-Ranges", "bytes")]))
        .unwrap_err();
    assert!(matches!(e.error_type, ErrorType::Unsupported));

    let e = validate_size_response(
        &head(200, "OK", vec![("Accept-Ranges", "bytes"), ("Content-Length", "12x")]),
    )
    .unwrap_err();
    assert!(matches!(e.error_type, ErrorType::InvalidData));
}
