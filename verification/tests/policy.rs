use srv::policy::{
    access_log_line, cache_header, parse_header, HeaderFault, Policy, PolicyError,
};
use srv::request::RequestMethod;

#[test]
fn parses_custom_headers() {
    let (name, value) = parse_header("X-Test: yes").unwrap();
    assert_eq!(name.as_str(), "x-test");
    assert_eq!(value.as_str(), "yes");
    assert!(parse_header("broken").is_err());
}

#[test]
fn header_errors_name_their_cause() {
    assert!(matches!(parse_header("broken"), Err(PolicyError::Header(HeaderFault::MissingSeparator, ref t)) if t == "broken"));
    assert!(matches!(parse_header("bad name: v"), Err(PolicyError::Header(HeaderFault::InvalidName, _))));
    assert!(matches!(parse_header("X: a\u{7f}b"), Err(PolicyError::Header(HeaderFault::InvalidValue, _))));
    let (name, value) = parse_header("  Cache-Control :  max-age=5, x:y  ").unwrap();
    assert_eq!((name.as_str(), value.as_str()), ("cache-control", "max-age=5, x:y"));
}

#[test]
fn builds_cache_headers() {
    assert_eq!(cache_header(0, false), "no-cache");
    assert_eq!(cache_header(60, false), "public, max-age=60");
    assert_eq!(cache_header(60, true), "public, max-age=60, immutable");
}

#[test]
fn cache_header_for_large_lifetimes() {
    assert_eq!(cache_header(31536000, true), "public, max-age=31536000, immutable");
    assert_eq!(cache_header(u64::MAX, false), format!("public, max-age={}", u64::MAX));
}

#[test]
fn immutable_requires_a_cache_lifetime() {
    assert!(matches!(Policy::new(&[], false, 0, true, false), Err(PolicyError::ImmutableWithoutCache)));
    let raws = vec!["A: 1".to_string(), "nope".to_string(), "also bad".to_string()];
    assert!(matches!(Policy::new(&raws, false, 5, false, false), Err(PolicyError::Header(HeaderFault::MissingSeparator, ref t)) if t == "nope"));
}

#[test]
fn inserts_cache_cors_then_custom_headers() {
    let raws = vec!["X-One: 1".to_string(), "Cache-Control: private".to_string()];
    let policy = Policy::new(&raws, true, 60, false, true).unwrap();
    assert!(policy.cors() && policy.verbose());
    assert_eq!(policy.cache(), "public, max-age=60");
    let inserts = policy.headers_to_insert(RequestMethod::Get, 200, false);
    let pairs: Vec<(&str, &str)> = inserts.iter().map(|(n, v)| (n.as_str(), v.as_str())).collect();
    assert_eq!(
        pairs,
        vec![
            ("cache-control", "public, max-age=60"),
            ("access-control-allow-origin", "*"),
            ("access-control-allow-methods", "GET, HEAD, OPTIONS"),
            ("access-control-allow-headers", "*"),
            ("x-one", "1"),
            ("cache-control", "private"),
        ]
    );
    assert!(policy.short_circuits(RequestMethod::Options));
    assert!(!policy.short_circuits(RequestMethod::Get));
}

#[test]
fn no_cache_header_on_errors_posts_or_present_headers() {
    let policy = Policy::new(&[], false, 0, false, false).unwrap();
    assert!(policy.headers_to_insert(RequestMethod::Get, 404, false).is_empty());
    assert!(policy.headers_to_insert(RequestMethod::Other, 200, false).is_empty());
    assert!(policy.headers_to_insert(RequestMethod::Head, 206, true).is_empty());
    assert_eq!(policy.headers_to_insert(RequestMethod::Head, 204, false).len(), 1);
    assert!(!policy.short_circuits(RequestMethod::Options));
}

#[test]
fn formats_access_log_lines() {
    assert_eq!(access_log_line("GET", "/a?b", 200, 3), "GET /a?b -> 200 (3 ms)");
}
