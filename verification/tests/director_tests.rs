use ghost::director::{
    collect_referenced_backends, extract_path, matches_path_prefix, matches_wildcard,
    parse_host_and_port, parse_query_string, query_first_value, select_backend_weighted,
    select_backend_weighted_at, PathMatchCompiled, RouteEntry, RoutingState, WeightedBackendRef,
};
use ghost::forwarding::{collect_request_headers, content_length_of, filter_response_headers, upstream_url};
use ghost::director::normalize_host;
use ghost::rex::CompiledRegex;
use std::collections::HashMap;

fn entry(path_match: Option<PathMatchCompiled>, key: &str, priority: i32, rule_index: usize) -> RouteEntry {
    RouteEntry {
        path_match,
        method: None,
        headers: Vec::new(),
        query_params: Vec::new(),
        filters: None,
        backends: vec![WeightedBackendRef { key: key.to_string(), weight: 100 }],
        priority,
        rule_index,
    }
}

#[test]
fn test_matches_wildcard() {
    assert!(matches_wildcard("*.example.com", "foo.example.com"));
    assert!(matches_wildcard("*.example.com", "bar.example.com"));
    assert!(!matches_wildcard("*.example.com", "foo.bar.example.com"));
    assert!(!matches_wildcard("*.example.com", ".example.com"));
    assert!(!matches_wildcard("*.example.com", "example.com"));
}

#[test]
fn test_backend_ref_creation() {
    let ref1 = WeightedBackendRef { key: "10.0.0.1:8080".to_string(), weight: 100 };
    assert_eq!(ref1.key, "10.0.0.1:8080");
    assert_eq!(ref1.weight, 100);
}

#[test]
fn director_test_select_backend_weighted_single() {
    let refs = vec![WeightedBackendRef { key: "10.0.0.1:8080".to_string(), weight: 100 }];
    let selected = select_backend_weighted(&refs).unwrap();
    assert_eq!(selected.key, "10.0.0.1:8080");
}

#[test]
fn director_test_select_backend_weighted_distribution() {
    let refs = vec![
        WeightedBackendRef { key: "10.0.0.1:8080".to_string(), weight: 90 },
        WeightedBackendRef { key: "10.0.0.2:8080".to_string(), weight: 10 },
    ];
    let mut counts = HashMap::new();
    for _ in 0..1000 {
        let selected = select_backend_weighted(&refs).unwrap();
        *counts.entry(selected.key.clone()).or_insert(0) += 1;
    }
    let count_1 = *counts.get("10.0.0.1:8080").unwrap_or(&0);
    let count_2 = *counts.get("10.0.0.2:8080").unwrap_or(&0);
    assert!(count_1 > 800, "10.0.0.1 selected {} times, expected ~900", count_1);
    assert!(count_2 < 200, "10.0.0.2 selected {} times, expected ~100", count_2);
}

#[test]
fn director_test_select_backend_weighted_empty() {
    let refs: Vec<WeightedBackendRef> = vec![];
    assert!(select_backend_weighted(&refs).is_none());
}

#[test]
fn test_extract_path() {
    assert_eq!(extract_path("/api/users"), "/api/users");
    assert_eq!(extract_path("/api/users?foo=bar"), "/api/users");
    assert_eq!(extract_path("/api/users#fragment"), "/api/users");
    assert_eq!(extract_path("/api/users?foo=bar#fragment"), "/api/users");
    assert_eq!(extract_path(""), "/");
}

#[test]
fn test_matches_path_prefix() {
    assert!(matches_path_prefix("/", "/"));
    assert!(matches_path_prefix("/", "/api"));
    assert!(matches_path_prefix("/", "/api/users"));
    assert!(matches_path_prefix("/api", "/api"));
    assert!(matches_path_prefix("/api", "/api/users"));
    assert!(matches_path_prefix("/api", "/api/v2/users"));
    assert!(!matches_path_prefix("/api", "/api2"));
    assert!(!matches_path_prefix("/api", "/apiusers"));
    assert!(!matches_path_prefix("/api", "/web"));
}

#[test]
fn test_matches_path_prefix_with_trailing_slash() {
    assert!(matches_path_prefix("/api/", "/api/"));
    assert!(matches_path_prefix("/api/", "/api/users"));
    assert!(matches_path_prefix("/api/", "/api/v2/products"));
    assert!(matches_path_prefix("/api/v2/", "/api/v2/"));
    assert!(matches_path_prefix("/api/v2/", "/api/v2/products"));
    assert!(matches_path_prefix("/api/v2/", "/api/v2/users/123"));
    assert!(matches_path_prefix("/api/v1/", "/api/v1/"));
    assert!(matches_path_prefix("/api/v1/", "/api/v1/status"));
    assert!(matches_path_prefix("/api/v1/", "/api/v1/health/check"));
    assert!(!matches_path_prefix("/api/v2/", "/api/v1/products"));
    assert!(!matches_path_prefix("/api/v1/", "/api/v2/status"));
    assert!(!matches_path_prefix("/api/", "/web/api"));
    assert!(!matches_path_prefix("/api/v2/", "/api/v2"));
    assert!(!matches_path_prefix("/api/v1/", "/api/v1"));
}

#[test]
fn test_path_match_compiled_exact() {
    let pm = PathMatchCompiled::Exact("/api/v2/users".to_string());
    assert!(pm.matches("/api/v2/users"));
    assert!(!pm.matches("/api/v2/user"));
    assert!(!pm.matches("/api/v2/users/123"));
}

#[test]
fn test_path_match_compiled_prefix() {
    let pm = PathMatchCompiled::PathPrefix("/api".to_string());
    assert!(pm.matches("/api"));
    assert!(pm.matches("/api/users"));
    assert!(pm.matches("/api/v2/users"));
    assert!(!pm.matches("/api2"));
    assert!(!pm.matches("/web"));
}

#[test]
fn test_path_match_compiled_regex() {
    let re = CompiledRegex::compile(r"^/files/\d+$").unwrap();
    let pm = PathMatchCompiled::Regex(re);
    assert!(pm.matches("/files/123"));
    assert!(pm.matches("/files/456"));
    assert!(!pm.matches("/files/abc"));
    assert!(!pm.matches("/files/"));
    assert!(!pm.matches("/files/123/extra"));
}

#[test]
fn test_path_match_from_config_invalid_regex() {
    let pm = ghost::config::PathMatch {
        match_type: ghost::config::PathMatchType::RegularExpression,
        value: r"[invalid(".to_string(),
    };
    let result = PathMatchCompiled::from_config(&pm);
    assert!(result.is_err());
}

#[test]
fn test_path_match_compiled_from_routes() {
    let exact = PathMatchCompiled::Exact("/api/v2/users".to_string());
    assert!(exact.matches("/api/v2/users"));
    assert!(!exact.matches("/api/v2/user"));
    let prefix = PathMatchCompiled::PathPrefix("/api".to_string());
    assert!(prefix.matches("/api"));
    assert!(prefix.matches("/api/users"));
    assert!(!prefix.matches("/api2"));
}

#[test]
fn test_collect_referenced_backends_empty() {
    let routing = RoutingState { exact: Vec::new(), wildcards: Vec::new(), default: None };
    let keys = collect_referenced_backends(&routing);
    assert_eq!(keys.len(), 0);
}

#[test]
fn test_collect_referenced_backends_all_variants() {
    let routing = RoutingState {
        exact: vec![(
            "api.example.com".to_string(),
            vec![
                entry(Some(PathMatchCompiled::PathPrefix("/v2".to_string())), "10.0.0.1:8080", 100, 0),
                entry(Some(PathMatchCompiled::PathPrefix("/v1".to_string())), "10.0.0.2:8080", 50, 1),
                entry(None, "10.0.0.3:8080", 0, 2),
            ],
        )],
        wildcards: vec![(
            "*.staging.example.com".to_string(),
            vec![entry(None, "10.0.2.1:8080", 0, 0)],
        )],
        default: Some(vec![WeightedBackendRef { key: "10.0.99.1:80".to_string(), weight: 100 }]),
    };
    let keys = collect_referenced_backends(&routing);
    assert_eq!(keys.len(), 5);
    for expected in [
        "10.0.0.1:8080",
        "10.0.0.2:8080",
        "10.0.0.3:8080",
        "10.0.2.1:8080",
        "10.0.99.1:80",
    ] {
        assert!(keys.iter().any(|k| k == expected), "missing {}", expected);
    }
}

#[test]
fn test_select_backend_weighted_at_cumulative() {
    let refs = vec![
        WeightedBackendRef { key: "A".to_string(), weight: 90 },
        WeightedBackendRef { key: "B".to_string(), weight: 10 },
    ];
    assert_eq!(select_backend_weighted_at(&refs, 0).key, "A");
    assert_eq!(select_backend_weighted_at(&refs, 89).key, "A");
    assert_eq!(select_backend_weighted_at(&refs, 90).key, "B");
    assert_eq!(select_backend_weighted_at(&refs, 99).key, "B");
}

#[test]
fn test_parse_query_string_first_value_wins() {
    let pairs = parse_query_string("a=1&b=2&a=3&c&d=");
    let a = query_first_value(&pairs, "a").unwrap();
    assert_eq!(a, "1");
    let b = query_first_value(&pairs, "b").unwrap();
    assert_eq!(b, "2");
    let d = query_first_value(&pairs, "d").unwrap();
    assert_eq!(d, "");
    assert!(query_first_value(&pairs, "c").is_none());
    assert!(query_first_value(&pairs, "x").is_none());
}

#[test]
fn test_parse_host_and_port() {
    assert_eq!(parse_host_and_port("example.com:8080"), ("example.com", Some(8080)));
    assert_eq!(parse_host_and_port("example.com"), ("example.com", None));
    assert_eq!(parse_host_and_port("[::1]:8080"), ("[::1]", Some(8080)));
    assert_eq!(parse_host_and_port("[::1]"), ("[::1]", None));
    assert_eq!(parse_host_and_port("example.com:notaport"), ("example.com:notaport", None));
}

#[test]
fn test_forwarding_helpers() {
    let headers = vec![
        ("Connection".to_string(), "keep-alive".to_string()),
        ("X-Forwarded-For".to_string(), "1.2.3.4".to_string()),
        ("Accept".to_string(), "*/*".to_string()),
    ];
    let kept = collect_request_headers(&headers);
    assert_eq!(kept.len(), 1);
    assert_eq!(kept[0].0, "Accept");

    let resp = vec![
        ("Transfer-Encoding".to_string(), "chunked".to_string()),
        ("Content-Type".to_string(), "text/plain".to_string()),
        ("X-Forwarded-Proto".to_string(), "http".to_string()),
    ];
    let kept = filter_response_headers(&resp);
    assert_eq!(kept.len(), 2);
    assert_eq!(kept[0].0, "Content-Type");
    assert_eq!(kept[1].0, "X-Forwarded-Proto");

    assert_eq!(upstream_url("10.0.0.1", 8080, "/x?a=1"), "http://10.0.0.1:8080/x?a=1");

    let with_len = vec![
        ("Content-Type".to_string(), "text/plain".to_string()),
        ("Content-Length".to_string(), "42".to_string()),
    ];
    assert_eq!(content_length_of(&with_len), Some(42));
    let bad_len = vec![("Content-Length".to_string(), "nope".to_string())];
    assert_eq!(content_length_of(&bad_len), None);
}

#[test]
fn test_normalize_host_bracket_aware() {
    assert_eq!(normalize_host("Example.COM:8080"), "example.com");
    assert_eq!(normalize_host("example.com"), "example.com");
    assert_eq!(normalize_host("[::1]:8080"), "[::1]");
    assert_eq!(normalize_host("[::1]"), "[::1]");
}
