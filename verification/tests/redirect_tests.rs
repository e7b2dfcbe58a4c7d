use ghost::config::RequestRedirectFilter;
use ghost::redirect_backend::{
    build_location, replace_first_segment_heuristic, rewrite_path, should_omit_port,
    RedirectBody, RedirectConfig,
};

fn make_config(
    filter: RequestRedirectFilter,
    original_scheme: &str,
    original_hostname: &str,
    original_port: u16,
    original_path: &str,
    original_query: &str,
) -> RedirectConfig {
    RedirectConfig {
        filter,
        original_scheme: original_scheme.to_string(),
        original_hostname: original_hostname.to_string(),
        original_port,
        original_path: original_path.to_string(),
        original_query: original_query.to_string(),
        matched_path: None,
    }
}

fn make_filter(
    scheme: Option<&str>,
    hostname: Option<&str>,
    port: Option<u16>,
    replace_full_path: Option<&str>,
    replace_prefix_match: Option<&str>,
    status_code: u16,
) -> RequestRedirectFilter {
    RequestRedirectFilter {
        scheme: scheme.map(|s| s.to_string()),
        hostname: hostname.map(|s| s.to_string()),
        path_type: None,
        replace_full_path: replace_full_path.map(|s| s.to_string()),
        replace_prefix_match: replace_prefix_match.map(|s| s.to_string()),
        port,
        status_code,
    }
}

#[test]
fn test_build_location_basic() {
    let config = make_config(
        make_filter(Some("https"), None, None, None, None, 301),
        "http",
        "example.com",
        80,
        "/path",
        "",
    );
    let location = build_location(&config).unwrap();
    assert_eq!(location, "https://example.com/path");
}

#[test]
fn test_build_location_default_ports() {
    let config = make_config(
        make_filter(Some("https"), None, Some(443), None, None, 301),
        "http",
        "example.com",
        80,
        "/path",
        "",
    );
    assert_eq!(build_location(&config).unwrap(), "https://example.com/path");

    let config = make_config(
        make_filter(Some("http"), None, Some(80), None, None, 301),
        "http",
        "example.com",
        8080,
        "/path",
        "",
    );
    assert_eq!(build_location(&config).unwrap(), "http://example.com/path");

    let config = make_config(
        make_filter(Some("https"), None, Some(8443), None, None, 301),
        "http",
        "example.com",
        80,
        "/path",
        "",
    );
    assert_eq!(build_location(&config).unwrap(), "https://example.com:8443/path");
}

#[test]
fn test_build_location_path_rewrite_full() {
    let config = make_config(
        make_filter(None, None, None, Some("/new/path"), None, 301),
        "http",
        "example.com",
        80,
        "/old/path",
        "",
    );
    assert_eq!(build_location(&config).unwrap(), "http://example.com/new/path");
}

#[test]
fn test_build_location_path_rewrite_prefix() {
    let mut config = make_config(
        make_filter(None, None, None, None, Some("/v2"), 301),
        "http",
        "example.com",
        80,
        "/v1/users/123",
        "",
    );
    config.matched_path = Some("/v1".to_string());
    assert_eq!(build_location(&config).unwrap(), "http://example.com/v2/users/123");
}

#[test]
fn test_build_location_query_preservation() {
    let config = make_config(
        make_filter(Some("https"), None, None, None, None, 301),
        "http",
        "example.com",
        80,
        "/path",
        "key=value&other=123",
    );
    assert_eq!(
        build_location(&config).unwrap(),
        "https://example.com/path?key=value&other=123"
    );
}

#[test]
fn test_build_location_percent_encoding() {
    let config = make_config(
        make_filter(Some("https"), None, None, None, None, 301),
        "http",
        "example.com",
        80,
        "/path%20with%20spaces",
        "q=hello%20world",
    );
    assert_eq!(
        build_location(&config).unwrap(),
        "https://example.com/path%20with%20spaces?q=hello%20world"
    );
}

#[test]
fn test_build_location_hostname_change() {
    let config = make_config(
        make_filter(None, Some("new.example.com"), None, None, None, 302),
        "http",
        "old.example.com",
        80,
        "/api",
        "",
    );
    assert_eq!(build_location(&config).unwrap(), "http://new.example.com/api");
}

#[test]
fn test_build_location_combined() {
    let config = make_config(
        make_filter(
            Some("https"),
            Some("new.example.com"),
            Some(443),
            Some("/v2/api"),
            None,
            301,
        ),
        "http",
        "old.example.com",
        8080,
        "/v1/api",
        "token=abc",
    );
    assert_eq!(
        build_location(&config).unwrap(),
        "https://new.example.com/v2/api?token=abc"
    );
}

#[test]
fn test_rewrite_path_prefix_with_trailing_slash() {
    let filter = make_filter(None, None, None, None, Some("/v2/"), 301);
    let result = rewrite_path(&filter, "/v1/users", Some("/v1"));
    assert_eq!(result, "/v2/users");
}

#[test]
fn test_rewrite_path_empty_remainder() {
    let filter = make_filter(None, None, None, None, Some("/v2"), 301);
    let result = rewrite_path(&filter, "/v1", Some("/v1"));
    assert_eq!(result, "/v2");
}

#[test]
fn test_should_omit_port() {
    assert!(should_omit_port("http", 80));
    assert!(should_omit_port("https", 443));
    assert!(!should_omit_port("http", 8080));
    assert!(!should_omit_port("https", 8443));
    assert!(!should_omit_port("http", 443));
    assert!(!should_omit_port("https", 80));
}

#[test]
fn test_redirect_body_is_empty() {
    let mut body = RedirectBody::new();
    assert_eq!(body.len(), Some(0));
    assert_eq!(body.read(100).len(), 0);
}

#[test]
fn test_replace_first_segment_heuristic_redirect() {
    assert_eq!(replace_first_segment_heuristic("/v1/users", "/v2"), "/v2/users");
    assert_eq!(replace_first_segment_heuristic("/", "/v2"), "/v2");
}
