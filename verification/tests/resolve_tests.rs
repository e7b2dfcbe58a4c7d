use ghost::backend_pool::BackendPool;
use ghost::director::{build_routing_state, GhostDirector, Resolution};
use ghost::loader::load_v2_from_str;
use ghost::redirect_backend::build_location;

fn director_from(text: &str) -> GhostDirector {
    let config = load_v2_from_str(text).unwrap();
    let mut pool = BackendPool::new();
    let rs = build_routing_state(&config, &mut pool).unwrap();
    GhostDirector::new(rs, pool)
}

fn resolve(
    d: &mut GhostDirector,
    host: &str,
    url: &str,
    method: &str,
    headers: Vec<(&str, &str)>,
) -> (Resolution, String, Vec<(String, String)>) {
    let mut u = url.to_string();
    let mut hs: Vec<(String, String)> =
        headers.into_iter().map(|(k, v)| (k.to_string(), v.to_string())).collect();
    let out = d.resolve(host, &mut u, method, &mut hs, 0);
    (out.resolution, u, hs)
}

#[test]
fn test_resolve_exact_vhost() {
    let mut d = director_from(
        r#"{"version": 2, "vhosts": {"api.example.com": {"routes": [
            {"backends": [{"address": "10.0.0.1", "port": 8080, "weight": 100}], "priority": 1}
        ]}}}"#,
    );
    let (r, _, _) = resolve(&mut d, "api.example.com", "/x", "GET", vec![]);
    match r {
        Resolution::Upstream { key, .. } => assert_eq!(key, "10.0.0.1:8080"),
        _ => panic!("expected upstream"),
    }
}

#[test]
fn test_resolve_is_case_and_port_insensitive() {
    let mut d = director_from(
        r#"{"version": 2, "vhosts": {"api.example.com": {"routes": [
            {"backends": [{"address": "10.0.0.1", "port": 8080}], "priority": 1}
        ]}}}"#,
    );
    for host in ["API.Example.COM:81", "api.example.com:9999", "Api.Example.Com"] {
        let (r, _, _) = resolve(&mut d, host, "/x", "GET", vec![]);
        match r {
            Resolution::Upstream { key, .. } => assert_eq!(key, "10.0.0.1:8080"),
            _ => panic!("expected upstream for {}", host),
        }
    }
}

#[test]
fn test_resolve_wildcard_single_label() {
    let mut d = director_from(
        r#"{"version": 2, "vhosts": {"*.staging.example.com": {"routes": [
            {"backends": [{"address": "10.0.2.1", "port": 8080}], "priority": 1}
        ]}}}"#,
    );
    let (r, _, _) = resolve(&mut d, "foo.staging.example.com", "/", "GET", vec![]);
    match r {
        Resolution::Upstream { key, .. } => assert_eq!(key, "10.0.2.1:8080"),
        _ => panic!("expected upstream"),
    }
    let (r, _, _) = resolve(&mut d, "a.b.staging.example.com", "/", "GET", vec![]);
    assert!(matches!(r, Resolution::NotFound));
    let (r, _, _) = resolve(&mut d, "staging.example.com", "/", "GET", vec![]);
    assert!(matches!(r, Resolution::NotFound));
}

#[test]
fn test_resolve_priority_routes() {
    let mut d = director_from(
        r#"{"version": 2, "vhosts": {"api.example.com": {"routes": [
            {"path_match": {"type": "PathPrefix", "value": "/api/v2"},
             "backends": [{"address": "10.0.0.1", "port": 1}], "priority": 100},
            {"path_match": {"type": "PathPrefix", "value": "/api"},
             "backends": [{"address": "10.0.0.2", "port": 2}], "priority": 50}
        ]}}}"#,
    );
    let (r, _, _) = resolve(&mut d, "api.example.com", "/api/v2/users", "GET", vec![]);
    match r {
        Resolution::Upstream { key, .. } => assert_eq!(key, "10.0.0.1:1"),
        _ => panic!("expected upstream A"),
    }
    let (r, _, _) = resolve(&mut d, "api.example.com", "/api/v1/users", "GET", vec![]);
    match r {
        Resolution::Upstream { key, .. } => assert_eq!(key, "10.0.0.2:2"),
        _ => panic!("expected upstream B"),
    }
    let (r, _, _) = resolve(&mut d, "api.example.com", "/web", "GET", vec![]);
    assert!(matches!(r, Resolution::NotFound));
}

#[test]
fn test_resolve_redirect_location() {
    let mut d = director_from(
        r#"{"version": 2, "vhosts": {"api.example.com": {"routes": [
            {"path_match": {"type": "PathPrefix", "value": "/"},
             "filters": {"request_redirect": {"scheme": "https", "status_code": 301}},
             "backends": [], "priority": 1}
        ]}}}"#,
    );
    let (r, _, _) = resolve(
        &mut d,
        "api.example.com",
        "/p?x=1",
        "GET",
        vec![("Host", "api.example.com:80"), ("X-Forwarded-Proto", "http")],
    );
    match r {
        Resolution::Redirect(config) => {
            assert_eq!(config.filter.status_code, 301);
            let location = build_location(&config).unwrap();
            assert_eq!(location, "https://api.example.com/p?x=1");
        }
        _ => panic!("expected redirect"),
    }
}

#[test]
fn test_resolve_prefix_rewrite() {
    let mut d = director_from(
        r#"{"version": 2, "vhosts": {"api.example.com": {"routes": [
            {"path_match": {"type": "PathPrefix", "value": "/v1"},
             "filters": {"url_rewrite": {"path_type": "ReplacePrefixMatch", "replace_prefix_match": "/v2"}},
             "backends": [{"address": "10.0.0.1", "port": 8080}], "priority": 1}
        ]}}}"#,
    );
    let (r, url, _) = resolve(&mut d, "api.example.com", "/v1/users/123", "GET", vec![]);
    assert!(matches!(r, Resolution::Upstream { .. }));
    assert_eq!(url, "/v2/users/123");
}

#[test]
fn test_resolve_request_header_filter() {
    let mut d = director_from(
        r#"{"version": 2, "vhosts": {"api.example.com": {"routes": [
            {"filters": {"request_header_modifier": {
                "set": [{"name": "X-Set", "value": "s"}],
                "add": [{"name": "X-Add", "value": "b"}],
                "remove": ["X-Gone"]}},
             "backends": [{"address": "10.0.0.1", "port": 8080}], "priority": 1}
        ]}}}"#,
    );
    let (r, _, headers) = resolve(
        &mut d,
        "api.example.com",
        "/",
        "GET",
        vec![("X-Gone", "1"), ("X-Add", "a")],
    );
    assert!(matches!(r, Resolution::Upstream { .. }));
    assert!(!headers.iter().any(|(k, _)| k.eq_ignore_ascii_case("x-gone")));
    let adds: Vec<_> = headers.iter().filter(|(k, _)| k.eq_ignore_ascii_case("x-add")).collect();
    assert_eq!(adds.len(), 1);
    assert_eq!(adds[0].1, "a,b");
    assert!(headers.iter().any(|(k, v)| k == "X-Set" && v == "s"));
}

#[test]
fn test_resolve_response_filter_context() {
    let mut d = director_from(
        r#"{"version": 2, "vhosts": {"api.example.com": {"routes": [
            {"filters": {"response_header_modifier": {"set": [{"name": "Cache-Control", "value": "no-store"}]}},
             "backends": [{"address": "10.0.0.1", "port": 8080}], "priority": 1}
        ]}}}"#,
    );
    let mut u = "/".to_string();
    let mut hs: Vec<(String, String)> = Vec::new();
    let out = d.resolve("api.example.com", &mut u, "GET", &mut hs, 0);
    let filter = out.response_filter.expect("expected response filter");
    // Applying it at delivery time yields exactly one Cache-Control line.
    let mut resp = vec![("Cache-Control".to_string(), "max-age=60".to_string())];
    ghost::vhost_director::apply_request_header_filter(&mut resp, &filter);
    let lines: Vec<_> = resp.iter().filter(|(k, _)| k.eq_ignore_ascii_case("cache-control")).collect();
    assert_eq!(lines.len(), 1);
    assert_eq!(lines[0].1, "no-store");
}

#[test]
fn test_resolve_empty_backends_is_internal_error() {
    let mut d = director_from(
        r#"{"version": 2, "vhosts": {"api.example.com": {"routes": [
            {"path_match": {"type": "PathPrefix", "value": "/"},
             "backends": [], "priority": 1}
        ]}}}"#,
    );
    let (r, _, _) = resolve(&mut d, "api.example.com", "/x", "GET", vec![]);
    assert!(matches!(r, Resolution::InternalError));
}

#[test]
fn test_resolve_default_backends_route() {
    let mut d = director_from(
        r#"{"version": 2, "vhosts": {"api.example.com": {
            "routes": [
                {"path_match": {"type": "PathPrefix", "value": "/api"},
                 "backends": [{"address": "10.0.0.1", "port": 1}], "priority": 10}
            ],
            "default_backends": [{"address": "10.0.9.1", "port": 9}]
        }}}"#,
    );
    let (r, _, _) = resolve(&mut d, "api.example.com", "/other", "GET", vec![]);
    match r {
        Resolution::Upstream { key, .. } => assert_eq!(key, "10.0.9.1:9"),
        _ => panic!("expected default backend"),
    }
}

#[test]
fn test_reload_retains_shared_pool_entries() {
    let mut d = director_from(
        r#"{"version": 2, "vhosts": {"api.example.com": {"routes": [
            {"backends": [{"address": "10.0.0.1", "port": 8080}], "priority": 1},
            {"backends": [{"address": "10.0.0.2", "port": 8080}], "priority": 2}
        ]}}}"#,
    );
    let h1 = d.pool.get("10.0.0.1:8080").unwrap();
    assert!(d.pool.get("10.0.0.2:8080").is_some());
    let next_config = load_v2_from_str(
        r#"{"version": 2, "vhosts": {"api.example.com": {"routes": [
            {"backends": [{"address": "10.0.0.1", "port": 8080}], "priority": 1},
            {"backends": [{"address": "10.0.0.3", "port": 8080}], "priority": 2}
        ]}}}"#,
    )
    .unwrap();
    d.reload(&next_config).unwrap();
    // The surviving key keeps its handle; the dropped one is gone; the new
    // one exists.
    assert_eq!(d.pool.get("10.0.0.1:8080"), Some(h1));
    assert!(d.pool.get("10.0.0.2:8080").is_none());
    assert!(d.pool.get("10.0.0.3:8080").is_some());
    let (r, _, _) = resolve(&mut d, "api.example.com", "/x", "GET", vec![]);
    assert!(matches!(r, Resolution::Upstream { .. }));
}

#[test]
fn test_reload_rejects_bad_config_and_keeps_state() {
    let mut d = director_from(
        r#"{"version": 2, "vhosts": {"api.example.com": {"routes": [
            {"backends": [{"address": "10.0.0.1", "port": 8080}], "priority": 1}
        ]}}}"#,
    );
    // A config with an uncompilable regex fails the reload; routing keeps
    // serving from the previous state.
    let bad = ghost::config::ConfigV2 {
        version: 2,
        vhosts: vec![(
            "x.example.com".to_string(),
            ghost::config::VHostV2 {
                routes: vec![ghost::config::Route {
                    path_match: Some(ghost::config::PathMatch {
                        match_type: ghost::config::PathMatchType::RegularExpression,
                        value: "[invalid(".to_string(),
                    }),
                    method: None,
                    headers: Vec::new(),
                    query_params: Vec::new(),
                    filters: None,
                    backends: Vec::new(),
                    priority: 0,
                }],
                default_backends: Vec::new(),
            },
        )],
        default: None,
    };
    assert!(d.reload(&bad).is_err());
    let (r, _, _) = resolve(&mut d, "api.example.com", "/x", "GET", vec![]);
    assert!(matches!(r, Resolution::Upstream { .. }));
}

#[test]
fn test_stats_recorded_per_vhost() {
    let mut d = director_from(
        r#"{"version": 2, "vhosts": {"api.example.com": {"routes": [
            {"backends": [{"address": "10.0.0.1", "port": 8080}], "priority": 1}
        ]}}}"#,
    );
    for _ in 0..3 {
        let (r, _, _) = resolve(&mut d, "api.example.com", "/x", "GET", vec![]);
        assert!(matches!(r, Resolution::Upstream { .. }));
    }
    assert_eq!(d.exact[0].1.stats.total_requests(), 3);
    let report = d.exact[0].1.list_brief();
    assert!(report.contains("healthy"));
    assert!(report.contains("3"));
    let json = d.exact[0].1.list_json();
    let parsed: serde_json::Value = serde_json::from_str(&json).unwrap();
    assert_eq!(parsed["total_requests"], 3);
    assert_eq!(parsed["health"], "healthy");
}

#[test]
fn test_root_list_line() {
    let d = director_from(
        r#"{"version": 2, "vhosts": {"api.example.com": {"routes": [
            {"backends": [{"address": "10.0.0.1", "port": 8080}], "priority": 1}
        ]}}}"#,
    );
    assert_eq!(d.list(), "1 vhosts, 1 backends, default: no");
}
