use ghost::config::RouteFilters;
use ghost::director::{
    extract_path_and_query, select_backend_weighted, PathMatchCompiled, RouteEntry,
    WeightedBackendRef,
};
use ghost::vhost_director::{add_header, match_routes, set_header, RouteMatchResult, VhostDirector};
use ghost::redirect_backend::replace_first_segment_heuristic;
use std::collections::HashMap;

fn plain_entry(key: &str, priority: i32, rule_index: usize) -> RouteEntry {
    RouteEntry {
        path_match: None,
        method: None,
        headers: Vec::new(),
        query_params: Vec::new(),
        filters: None,
        backends: vec![WeightedBackendRef { key: key.to_string(), weight: 100 }],
        priority,
        rule_index,
    }
}

#[test]
fn test_extract_path_and_query() {
    assert_eq!(extract_path_and_query("/api/users"), ("/api/users", None));
    assert_eq!(
        extract_path_and_query("/api/users?foo=bar"),
        ("/api/users", Some("foo=bar"))
    );
    assert_eq!(extract_path_and_query("/api/users#fragment"), ("/api/users", None));
    assert_eq!(
        extract_path_and_query("/api/users?foo=bar#fragment"),
        ("/api/users", Some("foo=bar"))
    );
    assert_eq!(extract_path_and_query(""), ("/", None));
    assert_eq!(extract_path_and_query("?query"), ("/", Some("query")));
}

#[test]
fn vhost_director_test_select_backend_weighted_single() {
    let refs = vec![WeightedBackendRef { key: "10.0.0.1:8080".to_string(), weight: 100 }];
    let selected = select_backend_weighted(&refs).unwrap();
    assert_eq!(selected.key, "10.0.0.1:8080");
}

#[test]
fn vhost_director_test_select_backend_weighted_distribution() {
    let refs = vec![
        WeightedBackendRef { key: "10.0.0.1:8080".to_string(), weight: 90 },
        WeightedBackendRef { key: "10.0.0.2:8080".to_string(), weight: 10 },
    ];
    let mut counts = HashMap::new();
    for _ in 0..1000 {
        let selected = select_backend_weighted(&refs).unwrap();
        *counts.entry(selected.key.clone()).or_insert(0) += 1;
    }
    let count_1 = *counts.get("10.0.0.1:8080").unwrap_or(&0);
    let count_2 = *counts.get("10.0.0.2:8080").unwrap_or(&0);
    assert!(count_1 > 800, "10.0.0.1 selected {} times, expected ~900", count_1);
    assert!(count_2 < 200, "10.0.0.2 selected {} times, expected ~100", count_2);
}

#[test]
fn vhost_director_test_select_backend_weighted_empty() {
    let refs: Vec<WeightedBackendRef> = vec![];
    assert!(select_backend_weighted(&refs).is_none());
}

#[test]
fn test_match_routes_no_path_match() {
    let routes = vec![plain_entry("10.0.0.1:8080", 100, 0)];
    assert_eq!(routes.len(), 1);
    assert!(routes[0].path_match.is_none());
    assert_eq!(routes[0].backends.len(), 1);
    let headers: Vec<(String, String)> = Vec::new();
    let m = match_routes(&routes, "/anything", "GET", &headers, None).unwrap();
    assert_eq!(m.route_index, 0);
    assert_eq!(m.backends.len(), 1);
}

#[test]
fn test_match_routes_path_prefix() {
    let mut e = plain_entry("10.0.0.1:8080", 100, 0);
    e.path_match = Some(PathMatchCompiled::PathPrefix("/api".to_string()));
    let routes = vec![e];
    assert_eq!(routes.len(), 1);
    assert!(routes[0].path_match.is_some());
    let headers: Vec<(String, String)> = Vec::new();
    assert!(match_routes(&routes, "/api/users", "GET", &headers, None).is_some());
    assert!(match_routes(&routes, "/web", "GET", &headers, None).is_none());
}

#[test]
fn test_vhost_director_has_backends() {
    let director = VhostDirector::new(
        "api.example.com".to_string(),
        vec![plain_entry("10.0.0.1:8080", 100, 0)],
    );
    assert!(director.has_backends());

    let empty_director = VhostDirector::new("empty.example.com".to_string(), vec![]);
    assert!(!empty_director.has_backends());
}

#[test]
fn test_vhost_director_stats() {
    let mut director = VhostDirector::new("api.example.com".to_string(), vec![]);
    assert_eq!(director.stats().total_requests(), 0);
    director.stats.record_request("10.0.0.1:8080", 0);
    assert_eq!(director.stats().total_requests(), 1);
}

#[test]
fn test_replace_first_segment_heuristic() {
    assert_eq!(replace_first_segment_heuristic("/v1/users", "/v2"), "/v2/users");
    assert_eq!(
        replace_first_segment_heuristic("/api/v1/users/123", "/api/v2"),
        "/api/v2/v1/users/123"
    );
    assert_eq!(replace_first_segment_heuristic("/", "/v2"), "/v2");
    assert_eq!(replace_first_segment_heuristic("/v1", "/v2"), "/v2");
    assert_eq!(replace_first_segment_heuristic("/v1/users", "/v2/"), "/v2/users");
}

#[test]
fn test_route_match_result_struct() {
    let backends = vec![WeightedBackendRef { key: "10.0.0.1:8080".to_string(), weight: 100 }];
    let path_match = PathMatchCompiled::PathPrefix("/api/v1".to_string());
    let filters: Option<RouteFilters> = Some(RouteFilters {
        request_header_modifier: None,
        response_header_modifier: None,
        request_redirect: None,
        url_rewrite: None,
    });
    let result = RouteMatchResult {
        backends: &backends,
        filters: &filters,
        matched_path: Some(&path_match),
        route_index: 0,
    };
    assert_eq!(result.backends.len(), 1);
    assert!(result.filters.is_some());
    assert!(result.matched_path.is_some());
}

#[test]
fn test_priority_order_and_tie_break() {
    let low = plain_entry("B", 50, 0);
    let high = plain_entry("A", 100, 1);
    let tie_a = plain_entry("T1", 100, 2);
    let headers: Vec<(String, String)> = Vec::new();
    // Insertion keeps priority descending and, at equal priority, input order.
    let mut routes: Vec<RouteEntry> = Vec::new();
    ghost::director::insert_route(&mut routes, low);
    ghost::director::insert_route(&mut routes, high);
    ghost::director::insert_route(&mut routes, tie_a);
    assert_eq!(routes[0].backends[0].key, "A");
    assert_eq!(routes[1].backends[0].key, "T1");
    assert_eq!(routes[2].backends[0].key, "B");
    let m = match_routes(&routes, "/x", "GET", &headers, None).unwrap();
    assert_eq!(m.backends[0].key, "A");
}

#[test]
fn test_add_header_appends_comma_separated() {
    let mut headers = vec![("Cache-Control".to_string(), "max-age=60".to_string())];
    add_header(&mut headers, "cache-control", "no-store");
    let lines: Vec<&(String, String)> = headers
        .iter()
        .filter(|(k, _)| k.eq_ignore_ascii_case("cache-control"))
        .collect();
    assert_eq!(lines.len(), 1);
    assert_eq!(lines[0].1, "max-age=60,no-store");
}

#[test]
fn test_set_header_replaces_all_lines() {
    let mut headers = vec![
        ("Cache-Control".to_string(), "max-age=60".to_string()),
        ("cache-control".to_string(), "public".to_string()),
        ("X-Other".to_string(), "1".to_string()),
    ];
    set_header(&mut headers, "Cache-Control", "no-store");
    let lines: Vec<&(String, String)> = headers
        .iter()
        .filter(|(k, _)| k.eq_ignore_ascii_case("cache-control"))
        .collect();
    assert_eq!(lines.len(), 1);
    assert_eq!(lines[0].1, "no-store");
    assert!(headers.iter().any(|(k, _)| k == "X-Other"));
}
