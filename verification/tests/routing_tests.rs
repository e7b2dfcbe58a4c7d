use ghost::config::{Backend, Config, VHost};
use ghost::routing::{match_vhost, select_backend, MatchResult};
use std::collections::HashMap;

fn make_vhost(backends: Vec<(&str, u16, u32)>) -> VHost {
    VHost {
        backends: backends
            .into_iter()
            .map(|(addr, port, weight)| Backend { address: addr.to_string(), port, weight })
            .collect(),
    }
}

fn make_config(vhosts: Vec<(&str, VHost)>, default: Option<VHost>) -> Config {
    Config {
        version: 1,
        vhosts: vhosts.into_iter().map(|(k, v)| (k.to_string(), v)).collect(),
        default,
    }
}

#[test]
fn test_exact_match() {
    let config = make_config(
        vec![("api.example.com", make_vhost(vec![("10.0.0.1", 80, 100)]))],
        None,
    );
    match match_vhost(&config, "api.example.com") {
        MatchResult::Found(vhost) => {
            assert_eq!(vhost.backends.len(), 1);
            assert_eq!(vhost.backends[0].address, "10.0.0.1");
        }
        _ => panic!("Expected Found"),
    }
}

#[test]
fn test_exact_match_case_insensitive() {
    let config = make_config(
        vec![("api.example.com", make_vhost(vec![("10.0.0.1", 80, 100)]))],
        None,
    );
    match match_vhost(&config, "API.Example.COM") {
        MatchResult::Found(_) => {}
        _ => panic!("Expected Found"),
    }
}

#[test]
fn test_wildcard_match() {
    let config = make_config(
        vec![("*.staging.example.com", make_vhost(vec![("10.0.0.1", 80, 100)]))],
        None,
    );
    match match_vhost(&config, "foo.staging.example.com") {
        MatchResult::Found(_) => {}
        _ => panic!("Expected Found for foo.staging.example.com"),
    }
    match match_vhost(&config, "bar.staging.example.com") {
        MatchResult::Found(_) => {}
        _ => panic!("Expected Found for bar.staging.example.com"),
    }
}

#[test]
fn test_wildcard_single_label_only() {
    let config = make_config(
        vec![("*.staging.example.com", make_vhost(vec![("10.0.0.1", 80, 100)]))],
        None,
    );
    match match_vhost(&config, "foo.bar.staging.example.com") {
        MatchResult::NotFound => {}
        _ => panic!("Expected NotFound for foo.bar.staging.example.com"),
    }
}

#[test]
fn test_wildcard_requires_label() {
    let config = make_config(
        vec![("*.example.com", make_vhost(vec![("10.0.0.1", 80, 100)]))],
        None,
    );
    match match_vhost(&config, ".example.com") {
        MatchResult::NotFound => {}
        _ => panic!("Expected NotFound for .example.com"),
    }
}

#[test]
fn test_default_fallback() {
    let config = make_config(
        vec![("api.example.com", make_vhost(vec![("10.0.0.1", 80, 100)]))],
        Some(make_vhost(vec![("10.0.99.1", 80, 100)])),
    );
    match match_vhost(&config, "unknown.example.com") {
        MatchResult::Found(vhost) => {
            assert_eq!(vhost.backends[0].address, "10.0.99.1");
        }
        _ => panic!("Expected Found (default)"),
    }
}

#[test]
fn test_no_match_no_default() {
    let config = make_config(
        vec![("api.example.com", make_vhost(vec![("10.0.0.1", 80, 100)]))],
        None,
    );
    match match_vhost(&config, "unknown.example.com") {
        MatchResult::NotFound => {}
        _ => panic!("Expected NotFound"),
    }
}

#[test]
fn test_empty_backends() {
    let config = make_config(vec![("api.example.com", make_vhost(vec![]))], None);
    match match_vhost(&config, "api.example.com") {
        MatchResult::NoBackends => {}
        _ => panic!("Expected NoBackends"),
    }
}

#[test]
fn test_select_backend_single() {
    let vhost = make_vhost(vec![("10.0.0.1", 80, 100)]);
    let backend = select_backend(&vhost).unwrap();
    assert_eq!(backend.address, "10.0.0.1");
}

#[test]
fn routing_test_select_backend_weighted_distribution() {
    let vhost = make_vhost(vec![("10.0.0.1", 80, 90), ("10.0.0.2", 80, 10)]);
    let mut counts = HashMap::new();
    for _ in 0..1000 {
        let backend = select_backend(&vhost).unwrap();
        *counts.entry(backend.address.clone()).or_insert(0) += 1;
    }
    let count_1 = *counts.get("10.0.0.1").unwrap_or(&0);
    let count_2 = *counts.get("10.0.0.2").unwrap_or(&0);
    assert!(count_1 > 800, "10.0.0.1 selected {} times, expected ~900", count_1);
    assert!(count_2 < 200, "10.0.0.2 selected {} times, expected ~100", count_2);
}

#[test]
fn test_select_backend_empty() {
    let vhost = make_vhost(vec![]);
    assert!(select_backend(&vhost).is_none());
}
