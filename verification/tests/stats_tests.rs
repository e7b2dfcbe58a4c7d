use ghost::stats::{BackendStats, VhostStats};

#[test]
fn test_vhost_stats_new() {
    let stats = VhostStats::new();
    assert_eq!(stats.total_requests(), 0);
    assert!(stats.last_request().is_none());
    assert_eq!(stats.backend_selections().len(), 0);
}

#[test]
fn test_vhost_stats_record_request() {
    let mut stats = VhostStats::new();
    stats.record_request("10.0.0.1:8080", 7);
    assert_eq!(stats.total_requests(), 1);
    assert_eq!(stats.last_request(), Some(7));
    let selections = stats.backend_selections();
    assert_eq!(selections.len(), 1);
    assert_eq!(selections[0], ("10.0.0.1:8080".to_string(), 1));
}

#[test]
fn test_vhost_stats_multiple_backends() {
    let mut stats = VhostStats::new();
    stats.record_request("10.0.0.1:8080", 1);
    stats.record_request("10.0.0.2:8080", 2);
    stats.record_request("10.0.0.1:8080", 3);
    assert_eq!(stats.total_requests(), 3);
    let selections = stats.backend_selections();
    let one = selections.iter().find(|(k, _)| k == "10.0.0.1:8080").unwrap();
    let two = selections.iter().find(|(k, _)| k == "10.0.0.2:8080").unwrap();
    assert_eq!(one.1, 2);
    assert_eq!(two.1, 1);
}

#[test]
fn test_backend_stats_new() {
    let stats = BackendStats::new();
    assert_eq!(stats.selections(), 0);
    assert!(stats.last_selected().is_none());
}

#[test]
fn test_backend_stats_record_selection() {
    let mut stats = BackendStats::new();
    stats.record_selection(5);
    assert_eq!(stats.selections(), 1);
    assert_eq!(stats.last_selected(), Some(5));
    stats.record_selection(6);
    assert_eq!(stats.selections(), 2);
}
