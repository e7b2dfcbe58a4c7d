use ghost::backend_pool::BackendPool;

#[test]
fn test_backend_key_format() {
    let key = format!("{}:{}", "10.0.0.1", 8080);
    assert_eq!(key, "10.0.0.1:8080");
    let mut pool = BackendPool::new();
    let k = pool.get_or_create("10.0.0.1", 8080);
    assert_eq!(k, "10.0.0.1:8080");
}

#[test]
fn test_backend_name_format() {
    let key = "10.0.0.1:8080";
    let name = format!("ghost_{}", key.replace([':', '.'], "_"));
    assert_eq!(name, "ghost_10_0_0_1_8080");
}

#[test]
fn test_ipv6_backend_key() {
    let key = format!("{}:{}", "::1", 8080);
    assert_eq!(key, "::1:8080");
    let mut pool = BackendPool::new();
    let k = pool.get_or_create("::1", 8080);
    assert_eq!(k, "::1:8080");
}

#[test]
fn test_backend_pool_creation() {
    let pool = BackendPool::new();
    assert_eq!(pool.len(), 0);
    assert!(pool.is_empty());
}

#[test]
fn test_pool_reuses_entries() {
    let mut pool = BackendPool::new();
    let k1 = pool.get_or_create("10.0.0.1", 8080);
    let k2 = pool.get_or_create("10.0.0.1", 8080);
    assert_eq!(k1, k2);
    assert_eq!(pool.len(), 1);
    let h = pool.get("10.0.0.1:8080");
    assert!(h.is_some());
    assert!(pool.get("10.0.0.2:8080").is_none());
}

#[test]
fn test_retain_only_intersects_keys() {
    let mut pool = BackendPool::new();
    pool.get_or_create("10.0.0.1", 8080);
    pool.get_or_create("10.0.0.2", 8080);
    pool.get_or_create("10.0.0.3", 8080);
    let keep = vec![
        "10.0.0.1:8080".to_string(),
        "10.0.0.9:8080".to_string(),
    ];
    pool.retain_only(&keep);
    assert_eq!(pool.len(), 1);
    assert!(pool.get("10.0.0.1:8080").is_some());
    assert!(pool.get("10.0.0.2:8080").is_none());
    assert!(pool.get("10.0.0.3:8080").is_none());
    assert!(pool.get("10.0.0.9:8080").is_none());
}

#[test]
fn test_retained_entry_keeps_handle() {
    let mut pool = BackendPool::new();
    pool.get_or_create("10.0.0.1", 8080);
    pool.get_or_create("10.0.0.2", 8080);
    let h1 = pool.get("10.0.0.1:8080").unwrap();
    pool.retain_only(&vec!["10.0.0.1:8080".to_string()]);
    assert_eq!(pool.get("10.0.0.1:8080"), Some(h1));
}
