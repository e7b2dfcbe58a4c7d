use ghost::format::{format_backend_selections_json, format_percentage, format_timestamp};

#[test]
fn test_format_timestamp_none() {
    assert_eq!(format_timestamp(None), "never");
}

#[test]
fn test_format_timestamp_some() {
    let formatted = format_timestamp(Some(1737820245));
    assert!(formatted.contains("2025-01-25"));
}

#[test]
fn test_format_percentage() {
    assert_eq!(format_percentage(75, 100), "75.0%");
    assert_eq!(format_percentage(1, 3), "33.3%");
    assert_eq!(format_percentage(0, 100), "0.0%");
    assert_eq!(format_percentage(0, 0), "0.0%");
}

#[test]
fn test_format_percentage_edge_cases() {
    assert_eq!(format_percentage(100, 100), "100.0%");
    assert_eq!(format_percentage(2, 3), "66.7%");
    assert_eq!(format_percentage(1, 6), "16.7%");
}

#[test]
fn test_format_backend_selections_json() {
    let selections = vec![
        ("10.0.0.1:8080".to_string(), 75u64),
        ("10.0.0.2:8080".to_string(), 25u64),
    ];
    let text = format_backend_selections_json(&selections, 100);
    let parsed: serde_json::Value = serde_json::from_str(&text).unwrap();
    let arr = parsed.as_array().unwrap();
    assert_eq!(arr.len(), 2);
    for backend in arr {
        assert!(backend.get("address").is_some());
        assert!(backend.get("selections").is_some());
        assert!(backend.get("percentage").is_some());
    }
    assert_eq!(arr[0]["address"], "10.0.0.1:8080");
    assert_eq!(arr[0]["selections"], 75);
    assert_eq!(arr[0]["percentage"], 75.0);

    let zero = format_backend_selections_json(&selections, 0);
    let parsed_zero: serde_json::Value = serde_json::from_str(&zero).unwrap();
    for backend in parsed_zero.as_array().unwrap() {
        assert_eq!(backend["percentage"], 0.0);
    }
}
