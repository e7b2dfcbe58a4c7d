use ghost::config::validate_hostname;
use ghost::loader::load_from_str;

#[test]
fn test_load_minimal_config() {
    let config = load_from_str(r#"{"version": 1}"#).unwrap();
    assert_eq!(config.version, 1);
    assert!(config.vhosts.is_empty());
    assert!(config.default.is_none());
}

#[test]
fn test_load_full_config() {
    let config = load_from_str(
        r#"{
        "version": 1,
        "vhosts": {
            "api.example.com": {
                "backends": [
                    {"address": "10.0.0.1", "port": 8080, "weight": 100},
                    {"address": "10.0.0.2", "port": 8080, "weight": 50}
                ]
            },
            "*.staging.example.com": {
                "backends": [
                    {"address": "10.0.1.1", "port": 80}
                ]
            }
        },
        "default": {
            "backends": [
                {"address": "10.0.99.1", "port": 80}
            ]
        }
    }"#,
    )
    .unwrap();
    assert_eq!(config.version, 1);
    assert_eq!(config.vhosts.len(), 2);
    assert!(config.vhosts.iter().any(|(k, _)| k == "api.example.com"));
    assert!(config.vhosts.iter().any(|(k, _)| k == "*.staging.example.com"));

    let api = &config.vhosts.iter().find(|(k, _)| k == "api.example.com").unwrap().1;
    assert_eq!(api.backends.len(), 2);
    assert_eq!(api.backends[0].weight, 100);
    assert_eq!(api.backends[1].weight, 50);

    let staging = &config.vhosts.iter().find(|(k, _)| k == "*.staging.example.com").unwrap().1;
    assert_eq!(staging.backends.len(), 1);
    assert_eq!(staging.backends[0].weight, 100);
}

#[test]
fn test_invalid_version() {
    let result = load_from_str(r#"{"version": 0}"#);
    assert!(result.is_err());
    assert!(result.unwrap_err().contains("unsupported config version"));
}

#[test]
fn test_invalid_wildcard_middle() {
    let result = load_from_str(
        r#"{"version": 1, "vhosts": {"foo.*.example.com": {"backends": []}}}"#,
    );
    assert!(result.is_err());
    assert!(result.unwrap_err().contains("wildcard must be at start"));
}

#[test]
fn test_invalid_wildcard_double() {
    let result = load_from_str(
        r#"{"version": 1, "vhosts": {"*.*.example.com": {"backends": []}}}"#,
    );
    assert!(result.is_err());
    assert!(result.unwrap_err().contains("only single leading wildcard"));
}

#[test]
fn test_invalid_backend_empty_address() {
    let result = load_from_str(
        r#"{"version": 1, "vhosts": {"foo.com": {"backends": [{"address": "", "port": 80}]}}}"#,
    );
    assert!(result.is_err());
    assert!(result.unwrap_err().contains("address cannot be empty"));
}

#[test]
fn test_invalid_backend_zero_port() {
    let result = load_from_str(
        r#"{"version": 1, "vhosts": {"foo.com": {"backends": [{"address": "1.2.3.4", "port": 0}]}}}"#,
    );
    assert!(result.is_err());
    assert!(result.unwrap_err().contains("port cannot be 0"));
}

#[test]
fn test_invalid_backend_zero_weight() {
    let result = load_from_str(
        r#"{"version": 1, "vhosts": {"foo.com": {"backends": [{"address": "1.2.3.4", "port": 80, "weight": 0}]}}}"#,
    );
    assert!(result.is_err());
    assert!(result.unwrap_err().contains("weight cannot be 0"));
}

#[test]
fn test_malformed_json_is_rejected() {
    let result = load_from_str("{not json");
    assert!(result.is_err());
    assert!(result.unwrap_err().contains("failed to parse config"));
}

#[test]
fn test_v2_regex_validation() {
    let ok = ghost::loader::load_v2_from_str(
        r#"{"version": 2, "vhosts": {"api.example.com": {"routes": [
            {"path_match": {"type": "RegularExpression", "value": "^/files/[0-9]+$"},
             "backends": [{"address": "10.0.0.1", "port": 8080}], "priority": 1}
        ]}}}"#,
    );
    assert!(ok.is_ok());
    let bad = ghost::loader::load_v2_from_str(
        r#"{"version": 2, "vhosts": {"api.example.com": {"routes": [
            {"path_match": {"type": "RegularExpression", "value": "[invalid("},
             "backends": [{"address": "10.0.0.1", "port": 8080}], "priority": 1}
        ]}}}"#,
    );
    assert!(bad.is_err());
    assert!(bad.unwrap_err().contains("invalid regex pattern"));
}

#[test]
fn test_v2_bad_path_is_rejected() {
    let bad = ghost::loader::load_v2_from_str(
        r#"{"version": 2, "vhosts": {"api.example.com": {"routes": [
            {"path_match": {"type": "PathPrefix", "value": "api"},
             "backends": [{"address": "10.0.0.1", "port": 8080}], "priority": 1}
        ]}}}"#,
    );
    assert!(bad.is_err());
    assert!(bad.unwrap_err().contains("must start with /"));
    let double = ghost::loader::load_v2_from_str(
        r#"{"version": 2, "vhosts": {"api.example.com": {"routes": [
            {"path_match": {"type": "PathPrefix", "value": "/api//x"},
             "backends": [{"address": "10.0.0.1", "port": 8080}], "priority": 1}
        ]}}}"#,
    );
    assert!(double.is_err());
    assert!(double.unwrap_err().contains("consecutive slashes"));
}

#[test]
fn test_v2_bad_redirect_status_is_rejected() {
    let bad = ghost::loader::load_v2_from_str(
        r#"{"version": 2, "vhosts": {"api.example.com": {"routes": [
            {"filters": {"request_redirect": {"scheme": "https", "status_code": 200}},
             "backends": [], "priority": 1}
        ]}}}"#,
    );
    assert!(bad.is_err());
    assert!(bad.unwrap_err().contains("status_code"));
}

#[test]
fn test_validate_hostname_rules() {
    assert!(validate_hostname("api.example.com").is_ok());
    assert!(validate_hostname("*.example.com").is_ok());
    assert!(validate_hostname("").is_err());
    assert!(validate_hostname("foo.*.example.com").is_err());
    assert!(validate_hostname("*.*.example.com").is_err());
}

#[test]
fn test_config_empty_constructors() {
    let v1 = ghost::config::Config::empty();
    assert_eq!(v1.version, 1);
    assert!(v1.vhosts.is_empty());
    assert!(v1.default.is_none());
    let v2 = ghost::config::ConfigV2::empty();
    assert_eq!(v2.version, 2);
    assert!(v2.vhosts.is_empty());
    assert!(v2.default.is_none());
    assert_eq!(ghost::config::default_weight(), 100);
}

#[test]
fn test_bare_wildcard_is_rejected() {
    assert!(validate_hostname("*.").is_err());
    let result = load_from_str(r#"{"version": 1, "vhosts": {"*.": {"backends": []}}}"#);
    assert!(result.is_err());
    assert!(result.unwrap_err().contains("at least one label"));
}
