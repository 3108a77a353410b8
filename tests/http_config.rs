use rust_streamz::sources::http_client::{HeaderError, HttpMethod, PollingHttpClientConfig};

fn pairs(config: &PollingHttpClientConfig) -> Vec<(&str, &str)> {
    config.headers.iter().map(|(k, v)| (k.as_str(), v.as_str())).collect()
}

#[test]
fn config_defaults_to_get_without_headers() {
    let config = PollingHttpClientConfig::new("https://example.test/api", 1500);
    assert_eq!(config.url, "https://example.test/api");
    assert_eq!(config.period_ms, 1500);
    assert!(config.headers.is_empty());
    assert_eq!(config.method, HttpMethod::Get);
    assert!(config.body.is_none());
}

#[test]
fn header_names_are_normalised() {
    let config = PollingHttpClientConfig::new("u", 10)
        .with_header("Content-Type", "application/json")
        .unwrap()
        .with_header("X-Custom-Token", "abc")
        .unwrap();
    assert_eq!(
        pairs(&config),
        vec![("content-type", "application/json"), ("x-custom-token", "abc")]
    );
}

#[test]
fn same_header_name_replaces_in_place() {
    let config = PollingHttpClientConfig::new("u", 10)
        .with_header("X-Token", "one")
        .unwrap()
        .with_header("Accept", "*/*")
        .unwrap()
        .with_header("x-token", "two")
        .unwrap();
    assert_eq!(pairs(&config), vec![("x-token", "two"), ("accept", "*/*")]);
}

#[test]
fn invalid_header_name_is_refused() {
    let base = PollingHttpClientConfig::new("u", 10);
    assert_eq!(base.clone().with_header("bad header", "v").unwrap_err(), HeaderError::InvalidName);
    assert_eq!(base.clone().with_header("", "v").unwrap_err(), HeaderError::InvalidName);
    // The name is checked before the value.
    assert_eq!(base.with_header("bad header", "a\nb").unwrap_err(), HeaderError::InvalidName);
}

#[test]
fn invalid_header_value_is_refused() {
    let base = PollingHttpClientConfig::new("u", 10);
    assert_eq!(base.clone().with_header("x-a", "a\nb").unwrap_err(), HeaderError::InvalidValue);
    assert_eq!(base.clone().with_header("x-a", "del\u{7f}").unwrap_err(), HeaderError::InvalidValue);
    let ok = base.with_header("x-a", "tab\there caf\u{e9}").unwrap();
    assert_eq!(pairs(&ok), vec![("x-a", "tab\there caf\u{e9}")]);
}

#[test]
fn with_headers_adds_in_order_or_fails() {
    let entries = vec![
        ("B".to_string(), "2".to_string()),
        ("a".to_string(), "1".to_string()),
        ("b".to_string(), "3".to_string()),
    ];
    let config = PollingHttpClientConfig::new("u", 10).with_headers(entries).unwrap();
    assert_eq!(pairs(&config), vec![("b", "3"), ("a", "1")]);

    let bad = vec![("ok".to_string(), "1".to_string()), ("not ok".to_string(), "2".to_string())];
    assert_eq!(
        PollingHttpClientConfig::new("u", 10).with_headers(bad).unwrap_err(),
        HeaderError::InvalidName
    );
}

#[test]
fn method_and_body_are_set() {
    let config = PollingHttpClientConfig::new("u", 10)
        .with_method(HttpMethod::Post)
        .with_body("{\"q\":1}");
    assert_eq!(config.method, HttpMethod::Post);
    assert_eq!(config.body.as_deref(), Some("{\"q\":1}"));
}
