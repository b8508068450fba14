use vectorless::sdk::{Client, ClientConfig, SdkError};

#[test]
fn test_client_config_builder() {
    let config = ClientConfig::builder()
        .base_url("http://example.com")
        .api_key("test-key")
        .timeout(60)
        .build();

    assert_eq!(config.base_url, "http://example.com");
    assert_eq!(config.api_key, Some("test-key".to_string()));
    assert_eq!(config.timeout_secs, 60);
}

#[test]
fn test_client_config_default() {
    let config = ClientConfig::default();
    assert_eq!(config.base_url, "http://localhost:8080");
    assert!(config.api_key.is_none());
}

#[test]
fn client_headers_with_and_without_key() {
    let c = Client::new(ClientConfig::default());
    let h = c.get_headers();
    assert_eq!(h, vec![("content-type".to_string(), "application/json".to_string())]);

    let c = Client::new(ClientConfig::builder().api_key("k1").build());
    let h = c.get_headers();
    assert_eq!(h.len(), 2);
    assert_eq!(h[1], ("x-api-key".to_string(), "k1".to_string()));

    let c = Client::new(ClientConfig::builder().api_key("bad\nkey").build());
    assert_eq!(c.get_headers().len(), 1);
}

#[test]
fn client_endpoint_appends_path() {
    let c = Client::new(ClientConfig::builder().base_url("http://h:1").build());
    assert_eq!(c.endpoint("/api/v1/documents"), "http://h:1/api/v1/documents");
    let d = Client::default();
    assert_eq!(d.base_url, "http://localhost:8080");
    assert_eq!(d.timeout_secs, 30);
    assert_eq!(d.user_agent, "vectorless-sdk-rs/0.1.0");
}

#[test]
fn sdk_error_messages() {
    assert_eq!(SdkError::AuthenticationFailed.message(), "Authentication failed");
    assert_eq!(SdkError::ApiError("x".to_string()).message(), "API error: x");
}
