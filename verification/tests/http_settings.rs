//! CORS parameter rules and the server's announced settings.

use gateway_config::cors::{
    cors_rules_usable, ensure_usable_cors_rules, preflight_request_headers, CorsParams,
    StringOrSequence,
};
use gateway_config::server_config::{graphiql_endpoint, ServerConfig};

#[test]
fn wildcards_are_recognized_in_both_shapes() {
    assert!(StringOrSequence::String("*".to_string()).is_wildcard());
    assert!(!StringOrSequence::String("https://example.com".to_string()).is_wildcard());
    assert!(StringOrSequence::Sequence(vec!["accept".to_string(), "*".to_string()])
        .is_wildcard());
    assert!(!StringOrSequence::Sequence(vec!["accept".to_string()]).is_wildcard());
    assert!(!StringOrSequence::default().is_wildcard());
}

#[test]
fn credentials_with_wildcard_origin_are_rejected() {
    let params = CorsParams {
        allow_credentials: true,
        allow_origin: StringOrSequence::String("*".to_string()),
        ..CorsParams::default()
    };
    assert!(!cors_rules_usable(&params));
}

#[test]
fn credentials_with_explicit_values_are_accepted() {
    let params = CorsParams {
        allow_credentials: true,
        allow_origin: StringOrSequence::String("https://example.com".to_string()),
        allow_headers: Some(StringOrSequence::Sequence(vec!["content-type".to_string()])),
        allow_methods: Some(StringOrSequence::String("POST".to_string())),
        ..CorsParams::default()
    };
    assert!(cors_rules_usable(&params));
    ensure_usable_cors_rules(&params);
}

#[test]
fn anonymous_requests_may_use_wildcards() {
    let params = CorsParams {
        allow_credentials: false,
        allow_origin: StringOrSequence::String("*".to_string()),
        allow_headers: Some(StringOrSequence::String("*".to_string())),
        ..CorsParams::default()
    };
    assert!(cors_rules_usable(&params));
}

#[test]
fn preflight_vary_headers_are_the_standard_three() {
    let headers = preflight_request_headers();
    assert_eq!(
        headers,
        vec![
            "origin".to_string(),
            "access-control-request-method".to_string(),
            "access-control-request-headers".to_string(),
        ]
    );
}

#[test]
fn graphiql_endpoint_carries_the_query_string() {
    assert_eq!(graphiql_endpoint(None), "/graphql");
    assert_eq!(graphiql_endpoint(Some(&String::new())), "/graphql");
    assert_eq!(graphiql_endpoint(Some(&"tab=1".to_string())), "/graphql?tab=1");
}

#[test]
fn http_version_names_the_protocol() {
    let http2 = ServerConfig {
        http2: true,
        hostname: "0.0.0.0".to_string(),
        port: 8000,
        enable_graphiql: true,
    };
    assert_eq!(http2.http_version(), "HTTP/2");
    let http1 = ServerConfig { http2: false, ..http2 };
    assert_eq!(http1.http_version(), "HTTP/1.1");
}

#[test]
fn graphiql_url_follows_protocol_and_address() {
    let config = ServerConfig {
        http2: false,
        hostname: "0.0.0.0".to_string(),
        port: 8000,
        enable_graphiql: true,
    };
    assert_eq!(config.graphiql_url(), "http://0.0.0.0:8000");
    assert!(config.graphiql());
    let secure = ServerConfig {
        http2: true,
        hostname: "localhost".to_string(),
        port: 443,
        enable_graphiql: false,
    };
    assert_eq!(secure.graphiql_url(), "https://localhost:443");
    assert!(!secure.graphiql());
}
