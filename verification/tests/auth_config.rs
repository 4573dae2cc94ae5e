use pdf_engine::auth::is_authorized;
use pdf_engine::config::{
    concurrency_or_default, normalize_endpoint, region_or_default, uses_virtual_host_style,
};
use pdf_engine::utils::resolve_endpoint;

#[test]
fn bearer_token_must_match_exactly() {
    assert!(is_authorized(Some("Bearer secret"), "secret"));
    assert!(!is_authorized(Some("Bearer secre"), "secret"));
    assert!(!is_authorized(Some("bearer secret"), "secret"));
    assert!(!is_authorized(Some("secret"), "secret"));
    assert!(!is_authorized(Some("Bearer secret "), "secret"));
}

#[test]
fn missing_authorization_header_is_refused() {
    assert!(!is_authorized(None, "secret"));
}

#[test]
fn empty_token_accepts_only_bare_bearer() {
    assert!(is_authorized(Some("Bearer "), ""));
    assert!(!is_authorized(Some("Bearer"), ""));
}

#[test]
fn endpoint_without_scheme_gets_http() {
    assert_eq!(normalize_endpoint("minio:9000"), "http://minio:9000");
    assert_eq!(normalize_endpoint("https://s3.amazonaws.com"), "https://s3.amazonaws.com");
    assert_eq!(normalize_endpoint("http://127.0.0.1:9000"), "http://127.0.0.1:9000");
}

#[test]
fn endpoint_normalization_is_idempotent() {
    let once = normalize_endpoint("minio:9000");
    assert_eq!(normalize_endpoint(&once), once);
}

#[test]
fn hosted_endpoints_use_virtual_host_style() {
    assert!(uses_virtual_host_style("https://s3.us-east-1.amazonaws.com"));
    assert!(uses_virtual_host_style("https://storage.googleapis.com"));
    assert!(!uses_virtual_host_style("http://minio:9000"));
    assert!(!uses_virtual_host_style("amazonaws"));
}

#[test]
fn region_defaults_to_us_east_1() {
    assert_eq!(region_or_default(None), "us-east-1");
    assert_eq!(region_or_default(Some("eu-west-3".to_string())), "eu-west-3");
}

#[test]
fn concurrency_defaults_to_four() {
    assert_eq!(concurrency_or_default(None), 4);
    assert_eq!(concurrency_or_default(Some(12)), 12);
}

#[test]
fn local_endpoints_get_http_and_others_https() {
    assert_eq!(resolve_endpoint("localhost:9000"), "http://localhost:9000");
    assert_eq!(resolve_endpoint("127.0.0.1:9000"), "http://127.0.0.1:9000");
    assert_eq!(resolve_endpoint("s3.example.com"), "https://s3.example.com");
    assert_eq!(resolve_endpoint("http://minio:9000"), "http://minio:9000");
    assert_eq!(resolve_endpoint("https://s3.example.com"), "https://s3.example.com");
}
