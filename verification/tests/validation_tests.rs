use blackholed::api::validation::{validate_and_normalize_domain, validate_source_id};
use blackholed::api::ApiError;

fn bad_request_message<T>(r: Result<T, ApiError>) -> String {
    match r {
        Err(ApiError::BadRequest(m)) => m,
        _ => panic!("expected a bad request"),
    }
}

#[test]
fn test_validate_source_id() {
    assert!(validate_source_id("test").is_ok());
    assert!(validate_source_id("test-123").is_ok());
    assert!(validate_source_id("Test-123").is_ok());
    assert!(validate_source_id("").is_err());
    assert!(validate_source_id("test_123").is_err());
    assert!(validate_source_id("test 123").is_err());
}

#[test]
fn test_validate_domain() {
    assert_eq!(validate_and_normalize_domain("example.com").unwrap(), "example.com.");
    assert_eq!(validate_and_normalize_domain("example.com.").unwrap(), "example.com.");
    assert_eq!(validate_and_normalize_domain("*.example.com").unwrap(), "*.example.com.");
    assert!(validate_and_normalize_domain("*.com").is_err());
    assert!(validate_and_normalize_domain("*.").is_err());
    assert!(validate_and_normalize_domain("").is_err());
}

#[test]
fn source_id_messages() {
    assert_eq!(
        bad_request_message(validate_source_id(&"a".repeat(65))),
        "Source ID must be between 1 and 64 characters"
    );
    assert!(validate_source_id(&"a".repeat(64)).is_ok());
    assert_eq!(
        bad_request_message(validate_source_id("é")),
        "Source ID must contain only alphanumeric characters and hyphens"
    );
}

#[test]
fn domain_messages() {
    assert_eq!(bad_request_message(validate_and_normalize_domain("")), "Domain name cannot be empty");
    assert_eq!(
        bad_request_message(validate_and_normalize_domain("*.com")),
        "Wildcard domains must have at least 2 labels (e.g., *.example.com)"
    );
    assert_eq!(
        bad_request_message(validate_and_normalize_domain("exa mple.com")),
        "Domain name contains invalid characters"
    );
    assert_eq!(
        bad_request_message(validate_and_normalize_domain(".")),
        "Domain name contains invalid characters"
    );
}

#[test]
fn validated_domain_is_a_fixpoint() {
    let once = validate_and_normalize_domain("*.ads.example.net").unwrap();
    assert_eq!(validate_and_normalize_domain(&once).unwrap(), once);
}
