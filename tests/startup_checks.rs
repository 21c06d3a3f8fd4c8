use auggie::startup::{check_catalog_status, classify_probe_status, probe_error};
use auggie::{ApiError, ApiStatus, EnsureError, EnsureStatus, ValidationResult};

#[test]
fn test_ensure_error_display() {
    let err = EnsureError::NotLoggedIn;
    assert_eq!(err.to_text(), "Not logged in");

    let err = EnsureError::AccountDisabled("MCP mode disabled".to_string());
    assert!(err.to_text().contains("Account disabled"));
}

#[test]
fn test_ensure_status() {
    let status = EnsureStatus::default();
    assert!(!status.is_success());

    let status = EnsureStatus::Success;
    assert!(status.is_success());

    let status = EnsureStatus::Failed("error".to_string());
    assert!(!status.is_success());
}

#[test]
fn http_status_taxonomy() {
    assert_eq!(ApiStatus::from_http_status(200), ApiStatus::Success);
    assert_eq!(ApiStatus::from_http_status(204), ApiStatus::Success);
    assert_eq!(ApiStatus::from_http_status(400), ApiStatus::InvalidArgument);
    assert_eq!(ApiStatus::from_http_status(401), ApiStatus::Unauthenticated);
    assert_eq!(ApiStatus::from_http_status(403), ApiStatus::PermissionDenied);
    assert_eq!(ApiStatus::from_http_status(404), ApiStatus::Unimplemented);
    assert_eq!(ApiStatus::from_http_status(408), ApiStatus::AugmentClientTimeout);
    assert_eq!(ApiStatus::from_http_status(413), ApiStatus::AugmentTooLarge);
    assert_eq!(ApiStatus::from_http_status(426), ApiStatus::AugmentUpgradeRequired);
    assert_eq!(ApiStatus::from_http_status(429), ApiStatus::ResourceExhausted);
    assert_eq!(ApiStatus::from_http_status(499), ApiStatus::Cancelled);
    assert_eq!(ApiStatus::from_http_status(504), ApiStatus::DeadlineExceeded);
    assert_eq!(ApiStatus::from_http_status(503), ApiStatus::Unavailable);
    assert_eq!(ApiStatus::from_http_status(302), ApiStatus::Unknown);
}

#[test]
fn fatal_and_retryable_statuses() {
    assert!(ApiStatus::Unauthenticated.is_fatal());
    assert!(ApiStatus::PermissionDenied.is_fatal());
    assert!(ApiStatus::AugmentUpgradeRequired.is_fatal());
    assert!(!ApiStatus::Unavailable.is_fatal());
    assert!(ApiStatus::Cancelled.is_retryable());
    assert!(ApiStatus::Unavailable.is_retryable());
    assert!(!ApiStatus::ResourceExhausted.is_retryable());
}

#[test]
fn wire_codes() {
    assert_eq!(ApiStatus::from_i32(0), ApiStatus::Success);
    assert_eq!(ApiStatus::from_i32(7), ApiStatus::Unauthenticated);
    assert_eq!(ApiStatus::from_i32(8), ApiStatus::PermissionDenied);
    assert_eq!(ApiStatus::from_i32(12), ApiStatus::AugmentUpgradeRequired);
    assert_eq!(ApiStatus::from_i32(2), ApiStatus::Unknown);
    assert_eq!(ApiStatus::from_i32(99), ApiStatus::Unknown);
    assert_eq!(ApiStatus::from_i32(-1), ApiStatus::Unknown);
}

#[test]
fn api_error_messages() {
    let e = ApiError::from_http_response(401, String::new(), None);
    assert_eq!(e.status, ApiStatus::Unauthenticated);
    assert!(e.requires_relogin);
    assert!(e.is_fatal());
    assert_eq!(
        e.message,
        "Authentication failed (HTTP 401). Your token may have expired. Please run 'auggie login' to re-authenticate."
    );
    let e = ApiError::from_http_response(500, "boom".to_string(), Some("r1".to_string()));
    assert_eq!(e.message, "API error (HTTP 500): boom");
    assert_eq!(e.request_id, Some("r1".to_string()));
    assert!(!e.requires_relogin);
    assert_eq!(e.user_hint(), "The Augment service is temporarily unavailable. Please try again later.");
    let e = ApiError::from_http_response(404, String::new(), None);
    assert_eq!(e.message, "API error (HTTP 404): Endpoint not found");
    let e = ApiError::from_http_response(429, String::new(), None);
    assert_eq!(e.message, "Rate limit exceeded (HTTP 429). Please wait and try again.");
}

#[test]
fn catalog_status_gate() {
    assert!(check_catalog_status(None).is_ok());
    assert!(check_catalog_status(Some(0)).is_ok());
    assert!(check_catalog_status(Some(6)).is_ok());
    match check_catalog_status(Some(7)) {
        Err(EnsureError::InvalidCredentials(m)) => {
            assert_eq!(m, "Authentication failed. Please run 'auggie login' to re-authenticate")
        }
        _ => panic!("expected invalid credentials"),
    }
    assert!(matches!(check_catalog_status(Some(8)), Err(EnsureError::AccountDisabled(_))));
    assert!(matches!(check_catalog_status(Some(12)), Err(EnsureError::UpgradeRequired(_))));
}

#[test]
fn ensure_error_from_status() {
    assert!(matches!(
        EnsureError::from_api_status(ApiStatus::ResourceExhausted),
        EnsureError::RateLimited(_)
    ));
    assert!(matches!(
        EnsureError::from_api_status(ApiStatus::Unavailable),
        EnsureError::ServerError(_)
    ));
    match EnsureError::from_api_status(ApiStatus::Unknown) {
        EnsureError::Other(m) => assert_eq!(m, "Unknown error occurred"),
        _ => panic!("expected other"),
    }
    assert_eq!(EnsureError::Other("plain".to_string()).to_text(), "plain");
    assert_eq!(
        EnsureError::ServerError("x".to_string()).to_text(),
        "Server error: x"
    );
}

#[test]
fn probe_classification() {
    assert!(matches!(classify_probe_status(200), ValidationResult::Valid));
    match classify_probe_status(403) {
        ValidationResult::InvalidCredentials(m) => {
            assert_eq!(m, "Authentication failed (HTTP 403). Token may have expired.")
        }
        _ => panic!("expected invalid credentials"),
    }
    match classify_probe_status(502) {
        ValidationResult::ServerError(m) => assert_eq!(m, "Server error (HTTP 502)"),
        _ => panic!("expected server error"),
    }
    match classify_probe_status(404) {
        ValidationResult::ConnectionError(m) => assert_eq!(m, "Unexpected response (HTTP 404)"),
        _ => panic!("expected connection error"),
    }
    assert!(probe_error(ValidationResult::Valid).is_none());
    assert!(matches!(
        probe_error(ValidationResult::InvalidUrl("u".to_string())),
        Some(EnsureError::InvalidUrl(_))
    ));
}
