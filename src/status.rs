//! The status taxonomy: HTTP status to internal status, which statuses are
//! fatal or retriable, and the errors of the startup sequence.

use vstd::prelude::*;
use vstd::string::*;
use crate::text::{decimal, decimal_string};

verus! {

/// Internal status of an API response.
#[derive(Clone, Copy, Debug, PartialEq, Eq, Structural)]
pub enum ApiStatus {
    Success,
    /// The client closed the request; retriable.
    Cancelled,
    Unknown,
    /// The service is unavailable; retriable.
    Unavailable,
    Unimplemented,
    InvalidArgument,
    ResourceExhausted,
    /// Fatal: log in again.
    Unauthenticated,
    /// Fatal: the account may not use this mode.
    PermissionDenied,
    DeadlineExceeded,
    AugmentTooLarge,
    AugmentClientTimeout,
    /// Fatal: the client is too old.
    AugmentUpgradeRequired,
}

/// The status with wire code `code` (0 to 12); any other code is `Unknown`.
pub open spec fn status_of_code(code: i32) -> ApiStatus {
    if code == 0 { ApiStatus::Success }
    else if code == 1 { ApiStatus::Cancelled }
    else if code == 3 { ApiStatus::Unavailable }
    else if code == 4 { ApiStatus::Unimplemented }
    else if code == 5 { ApiStatus::InvalidArgument }
    else if code == 6 { ApiStatus::ResourceExhausted }
    else if code == 7 { ApiStatus::Unauthenticated }
    else if code == 8 { ApiStatus::PermissionDenied }
    else if code == 9 { ApiStatus::DeadlineExceeded }
    else if code == 10 { ApiStatus::AugmentTooLarge }
    else if code == 11 { ApiStatus::AugmentClientTimeout }
    else if code == 12 { ApiStatus::AugmentUpgradeRequired }
    else { ApiStatus::Unknown }
}

/// The status an HTTP status maps to.
pub open spec fn status_of_http(h: u16) -> ApiStatus {
    if 200 <= h <= 299 { ApiStatus::Success }
    else if h == 400 { ApiStatus::InvalidArgument }
    else if h == 401 { ApiStatus::Unauthenticated }
    else if h == 403 { ApiStatus::PermissionDenied }
    else if h == 404 { ApiStatus::Unimplemented }
    else if h == 408 { ApiStatus::AugmentClientTimeout }
    else if h == 413 { ApiStatus::AugmentTooLarge }
    else if h == 426 { ApiStatus::AugmentUpgradeRequired }
    else if h == 429 { ApiStatus::ResourceExhausted }
    else if h == 499 { ApiStatus::Cancelled }
    else if h == 504 { ApiStatus::DeadlineExceeded }
    else if 500 <= h <= 599 { ApiStatus::Unavailable }
    else { ApiStatus::Unknown }
}

pub open spec fn status_is_fatal(s: ApiStatus) -> bool {
    s == ApiStatus::Unauthenticated || s == ApiStatus::PermissionDenied || s
        == ApiStatus::AugmentUpgradeRequired
}

pub open spec fn status_is_retryable(s: ApiStatus) -> bool {
    s == ApiStatus::Cancelled || s == ApiStatus::Unavailable
}

pub open spec fn status_message(s: ApiStatus) -> Seq<char> {
    match s {
        ApiStatus::Success => "Success"@,
        ApiStatus::Cancelled => "Request was cancelled"@,
        ApiStatus::Unknown => "Unknown error occurred"@,
        ApiStatus::Unavailable => "Service temporarily unavailable"@,
        ApiStatus::Unimplemented => "Endpoint not found"@,
        ApiStatus::InvalidArgument => "Invalid request"@,
        ApiStatus::ResourceExhausted => "Rate limit exceeded. Please wait and try again"@,
        ApiStatus::Unauthenticated => "Authentication failed. Please run 'auggie login' to re-authenticate"@,
        ApiStatus::PermissionDenied => "Auggie CLI is in closed beta. If you're part of an Enterprise organization and would like to get access, contact: contact@augmentcode.com. For non-enterprise users, sign up for the waitlist at augment.new"@,
        ApiStatus::DeadlineExceeded => "Request timed out"@,
        ApiStatus::AugmentTooLarge => "Request body too large"@,
        ApiStatus::AugmentClientTimeout => "Client timeout"@,
        ApiStatus::AugmentUpgradeRequired => "Client upgrade required. Please update to the latest version"@,
    }
}

impl ApiStatus {
    /// The status with wire code `code`.
    pub fn from_i32(code: i32) -> (r: ApiStatus)
        ensures
            r == status_of_code(code),
    {
        if code == 0 { ApiStatus::Success }
        else if code == 1 { ApiStatus::Cancelled }
        else if code == 3 { ApiStatus::Unavailable }
        else if code == 4 { ApiStatus::Unimplemented }
        else if code == 5 { ApiStatus::InvalidArgument }
        else if code == 6 { ApiStatus::ResourceExhausted }
        else if code == 7 { ApiStatus::Unauthenticated }
        else if code == 8 { ApiStatus::PermissionDenied }
        else if code == 9 { ApiStatus::DeadlineExceeded }
        else if code == 10 { ApiStatus::AugmentTooLarge }
        else if code == 11 { ApiStatus::AugmentClientTimeout }
        else if code == 12 { ApiStatus::AugmentUpgradeRequired }
        else { ApiStatus::Unknown }
    }

    /// The status an HTTP status maps to.
    pub fn from_http_status(http_status: u16) -> (r: ApiStatus)
        ensures
            r == status_of_http(http_status),
    {
        let h = http_status;
        if 200 <= h && h <= 299 { ApiStatus::Success }
        else if h == 400 { ApiStatus::InvalidArgument }
        else if h == 401 { ApiStatus::Unauthenticated }
        else if h == 403 { ApiStatus::PermissionDenied }
        else if h == 404 { ApiStatus::Unimplemented }
        else if h == 408 { ApiStatus::AugmentClientTimeout }
        else if h == 413 { ApiStatus::AugmentTooLarge }
        else if h == 426 { ApiStatus::AugmentUpgradeRequired }
        else if h == 429 { ApiStatus::ResourceExhausted }
        else if h == 499 { ApiStatus::Cancelled }
        else if h == 504 { ApiStatus::DeadlineExceeded }
        else if 500 <= h && h <= 599 { ApiStatus::Unavailable }
        else { ApiStatus::Unknown }
    }

    /// Fatal statuses need the user to act: log in, get access, upgrade.
    pub fn is_fatal(&self) -> (r: bool)
        ensures
            r == status_is_fatal(*self),
    {
        match self {
            ApiStatus::Unauthenticated | ApiStatus::PermissionDenied
            | ApiStatus::AugmentUpgradeRequired => true,
            _ => false,
        }
    }

    /// Whether a request with this status may be tried again.
    pub fn is_retryable(&self) -> (r: bool)
        ensures
            r == status_is_retryable(*self),
    {
        match self {
            ApiStatus::Cancelled | ApiStatus::Unavailable => true,
            _ => false,
        }
    }

    /// The message shown for this status.
    pub fn error_message(&self) -> (r: &'static str)
        ensures
            r@ == status_message(*self),
    {
        match self {
            ApiStatus::Success => "Success",
            ApiStatus::Cancelled => "Request was cancelled",
            ApiStatus::Unknown => "Unknown error occurred",
            ApiStatus::Unavailable => "Service temporarily unavailable",
            ApiStatus::Unimplemented => "Endpoint not found",
            ApiStatus::InvalidArgument => "Invalid request",
            ApiStatus::ResourceExhausted => "Rate limit exceeded. Please wait and try again",
            ApiStatus::Unauthenticated => "Authentication failed. Please run 'auggie login' to re-authenticate",
            ApiStatus::PermissionDenied => "Auggie CLI is in closed beta. If you're part of an Enterprise organization and would like to get access, contact: contact@augmentcode.com. For non-enterprise users, sign up for the waitlist at augment.new",
            ApiStatus::DeadlineExceeded => "Request timed out",
            ApiStatus::AugmentTooLarge => "Request body too large",
            ApiStatus::AugmentClientTimeout => "Client timeout",
            ApiStatus::AugmentUpgradeRequired => "Client upgrade required. Please update to the latest version",
        }
    }
}

/// `a` followed by `b`.
fn joined(a: &str, b: &str) -> (r: String)
    ensures
        r@ == a@ + b@,
{
    let mut r = String::from_str(a);
    r.append(b);
    r
}

/// An API error with its status and message.
#[derive(Clone, Debug)]
pub struct ApiError {
    pub status: ApiStatus,
    pub http_status: u16,
    pub message: String,
    pub request_id: Option<String>,
    /// Whether the user should log in again.
    pub requires_relogin: bool,
}

/// The message of an API error for an HTTP status and a response body.
pub open spec fn api_error_message(h: u16, body: Seq<char>) -> Seq<char> {
    let s = status_of_http(h);
    let code = decimal(h as nat);
    match s {
        ApiStatus::Unauthenticated => "Authentication failed (HTTP "@ + code
            + "). Your token may have expired. Please run 'auggie login' to re-authenticate."@,
        ApiStatus::PermissionDenied => "Permission denied (HTTP "@ + code + "). "@
            + status_message(s),
        ApiStatus::ResourceExhausted => "Rate limit exceeded (HTTP "@ + code
            + "). Please wait and try again."@,
        ApiStatus::AugmentUpgradeRequired => "Client upgrade required (HTTP "@ + code
            + "). Please update to the latest version."@,
        _ => "API error (HTTP "@ + code + "): "@ + if body.len() == 0 {
            status_message(s)
        } else {
            body
        },
    }
}

pub open spec fn user_hint_of(s: ApiStatus) -> Seq<char> {
    match s {
        ApiStatus::Unauthenticated => "Your session has expired. Please run 'auggie login' to re-authenticate."@,
        ApiStatus::PermissionDenied => "Your account does not have access to this feature. Contact your administrator or sign up at augment.new"@,
        ApiStatus::AugmentUpgradeRequired => "Please update auggie to the latest version."@,
        ApiStatus::ResourceExhausted => "You have exceeded the rate limit. Please wait a moment and try again."@,
        ApiStatus::Unavailable => "The Augment service is temporarily unavailable. Please try again later."@,
        _ => "An unexpected error occurred. Please try again or contact support."@,
    }
}

impl ApiError {
    /// The error for a failed response: its status, a message for the user,
    /// and whether the user must log in again.
    pub fn from_http_response(http_status: u16, body: String, request_id: Option<String>) -> (r:
        ApiError)
        ensures
            r.status == status_of_http(http_status),
            r.http_status == http_status,
            r.message@ == api_error_message(http_status, body@),
            r.request_id == request_id,
            r.requires_relogin == (r.status == ApiStatus::Unauthenticated || r.status
                == ApiStatus::PermissionDenied),
    {
        let status = ApiStatus::from_http_status(http_status);
        let requires_relogin = match status {
            ApiStatus::Unauthenticated | ApiStatus::PermissionDenied => true,
            _ => false,
        };
        let code = decimal_string(http_status as u64);
        let mut message = match status {
            ApiStatus::Unauthenticated => joined("Authentication failed (HTTP ", code.as_str()),
            ApiStatus::PermissionDenied => joined("Permission denied (HTTP ", code.as_str()),
            ApiStatus::ResourceExhausted => joined("Rate limit exceeded (HTTP ", code.as_str()),
            ApiStatus::AugmentUpgradeRequired => joined("Client upgrade required (HTTP ", code.as_str()),
            _ => joined("API error (HTTP ", code.as_str()),
        };
        match status {
            ApiStatus::Unauthenticated => {
                message.append("). Your token may have expired. Please run 'auggie login' to re-authenticate.");
            },
            ApiStatus::PermissionDenied => {
                message.append("). ");
                message.append(status.error_message());
            },
            ApiStatus::ResourceExhausted => {
                message.append("). Please wait and try again.");
            },
            ApiStatus::AugmentUpgradeRequired => {
                message.append("). Please update to the latest version.");
            },
            _ => {
                message.append("): ");
                if body.as_str().is_empty() {
                    message.append(status.error_message());
                } else {
                    message.append(body.as_str());
                }
            },
        }
        proof {
            assert(message@ =~= api_error_message(http_status, body@));
        }
        ApiError { status, http_status, message, request_id, requires_relogin }
    }

    pub fn is_fatal(&self) -> (r: bool)
        ensures
            r == status_is_fatal(self.status),
    {
        self.status.is_fatal()
    }

    /// What the user can do about this error.
    pub fn user_hint(&self) -> (r: &'static str)
        ensures
            r@ == user_hint_of(self.status),
    {
        match self.status {
            ApiStatus::Unauthenticated => "Your session has expired. Please run 'auggie login' to re-authenticate.",
            ApiStatus::PermissionDenied => "Your account does not have access to this feature. Contact your administrator or sign up at augment.new",
            ApiStatus::AugmentUpgradeRequired => "Please update auggie to the latest version.",
            ApiStatus::ResourceExhausted => "You have exceeded the rate limit. Please wait a moment and try again.",
            ApiStatus::Unavailable => "The Augment service is temporarily unavailable. Please try again later.",
            _ => "An unexpected error occurred. Please try again or contact support.",
        }
    }
}

} // verus!
