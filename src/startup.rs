//! Decisions of the startup sequence: how a connection probe is classified,
//! and which catalog statuses stop startup.

use vstd::prelude::*;
use vstd::string::*;
use crate::status::{status_is_fatal, status_message, status_of_code, ApiStatus};
use crate::text::{decimal, decimal_string};

verus! {

/// Why startup could not complete.
#[derive(Clone, Debug)]
pub enum EnsureError {
    NotLoggedIn,
    InvalidCredentials(String),
    ConnectionError(String),
    ServerError(String),
    InvalidUrl(String),
    AccountDisabled(String),
    UpgradeRequired(String),
    RateLimited(String),
    ModeDisabled(String),
    Other(String),
}

/// The error a status stands for, carrying the status's message.
pub open spec fn ensure_error_of(s: ApiStatus, e: EnsureError) -> bool {
    let m = status_message(s);
    match s {
        ApiStatus::Unauthenticated => e matches EnsureError::InvalidCredentials(x) && x@ == m,
        ApiStatus::PermissionDenied => e matches EnsureError::AccountDisabled(x) && x@ == m,
        ApiStatus::AugmentUpgradeRequired => e matches EnsureError::UpgradeRequired(x) && x@ == m,
        ApiStatus::ResourceExhausted => e matches EnsureError::RateLimited(x) && x@ == m,
        ApiStatus::Unavailable => e matches EnsureError::ServerError(x) && x@ == m,
        _ => e matches EnsureError::Other(x) && x@ == m,
    }
}

/// The text of an error, as shown to the user.
pub open spec fn ensure_error_text(e: EnsureError) -> Seq<char> {
    match e {
        EnsureError::NotLoggedIn => "Not logged in"@,
        EnsureError::InvalidCredentials(m) => "Invalid credentials: "@ + m@,
        EnsureError::ConnectionError(m) => "Connection error: "@ + m@,
        EnsureError::ServerError(m) => "Server error: "@ + m@,
        EnsureError::InvalidUrl(m) => "Invalid URL: "@ + m@,
        EnsureError::AccountDisabled(m) => "Account disabled: "@ + m@,
        EnsureError::UpgradeRequired(m) => "Upgrade required: "@ + m@,
        EnsureError::RateLimited(m) => "Rate limited: "@ + m@,
        EnsureError::ModeDisabled(m) => "Mode disabled: "@ + m@,
        EnsureError::Other(m) => m@,
    }
}

fn prefixed(prefix: &str, m: &String) -> (r: String)
    ensures
        r@ == prefix@ + m@,
{
    let mut r = String::from_str(prefix);
    r.append(m.as_str());
    r
}

impl EnsureError {
    /// The error for a status.
    pub fn from_api_status(status: ApiStatus) -> (r: EnsureError)
        ensures
            ensure_error_of(status, r),
    {
        let m = String::from_str(status.error_message());
        match status {
            ApiStatus::Unauthenticated => EnsureError::InvalidCredentials(m),
            ApiStatus::PermissionDenied => EnsureError::AccountDisabled(m),
            ApiStatus::AugmentUpgradeRequired => EnsureError::UpgradeRequired(m),
            ApiStatus::ResourceExhausted => EnsureError::RateLimited(m),
            ApiStatus::Unavailable => EnsureError::ServerError(m),
            _ => EnsureError::Other(m),
        }
    }

    /// The text shown for this error.
    pub fn to_text(&self) -> (r: String)
        ensures
            r@ == ensure_error_text(*self),
    {
        match self {
            EnsureError::NotLoggedIn => String::from_str("Not logged in"),
            EnsureError::InvalidCredentials(m) => prefixed("Invalid credentials: ", m),
            EnsureError::ConnectionError(m) => prefixed("Connection error: ", m),
            EnsureError::ServerError(m) => prefixed("Server error: ", m),
            EnsureError::InvalidUrl(m) => prefixed("Invalid URL: ", m),
            EnsureError::AccountDisabled(m) => prefixed("Account disabled: ", m),
            EnsureError::UpgradeRequired(m) => prefixed("Upgrade required: ", m),
            EnsureError::RateLimited(m) => prefixed("Rate limited: ", m),
            EnsureError::ModeDisabled(m) => prefixed("Mode disabled: ", m),
            EnsureError::Other(m) => m.clone(),
        }
    }
}

/// Progress of one startup step.
#[derive(Clone, Debug)]
pub enum EnsureStatus {
    NotStarted,
    InProgress,
    Success,
    Failed(String),
}

impl Default for EnsureStatus {
    fn default() -> (r: EnsureStatus)
        ensures
            r is NotStarted,
    {
        EnsureStatus::NotStarted
    }
}

impl EnsureStatus {
    pub fn is_success(&self) -> (r: bool)
        ensures
            r == (*self is Success),
    {
        match self {
            EnsureStatus::Success => true,
            _ => false,
        }
    }
}

/// What the status of the model catalog means for startup: a fatal status
/// stops it with the matching error; any other status, or none, lets it go
/// on.
pub fn check_catalog_status(status: Option<i32>) -> (r: Result<(), EnsureError>)
    ensures
        match status {
            Some(code) if status_is_fatal(status_of_code(code)) => r matches Err(e)
                && ensure_error_of(status_of_code(code), e),
            _ => r is Ok,
        },
{
    match status {
        Some(code) => {
            let s = ApiStatus::from_i32(code);
            if s.is_fatal() {
                Err(EnsureError::from_api_status(s))
            } else {
                Ok(())
            }
        },
        None => Ok(()),
    }
}

/// Outcome of the connection probe.
#[derive(Clone, Debug)]
pub enum ValidationResult {
    Valid,
    InvalidCredentials(String),
    ConnectionError(String),
    ServerError(String),
    InvalidUrl(String),
}

/// How the probe's HTTP status is classified.
pub open spec fn probe_outcome(h: u16, r: ValidationResult) -> bool {
    let code = decimal(h as nat);
    if 200 <= h <= 299 {
        r is Valid
    } else if h == 401 || h == 403 {
        r matches ValidationResult::InvalidCredentials(m) && m@ == "Authentication failed (HTTP "@
            + code + "). Token may have expired."@
    } else if 500 <= h <= 599 {
        r matches ValidationResult::ServerError(m) && m@ == "Server error (HTTP "@ + code + ")"@
    } else {
        r matches ValidationResult::ConnectionError(m) && m@ == "Unexpected response (HTTP "@
            + code + ")"@
    }
}

/// Classifies the HTTP status that answered the probe.
pub fn classify_probe_status(http_status: u16) -> (r: ValidationResult)
    ensures
        probe_outcome(http_status, r),
{
    let h = http_status;
    let code = decimal_string(h as u64);
    if 200 <= h && h <= 299 {
        ValidationResult::Valid
    } else if h == 401 || h == 403 {
        let mut m = String::from_str("Authentication failed (HTTP ");
        m.append(code.as_str());
        m.append("). Token may have expired.");
        ValidationResult::InvalidCredentials(m)
    } else if 500 <= h && h <= 599 {
        let mut m = String::from_str("Server error (HTTP ");
        m.append(code.as_str());
        m.append(")");
        ValidationResult::ServerError(m)
    } else {
        let mut m = String::from_str("Unexpected response (HTTP ");
        m.append(code.as_str());
        m.append(")");
        ValidationResult::ConnectionError(m)
    }
}

/// What the probe's outcome means for startup: the matching error, or none.
pub fn probe_error(v: ValidationResult) -> (r: Option<EnsureError>)
    ensures
        match v {
            ValidationResult::Valid => r is None,
            ValidationResult::InvalidCredentials(m) => r == Some(EnsureError::InvalidCredentials(m)),
            ValidationResult::ConnectionError(m) => r == Some(EnsureError::ConnectionError(m)),
            ValidationResult::ServerError(m) => r == Some(EnsureError::ServerError(m)),
            ValidationResult::InvalidUrl(m) => r == Some(EnsureError::InvalidUrl(m)),
        },
{
    match v {
        ValidationResult::Valid => None,
        ValidationResult::InvalidCredentials(m) => Some(EnsureError::InvalidCredentials(m)),
        ValidationResult::ConnectionError(m) => Some(EnsureError::ConnectionError(m)),
        ValidationResult::ServerError(m) => Some(EnsureError::ServerError(m)),
        ValidationResult::InvalidUrl(m) => Some(EnsureError::InvalidUrl(m)),
    }
}

/// The lower-case form of `s`, as `str::to_lowercase` gives it.
pub uninterp spec fn lower_of(s: Seq<char>) -> Seq<char>;

/// Relies on `str::to_lowercase`: the result depends on the characters alone.
#[verifier::external_body]
pub(crate) fn lowercase(s: &str) -> (r: String)
    ensures
        r@ == lower_of(s@),
{
    s.to_lowercase()
}

/// `needle` occurs in `hay`.
pub open spec fn occurs(hay: Seq<char>, needle: Seq<char>) -> bool {
    exists|i: int| 0 <= i && i + needle.len() <= hay.len() && #[trigger] hay.subrange(i, i + needle.len()) == needle
}

pub(crate) fn contains_text(hay: &str, needle: &str) -> (r: bool)
    ensures
        r == occurs(hay@, needle@),
{
    let h = crate::text::chars_of(hay);
    let n = crate::text::chars_of(needle);
    if n.len() > h.len() {
        proof {
            assert forall|i: int| 0 <= i && i + n@.len() <= h@.len() implies #[trigger] h@.subrange(i, i + n@.len()) != n@ by {}
        }
        return false;
    }
    let hn = h.len();
    let mut i: usize = 0;
    while i <= hn - n.len()
        invariant
            hn == h@.len(),
            h@ == hay@,
            n@ == needle@,
            n@.len() <= h@.len(),
            forall|j: int| 0 <= j < i ==> #[trigger] h@.subrange(j, j + n@.len()) != n@,
        decreases h@.len() - i,
    {
        let mut k: usize = 0;
        let mut same = true;
        while k < n.len()
            invariant
                hn == h@.len(),
                h@ == hay@,
                n@ == needle@,
                i + n@.len() <= h@.len(),
                k <= n@.len(),
                same == forall|j: int| 0 <= j < k ==> h@[i + j] == n@[j],
            decreases n@.len() - k,
        {
            if h[i + k] != n[k] {
                same = false;
            }
            k = k + 1;
        }
        if same {
            assert(h@.subrange(i as int, i + n@.len()) =~= n@);
            return true;
        }
        proof {
            let j = choose|j: int| 0 <= j < n@.len() && h@[i + j] != n@[j];
            assert(h@.subrange(i as int, i + n@.len())[j] != n@[j]);
        }
        i = i + 1;
    }
    false
}

/// How a probe that got no response is classified, from the error's text:
/// a URL problem, a connection problem, or else a connection error carrying
/// the text.
pub open spec fn probe_failure(err: Seq<char>, tenant_url: Seq<char>, r: ValidationResult) -> bool {
    let l = lower_of(err);
    if occurs(l, "invalid url"@) || occurs(l, "url parse"@) || occurs(l, "relative url"@) {
        r matches ValidationResult::InvalidUrl(m) && m@ == "Invalid URL: "@ + tenant_url
    } else if occurs(l, "dns"@) || occurs(l, "resolve"@) || occurs(l, "connect"@) || occurs(
        l,
        "network"@,
    ) {
        r matches ValidationResult::ConnectionError(m) && m@ == "Cannot connect to "@ + tenant_url
            + ": "@ + err
    } else {
        r matches ValidationResult::ConnectionError(m) && m@ == err
    }
}

/// Classifies a probe that failed before any response arrived.
pub fn classify_probe_failure(err: &str, tenant_url: &str) -> (r: ValidationResult)
    ensures
        probe_failure(err@, tenant_url@, r),
{
    let lower = lowercase(err);
    let l = lower.as_str();
    if contains_text(l, "invalid url") || contains_text(l, "url parse") || contains_text(
        l,
        "relative url",
    ) {
        let mut m = String::from_str("Invalid URL: ");
        m.append(tenant_url);
        ValidationResult::InvalidUrl(m)
    } else if contains_text(l, "dns") || contains_text(l, "resolve") || contains_text(l, "connect")
        || contains_text(l, "network") {
        let mut m = String::from_str("Cannot connect to ");
        m.append(tenant_url);
        m.append(": ");
        m.append(err);
        ValidationResult::ConnectionError(m)
    } else {
        ValidationResult::ConnectionError(String::from_str(err))
    }
}

} // verus!
