//! Session credentials, the session-count metadata, and feature flags.

use vstd::prelude::*;
use vstd::string::*;
use crate::table::find_key;

verus! {

/// Credentials of a logged-in user.
#[derive(Clone, Debug)]
pub struct SessionData {
    pub access_token: String,
    pub tenant_url: String,
    pub scopes: Vec<String>,
}

/// A session counts only with a token, a tenant URL and at least one scope.
pub open spec fn session_valid(s: SessionData) -> bool {
    s.access_token@.len() > 0 && s.tenant_url@.len() > 0 && s.scopes@.len() > 0
}

impl SessionData {
    pub fn is_valid(&self) -> (r: bool)
        ensures
            r == session_valid(*self),
    {
        !self.access_token.as_str().is_empty() && !self.tenant_url.as_str().is_empty()
            && self.scopes.len() > 0
    }
}

/// Where the session lives and whether valid credentials were found.
pub struct AuthSessionStore {
    session_path: String,
    is_logged_in: bool,
}

impl AuthSessionStore {
    pub fn new(session_path: String, is_logged_in: bool) -> (r: AuthSessionStore)
        ensures
            r.path() == session_path,
            r.logged_in() == is_logged_in,
    {
        AuthSessionStore { session_path, is_logged_in }
    }

    pub closed spec fn path(&self) -> String {
        self.session_path
    }

    pub closed spec fn logged_in(&self) -> bool {
        self.is_logged_in
    }

    pub fn session_path(&self) -> (r: &String)
        ensures
            *r == self.path(),
    {
        &self.session_path
    }

    pub fn is_logged_in(&self) -> (r: bool)
        ensures
            r == self.logged_in(),
    {
        self.is_logged_in
    }
}

pub open spec fn not_logged_in_text() -> Seq<char> {
    "Error: Not logged in. Please run 'auggie login' first."@
}

pub open spec fn unreadable_session_text() -> Seq<char> {
    "Error: Could not read session information."@
}

pub open spec fn store_error_text(e: Seq<char>) -> Seq<char> {
    "Error accessing session: "@ + e
}

/// The session a tool needs, or the message of the tool error: the store
/// could not be opened, nobody is logged in, or the session could not be
/// read.
pub fn require_session(store: Result<AuthSessionStore, String>, session: Option<SessionData>) -> (r:
    Result<SessionData, String>)
    ensures
        match store {
            Err(e) => r matches Err(m) && m@ == store_error_text(e@),
            Ok(st) => if !st.logged_in() {
                r matches Err(m) && m@ == not_logged_in_text()
            } else {
                match session {
                    Some(s) => r == Ok::<SessionData, String>(s),
                    None => r matches Err(m) && m@ == unreadable_session_text(),
                }
            },
        },
{
    match store {
        Err(e) => {
            let mut m = String::from_str("Error accessing session: ");
            m.append(e.as_str());
            Err(m)
        },
        Ok(st) => {
            if !st.is_logged_in() {
                Err(String::from_str("Error: Not logged in. Please run 'auggie login' first."))
            } else {
                match session {
                    Some(s) => Ok(s),
                    None => Err(String::from_str("Error: Could not read session information.")),
                }
            }
        },
    }
}

/// Usage metadata kept between runs.
#[derive(Clone, Debug)]
pub struct Metadata {
    pub last_used: Option<String>,
    pub session_count: u64,
    pub first_used: Option<String>,
    pub first_version: Option<String>,
}

impl Metadata {
    /// The metadata after one more session starts at `now`: last use is now,
    /// the count goes up by one (held at `u64::MAX`), and the first use and
    /// version are set if they were not.
    pub fn after_session(self, now: String, version: String) -> (r: Metadata)
        ensures
            r.last_used == Some(now),
            r.session_count == if self.session_count == u64::MAX {
                u64::MAX
            } else {
                (self.session_count + 1) as u64
            },
            self.first_used is Some ==> r.first_used == self.first_used && r.first_version
                == self.first_version,
            self.first_used is None ==> r.first_used == Some(now) && r.first_version == Some(
                version,
            ),
    {
        let count = if self.session_count == u64::MAX {
            u64::MAX
        } else {
            self.session_count + 1
        };
        match self.first_used {
            Some(f) => Metadata {
                last_used: Some(now),
                session_count: count,
                first_used: Some(f),
                first_version: self.first_version,
            },
            None => Metadata {
                last_used: Some(now.clone()),
                session_count: count,
                first_used: Some(now),
                first_version: Some(version),
            },
        }
    }
}

/// Feature flags given as explicit lists.
#[derive(Clone, Debug)]
pub struct FeatureFlagsV2 {
    pub enabled: Vec<String>,
    pub disabled: Vec<String>,
}

/// Feature flags given as key and value; `other` holds the remaining flags
/// with their boolean value, if they have one.
#[derive(Clone, Debug)]
pub struct FeatureFlagsV1 {
    pub enable_codebase_retrieval: Option<bool>,
    pub enable_commit_retrieval: Option<bool>,
    pub enable_prompt_enhancer: Option<bool>,
    pub enable_telemetry: Option<bool>,
    pub enable_mcp_mode: Option<bool>,
    pub enable_cli_mode: Option<bool>,
    pub other: Vec<(String, Option<bool>)>,
}

pub open spec fn listed(v: Seq<String>, f: Seq<char>) -> bool {
    exists|i: int| 0 <= i < v.len() && (#[trigger] v[i])@ == f
}

fn is_listed(v: &Vec<String>, f: &String) -> (r: bool)
    ensures
        r == listed(v@, f@),
{
    let mut i: usize = 0;
    while i < v.len()
        invariant
            i <= v@.len(),
            forall|j: int| 0 <= j < i ==> (#[trigger] v@[j])@ != f@,
        decreases v@.len() - i,
    {
        if v[i] == *f {
            return true;
        }
        i = i + 1;
    }
    false
}

pub open spec fn or_default(o: Option<bool>, d: bool) -> bool {
    match o {
        Some(b) => b,
        None => d,
    }
}

/// Whether a flag is on: the explicit lists decide first (enabled before
/// disabled); then the known key-value flags with their defaults (commit
/// retrieval and telemetry off, the others on); then the other flags, off
/// unless present with a boolean `true`.
pub open spec fn flag_enabled(v1: FeatureFlagsV1, v2: Option<FeatureFlagsV2>, f: Seq<char>) -> bool {
    if v2 matches Some(l) && listed(l.enabled@, f) {
        true
    } else if v2 matches Some(l) && listed(l.disabled@, f) {
        false
    } else if f == "enable_codebase_retrieval"@ {
        or_default(v1.enable_codebase_retrieval, true)
    } else if f == "enable_commit_retrieval"@ {
        or_default(v1.enable_commit_retrieval, false)
    } else if f == "enable_prompt_enhancer"@ {
        or_default(v1.enable_prompt_enhancer, true)
    } else if f == "enable_telemetry"@ {
        or_default(v1.enable_telemetry, false)
    } else if f == "enable_mcp_mode"@ {
        or_default(v1.enable_mcp_mode, true)
    } else if f == "enable_cli_mode"@ {
        or_default(v1.enable_cli_mode, true)
    } else {
        exists|i: int|
            0 <= i < v1.other@.len() && (#[trigger] v1.other@[i]).0@ == f && v1.other@[i].1
                == Some(true) && forall|j: int| 0 <= j < i ==> (#[trigger] v1.other@[j]).0@ != f
    }
}

fn opt_or(o: Option<bool>, d: bool) -> (r: bool)
    ensures
        r == or_default(o, d),
{
    match o {
        Some(b) => b,
        None => d,
    }
}

/// Whether the feature flag `flag` is on.
pub fn is_feature_enabled(v1: &FeatureFlagsV1, v2: &Option<FeatureFlagsV2>, flag: &str) -> (r: bool)
    ensures
        r == flag_enabled(*v1, *v2, flag@),
{
    let f = String::from_str(flag);
    match v2 {
        Some(l) => {
            if is_listed(&l.enabled, &f) {
                return true;
            }
            if is_listed(&l.disabled, &f) {
                return false;
            }
        },
        None => {},
    }
    if f == String::from_str("enable_codebase_retrieval") {
        opt_or(v1.enable_codebase_retrieval, true)
    } else if f == String::from_str("enable_commit_retrieval") {
        opt_or(v1.enable_commit_retrieval, false)
    } else if f == String::from_str("enable_prompt_enhancer") {
        opt_or(v1.enable_prompt_enhancer, true)
    } else if f == String::from_str("enable_telemetry") {
        opt_or(v1.enable_telemetry, false)
    } else if f == String::from_str("enable_mcp_mode") {
        opt_or(v1.enable_mcp_mode, true)
    } else if f == String::from_str("enable_cli_mode") {
        opt_or(v1.enable_cli_mode, true)
    } else {
        match find_key(&v1.other, &f) {
            Some(i) => match v1.other[i].1 {
                Some(b) => b,
                None => false,
            },
            None => false,
        }
    }
}

/// Whether the account may run in a mode whose flag is `flag`: never with
/// the permission-denied catalog status (8), else as the flag says.
pub open spec fn mode_enabled(status: Option<i32>, v1: FeatureFlagsV1, v2: Option<FeatureFlagsV2>, flag: Seq<char>) -> bool {
    status != Some(8i32) && flag_enabled(v1, v2, flag)
}

pub fn is_mode_enabled(status: Option<i32>, v1: &FeatureFlagsV1, v2: &Option<FeatureFlagsV2>, flag: &str) -> (r: bool)
    ensures
        r == mode_enabled(status, *v1, *v2, flag@),
{
    let denied = match status {
        Some(code) => code == 8,
        None => false,
    };
    !denied && is_feature_enabled(v1, v2, flag)
}

/// Where credentials come from, strongest first: a session given whole in
/// the environment, if valid; a token and URL pair from the environment, if
/// both are non-empty (scopes `read` and `write`); the session file, if
/// valid. None means not logged in.
pub open spec fn chosen_session(
    env_session: Option<SessionData>,
    env_pair: Option<(String, String)>,
    file_session: Option<SessionData>,
    r: Option<SessionData>,
) -> bool {
    if env_session matches Some(s) && session_valid(s) {
        r == env_session
    } else if env_pair matches Some(p) && p.0@.len() > 0 && p.1@.len() > 0 {
        match env_pair {
            Some(p) => r matches Some(s) && s.access_token == p.0 && s.tenant_url == p.1
                && s.scopes@.len() == 2 && s.scopes@[0]@ == "read"@ && s.scopes@[1]@ == "write"@,
            None => false,
        }
    } else if file_session matches Some(s) && session_valid(s) {
        r == file_session
    } else {
        r is None
    }
}

/// Picks the credentials to use from the places they may come from.
pub fn choose_session(
    env_session: Option<SessionData>,
    env_pair: Option<(String, String)>,
    file_session: Option<SessionData>,
) -> (r: Option<SessionData>)
    ensures
        chosen_session(env_session, env_pair, file_session, r),
{
    match env_session {
        Some(s) => {
            if s.is_valid() {
                return Some(s);
            }
        },
        None => {},
    }
    match env_pair {
        Some((token, url)) => {
            if !token.as_str().is_empty() && !url.as_str().is_empty() {
                let mut scopes: Vec<String> = Vec::new();
                scopes.push(String::from_str("read"));
                scopes.push(String::from_str("write"));
                return Some(SessionData { access_token: token, tenant_url: url, scopes });
            }
        },
        None => {},
    }
    match file_session {
        Some(s) => {
            if s.is_valid() {
                Some(s)
            } else {
                None
            }
        },
        None => None,
    }
}

} // verus!
