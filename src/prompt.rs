//! Prompt enhancement helpers, the endpoint-selection flag, agent endpoint
//! paths and the client mode.

use vstd::prelude::*;
use vstd::string::*;
use crate::text::{chars_of, eq_ignore_ascii_case, same_ignoring_ascii_case, string_of, trim_white_space, trimmed};

verus! {

/// Whether a flag's text reads as true: `1`, `true`, `yes` or `on`, in any
/// ASCII case.
pub open spec fn truthy(v: Seq<char>) -> bool {
    eq_ignore_ascii_case(v, "1"@) || eq_ignore_ascii_case(v, "true"@) || eq_ignore_ascii_case(
        v,
        "yes"@,
    ) || eq_ignore_ascii_case(v, "on"@)
}

pub fn parse_bool_env(value: &str) -> (r: bool)
    ensures
        r == truthy(value@),
{
    same_ignoring_ascii_case(value, "1") || same_ignoring_ascii_case(value, "true")
        || same_ignoring_ascii_case(value, "yes") || same_ignoring_ascii_case(value, "on")
}

pub open spec fn legacy_head() -> Seq<char> {
    "You are a prompt improvement assistant. Your task is to rewrite the user's prompt to be more clear, specific, and actionable.\n\nNO TOOLS ALLOWED - Do not use any tools or external resources. Just rewrite the prompt directly.\n\nPlease rewrite the following prompt to be more effective. Output your improved prompt inside <augment-enhanced-prompt></augment-enhanced-prompt> tags.\n\n### ORIGINAL PROMPT ###\n"@
}

pub open spec fn legacy_tail() -> Seq<char> {
    "\n### END ORIGINAL PROMPT ###\n\nIMPORTANT: Output ONLY the enhanced prompt wrapped in <augment-enhanced-prompt></augment-enhanced-prompt> tags. Do not include any explanation or other text.\n\nExample format:\n<augment-enhanced-prompt>Your enhanced prompt goes here</augment-enhanced-prompt>"@
}

/// The chat prompt that asks for `prompt` to be rewritten between the
/// enhanced-prompt tags.
pub fn build_legacy_prompt(prompt: &str) -> (r: String)
    ensures
        r@ == legacy_head() + prompt@ + legacy_tail(),
{
    let mut r = String::from_str(
        "You are a prompt improvement assistant. Your task is to rewrite the user's prompt to be more clear, specific, and actionable.\n\nNO TOOLS ALLOWED - Do not use any tools or external resources. Just rewrite the prompt directly.\n\nPlease rewrite the following prompt to be more effective. Output your improved prompt inside <augment-enhanced-prompt></augment-enhanced-prompt> tags.\n\n### ORIGINAL PROMPT ###\n",
    );
    r.append(prompt);
    r.append(
        "\n### END ORIGINAL PROMPT ###\n\nIMPORTANT: Output ONLY the enhanced prompt wrapped in <augment-enhanced-prompt></augment-enhanced-prompt> tags. Do not include any explanation or other text.\n\nExample format:\n<augment-enhanced-prompt>Your enhanced prompt goes here</augment-enhanced-prompt>",
    );
    r
}

/// The text of capture group 1 of the first match of `pattern` in `text`;
/// none when nothing matches or the pattern is not valid.
pub uninterp spec fn regex_group1(pattern: Seq<char>, text: Seq<char>) -> Option<Seq<char>>;

/// Relies on `regex::Regex::new` and `Regex::captures`: the first match's
/// group 1, if the pattern compiles and matches; the text depends on the
/// pattern and the haystack alone.
#[verifier::external_body]
fn first_group(pattern: &str, text: &str) -> (r: Option<String>)
    ensures
        match r {
            Some(g) => regex_group1(pattern@, text@) == Some(g@),
            None => regex_group1(pattern@, text@) is None,
        },
{
    match regex::Regex::new(pattern) {
        Ok(re) => match re.captures(text) {
            Some(c) => c.get(1).map(|m| m.as_str().to_string()),
            None => None,
        },
        Err(_) => None,
    }
}

pub open spec fn enhanced_pattern() -> Seq<char> {
    "(?i)<augment-enhanced-prompt>\\s*([\\s\\S]*?)\\s*</augment-enhanced-prompt>"@
}

/// The enhanced prompt from a captured group: trimmed, and none if nothing
/// is left.
pub open spec fn enhanced_of(capture: Option<Seq<char>>) -> Option<Seq<char>> {
    match capture {
        Some(c) => if trimmed(c).len() > 0 {
            Some(trimmed(c))
        } else {
            None
        },
        None => None,
    }
}

/// The enhanced prompt from the text captured between the tags.
pub fn enhanced_from_capture(capture: Option<String>) -> (r: Option<String>)
    ensures
        match r {
            Some(x) => enhanced_of(
                match capture {
                    Some(c) => Some(c@),
                    None => None,
                },
            ) == Some(x@),
            None => enhanced_of(
                match capture {
                    Some(c) => Some(c@),
                    None => None,
                },
            ) is None,
        },
{
    match capture {
        Some(c) => {
            let t = trim_white_space(c.as_str());
            if t.as_str().is_empty() {
                None
            } else {
                Some(t)
            }
        },
        None => None,
    }
}

/// The enhanced prompt between `<augment-enhanced-prompt>` tags (any case,
/// across lines) of a chat response, trimmed; none if there is no such
/// pair or only white space between them.
pub fn extract_enhanced_prompt(response: &str) -> (r: Option<String>)
    ensures
        match r {
            Some(x) => enhanced_of(regex_group1(enhanced_pattern(), response@)) == Some(x@),
            None => enhanced_of(regex_group1(enhanced_pattern(), response@)) is None,
        },
{
    let capture = first_group(
        "(?i)<augment-enhanced-prompt>\\s*([\\s\\S]*?)\\s*</augment-enhanced-prompt>",
        response,
    );
    enhanced_from_capture(capture)
}

/// `s` without its leading slashes.
pub open spec fn strip_slashes(s: Seq<char>) -> Seq<char>
    decreases s.len(),
{
    if s.len() > 0 && s[0] == '/' {
        strip_slashes(s.drop_first())
    } else {
        s
    }
}

pub open spec fn agents_prefix() -> Seq<char> {
    seq!['a', 'g', 'e', 'n', 't', 's', '/']
}

/// The endpoint under `agents/`: leading slashes dropped, the prefix added
/// unless it is there.
pub open spec fn agents_endpoint_of(endpoint: Seq<char>) -> Seq<char> {
    let e = strip_slashes(endpoint);
    if e.len() >= 7 && e.take(7) == agents_prefix() {
        e
    } else {
        agents_prefix() + e
    }
}

proof fn lemma_strip_from(s: Seq<char>, i: int)
    requires
        0 <= i <= s.len(),
        forall|j: int| 0 <= j < i ==> #[trigger] s[j] == '/',
    ensures
        strip_slashes(s) == strip_slashes(s.subrange(i, s.len() as int)),
    decreases i,
{
    if i > 0 {
        assert(s.drop_first().subrange(i - 1, s.drop_first().len() as int) =~= s.subrange(i, s.len() as int));
        lemma_strip_from(s.drop_first(), i - 1);
    } else {
        assert(s.subrange(0, s.len() as int) =~= s);
    }
}

/// The path of an agent endpoint.
pub fn agents_endpoint(endpoint: &str) -> (r: String)
    ensures
        r@ == agents_endpoint_of(endpoint@),
{
    let cs = chars_of(endpoint);
    let n = cs.len();
    let mut a: usize = 0;
    while a < n && cs[a] == '/'
        invariant
            a <= n,
            n == cs@.len(),
            forall|j: int| 0 <= j < a ==> #[trigger] cs@[j] == '/',
        decreases n - a,
    {
        a = a + 1;
    }
    proof {
        lemma_strip_from(cs@, a as int);
    }
    let rest = &cs.as_slice()[a..n];
    let ghost e = cs@.subrange(a as int, n as int);
    assert(strip_slashes(e) == e);
    let prefix = ['a', 'g', 'e', 'n', 't', 's', '/'];
    let mut has_prefix = rest.len() >= 7;
    let mut k: usize = 0;
    while has_prefix && k < 7
        invariant
            rest@ == e,
            k <= 7,
            has_prefix ==> e.len() >= 7,
            has_prefix ==> forall|j: int| 0 <= j < k ==> e[j] == agents_prefix()[j],
            !has_prefix ==> !(e.len() >= 7 && e.take(7) == agents_prefix()),
            prefix@ == agents_prefix(),
        decreases 7 - k,
    {
        if rest[k] != prefix[k] {
            assert(e.take(7)[k as int] != agents_prefix()[k as int]);
            has_prefix = false;
        }
        k = k + 1;
    }
    if has_prefix {
        assert(e.take(7) =~= agents_prefix());
        string_of(rest)
    } else {
        let mut out = string_of(&prefix);
        let tail = string_of(rest);
        out.append(tail.as_str());
        out
    }
}

/// How the client runs; part of its User-Agent.
#[derive(Clone, Copy, Debug, PartialEq, Eq, Structural)]
pub enum CliMode {
    Mcp,
    Acp,
    Interactive,
    NonInteractive,
}

pub open spec fn mode_text(m: CliMode) -> Seq<char> {
    match m {
        CliMode::Mcp => "mcp"@,
        CliMode::Acp => "acp"@,
        CliMode::Interactive => "interactive"@,
        CliMode::NonInteractive => "noninteractive"@,
    }
}

impl CliMode {
    pub fn as_str(&self) -> (r: &'static str)
        ensures
            r@ == mode_text(*self),
    {
        match self {
            CliMode::Mcp => "mcp",
            CliMode::Acp => "acp",
            CliMode::Interactive => "interactive",
            CliMode::NonInteractive => "noninteractive",
        }
    }
}

/// `augment.cli/<version>/<mode>`.
pub fn build_user_agent(version: &str, mode: CliMode) -> (r: String)
    ensures
        r@ == "augment.cli/"@ + version@ + "/"@ + mode_text(mode),
{
    let mut r = String::from_str("augment.cli/");
    r.append(version);
    r.append("/");
    r.append(mode.as_str());
    r
}

/// The URL of `endpoint` joined onto `base` by the URL standard's rules;
/// none if `base` is not an absolute URL or the join fails.
pub uninterp spec fn url_join_of(base: Seq<char>, endpoint: Seq<char>) -> Option<Seq<char>>;

/// Relies on `url::Url::parse` and `Url::join`, serialised by `Url::as_str`.
#[verifier::external_body]
fn url_join(base: &str, endpoint: &str) -> (r: Option<String>)
    ensures
        match r {
            Some(u) => url_join_of(base@, endpoint@) == Some(u@),
            None => url_join_of(base@, endpoint@) is None,
        },
{
    match url::Url::parse(base) {
        Ok(b) => b.join(endpoint).ok().map(|u| u.as_str().to_string()),
        Err(_) => None,
    }
}

/// The URL of an endpoint under the tenant URL, or the reason it has none.
pub fn build_url(tenant_url: &str, endpoint: &str) -> (r: Result<String, String>)
    ensures
        match url_join_of(tenant_url@, endpoint@) {
            Some(u) => r matches Ok(x) && x@ == u,
            None => r matches Err(m) && m@ == "Invalid tenant URL: "@ + tenant_url@,
        },
{
    match url_join(tenant_url, endpoint) {
        Some(u) => Ok(u),
        None => {
            let mut m = String::from_str("Invalid tenant URL: ");
            m.append(tenant_url);
            Err(m)
        },
    }
}

/// The URL of the token endpoint under the tenant URL.
pub fn build_token_url(tenant_url: &str) -> (r: Result<String, String>)
    ensures
        match url_join_of(tenant_url@, "token"@) {
            Some(u) => r matches Ok(x) && x@ == u,
            None => r matches Err(m) && m@ == "Invalid tenant URL: "@ + tenant_url@,
        },
{
    build_url(tenant_url, "token")
}

} // verus!
