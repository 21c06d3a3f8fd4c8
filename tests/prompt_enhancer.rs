use auggie::prompt::{agents_endpoint, build_user_agent, enhanced_from_capture};
use auggie::{build_legacy_prompt, extract_enhanced_prompt, parse_bool_env, CliMode};

#[test]
fn test_extract_enhanced_prompt() {
    let response = r#"Here is the enhanced prompt:

<augment-enhanced-prompt>
Write a function that calculates the factorial of a number recursively with proper error handling for negative inputs.
</augment-enhanced-prompt>

That's all!"#;

    let extracted = extract_enhanced_prompt(response);
    assert!(extracted.is_some());
    assert_eq!(
        extracted.unwrap(),
        "Write a function that calculates the factorial of a number recursively with proper error handling for negative inputs."
    );
}

#[test]
fn test_extract_enhanced_prompt_multiline() {
    let response = r#"<augment-enhanced-prompt>
Line 1
Line 2
Line 3
</augment-enhanced-prompt>"#;

    let extracted = extract_enhanced_prompt(response);
    assert!(extracted.is_some());
    assert_eq!(extracted.unwrap(), "Line 1\nLine 2\nLine 3");
}

#[test]
fn test_extract_enhanced_prompt_no_match() {
    let response = "This response has no XML tags";
    let extracted = extract_enhanced_prompt(response);
    assert!(extracted.is_none());
}

#[test]
fn test_extract_enhanced_prompt_empty_content() {
    let response = "<augment-enhanced-prompt>   </augment-enhanced-prompt>";
    let extracted = extract_enhanced_prompt(response);
    assert!(extracted.is_none());
}

#[test]
fn test_build_legacy_prompt() {
    let prompt = "Write a hello world";
    let wrapped = build_legacy_prompt(prompt);
    assert!(wrapped.contains("NO TOOLS ALLOWED"));
    assert!(wrapped.contains("<augment-enhanced-prompt>"));
    assert!(wrapped.contains("Write a hello world"));
}

#[test]
fn test_parse_bool_env() {
    assert!(parse_bool_env("1"));
    assert!(parse_bool_env("true"));
    assert!(parse_bool_env("TRUE"));
    assert!(parse_bool_env("True"));
    assert!(parse_bool_env("yes"));
    assert!(parse_bool_env("YES"));
    assert!(parse_bool_env("on"));
    assert!(parse_bool_env("ON"));

    assert!(!parse_bool_env("0"));
    assert!(!parse_bool_env("false"));
    assert!(!parse_bool_env("FALSE"));
    assert!(!parse_bool_env("no"));
    assert!(!parse_bool_env("off"));
    assert!(!parse_bool_env(""));
    assert!(!parse_bool_env("random"));
}

#[test]
fn extract_is_case_insensitive_on_tags() {
    let response = "<AUGMENT-ENHANCED-PROMPT>  Do it  </Augment-Enhanced-Prompt>";
    assert_eq!(extract_enhanced_prompt(response), Some("Do it".to_string()));
}

#[test]
fn capture_is_trimmed_and_blank_is_none() {
    assert_eq!(enhanced_from_capture(Some("\n  text \t".to_string())), Some("text".to_string()));
    assert_eq!(enhanced_from_capture(Some(" \u{3000}\n".to_string())), None);
    assert_eq!(enhanced_from_capture(None), None);
}

#[test]
fn legacy_prompt_places_prompt_between_markers() {
    let wrapped = build_legacy_prompt("P");
    let start = wrapped.find("### ORIGINAL PROMPT ###\nP\n### END ORIGINAL PROMPT ###");
    assert!(start.is_some());
    assert!(wrapped.starts_with("You are a prompt improvement assistant."));
}

#[test]
fn agents_endpoint_adds_prefix_once() {
    assert_eq!(agents_endpoint("codebase-retrieval"), "agents/codebase-retrieval");
    assert_eq!(agents_endpoint("//codebase-retrieval"), "agents/codebase-retrieval");
    assert_eq!(agents_endpoint("/agents/codebase-retrieval"), "agents/codebase-retrieval");
    assert_eq!(agents_endpoint(""), "agents/");
}

#[test]
fn client_test_build_user_agent() {
    let ua = build_user_agent("0.1.0", CliMode::Mcp);
    assert!(ua.starts_with("augment.cli/"));
    assert_eq!(ua, "augment.cli/0.1.0/mcp");
}

#[test]
fn mod_test_build_user_agent() {
    let ua = build_user_agent("1.2.3", CliMode::NonInteractive);
    assert!(ua.starts_with("augment.cli/"));
    assert_eq!(ua, "augment.cli/1.2.3/noninteractive");
    assert_eq!(CliMode::Acp.as_str(), "acp");
    assert_eq!(CliMode::Interactive.as_str(), "interactive");
}

#[test]
fn test_build_url_token() {
    let url = auggie::prompt::build_url("https://example.augmentcode.com/", "token").unwrap();
    assert_eq!(url, "https://example.augmentcode.com/token");

    let url = auggie::prompt::build_url("https://example.augmentcode.com", "token").unwrap();
    assert_eq!(url, "https://example.augmentcode.com/token");
}

#[test]
fn test_build_token_url() {
    let url = auggie::prompt::build_token_url("https://example.augmentcode.com/").unwrap();
    assert_eq!(url, "https://example.augmentcode.com/token");

    let url = auggie::prompt::build_token_url("https://example.augmentcode.com").unwrap();
    assert_eq!(url, "https://example.augmentcode.com/token");
}

#[test]
fn invalid_tenant_url_is_reported() {
    assert_eq!(
        auggie::prompt::build_token_url("not a url"),
        Err("Invalid tenant URL: not a url".to_string())
    );
    assert_eq!(
        auggie::prompt::build_url("https://t.example/", "agents/codebase-retrieval").unwrap(),
        "https://t.example/agents/codebase-retrieval"
    );
}
