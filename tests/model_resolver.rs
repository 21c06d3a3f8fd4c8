use auggie::{
    find_default_model, resolve_model, resolve_model_with_fallback, MatchedBy, ModelInfoEntry,
    ModelInfoRegistry, ModelResolution,
};

fn entry(description: &str, disabled: bool, display: &str, short: &str) -> ModelInfoEntry {
    ModelInfoEntry {
        description: Some(description.to_string()),
        disabled,
        display_name: Some(display.to_string()),
        short_name: Some(short.to_string()),
        is_default: false,
        is_new: false,
        is_legacy_model: false,
        disabled_reason: None,
    }
}

fn sample_registry() -> ModelInfoRegistry {
    let mut registry = ModelInfoRegistry::new();
    registry.insert(
        "model-haiku-4-5".to_string(),
        entry("Fast and efficient", false, "Haiku 4.5", "haiku4.5"),
    );
    let mut sonnet = entry("Great for everyday tasks", false, "Sonnet 4.5", "sonnet4.5");
    sonnet.is_default = true;
    registry.insert("model-sonnet-4-5".to_string(), sonnet);
    registry.insert(
        "model-opus-4-5".to_string(),
        entry("Best for complex tasks", false, "Big Opus 4.5", "opus4.5"),
    );
    let mut disabled = entry("This model is disabled", true, "Disabled Model", "disabled");
    disabled.disabled_reason = Some("Maintenance".to_string());
    registry.insert("disabled-model".to_string(), disabled);
    registry
}

#[test]
fn test_resolve_by_short_name() {
    let registry = sample_registry();
    match resolve_model("sonnet4.5", &registry) {
        ModelResolution::Resolved { id, matched_by, .. } => {
            assert_eq!(id, "model-sonnet-4-5");
            assert_eq!(matched_by, MatchedBy::ShortName);
        }
        other => panic!("Expected Resolved, got {:?}", other),
    }
}

#[test]
fn test_resolve_by_id() {
    let registry = sample_registry();
    match resolve_model("model-opus-4-5", &registry) {
        ModelResolution::Resolved { id, matched_by, .. } => {
            assert_eq!(id, "model-opus-4-5");
            assert_eq!(matched_by, MatchedBy::Id);
        }
        other => panic!("Expected Resolved, got {:?}", other),
    }
}

#[test]
fn test_resolve_display_name_not_supported() {
    let registry = sample_registry();
    match resolve_model("Haiku 4.5", &registry) {
        ModelResolution::DisplayNameNotSupported { id, short_name, .. } => {
            assert_eq!(id, "model-haiku-4-5");
            assert_eq!(short_name, Some("haiku4.5".to_string()));
        }
        other => panic!("Expected DisplayNameNotSupported, got {:?}", other),
    }
}

#[test]
fn test_resolve_not_found() {
    let registry = sample_registry();
    match resolve_model("unknown-model", &registry) {
        ModelResolution::NotFound => {}
        other => panic!("Expected NotFound, got {:?}", other),
    }
}

#[test]
fn test_resolve_default() {
    let registry = sample_registry();
    match resolve_model("default", &registry) {
        ModelResolution::UseDefault => {}
        other => panic!("Expected UseDefault, got {:?}", other),
    }
}

#[test]
fn test_find_default_model() {
    let registry = sample_registry();
    let default = find_default_model(&registry);
    assert_eq!(default, Some("model-sonnet-4-5".to_string()));
}

#[test]
fn test_resolve_with_fallback_disabled_model() {
    let registry = sample_registry();
    let result = resolve_model_with_fallback(Some("disabled"), &registry, Some("fallback-model"));
    assert_eq!(result, Some("fallback-model".to_string()));
}

#[test]
fn test_resolve_with_fallback_success() {
    let registry = sample_registry();
    let result = resolve_model_with_fallback(Some("opus4.5"), &registry, Some("fallback-model"));
    assert_eq!(result, Some("model-opus-4-5".to_string()));
}

#[test]
fn test_resolve_with_fallback_no_input() {
    let registry = sample_registry();
    let result = resolve_model_with_fallback(None, &registry, Some("fallback-model"));
    assert_eq!(result, None);
}

#[test]
fn resolution_trims_and_ignores_case_of_default() {
    let registry = sample_registry();
    assert!(matches!(resolve_model("  DeFaUlT \n", &registry), ModelResolution::UseDefault));
    match resolve_model(" opus4.5 ", &registry) {
        ModelResolution::Resolved { id, display_name, .. } => {
            assert_eq!(id, "model-opus-4-5");
            assert_eq!(display_name, Some("Big Opus 4.5".to_string()));
        }
        other => panic!("Expected Resolved, got {:?}", other),
    }
    assert_eq!(resolve_model_with_fallback(Some("   "), &registry, Some("f")), None);
    assert_eq!(resolve_model_with_fallback(Some("default"), &registry, Some("f")), Some("f".to_string()));
    assert_eq!(resolve_model_with_fallback(Some("Sonnet 4.5"), &registry, None), None);
    assert_eq!(resolve_model_with_fallback(Some("nope"), &registry, Some("f")), Some("f".to_string()));
}

#[test]
fn registry_insert_replaces_in_place() {
    let mut registry = sample_registry();
    assert_eq!(registry.len(), 4);
    registry.insert("model-haiku-4-5".to_string(), entry("x", true, "H", "h"));
    assert_eq!(registry.len(), 4);
    assert!(registry.get("model-haiku-4-5").unwrap().disabled);
    assert!(registry.get("missing").is_none());
    let empty = ModelInfoRegistry::new();
    assert_eq!(find_default_model(&empty), None);
}
