use copilot_byok::bridge::parse_json5;
use copilot_byok::error::AppError;
use copilot_byok::import::ImportedModel;
use copilot_byok::json::JsonValue;
use copilot_byok::store::{
    add_custom_target, custom_target_id, delete_model, is_versioned_store, migrate_legacy_store, normalize_store,
    remove_custom_target, set_selected_targets, store_path, upsert_model, validate_language_models_path, CopilotByokCustomTarget, CopilotByokStore, STORE_VERSION,
};

fn json(text: &str) -> JsonValue {
    parse_json5(text).expect("valid JSON")
}

fn flat_model(id: &str, model_id: &str, name: &str) -> ImportedModel {
    ImportedModel {
        id: id.to_string(),
        model_id: model_id.to_string(),
        name: name.to_string(),
        url: "https://api.example.com/v1/chat/completions".to_string(),
        api_key: "secret".to_string(),
        api_type: "chat-completions".to_string(),
        enabled: true,
        tool_calling: false,
        vision: false,
        thinking: false,
        streaming: true,
        context_window: 128_000,
        max_input_tokens: None,
        max_output_tokens: 8_192,
        edit_tools: Vec::new(),
        zero_data_retention_enabled: false,
        supports_reasoning_effort: Vec::new(),
        reasoning_effort_format: None,
        request_headers: Vec::new(),
        model_options: JsonValue::Object(Vec::new()),
    }
}

fn legacy_models(value: &JsonValue) -> Vec<ImportedModel> {
    // The fixtures below hold an empty `models` array.
    assert_eq!(value.get("models").and_then(|m| m.as_array()).map(Vec::len), Some(0));
    Vec::new()
}

#[test]
fn migrates_legacy_single_path_store() {
    let path = "/tmp/copilot-byok-test/chatLanguageModels.json";
    let value = json(&format!(r#"{{"configPath": "{path}", "models": []}}"#));
    assert!(!is_versioned_store(&value));
    let config_path = value.get("configPath").and_then(|v| v.as_str()).cloned();
    let store = migrate_legacy_store(config_path, legacy_models(&value)).expect("migrate store");

    assert_eq!(store.version, STORE_VERSION);
    assert_eq!(store.custom_targets.len(), 1);
    assert_eq!(store.selected_target_ids, vec![store.custom_targets[0].id.clone()]);
}

#[test]
fn rejects_custom_non_language_model_file() {
    let result = CopilotByokCustomTarget::from_path("/tmp/settings.json", None);
    assert!(result.is_err());
}

#[test]
fn selected_target_ids_are_deduplicated() {
    let value = json(r#"{"version": 1, "selectedTargetIds": ["stable:default", "stable:default"], "customTargets": [], "models": []}"#);
    assert!(is_versioned_store(&value));
    let mut store = CopilotByokStore::default();
    store.selected_target_ids = vec!["stable:default".to_string(), "stable:default".to_string()];
    normalize_store(&mut store).expect("parse store");
    assert_eq!(store.selected_target_ids, vec!["stable:default"]);
}

#[test]
fn custom_target_ids_are_short_hashes_of_the_path() {
    let id = custom_target_id("/home/user/chatLanguageModels.json");
    assert!(id.starts_with("custom:"));
    assert_eq!(id.len(), 19);
    assert_eq!(id, custom_target_id("/home/user/chatLanguageModels.json"));
    assert_ne!(id, custom_target_id("/home/other/chatLanguageModels.json"));
}

#[test]
fn custom_target_names_default_when_blank() {
    let t = CopilotByokCustomTarget::from_path("/tmp/a/chatLanguageModels.json", Some("  Work  ".to_string())).unwrap();
    assert_eq!(t.name, "Work");
    let t = CopilotByokCustomTarget::from_path("/tmp/a/chatLanguageModels.json", Some("   ".to_string())).unwrap();
    assert_eq!(t.name, "Custom VS Code profile");
    match CopilotByokCustomTarget::from_path("relative/chatLanguageModels.json", None) {
        Err(AppError::InvalidInput(m)) => assert_eq!(m, "Custom Copilot BYOK target must be an absolute path"),
        other => panic!("unexpected {other:?}"),
    }
}

#[test]
fn normalize_cleans_targets_and_enforces_limits() {
    let mut store = CopilotByokStore::default();
    store.selected_target_ids = vec![" a ".to_string(), "".to_string(), "a".to_string(), "b".to_string()];
    store.custom_targets = vec![
        CopilotByokCustomTarget { id: " x ".to_string(), name: " X ".to_string(), language_models_path: " /tmp/x/chatLanguageModels.json ".to_string() },
        CopilotByokCustomTarget { id: "x".to_string(), name: "dup".to_string(), language_models_path: "/tmp/y/chatLanguageModels.json".to_string() },
        CopilotByokCustomTarget { id: " ".to_string(), name: "blank".to_string(), language_models_path: "/tmp/z/chatLanguageModels.json".to_string() },
    ];
    normalize_store(&mut store).unwrap();
    assert_eq!(store.selected_target_ids, vec!["a", "b"]);
    assert_eq!(store.custom_targets.len(), 1);
    assert_eq!(store.custom_targets[0].name, "X");
    assert_eq!(store.custom_targets[0].language_models_path, "/tmp/x/chatLanguageModels.json");

    let mut too_many = CopilotByokStore::default();
    too_many.selected_target_ids = (0..65).map(|i| format!("t{i}")).collect();
    match normalize_store(&mut too_many) {
        Err(AppError::InvalidInput(m)) => assert_eq!(m, "Copilot BYOK supports at most 64 selected or custom targets"),
        other => panic!("unexpected {other:?}"),
    }
}

#[test]
fn duplicate_model_ids_are_rejected() {
    let mut store = CopilotByokStore::default();
    store.models = vec![flat_model("m", "a", "A"), flat_model("m", "b", "B")];
    match normalize_store(&mut store) {
        Err(AppError::InvalidInput(m)) => assert_eq!(m, "Duplicate Copilot BYOK model id: m"),
        other => panic!("unexpected {other:?}"),
    }
}

#[test]
fn model_upsert_replaces_by_id_and_delete_removes() {
    let store = CopilotByokStore::default();
    let store = upsert_model(store, flat_model("m1", "a", "A")).unwrap();
    let store = upsert_model(store, flat_model("m2", "b", "B")).unwrap();
    let store = upsert_model(store, flat_model("m1", "a", "Renamed")).unwrap();
    assert_eq!(store.models.len(), 2);
    assert_eq!(store.models[0].name, "Renamed");
    let store = delete_model(store, "m1").unwrap();
    assert_eq!(store.models.len(), 1);
    assert_eq!(store.models[0].id, "m2");
    assert!(upsert_model(store, flat_model("m3", " ", "C")).is_err());
}

#[test]
fn custom_targets_are_added_selected_and_removed() {
    let store = CopilotByokStore::default();
    let store = add_custom_target(store, "/tmp/p/chatLanguageModels.json", None).unwrap();
    let id = store.custom_targets[0].id.clone();
    assert_eq!(store.selected_target_ids, vec![id.clone()]);
    let store = add_custom_target(store, "/tmp/p/chatLanguageModels.json", Some("Again".to_string())).unwrap();
    assert_eq!(store.custom_targets.len(), 1);
    assert_eq!(store.custom_targets[0].name, "Again");
    assert_eq!(store.selected_target_ids.len(), 1);
    let store = remove_custom_target(store, &id).unwrap();
    assert!(store.custom_targets.is_empty());
    assert!(store.selected_target_ids.is_empty());
    let store = set_selected_targets(store, vec![" stable:default ".to_string()]).unwrap();
    assert_eq!(store.selected_target_ids, vec!["stable:default"]);
}

#[test]
fn store_file_sits_in_the_config_directory() {
    assert_eq!(store_path("/home/u/.cc-switch"), "/home/u/.cc-switch/copilot-byok.json");
}

#[test]
fn language_model_paths_must_be_absolute_and_named() {
    assert!(validate_language_models_path("/a/chatLanguageModels.json").is_ok());
    assert_eq!(
        validate_language_models_path("/a/settings.json").unwrap_err().message(),
        "Custom Copilot BYOK target must end with chatLanguageModels.json"
    );
    assert_eq!(
        validate_language_models_path("a/chatLanguageModels.json").unwrap_err().message(),
        "Custom Copilot BYOK target must be an absolute path"
    );
}
