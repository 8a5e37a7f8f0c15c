use copilot_byok::bridge::parse_json5;
use copilot_byok::json::{items_equal, JsonValue};
use copilot_byok::model::{CopilotByokGroup, CopilotByokModel};
use copilot_byok::store::CopilotByokStore;
use copilot_byok::sync::{
    backup_path, effective_selected_target_ids, ensure_file_size, ensure_regular_target, merge_managed_groups,
    merge_update, read_language_model_groups, removal_action, unmanaged_groups, RemovalAction, MAX_CONFIG_BYTES,
};
use copilot_byok::vscode::{VsCodeEdition, VsCodeProfileTarget};

fn json(text: &str) -> JsonValue {
    parse_json5(text).expect("valid JSON")
}

fn target(id: &str, edition: VsCodeEdition) -> VsCodeProfileTarget {
    VsCodeProfileTarget {
        id: id.to_string(),
        edition,
        edition_name: id.to_string(),
        profile_id: None,
        profile_name: "Default".to_string(),
        is_default: true,
        user_dir: format!("/{id}"),
        language_models_path: format!("/{id}/chatLanguageModels.json"),
        config_exists: false,
        backup_exists: false,
    }
}

#[test]
fn merge_preserves_unmanaged_groups() {
    let existing = vec![
        json(r#"{"name": "User model", "vendor": "customendpoint"}"#),
        json(r#"{"name": "CC Switch: Old", "vendor": "customendpoint"}"#),
    ];
    let merged = merge_managed_groups(&existing, &Vec::new());
    assert!(items_equal(
        &merged,
        &vec![json(r#"{"name": "User model", "vendor": "customendpoint"}"#)]
    ));
}

#[test]
fn effective_selection_prefers_stable_default_before_initialization() {
    let store = CopilotByokStore::default();
    let targets = vec![
        target("insiders:default", VsCodeEdition::Insiders),
        target("stable:default", VsCodeEdition::Stable),
    ];
    assert_eq!(effective_selected_target_ids(&store, &targets), vec!["stable:default"]);
}

#[test]
fn effective_selection_preserves_explicit_empty_selection() {
    let mut store = CopilotByokStore::default();
    store.targets_initialized = true;
    let targets = vec![target("stable:default", VsCodeEdition::Stable)];
    assert!(effective_selected_target_ids(&store, &targets).is_empty());
}

#[test]
fn effective_selection_keeps_explicit_choice() {
    let mut store = CopilotByokStore::default();
    store.targets_initialized = true;
    store.selected_target_ids = vec!["insiders:default".to_string()];
    let targets = vec![
        target("insiders:default", VsCodeEdition::Insiders),
        target("stable:default", VsCodeEdition::Stable),
    ];
    assert_eq!(effective_selected_target_ids(&store, &targets), vec!["insiders:default"]);
}

#[test]
fn unmanaged_groups_drops_marked_groups() {
    let existing = vec![
        json(r#"{"name": "Mine", "vendor": "customendpoint"}"#),
        json(r#"{"name": "Moonshot", "vendor": "customendpoint", "ccSwitchManaged": true}"#),
    ];
    let kept = unmanaged_groups(&existing);
    assert_eq!(kept.len(), 1);
    assert!(items_equal(&kept, &vec![json(r#"{"name": "Mine", "vendor": "customendpoint"}"#)]));
}

#[test]
fn merge_update_is_none_when_nothing_changes() {
    let existing = vec![json(r#"{"name": "Mine", "vendor": "customendpoint"}"#)];
    assert!(merge_update(&existing, &Vec::new()).is_none());
    let with_managed = vec![json(r#"{"name": "CC Switch: Old", "vendor": "customendpoint"}"#)];
    let update = merge_update(&with_managed, &Vec::new()).expect("managed group removed");
    assert!(update.is_empty());
}

#[test]
fn removal_action_covers_each_case() {
    let only_managed = vec![json(r#"{"name": "CC Switch: Old", "vendor": "customendpoint"}"#)];
    assert!(matches!(removal_action(&only_managed, false), RemovalAction::RemoveFile));
    assert!(matches!(removal_action(&only_managed, true), RemovalAction::Write(ref v) if v.is_empty()));
    let mixed = vec![json(r#"{"name": "Mine"}"#), json(r#"{"name": "CC Switch: Old", "vendor": "customendpoint"}"#)];
    assert!(matches!(removal_action(&mixed, false), RemovalAction::Write(ref v) if v.len() == 1));
    let mine = vec![json(r#"{"name": "Mine"}"#)];
    assert!(matches!(removal_action(&mine, false), RemovalAction::Unchanged));
}

#[test]
fn backup_path_appends_suffix() {
    let b = backup_path("/x/chatLanguageModels.json");
    assert_eq!(b, "/x/chatLanguageModels.json.cc-switch.bak");
}

#[test]
fn target_checks_refuse_links_directories_and_large_files() {
    assert!(ensure_regular_target(false, false, false, "/x").is_ok());
    assert!(ensure_regular_target(true, true, true, "/x").is_err());
    assert!(ensure_regular_target(true, false, false, "/x").is_err());
    assert!(ensure_regular_target(true, false, true, "/x").is_ok());
    assert!(ensure_file_size(MAX_CONFIG_BYTES, "/x").is_ok());
    assert!(ensure_file_size(MAX_CONFIG_BYTES + 1, "/x").is_err());
}

#[test]
fn reads_groups_from_array_and_rejects_other_roots() {
    let groups = read_language_model_groups("/x", r#"[{"name": "A"}, // comment
    {"name": "B"},]"#)
    .expect("JSONC array");
    assert_eq!(groups.len(), 2);
    assert!(read_language_model_groups("/x", r#"{"name": "A"}"#).is_err());
    assert!(read_language_model_groups("/x", "   ").map(|g| g.is_empty()).unwrap_or(false));
}

#[test]
fn syncing_twice_changes_nothing_and_removal_gives_the_file_back() {
    let model = CopilotByokModel {
        id: "m".to_string(),
        model_id: "m".to_string(),
        name: "M".to_string(),
        enabled: true,
        tool_calling: None,
        vision: None,
        thinking: None,
        streaming: None,
        context_window: None,
        max_input_tokens: None,
        max_output_tokens: None,
        edit_tools: Vec::new(),
        zero_data_retention_enabled: false,
        supports_reasoning_effort: Vec::new(),
        reasoning_effort_format: None,
        model_options: JsonValue::Object(Vec::new()),
        extra: Vec::new(),
    };
    let group = CopilotByokGroup {
        id: "g".to_string(),
        name: "G".to_string(),
        url: "https://api.example.com/v1/chat/completions".to_string(),
        api_key: "secret".to_string(),
        api_type: "chat-completions".to_string(),
        website_url: None,
        notes: None,
        icon: None,
        icon_color: None,
        enabled: true,
        request_headers: Vec::new(),
        models: vec![model],
        extra: Vec::new(),
    };
    let groups = vec![group];
    let existing = vec![json(r#"{"name": "Mine", "vendor": "customendpoint"}"#)];
    let once = merge_update(&existing, &groups).expect("managed group written");
    assert_eq!(once.len(), 2);
    assert!(merge_update(&once, &groups).is_none());
    match removal_action(&once, false) {
        RemovalAction::Write(rest) => assert!(items_equal(&rest, &existing)),
        _ => panic!("expected a write"),
    }
}
