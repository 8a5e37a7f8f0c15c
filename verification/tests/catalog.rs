use copilot_byok::bridge::parse_json5;
use copilot_byok::catalog::{
    add_custom_target, build_state, catalog_rollback_error, delete_group, find_group, migrate_legacy_database_catalog, primary_profile_config_dir,
    remove_custom_target, restore_backup, set_targets, sync, sync_selected_on_startup, upsert_group,
};
use copilot_byok::error::AppError;
use copilot_byok::json::JsonValue;
use copilot_byok::model::{CopilotByokGroup, CopilotByokModel};
use copilot_byok::store::{CopilotByokCustomTarget, CopilotByokStore};
use copilot_byok::targets::Inspection;
use copilot_byok::vscode::{VsCodeEdition, VsCodeProfileTarget};

fn json(text: &str) -> JsonValue {
    parse_json5(text).expect("valid JSON")
}

fn target(id: &str, edition: VsCodeEdition, profile_name: &str) -> VsCodeProfileTarget {
    VsCodeProfileTarget {
        id: id.to_string(),
        edition,
        edition_name: id.to_string(),
        profile_id: None,
        profile_name: profile_name.to_string(),
        is_default: true,
        user_dir: format!("/{id}"),
        language_models_path: format!("/{id}/chatLanguageModels.json"),
        config_exists: true,
        backup_exists: false,
    }
}

fn model(model_id: &str) -> CopilotByokModel {
    CopilotByokModel {
        id: model_id.to_string(),
        model_id: model_id.to_string(),
        name: model_id.to_string(),
        enabled: true,
        tool_calling: None,
        vision: None,
        thinking: None,
        streaming: None,
        context_window: None,
        max_input_tokens: None,
        max_output_tokens: None,
        edit_tools: Vec::new(),
        zero_data_retention_enabled: false,
        supports_reasoning_effort: Vec::new(),
        reasoning_effort_format: None,
        model_options: JsonValue::Object(Vec::new()),
        extra: Vec::new(),
    }
}

fn group(id: &str, name: &str) -> CopilotByokGroup {
    CopilotByokGroup {
        id: id.to_string(),
        name: name.to_string(),
        url: "https://api.example.com/v1/chat/completions".to_string(),
        api_key: "secret".to_string(),
        api_type: "chat-completions".to_string(),
        website_url: None,
        notes: None,
        icon: None,
        icon_color: None,
        enabled: true,
        request_headers: Vec::new(),
        models: vec![model("m1"), model("m2")],
        extra: Vec::new(),
    }
}

#[test]
fn set_targets_rejects_unknown_ids() {
    let detected = vec![target("stable:default", VsCodeEdition::Stable, "Default")];
    let err = set_targets(CopilotByokStore::default(), &detected, vec!["nope".to_string()]).unwrap_err();
    assert_eq!(err.message(), "Unknown or unavailable Copilot BYOK target: nope");
    let store = set_targets(CopilotByokStore::default(), &detected, vec!["stable:default".to_string()]).expect("known");
    assert!(store.targets_initialized);
    assert_eq!(store.selected_target_ids, vec!["stable:default"]);
    let empty = set_targets(CopilotByokStore::default(), &detected, Vec::new()).expect("empty choice");
    assert!(empty.targets_initialized);
    assert!(empty.selected_target_ids.is_empty());
}

#[test]
fn build_state_lists_selected_targets_first_and_counts_models() {
    let detected = vec![
        target("insiders:default", VsCodeEdition::Insiders, "Default"),
        target("stable:default", VsCodeEdition::Stable, "Default"),
    ];
    let mut store = CopilotByokStore::default();
    store.groups = vec![group("a", "A")];
    let reads = vec![
        Ok(vec![json(r#"{"name": "Mine"}"#)]),
        Ok(vec![json(r#"{"name": "A", "vendor": "customendpoint", "ccSwitchManaged": true}"#), json(r#"{"name": "Mine"}"#)]),
    ];
    let state = build_state(store, &detected, &reads, &Vec::<Inspection>::new());
    assert_eq!(state.selected_target_ids, vec!["stable:default"]);
    assert_eq!(state.managed_model_count, 2);
    assert_eq!(state.targets.len(), 2);
    assert_eq!(state.targets[0].id, "stable:default");
    assert!(state.targets[0].selected);
    assert_eq!(state.targets[0].managed_group_count, 1);
    assert_eq!(state.targets[1].id, "insiders:default");
    assert_eq!(state.targets[1].managed_group_count, 0);
}

#[test]
fn build_state_reports_read_errors_of_custom_targets() {
    let custom = CopilotByokCustomTarget::from_path("/c/chatLanguageModels.json", Some("Mine".to_string())).expect("custom");
    let mut store = CopilotByokStore::default();
    store.targets_initialized = true;
    store.custom_targets = vec![custom];
    let inspections = vec![Inspection { config_exists: true, backup_exists: false, groups: Err("broken".to_string()) }];
    let state = build_state(store, &Vec::new(), &Vec::new(), &inspections);
    assert_eq!(state.targets.len(), 1);
    assert_eq!(state.targets[0].source, "custom");
    assert_eq!(state.targets[0].read_error.as_deref(), Some("broken"));
    assert!(!state.targets[0].selected);
}

#[test]
fn sync_without_selection_is_refused() {
    let mut store = CopilotByokStore::default();
    store.targets_initialized = true;
    let err = sync(&store, &Vec::new()).unwrap_err();
    assert_eq!(err.message(), "No VS Code profile is selected for Copilot BYOK sync");
    assert!(sync_selected_on_startup(store, &Vec::new()).expect("nothing to sync").is_none());
}

#[test]
fn sync_resolves_selected_paths() {
    let detected = vec![target("stable:default", VsCodeEdition::Stable, "Default")];
    let mut store = CopilotByokStore::default();
    store.groups = vec![group("a", "A")];
    let plan = sync(&store, &detected).expect("plan");
    assert_eq!(plan.target_ids, vec!["stable:default"]);
    assert_eq!(plan.targets, vec![("stable:default".to_string(), "/stable:default/chatLanguageModels.json".to_string())]);
    assert_eq!(plan.managed_model_count, 2);
}

#[test]
fn restore_backup_deselects_the_target() {
    let detected = vec![
        target("stable:default", VsCodeEdition::Stable, "Default"),
        target("insiders:default", VsCodeEdition::Insiders, "Default"),
    ];
    let mut store = CopilotByokStore::default();
    store.targets_initialized = true;
    store.selected_target_ids = vec!["stable:default".to_string(), "insiders:default".to_string()];
    let plan = restore_backup(store, &detected, "stable:default").expect("plan");
    assert_eq!(plan.path, "/stable:default/chatLanguageModels.json");
    assert!(plan.was_selected);
    assert_eq!(plan.alias_ids, vec!["stable:default"]);
    assert_eq!(plan.store.selected_target_ids, vec!["insiders:default"]);
    let err = restore_backup(CopilotByokStore::default(), &detected, "missing").unwrap_err();
    assert!(matches!(err, AppError::InvalidInput(_)));
}

#[test]
fn upsert_and_delete_groups() {
    let store = upsert_group(CopilotByokStore::default(), group("a", "A")).expect("valid");
    let store = upsert_group(store, group("b", "B")).expect("valid");
    let store = upsert_group(store, group("a", "A2")).expect("valid");
    assert_eq!(store.groups.len(), 2);
    assert_eq!(store.groups[0].name, "A2");
    let store = delete_group(store, "a");
    assert_eq!(store.groups.len(), 1);
    assert_eq!(store.groups[0].id, "b");
    let mut bad = group("c", "C");
    bad.url = "file:///tmp/x".to_string();
    assert!(upsert_group(store, bad).is_err());
}

#[test]
fn remove_custom_target_drops_selection() {
    let custom = CopilotByokCustomTarget::from_path("/c/chatLanguageModels.json", None).expect("custom");
    let id = custom.id.clone();
    let mut store = CopilotByokStore::default();
    store.custom_targets = vec![custom];
    store.selected_target_ids = vec![id.clone(), "stable:default".to_string()];
    let store = remove_custom_target(store, &id);
    assert!(store.custom_targets.is_empty());
    assert_eq!(store.selected_target_ids, vec!["stable:default"]);
}

#[test]
fn legacy_catalog_migration_skips_existing_ids() {
    let legacy = vec!["a".to_string(), "b".to_string(), "c".to_string()];
    let existing = vec!["b".to_string()];
    assert_eq!(migrate_legacy_database_catalog(&legacy, &existing, 1), vec![(0, 1), (2, 2)]);
}

#[test]
fn rollback_error_joins_both_messages() {
    let e = catalog_rollback_error(&AppError::Config("write failed".to_string()), &AppError::InvalidInput("db busy".to_string()));
    assert_eq!(e.message(), "write failed; failed to roll back VS Code Copilot catalog: db busy");
}

#[test]
fn primary_profile_dir_needs_a_selected_path() {
    let err = primary_profile_config_dir(&Vec::new()).unwrap_err();
    assert_eq!(err.message(), "No VS Code Copilot sync target is selected on this device");
    assert_eq!(primary_profile_config_dir(&vec!["/u/Code/User/chatLanguageModels.json".to_string()]).expect("dir"), "/u/Code/User");
}

#[test]
fn connection_check_finds_the_provider() {
    let groups = vec![group("a", "A"), group("b", "B"), group("b", "B2")];
    assert_eq!(find_group(&groups, "b"), Ok(1));
    assert_eq!(find_group(&groups, "z"), Err("VS Code Copilot provider z does not exist".to_string()));
}

#[test]
fn custom_target_cannot_duplicate_a_detected_profile() {
    let detected = vec![target("stable:default", VsCodeEdition::Stable, "Default")];
    let err = add_custom_target(CopilotByokStore::default(), &detected, "/stable:default/chatLanguageModels.json", None)
        .unwrap_err();
    assert_eq!(err.message(), "This VS Code profile is already available as a detected sync target");
    let err = add_custom_target(CopilotByokStore::default(), &detected, "/tmp/settings.json", None).unwrap_err();
    assert_eq!(err.message(), "Custom Copilot BYOK target must end with chatLanguageModels.json");
    let store = add_custom_target(CopilotByokStore::default(), &detected, "/other/chatLanguageModels.json", Some(" Mine ".to_string()))
        .expect("new custom target");
    assert_eq!(store.custom_targets.len(), 1);
    assert_eq!(store.custom_targets[0].name, "Mine");
    assert_eq!(store.selected_target_ids, vec![store.custom_targets[0].id.clone()]);
    assert!(store.targets_initialized);
}
