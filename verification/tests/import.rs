use copilot_byok::bridge::parse_json5;
use copilot_byok::import::{add_group_models, deterministic_model_id, import_from_target, infer_api_type, parse_group, remaining_groups, value_u64};
use copilot_byok::json::JsonValue;
use copilot_byok::store::CopilotByokStore;

fn json(text: &str) -> JsonValue {
    parse_json5(text).expect("valid JSON")
}

#[test]
fn parses_official_custom_endpoint_fields() {
    let group = json(
        r#"{
            "name": "Existing Kimi",
            "vendor": "customendpoint",
            "apiKey": "${input:chat.lm.secret.test}",
            "apiType": "responses",
            "models": [{
                "id": "kimi-k3",
                "name": "Kimi K3",
                "url": "https://api.example.com/v1/responses",
                "contextWindow": 262144,
                "maxOutputTokens": 32768,
                "toolCalling": true,
                "thinking": true,
                "editTools": ["apply-patch", "unsupported"],
                "supportsReasoningEffort": ["low", "high"],
                "reasoningEffortFormat": "responses",
                "zeroDataRetentionEnabled": true
            }]
        }"#,
    );

    let parsed = parse_group("stable:default", &group).expect("parse group");
    let model = &parsed.models[0];
    assert_eq!(model.api_key, "${input:chat.lm.secret.test}");
    assert_eq!(model.api_type, "responses");
    assert_eq!(model.edit_tools, vec!["apply-patch"]);
    assert_eq!(model.supports_reasoning_effort, vec!["high", "low"]);
    assert!(model.zero_data_retention_enabled);
}

#[test]
fn rejects_group_when_any_model_cannot_be_represented() {
    let group = json(r#"{"name": "Incomplete", "vendor": "customendpoint", "apiKey": "secret", "models": [{"id": "missing-url"}]}"#);
    assert!(parse_group("stable:default", &group).is_err());
}

#[test]
fn equivalent_existing_models_are_reused() {
    let group = parse_group(
        "stable:default",
        &json(
            r#"{
                "name": "Existing",
                "vendor": "customendpoint",
                "apiKey": "secret",
                "models": [{"id": "model-a", "name": "Model A", "url": "https://api.example.com/v1/chat/completions"}]
            }"#,
        ),
    )
    .expect("parse group");
    let mut store = CopilotByokStore::default();
    let again = parse_group(
        "stable:default",
        &json(r#"{"name": "Existing", "vendor": "customendpoint", "apiKey": "secret", "models": [{"id": "model-a", "name": "Model A", "url": "https://api.example.com/v1/chat/completions"}]}"#),
    )
    .unwrap();
    store.models.push(again.models.into_iter().next().unwrap());

    let (imported, reused) = add_group_models(&mut store.models, group).expect("reuse group");
    assert_eq!(imported, 0);
    assert_eq!(reused, 1);
    assert_eq!(store.models.len(), 1);
}

#[test]
fn model_fields_fall_back_to_the_group_and_defaults() {
    let group = json(
        r#"{"vendor": "customendpoint", "url": "https://api.example.com/v1/messages", "apiKey": "k",
            "requestHeaders": {"X-A": "1", "X-B": true}, "modelOptions": {"a": 1},
            "models": [{"id": " m ", "requestHeaders": {"X-B": 2}}]}"#,
    );
    let parsed = parse_group("t", &group).unwrap();
    assert_eq!(parsed.name, "Custom Endpoint");
    let m = &parsed.models[0];
    assert_eq!(m.model_id, "m");
    assert_eq!(m.name, "m");
    assert_eq!(m.api_type, "messages");
    assert_eq!(m.context_window, 128_000);
    assert_eq!(m.max_output_tokens, 8_192);
    assert!(m.streaming);
    assert!(!m.tool_calling);
    assert_eq!(m.request_headers, vec![("X-A".to_string(), "1".to_string()), ("X-B".to_string(), "2".to_string())]);
    assert_eq!(m.id, deterministic_model_id("t", "Custom Endpoint", "m", "https://api.example.com/v1/messages"));
    assert!(m.id.starts_with("vscode-import:"));
    assert_eq!(m.id.len(), "vscode-import:".len() + 24);
}

#[test]
fn group_errors_name_the_problem() {
    match parse_group("t", &json(r#"{"name": "G"}"#)) {
        Err(m) => assert_eq!(m, "G has no static models array"),
        Ok(_) => panic!("expected an error"),
    }
    match parse_group("t", &json(r#"{"name": "G", "models": []}"#)) {
        Err(m) => assert_eq!(m, "G has an empty models array"),
        Ok(_) => panic!("expected an error"),
    }
    match parse_group("t", &json(r#"[1]"#)) {
        Err(m) => assert_eq!(m, "provider group is not a JSON object"),
        Ok(_) => panic!("expected an error"),
    }
    match parse_group("t", &json(r#"{"name": "G", "url": "https://x.example.com", "models": [{"id": "a"}]}"#)) {
        Err(m) => assert_eq!(m, "model a is missing apiKey"),
        Ok(_) => panic!("expected an error"),
    }
}

#[test]
fn api_types_and_numbers() {
    assert_eq!(infer_api_type("https://x/v1/messages"), "messages");
    assert_eq!(infer_api_type("https://x/v1/responses"), "responses");
    assert_eq!(infer_api_type("https://x/v1/chat/completions"), "chat-completions");
    assert_eq!(value_u64(Some(&json("262144"))), Some(262_144));
    assert_eq!(value_u64(Some(&json("4294967296"))), Some(4_294_967_296));
    assert_eq!(value_u64(Some(&json("-1"))), None);
    assert_eq!(value_u64(Some(&json("1.5"))), None);
    assert_eq!(value_u64(Some(&json("\"7\""))), None);
    assert_eq!(value_u64(None), None);
}

#[test]
fn import_accepts_groups_and_namespaces_taken_names() {
    let groups = match json(
        r#"[
            {"name": "Mine", "vendor": "customendpoint", "apiKey": "k", "models": [{"id": "a", "name": "Shared", "url": "https://one.example.com/v1"}]},
            {"name": "CC Switch: Old", "vendor": "customendpoint", "models": []},
            {"name": "Other", "vendor": "customendpoint", "apiKey": "k", "models": [{"id": "b", "name": "shared", "url": "https://two.example.com/v1"}]},
            {"name": "Broken", "vendor": "customendpoint", "models": []},
            {"name": "Copilot", "vendor": "copilot"}
        ]"#,
    ) {
        JsonValue::Array(items) => items,
        _ => unreachable!(),
    };
    let outcome = import_from_target(CopilotByokStore::default(), "stable:default", &groups);
    assert_eq!(outcome.result.imported_group_count, 2);
    assert_eq!(outcome.result.imported_model_count, 2);
    assert_eq!(outcome.result.skipped_group_count, 1);
    assert_eq!(outcome.result.warnings, vec!["Broken has an empty models array"]);
    assert_eq!(outcome.accepted, vec![0, 2]);
    assert_eq!(outcome.store.models[1].name, "Other · shared");
    assert!(outcome.store.targets_initialized);
    assert_eq!(outcome.store.selected_target_ids, vec!["stable:default"]);
    let remaining = remaining_groups(&groups, &outcome.accepted);
    assert_eq!(remaining.len(), 3);
    assert_eq!(outcome.remaining.len(), 3);
    assert_eq!(outcome.remaining[0].get("name").and_then(|v| v.as_str()).map(String::as_str), Some("CC Switch: Old"));
    assert_eq!(outcome.remaining[1].get("name").and_then(|v| v.as_str()).map(String::as_str), Some("Broken"));
    assert_eq!(outcome.remaining[2].get("name").and_then(|v| v.as_str()).map(String::as_str), Some("Copilot"));
}

#[test]
fn import_without_accepted_groups_leaves_the_store() {
    let groups = vec![json(r#"{"name": "Broken", "vendor": "customendpoint", "models": []}"#)];
    let outcome = import_from_target(CopilotByokStore::default(), "stable:default", &groups);
    assert_eq!(outcome.result.imported_group_count, 0);
    assert_eq!(outcome.result.skipped_group_count, 1);
    assert!(outcome.accepted.is_empty());
    assert!(!outcome.store.targets_initialized);
    assert!(outcome.store.selected_target_ids.is_empty());
    assert_eq!(outcome.remaining.len(), 1);
}

#[test]
fn reimporting_known_endpoints_adds_nothing() {
    let group = json(r#"{"name": "Existing", "vendor": "customendpoint", "apiKey": "secret",
        "models": [{"id": "model-a", "name": "Model A", "url": "https://api.example.com/v1/chat/completions"},
                   {"id": "model-b", "name": "Model B", "url": "https://api.example.com/v1/chat/completions"}]}"#);
    let parsed = parse_group("stable:default", &group).expect("parse group");
    let mut models = Vec::new();
    let (imported, reused) = add_group_models(&mut models, parsed).expect("first import");
    assert_eq!((imported, reused), (2, 0));
    let again = parse_group("stable:default", &group).expect("parse group");
    let (imported, reused) = add_group_models(&mut models, again).expect("second import");
    assert_eq!((imported, reused), (0, 2));
    assert_eq!(models.len(), 2);
}

#[test]
fn repeated_endpoint_within_a_group_refuses_it() {
    let group = parse_group(
        "stable:default",
        &json(
            r#"{
                "name": "Twice",
                "vendor": "customendpoint",
                "apiKey": "secret",
                "models": [
                    {"id": "model-a", "name": "First", "url": "https://api.example.com/v1/chat/completions"},
                    {"id": "MODEL-A", "name": "Second", "url": "https://API.example.com/v1/chat/completions"}
                ]
            }"#,
        ),
    )
    .expect("parse group");
    let mut models = Vec::new();
    let result = add_group_models(&mut models, group);
    assert_eq!(result, Err("Twice contains duplicate model endpoints".to_string()));
    assert!(models.is_empty());
}
