use copilot_byok::bridge::parse_json5;
use copilot_byok::json::{items_equal, json_eq, JsonValue};
use copilot_byok::proxy::{
    add_custom_target, check_custom_target_path,
    bind_failure, ensure_regular_file, read_groups, server_needs_start,
    bearer_token, endpoint, error_body, is_hop_by_hop, managed_group, proxy_handler, remove_custom_target, set_targets, sync,
    target_update, CopilotByokModel, CustomTarget, ProxyOutcome, Store, DEFAULT_CONTEXT_WINDOW, DEFAULT_LISTEN_PORT,
    DEFAULT_MAX_OUTPUT_TOKENS, MODEL_ID,
};
use copilot_byok::vscode::{VsCodeEdition, VsCodeProfileTarget};

fn json(text: &str) -> JsonValue {
    parse_json5(text).expect("valid JSON")
}

fn provider(id: &str, endpoint: &str) -> CopilotByokModel {
    CopilotByokModel {
        id: id.to_string(),
        name: "Provider".to_string(),
        endpoint: endpoint.to_string(),
        api_key: "secret".to_string(),
        model_id: "model".to_string(),
        enabled: true,
        request_headers: Vec::new(),
        context_window: DEFAULT_CONTEXT_WINDOW,
        max_output_tokens: DEFAULT_MAX_OUTPUT_TOKENS,
        tool_calling: true,
        vision: false,
        thinking: true,
        streaming: true,
    }
}

fn target(id: &str) -> VsCodeProfileTarget {
    VsCodeProfileTarget {
        id: id.to_string(),
        edition: VsCodeEdition::Stable,
        edition_name: id.to_string(),
        profile_id: None,
        profile_name: "Default".to_string(),
        is_default: true,
        user_dir: format!("/{id}"),
        language_models_path: format!("/{id}/chatLanguageModels.json"),
        config_exists: false,
        backup_exists: false,
    }
}

#[test]
fn default_store_has_local_gateway_token() {
    let store = Store::default();
    assert!(!store.gateway_token.is_empty());
    assert_eq!(store.listen_port, DEFAULT_LISTEN_PORT);
}

#[test]
fn provider_rejects_non_http_endpoint() {
    let p = provider("provider", "file:///tmp/endpoint");
    assert!(p.validate().is_err());
}

#[test]
fn managed_group_uses_fixed_model_id() {
    let store = Store::default();
    let group = managed_group(&store);
    let models = group.get("models").and_then(|m| m.as_array()).expect("models");
    assert_eq!(models[0].get("id").and_then(|v| v.as_str()).map(String::as_str), Some(MODEL_ID));
}

#[test]
fn requests_need_the_gateway_token_and_get_the_upstream_model() {
    let mut store = Store::default();
    store.gateway_token = "token".to_string();
    store.providers.push(provider("p", "https://api.example.com/v1/chat/completions"));
    store.current_provider_id = Some("p".to_string());
    let body = json(r#"{"model": "cc-switch-current", "stream": true}"#);

    match proxy_handler(&store, Some("Bearer wrong"), json(r#"{}"#)) {
        ProxyOutcome::Reject(status, message) => {
            assert_eq!(status, 401);
            assert_eq!(message, "Invalid CC Switch gateway token");
        }
        other => panic!("unexpected {other:?}"),
    }
    match proxy_handler(&store, Some("bearer token"), json("[]")) {
        ProxyOutcome::Reject(status, _) => assert_eq!(status, 400),
        other => panic!("unexpected {other:?}"),
    }
    match proxy_handler(&store, Some("Bearer token"), body) {
        ProxyOutcome::Forward(request) => {
            assert_eq!(request.endpoint, "https://api.example.com/v1/chat/completions");
            assert_eq!(request.api_key, "secret");
            assert!(json_eq(&request.body, &json(r#"{"model": "model", "stream": true}"#)));
        }
        other => panic!("unexpected {other:?}"),
    }
    store.providers[0].enabled = false;
    match proxy_handler(&store, Some("Bearer token"), json("{}")) {
        ProxyOutcome::Reject(status, _) => assert_eq!(status, 503),
        other => panic!("unexpected {other:?}"),
    }
}

#[test]
fn header_helpers() {
    assert_eq!(bearer_token(Some("Bearer abc")).as_deref(), Some("abc"));
    assert_eq!(bearer_token(Some("Basic abc")), None);
    assert_eq!(bearer_token(None), None);
    assert!(is_hop_by_hop("transfer-encoding"));
    assert!(!is_hop_by_hop("content-type"));
    assert_eq!(endpoint(15735), "http://127.0.0.1:15735/copilot/v1/chat/completions");
    assert!(json_eq(&error_body("x"), &json(r#"{"error": {"message": "x", "type": "cc_switch_copilot_proxy_error"}}"#)));
}

#[test]
fn normalization_repairs_the_store() {
    let mut store = Store::default();
    store.gateway_token = "  ".to_string();
    store.listen_port = 0;
    store.integration_enabled = true;
    store.current_provider_id = Some("missing".to_string());
    let mut disabled = provider("a", "https://a.example.com/v1/chat/completions");
    disabled.enabled = false;
    store.providers = vec![disabled, provider(" b ", "https://b.example.com/v1/chat/completions")];
    store.selected_target_ids = vec!["z".to_string(), "a".to_string(), "z".to_string()];
    store.normalize().unwrap();
    assert_eq!(store.gateway_token.len(), 36);
    assert_eq!(store.listen_port, DEFAULT_LISTEN_PORT);
    assert_eq!(store.current_provider_id.as_deref(), Some("b"));
    assert!(store.integration_enabled);
    assert_eq!(store.selected_target_ids, vec!["a", "z"]);

    store.providers.push(provider("b", "https://c.example.com/v1/chat/completions"));
    assert!(store.normalize().is_err());
}

#[test]
fn merging_keeps_user_groups_and_replaces_the_proxy_group() {
    let store = Store::default();
    let desired = managed_group(&store);
    let existing = match json(r#"[{"name": "Mine", "vendor": "customendpoint"}, {"name": "CC Switch Proxy", "vendor": "customendpoint"}]"#) {
        JsonValue::Array(items) => items,
        _ => unreachable!(),
    };
    let merged = target_update(&existing, &desired).expect("changed");
    assert_eq!(merged.len(), 2);
    assert!(json_eq(&merged[0], &existing[0]));
    assert!(json_eq(&merged[1], &desired));
    assert!(target_update(&merged, &desired).is_none());
    assert!(items_equal(&merged, &merged));
}

#[test]
fn target_selection_and_activation_rules() {
    let mut store = Store::default();
    store.providers.push(provider("p", "https://api.example.com/v1/chat/completions"));
    store.custom_targets.push(CustomTarget { id: "custom:1".to_string(), name: "C".to_string(), language_models_path: "/c/chatLanguageModels.json".to_string() });
    let detected = vec![target("stable:default")];
    assert!(set_targets(Store::default(), &detected, &vec!["nope".to_string()]).is_err());
    let (store, removed) = set_targets(store, &detected, &vec!["custom:1".to_string()]).unwrap();
    assert_eq!(removed, vec!["stable:default"]);
    assert_eq!(store.selected_target_ids, vec!["custom:1"]);
    let store = sync(store, &detected, Some("p".to_string())).unwrap();
    assert!(store.integration_enabled);
    let (store, existed) = remove_custom_target(store, "custom:1");
    assert!(existed);
    assert!(store.selected_target_ids.is_empty());
    assert!(!store.integration_enabled);
    match sync(store, &detected, None) {
        Err(e) => assert_eq!(e.message(), "Select at least one VS Code profile first"),
        Ok(_) => panic!("expected an error"),
    }
}

#[test]
fn switching_provider_keeps_the_vscode_model() {
    let mut a = Store::default();
    a.gateway_token = "token".to_string();
    let mut b = Store::default();
    b.gateway_token = "token".to_string();
    let mut p = provider("p", "https://one.example.com/v1/chat/completions");
    p.context_window = 1000;
    b.providers.push(p);
    b.current_provider_id = Some("p".to_string());
    let ga = managed_group(&a);
    let gb = managed_group(&b);
    let model = |g: &JsonValue| copilot_byok::json::json_clone(&g.get("models").and_then(|m| m.as_array()).expect("models")[0]);
    let (ma, mb) = (model(&ga), model(&gb));
    assert!(json_eq(ma.get("id").unwrap(), mb.get("id").unwrap()));
    assert!(json_eq(ma.get("url").unwrap(), mb.get("url").unwrap()));
    assert_eq!(ma.get("url").and_then(|v| v.as_str()).cloned(), Some(endpoint(DEFAULT_LISTEN_PORT)));
    assert!(!json_eq(ma.get("contextWindow").unwrap(), mb.get("contextWindow").unwrap()));
    assert!(json_eq(ga.get("apiKey").unwrap(), gb.get("apiKey").unwrap()));
}

#[test]
fn syncing_the_proxy_group_twice_changes_nothing() {
    let store = Store::default();
    let desired = managed_group(&store);
    let existing = vec![json(r#"{"name": "Mine", "vendor": "customendpoint"}"#)];
    let once = target_update(&existing, &desired).expect("group added");
    assert_eq!(once.len(), 2);
    assert!(target_update(&once, &desired).is_none());
}

#[test]
fn target_file_checks_and_group_reading() {
    assert!(ensure_regular_file(false, true, false, 0, "/x").is_ok());
    assert_eq!(
        ensure_regular_file(true, true, true, 1, "/x").unwrap_err().message(),
        "Refusing to modify symlinked VS Code BYOK config: /x"
    );
    assert_eq!(
        ensure_regular_file(true, false, false, 1, "/x").unwrap_err().message(),
        "VS Code BYOK target is not a regular file: /x"
    );
    assert_eq!(
        ensure_regular_file(true, false, true, 8 * 1024 * 1024 + 1, "/x").unwrap_err().message(),
        "VS Code BYOK config exceeds 8 MiB: /x"
    );
    assert!(ensure_regular_file(true, false, true, 8 * 1024 * 1024, "/x").is_ok());
    assert!(read_groups("/x", " ").expect("blank").is_empty());
    assert_eq!(read_groups("/x", "[{}, {}]").expect("array").len(), 2);
    assert_eq!(read_groups("/x", "{}").unwrap_err().message(), "VS Code BYOK config must be a JSON array: /x");
    assert!(read_groups("/x", "[").unwrap_err().message().starts_with("Failed to parse VS Code BYOK config /x: "));
}

#[test]
fn server_start_decision_and_bind_error() {
    assert!(!server_needs_start(Some(15735), true, 15735));
    assert!(server_needs_start(Some(15735), false, 15735));
    assert!(server_needs_start(Some(1), true, 15735));
    assert!(server_needs_start(None, false, 15735));
    assert_eq!(
        bind_failure(15735, "address in use").message(),
        "Failed to bind Copilot proxy on 127.0.0.1:15735: address in use"
    );
}

#[test]
fn proxy_custom_targets_are_checked_and_unique() {
    assert_eq!(
        check_custom_target_path("relative/chatLanguageModels.json").unwrap_err().message(),
        "Custom VS Code target path must be absolute"
    );
    assert_eq!(
        check_custom_target_path("/tmp/settings.json").unwrap_err().message(),
        "Custom target must point to chatLanguageModels.json"
    );
    let path = check_custom_target_path("  /tmp/a/chatLanguageModels.json ").expect("valid");
    assert_eq!(path, "/tmp/a/chatLanguageModels.json");
    let store = add_custom_target(Store::default(), path.clone(), None).expect("added");
    assert_eq!(store.custom_targets.len(), 1);
    assert_eq!(store.custom_targets[0].name, "Custom VS Code Profile");
    assert!(store.custom_targets[0].id.starts_with("custom:"));
    assert_eq!(store.selected_target_ids, vec![store.custom_targets[0].id.clone()]);
    let err = add_custom_target(store, path, None).unwrap_err();
    assert_eq!(err.message(), "This custom VS Code target already exists");
}
