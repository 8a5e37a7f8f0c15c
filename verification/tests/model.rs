use copilot_byok::bridge::parse_json5;
use copilot_byok::error::AppError;
use copilot_byok::json::{json_eq, JsonValue};
use copilot_byok::model::{is_managed_group, is_vscode_secret_reference, CopilotByokGroup, CopilotByokModel, MAX_SAFE_JSON_INTEGER};

fn model(model_id: &str, name: &str) -> CopilotByokModel {
    CopilotByokModel {
        id: model_id.to_string(),
        model_id: model_id.to_string(),
        name: name.to_string(),
        enabled: true,
        tool_calling: Some(true),
        vision: Some(false),
        thinking: Some(true),
        streaming: Some(true),
        context_window: Some(262_144),
        max_input_tokens: None,
        max_output_tokens: Some(32_768),
        edit_tools: Vec::new(),
        zero_data_retention_enabled: false,
        supports_reasoning_effort: Vec::new(),
        reasoning_effort_format: None,
        model_options: JsonValue::Object(Vec::new()),
        extra: Vec::new(),
    }
}

fn group() -> CopilotByokGroup {
    CopilotByokGroup {
        id: "moonshot".to_string(),
        name: "Moonshot".to_string(),
        url: "https://api.example.com/v1/chat/completions".to_string(),
        api_key: "secret".to_string(),
        api_type: "chat-completions".to_string(),
        website_url: None,
        notes: None,
        icon: None,
        icon_color: None,
        enabled: true,
        request_headers: Vec::new(),
        models: vec![model("kimi-k3", "Kimi K3"), model("kimi-k2", "Kimi K2")],
        extra: Vec::new(),
    }
}

fn json(text: &str) -> JsonValue {
    parse_json5(text).expect("valid JSON")
}

fn get<'a>(v: &'a JsonValue, key: &str) -> Option<&'a JsonValue> {
    v.get(key)
}

fn str_at(v: &JsonValue, key: &str) -> Option<String> {
    get(v, key).and_then(|x| x.as_str().cloned())
}

fn model_at(rendered: &JsonValue, index: usize) -> JsonValue {
    copilot_byok::json::json_clone(&get(rendered, "models").and_then(|m| m.as_array()).expect("models array")[index])
}

fn insert_header(group: &mut CopilotByokGroup, name: &str, value: &str) {
    copilot_byok::kv::pairs_insert(&mut group.request_headers, name.to_string(), value.to_string());
}

#[test]
fn managed_group_detection_supports_marker_and_legacy_prefix() {
    assert!(is_managed_group(&json(r#"{"name": "Moonshot", "vendor": "customendpoint", "ccSwitchManaged": true}"#)));
    assert!(is_managed_group(&json(r#"{"name": "CC Switch: Kimi", "vendor": "customendpoint"}"#)));
    assert!(!is_managed_group(&json(r#"{"name": "My Kimi", "vendor": "customendpoint"}"#)));
}

#[test]
fn validation_rejects_non_http_endpoint() {
    let mut value = group();
    value.url = "file:///tmp/model".to_string();
    assert!(value.validate().is_err());
}

#[test]
fn validation_rejects_invalid_headers_and_model_options() {
    let mut invalid_header = group();
    insert_header(&mut invalid_header, "Not A Header", "value");
    assert!(invalid_header.validate().is_err());

    let mut duplicate_header = group();
    insert_header(&mut duplicate_header, "Authorization", "Bearer first");
    insert_header(&mut duplicate_header, "authorization", "Bearer second");
    assert!(duplicate_header.validate().is_err());

    let mut invalid_options = group();
    invalid_options.models[0].model_options = json(r#"["invalid"]"#);
    assert!(invalid_options.validate().is_err());

    let mut unsafe_limit = group();
    unsafe_limit.models[0].context_window = Some(MAX_SAFE_JSON_INTEGER + 1);
    assert!(unsafe_limit.validate().is_err());
}

#[test]
fn generated_group_uses_provider_name_and_shared_connection() {
    let mut value = group();
    insert_header(&mut value, "X-Test", "${apiKey}");
    value.models[0].edit_tools = vec!["apply-patch".to_string()];
    value.models[0].zero_data_retention_enabled = true;
    value.models[0].supports_reasoning_effort = vec!["high".to_string()];
    let rendered = value.to_language_model_group();

    assert_eq!(str_at(&rendered, "name").as_deref(), Some("Moonshot"));
    assert_eq!(str_at(&rendered, "vendor").as_deref(), Some("customendpoint"));
    assert_eq!(str_at(&rendered, "apiKey").as_deref(), Some("secret"));
    assert_eq!(str_at(&rendered, "apiType").as_deref(), Some("chat-completions"));
    assert_eq!(get(&rendered, "models").and_then(|m| m.as_array()).map(Vec::len), Some(2));
    let first = model_at(&rendered, 0);
    let second = model_at(&rendered, 1);
    assert!(json_eq(get(&first, "url").unwrap(), get(&second, "url").unwrap()));
    assert!(get(&rendered, "url").is_none());
    let h0 = get(&first, "requestHeaders").unwrap();
    let h1 = get(&second, "requestHeaders").unwrap();
    assert_eq!(str_at(h0, "X-Test").as_deref(), Some("secret"));
    assert_eq!(str_at(h1, "X-Test").as_deref(), Some("secret"));
    assert_eq!(str_at(h0, "Authorization").as_deref(), Some("Bearer secret"));
    let tools = get(&first, "editTools").and_then(|t| t.as_array()).unwrap();
    assert_eq!(tools[0].as_str().map(String::as_str), Some("apply-patch"));
    assert_eq!(get(&first, "zeroDataRetentionEnabled").and_then(|v| v.as_bool()), Some(true));
    let efforts = get(&first, "supportsReasoningEffort").and_then(|t| t.as_array()).unwrap();
    assert_eq!(efforts[0].as_str().map(String::as_str), Some("high"));
    assert_eq!(get(&rendered, "ccSwitchManaged").and_then(|v| v.as_bool()), Some(true));
}

#[test]
fn unknown_model_capabilities_are_not_invented() {
    let mut value = group();
    let model = &mut value.models[0];
    model.tool_calling = None;
    model.vision = None;
    model.thinking = None;
    model.streaming = None;
    model.context_window = None;
    model.max_output_tokens = None;

    let rendered = value.to_language_model_group();
    let model = model_at(&rendered, 0);
    for field in ["toolCalling", "vision", "thinking", "streaming", "contextWindow", "maxOutputTokens"] {
        assert!(get(&model, field).is_none(), "unexpected field: {field}");
    }
}

#[test]
fn messages_protocol_uses_x_api_key() {
    let mut value = group();
    value.api_type = "messages".to_string();

    let rendered = value.to_language_model_group();
    let model = model_at(&rendered, 0);
    let headers = get(&model, "requestHeaders").unwrap();
    assert_eq!(str_at(headers, "x-api-key").as_deref(), Some("secret"));
    assert_eq!(str_at(headers, "anthropic-version").as_deref(), Some("2023-06-01"));
    assert!(get(headers, "Authorization").is_none());
}

#[test]
fn explicit_authorization_header_is_preserved() {
    let mut value = group();
    insert_header(&mut value, "authorization", "Token ${apiKey}");

    let rendered = value.to_language_model_group();
    let model = model_at(&rendered, 0);
    let headers = get(&model, "requestHeaders").unwrap();
    assert_eq!(str_at(headers, "authorization").as_deref(), Some("Token secret"));
    assert!(get(headers, "Authorization").is_none());
}

#[test]
fn vscode_secret_reference_is_left_for_vscode_to_resolve() {
    let mut value = group();
    value.api_key = "${input:chat.lm.secret.test}".to_string();
    insert_header(&mut value, "X-Auth", "Token ${apiKey}");

    let rendered = value.to_language_model_group();
    assert_eq!(str_at(&rendered, "apiKey").as_deref(), Some("${input:chat.lm.secret.test}"));
    let model = model_at(&rendered, 0);
    let headers = get(&model, "requestHeaders").unwrap();
    assert_eq!(str_at(headers, "X-Auth").as_deref(), Some("Token ${apiKey}"));
    assert!(get(headers, "Authorization").is_none());
}

#[test]
fn secret_reference_detection_edges() {
    assert!(is_vscode_secret_reference("${input:key}"));
    assert!(!is_vscode_secret_reference("${input:   }"));
    assert!(!is_vscode_secret_reference("${input:}"));
    assert!(!is_vscode_secret_reference("${input:key"));
    assert!(!is_vscode_secret_reference("secret"));
}

#[test]
fn group_validation_error_messages() {
    let mut nameless = group();
    nameless.name = String::new();
    match nameless.validate() {
        Err(AppError::InvalidInput(m)) => assert_eq!(m, "Copilot BYOK provider name is required"),
        other => panic!("unexpected {other:?}"),
    }
    let mut bad_type = group();
    bad_type.api_type = "grpc".to_string();
    match bad_type.validate() {
        Err(AppError::InvalidInput(m)) => assert_eq!(m, "Unsupported Copilot BYOK API type: grpc"),
        other => panic!("unexpected {other:?}"),
    }
    let mut empty = group();
    empty.models.clear();
    assert!(empty.validate().is_err());
    let mut dup = group();
    dup.models[1].model_id = "KIMI-K3".to_string();
    match dup.validate() {
        Err(AppError::InvalidInput(m)) => assert_eq!(m, "Duplicate Copilot BYOK model id in Moonshot: KIMI-K3"),
        other => panic!("unexpected {other:?}"),
    }
    assert!(group().validate().is_ok());
}

#[test]
fn normalize_trims_and_deduplicates() {
    let mut value = group();
    value.id = "  ".to_string();
    value.name = "  Moonshot  ".to_string();
    value.api_type = " Messages ".to_string();
    value.notes = Some("   ".to_string());
    insert_header(&mut value, " X-A ", " 1 ");
    value.models[0].edit_tools = vec![" a ".to_string(), "a".to_string(), " ".to_string(), "b".to_string()];
    value.models[0].context_window = Some(0);
    value.normalize();
    assert_eq!(value.id.len(), 36);
    assert_eq!(value.name, "Moonshot");
    assert_eq!(value.api_type, "messages");
    assert!(value.notes.is_none());
    assert_eq!(value.request_headers, vec![("X-A".to_string(), "1".to_string())]);
    assert_eq!(value.models[0].edit_tools, vec!["a".to_string(), "b".to_string()]);
    assert_eq!(value.models[0].context_window, None);
    assert_eq!(value.enabled_model_count(), 2);
    value.enabled = false;
    assert_eq!(value.enabled_model_count(), 0);
}
