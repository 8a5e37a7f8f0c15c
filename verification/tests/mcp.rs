use copilot_byok::bridge::parse_json5;
use copilot_byok::json::{json_eq, JsonValue};
use copilot_byok::mcp::{
    ensure_mcp_target, import_from_copilot, read_root, remove_server_from_copilot, sync_single_server_to_copilot,
    target_paths,
};

fn json(text: &str) -> JsonValue {
    parse_json5(text).expect("valid JSON")
}

fn object(text: &str) -> Vec<(String, JsonValue)> {
    match json(text) {
        JsonValue::Object(entries) => entries,
        _ => panic!("not an object"),
    }
}

#[test]
fn mcp_file_sits_beside_each_language_model_file() {
    let paths = target_paths(&vec!["/u/Code/User/chatLanguageModels.json".to_string()]);
    assert_eq!(paths, vec!["/u/Code/User/mcp.json".to_string()]);
}

#[test]
fn sync_adds_server_and_keeps_other_fields() {
    let root = object(r#"{"inputs": [], "servers": {"old": {"command": "a"}}}"#);
    let server = json(r#"{"command": "npx", "args": ["x"]}"#);
    let updated = sync_single_server_to_copilot(root, "new", &server, "/u/mcp.json").expect("updated");
    let expected = json(r#"{"inputs": [], "servers": {"new": {"command": "npx", "args": ["x"]}, "old": {"command": "a"}}}"#);
    assert!(json_eq(&updated, &expected));
}

#[test]
fn sync_creates_servers_object_when_missing() {
    let server = json(r#"{"command": "npx"}"#);
    let updated = sync_single_server_to_copilot(Vec::new(), "s", &server, "/u/mcp.json").expect("updated");
    assert!(json_eq(&updated, &json(r#"{"servers": {"s": {"command": "npx"}}}"#)));
}

#[test]
fn sync_rejects_non_object_server_and_servers_field() {
    let err = sync_single_server_to_copilot(Vec::new(), "s", &json("[1]"), "/u/mcp.json").unwrap_err();
    assert_eq!(err.message(), "VS Code MCP server configuration must be a JSON object");
    let root = object(r#"{"servers": []}"#);
    let err = sync_single_server_to_copilot(root, "s", &json("{}"), "/u/mcp.json").unwrap_err();
    assert_eq!(err.message(), "VS Code MCP 'servers' field must be an object: /u/mcp.json");
}

#[test]
fn remove_drops_only_the_server() {
    let root = object(r#"{"servers": {"a": {}, "b": {"command": "x"}}}"#);
    let updated = remove_server_from_copilot(root, "a", "/u/mcp.json").expect("updated");
    assert!(json_eq(&updated, &json(r#"{"servers": {"b": {"command": "x"}}}"#)));
}

#[test]
fn import_keeps_first_definition_of_each_server() {
    let roots = vec![
        object(r#"{"servers": {"b": {"command": "first"}}}"#),
        object(r#"{"servers": {"a": {"command": "second"}, "b": {"command": "ignored"}}}"#),
        object(r#"{"inputs": []}"#),
    ];
    let servers = import_from_copilot(&roots);
    assert_eq!(servers.len(), 2);
    assert_eq!(servers[0].0, "a");
    assert_eq!(servers[1].0, "b");
    assert!(json_eq(&servers[1].1, &json(r#"{"command": "first"}"#)));
}

#[test]
fn read_root_accepts_blank_and_objects_only() {
    assert!(read_root("/u/mcp.json", "  \n").expect("blank").is_empty());
    let root = read_root("/u/mcp.json", r#"{servers: {}, // comment
    }"#)
    .expect("JSON5 object");
    assert_eq!(root.len(), 1);
    assert!(read_root("/u/mcp.json", "[]").is_err());
    assert!(read_root("/u/mcp.json", "{").is_err());
}

#[test]
fn mcp_target_checks() {
    assert!(ensure_mcp_target(false, true, 10, "/u/mcp.json").is_ok());
    assert!(ensure_mcp_target(true, true, 10, "/u/mcp.json").is_err());
    assert!(ensure_mcp_target(false, false, 10, "/u/mcp.json").is_err());
    assert!(ensure_mcp_target(false, true, 8 * 1024 * 1024 + 1, "/u/mcp.json").is_err());
}
