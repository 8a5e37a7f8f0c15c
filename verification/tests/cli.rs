use std::collections::BTreeMap;

use copilot_byok::cli::{
    desired_environment, managed_variables, plan_apply, plan_disable, provider_base_url, state_with_snapshot, validate_selection,
    CopilotCliConfig, CopilotCliState,
};
use copilot_byok::error::AppError;
use copilot_byok::json::JsonValue;
use copilot_byok::model::{CopilotByokGroup, CopilotByokModel};
use copilot_byok::rollback::{after_persist, after_restore, begin_restore, begin_write, env_write_step, EnvStep};

/// An in-memory user environment whose writes can be made to fail: every
/// write of a name in `failing`, and every write from the `fail_from`-th on.
#[derive(Default)]
struct MemoryEnvironment {
    values: BTreeMap<String, String>,
    broadcasts: usize,
    failing: Vec<String>,
    fail_from: Option<usize>,
    writes: usize,
}

impl MemoryEnvironment {
    fn snapshot(&self) -> Vec<(String, Option<String>)> {
        let mut out: Vec<(String, Option<String>)> =
            managed_variables().into_iter().map(|name| (name.clone(), self.values.get(&name).cloned())).collect();
        out.sort_by(|a, b| a.0.cmp(&b.0));
        out
    }

    fn write(&mut self, name: &str, value: Option<&str>) -> Result<(), AppError> {
        let count = self.writes;
        self.writes += 1;
        if self.failing.iter().any(|n| n == name) || self.fail_from.is_some_and(|from| count >= from) {
            return Err(AppError::Config(format!("cannot write {name}")));
        }
        match value {
            Some(v) => {
                self.values.insert(name.to_string(), v.to_string());
            }
            None => {
                self.values.remove(name);
            }
        }
        Ok(())
    }

    /// Performs the library's writes until the run ends.
    fn perform(&mut self, mut step: EnvStep) -> Result<Vec<(String, Option<String>)>, AppError> {
        loop {
            match step {
                EnvStep::Write(run, name, value) => {
                    let written = self.write(&name, value.as_deref());
                    step = env_write_step(run, written);
                }
                EnvStep::Finish(result) => return result,
            }
        }
    }
}

fn persist_failure() -> AppError {
    AppError::Config("simulated persistence failure".to_string())
}

fn switch(
    cli: &mut CopilotCliConfig,
    next: CopilotCliConfig,
    values: &Vec<(String, Option<String>)>,
    environment: &mut MemoryEnvironment,
    persisted: bool,
    restoring: bool,
) -> Result<(), AppError> {
    let before = environment.perform(begin_write(values, environment.snapshot()))?;
    let previous = std::mem::replace(cli, CopilotCliConfig::default());
    let result = if persisted { Ok(()) } else { Err(persist_failure()) };
    let (kept, restore) = after_persist(previous, next, before, result);
    *cli = kept;
    if let Some((error, step)) = restore {
        let restored = environment.perform(step);
        return Err(after_restore(error, restored, restoring));
    }
    environment.broadcasts += 1;
    Ok(())
}

fn apply_with_backend(
    cli: &mut CopilotCliConfig,
    groups: &Vec<CopilotByokGroup>,
    group_id: &str,
    model_id: &str,
    environment: &mut MemoryEnvironment,
    persisted: bool,
) -> Result<CopilotCliState, AppError> {
    let current = environment.snapshot();
    let next = plan_apply(cli, groups, group_id, model_id, &current)?;
    let values = next.managed_environment.last_written.clone();
    switch(cli, next, &values, environment, persisted, false)?;
    Ok(state_with_snapshot(cli, groups, &environment.snapshot()))
}

fn disable_with_backend(
    cli: &mut CopilotCliConfig,
    groups: &Vec<CopilotByokGroup>,
    environment: &mut MemoryEnvironment,
) -> Result<CopilotCliState, AppError> {
    let current = environment.snapshot();
    let Some(original) = plan_disable(cli, &current)? else {
        return Ok(state_with_snapshot(cli, groups, &current));
    };
    switch(cli, CopilotCliConfig::default(), &original, environment, true, true)?;
    Ok(state_with_snapshot(cli, groups, &environment.snapshot()))
}

fn group() -> CopilotByokGroup {
    CopilotByokGroup {
        id: "provider".to_string(),
        name: "Provider".to_string(),
        url: "https://api.example.com/v1/responses".to_string(),
        api_key: "secret".to_string(),
        api_type: "responses".to_string(),
        website_url: None,
        notes: None,
        icon: None,
        icon_color: None,
        enabled: true,
        request_headers: vec![("X-Token".to_string(), "Token ${apiKey}".to_string())],
        models: vec![CopilotByokModel {
            id: "model-record".to_string(),
            model_id: "wire-model".to_string(),
            name: "Model".to_string(),
            enabled: true,
            tool_calling: Some(true),
            vision: None,
            thinking: None,
            streaming: Some(true),
            context_window: Some(128_000),
            max_input_tokens: Some(120_000),
            max_output_tokens: Some(8_000),
            edit_tools: Vec::new(),
            zero_data_retention_enabled: false,
            supports_reasoning_effort: Vec::new(),
            reasoning_effort_format: None,
            model_options: JsonValue::Object(Vec::new()),
            extra: Vec::new(),
        }],
        extra: Vec::new(),
    }
}

fn lookup<'a>(env: &'a [(String, Option<String>)], name: &str) -> Option<&'a str> {
    env.iter().find(|(n, _)| n == name).and_then(|(_, v)| v.as_deref())
}

#[test]
fn maps_responses_provider_to_cli_environment() {
    let g = group();
    let desired = desired_environment(&g, &g.models[0]).expect("environment");
    assert_eq!(lookup(&desired, "COPILOT_PROVIDER_BASE_URL"), Some("https://api.example.com/v1"));
    assert_eq!(lookup(&desired, "COPILOT_PROVIDER_WIRE_API"), Some("responses"));
    assert_eq!(lookup(&desired, "COPILOT_MODEL"), Some("wire-model"));
    assert_eq!(lookup(&desired, "COPILOT_PROVIDER_HEADERS"), Some("X-Token: Token secret"));
}

#[test]
fn apply_then_disable_restores_original_values() {
    let mut environment = MemoryEnvironment::default();
    environment.values.insert("COPILOT_MODEL".to_string(), "original-model".to_string());
    let groups = vec![group()];
    let mut cli = CopilotCliConfig::default();

    let applied = apply_with_backend(&mut cli, &groups, "provider", "model-record", &mut environment, true).expect("apply CLI environment");
    assert!(applied.enabled);
    assert!(applied.environment_matches);
    assert_eq!(environment.values.get("COPILOT_MODEL"), Some(&"wire-model".to_string()));

    let disabled = disable_with_backend(&mut cli, &groups, &mut environment).expect("restore CLI environment");
    assert!(!disabled.enabled);
    assert_eq!(environment.values.get("COPILOT_MODEL"), Some(&"original-model".to_string()));
    assert!(!environment.values.contains_key("COPILOT_PROVIDER_BASE_URL"));
    assert_eq!(environment.broadcasts, 2);
}

#[test]
fn external_edit_blocks_restore_without_overwriting_it() {
    let mut environment = MemoryEnvironment::default();
    let groups = vec![group()];
    let mut cli = CopilotCliConfig::default();
    apply_with_backend(&mut cli, &groups, "provider", "model-record", &mut environment, true).expect("apply CLI environment");
    environment.values.insert("COPILOT_PROVIDER_API_KEY".to_string(), "external-secret".to_string());

    let error = disable_with_backend(&mut cli, &groups, &mut environment).expect_err("external edit must block restore");
    assert!(matches!(error, AppError::Conflict(_)));
    assert_eq!(environment.values.get("COPILOT_PROVIDER_API_KEY").map(String::as_str), Some("external-secret"));
    assert!(cli.enabled);
}

#[test]
fn provider_edit_requires_reapply_even_when_environment_is_untouched() {
    let mut environment = MemoryEnvironment::default();
    let groups = vec![group()];
    let mut cli = CopilotCliConfig::default();
    apply_with_backend(&mut cli, &groups, "provider", "model-record", &mut environment, true).expect("apply CLI environment");

    let mut edited_groups = groups;
    edited_groups[0].url = "https://new.example.com/v1/responses".to_string();
    let state = state_with_snapshot(&cli, &edited_groups, &environment.snapshot());

    assert!(!state.environment_matches);
    assert!(state.environment_conflicts.is_empty());
}

#[test]
fn persistence_failure_rolls_back_environment_and_selection() {
    let mut environment = MemoryEnvironment::default();
    environment.values.insert("COPILOT_MODEL".to_string(), "original-model".to_string());
    let groups = vec![group()];
    let mut cli = CopilotCliConfig::default();

    let error = apply_with_backend(&mut cli, &groups, "provider", "model-record", &mut environment, false)
        .expect_err("persistence failure must abort the switch");

    assert!(matches!(error, AppError::Config(_)));
    assert_eq!(error.message(), "simulated persistence failure");
    assert!(!cli.enabled);
    assert_eq!(environment.values.get("COPILOT_MODEL"), Some(&"original-model".to_string()));
    assert!(!environment.values.contains_key("COPILOT_PROVIDER_BASE_URL"));
    assert_eq!(environment.broadcasts, 0);
}

#[test]
fn vscode_secret_reference_is_rejected_for_cli() {
    let mut provider = group();
    provider.api_key = "${input:provider-key}".to_string();
    let error = desired_environment(&provider, &provider.models[0]).expect_err("VS Code SecretStorage references are not available to the CLI");
    assert!(matches!(error, AppError::InvalidInput(_)));
}

#[test]
fn switching_twice_then_disabling_restores_the_first_snapshot() {
    let mut environment = MemoryEnvironment::default();
    environment.values.insert("COPILOT_MODEL".to_string(), "original-model".to_string());
    environment.values.insert("UNRELATED".to_string(), "kept".to_string());
    let mut second = group();
    second.id = "second".to_string();
    second.api_type = "messages".to_string();
    second.url = "https://anthropic.example.com/v1/messages".to_string();
    let groups = vec![group(), second];
    let mut cli = CopilotCliConfig::default();
    apply_with_backend(&mut cli, &groups, "provider", "model-record", &mut environment, true).unwrap();
    let state = apply_with_backend(&mut cli, &groups, "second", "model-record", &mut environment, true).unwrap();
    assert!(state.environment_matches);
    assert_eq!(environment.values.get("COPILOT_PROVIDER_TYPE").map(String::as_str), Some("anthropic"));
    assert_eq!(environment.values.get("COPILOT_PROVIDER_BASE_URL").map(String::as_str), Some("https://anthropic.example.com"));
    assert!(!environment.values.contains_key("COPILOT_PROVIDER_WIRE_API"));
    disable_with_backend(&mut cli, &groups, &mut environment).unwrap();
    let expected: BTreeMap<String, String> =
        [("COPILOT_MODEL".to_string(), "original-model".to_string()), ("UNRELATED".to_string(), "kept".to_string())].into_iter().collect();
    assert_eq!(environment.values, expected);
}

#[test]
fn unknown_selection_and_base_url_errors() {
    let groups = vec![group()];
    let cli = CopilotCliConfig::default();
    let current = MemoryEnvironment::default().snapshot();
    match plan_apply(&cli, &groups, "missing", "model-record", &current) {
        Err(AppError::InvalidInput(m)) => assert_eq!(m, "Unknown Copilot CLI provider: missing"),
        other => panic!("unexpected {other:?}"),
    }
    match plan_apply(&cli, &groups, "provider", "missing", &current) {
        Err(AppError::InvalidInput(m)) => assert_eq!(m, "Unknown Copilot CLI model missing in provider provider"),
        other => panic!("unexpected {other:?}"),
    }
    assert_eq!(provider_base_url("https://api.example.com/chat/completions", "chat-completions").unwrap(), "https://api.example.com");
    assert_eq!(provider_base_url("https://api.example.com/v1/messages", "messages").unwrap(), "https://api.example.com");
    assert!(provider_base_url("https://api.example.com/v1?x=1", "responses").is_err());
    let mut enabled = CopilotCliConfig::default();
    enabled.enabled = true;
    match validate_selection(&enabled, &groups) {
        Err(AppError::Config(m)) => assert_eq!(m, "Copilot CLI is enabled without a selected provider"),
        other => panic!("unexpected {other:?}"),
    }
}

#[test]
fn failed_write_rolls_back_every_variable() {
    let mut environment = MemoryEnvironment::default();
    environment.values.insert("COPILOT_MODEL".to_string(), "original-model".to_string());
    environment.values.insert("UNRELATED".to_string(), "kept".to_string());
    let before = environment.values.clone();
    environment.failing = vec!["COPILOT_PROVIDER_HEADERS".to_string()];
    let groups = vec![group()];
    let mut cli = CopilotCliConfig::default();

    let error = apply_with_backend(&mut cli, &groups, "provider", "model-record", &mut environment, true)
        .expect_err("a failed write aborts the switch");
    assert_eq!(error.message(), "cannot write COPILOT_PROVIDER_HEADERS; failed to roll back environment variables: COPILOT_PROVIDER_HEADERS");
    assert_eq!(environment.values, before);
    assert!(!cli.enabled);
    assert_eq!(environment.broadcasts, 0);
}

#[test]
fn failed_write_with_clean_rollback_reports_the_write_error() {
    let mut environment = MemoryEnvironment::default();
    environment.values.insert("COPILOT_MODEL".to_string(), "original-model".to_string());
    let before = environment.values.clone();
    // The fourth write fails; the write-back after it succeeds.
    let mut step = begin_write(&desired_environment(&group(), &group().models[0]).unwrap(), environment.snapshot());
    let mut performed = 0;
    let result = loop {
        match step {
            EnvStep::Write(run, name, value) => {
                let written = if performed == 3 {
                    Err(AppError::Config("registry unavailable".to_string()))
                } else {
                    environment.write(&name, value.as_deref())
                };
                performed += 1;
                step = env_write_step(run, written);
            }
            EnvStep::Finish(result) => break result,
        }
    };
    assert_eq!(result.expect_err("the write failed").message(), "registry unavailable");
    assert_eq!(performed, 4 + managed_variables().len());
    assert_eq!(environment.values, before);
}

#[test]
fn failed_restore_after_failed_save_names_both_errors() {
    let mut environment = MemoryEnvironment::default();
    environment.fail_from = Some(managed_variables().len());
    let groups = vec![group()];
    let mut cli = CopilotCliConfig::default();

    let error = apply_with_backend(&mut cli, &groups, "provider", "model-record", &mut environment, false)
        .expect_err("persistence failure must abort the switch");
    let expected = format!(
        "simulated persistence failure; failed to roll back Copilot CLI environment: Failed to restore environment variables: {}",
        managed_variables().join(", ")
    );
    assert_eq!(error.message(), expected);
    assert!(!cli.enabled);
}

#[test]
fn restore_run_writes_every_managed_variable() {
    let mut environment = MemoryEnvironment::default();
    environment.values.insert("COPILOT_MODEL".to_string(), "changed".to_string());
    environment.values.insert("COPILOT_PROVIDER_TYPE".to_string(), "openai".to_string());
    let before = vec![("COPILOT_MODEL".to_string(), Some("original".to_string()))];
    let restored = environment.perform(begin_restore(before.clone())).expect("restore");
    assert_eq!(restored, before);
    assert_eq!(environment.values.get("COPILOT_MODEL").map(String::as_str), Some("original"));
    assert!(!environment.values.contains_key("COPILOT_PROVIDER_TYPE"));
    assert_eq!(environment.writes, managed_variables().len());
}
