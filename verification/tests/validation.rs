use orchestra_core::automation::AutomationDiagnosticCode;
use orchestra_core::automation::AutomationValidationResult;
use orchestra_core::automation::AutomationValidationSeverity;
use orchestra_core::automation::InheritedCodexPolicy;
use orchestra_core::automation_profile::assemble_automation_profile;
use orchestra_core::automation_profile::AutomationValidationContext;
use orchestra_core::automation_profile::AutomationValidationFacts;
use orchestra_core::automation_profile::PromptRendering;
use orchestra_core::automation_profile::RawAgentSection;
use orchestra_core::automation_profile::RawAutomationProfile;
use orchestra_core::automation_profile::RawCodexSection;
use orchestra_core::automation_profile::RawHooksSection;
use orchestra_core::automation_profile::RawOrchestraSection;
use orchestra_core::automation_profile::RawPollingSection;
use orchestra_core::automation_profile::RawTrackerSection;
use orchestra_core::automation_profile::RawWorkspaceSection;
use orchestra_core::automation_profile::SelectedWorkflow;
use orchestra_core::automation_validate::split_workflow_document;
use orchestra_core::json::JsonValue;
use orchestra_core::plan::InputDefault;
use orchestra_core::plan::InputDefinition;
use orchestra_core::plan::InputKind;

const ROOT: &str = "/repo";

/// The front matter of the valid `WORKFLOW.md` fixture, decoded.
fn valid_front_matter() -> RawAutomationProfile {
    RawAutomationProfile {
        tracker: RawTrackerSection {
            kind: Some("linear".into()),
            endpoint: None,
            api_key: Some("$LINEAR_API_KEY".into()),
            project_slug: Some("orchestra".into()),
            required_labels: vec!["Automation".into(), "ready".into()],
            active_states: None,
            terminal_states: None,
        },
        polling: RawPollingSection { interval_ms: Some(15_000) },
        workspace: RawWorkspaceSection { root: Some(".codex/orchestra/worktrees".into()) },
        hooks: RawHooksSection {
            after_create: None,
            before_run: Some("git status --short".into()),
            after_run: None,
            before_remove: None,
            timeout_ms: None,
        },
        agent: RawAgentSection {
            max_concurrent_agents: Some(3),
            max_turns: Some(7),
            max_retry_backoff_ms: None,
            max_concurrent_agents_by_state: vec![("Todo".into(), 2)],
        },
        codex: RawCodexSection {
            command: None,
            approval_policy: Some(JsonValue::String("untrusted".into())),
            thread_sandbox: Some("read-only".into()),
            turn_sandbox_policy: None,
            turn_timeout_ms: None,
            read_timeout_ms: None,
            stall_timeout_ms: None,
        },
        orchestra: RawOrchestraSection {
            workflow: Some("issue.workflow.ts".into()),
            effects: vec!["tracker.comment".into(), "tracker.transition".into()],
        },
        extensions: Vec::new(),
    }
}

fn prompt_body() -> String {
    "Work on {{ issue.identifier }}: {{ issue.title }} (attempt={{ attempt }}).\n{% for label in issue.labels %}[{{ label | lower }}]{% endfor %}".into()
}

fn input(kind: InputKind, required: bool, default: InputDefault) -> InputDefinition {
    InputDefinition { kind, required, default }
}

fn workflow_inputs() -> Vec<(String, InputDefinition)> {
    vec![
        ("automation".into(), input(InputKind::Object, true, InputDefault::Missing)),
        ("issue".into(), input(InputKind::Object, true, InputDefault::Missing)),
        ("task_prompt".into(), input(InputKind::String, true, InputDefault::Missing)),
    ]
}

fn facts(inputs: Vec<(String, InputDefinition)>, prompt: PromptRendering) -> AutomationValidationFacts {
    AutomationValidationFacts {
        context: AutomationValidationContext {
            workflow_dir: ROOT.into(),
            repository_root: ROOT.into(),
            home_dir: Some(ROOT.into()),
            environment: vec![("LINEAR_API_KEY".into(), "secret-value".into())],
            workspace_root_is_symlink: false,
            canonical_repository_root: Some(ROOT.into()),
            canonical_workflow_path: Some(format!("{ROOT}/issue.workflow.ts")),
        },
        inherited_policy: InheritedCodexPolicy::default(),
        workflow: Some(SelectedWorkflow::Compiled {
            source: "export default workflow({ name: \"automation-issue\" });".into(),
            name: "automation-issue".into(),
            inputs,
        }),
        prompt,
    }
}

fn rendered() -> PromptRendering {
    PromptRendering::Rendered("Work on ORC-32: Validate Automation (attempt=2).\n[automation]".into())
}

fn has_code(result: &AutomationValidationResult, code: AutomationDiagnosticCode) -> bool {
    result.diagnostics.iter().any(|diagnostic| diagnostic.code == code)
}

#[test]
fn validates_and_previews_a_symphony_compatible_profile() {
    let first = assemble_automation_profile(valid_front_matter(), prompt_body(), facts(workflow_inputs(), rendered()));
    let second = assemble_automation_profile(valid_front_matter(), prompt_body(), facts(workflow_inputs(), rendered()));
    assert!(first.valid);
    assert_eq!(first.diagnostics.len(), second.diagnostics.len());
    let profile = first.profile.unwrap();
    assert_eq!(profile.tracker.required_labels, ["automation", "ready"]);
    assert_eq!(profile.agent.max_concurrent_agents_by_state, vec![("todo".to_string(), 2)]);
    assert!(matches!(&profile.codex.approval_policy, JsonValue::String(policy) if policy == "untrusted"));
    assert_eq!(profile.codex.thread_sandbox, "read-only");
    let preview = first.preview.unwrap();
    assert!(preview.rendered_prompt.as_ref().unwrap().contains("ORC-32"));
    assert_eq!(preview.inputs.len(), 3);
    assert_eq!(preview.secret_references[0].reference, "LINEAR_API_KEY");
    assert!(!profile.tracker.credential.reference.contains("secret-value"));
    assert!(!profile.tracker.credential.digest.contains("secret-value"));
    assert!(!preview.secret_references[0].digest.contains("secret-value"));
}

#[test]
fn missing_live_credential_warns_without_invalidating_fixture_validation() {
    let mut facts = facts(workflow_inputs(), rendered());
    facts.context.environment.clear();
    let result = assemble_automation_profile(valid_front_matter(), prompt_body(), facts);
    assert!(result.valid);
    let diagnostic = result
        .diagnostics
        .iter()
        .find(|diagnostic| diagnostic.code == AutomationDiagnosticCode::MissingSecret)
        .unwrap();
    assert_eq!(diagnostic.severity, AutomationValidationSeverity::Warning);
    assert!(!diagnostic.message.contains("secret-value"));
}

#[test]
fn rejects_codex_command_and_policy_broadening() {
    let mut raw = valid_front_matter();
    raw.codex.command = Some("codex app-server".into());
    raw.codex.approval_policy = Some(JsonValue::String("never".into()));
    raw.codex.thread_sandbox = Some("danger-full-access".into());
    let result = assemble_automation_profile(raw, prompt_body(), facts(workflow_inputs(), rendered()));
    assert!(!result.valid);
    assert!(has_code(&result, AutomationDiagnosticCode::ProhibitedCodexCommand));
    assert_eq!(
        result
            .diagnostics
            .iter()
            .filter(|diagnostic| diagnostic.code == AutomationDiagnosticCode::PolicyBroadening)
            .count(),
        2
    );
}

#[test]
fn rejects_workflow_input_mismatches_and_missing_defaults() {
    let inputs = vec![
        ("automation".into(), input(InputKind::Object, true, InputDefault::Missing)),
        ("extra".into(), input(InputKind::String, false, InputDefault::Missing)),
        ("issue".into(), input(InputKind::String, true, InputDefault::Missing)),
        ("task_prompt".into(), input(InputKind::String, true, InputDefault::Missing)),
    ];
    let result = assemble_automation_profile(valid_front_matter(), prompt_body(), facts(inputs, rendered()));
    assert!(!result.valid);
    assert!(has_code(&result, AutomationDiagnosticCode::WorkflowInputIncompatible));
    assert!(has_code(&result, AutomationDiagnosticCode::WorkflowInputNeedsDefault));
}

#[test]
fn rejects_unknown_prompt_values_and_unsafe_workspace_roots() {
    let mut raw = valid_front_matter();
    raw.workspace.root = Some("/".into());
    let prompt = PromptRendering::RenderError("undefined value `issue.missing`".into());
    let result = assemble_automation_profile(raw, prompt_body(), facts(workflow_inputs(), prompt));
    assert!(!result.valid);
    assert!(has_code(&result, AutomationDiagnosticCode::UnsafeWorkspaceRoot));
    assert!(has_code(&result, AutomationDiagnosticCode::TemplateRenderError));
}

#[test]
fn additional_workflow_inputs_with_defaults_are_observable() {
    let mut inputs = workflow_inputs();
    inputs.insert(
        2,
        (
            "model".into(),
            input(InputKind::String, false, InputDefault::Value(JsonValue::String("gpt-5.4".into()))),
        ),
    );
    let result = assemble_automation_profile(valid_front_matter(), prompt_body(), facts(inputs, rendered()));
    assert!(result.valid);
    let model = result.preview.unwrap().inputs.into_iter().find(|input| input.name == "model").unwrap();
    assert!(matches!(model.default, Some(JsonValue::String(value)) if value == "gpt-5.4"));
}

#[test]
fn unknown_top_level_keys_only_warn() {
    let mut raw = valid_front_matter();
    raw.extensions = vec!["server".into()];
    let result = assemble_automation_profile(raw, prompt_body(), facts(workflow_inputs(), rendered()));
    assert!(result.valid);
    assert!(has_code(&result, AutomationDiagnosticCode::UnknownField));
}

#[test]
fn front_matter_splits_from_the_trimmed_prompt_body() {
    let (front, body) = split_workflow_document("---\ntracker:\n  kind: linear\n---\n  Do the work.  \n").unwrap();
    assert_eq!(front, "tracker:\n  kind: linear\n");
    assert_eq!(body, "Do the work.");
    assert!(split_workflow_document("---\nkind: linear\n").is_err());
    let (front, body) = split_workflow_document("Only a prompt").unwrap();
    assert_eq!(front, "");
    assert_eq!(body, "Only a prompt");
}

fn fixture_issue() -> orchestra_core::automation::AutomationIssue {
    orchestra_core::automation::AutomationIssue {
        id: "issue-32".into(),
        identifier: "ORC-32".into(),
        title: "Validate Automation".into(),
        description: None,
        priority: Some(2),
        state: "Todo".into(),
        branch_name: None,
        url: None,
        labels: vec!["Automation".into()],
        blocked_by: Vec::new(),
        created_at: None,
        updated_at: None,
    }
}

#[test]
fn prompt_templates_render_strictly_against_the_issue() {
    let rendered = orchestra_core::prompt::render_prompt(&prompt_body(), &fixture_issue(), Some(2));
    assert!(matches!(&rendered, PromptRendering::Rendered(text) if text == "Work on ORC-32: Validate Automation (attempt=2).\n[automation]"));
    assert!(matches!(orchestra_core::prompt::render_prompt("{{ issue.missing_field }}", &fixture_issue(), None), PromptRendering::RenderError(_)));
    assert!(matches!(orchestra_core::prompt::render_prompt("{% if %}", &fixture_issue(), None), PromptRendering::TemplateError(_)));
    let context = orchestra_core::prompt::prompt_context_text(&fixture_issue(), None);
    assert!(context.starts_with("{\"issue\":{\"id\":\"issue-32\",\"identifier\":\"ORC-32\""));
    assert!(context.ends_with(",\"attempt\":null}"));
}

#[test]
fn document_validation_renders_the_fixture_prompt() {
    let f = facts(workflow_inputs(), rendered());
    let result = orchestra_core::prompt::validate_profile_document(
        valid_front_matter(),
        prompt_body(),
        f.context,
        f.inherited_policy,
        f.workflow,
        &fixture_issue(),
        Some(2),
    );
    assert!(result.valid);
    let preview = result.preview.expect("preview");
    assert_eq!(preview.rendered_prompt.as_deref(), Some("Work on ORC-32: Validate Automation (attempt=2).\n[automation]"));
}
