//! Automation profiles (the `WORKFLOW.md` front matter) and tracker issues.
use crate::json::JsonValue;
use crate::plan::InputKind;
use vstd::prelude::*;

verus! {

pub struct AutomationProfile {
    pub tracker: AutomationTrackerProfile,
    pub polling: AutomationPollingProfile,
    pub workspace: AutomationWorkspaceProfile,
    pub hooks: AutomationHooksProfile,
    pub agent: AutomationAgentProfile,
    pub codex: AutomationCodexPolicy,
    pub orchestra: AutomationOrchestraProfile,
    pub prompt_template: String,
}

#[derive(Clone, Debug)]
pub struct AutomationTrackerProfile {
    pub kind: String,
    pub endpoint: String,
    pub project_slug: String,
    pub required_labels: Vec<String>,
    pub active_states: Vec<String>,
    pub terminal_states: Vec<String>,
    pub credential: AutomationSecretReference,
}

#[derive(Clone, Debug)]
pub struct AutomationPollingProfile {
    pub interval_ms: u64,
}

#[derive(Clone, Debug)]
pub struct AutomationWorkspaceProfile {
    pub root: String,
}

#[derive(Clone, Debug)]
pub struct AutomationHooksProfile {
    pub after_create: Option<String>,
    pub before_run: Option<String>,
    pub after_run: Option<String>,
    pub before_remove: Option<String>,
    pub timeout_ms: u64,
}

#[derive(Clone, Debug)]
pub struct AutomationAgentProfile {
    pub max_concurrent_agents: u32,
    pub max_turns: u32,
    pub max_retry_backoff_ms: u64,
    /// Per-state concurrency limits keyed by lowercase state, ordered by key.
    pub max_concurrent_agents_by_state: Vec<(String, u32)>,
}

pub struct AutomationCodexPolicy {
    pub approval_policy: JsonValue,
    pub thread_sandbox: String,
    pub turn_sandbox_policy: JsonValue,
    pub turn_timeout_ms: u64,
    pub read_timeout_ms: u64,
    pub stall_timeout_ms: u64,
}

#[derive(Clone, Debug)]
pub struct AutomationOrchestraProfile {
    pub workflow_path: String,
    pub workflow_sha256: String,
    pub workflow_name: String,
    pub effects: Vec<AutomationEffect>,
}

/// A tracker mutation that a profile may authorize.
#[derive(Clone, Copy, Debug, PartialEq, Eq, Structural)]
pub enum AutomationEffect {
    TrackerComment,
    TrackerTransition,
    TrackerLinkPullRequest,
}

/// The allowlisted name of each tracker effect.
pub open spec fn effect_name(effect: AutomationEffect) -> Seq<char> {
    match effect {
        AutomationEffect::TrackerComment => "tracker.comment"@,
        AutomationEffect::TrackerTransition => "tracker.transition"@,
        AutomationEffect::TrackerLinkPullRequest => "tracker.link_pull_request"@,
    }
}

impl AutomationEffect {
    /// The effect whose allowlisted name is `value`, if any.
    pub fn parse(value: &str) -> (r: Option<AutomationEffect>)
        ensures
            r matches Some(e) ==> effect_name(e) == value@,
            r is None ==> forall|e: AutomationEffect| effect_name(e) != value@,
    {
        proof {
            reveal_strlit("tracker.comment");
            reveal_strlit("tracker.transition");
            reveal_strlit("tracker.link_pull_request");
        }
        if crate::text::str_eq(value, "tracker.comment") {
            Some(AutomationEffect::TrackerComment)
        } else if crate::text::str_eq(value, "tracker.transition") {
            Some(AutomationEffect::TrackerTransition)
        } else if crate::text::str_eq(value, "tracker.link_pull_request") {
            Some(AutomationEffect::TrackerLinkPullRequest)
        } else {
            proof {
                assert forall|e: AutomationEffect| effect_name(e) != value@ by {
                    match e {
                        AutomationEffect::TrackerComment => {},
                        AutomationEffect::TrackerTransition => {},
                        AutomationEffect::TrackerLinkPullRequest => {},
                    }
                }
            }
            None
        }
    }
}

#[derive(Clone, Copy, Debug, PartialEq, Eq, Structural)]
pub enum AutomationSecretKind {
    Environment,
    InlineDigest,
}

/// Where a tracker credential comes from, with the digest of its raw reference; never the secret.
#[derive(Clone, Debug)]
pub struct AutomationSecretReference {
    pub kind: AutomationSecretKind,
    pub reference: String,
    pub digest: String,
}

pub struct AutomationValidationResult {
    pub valid: bool,
    pub profile: Option<AutomationProfile>,
    pub profile_digest: Option<String>,
    pub preview: Option<AutomationWorkflowPreview>,
    pub diagnostics: Vec<AutomationDiagnostic>,
}

pub struct AutomationWorkflowPreview {
    pub rendered_prompt: Option<String>,
    pub workflow: Option<String>,
    pub effects: Vec<AutomationEffect>,
    pub inputs: Vec<AutomationWorkflowInput>,
    pub secret_references: Vec<AutomationSecretReference>,
}

pub struct AutomationWorkflowInput {
    pub name: String,
    pub kind: InputKind,
    pub required: bool,
    pub default: Option<JsonValue>,
}

#[derive(Clone, Copy, Debug, PartialEq, Eq, Structural)]
pub enum AutomationValidationSeverity {
    Error,
    Warning,
}

#[derive(Clone, Copy, Debug, PartialEq, Eq, Structural)]
pub enum AutomationDiagnosticCode {
    MissingWorkflowFile,
    WorkflowParseError,
    WorkflowFrontMatterNotAMap,
    MissingField,
    InvalidValue,
    UnknownField,
    UnsupportedTracker,
    MissingSecret,
    ProhibitedCodexCommand,
    PolicyBroadening,
    UnsafeWorkspaceRoot,
    MissingOrchestraExtension,
    UnsupportedEffect,
    WorkflowCompileError,
    WorkflowInputMissing,
    WorkflowInputIncompatible,
    WorkflowInputNeedsDefault,
    TemplateParseError,
    TemplateRenderError,
}

#[derive(Debug)]
pub struct AutomationDiagnostic {
    pub severity: AutomationValidationSeverity,
    pub code: AutomationDiagnosticCode,
    pub path: String,
    pub message: String,
}

/// The policy of the task that validates a profile; a profile may only narrow it.
pub struct InheritedCodexPolicy {
    pub approval_policy: JsonValue,
    pub thread_sandbox: String,
    pub turn_sandbox_policy: JsonValue,
}

impl InheritedCodexPolicy {
    /// `on-request` approvals in a `workspace-write` sandbox with a null turn policy.
    pub fn default() -> (r: InheritedCodexPolicy)
        ensures
            r.approval_policy matches JsonValue::String(s) && s@ == "on-request"@,
            r.thread_sandbox@ == "workspace-write"@,
            r.turn_sandbox_policy is Null,
    {
        InheritedCodexPolicy {
            approval_policy: JsonValue::String(crate::text::to_owned_string("on-request")),
            thread_sandbox: crate::text::to_owned_string("workspace-write"),
            turn_sandbox_policy: JsonValue::Null,
        }
    }
}

/// A tracker issue, normalized.
#[derive(Clone, Debug)]
pub struct AutomationIssue {
    pub id: String,
    pub identifier: String,
    pub title: String,
    pub description: Option<String>,
    pub priority: Option<i64>,
    pub state: String,
    pub branch_name: Option<String>,
    pub url: Option<String>,
    pub labels: Vec<String>,
    pub blocked_by: Vec<AutomationIssueBlocker>,
    pub created_at: Option<String>,
    pub updated_at: Option<String>,
}

#[derive(Clone, Debug)]
pub struct AutomationIssueBlocker {
    pub id: Option<String>,
    pub identifier: Option<String>,
    pub state: Option<String>,
}

} // verus!
