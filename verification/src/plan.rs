//! Typed workflow plans and the native host vocabulary they run against.
use crate::json::JsonValue;
use vstd::prelude::*;

verus! {

/// A compiled workflow: named steps with typed run inputs.
pub struct ExecutionPlan {
    pub name: String,
    pub description: String,
    /// Input definitions ordered by name.
    pub inputs: Vec<(String, InputDefinition)>,
    pub max_parallel: usize,
    pub steps: Vec<Step>,
}

pub struct InputDefinition {
    pub kind: InputKind,
    pub required: bool,
    pub default: InputDefault,
}

#[derive(Clone, Copy, Debug, PartialEq, Eq, Structural)]
pub enum InputKind {
    String,
    Number,
    Boolean,
    Object,
    Array,
    Json,
}

/// A declared input default: absent, or a JSON value.
pub enum InputDefault {
    Missing,
    Value(JsonValue),
}

impl InputDefault {
    pub fn is_missing(&self) -> (r: bool)
        ensures
            r == (*self is Missing),
    {
        match self {
            InputDefault::Missing => true,
            InputDefault::Value(_) => false,
        }
    }

    pub fn value(&self) -> (r: Option<&JsonValue>)
        ensures
            r matches Some(v) ==> *self == InputDefault::Value(*v),
            r is None ==> *self is Missing,
    {
        match self {
            InputDefault::Missing => None,
            InputDefault::Value(value) => Some(value),
        }
    }
}

pub struct Step {
    pub id: String,
    pub needs: Vec<String>,
    pub max_attempts: u32,
    pub repeat: Option<RepeatPolicy>,
    pub worktree: WorktreePolicy,
    pub write_scope: Vec<String>,
    pub action: Action,
}

pub enum Action {
    Agent(AgentStep),
    Check(CheckStep),
    Approval(ApprovalStep),
}

pub struct AgentStep {
    pub prompt: String,
    pub model: String,
    pub reasoning_effort: Option<String>,
    pub service_tier: Option<String>,
    pub fork_turns: ForkTurns,
    pub context: Vec<ContextSource>,
    pub skills: Vec<SkillRequirement>,
    pub outputs: Vec<String>,
    pub allow_delegation: bool,
}

pub struct SkillRequirement {
    pub name: String,
    pub requires: Vec<String>,
    pub resources: Vec<String>,
}

pub struct CheckStep {
    pub command: Vec<String>,
    pub cwd: Option<String>,
    pub timeout_ms: u64,
}

pub struct ApprovalStep {
    pub prompt: String,
    pub choices: Vec<String>,
}

#[derive(Clone, Copy, Debug, PartialEq, Eq, Structural)]
pub enum WorktreePolicy {
    Shared,
    Isolated,
}

#[derive(Clone, Copy, Debug, PartialEq, Eq, Structural)]
/// How many parent turns a spawned agent inherits (`Disabled`: none).
pub enum ForkTurns {
    Disabled,
    All,
    Last(usize),
}

pub struct RepeatPolicy {
    pub max_rounds: u32,
    pub until_output: String,
    pub equals: JsonValue,
    pub stop_on_no_progress: bool,
}

pub enum ContextSource {
    File { path: String },
    Range { path: String, start: usize, end: usize },
    Diff { from: String, to: String, paths: Vec<String> },
    Revision { revision: String, path: String },
    DependencyOutput { step: String, output: String },
    Input { input: String },
}

/// Lifecycle of a workflow run.
#[derive(Clone, Copy, Debug, PartialEq, Eq, Structural)]
pub enum RunStatus {
    Pending,
    Running,
    WaitingApproval,
    Completed,
    Failed,
    Cancelled,
}

/// Lifecycle of one workflow step.
#[derive(Clone, Copy, Debug, PartialEq, Eq, Structural)]
pub enum StepStatus {
    Pending,
    Running,
    Retrying,
    WaitingApproval,
    Completed,
    Failed,
    Cancelled,
}

/// Whether a run's isolated changes were promoted into the repository.
#[derive(Clone, Copy, Debug, PartialEq, Eq, Structural)]
pub enum PromotionStatus {
    Pending,
    Applied,
    NotRequired,
}

/// A native agent task spawned for a step or an Issue claim.
#[derive(Clone, Debug)]
pub struct AgentHandle {
    pub thread_id: String,
    pub task_path: String,
    pub parent_thread_id: String,
}

pub struct SkillIdentity {
    pub canonical_name: String,
    pub source_kind: SkillSourceKind,
    pub source_locator: String,
    pub plugin_id: Option<String>,
}

#[derive(Clone, Copy, Debug, PartialEq, Eq, Structural)]
pub enum SkillSourceKind {
    Admin,
    User,
    Repo,
    System,
}

pub struct SkillToolDependency {
    pub kind: String,
    pub value: String,
    pub description: Option<String>,
    pub transport: Option<String>,
    pub command: Option<String>,
    pub url: Option<String>,
}

pub struct ResolvedSkill {
    pub requirement: String,
    pub identity: SkillIdentity,
    pub instructions: Vec<u8>,
    /// Resource bytes ordered by resource path.
    pub resources: Vec<(String, Vec<u8>)>,
    pub tool_dependencies: Vec<SkillToolDependency>,
}

pub enum AgentStatus {
    Pending,
    Running,
    Completed,
    Cancelled,
    Failed(String),
}

pub struct AgentOutcome {
    pub status: AgentStatus,
    pub final_response: Option<String>,
}

/// What a host command produced.
pub struct CommandOutcome {
    pub exit_code: i32,
    pub stdout: String,
    pub stderr: String,
}

pub struct SpawnRequest {
    pub parent_thread_id: String,
    pub task_name: String,
    pub prompt: String,
    pub skill_context: String,
    pub cwd: String,
    pub model: String,
    pub reasoning_effort: Option<String>,
    pub service_tier: Option<String>,
    pub fork_turns: ForkTurns,
    pub allow_delegation: bool,
    /// Additional native descendant levels required by a structural task
    /// container. Ordinary workflow agents set this to zero.
    pub minimum_descendant_depth: i32,
}

/// Default parallelism of a plan without `max_parallel`.
pub fn default_parallel() -> (r: usize)
    ensures
        r == 4,
{
    4
}

/// Default attempts of a step without `max_attempts`.
pub fn default_attempts() -> (r: u32)
    ensures
        r == 1,
{
    1
}

/// Default timeout of a check step without `timeout_ms`.
pub fn default_timeout() -> (r: u64)
    ensures
        r == 120_000,
{
    120_000
}

/// Default of boolean flags that are on unless stated.
pub fn default_true() -> (r: bool)
    ensures
        r,
{
    true
}

} // verus!
