//! The app-server wire vocabulary of Automation and Orchestra, and the bounded
//! projections of durable state into it.
use crate::automation::AutomationIssue;
use crate::automation_run::AutomationClaimStatus;
use crate::automation_run::AutomationCleanupStatus;
use crate::automation_run::AutomationEffectStatus;
use crate::automation_run::AutomationGatePolicy;
use crate::automation_run::AutomationHookKind;
use crate::automation_run::AutomationHookStatus;
use crate::automation_run::AutomationProfileRevisionStatus;
use crate::automation_run::AutomationQueueCategory;
use crate::automation_run::AutomationQueueCounts;
use crate::automation_run::AutomationReconciliationStatus;
use crate::automation_run::AutomationRetryKind;
use crate::automation_run::AutomationRootStatus;
use crate::automation::AutomationEffect;
use crate::automation_queue::automation_queue_counts;
use crate::automation_queue::automation_queue_page;
use crate::automation_queue::counts_as_tuple;
use crate::automation_queue::counts_spec;
use crate::automation_queue::lemma_counts_total;
use crate::automation_queue::page_entries;
use crate::automation_queue::stable_sorted;
use crate::automation_run::AutomationEffectReceipt;
use crate::automation_run::AutomationHookReceipt;
use crate::automation_run::AutomationIssueClaim;
use crate::automation_run::AutomationQueueProjectionItem;
use crate::automation_run::AutomationRootCheckpoint;
use crate::plan::AgentHandle;
use crate::plan::InputKind;
use crate::plan::PromotionStatus;
use crate::plan::RunStatus;
use crate::plan::StepStatus;
use crate::text::fit_prefix;
use crate::text::fit_prefix_len;
use crate::text::push_char;
use crate::text::slice_subrange;
use crate::text::str_chars;
use crate::text::str_eq;
use crate::text::string_from_chars;
use crate::text::utf8_byte_len;
use crate::text::utf8_len;
use vstd::prelude::*;

verus! {

/// Largest UTF-8 size of a projected text before it is cut.
pub const MAX_PROJECTION_TEXT_BYTES: usize = 4096;

/// A projected text and whether it ends in the ellipsis that marks a cut.
pub struct OrchestraBoundedText {
    pub text: String,
    pub truncated: bool,
}

/// `s` unchanged when it fits the projection budget; otherwise its longest
/// prefix of whole characters within the budget, followed by `…`.
pub open spec fn bounded_text_spec(s: Seq<char>) -> Seq<char> {
    if utf8_len(s) <= MAX_PROJECTION_TEXT_BYTES {
        s
    } else {
        fit_prefix(s, MAX_PROJECTION_TEXT_BYTES as int).push('…')
    }
}

pub open spec fn ends_with_ellipsis(s: Seq<char>) -> bool {
    s.len() > 0 && s.last() == '…'
}

/// The wire form of a text: bounded, and flagged when it ends in `…`.
pub open spec fn bounded_projection(b: OrchestraBoundedText, s: Seq<char>) -> bool {
    &&& b.text@ == bounded_text_spec(s)
    &&& b.truncated == ends_with_ellipsis(bounded_text_spec(s))
}

pub open spec fn optional_bounded(b: Option<OrchestraBoundedText>, s: Option<String>) -> bool {
    match (b, s) {
        (Some(b), Some(s)) => bounded_projection(b, s@),
        (None, None) => true,
        _ => false,
    }
}

/// Cuts `text` to the projection budget at a character boundary.
pub fn bounded_text(text: String) -> (r: String)
    ensures
        r@ == bounded_text_spec(text@),
{
    if utf8_byte_len(text.as_str()) <= MAX_PROJECTION_TEXT_BYTES {
        return text;
    }
    let chars = str_chars(text.as_str());
    let k = fit_prefix_len(&chars, MAX_PROJECTION_TEXT_BYTES);
    let mut out = string_from_chars(slice_subrange(chars.as_slice(), 0, k));
    push_char(&mut out, '…');
    out
}

fn ends_with_ellipsis_char(s: &str) -> (r: bool)
    ensures
        r == ends_with_ellipsis(s@),
{
    let chars = str_chars(s);
    chars.len() > 0 && chars[chars.len() - 1] == '…'
}

/// The bounded wire form of a text.
pub fn automation_bounded_text(text: String) -> (r: OrchestraBoundedText)
    ensures
        bounded_projection(r, text@),
{
    let bounded = bounded_text(text);
    let truncated = ends_with_ellipsis_char(bounded.as_str());
    OrchestraBoundedText { text: bounded, truncated }
}

fn optional_bounded_text(text: Option<String>) -> (r: Option<OrchestraBoundedText>)
    ensures
        optional_bounded(r, text),
{
    match text {
        Some(t) => Some(automation_bounded_text(t)),
        None => None,
    }
}

/// A native agent task, as the wire names it.
pub struct OrchestraAgentReference {
    pub thread_id: String,
    pub task_path: String,
}

#[derive(Clone, Copy, Debug, PartialEq, Eq, Structural)]
pub enum OrchestraRunStatus {
    Pending,
    Running,
    WaitingApproval,
    Completed,
    Failed,
    Cancelled,
}

#[derive(Clone, Copy, Debug, PartialEq, Eq, Structural)]
pub enum OrchestraPromotionStatus {
    Pending,
    Applied,
    NotRequired,
}

#[derive(Clone, Copy, Debug, PartialEq, Eq, Structural)]
pub enum OrchestraStepStatus {
    Pending,
    Running,
    Retrying,
    WaitingApproval,
    Completed,
    Failed,
    Cancelled,
}

pub open spec fn run_status_wire(s: RunStatus) -> OrchestraRunStatus {
    match s {
        RunStatus::Pending => OrchestraRunStatus::Pending,
        RunStatus::Running => OrchestraRunStatus::Running,
        RunStatus::WaitingApproval => OrchestraRunStatus::WaitingApproval,
        RunStatus::Completed => OrchestraRunStatus::Completed,
        RunStatus::Failed => OrchestraRunStatus::Failed,
        RunStatus::Cancelled => OrchestraRunStatus::Cancelled,
    }
}

pub fn project_run_status(status: RunStatus) -> (r: OrchestraRunStatus)
    ensures
        r == run_status_wire(status),
{
    match status {
        RunStatus::Pending => OrchestraRunStatus::Pending,
        RunStatus::Running => OrchestraRunStatus::Running,
        RunStatus::WaitingApproval => OrchestraRunStatus::WaitingApproval,
        RunStatus::Completed => OrchestraRunStatus::Completed,
        RunStatus::Failed => OrchestraRunStatus::Failed,
        RunStatus::Cancelled => OrchestraRunStatus::Cancelled,
    }
}

pub open spec fn promotion_wire(s: PromotionStatus) -> OrchestraPromotionStatus {
    match s {
        PromotionStatus::Pending => OrchestraPromotionStatus::Pending,
        PromotionStatus::Applied => OrchestraPromotionStatus::Applied,
        PromotionStatus::NotRequired => OrchestraPromotionStatus::NotRequired,
    }
}

pub fn project_promotion(status: PromotionStatus) -> (r: OrchestraPromotionStatus)
    ensures
        r == promotion_wire(status),
{
    match status {
        PromotionStatus::Pending => OrchestraPromotionStatus::Pending,
        PromotionStatus::Applied => OrchestraPromotionStatus::Applied,
        PromotionStatus::NotRequired => OrchestraPromotionStatus::NotRequired,
    }
}

pub open spec fn step_status_wire(s: StepStatus) -> OrchestraStepStatus {
    match s {
        StepStatus::Pending => OrchestraStepStatus::Pending,
        StepStatus::Running => OrchestraStepStatus::Running,
        StepStatus::Retrying => OrchestraStepStatus::Retrying,
        StepStatus::WaitingApproval => OrchestraStepStatus::WaitingApproval,
        StepStatus::Completed => OrchestraStepStatus::Completed,
        StepStatus::Failed => OrchestraStepStatus::Failed,
        StepStatus::Cancelled => OrchestraStepStatus::Cancelled,
    }
}

pub fn project_step_status(status: StepStatus) -> (r: OrchestraStepStatus)
    ensures
        r == step_status_wire(status),
{
    match status {
        StepStatus::Pending => OrchestraStepStatus::Pending,
        StepStatus::Running => OrchestraStepStatus::Running,
        StepStatus::Retrying => OrchestraStepStatus::Retrying,
        StepStatus::WaitingApproval => OrchestraStepStatus::WaitingApproval,
        StepStatus::Completed => OrchestraStepStatus::Completed,
        StepStatus::Failed => OrchestraStepStatus::Failed,
        StepStatus::Cancelled => OrchestraStepStatus::Cancelled,
    }
}

#[derive(Clone, Copy, Debug, PartialEq, Eq, Structural)]
pub enum AutomationWorkflowInputKind {
    String,
    Number,
    Boolean,
    Object,
    Array,
    Json,
}

pub open spec fn input_kind_wire(k: InputKind) -> AutomationWorkflowInputKind {
    match k {
        InputKind::String => AutomationWorkflowInputKind::String,
        InputKind::Number => AutomationWorkflowInputKind::Number,
        InputKind::Boolean => AutomationWorkflowInputKind::Boolean,
        InputKind::Object => AutomationWorkflowInputKind::Object,
        InputKind::Array => AutomationWorkflowInputKind::Array,
        InputKind::Json => AutomationWorkflowInputKind::Json,
    }
}

pub fn project_automation_input_kind(kind: InputKind) -> (r: AutomationWorkflowInputKind)
    ensures
        r == input_kind_wire(kind),
{
    match kind {
        InputKind::String => AutomationWorkflowInputKind::String,
        InputKind::Number => AutomationWorkflowInputKind::Number,
        InputKind::Boolean => AutomationWorkflowInputKind::Boolean,
        InputKind::Object => AutomationWorkflowInputKind::Object,
        InputKind::Array => AutomationWorkflowInputKind::Array,
        InputKind::Json => AutomationWorkflowInputKind::Json,
    }
}

// ---- request parameters -------------------------------------------------

pub struct AutomationValidateParams {
    pub thread_id: String,
    pub profile_path: String,
    pub fixture_issue: AutomationIssue,
    pub attempt: Option<u32>,
}

pub struct AutomationRunFixtureParams {
    pub thread_id: String,
    pub profile_path: String,
    pub fixture_issue: AutomationIssue,
    pub attempt: Option<u32>,
}

pub struct AutomationStartParams {
    pub thread_id: String,
    pub profile_path: String,
}

#[derive(Clone, Copy, Debug, PartialEq, Eq, Structural)]
pub enum AutomationLinearReadKind {
    Candidates,
    Terminal,
    Refresh,
}

pub struct AutomationLinearReadParams {
    pub thread_id: String,
    pub profile_path: String,
    pub kind: AutomationLinearReadKind,
    pub after: Option<String>,
    pub first: Option<u32>,
    pub issue_identifier: Option<String>,
}

#[derive(Clone, Copy, Debug, PartialEq, Eq, Structural)]
pub enum AutomationLinearReadStatus {
    Ready,
    Skipped,
}

pub struct AutomationLinearReadResponse {
    pub status: AutomationLinearReadStatus,
    pub issues: Vec<AutomationIssue>,
    pub has_next_page: bool,
    pub end_cursor: Option<String>,
    pub next_action: OrchestraBoundedText,
}

pub struct AutomationRunParams {
    pub thread_id: String,
    pub run_id: String,
}

pub struct AutomationStatusParams {
    pub thread_id: String,
    pub run_id: String,
    pub focused_issue_id: Option<String>,
}

pub struct AutomationCancelIssueParams {
    pub thread_id: String,
    pub run_id: String,
    pub claim_id: String,
}

pub struct AutomationSteerIssueParams {
    pub thread_id: String,
    pub run_id: String,
    pub claim_id: String,
    pub input: String,
}

pub struct AutomationReconcileParams {
    pub thread_id: String,
    pub run_id: String,
    pub profile_path: String,
}

pub struct AutomationQueueReadParams {
    pub thread_id: String,
    pub run_id: String,
    pub category: AutomationQueueCategory,
    pub offset: Option<u32>,
    pub limit: Option<u32>,
}

pub struct OrchestraValidateParams {
    pub thread_id: String,
    pub workflow_path: String,
}

// ---- run projection -----------------------------------------------------

#[derive(Clone, Copy, Debug, PartialEq, Eq, Structural)]
pub enum AutomationSteeringStatus {
    Submitted,
    Delivered,
    Failed,
}

pub struct AutomationSteeringReceipt {
    pub sequence: u32,
    pub submitted_at_ms: u64,
    pub initiator_thread_id: String,
    pub target_thread_id: String,
    pub authority: String,
    pub input_sha256: String,
    pub input_preview: String,
    pub status: AutomationSteeringStatus,
    pub provider_receipt: Option<String>,
    pub failure: Option<String>,
}

pub struct AutomationQueueBlockerProjection {
    pub id: Option<OrchestraBoundedText>,
    pub identifier: Option<OrchestraBoundedText>,
    pub state: Option<OrchestraBoundedText>,
}

pub struct AutomationQueueItemProjection {
    pub issue_id: String,
    pub issue_identifier: String,
    pub issue_title: OrchestraBoundedText,
    pub state: String,
    pub priority: Option<i64>,
    pub claim_id: Option<String>,
    pub category: AutomationQueueCategory,
    pub next_action: OrchestraBoundedText,
    pub blocked_by: Vec<AutomationQueueBlockerProjection>,
}

pub struct AutomationQueueReadResponse {
    pub category: AutomationQueueCategory,
    pub total: u32,
    pub items: Vec<AutomationQueueItemProjection>,
    pub next_offset: Option<u32>,
}

#[derive(Clone, Copy, Debug, PartialEq, Eq, Structural)]
pub enum AutomationCoordinationIntakeStatus {
    NotStarted,
    Ready,
    Skipped,
}

#[derive(Clone, Copy, Debug, PartialEq, Eq, Structural)]
pub enum AutomationDispatchIntentKind {
    NewClaim,
    Retry,
    Continuation,
}

#[derive(Clone, Copy, Debug, PartialEq, Eq, Structural)]
pub enum AutomationDispatchIntentStatus {
    Pending,
    Started,
    Completed,
}

pub struct AutomationDispatchIntentProjection {
    pub intent_id: String,
    pub claim_id: String,
    pub issue_id: String,
    pub kind: AutomationDispatchIntentKind,
    pub status: AutomationDispatchIntentStatus,
    pub attempt: u32,
    pub profile_digest: String,
    pub created_at_ms: u64,
    pub ready_at_ms: Option<u64>,
}

pub struct AutomationCoordinationProjection {
    pub cycle: u64,
    pub scan_revision: u64,
    pub input_cursor: Option<String>,
    pub output_cursor: Option<String>,
    pub intake_status: AutomationCoordinationIntakeStatus,
    pub page_digest: Option<String>,
    pub started_at_ms: Option<u64>,
    pub completed_at_ms: Option<u64>,
    pub error: Option<OrchestraBoundedText>,
    pub next_action: OrchestraBoundedText,
    pub dispatch_intent: Option<AutomationDispatchIntentProjection>,
}

pub struct AutomationRetryScheduleProjection {
    pub kind: AutomationRetryKind,
    pub ready_at_ms: u64,
    pub reset_turn_window: bool,
}

pub struct AutomationHookReceiptProjection {
    pub kind: AutomationHookKind,
    pub invocation: u32,
    pub command_sha256: Option<String>,
    pub status: AutomationHookStatus,
    pub exit_code: Option<i32>,
    pub stdout_preview: OrchestraBoundedText,
    pub stderr_preview: OrchestraBoundedText,
    pub failure: Option<OrchestraBoundedText>,
}

pub struct AutomationCleanupProjection {
    pub status: AutomationCleanupStatus,
    pub attempts: u32,
    pub last_failure: Option<OrchestraBoundedText>,
}

pub struct AutomationEffectReceiptProjection {
    pub effect_id: String,
    pub idempotency_key: String,
    pub kind: AutomationEffect,
    pub status: AutomationEffectStatus,
    pub gate_policy: AutomationGatePolicy,
    pub request_sha256: String,
    pub body_preview: OrchestraBoundedText,
    pub provider_receipt: Option<String>,
    pub failure: Option<OrchestraBoundedText>,
}

pub struct AutomationIssueClaimProjection {
    pub claim_id: String,
    pub issue_id: String,
    pub issue_identifier: String,
    pub issue_title: OrchestraBoundedText,
    pub issue_url: Option<String>,
    pub tracker_state: String,
    pub priority: Option<i64>,
    pub attempt: u32,
    pub workflow_invocations: u32,
    pub turns_in_window: u32,
    pub continuation_count: u32,
    pub retry_attempt: u32,
    pub scheduled_retry: Option<AutomationRetryScheduleProjection>,
    pub last_progress_at_ms: Option<u64>,
    pub profile_digest: String,
    pub profile_revision: u64,
    pub status: AutomationClaimStatus,
    pub worktree: String,
    pub source_revision: String,
    pub issue_task: Option<OrchestraAgentReference>,
    pub workflow_run_id: Option<String>,
    pub workflow_status: Option<OrchestraRunStatus>,
    pub effects: Vec<AutomationEffectReceiptProjection>,
    pub latest_steering_receipt: Option<AutomationSteeringReceipt>,
    pub hook_receipts: Vec<AutomationHookReceiptProjection>,
    pub cleanup: AutomationCleanupProjection,
    pub next_action: OrchestraBoundedText,
}

pub struct AutomationRunProjection {
    pub schema_version: u32,
    pub run_id: String,
    pub owner_thread_id: String,
    pub source_revision: String,
    pub profile_digest: String,
    pub profile_revision: u64,
    pub profile_revision_status: AutomationProfileRevisionStatus,
    pub pending_profile_digest: Option<String>,
    pub rejected_profile_digest: Option<String>,
    pub profile_diagnostics: Vec<OrchestraBoundedText>,
    pub tracker_project_slug: String,
    pub lease_epoch: u64,
    pub revision: u64,
    pub status: AutomationRootStatus,
    pub reconciliation: AutomationReconciliationStatus,
    pub coordination: AutomationCoordinationProjection,
    pub queue_counts: AutomationQueueCounts,
    pub claims_total: u32,
    pub claims: Vec<AutomationIssueClaimProjection>,
    pub queue_preview: Vec<AutomationQueueItemProjection>,
    pub queue_preview_truncated: bool,
    pub next_action: OrchestraBoundedText,
}

pub struct AutomationRunResponse {
    pub run: AutomationRunProjection,
}

pub struct AutomationSteerIssueResponse {
    pub run: AutomationRunProjection,
    pub receipt: AutomationSteeringReceipt,
}


// ---- projection of durable Automation state ------------------------------

/// Largest number of queue entries in a run projection's preview.
pub const MAX_QUEUE_PREVIEW: usize = 8;

/// Largest number of claims in a run projection.
pub const MAX_PROJECTED_CLAIMS: usize = 25;

/// The durable queue entry on the wire: texts bounded; no blockers recorded.
pub open spec fn queue_item_projected(p: AutomationQueueItemProjection, i: AutomationQueueProjectionItem) -> bool {
    &&& p.issue_id == i.issue_id
    &&& p.issue_identifier == i.issue_identifier
    &&& bounded_projection(p.issue_title, i.issue_title@)
    &&& p.state == i.state
    &&& p.priority == i.priority
    &&& p.claim_id == i.claim_id
    &&& p.category == i.category
    &&& bounded_projection(p.next_action, i.next_action@)
    &&& p.blocked_by@.len() == 0
}

pub fn project_automation_queue_item(item: AutomationQueueProjectionItem) -> (r: AutomationQueueItemProjection)
    ensures
        queue_item_projected(r, item),
{
    AutomationQueueItemProjection {
        issue_id: item.issue_id,
        issue_identifier: item.issue_identifier,
        issue_title: automation_bounded_text(item.issue_title),
        state: item.state,
        priority: item.priority,
        claim_id: item.claim_id,
        category: item.category,
        next_action: automation_bounded_text(item.next_action),
        blocked_by: Vec::new(),
    }
}

pub open spec fn queue_items_projected(p: Seq<AutomationQueueItemProjection>, s: Seq<AutomationQueueProjectionItem>) -> bool {
    &&& p.len() == s.len()
    &&& forall|i: int| 0 <= i < s.len() ==> #[trigger] queue_item_projected(p[i], s[i])
}

fn project_queue_items(items: Vec<AutomationQueueProjectionItem>) -> (r: Vec<AutomationQueueItemProjection>)
    ensures
        queue_items_projected(r@, items@),
{
    let ghost all = items@;
    let mut rest = items;
    let mut out: Vec<AutomationQueueItemProjection> = Vec::new();
    while rest.len() > 0
        invariant
            out@.len() + rest@.len() == all.len(),
            rest@ == all.skip(out@.len() as int),
            forall|i: int| 0 <= i < out@.len() ==> #[trigger] queue_item_projected(out@[i], all[i]),
        decreases rest.len(),
    {
        let x = rest.remove(0);
        proof {
            assert(x == all[out@.len() as int]);
        }
        out.push(project_automation_queue_item(x));
        proof {
            assert(rest@ =~= all.skip(out@.len() as int));
        }
    }
    out
}

pub open spec fn texts_projected(p: Seq<OrchestraBoundedText>, s: Seq<String>) -> bool {
    &&& p.len() == s.len()
    &&& forall|i: int| 0 <= i < s.len() ==> #[trigger] bounded_projection(p[i], s[i]@)
}

fn project_texts(texts: Vec<String>) -> (r: Vec<OrchestraBoundedText>)
    ensures
        texts_projected(r@, texts@),
{
    let ghost all = texts@;
    let mut rest = texts;
    let mut out: Vec<OrchestraBoundedText> = Vec::new();
    while rest.len() > 0
        invariant
            out@.len() + rest@.len() == all.len(),
            rest@ == all.skip(out@.len() as int),
            forall|i: int| 0 <= i < out@.len() ==> #[trigger] bounded_projection(out@[i], all[i]@),
        decreases rest.len(),
    {
        let x = rest.remove(0);
        proof {
            assert(x == all[out@.len() as int]);
        }
        out.push(automation_bounded_text(x));
        proof {
            assert(rest@ =~= all.skip(out@.len() as int));
        }
    }
    out
}

pub open spec fn effect_projected(p: AutomationEffectReceiptProjection, e: AutomationEffectReceipt) -> bool {
    &&& p.effect_id == e.effect_id
    &&& p.idempotency_key == e.idempotency_key
    &&& p.kind == e.kind
    &&& p.status == e.status
    &&& p.gate_policy == e.gate_policy
    &&& p.request_sha256 == e.request_sha256
    &&& bounded_projection(p.body_preview, e.body_preview@)
    &&& p.provider_receipt == e.provider_receipt
    &&& optional_bounded(p.failure, e.failure)
}

fn project_effect(e: AutomationEffectReceipt) -> (r: AutomationEffectReceiptProjection)
    ensures
        effect_projected(r, e),
{
    AutomationEffectReceiptProjection {
        effect_id: e.effect_id,
        idempotency_key: e.idempotency_key,
        kind: e.kind,
        status: e.status,
        gate_policy: e.gate_policy,
        request_sha256: e.request_sha256,
        body_preview: automation_bounded_text(e.body_preview),
        provider_receipt: e.provider_receipt,
        failure: optional_bounded_text(e.failure),
    }
}

pub open spec fn effects_projected(p: Seq<AutomationEffectReceiptProjection>, s: Seq<AutomationEffectReceipt>) -> bool {
    &&& p.len() == s.len()
    &&& forall|i: int| 0 <= i < s.len() ==> #[trigger] effect_projected(p[i], s[i])
}

fn project_effects(effects: Vec<AutomationEffectReceipt>) -> (r: Vec<AutomationEffectReceiptProjection>)
    ensures
        effects_projected(r@, effects@),
{
    let ghost all = effects@;
    let mut rest = effects;
    let mut out: Vec<AutomationEffectReceiptProjection> = Vec::new();
    while rest.len() > 0
        invariant
            out@.len() + rest@.len() == all.len(),
            rest@ == all.skip(out@.len() as int),
            forall|i: int| 0 <= i < out@.len() ==> #[trigger] effect_projected(out@[i], all[i]),
        decreases rest.len(),
    {
        let x = rest.remove(0);
        proof {
            assert(x == all[out@.len() as int]);
        }
        out.push(project_effect(x));
        proof {
            assert(rest@ =~= all.skip(out@.len() as int));
        }
    }
    out
}

pub open spec fn hook_projected(p: AutomationHookReceiptProjection, h: AutomationHookReceipt) -> bool {
    &&& p.kind == h.kind
    &&& p.invocation == h.invocation
    &&& p.command_sha256 == h.command_sha256
    &&& p.status == h.status
    &&& p.exit_code == h.exit_code
    &&& bounded_projection(p.stdout_preview, h.stdout_preview@)
    &&& bounded_projection(p.stderr_preview, h.stderr_preview@)
    &&& optional_bounded(p.failure, h.failure)
}

fn project_hook(h: AutomationHookReceipt) -> (r: AutomationHookReceiptProjection)
    ensures
        hook_projected(r, h),
{
    AutomationHookReceiptProjection {
        kind: h.kind,
        invocation: h.invocation,
        command_sha256: h.command_sha256,
        status: h.status,
        exit_code: h.exit_code,
        stdout_preview: automation_bounded_text(h.stdout_preview),
        stderr_preview: automation_bounded_text(h.stderr_preview),
        failure: optional_bounded_text(h.failure),
    }
}

pub open spec fn hooks_projected(p: Seq<AutomationHookReceiptProjection>, s: Seq<AutomationHookReceipt>) -> bool {
    &&& p.len() == s.len()
    &&& forall|i: int| 0 <= i < s.len() ==> #[trigger] hook_projected(p[i], s[i])
}

fn project_hooks(hooks: Vec<AutomationHookReceipt>) -> (r: Vec<AutomationHookReceiptProjection>)
    ensures
        hooks_projected(r@, hooks@),
{
    let ghost all = hooks@;
    let mut rest = hooks;
    let mut out: Vec<AutomationHookReceiptProjection> = Vec::new();
    while rest.len() > 0
        invariant
            out@.len() + rest@.len() == all.len(),
            rest@ == all.skip(out@.len() as int),
            forall|i: int| 0 <= i < out@.len() ==> #[trigger] hook_projected(out@[i], all[i]),
        decreases rest.len(),
    {
        let x = rest.remove(0);
        proof {
            assert(x == all[out@.len() as int]);
        }
        out.push(project_hook(x));
        proof {
            assert(rest@ =~= all.skip(out@.len() as int));
        }
    }
    out
}

pub open spec fn agent_projected(p: Option<OrchestraAgentReference>, a: Option<AgentHandle>) -> bool {
    match (p, a) {
        (Some(p), Some(a)) => p.thread_id == a.thread_id && p.task_path == a.task_path,
        (None, None) => true,
        _ => false,
    }
}

/// A claim on the wire: its identity, counters, retry schedule, receipts and
/// cleanup, texts bounded. No tracker URL and no steering receipt are recorded.
pub open spec fn claim_projected(p: AutomationIssueClaimProjection, c: AutomationIssueClaim) -> bool {
    &&& p.claim_id == c.claim_id
    &&& p.issue_id == c.issue_id
    &&& p.issue_identifier == c.issue_identifier
    &&& bounded_projection(p.issue_title, c.issue_title@)
    &&& p.issue_url is None
    &&& p.tracker_state == c.tracker_state
    &&& p.priority == c.priority
    &&& p.attempt == c.attempt
    &&& p.workflow_invocations == c.workflow_invocations
    &&& p.turns_in_window == c.turns_in_window
    &&& p.continuation_count == c.continuation_count
    &&& p.retry_attempt == c.retry_attempt
    &&& (match (p.scheduled_retry, c.retry) {
        (Some(s), Some(r)) => s.kind == r.kind && s.ready_at_ms == r.ready_at_ms && s.reset_turn_window == r.reset_turn_window,
        (None, None) => true,
        _ => false,
    })
    &&& p.last_progress_at_ms == c.last_progress_at_ms
    &&& p.profile_digest == c.profile_digest
    &&& p.profile_revision == c.profile_revision
    &&& p.status == c.status
    &&& p.worktree == c.worktree
    &&& p.source_revision == c.source_revision
    &&& agent_projected(p.issue_task, c.issue_task)
    &&& p.workflow_run_id == c.workflow_run_id
    &&& (match (p.workflow_status, c.workflow_status) {
        (Some(w), Some(s)) => w == run_status_wire(s),
        (None, None) => true,
        _ => false,
    })
    &&& effects_projected(p.effects@, c.effects@)
    &&& p.latest_steering_receipt is None
    &&& hooks_projected(p.hook_receipts@, c.hook_receipts@)
    &&& p.cleanup.status == c.cleanup.status
    &&& p.cleanup.attempts == c.cleanup.attempts
    &&& optional_bounded(p.cleanup.last_failure, c.cleanup.last_failure)
    &&& bounded_projection(p.next_action, c.next_action@)
}

fn project_claim(c: AutomationIssueClaim) -> (r: AutomationIssueClaimProjection)
    ensures
        claim_projected(r, c),
{
    let scheduled_retry = match c.retry {
        Some(retry) => Some(AutomationRetryScheduleProjection {
            kind: retry.kind,
            ready_at_ms: retry.ready_at_ms,
            reset_turn_window: retry.reset_turn_window,
        }),
        None => None,
    };
    let issue_task = match c.issue_task {
        Some(task) => Some(OrchestraAgentReference { thread_id: task.thread_id, task_path: task.task_path }),
        None => None,
    };
    let workflow_status = match c.workflow_status {
        Some(s) => Some(project_run_status(s)),
        None => None,
    };
    AutomationIssueClaimProjection {
        claim_id: c.claim_id,
        issue_id: c.issue_id,
        issue_identifier: c.issue_identifier,
        issue_title: automation_bounded_text(c.issue_title),
        issue_url: None,
        tracker_state: c.tracker_state,
        priority: c.priority,
        attempt: c.attempt,
        workflow_invocations: c.workflow_invocations,
        turns_in_window: c.turns_in_window,
        continuation_count: c.continuation_count,
        retry_attempt: c.retry_attempt,
        scheduled_retry,
        last_progress_at_ms: c.last_progress_at_ms,
        profile_digest: c.profile_digest,
        profile_revision: c.profile_revision,
        status: c.status,
        worktree: c.worktree,
        source_revision: c.source_revision,
        issue_task,
        workflow_run_id: c.workflow_run_id,
        workflow_status,
        effects: project_effects(c.effects),
        latest_steering_receipt: None,
        hook_receipts: project_hooks(c.hook_receipts),
        cleanup: AutomationCleanupProjection {
            status: c.cleanup.status,
            attempts: c.cleanup.attempts,
            last_failure: optional_bounded_text(c.cleanup.last_failure),
        },
        next_action: automation_bounded_text(c.next_action),
    }
}

pub open spec fn claims_projected(p: Seq<AutomationIssueClaimProjection>, s: Seq<AutomationIssueClaim>) -> bool {
    &&& p.len() == s.len()
    &&& forall|i: int| 0 <= i < s.len() ==> #[trigger] claim_projected(p[i], s[i])
}

fn project_claims(claims: Vec<AutomationIssueClaim>) -> (r: Vec<AutomationIssueClaimProjection>)
    ensures
        claims_projected(r@, claims@),
{
    let ghost all = claims@;
    let mut rest = claims;
    let mut out: Vec<AutomationIssueClaimProjection> = Vec::new();
    while rest.len() > 0
        invariant
            out@.len() + rest@.len() == all.len(),
            rest@ == all.skip(out@.len() as int),
            forall|i: int| 0 <= i < out@.len() ==> #[trigger] claim_projected(out@[i], all[i]),
        decreases rest.len(),
    {
        let x = rest.remove(0);
        proof {
            assert(x == all[out@.len() as int]);
        }
        out.push(project_claim(x));
        proof {
            assert(rest@ =~= all.skip(out@.len() as int));
        }
    }
    out
}


/// The claim a status read asks to see, by claim or by tracker issue.
pub enum AutomationClaimFocus {
    ClaimId(String),
    IssueId(String),
}

pub open spec fn focus_matches(c: AutomationIssueClaim, focus: AutomationClaimFocus) -> bool {
    match focus {
        AutomationClaimFocus::ClaimId(id) => c.claim_id@ == id@,
        AutomationClaimFocus::IssueId(id) => c.issue_id@ == id@,
    }
}

/// `f` is the first claim that the focus selects.
pub open spec fn is_first_focus(s: Seq<AutomationIssueClaim>, focus: AutomationClaimFocus, f: int) -> bool {
    &&& 0 <= f < s.len()
    &&& focus_matches(s[f], focus)
    &&& forall|j: int| 0 <= j < f ==> !focus_matches(#[trigger] s[j], focus)
}

pub open spec fn take_at_most(s: Seq<AutomationIssueClaim>, n: int) -> Seq<AutomationIssueClaim> {
    if s.len() <= n { s } else { s.take(n) }
}

/// The claims a run projection shows, in order: the first claims by key, and
/// the focused claim, when there is one, moved to the end so that it is always shown.
pub open spec fn shown_claims(s: Seq<AutomationIssueClaim>, focus: Option<AutomationClaimFocus>) -> Seq<AutomationIssueClaim> {
    match focus {
        Some(x) => if exists|f: int| is_first_focus(s, x, f) {
            let f = choose|f: int| is_first_focus(s, x, f);
            take_at_most(s.remove(f), MAX_PROJECTED_CLAIMS - 1).push(s[f])
        } else {
            take_at_most(s, MAX_PROJECTED_CLAIMS as int)
        },
        None => take_at_most(s, MAX_PROJECTED_CLAIMS as int),
    }
}

fn focus_matches_exec(c: &AutomationIssueClaim, focus: &AutomationClaimFocus) -> (r: bool)
    ensures
        r == focus_matches(*c, *focus),
{
    match focus {
        AutomationClaimFocus::ClaimId(id) => str_eq(c.claim_id.as_str(), id.as_str()),
        AutomationClaimFocus::IssueId(id) => str_eq(c.issue_id.as_str(), id.as_str()),
    }
}

fn find_focus(claims: &Vec<AutomationIssueClaim>, focus: &AutomationClaimFocus) -> (r: Option<usize>)
    ensures
        r matches Some(f) ==> is_first_focus(claims@, *focus, f as int),
        r is None ==> forall|j: int| 0 <= j < claims@.len() ==> !focus_matches(#[trigger] claims@[j], *focus),
{
    let mut i: usize = 0;
    while i < claims.len()
        invariant
            i <= claims@.len(),
            forall|j: int| 0 <= j < i ==> !focus_matches(#[trigger] claims@[j], *focus),
        decreases claims.len() - i,
    {
        if focus_matches_exec(&claims[i], focus) {
            return Some(i);
        }
        i = i + 1;
    }
    None
}

/// The queue categories in the order a preview walks them.
pub open spec fn preview_category(k: int) -> AutomationQueueCategory {
    if k == 0 {
        AutomationQueueCategory::Queued
    } else if k == 1 {
        AutomationQueueCategory::Running
    } else if k == 2 {
        AutomationQueueCategory::Blocked
    } else if k == 3 {
        AutomationQueueCategory::WaitingGate
    } else if k == 4 {
        AutomationQueueCategory::Handoff
    } else {
        AutomationQueueCategory::Terminal
    }
}

fn preview_category_at(k: usize) -> (r: AutomationQueueCategory)
    ensures
        r == preview_category(k as int),
{
    if k == 0 {
        AutomationQueueCategory::Queued
    } else if k == 1 {
        AutomationQueueCategory::Running
    } else if k == 2 {
        AutomationQueueCategory::Blocked
    } else if k == 3 {
        AutomationQueueCategory::WaitingGate
    } else if k == 4 {
        AutomationQueueCategory::Handoff
    } else {
        AutomationQueueCategory::Terminal
    }
}

/// The ordered entries of the first `k` categories, one after the other.
pub open spec fn preview_entries(ck: AutomationRootCheckpoint, k: nat) -> Seq<AutomationQueueProjectionItem>
    decreases k,
{
    if k == 0 {
        Seq::empty()
    } else {
        preview_entries(ck, (k - 1) as nat) + stable_sorted(page_entries(ck, preview_category(k - 1)))
    }
}

pub open spec fn preview_take(s: Seq<AutomationQueueProjectionItem>) -> Seq<AutomationQueueProjectionItem> {
    if s.len() <= MAX_QUEUE_PREVIEW { s } else { s.take(MAX_QUEUE_PREVIEW as int) }
}

/// A run with no coordination cycle on record: nothing scanned, nothing dispatched.
pub open spec fn coordination_not_started(c: AutomationCoordinationProjection, next_action: Seq<char>) -> bool {
    &&& c.cycle == 0
    &&& c.scan_revision == 0
    &&& c.input_cursor is None
    &&& c.output_cursor is None
    &&& c.intake_status == AutomationCoordinationIntakeStatus::NotStarted
    &&& c.page_digest is None
    &&& c.started_at_ms is None
    &&& c.completed_at_ms is None
    &&& c.error is None
    &&& bounded_projection(c.next_action, next_action)
    &&& c.dispatch_intent is None
}

fn queue_preview(checkpoint: &AutomationRootCheckpoint) -> (r: Vec<AutomationQueueProjectionItem>)
    requires
        checkpoint.queue@.len() + checkpoint.claims@.len() <= u32::MAX,
    ensures
        r@ == preview_take(preview_entries(*checkpoint, 6)),
{
    let mut items: Vec<AutomationQueueProjectionItem> = Vec::new();
    let mut k: usize = 0;
    while k < 6
        invariant
            k <= 6,
            checkpoint.queue@.len() + checkpoint.claims@.len() <= u32::MAX,
            items@ == preview_take(preview_entries(*checkpoint, k as nat)),
        decreases 6 - k,
    {
        let ghost before = preview_entries(*checkpoint, k as nat);
        let ghost sorted = stable_sorted(page_entries(*checkpoint, preview_category(k as int)));
        proof {
            assert(preview_entries(*checkpoint, (k + 1) as nat) == before + sorted);
        }
        if items.len() < MAX_QUEUE_PREVIEW {
            let remaining = MAX_QUEUE_PREVIEW - items.len();
            let page = automation_queue_page(checkpoint, preview_category_at(k), 0, remaining as u32);
            let mut page_items = page.items;
            proof {
                assert(items@ == before);
                if sorted.len() <= remaining {
                    assert(page_items@ =~= sorted);
                } else {
                    assert(page_items@ =~= sorted.take(remaining as int));
                    assert((before + sorted).take(MAX_QUEUE_PREVIEW as int) =~= before + sorted.take(remaining as int));
                }
            }
            items.append(&mut page_items);
        } else {
            proof {
                assert((before + sorted).take(MAX_QUEUE_PREVIEW as int) =~= before.take(MAX_QUEUE_PREVIEW as int));
            }
        }
        k = k + 1;
    }
    items
}

/// The bounded wire view of a run checkpoint: its identity and status, the queue
/// counts, the first claims by key (with the focused claim, if any, always
/// shown last), and a preview of the first queue entries across categories.
pub fn project_automation_run(checkpoint: AutomationRootCheckpoint, focus: Option<AutomationClaimFocus>) -> (r: AutomationRunProjection)
    requires
        checkpoint.queue@.len() + checkpoint.claims@.len() <= u32::MAX,
    ensures
        r.schema_version == checkpoint.schema_version,
        r.run_id == checkpoint.run_id,
        r.owner_thread_id == checkpoint.owner_thread_id,
        r.source_revision == checkpoint.source_revision,
        r.profile_digest == checkpoint.profile_digest,
        r.profile_revision == checkpoint.profile_revision.revision,
        r.profile_revision_status == checkpoint.profile_revision.status,
        r.pending_profile_digest == checkpoint.profile_revision.pending_digest,
        r.rejected_profile_digest == checkpoint.profile_revision.rejected_digest,
        texts_projected(r.profile_diagnostics@, checkpoint.profile_revision.diagnostics@),
        r.tracker_project_slug == checkpoint.tracker_project_slug,
        r.lease_epoch == checkpoint.lease_epoch,
        r.revision == checkpoint.revision,
        r.status == checkpoint.status,
        r.reconciliation == checkpoint.reconciliation,
        coordination_not_started(r.coordination, checkpoint.next_action@),
        counts_as_tuple(r.queue_counts) == counts_spec(checkpoint),
        r.claims_total == checkpoint.claims@.len(),
        claims_projected(r.claims@, shown_claims(checkpoint.claims@, focus)),
        queue_items_projected(r.queue_preview@, preview_take(preview_entries(checkpoint, 6))),
        r.queue_preview_truncated == (checkpoint.queue@.len() + checkpoint.claims@.len() > r.queue_preview@.len()),
        bounded_projection(r.next_action, checkpoint.next_action@),
{
    let queue_counts = automation_queue_counts(&checkpoint);
    proof {
        lemma_counts_total(checkpoint);
    }
    let queue_total: u32 = queue_counts.queued + queue_counts.running + queue_counts.blocked
        + queue_counts.waiting_gate + queue_counts.handoff + queue_counts.terminal;
    let claims_total = checkpoint.claims.len() as u32;
    let preview = project_queue_items(queue_preview(&checkpoint));
    let queue_preview_truncated = queue_total as usize > preview.len();
    let ghost all_claims = checkpoint.claims@;
    let mut claims = checkpoint.claims;
    let found = match &focus {
        Some(f) => find_focus(&claims, f),
        None => None,
    };
    let shown = match found {
        Some(f) => {
            let focused = claims.remove(f);
            claims.truncate(MAX_PROJECTED_CLAIMS - 1);
            claims.push(focused);
            proof {
                let x = focus->0;
                let c = choose|c: int| is_first_focus(all_claims, x, c);
                assert(is_first_focus(all_claims, x, f as int));
                assert(c == f) by {
                    if c < f {
                        assert(!focus_matches(all_claims[c], x));
                    } else if f < c {
                        assert(!focus_matches(all_claims[f as int], x));
                    }
                }
                assert(claims@ =~= shown_claims(all_claims, focus));
            }
            claims
        },
        None => {
            claims.truncate(MAX_PROJECTED_CLAIMS);
            proof {
                if focus is Some {
                    let x = focus->0;
                    assert(!exists|c: int| is_first_focus(all_claims, x, c));
                }
                assert(claims@ =~= shown_claims(all_claims, focus));
            }
            claims
        },
    };
    let next_action_text = checkpoint.next_action;
    let coordination_next = automation_bounded_text(next_action_text.clone());
    AutomationRunProjection {
        schema_version: checkpoint.schema_version,
        run_id: checkpoint.run_id,
        owner_thread_id: checkpoint.owner_thread_id,
        source_revision: checkpoint.source_revision,
        profile_digest: checkpoint.profile_digest,
        profile_revision: checkpoint.profile_revision.revision,
        profile_revision_status: checkpoint.profile_revision.status,
        pending_profile_digest: checkpoint.profile_revision.pending_digest,
        rejected_profile_digest: checkpoint.profile_revision.rejected_digest,
        profile_diagnostics: project_texts(checkpoint.profile_revision.diagnostics),
        tracker_project_slug: checkpoint.tracker_project_slug,
        lease_epoch: checkpoint.lease_epoch,
        revision: checkpoint.revision,
        status: checkpoint.status,
        reconciliation: checkpoint.reconciliation,
        coordination: AutomationCoordinationProjection {
            cycle: 0,
            scan_revision: 0,
            input_cursor: None,
            output_cursor: None,
            intake_status: AutomationCoordinationIntakeStatus::NotStarted,
            page_digest: None,
            started_at_ms: None,
            completed_at_ms: None,
            error: None,
            next_action: coordination_next,
            dispatch_intent: None,
        },
        queue_counts,
        claims_total,
        claims: project_claims(shown),
        queue_preview: preview,
        queue_preview_truncated,
        next_action: automation_bounded_text(next_action_text),
    }
}


/// A run projection shows at most 25 claims and at most 8 queue entries, and a
/// claim that the focus selects is always among those shown.
pub proof fn lemma_run_projection_bounded(
    claims: Seq<AutomationIssueClaim>,
    focus: Option<AutomationClaimFocus>,
    entries: Seq<AutomationQueueProjectionItem>,
)
    ensures
        shown_claims(claims, focus).len() <= MAX_PROJECTED_CLAIMS,
        preview_take(entries).len() <= MAX_QUEUE_PREVIEW,
        forall|f: int| #[trigger] is_first_focus(claims, focus->0, f) && focus is Some
            ==> shown_claims(claims, focus).contains(claims[f]),
{
    assert forall|f: int| #[trigger] is_first_focus(claims, focus->0, f) && focus is Some
        implies shown_claims(claims, focus).contains(claims[f]) by {
        let x = focus->0;
        let c = choose|c: int| is_first_focus(claims, x, c);
        assert(c == f) by {
            if c < f {
                assert(!focus_matches(claims[c], x));
            } else if f < c {
                assert(!focus_matches(claims[f], x));
            }
        }
        let shown = shown_claims(claims, focus);
        assert(shown[shown.len() - 1] == claims[f]);
    }
}

} // verus!
