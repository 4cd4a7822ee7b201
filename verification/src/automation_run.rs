//! The durable state of a resident Automation Root Run: its claims, queue, tracker
//! effect receipts and hook receipts.
use crate::automation::AutomationEffect;
use crate::order::text_order;
use crate::plan::AgentHandle;
use crate::plan::RunStatus;
use vstd::prelude::*;

verus! {

#[derive(Clone, Copy, Debug, PartialEq, Eq, Structural)]
pub enum AutomationRootStatus {
    Running,
    Suspended,
    Cancelled,
    Failed,
}

#[derive(Clone, Copy, Debug, PartialEq, Eq, Structural)]
pub enum AutomationReconciliationStatus {
    Complete,
    Required,
    InProgress,
    Blocked,
}

#[derive(Clone, Copy, Debug, PartialEq, Eq, Structural)]
pub enum AutomationClaimStatus {
    Claimed,
    Running,
    Completed,
    Suspended,
    Cancelled,
    Failed,
}

#[derive(Clone, Copy, Debug, PartialEq, Eq, Structural)]
pub enum AutomationRetryKind {
    Retry,
    Continuation,
}

#[derive(Clone, Debug)]
pub struct AutomationRetrySchedule {
    pub kind: AutomationRetryKind,
    pub attempt: u32,
    pub delay_ms: u64,
    pub ready_at_ms: u64,
    pub reset_turn_window: bool,
    pub reason: String,
}

impl AutomationRetrySchedule {
    pub fn duplicate(&self) -> (r: AutomationRetrySchedule)
        ensures
            r == *self,
    {
        AutomationRetrySchedule {
            kind: self.kind,
            attempt: self.attempt,
            delay_ms: self.delay_ms,
            ready_at_ms: self.ready_at_ms,
            reset_turn_window: self.reset_turn_window,
            reason: self.reason.clone(),
        }
    }
}

#[derive(Clone, Copy, Debug, PartialEq, Eq, Structural)]
pub enum AutomationClaimLiveness {
    Active,
    WaitingGate,
    WaitingRetry,
    Stalled,
    Handoff,
    Terminal,
}

#[derive(Clone, Copy, Debug, PartialEq, Eq, Structural)]
pub enum AutomationProfileRevisionStatus {
    Active,
    PendingValid,
    Rejected,
}

#[derive(Clone, Debug)]
pub struct AutomationProfileRevision {
    pub revision: u64,
    pub status: AutomationProfileRevisionStatus,
    pub pending_digest: Option<String>,
    pub rejected_digest: Option<String>,
    pub diagnostics: Vec<String>,
}

impl AutomationProfileRevision {
    /// Revision 1, active, with nothing pending or rejected.
    pub fn initial() -> (r: AutomationProfileRevision)
        ensures
            r.revision == 1,
            r.status == AutomationProfileRevisionStatus::Active,
            r.pending_digest is None,
            r.rejected_digest is None,
            r.diagnostics@.len() == 0,
    {
        AutomationProfileRevision {
            revision: 1,
            status: AutomationProfileRevisionStatus::Active,
            pending_digest: None,
            rejected_digest: None,
            diagnostics: Vec::new(),
        }
    }
}

#[derive(Clone, Copy, Debug, PartialEq, Eq, Structural)]
pub enum AutomationQueueStatus {
    Queued,
    Blocked,
    Terminal,
}

#[derive(Clone, Copy, Debug, PartialEq, Eq, Structural)]
pub enum AutomationQueueCategory {
    Queued,
    Running,
    Blocked,
    WaitingGate,
    Handoff,
    Terminal,
}

#[derive(Clone, Debug)]
pub struct AutomationQueueItem {
    pub issue_id: String,
    pub issue_identifier: String,
    pub issue_title: String,
    pub state: String,
    pub priority: Option<i64>,
    pub status: AutomationQueueStatus,
    pub reason: String,
}

pub struct AutomationQueueProjectionItem {
    pub issue_id: String,
    pub issue_identifier: String,
    pub issue_title: String,
    pub state: String,
    pub priority: Option<i64>,
    pub claim_id: Option<String>,
    pub category: AutomationQueueCategory,
    pub next_action: String,
}

pub struct AutomationQueuePage {
    pub category: AutomationQueueCategory,
    pub total: u32,
    pub items: Vec<AutomationQueueProjectionItem>,
    pub next_offset: Option<u32>,
}

#[derive(Clone, Copy, Debug, PartialEq, Eq, Structural)]
pub struct AutomationQueueCounts {
    pub queued: u32,
    pub running: u32,
    pub blocked: u32,
    pub waiting_gate: u32,
    pub handoff: u32,
    pub terminal: u32,
}

pub struct AutomationCoordinationResult {
    pub dispatched_claim_ids: Vec<String>,
    pub counts: AutomationQueueCounts,
}

#[derive(Clone, Debug)]
pub struct AutomationIssueClaim {
    pub claim_id: String,
    pub issue_id: String,
    pub issue_identifier: String,
    pub issue_title: String,
    pub tracker_state: String,
    pub priority: Option<i64>,
    pub attempt: u32,
    pub profile_digest: String,
    pub profile_revision: u64,
    pub task_prompt: String,
    pub workflow_invocations: u32,
    pub turns_in_window: u32,
    pub continuation_count: u32,
    pub retry_attempt: u32,
    pub last_progress_at_ms: Option<u64>,
    pub retry: Option<AutomationRetrySchedule>,
    pub status: AutomationClaimStatus,
    pub worktree: String,
    pub source_revision: String,
    pub issue_task: Option<AgentHandle>,
    pub workflow_run_id: Option<String>,
    pub workflow_status: Option<RunStatus>,
    pub effects: Vec<AutomationEffectReceipt>,
    pub hook_receipts: Vec<AutomationHookReceipt>,
    pub cleanup: AutomationCleanupState,
    pub next_action: String,
}

#[derive(Clone, Copy, Debug, PartialEq, Eq, Structural)]
pub enum AutomationHookKind {
    AfterCreate,
    BeforeRun,
    AfterRun,
    BeforeRemove,
}

#[derive(Clone, Copy, Debug, PartialEq, Eq, Structural)]
pub enum AutomationHookStatus {
    Succeeded,
    Failed,
    Skipped,
}

#[derive(Clone, Debug)]
pub struct AutomationHookReceipt {
    pub kind: AutomationHookKind,
    pub invocation: u32,
    pub command_sha256: Option<String>,
    pub status: AutomationHookStatus,
    pub exit_code: Option<i32>,
    pub stdout_preview: String,
    pub stderr_preview: String,
    pub failure: Option<String>,
}

#[derive(Clone, Copy, Debug, PartialEq, Eq, Structural)]
pub enum AutomationCleanupStatus {
    Retained,
    Eligible,
    RetryPending,
    Removed,
}

#[derive(Clone, Debug)]
pub struct AutomationCleanupState {
    pub status: AutomationCleanupStatus,
    pub attempts: u32,
    pub last_failure: Option<String>,
}

impl AutomationCleanupState {
    /// Retained, never attempted.
    pub fn retained() -> (r: AutomationCleanupState)
        ensures
            r.status == AutomationCleanupStatus::Retained,
            r.attempts == 0,
            r.last_failure is None,
    {
        AutomationCleanupState { status: AutomationCleanupStatus::Retained, attempts: 0, last_failure: None }
    }
}

#[derive(Clone, Copy, Debug, PartialEq, Eq, Structural)]
pub enum AutomationGatePolicy {
    AutoAccept,
    AutoReject,
    AskHuman,
}

#[derive(Clone, Copy, Debug, PartialEq, Eq, Structural)]
pub enum AutomationEffectStatus {
    WaitingGate,
    Rejected,
    Executing,
    Committed,
    Failed,
    Ambiguous,
}

#[derive(Clone, Debug)]
pub struct AutomationEffectReceipt {
    pub effect_id: String,
    pub idempotency_key: String,
    pub kind: AutomationEffect,
    pub claim_id: String,
    pub tracker_project_slug: String,
    pub issue_id: String,
    pub request_sha256: String,
    pub body_preview: String,
    pub gate_policy: AutomationGatePolicy,
    pub status: AutomationEffectStatus,
    pub provider_receipt: Option<String>,
    pub failure: Option<String>,
}

pub fn copy_optional_text(value: &Option<String>) -> (r: Option<String>)
    ensures
        r == *value,
{
    match value {
        Some(s) => Some(s.clone()),
        None => None,
    }
}

impl AutomationEffectReceipt {
    pub fn duplicate(&self) -> (r: AutomationEffectReceipt)
        ensures
            r == *self,
    {
        AutomationEffectReceipt {
            effect_id: self.effect_id.clone(),
            idempotency_key: self.idempotency_key.clone(),
            kind: self.kind,
            claim_id: self.claim_id.clone(),
            tracker_project_slug: self.tracker_project_slug.clone(),
            issue_id: self.issue_id.clone(),
            request_sha256: self.request_sha256.clone(),
            body_preview: self.body_preview.clone(),
            gate_policy: self.gate_policy,
            status: self.status,
            provider_receipt: copy_optional_text(&self.provider_receipt),
            failure: copy_optional_text(&self.failure),
        }
    }
}

impl AutomationHookReceipt {
    pub fn duplicate(&self) -> (r: AutomationHookReceipt)
        ensures
            r == *self,
    {
        AutomationHookReceipt {
            kind: self.kind,
            invocation: self.invocation,
            command_sha256: copy_optional_text(&self.command_sha256),
            status: self.status,
            exit_code: self.exit_code,
            stdout_preview: self.stdout_preview.clone(),
            stderr_preview: self.stderr_preview.clone(),
            failure: copy_optional_text(&self.failure),
        }
    }
}

/// `a` holds what `b` holds: every field equal, the receipt lists element by element.
pub open spec fn same_claim(a: AutomationIssueClaim, b: AutomationIssueClaim) -> bool {
    &&& a == (AutomationIssueClaim { effects: a.effects, hook_receipts: a.hook_receipts, ..b })
    &&& a.effects@ == b.effects@
    &&& a.hook_receipts@ == b.hook_receipts@
}

impl AutomationIssueClaim {
    /// A field-for-field copy of the claim.
    pub fn duplicate(&self) -> (r: AutomationIssueClaim)
        ensures
            same_claim(r, *self),
    {
        let mut effects: Vec<AutomationEffectReceipt> = Vec::new();
        let mut i: usize = 0;
        while i < self.effects.len()
            invariant
                i <= self.effects@.len(),
                effects@ == self.effects@.take(i as int),
            decreases self.effects.len() - i,
        {
            effects.push(self.effects[i].duplicate());
            proof {
                assert(effects@ =~= self.effects@.take(i + 1));
            }
            i = i + 1;
        }
        let mut hooks: Vec<AutomationHookReceipt> = Vec::new();
        let mut j: usize = 0;
        while j < self.hook_receipts.len()
            invariant
                j <= self.hook_receipts@.len(),
                hooks@ == self.hook_receipts@.take(j as int),
            decreases self.hook_receipts.len() - j,
        {
            hooks.push(self.hook_receipts[j].duplicate());
            proof {
                assert(hooks@ =~= self.hook_receipts@.take(j + 1));
            }
            j = j + 1;
        }
        proof {
            assert(self.effects@.take(self.effects@.len() as int) =~= self.effects@);
            assert(self.hook_receipts@.take(self.hook_receipts@.len() as int) =~= self.hook_receipts@);
        }
        let r = AutomationIssueClaim {
            claim_id: self.claim_id.clone(),
            issue_id: self.issue_id.clone(),
            issue_identifier: self.issue_identifier.clone(),
            issue_title: self.issue_title.clone(),
            tracker_state: self.tracker_state.clone(),
            priority: self.priority,
            attempt: self.attempt,
            profile_digest: self.profile_digest.clone(),
            profile_revision: self.profile_revision,
            task_prompt: self.task_prompt.clone(),
            workflow_invocations: self.workflow_invocations,
            turns_in_window: self.turns_in_window,
            continuation_count: self.continuation_count,
            retry_attempt: self.retry_attempt,
            last_progress_at_ms: self.last_progress_at_ms,
            retry: match &self.retry {
                Some(retry) => Some(retry.duplicate()),
                None => None,
            },
            status: self.status,
            worktree: self.worktree.clone(),
            source_revision: self.source_revision.clone(),
            issue_task: match &self.issue_task {
                Some(h) => Some(AgentHandle {
                    thread_id: h.thread_id.clone(),
                    task_path: h.task_path.clone(),
                    parent_thread_id: h.parent_thread_id.clone(),
                }),
                None => None,
            },
            workflow_run_id: copy_optional_text(&self.workflow_run_id),
            workflow_status: self.workflow_status,
            effects,
            hook_receipts: hooks,
            cleanup: AutomationCleanupState {
                status: self.cleanup.status,
                attempts: self.cleanup.attempts,
                last_failure: copy_optional_text(&self.cleanup.last_failure),
            },
            next_action: self.next_action.clone(),
        };
        proof {
            assert(r.effects@ =~= self.effects@);
            assert(r.hook_receipts@ =~= self.hook_receipts@);
        }
        r
    }
}

pub struct AutomationTrackerCommentRequest {
    pub effect_id: String,
    pub idempotency_key: String,
    pub claim_id: String,
    pub tracker_project_slug: String,
    pub issue_id: String,
    pub body: String,
}

pub struct AutomationTrackerTransitionRequest {
    pub effect_id: String,
    pub idempotency_key: String,
    pub claim_id: String,
    pub tracker_project_slug: String,
    pub issue_id: String,
    pub expected_state: String,
    pub target_state: String,
}

pub struct AutomationTrackerPullRequestLinkRequest {
    pub effect_id: String,
    pub idempotency_key: String,
    pub claim_id: String,
    pub tracker_project_slug: String,
    pub issue_id: String,
    pub pull_request_url: String,
}

/// What the tracker provider answered to one executing effect.
pub enum AutomationEffectExecution {
    Committed { provider_receipt: String },
    Failed { message: String },
    Ambiguous { message: String },
}

#[derive(Clone, Debug)]
pub struct AutomationRootCheckpoint {
    pub schema_version: u32,
    pub run_id: String,
    pub owner_thread_id: String,
    pub repository: String,
    pub source_revision: String,
    pub profile_digest: String,
    pub profile_revision: AutomationProfileRevision,
    pub tracker_project_slug: String,
    pub workspace_root: String,
    pub lease_key: String,
    pub lease_epoch: u64,
    pub revision: u64,
    pub status: AutomationRootStatus,
    pub reconciliation: AutomationReconciliationStatus,
    /// Claims keyed by `claim_id`, in ascending key order.
    pub claims: Vec<AutomationIssueClaim>,
    /// Unclaimed tracker issues keyed by `issue_id`, in ascending key order.
    pub queue: Vec<AutomationQueueItem>,
    pub next_action: String,
}

/// The lease epoch and revision of the checkpoint that is stored durably, if any.
#[derive(Clone, Copy, Debug, PartialEq, Eq, Structural)]
pub struct StoredRevision {
    pub lease_epoch: u64,
    pub revision: u64,
}

#[derive(Debug)]
pub enum AutomationRunError {
    Storage(String),
    ProfileDigestMismatch,
    ProfileProjectMismatch,
    LeaseConflict { lease_key: String, owner_thread_id: String },
    DuplicateIssue(String),
    UnsafeWorkspace,
    MissingClaim(String),
    InactiveClaim(String),
    RetryNotReady(String),
    StaleLease { expected_epoch: u64, expected_revision: u64, actual_epoch: u64, actual_revision: u64 },
    NotSuspended,
    ReconciliationNotStarted,
    ReconciliationBlocked(String),
    MissingEffectAuthority,
    InvalidComment,
    InvalidTransition,
    InvalidPullRequestLink,
    /// A claim update gave the claim another key; claims are found by their key.
    ClaimKeyChanged(String),
}

/// What was observed of one claim's native descendants during reconciliation.
pub struct AutomationClaimReconciliation {
    pub claim_id: String,
    pub issue_task_active: bool,
    pub descendants_cancelled: bool,
    pub tracker_terminal: bool,
    pub workflow_status: Option<RunStatus>,
    /// Whether the claim's retained worktree still exists.
    pub worktree_exists: bool,
}

/// Keys strictly ascending: the order and uniqueness of a map's keys.
pub open spec fn keys_ascending(keys: Seq<Seq<char>>) -> bool {
    forall|i: int, j: int| 0 <= i < j < keys.len() ==> text_order(#[trigger] keys[i], #[trigger] keys[j]) < 0
}

pub open spec fn claim_keys(claims: Seq<AutomationIssueClaim>) -> Seq<Seq<char>> {
    claims.map_values(|c: AutomationIssueClaim| c.claim_id@)
}

pub open spec fn queue_keys(queue: Seq<AutomationQueueItem>) -> Seq<Seq<char>> {
    queue.map_values(|q: AutomationQueueItem| q.issue_id@)
}

impl AutomationRootCheckpoint {
    /// Claims and queue items are keyed maps: ascending, unique keys.
    pub open spec fn wf(&self) -> bool {
        &&& keys_ascending(claim_keys(self.claims@))
        &&& keys_ascending(queue_keys(self.queue@))
    }
}

pub open spec fn has_claim(claims: Seq<AutomationIssueClaim>, claim_id: Seq<char>) -> bool {
    exists|i: int| 0 <= i < claims.len() && #[trigger] claims[i].claim_id@ == claim_id
}

/// The position of the claim with key `claim_id`.
pub open spec fn claim_pos(claims: Seq<AutomationIssueClaim>, claim_id: Seq<char>) -> int {
    choose|i: int| 0 <= i < claims.len() && #[trigger] claims[i].claim_id@ == claim_id
}

pub proof fn lemma_keys_unique(keys: Seq<Seq<char>>, i: int, j: int)
    requires
        keys_ascending(keys),
        0 <= i < keys.len(),
        0 <= j < keys.len(),
        keys[i] == keys[j],
    ensures
        i == j,
{
    if i < j {
        crate::order::lemma_text_order_eq(keys[i], keys[j]);
    } else if j < i {
        crate::order::lemma_text_order_eq(keys[j], keys[i]);
    }
}

/// The claim found by key is the only one with that key.
pub proof fn lemma_claim_pos(claims: Seq<AutomationIssueClaim>, i: int)
    requires
        keys_ascending(claim_keys(claims)),
        0 <= i < claims.len(),
    ensures
        has_claim(claims, claims[i].claim_id@),
        claim_pos(claims, claims[i].claim_id@) == i,
{
    let id = claims[i].claim_id@;
    assert(claims[i].claim_id@ == id);
    let p = claim_pos(claims, id);
    assert(claim_keys(claims)[p] == claim_keys(claims)[i]);
    lemma_keys_unique(claim_keys(claims), p, i);
}

/// The position of the claim keyed `claim_id`, if there is one.
pub fn find_claim(claims: &Vec<AutomationIssueClaim>, claim_id: &str) -> (r: Option<usize>)
    requires
        keys_ascending(claim_keys(claims@)),
    ensures
        r matches Some(i) ==> i < claims.len() && claims@[i as int].claim_id@ == claim_id@
            && has_claim(claims@, claim_id@) && claim_pos(claims@, claim_id@) == i,
        r is None ==> !has_claim(claims@, claim_id@),
{
    let mut i: usize = 0;
    while i < claims.len()
        invariant
            i <= claims.len(),
            keys_ascending(claim_keys(claims@)),
            forall|j: int| 0 <= j < i ==> claims@[j].claim_id@ != claim_id@,
        decreases claims.len() - i,
    {
        if crate::text::str_eq(claims[i].claim_id.as_str(), claim_id) {
            proof {
                lemma_claim_pos(claims@, i as int);
            }
            return Some(i);
        }
        i = i + 1;
    }
    None
}

pub open spec fn claim_is_active_spec(status: AutomationClaimStatus) -> bool {
    status == AutomationClaimStatus::Claimed || status == AutomationClaimStatus::Running
        || status == AutomationClaimStatus::Suspended
}

/// Claimed, running and suspended claims hold their issue.
pub fn claim_is_active(status: AutomationClaimStatus) -> (r: bool)
    ensures
        r == claim_is_active_spec(status),
{
    matches!(
        status,
        AutomationClaimStatus::Claimed | AutomationClaimStatus::Running | AutomationClaimStatus::Suspended
    )
}

pub open spec fn claim_is_terminal_spec(status: AutomationClaimStatus) -> bool {
    status == AutomationClaimStatus::Completed || status == AutomationClaimStatus::Cancelled
        || status == AutomationClaimStatus::Failed
}

pub open spec fn effect_waits_gate(effects: Seq<AutomationEffectReceipt>) -> bool {
    exists|i: int| 0 <= i < effects.len() && #[trigger] effects[i].status == AutomationEffectStatus::WaitingGate
}

pub fn any_effect_waiting_gate(effects: &Vec<AutomationEffectReceipt>) -> (r: bool)
    ensures
        r == effect_waits_gate(effects@),
{
    let mut i: usize = 0;
    while i < effects.len()
        invariant
            i <= effects.len(),
            forall|j: int| 0 <= j < i ==> effects@[j].status != AutomationEffectStatus::WaitingGate,
        decreases effects.len() - i,
    {
        if effects[i].status == AutomationEffectStatus::WaitingGate {
            return true;
        }
        i = i + 1;
    }
    false
}

pub open spec fn effect_unresolved(effects: Seq<AutomationEffectReceipt>) -> bool {
    exists|i: int|
        0 <= i < effects.len() && (#[trigger] effects[i].status == AutomationEffectStatus::Executing
            || effects[i].status == AutomationEffectStatus::Ambiguous)
}

/// Whether an effect is executing or ambiguous, so that its outcome is unknown.
pub fn any_effect_unresolved(effects: &Vec<AutomationEffectReceipt>) -> (r: bool)
    ensures
        r == effect_unresolved(effects@),
{
    let mut i: usize = 0;
    while i < effects.len()
        invariant
            i <= effects.len(),
            forall|j: int|
                0 <= j < i ==> effects@[j].status != AutomationEffectStatus::Executing
                    && effects@[j].status != AutomationEffectStatus::Ambiguous,
        decreases effects.len() - i,
    {
        if effects[i].status == AutomationEffectStatus::Executing
            || effects[i].status == AutomationEffectStatus::Ambiguous {
            return true;
        }
        i = i + 1;
    }
    false
}

/// The category a claim is listed under in the queue projection.
pub open spec fn claim_category(claim: AutomationIssueClaim) -> AutomationQueueCategory {
    let waiting_gate = effect_waits_gate(claim.effects@);
    match claim.status {
        AutomationClaimStatus::Claimed | AutomationClaimStatus::Running => if waiting_gate {
            AutomationQueueCategory::WaitingGate
        } else {
            AutomationQueueCategory::Running
        },
        AutomationClaimStatus::Suspended => if waiting_gate {
            AutomationQueueCategory::WaitingGate
        } else {
            AutomationQueueCategory::Handoff
        },
        _ => AutomationQueueCategory::Terminal,
    }
}

pub fn claim_category_of(claim: &AutomationIssueClaim) -> (r: AutomationQueueCategory)
    ensures
        r == claim_category(*claim),
{
    let waiting_gate = any_effect_waiting_gate(&claim.effects);
    match claim.status {
        AutomationClaimStatus::Claimed | AutomationClaimStatus::Running => if waiting_gate {
            AutomationQueueCategory::WaitingGate
        } else {
            AutomationQueueCategory::Running
        },
        AutomationClaimStatus::Suspended => if waiting_gate {
            AutomationQueueCategory::WaitingGate
        } else {
            AutomationQueueCategory::Handoff
        },
        _ => AutomationQueueCategory::Terminal,
    }
}

pub open spec fn queue_item_category(status: AutomationQueueStatus) -> AutomationQueueCategory {
    match status {
        AutomationQueueStatus::Queued => AutomationQueueCategory::Queued,
        AutomationQueueStatus::Blocked => AutomationQueueCategory::Blocked,
        AutomationQueueStatus::Terminal => AutomationQueueCategory::Terminal,
    }
}

} // verus!
