//! The bounded execution query surface over a run's checkpoint: budgets and
//! limits, identities, bounded texts, step counts and pages, evidence naming.
use crate::json::JsonValue;
use crate::lexical::fold_components;
use crate::lexical::is_cur_dir;
use crate::lexical::is_parent_dir;
use crate::lexical::lexical_model;
use crate::lexical::path_model;
use crate::order::text_order;
use crate::plan::AgentHandle;
use crate::plan::PromotionStatus;
use crate::plan::RunStatus;
use crate::plan::StepStatus;
use crate::segments::split_on_slash;
use crate::segments::split_slash;
use crate::text::fit_prefix;
use crate::text::fit_prefix_len;
use crate::text::slice_subrange;
use crate::text::str_chars;
use crate::text::str_eq;
use crate::text::string_from_chars;
use crate::text::to_owned_string;
use crate::text::utf8_byte_len;
use crate::text::utf8_len;
use vstd::prelude::*;

verus! {

/// Hard limits shared by every adapter over the execution query service.
pub struct ExecutionQueryLimits {
    pub max_page_items: usize,
    pub max_response_bytes: usize,
    pub max_checkpoint_bytes: u64,
    pub max_inline_value_bytes: usize,
    pub max_evidence_hash_bytes: u64,
    pub max_evidence_content_bytes: u64,
    pub max_text_bytes: usize,
    pub max_identity_bytes: usize,
    pub max_digest_bytes: usize,
}

impl ExecutionQueryLimits {
    pub fn default() -> (r: ExecutionQueryLimits)
        ensures
            r.max_page_items == 100,
            r.max_response_bytes == 65536,
            r.max_checkpoint_bytes == 16777216,
            r.max_inline_value_bytes == 16384,
            r.max_evidence_hash_bytes == 33554432,
            r.max_evidence_content_bytes == 32768,
            r.max_text_bytes == 2048,
            r.max_identity_bytes == 512,
            r.max_digest_bytes == 8192,
    {
        ExecutionQueryLimits {
            max_page_items: 100,
            max_response_bytes: 64 * 1024,
            max_checkpoint_bytes: 16 * 1024 * 1024,
            max_inline_value_bytes: 16 * 1024,
            max_evidence_hash_bytes: 32 * 1024 * 1024,
            max_evidence_content_bytes: 32 * 1024,
            max_text_bytes: 2 * 1024,
            max_identity_bytes: 512,
            max_digest_bytes: 8 * 1024,
        }
    }
}

/// An adapter-selected budget. It may narrow, but never widen, service limits.
#[derive(Clone, Copy, Debug, PartialEq, Eq, Structural)]
pub struct ExecutionQueryBudget {
    pub max_items: usize,
    pub max_bytes: usize,
}

impl ExecutionQueryBudget {
    pub fn default() -> (r: ExecutionQueryBudget)
        ensures
            r.max_items == 50,
            r.max_bytes == 32768,
    {
        ExecutionQueryBudget { max_items: 50, max_bytes: 32 * 1024 }
    }
}

/// The position of a history record: sequence, item and revision, ordered in that order.
pub struct HistoryCursor {
    pub sequence: u64,
    pub item_id: String,
    pub revision: u64,
}

#[allow(inconsistent_fields)]
pub enum ExecutionSelector {
    Run,
    Steps { after: Option<String> },
    Outputs { step_id: Option<String>, after: Option<String> },
    Evidence { step_id: Option<String>, after: Option<String> },
    EvidenceContent { evidence_id: String },
    History { after: Option<HistoryCursor> },
}

pub struct ExecutionHistoryRecord {
    pub sequence: u64,
    pub item_id: String,
    pub revision: u64,
    pub kind: String,
    pub step_id: Option<String>,
    pub summary: String,
}

impl ExecutionHistoryRecord {
    /// The record's position in history.
    pub fn cursor(&self) -> (r: HistoryCursor)
        ensures
            r.sequence == self.sequence,
            r.item_id == self.item_id,
            r.revision == self.revision,
    {
        HistoryCursor { sequence: self.sequence, item_id: self.item_id.clone(), revision: self.revision }
    }
}

/// The order of history cursors: by sequence, then item, then revision.
pub open spec fn cursor_order(a: HistoryCursor, b: HistoryCursor) -> int {
    if a.sequence < b.sequence {
        -1
    } else if a.sequence > b.sequence {
        1
    } else if text_order(a.item_id@, b.item_id@) != 0 {
        text_order(a.item_id@, b.item_id@)
    } else if a.revision < b.revision {
        -1
    } else if a.revision > b.revision {
        1
    } else {
        0
    }
}

/// Three-way comparison of two history cursors (-1, 0 or 1).
pub fn compare_cursors(a: &HistoryCursor, b: &HistoryCursor) -> (r: i8)
    ensures
        r as int == cursor_order(*a, *b),
{
    if a.sequence < b.sequence {
        -1
    } else if a.sequence > b.sequence {
        1
    } else {
        let c = crate::order::compare_text(a.item_id.as_str(), b.item_id.as_str());
        if c != 0 {
            c
        } else if a.revision < b.revision {
            -1
        } else if a.revision > b.revision {
            1
        } else {
            0
        }
    }
}

pub struct HistoryReadRequest {
    pub parent_thread_id: String,
    pub run_id: String,
    pub after: Option<HistoryCursor>,
    pub limit: usize,
}

/// The history source of a service that has none: it never holds records.
pub struct NoExecutionHistory;

/// A text cut to a byte budget, and whether it was cut.
pub struct BoundedText {
    pub text: String,
    pub truncated: bool,
}

/// `value` when it fits `max_bytes`; otherwise its longest prefix of whole
/// characters that fits, marked as truncated.
pub open spec fn truncate_spec(value: Seq<char>, max_bytes: int) -> (Seq<char>, bool) {
    if utf8_len(value) <= max_bytes {
        (value, false)
    } else {
        (fit_prefix(value, max_bytes), true)
    }
}

pub fn truncate(value: &str, max_bytes: usize) -> (r: BoundedText)
    ensures
        (r.text@, r.truncated) == truncate_spec(value@, max_bytes as int),
{
    if utf8_byte_len(value) <= max_bytes {
        return BoundedText { text: to_owned_string(value), truncated: false };
    }
    let chars = str_chars(value);
    let k = fit_prefix_len(&chars, max_bytes);
    BoundedText { text: string_from_chars(slice_subrange(chars.as_slice(), 0, k)), truncated: true }
}

/// Counts of a run's steps by status.
#[derive(Clone, Copy, Debug, PartialEq, Eq, Structural)]
pub struct StepCounts {
    pub pending: usize,
    pub running: usize,
    pub retrying: usize,
    pub waiting_approval: usize,
    pub completed: usize,
    pub failed: usize,
    pub cancelled: usize,
}

pub open spec fn count_of(c: StepCounts, status: StepStatus) -> int {
    match status {
        StepStatus::Pending => c.pending as int,
        StepStatus::Running => c.running as int,
        StepStatus::Retrying => c.retrying as int,
        StepStatus::WaitingApproval => c.waiting_approval as int,
        StepStatus::Completed => c.completed as int,
        StepStatus::Failed => c.failed as int,
        StepStatus::Cancelled => c.cancelled as int,
    }
}

impl StepCounts {
    pub fn zero() -> (r: StepCounts)
        ensures
            forall|s: StepStatus| count_of(r, s) == 0,
    {
        StepCounts { pending: 0, running: 0, retrying: 0, waiting_approval: 0, completed: 0, failed: 0, cancelled: 0 }
    }

    /// Counts one more step of `status`.
    pub fn add(&mut self, status: &StepStatus)
        requires
            count_of(*old(self), *status) < usize::MAX,
        ensures
            count_of(*final(self), *status) == count_of(*old(self), *status) + 1,
            forall|s: StepStatus| s != *status ==> count_of(*final(self), s) == count_of(*old(self), s),
    {
        match status {
            StepStatus::Pending => self.pending = self.pending + 1,
            StepStatus::Running => self.running = self.running + 1,
            StepStatus::Retrying => self.retrying = self.retrying + 1,
            StepStatus::WaitingApproval => self.waiting_approval = self.waiting_approval + 1,
            StepStatus::Completed => self.completed = self.completed + 1,
            StepStatus::Failed => self.failed = self.failed + 1,
            StepStatus::Cancelled => self.cancelled = self.cancelled + 1,
        }
    }
}

/// A native agent task, as a query names it.
pub struct AgentReference {
    pub thread_id: String,
    pub task_path: String,
}

impl AgentReference {
    pub fn from(value: &AgentHandle) -> (r: AgentReference)
        ensures
            r.thread_id == value.thread_id,
            r.task_path == value.task_path,
    {
        AgentReference { thread_id: value.thread_id.clone(), task_path: value.task_path.clone() }
    }
}

/// What a query reads of one step of a run's checkpoint.
pub struct StepCheckpoint {
    pub status: StepStatus,
    pub attempts: u32,
    pub rounds: u32,
    pub agent: Option<AgentHandle>,
    pub context_sha256: Option<String>,
    pub approval_decision: Option<String>,
    pub error: Option<String>,
    pub final_response: Option<String>,
    /// Outputs keyed by name, in ascending key order.
    pub outputs: Vec<(String, JsonValue)>,
}

/// What a query reads of a run's checkpoint.
pub struct RunCheckpoint {
    pub schema_version: u32,
    pub run_id: String,
    pub parent_thread_id: String,
    pub workflow_sha256: String,
    pub source_revision: String,
    pub status: RunStatus,
    pub promotion: PromotionStatus,
    /// Steps keyed by id, in ascending key order.
    pub steps: Vec<(String, StepCheckpoint)>,
    pub next_action: String,
}

pub struct RunProjection {
    pub schema_version: u32,
    pub run_id: String,
    pub workflow_sha256: String,
    pub source_revision: String,
    pub status: RunStatus,
    pub promotion: PromotionStatus,
    pub step_counts: StepCounts,
    pub next_action: BoundedText,
}

pub struct StepProjection {
    pub id: String,
    pub status: StepStatus,
    pub attempts: u32,
    pub rounds: u32,
    pub agent: Option<AgentReference>,
    pub context_sha256: Option<String>,
    pub approval_decision: Option<BoundedText>,
    pub error: Option<BoundedText>,
    pub output_count: usize,
}

pub struct StepsPage {
    pub items: Vec<StepProjection>,
    pub next: Option<String>,
}

pub struct OutputProjection {
    pub step_id: String,
    pub name: String,
    pub sha256: String,
    pub canonical_bytes: usize,
    pub value: Option<JsonValue>,
}

pub struct OutputsPage {
    pub items: Vec<OutputProjection>,
    pub next: Option<String>,
}

#[derive(Clone, Copy, Debug, PartialEq, Eq, Structural)]
pub enum EvidenceKind {
    Check,
    Change,
    Skill,
    Other,
}

#[derive(Clone, Copy, Debug, PartialEq, Eq, Structural)]
pub enum EvidenceProvenance {
    RuntimeCheck,
    RuntimeChange,
    SkillSnapshot,
    RuntimeOther,
}

#[derive(Clone, Copy, Debug, PartialEq, Eq, Structural)]
pub enum EvidenceAvailability {
    Available,
    ContentTooLarge,
    Malformed,
}

pub struct EvidenceReference {
    pub evidence_id: String,
    pub name: String,
    pub path: String,
    pub kind: EvidenceKind,
    pub provenance: EvidenceProvenance,
    pub step_id: Option<String>,
    pub bytes: u64,
    pub sha256: Option<String>,
    pub availability: EvidenceAvailability,
}

pub struct EvidenceContentProjection {
    pub evidence_id: String,
    pub name: String,
    pub kind: EvidenceKind,
    pub provenance: EvidenceProvenance,
    pub availability: EvidenceAvailability,
    pub bytes: u64,
    pub sha256: Option<String>,
    pub media_type: String,
    pub content: Option<String>,
}

pub struct EvidencePage {
    pub items: Vec<EvidenceReference>,
    pub next: Option<String>,
}

pub struct HistoryPage {
    pub items: Vec<ExecutionHistoryRecord>,
    pub next: Option<HistoryCursor>,
}

pub struct RunDigest {
    pub run_id: String,
    pub state_sha256: String,
    pub text: String,
    pub omitted_steps: usize,
}

pub enum ExecutionQueryResult {
    Run(RunProjection),
    Steps(StepsPage),
    Outputs(OutputsPage),
    Evidence(EvidencePage),
    EvidenceContent(EvidenceContentProjection),
    History(HistoryPage),
}

#[derive(Debug)]
pub enum ExecutionQueryError {
    Unauthorized,
    NotFound,
    InvalidBudget,
    BudgetTooSmall,
    InvalidIdentity,
    CheckpointTooLarge,
    InvalidCheckpoint(String),
    History(String),
    Storage(String),
}

impl ExecutionQueryError {
    /// The error's message, as it is displayed.
    pub fn message(&self) -> (r: String)
        ensures
            r@ == query_error_message(*self),
    {
        match self {
            ExecutionQueryError::Unauthorized => to_owned_string("query is not authorized for the requesting task"),
            ExecutionQueryError::NotFound => to_owned_string("execution record was not found"),
            ExecutionQueryError::InvalidBudget => to_owned_string("query budget is invalid"),
            ExecutionQueryError::BudgetTooSmall => to_owned_string("query budget is too small for one projection"),
            ExecutionQueryError::InvalidIdentity => to_owned_string("query identity is invalid"),
            ExecutionQueryError::CheckpointTooLarge => to_owned_string("checkpoint exceeds the query read limit"),
            ExecutionQueryError::InvalidCheckpoint(m) => crate::text::concat("checkpoint is invalid: ", m.as_str()),
            ExecutionQueryError::History(m) => crate::text::concat("execution history is unavailable: ", m.as_str()),
            ExecutionQueryError::Storage(m) => crate::text::concat("query storage failed: ", m.as_str()),
        }
    }
}

pub open spec fn query_error_message(e: ExecutionQueryError) -> Seq<char> {
    match e {
        ExecutionQueryError::Unauthorized => "query is not authorized for the requesting task"@,
        ExecutionQueryError::NotFound => "execution record was not found"@,
        ExecutionQueryError::InvalidBudget => "query budget is invalid"@,
        ExecutionQueryError::BudgetTooSmall => "query budget is too small for one projection"@,
        ExecutionQueryError::InvalidIdentity => "query identity is invalid"@,
        ExecutionQueryError::CheckpointTooLarge => "checkpoint exceeds the query read limit"@,
        ExecutionQueryError::InvalidCheckpoint(m) => "checkpoint is invalid: "@ + m@,
        ExecutionQueryError::History(m) => "execution history is unavailable: "@ + m@,
        ExecutionQueryError::Storage(m) => "query storage failed: "@ + m@,
    }
}

/// The query service: its limits. History is read by the caller's adapter.
pub struct ExecutionQueryService {
    limits: ExecutionQueryLimits,
}

impl ExecutionQueryService {
    pub closed spec fn limits_view(self) -> ExecutionQueryLimits {
        self.limits
    }

    pub fn new(limits: ExecutionQueryLimits) -> (r: ExecutionQueryService)
        ensures
            r.limits_view() == limits,
    {
        ExecutionQueryService { limits }
    }

    pub fn limits(&self) -> (r: &ExecutionQueryLimits)
        ensures
            *r == self.limits_view(),
    {
        &self.limits
    }

    /// A service with the default limits.
    pub fn default() -> (r: ExecutionQueryService)
        ensures
            r.limits_view().max_page_items == 100,
            r.limits_view().max_response_bytes == 65536,
            r.limits_view().max_checkpoint_bytes == 16777216,
            r.limits_view().max_inline_value_bytes == 16384,
            r.limits_view().max_evidence_hash_bytes == 33554432,
            r.limits_view().max_evidence_content_bytes == 32768,
            r.limits_view().max_text_bytes == 2048,
            r.limits_view().max_identity_bytes == 512,
            r.limits_view().max_digest_bytes == 8192,
    {
        ExecutionQueryService::new(ExecutionQueryLimits::default())
    }
}


// ---- identities and names ------------------------------------------------------------

/// `u8::is_ascii_control` (and NUL) on the bytes of a character: the C0 controls and DEL.
pub open spec fn is_control(c: char) -> bool {
    (c as u32) < 32 || (c as u32) == 127
}

pub open spec fn has_double_dot(s: Seq<char>) -> bool {
    exists|i: int| 0 <= i < s.len() - 1 && s[i] == '.' && #[trigger] s[i + 1] == '.'
}

/// An identity a query may name: non-empty, within `max_bytes`, without `..`
/// and without control characters.
pub open spec fn identity_ok(value: Seq<char>, max_bytes: int) -> bool {
    &&& value.len() > 0
    &&& utf8_len(value) <= max_bytes
    &&& !has_double_dot(value)
    &&& forall|i: int| 0 <= i < value.len() ==> !is_control(#[trigger] value[i])
}

pub fn validate_identity(value: &str, max_bytes: usize) -> (r: Result<(), ExecutionQueryError>)
    ensures
        r is Ok <==> identity_ok(value@, max_bytes as int),
        r matches Err(e) ==> e is InvalidIdentity,
{
    let chars = str_chars(value);
    if chars.len() == 0 || utf8_byte_len(value) > max_bytes {
        return Err(ExecutionQueryError::InvalidIdentity);
    }
    let mut i: usize = 0;
    while i < chars.len()
        invariant
            i <= chars@.len(),
            chars@ == value@,
            forall|k: int| 0 <= k < i ==> !is_control(#[trigger] chars@[k]),
            forall|k: int| 0 <= k < i && k + 1 < chars@.len() ==> !(chars@[k] == '.' && #[trigger] chars@[k + 1] == '.'),
        decreases chars.len() - i,
    {
        let c = chars[i];
        let code = c as u32;
        if code < 32 || code == 127 {
            return Err(ExecutionQueryError::InvalidIdentity);
        }
        if c == '.' && i + 1 < chars.len() && chars[i + 1] == '.' {
            return Err(ExecutionQueryError::InvalidIdentity);
        }
        i = i + 1;
    }
    Ok(())
}

/// The cursor of an output: its step, a NUL, its name.
pub open spec fn output_cursor_spec(step_id: Seq<char>, name: Seq<char>) -> Seq<char> {
    step_id + seq!['\0'] + name
}

pub fn output_cursor(step_id: &str, name: &str) -> (r: String)
    ensures
        r@ == output_cursor_spec(step_id@, name@),
{
    let mut s = to_owned_string(step_id);
    crate::text::push_char(&mut s, '\0');
    crate::text::push_str(&mut s, name);
    proof {
        assert(s@ =~= output_cursor_spec(step_id@, name@));
    }
    s
}

/// A budget is valid when it asks for at least one item and one byte, within the limits.
pub open spec fn budget_ok(budget: ExecutionQueryBudget, limits: ExecutionQueryLimits) -> bool {
    budget.max_items > 0 && budget.max_bytes > 0 && budget.max_items <= limits.max_page_items
        && budget.max_bytes <= limits.max_response_bytes
}

pub fn checked_budget(budget: ExecutionQueryBudget, limits: &ExecutionQueryLimits) -> (r: Result<ExecutionQueryBudget, ExecutionQueryError>)
    ensures
        match r {
            Ok(b) => b == budget && budget_ok(budget, *limits),
            Err(e) => e is InvalidBudget && !budget_ok(budget, *limits),
        },
{
    if budget.max_items == 0 || budget.max_bytes == 0 || budget.max_items > limits.max_page_items
        || budget.max_bytes > limits.max_response_bytes {
        return Err(ExecutionQueryError::InvalidBudget);
    }
    Ok(budget)
}

pub open spec fn run_status_name(s: RunStatus) -> Seq<char> {
    match s {
        RunStatus::Pending => "pending"@,
        RunStatus::Running => "running"@,
        RunStatus::WaitingApproval => "waiting_approval"@,
        RunStatus::Completed => "completed"@,
        RunStatus::Failed => "failed"@,
        RunStatus::Cancelled => "cancelled"@,
    }
}

pub fn status_name(status: &RunStatus) -> (r: &'static str)
    ensures
        r@ == run_status_name(*status),
{
    match status {
        RunStatus::Pending => "pending",
        RunStatus::Running => "running",
        RunStatus::WaitingApproval => "waiting_approval",
        RunStatus::Completed => "completed",
        RunStatus::Failed => "failed",
        RunStatus::Cancelled => "cancelled",
    }
}

pub open spec fn step_status_text(s: StepStatus) -> Seq<char> {
    match s {
        StepStatus::Pending => "pending"@,
        StepStatus::Running => "running"@,
        StepStatus::Retrying => "retrying"@,
        StepStatus::WaitingApproval => "waiting_approval"@,
        StepStatus::Completed => "completed"@,
        StepStatus::Failed => "failed"@,
        StepStatus::Cancelled => "cancelled"@,
    }
}

pub fn step_status_name(status: &StepStatus) -> (r: &'static str)
    ensures
        r@ == step_status_text(*status),
{
    match status {
        StepStatus::Pending => "pending",
        StepStatus::Running => "running",
        StepStatus::Retrying => "retrying",
        StepStatus::WaitingApproval => "waiting_approval",
        StepStatus::Completed => "completed",
        StepStatus::Failed => "failed",
        StepStatus::Cancelled => "cancelled",
    }
}

/// Where a step comes in a digest: failures and approvals first, then work in
/// progress, pending, cancelled, and completed steps last.
pub open spec fn priority_of(s: StepStatus) -> u8 {
    match s {
        StepStatus::Failed | StepStatus::WaitingApproval => 0,
        StepStatus::Running | StepStatus::Retrying => 1,
        StepStatus::Pending => 2,
        StepStatus::Cancelled => 3,
        StepStatus::Completed => 4,
    }
}

pub fn digest_priority(status: &StepStatus) -> (r: u8)
    ensures
        r == priority_of(*status),
{
    match status {
        StepStatus::Failed | StepStatus::WaitingApproval => 0,
        StepStatus::Running | StepStatus::Retrying => 1,
        StepStatus::Pending => 2,
        StepStatus::Cancelled => 3,
        StepStatus::Completed => 4,
    }
}

// ---- evidence ------------------------------------------------------------------

/// The components of a path as `Path::components` names them (without `.`).
pub open spec fn path_parts(s: Seq<char>) -> Seq<Seq<char>> {
    split_slash(s).filter(|p: Seq<char>| p.len() > 0 && !is_cur_dir(p))
}

/// The kind of evidence a file is, by the directory that holds it.
pub open spec fn evidence_kind_spec(path: Seq<char>) -> EvidenceKind {
    let parts = path_parts(path);
    if parts.len() < 2 {
        EvidenceKind::Other
    } else if parts[parts.len() - 2] == "checks"@ {
        EvidenceKind::Check
    } else if parts[parts.len() - 2] == "changes"@ {
        EvidenceKind::Change
    } else if parts[parts.len() - 2] == "skills"@ {
        EvidenceKind::Skill
    } else {
        EvidenceKind::Other
    }
}

pub(crate) fn parts_of(path: &str) -> (r: Vec<String>)
    ensures
        r@.map_values(|p: String| p@) == path_parts(path@),
{
    let chars = str_chars(path);
    let pieces = split_on_slash(&chars);
    let ghost all = pieces@.map_values(|p: Vec<char>| p@);
    let mut out: Vec<String> = Vec::new();
    let mut i: usize = 0;
    proof {
        assert(all.take(0).filter(|p: Seq<char>| p.len() > 0 && !is_cur_dir(p)) =~= Seq::<Seq<char>>::empty());
    }
    while i < pieces.len()
        invariant
            i <= pieces@.len(),
            all == pieces@.map_values(|p: Vec<char>| p@),
            out@.map_values(|p: String| p@) == all.take(i as int).filter(|p: Seq<char>| p.len() > 0 && !is_cur_dir(p)),
        decreases pieces.len() - i,
    {
        let piece = &pieces[i];
        let keep = piece.len() > 0 && !(piece.len() == 1 && piece[0] == '.');
        proof {
            assert(all.take(i + 1).drop_last() =~= all.take(i as int));
            assert(all.take(i + 1).last() == piece@);
            if piece@ == seq!['.'] {
                assert(piece@.len() == 1 && piece@[0] == '.');
            }
            if piece.len() == 1 && piece@[0] == '.' {
                assert(piece@ =~= seq!['.']);
            }
        }
        let ghost before = out@.map_values(|p: String| p@);
        if keep {
            out.push(string_from_chars(piece.as_slice()));
            proof {
                assert(out@.map_values(|p: String| p@) =~= before.push(piece@));
            }
        } else {
            proof {
                assert(out@.map_values(|p: String| p@) =~= before);
            }
        }
        proof {
            let f = |p: Seq<char>| p.len() > 0 && !is_cur_dir(p);
            all.take(i as int).lemma_filter_push(piece@, f);
            assert(all.take(i + 1) =~= all.take(i as int).push(piece@));
        }
        i = i + 1;
    }
    proof {
        assert(all.take(pieces@.len() as int) =~= all);
    }
    out
}

pub fn evidence_kind(path: &str) -> (r: EvidenceKind)
    ensures
        r == evidence_kind_spec(path@),
{
    let parts = parts_of(path);
    let n = parts.len();
    if n < 2 {
        return EvidenceKind::Other;
    }
    proof {
        assert(parts@.map_values(|p: String| p@)[n - 2] == parts@[n - 2]@);
    }
    let dir = parts[n - 2].as_str();
    if str_eq(dir, "checks") {
        EvidenceKind::Check
    } else if str_eq(dir, "changes") {
        EvidenceKind::Change
    } else if str_eq(dir, "skills") {
        EvidenceKind::Skill
    } else {
        EvidenceKind::Other
    }
}

pub open spec fn provenance_of(kind: EvidenceKind) -> EvidenceProvenance {
    match kind {
        EvidenceKind::Check => EvidenceProvenance::RuntimeCheck,
        EvidenceKind::Change => EvidenceProvenance::RuntimeChange,
        EvidenceKind::Skill => EvidenceProvenance::SkillSnapshot,
        EvidenceKind::Other => EvidenceProvenance::RuntimeOther,
    }
}

pub fn evidence_provenance(path: &str) -> (r: EvidenceProvenance)
    ensures
        r == provenance_of(evidence_kind_spec(path@)),
{
    match evidence_kind(path) {
        EvidenceKind::Check => EvidenceProvenance::RuntimeCheck,
        EvidenceKind::Change => EvidenceProvenance::RuntimeChange,
        EvidenceKind::Skill => EvidenceProvenance::SkillSnapshot,
        EvidenceKind::Other => EvidenceProvenance::RuntimeOther,
    }
}

/// The id of a piece of evidence: the digest of its path under the run's evidence root.
pub fn evidence_id(relative: &str) -> (r: String)
    ensures
        r@ == crate::digest::sha256_hex(relative@),
{
    crate::digest::sha256_hex_str(relative)
}

/// `Path::file_name`: the last component, unless it is `..` or there is none.
pub open spec fn file_name_spec(path: Seq<char>) -> Option<Seq<char>> {
    let parts = path_parts(path);
    if parts.len() == 0 || is_parent_dir(parts.last()) {
        None
    } else {
        Some(parts.last())
    }
}

/// The name of a piece of evidence: its file name, which must be a valid identity.
pub fn evidence_name(relative: &str, max_bytes: usize) -> (r: Result<String, ExecutionQueryError>)
    ensures
        match r {
            Ok(n) => file_name_spec(relative@) == Some(n@) && identity_ok(n@, max_bytes as int),
            Err(e) => e is InvalidIdentity && !(file_name_spec(relative@) matches Some(n) && identity_ok(n, max_bytes as int)),
        },
{
    let parts = parts_of(relative);
    let n = parts.len();
    if n == 0 {
        return Err(ExecutionQueryError::InvalidIdentity);
    }
    proof {
        assert(parts@.map_values(|p: String| p@)[n - 1] == parts@[n - 1]@);
    }
    let name = parts[n - 1].as_str();
    if str_eq(name, "..") {
        proof {
            reveal_strlit("..");
            assert(".."@ =~= seq!['.', '.']);
        }
        return Err(ExecutionQueryError::InvalidIdentity);
    }
    proof {
        reveal_strlit("..");
        assert(".."@ =~= seq!['.', '.']);
    }
    match validate_identity(name, max_bytes) {
        Ok(()) => Ok(to_owned_string(name)),
        Err(e) => Err(e),
    }
}

/// The index of the last `c` in `s`, or -1.
pub open spec fn last_index(s: Seq<char>, c: char) -> int
    decreases s.len(),
{
    if s.len() == 0 {
        -1
    } else if s.last() == c {
        s.len() - 1
    } else {
        last_index(s.drop_last(), c)
    }
}

proof fn lemma_last_index(s: Seq<char>, c: char)
    ensures
        -1 <= last_index(s, c) < s.len(),
        last_index(s, c) >= 0 ==> s[last_index(s, c)] == c,
        forall|j: int| last_index(s, c) < j < s.len() ==> s[j] != c,
    decreases s.len(),
{
    if s.len() > 0 && s.last() != c {
        lemma_last_index(s.drop_last(), c);
        assert forall|j: int| last_index(s, c) < j < s.len() implies s[j] != c by {
            if j < s.len() - 1 {
                assert(s.drop_last()[j] == s[j]);
            }
        }
    }
}

fn last_index_of(v: &Vec<char>, c: char) -> (r: Option<usize>)
    ensures
        match r {
            Some(i) => last_index(v@, c) == i as int && i < v@.len(),
            None => last_index(v@, c) == -1,
        },
{
    proof {
        lemma_last_index(v@, c);
    }
    let mut k = v.len();
    proof {
        assert(v@.take(k as int) =~= v@);
    }
    while k > 0
        invariant
            k <= v@.len(),
            last_index(v@, c) == last_index(v@.take(k as int), c),
        decreases k,
    {
        proof {
            let t = v@.take(k as int);
            assert(t.last() == v@[k - 1]);
            assert(t.drop_last() =~= v@.take(k - 1));
        }
        if v[k - 1] == c {
            return Some(k - 1);
        }
        k = k - 1;
    }
    None
}

/// `Path::extension` of a file name: what follows its last `.`, when something precedes it.
pub open spec fn extension_of(name: Seq<char>) -> Option<Seq<char>> {
    let d = last_index(name, '.');
    if d > 0 { Some(name.skip(d + 1)) } else { None }
}

/// The media type of a piece of evidence, by its extension.
pub open spec fn media_type_spec(path: Seq<char>) -> Seq<char> {
    let ext = match file_name_spec(path) {
        Some(n) => extension_of(n),
        None => None,
    };
    match ext {
        Some(e) => if e == "json"@ {
            "application/json"@
        } else if e == "patch"@ || e == "diff"@ {
            "text/x-diff"@
        } else if e == "md"@ {
            "text/markdown"@
        } else {
            "text/plain"@
        },
        None => "text/plain"@,
    }
}

pub fn evidence_media_type(path: &str) -> (r: &'static str)
    ensures
        r@ == media_type_spec(path@),
{
    let parts = parts_of(path);
    let n = parts.len();
    if n == 0 {
        return "text/plain";
    }
    proof {
        assert(parts@.map_values(|p: String| p@)[n - 1] == parts@[n - 1]@);
        reveal_strlit("..");
        assert(".."@ =~= seq!['.', '.']);
    }
    let name = parts[n - 1].as_str();
    if str_eq(name, "..") {
        return "text/plain";
    }
    let chars = str_chars(name);
    let d = match last_index_of(&chars, '.') {
        Some(d) => d,
        None => {
            return "text/plain";
        },
    };
    if d == 0 {
        return "text/plain";
    }
    let mut whole = str_chars(name);
    let mut tail = whole.split_off(d);
    tail.remove(0);
    let ext = string_from_chars(tail.as_slice());
    proof {
        assert(ext@ =~= name@.skip(d + 1));
    }
    if str_eq(ext.as_str(), "json") {
        "application/json"
    } else if str_eq(ext.as_str(), "patch") || str_eq(ext.as_str(), "diff") {
        "text/x-diff"
    } else if str_eq(ext.as_str(), "md") {
        "text/markdown"
    } else {
        "text/plain"
    }
}

/// The step a check or change file belongs to: `checks/<step>-<n>.<ext>` names
/// `<step>`; the promoted patch and other files belong to no step.
pub open spec fn evidence_step_spec(path: Seq<char>) -> Option<Seq<char>> {
    let i = crate::segments::first_slash(path) as int;
    if i >= path.len() {
        None
    } else {
        let dir = path.take(i);
        let file = path.skip(i + 1);
        if !(dir == "checks"@ || dir == "changes"@) || file == "promoted.patch"@ {
            None
        } else {
            let d = last_index(file, '.');
            let stem = if d >= 0 { file.take(d) } else { file };
            let h = last_index(stem, '-');
            if h >= 0 { Some(stem.take(h)) } else { None }
        }
    }
}

pub fn evidence_step_id(path: &str) -> (r: Option<String>)
    ensures
        match r {
            Some(s) => evidence_step_spec(path@) == Some(s@),
            None => evidence_step_spec(path@) is None,
        },
{
    let chars = str_chars(path);
    let mut i: usize = 0;
    while i < chars.len() && chars[i] != '/'
        invariant
            i <= chars@.len(),
            chars@ == path@,
            forall|k: int| 0 <= k < i ==> chars@[k] != '/',
        decreases chars.len() - i,
    {
        i = i + 1;
    }
    proof {
        crate::segments::lemma_first_slash(path@, i as int);
    }
    if i >= chars.len() {
        return None;
    }
    let dir = string_from_chars(slice_subrange(chars.as_slice(), 0, i));
    let file_chars: Vec<char> = str_chars(path).split_off(i + 1);
    let file = string_from_chars(file_chars.as_slice());
    proof {
        assert(dir@ =~= path@.take(i as int));
        assert(file_chars@ =~= path@.skip(i + 1));
    }
    if !(str_eq(dir.as_str(), "checks") || str_eq(dir.as_str(), "changes")) || str_eq(file.as_str(), "promoted.patch") {
        return None;
    }
    let stem: Vec<char> = match last_index_of(&file_chars, '.') {
        Some(d) => {
            let mut t = str_chars(file.as_str());
            t.truncate(d);
            proof {
                assert(t@ =~= file_chars@.take(d as int));
            }
            t
        },
        None => str_chars(file.as_str()),
    };
    match last_index_of(&stem, '-') {
        Some(h) => {
            let step = string_from_chars(slice_subrange(stem.as_slice(), 0, h));
            proof {
                assert(step@ =~= stem@.take(h as int));
            }
            Some(step)
        },
        None => None,
    }
}


// ---- run and step projections ---------------------------------------------------------

/// The number of steps with `status`.
pub open spec fn status_count(steps: Seq<(String, StepCheckpoint)>, status: StepStatus) -> int
    decreases steps.len(),
{
    if steps.len() == 0 {
        0
    } else {
        status_count(steps.drop_last(), status) + if steps.last().1.status == status { 1int } else { 0int }
    }
}

proof fn lemma_status_count_bound(steps: Seq<(String, StepCheckpoint)>, status: StepStatus)
    ensures
        0 <= status_count(steps, status) <= steps.len(),
    decreases steps.len(),
{
    if steps.len() > 0 {
        lemma_status_count_bound(steps.drop_last(), status);
    }
}

/// The run as a query shows it: identity, status, counts of steps by status,
/// and the next action cut to the text limit.
pub fn run_projection(checkpoint: &RunCheckpoint, limits: &ExecutionQueryLimits) -> (r: RunProjection)
    ensures
        r.schema_version == checkpoint.schema_version,
        r.run_id == checkpoint.run_id,
        r.workflow_sha256 == checkpoint.workflow_sha256,
        r.source_revision == checkpoint.source_revision,
        r.status == checkpoint.status,
        r.promotion == checkpoint.promotion,
        forall|s: StepStatus| count_of(r.step_counts, s) == status_count(checkpoint.steps@, s),
        (r.next_action.text@, r.next_action.truncated) == truncate_spec(checkpoint.next_action@, limits.max_text_bytes as int),
{
    let mut counts = StepCounts::zero();
    let mut i: usize = 0;
    while i < checkpoint.steps.len()
        invariant
            i <= checkpoint.steps@.len(),
            forall|s: StepStatus| count_of(counts, s) == status_count(checkpoint.steps@.take(i as int), s),
        decreases checkpoint.steps.len() - i,
    {
        proof {
            let t = checkpoint.steps@.take(i + 1);
            assert(t.drop_last() =~= checkpoint.steps@.take(i as int));
            assert(t.last() == checkpoint.steps@[i as int]);
            lemma_status_count_bound(checkpoint.steps@.take(i as int), checkpoint.steps@[i as int].1.status);
        }
        counts.add(&checkpoint.steps[i].1.status);
        i = i + 1;
    }
    proof {
        assert(checkpoint.steps@.take(checkpoint.steps@.len() as int) =~= checkpoint.steps@);
    }
    RunProjection {
        schema_version: checkpoint.schema_version,
        run_id: checkpoint.run_id.clone(),
        workflow_sha256: checkpoint.workflow_sha256.clone(),
        source_revision: checkpoint.source_revision.clone(),
        status: checkpoint.status,
        promotion: checkpoint.promotion,
        step_counts: counts,
        next_action: truncate(checkpoint.next_action.as_str(), limits.max_text_bytes),
    }
}

pub open spec fn optional_truncated(p: Option<BoundedText>, s: Option<String>, max_bytes: int) -> bool {
    match (p, s) {
        (Some(b), Some(t)) => (b.text@, b.truncated) == truncate_spec(t@, max_bytes),
        (None, None) => true,
        _ => false,
    }
}

/// A step as a query shows it: its state, its agent, its texts cut to the limit,
/// and how many outputs it has.
pub open spec fn step_projected(p: StepProjection, id: String, step: StepCheckpoint, max_text_bytes: int) -> bool {
    &&& p.id == id
    &&& p.status == step.status
    &&& p.attempts == step.attempts
    &&& p.rounds == step.rounds
    &&& match (p.agent, step.agent) {
        (Some(a), Some(h)) => a.thread_id == h.thread_id && a.task_path == h.task_path,
        (None, None) => true,
        _ => false,
    }
    &&& p.context_sha256 == step.context_sha256
    &&& optional_truncated(p.approval_decision, step.approval_decision, max_text_bytes)
    &&& optional_truncated(p.error, step.error, max_text_bytes)
    &&& p.output_count == step.outputs@.len()
}

fn optional_truncate(value: &Option<String>, max_bytes: usize) -> (r: Option<BoundedText>)
    ensures
        optional_truncated(r, *value, max_bytes as int),
{
    match value {
        Some(t) => Some(truncate(t.as_str(), max_bytes)),
        None => None,
    }
}

fn project_step(id: &String, step: &StepCheckpoint, max_text_bytes: usize) -> (r: StepProjection)
    ensures
        step_projected(r, *id, *step, max_text_bytes as int),
{
    let agent = match &step.agent {
        Some(h) => Some(AgentReference::from(h)),
        None => None,
    };
    StepProjection {
        id: id.clone(),
        status: step.status,
        attempts: step.attempts,
        rounds: step.rounds,
        agent,
        context_sha256: crate::automation_run::copy_optional_text(&step.context_sha256),
        approval_decision: optional_truncate(&step.approval_decision, max_text_bytes),
        error: optional_truncate(&step.error, max_text_bytes),
        output_count: step.outputs.len(),
    }
}

/// The steps after `after` (all of them without one), by id.
pub open spec fn steps_after(steps: Seq<(String, StepCheckpoint)>, after: Option<Seq<char>>) -> Seq<(String, StepCheckpoint)> {
    match after {
        Some(a) => steps.filter(|e: (String, StepCheckpoint)| text_order(e.0@, a) > 0),
        None => steps,
    }
}

/// The candidates of a steps page: the projected steps after the cursor, at most
/// `max_items` of them, and whether more remain. An invalid cursor is an error.
pub fn step_candidates(
    checkpoint: &RunCheckpoint,
    after: &Option<String>,
    budget: ExecutionQueryBudget,
    limits: &ExecutionQueryLimits,
) -> (r: Result<(Vec<StepProjection>, bool), ExecutionQueryError>)
    ensures
        match r {
            Ok((items, more)) => {
                let a = crate::automation_validate::text_option(*after);
                let candidates = steps_after(checkpoint.steps@, a);
                &&& (after matches Some(x) ==> identity_ok(x@, limits.max_identity_bytes as int))
                &&& more == (candidates.len() > budget.max_items)
                &&& items@.len() == if more { budget.max_items as int } else { candidates.len() as int }
                &&& forall|i: int| 0 <= i < items@.len() ==> #[trigger] step_projected(items@[i], candidates[i].0, candidates[i].1, limits.max_text_bytes as int)
            },
            Err(e) => e is InvalidIdentity && (after matches Some(x) && !identity_ok(x@, limits.max_identity_bytes as int)),
        },
{
    match after {
        Some(a) => {
            if validate_identity(a.as_str(), limits.max_identity_bytes).is_err() {
                return Err(ExecutionQueryError::InvalidIdentity);
            }
        },
        None => {},
    }
    let ghost a = crate::automation_validate::text_option(*after);
    let ghost pred = |e: (String, StepCheckpoint)| text_order(e.0@, a->0) > 0;
    let mut items: Vec<StepProjection> = Vec::new();
    let mut i: usize = 0;
    proof {
        assert(checkpoint.steps@.take(0) =~= Seq::<(String, StepCheckpoint)>::empty());
        assert(steps_after(checkpoint.steps@.take(0), a) =~= Seq::<(String, StepCheckpoint)>::empty());
    }
    while i < checkpoint.steps.len()
        invariant
            i <= checkpoint.steps@.len(),
            a == crate::automation_validate::text_option(*after),
            pred == (|e: (String, StepCheckpoint)| text_order(e.0@, a->0) > 0),
            items@.len() == steps_after(checkpoint.steps@.take(i as int), a).len(),
            forall|k: int| 0 <= k < items@.len() ==> #[trigger] step_projected(
                items@[k],
                steps_after(checkpoint.steps@.take(i as int), a)[k].0,
                steps_after(checkpoint.steps@.take(i as int), a)[k].1,
                limits.max_text_bytes as int,
            ),
        decreases checkpoint.steps.len() - i,
    {
        let ghost before = checkpoint.steps@.take(i as int);
        let ghost e = checkpoint.steps@[i as int];
        proof {
            assert(checkpoint.steps@.take(i + 1) =~= before.push(e));
            before.lemma_filter_push(e, pred);
        }
        let keep = match after {
            Some(x) => crate::order::compare_text(checkpoint.steps[i].0.as_str(), x.as_str()) > 0,
            None => true,
        };
        if keep {
            items.push(project_step(&checkpoint.steps[i].0, &checkpoint.steps[i].1, limits.max_text_bytes));
        }
        proof {
            let now = steps_after(checkpoint.steps@.take(i + 1), a);
            let was = steps_after(before, a);
            if keep {
                assert(now =~= was.push(e));
            } else {
                assert(now =~= was);
            }
            assert forall|k: int| 0 <= k < items@.len() implies #[trigger] step_projected(items@[k], now[k].0, now[k].1, limits.max_text_bytes as int) by {
                if k < was.len() {
                    assert(now[k] == was[k]);
                }
            }
        }
        i = i + 1;
    }
    proof {
        assert(checkpoint.steps@.take(checkpoint.steps@.len() as int) =~= checkpoint.steps@);
    }
    let more = items.len() > budget.max_items;
    items.truncate(budget.max_items);
    Ok((items, more))
}


// ---- the run digest -------------------------------------------------------------------

/// A digest budget must be positive and within the limit.
pub fn checked_digest_budget(max_bytes: usize, limits: &ExecutionQueryLimits) -> (r: Result<(), ExecutionQueryError>)
    ensures
        r is Ok <==> (0 < max_bytes <= limits.max_digest_bytes),
        r matches Err(e) ==> e is InvalidBudget,
{
    if max_bytes == 0 || max_bytes > limits.max_digest_bytes {
        Err(ExecutionQueryError::InvalidBudget)
    } else {
        Ok(())
    }
}

/// The detail a digest line shows: the step's error, else its approval decision, cut short.
pub open spec fn step_detail(step: StepCheckpoint, max_text: int) -> Option<Seq<char>> {
    let limit = if max_text < 160 { max_text } else { 160 };
    match step.error {
        Some(e) => Some(truncate_spec(e@, limit).0),
        None => match step.approval_decision {
            Some(a) => Some(truncate_spec(a@, limit).0),
            None => None,
        },
    }
}

/// One line of a digest: the step, its status and counters, and its detail if any.
pub open spec fn step_line(id: Seq<char>, step: StepCheckpoint, max_text: int) -> Seq<char> {
    let base = "step "@ + id + " "@ + step_status_text(step.status) + " attempts="@ + crate::text::decimal(step.attempts as nat)
        + " rounds="@ + crate::text::decimal(step.rounds as nat);
    match step_detail(step, max_text) {
        Some(d) => base + " — "@ + d + "\n"@,
        None => base + "\n"@,
    }
}

/// A digest line with the key it is ordered by.
pub struct DigestLine {
    pub priority: u8,
    pub id: String,
    pub line: String,
}

/// Digest order: by priority, then by step id.
pub open spec fn digest_order(a: DigestLine, b: DigestLine) -> int {
    crate::order::then_order(crate::order::int_order(a.priority as int, b.priority as int), text_order(a.id@, b.id@))
}

pub open spec fn insert_line(sorted: Seq<DigestLine>, x: DigestLine) -> Seq<DigestLine>
    decreases sorted.len(),
{
    if sorted.len() == 0 {
        seq![x]
    } else if digest_order(sorted.last(), x) > 0 {
        insert_line(sorted.drop_last(), x).push(sorted.last())
    } else {
        sorted.push(x)
    }
}

/// The lines in digest order (stable).
pub open spec fn sorted_lines(s: Seq<DigestLine>) -> Seq<DigestLine>
    decreases s.len(),
{
    if s.len() == 0 { s } else { insert_line(sorted_lines(s.drop_last()), s.last()) }
}

/// The digest lines of a checkpoint's steps, in digest order.
pub open spec fn ordered_line_texts(lines: Seq<DigestLine>) -> Seq<Seq<char>> {
    sorted_lines(lines).map_values(|l: DigestLine| l.line@)
}

pub open spec fn lines_of(steps: Seq<(String, StepCheckpoint)>, lines: Seq<DigestLine>, max_text: int) -> bool {
    &&& lines.len() == steps.len()
    &&& forall|i: int| 0 <= i < steps.len() ==> {
        &&& (#[trigger] lines[i]).priority == priority_of(steps[i].1.status)
        &&& lines[i].id == steps[i].0
        &&& lines[i].line@ == step_line(steps[i].0@, steps[i].1, max_text)
    }
}

pub open spec fn omitted_footer(n: nat) -> Seq<char> {
    "omitted "@ + crate::text::decimal(n) + " steps\n"@
}

/// How many of the ordered lines fit after `used` bytes, each line leaving room
/// for the footer that counts the lines after it.
pub open spec fn fit_count(lines: Seq<Seq<char>>, k: int, used: int, max: int) -> nat
    decreases lines.len() - k,
{
    if k < 0 || k >= lines.len() {
        0
    } else {
        let remaining = lines.len() - k - 1;
        let footer = if remaining > 0 { utf8_len(omitted_footer(remaining as nat)) as int } else { 0 };
        if used + utf8_len(lines[k]) + footer > max {
            0
        } else {
            1 + fit_count(lines, k + 1, used + utf8_len(lines[k]), max)
        }
    }
}

pub open spec fn flatten(lines: Seq<Seq<char>>) -> Seq<char>
    decreases lines.len(),
{
    if lines.len() == 0 { Seq::empty() } else { flatten(lines.drop_last()) + lines.last() }
}

/// The digest text: the header, the lines that fit, and a footer counting the
/// lines left out; `None` when not even that fits.
pub open spec fn digest_text_spec(header: Seq<char>, lines: Seq<Seq<char>>, max: int) -> Option<(Seq<char>, nat)> {
    if utf8_len(header) > max {
        None
    } else {
        let n = fit_count(lines, 0, utf8_len(header) as int, max);
        let body = header + flatten(lines.take(n as int));
        let omitted = (lines.len() - n) as nat;
        if omitted > 0 {
            if utf8_len(body) + utf8_len(omitted_footer(omitted)) > max {
                None
            } else {
                Some((body + omitted_footer(omitted), omitted))
            }
        } else {
            Some((body, 0))
        }
    }
}


proof fn lemma_fit_count_bound(lines: Seq<Seq<char>>, k: int, used: int, max: int)
    requires
        0 <= k <= lines.len(),
    ensures
        k + fit_count(lines, k, used, max) <= lines.len(),
    decreases lines.len() - k,
{
    if k < lines.len() {
        lemma_fit_count_bound(lines, k + 1, used + utf8_len(lines[k]), max);
    }
}

proof fn lemma_flatten_len(lines: Seq<Seq<char>>, k: int)
    requires
        0 <= k < lines.len(),
    ensures
        flatten(lines.take(k + 1)) == flatten(lines.take(k)) + lines[k],
        utf8_len(flatten(lines.take(k + 1))) == utf8_len(flatten(lines.take(k))) + utf8_len(lines[k]),
{
    assert(lines.take(k + 1).drop_last() =~= lines.take(k));
    crate::text::lemma_utf8_len_concat(flatten(lines.take(k)), lines[k]);
}

/// Whatever fits, fits: the lines counted from `k` keep the text within `max`.
proof fn lemma_fit_within(lines: Seq<Seq<char>>, k: int, used: int, max: int)
    requires
        0 <= k <= lines.len(),
        used == utf8_len(flatten(lines.take(k))) + (used - utf8_len(flatten(lines.take(k)))),
        used <= max,
    ensures
        used - utf8_len(flatten(lines.take(k))) + utf8_len(flatten(lines.take(k + fit_count(lines, k, used, max)))) <= max,
    decreases lines.len() - k,
{
    if k < lines.len() {
        let remaining = lines.len() - k - 1;
        let footer = if remaining > 0 { utf8_len(omitted_footer(remaining as nat)) as int } else { 0 };
        if used + utf8_len(lines[k]) + footer <= max {
            lemma_flatten_len(lines, k);
            lemma_fit_within(lines, k + 1, used + utf8_len(lines[k]), max);
        }
    }
}

/// A digest never exceeds the byte budget it was asked for.
pub proof fn lemma_digest_bounded(header: Seq<char>, lines: Seq<Seq<char>>, max: int)
    ensures
        digest_text_spec(header, lines, max) matches Some((text, omitted)) ==> utf8_len(text) <= max
            && omitted <= lines.len(),
{
    if utf8_len(header) <= max {
        let h = utf8_len(header) as int;
        let n = fit_count(lines, 0, h, max);
        assert(lines.take(0) =~= Seq::<Seq<char>>::empty());
        lemma_fit_within(lines, 0, h, max);
        lemma_fit_count_bound(lines, 0, h, max);
        crate::text::lemma_utf8_len_concat(header, flatten(lines.take(n as int)));
        let body = header + flatten(lines.take(n as int));
        let omitted = (lines.len() - n) as nat;
        if omitted > 0 {
            crate::text::lemma_utf8_len_concat(body, omitted_footer(omitted));
        }
    }
}

pub open spec fn sorted_texts(lines: Seq<DigestLine>) -> Seq<Seq<char>> {
    sorted_lines(lines).map_values(|l: DigestLine| l.line@)
}

fn compare_lines(a: &DigestLine, b: &DigestLine) -> (r: i8)
    ensures
        r as int == digest_order(*a, *b),
{
    if a.priority < b.priority {
        -1
    } else if a.priority > b.priority {
        1
    } else {
        crate::order::compare_text(a.id.as_str(), b.id.as_str())
    }
}

fn insert_digest_line(items: &mut Vec<DigestLine>, x: DigestLine)
    ensures
        final(items)@ == insert_line(old(items)@, x),
{
    let mut k: usize = items.len();
    proof {
        assert(old(items)@.take(k as int) =~= old(items)@);
        assert(old(items)@.skip(k as int) =~= Seq::<DigestLine>::empty());
        assert(insert_line(old(items)@, x) + Seq::<DigestLine>::empty() =~= insert_line(old(items)@, x));
    }
    while k > 0 && compare_lines(&items[k - 1], &x) > 0
        invariant
            k <= items@.len(),
            items@ == old(items)@,
            insert_line(old(items)@, x) == insert_line(old(items)@.take(k as int), x) + old(items)@.skip(k as int),
        decreases k,
    {
        proof {
            let t = old(items)@.take(k as int);
            assert(t.drop_last() =~= old(items)@.take(k - 1));
            assert(t.last() == old(items)@[k - 1]);
            assert(old(items)@.skip(k - 1) =~= seq![old(items)@[k - 1]] + old(items)@.skip(k as int));
            assert(insert_line(t.drop_last(), x).push(t.last()) + old(items)@.skip(k as int)
                =~= insert_line(t.drop_last(), x) + old(items)@.skip(k - 1));
        }
        k = k - 1;
    }
    proof {
        let t = old(items)@.take(k as int);
        if k > 0 {
            assert(t.last() == old(items)@[k - 1]);
        }
        assert(insert_line(t, x) =~= t.push(x));
    }
    items.insert(k, x);
    proof {
        assert(items@ =~= old(items)@.take(k as int).push(x) + old(items)@.skip(k as int));
    }
}

fn digest_step_line(id: &String, step: &StepCheckpoint, max_text: usize) -> (r: String)
    ensures
        r@ == step_line(id@, *step, max_text as int),
{
    let mut line = to_owned_string("step ");
    crate::text::push_str(&mut line, id.as_str());
    crate::text::push_str(&mut line, " ");
    crate::text::push_str(&mut line, step_status_name(&step.status));
    crate::text::push_str(&mut line, " attempts=");
    crate::text::push_str(&mut line, crate::text::u64_to_string(step.attempts as u64).as_str());
    crate::text::push_str(&mut line, " rounds=");
    crate::text::push_str(&mut line, crate::text::u64_to_string(step.rounds as u64).as_str());
    let ghost base = line@;
    let limit = if max_text < 160 { max_text } else { 160 };
    let detail = match &step.error {
        Some(e) => Some(truncate(e.as_str(), limit).text),
        None => match &step.approval_decision {
            Some(a) => Some(truncate(a.as_str(), limit).text),
            None => None,
        },
    };
    match detail {
        Some(d) => {
            crate::text::push_str(&mut line, " — ");
            crate::text::push_str(&mut line, d.as_str());
            crate::text::push_str(&mut line, "\n");
        },
        None => {
            crate::text::push_str(&mut line, "\n");
        },
    }
    proof {
        assert(line@ =~= step_line(id@, *step, max_text as int));
    }
    line
}

fn footer_text(n: usize) -> (r: String)
    ensures
        r@ == omitted_footer(n as nat),
{
    let mut f = to_owned_string("omitted ");
    crate::text::push_str(&mut f, crate::text::u64_to_string(n as u64).as_str());
    crate::text::push_str(&mut f, " steps\n");
    proof {
        assert(f@ =~= omitted_footer(n as nat));
    }
    f
}

fn count_fitting(lines: &Vec<String>, header_len: usize, max: usize) -> (r: usize)
    requires
        header_len <= max,
    ensures
        r == fit_count(lines@.map_values(|l: String| l@), 0, header_len as int, max as int),
        r <= lines@.len(),
{
    let ghost ls = lines@.map_values(|l: String| l@);
    let mut k: usize = 0;
    let mut used: usize = header_len;
    while k < lines.len()
        invariant
            k <= lines@.len(),
            ls == lines@.map_values(|l: String| l@),
            used <= max,
            fit_count(ls, 0, header_len as int, max as int) == k + fit_count(ls, k as int, used as int, max as int),
        decreases lines.len() - k,
    {
        let remaining = lines.len() - k - 1;
        let footer_len: usize = if remaining > 0 { utf8_byte_len(footer_text(remaining).as_str()) } else { 0 };
        let line_len = utf8_byte_len(lines[k].as_str());
        proof {
            assert(ls[k as int] == lines@[k as int]@);
        }
        if (used as u128) + (line_len as u128) + (footer_len as u128) > (max as u128) {
            return k;
        }
        used = used + line_len;
        k = k + 1;
    }
    k
}

/// A bounded, deterministic text digest of a run: a header with its status and
/// next action, then one line per step (failures and approvals first), as many as
/// fit in `max_bytes`, and a footer counting the steps left out.
pub fn digest_text(checkpoint: &RunCheckpoint, max_bytes: usize, limits: &ExecutionQueryLimits) -> (r: Result<(String, usize), ExecutionQueryError>)
    ensures
        ({
            let header = "run "@ + checkpoint.run_id@ + " status "@ + run_status_name(checkpoint.status) + "\nnext "@
                + truncate_spec(checkpoint.next_action@, limits.max_text_bytes as int).0 + "\n"@;
            &&& forall|lines: Seq<DigestLine>| lines_of(checkpoint.steps@, lines, limits.max_text_bytes as int) ==>
                match r {
                    Ok((text, omitted)) => digest_text_spec(header, sorted_texts(lines), max_bytes as int) == Some((text@, omitted as nat)),
                    Err(e) => e is BudgetTooSmall && digest_text_spec(header, sorted_texts(lines), max_bytes as int) is None,
                }
        }),
        r is Ok ==> exists|lines: Seq<DigestLine>| lines_of(checkpoint.steps@, lines, limits.max_text_bytes as int),
        r matches Err(e) ==> e is BudgetTooSmall,
{
    let next = truncate(checkpoint.next_action.as_str(), limits.max_text_bytes);
    let mut header = to_owned_string("run ");
    crate::text::push_str(&mut header, checkpoint.run_id.as_str());
    crate::text::push_str(&mut header, " status ");
    crate::text::push_str(&mut header, status_name(&checkpoint.status));
    crate::text::push_str(&mut header, "\nnext ");
    crate::text::push_str(&mut header, next.text.as_str());
    crate::text::push_str(&mut header, "\n");
    let ghost h = header@;
    proof {
        assert(h =~= "run "@ + checkpoint.run_id@ + " status "@ + run_status_name(checkpoint.status) + "\nnext "@
            + truncate_spec(checkpoint.next_action@, limits.max_text_bytes as int).0 + "\n"@);
    }
    let header_len = utf8_byte_len(header.as_str());
    if header_len > max_bytes {
        return Err(ExecutionQueryError::BudgetTooSmall);
    }
    let mut built: Vec<DigestLine> = Vec::new();
    let mut sorted: Vec<DigestLine> = Vec::new();
    let mut i: usize = 0;
    while i < checkpoint.steps.len()
        invariant
            i <= checkpoint.steps@.len(),
            lines_of(checkpoint.steps@.take(i as int), built@, limits.max_text_bytes as int),
            sorted@ == sorted_lines(built@),
        decreases checkpoint.steps.len() - i,
    {
        let id = &checkpoint.steps[i].0;
        let step = &checkpoint.steps[i].1;
        let line = DigestLine {
            priority: digest_priority(&step.status),
            id: id.clone(),
            line: digest_step_line(id, step, limits.max_text_bytes),
        };
        let ghost x = line;
        let ghost before = built@;
        built.push(DigestLine { priority: line.priority, id: line.id.clone(), line: line.line.clone() });
        insert_digest_line(&mut sorted, line);
        proof {
            assert(built@.drop_last() =~= before);
            assert(built@.last() == x);
            assert(lines_of(checkpoint.steps@.take(i + 1), built@, limits.max_text_bytes as int)) by {
                assert forall|k: int| 0 <= k < i + 1 implies {
                    &&& (#[trigger] built@[k]).priority == priority_of(checkpoint.steps@.take(i + 1)[k].1.status)
                    &&& built@[k].id == checkpoint.steps@.take(i + 1)[k].0
                    &&& built@[k].line@ == step_line(checkpoint.steps@.take(i + 1)[k].0@, checkpoint.steps@.take(i + 1)[k].1, limits.max_text_bytes as int)
                } by {
                    if k < i {
                        assert(built@[k] == before[k]);
                        assert(checkpoint.steps@.take(i + 1)[k] == checkpoint.steps@.take(i as int)[k]);
                    }
                }
            }
        }
        i = i + 1;
    }
    proof {
        assert(checkpoint.steps@.take(checkpoint.steps@.len() as int) =~= checkpoint.steps@);
    }
    let mut texts: Vec<String> = Vec::new();
    let mut j: usize = 0;
    while j < sorted.len()
        invariant
            j <= sorted@.len(),
            texts@.len() == j,
            texts@.map_values(|l: String| l@) == sorted@.take(j as int).map_values(|l: DigestLine| l.line@),
        decreases sorted.len() - j,
    {
        let t = sorted[j].line.clone();
        let ghost before = texts@;
        texts.push(t);
        proof {
            assert(texts@[j as int]@ == sorted@[j as int].line@);
            assert(texts@.map_values(|l: String| l@) =~= before.map_values(|l: String| l@).push(sorted@[j as int].line@));
            assert(sorted@.take(j + 1).map_values(|l: DigestLine| l.line@) =~= sorted@.take(j as int).map_values(|l: DigestLine| l.line@).push(sorted@[j as int].line@));
            assert(texts@.map_values(|l: String| l@) =~= sorted@.take(j + 1).map_values(|l: DigestLine| l.line@));
        }
        j = j + 1;
    }
    let ghost ls = texts@.map_values(|l: String| l@);
    proof {
        assert(sorted@.take(sorted@.len() as int) =~= sorted@);
        assert(ls == sorted_texts(built@));
    }
    let n = count_fitting(&texts, header_len, max_bytes);
    let mut text = header;
    let mut k: usize = 0;
    proof {
        assert(ls.take(0) =~= Seq::<Seq<char>>::empty());
    }
    while k < n
        invariant
            k <= n <= texts@.len(),
            ls == texts@.map_values(|l: String| l@),
            text@ == h + flatten(ls.take(k as int)),
        decreases n - k,
    {
        proof {
            lemma_flatten_len(ls, k as int);
            assert(ls[k as int] == texts@[k as int]@);
        }
        crate::text::push_str(&mut text, texts[k].as_str());
        proof {
            assert(text@ =~= h + flatten(ls.take(k + 1)));
        }
        k = k + 1;
    }
    let omitted = texts.len() - n;
    if omitted > 0 {
        let footer = footer_text(omitted);
        let text_len = utf8_byte_len(text.as_str());
        let footer_len = utf8_byte_len(footer.as_str());
        if (text_len as u128) + (footer_len as u128) > (max_bytes as u128) {
            proof {
                assert forall|lines: Seq<DigestLine>| lines_of(checkpoint.steps@, lines, limits.max_text_bytes as int)
                    implies sorted_texts(lines) == ls by {
                    lemma_lines_unique(checkpoint.steps@, lines, built@, limits.max_text_bytes as int);
                }
            }
            return Err(ExecutionQueryError::BudgetTooSmall);
        }
        crate::text::push_str(&mut text, footer.as_str());
    }
    proof {
        assert forall|lines: Seq<DigestLine>| lines_of(checkpoint.steps@, lines, limits.max_text_bytes as int)
            implies sorted_texts(lines) == ls by {
            lemma_lines_unique(checkpoint.steps@, lines, built@, limits.max_text_bytes as int);
        }
        assert(lines_of(checkpoint.steps@, built@, limits.max_text_bytes as int));
    }
    Ok((text, omitted))
}

/// Two line lists of the same steps order into the same texts.
proof fn lemma_lines_unique(steps: Seq<(String, StepCheckpoint)>, a: Seq<DigestLine>, b: Seq<DigestLine>, max_text: int)
    requires
        lines_of(steps, a, max_text),
        lines_of(steps, b, max_text),
    ensures
        sorted_texts(a) == sorted_texts(b),
{
    assert(a.map_values(|l: DigestLine| (l.priority, l.id@, l.line@)) =~= b.map_values(|l: DigestLine| (l.priority, l.id@, l.line@)));
    lemma_sorted_lines_congruent(a, b);
}

proof fn lemma_sorted_lines_congruent(a: Seq<DigestLine>, b: Seq<DigestLine>)
    requires
        a.map_values(|l: DigestLine| (l.priority, l.id@, l.line@)) == b.map_values(|l: DigestLine| (l.priority, l.id@, l.line@)),
    ensures
        sorted_lines(a).map_values(|l: DigestLine| (l.priority, l.id@, l.line@)) == sorted_lines(b).map_values(|l: DigestLine| (l.priority, l.id@, l.line@)),
        sorted_texts(a) == sorted_texts(b),
    decreases a.len(),
{
    assert(a.len() == b.len()) by {
        assert(a.map_values(|l: DigestLine| (l.priority, l.id@, l.line@)).len() == a.len());
    }
    if a.len() > 0 {
        assert(a.drop_last().map_values(|l: DigestLine| (l.priority, l.id@, l.line@)) =~= b.drop_last().map_values(|l: DigestLine| (l.priority, l.id@, l.line@))) by {
            assert forall|i: int| 0 <= i < a.len() - 1 implies (a.drop_last()[i].priority, a.drop_last()[i].id@, a.drop_last()[i].line@)
                == (b.drop_last()[i].priority, b.drop_last()[i].id@, b.drop_last()[i].line@) by {
                assert(a.map_values(|l: DigestLine| (l.priority, l.id@, l.line@))[i] == b.map_values(|l: DigestLine| (l.priority, l.id@, l.line@))[i]);
            }
        }
        lemma_sorted_lines_congruent(a.drop_last(), b.drop_last());
        let k = a.len() - 1;
        assert(a.map_values(|l: DigestLine| (l.priority, l.id@, l.line@))[k] == b.map_values(|l: DigestLine| (l.priority, l.id@, l.line@))[k]);
        lemma_insert_congruent(sorted_lines(a.drop_last()), sorted_lines(b.drop_last()), a.last(), b.last());
    }
    assert(sorted_texts(a) =~= sorted_texts(b)) by {
        let sa = sorted_lines(a).map_values(|l: DigestLine| (l.priority, l.id@, l.line@));
        let sb = sorted_lines(b).map_values(|l: DigestLine| (l.priority, l.id@, l.line@));
        assert(sa.len() == sorted_lines(a).len());
        assert(sb.len() == sorted_lines(b).len());
        assert(sorted_texts(a).len() == sorted_texts(b).len());
        assert forall|i: int| 0 <= i < sorted_texts(a).len() implies sorted_texts(a)[i] == sorted_texts(b)[i] by {
            assert(sa[i] == sb[i]);
            assert(sa[i].2 == sorted_lines(a)[i].line@);
            assert(sb[i].2 == sorted_lines(b)[i].line@);
        }
    }
}

proof fn lemma_insert_congruent(a: Seq<DigestLine>, b: Seq<DigestLine>, x: DigestLine, y: DigestLine)
    requires
        a.map_values(|l: DigestLine| (l.priority, l.id@, l.line@)) == b.map_values(|l: DigestLine| (l.priority, l.id@, l.line@)),
        (x.priority, x.id@, x.line@) == (y.priority, y.id@, y.line@),
    ensures
        insert_line(a, x).map_values(|l: DigestLine| (l.priority, l.id@, l.line@)) == insert_line(b, y).map_values(|l: DigestLine| (l.priority, l.id@, l.line@)),
    decreases a.len(),
{
    assert(a.len() == b.len()) by {
        assert(a.map_values(|l: DigestLine| (l.priority, l.id@, l.line@)).len() == a.len());
    }
    let f = |l: DigestLine| (l.priority, l.id@, l.line@);
    if a.len() > 0 {
        assert(a.map_values(f)[a.len() - 1] == b.map_values(f)[b.len() - 1]);
        assert(digest_order(a.last(), x) == digest_order(b.last(), y));
        if digest_order(a.last(), x) > 0 {
            assert(a.drop_last().map_values(f) =~= b.drop_last().map_values(f)) by {
                assert forall|i: int| 0 <= i < a.len() - 1 implies a.drop_last().map_values(f)[i] == b.drop_last().map_values(f)[i] by {
                    assert(a.map_values(f)[i] == b.map_values(f)[i]);
                }
            }
            lemma_insert_congruent(a.drop_last(), b.drop_last(), x, y);
            assert(insert_line(a, x).map_values(f) =~= insert_line(a.drop_last(), x).map_values(f).push(f(a.last())));
            assert(insert_line(b, y).map_values(f) =~= insert_line(b.drop_last(), y).map_values(f).push(f(b.last())));
        } else {
            assert(insert_line(a, x).map_values(f) =~= a.map_values(f).push(f(x)));
            assert(insert_line(b, y).map_values(f) =~= b.map_values(f).push(f(y)));
        }
    } else {
        assert(insert_line(a, x).map_values(f) =~= seq![f(x)]);
        assert(insert_line(b, y).map_values(f) =~= seq![f(y)]);
    }
}


/// A checkpoint read for `run_id` answers a query only when it is that run's, its
/// id is a valid identity, and the asking task is the run's parent.
pub fn authorize_checkpoint(
    checkpoint: &RunCheckpoint,
    run_id: &str,
    parent_thread_id: &str,
    limits: &ExecutionQueryLimits,
) -> (r: Result<(), ExecutionQueryError>)
    ensures
        r is Ok <==> (checkpoint.run_id@ == run_id@ && identity_ok(checkpoint.run_id@, limits.max_identity_bytes as int)
            && checkpoint.parent_thread_id@ == parent_thread_id@),
        r matches Err(e) ==> (if checkpoint.run_id@ != run_id@ {
            e matches ExecutionQueryError::InvalidCheckpoint(m) && m@ == "run id does not match checkpoint path"@
        } else if !identity_ok(checkpoint.run_id@, limits.max_identity_bytes as int) {
            e is InvalidIdentity
        } else {
            e is Unauthorized
        }),
{
    if !str_eq(checkpoint.run_id.as_str(), run_id) {
        return Err(ExecutionQueryError::InvalidCheckpoint(to_owned_string("run id does not match checkpoint path")));
    }
    if validate_identity(checkpoint.run_id.as_str(), limits.max_identity_bytes).is_err() {
        return Err(ExecutionQueryError::InvalidIdentity);
    }
    if !str_eq(checkpoint.parent_thread_id.as_str(), parent_thread_id) {
        return Err(ExecutionQueryError::Unauthorized);
    }
    Ok(())
}

/// The digest of an authorized run, given the digest of its canonical state.
pub fn run_digest(
    checkpoint: &RunCheckpoint,
    state_sha256: String,
    max_bytes: usize,
    limits: &ExecutionQueryLimits,
) -> (r: Result<RunDigest, ExecutionQueryError>)
    ensures
        match r {
            Ok(d) => {
                &&& 0 < max_bytes <= limits.max_digest_bytes
                &&& d.run_id == checkpoint.run_id
                &&& d.state_sha256 == state_sha256
                &&& utf8_len(d.text@) <= max_bytes
                &&& d.omitted_steps <= checkpoint.steps@.len()
                &&& forall|lines: Seq<DigestLine>| lines_of(checkpoint.steps@, lines, limits.max_text_bytes as int) ==>
                    digest_text_spec(
                        "run "@ + checkpoint.run_id@ + " status "@ + run_status_name(checkpoint.status) + "\nnext "@
                            + truncate_spec(checkpoint.next_action@, limits.max_text_bytes as int).0 + "\n"@,
                        sorted_texts(lines),
                        max_bytes as int,
                    ) == Some((d.text@, d.omitted_steps as nat))
            },
            Err(e) => (e is InvalidBudget && !(0 < max_bytes <= limits.max_digest_bytes)) || (e is BudgetTooSmall
                && 0 < max_bytes <= limits.max_digest_bytes
                && forall|lines: Seq<DigestLine>| lines_of(checkpoint.steps@, lines, limits.max_text_bytes as int) ==>
                    digest_text_spec(
                        "run "@ + checkpoint.run_id@ + " status "@ + run_status_name(checkpoint.status) + "\nnext "@
                            + truncate_spec(checkpoint.next_action@, limits.max_text_bytes as int).0 + "\n"@,
                        sorted_texts(lines),
                        max_bytes as int,
                    ) is None),
        },
{
    if checked_digest_budget(max_bytes, limits).is_err() {
        return Err(ExecutionQueryError::InvalidBudget);
    }
    match digest_text(checkpoint, max_bytes, limits) {
        Ok((text, omitted)) => {
            proof {
                let header = "run "@ + checkpoint.run_id@ + " status "@ + run_status_name(checkpoint.status) + "\nnext "@
                    + truncate_spec(checkpoint.next_action@, limits.max_text_bytes as int).0 + "\n"@;
                let lines = choose|lines: Seq<DigestLine>| lines_of(checkpoint.steps@, lines, limits.max_text_bytes as int);
                assert(lines_of(checkpoint.steps@, lines, limits.max_text_bytes as int));
                assert(digest_text_spec(header, sorted_texts(lines), max_bytes as int) == Some((text@, omitted as nat)));
                lemma_digest_bounded(header, sorted_texts(lines), max_bytes as int);
                lemma_sorted_lines_len(lines);
            }
            Ok(RunDigest { run_id: checkpoint.run_id.clone(), state_sha256, text, omitted_steps: omitted })
        },
        Err(e) => Err(e),
    }
}

proof fn lemma_sorted_lines_len(s: Seq<DigestLine>)
    ensures
        sorted_lines(s).len() == s.len(),
        sorted_texts(s).len() == s.len(),
    decreases s.len(),
{
    if s.len() > 0 {
        lemma_sorted_lines_len(s.drop_last());
        lemma_insert_line_len(sorted_lines(s.drop_last()), s.last());
    }
}

proof fn lemma_insert_line_len(sorted: Seq<DigestLine>, x: DigestLine)
    ensures
        insert_line(sorted, x).len() == sorted.len() + 1,
    decreases sorted.len(),
{
    if sorted.len() > 0 && digest_order(sorted.last(), x) > 0 {
        lemma_insert_line_len(sorted.drop_last(), x);
    }
}

} // verus!
