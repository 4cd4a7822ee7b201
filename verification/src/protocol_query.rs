//! The wire vocabulary of Orchestra runs and queries, and the projections of
//! plans, checkpoints and query results into it.
use crate::json::JsonValue;
use crate::plan::Action;
use crate::plan::ExecutionPlan;
use crate::plan::Step;
use crate::protocol::bounded_text;
use crate::protocol::bounded_text_spec;
use crate::protocol::promotion_wire;
use crate::protocol::project_promotion;
use crate::protocol::project_run_status;
use crate::protocol::project_step_status;
use crate::protocol::run_status_wire;
use crate::protocol::step_status_wire;
use crate::protocol::OrchestraAgentReference;
use crate::protocol::OrchestraBoundedText;
use crate::protocol::OrchestraPromotionStatus;
use crate::protocol::OrchestraRunStatus;
use crate::protocol::OrchestraStepStatus;
use crate::query::BoundedText;
use crate::query::EvidenceAvailability;
use crate::query::EvidenceContentProjection;
use crate::query::EvidenceKind;
use crate::query::EvidenceProvenance;
use crate::query::EvidenceReference;
use crate::query::ExecutionHistoryRecord;
use crate::query::ExecutionQueryResult;
use crate::query::HistoryCursor;
use crate::query::OutputProjection;
use crate::query::RunCheckpoint;
use crate::query::StepCheckpoint;
use crate::query::StepProjection;
use vstd::prelude::*;

verus! {

pub struct OrchestraRunParams {
    pub thread_id: String,
    pub run_id: String,
}

#[derive(Clone, Copy, Debug, PartialEq, Eq, Structural)]
pub enum OrchestraQueryKind {
    Run,
    Steps,
    Outputs,
    Evidence,
    EvidenceContent,
    History,
    Digest,
}

pub struct OrchestraHistoryCursor {
    pub sequence: u64,
    pub item_id: String,
    pub revision: u64,
}

pub struct OrchestraQueryParams {
    pub thread_id: String,
    pub run_id: String,
    pub selector: OrchestraQueryKind,
    pub step_id: Option<String>,
    pub evidence_id: Option<String>,
    pub after: Option<String>,
    pub history_after: Option<OrchestraHistoryCursor>,
    pub max_items: Option<u32>,
    pub max_bytes: Option<u32>,
}

#[derive(Clone, Copy, Debug, PartialEq, Eq, Structural)]
pub struct OrchestraStepCounts {
    pub pending: usize,
    pub running: usize,
    pub retrying: usize,
    pub waiting_approval: usize,
    pub completed: usize,
    pub failed: usize,
    pub cancelled: usize,
}

pub struct OrchestraExecutionRunProjection {
    pub schema_version: u32,
    pub run_id: String,
    pub workflow_sha256: String,
    pub source_revision: String,
    pub status: OrchestraRunStatus,
    pub promotion: OrchestraPromotionStatus,
    pub step_counts: OrchestraStepCounts,
    pub next_action: OrchestraBoundedText,
}

pub struct OrchestraExecutionStepProjection {
    pub id: String,
    pub status: OrchestraStepStatus,
    pub attempts: u32,
    pub rounds: u32,
    pub agent: Option<OrchestraAgentReference>,
    pub context_sha256: Option<String>,
    pub approval_decision: Option<OrchestraBoundedText>,
    pub error: Option<OrchestraBoundedText>,
    pub output_count: usize,
}

pub struct OrchestraStepsPage {
    pub items: Vec<OrchestraExecutionStepProjection>,
    pub next: Option<String>,
}

pub struct OrchestraOutputProjection {
    pub step_id: String,
    pub name: String,
    pub sha256: String,
    pub canonical_bytes: usize,
    pub value: Option<JsonValue>,
}

pub struct OrchestraOutputsPage {
    pub items: Vec<OrchestraOutputProjection>,
    pub next: Option<String>,
}

#[derive(Clone, Copy, Debug, PartialEq, Eq, Structural)]
pub enum OrchestraEvidenceKind {
    Check,
    Change,
    Skill,
    Other,
}

#[derive(Clone, Copy, Debug, PartialEq, Eq, Structural)]
pub enum OrchestraEvidenceProvenance {
    RuntimeCheck,
    RuntimeChange,
    SkillSnapshot,
    RuntimeOther,
}

#[derive(Clone, Copy, Debug, PartialEq, Eq, Structural)]
pub enum OrchestraEvidenceAvailability {
    Available,
    ContentTooLarge,
    Malformed,
}

pub struct OrchestraEvidenceReference {
    pub evidence_id: String,
    pub name: String,
    pub kind: OrchestraEvidenceKind,
    pub provenance: OrchestraEvidenceProvenance,
    pub step_id: Option<String>,
    pub bytes: u64,
    pub sha256: Option<String>,
    pub availability: OrchestraEvidenceAvailability,
}

pub struct OrchestraEvidenceContentProjection {
    pub evidence_id: String,
    pub name: String,
    pub kind: OrchestraEvidenceKind,
    pub provenance: OrchestraEvidenceProvenance,
    pub availability: OrchestraEvidenceAvailability,
    pub bytes: u64,
    pub sha256: Option<String>,
    pub media_type: String,
    pub content: Option<String>,
}

pub struct OrchestraEvidencePage {
    pub items: Vec<OrchestraEvidenceReference>,
    pub next: Option<String>,
}

pub struct OrchestraHistoryRecord {
    pub sequence: u64,
    pub item_id: String,
    pub revision: u64,
    pub kind: String,
    pub step_id: Option<String>,
    pub summary: String,
}

pub struct OrchestraHistoryPage {
    pub items: Vec<OrchestraHistoryRecord>,
    pub next: Option<OrchestraHistoryCursor>,
}

pub struct OrchestraRunDigest {
    pub run_id: String,
    pub state_sha256: String,
    pub text: String,
    pub omitted_steps: usize,
}

pub enum OrchestraQueryResult {
    Run(OrchestraExecutionRunProjection),
    Steps(OrchestraStepsPage),
    Outputs(OrchestraOutputsPage),
    Evidence(OrchestraEvidencePage),
    EvidenceContent(OrchestraEvidenceContentProjection),
    History(OrchestraHistoryPage),
    Digest(OrchestraRunDigest),
}

#[derive(Clone, Copy, Debug, PartialEq, Eq, Structural)]
pub enum OrchestraStepKind {
    Agent,
    Check,
    Approval,
}

pub struct OrchestraWorkflowStep {
    pub id: String,
    pub kind: OrchestraStepKind,
    pub needs: Vec<String>,
    pub max_attempts: u32,
}

pub struct OrchestraWorkflowPlan {
    pub name: String,
    pub description: String,
    pub max_parallel: u32,
    pub steps: Vec<OrchestraWorkflowStep>,
}

pub struct OrchestraValidateResponse {
    pub valid: bool,
    pub plan: OrchestraWorkflowPlan,
}

pub struct OrchestraStepProjection {
    pub id: String,
    pub status: OrchestraStepStatus,
    pub attempts: u32,
    pub rounds: u32,
    pub output_keys: Vec<String>,
    pub final_response: Option<String>,
    pub error: Option<String>,
}

pub struct OrchestraRunProjection {
    pub schema_version: u32,
    pub run_id: String,
    pub workflow_sha256: String,
    pub parent_thread_id: String,
    pub source_revision: String,
    pub status: OrchestraRunStatus,
    pub promotion: OrchestraPromotionStatus,
    pub steps: Vec<OrchestraStepProjection>,
    pub next_action: String,
}

pub struct OrchestraRunResponse {
    pub run: OrchestraRunProjection,
}

#[derive(Clone, Copy, Debug, PartialEq, Eq, Structural)]
pub enum OrchestraLifecycleKind {
    Invoked,
    Resumed,
    Cancelled,
    Recovered,
}

pub struct OrchestraReplayEvent {
    pub schema_version: u32,
    pub event_id: String,
    pub run_id: String,
    pub sequence: u64,
    pub revision: u64,
    pub kind: OrchestraLifecycleKind,
    pub projection: OrchestraRunProjection,
}

pub struct OrchestraTaskReplay {
    pub latest: OrchestraReplayEvent,
    pub events: Vec<OrchestraReplayEvent>,
    pub replay_truncated: bool,
}

// ---- plan and checkpoint projections -------------------------------------------------

pub open spec fn step_kind_of(a: Action) -> OrchestraStepKind {
    match a {
        Action::Agent(_) => OrchestraStepKind::Agent,
        Action::Check(_) => OrchestraStepKind::Check,
        Action::Approval(_) => OrchestraStepKind::Approval,
    }
}

pub open spec fn plan_step_projected(p: OrchestraWorkflowStep, s: Step) -> bool {
    p.id == s.id && p.kind == step_kind_of(s.action) && p.needs == s.needs && p.max_attempts == s.max_attempts
}

/// A plan on the wire: its name, bounded description, parallelism (saturated to
/// `u32`), and each step's id, kind, dependencies and attempts.
pub fn project_plan(plan: ExecutionPlan) -> (r: OrchestraWorkflowPlan)
    ensures
        r.name == plan.name,
        r.description@ == bounded_text_spec(plan.description@),
        r.max_parallel == if plan.max_parallel <= u32::MAX { plan.max_parallel as u32 } else { u32::MAX },
        r.steps@.len() == plan.steps@.len(),
        forall|i: int| 0 <= i < plan.steps@.len() ==> #[trigger] plan_step_projected(r.steps@[i], plan.steps@[i]),
{
    let ghost all = plan.steps@;
    let mut rest = plan.steps;
    let mut steps: Vec<OrchestraWorkflowStep> = Vec::new();
    while rest.len() > 0
        invariant
            steps@.len() + rest@.len() == all.len(),
            rest@ == all.skip(steps@.len() as int),
            forall|i: int| 0 <= i < steps@.len() ==> #[trigger] plan_step_projected(steps@[i], all[i]),
        decreases rest.len(),
    {
        let step = rest.remove(0);
        proof {
            assert(step == all[steps@.len() as int]);
        }
        let kind = match step.action {
            Action::Agent(_) => OrchestraStepKind::Agent,
            Action::Check(_) => OrchestraStepKind::Check,
            Action::Approval(_) => OrchestraStepKind::Approval,
        };
        steps.push(OrchestraWorkflowStep { id: step.id, kind, needs: step.needs, max_attempts: step.max_attempts });
        proof {
            assert(rest@ =~= all.skip(steps@.len() as int));
        }
    }
    OrchestraWorkflowPlan {
        name: plan.name,
        description: bounded_text(plan.description),
        max_parallel: if plan.max_parallel <= 4294967295 { plan.max_parallel as u32 } else { u32::MAX },
        steps,
    }
}

pub open spec fn optional_bounded_text(p: Option<String>, s: Option<String>) -> bool {
    match (p, s) {
        (Some(b), Some(t)) => b@ == bounded_text_spec(t@),
        (None, None) => true,
        _ => false,
    }
}

pub open spec fn output_keys_of(s: StepCheckpoint) -> Seq<Seq<char>> {
    s.outputs@.map_values(|o: (String, JsonValue)| o.0@)
}

pub open spec fn checkpoint_step_projected(p: OrchestraStepProjection, id: String, s: StepCheckpoint) -> bool {
    &&& p.id == id
    &&& p.status == step_status_wire(s.status)
    &&& p.attempts == s.attempts
    &&& p.rounds == s.rounds
    &&& p.output_keys@.map_values(|k: String| k@) == output_keys_of(s)
    &&& optional_bounded_text(p.final_response, s.final_response)
    &&& optional_bounded_text(p.error, s.error)
}

fn bounded_option(t: Option<String>) -> (r: Option<String>)
    ensures
        optional_bounded_text(r, t),
{
    match t {
        Some(x) => Some(bounded_text(x)),
        None => None,
    }
}

fn output_keys(outputs: Vec<(String, JsonValue)>) -> (r: Vec<String>)
    ensures
        r@.map_values(|k: String| k@) == outputs@.map_values(|o: (String, JsonValue)| o.0@),
{
    let ghost all = outputs@;
    let mut rest = outputs;
    let mut keys: Vec<String> = Vec::new();
    while rest.len() > 0
        invariant
            keys@.len() + rest@.len() == all.len(),
            rest@ == all.skip(keys@.len() as int),
            forall|i: int| 0 <= i < keys@.len() ==> (#[trigger] keys@[i])@ == all[i].0@,
        decreases rest.len(),
    {
        let (k, _v) = rest.remove(0);
        proof {
            assert((k, _v) == all[keys@.len() as int]);
        }
        keys.push(k);
        proof {
            assert(rest@ =~= all.skip(keys@.len() as int));
        }
    }
    proof {
        assert(keys@.map_values(|k: String| k@) =~= all.map_values(|o: (String, JsonValue)| o.0@));
    }
    keys
}

/// A run checkpoint on the wire: identity, status, and each step with its output
/// names and bounded texts.
pub fn project_checkpoint(checkpoint: RunCheckpoint) -> (r: OrchestraRunProjection)
    ensures
        r.schema_version == checkpoint.schema_version,
        r.run_id == checkpoint.run_id,
        r.workflow_sha256 == checkpoint.workflow_sha256,
        r.parent_thread_id == checkpoint.parent_thread_id,
        r.source_revision == checkpoint.source_revision,
        r.status == run_status_wire(checkpoint.status),
        r.promotion == promotion_wire(checkpoint.promotion),
        r.steps@.len() == checkpoint.steps@.len(),
        forall|i: int| 0 <= i < checkpoint.steps@.len() ==> #[trigger] checkpoint_step_projected(r.steps@[i], checkpoint.steps@[i].0, checkpoint.steps@[i].1),
        r.next_action@ == bounded_text_spec(checkpoint.next_action@),
{
    let ghost all = checkpoint.steps@;
    let mut rest = checkpoint.steps;
    let mut steps: Vec<OrchestraStepProjection> = Vec::new();
    while rest.len() > 0
        invariant
            steps@.len() + rest@.len() == all.len(),
            rest@ == all.skip(steps@.len() as int),
            forall|i: int| 0 <= i < steps@.len() ==> #[trigger] checkpoint_step_projected(steps@[i], all[i].0, all[i].1),
        decreases rest.len(),
    {
        let (id, step) = rest.remove(0);
        proof {
            assert((id, step) == all[steps@.len() as int]);
        }
        let p = OrchestraStepProjection {
            id,
            status: project_step_status(step.status),
            attempts: step.attempts,
            rounds: step.rounds,
            output_keys: output_keys(step.outputs),
            final_response: bounded_option(step.final_response),
            error: bounded_option(step.error),
        };
        steps.push(p);
        proof {
            assert(rest@ =~= all.skip(steps@.len() as int));
        }
    }
    OrchestraRunProjection {
        schema_version: checkpoint.schema_version,
        run_id: checkpoint.run_id,
        workflow_sha256: checkpoint.workflow_sha256,
        parent_thread_id: checkpoint.parent_thread_id,
        source_revision: checkpoint.source_revision,
        status: project_run_status(checkpoint.status),
        promotion: project_promotion(checkpoint.promotion),
        steps,
        next_action: bounded_text(checkpoint.next_action),
    }
}


// ---- query results ----------------------------------------------------------------

pub open spec fn text_wire(p: OrchestraBoundedText, b: BoundedText) -> bool {
    p.text == b.text && p.truncated == b.truncated
}

pub open spec fn optional_text_wire(p: Option<OrchestraBoundedText>, b: Option<BoundedText>) -> bool {
    match (p, b) {
        (Some(x), Some(y)) => text_wire(x, y),
        (None, None) => true,
        _ => false,
    }
}

pub fn project_bounded_text(text: BoundedText) -> (r: OrchestraBoundedText)
    ensures
        text_wire(r, text),
{
    OrchestraBoundedText { text: text.text, truncated: text.truncated }
}

fn project_optional_text(text: Option<BoundedText>) -> (r: Option<OrchestraBoundedText>)
    ensures
        optional_text_wire(r, text),
{
    match text {
        Some(t) => Some(project_bounded_text(t)),
        None => None,
    }
}

pub open spec fn evidence_kind_wire(k: EvidenceKind) -> OrchestraEvidenceKind {
    match k {
        EvidenceKind::Check => OrchestraEvidenceKind::Check,
        EvidenceKind::Change => OrchestraEvidenceKind::Change,
        EvidenceKind::Skill => OrchestraEvidenceKind::Skill,
        EvidenceKind::Other => OrchestraEvidenceKind::Other,
    }
}

fn project_evidence_kind(k: EvidenceKind) -> (r: OrchestraEvidenceKind)
    ensures
        r == evidence_kind_wire(k),
{
    match k {
        EvidenceKind::Check => OrchestraEvidenceKind::Check,
        EvidenceKind::Change => OrchestraEvidenceKind::Change,
        EvidenceKind::Skill => OrchestraEvidenceKind::Skill,
        EvidenceKind::Other => OrchestraEvidenceKind::Other,
    }
}

pub open spec fn provenance_wire(p: EvidenceProvenance) -> OrchestraEvidenceProvenance {
    match p {
        EvidenceProvenance::RuntimeCheck => OrchestraEvidenceProvenance::RuntimeCheck,
        EvidenceProvenance::RuntimeChange => OrchestraEvidenceProvenance::RuntimeChange,
        EvidenceProvenance::SkillSnapshot => OrchestraEvidenceProvenance::SkillSnapshot,
        EvidenceProvenance::RuntimeOther => OrchestraEvidenceProvenance::RuntimeOther,
    }
}

pub fn project_evidence_provenance(provenance: EvidenceProvenance) -> (r: OrchestraEvidenceProvenance)
    ensures
        r == provenance_wire(provenance),
{
    match provenance {
        EvidenceProvenance::RuntimeCheck => OrchestraEvidenceProvenance::RuntimeCheck,
        EvidenceProvenance::RuntimeChange => OrchestraEvidenceProvenance::RuntimeChange,
        EvidenceProvenance::SkillSnapshot => OrchestraEvidenceProvenance::SkillSnapshot,
        EvidenceProvenance::RuntimeOther => OrchestraEvidenceProvenance::RuntimeOther,
    }
}

pub open spec fn availability_wire(a: EvidenceAvailability) -> OrchestraEvidenceAvailability {
    match a {
        EvidenceAvailability::Available => OrchestraEvidenceAvailability::Available,
        EvidenceAvailability::ContentTooLarge => OrchestraEvidenceAvailability::ContentTooLarge,
        EvidenceAvailability::Malformed => OrchestraEvidenceAvailability::Malformed,
    }
}

pub fn project_evidence_availability(availability: EvidenceAvailability) -> (r: OrchestraEvidenceAvailability)
    ensures
        r == availability_wire(availability),
{
    match availability {
        EvidenceAvailability::Available => OrchestraEvidenceAvailability::Available,
        EvidenceAvailability::ContentTooLarge => OrchestraEvidenceAvailability::ContentTooLarge,
        EvidenceAvailability::Malformed => OrchestraEvidenceAvailability::Malformed,
    }
}

pub open spec fn step_wire(p: OrchestraExecutionStepProjection, s: StepProjection) -> bool {
    &&& p.id == s.id
    &&& p.status == step_status_wire(s.status)
    &&& p.attempts == s.attempts
    &&& p.rounds == s.rounds
    &&& match (p.agent, s.agent) {
        (Some(a), Some(b)) => a.thread_id == b.thread_id && a.task_path == b.task_path,
        (None, None) => true,
        _ => false,
    }
    &&& p.context_sha256 == s.context_sha256
    &&& optional_text_wire(p.approval_decision, s.approval_decision)
    &&& optional_text_wire(p.error, s.error)
    &&& p.output_count == s.output_count
}

fn project_step_items(items: Vec<StepProjection>) -> (r: Vec<OrchestraExecutionStepProjection>)
    ensures
        r@.len() == items@.len(),
        forall|i: int| 0 <= i < items@.len() ==> #[trigger] step_wire(r@[i], items@[i]),
{
    let ghost all = items@;
    let mut rest = items;
    let mut out: Vec<OrchestraExecutionStepProjection> = Vec::new();
    while rest.len() > 0
        invariant
            out@.len() + rest@.len() == all.len(),
            rest@ == all.skip(out@.len() as int),
            forall|i: int| 0 <= i < out@.len() ==> #[trigger] step_wire(out@[i], all[i]),
        decreases rest.len(),
    {
        let s = rest.remove(0);
        proof {
            assert(s == all[out@.len() as int]);
        }
        let agent = match s.agent {
            Some(a) => Some(OrchestraAgentReference { thread_id: a.thread_id, task_path: a.task_path }),
            None => None,
        };
        out.push(OrchestraExecutionStepProjection {
            id: s.id,
            status: project_step_status(s.status),
            attempts: s.attempts,
            rounds: s.rounds,
            agent,
            context_sha256: s.context_sha256,
            approval_decision: project_optional_text(s.approval_decision),
            error: project_optional_text(s.error),
            output_count: s.output_count,
        });
        proof {
            assert(rest@ =~= all.skip(out@.len() as int));
        }
    }
    out
}

pub open spec fn output_wire(p: OrchestraOutputProjection, o: OutputProjection) -> bool {
    p.step_id == o.step_id && p.name == o.name && p.sha256 == o.sha256 && p.canonical_bytes == o.canonical_bytes
        && p.value == o.value
}

fn project_output_items(items: Vec<OutputProjection>) -> (r: Vec<OrchestraOutputProjection>)
    ensures
        r@.len() == items@.len(),
        forall|i: int| 0 <= i < items@.len() ==> #[trigger] output_wire(r@[i], items@[i]),
{
    let ghost all = items@;
    let mut rest = items;
    let mut out: Vec<OrchestraOutputProjection> = Vec::new();
    while rest.len() > 0
        invariant
            out@.len() + rest@.len() == all.len(),
            rest@ == all.skip(out@.len() as int),
            forall|i: int| 0 <= i < out@.len() ==> #[trigger] output_wire(out@[i], all[i]),
        decreases rest.len(),
    {
        let o = rest.remove(0);
        proof {
            assert(o == all[out@.len() as int]);
        }
        out.push(OrchestraOutputProjection {
            step_id: o.step_id,
            name: o.name,
            sha256: o.sha256,
            canonical_bytes: o.canonical_bytes,
            value: o.value,
        });
        proof {
            assert(rest@ =~= all.skip(out@.len() as int));
        }
    }
    out
}

pub open spec fn evidence_wire(p: OrchestraEvidenceReference, e: EvidenceReference) -> bool {
    &&& p.evidence_id == e.evidence_id
    &&& p.name == e.name
    &&& p.kind == evidence_kind_wire(e.kind)
    &&& p.provenance == provenance_wire(e.provenance)
    &&& p.step_id == e.step_id
    &&& p.bytes == e.bytes
    &&& p.sha256 == e.sha256
    &&& p.availability == availability_wire(e.availability)
}

fn project_evidence_items(items: Vec<EvidenceReference>) -> (r: Vec<OrchestraEvidenceReference>)
    ensures
        r@.len() == items@.len(),
        forall|i: int| 0 <= i < items@.len() ==> #[trigger] evidence_wire(r@[i], items@[i]),
{
    let ghost all = items@;
    let mut rest = items;
    let mut out: Vec<OrchestraEvidenceReference> = Vec::new();
    while rest.len() > 0
        invariant
            out@.len() + rest@.len() == all.len(),
            rest@ == all.skip(out@.len() as int),
            forall|i: int| 0 <= i < out@.len() ==> #[trigger] evidence_wire(out@[i], all[i]),
        decreases rest.len(),
    {
        let e = rest.remove(0);
        proof {
            assert(e == all[out@.len() as int]);
        }
        out.push(OrchestraEvidenceReference {
            evidence_id: e.evidence_id,
            name: e.name,
            kind: project_evidence_kind(e.kind),
            provenance: project_evidence_provenance(e.provenance),
            step_id: e.step_id,
            bytes: e.bytes,
            sha256: e.sha256,
            availability: project_evidence_availability(e.availability),
        });
        proof {
            assert(rest@ =~= all.skip(out@.len() as int));
        }
    }
    out
}

pub open spec fn record_wire(p: OrchestraHistoryRecord, h: ExecutionHistoryRecord) -> bool {
    p.sequence == h.sequence && p.item_id == h.item_id && p.revision == h.revision && p.kind == h.kind
        && p.step_id == h.step_id && p.summary == h.summary
}

fn project_history_items(items: Vec<ExecutionHistoryRecord>) -> (r: Vec<OrchestraHistoryRecord>)
    ensures
        r@.len() == items@.len(),
        forall|i: int| 0 <= i < items@.len() ==> #[trigger] record_wire(r@[i], items@[i]),
{
    let ghost all = items@;
    let mut rest = items;
    let mut out: Vec<OrchestraHistoryRecord> = Vec::new();
    while rest.len() > 0
        invariant
            out@.len() + rest@.len() == all.len(),
            rest@ == all.skip(out@.len() as int),
            forall|i: int| 0 <= i < out@.len() ==> #[trigger] record_wire(out@[i], all[i]),
        decreases rest.len(),
    {
        let h = rest.remove(0);
        proof {
            assert(h == all[out@.len() as int]);
        }
        out.push(OrchestraHistoryRecord {
            sequence: h.sequence,
            item_id: h.item_id,
            revision: h.revision,
            kind: h.kind,
            step_id: h.step_id,
            summary: h.summary,
        });
        proof {
            assert(rest@ =~= all.skip(out@.len() as int));
        }
    }
    out
}

pub open spec fn cursor_wire(p: Option<OrchestraHistoryCursor>, c: Option<HistoryCursor>) -> bool {
    match (p, c) {
        (Some(x), Some(y)) => x.sequence == y.sequence && x.item_id == y.item_id && x.revision == y.revision,
        (None, None) => true,
        _ => false,
    }
}

/// A query result on the wire: each selector's projection carried over field by
/// field, statuses and kinds mapped to their wire forms.
pub open spec fn query_result_wire(p: OrchestraQueryResult, r: ExecutionQueryResult) -> bool {
    match (p, r) {
        (OrchestraQueryResult::Run(x), ExecutionQueryResult::Run(y)) => {
            &&& x.schema_version == y.schema_version
            &&& x.run_id == y.run_id
            &&& x.workflow_sha256 == y.workflow_sha256
            &&& x.source_revision == y.source_revision
            &&& x.status == run_status_wire(y.status)
            &&& x.promotion == promotion_wire(y.promotion)
            &&& x.step_counts.pending == y.step_counts.pending
            &&& x.step_counts.running == y.step_counts.running
            &&& x.step_counts.retrying == y.step_counts.retrying
            &&& x.step_counts.waiting_approval == y.step_counts.waiting_approval
            &&& x.step_counts.completed == y.step_counts.completed
            &&& x.step_counts.failed == y.step_counts.failed
            &&& x.step_counts.cancelled == y.step_counts.cancelled
            &&& text_wire(x.next_action, y.next_action)
        },
        (OrchestraQueryResult::Steps(x), ExecutionQueryResult::Steps(y)) => {
            &&& x.items@.len() == y.items@.len()
            &&& forall|i: int| 0 <= i < y.items@.len() ==> #[trigger] step_wire(x.items@[i], y.items@[i])
            &&& x.next == y.next
        },
        (OrchestraQueryResult::Outputs(x), ExecutionQueryResult::Outputs(y)) => {
            &&& x.items@.len() == y.items@.len()
            &&& forall|i: int| 0 <= i < y.items@.len() ==> #[trigger] output_wire(x.items@[i], y.items@[i])
            &&& x.next == y.next
        },
        (OrchestraQueryResult::Evidence(x), ExecutionQueryResult::Evidence(y)) => {
            &&& x.items@.len() == y.items@.len()
            &&& forall|i: int| 0 <= i < y.items@.len() ==> #[trigger] evidence_wire(x.items@[i], y.items@[i])
            &&& x.next == y.next
        },
        (OrchestraQueryResult::EvidenceContent(x), ExecutionQueryResult::EvidenceContent(y)) => {
            &&& x.evidence_id == y.evidence_id
            &&& x.name == y.name
            &&& x.kind == evidence_kind_wire(y.kind)
            &&& x.provenance == provenance_wire(y.provenance)
            &&& x.availability == availability_wire(y.availability)
            &&& x.bytes == y.bytes
            &&& x.sha256 == y.sha256
            &&& x.media_type == y.media_type
            &&& x.content == y.content
        },
        (OrchestraQueryResult::History(x), ExecutionQueryResult::History(y)) => {
            &&& x.items@.len() == y.items@.len()
            &&& forall|i: int| 0 <= i < y.items@.len() ==> #[trigger] record_wire(x.items@[i], y.items@[i])
            &&& cursor_wire(x.next, y.next)
        },
        _ => false,
    }
}

pub fn project_query_result(result: ExecutionQueryResult) -> (r: OrchestraQueryResult)
    ensures
        query_result_wire(r, result),
{
    match result {
        ExecutionQueryResult::Run(run) => OrchestraQueryResult::Run(OrchestraExecutionRunProjection {
            schema_version: run.schema_version,
            run_id: run.run_id,
            workflow_sha256: run.workflow_sha256,
            source_revision: run.source_revision,
            status: project_run_status(run.status),
            promotion: project_promotion(run.promotion),
            step_counts: OrchestraStepCounts {
                pending: run.step_counts.pending,
                running: run.step_counts.running,
                retrying: run.step_counts.retrying,
                waiting_approval: run.step_counts.waiting_approval,
                completed: run.step_counts.completed,
                failed: run.step_counts.failed,
                cancelled: run.step_counts.cancelled,
            },
            next_action: project_bounded_text(run.next_action),
        }),
        ExecutionQueryResult::Steps(page) => OrchestraQueryResult::Steps(OrchestraStepsPage {
            items: project_step_items(page.items),
            next: page.next,
        }),
        ExecutionQueryResult::Outputs(page) => OrchestraQueryResult::Outputs(OrchestraOutputsPage {
            items: project_output_items(page.items),
            next: page.next,
        }),
        ExecutionQueryResult::Evidence(page) => OrchestraQueryResult::Evidence(OrchestraEvidencePage {
            items: project_evidence_items(page.items),
            next: page.next,
        }),
        ExecutionQueryResult::EvidenceContent(e) => OrchestraQueryResult::EvidenceContent(OrchestraEvidenceContentProjection {
            evidence_id: e.evidence_id,
            name: e.name,
            kind: project_evidence_kind(e.kind),
            provenance: project_evidence_provenance(e.provenance),
            availability: project_evidence_availability(e.availability),
            bytes: e.bytes,
            sha256: e.sha256,
            media_type: e.media_type,
            content: e.content,
        }),
        ExecutionQueryResult::History(page) => {
            let next = match page.next {
                Some(c) => Some(OrchestraHistoryCursor { sequence: c.sequence, item_id: c.item_id, revision: c.revision }),
                None => None,
            };
            OrchestraQueryResult::History(OrchestraHistoryPage { items: project_history_items(page.items), next })
        },
    }
}

} // verus!
