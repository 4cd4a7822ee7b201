use orchestra_core::json::JsonValue;
use orchestra_core::plan::PromotionStatus;
use orchestra_core::plan::RunStatus;
use orchestra_core::plan::StepStatus;
use orchestra_core::query::authorize_checkpoint;
use orchestra_core::query::checked_digest_budget;
use orchestra_core::query::digest_priority;
use orchestra_core::query::evidence_kind;
use orchestra_core::query::evidence_step_id;
use orchestra_core::query::output_cursor;
use orchestra_core::query::run_digest;
use orchestra_core::query::run_projection;
use orchestra_core::query::truncate;
use orchestra_core::query::validate_identity;
use orchestra_core::query::EvidenceKind;
use orchestra_core::query::ExecutionQueryError;
use orchestra_core::query::ExecutionQueryLimits;
use orchestra_core::query::ExecutionQueryService;
use orchestra_core::query::RunCheckpoint;
use orchestra_core::query::StepCheckpoint;

fn step(status: StepStatus, attempts: u32) -> StepCheckpoint {
    StepCheckpoint {
        status,
        attempts,
        rounds: 0,
        agent: None,
        context_sha256: None,
        approval_decision: None,
        error: None,
        final_response: None,
        outputs: Vec::new(),
    }
}

fn checkpoint() -> RunCheckpoint {
    let mut done = step(StepStatus::Completed, 1);
    done.rounds = 1;
    done.outputs = vec![(
        "result".to_string(),
        JsonValue::Object(vec![("ok".to_string(), JsonValue::Bool(true))]),
    )];
    let mut failed = step(StepStatus::Failed, 2);
    failed.error = Some("failure detail ".repeat(200));
    RunCheckpoint {
        schema_version: 4,
        run_id: "run-1".into(),
        parent_thread_id: "task-1".into(),
        workflow_sha256: "workflow".into(),
        source_revision: "revision".into(),
        status: RunStatus::Failed,
        promotion: PromotionStatus::NotRequired,
        steps: vec![("done".into(), done), ("failed".into(), failed)],
        next_action: "inspect the failure".into(),
    }
}

#[test]
fn digest_is_deterministic_prioritized_and_hard_bounded() {
    let limits = ExecutionQueryLimits::default();
    let checkpoint = checkpoint();
    assert!(authorize_checkpoint(&checkpoint, "run-1", "task-1", &limits).is_ok());
    let first = run_digest(&checkpoint, "state".into(), 512, &limits).unwrap();
    let second = run_digest(&checkpoint, "state".into(), 512, &limits).unwrap();
    assert_eq!(first.text, second.text);
    assert_eq!(first.omitted_steps, second.omitted_steps);
    assert!(first.text.len() <= 512);
    assert!(first.text.contains("step failed failed"));
    assert!(first.text.find("step failed").unwrap() < first.text.find("step done").unwrap());
}

#[test]
fn digest_starts_with_the_run_header() {
    let limits = ExecutionQueryLimits::default();
    let digest = run_digest(&checkpoint(), "state".into(), 4096, &limits).unwrap();
    assert!(digest.text.starts_with("run run-1 status failed\nnext inspect the failure\n"));
    assert_eq!(digest.omitted_steps, 0);
}

#[test]
fn digest_budget_is_checked_before_the_text() {
    let limits = ExecutionQueryLimits::default();
    assert!(matches!(checked_digest_budget(0, &limits), Err(ExecutionQueryError::InvalidBudget)));
    assert!(matches!(checked_digest_budget(8193, &limits), Err(ExecutionQueryError::InvalidBudget)));
    assert!(matches!(
        run_digest(&checkpoint(), "state".into(), 8, &limits),
        Err(ExecutionQueryError::BudgetTooSmall)
    ));
}

#[test]
fn only_the_parent_task_reads_a_run() {
    let limits = ExecutionQueryLimits::default();
    let checkpoint = checkpoint();
    assert!(matches!(
        authorize_checkpoint(&checkpoint, "run-1", "task-2", &limits),
        Err(ExecutionQueryError::Unauthorized)
    ));
    assert!(matches!(
        authorize_checkpoint(&checkpoint, "run-2", "task-1", &limits),
        Err(ExecutionQueryError::InvalidCheckpoint(_))
    ));
}

#[test]
fn identities_reject_traversal_controls_and_oversize() {
    assert!(validate_identity("run-1", 512).is_ok());
    assert!(validate_identity("", 512).is_err());
    assert!(validate_identity("a..b", 512).is_err());
    assert!(validate_identity("a\u{7f}", 512).is_err());
    assert!(validate_identity("abcd", 3).is_err());
}

#[test]
fn truncation_keeps_whole_characters() {
    let kept = truncate("héllo", 10);
    assert_eq!(kept.text, "héllo");
    assert!(!kept.truncated);
    let cut = truncate("héllo", 2);
    assert_eq!(cut.text, "h");
    assert!(cut.truncated);
}

#[test]
fn projection_counts_steps_by_status() {
    let projection = run_projection(&checkpoint(), &ExecutionQueryLimits::default());
    assert_eq!(projection.step_counts.completed, 1);
    assert_eq!(projection.step_counts.failed, 1);
    assert_eq!(projection.next_action.text, "inspect the failure");
}

#[test]
fn evidence_paths_classify_and_name_their_step() {
    assert!(matches!(evidence_kind("checks/failed-2.json"), EvidenceKind::Check));
    assert!(matches!(evidence_kind("changes/done-1.patch"), EvidenceKind::Change));
    assert!(matches!(evidence_kind("other/empty.txt"), EvidenceKind::Other));
    assert_eq!(evidence_step_id("checks/failed-2.json").as_deref(), Some("failed"));
    assert_eq!(output_cursor("step", "name"), "step\0name");
    assert_eq!(digest_priority(&StepStatus::Failed), 0);
    assert_eq!(digest_priority(&StepStatus::Completed), 4);
}

#[test]
fn query_service_keeps_its_limits() {
    let service = ExecutionQueryService::default();
    assert_eq!(service.limits().max_page_items, 100);
    assert_eq!(service.limits().max_digest_bytes, 8192);
    let narrow = ExecutionQueryLimits { max_page_items: 7, ..ExecutionQueryLimits::default() };
    assert_eq!(ExecutionQueryService::new(narrow).limits().max_page_items, 7);
}
