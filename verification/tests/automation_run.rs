use orchestra_core::automation::AutomationAgentProfile;
use orchestra_core::automation::AutomationCodexPolicy;
use orchestra_core::automation::AutomationEffect;
use orchestra_core::automation::AutomationHooksProfile;
use orchestra_core::automation::AutomationIssue;
use orchestra_core::automation::AutomationIssueBlocker;
use orchestra_core::automation::AutomationOrchestraProfile;
use orchestra_core::automation::AutomationPollingProfile;
use orchestra_core::automation::AutomationProfile;
use orchestra_core::automation::AutomationSecretKind;
use orchestra_core::automation::AutomationSecretReference;
use orchestra_core::automation::AutomationTrackerProfile;
use orchestra_core::automation::AutomationWorkspaceProfile;
use orchestra_core::automation_policy::automation_claim_liveness;
use orchestra_core::automation_policy::queue_item;
use orchestra_core::automation_queue::automation_queue_counts;
use orchestra_core::automation_run::AutomationClaimLiveness;
use orchestra_core::automation_run::AutomationClaimReconciliation;
use orchestra_core::automation_run::AutomationClaimStatus;
use orchestra_core::automation_run::AutomationCleanupStatus;
use orchestra_core::automation_run::AutomationEffectExecution;
use orchestra_core::automation_run::AutomationEffectReceipt;
use orchestra_core::automation_run::AutomationEffectStatus;
use orchestra_core::automation_run::AutomationGatePolicy;
use orchestra_core::automation_run::AutomationHookKind;
use orchestra_core::automation_run::AutomationHookStatus;
use orchestra_core::automation_run::AutomationIssueClaim;
use orchestra_core::automation_run::AutomationProfileRevisionStatus;
use orchestra_core::automation_run::AutomationQueueCategory;
use orchestra_core::automation_run::AutomationQueueCounts;
use orchestra_core::automation_run::AutomationQueueStatus;
use orchestra_core::automation_run::AutomationReconciliationStatus;
use orchestra_core::automation_run::AutomationRootCheckpoint;
use orchestra_core::automation_run::AutomationRootStatus;
use orchestra_core::automation_run::AutomationRunError;
use orchestra_core::automation_run::AutomationTrackerCommentRequest;
use orchestra_core::automation_run::AutomationTrackerPullRequestLinkRequest;
use orchestra_core::automation_run::AutomationTrackerTransitionRequest;
use orchestra_core::automation_run::StoredRevision;
use orchestra_core::automation_start::automation_lease_key;
use orchestra_core::automation_start::check_start_profile;
use orchestra_core::automation_start::automation_run_id;
use orchestra_core::automation_start::initial_checkpoint;
use orchestra_core::automation_start::reopen_lease;
use orchestra_core::automation_store::AutomationLease;
use orchestra_core::automation_store::AutomationRunStore;
use orchestra_core::digest::sha256_hex_str;
use orchestra_core::json::JsonValue;
use orchestra_core::linear::normalize_linear_issue_page;
use orchestra_core::plan::AgentHandle;
use orchestra_core::plan::CommandOutcome;
use orchestra_core::plan::RunStatus;

const REPOSITORY: &str = "/repository";
const WORKSPACE: &str = "/workspace";

fn profile() -> AutomationProfile {
    AutomationProfile {
        tracker: AutomationTrackerProfile {
            kind: "linear".into(),
            endpoint: "https://api.linear.app/graphql".into(),
            project_slug: "orchestra".into(),
            required_labels: vec!["automation".into()],
            active_states: vec!["Todo".into()],
            terminal_states: vec!["Done".into()],
            credential: AutomationSecretReference {
                kind: AutomationSecretKind::Environment,
                reference: "LINEAR_API_KEY".into(),
                digest: "digest".into(),
            },
        },
        polling: AutomationPollingProfile { interval_ms: 30_000 },
        workspace: AutomationWorkspaceProfile { root: WORKSPACE.into() },
        hooks: AutomationHooksProfile {
            after_create: None,
            before_run: None,
            after_run: None,
            before_remove: None,
            timeout_ms: 60_000,
        },
        agent: AutomationAgentProfile {
            max_concurrent_agents: 1,
            max_turns: 20,
            max_retry_backoff_ms: 300_000,
            max_concurrent_agents_by_state: Vec::new(),
        },
        codex: AutomationCodexPolicy {
            approval_policy: JsonValue::String("on-request".into()),
            thread_sandbox: "workspace-write".into(),
            turn_sandbox_policy: JsonValue::Null,
            turn_timeout_ms: 3_600_000,
            read_timeout_ms: 5_000,
            stall_timeout_ms: 300_000,
        },
        orchestra: AutomationOrchestraProfile {
            workflow_path: "issue.workflow.ts".into(),
            workflow_sha256: "workflow".into(),
            workflow_name: "issue".into(),
            effects: vec![AutomationEffect::TrackerComment],
        },
        prompt_template: "Implement {{ issue.identifier }}".into(),
    }
}

fn issue() -> AutomationIssue {
    AutomationIssue {
        id: "issue-33".into(),
        identifier: "ORC-33".into(),
        title: "Run fixture".into(),
        description: None,
        priority: None,
        state: "Todo".into(),
        branch_name: None,
        url: None,
        labels: vec!["automation".into()],
        blocked_by: Vec::new(),
        created_at: None,
        updated_at: None,
    }
}

fn queued_issue(id: &str, identifier: &str, state: &str, priority: Option<i64>) -> AutomationIssue {
    AutomationIssue {
        id: id.into(),
        identifier: identifier.into(),
        title: format!("Coordinate {identifier}"),
        description: None,
        priority,
        state: state.into(),
        branch_name: None,
        url: None,
        labels: vec!["automation".into()],
        blocked_by: Vec::new(),
        created_at: Some(format!("2026-07-{:02}T00:00:00Z", priority.unwrap_or(9))),
        updated_at: Some("2026-07-16T00:00:00Z".into()),
    }
}

/// A started run: its store, its checkpoint, the durable revision and the lease.
struct Run {
    store: AutomationRunStore,
    root: AutomationRootCheckpoint,
    stored: Option<StoredRevision>,
    lease: AutomationLease,
}

fn digest_of(profile: &AutomationProfile) -> String {
    orchestra_core::profile_json::profile_digest(profile).unwrap_or_else(|e| panic!("{}", e.message))
}

fn start(owner: &str, profile: &AutomationProfile) -> Run {
    let digest = digest_of(profile);
    let lease_key = automation_lease_key(REPOSITORY, "orchestra");
    let run_id = automation_run_id(1_000, &digest);
    let store = AutomationRunStore::open(REPOSITORY, &run_id, &lease_key);
    let mut root = initial_checkpoint(&run_id, owner, REPOSITORY, "abc123", &digest, "orchestra", WORKSPACE, &lease_key);
    let mut stored = None;
    store.save(&mut root, &mut stored).unwrap();
    let lease = store.write_lease(&root);
    Run { store, root, stored, lease }
}

impl Run {
    fn claim(&mut self, issue: &AutomationIssue) -> Result<String, AutomationRunError> {
        self.store.claim_fixture(&mut self.root, issue, 1, WORKSPACE, &mut self.stored)
    }

    fn claim_index(&self, claim_id: &str) -> usize {
        self.root.claims.iter().position(|claim| claim.claim_id == claim_id).unwrap()
    }

    fn claim_of(&self, claim_id: &str) -> &AutomationIssueClaim {
        &self.root.claims[self.claim_index(claim_id)]
    }

    fn claim_mut(&mut self, claim_id: &str) -> &mut AutomationIssueClaim {
        let index = self.claim_index(claim_id);
        &mut self.root.claims[index]
    }

    fn save(&mut self) {
        self.store.save(&mut self.root, &mut self.stored).unwrap();
    }

    fn pause(&mut self, reason: &str) {
        self.store.pause(&mut self.root, reason, &mut self.stored).unwrap();
        self.lease = self.store.write_lease(&self.root);
    }

    fn resolve_comment(
        &mut self,
        claim_id: &str,
        profile: &AutomationProfile,
        body: &str,
        policy: AutomationGatePolicy,
        execute: impl FnOnce(&AutomationTrackerCommentRequest) -> AutomationEffectExecution,
    ) -> Result<AutomationEffectReceipt, AutomationRunError> {
        self.store.resolve_tracker_comment(&mut self.root, claim_id, profile, body, policy, execute, &mut self.stored)
    }

    fn resolve_transition(
        &mut self,
        claim_id: &str,
        profile: &AutomationProfile,
        refreshed_state: &str,
        target_state: &str,
        execute: impl FnOnce(&AutomationTrackerTransitionRequest) -> AutomationEffectExecution,
    ) -> Result<AutomationEffectReceipt, AutomationRunError> {
        self.store.resolve_tracker_transition(
            &mut self.root,
            claim_id,
            profile,
            refreshed_state,
            target_state,
            AutomationGatePolicy::AutoAccept,
            execute,
            &mut self.stored,
        )
    }

    fn resolve_link(
        &mut self,
        claim_id: &str,
        profile: &AutomationProfile,
        url: &str,
        execute: impl FnOnce(&AutomationTrackerPullRequestLinkRequest) -> AutomationEffectExecution,
    ) -> Result<AutomationEffectReceipt, AutomationRunError> {
        self.store.resolve_tracker_pull_request_link(
            &mut self.root,
            claim_id,
            profile,
            url,
            AutomationGatePolicy::AutoAccept,
            execute,
            &mut self.stored,
        )
    }
}

fn same_receipt(a: &AutomationEffectReceipt, b: &AutomationEffectReceipt) -> bool {
    a.effect_id == b.effect_id
        && a.idempotency_key == b.idempotency_key
        && a.kind == b.kind
        && a.claim_id == b.claim_id
        && a.issue_id == b.issue_id
        && a.request_sha256 == b.request_sha256
        && a.status == b.status
        && a.provider_receipt == b.provider_receipt
        && a.failure == b.failure
}

fn file_name(path: &str) -> &str {
    path.rsplit('/').next().unwrap()
}

fn observation(claim_id: &str) -> AutomationClaimReconciliation {
    AutomationClaimReconciliation {
        claim_id: claim_id.into(),
        issue_task_active: false,
        descendants_cancelled: false,
        tracker_terminal: false,
        workflow_status: None,
        worktree_exists: false,
    }
}

#[test]
fn root_lease_and_claim_are_stable_and_task_scoped() {
    let mut run = start("task-1", &profile());
    let claim_id = run.claim(&issue()).unwrap();
    assert_eq!(run.root.owner_thread_id, "task-1");
    assert_eq!(run.claim_of(&claim_id).source_revision, "abc123");
    assert!(run.claim_of(&claim_id).worktree.starts_with(WORKSPACE));
    assert!(file_name(&run.claim_of(&claim_id).worktree).starts_with("orc-33-"));

    assert!(reopen_lease(&run.lease, "task-1", run.root.status).is_ok());
    assert_eq!(run.lease.run_id, run.root.run_id);
    let mut reopened = run.root.clone();
    let mut stored = run.stored;
    assert!(matches!(
        run.store.claim_fixture(&mut reopened, &issue(), 1, WORKSPACE, &mut stored),
        Err(AutomationRunError::DuplicateIssue(_))
    ));
}

#[test]
fn another_task_cannot_take_the_repository_project_lease() {
    let run = start("task-1", &profile());
    assert!(matches!(
        reopen_lease(&run.lease, "task-2", run.root.status),
        Err(AutomationRunError::LeaseConflict { .. })
    ));
}

#[test]
fn claim_worktree_names_are_contained_bounded_and_collision_safe() {
    let mut run = start("task-worktree-names", &profile());
    let mut first = issue();
    first.id = "issue-collision-one".into();
    first.identifier = "../../SAME !!! very-long-identifier-that-must-not-escape-or-grow-forever".into();
    let mut second = first.clone();
    second.id = "issue-collision-two".into();
    second.identifier = "SAME---very-long-identifier-that-must-not-escape-or-grow-forever".into();

    let first_claim = run.claim(&first).unwrap();
    let second_claim = run.claim(&second).unwrap();
    let first_path = run.claim_of(&first_claim).worktree.clone();
    let second_path = run.claim_of(&second_claim).worktree.clone();
    assert!(first_path.starts_with(WORKSPACE));
    assert!(second_path.starts_with(WORKSPACE));
    assert_ne!(first_path, second_path);
    assert!(file_name(&first_path).len() <= 65);
    assert!(file_name(&second_path).len() <= 65);
    assert!(!file_name(&first_path).contains(".."));
}

#[test]
fn hook_receipts_are_bounded_and_cleanup_retries_remain_inspectable() {
    let mut run = start("task-hooks", &profile());
    let claim_id = run.claim(&issue()).unwrap();
    let output = CommandOutcome { exit_code: 7, stdout: "o".repeat(2_000), stderr: "e".repeat(2_000) };
    let receipt = run
        .store
        .record_hook_receipt(&mut run.root, &claim_id, AutomationHookKind::BeforeRun, Some("false"), Ok(&output), &mut run.stored)
        .unwrap();
    assert_eq!(receipt.status, AutomationHookStatus::Failed);
    assert_eq!(receipt.exit_code, Some(7));
    assert!(receipt.stdout_preview.len() <= 512);
    assert!(receipt.stderr_preview.len() <= 512);
    assert_eq!(receipt.command_sha256, Some(sha256_hex_str("false")));
    for _ in 0..33 {
        run.store
            .record_hook_receipt(&mut run.root, &claim_id, AutomationHookKind::BeforeRun, Some("false"), Ok(&output), &mut run.stored)
            .unwrap();
    }
    assert_eq!(run.claim_of(&claim_id).hook_receipts.len(), 32);
    assert_eq!(run.claim_of(&claim_id).hook_receipts.last().unwrap().invocation, 34);

    run.claim_mut(&claim_id).cleanup.status = AutomationCleanupStatus::Eligible;
    run.save();
    let failure = "x".repeat(2_000);
    run.store.record_cleanup_attempt(&mut run.root, &claim_id, Err(failure.as_str()), &mut run.stored).unwrap();
    assert_eq!(run.claim_of(&claim_id).cleanup.status, AutomationCleanupStatus::RetryPending);
    assert!(run.claim_of(&claim_id).cleanup.last_failure.as_ref().unwrap().len() <= 512);
    run.store.record_cleanup_attempt(&mut run.root, &claim_id, Ok(()), &mut run.stored).unwrap();
    assert_eq!(run.claim_of(&claim_id).cleanup.attempts, 2);
    assert_eq!(run.claim_of(&claim_id).cleanup.status, AutomationCleanupStatus::Removed);
}

#[test]
fn deterministic_queue_enforces_global_and_per_state_capacity_without_head_of_line_blocking() {
    let mut profile = profile();
    profile.tracker.active_states = vec!["Todo".into(), "In Progress".into()];
    profile.agent.max_concurrent_agents = 2;
    profile.agent.max_concurrent_agents_by_state = vec![("In Progress".into(), 1), ("Todo".into(), 1)];
    let mut run = start("task-queue", &profile);

    let urgent = queued_issue("issue-1", "ORC-1", "Todo", Some(1));
    let later_same_state = queued_issue("issue-2", "ORC-2", "Todo", Some(2));
    let other_state = queued_issue("issue-3", "ORC-3", "In Progress", Some(3));
    let mut blocked = queued_issue("issue-4", "ORC-4", "Todo", Some(0));
    blocked.blocked_by.push(AutomationIssueBlocker {
        id: Some("blocker-1".into()),
        identifier: Some("ORC-99".into()),
        state: Some("Todo".into()),
    });
    let terminal = queued_issue("issue-5", "ORC-5", "Done", Some(1));
    let mut wrong_label = queued_issue("issue-6", "ORC-6", "Todo", Some(1));
    wrong_label.labels = vec!["not-automation".into()];

    let issues = [later_same_state.clone(), terminal, other_state, urgent, blocked, wrong_label];
    let result = run
        .store
        .coordinate_fixture(&mut run.root, &profile, &issues, 1, WORKSPACE, &mut run.stored)
        .unwrap();
    let claimed = result
        .dispatched_claim_ids
        .iter()
        .map(|claim_id| run.claim_of(claim_id).issue_identifier.clone())
        .collect::<Vec<_>>();
    assert_eq!(claimed, ["ORC-1", "ORC-3"]);
    assert_eq!(
        result.counts,
        AutomationQueueCounts { queued: 1, running: 2, blocked: 1, waiting_gate: 0, handoff: 0, terminal: 1 }
    );
    assert!(!run.root.queue.iter().any(|item| item.issue_id == "issue-6"));
    assert_eq!(
        run.store.queue_page(&run.root, AutomationQueueCategory::Queued, 0, 1).items[0].issue_identifier,
        "ORC-2"
    );

    let mut externally_done = queued_issue("issue-1", "ORC-1", "Done", Some(1));
    externally_done.updated_at = Some("2026-07-17T00:00:00Z".into());
    let reconciled = run
        .store
        .coordinate_fixture(
            &mut run.root,
            &profile,
            &[externally_done, later_same_state],
            1,
            WORKSPACE,
            &mut run.stored,
        )
        .unwrap();
    assert!(reconciled.dispatched_claim_ids.is_empty());
    let urgent_claim = run.root.claims.iter().find(|claim| claim.issue_id == "issue-1").unwrap();
    assert_eq!(urgent_claim.tracker_state, "Done");
    assert_eq!(urgent_claim.next_action, "reconcile externally terminal tracker state before dispatch");
    assert_eq!(run.root.claims.iter().filter(|claim| claim.issue_id == "issue-1").count(), 1);
}

#[test]
fn queue_pages_are_bounded_and_derive_waiting_gate_handoff_and_terminal_claims() {
    let mut run = start("task-pages", &profile());
    let mut queued = (0..55)
        .map(|index| queued_issue(&format!("issue-{index}"), &format!("ORC-{index:02}"), "Todo", None))
        .collect::<Vec<_>>();
    queued.sort_by(|a, b| a.id.cmp(&b.id));
    for issue in &queued {
        run.root.queue.push(queue_item(issue, AutomationQueueStatus::Queued, "waiting for capacity"));
    }
    let first = run.store.queue_page(&run.root, AutomationQueueCategory::Queued, 0, 100);
    assert_eq!(first.total, 55);
    assert_eq!(first.items.len(), 50);
    assert_eq!(first.next_offset, Some(50));
    let second = run.store.queue_page(&run.root, AutomationQueueCategory::Queued, first.next_offset.unwrap(), 50);
    assert_eq!(second.items.len(), 5);
    assert_eq!(second.next_offset, None);

    let waiting_id = run.claim(&issue()).unwrap();
    let waiting = run.claim_mut(&waiting_id);
    waiting.status = AutomationClaimStatus::Suspended;
    let issue_id = waiting.issue_id.clone();
    waiting.effects.push(AutomationEffectReceipt {
        effect_id: "effect-wait".into(),
        idempotency_key: "idem-wait".into(),
        kind: AutomationEffect::TrackerComment,
        claim_id: waiting_id.clone(),
        tracker_project_slug: "orchestra".into(),
        issue_id,
        request_sha256: "request".into(),
        body_preview: "preview".into(),
        gate_policy: AutomationGatePolicy::AskHuman,
        status: AutomationEffectStatus::WaitingGate,
        provider_receipt: None,
        failure: None,
    });
    assert_eq!(automation_queue_counts(&run.root).waiting_gate, 1);
    assert_eq!(
        run.store.queue_page(&run.root, AutomationQueueCategory::WaitingGate, 0, 8).items[0].claim_id.as_deref(),
        Some(waiting_id.as_str())
    );
}

fn raw_issue(id: &str, identifier: &str, priority: &str) -> JsonValue {
    let text = |s: &str| JsonValue::String(s.to_string());
    JsonValue::Object(vec![
        ("id".into(), text(id)),
        ("identifier".into(), text(identifier)),
        ("title".into(), text(&format!("Issue {identifier}"))),
        ("priority".into(), JsonValue::Number(priority.into())),
        ("state".into(), JsonValue::Object(vec![("name".into(), text("Todo"))])),
        (
            "labels".into(),
            JsonValue::Object(vec![(
                "nodes".into(),
                JsonValue::Array(vec![JsonValue::Object(vec![("name".into(), text("automation"))])]),
            )]),
        ),
        ("createdAt".into(), text("2026-07-01T00:00:00Z")),
        ("updatedAt".into(), text("2026-07-16T00:00:00Z")),
    ])
}

fn raw_page(issue: JsonValue, has_next: bool, cursor: JsonValue) -> JsonValue {
    JsonValue::Object(vec![(
        "data".into(),
        JsonValue::Object(vec![(
            "project".into(),
            JsonValue::Object(vec![(
                "issues".into(),
                JsonValue::Object(vec![
                    ("nodes".into(), JsonValue::Array(vec![issue])),
                    (
                        "pageInfo".into(),
                        JsonValue::Object(vec![
                            ("hasNextPage".into(), JsonValue::Bool(has_next)),
                            ("endCursor".into(), cursor),
                        ]),
                    ),
                ]),
            )]),
        )]),
    )])
}

#[test]
fn normalized_linear_pages_feed_the_same_deterministic_coordinator() {
    let profile = profile();
    let mut run = start("task-pages-to-queue", &profile);
    let first = normalize_linear_issue_page(&raw_page(
        raw_issue("issue-low", "ORC-LOW", "4"),
        true,
        JsonValue::String("cursor-1".into()),
    ))
    .unwrap();
    let second =
        normalize_linear_issue_page(&raw_page(raw_issue("issue-urgent", "ORC-URGENT", "1"), false, JsonValue::Null)).unwrap();
    assert!(first.has_next_page);
    assert_eq!(first.end_cursor.as_deref(), Some("cursor-1"));
    let issues = first.issues.into_iter().chain(second.issues).collect::<Vec<_>>();
    let result = run
        .store
        .coordinate_fixture(&mut run.root, &profile, &issues, 1, WORKSPACE, &mut run.stored)
        .unwrap();
    assert_eq!(result.dispatched_claim_ids.len(), 1);
    assert_eq!(run.claim_of(&result.dispatched_claim_ids[0]).issue_identifier, "ORC-URGENT");
    assert_eq!(result.counts.queued, 1);
}

#[test]
fn tracker_comment_gate_and_receipt_are_claim_scoped_and_idempotent() {
    let profile = profile();
    let mut run = start("task-1", &profile);
    let claim_id = run.claim(&issue()).unwrap();
    let mut executions = 0;
    let committed = run
        .resolve_comment(&claim_id, &profile, "Implemented and verified.", AutomationGatePolicy::AutoAccept, |request| {
            executions += 1;
            assert_eq!(request.claim_id, claim_id);
            assert_eq!(request.issue_id, "issue-33");
            AutomationEffectExecution::Committed { provider_receipt: "fixture-comment-1".into() }
        })
        .unwrap();
    assert_eq!(committed.status, AutomationEffectStatus::Committed);
    assert_eq!(executions, 1);

    let duplicate = run
        .resolve_comment(&claim_id, &profile, "Implemented and verified.", AutomationGatePolicy::AutoAccept, |_| {
            panic!("a committed idempotency key must not execute twice")
        })
        .unwrap();
    assert!(same_receipt(&duplicate, &committed));

    run.claim_mut(&claim_id).status = AutomationClaimStatus::Completed;
    let completed_replay = run
        .resolve_comment(&claim_id, &profile, "Implemented and verified.", AutomationGatePolicy::AutoAccept, |_| {
            panic!("a completed claim must replay its durable receipt")
        })
        .unwrap();
    assert!(same_receipt(&completed_replay, &committed));
    assert!(matches!(
        run.resolve_comment(&claim_id, &profile, "A new mutation after completion", AutomationGatePolicy::AutoAccept, |_| {
            unreachable!()
        }),
        Err(AutomationRunError::InactiveClaim(_))
    ));
    run.claim_mut(&claim_id).status = AutomationClaimStatus::Claimed;
    assert!(matches!(
        run.resolve_comment("claim-from-another-issue", &profile, "Cross-claim mutation", AutomationGatePolicy::AutoAccept, |_| {
            unreachable!()
        }),
        Err(AutomationRunError::MissingClaim(_))
    ));

    let rejected = run
        .resolve_comment(&claim_id, &profile, "Do not publish this variant.", AutomationGatePolicy::AutoReject, |_| {
            panic!("a rejected gate must precede mutation")
        })
        .unwrap();
    assert_eq!(rejected.status, AutomationEffectStatus::Rejected);
    let paused = run
        .resolve_comment(&claim_id, &profile, "Ask before publishing this variant.", AutomationGatePolicy::AskHuman, |_| {
            panic!("a waiting gate must precede mutation")
        })
        .unwrap();
    assert_eq!(paused.status, AutomationEffectStatus::WaitingGate);
}

#[test]
fn transition_and_pull_request_effects_are_scoped_normalized_and_idempotent() {
    let mut profile = profile();
    profile.orchestra.effects = vec![AutomationEffect::TrackerTransition, AutomationEffect::TrackerLinkPullRequest];
    let mut run = start("task-effects", &profile);
    let claim_id = run.claim(&issue()).unwrap();

    let already_applied = run
        .resolve_transition(&claim_id, &profile, "Todo", "Todo", |_| panic!("an already-applied transition must not execute"))
        .unwrap();
    assert_eq!(already_applied.status, AutomationEffectStatus::Committed);
    assert_eq!(already_applied.provider_receipt.as_deref(), Some("already-applied:Todo"));

    assert!(matches!(
        run.resolve_transition(&claim_id, &profile, "Todo", "Unknown", |_| unreachable!()),
        Err(AutomationRunError::InvalidTransition)
    ));
    let transitioned = run
        .resolve_transition(&claim_id, &profile, "Todo", "done", |request| {
            assert_eq!(request.issue_id, "issue-33");
            assert_eq!(request.claim_id, claim_id);
            assert_eq!(request.tracker_project_slug, "orchestra");
            assert_eq!(request.expected_state, "Todo");
            assert_eq!(request.target_state, "Done");
            AutomationEffectExecution::Committed { provider_receipt: "linear-transition-1".into() }
        })
        .unwrap();
    assert_eq!(transitioned.status, AutomationEffectStatus::Committed);
    assert_eq!(transitioned.kind, AutomationEffect::TrackerTransition);
    assert_eq!(run.claim_of(&claim_id).tracker_state, "Done");
    let duplicate = run
        .resolve_transition(&claim_id, &profile, "Todo", "Done", |_| panic!("idempotent transition must not execute twice"))
        .unwrap();
    assert!(same_receipt(&duplicate, &transitioned));
    assert!(matches!(
        run.resolve_transition(&claim_id, &profile, "Done", "Todo", |_| unreachable!()),
        Err(AutomationRunError::InactiveClaim(_))
    ));

    let linked = run
        .resolve_link(
            &claim_id,
            &profile,
            " https://github.com/edgefloor/codex-orchestra/pull/00043/?utm=x#discussion ",
            |request| {
                assert_eq!(request.issue_id, "issue-33");
                assert_eq!(request.pull_request_url, "https://github.com/edgefloor/codex-orchestra/pull/43");
                AutomationEffectExecution::Committed { provider_receipt: "linear-link-1".into() }
            },
        )
        .unwrap();
    assert_eq!(linked.status, AutomationEffectStatus::Committed);
    assert_eq!(linked.kind, AutomationEffect::TrackerLinkPullRequest);
    assert!(matches!(
        run.resolve_link(&claim_id, &profile, "https://example.com/pull/43", |_| unreachable!()),
        Err(AutomationRunError::InvalidPullRequestLink)
    ));
}

#[test]
fn missing_authority_and_interrupted_or_ambiguous_effects_fail_closed() {
    let mut profile = profile();
    let mut run = start("task-1", &profile);
    let claim_id = run.claim(&issue()).unwrap();
    profile.orchestra.effects.clear();
    assert!(matches!(
        run.resolve_comment(&claim_id, &profile, "Unauthorized", AutomationGatePolicy::AutoAccept, |_| unreachable!()),
        Err(AutomationRunError::MissingEffectAuthority)
    ));
    profile.orchestra.effects.push(AutomationEffect::TrackerComment);
    let ambiguous = run
        .resolve_comment(&claim_id, &profile, "Maybe published", AutomationGatePolicy::AutoAccept, |_| {
            AutomationEffectExecution::Ambiguous { message: "provider timed out after accepting bytes".into() }
        })
        .unwrap();
    assert_eq!(ambiguous.status, AutomationEffectStatus::Ambiguous);

    let crash_body = "crashed after mutation";
    let mut interrupted = run
        .resolve_comment(&claim_id, &profile, crash_body, AutomationGatePolicy::AskHuman, |_| unreachable!())
        .unwrap();
    interrupted.status = AutomationEffectStatus::Executing;
    let key = interrupted.idempotency_key.clone();
    let effect = run.claim_mut(&claim_id).effects.iter_mut().find(|receipt| receipt.idempotency_key == key).unwrap();
    *effect = interrupted;
    run.save();
    let recovered = run
        .resolve_comment(&claim_id, &profile, crash_body, AutomationGatePolicy::AutoAccept, |_| {
            panic!("interrupted execution must reconcile before retry")
        })
        .unwrap();
    assert_eq!(recovered.status, AutomationEffectStatus::Ambiguous);
}

#[test]
fn pause_advances_the_epoch_before_descendants_and_fences_stale_provider_results() {
    let profile = profile();
    let mut run = start("task-pause", &profile);
    let claim_id = run.claim(&issue()).unwrap();
    let mut stale = run.root.clone();
    let initial_epoch = run.root.lease_epoch;
    run.pause("host shutdown");
    assert_eq!(run.root.lease_epoch, initial_epoch + 1);
    assert_eq!(run.root.status, AutomationRootStatus::Suspended);
    assert_eq!(run.root.reconciliation, AutomationReconciliationStatus::Required);
    assert_eq!(run.claim_of(&claim_id).status, AutomationClaimStatus::Suspended);
    assert!(matches!(
        run.store.update_claim(&mut stale, &claim_id, |claim| claim, &mut run.stored),
        Err(AutomationRunError::StaleLease { .. })
    ));

    run.store.begin_reconciliation(&mut run.root, &mut run.stored).unwrap();
    run.store
        .reconcile(&mut run.root, &profile, &[issue()], &[observation(&claim_id)], &run.lease, &mut run.stored)
        .unwrap();
    run.store
        .update_claim(
            &mut run.root,
            &claim_id,
            |mut claim| {
                claim.status = AutomationClaimStatus::Running;
                claim
            },
            &mut run.stored,
        )
        .unwrap();
    let revision = run.root.revision;
    assert!(matches!(
        run.store.update_claim(
            &mut run.root,
            &claim_id,
            |mut claim| {
                claim.claim_id = "renamed".into();
                claim
            },
            &mut run.stored,
        ),
        Err(AutomationRunError::ClaimKeyChanged(key)) if key == claim_id
    ));
    assert_eq!(run.root.revision, revision);
    assert_eq!(run.claim_of(&claim_id).status, AutomationClaimStatus::Running);
    let (_, request) = run
        .store
        .prepare_tracker_comment(
            &mut run.root,
            &claim_id,
            &profile,
            "Provider accepted this before shutdown.",
            AutomationGatePolicy::AutoAccept,
            &mut run.stored,
        )
        .unwrap();
    let request = request.unwrap();
    let mut authoritative = run.root.clone();
    run.store.pause(&mut authoritative, "host shutdown", &mut run.stored).unwrap();
    let provider_result = run.store.complete_tracker_effect(
        &mut run.root,
        &claim_id,
        &request.idempotency_key,
        AutomationEffectExecution::Committed { provider_receipt: "late-provider-receipt".into() },
        &mut run.stored,
    );
    assert!(matches!(provider_result, Err(AutomationRunError::StaleLease { .. })));
    let durable = authoritative;
    assert_eq!(durable.status, AutomationRootStatus::Suspended);
    let index = durable.claims.iter().position(|claim| claim.claim_id == claim_id).unwrap();
    let effect = &durable.claims[index].effects[0];
    assert_eq!(effect.status, AutomationEffectStatus::Ambiguous);
    assert_eq!(effect.provider_receipt, None);
}

#[test]
fn issue_cancellation_fences_late_effects_and_waits_for_descendants_and_reconciliation() {
    let profile = profile();
    let mut run = start("task-cancel-issue", &profile);
    let claim_id = run.claim(&issue()).unwrap();
    let (_, request) = run
        .store
        .prepare_tracker_comment(
            &mut run.root,
            &claim_id,
            &profile,
            "provider mutation in flight",
            AutomationGatePolicy::AutoAccept,
            &mut run.stored,
        )
        .unwrap();
    let request = request.unwrap();
    let mut stale = run.root.clone();

    run.store.begin_claim_cancellation(&mut run.root, &claim_id, &mut run.stored).unwrap();
    assert_eq!(run.claim_of(&claim_id).status, AutomationClaimStatus::Suspended);
    assert_eq!(run.claim_of(&claim_id).effects[0].status, AutomationEffectStatus::Ambiguous);
    assert!(matches!(
        run.store.complete_tracker_effect(
            &mut stale,
            &claim_id,
            &request.idempotency_key,
            AutomationEffectExecution::Committed { provider_receipt: "late-provider-result".into() },
            &mut run.stored,
        ),
        Err(AutomationRunError::StaleLease { .. })
    ));

    run.store.complete_claim_cancellation(&mut run.root, &claim_id, false, &mut run.stored).unwrap();
    assert!(run.claim_of(&claim_id).next_action.contains("descendant cancellation"));
    run.store.complete_claim_cancellation(&mut run.root, &claim_id, true, &mut run.stored).unwrap();
    assert!(run.claim_of(&claim_id).next_action.contains("ambiguous Tracker effects"));

    let effect = &mut run.claim_mut(&claim_id).effects[0];
    effect.status = AutomationEffectStatus::Committed;
    effect.failure = None;
    effect.provider_receipt = Some("reconciled-provider-result".into());
    run.store.complete_claim_cancellation(&mut run.root, &claim_id, true, &mut run.stored).unwrap();
    assert_eq!(run.claim_of(&claim_id).status, AutomationClaimStatus::Cancelled);
    assert_eq!(run.claim_of(&claim_id).cleanup.status, AutomationCleanupStatus::Eligible);
}

#[test]
fn resume_reconciles_retained_identities_and_terminal_tracker_state_before_dispatch() {
    let mut run = start("task-resume", &profile());
    let claim_id = run.claim(&issue()).unwrap();
    let retained_worktree = run.claim_of(&claim_id).worktree.clone();
    let retained_task = AgentHandle {
        thread_id: "issue-task-1".into(),
        task_path: "/root/issue-task-1".into(),
        parent_thread_id: "task-resume".into(),
    };
    let claim = run.claim_mut(&claim_id);
    claim.issue_task = Some(retained_task.clone());
    claim.workflow_run_id = Some("child-run-1".into());
    run.save();

    run.pause("desktop pause");
    run.store.begin_reconciliation(&mut run.root, &mut run.stored).unwrap();
    let mut active = observation(&claim_id);
    active.issue_task_active = true;
    active.workflow_status = Some(RunStatus::Running);
    active.worktree_exists = true;
    run.store.reconcile(&mut run.root, &profile(), &[issue()], &[active], &run.lease, &mut run.stored).unwrap();
    assert_eq!(run.root.status, AutomationRootStatus::Running);
    assert_eq!(run.root.reconciliation, AutomationReconciliationStatus::Complete);
    assert_eq!(run.claim_of(&claim_id).worktree, retained_worktree);
    let task = run.claim_of(&claim_id).issue_task.clone().unwrap();
    assert_eq!(task.thread_id, retained_task.thread_id);
    assert_eq!(task.task_path, retained_task.task_path);
    assert_eq!(run.claim_of(&claim_id).workflow_run_id.as_deref(), Some("child-run-1"));

    run.pause("tracker refresh");
    run.store.begin_reconciliation(&mut run.root, &mut run.stored).unwrap();
    let mut terminal = issue();
    terminal.state = "Done".into();
    let mut still_running = observation(&claim_id);
    still_running.tracker_terminal = true;
    still_running.workflow_status = Some(RunStatus::Cancelled);
    still_running.worktree_exists = true;
    let blocked = run.store.reconcile(
        &mut run.root,
        &profile(),
        std::slice::from_ref(&terminal),
        &[still_running],
        &run.lease,
        &mut run.stored,
    );
    assert!(matches!(blocked, Err(AutomationRunError::ReconciliationBlocked(_))));
    assert_eq!(run.root.status, AutomationRootStatus::Suspended);
    assert_eq!(run.root.reconciliation, AutomationReconciliationStatus::Blocked);

    run.store.begin_reconciliation(&mut run.root, &mut run.stored).unwrap();
    let mut cancelled = observation(&claim_id);
    cancelled.descendants_cancelled = true;
    cancelled.tracker_terminal = true;
    cancelled.workflow_status = Some(RunStatus::Cancelled);
    cancelled.worktree_exists = true;
    run.store.reconcile(&mut run.root, &profile(), &[terminal], &[cancelled], &run.lease, &mut run.stored).unwrap();
    assert_eq!(run.claim_of(&claim_id).status, AutomationClaimStatus::Cancelled);
    assert_eq!(run.claim_of(&claim_id).cleanup.status, AutomationCleanupStatus::Eligible);
    assert!(run.claim_of(&claim_id).next_action.contains("cleanup eligible"));
}

#[test]
fn retry_schedule_is_deterministic_capped_and_recovered_from_checkpoint() {
    let mut profile = profile();
    profile.polling.interval_ms = 1_000;
    profile.agent.max_retry_backoff_ms = 4_000;
    let mut run = start("task-retry", &profile);
    let claim_id = run.claim(&issue()).unwrap();
    let identity = run.claim_of(&claim_id).clone();

    let first = run
        .store
        .schedule_claim_retry(&mut run.root, &claim_id, &profile, 10_000, "provider unavailable", &mut run.stored)
        .unwrap();
    assert_eq!(first.delay_ms, 1_000);
    assert_eq!(first.ready_at_ms, 11_000);
    assert!(matches!(
        run.store.dispatch_due_claim_work(&mut run.root, &claim_id, true, 10_999, &mut run.stored),
        Err(AutomationRunError::RetryNotReady(_))
    ));

    let recovered = run.claim_of(&claim_id).retry.clone().unwrap();
    assert_eq!(recovered.delay_ms, first.delay_ms);
    assert_eq!(recovered.ready_at_ms, first.ready_at_ms);
    assert_eq!(recovered.attempt, first.attempt);
    run.store.dispatch_due_claim_work(&mut run.root, &claim_id, true, 11_000, &mut run.stored).unwrap();
    for (attempt, expected_delay) in [(2u32, 2_000u64), (3, 4_000), (4, 4_000)] {
        let scheduled = run
            .store
            .schedule_claim_retry(&mut run.root, &claim_id, &profile, 20_000 + u64::from(attempt), "transient failure", &mut run.stored)
            .unwrap();
        assert_eq!(scheduled.attempt, attempt);
        assert_eq!(scheduled.delay_ms, expected_delay);
        run.store
            .dispatch_due_claim_work(&mut run.root, &claim_id, true, scheduled.ready_at_ms, &mut run.stored)
            .unwrap();
    }
    let claim = run.claim_of(&claim_id);
    assert_eq!(claim.claim_id, identity.claim_id);
    assert!(claim.issue_task.is_none() && identity.issue_task.is_none());
    assert_eq!(claim.worktree, identity.worktree);
}

#[test]
fn profile_reload_pins_active_claims_and_activates_only_on_future_dispatch() {
    let profile = profile();
    let digest = digest_of(&profile);
    let mut run = start("task-profile-reload", &profile);
    let first_claim = run
        .store
        .coordinate_fixture(&mut run.root, &profile, &[issue()], 1, WORKSPACE, &mut run.stored)
        .unwrap()
        .dispatched_claim_ids[0]
        .clone();

    let mut candidate = profile;
    candidate.agent.max_turns = 7;
    let candidate_digest = digest_of(&candidate);
    run.store
        .stage_profile_revision(&mut run.root, &candidate, &candidate_digest, &mut run.stored)
        .unwrap();
    assert_eq!(run.root.profile_revision.status, AutomationProfileRevisionStatus::PendingValid);
    assert_eq!(run.root.profile_digest, digest);
    assert_eq!(run.claim_of(&first_claim).profile_digest, digest);
    assert_eq!(run.claim_of(&first_claim).profile_revision, 1);

    let second_issue = queued_issue("issue-39", "ORC-39", "Todo", Some(1));
    let saturated = run
        .store
        .coordinate_fixture(
            &mut run.root,
            &candidate,
            std::slice::from_ref(&second_issue),
            1,
            WORKSPACE,
            &mut run.stored,
        )
        .unwrap();
    assert!(saturated.dispatched_claim_ids.is_empty());
    assert_eq!(run.root.profile_revision.status, AutomationProfileRevisionStatus::PendingValid);

    run.store
        .update_claim(
            &mut run.root,
            &first_claim,
            |mut claim| {
                claim.status = AutomationClaimStatus::Completed;
                claim
            },
            &mut run.stored,
        )
        .unwrap();
    let second_claim = run
        .store
        .coordinate_fixture(
            &mut run.root,
            &candidate,
            std::slice::from_ref(&second_issue),
            1,
            WORKSPACE,
            &mut run.stored,
        )
        .unwrap()
        .dispatched_claim_ids[0]
        .clone();
    assert_eq!(run.root.profile_digest, candidate_digest);
    assert_eq!(run.root.profile_revision.revision, 2);
    assert_eq!(run.root.profile_revision.status, AutomationProfileRevisionStatus::Active);
    assert_eq!(run.claim_of(&first_claim).profile_digest, digest);
    assert_eq!(run.claim_of(&second_claim).profile_digest, candidate_digest);
    assert_eq!(run.claim_of(&second_claim).profile_revision, 2);

    run.store
        .reject_profile_revision(
            &mut run.root,
            Some("rejected-digest"),
            &["agent.max_turns: must be positive".to_string()],
            &mut run.stored,
        )
        .unwrap();
    assert_eq!(run.root.profile_digest, candidate_digest);
    assert_eq!(run.root.profile_revision.status, AutomationProfileRevisionStatus::Rejected);
    assert_eq!(run.root.profile_revision.diagnostics.len(), 1);
}

#[test]
fn max_turns_yields_to_continuation_without_replacing_claim_resources() {
    let mut profile = profile();
    profile.agent.max_turns = 2;
    profile.polling.interval_ms = 500;
    let mut run = start("task-continuation", &profile);
    let claim_id = run.claim(&issue()).unwrap();
    let retained_worktree = run.claim_of(&claim_id).worktree.clone();

    let first = run
        .store
        .record_completed_invocation(&mut run.root, &claim_id, &profile, true, 1_000, &mut run.stored)
        .unwrap()
        .unwrap();
    assert!(!first.reset_turn_window);
    run.store.dispatch_due_claim_work(&mut run.root, &claim_id, true, first.ready_at_ms, &mut run.stored).unwrap();
    let exhausted = run
        .store
        .record_completed_invocation(&mut run.root, &claim_id, &profile, true, 2_000, &mut run.stored)
        .unwrap()
        .unwrap();
    assert!(exhausted.reset_turn_window);
    assert!(run.claim_of(&claim_id).next_action.contains("max_turns"));

    run.store.dispatch_due_claim_work(&mut run.root, &claim_id, true, exhausted.ready_at_ms, &mut run.stored).unwrap();
    let claim = run.claim_of(&claim_id);
    assert_eq!(claim.workflow_invocations, 2);
    assert_eq!(claim.turns_in_window, 0);
    assert_eq!(claim.continuation_count, 1);
    assert_eq!(claim.worktree, retained_worktree);
    assert_eq!(claim.claim_id, claim_id);

    let terminal = run
        .store
        .record_completed_invocation(&mut run.root, &claim_id, &profile, false, 3_000, &mut run.stored)
        .unwrap();
    assert!(terminal.is_none());
    assert_eq!(run.claim_of(&claim_id).status, AutomationClaimStatus::Completed);
    assert!(run.claim_of(&claim_id).retry.is_none());
}

#[test]
fn liveness_distinguishes_progress_gate_retry_stall_and_cancellation() {
    let mut profile = profile();
    profile.codex.stall_timeout_ms = 1_000;
    let mut run = start("task-liveness", &profile);
    let claim_id = run.claim(&issue()).unwrap();
    run.store.record_claim_progress(&mut run.root, &claim_id, 1_000, &mut run.stored).unwrap();
    assert_eq!(automation_claim_liveness(run.claim_of(&claim_id), &profile, 1_999), AutomationClaimLiveness::Active);
    assert_eq!(automation_claim_liveness(run.claim_of(&claim_id), &profile, 2_000), AutomationClaimLiveness::Stalled);

    run.resolve_comment(&claim_id, &profile, "Waiting for approval.", AutomationGatePolicy::AskHuman, |_| unreachable!())
        .unwrap();
    assert_eq!(automation_claim_liveness(run.claim_of(&claim_id), &profile, 20_000), AutomationClaimLiveness::WaitingGate);
    run.claim_mut(&claim_id).effects.clear();
    run.store.schedule_claim_retry(&mut run.root, &claim_id, &profile, 2_000, "retry", &mut run.stored).unwrap();
    assert_eq!(automation_claim_liveness(run.claim_of(&claim_id), &profile, 20_000), AutomationClaimLiveness::WaitingRetry);
    assert!(matches!(
        run.store.dispatch_due_claim_work(&mut run.root, &claim_id, false, 20_000, &mut run.stored),
        Err(AutomationRunError::InactiveClaim(_))
    ));
    assert!(run.claim_of(&claim_id).retry.is_none());
    run.store.cancel(&mut run.root, &mut run.stored).unwrap();
    assert_eq!(automation_claim_liveness(run.claim_of(&claim_id), &profile, 20_000), AutomationClaimLiveness::Terminal);
    assert!(matches!(
        run.store.dispatch_due_claim_work(&mut run.root, &claim_id, true, u64::MAX, &mut run.stored),
        Err(AutomationRunError::InactiveClaim(_))
    ));
}

#[test]
fn start_refuses_a_profile_under_another_digest() {
    let p = profile();
    let digest = digest_of(&p);
    assert!(check_start_profile(&p, &digest).is_ok());
    assert!(matches!(check_start_profile(&p, &"0".repeat(64)), Err(AutomationRunError::ProfileDigestMismatch)));
    let mut other = profile();
    other.agent.max_concurrent_agents += 1;
    assert!(matches!(check_start_profile(&other, &digest), Err(AutomationRunError::ProfileDigestMismatch)));
}

#[test]
fn provider_answers_are_kept_within_their_byte_bound() {
    let profile = profile();
    let mut run = start("task-bounded", &profile);
    let claim_id = run.claim(&issue()).unwrap();
    let committed = run
        .resolve_comment(&claim_id, &profile, "A long provider answer.", AutomationGatePolicy::AutoAccept, |_| {
            AutomationEffectExecution::Committed { provider_receipt: "é".repeat(400) }
        })
        .unwrap();
    let receipt = committed.provider_receipt.unwrap();
    assert!(receipt.len() <= 512);
    assert!(receipt.ends_with('…'));
    let failed = run
        .resolve_comment(&claim_id, &profile, "Another answer.", AutomationGatePolicy::AutoAccept, |_| {
            AutomationEffectExecution::Failed { message: "x".repeat(600) }
        })
        .unwrap();
    assert_eq!(failed.status, AutomationEffectStatus::Failed);
    assert_eq!(failed.failure.unwrap().len(), 512);
}

#[test]
fn loading_a_saved_checkpoint_gives_it_back_and_fills_older_claims() {
    let profile = profile();
    let mut run = start("task-load", &profile);
    let claim_id = run.claim(&issue()).unwrap();
    run.save();
    let loaded = run.store.load(run.root.clone());
    assert_eq!(loaded.revision, run.root.revision);
    assert_eq!(loaded.profile_revision.revision, run.root.profile_revision.revision);
    assert_eq!(loaded.claims.len(), run.root.claims.len());
    assert_eq!(loaded.claims[0].claim_id, claim_id);
    assert_eq!(loaded.claims[0].profile_digest, run.root.claims[0].profile_digest);
    let mut older = run.root.clone();
    older.profile_revision.revision = 0;
    older.claims[0].profile_digest = String::new();
    older.claims[0].profile_revision = 0;
    let filled = run.store.load(older);
    assert_eq!(filled.profile_revision.revision, 1);
    assert_eq!(filled.claims[0].profile_digest, run.root.profile_digest);
    assert_eq!(filled.claims[0].profile_revision, 1);
}
