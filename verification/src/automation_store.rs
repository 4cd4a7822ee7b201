//! The Automation Root Run store: every transition of a checkpoint, fenced by
//! its lease epoch and revision against the durable copy.
use crate::automation_run::AutomationRootCheckpoint;
use crate::automation_run::AutomationRunError;
use crate::automation_run::StoredRevision;
use crate::automation_run::claim_keys;
use crate::automation_run::claim_is_active;
use crate::automation_run::claim_is_active_spec;
use crate::automation_run::claim_pos;
use crate::automation_run::find_claim;
use crate::automation_run::has_claim;
use crate::automation_run::AutomationClaimStatus;
use crate::automation_run::AutomationIssueClaim;
use crate::automation_run::AutomationProfileRevisionStatus;
use crate::automation_run::AutomationHookKind;
use crate::automation_run::AutomationHookReceipt;
use crate::automation_run::AutomationHookStatus;
use crate::plan::CommandOutcome;
use crate::digest::sha256_hex;
use crate::digest::sha256_hex_str;
use crate::automation_run::AutomationEffectReceipt;
use crate::automation_run::AutomationEffectStatus;
use crate::automation_run::AutomationCleanupStatus;
use crate::automation_run::AutomationRetrySchedule;
use crate::automation_run::AutomationRetryKind;
use crate::automation_run::AutomationRootStatus;
use crate::automation_run::AutomationReconciliationStatus;
use crate::automation_run::claim_is_terminal_spec;
use crate::automation_run::effect_unresolved;
use crate::automation_run::any_effect_unresolved;
use crate::automation::AutomationProfile;
use crate::automation_policy::retry_delay_ms;
use crate::automation_policy::retry_delay_spec;
use crate::text::bounded_preview;
use crate::text::bounded_preview_spec;
use crate::text::decimal;
use crate::text::push_str;
use crate::text::u64_to_string;
use crate::paths::join_path;
use crate::paths::path_join;
use crate::text::to_owned_string;
use vstd::prelude::*;

verus! {

pub struct AutomationRunStore {
    repository: String,
    root: String,
    lease_path: String,
}

/// The lease file of a run: who owns the repository/project scope, at which epoch.
pub struct AutomationLease {
    pub lease_key: String,
    pub run_id: String,
    pub owner_thread_id: String,
    pub repository: String,
    pub tracker_project_slug: String,
    pub lease_epoch: u64,
}

pub open spec fn next_revision(r: u64) -> u64 {
    if r == u64::MAX { r } else { (r + 1) as u64 }
}

/// Whether the durable copy (if any) is at the given epoch and revision.
pub open spec fn is_fresh(stored: Option<StoredRevision>, epoch: u64, revision: u64) -> bool {
    match stored {
        None => true,
        Some(s) => s.lease_epoch == epoch && s.revision == revision,
    }
}

/// The error of a save against a durable copy that is not at the given epoch and revision.
pub open spec fn stale_error(e: AutomationRunError, stored: Option<StoredRevision>, epoch: u64, revision: u64) -> bool {
    &&& !is_fresh(stored, epoch, revision)
    &&& e == AutomationRunError::StaleLease {
        expected_epoch: epoch,
        expected_revision: revision,
        actual_epoch: stored.unwrap().lease_epoch,
        actual_revision: stored.unwrap().revision,
    }
}

/// `after` is `before` saved against the durable copy `stored`: when that copy is
/// fresh, the revision advances and the copy becomes `after`; otherwise nothing
/// changes and the save fails.
pub open spec fn saved(
    before: AutomationRootCheckpoint,
    after: AutomationRootCheckpoint,
    stored: Option<StoredRevision>,
    stored_after: Option<StoredRevision>,
    ok: bool,
) -> bool {
    if is_fresh(stored, before.lease_epoch, before.revision) {
        &&& ok
        &&& after == (AutomationRootCheckpoint { revision: next_revision(before.revision), ..before })
        &&& stored_after == Some(StoredRevision { lease_epoch: before.lease_epoch, revision: next_revision(before.revision) })
    } else {
        &&& !ok
        &&& after == before
        &&& stored_after == stored
    }
}

/// The checkpoint `fin` with the revision it had before saving.
pub open spec fn unsaved(old: AutomationRootCheckpoint, fin: AutomationRootCheckpoint) -> AutomationRootCheckpoint {
    AutomationRootCheckpoint { revision: old.revision, ..fin }
}

/// `new` differs from `old` at most in claim `i` and the root's next action.
pub open spec fn claim_changed(old: AutomationRootCheckpoint, new: AutomationRootCheckpoint, i: int) -> bool {
    &&& 0 <= i < old.claims@.len()
    &&& new == (AutomationRootCheckpoint { claims: new.claims, next_action: new.next_action, ..old })
    &&& new.claims@ == old.claims@.update(i, new.claims@[i])
    &&& new.claims@[i].claim_id@ == old.claims@[i].claim_id@
}

pub proof fn lemma_claim_change_keeps_wf(old: AutomationRootCheckpoint, new: AutomationRootCheckpoint, i: int)
    requires
        old.wf(),
        0 <= i < old.claims@.len(),
        new.queue@ == old.queue@,
        new.claims@ == old.claims@.update(i, new.claims@[i]),
        new.claims@[i].claim_id@ == old.claims@[i].claim_id@,
    ensures
        new.wf(),
{
    assert(claim_keys(new.claims@) =~= claim_keys(old.claims@));
}

/// Checks the durable copy against the epoch and revision this checkpoint was loaded at.
pub fn ensure_fresh(stored: Option<StoredRevision>, expected_epoch: u64, expected_revision: u64) -> (r: Result<(), AutomationRunError>)
    ensures
        r is Ok == is_fresh(stored, expected_epoch, expected_revision),
        r matches Err(e) ==> stale_error(e, stored, expected_epoch, expected_revision),
{
    match stored {
        None => Ok(()),
        Some(s) => {
            if s.lease_epoch != expected_epoch || s.revision != expected_revision {
                Err(AutomationRunError::StaleLease {
                    expected_epoch,
                    expected_revision,
                    actual_epoch: s.lease_epoch,
                    actual_revision: s.revision,
                })
            } else {
                Ok(())
            }
        },
    }
}

impl AutomationRunStore {
    pub closed spec fn repository_path(&self) -> Seq<char> {
        self.repository@
    }

    pub closed spec fn root_path(&self) -> Seq<char> {
        self.root@
    }

    pub closed spec fn lease_file(&self) -> Seq<char> {
        self.lease_path@
    }

    /// The store of run `run_id` in `repository` (already resolved), whose lease is `lease_key`.
    pub fn open(repository: &str, run_id: &str, lease_key: &str) -> (r: AutomationRunStore)
        ensures
            r.repository_path() == repository@,
            r.root_path() == path_join(path_join(repository@, ".codex/orchestra/runs"@), run_id@),
            r.lease_file() == path_join(path_join(repository@, ".codex/orchestra/leases"@),
                "automation-"@ + lease_key@ + ".json"@),
    {
        let runs = join_path(repository, ".codex/orchestra/runs");
        let root = join_path(runs.as_str(), run_id);
        let leases = join_path(repository, ".codex/orchestra/leases");
        let mut name = to_owned_string("automation-");
        crate::text::push_str(&mut name, lease_key);
        crate::text::push_str(&mut name, ".json");
        let lease_path = join_path(leases.as_str(), name.as_str());
        AutomationRunStore { repository: to_owned_string(repository), root, lease_path }
    }

    pub fn repository(&self) -> (r: &str)
        ensures
            r@ == self.repository_path(),
    {
        self.repository.as_str()
    }

    /// The state file of this run.
    pub fn state_path(&self) -> (r: String)
        ensures
            r@ == path_join(self.root_path(), "automation-state.json"@),
    {
        join_path(self.root.as_str(), "automation-state.json")
    }

    pub fn lease_path(&self) -> (r: &str)
        ensures
            r@ == self.lease_file(),
    {
        self.lease_path.as_str()
    }

    /// Fenced write: the durable copy must still be at `expected_epoch` and
    /// `expected_revision`; then the revision advances (saturating) and the copy
    /// becomes this checkpoint.
    pub fn persist(
        &self,
        checkpoint: &mut AutomationRootCheckpoint,
        expected_epoch: u64,
        expected_revision: u64,
        stored: &mut Option<StoredRevision>,
    ) -> (r: Result<(), AutomationRunError>)
        ensures
            r is Ok == is_fresh(*old(stored), expected_epoch, expected_revision),
            r matches Err(e) ==> stale_error(e, *old(stored), expected_epoch, expected_revision),
            r is Ok ==> *final(checkpoint) == (AutomationRootCheckpoint { revision: next_revision(expected_revision), ..*old(checkpoint) }),
            r is Ok ==> *final(stored) == Some(StoredRevision { lease_epoch: old(checkpoint).lease_epoch, revision: next_revision(expected_revision) }),
            r is Err ==> *final(checkpoint) == *old(checkpoint) && *final(stored) == *old(stored),
    {
        ensure_fresh(*stored, expected_epoch, expected_revision)?;
        checkpoint.revision = expected_revision.saturating_add(1);
        *stored = Some(StoredRevision { lease_epoch: checkpoint.lease_epoch, revision: checkpoint.revision });
        Ok(())
    }

    /// Saves at the checkpoint's own epoch and revision.
    pub fn save(&self, checkpoint: &mut AutomationRootCheckpoint, stored: &mut Option<StoredRevision>) -> (r: Result<(), AutomationRunError>)
        ensures
            saved(*old(checkpoint), *final(checkpoint), *old(stored), *final(stored), r is Ok),
            r matches Err(e) ==> stale_error(e, *old(stored), old(checkpoint).lease_epoch, old(checkpoint).revision),
    {
        let expected_epoch = checkpoint.lease_epoch;
        let expected_revision = checkpoint.revision;
        self.persist(checkpoint, expected_epoch, expected_revision, stored)
    }

    /// The lease record of a checkpoint, at its current epoch.
    pub fn write_lease(&self, checkpoint: &AutomationRootCheckpoint) -> (r: AutomationLease)
        ensures
            r.lease_key == checkpoint.lease_key,
            r.run_id == checkpoint.run_id,
            r.owner_thread_id == checkpoint.owner_thread_id,
            r.repository == checkpoint.repository,
            r.tracker_project_slug == checkpoint.tracker_project_slug,
            r.lease_epoch == checkpoint.lease_epoch,
    {
        AutomationLease {
            lease_key: checkpoint.lease_key.clone(),
            run_id: checkpoint.run_id.clone(),
            owner_thread_id: checkpoint.owner_thread_id.clone(),
            repository: checkpoint.repository.clone(),
            tracker_project_slug: checkpoint.tracker_project_slug.clone(),
            lease_epoch: checkpoint.lease_epoch,
        }
    }

    /// The lease must name this run and owner at this epoch.
    pub fn verify_lease(&self, checkpoint: &AutomationRootCheckpoint, lease: &AutomationLease) -> (r: Result<(), AutomationRunError>)
        ensures
            r is Ok == (lease.run_id@ == checkpoint.run_id@ && lease.owner_thread_id@ == checkpoint.owner_thread_id@
                && lease.lease_epoch == checkpoint.lease_epoch),
            r matches Err(e) ==> e matches AutomationRunError::LeaseConflict { lease_key, owner_thread_id }
                && lease_key@ == checkpoint.lease_key@ && owner_thread_id@ == lease.owner_thread_id@,
    {
        if !crate::text::str_eq(lease.run_id.as_str(), checkpoint.run_id.as_str())
            || !crate::text::str_eq(lease.owner_thread_id.as_str(), checkpoint.owner_thread_id.as_str())
            || lease.lease_epoch != checkpoint.lease_epoch {
            return Err(AutomationRunError::LeaseConflict {
                lease_key: checkpoint.lease_key.clone(),
                owner_thread_id: lease.owner_thread_id.clone(),
            });
        }
        Ok(())
    }
}


/// `fin`, saved from `old`: the checkpoint as changed, then saved.
pub open spec fn saved_from(
    old: AutomationRootCheckpoint,
    fin: AutomationRootCheckpoint,
    stored: Option<StoredRevision>,
    stored_fin: Option<StoredRevision>,
    ok: bool,
) -> bool {
    saved(unsaved(old, fin), fin, stored, stored_fin, ok)
}

/// The claim keyed `claim_id` exists and is active.
pub open spec fn active_claim_found(claims: Seq<AutomationIssueClaim>, claim_id: Seq<char>) -> bool {
    has_claim(claims, claim_id) && claim_is_active_spec(claims[claim_pos(claims, claim_id)].status)
}

/// The error for a claim that is missing, or present but not active.
pub open spec fn active_claim_error(claims: Seq<AutomationIssueClaim>, claim_id: Seq<char>, e: AutomationRunError) -> bool {
    if !has_claim(claims, claim_id) {
        e matches AutomationRunError::MissingClaim(x) && x@ == claim_id
    } else {
        e matches AutomationRunError::InactiveClaim(x) && x@ == claim_id
    }
}

pub open spec fn missing_claim_error(claim_id: Seq<char>, e: AutomationRunError) -> bool {
    e matches AutomationRunError::MissingClaim(x) && x@ == claim_id
}

/// The position of the active claim keyed `claim_id`.
pub fn active_claim_mut(checkpoint: &AutomationRootCheckpoint, claim_id: &str) -> (r: Result<usize, AutomationRunError>)
    requires
        checkpoint.wf(),
    ensures
        r is Ok == active_claim_found(checkpoint.claims@, claim_id@),
        r matches Ok(i) ==> i == claim_pos(checkpoint.claims@, claim_id@) && i < checkpoint.claims@.len(),
        r matches Err(e) ==> active_claim_error(checkpoint.claims@, claim_id@, e),
{
    match find_claim(&checkpoint.claims, claim_id) {
        None => Err(AutomationRunError::MissingClaim(to_owned_string(claim_id))),
        Some(i) => {
            if !claim_is_active(checkpoint.claims[i].status) {
                return Err(AutomationRunError::InactiveClaim(to_owned_string(claim_id)));
            }
            Ok(i)
        },
    }
}

/// The claim after progress was recorded at `now_ms`.
pub open spec fn progress_recorded(old: AutomationIssueClaim, new: AutomationIssueClaim, now_ms: u64) -> bool {
    &&& new == (AutomationIssueClaim {
        last_progress_at_ms: Some(now_ms),
        retry: None,
        status: AutomationClaimStatus::Running,
        next_action: new.next_action,
        ..old
    })
    &&& new.next_action@ == "Workflow progress recorded in the native Issue task"@
}

impl AutomationRunStore {
    /// Records Workflow progress on an active claim: it runs, and any pending retry is dropped.
    pub fn record_claim_progress(
        &self,
        checkpoint: &mut AutomationRootCheckpoint,
        claim_id: &str,
        now_ms: u64,
        stored: &mut Option<StoredRevision>,
    ) -> (r: Result<(), AutomationRunError>)
        requires
            old(checkpoint).wf(),
        ensures
            final(checkpoint).wf(),
            active_claim_found(old(checkpoint).claims@, claim_id@) ==> {
                let i = claim_pos(old(checkpoint).claims@, claim_id@);
                let mid = unsaved(*old(checkpoint), *final(checkpoint));
                &&& claim_changed(*old(checkpoint), mid, i)
                &&& mid.next_action == old(checkpoint).next_action
                &&& progress_recorded(old(checkpoint).claims@[i], mid.claims@[i], now_ms)
                &&& saved_from(*old(checkpoint), *final(checkpoint), *old(stored), *final(stored), r is Ok)
            },
            !active_claim_found(old(checkpoint).claims@, claim_id@) ==> (*final(checkpoint) == *old(checkpoint)
                && *final(stored) == *old(stored) && (r matches Err(e) && active_claim_error(old(checkpoint).claims@, claim_id@, e))),
            r matches Err(e) ==> active_claim_error(old(checkpoint).claims@, claim_id@, e)
                || stale_error(e, *old(stored), old(checkpoint).lease_epoch, old(checkpoint).revision),
    {
        let i = active_claim_mut(checkpoint, claim_id)?;
        checkpoint.claims[i].last_progress_at_ms = Some(now_ms);
        checkpoint.claims[i].retry = None;
        checkpoint.claims[i].status = AutomationClaimStatus::Running;
        checkpoint.claims[i].next_action = to_owned_string("Workflow progress recorded in the native Issue task");
        proof {
            assert(checkpoint.claims@ =~= old(checkpoint).claims@.update(i as int, checkpoint.claims@[i as int]));
            lemma_claim_change_keeps_wf(*old(checkpoint), *checkpoint, i as int);
        }
        self.save(checkpoint, stored)
    }
}


/// `new` is `old` where each executing effect became ambiguous with failure `msg`.
pub open spec fn effects_fenced(old: Seq<AutomationEffectReceipt>, new: Seq<AutomationEffectReceipt>, msg: Seq<char>) -> bool {
    &&& new.len() == old.len()
    &&& forall|k: int| 0 <= k < old.len() ==> {
        if (#[trigger] old[k]).status == AutomationEffectStatus::Executing {
            &&& new[k] == (AutomationEffectReceipt { status: AutomationEffectStatus::Ambiguous, failure: new[k].failure, ..old[k] })
            &&& new[k].failure matches Some(f) && f@ == msg
        } else {
            new[k] == old[k]
        }
    }
    &&& forall|k: int| 0 <= k < new.len() ==> (#[trigger] new[k]).status != AutomationEffectStatus::Executing
}

/// Fences effects whose provider result is not yet durable: executing becomes ambiguous.
pub fn fence_effects(effects: &mut Vec<AutomationEffectReceipt>, msg: &str)
    ensures
        effects_fenced(old(effects)@, final(effects)@, msg@),
        forall|k: int| 0 <= k < final(effects)@.len() ==> (#[trigger] final(effects)@[k]).status != AutomationEffectStatus::Executing,
{
    let mut k: usize = 0;
    while k < effects.len()
        invariant
            k <= effects.len(),
            effects@.len() == old(effects)@.len(),
            forall|j: int| 0 <= j < k ==> (#[trigger] effects@[j]).status != AutomationEffectStatus::Executing,
            forall|j: int| 0 <= j < effects@.len() ==> {
                if j < k {
                    if (#[trigger] old(effects)@[j]).status == AutomationEffectStatus::Executing {
                        &&& effects@[j] == (AutomationEffectReceipt { status: AutomationEffectStatus::Ambiguous, failure: effects@[j].failure, ..old(effects)@[j] })
                        &&& effects@[j].failure matches Some(f) && f@ == msg@
                    } else {
                        effects@[j] == old(effects)@[j]
                    }
                } else {
                    effects@[j] == old(effects)@[j]
                }
            },
        decreases effects.len() - k,
    {
        if effects[k].status == AutomationEffectStatus::Executing {
            effects[k].status = AutomationEffectStatus::Ambiguous;
            effects[k].failure = Some(to_owned_string(msg));
        }
        k = k + 1;
    }
}

pub open spec fn cleanup_recorded(old: AutomationIssueClaim, new: AutomationIssueClaim, result: Result<(), &str>) -> bool {
    let attempts: u32 = if old.cleanup.attempts == u32::MAX { u32::MAX } else { (old.cleanup.attempts + 1) as u32 };
    &&& new == (AutomationIssueClaim { cleanup: new.cleanup, next_action: new.next_action, ..old })
    &&& new.cleanup.attempts == attempts
    &&& match result {
        Ok(()) => {
            &&& new.cleanup.status == AutomationCleanupStatus::Removed
            &&& new.cleanup.last_failure is None
            &&& new.next_action@ == "terminal Issue resources removed; evidence retained"@
        },
        Err(error) => {
            &&& new.cleanup.status == AutomationCleanupStatus::RetryPending
            &&& new.cleanup.last_failure matches Some(f) && f@ == bounded_preview_spec(error@, 512)
            &&& new.next_action@ == "retry terminal Issue worktree cleanup"@
        },
    }
}

pub open spec fn cleanup_open(claims: Seq<AutomationIssueClaim>, claim_id: Seq<char>) -> bool {
    has_claim(claims, claim_id) && {
        let s = claims[claim_pos(claims, claim_id)].cleanup.status;
        s == AutomationCleanupStatus::Eligible || s == AutomationCleanupStatus::RetryPending
    }
}

/// The retry scheduled after a failed attempt numbered `attempt`.
pub open spec fn retry_scheduled(s: AutomationRetrySchedule, attempt: u32, base: u64, cap: u64, now_ms: u64, reason: Seq<char>) -> bool {
    let delay = retry_delay_spec(base, cap, attempt);
    &&& s.kind == AutomationRetryKind::Retry
    &&& s.attempt == attempt
    &&& s.delay_ms == delay
    &&& s.ready_at_ms == (if now_ms + delay > u64::MAX { u64::MAX } else { (now_ms + delay) as u64 })
    &&& !s.reset_turn_window
    &&& s.reason@ == bounded_preview_spec(reason, 240)
}

pub open spec fn sat_inc(x: u32) -> u32 {
    if x == u32::MAX { x } else { (x + 1) as u32 }
}

pub open spec fn sat_add_u64(a: u64, b: u64) -> u64 {
    if a + b > u64::MAX { u64::MAX } else { (a + b) as u64 }
}

impl AutomationRunStore {
    /// Records one cleanup attempt of a claim whose cleanup is eligible or pending retry.
    pub fn record_cleanup_attempt(
        &self,
        checkpoint: &mut AutomationRootCheckpoint,
        claim_id: &str,
        result: Result<(), &str>,
        stored: &mut Option<StoredRevision>,
    ) -> (r: Result<(), AutomationRunError>)
        requires
            old(checkpoint).wf(),
        ensures
            final(checkpoint).wf(),
            cleanup_open(old(checkpoint).claims@, claim_id@) ==> {
                let i = claim_pos(old(checkpoint).claims@, claim_id@);
                let mid = unsaved(*old(checkpoint), *final(checkpoint));
                &&& claim_changed(*old(checkpoint), mid, i)
                &&& mid.next_action == old(checkpoint).next_action
                &&& cleanup_recorded(old(checkpoint).claims@[i], mid.claims@[i], result)
                &&& saved_from(*old(checkpoint), *final(checkpoint), *old(stored), *final(stored), r is Ok)
                &&& (r matches Err(e) ==> stale_error(e, *old(stored), old(checkpoint).lease_epoch, old(checkpoint).revision))
            },
            !cleanup_open(old(checkpoint).claims@, claim_id@) ==> (*final(checkpoint) == *old(checkpoint)
                && *final(stored) == *old(stored) && (r matches Err(e) && active_claim_error(old(checkpoint).claims@, claim_id@, e))),
    {
        let i = match find_claim(&checkpoint.claims, claim_id) {
            None => return Err(AutomationRunError::MissingClaim(to_owned_string(claim_id))),
            Some(i) => i,
        };
        if !matches!(checkpoint.claims[i].cleanup.status, AutomationCleanupStatus::Eligible | AutomationCleanupStatus::RetryPending) {
            return Err(AutomationRunError::InactiveClaim(to_owned_string(claim_id)));
        }
        checkpoint.claims[i].cleanup.attempts = checkpoint.claims[i].cleanup.attempts.saturating_add(1);
        match result {
            Ok(()) => {
                checkpoint.claims[i].cleanup.status = AutomationCleanupStatus::Removed;
                checkpoint.claims[i].cleanup.last_failure = None;
                checkpoint.claims[i].next_action = to_owned_string("terminal Issue resources removed; evidence retained");
            },
            Err(error) => {
                checkpoint.claims[i].cleanup.status = AutomationCleanupStatus::RetryPending;
                checkpoint.claims[i].cleanup.last_failure = Some(bounded_preview(error, 512));
                checkpoint.claims[i].next_action = to_owned_string("retry terminal Issue worktree cleanup");
            },
        }
        proof {
            assert(checkpoint.claims@ =~= old(checkpoint).claims@.update(i as int, checkpoint.claims@[i as int]));
            lemma_claim_change_keeps_wf(*old(checkpoint), *checkpoint, i as int);
        }
        self.save(checkpoint, stored)
    }

    /// Schedules a backoff retry of an active claim after a failure.
    pub fn schedule_claim_retry(
        &self,
        checkpoint: &mut AutomationRootCheckpoint,
        claim_id: &str,
        profile: &AutomationProfile,
        now_ms: u64,
        reason: &str,
        stored: &mut Option<StoredRevision>,
    ) -> (r: Result<AutomationRetrySchedule, AutomationRunError>)
        requires
            old(checkpoint).wf(),
        ensures
            final(checkpoint).wf(),
            active_claim_found(old(checkpoint).claims@, claim_id@) ==> {
                let i = claim_pos(old(checkpoint).claims@, claim_id@);
                let mid = unsaved(*old(checkpoint), *final(checkpoint));
                let c = old(checkpoint).claims@[i];
                let n = mid.claims@[i];
                &&& claim_changed(*old(checkpoint), mid, i)
                &&& mid.next_action == old(checkpoint).next_action
                &&& n == (AutomationIssueClaim { retry_attempt: sat_inc(c.retry_attempt), retry: n.retry, next_action: n.next_action, ..c })
                &&& n.retry matches Some(s) && retry_scheduled(s, sat_inc(c.retry_attempt), profile.polling.interval_ms,
                        profile.agent.max_retry_backoff_ms, now_ms, reason@)
                    && n.next_action@ == "retry attempt "@ + decimal(s.attempt as nat) + " in "@ + decimal(s.delay_ms as nat) + "ms: "@ + s.reason@
                    && (r matches Ok(t) ==> t == s)
                &&& saved_from(*old(checkpoint), *final(checkpoint), *old(stored), *final(stored), r is Ok)
                &&& (r matches Err(e) ==> stale_error(e, *old(stored), old(checkpoint).lease_epoch, old(checkpoint).revision))
            },
            !active_claim_found(old(checkpoint).claims@, claim_id@) ==> (*final(checkpoint) == *old(checkpoint)
                && *final(stored) == *old(stored) && (r matches Err(e) && active_claim_error(old(checkpoint).claims@, claim_id@, e))),
    {
        let i = active_claim_mut(checkpoint, claim_id)?;
        let attempt = checkpoint.claims[i].retry_attempt.saturating_add(1);
        checkpoint.claims[i].retry_attempt = attempt;
        let delay_ms = retry_delay_ms(profile.polling.interval_ms, profile.agent.max_retry_backoff_ms, attempt);
        let schedule = AutomationRetrySchedule {
            kind: AutomationRetryKind::Retry,
            attempt,
            delay_ms,
            ready_at_ms: now_ms.saturating_add(delay_ms),
            reset_turn_window: false,
            reason: bounded_preview(reason, 240),
        };
        let mut next = to_owned_string("retry attempt ");
        push_str(&mut next, u64_to_string(attempt as u64).as_str());
        push_str(&mut next, " in ");
        push_str(&mut next, u64_to_string(delay_ms).as_str());
        push_str(&mut next, "ms: ");
        push_str(&mut next, schedule.reason.as_str());
        checkpoint.claims[i].retry = Some(schedule.duplicate());
        checkpoint.claims[i].next_action = next;
        proof {
            assert(checkpoint.claims@ =~= old(checkpoint).claims@.update(i as int, checkpoint.claims@[i as int]));
            lemma_claim_change_keeps_wf(*old(checkpoint), *checkpoint, i as int);
        }
        self.save(checkpoint, stored)?;
        Ok(schedule)
    }
}


pub open spec fn invocation_completed(old: AutomationIssueClaim, new: AutomationIssueClaim, profile: AutomationProfile,
    tracker_issue_active: bool, now_ms: u64, result: Option<AutomationRetrySchedule>) -> bool {
    let turns = sat_inc(old.turns_in_window);
    &&& new == (AutomationIssueClaim {
        workflow_invocations: sat_inc(old.workflow_invocations),
        turns_in_window: turns,
        retry_attempt: 0,
        last_progress_at_ms: Some(now_ms),
        retry: new.retry,
        status: new.status,
        next_action: new.next_action,
        ..old
    })
    &&& if !tracker_issue_active {
        &&& new.retry is None
        &&& new.status == AutomationClaimStatus::Completed
        &&& new.next_action@ == "claim complete; tracker issue is no longer active"@
        &&& result is None
    } else {
        let reset = turns >= profile.agent.max_turns;
        let delay = if profile.polling.interval_ms < profile.agent.max_retry_backoff_ms {
            profile.polling.interval_ms
        } else {
            profile.agent.max_retry_backoff_ms
        };
        &&& new.status == AutomationClaimStatus::Running
        &&& new.retry matches Some(s) && result == Some(s) && {
            &&& s.kind == AutomationRetryKind::Continuation
            &&& s.attempt == sat_inc(old.continuation_count)
            &&& s.delay_ms == delay
            &&& s.ready_at_ms == sat_add_u64(now_ms, delay)
            &&& s.reset_turn_window == reset
            &&& s.reason@ == if reset {
                "Workflow turn window exhausted while the tracker issue remains active"@
            } else {
                "tracker issue remains active after a completed Workflow invocation"@
            }
        }
        &&& new.next_action@ == if reset {
            "continuation retry in "@ + decimal(delay as nat) + "ms after max_turns"@
        } else {
            "continue claim in "@ + decimal(delay as nat) + "ms"@
        }
    }
}

pub open spec fn due_work_dispatched(old: AutomationIssueClaim, new: AutomationIssueClaim, now_ms: u64) -> bool {
    let s = old.retry.unwrap();
    &&& new == (AutomationIssueClaim {
        turns_in_window: if s.reset_turn_window { 0 } else { old.turns_in_window },
        continuation_count: if s.reset_turn_window { sat_inc(old.continuation_count) } else { old.continuation_count },
        retry: None,
        status: AutomationClaimStatus::Running,
        last_progress_at_ms: Some(now_ms),
        next_action: new.next_action,
        ..old
    })
    &&& new.next_action@ == "invoke the selected typed Workflow in the retained Issue task"@
}

pub open spec fn retry_due(claim: AutomationIssueClaim, now_ms: u64) -> bool {
    claim.retry matches Some(s) && s.ready_at_ms <= now_ms
}

impl AutomationRunStore {
    /// Records a completed Workflow invocation: the claim completes when its tracker
    /// issue is no longer active, and otherwise a continuation is scheduled.
    pub fn record_completed_invocation(
        &self,
        checkpoint: &mut AutomationRootCheckpoint,
        claim_id: &str,
        profile: &AutomationProfile,
        tracker_issue_active: bool,
        now_ms: u64,
        stored: &mut Option<StoredRevision>,
    ) -> (r: Result<Option<AutomationRetrySchedule>, AutomationRunError>)
        requires
            old(checkpoint).wf(),
        ensures
            final(checkpoint).wf(),
            active_claim_found(old(checkpoint).claims@, claim_id@) ==> {
                let i = claim_pos(old(checkpoint).claims@, claim_id@);
                let mid = unsaved(*old(checkpoint), *final(checkpoint));
                &&& claim_changed(*old(checkpoint), mid, i)
                &&& mid.next_action == old(checkpoint).next_action
                &&& exists|result: Option<AutomationRetrySchedule>| invocation_completed(old(checkpoint).claims@[i], mid.claims@[i], *profile,
                        tracker_issue_active, now_ms, result) && (r matches Ok(x) ==> x == result)
                &&& saved_from(*old(checkpoint), *final(checkpoint), *old(stored), *final(stored), r is Ok)
                &&& (r matches Err(e) ==> stale_error(e, *old(stored), old(checkpoint).lease_epoch, old(checkpoint).revision))
            },
            !active_claim_found(old(checkpoint).claims@, claim_id@) ==> (*final(checkpoint) == *old(checkpoint)
                && *final(stored) == *old(stored) && (r matches Err(e) && active_claim_error(old(checkpoint).claims@, claim_id@, e))),
    {
        let i = active_claim_mut(checkpoint, claim_id)?;
        checkpoint.claims[i].workflow_invocations = checkpoint.claims[i].workflow_invocations.saturating_add(1);
        checkpoint.claims[i].turns_in_window = checkpoint.claims[i].turns_in_window.saturating_add(1);
        checkpoint.claims[i].retry_attempt = 0;
        checkpoint.claims[i].last_progress_at_ms = Some(now_ms);
        if !tracker_issue_active {
            checkpoint.claims[i].retry = None;
            checkpoint.claims[i].status = AutomationClaimStatus::Completed;
            checkpoint.claims[i].next_action = to_owned_string("claim complete; tracker issue is no longer active");
            proof {
                assert(checkpoint.claims@ =~= old(checkpoint).claims@.update(i as int, checkpoint.claims@[i as int]));
                lemma_claim_change_keeps_wf(*old(checkpoint), *checkpoint, i as int);
                assert(invocation_completed(old(checkpoint).claims@[i as int], checkpoint.claims@[i as int], *profile,
                    tracker_issue_active, now_ms, None));
            }
            self.save(checkpoint, stored)?;
            return Ok(None);
        }
        let reset_turn_window = checkpoint.claims[i].turns_in_window >= profile.agent.max_turns;
        let delay_ms = if profile.polling.interval_ms < profile.agent.max_retry_backoff_ms {
            profile.polling.interval_ms
        } else {
            profile.agent.max_retry_backoff_ms
        };
        let reason = if reset_turn_window {
            to_owned_string("Workflow turn window exhausted while the tracker issue remains active")
        } else {
            to_owned_string("tracker issue remains active after a completed Workflow invocation")
        };
        let schedule = AutomationRetrySchedule {
            kind: AutomationRetryKind::Continuation,
            attempt: checkpoint.claims[i].continuation_count.saturating_add(1),
            delay_ms,
            ready_at_ms: now_ms.saturating_add(delay_ms),
            reset_turn_window,
            reason,
        };
        let next = if reset_turn_window {
            let mut n = to_owned_string("continuation retry in ");
            push_str(&mut n, u64_to_string(delay_ms).as_str());
            push_str(&mut n, "ms after max_turns");
            n
        } else {
            let mut n = to_owned_string("continue claim in ");
            push_str(&mut n, u64_to_string(delay_ms).as_str());
            push_str(&mut n, "ms");
            n
        };
        checkpoint.claims[i].retry = Some(schedule.duplicate());
        checkpoint.claims[i].status = AutomationClaimStatus::Running;
        checkpoint.claims[i].next_action = next;
        proof {
            assert(checkpoint.claims@ =~= old(checkpoint).claims@.update(i as int, checkpoint.claims@[i as int]));
            lemma_claim_change_keeps_wf(*old(checkpoint), *checkpoint, i as int);
            assert(invocation_completed(old(checkpoint).claims@[i as int], checkpoint.claims@[i as int], *profile,
                tracker_issue_active, now_ms, Some(schedule)));
        }
        self.save(checkpoint, stored)?;
        Ok(Some(schedule))
    }

    /// Takes up a claim's due retry or continuation: the claim runs again now.
    /// A claim whose tracker issue is no longer active is cancelled instead.
    pub fn dispatch_due_claim_work(
        &self,
        checkpoint: &mut AutomationRootCheckpoint,
        claim_id: &str,
        tracker_issue_active: bool,
        now_ms: u64,
        stored: &mut Option<StoredRevision>,
    ) -> (r: Result<AutomationRetrySchedule, AutomationRunError>)
        requires
            old(checkpoint).wf(),
        ensures
            final(checkpoint).wf(),
            active_claim_found(old(checkpoint).claims@, claim_id@) && !tracker_issue_active ==> {
                let i = claim_pos(old(checkpoint).claims@, claim_id@);
                let mid = unsaved(*old(checkpoint), *final(checkpoint));
                let c = old(checkpoint).claims@[i];
                &&& claim_changed(*old(checkpoint), mid, i)
                &&& mid.next_action == old(checkpoint).next_action
                &&& mid.claims@[i] == (AutomationIssueClaim { retry: None, status: AutomationClaimStatus::Cancelled,
                        next_action: mid.claims@[i].next_action, ..c })
                &&& mid.claims@[i].next_action@ == "tracker issue became terminal; stop future invocations"@
                &&& saved_from(*old(checkpoint), *final(checkpoint), *old(stored), *final(stored), true)
                    || saved_from(*old(checkpoint), *final(checkpoint), *old(stored), *final(stored), false)
                &&& r matches Err(e) && ((e matches AutomationRunError::InactiveClaim(x) && x@ == claim_id@
                        && is_fresh(*old(stored), old(checkpoint).lease_epoch, old(checkpoint).revision))
                    || stale_error(e, *old(stored), old(checkpoint).lease_epoch, old(checkpoint).revision))
            },
            active_claim_found(old(checkpoint).claims@, claim_id@) && tracker_issue_active ==> {
                let i = claim_pos(old(checkpoint).claims@, claim_id@);
                if retry_due(old(checkpoint).claims@[i], now_ms) {
                    let mid = unsaved(*old(checkpoint), *final(checkpoint));
                    &&& claim_changed(*old(checkpoint), mid, i)
                    &&& mid.next_action == old(checkpoint).next_action
                    &&& due_work_dispatched(old(checkpoint).claims@[i], mid.claims@[i], now_ms)
                    &&& saved_from(*old(checkpoint), *final(checkpoint), *old(stored), *final(stored), r is Ok)
                    &&& (r matches Ok(s) ==> s == old(checkpoint).claims@[i].retry.unwrap())
                    &&& (r matches Err(e) ==> stale_error(e, *old(stored), old(checkpoint).lease_epoch, old(checkpoint).revision))
                } else {
                    &&& *final(checkpoint) == *old(checkpoint)
                    &&& *final(stored) == *old(stored)
                    &&& r matches Err(e) && e matches AutomationRunError::RetryNotReady(x) && x@ == claim_id@
                }
            },
            !active_claim_found(old(checkpoint).claims@, claim_id@) ==> (*final(checkpoint) == *old(checkpoint)
                && *final(stored) == *old(stored) && (r matches Err(e) && active_claim_error(old(checkpoint).claims@, claim_id@, e))),
    {
        let i = active_claim_mut(checkpoint, claim_id)?;
        if !tracker_issue_active {
            checkpoint.claims[i].retry = None;
            checkpoint.claims[i].status = AutomationClaimStatus::Cancelled;
            checkpoint.claims[i].next_action = to_owned_string("tracker issue became terminal; stop future invocations");
            proof {
                assert(checkpoint.claims@ =~= old(checkpoint).claims@.update(i as int, checkpoint.claims@[i as int]));
                lemma_claim_change_keeps_wf(*old(checkpoint), *checkpoint, i as int);
            }
            self.save(checkpoint, stored)?;
            return Err(AutomationRunError::InactiveClaim(to_owned_string(claim_id)));
        }
        let schedule = match &checkpoint.claims[i].retry {
            Some(retry) => {
                if retry.ready_at_ms <= now_ms {
                    retry.duplicate()
                } else {
                    return Err(AutomationRunError::RetryNotReady(to_owned_string(claim_id)));
                }
            },
            None => return Err(AutomationRunError::RetryNotReady(to_owned_string(claim_id))),
        };
        if schedule.reset_turn_window {
            checkpoint.claims[i].turns_in_window = 0;
            checkpoint.claims[i].continuation_count = checkpoint.claims[i].continuation_count.saturating_add(1);
        }
        checkpoint.claims[i].retry = None;
        checkpoint.claims[i].status = AutomationClaimStatus::Running;
        checkpoint.claims[i].last_progress_at_ms = Some(now_ms);
        checkpoint.claims[i].next_action = to_owned_string("invoke the selected typed Workflow in the retained Issue task");
        proof {
            assert(checkpoint.claims@ =~= old(checkpoint).claims@.update(i as int, checkpoint.claims@[i as int]));
            lemma_claim_change_keeps_wf(*old(checkpoint), *checkpoint, i as int);
        }
        self.save(checkpoint, stored)?;
        Ok(schedule)
    }
}


/// One claim as a pause leaves it: held claims are suspended, and every effect
/// whose provider result is not durable becomes ambiguous.
pub open spec fn claim_paused(old: AutomationIssueClaim, new: AutomationIssueClaim) -> bool {
    &&& effects_fenced(old.effects@, new.effects@, "Automation was fenced before the provider result became durable"@)
    &&& if old.status == AutomationClaimStatus::Claimed || old.status == AutomationClaimStatus::Running {
        &&& new == (AutomationIssueClaim { status: AutomationClaimStatus::Suspended, next_action: new.next_action, effects: new.effects, ..old })
        &&& new.next_action@ == "inspect retained Issue task and Workflow during reconciliation"@
    } else {
        new == (AutomationIssueClaim { effects: new.effects, ..old })
    }
}

pub open spec fn claims_paused(old: Seq<AutomationIssueClaim>, new: Seq<AutomationIssueClaim>) -> bool {
    &&& new.len() == old.len()
    &&& forall|i: int| 0 <= i < old.len() ==> claim_paused(#[trigger] old[i], new[i])
}

/// A pause fences every copy of the root taken before it: once the paused root
/// is saved at the next lease epoch, a save of an earlier copy finds the
/// durable copy stale (when the epoch could still advance).
pub proof fn lemma_pause_fences_earlier_copies(
    before: AutomationRootCheckpoint,
    after: AutomationRootCheckpoint,
    stored_after: Option<StoredRevision>,
    copy: AutomationRootCheckpoint,
)
    requires
        before.lease_epoch < u64::MAX,
        after.lease_epoch == sat_inc_u64(before.lease_epoch),
        stored_after == Some(StoredRevision { lease_epoch: after.lease_epoch, revision: after.revision }),
        copy.lease_epoch == before.lease_epoch,
    ensures
        !is_fresh(stored_after, copy.lease_epoch, copy.revision),
{
}

/// A saved change fences every copy taken before it: the durable copy's
/// revision has moved past the copy's (when the revision could still advance).
pub proof fn lemma_saved_change_fences_earlier_copies(
    before: AutomationRootCheckpoint,
    after: AutomationRootCheckpoint,
    stored_after: Option<StoredRevision>,
    copy: AutomationRootCheckpoint,
)
    requires
        before.revision < u64::MAX,
        after.revision == next_revision(before.revision),
        stored_after == Some(StoredRevision { lease_epoch: after.lease_epoch, revision: after.revision }),
        copy.revision == before.revision,
    ensures
        !is_fresh(stored_after, copy.lease_epoch, copy.revision),
{
}

/// After a pause, nothing runs: no claim is claimed or running, and no effect is executing.
pub proof fn lemma_pause_fences_all(old: Seq<AutomationIssueClaim>, new: Seq<AutomationIssueClaim>)
    requires
        claims_paused(old, new),
    ensures
        forall|i: int| 0 <= i < new.len() ==> (#[trigger] new[i]).status != AutomationClaimStatus::Claimed
            && new[i].status != AutomationClaimStatus::Running,
        forall|i: int, k: int| 0 <= i < new.len() && 0 <= k < new[i].effects@.len()
            ==> (#[trigger] new[i].effects@[k]).status != AutomationEffectStatus::Executing,
{
    assert forall|i: int| 0 <= i < new.len() implies (#[trigger] new[i]).status != AutomationClaimStatus::Claimed
        && new[i].status != AutomationClaimStatus::Running by {
        assert(claim_paused(old[i], new[i]));
    }
    assert forall|i: int, k: int| 0 <= i < new.len() && 0 <= k < new[i].effects@.len()
        implies (#[trigger] new[i].effects@[k]).status != AutomationEffectStatus::Executing by {
        assert(claim_paused(old[i], new[i]));
    }
}

/// One claim as a root cancellation leaves it.
pub open spec fn claim_cancelled_by_root(old: AutomationIssueClaim, new: AutomationIssueClaim) -> bool {
    if claim_is_active_spec(old.status) {
        &&& new == (AutomationIssueClaim { status: AutomationClaimStatus::Cancelled, retry: None, next_action: new.next_action, ..old })
        &&& new.next_action@ == "inspect or explicitly remove retained worktree"@
    } else {
        new == old
    }
}

pub open spec fn claims_cancelled_by_root(old: Seq<AutomationIssueClaim>, new: Seq<AutomationIssueClaim>) -> bool {
    &&& new.len() == old.len()
    &&& forall|i: int| 0 <= i < old.len() ==> claim_cancelled_by_root(#[trigger] old[i], new[i])
}

pub open spec fn sat_inc_u64(x: u64) -> u64 {
    if x == u64::MAX { x } else { (x + 1) as u64 }
}

impl AutomationRunStore {
    /// Fences all work before descendants are interrupted: the lease epoch
    /// advances, so every checkpoint loaded earlier can no longer be saved.
    pub fn pause(
        &self,
        checkpoint: &mut AutomationRootCheckpoint,
        reason: &str,
        stored: &mut Option<StoredRevision>,
    ) -> (r: Result<(), AutomationRunError>)
        requires
            old(checkpoint).wf(),
        ensures
            final(checkpoint).wf(),
            is_fresh(*old(stored), old(checkpoint).lease_epoch, old(checkpoint).revision) ==> {
                let o = *old(checkpoint);
                let f = *final(checkpoint);
                &&& r is Ok
                &&& f == (AutomationRootCheckpoint {
                    lease_epoch: sat_inc_u64(o.lease_epoch),
                    revision: next_revision(o.revision),
                    status: AutomationRootStatus::Suspended,
                    reconciliation: AutomationReconciliationStatus::Required,
                    claims: f.claims,
                    next_action: f.next_action,
                    ..o
                })
                &&& f.next_action@ == "Automation fenced for "@ + reason@ + "; reconcile retained work before dispatch"@
                &&& claims_paused(o.claims@, f.claims@)
                &&& *final(stored) == Some(StoredRevision { lease_epoch: f.lease_epoch, revision: f.revision })
            },
            !is_fresh(*old(stored), old(checkpoint).lease_epoch, old(checkpoint).revision) ==> (*final(checkpoint) == *old(checkpoint)
                && *final(stored) == *old(stored)
                && (r matches Err(e) && stale_error(e, *old(stored), old(checkpoint).lease_epoch, old(checkpoint).revision))),
    {
        let expected_epoch = checkpoint.lease_epoch;
        let expected_revision = checkpoint.revision;
        ensure_fresh(*stored, expected_epoch, expected_revision)?;
        checkpoint.lease_epoch = checkpoint.lease_epoch.saturating_add(1);
        checkpoint.status = AutomationRootStatus::Suspended;
        checkpoint.reconciliation = AutomationReconciliationStatus::Required;
        let mut next = to_owned_string("Automation fenced for ");
        push_str(&mut next, reason);
        push_str(&mut next, "; reconcile retained work before dispatch");
        checkpoint.next_action = next;
        let ghost top = *checkpoint;
        let mut i: usize = 0;
        while i < checkpoint.claims.len()
            invariant
                i <= checkpoint.claims.len(),
                checkpoint.claims@.len() == old(checkpoint).claims@.len(),
                *checkpoint == (AutomationRootCheckpoint { claims: checkpoint.claims, ..top }),
                top.claims@ == old(checkpoint).claims@,
                forall|j: int| 0 <= j < i ==> claim_paused(#[trigger] old(checkpoint).claims@[j], checkpoint.claims@[j]),
                forall|j: int| i <= j < checkpoint.claims@.len() ==> #[trigger] checkpoint.claims@[j] == old(checkpoint).claims@[j],
            decreases checkpoint.claims.len() - i,
        {
            let ghost before = checkpoint.claims@;
            if matches!(checkpoint.claims[i].status, AutomationClaimStatus::Claimed | AutomationClaimStatus::Running) {
                checkpoint.claims[i].status = AutomationClaimStatus::Suspended;
                checkpoint.claims[i].next_action = to_owned_string("inspect retained Issue task and Workflow during reconciliation");
            }
            fence_effects(&mut checkpoint.claims[i].effects, "Automation was fenced before the provider result became durable");
            proof {
                assert(checkpoint.claims@ =~= before.update(i as int, checkpoint.claims@[i as int]));
                assert(claim_paused(old(checkpoint).claims@[i as int], checkpoint.claims@[i as int]));
            }
            i = i + 1;
        }
        proof {
            assert(claim_keys(checkpoint.claims@) =~= claim_keys(old(checkpoint).claims@)) by {
                assert forall|j: int| 0 <= j < checkpoint.claims@.len() implies
                    #[trigger] checkpoint.claims@[j].claim_id == old(checkpoint).claims@[j].claim_id by {
                    assert(claim_paused(old(checkpoint).claims@[j], checkpoint.claims@[j]));
                }
            }
        }
        self.persist(checkpoint, expected_epoch, expected_revision, stored)
    }

    /// Starts reconciling a suspended run.
    pub fn begin_reconciliation(
        &self,
        checkpoint: &mut AutomationRootCheckpoint,
        stored: &mut Option<StoredRevision>,
    ) -> (r: Result<(), AutomationRunError>)
        requires
            old(checkpoint).wf(),
        ensures
            final(checkpoint).wf(),
            old(checkpoint).status == AutomationRootStatus::Suspended ==> {
                let mid = unsaved(*old(checkpoint), *final(checkpoint));
                &&& mid == (AutomationRootCheckpoint { reconciliation: AutomationReconciliationStatus::InProgress,
                    next_action: mid.next_action, ..*old(checkpoint) })
                &&& mid.next_action@ == "reconcile profile, lease, tracker, worktrees, tasks, Child Runs, and effects"@
                &&& saved_from(*old(checkpoint), *final(checkpoint), *old(stored), *final(stored), r is Ok)
                &&& (r matches Err(e) ==> stale_error(e, *old(stored), old(checkpoint).lease_epoch, old(checkpoint).revision))
            },
            old(checkpoint).status != AutomationRootStatus::Suspended ==> (*final(checkpoint) == *old(checkpoint)
                && *final(stored) == *old(stored) && r == Err::<(), AutomationRunError>(AutomationRunError::NotSuspended)),
    {
        if checkpoint.status != AutomationRootStatus::Suspended {
            return Err(AutomationRunError::NotSuspended);
        }
        checkpoint.reconciliation = AutomationReconciliationStatus::InProgress;
        checkpoint.next_action = to_owned_string("reconcile profile, lease, tracker, worktrees, tasks, Child Runs, and effects");
        self.save(checkpoint, stored)
    }

    /// Cancels the run: every held claim is cancelled and its retry dropped; worktrees are retained.
    pub fn cancel(
        &self,
        checkpoint: &mut AutomationRootCheckpoint,
        stored: &mut Option<StoredRevision>,
    ) -> (r: Result<(), AutomationRunError>)
        requires
            old(checkpoint).wf(),
        ensures
            final(checkpoint).wf(),
            ({
                let mid = unsaved(*old(checkpoint), *final(checkpoint));
                &&& mid == (AutomationRootCheckpoint { status: AutomationRootStatus::Cancelled, claims: mid.claims,
                    next_action: mid.next_action, ..*old(checkpoint) })
                &&& mid.next_action@ == "Automation cancelled; retain checkpoints and worktrees for inspection"@
                &&& claims_cancelled_by_root(old(checkpoint).claims@, mid.claims@)
                &&& saved_from(*old(checkpoint), *final(checkpoint), *old(stored), *final(stored), r is Ok)
                &&& (r matches Err(e) ==> stale_error(e, *old(stored), old(checkpoint).lease_epoch, old(checkpoint).revision))
            }),
    {
        checkpoint.status = AutomationRootStatus::Cancelled;
        checkpoint.next_action = to_owned_string("Automation cancelled; retain checkpoints and worktrees for inspection");
        let ghost top = *checkpoint;
        let mut i: usize = 0;
        while i < checkpoint.claims.len()
            invariant
                i <= checkpoint.claims.len(),
                checkpoint.claims@.len() == old(checkpoint).claims@.len(),
                *checkpoint == (AutomationRootCheckpoint { claims: checkpoint.claims, ..top }),
                top.claims@ == old(checkpoint).claims@,
                forall|j: int| 0 <= j < i ==> claim_cancelled_by_root(#[trigger] old(checkpoint).claims@[j], checkpoint.claims@[j]),
                forall|j: int| i <= j < checkpoint.claims@.len() ==> #[trigger] checkpoint.claims@[j] == old(checkpoint).claims@[j],
            decreases checkpoint.claims.len() - i,
        {
            let ghost before = checkpoint.claims@;
            if claim_is_active(checkpoint.claims[i].status) {
                checkpoint.claims[i].status = AutomationClaimStatus::Cancelled;
                checkpoint.claims[i].retry = None;
                checkpoint.claims[i].next_action = to_owned_string("inspect or explicitly remove retained worktree");
            }
            proof {
                assert(checkpoint.claims@ =~= before.update(i as int, checkpoint.claims@[i as int]));
            }
            i = i + 1;
        }
        proof {
            assert(claim_keys(checkpoint.claims@) =~= claim_keys(old(checkpoint).claims@)) by {
                assert forall|j: int| 0 <= j < checkpoint.claims@.len() implies
                    #[trigger] checkpoint.claims@[j].claim_id == old(checkpoint).claims@[j].claim_id by {
                    assert(claim_cancelled_by_root(old(checkpoint).claims@[j], checkpoint.claims@[j]));
                }
            }
        }
        self.save(checkpoint, stored)
    }
}


pub open spec fn claim_cancellation_begun(old: AutomationIssueClaim, new: AutomationIssueClaim) -> bool {
    &&& effects_fenced(old.effects@, new.effects@, "Issue cancellation fenced the claim before the provider result became durable"@)
    &&& new == (AutomationIssueClaim { status: AutomationClaimStatus::Suspended, retry: None, next_action: new.next_action,
        effects: new.effects, ..old })
    &&& new.next_action@ == "cancel native Issue descendants, then reconcile effects"@
}

pub open spec fn claim_cancellation_completed(old: AutomationIssueClaim, new: AutomationIssueClaim, descendants_cancelled: bool) -> bool {
    if !descendants_cancelled {
        &&& new == (AutomationIssueClaim { status: AutomationClaimStatus::Suspended, next_action: new.next_action, ..old })
        &&& new.next_action@ == "retry native Issue descendant cancellation"@
    } else if effect_unresolved(old.effects@) {
        &&& new == (AutomationIssueClaim { status: AutomationClaimStatus::Suspended, next_action: new.next_action, ..old })
        &&& new.next_action@ == "reconcile ambiguous Tracker effects before cancellation cleanup"@
    } else {
        &&& new == (AutomationIssueClaim { status: AutomationClaimStatus::Cancelled, retry: None, cleanup: new.cleanup,
            next_action: new.next_action, ..old })
        &&& new.cleanup == (crate::automation_run::AutomationCleanupState { status: AutomationCleanupStatus::Eligible,
            last_failure: None, ..old.cleanup })
        &&& new.next_action@ == "Issue claim cancelled; terminal cleanup is eligible"@
    }
}

impl AutomationRunStore {
    /// Fences one claim before its native descendants are interrupted; terminal claims are left alone.
    pub fn begin_claim_cancellation(
        &self,
        checkpoint: &mut AutomationRootCheckpoint,
        claim_id: &str,
        stored: &mut Option<StoredRevision>,
    ) -> (r: Result<(), AutomationRunError>)
        requires
            old(checkpoint).wf(),
        ensures
            final(checkpoint).wf(),
            !has_claim(old(checkpoint).claims@, claim_id@) ==> (*final(checkpoint) == *old(checkpoint)
                && *final(stored) == *old(stored) && (r matches Err(e) && missing_claim_error(claim_id@, e))),
            has_claim(old(checkpoint).claims@, claim_id@) ==> {
                let i = claim_pos(old(checkpoint).claims@, claim_id@);
                if claim_is_terminal_spec(old(checkpoint).claims@[i].status) {
                    *final(checkpoint) == *old(checkpoint) && *final(stored) == *old(stored) && r is Ok
                } else {
                    let mid = unsaved(*old(checkpoint), *final(checkpoint));
                    &&& claim_changed(*old(checkpoint), mid, i)
                    &&& claim_cancellation_begun(old(checkpoint).claims@[i], mid.claims@[i])
                    &&& mid.next_action@ == "finish cancellation for claim `"@ + claim_id@ + "`"@
                    &&& saved_from(*old(checkpoint), *final(checkpoint), *old(stored), *final(stored), r is Ok)
                    &&& (r matches Err(e) ==> stale_error(e, *old(stored), old(checkpoint).lease_epoch, old(checkpoint).revision))
                }
            },
    {
        let i = match find_claim(&checkpoint.claims, claim_id) {
            None => return Err(AutomationRunError::MissingClaim(to_owned_string(claim_id))),
            Some(i) => i,
        };
        if matches!(checkpoint.claims[i].status, AutomationClaimStatus::Completed | AutomationClaimStatus::Cancelled | AutomationClaimStatus::Failed) {
            return Ok(());
        }
        checkpoint.claims[i].status = AutomationClaimStatus::Suspended;
        checkpoint.claims[i].retry = None;
        checkpoint.claims[i].next_action = to_owned_string("cancel native Issue descendants, then reconcile effects");
        fence_effects(&mut checkpoint.claims[i].effects, "Issue cancellation fenced the claim before the provider result became durable");
        let mut next = to_owned_string("finish cancellation for claim `");
        push_str(&mut next, claim_id);
        push_str(&mut next, "`");
        checkpoint.next_action = next;
        proof {
            assert(checkpoint.claims@ =~= old(checkpoint).claims@.update(i as int, checkpoint.claims@[i as int]));
            lemma_claim_change_keeps_wf(*old(checkpoint), *checkpoint, i as int);
        }
        self.save(checkpoint, stored)
    }

    /// Completes a claim's cancellation once its descendants are cancelled and no
    /// effect is unresolved; until then the claim stays suspended. Idempotent.
    pub fn complete_claim_cancellation(
        &self,
        checkpoint: &mut AutomationRootCheckpoint,
        claim_id: &str,
        descendants_cancelled: bool,
        stored: &mut Option<StoredRevision>,
    ) -> (r: Result<(), AutomationRunError>)
        requires
            old(checkpoint).wf(),
        ensures
            final(checkpoint).wf(),
            !has_claim(old(checkpoint).claims@, claim_id@) ==> (*final(checkpoint) == *old(checkpoint)
                && *final(stored) == *old(stored) && (r matches Err(e) && missing_claim_error(claim_id@, e))),
            has_claim(old(checkpoint).claims@, claim_id@) ==> {
                let i = claim_pos(old(checkpoint).claims@, claim_id@);
                if old(checkpoint).claims@[i].status == AutomationClaimStatus::Cancelled {
                    *final(checkpoint) == *old(checkpoint) && *final(stored) == *old(stored) && r is Ok
                } else {
                    let mid = unsaved(*old(checkpoint), *final(checkpoint));
                    &&& claim_changed(*old(checkpoint), mid, i)
                    &&& claim_cancellation_completed(old(checkpoint).claims@[i], mid.claims@[i], descendants_cancelled)
                    &&& mid.next_action == mid.claims@[i].next_action
                    &&& saved_from(*old(checkpoint), *final(checkpoint), *old(stored), *final(stored), r is Ok)
                    &&& (r matches Err(e) ==> stale_error(e, *old(stored), old(checkpoint).lease_epoch, old(checkpoint).revision))
                }
            },
    {
        let i = match find_claim(&checkpoint.claims, claim_id) {
            None => return Err(AutomationRunError::MissingClaim(to_owned_string(claim_id))),
            Some(i) => i,
        };
        if checkpoint.claims[i].status == AutomationClaimStatus::Cancelled {
            return Ok(());
        }
        if !descendants_cancelled {
            checkpoint.claims[i].status = AutomationClaimStatus::Suspended;
            checkpoint.claims[i].next_action = to_owned_string("retry native Issue descendant cancellation");
        } else if any_effect_unresolved(&checkpoint.claims[i].effects) {
            checkpoint.claims[i].status = AutomationClaimStatus::Suspended;
            checkpoint.claims[i].next_action = to_owned_string("reconcile ambiguous Tracker effects before cancellation cleanup");
        } else {
            checkpoint.claims[i].status = AutomationClaimStatus::Cancelled;
            checkpoint.claims[i].retry = None;
            checkpoint.claims[i].cleanup.status = AutomationCleanupStatus::Eligible;
            checkpoint.claims[i].cleanup.last_failure = None;
            checkpoint.claims[i].next_action = to_owned_string("Issue claim cancelled; terminal cleanup is eligible");
        }
        checkpoint.next_action = checkpoint.claims[i].next_action.clone();
        proof {
            assert(checkpoint.claims@ =~= old(checkpoint).claims@.update(i as int, checkpoint.claims@[i as int]));
            lemma_claim_change_keeps_wf(*old(checkpoint), *checkpoint, i as int);
        }
        self.save(checkpoint, stored)
    }

    /// Confirms the active profile revision; nothing stays pending or rejected.
    pub fn confirm_active_profile(
        &self,
        checkpoint: &mut AutomationRootCheckpoint,
        stored: &mut Option<StoredRevision>,
    ) -> (r: Result<(), AutomationRunError>)
        requires
            old(checkpoint).wf(),
        ensures
            final(checkpoint).wf(),
            ({
                let mid = unsaved(*old(checkpoint), *final(checkpoint));
                let pr = mid.profile_revision;
                &&& mid == (AutomationRootCheckpoint { profile_revision: pr, next_action: mid.next_action, ..*old(checkpoint) })
                &&& pr.revision == old(checkpoint).profile_revision.revision
                &&& pr.status == AutomationProfileRevisionStatus::Active
                &&& pr.pending_digest is None
                &&& pr.rejected_digest is None
                &&& pr.diagnostics@.len() == 0
                &&& mid.next_action@ == "active profile revision confirmed"@
                &&& saved_from(*old(checkpoint), *final(checkpoint), *old(stored), *final(stored), r is Ok)
                &&& (r matches Err(e) ==> stale_error(e, *old(stored), old(checkpoint).lease_epoch, old(checkpoint).revision))
            }),
    {
        checkpoint.profile_revision.status = AutomationProfileRevisionStatus::Active;
        checkpoint.profile_revision.pending_digest = None;
        checkpoint.profile_revision.rejected_digest = None;
        checkpoint.profile_revision.diagnostics = Vec::new();
        checkpoint.next_action = to_owned_string("active profile revision confirmed");
        self.save(checkpoint, stored)
    }

    /// Rejects a profile reload; the last-known-good revision stays active. At
    /// most 16 diagnostics are kept, each bounded to 512 bytes.
    pub fn reject_profile_revision(
        &self,
        checkpoint: &mut AutomationRootCheckpoint,
        rejected_digest: Option<&str>,
        diagnostics: &[String],
        stored: &mut Option<StoredRevision>,
    ) -> (r: Result<(), AutomationRunError>)
        requires
            old(checkpoint).wf(),
        ensures
            final(checkpoint).wf(),
            ({
                let mid = unsaved(*old(checkpoint), *final(checkpoint));
                let pr = mid.profile_revision;
                let kept = if diagnostics@.len() < 16 { diagnostics@.len() as int } else { 16 };
                &&& mid == (AutomationRootCheckpoint { profile_revision: pr, next_action: mid.next_action, ..*old(checkpoint) })
                &&& pr.revision == old(checkpoint).profile_revision.revision
                &&& pr.status == AutomationProfileRevisionStatus::Rejected
                &&& pr.pending_digest is None
                &&& (match rejected_digest {
                    None => pr.rejected_digest is None,
                    Some(d) => pr.rejected_digest matches Some(x) && x@ == d@,
                })
                &&& pr.diagnostics@.len() == kept
                &&& forall|k: int| 0 <= k < kept ==> (#[trigger] pr.diagnostics@[k])@ == bounded_preview_spec(diagnostics@[k]@, 512)
                &&& mid.next_action@ == "profile reload rejected; last-known-good revision remains active"@
                &&& saved_from(*old(checkpoint), *final(checkpoint), *old(stored), *final(stored), r is Ok)
                &&& (r matches Err(e) ==> stale_error(e, *old(stored), old(checkpoint).lease_epoch, old(checkpoint).revision))
            }),
    {
        let mut kept: Vec<String> = Vec::new();
        let mut k: usize = 0;
        while k < diagnostics.len() && k < 16
            invariant
                k <= diagnostics@.len(),
                k <= 16,
                kept@.len() == k,
                forall|j: int| 0 <= j < k ==> (#[trigger] kept@[j])@ == bounded_preview_spec(diagnostics@[j]@, 512),
            decreases diagnostics.len() - k,
        {
            kept.push(bounded_preview(diagnostics[k].as_str(), 512));
            k = k + 1;
        }
        checkpoint.profile_revision.status = AutomationProfileRevisionStatus::Rejected;
        checkpoint.profile_revision.pending_digest = None;
        checkpoint.profile_revision.rejected_digest = match rejected_digest {
            None => None,
            Some(d) => Some(to_owned_string(d)),
        };
        checkpoint.profile_revision.diagnostics = kept;
        checkpoint.next_action = to_owned_string("profile reload rejected; last-known-good revision remains active");
        self.save(checkpoint, stored)
    }
}

} // verus!
