//! Fenced reconciliation of a suspended run: retained identities and receipts are
//! observed and kept; nothing is created, duplicated or sent to a provider.
use crate::automation::AutomationIssue;
use crate::automation_run::claim_is_active;
use crate::automation_run::claim_is_active_spec;
use crate::automation_run::claim_keys;
use crate::automation_run::effect_unresolved;
use crate::automation_run::AutomationClaimReconciliation;
use crate::automation_run::AutomationClaimStatus;
use crate::automation_run::AutomationCleanupStatus;
use crate::automation_run::AutomationIssueClaim;
use crate::automation_run::AutomationReconciliationStatus;
use crate::automation_run::AutomationRootCheckpoint;
use crate::automation_run::AutomationRootStatus;
use crate::automation_run::AutomationRunError;
use crate::automation_run::StoredRevision;
use crate::automation_store::saved_from;
use crate::automation_store::stale_error;
use crate::automation_store::unsaved;
use crate::automation_store::AutomationLease;
use crate::automation_store::AutomationRunStore;
use crate::digest::sha256_hex;
use crate::text::push_str;
use crate::text::to_owned_string;
use crate::automation::AutomationProfile;
use crate::profile_json::profile_digest_spec;
use vstd::prelude::*;

verus! {

/// The position of the last tracker issue with the id, if any (later pages win).
pub open spec fn last_issue(issues: Seq<AutomationIssue>, id: Seq<char>) -> Option<int>
    decreases issues.len(),
{
    if issues.len() == 0 {
        None
    } else if issues.last().id@ == id {
        Some(issues.len() - 1)
    } else {
        last_issue(issues.drop_last(), id)
    }
}

/// The position of the last observation of the claim, if any.
pub open spec fn last_observation(observations: Seq<AutomationClaimReconciliation>, claim_id: Seq<char>) -> Option<int>
    decreases observations.len(),
{
    if observations.len() == 0 {
        None
    } else if observations.last().claim_id@ == claim_id {
        Some(observations.len() - 1)
    } else {
        last_observation(observations.drop_last(), claim_id)
    }
}

/// What holds a claim back in reconciliation: the blocker's kind, if any.
pub open spec fn blocker_kind(
    c: AutomationIssueClaim,
    issues: Seq<AutomationIssue>,
    observations: Seq<AutomationClaimReconciliation>,
) -> Option<Seq<char>> {
    if !claim_is_active_spec(c.status) {
        None
    } else if last_issue(issues, c.issue_id@) is None {
        Some(" tracker state"@)
    } else if last_observation(observations, c.claim_id@) is None {
        Some(" native descendants"@)
    } else {
        let o = observations[last_observation(observations, c.claim_id@).unwrap()];
        if o.tracker_terminal {
            if !o.descendants_cancelled {
                Some(" descendants still active"@)
            } else if effect_unresolved(c.effects@) {
                Some(" ambiguous effects"@)
            } else {
                None
            }
        } else if c.issue_task is Some && !o.issue_task_active {
            Some(" missing Issue task"@)
        } else if !o.worktree_exists && c.issue_task is Some {
            Some(" missing worktree"@)
        } else {
            None
        }
    }
}

/// The next action a reconciled claim is given.
pub open spec fn reconciled_action(
    c: AutomationIssueClaim,
    issues: Seq<AutomationIssue>,
    observations: Seq<AutomationClaimReconciliation>,
) -> Seq<char> {
    if last_issue(issues, c.issue_id@) is None {
        "refresh tracker state before dispatch"@
    } else if last_observation(observations, c.claim_id@) is None {
        "inspect retained Issue task and Child Run"@
    } else {
        let o = observations[last_observation(observations, c.claim_id@).unwrap()];
        if o.tracker_terminal {
            if !o.descendants_cancelled {
                "cancel descendants before terminal reconciliation"@
            } else if effect_unresolved(c.effects@) {
                "resolve ambiguous Tracker effects before cleanup eligibility"@
            } else {
                "externally terminal; retained resources are cleanup eligible"@
            }
        } else if c.issue_task is Some && !o.issue_task_active {
            "inspect missing Issue task; do not create a duplicate"@
        } else if !o.worktree_exists && c.issue_task is Some {
            "inspect missing worktree; do not create a duplicate"@
        } else if c.workflow_run_id is Some {
            "resume the existing Child Run from its native checkpoint"@
        } else if c.issue_task is Some {
            "continue the existing Issue task without respawning it"@
        } else {
            "continue the retained claim without duplicating resources"@
        }
    }
}

/// One claim as reconciliation leaves it. Inactive claims are untouched; an active
/// claim takes its issue's tracker state and priority, and is cancelled (externally
/// terminal) or suspended for resumption unless a blocker holds it.
pub open spec fn claim_reconciled(
    c: AutomationIssueClaim,
    n: AutomationIssueClaim,
    issues: Seq<AutomationIssue>,
    observations: Seq<AutomationClaimReconciliation>,
) -> bool {
    if !claim_is_active_spec(c.status) {
        n == c
    } else {
        &&& n.next_action@ == reconciled_action(c, issues, observations)
        &&& if last_issue(issues, c.issue_id@) is None {
            n == (AutomationIssueClaim { next_action: n.next_action, ..c })
        } else {
            let issue = issues[last_issue(issues, c.issue_id@).unwrap()];
            let refreshed = AutomationIssueClaim { tracker_state: issue.state, priority: issue.priority, next_action: n.next_action, ..c };
            if blocker_kind(c, issues, observations) is Some {
                n == refreshed
            } else {
                let o = observations[last_observation(observations, c.claim_id@).unwrap()];
                if o.tracker_terminal {
                    &&& n == (AutomationIssueClaim {
                        status: AutomationClaimStatus::Cancelled,
                        workflow_status: o.workflow_status,
                        cleanup: n.cleanup,
                        ..refreshed
                    })
                    &&& n.cleanup == (crate::automation_run::AutomationCleanupState {
                        status: AutomationCleanupStatus::Eligible,
                        last_failure: None,
                        ..c.cleanup
                    })
                } else {
                    n == (AutomationIssueClaim {
                        status: AutomationClaimStatus::Suspended,
                        workflow_status: o.workflow_status,
                        ..refreshed
                    })
                }
            }
        }
    }
}

/// The blockers of the claims, in claim order: each is the claim's identifier and its kind.
pub open spec fn blockers_of(
    claims: Seq<AutomationIssueClaim>,
    issues: Seq<AutomationIssue>,
    observations: Seq<AutomationClaimReconciliation>,
) -> Seq<Seq<char>>
    decreases claims.len(),
{
    if claims.len() == 0 {
        Seq::empty()
    } else {
        let rest = blockers_of(claims.drop_last(), issues, observations);
        match blocker_kind(claims.last(), issues, observations) {
            Some(kind) => rest.push(claims.last().issue_identifier@ + kind),
            None => rest,
        }
    }
}

/// Texts joined with `, `.
pub open spec fn join_comma(parts: Seq<Seq<char>>) -> Seq<char>
    decreases parts.len(),
{
    if parts.len() == 0 {
        Seq::empty()
    } else if parts.len() == 1 {
        parts[0]
    } else {
        join_comma(parts.drop_last()) + ", "@ + parts.last()
    }
}

/// What reconciliation does, for every input.
pub open spec fn reconcile_outcome(
    old: AutomationRootCheckpoint,
    fin: AutomationRootCheckpoint,
    stored: Option<StoredRevision>,
    stored_fin: Option<StoredRevision>,
    profile: AutomationProfile,
    issues: Seq<AutomationIssue>,
    observations: Seq<AutomationClaimReconciliation>,
    lease: AutomationLease,
    r: Result<(), AutomationRunError>,
) -> bool {
    if old.status != AutomationRootStatus::Suspended {
        fin == old && stored_fin == stored && r == Err::<(), AutomationRunError>(AutomationRunError::NotSuspended)
    } else if old.reconciliation != AutomationReconciliationStatus::InProgress {
        fin == old && stored_fin == stored && r == Err::<(), AutomationRunError>(AutomationRunError::ReconciliationNotStarted)
    } else if profile_digest_spec(profile) is None {
        fin == old && stored_fin == stored && (r matches Err(e) && e is Storage)
    } else if profile_digest_spec(profile) != Some(old.profile_digest@) {
        fin == old && stored_fin == stored && r == Err::<(), AutomationRunError>(AutomationRunError::ProfileDigestMismatch)
    } else if !(lease.run_id@ == old.run_id@ && lease.owner_thread_id@ == old.owner_thread_id@ && lease.lease_epoch == old.lease_epoch) {
        fin == old && stored_fin == stored && (r matches Err(e) && e is LeaseConflict)
    } else {
        let mid = unsaved(old, fin);
        let blockers = blockers_of(old.claims@, issues, observations);
        &&& mid.claims@.len() == old.claims@.len()
        &&& forall|i: int| 0 <= i < old.claims@.len() ==> claim_reconciled(#[trigger] old.claims@[i], mid.claims@[i], issues, observations)
        &&& saved_from(old, fin, stored, stored_fin, !(r matches Err(AutomationRunError::StaleLease { .. })))
        &&& (r matches Err(e) ==> (e is StaleLease ==> stale_error(e, stored, old.lease_epoch, old.revision)))
        &&& if blockers.len() == 0 {
            &&& mid == (AutomationRootCheckpoint {
                status: AutomationRootStatus::Running,
                reconciliation: AutomationReconciliationStatus::Complete,
                claims: mid.claims,
                next_action: mid.next_action,
                ..old
            })
            &&& mid.next_action@ == "reconciliation complete; eligible dispatch may continue"@
            &&& (r is Ok || r matches Err(AutomationRunError::StaleLease { .. }))
        } else {
            &&& mid == (AutomationRootCheckpoint {
                reconciliation: AutomationReconciliationStatus::Blocked,
                claims: mid.claims,
                next_action: mid.next_action,
                ..old
            })
            &&& mid.next_action@ == "reconciliation blocked: "@ + join_comma(blockers)
            &&& (r matches Err(AutomationRunError::ReconciliationBlocked(msg)) && msg@ == join_comma(blockers))
                || r matches Err(AutomationRunError::StaleLease { .. })
        }
    }
}


fn find_last_issue(issues: &[AutomationIssue], id: &str) -> (r: Option<usize>)
    ensures
        match r {
            Some(i) => last_issue(issues@, id@) == Some(i as int) && i < issues@.len(),
            None => last_issue(issues@, id@) is None,
        },
{
    let mut k: usize = issues.len();
    proof {
        assert(issues@.take(k as int) =~= issues@);
    }
    while k > 0
        invariant
            k <= issues@.len(),
            last_issue(issues@, id@) == last_issue(issues@.take(k as int), id@),
        decreases k,
    {
        proof {
            assert(issues@.take(k as int).drop_last() =~= issues@.take(k - 1));
            assert(issues@.take(k as int).last() == issues@[k - 1]);
        }
        if crate::text::str_eq(issues[k - 1].id.as_str(), id) {
            return Some(k - 1);
        }
        k = k - 1;
    }
    None
}

fn find_last_observation(observations: &[AutomationClaimReconciliation], claim_id: &str) -> (r: Option<usize>)
    ensures
        match r {
            Some(i) => last_observation(observations@, claim_id@) == Some(i as int) && i < observations@.len(),
            None => last_observation(observations@, claim_id@) is None,
        },
{
    let mut k: usize = observations.len();
    proof {
        assert(observations@.take(k as int) =~= observations@);
    }
    while k > 0
        invariant
            k <= observations@.len(),
            last_observation(observations@, claim_id@) == last_observation(observations@.take(k as int), claim_id@),
        decreases k,
    {
        proof {
            assert(observations@.take(k as int).drop_last() =~= observations@.take(k - 1));
            assert(observations@.take(k as int).last() == observations@[k - 1]);
        }
        if crate::text::str_eq(observations[k - 1].claim_id.as_str(), claim_id) {
            return Some(k - 1);
        }
        k = k - 1;
    }
    None
}

pub fn join_with_comma(parts: &Vec<String>) -> (r: String)
    ensures
        r@ == join_comma(parts@.map_values(|s: String| s@)),
{
    let ghost views = parts@.map_values(|s: String| s@);
    let mut out = String::new();
    let mut i: usize = 0;
    while i < parts.len()
        invariant
            i <= parts@.len(),
            views == parts@.map_values(|s: String| s@),
            out@ == join_comma(views.take(i as int)),
        decreases parts.len() - i,
    {
        proof {
            assert(views.take(i + 1).drop_last() =~= views.take(i as int));
            assert(views.take(i + 1).last() == parts@[i as int]@);
        }
        if i > 0 {
            push_str(&mut out, ", ");
        } else {
            proof {
                assert(views.take(1)[0] == parts@[0]@);
            }
        }
        push_str(&mut out, parts[i].as_str());
        proof {
            if i == 0 {
                assert(out@ =~= views.take(1)[0]);
            }
        }
        i = i + 1;
    }
    proof {
        assert(views.take(parts@.len() as int) =~= views);
    }
    out
}

impl AutomationRunStore {
    /// Completes the fenced reconciliation pass. Existing native identities and
    /// receipts are only observed and retained; no replacement worktree, task,
    /// Child Run or provider mutation is made. `profile` is the effective profile,
    /// whose digest must be the run's, and `lease` the run's lease as stored.
    pub fn reconcile(
        &self,
        checkpoint: &mut AutomationRootCheckpoint,
        profile: &AutomationProfile,
        tracker_issues: &[AutomationIssue],
        observations: &[AutomationClaimReconciliation],
        lease: &AutomationLease,
        stored: &mut Option<StoredRevision>,
    ) -> (r: Result<(), AutomationRunError>)
        requires
            old(checkpoint).wf(),
        ensures
            final(checkpoint).wf(),
            reconcile_outcome(*old(checkpoint), *final(checkpoint), *old(stored), *final(stored), *profile,
                tracker_issues@, observations@, *lease, r),
    {
        if checkpoint.status != AutomationRootStatus::Suspended {
            return Err(AutomationRunError::NotSuspended);
        }
        if checkpoint.reconciliation != AutomationReconciliationStatus::InProgress {
            return Err(AutomationRunError::ReconciliationNotStarted);
        }
        let canonical = match crate::profile_json::profile_digest(profile) {
            Ok(d) => d,
            Err(e) => {
                return Err(AutomationRunError::Storage(e.message));
            },
        };
        if !crate::text::str_eq(canonical.as_str(), checkpoint.profile_digest.as_str()) {
            return Err(AutomationRunError::ProfileDigestMismatch);
        }
        self.verify_lease(checkpoint, lease)?;
        let ghost old_ck = *checkpoint;
        let mut blockers: Vec<String> = Vec::new();
        let mut i: usize = 0;
        while i < checkpoint.claims.len()
            invariant
                i <= checkpoint.claims@.len(),
                checkpoint.claims@.len() == old_ck.claims@.len(),
                *checkpoint == (AutomationRootCheckpoint { claims: checkpoint.claims, ..old_ck }),
                forall|j: int| 0 <= j < i ==> claim_reconciled(#[trigger] old_ck.claims@[j], checkpoint.claims@[j],
                    tracker_issues@, observations@),
                forall|j: int| i <= j < checkpoint.claims@.len() ==> #[trigger] checkpoint.claims@[j] == old_ck.claims@[j],
                blockers@.map_values(|s: String| s@) == blockers_of(old_ck.claims@.take(i as int), tracker_issues@, observations@),
            decreases checkpoint.claims.len() - i,
        {
            let ghost before = checkpoint.claims@;
            let ghost c = old_ck.claims@[i as int];
            let ghost bviews = blockers@.map_values(|s: String| s@);
            proof {
                assert(old_ck.claims@.take(i + 1).drop_last() =~= old_ck.claims@.take(i as int));
                assert(old_ck.claims@.take(i + 1).last() == c);
            }
            if claim_is_active(checkpoint.claims[i].status) {
                let found = find_last_issue(tracker_issues, checkpoint.claims[i].issue_id.as_str());
                match found {
                    None => {
                        let mut b = checkpoint.claims[i].issue_identifier.clone();
                        push_str(&mut b, " tracker state");
                        blockers.push(b);
                        checkpoint.claims[i].next_action = to_owned_string("refresh tracker state before dispatch");
                    },
                    Some(x) => {
                        checkpoint.claims[i].tracker_state = tracker_issues[x].state.clone();
                        checkpoint.claims[i].priority = tracker_issues[x].priority;
                        match find_last_observation(observations, checkpoint.claims[i].claim_id.as_str()) {
                            None => {
                                let mut b = checkpoint.claims[i].issue_identifier.clone();
                                push_str(&mut b, " native descendants");
                                blockers.push(b);
                                checkpoint.claims[i].next_action = to_owned_string("inspect retained Issue task and Child Run");
                            },
                            Some(y) => {
                                let o = &observations[y];
                                if o.tracker_terminal {
                                    if !o.descendants_cancelled {
                                        let mut b = checkpoint.claims[i].issue_identifier.clone();
                                        push_str(&mut b, " descendants still active");
                                        blockers.push(b);
                                        checkpoint.claims[i].next_action = to_owned_string("cancel descendants before terminal reconciliation");
                                    } else if crate::automation_run::any_effect_unresolved(&checkpoint.claims[i].effects) {
                                        let mut b = checkpoint.claims[i].issue_identifier.clone();
                                        push_str(&mut b, " ambiguous effects");
                                        blockers.push(b);
                                        checkpoint.claims[i].next_action = to_owned_string("resolve ambiguous Tracker effects before cleanup eligibility");
                                    } else {
                                        checkpoint.claims[i].status = AutomationClaimStatus::Cancelled;
                                        checkpoint.claims[i].workflow_status = o.workflow_status;
                                        checkpoint.claims[i].cleanup.status = AutomationCleanupStatus::Eligible;
                                        checkpoint.claims[i].cleanup.last_failure = None;
                                        checkpoint.claims[i].next_action = to_owned_string("externally terminal; retained resources are cleanup eligible");
                                    }
                                } else if checkpoint.claims[i].issue_task.is_some() && !o.issue_task_active {
                                    let mut b = checkpoint.claims[i].issue_identifier.clone();
                                    push_str(&mut b, " missing Issue task");
                                    blockers.push(b);
                                    checkpoint.claims[i].next_action = to_owned_string("inspect missing Issue task; do not create a duplicate");
                                } else if !o.worktree_exists && checkpoint.claims[i].issue_task.is_some() {
                                    let mut b = checkpoint.claims[i].issue_identifier.clone();
                                    push_str(&mut b, " missing worktree");
                                    blockers.push(b);
                                    checkpoint.claims[i].next_action = to_owned_string("inspect missing worktree; do not create a duplicate");
                                } else {
                                    checkpoint.claims[i].workflow_status = o.workflow_status;
                                    checkpoint.claims[i].status = AutomationClaimStatus::Suspended;
                                    checkpoint.claims[i].next_action = if checkpoint.claims[i].workflow_run_id.is_some() {
                                        to_owned_string("resume the existing Child Run from its native checkpoint")
                                    } else if checkpoint.claims[i].issue_task.is_some() {
                                        to_owned_string("continue the existing Issue task without respawning it")
                                    } else {
                                        to_owned_string("continue the retained claim without duplicating resources")
                                    };
                                }
                            },
                        }
                    },
                }
            }
            proof {
                assert(checkpoint.claims@ =~= before.update(i as int, checkpoint.claims@[i as int]));
                assert(claim_reconciled(c, checkpoint.claims@[i as int], tracker_issues@, observations@));
                assert(blockers@.map_values(|s: String| s@) =~= blockers_of(old_ck.claims@.take(i + 1), tracker_issues@, observations@));
            }
            i = i + 1;
        }
        proof {
            assert(old_ck.claims@.take(old_ck.claims@.len() as int) =~= old_ck.claims@);
            assert(claim_keys(checkpoint.claims@) =~= claim_keys(old_ck.claims@)) by {
                assert forall|j: int| 0 <= j < checkpoint.claims@.len() implies
                    #[trigger] checkpoint.claims@[j].claim_id == old_ck.claims@[j].claim_id by {
                    assert(claim_reconciled(old_ck.claims@[j], checkpoint.claims@[j], tracker_issues@, observations@));
                }
            }
        }
        if blockers.len() == 0 {
            checkpoint.status = AutomationRootStatus::Running;
            checkpoint.reconciliation = AutomationReconciliationStatus::Complete;
            checkpoint.next_action = to_owned_string("reconciliation complete; eligible dispatch may continue");
            return self.save(checkpoint, stored);
        }
        let joined = join_with_comma(&blockers);
        checkpoint.reconciliation = AutomationReconciliationStatus::Blocked;
        let mut next = to_owned_string("reconciliation blocked: ");
        push_str(&mut next, joined.as_str());
        checkpoint.next_action = next;
        self.save(checkpoint, stored)?;
        Err(AutomationRunError::ReconciliationBlocked(joined))
    }
}


proof fn lemma_no_blockers(
    claims: Seq<AutomationIssueClaim>,
    issues: Seq<AutomationIssue>,
    observations: Seq<AutomationClaimReconciliation>,
)
    requires
        blockers_of(claims, issues, observations).len() == 0,
    ensures
        forall|i: int| 0 <= i < claims.len() ==> blocker_kind(#[trigger] claims[i], issues, observations) is None,
    decreases claims.len(),
{
    if claims.len() > 0 {
        let rest = blockers_of(claims.drop_last(), issues, observations);
        if blocker_kind(claims.last(), issues, observations) is Some {
            assert(blockers_of(claims, issues, observations).len() == rest.len() + 1);
        }
        lemma_no_blockers(claims.drop_last(), issues, observations);
        assert forall|i: int| 0 <= i < claims.len() implies blocker_kind(#[trigger] claims[i], issues, observations) is None by {
            if i < claims.len() - 1 {
                assert(claims.drop_last()[i] == claims[i]);
            }
        }
    }
}

/// A reconciliation pass that finds no blocker leaves nothing claimed or running:
/// each claim it held is either suspended for resumption or cancelled, and every
/// claim keeps its key.
pub proof fn lemma_reconciled_quiescent(
    old: Seq<AutomationIssueClaim>,
    new: Seq<AutomationIssueClaim>,
    issues: Seq<AutomationIssue>,
    observations: Seq<AutomationClaimReconciliation>,
)
    requires
        new.len() == old.len(),
        forall|i: int| 0 <= i < old.len() ==> claim_reconciled(#[trigger] old[i], new[i], issues, observations),
        blockers_of(old, issues, observations).len() == 0,
    ensures
        forall|i: int| 0 <= i < new.len() ==> (#[trigger] new[i]).claim_id == old[i].claim_id,
        forall|i: int| 0 <= i < new.len() && claim_is_active_spec(old[i].status) ==> (#[trigger] new[i]).status
            == AutomationClaimStatus::Suspended || new[i].status == AutomationClaimStatus::Cancelled,
        forall|i: int| 0 <= i < new.len() ==> (#[trigger] new[i]).status != AutomationClaimStatus::Claimed
            && new[i].status != AutomationClaimStatus::Running,
{
    lemma_no_blockers(old, issues, observations);
    assert forall|i: int| 0 <= i < new.len() implies (#[trigger] new[i]).claim_id == old[i].claim_id
        && (claim_is_active_spec(old[i].status) ==> new[i].status == AutomationClaimStatus::Suspended
            || new[i].status == AutomationClaimStatus::Cancelled)
        && new[i].status != AutomationClaimStatus::Claimed && new[i].status != AutomationClaimStatus::Running by {
        assert(claim_reconciled(old[i], new[i], issues, observations));
        assert(blocker_kind(old[i], issues, observations) is None);
    }
}

} // verus!
