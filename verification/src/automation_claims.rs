//! Claiming tracker issues: a claim's key, its retained worktree, and its
//! place among the run's claims.
use crate::automation::AutomationIssue;
use crate::automation_run::claim_keys;
use crate::automation_run::AutomationClaimStatus;
use crate::automation_run::AutomationCleanupState;
use crate::automation_run::AutomationCleanupStatus;
use crate::automation_run::AutomationIssueClaim;
use crate::automation_run::AutomationRootCheckpoint;
use crate::automation_run::AutomationRunError;
use crate::automation_run::StoredRevision;
use crate::automation_store::saved_from;
use crate::automation_store::stale_error;
use crate::automation_store::unsaved;
use crate::automation_store::AutomationRunStore;
use crate::digest::sha256_hex;
use crate::digest::sha256_hex_str;
use crate::keyed::claim_slot;
use crate::keyed::lemma_insert_ascending;
use crate::keyed::lower_bound;
use crate::paths::join_path;
use crate::paths::path_join;
use crate::segments::safe_segment;
use crate::segments::safe_segment_spec;
use crate::text::decimal;
use crate::text::push_str;
use crate::text::to_owned_string;
use crate::text::u64_to_string;
use vstd::prelude::*;

verus! {

/// `claim-` and the first 16 hex digits of the digest of the issue id and attempt.
pub open spec fn claim_id_spec(issue_id: Seq<char>, attempt: u32) -> Seq<char> {
    "claim-"@ + sha256_hex(issue_id + seq!['\0'] + decimal(attempt as nat)).take(16)
}

/// The worktree of an attempt at an issue, under the workspace root.
pub open spec fn worktree_spec(root: Seq<char>, identifier: Seq<char>, issue_id: Seq<char>, attempt: u32) -> Seq<char> {
    path_join(root, safe_segment_spec(identifier) + "-"@ + sha256_hex(issue_id).take(12) + "-a"@ + decimal(attempt as nat))
}

pub open spec fn issue_claimed(claims: Seq<AutomationIssueClaim>, issue_id: Seq<char>) -> bool {
    exists|i: int| 0 <= i < claims.len() && #[trigger] claims[i].issue_id@ == issue_id
}

/// A fresh claim of `issue`.
pub open spec fn new_claim(
    c: AutomationIssueClaim,
    issue: AutomationIssue,
    attempt: u32,
    profile_digest: Seq<char>,
    profile_revision: u64,
    source_revision: String,
    workspace_root: Seq<char>,
) -> bool {
    &&& c.claim_id@ == claim_id_spec(issue.id@, attempt)
    &&& c.issue_id == issue.id
    &&& c.issue_identifier == issue.identifier
    &&& c.issue_title == issue.title
    &&& c.tracker_state == issue.state
    &&& c.priority == issue.priority
    &&& c.attempt == attempt
    &&& c.profile_digest@ == profile_digest
    &&& c.profile_revision == profile_revision
    &&& c.task_prompt@.len() == 0
    &&& c.workflow_invocations == 0
    &&& c.turns_in_window == 0
    &&& c.continuation_count == 0
    &&& c.retry_attempt == 0
    &&& c.last_progress_at_ms is None
    &&& c.retry is None
    &&& c.status == AutomationClaimStatus::Claimed
    &&& c.worktree@ == worktree_spec(workspace_root, issue.identifier@, issue.id@, attempt)
    &&& c.source_revision == source_revision
    &&& c.issue_task is None
    &&& c.workflow_run_id is None
    &&& c.workflow_status is None
    &&& c.effects@.len() == 0
    &&& c.hook_receipts@.len() == 0
    &&& c.cleanup == (AutomationCleanupState { status: AutomationCleanupStatus::Retained, attempts: 0, last_failure: None })
    &&& c.next_action@ == "create persistent issue worktree and native Issue task"@
}

/// `new` is `old` with `c` put at its key's place (replacing a claim with that key).
pub open spec fn claim_inserted(old: Seq<AutomationIssueClaim>, new: Seq<AutomationIssueClaim>, c: AutomationIssueClaim) -> bool {
    let keys = claim_keys(old);
    let p = lower_bound(keys, c.claim_id@);
    if keys.contains(c.claim_id@) { new == old.update(p, c) } else { new == old.insert(p, c) }
}

/// What claiming an issue does to a checkpoint, for every input.
pub open spec fn claim_outcome(
    old: AutomationRootCheckpoint,
    fin: AutomationRootCheckpoint,
    stored: Option<StoredRevision>,
    stored_fin: Option<StoredRevision>,
    issue: AutomationIssue,
    attempt: u32,
    profile_digest: Seq<char>,
    profile_revision: u64,
    workspace_root: Seq<char>,
    r: Result<String, AutomationRunError>,
) -> bool {
    if issue_claimed(old.claims@, issue.id@) {
        fin == old && stored_fin == stored && (r matches Err(e) && e matches AutomationRunError::DuplicateIssue(x)
            && x@ == issue.identifier@)
    } else {
        let mid = unsaved(old, fin);
        let id = claim_id_spec(issue.id@, attempt);
        let p = lower_bound(claim_keys(old.claims@), id);
        let c = mid.claims@[p];
        &&& mid == (AutomationRootCheckpoint { claims: mid.claims, next_action: mid.next_action, ..old })
        &&& 0 <= p < mid.claims@.len()
        &&& new_claim(c, issue, attempt, profile_digest, profile_revision, old.source_revision, workspace_root)
        &&& claim_inserted(old.claims@, mid.claims@, c)
        &&& mid.next_action@ == "start claim `"@ + id + "`"@
        &&& saved_from(old, fin, stored, stored_fin, r is Ok)
        &&& (r matches Ok(x) ==> x@ == id)
        &&& (r matches Err(e) ==> stale_error(e, stored, old.lease_epoch, old.revision))
    }
}

fn any_claim_for_issue(claims: &Vec<AutomationIssueClaim>, issue_id: &str) -> (r: bool)
    ensures
        r == issue_claimed(claims@, issue_id@),
{
    let mut i: usize = 0;
    while i < claims.len()
        invariant
            i <= claims.len(),
            forall|j: int| 0 <= j < i ==> (#[trigger] claims@[j]).issue_id@ != issue_id@,
        decreases claims.len() - i,
    {
        if crate::text::str_eq(claims[i].issue_id.as_str(), issue_id) {
            return true;
        }
        i = i + 1;
    }
    false
}

/// The first `n` characters of `s`.
fn prefix_chars(s: &str, n: usize) -> (r: String)
    requires
        n <= s@.len(),
    ensures
        r@ == s@.take(n as int),
{
    let chars = crate::text::str_chars(s);
    let out = crate::text::string_from_chars(crate::text::slice_subrange(chars.as_slice(), 0, n));
    proof {
        assert(chars@.subrange(0, n as int) =~= s@.take(n as int));
    }
    out
}

pub fn claim_id_for(issue_id: &str, attempt: u32) -> (r: String)
    ensures
        r@ == claim_id_spec(issue_id@, attempt),
{
    let mut material = to_owned_string(issue_id);
    crate::text::push_char(&mut material, '\0');
    push_str(&mut material, u64_to_string(attempt as u64).as_str());
    let digest = sha256_hex_str(material.as_str());
    let mut id = to_owned_string("claim-");
    push_str(&mut id, prefix_chars(digest.as_str(), 16).as_str());
    proof {
        assert(material@ =~= issue_id@ + seq!['\0'] + decimal(attempt as nat));
    }
    id
}

pub fn worktree_for(workspace_root: &str, identifier: &str, issue_id: &str, attempt: u32) -> (r: String)
    ensures
        r@ == worktree_spec(workspace_root@, identifier@, issue_id@, attempt),
{
    let digest = sha256_hex_str(issue_id);
    let mut name = safe_segment(identifier);
    push_str(&mut name, "-");
    push_str(&mut name, prefix_chars(digest.as_str(), 12).as_str());
    push_str(&mut name, "-a");
    push_str(&mut name, u64_to_string(attempt as u64).as_str());
    join_path(workspace_root, name.as_str())
}

impl AutomationRunStore {
    /// Claims an issue under the given profile revision. `workspace_root` is the
    /// checkpoint's workspace root, resolved. The worktree is one safe segment
    /// below it, so it always stays inside the root.
    pub fn claim_fixture_with_profile(
        &self,
        checkpoint: &mut AutomationRootCheckpoint,
        issue: &AutomationIssue,
        attempt: u32,
        profile_digest: &str,
        profile_revision: u64,
        workspace_root: &str,
        stored: &mut Option<StoredRevision>,
    ) -> (r: Result<String, AutomationRunError>)
        requires
            old(checkpoint).wf(),
        ensures
            final(checkpoint).wf(),
            claim_outcome(*old(checkpoint), *final(checkpoint), *old(stored), *final(stored), *issue, attempt,
                profile_digest@, profile_revision, workspace_root@, r),
    {
        if any_claim_for_issue(&checkpoint.claims, issue.id.as_str()) {
            return Err(AutomationRunError::DuplicateIssue(issue.identifier.clone()));
        }
        let claim_id = claim_id_for(issue.id.as_str(), attempt);
        let worktree = worktree_for(workspace_root, issue.identifier.as_str(), issue.id.as_str(), attempt);
        let claim = AutomationIssueClaim {
            claim_id: claim_id.clone(),
            issue_id: issue.id.clone(),
            issue_identifier: issue.identifier.clone(),
            issue_title: issue.title.clone(),
            tracker_state: issue.state.clone(),
            priority: issue.priority,
            attempt,
            profile_digest: to_owned_string(profile_digest),
            profile_revision,
            task_prompt: String::new(),
            workflow_invocations: 0,
            turns_in_window: 0,
            continuation_count: 0,
            retry_attempt: 0,
            last_progress_at_ms: None,
            retry: None,
            status: AutomationClaimStatus::Claimed,
            worktree,
            source_revision: checkpoint.source_revision.clone(),
            issue_task: None,
            workflow_run_id: None,
            workflow_status: None,
            effects: Vec::new(),
            hook_receipts: Vec::new(),
            cleanup: AutomationCleanupState::retained(),
            next_action: to_owned_string("create persistent issue worktree and native Issue task"),
        };
        let ghost c = claim;
        let (p, found) = claim_slot(&checkpoint.claims, claim_id.as_str());
        if found {
            checkpoint.claims.set(p, claim);
            proof {
                let keys = claim_keys(old(checkpoint).claims@);
                assert(claim_keys(checkpoint.claims@) =~= keys);
            }
        } else {
            checkpoint.claims.insert(p, claim);
            proof {
                let keys = claim_keys(old(checkpoint).claims@);
                lemma_insert_ascending(keys, claim_id@);
                assert(claim_keys(checkpoint.claims@) =~= keys.insert(p as int, claim_id@));
            }
        }
        let mut next = to_owned_string("start claim `");
        push_str(&mut next, claim_id.as_str());
        push_str(&mut next, "`");
        checkpoint.next_action = next;
        proof {
            assert(checkpoint.claims@[p as int] == c);
        }
        self.save(checkpoint, stored)?;
        Ok(claim_id)
    }

    /// Claims an issue under the run's active profile revision.
    pub fn claim_fixture(
        &self,
        checkpoint: &mut AutomationRootCheckpoint,
        issue: &AutomationIssue,
        attempt: u32,
        workspace_root: &str,
        stored: &mut Option<StoredRevision>,
    ) -> (r: Result<String, AutomationRunError>)
        requires
            old(checkpoint).wf(),
        ensures
            final(checkpoint).wf(),
            claim_outcome(*old(checkpoint), *final(checkpoint), *old(stored), *final(stored), *issue, attempt,
                old(checkpoint).profile_digest@, old(checkpoint).profile_revision.revision, workspace_root@, r),
    {
        let profile_digest = checkpoint.profile_digest.clone();
        let profile_revision = checkpoint.profile_revision.revision;
        self.claim_fixture_with_profile(checkpoint, issue, attempt, profile_digest.as_str(), profile_revision, workspace_root, stored)
    }
}

} // verus!
