//! Starting, reopening and loading a resident run, and staging profile revisions.
use crate::automation_run::claim_keys;
use crate::automation_run::AutomationIssueClaim;
use crate::automation_run::AutomationProfileRevision;
use crate::automation_run::AutomationProfileRevisionStatus;
use crate::automation_run::AutomationReconciliationStatus;
use crate::automation_run::AutomationRootCheckpoint;
use crate::automation_run::AutomationRootStatus;
use crate::automation_run::AutomationRunError;
use crate::automation_run::StoredRevision;
use crate::automation_store::saved_from;
use crate::automation_store::stale_error;
use crate::automation_store::unsaved;
use crate::automation_store::AutomationLease;
use crate::automation_store::AutomationRunStore;
use crate::digest::sha256_hex;
use crate::digest::sha256_hex_str;
use crate::text::decimal;
use crate::text::push_str;
use crate::text::to_owned_string;
use crate::automation::AutomationProfile;
use crate::profile_json::profile_digest_spec;
use vstd::prelude::*;

verus! {

/// The lease key of a repository and tracker project: the digest of both, NUL-separated.
pub open spec fn lease_key_spec(repository: Seq<char>, project_slug: Seq<char>) -> Seq<char> {
    sha256_hex(repository + seq!['\0'] + project_slug)
}

pub fn automation_lease_key(repository: &str, project_slug: &str) -> (r: String)
    ensures
        r@ == lease_key_spec(repository@, project_slug@),
{
    let mut material = to_owned_string(repository);
    crate::text::push_char(&mut material, '\0');
    push_str(&mut material, project_slug);
    proof {
        assert(material@ =~= repository@ + seq!['\0'] + project_slug@);
    }
    sha256_hex_str(material.as_str())
}

/// The id of a run started at `millis` (since the Unix epoch) under a profile digest.
pub fn automation_run_id(millis: u64, profile_digest: &str) -> (r: String)
    requires
        profile_digest@.len() >= 12,
        forall|i: int| 0 <= i < 12 ==> (#[trigger] profile_digest@[i] as u32) < 128,
    ensures
        r@ == "automation-"@ + decimal(millis as nat) + "-"@ + profile_digest@.take(12),
{
    let chars = crate::text::str_chars(profile_digest);
    let head = crate::text::string_from_chars(crate::text::slice_subrange(chars.as_slice(), 0, 12));
    let mut id = to_owned_string("automation-");
    push_str(&mut id, crate::text::u64_to_string(millis).as_str());
    push_str(&mut id, "-");
    push_str(&mut id, head.as_str());
    proof {
        assert(chars@.subrange(0, 12) =~= profile_digest@.take(12));
    }
    id
}

/// Reopening an existing lease: only its owner may, and only while the run is running.
pub fn reopen_lease(lease: &AutomationLease, owner_thread_id: &str, status: AutomationRootStatus) -> (r: Result<(), AutomationRunError>)
    ensures
        r is Ok == (lease.owner_thread_id@ == owner_thread_id@ && status == AutomationRootStatus::Running),
        r matches Err(e) ==> e matches AutomationRunError::LeaseConflict { lease_key, owner_thread_id: o }
            && lease_key@ == lease.lease_key@ && o@ == lease.owner_thread_id@,
{
    if crate::text::str_eq(lease.owner_thread_id.as_str(), owner_thread_id) && status == AutomationRootStatus::Running {
        Ok(())
    } else {
        Err(AutomationRunError::LeaseConflict {
            lease_key: lease.lease_key.clone(),
            owner_thread_id: lease.owner_thread_id.clone(),
        })
    }
}

/// The lease a new run takes.
pub fn new_lease(lease_key: &str, run_id: &str, owner_thread_id: &str, repository: &str, project_slug: &str) -> (r: AutomationLease)
    ensures
        r.lease_key@ == lease_key@,
        r.run_id@ == run_id@,
        r.owner_thread_id@ == owner_thread_id@,
        r.repository@ == repository@,
        r.tracker_project_slug@ == project_slug@,
        r.lease_epoch == 0,
{
    AutomationLease {
        lease_key: to_owned_string(lease_key),
        run_id: to_owned_string(run_id),
        owner_thread_id: to_owned_string(owner_thread_id),
        repository: to_owned_string(repository),
        tracker_project_slug: to_owned_string(project_slug),
        lease_epoch: 0,
    }
}

/// Before a run starts, the profile handed in must have the digest it is
/// started under: a profile without canonical JSON is a storage error, one
/// with another digest is refused.
pub fn check_start_profile(profile: &crate::automation::AutomationProfile, profile_digest: &str) -> (r: Result<(), AutomationRunError>)
    ensures
        match crate::profile_json::profile_digest_spec(*profile) {
            None => r matches Err(e) && e is Storage,
            Some(d) => if d == profile_digest@ { r is Ok } else { r matches Err(e) && e is ProfileDigestMismatch },
        },
{
    match crate::profile_json::profile_digest(profile) {
        Err(e) => Err(AutomationRunError::Storage(e.message)),
        Ok(d) => if crate::text::str_eq(d.as_str(), profile_digest) {
            Ok(())
        } else {
            Err(AutomationRunError::ProfileDigestMismatch)
        },
    }
}

/// The first checkpoint of a new run: running, at epoch and revision 0, with
/// no claims and an empty queue.
pub fn initial_checkpoint(
    run_id: &str,
    owner_thread_id: &str,
    repository: &str,
    source_revision: &str,
    profile_digest: &str,
    project_slug: &str,
    workspace_root: &str,
    lease_key: &str,
) -> (r: AutomationRootCheckpoint)
    ensures
        r.wf(),
        r.schema_version == 1,
        r.run_id@ == run_id@,
        r.owner_thread_id@ == owner_thread_id@,
        r.repository@ == repository@,
        r.source_revision@ == source_revision@,
        r.profile_digest@ == profile_digest@,
        r.profile_revision.revision == 1,
        r.profile_revision.status == AutomationProfileRevisionStatus::Active,
        r.profile_revision.pending_digest is None,
        r.profile_revision.rejected_digest is None,
        r.profile_revision.diagnostics@.len() == 0,
        r.tracker_project_slug@ == project_slug@,
        r.workspace_root@ == workspace_root@,
        r.lease_key@ == lease_key@,
        r.lease_epoch == 0,
        r.revision == 0,
        r.status == AutomationRootStatus::Running,
        r.reconciliation == AutomationReconciliationStatus::Complete,
        r.claims@.len() == 0,
        r.queue@.len() == 0,
        r.next_action@ == "dispatch one eligible issue"@,
{
    AutomationRootCheckpoint {
        schema_version: 1,
        run_id: to_owned_string(run_id),
        owner_thread_id: to_owned_string(owner_thread_id),
        repository: to_owned_string(repository),
        source_revision: to_owned_string(source_revision),
        profile_digest: to_owned_string(profile_digest),
        profile_revision: AutomationProfileRevision::initial(),
        tracker_project_slug: to_owned_string(project_slug),
        workspace_root: to_owned_string(workspace_root),
        lease_key: to_owned_string(lease_key),
        lease_epoch: 0,
        revision: 0,
        status: AutomationRootStatus::Running,
        reconciliation: AutomationReconciliationStatus::Complete,
        claims: Vec::new(),
        queue: Vec::new(),
        next_action: to_owned_string("dispatch one eligible issue"),
    }
}

/// A claim as loading fills in what older checkpoints left out.
pub open spec fn claim_loaded(old: AutomationIssueClaim, new: AutomationIssueClaim, digest: String, revision: u64) -> bool {
    new == (AutomationIssueClaim {
        profile_digest: if old.profile_digest@.len() == 0 { digest } else { old.profile_digest },
        profile_revision: if old.profile_revision == 0 { revision } else { old.profile_revision },
        ..old
    })
}

/// A decoded checkpoint as loading completes it: revision 0 of the profile
/// reads as 1, and each claim takes what it lacks from the run.
pub open spec fn checkpoint_loaded(decoded: AutomationRootCheckpoint, r: AutomationRootCheckpoint) -> bool {
    &&& r == (AutomationRootCheckpoint { profile_revision: r.profile_revision, claims: r.claims, ..decoded })
    &&& r.profile_revision == (AutomationProfileRevision {
        revision: if decoded.profile_revision.revision == 0 { 1 } else { decoded.profile_revision.revision },
        ..decoded.profile_revision
    })
    &&& r.claims@.len() == decoded.claims@.len()
    &&& forall|i: int| 0 <= i < decoded.claims@.len() ==> claim_loaded(#[trigger] decoded.claims@[i], r.claims@[i],
        decoded.profile_digest, r.profile_revision.revision)
}

/// Every claim of the checkpoint records its profile digest and revision.
pub open spec fn claims_complete(c: AutomationRootCheckpoint) -> bool {
    forall|i: int| 0 <= i < c.claims@.len()
        ==> (#[trigger] c.claims@[i]).profile_digest@.len() > 0 && c.claims@[i].profile_revision > 0
}

/// Loading a checkpoint that saving wrote in full (a profile revision and,
/// on every claim, a profile digest and revision) gives it back unchanged.
pub proof fn lemma_load_keeps_complete_checkpoint(decoded: AutomationRootCheckpoint, r: AutomationRootCheckpoint)
    requires
        checkpoint_loaded(decoded, r),
        decoded.profile_revision.revision > 0,
        claims_complete(decoded),
    ensures
        r == (AutomationRootCheckpoint { claims: r.claims, ..decoded }),
        r.claims@ == decoded.claims@,
{
    assert forall|i: int| 0 <= i < decoded.claims@.len() implies r.claims@[i] == decoded.claims@[i] by {
        assert(claim_loaded(decoded.claims@[i], r.claims@[i], decoded.profile_digest, r.profile_revision.revision));
    }
    assert(r.claims@ =~= decoded.claims@);
}

impl AutomationRunStore {
    /// A decoded checkpoint, completed: a missing profile revision is revision 1,
    /// and each claim without a profile digest or revision takes the run's.
    pub fn load(&self, decoded: AutomationRootCheckpoint) -> (r: AutomationRootCheckpoint)
        requires
            decoded.wf(),
        ensures
            r.wf(),
            checkpoint_loaded(decoded, r),
    {
        let mut checkpoint = decoded;
        if checkpoint.profile_revision.revision == 0 {
            checkpoint.profile_revision.revision = 1;
        }
        let ghost top = checkpoint;
        let mut i: usize = 0;
        while i < checkpoint.claims.len()
            invariant
                i <= checkpoint.claims@.len(),
                checkpoint.claims@.len() == decoded.claims@.len(),
                checkpoint == (AutomationRootCheckpoint { claims: checkpoint.claims, ..top }),
                top.profile_digest == decoded.profile_digest,
                forall|j: int| 0 <= j < i ==> claim_loaded(#[trigger] decoded.claims@[j], checkpoint.claims@[j],
                    decoded.profile_digest, top.profile_revision.revision),
                forall|j: int| i <= j < checkpoint.claims@.len() ==> #[trigger] checkpoint.claims@[j] == decoded.claims@[j],
            decreases checkpoint.claims.len() - i,
        {
            let ghost before = checkpoint.claims@;
            if crate::text::utf8_byte_len(checkpoint.claims[i].profile_digest.as_str()) == 0 {
                proof {
                    crate::text::lemma_utf8_len_zero(checkpoint.claims@[i as int].profile_digest@);
                }
                checkpoint.claims[i].profile_digest = checkpoint.profile_digest.clone();
            } else {
                proof {
                    crate::text::lemma_utf8_len_zero(checkpoint.claims@[i as int].profile_digest@);
                }
            }
            if checkpoint.claims[i].profile_revision == 0 {
                checkpoint.claims[i].profile_revision = checkpoint.profile_revision.revision;
            }
            proof {
                assert(checkpoint.claims@ =~= before.update(i as int, checkpoint.claims@[i as int]));
            }
            i = i + 1;
        }
        proof {
            assert(claim_keys(checkpoint.claims@) =~= claim_keys(decoded.claims@));
        }
        checkpoint
    }

    /// Stages a valid profile revision for future dispatch. `profile_digest` must
    /// be the digest of `profile`; the tracker project may not change.
    pub fn stage_profile_revision(
        &self,
        checkpoint: &mut AutomationRootCheckpoint,
        profile: &AutomationProfile,
        profile_digest: &str,
        stored: &mut Option<StoredRevision>,
    ) -> (r: Result<(), AutomationRunError>)
        requires
            old(checkpoint).wf(),
        ensures
            final(checkpoint).wf(),
            profile_digest_spec(*profile) is None ==> *final(checkpoint) == *old(checkpoint)
                && *final(stored) == *old(stored) && (r matches Err(e) && e is Storage),
            profile_digest_spec(*profile) is Some && profile_digest_spec(*profile) != Some(profile_digest@)
                ==> *final(checkpoint) == *old(checkpoint)
                && *final(stored) == *old(stored) && (r matches Err(e) && e is ProfileDigestMismatch),
            profile_digest_spec(*profile) == Some(profile_digest@) && profile.tracker.project_slug@ != old(checkpoint).tracker_project_slug@
                ==> *final(checkpoint) == *old(checkpoint) && *final(stored) == *old(stored)
                && (r matches Err(e) && e is ProfileProjectMismatch),
            profile_digest_spec(*profile) == Some(profile_digest@) && profile.tracker.project_slug@ == old(checkpoint).tracker_project_slug@ ==> {
                let mid = unsaved(*old(checkpoint), *final(checkpoint));
                let pr = mid.profile_revision;
                &&& mid == (AutomationRootCheckpoint { profile_revision: pr, next_action: mid.next_action, ..*old(checkpoint) })
                &&& pr.revision == old(checkpoint).profile_revision.revision
                &&& pr.status == AutomationProfileRevisionStatus::PendingValid
                &&& pr.pending_digest matches Some(d) && d@ == profile_digest@
                &&& pr.rejected_digest is None
                &&& pr.diagnostics@.len() == 0
                &&& mid.next_action@ == "valid profile revision pending future dispatch"@
                &&& saved_from(*old(checkpoint), *final(checkpoint), *old(stored), *final(stored), r is Ok)
                &&& (r matches Err(e) ==> stale_error(e, *old(stored), old(checkpoint).lease_epoch, old(checkpoint).revision))
            },
    {
        let canonical = match crate::profile_json::profile_digest(profile) {
            Ok(d) => d,
            Err(e) => {
                return Err(AutomationRunError::Storage(e.message));
            },
        };
        if !crate::text::str_eq(canonical.as_str(), profile_digest) {
            return Err(AutomationRunError::ProfileDigestMismatch);
        }
        if !crate::text::str_eq(profile.tracker.project_slug.as_str(), checkpoint.tracker_project_slug.as_str()) {
            return Err(AutomationRunError::ProfileProjectMismatch);
        }
        checkpoint.profile_revision.status = AutomationProfileRevisionStatus::PendingValid;
        checkpoint.profile_revision.pending_digest = Some(to_owned_string(profile_digest));
        checkpoint.profile_revision.rejected_digest = None;
        checkpoint.profile_revision.diagnostics = Vec::new();
        checkpoint.next_action = to_owned_string("valid profile revision pending future dispatch");
        self.save(checkpoint, stored)
    }
}

} // verus!
