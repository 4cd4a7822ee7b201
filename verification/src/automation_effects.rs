//! Hook receipts and tracker effects of a claim: prepared once under an
//! idempotency key, executed at most once, and resolved from the provider's answer.
use crate::automation::effect_name;
use crate::automation::AutomationEffect;
use crate::automation::AutomationProfile;
use crate::automation_policy::automation_effect_name;
use crate::automation_run::claim_pos;
use crate::automation_run::find_claim;
use crate::automation_run::has_claim;
use crate::automation_run::same_claim;
use crate::automation_run::AutomationClaimStatus;
use crate::automation_run::AutomationEffectExecution;
use crate::automation_run::AutomationEffectReceipt;
use crate::automation_run::AutomationEffectStatus;
use crate::automation_run::AutomationGatePolicy;
use crate::automation_run::AutomationHookKind;
use crate::automation_run::AutomationHookReceipt;
use crate::automation_run::AutomationHookStatus;
use crate::automation_run::AutomationIssueClaim;
use crate::automation_run::AutomationRootCheckpoint;
use crate::automation_run::AutomationRunError;
use crate::automation_run::AutomationTrackerCommentRequest;
use crate::automation_run::AutomationTrackerTransitionRequest;
use crate::automation_run::AutomationTrackerPullRequestLinkRequest;
use crate::automation_run::StoredRevision;
use crate::automation_store::claim_changed;
use crate::automation_store::lemma_claim_change_keeps_wf;
use crate::automation_store::missing_claim_error;
use crate::automation_store::saved_from;
use crate::automation_store::stale_error;
use crate::automation_store::unsaved;
use crate::automation_store::AutomationRunStore;
use crate::digest::sha256_hex;
use crate::digest::sha256_hex_str;
use crate::plan::CommandOutcome;
use crate::text::bounded_preview;
use crate::text::bounded_preview_spec;
use crate::text::push_str;
use crate::text::str_eq;
use crate::text::to_owned_string;
use crate::text::trim_seq;
use crate::text::utf8_len;
use vstd::prelude::*;

verus! {

/// The largest invocation number among receipts of `kind` (0 when there is none).
pub open spec fn max_invocation(receipts: Seq<AutomationHookReceipt>, kind: AutomationHookKind) -> u32
    decreases receipts.len(),
{
    if receipts.len() == 0 {
        0
    } else {
        let rest = max_invocation(receipts.drop_last(), kind);
        let last = receipts.last();
        if last.kind == kind && last.invocation > rest { last.invocation } else { rest }
    }
}

pub open spec fn sat_inc(x: u32) -> u32 {
    if x == u32::MAX { x } else { (x + 1) as u32 }
}

/// The receipt of one hook run: skipped without a command; otherwise the
/// command's digest, with the outcome or the error that prevented it.
pub open spec fn hook_receipt_for(
    r: AutomationHookReceipt,
    kind: AutomationHookKind,
    invocation: u32,
    command: Option<&str>,
    outcome: Result<&CommandOutcome, &str>,
) -> bool {
    &&& r.kind == kind
    &&& r.invocation == invocation
    &&& match command {
        None => {
            &&& r.command_sha256 is None
            &&& r.status == AutomationHookStatus::Skipped
            &&& r.exit_code is None
            &&& r.stdout_preview@.len() == 0
            &&& r.stderr_preview@.len() == 0
            &&& r.failure is None
        },
        Some(c) => {
            &&& r.command_sha256 matches Some(d) && d@ == sha256_hex(c@)
            &&& match outcome {
                Ok(o) => {
                    &&& r.status == (if o.exit_code == 0 { AutomationHookStatus::Succeeded } else { AutomationHookStatus::Failed })
                    &&& r.exit_code == Some(o.exit_code)
                    &&& r.stdout_preview@ == bounded_preview_spec(o.stdout@, 512)
                    &&& r.stderr_preview@ == bounded_preview_spec(o.stderr@, 512)
                    &&& if o.exit_code == 0 {
                        r.failure is None
                    } else {
                        r.failure matches Some(f) && f@ == bounded_preview_spec(
                            if trim_seq(o.stderr@).len() == 0 { "hook command returned a non-zero exit code"@ } else { o.stderr@ },
                            512,
                        )
                    }
                },
                Err(error) => {
                    &&& r.status == AutomationHookStatus::Failed
                    &&& r.exit_code is None
                    &&& r.stdout_preview@.len() == 0
                    &&& r.stderr_preview@.len() == 0
                    &&& r.failure matches Some(f) && f@ == bounded_preview_spec(error@, 512)
                },
            }
        },
    }
}

/// The retained receipts after one more: the newest 32.
pub open spec fn receipts_after(old: Seq<AutomationHookReceipt>, r: AutomationHookReceipt) -> Seq<AutomationHookReceipt> {
    if old.len() + 1 > 32 { old.push(r).drop_first() } else { old.push(r) }
}

fn next_invocation(receipts: &Vec<AutomationHookReceipt>, kind: AutomationHookKind) -> (r: u32)
    ensures
        r == sat_inc(max_invocation(receipts@, kind)),
{
    let mut best: u32 = 0;
    let mut i: usize = 0;
    while i < receipts.len()
        invariant
            i <= receipts.len(),
            best == max_invocation(receipts@.take(i as int), kind),
        decreases receipts.len() - i,
    {
        proof {
            assert(receipts@.take(i + 1).drop_last() =~= receipts@.take(i as int));
        }
        if receipts[i].kind == kind && receipts[i].invocation > best {
            best = receipts[i].invocation;
        }
        i = i + 1;
    }
    proof {
        assert(receipts@.take(receipts@.len() as int) =~= receipts@);
    }
    best.saturating_add(1)
}

impl AutomationRunStore {
    /// Records the receipt of one hook run on a claim, keeping the newest 32.
    pub fn record_hook_receipt(
        &self,
        checkpoint: &mut AutomationRootCheckpoint,
        claim_id: &str,
        kind: AutomationHookKind,
        command: Option<&str>,
        outcome: Result<&CommandOutcome, &str>,
        stored: &mut Option<StoredRevision>,
    ) -> (r: Result<AutomationHookReceipt, AutomationRunError>)
        requires
            old(checkpoint).wf(),
        ensures
            final(checkpoint).wf(),
            !has_claim(old(checkpoint).claims@, claim_id@) ==> (*final(checkpoint) == *old(checkpoint)
                && *final(stored) == *old(stored) && (r matches Err(e) && missing_claim_error(claim_id@, e))),
            has_claim(old(checkpoint).claims@, claim_id@) ==> {
                let i = claim_pos(old(checkpoint).claims@, claim_id@);
                let c = old(checkpoint).claims@[i];
                let mid = unsaved(*old(checkpoint), *final(checkpoint));
                let n = mid.claims@[i];
                &&& claim_changed(*old(checkpoint), mid, i)
                &&& mid.next_action == old(checkpoint).next_action
                &&& n == (AutomationIssueClaim { hook_receipts: n.hook_receipts, ..c })
                &&& n.hook_receipts@.len() > 0
                &&& hook_receipt_for(n.hook_receipts@.last(), kind, sat_inc(max_invocation(c.hook_receipts@, kind)), command, outcome)
                &&& n.hook_receipts@ == receipts_after(c.hook_receipts@, n.hook_receipts@.last())
                &&& saved_from(*old(checkpoint), *final(checkpoint), *old(stored), *final(stored), r is Ok)
                &&& (r matches Ok(x) ==> x == n.hook_receipts@.last())
                &&& (r matches Err(e) ==> stale_error(e, *old(stored), old(checkpoint).lease_epoch, old(checkpoint).revision))
            },
    {
        let i = match find_claim(&checkpoint.claims, claim_id) {
            None => return Err(AutomationRunError::MissingClaim(to_owned_string(claim_id))),
            Some(i) => i,
        };
        let invocation = next_invocation(&checkpoint.claims[i].hook_receipts, kind);
        let receipt = match command {
            None => AutomationHookReceipt {
                kind,
                invocation,
                command_sha256: None,
                status: AutomationHookStatus::Skipped,
                exit_code: None,
                stdout_preview: String::new(),
                stderr_preview: String::new(),
                failure: None,
            },
            Some(c) => match outcome {
                Ok(o) => {
                    let failure = if o.exit_code != 0 {
                        let trimmed = crate::text::trim(o.stderr.as_str());
                        if crate::text::utf8_byte_len(trimmed.as_str()) == 0 {
                            proof {
                                crate::text::lemma_utf8_len_zero(trimmed@);
                            }
                            Some(bounded_preview("hook command returned a non-zero exit code", 512))
                        } else {
                            proof {
                                crate::text::lemma_utf8_len_zero(trimmed@);
                            }
                            Some(bounded_preview(o.stderr.as_str(), 512))
                        }
                    } else {
                        None
                    };
                    AutomationHookReceipt {
                        kind,
                        invocation,
                        command_sha256: Some(sha256_hex_str(c)),
                        status: if o.exit_code == 0 { AutomationHookStatus::Succeeded } else { AutomationHookStatus::Failed },
                        exit_code: Some(o.exit_code),
                        stdout_preview: bounded_preview(o.stdout.as_str(), 512),
                        stderr_preview: bounded_preview(o.stderr.as_str(), 512),
                        failure,
                    }
                },
                Err(error) => AutomationHookReceipt {
                    kind,
                    invocation,
                    command_sha256: Some(sha256_hex_str(c)),
                    status: AutomationHookStatus::Failed,
                    exit_code: None,
                    stdout_preview: String::new(),
                    stderr_preview: String::new(),
                    failure: Some(bounded_preview(error, 512)),
                },
            },
        };
        let ghost old_receipts = checkpoint.claims@[i as int].hook_receipts@;
        checkpoint.claims[i].hook_receipts.push(receipt.duplicate());
        if checkpoint.claims[i].hook_receipts.len() > 32 {
            checkpoint.claims[i].hook_receipts.remove(0);
        }
        proof {
            assert(checkpoint.claims@[i as int].hook_receipts@ =~= receipts_after(old_receipts, receipt));
            assert(checkpoint.claims@ =~= old(checkpoint).claims@.update(i as int, checkpoint.claims@[i as int]));
            lemma_claim_change_keeps_wf(*old(checkpoint), *checkpoint, i as int);
        }
        self.save(checkpoint, stored)?;
        Ok(receipt)
    }

    /// Replaces the claim keyed `claim_id` by what `update` makes of it. An
    /// update that gives the claim another key is refused and changes nothing.
    pub fn update_claim<F: FnOnce(AutomationIssueClaim) -> AutomationIssueClaim>(
        &self,
        checkpoint: &mut AutomationRootCheckpoint,
        claim_id: &str,
        update: F,
        stored: &mut Option<StoredRevision>,
    ) -> (r: Result<(), AutomationRunError>)
        requires
            old(checkpoint).wf(),
            has_claim(old(checkpoint).claims@, claim_id@) ==> forall|d: AutomationIssueClaim|
                same_claim(d, old(checkpoint).claims@[claim_pos(old(checkpoint).claims@, claim_id@)]) ==> #[trigger] update.requires((d,)),
        ensures
            final(checkpoint).wf(),
            !has_claim(old(checkpoint).claims@, claim_id@) ==> (*final(checkpoint) == *old(checkpoint)
                && *final(stored) == *old(stored) && (r matches Err(e) && missing_claim_error(claim_id@, e))),
            has_claim(old(checkpoint).claims@, claim_id@) ==> {
                let i = claim_pos(old(checkpoint).claims@, claim_id@);
                let c = old(checkpoint).claims@[i];
                exists|d: AutomationIssueClaim, u: AutomationIssueClaim| same_claim(d, c) && #[trigger] update.ensures((d,), u) && if u.claim_id@ != c.claim_id@ {
                    &&& *final(checkpoint) == *old(checkpoint)
                    &&& *final(stored) == *old(stored)
                    &&& r matches Err(AutomationRunError::ClaimKeyChanged(k)) && k@ == claim_id@
                } else {
                    let mid = unsaved(*old(checkpoint), *final(checkpoint));
                    &&& claim_changed(*old(checkpoint), mid, i)
                    &&& mid.next_action == old(checkpoint).next_action
                    &&& mid.claims@[i] == u
                    &&& saved_from(*old(checkpoint), *final(checkpoint), *old(stored), *final(stored), r is Ok)
                    &&& (r matches Err(e) ==> stale_error(e, *old(stored), old(checkpoint).lease_epoch, old(checkpoint).revision))
                }
            },
    {
        let i = match find_claim(&checkpoint.claims, claim_id) {
            None => return Err(AutomationRunError::MissingClaim(to_owned_string(claim_id))),
            Some(i) => i,
        };
        let ghost before = checkpoint.claims@;
        let updated = update(checkpoint.claims[i].duplicate());
        if !str_eq(updated.claim_id.as_str(), checkpoint.claims[i].claim_id.as_str()) {
            return Err(AutomationRunError::ClaimKeyChanged(to_owned_string(claim_id)));
        }
        let ghost u = updated;
        checkpoint.claims.set(i, updated);
        proof {
            assert(checkpoint.claims@ =~= before.update(i as int, u));
            lemma_claim_change_keeps_wf(*old(checkpoint), *checkpoint, i as int);
        }
        self.save(checkpoint, stored)
    }
}


/// The idempotency key of an effect: the digest of the claim's profile digest, the
/// claim, the effect's name and the digest of its request, NUL-separated.
pub open spec fn effect_key(profile_digest: Seq<char>, claim_id: Seq<char>, kind: AutomationEffect, request: Seq<char>) -> Seq<char> {
    sha256_hex(profile_digest + seq!['\0'] + claim_id + seq!['\0'] + effect_name(kind) + seq!['\0'] + sha256_hex(request))
}

pub open spec fn has_receipt(effects: Seq<AutomationEffectReceipt>, key: Seq<char>) -> bool {
    exists|k: int| 0 <= k < effects.len() && #[trigger] effects[k].idempotency_key@ == key
}

/// The first receipt with the key.
pub open spec fn receipt_pos(effects: Seq<AutomationEffectReceipt>, key: Seq<char>) -> int {
    choose|k: int| 0 <= k < effects.len() && #[trigger] effects[k].idempotency_key@ == key
        && forall|j: int| 0 <= j < k ==> effects[j].idempotency_key@ != key
}

proof fn lemma_first_receipt(effects: Seq<AutomationEffectReceipt>, key: Seq<char>, k: int)
    requires
        0 <= k < effects.len(),
        effects[k].idempotency_key@ == key,
    ensures
        exists|p: int| 0 <= p < effects.len() && #[trigger] effects[p].idempotency_key@ == key
            && forall|j: int| 0 <= j < p ==> effects[j].idempotency_key@ != key,
    decreases k,
{
    if exists|j: int| 0 <= j < k && #[trigger] effects[j].idempotency_key@ == key {
        let j = choose|j: int| 0 <= j < k && #[trigger] effects[j].idempotency_key@ == key;
        lemma_first_receipt(effects, key, j);
    }
}

/// The first receipt with a key that some receipt has.
pub proof fn lemma_receipt_pos(effects: Seq<AutomationEffectReceipt>, key: Seq<char>)
    requires
        has_receipt(effects, key),
    ensures
        0 <= receipt_pos(effects, key) < effects.len(),
        effects[receipt_pos(effects, key)].idempotency_key@ == key,
        forall|j: int| 0 <= j < receipt_pos(effects, key) ==> effects[j].idempotency_key@ != key,
{
    let k = choose|k: int| 0 <= k < effects.len() && #[trigger] effects[k].idempotency_key@ == key;
    lemma_first_receipt(effects, key, k);
}

pub fn find_receipt(effects: &Vec<AutomationEffectReceipt>, key: &str) -> (r: Option<usize>)
    ensures
        r matches Some(k) ==> has_receipt(effects@, key@) && k == receipt_pos(effects@, key@) && k < effects@.len(),
        r is None ==> !has_receipt(effects@, key@),
{
    let mut k: usize = 0;
    while k < effects.len()
        invariant
            k <= effects.len(),
            forall|j: int| 0 <= j < k ==> (#[trigger] effects@[j]).idempotency_key@ != key@,
        decreases effects.len() - k,
    {
        if crate::text::str_eq(effects[k].idempotency_key.as_str(), key) {
            proof {
                let p = receipt_pos(effects@, key@);
                assert(effects@[k as int].idempotency_key@ == key@);
                if p < k {
                    assert(effects@[p].idempotency_key@ != key@);
                }
                if p > k {
                    assert(effects@[k as int].idempotency_key@ != key@);
                }
            }
            return Some(k);
        }
        k = k + 1;
    }
    None
}

pub open spec fn initial_effect_status(gate: AutomationGatePolicy, already_applied: bool) -> AutomationEffectStatus {
    if already_applied {
        AutomationEffectStatus::Committed
    } else {
        match gate {
            AutomationGatePolicy::AutoAccept => AutomationEffectStatus::Executing,
            AutomationGatePolicy::AutoReject => AutomationEffectStatus::Rejected,
            AutomationGatePolicy::AskHuman => AutomationEffectStatus::WaitingGate,
        }
    }
}

/// The receipt that preparing a new effect records.
pub open spec fn new_receipt(
    r: AutomationEffectReceipt,
    checkpoint: AutomationRootCheckpoint,
    claim: AutomationIssueClaim,
    claim_id: Seq<char>,
    kind: AutomationEffect,
    request: Seq<char>,
    gate: AutomationGatePolicy,
    already_applied: Option<Seq<char>>,
) -> bool {
    let key = effect_key(claim.profile_digest@, claim_id, kind, request);
    &&& r.effect_id@ == "effect-"@ + key.take(16)
    &&& r.idempotency_key@ == key
    &&& r.kind == kind
    &&& r.claim_id@ == claim_id
    &&& r.tracker_project_slug == checkpoint.tracker_project_slug
    &&& r.issue_id == claim.issue_id
    &&& r.request_sha256@ == sha256_hex(request)
    &&& r.body_preview@ == bounded_preview_spec(request, 240)
    &&& r.gate_policy == gate
    &&& r.status == initial_effect_status(gate, already_applied is Some)
    &&& (match already_applied {
        None => r.provider_receipt is None,
        Some(a) => r.provider_receipt matches Some(p) && p@ == a,
    })
    &&& r.failure is None
}

pub open spec fn effect_authorized(profile: AutomationProfile, kind: AutomationEffect) -> bool {
    profile.orchestra.effects@.contains(kind)
}

/// What preparing an effect does: the outcome for every input.
pub open spec fn prepare_outcome(
    old: AutomationRootCheckpoint,
    fin: AutomationRootCheckpoint,
    stored: Option<StoredRevision>,
    stored_fin: Option<StoredRevision>,
    claim_id: Seq<char>,
    profile: AutomationProfile,
    kind: AutomationEffect,
    request: Seq<char>,
    gate: AutomationGatePolicy,
    already_applied: Option<Seq<char>>,
    r: Result<(AutomationEffectReceipt, bool), AutomationRunError>,
) -> bool {
    if !effect_authorized(profile, kind) {
        fin == old && stored_fin == stored && r == Err::<(AutomationEffectReceipt, bool), AutomationRunError>(AutomationRunError::MissingEffectAuthority)
    } else if !has_claim(old.claims@, claim_id) {
        fin == old && stored_fin == stored && (r matches Err(e) && missing_claim_error(claim_id, e))
    } else {
        let i = claim_pos(old.claims@, claim_id);
        let c = old.claims@[i];
        let key = effect_key(c.profile_digest@, claim_id, kind, request);
        let mid = unsaved(old, fin);
        if has_receipt(c.effects@, key) {
            let k = receipt_pos(c.effects@, key);
            let e = c.effects@[k];
            if e.status == AutomationEffectStatus::Executing {
                let n = mid.claims@[i];
                &&& claim_changed(old, mid, i)
                &&& mid.next_action == old.next_action
                &&& n == (AutomationIssueClaim { effects: n.effects, ..c })
                &&& n.effects@ == c.effects@.update(k, n.effects@[k])
                &&& n.effects@[k] == (AutomationEffectReceipt { status: AutomationEffectStatus::Ambiguous, failure: n.effects@[k].failure, ..e })
                &&& n.effects@[k].failure matches Some(f) && f@ == "execution was interrupted before a durable provider receipt"@
                &&& saved_from(old, fin, stored, stored_fin, r is Ok)
                &&& (r matches Ok(p) ==> p == (n.effects@[k], false))
                &&& (r matches Err(x) ==> stale_error(x, stored, old.lease_epoch, old.revision))
            } else {
                fin == old && stored_fin == stored && r == Ok::<(AutomationEffectReceipt, bool), AutomationRunError>((e, false))
            }
        } else if !(c.status == AutomationClaimStatus::Claimed || c.status == AutomationClaimStatus::Running) {
            fin == old && stored_fin == stored && (r matches Err(x) && x matches AutomationRunError::InactiveClaim(y) && y@ == claim_id)
        } else {
            let n = mid.claims@[i];
            &&& claim_changed(old, mid, i)
            &&& mid.next_action == old.next_action
            &&& n == (AutomationIssueClaim { effects: n.effects, ..c })
            &&& n.effects@.len() == c.effects@.len() + 1
            &&& n.effects@ == c.effects@.push(n.effects@.last())
            &&& new_receipt(n.effects@.last(), old, c, claim_id, kind, request, gate, already_applied)
            &&& saved_from(old, fin, stored, stored_fin, r is Ok)
            &&& (r matches Ok(p) ==> p == (n.effects@.last(), n.effects@.last().status == AutomationEffectStatus::Executing))
            &&& (r matches Err(x) ==> stale_error(x, stored, old.lease_epoch, old.revision))
        }
    }
}

fn effect_authorized_in(profile: &AutomationProfile, kind: AutomationEffect) -> (r: bool)
    ensures
        r == effect_authorized(*profile, kind),
{
    let effects = &profile.orchestra.effects;
    let mut i: usize = 0;
    while i < effects.len()
        invariant
            i <= effects.len(),
            effects@ == profile.orchestra.effects@,
            forall|j: int| 0 <= j < i ==> effects@[j] != kind,
        decreases effects.len() - i,
    {
        if effects[i] == kind {
            return true;
        }
        i = i + 1;
    }
    false
}

/// `effect-` and the first 16 characters of the key.
fn effect_id_of(key: &str) -> (r: String)
    requires
        key@.len() == 64,
    ensures
        r@ == "effect-"@ + key@.take(16),
{
    let chars = crate::text::str_chars(key);
    let head = crate::text::string_from_chars(crate::text::slice_subrange(chars.as_slice(), 0, 16));
    let mut out = to_owned_string("effect-");
    push_str(&mut out, head.as_str());
    proof {
        assert(chars@.subrange(0, 16) =~= key@.take(16));
    }
    out
}

impl AutomationRunStore {
    /// Prepares one tracker effect of a claim under its idempotency key. A key that
    /// was prepared before is never executed again: an executing receipt is made
    /// ambiguous, any other is returned as it is.
    pub fn prepare_tracker_effect(
        &self,
        checkpoint: &mut AutomationRootCheckpoint,
        claim_id: &str,
        profile: &AutomationProfile,
        kind: AutomationEffect,
        request_value: &str,
        gate_policy: AutomationGatePolicy,
        already_applied_receipt: Option<String>,
        stored: &mut Option<StoredRevision>,
    ) -> (r: Result<(AutomationEffectReceipt, bool), AutomationRunError>)
        requires
            old(checkpoint).wf(),
        ensures
            final(checkpoint).wf(),
            prepare_outcome(*old(checkpoint), *final(checkpoint), *old(stored), *final(stored), claim_id@, *profile, kind,
                request_value@, gate_policy, match already_applied_receipt { Some(a) => Some(a@), None => None }, r),
    {
        if !effect_authorized_in(profile, kind) {
            return Err(AutomationRunError::MissingEffectAuthority);
        }
        let i = match find_claim(&checkpoint.claims, claim_id) {
            None => return Err(AutomationRunError::MissingClaim(to_owned_string(claim_id))),
            Some(i) => i,
        };
        let request_sha256 = sha256_hex_str(request_value);
        let mut material = checkpoint.claims[i].profile_digest.clone();
        crate::text::push_char(&mut material, '\0');
        push_str(&mut material, claim_id);
        crate::text::push_char(&mut material, '\0');
        push_str(&mut material, automation_effect_name(kind));
        crate::text::push_char(&mut material, '\0');
        push_str(&mut material, request_sha256.as_str());
        let idempotency_key = sha256_hex_str(material.as_str());
        proof {
            let c = old(checkpoint).claims@[i as int];
            assert(material@ =~= c.profile_digest@ + seq!['\0'] + claim_id@ + seq!['\0'] + effect_name(kind) + seq!['\0'] + sha256_hex(request_value@));
        }
        match find_receipt(&checkpoint.claims[i].effects, idempotency_key.as_str()) {
            Some(k) => {
                if checkpoint.claims[i].effects[k].status == AutomationEffectStatus::Executing {
                    checkpoint.claims[i].effects[k].status = AutomationEffectStatus::Ambiguous;
                    checkpoint.claims[i].effects[k].failure = Some(to_owned_string("execution was interrupted before a durable provider receipt"));
                    let receipt = checkpoint.claims[i].effects[k].duplicate();
                    proof {
                        let c = old(checkpoint).claims@[i as int];
                        assert(checkpoint.claims@[i as int].effects@ =~= c.effects@.update(k as int, checkpoint.claims@[i as int].effects@[k as int]));
                        assert(checkpoint.claims@ =~= old(checkpoint).claims@.update(i as int, checkpoint.claims@[i as int]));
                        lemma_claim_change_keeps_wf(*old(checkpoint), *checkpoint, i as int);
                    }
                    self.save(checkpoint, stored)?;
                    return Ok((receipt, false));
                }
                return Ok((checkpoint.claims[i].effects[k].duplicate(), false));
            },
            None => {},
        }
        if !matches!(checkpoint.claims[i].status, AutomationClaimStatus::Claimed | AutomationClaimStatus::Running) {
            return Err(AutomationRunError::InactiveClaim(to_owned_string(claim_id)));
        }
        let already = already_applied_receipt.is_some();
        let status = if already {
            AutomationEffectStatus::Committed
        } else {
            match gate_policy {
                AutomationGatePolicy::AutoAccept => AutomationEffectStatus::Executing,
                AutomationGatePolicy::AutoReject => AutomationEffectStatus::Rejected,
                AutomationGatePolicy::AskHuman => AutomationEffectStatus::WaitingGate,
            }
        };
        let receipt = AutomationEffectReceipt {
            effect_id: effect_id_of(idempotency_key.as_str()),
            idempotency_key,
            kind,
            claim_id: to_owned_string(claim_id),
            tracker_project_slug: checkpoint.tracker_project_slug.clone(),
            issue_id: checkpoint.claims[i].issue_id.clone(),
            request_sha256,
            body_preview: bounded_preview(request_value, 240),
            gate_policy,
            status,
            provider_receipt: already_applied_receipt,
            failure: None,
        };
        checkpoint.claims[i].effects.push(receipt.duplicate());
        proof {
            assert(checkpoint.claims@ =~= old(checkpoint).claims@.update(i as int, checkpoint.claims@[i as int]));
            lemma_claim_change_keeps_wf(*old(checkpoint), *checkpoint, i as int);
        }
        self.save(checkpoint, stored)?;
        let execute = receipt.status == AutomationEffectStatus::Executing;
        Ok((receipt, execute))
    }
}


/// An effect is executed at most once: once it was prepared, preparing the same
/// effect again (same claim, kind and request) hands out nothing to execute and
/// records no new receipt.
#[verifier::rlimit(40)]
pub proof fn lemma_effect_prepared_once(
    ck0: AutomationRootCheckpoint,
    ck1: AutomationRootCheckpoint,
    ck2: AutomationRootCheckpoint,
    s0: Option<StoredRevision>,
    s1: Option<StoredRevision>,
    s1b: Option<StoredRevision>,
    s2: Option<StoredRevision>,
    claim_id: Seq<char>,
    profile: AutomationProfile,
    kind: AutomationEffect,
    request: Seq<char>,
    gate: AutomationGatePolicy,
    gate2: AutomationGatePolicy,
    applied1: Option<Seq<char>>,
    applied2: Option<Seq<char>>,
    r1: Result<(AutomationEffectReceipt, bool), AutomationRunError>,
    r2: Result<(AutomationEffectReceipt, bool), AutomationRunError>,
)
    requires
        ck0.wf(),
        ck1.wf(),
        prepare_outcome(ck0, ck1, s0, s1, claim_id, profile, kind, request, gate, applied1, r1),
        r1 is Ok,
        prepare_outcome(ck1, ck2, s1b, s2, claim_id, profile, kind, request, gate2, applied2, r2),
    ensures
        r2 matches Ok(p) ==> !p.1,
        has_claim(ck1.claims@, claim_id),
        ck2.claims@.len() == ck1.claims@.len(),
        ck2.claims@[claim_pos(ck1.claims@, claim_id)].effects@.len() == ck1.claims@[claim_pos(ck1.claims@, claim_id)].effects@.len(),
{
    let i = claim_pos(ck0.claims@, claim_id);
    let c0 = ck0.claims@[i];
    let key = effect_key(c0.profile_digest@, claim_id, kind, request);
    let mid1 = unsaved(ck0, ck1);
    assert(ck1.claims@[i].claim_id@ == claim_id);
    crate::automation_run::lemma_claim_pos(ck1.claims@, i);
    let c1 = ck1.claims@[i];
    assert(c1.profile_digest == c0.profile_digest);
    if has_receipt(c0.effects@, key) {
        lemma_receipt_pos(c0.effects@, key);
        let k = receipt_pos(c0.effects@, key);
        assert(c1.effects@[k].idempotency_key == c0.effects@[k].idempotency_key);
        assert(has_receipt(c1.effects@, key));
    } else {
        assert(c1.effects@.last().idempotency_key@ == key);
        assert(c1.effects@[c1.effects@.len() - 1].idempotency_key@ == key);
        assert(has_receipt(c1.effects@, key));
    }
}

/// The receipt after the provider's answer to its execution.
pub open spec fn execution_recorded(old: AutomationEffectReceipt, new: AutomationEffectReceipt, execution: AutomationEffectExecution) -> bool {
    match execution {
        AutomationEffectExecution::Committed { provider_receipt } => {
            &&& new == (AutomationEffectReceipt { status: AutomationEffectStatus::Committed, provider_receipt: new.provider_receipt, ..old })
            &&& new.provider_receipt matches Some(p) && p@ == bounded_preview_spec(provider_receipt@, 512)
        },
        AutomationEffectExecution::Failed { message } => {
            &&& new == (AutomationEffectReceipt { status: AutomationEffectStatus::Failed, failure: new.failure, ..old })
            &&& new.failure matches Some(f) && f@ == bounded_preview_spec(message@, 512)
        },
        AutomationEffectExecution::Ambiguous { message } => {
            &&& new == (AutomationEffectReceipt { status: AutomationEffectStatus::Ambiguous, failure: new.failure, ..old })
            &&& new.failure matches Some(f) && f@ == bounded_preview_spec(message@, 512)
        },
    }
}

/// The text a provider answer leaves on a receipt fits in 512 bytes.
pub proof fn lemma_recorded_texts_fit(old: AutomationEffectReceipt, new: AutomationEffectReceipt, execution: AutomationEffectExecution)
    requires
        execution_recorded(old, new, execution),
    ensures
        execution is Committed ==> (new.provider_receipt matches Some(p) && crate::text::utf8_len(p@) <= 512),
        !(execution is Committed) ==> (new.failure matches Some(f) && crate::text::utf8_len(f@) <= 512),
{
    match execution {
        AutomationEffectExecution::Committed { provider_receipt } => {
            crate::text::lemma_bounded_preview_fits(provider_receipt@, 512);
        },
        AutomationEffectExecution::Failed { message } => {
            crate::text::lemma_bounded_preview_fits(message@, 512);
        },
        AutomationEffectExecution::Ambiguous { message } => {
            crate::text::lemma_bounded_preview_fits(message@, 512);
        },
    }
}

/// What completing an effect does: the outcome for every input.
pub open spec fn complete_outcome(
    old: AutomationRootCheckpoint,
    fin: AutomationRootCheckpoint,
    stored: Option<StoredRevision>,
    stored_fin: Option<StoredRevision>,
    claim_id: Seq<char>,
    key: Seq<char>,
    execution: AutomationEffectExecution,
    r: Result<AutomationEffectReceipt, AutomationRunError>,
) -> bool {
    if !has_claim(old.claims@, claim_id) {
        fin == old && stored_fin == stored && (r matches Err(e) && missing_claim_error(claim_id, e))
    } else {
        let i = claim_pos(old.claims@, claim_id);
        let c = old.claims@[i];
        if !has_receipt(c.effects@, key) {
            fin == old && stored_fin == stored && (r matches Err(e) && missing_claim_error(claim_id, e))
        } else {
            let k = receipt_pos(c.effects@, key);
            let e = c.effects@[k];
            if e.status != AutomationEffectStatus::Executing {
                fin == old && stored_fin == stored && r == Ok::<AutomationEffectReceipt, AutomationRunError>(e)
            } else {
                let mid = unsaved(old, fin);
                let n = mid.claims@[i];
                &&& claim_changed(old, mid, i)
                &&& mid.next_action == old.next_action
                &&& n == (AutomationIssueClaim { effects: n.effects, ..c })
                &&& n.effects@ == c.effects@.update(k, n.effects@[k])
                &&& execution_recorded(e, n.effects@[k], execution)
                &&& saved_from(old, fin, stored, stored_fin, r is Ok)
                &&& (r matches Ok(x) ==> x == n.effects@[k])
                &&& (r matches Err(x) ==> stale_error(x, stored, old.lease_epoch, old.revision))
            }
        }
    }
}

/// A resolved effect stays resolved: completing it again changes nothing.
#[verifier::rlimit(40)]
pub proof fn lemma_complete_idempotent(
    ck0: AutomationRootCheckpoint,
    ck1: AutomationRootCheckpoint,
    ck2: AutomationRootCheckpoint,
    s0: Option<StoredRevision>,
    s1: Option<StoredRevision>,
    s1b: Option<StoredRevision>,
    s2: Option<StoredRevision>,
    claim_id: Seq<char>,
    key: Seq<char>,
    execution: AutomationEffectExecution,
    again: AutomationEffectExecution,
    r1: Result<AutomationEffectReceipt, AutomationRunError>,
    r2: Result<AutomationEffectReceipt, AutomationRunError>,
)
    requires
        ck0.wf(),
        ck1.wf(),
        complete_outcome(ck0, ck1, s0, s1, claim_id, key, execution, r1),
        r1 is Ok,
        complete_outcome(ck1, ck2, s1b, s2, claim_id, key, again, r2),
    ensures
        ck2 == ck1,
        s2 == s1b,
        r2 == r1,
{
    let i = claim_pos(ck0.claims@, claim_id);
    assert(ck1.claims@[i].claim_id@ == claim_id);
    crate::automation_run::lemma_claim_pos(ck1.claims@, i);
    let c0 = ck0.claims@[i];
    let c1 = ck1.claims@[i];
    lemma_receipt_pos(c0.effects@, key);
    let k = receipt_pos(c0.effects@, key);
    assert(c1.effects@[k].idempotency_key == c0.effects@[k].idempotency_key);
    assert(has_receipt(c1.effects@, key));
    lemma_receipt_pos(c1.effects@, key);
    let k1 = receipt_pos(c1.effects@, key);
    if k1 < k {
        assert(c1.effects@[k1] == c0.effects@[k1]);
        assert(false);
    }
    if k1 > k {
        assert(c1.effects@[k].idempotency_key@ == key);
        assert(false);
    }
    assert(k1 == k);
    assert(c1.effects@[k].status != AutomationEffectStatus::Executing);
}

impl AutomationRunStore {
    /// Records the provider's answer to an executing effect; any other receipt is returned unchanged.
    pub fn complete_tracker_effect(
        &self,
        checkpoint: &mut AutomationRootCheckpoint,
        claim_id: &str,
        idempotency_key: &str,
        execution: AutomationEffectExecution,
        stored: &mut Option<StoredRevision>,
    ) -> (r: Result<AutomationEffectReceipt, AutomationRunError>)
        requires
            old(checkpoint).wf(),
        ensures
            final(checkpoint).wf(),
            complete_outcome(*old(checkpoint), *final(checkpoint), *old(stored), *final(stored), claim_id@, idempotency_key@, execution, r),
    {
        let i = match find_claim(&checkpoint.claims, claim_id) {
            None => return Err(AutomationRunError::MissingClaim(to_owned_string(claim_id))),
            Some(i) => i,
        };
        let k = match find_receipt(&checkpoint.claims[i].effects, idempotency_key) {
            None => return Err(AutomationRunError::MissingClaim(to_owned_string(claim_id))),
            Some(k) => k,
        };
        if checkpoint.claims[i].effects[k].status != AutomationEffectStatus::Executing {
            return Ok(checkpoint.claims[i].effects[k].duplicate());
        }
        let ghost exec = execution;
        match execution {
            AutomationEffectExecution::Committed { provider_receipt } => {
                checkpoint.claims[i].effects[k].status = AutomationEffectStatus::Committed;
                checkpoint.claims[i].effects[k].provider_receipt = Some(bounded_preview(provider_receipt.as_str(), 512));
            },
            AutomationEffectExecution::Failed { message } => {
                checkpoint.claims[i].effects[k].status = AutomationEffectStatus::Failed;
                checkpoint.claims[i].effects[k].failure = Some(bounded_preview(message.as_str(), 512));
            },
            AutomationEffectExecution::Ambiguous { message } => {
                checkpoint.claims[i].effects[k].status = AutomationEffectStatus::Ambiguous;
                checkpoint.claims[i].effects[k].failure = Some(bounded_preview(message.as_str(), 512));
            },
        }
        let receipt = checkpoint.claims[i].effects[k].duplicate();
        proof {
            let c = old(checkpoint).claims@[i as int];
            assert(checkpoint.claims@[i as int].effects@ =~= c.effects@.update(k as int, checkpoint.claims@[i as int].effects@[k as int]));
            assert(checkpoint.claims@ =~= old(checkpoint).claims@.update(i as int, checkpoint.claims@[i as int]));
            lemma_claim_change_keeps_wf(*old(checkpoint), *checkpoint, i as int);
        }
        self.save(checkpoint, stored)?;
        Ok(receipt)
    }
}


/// The first state that equals `target`, ignoring ASCII case.
pub open spec fn first_matching_state(states: Seq<String>, target: Seq<char>) -> Option<String>
    decreases states.len(),
{
    if states.len() == 0 {
        None
    } else if crate::text::eq_ignore_ascii_case_spec(states[0]@, target) {
        Some(states[0])
    } else {
        first_matching_state(states.drop_first(), target)
    }
}

fn find_matching_state(states: &Vec<String>, target: &str) -> (r: Option<String>)
    ensures
        r == first_matching_state(states@, target@),
{
    let mut i: usize = 0;
    proof {
        assert(states@.skip(0) =~= states@);
    }
    while i < states.len()
        invariant
            i <= states.len(),
            first_matching_state(states@, target@) == first_matching_state(states@.skip(i as int), target@),
        decreases states.len() - i,
    {
        proof {
            assert(states@.skip(i as int).drop_first() =~= states@.skip(i + 1));
            assert(states@.skip(i as int)[0] == states@[i as int]);
        }
        if crate::text::eq_ignore_ascii_case(states[i].as_str(), target) {
            return Some(states[i].clone());
        }
        i = i + 1;
    }
    None
}

/// A comment request when the prepared receipt is to be executed.
pub open spec fn comment_request_for(q: AutomationTrackerCommentRequest, receipt: AutomationEffectReceipt, claim_id: Seq<char>, body: Seq<char>) -> bool {
    &&& q.effect_id == receipt.effect_id
    &&& q.idempotency_key == receipt.idempotency_key
    &&& q.claim_id@ == claim_id
    &&& q.tracker_project_slug == receipt.tracker_project_slug
    &&& q.issue_id == receipt.issue_id
    &&& q.body@ == body
}

pub open spec fn transition_request_for(q: AutomationTrackerTransitionRequest, receipt: AutomationEffectReceipt, claim_id: Seq<char>,
    expected: Seq<char>, target: Seq<char>) -> bool {
    &&& q.effect_id == receipt.effect_id
    &&& q.idempotency_key == receipt.idempotency_key
    &&& q.claim_id@ == claim_id
    &&& q.tracker_project_slug == receipt.tracker_project_slug
    &&& q.issue_id == receipt.issue_id
    &&& q.expected_state@ == expected
    &&& q.target_state@ == target
}

impl AutomationRunStore {
    /// Prepares a tracker comment of 1..=4096 bytes (after trimming); the request
    /// is handed out only when the receipt is to be executed now.
    pub fn prepare_tracker_comment(
        &self,
        checkpoint: &mut AutomationRootCheckpoint,
        claim_id: &str,
        profile: &AutomationProfile,
        body: &str,
        gate_policy: AutomationGatePolicy,
        stored: &mut Option<StoredRevision>,
    ) -> (r: Result<(AutomationEffectReceipt, Option<AutomationTrackerCommentRequest>), AutomationRunError>)
        requires
            old(checkpoint).wf(),
        ensures
            final(checkpoint).wf(),
            comment_prepared(*old(checkpoint), *final(checkpoint), *old(stored), *final(stored), claim_id@, *profile, body@, gate_policy, r),
    {
        let trimmed = crate::text::trim(body);
        let len = crate::text::utf8_byte_len(trimmed.as_str());
        proof {
            crate::text::lemma_utf8_len_zero(trimmed@);
        }
        if len == 0 || len > 4096 {
            return Err(AutomationRunError::InvalidComment);
        }
        let prepared = self.prepare_tracker_effect(checkpoint, claim_id, profile, AutomationEffect::TrackerComment,
            trimmed.as_str(), gate_policy, None, stored);
        let ghost p = prepared;
        let (receipt, execute) = prepared?;
        let request = if execute {
            Some(AutomationTrackerCommentRequest {
                effect_id: receipt.effect_id.clone(),
                idempotency_key: receipt.idempotency_key.clone(),
                claim_id: to_owned_string(claim_id),
                tracker_project_slug: receipt.tracker_project_slug.clone(),
                issue_id: receipt.issue_id.clone(),
                body: trimmed,
            })
        } else {
            None
        };
        Ok((receipt, request))
    }

    /// Prepares a tracker transition to a configured state. The claim takes the
    /// refreshed tracker state first; a target already reached commits at once, and
    /// a claim whose tracker issue is otherwise terminal is refused.
    pub fn prepare_tracker_transition(
        &self,
        checkpoint: &mut AutomationRootCheckpoint,
        claim_id: &str,
        profile: &AutomationProfile,
        refreshed_state: &str,
        target_state: &str,
        gate_policy: AutomationGatePolicy,
        stored: &mut Option<StoredRevision>,
    ) -> (r: Result<(AutomationEffectReceipt, Option<AutomationTrackerTransitionRequest>), AutomationRunError>)
        requires
            old(checkpoint).wf(),
        ensures
            final(checkpoint).wf(),
            transition_prepared(*old(checkpoint), *final(checkpoint), *old(stored), *final(stored), claim_id@, *profile,
                refreshed_state@, target_state@, gate_policy, r),
    {
        let refreshed = crate::text::trim(refreshed_state);
        let target = crate::text::trim(target_state);
        let mut states: Vec<String> = Vec::new();
        let mut k: usize = 0;
        while k < profile.tracker.active_states.len()
            invariant
                k <= profile.tracker.active_states@.len(),
                states@ == profile.tracker.active_states@.take(k as int),
            decreases profile.tracker.active_states.len() - k,
        {
            states.push(profile.tracker.active_states[k].clone());
            proof {
                assert(profile.tracker.active_states@.take(k + 1) =~= profile.tracker.active_states@.take(k as int).push(profile.tracker.active_states@[k as int]));
            }
            k = k + 1;
        }
        let mut k: usize = 0;
        let ghost n = profile.tracker.active_states@.len();
        proof {
            assert(profile.tracker.active_states@.take(n as int) =~= profile.tracker.active_states@);
        }
        while k < profile.tracker.terminal_states.len()
            invariant
                k <= profile.tracker.terminal_states@.len(),
                states@ == profile.tracker.active_states@ + profile.tracker.terminal_states@.take(k as int),
            decreases profile.tracker.terminal_states.len() - k,
        {
            states.push(profile.tracker.terminal_states[k].clone());
            proof {
                assert(profile.tracker.terminal_states@.take(k + 1) =~= profile.tracker.terminal_states@.take(k as int).push(profile.tracker.terminal_states@[k as int]));
                assert(profile.tracker.active_states@ + profile.tracker.terminal_states@.take(k + 1) =~=
                    (profile.tracker.active_states@ + profile.tracker.terminal_states@.take(k as int)).push(profile.tracker.terminal_states@[k as int]));
            }
            k = k + 1;
        }
        proof {
            assert(profile.tracker.terminal_states@.take(profile.tracker.terminal_states@.len() as int) =~= profile.tracker.terminal_states@);
        }
        let configured_target = match find_matching_state(&states, target.as_str()) {
            None => return Err(AutomationRunError::InvalidTransition),
            Some(t) => t,
        };
        let i = match find_claim(&checkpoint.claims, claim_id) {
            None => return Err(AutomationRunError::MissingClaim(to_owned_string(claim_id))),
            Some(i) => i,
        };
        checkpoint.claims[i].tracker_state = refreshed.clone();
        proof {
            assert(checkpoint.claims@ =~= old(checkpoint).claims@.update(i as int, checkpoint.claims@[i as int]));
            lemma_claim_change_keeps_wf(*old(checkpoint), *checkpoint, i as int);
        }
        let ghost ck = *checkpoint;
        let already_applied = crate::text::eq_ignore_ascii_case(refreshed.as_str(), configured_target.as_str());
        if !already_applied && crate::automation_policy::any_state_matches(&profile.tracker.terminal_states, refreshed.as_str()) {
            return Err(AutomationRunError::InactiveClaim(to_owned_string(claim_id)));
        }
        let receipt_note = if already_applied {
            let mut note = to_owned_string("already-applied:");
            push_str(&mut note, configured_target.as_str());
            Some(note)
        } else {
            None
        };
        proof {
            crate::automation_run::lemma_claim_pos(ck.claims@, i as int);
        }
        let prepared = self.prepare_tracker_effect(checkpoint, claim_id, profile, AutomationEffect::TrackerTransition,
            configured_target.as_str(), gate_policy, receipt_note, stored);
        let ghost p = prepared;
        proof {
            assert(prepare_outcome(ck, *checkpoint, *old(stored), *stored, claim_id@, *profile,
                AutomationEffect::TrackerTransition, configured_target@, gate_policy,
                if already_applied { Some("already-applied:"@ + configured_target@) } else { None }, p));
        }
        let result = match prepared {
            Ok((receipt, execute)) => {
                let request = if execute {
                    Some(AutomationTrackerTransitionRequest {
                        effect_id: receipt.effect_id.clone(),
                        idempotency_key: receipt.idempotency_key.clone(),
                        claim_id: to_owned_string(claim_id),
                        tracker_project_slug: receipt.tracker_project_slug.clone(),
                        issue_id: receipt.issue_id.clone(),
                        expected_state: refreshed,
                        target_state: configured_target,
                    })
                } else {
                    None
                };
                Ok((receipt, request))
            },
            Err(e) => Err(e),
        };
        proof {
            let i0 = i as int;
            let c = old(checkpoint).claims@[i0];
            assert(ck == (AutomationRootCheckpoint { claims: ck.claims, ..*old(checkpoint) }));
            assert(ck.claims@ == old(checkpoint).claims@.update(i0, ck.claims@[i0]));
            assert(ck.claims@[i0] == (AutomationIssueClaim { tracker_state: ck.claims@[i0].tracker_state, ..c }));
        }
        result
    }

    /// Completes a tracker transition; once committed, the claim takes the target state.
    pub fn complete_tracker_transition(
        &self,
        checkpoint: &mut AutomationRootCheckpoint,
        claim_id: &str,
        request: &AutomationTrackerTransitionRequest,
        execution: AutomationEffectExecution,
        stored: &mut Option<StoredRevision>,
    ) -> (r: Result<AutomationEffectReceipt, AutomationRunError>)
        requires
            old(checkpoint).wf(),
        ensures
            final(checkpoint).wf(),
            transition_completed(*old(checkpoint), *final(checkpoint), *old(stored), *final(stored), claim_id@, *request, execution, r),
    {
        let ghost execution_copy = execution;
        let completed = self.complete_tracker_effect(checkpoint, claim_id, request.idempotency_key.as_str(), execution, stored);
        let ghost ck = *checkpoint;
        let ghost s = *stored;
        let ghost rc = completed;
        let receipt = completed?;
        if receipt.status == AutomationEffectStatus::Committed {
            let i = match find_claim(&checkpoint.claims, claim_id) {
                None => return Err(AutomationRunError::MissingClaim(to_owned_string(claim_id))),
                Some(i) => i,
            };
            if !crate::text::str_eq(checkpoint.claims[i].tracker_state.as_str(), request.target_state.as_str()) {
                checkpoint.claims[i].tracker_state = request.target_state.clone();
                proof {
                    assert(checkpoint.claims@ =~= ck.claims@.update(i as int, checkpoint.claims@[i as int]));
                    lemma_claim_change_keeps_wf(ck, *checkpoint, i as int);
                }
                self.save(checkpoint, stored)?;
            }
        }
        Ok(receipt)
    }
}


pub open spec fn link_request_for(q: AutomationTrackerPullRequestLinkRequest, receipt: AutomationEffectReceipt, claim_id: Seq<char>, url: Seq<char>) -> bool {
    &&& q.effect_id == receipt.effect_id
    &&& q.idempotency_key == receipt.idempotency_key
    &&& q.claim_id@ == claim_id
    &&& q.tracker_project_slug == receipt.tracker_project_slug
    &&& q.issue_id == receipt.issue_id
    &&& q.pull_request_url@ == url
}

impl AutomationRunStore {
    /// Prepares linking a pull request, by its canonical GitHub link.
    pub fn prepare_tracker_pull_request_link(
        &self,
        checkpoint: &mut AutomationRootCheckpoint,
        claim_id: &str,
        profile: &AutomationProfile,
        pull_request_url: &str,
        gate_policy: AutomationGatePolicy,
        stored: &mut Option<StoredRevision>,
    ) -> (r: Result<(AutomationEffectReceipt, Option<AutomationTrackerPullRequestLinkRequest>), AutomationRunError>)
        requires
            old(checkpoint).wf(),
        ensures
            final(checkpoint).wf(),
            link_prepared(*old(checkpoint), *final(checkpoint), *old(stored), *final(stored), claim_id@, *profile,
                pull_request_url@, gate_policy, r),
    {
        let normalized = match crate::segments::normalize_pull_request_url(pull_request_url) {
            Some(u) => u,
            None => return Err(AutomationRunError::InvalidPullRequestLink),
        };
        let prepared = self.prepare_tracker_effect(checkpoint, claim_id, profile, AutomationEffect::TrackerLinkPullRequest,
            normalized.as_str(), gate_policy, None, stored);
        let ghost p = prepared;
        let ghost url = normalized@;
        let result = match prepared {
            Ok((receipt, execute)) => {
                let request = if execute {
                    Some(AutomationTrackerPullRequestLinkRequest {
                        effect_id: receipt.effect_id.clone(),
                        idempotency_key: receipt.idempotency_key.clone(),
                        claim_id: to_owned_string(claim_id),
                        tracker_project_slug: receipt.tracker_project_slug.clone(),
                        issue_id: receipt.issue_id.clone(),
                        pull_request_url: normalized,
                    })
                } else {
                    None
                };
                Ok((receipt, request))
            },
            Err(e) => Err(e),
        };
        proof {
            assert(url == crate::segments::normalized_pull_request(pull_request_url@).unwrap());
            assert(prepare_outcome(*old(checkpoint), *checkpoint, *old(stored), *stored, claim_id@, *profile,
                AutomationEffect::TrackerLinkPullRequest, crate::segments::normalized_pull_request(pull_request_url@).unwrap(), gate_policy, None, p));
        }
        result
    }
}

/// What preparing a tracker comment does (see `prepare_tracker_comment`).
pub open spec fn comment_prepared(
    before: AutomationRootCheckpoint,
    after: AutomationRootCheckpoint,
    stored_before: Option<StoredRevision>,
    stored_after: Option<StoredRevision>,
    claim_id: Seq<char>,
    profile: AutomationProfile,
    body: Seq<char>,
    gate_policy: AutomationGatePolicy,
    r: Result<(AutomationEffectReceipt, Option<AutomationTrackerCommentRequest>), AutomationRunError>,
) -> bool {
    let b = trim_seq(body);
    if b.len() == 0 || utf8_len(b) > 4096 {
        after == before && stored_after == stored_before
            && (r matches Err(e) && e is InvalidComment)
    } else {
        exists|p: Result<(AutomationEffectReceipt, bool), AutomationRunError>| {
            &&& prepare_outcome(before, after, stored_before, stored_after, claim_id, profile,
                AutomationEffect::TrackerComment, b, gate_policy, None, p)
            &&& match p {
                Ok((receipt, execute)) => r matches Ok((x, q)) && x == receipt
                    && (if execute { q matches Some(req) && comment_request_for(req, receipt, claim_id, b) } else { q is None }),
                Err(e) => r matches Err(x) && x == e,
            }
        }
    }
}

/// What preparing a tracker transition does (see `prepare_tracker_transition`).
pub open spec fn transition_prepared(
    before: AutomationRootCheckpoint,
    after: AutomationRootCheckpoint,
    stored_before: Option<StoredRevision>,
    stored_after: Option<StoredRevision>,
    claim_id: Seq<char>,
    profile: AutomationProfile,
    refreshed_state: Seq<char>,
    target_state: Seq<char>,
    gate_policy: AutomationGatePolicy,
    r: Result<(AutomationEffectReceipt, Option<AutomationTrackerTransitionRequest>), AutomationRunError>,
) -> bool {
    let refreshed = trim_seq(refreshed_state);
    let target = trim_seq(target_state);
    let configured = first_matching_state(profile.tracker.active_states@ + profile.tracker.terminal_states@, target);
    if configured is None {
        after == before && stored_after == stored_before
            && (r matches Err(e) && e is InvalidTransition)
    } else if !has_claim(before.claims@, claim_id) {
        after == before && stored_after == stored_before
            && (r matches Err(e) && missing_claim_error(claim_id, e))
    } else {
        let cfg = configured.unwrap()@;
        let i = claim_pos(before.claims@, claim_id);
        let c = before.claims@[i];
        let refreshed_claim = AutomationIssueClaim { tracker_state: after.claims@[i].tracker_state, ..c };
        let touched = AutomationRootCheckpoint {
            claims: after.claims,
            ..before
        };
        let already = crate::text::eq_ignore_ascii_case_spec(refreshed, cfg);
        if !already && crate::automation_policy::state_listed(profile.tracker.terminal_states@, refreshed) {
            &&& stored_after == stored_before
            &&& after == touched
            &&& after.claims@ == before.claims@.update(i, after.claims@[i])
            &&& after.claims@[i] == refreshed_claim
            &&& after.claims@[i].tracker_state@ == refreshed
            &&& r matches Err(e) && e matches AutomationRunError::InactiveClaim(x) && x@ == claim_id
        } else {
            exists|ck: AutomationRootCheckpoint, p: Result<(AutomationEffectReceipt, bool), AutomationRunError>| {
                &&& ck == (AutomationRootCheckpoint { claims: ck.claims, ..before })
                &&& ck.claims@ == before.claims@.update(i, ck.claims@[i])
                &&& ck.claims@[i] == (AutomationIssueClaim { tracker_state: ck.claims@[i].tracker_state, ..c })
                &&& ck.claims@[i].tracker_state@ == refreshed
                &&& prepare_outcome(ck, after, stored_before, stored_after, claim_id, profile,
                    AutomationEffect::TrackerTransition, cfg, gate_policy,
                    if already { Some("already-applied:"@ + cfg) } else { None }, p)
                &&& match p {
                    Ok((receipt, execute)) => r matches Ok((x, q)) && x == receipt
                        && (if execute { q matches Some(req) && transition_request_for(req, receipt, claim_id, refreshed, cfg) } else { q is None }),
                    Err(e) => r matches Err(x) && x == e,
                }
            }
        }
    }
}

/// What completing a tracker transition does (see `complete_tracker_transition`).
pub open spec fn transition_completed(
    before: AutomationRootCheckpoint,
    after: AutomationRootCheckpoint,
    stored_before: Option<StoredRevision>,
    stored_after: Option<StoredRevision>,
    claim_id: Seq<char>,
    request: AutomationTrackerTransitionRequest,
    execution: AutomationEffectExecution,
    r: Result<AutomationEffectReceipt, AutomationRunError>,
) -> bool {
    exists|ck: AutomationRootCheckpoint, s: Option<StoredRevision>, rc: Result<AutomationEffectReceipt, AutomationRunError>| {
        &&& complete_outcome(before, ck, stored_before, s, claim_id, request.idempotency_key@, execution, rc)
        &&& ck.wf()
        &&& match rc {
            Err(e) => r == Err::<AutomationEffectReceipt, AutomationRunError>(e) && after == ck && stored_after == s,
            Ok(receipt) => if receipt.status != AutomationEffectStatus::Committed {
                r == Ok::<AutomationEffectReceipt, AutomationRunError>(receipt) && after == ck && stored_after == s
            } else {
                let i = claim_pos(ck.claims@, claim_id);
                if ck.claims@[i].tracker_state@ == request.target_state@ {
                    r == Ok::<AutomationEffectReceipt, AutomationRunError>(receipt) && after == ck && stored_after == s
                } else {
                    let mid = unsaved(ck, after);
                    &&& claim_changed(ck, mid, i)
                    &&& mid.next_action == ck.next_action
                    &&& mid.claims@[i] == (AutomationIssueClaim { tracker_state: mid.claims@[i].tracker_state, ..ck.claims@[i] })
                    &&& mid.claims@[i].tracker_state@ == request.target_state@
                    &&& saved_from(ck, after, s, stored_after, r is Ok)
                    &&& (r matches Ok(x) ==> x == receipt)
                    &&& (r matches Err(e) ==> stale_error(e, s, ck.lease_epoch, ck.revision))
                }
            },
        }
    }
}

/// What preparing a pull-request link does (see `prepare_tracker_pull_request_link`).
pub open spec fn link_prepared(
    before: AutomationRootCheckpoint,
    after: AutomationRootCheckpoint,
    stored_before: Option<StoredRevision>,
    stored_after: Option<StoredRevision>,
    claim_id: Seq<char>,
    profile: AutomationProfile,
    pull_request_url: Seq<char>,
    gate_policy: AutomationGatePolicy,
    r: Result<(AutomationEffectReceipt, Option<AutomationTrackerPullRequestLinkRequest>), AutomationRunError>,
) -> bool {
    &&& crate::segments::normalized_pull_request(pull_request_url) is None ==> after == before
        && stored_after == stored_before && (r matches Err(e) && e is InvalidPullRequestLink)
    &&& crate::segments::normalized_pull_request(pull_request_url) is Some ==> exists|p: Result<(AutomationEffectReceipt, bool), AutomationRunError>| {
        &&& prepare_outcome(before, after, stored_before, stored_after, claim_id, profile,
            AutomationEffect::TrackerLinkPullRequest, crate::segments::normalized_pull_request(pull_request_url).unwrap(), gate_policy, None, p)
        &&& match p {
            Ok((receipt, execute)) => r matches Ok((x, q)) && x == receipt
                && (if execute { q matches Some(req) && link_request_for(req, receipt, claim_id,
                    crate::segments::normalized_pull_request(pull_request_url).unwrap()) } else { q is None }),
            Err(e) => r matches Err(x) && x == e,
        }
    }
}

impl AutomationRunStore {
    /// Prepares a tracker comment and, when the prepared receipt asks for it,
    /// runs `execute` on the request and records what it reports.
    pub fn resolve_tracker_comment<F: FnOnce(&AutomationTrackerCommentRequest) -> AutomationEffectExecution>(
        &self,
        checkpoint: &mut AutomationRootCheckpoint,
        claim_id: &str,
        profile: &AutomationProfile,
        body: &str,
        gate_policy: AutomationGatePolicy,
        execute: F,
        stored: &mut Option<StoredRevision>,
    ) -> (r: Result<AutomationEffectReceipt, AutomationRunError>)
        requires
            old(checkpoint).wf(),
            forall|q: &AutomationTrackerCommentRequest| #[trigger] execute.requires((q,)),
        ensures
            final(checkpoint).wf(),
            exists|ck: AutomationRootCheckpoint, s: Option<StoredRevision>,
                p: Result<(AutomationEffectReceipt, Option<AutomationTrackerCommentRequest>), AutomationRunError>| {
                &&& comment_prepared(*old(checkpoint), ck, *old(stored), s, claim_id@, *profile, body@, gate_policy, p)
                &&& match p {
                    Err(e) => r == Err::<AutomationEffectReceipt, AutomationRunError>(e) && *final(checkpoint) == ck && *final(stored) == s,
                    Ok((receipt, None)) => r == Ok::<AutomationEffectReceipt, AutomationRunError>(receipt)
                        && *final(checkpoint) == ck && *final(stored) == s,
                    Ok((_, Some(q))) => exists|x: AutomationEffectExecution| #[trigger] execute.ensures((&q,), x)
                        && complete_outcome(ck, *final(checkpoint), s, *final(stored), claim_id@, q.idempotency_key@, x, r),
                }
            },
    {
        let prepared = self.prepare_tracker_comment(checkpoint, claim_id, profile, body, gate_policy, stored);
        let ghost ck = *checkpoint;
        let ghost s = *stored;
        let ghost p = prepared;
        assert(comment_prepared(*old(checkpoint), ck, *old(stored), s, claim_id@, *profile, body@, gate_policy, p));
        let (receipt, request) = match prepared {
            Ok(x) => x,
            Err(e) => return Err(e),
        };
        let request = match request {
            None => return Ok(receipt),
            Some(q) => q,
        };
        let execution = execute(&request);
        let r = self.complete_tracker_effect(checkpoint, claim_id, request.idempotency_key.as_str(), execution, stored);
        assert(execute.ensures((&request,), execution));
        r
    }

    /// Prepares a tracker transition and, when the prepared receipt asks for
    /// it, runs `execute` on the request and records what it reports.
    pub fn resolve_tracker_transition<F: FnOnce(&AutomationTrackerTransitionRequest) -> AutomationEffectExecution>(
        &self,
        checkpoint: &mut AutomationRootCheckpoint,
        claim_id: &str,
        profile: &AutomationProfile,
        refreshed_state: &str,
        target_state: &str,
        gate_policy: AutomationGatePolicy,
        execute: F,
        stored: &mut Option<StoredRevision>,
    ) -> (r: Result<AutomationEffectReceipt, AutomationRunError>)
        requires
            old(checkpoint).wf(),
            forall|q: &AutomationTrackerTransitionRequest| #[trigger] execute.requires((q,)),
        ensures
            final(checkpoint).wf(),
            exists|ck: AutomationRootCheckpoint, s: Option<StoredRevision>,
                p: Result<(AutomationEffectReceipt, Option<AutomationTrackerTransitionRequest>), AutomationRunError>| {
                &&& transition_prepared(*old(checkpoint), ck, *old(stored), s, claim_id@, *profile, refreshed_state@, target_state@, gate_policy, p)
                &&& match p {
                    Err(e) => r == Err::<AutomationEffectReceipt, AutomationRunError>(e) && *final(checkpoint) == ck && *final(stored) == s,
                    Ok((receipt, None)) => r == Ok::<AutomationEffectReceipt, AutomationRunError>(receipt)
                        && *final(checkpoint) == ck && *final(stored) == s,
                    Ok((_, Some(q))) => exists|x: AutomationEffectExecution| #[trigger] execute.ensures((&q,), x)
                        && transition_completed(ck, *final(checkpoint), s, *final(stored), claim_id@, q, x, r),
                }
            },
    {
        let prepared = self.prepare_tracker_transition(checkpoint, claim_id, profile, refreshed_state, target_state, gate_policy, stored);
        let ghost ck = *checkpoint;
        let ghost s = *stored;
        let ghost p = prepared;
        assert(transition_prepared(*old(checkpoint), ck, *old(stored), s, claim_id@, *profile, refreshed_state@, target_state@, gate_policy, p));
        let (receipt, request) = match prepared {
            Ok(x) => x,
            Err(e) => return Err(e),
        };
        let request = match request {
            None => return Ok(receipt),
            Some(q) => q,
        };
        let execution = execute(&request);
        let r = self.complete_tracker_transition(checkpoint, claim_id, &request, execution, stored);
        assert(execute.ensures((&request,), execution));
        r
    }

    /// Prepares linking a pull request and, when the prepared receipt asks
    /// for it, runs `execute` on the request and records what it reports.
    pub fn resolve_tracker_pull_request_link<F: FnOnce(&AutomationTrackerPullRequestLinkRequest) -> AutomationEffectExecution>(
        &self,
        checkpoint: &mut AutomationRootCheckpoint,
        claim_id: &str,
        profile: &AutomationProfile,
        pull_request_url: &str,
        gate_policy: AutomationGatePolicy,
        execute: F,
        stored: &mut Option<StoredRevision>,
    ) -> (r: Result<AutomationEffectReceipt, AutomationRunError>)
        requires
            old(checkpoint).wf(),
            forall|q: &AutomationTrackerPullRequestLinkRequest| #[trigger] execute.requires((q,)),
        ensures
            final(checkpoint).wf(),
            exists|ck: AutomationRootCheckpoint, s: Option<StoredRevision>,
                p: Result<(AutomationEffectReceipt, Option<AutomationTrackerPullRequestLinkRequest>), AutomationRunError>| {
                &&& link_prepared(*old(checkpoint), ck, *old(stored), s, claim_id@, *profile, pull_request_url@, gate_policy, p)
                &&& match p {
                    Err(e) => r == Err::<AutomationEffectReceipt, AutomationRunError>(e) && *final(checkpoint) == ck && *final(stored) == s,
                    Ok((receipt, None)) => r == Ok::<AutomationEffectReceipt, AutomationRunError>(receipt)
                        && *final(checkpoint) == ck && *final(stored) == s,
                    Ok((_, Some(q))) => exists|x: AutomationEffectExecution| #[trigger] execute.ensures((&q,), x)
                        && complete_outcome(ck, *final(checkpoint), s, *final(stored), claim_id@, q.idempotency_key@, x, r),
                }
            },
    {
        let prepared = self.prepare_tracker_pull_request_link(checkpoint, claim_id, profile, pull_request_url, gate_policy, stored);
        let ghost ck = *checkpoint;
        let ghost s = *stored;
        let ghost p = prepared;
        assert(link_prepared(*old(checkpoint), ck, *old(stored), s, claim_id@, *profile, pull_request_url@, gate_policy, p));
        let (receipt, request) = match prepared {
            Ok(x) => x,
            Err(e) => return Err(e),
        };
        let request = match request {
            None => return Ok(receipt),
            Some(q) => q,
        };
        let execution = execute(&request);
        let r = self.complete_tracker_effect(checkpoint, claim_id, request.idempotency_key.as_str(), execution, stored);
        assert(execute.ensures((&request,), execution));
        r
    }
}

/// No two receipts of a claim share an idempotency key.
pub open spec fn receipt_keys_unique(effects: Seq<AutomationEffectReceipt>) -> bool {
    forall|a: int, b: int| 0 <= a < effects.len() && 0 <= b < effects.len() && a != b
        ==> (#[trigger] effects[a]).idempotency_key@ != (#[trigger] effects[b]).idempotency_key@
}

/// Preparing an effect keeps at most one receipt per idempotency key on every
/// claim: a repeated request reuses its receipt, a new one is added once.
pub proof fn lemma_prepare_keeps_one_receipt_per_key(
    old: AutomationRootCheckpoint,
    fin: AutomationRootCheckpoint,
    stored: Option<StoredRevision>,
    stored_fin: Option<StoredRevision>,
    claim_id: Seq<char>,
    profile: AutomationProfile,
    kind: AutomationEffect,
    request: Seq<char>,
    gate: AutomationGatePolicy,
    already_applied: Option<Seq<char>>,
    r: Result<(AutomationEffectReceipt, bool), AutomationRunError>,
)
    requires
        prepare_outcome(old, fin, stored, stored_fin, claim_id, profile, kind, request, gate, already_applied, r),
        forall|j: int| 0 <= j < old.claims@.len() ==> receipt_keys_unique(#[trigger] old.claims@[j].effects@),
    ensures
        forall|j: int| 0 <= j < fin.claims@.len() ==> receipt_keys_unique(#[trigger] fin.claims@[j].effects@),
{
    if effect_authorized(profile, kind) && has_claim(old.claims@, claim_id) {
        let i = claim_pos(old.claims@, claim_id);
        let c = old.claims@[i];
        let key = effect_key(c.profile_digest@, claim_id, kind, request);
        let mid = unsaved(old, fin);
        assert(mid.claims == fin.claims);
        if has_receipt(c.effects@, key) {
            let k0 = choose|k: int| 0 <= k < c.effects@.len() && #[trigger] c.effects@[k].idempotency_key@ == key;
            lemma_first_receipt(c.effects@, key, k0);
            let k = receipt_pos(c.effects@, key);
            let e = c.effects@[k];
            if e.status == AutomationEffectStatus::Executing {
                let n = mid.claims@[i];
                assert forall|j: int| 0 <= j < fin.claims@.len() implies receipt_keys_unique(#[trigger] fin.claims@[j].effects@) by {
                    if j != i {
                        assert(fin.claims@[j] == old.claims@[j]);
                    } else {
                        assert(receipt_keys_unique(c.effects@));
                        assert forall|a: int, b: int| 0 <= a < n.effects@.len() && 0 <= b < n.effects@.len() && a != b
                            implies (#[trigger] n.effects@[a]).idempotency_key@ != (#[trigger] n.effects@[b]).idempotency_key@ by {
                            assert(n.effects@[a].idempotency_key == c.effects@[a].idempotency_key);
                            assert(n.effects@[b].idempotency_key == c.effects@[b].idempotency_key);
                        }
                    }
                }
            }
        } else if c.status == AutomationClaimStatus::Claimed || c.status == AutomationClaimStatus::Running {
            let n = mid.claims@[i];
            assert forall|j: int| 0 <= j < fin.claims@.len() implies receipt_keys_unique(#[trigger] fin.claims@[j].effects@) by {
                if j != i {
                    assert(fin.claims@[j] == old.claims@[j]);
                } else {
                    assert(receipt_keys_unique(c.effects@));
                    let m = c.effects@.len() as int;
                    assert forall|a: int, b: int| 0 <= a < n.effects@.len() && 0 <= b < n.effects@.len() && a != b
                        implies (#[trigger] n.effects@[a]).idempotency_key@ != (#[trigger] n.effects@[b]).idempotency_key@ by {
                        if a < m && b < m {
                            assert(n.effects@[a] == c.effects@[a] && n.effects@[b] == c.effects@[b]);
                        } else if a < m {
                            assert(n.effects@[a] == c.effects@[a]);
                            assert(n.effects@[b].idempotency_key@ == key);
                        } else {
                            assert(n.effects@[b] == c.effects@[b]);
                            assert(n.effects@[a].idempotency_key@ == key);
                        }
                    }
                }
            }
        }
    }
}

} // verus!
