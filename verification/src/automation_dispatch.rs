//! One coordination pass of a run: refresh claims from tracker pages, rebuild the
//! queue, and claim eligible issues within capacity.
use crate::automation::AutomationIssue;
use crate::automation::AutomationProfile;
use crate::automation_claims::claim_id_spec;
use crate::automation_claims::issue_claimed;
use crate::automation_claims::new_claim;
use crate::automation_coordinate::active_count;
use crate::automation_coordinate::active_state_keys;
use crate::automation_coordinate::claim_refreshed;
use crate::automation_coordinate::count_key;
use crate::automation_coordinate::decide;
use crate::automation_coordinate::dispatch_sorted;
use crate::automation_coordinate::eligible_of;
use crate::automation_coordinate::item_for;
use crate::automation_coordinate::obs_issue;
use crate::automation_coordinate::obs_keys;
use crate::automation_coordinate::observations;
use crate::automation_coordinate::plan_upto;
use crate::automation_coordinate::queue_pos;
use crate::automation_coordinate::triage;
use crate::automation_coordinate::triaged_count;
use crate::automation_coordinate::triaged_item;
use crate::automation_coordinate::DispatchDecision;
use crate::automation_run::claim_keys;
use crate::automation_run::claim_pos;
use crate::automation_run::has_claim;
use crate::automation_run::keys_ascending;
use crate::automation_run::queue_keys;
use crate::automation_run::AutomationCoordinationResult;
use crate::automation_run::AutomationIssueClaim;
use crate::automation_run::AutomationQueueStatus;
use crate::automation_run::AutomationRootCheckpoint;
use crate::automation_run::AutomationRunError;
use crate::automation_run::StoredRevision;
use crate::automation_store::is_fresh;
use crate::automation_store::next_revision;
use crate::automation_store::sat_inc_u64;
use crate::automation_store::stale_error;
use crate::automation_store::AutomationRunStore;
use crate::digest::sha256_hex;
use crate::text::ascii_lower_seq;
use crate::text::decimal;
use crate::automation_claims::claim_outcome;
use crate::automation_claims::claim_inserted;
use crate::automation_claims::worktree_spec;
use crate::automation_coordinate::lemma_dispatch_sorted_elems;
use crate::automation_coordinate::lemma_plan_upto_shape;
use crate::automation_coordinate::lemma_refresh_keeps_holders;
use crate::automation_coordinate::lemma_triage_split;
use crate::automation_coordinate::issue_held;
use crate::automation_coordinate::refreshed_state;
use crate::automation_queue::counts_as_tuple;
use crate::automation_queue::counts_spec;
use crate::automation_run::AutomationProfileRevision;
use crate::automation_run::AutomationProfileRevisionStatus;
use crate::keyed::lower_bound;
use crate::automation_coordinate::insert_queue_item;
use crate::automation_coordinate::lemma_triage_same;
use crate::automation_coordinate::observe_issues;
use crate::automation_coordinate::refresh_claims;
use crate::automation_coordinate::sort_by_dispatch;
use crate::automation_coordinate::triage_queue;
use crate::automation_coordinate::count_key_in;
use crate::automation_policy::queue_item;
use crate::automation_policy::state_limit;
use crate::text::push_str;
use crate::text::to_owned_string;
use crate::text::u64_to_string;
use crate::profile_json::profile_digest_spec;
use vstd::prelude::*;

verus! {

/// The revision after `n` saves.
pub open spec fn advance(r: u64, n: nat) -> u64
    decreases n,
{
    if n == 0 { r } else { next_revision(advance(r, (n - 1) as nat)) }
}

/// The profile digest that dispatch runs under: the pending revision's, if any.
pub open spec fn dispatch_digest(ck: AutomationRootCheckpoint) -> Seq<char> {
    match ck.profile_revision.pending_digest {
        Some(d) => d@,
        None => ck.profile_digest@,
    }
}

pub open spec fn dispatch_revision(ck: AutomationRootCheckpoint) -> u64 {
    if ck.profile_revision.pending_digest is Some {
        sat_inc_u64(ck.profile_revision.revision)
    } else {
        ck.profile_revision.revision
    }
}

pub open spec fn coord_obs(issues: Seq<AutomationIssue>) -> Seq<usize> {
    observations(issues, issues.len())
}

/// The eligible positions in dispatch order.
pub open spec fn coord_order(old: AutomationRootCheckpoint, profile: AutomationProfile, issues: Seq<AutomationIssue>) -> Seq<usize> {
    let obs = coord_obs(issues);
    dispatch_sorted(issues, obs, eligible_of(issues, obs, obs.len(), old.claims@, profile))
}

/// The decisions, the state keys taken and the positions dispatched by one pass.
pub open spec fn coord_plan(old: AutomationRootCheckpoint, profile: AutomationProfile, issues: Seq<AutomationIssue>)
    -> (Seq<DispatchDecision>, Seq<Seq<char>>, Seq<usize>) {
    let obs = coord_obs(issues);
    let order = coord_order(old, profile, issues);
    plan_upto(issues, obs, profile, order, active_count(old.claims@), active_state_keys(old.claims@, issues, obs), order.len())
}

pub open spec fn dcid(issues: Seq<AutomationIssue>, obs: Seq<usize>, m: usize, attempt: u32) -> Seq<char> {
    claim_id_spec(obs_issue(issues, obs, m as int).id@, attempt)
}

/// No two dispatched issues share a claim key, and none takes an existing claim's key.
pub open spec fn collision_free(claims: Seq<AutomationIssueClaim>, issues: Seq<AutomationIssue>, obs: Seq<usize>, disp: Seq<usize>, attempt: u32) -> bool {
    &&& forall|t1: int, t2: int| 0 <= t1 < disp.len() && 0 <= t2 < disp.len() && t1 != t2
        ==> dcid(issues, obs, #[trigger] disp[t1], attempt) != dcid(issues, obs, #[trigger] disp[t2], attempt)
    &&& forall|t: int, i: int| 0 <= t < disp.len() && 0 <= i < claims.len()
        ==> (#[trigger] claims[i]).claim_id@ != dcid(issues, obs, #[trigger] disp[t], attempt)
}

pub open spec fn capacity_reason(d: DispatchDecision) -> Seq<char> {
    if d == DispatchDecision::GlobalCapacity { "waiting for global capacity"@ } else { "waiting for state capacity"@ }
}

/// None of the dispatched issues has a claim already (active or not).
pub open spec fn none_claimed(claims: Seq<AutomationIssueClaim>, issues: Seq<AutomationIssue>, obs: Seq<usize>, disp: Seq<usize>) -> bool {
    forall|t: int| 0 <= t < disp.len() ==> !issue_claimed(claims, obs_issue(issues, obs, #[trigger] disp[t] as int).id@)
}


/// The queue item an eligible issue gets when capacity held it back.
pub open spec fn capacity_item(
    issues: Seq<AutomationIssue>,
    obs: Seq<usize>,
    order: Seq<usize>,
    decisions: Seq<DispatchDecision>,
    queue: Seq<crate::automation_run::AutomationQueueItem>,
    j: int,
) -> bool {
    let issue = obs_issue(issues, obs, order[j] as int);
    &&& queue_keys(queue).contains(issue.id@)
    &&& item_for(queue[queue_pos(queue, issue.id@)], issue, AutomationQueueStatus::Queued, capacity_reason(decisions[j]))
}

pub open spec fn triaged_listed(
    profile: AutomationProfile,
    claims: Seq<AutomationIssueClaim>,
    issues: Seq<AutomationIssue>,
    obs: Seq<usize>,
    queue: Seq<crate::automation_run::AutomationQueueItem>,
    m: int,
) -> bool {
    let issue = obs_issue(issues, obs, m);
    let t = triage(profile, claims, issue);
    (t == 1 || t == 2) ==> queue_keys(queue).contains(issue.id@) && triaged_item(profile, claims, issue, queue[queue_pos(queue, issue.id@)])
}

/// The state a successful pass leaves.
pub open spec fn coordination_state(
    old: AutomationRootCheckpoint,
    fin: AutomationRootCheckpoint,
    stored_fin: Option<StoredRevision>,
    profile: AutomationProfile,
    issues: Seq<AutomationIssue>,
    attempt: u32,
    workspace_root: Seq<char>,
    result: AutomationCoordinationResult,
) -> bool {
    let obs = coord_obs(issues);
    let order = coord_order(old, profile, issues);
    let pl = coord_plan(old, profile, issues);
    let disp = pl.2;
    let promoted = disp.len() > 0 && old.profile_revision.pending_digest is Some;
    &&& fin == (AutomationRootCheckpoint {
        claims: fin.claims,
        queue: fin.queue,
        profile_digest: fin.profile_digest,
        profile_revision: fin.profile_revision,
        revision: fin.revision,
        next_action: fin.next_action,
        ..old
    })
    &&& fin.revision == advance(old.revision, disp.len() + 1)
    &&& stored_fin == Some(StoredRevision { lease_epoch: old.lease_epoch, revision: fin.revision })
    &&& if promoted {
        &&& fin.profile_digest@ == dispatch_digest(old)
        &&& fin.profile_revision.revision == dispatch_revision(old)
        &&& fin.profile_revision.status == AutomationProfileRevisionStatus::Active
        &&& fin.profile_revision.pending_digest is None
        &&& fin.profile_revision.rejected_digest is None
        &&& fin.profile_revision.diagnostics@.len() == 0
    } else {
        fin.profile_digest == old.profile_digest && fin.profile_revision == old.profile_revision
    }
    &&& fin.next_action@ == if disp.len() == 0 {
        "queue reconciled; wait for eligible capacity or tracker changes"@
    } else {
        "start "@ + decimal(disp.len()) + " deterministically selected claim(s)"@
    }
    &&& result.dispatched_claim_ids@.len() == disp.len()
    &&& forall|t: int| 0 <= t < disp.len() ==> (#[trigger] result.dispatched_claim_ids@[t])@ == dcid(issues, obs, disp[t], attempt)
    &&& counts_as_tuple(result.counts) == counts_spec(fin)
    // the queue: terminal and blocked issues, and eligible issues held back by capacity
    &&& fin.queue@.len() == triaged_count(profile, old.claims@, issues, obs, obs.len()) + (order.len() - disp.len())
    &&& forall|m: int| 0 <= m < obs.len() ==> #[trigger] triaged_listed(profile, old.claims@, issues, obs, fin.queue@, m)
    &&& forall|j: int| 0 <= j < order.len() && pl.0[j] != DispatchDecision::Dispatch
        ==> #[trigger] capacity_item(issues, obs, order, pl.0, fin.queue@, j)
    &&& fin.claims@.len() <= old.claims@.len() + disp.len()
}

/// The claims a successful pass leaves when its new claim keys are all distinct
/// and new: every claim refreshed, and one new claim per dispatched issue.
pub open spec fn coordination_claims(
    old: AutomationRootCheckpoint,
    fin: AutomationRootCheckpoint,
    profile: AutomationProfile,
    issues: Seq<AutomationIssue>,
    attempt: u32,
    workspace_root: Seq<char>,
) -> bool {
    let obs = coord_obs(issues);
    let disp = coord_plan(old, profile, issues).2;
    &&& fin.claims@.len() == old.claims@.len() + disp.len()
    &&& forall|i: int| 0 <= i < old.claims@.len() ==> has_claim(fin.claims@, (#[trigger] old.claims@[i]).claim_id@)
        && claim_refreshed(old.claims@[i], fin.claims@[claim_pos(fin.claims@, old.claims@[i].claim_id@)], issues, obs, profile)
    &&& forall|t: int| 0 <= t < disp.len() ==> has_claim(fin.claims@, dcid(issues, obs, #[trigger] disp[t], attempt))
        && new_claim(fin.claims@[claim_pos(fin.claims@, dcid(issues, obs, disp[t], attempt))], obs_issue(issues, obs, disp[t] as int),
            attempt, dispatch_digest(old), dispatch_revision(old), old.source_revision, workspace_root)
    // and there are no others
    &&& forall|j: int| 0 <= j < fin.claims@.len() ==> #[trigger] claim_source(old.claims@, issues, obs, disp, attempt, profile, fin.claims@[j])
}

/// A claim after a pass is an earlier claim refreshed, or the new claim of a dispatched issue.
pub open spec fn claim_source(
    claims: Seq<AutomationIssueClaim>,
    issues: Seq<AutomationIssue>,
    obs: Seq<usize>,
    disp: Seq<usize>,
    attempt: u32,
    profile: AutomationProfile,
    c: AutomationIssueClaim,
) -> bool {
    ||| exists|i: int| 0 <= i < claims.len() && claim_refreshed(#[trigger] claims[i], c, issues, obs, profile)
    ||| exists|t: int| 0 <= t < disp.len() && c.claim_id@ == dcid(issues, obs, #[trigger] disp[t], attempt)
        && c.issue_id@ == obs_issue(issues, obs, disp[t] as int).id@
}

/// What one coordination pass does, for every input.
pub open spec fn coordinated(
    old: AutomationRootCheckpoint,
    fin: AutomationRootCheckpoint,
    stored: Option<StoredRevision>,
    stored_fin: Option<StoredRevision>,
    profile: AutomationProfile,
    issues: Seq<AutomationIssue>,
    attempt: u32,
    workspace_root: Seq<char>,
    r: Result<AutomationCoordinationResult, AutomationRunError>,
) -> bool {
    if profile_digest_spec(profile) is None {
        fin == old && stored_fin == stored && (r matches Err(e) && e is Storage)
    } else if profile_digest_spec(profile) != Some(dispatch_digest(old)) {
        fin == old && stored_fin == stored && (r matches Err(e) && e is ProfileDigestMismatch)
    } else {
        let obs = coord_obs(issues);
        let disp = coord_plan(old, profile, issues).2;
        &&& (r matches Err(e) ==> stale_error(e, stored, old.lease_epoch, old.revision) || e is DuplicateIssue)
        &&& (r is Ok ==> is_fresh(stored, old.lease_epoch, old.revision))
        &&& (r matches Ok(res) ==> coordination_state(old, fin, stored_fin, profile, issues, attempt, workspace_root, res))
        // A new claim key that repeats another overwrites that claim, as a keyed
        // insert does; the claims are stated in full when the keys are distinct.
        &&& (collision_free(old.claims@, issues, obs, disp, attempt) ==> {
            &&& (r is Ok <==> (is_fresh(stored, old.lease_epoch, old.revision) && none_claimed(old.claims@, issues, obs, disp)))
            &&& (r is Ok ==> coordination_claims(old, fin, profile, issues, attempt, workspace_root))
        })
    }
}


/// The lowercased states of the active claims, as they stand.
pub open spec fn active_keys_of(claims: Seq<AutomationIssueClaim>) -> Seq<Seq<char>>
    decreases claims.len(),
{
    if claims.len() == 0 {
        Seq::empty()
    } else {
        let rest = active_keys_of(claims.drop_last());
        if crate::automation_run::claim_is_active_spec(claims.last().status) {
            rest.push(ascii_lower_seq(claims.last().tracker_state@))
        } else {
            rest
        }
    }
}

proof fn lemma_refreshed_base(
    old: Seq<AutomationIssueClaim>,
    new: Seq<AutomationIssueClaim>,
    issues: Seq<AutomationIssue>,
    obs: Seq<usize>,
)
    requires
        new.len() == old.len(),
        forall|i: int| 0 <= i < old.len() ==> (#[trigger] new[i]).status == old[i].status
            && new[i].tracker_state@ == refreshed_state(old[i], issues, obs),
    ensures
        active_keys_of(new) == active_state_keys(old, issues, obs),
        active_count(new) == active_count(old),
        active_count(old) <= old.len(),
        active_keys_of(new).len() == active_count(old),
    decreases old.len(),
{
    if old.len() > 0 {
        assert(new.last() == new[new.len() - 1]);
        assert(new.last().status == old.last().status);
        lemma_refreshed_base(old.drop_last(), new.drop_last(), issues, obs);
    }
}

fn active_base(claims: &Vec<AutomationIssueClaim>) -> (r: (u64, Vec<String>))
    requires
        claims@.len() <= u32::MAX,
    ensures
        r.0 == active_count(claims@),
        r.1@.map_values(|s: String| s@) == active_keys_of(claims@),
{
    let mut total: u64 = 0;
    let mut keys: Vec<String> = Vec::new();
    let mut i: usize = 0;
    while i < claims.len()
        invariant
            i <= claims@.len(),
            claims@.len() <= u32::MAX,
            total == active_count(claims@.take(i as int)),
            total <= i,
            keys@.map_values(|s: String| s@) == active_keys_of(claims@.take(i as int)),
        decreases claims.len() - i,
    {
        proof {
            assert(claims@.take(i + 1).drop_last() =~= claims@.take(i as int));
            assert(claims@.take(i + 1).last() == claims@[i as int]);
        }
        if crate::automation_run::claim_is_active(claims[i].status) {
            total = total + 1;
            let ghost before = keys@;
            keys.push(crate::text::to_ascii_lowercase(claims[i].tracker_state.as_str()));
            proof {
                assert(keys@.map_values(|s: String| s@) =~= before.map_values(|s: String| s@).push(ascii_lower_seq(claims@[i as int].tracker_state@)));
            }
        }
        i = i + 1;
    }
    proof {
        assert(claims@.take(claims@.len() as int) =~= claims@);
    }
    (total, keys)
}

pub proof fn lemma_eligible_elems(
    issues: Seq<AutomationIssue>,
    obs: Seq<usize>,
    n: nat,
    claims: Seq<AutomationIssueClaim>,
    profile: AutomationProfile,
)
    requires
        n <= usize::MAX,
    ensures
        forall|y: usize| #[trigger] eligible_of(issues, obs, n, claims, profile).contains(y)
            ==> y < n && triage(profile, claims, obs_issue(issues, obs, y as int)) == 3,
    decreases n,
{
    if n > 0 {
        lemma_eligible_elems(issues, obs, (n - 1) as nat, claims, profile);
        let rest = eligible_of(issues, obs, (n - 1) as nat, claims, profile);
        assert forall|y: usize| #[trigger] eligible_of(issues, obs, n, claims, profile).contains(y)
            implies y < n && triage(profile, claims, obs_issue(issues, obs, y as int)) == 3 by {
            let e = eligible_of(issues, obs, n, claims, profile);
            let j = choose|j: int| 0 <= j < e.len() && e[j] == y;
            if j < rest.len() {
                assert(rest[j] == y);
                assert(rest.contains(y));
            } else {
                assert(y == (n - 1) as usize);
            }
        }
    }
}

/// Distinct observation positions hold distinct issue ids.
pub proof fn lemma_obs_ids_distinct(issues: Seq<AutomationIssue>, obs: Seq<usize>, a: int, b: int)
    requires
        keys_ascending(obs_keys(issues, obs)),
        0 <= a < obs.len(),
        0 <= b < obs.len(),
        obs_issue(issues, obs, a).id@ == obs_issue(issues, obs, b).id@,
    ensures
        a == b,
{
    let keys = obs_keys(issues, obs);
    assert(keys[a] == keys[b]);
    crate::automation_run::lemma_keys_unique(keys, a, b);
}


/// Where a listed queue item comes from: a terminal or blocked issue, or an
/// eligible issue that capacity held back among the first `k` decided.
pub open spec fn queue_origin(
    profile: AutomationProfile,
    claims: Seq<AutomationIssueClaim>,
    issues: Seq<AutomationIssue>,
    obs: Seq<usize>,
    order: Seq<usize>,
    decisions: Seq<DispatchDecision>,
    k: int,
    id: Seq<char>,
) -> bool {
    ||| exists|m: int| 0 <= m < obs.len() && (triage(profile, claims, obs_issue(issues, obs, m)) == 1
        || triage(profile, claims, obs_issue(issues, obs, m)) == 2) && #[trigger] obs_issue(issues, obs, m).id@ == id
    ||| exists|j: int| 0 <= j < k && decisions[j] != DispatchDecision::Dispatch
        && #[trigger] obs_issue(issues, obs, order[j] as int).id@ == id
}

/// Where a claim comes from: a refreshed claim, or a claim of a dispatched issue.
pub open spec fn claim_origin(
    b: Seq<AutomationIssueClaim>,
    issues: Seq<AutomationIssue>,
    obs: Seq<usize>,
    disp: Seq<usize>,
    attempt: u32,
    c: AutomationIssueClaim,
) -> bool {
    ||| exists|i: int| 0 <= i < b.len() && c == #[trigger] b[i]
    ||| exists|t: int| 0 <= t < disp.len() && c.claim_id@ == dcid(issues, obs, #[trigger] disp[t], attempt)
        && c.issue_id@ == obs_issue(issues, obs, disp[t] as int).id@
}

/// The claims after dispatching `disp`: the refreshed claims and one new claim each.
pub open spec fn claims_progress(
    claims: Seq<AutomationIssueClaim>,
    b: Seq<AutomationIssueClaim>,
    issues: Seq<AutomationIssue>,
    obs: Seq<usize>,
    disp: Seq<usize>,
    attempt: u32,
    digest: Seq<char>,
    drev: u64,
    source_revision: String,
    root: Seq<char>,
) -> bool {
    &&& claims.len() == b.len() + disp.len()
    &&& forall|i: int| 0 <= i < b.len() ==> has_claim(claims, (#[trigger] b[i]).claim_id@)
        && claims[claim_pos(claims, b[i].claim_id@)] == b[i]
    &&& forall|t: int| 0 <= t < disp.len() ==> has_claim(claims, dcid(issues, obs, #[trigger] disp[t], attempt))
        && new_claim(claims[claim_pos(claims, dcid(issues, obs, disp[t], attempt))], obs_issue(issues, obs, disp[t] as int),
            attempt, digest, drev, source_revision, root)
    &&& forall|j: int| 0 <= j < claims.len() ==> claim_origin(b, issues, obs, disp, attempt, #[trigger] claims[j])
}

proof fn lemma_collision_free_prefix(
    claims: Seq<AutomationIssueClaim>,
    issues: Seq<AutomationIssue>,
    obs: Seq<usize>,
    full: Seq<usize>,
    n: int,
    attempt: u32,
)
    requires
        collision_free(claims, issues, obs, full, attempt),
        0 <= n <= full.len(),
    ensures
        collision_free(claims, issues, obs, full.take(n), attempt),
{
    let pre = full.take(n);
    assert forall|t1: int, t2: int| 0 <= t1 < pre.len() && 0 <= t2 < pre.len() && t1 != t2
        implies dcid(issues, obs, #[trigger] pre[t1], attempt) != dcid(issues, obs, #[trigger] pre[t2], attempt) by {
        assert(pre[t1] == full[t1] && pre[t2] == full[t2]);
    }
    assert forall|t: int, i: int| 0 <= t < pre.len() && 0 <= i < claims.len()
        implies (#[trigger] claims[i]).claim_id@ != dcid(issues, obs, #[trigger] pre[t], attempt) by {
        assert(pre[t] == full[t]);
    }
}

/// Earlier decisions stay as they were: the plan of a prefix is a prefix of the plan.
proof fn lemma_plan_prefix(
    issues: Seq<AutomationIssue>,
    obs: Seq<usize>,
    profile: AutomationProfile,
    order: Seq<usize>,
    base_total: nat,
    base_keys: Seq<Seq<char>>,
    k: nat,
    n: nat,
)
    requires
        k <= n,
    ensures
        ({
            let pk = plan_upto(issues, obs, profile, order, base_total, base_keys, k);
            let pn = plan_upto(issues, obs, profile, order, base_total, base_keys, n);
            &&& pk.0 == pn.0.take(k as int)
            &&& pk.2.len() <= pn.2.len()
            &&& pk.2 == pn.2.take(pk.2.len() as int)
        }),
    decreases n,
{
    lemma_plan_upto_shape(issues, obs, profile, order, base_total, base_keys, n);
    lemma_plan_upto_shape(issues, obs, profile, order, base_total, base_keys, k);
    if k < n {
        lemma_plan_prefix(issues, obs, profile, order, base_total, base_keys, k, (n - 1) as nat);
        lemma_plan_upto_shape(issues, obs, profile, order, base_total, base_keys, (n - 1) as nat);
        let pm = plan_upto(issues, obs, profile, order, base_total, base_keys, (n - 1) as nat);
        let pn = plan_upto(issues, obs, profile, order, base_total, base_keys, n);
        assert(pn.0.take((n - 1) as int) =~= pm.0);
        assert(pn.0.take(k as int) =~= pm.0.take(k as int));
        assert(pn.2.take(pm.2.len() as int) =~= pm.2);
        let pk = plan_upto(issues, obs, profile, order, base_total, base_keys, k);
        assert(pn.2.take(pk.2.len() as int) =~= pm.2.take(pk.2.len() as int));
    } else {
        let pn = plan_upto(issues, obs, profile, order, base_total, base_keys, n);
        assert(pn.0.take(k as int) =~= pn.0);
        assert(pn.2.take(pn.2.len() as int) =~= pn.2);
    }
}

/// The dispatched positions are among the first `k` of the order.
proof fn lemma_plan_from_order(
    issues: Seq<AutomationIssue>,
    obs: Seq<usize>,
    profile: AutomationProfile,
    order: Seq<usize>,
    base_total: nat,
    base_keys: Seq<Seq<char>>,
    k: nat,
)
    requires
        k <= order.len(),
    ensures
        forall|t: int| 0 <= t < plan_upto(issues, obs, profile, order, base_total, base_keys, k).2.len() ==> exists|j: int| 0 <= j < k
            && order[j] == #[trigger] plan_upto(issues, obs, profile, order, base_total, base_keys, k).2[t],
    decreases k,
{
    if k > 0 {
        lemma_plan_from_order(issues, obs, profile, order, base_total, base_keys, (k - 1) as nat);
        let prev = plan_upto(issues, obs, profile, order, base_total, base_keys, (k - 1) as nat);
        let cur = plan_upto(issues, obs, profile, order, base_total, base_keys, k);
        assert forall|t: int| 0 <= t < cur.2.len() implies exists|j: int| 0 <= j < k && order[j] == #[trigger] cur.2[t] by {
            if t < prev.2.len() {
                assert(cur.2[t] == prev.2[t]);
                let j = choose|j: int| 0 <= j < k - 1 && order[j] == #[trigger] prev.2[t];
            } else {
                assert(cur.2[t] == order[k - 1]);
            }
        }
    }
}


/// A dispatched issue's claim key is new, when keys do not collide.
proof fn lemma_new_key_absent(
    claims: Seq<AutomationIssueClaim>,
    b: Seq<AutomationIssueClaim>,
    oc: Seq<AutomationIssueClaim>,
    issues: Seq<AutomationIssue>,
    obs: Seq<usize>,
    disp: Seq<usize>,
    m: usize,
    attempt: u32,
    digest: Seq<char>,
    drev: u64,
    source_revision: String,
    root: Seq<char>,
)
    requires
        claims_progress(claims, b, issues, obs, disp, attempt, digest, drev, source_revision, root),
        b.len() == oc.len(),
        forall|i: int| 0 <= i < b.len() ==> (#[trigger] b[i]).claim_id == oc[i].claim_id,
        collision_free(oc, issues, obs, disp.push(m), attempt),
    ensures
        !claim_keys(claims).contains(dcid(issues, obs, m, attempt)),
{
    let key = dcid(issues, obs, m, attempt);
    let d2 = disp.push(m);
    if claim_keys(claims).contains(key) {
        let j = choose|j: int| 0 <= j < claim_keys(claims).len() && claim_keys(claims)[j] == key;
        assert(claims[j].claim_id@ == key);
        assert(claim_origin(b, issues, obs, disp, attempt, claims[j]));
        if exists|i: int| 0 <= i < b.len() && claims[j] == #[trigger] b[i] {
            let i = choose|i: int| 0 <= i < b.len() && claims[j] == #[trigger] b[i];
            assert(oc[i].claim_id@ == key);
            assert(d2[disp.len() as int] == m);
            assert(oc[i].claim_id@ != dcid(issues, obs, d2[disp.len() as int], attempt));
        } else {
            let t = choose|t: int| 0 <= t < disp.len() && claims[j].claim_id@ == dcid(issues, obs, #[trigger] disp[t], attempt)
                && claims[j].issue_id@ == obs_issue(issues, obs, disp[t] as int).id@;
            assert(d2[t] == disp[t]);
            assert(d2[disp.len() as int] == m);
            assert(dcid(issues, obs, d2[t], attempt) != dcid(issues, obs, d2[disp.len() as int], attempt));
        }
    }
}

/// Whether the issue of `m` is claimed is not changed by the claims dispatched so far.
proof fn lemma_claimed_same(
    claims: Seq<AutomationIssueClaim>,
    b: Seq<AutomationIssueClaim>,
    oc: Seq<AutomationIssueClaim>,
    issues: Seq<AutomationIssue>,
    obs: Seq<usize>,
    disp: Seq<usize>,
    m: usize,
    attempt: u32,
    digest: Seq<char>,
    drev: u64,
    source_revision: String,
    root: Seq<char>,
)
    requires
        claims_progress(claims, b, issues, obs, disp, attempt, digest, drev, source_revision, root),
        b.len() == oc.len(),
        forall|i: int| 0 <= i < b.len() ==> (#[trigger] b[i]).issue_id == oc[i].issue_id,
        forall|t: int| 0 <= t < disp.len() ==> obs_issue(issues, obs, #[trigger] disp[t] as int).id@ != obs_issue(issues, obs, m as int).id@,
    ensures
        issue_claimed(claims, obs_issue(issues, obs, m as int).id@) == issue_claimed(oc, obs_issue(issues, obs, m as int).id@),
{
    let id = obs_issue(issues, obs, m as int).id@;
    if issue_claimed(claims, id) {
        let j = choose|j: int| 0 <= j < claims.len() && #[trigger] claims[j].issue_id@ == id;
        assert(claim_origin(b, issues, obs, disp, attempt, claims[j]));
        if exists|i: int| 0 <= i < b.len() && claims[j] == #[trigger] b[i] {
            let i = choose|i: int| 0 <= i < b.len() && claims[j] == #[trigger] b[i];
            assert(oc[i].issue_id@ == id);
        } else {
            let t = choose|t: int| 0 <= t < disp.len() && claims[j].claim_id@ == dcid(issues, obs, #[trigger] disp[t], attempt)
                && claims[j].issue_id@ == obs_issue(issues, obs, disp[t] as int).id@;
            assert(false);
        }
    }
    if issue_claimed(oc, id) {
        let i = choose|i: int| 0 <= i < oc.len() && #[trigger] oc[i].issue_id@ == id;
        assert(b[i].issue_id@ == id);
        assert(has_claim(claims, b[i].claim_id@));
        let p = claim_pos(claims, b[i].claim_id@);
        assert(claims[p] == b[i]);
        assert(claims[p].issue_id@ == id);
    }
}

/// One more dispatched claim, inserted at its key's place.
proof fn lemma_claims_step(
    claims: Seq<AutomationIssueClaim>,
    next: Seq<AutomationIssueClaim>,
    c: AutomationIssueClaim,
    b: Seq<AutomationIssueClaim>,
    issues: Seq<AutomationIssue>,
    obs: Seq<usize>,
    disp: Seq<usize>,
    m: usize,
    attempt: u32,
    digest: Seq<char>,
    drev: u64,
    source_revision: String,
    root: Seq<char>,
)
    requires
        claims_progress(claims, b, issues, obs, disp, attempt, digest, drev, source_revision, root),
        keys_ascending(claim_keys(claims)),
        keys_ascending(claim_keys(next)),
        !claim_keys(claims).contains(c.claim_id@),
        next == claims.insert(lower_bound(claim_keys(claims), c.claim_id@), c),
        0 <= lower_bound(claim_keys(claims), c.claim_id@) <= claims.len(),
        c.claim_id@ == dcid(issues, obs, m, attempt),
        new_claim(c, obs_issue(issues, obs, m as int), attempt, digest, drev, source_revision, root),
    ensures
        claims_progress(next, b, issues, obs, disp.push(m), attempt, digest, drev, source_revision, root),
{
    let p = lower_bound(claim_keys(claims), c.claim_id@);
    let d2 = disp.push(m);
    assert forall|i: int| 0 <= i < b.len() implies has_claim(next, (#[trigger] b[i]).claim_id@)
        && next[claim_pos(next, b[i].claim_id@)] == b[i] by {
        let x = claim_pos(claims, b[i].claim_id@);
        let y = if x < p { x } else { x + 1 };
        assert(next[y] == claims[x]);
        crate::automation_run::lemma_claim_pos(next, y);
    }
    assert forall|t: int| 0 <= t < d2.len() implies has_claim(next, dcid(issues, obs, #[trigger] d2[t], attempt))
        && new_claim(next[claim_pos(next, dcid(issues, obs, d2[t], attempt))], obs_issue(issues, obs, d2[t] as int),
            attempt, digest, drev, source_revision, root) by {
        if t < disp.len() {
            assert(d2[t] == disp[t]);
            let x = claim_pos(claims, dcid(issues, obs, disp[t], attempt));
            let y = if x < p { x } else { x + 1 };
            assert(next[y] == claims[x]);
            crate::automation_run::lemma_claim_pos(next, y);
        } else {
            assert(next[p] == c);
            crate::automation_run::lemma_claim_pos(next, p);
        }
    }
    assert forall|j: int| 0 <= j < next.len() implies claim_origin(b, issues, obs, d2, attempt, #[trigger] next[j]) by {
        if j == p {
            assert(d2[disp.len() as int] == m);
            assert(next[j].claim_id@ == dcid(issues, obs, d2[disp.len() as int], attempt));
        } else {
            let x = if j < p { j } else { j - 1 };
            assert(next[j] == claims[x]);
            assert(claim_origin(b, issues, obs, disp, attempt, claims[x]));
            if exists|t: int| 0 <= t < disp.len() && claims[x].claim_id@ == dcid(issues, obs, #[trigger] disp[t], attempt)
                && claims[x].issue_id@ == obs_issue(issues, obs, disp[t] as int).id@ {
                let t = choose|t: int| 0 <= t < disp.len() && claims[x].claim_id@ == dcid(issues, obs, #[trigger] disp[t], attempt)
                    && claims[x].issue_id@ == obs_issue(issues, obs, disp[t] as int).id@;
                assert(d2[t] == disp[t]);
            }
        }
    }
}


/// Inserting an item with a new key keeps every listed item where its key finds it.
proof fn lemma_queue_insert_keeps(
    old: Seq<crate::automation_run::AutomationQueueItem>,
    new: Seq<crate::automation_run::AutomationQueueItem>,
    item: crate::automation_run::AutomationQueueItem,
)
    requires
        keys_ascending(queue_keys(old)),
        keys_ascending(queue_keys(new)),
        !queue_keys(old).contains(item.issue_id@),
        0 <= lower_bound(queue_keys(old), item.issue_id@) <= old.len(),
        new == old.insert(lower_bound(queue_keys(old), item.issue_id@), item),
    ensures
        forall|id: Seq<char>| #[trigger] queue_keys(old).contains(id) ==> queue_keys(new).contains(id)
            && new[queue_pos(new, id)] == old[queue_pos(old, id)],
        queue_keys(new).contains(item.issue_id@),
        new[queue_pos(new, item.issue_id@)] == item,
        forall|q: int| 0 <= q < new.len() ==> (#[trigger] new[q]).issue_id@ == item.issue_id@
            || queue_keys(old).contains(new[q].issue_id@),
{
    let p = lower_bound(queue_keys(old), item.issue_id@);
    assert forall|id: Seq<char>| #[trigger] queue_keys(old).contains(id) implies queue_keys(new).contains(id)
        && new[queue_pos(new, id)] == old[queue_pos(old, id)] by {
        let x = choose|x: int| 0 <= x < queue_keys(old).len() && queue_keys(old)[x] == id;
        let y = if x < p { x } else { x + 1 };
        assert(new[y] == old[x]);
        assert(queue_keys(new)[y] == id);
        let a = queue_pos(old, id);
        assert(old[x].issue_id@ == id);
        assert(queue_keys(old)[a] == queue_keys(old)[x]);
        crate::automation_run::lemma_keys_unique(queue_keys(old), a, x);
        let c = queue_pos(new, id);
        assert(new[y].issue_id@ == id);
        assert(queue_keys(new)[c] == queue_keys(new)[y]);
        crate::automation_run::lemma_keys_unique(queue_keys(new), c, y);
    }
    assert(new[p] == item);
    assert(queue_keys(new)[p] == item.issue_id@);
    let c = queue_pos(new, item.issue_id@);
    assert(new[p].issue_id@ == item.issue_id@);
    assert(queue_keys(new)[c] == queue_keys(new)[p]);
    crate::automation_run::lemma_keys_unique(queue_keys(new), c, p);
    assert forall|q: int| 0 <= q < new.len() implies (#[trigger] new[q]).issue_id@ == item.issue_id@
        || queue_keys(old).contains(new[q].issue_id@) by {
        if q != p {
            let x = if q < p { q } else { q - 1 };
            assert(new[q] == old[x]);
            assert(queue_keys(old)[x] == new[q].issue_id@);
        }
    }
}

proof fn lemma_progress_start(
    b: Seq<AutomationIssueClaim>,
    issues: Seq<AutomationIssue>,
    obs: Seq<usize>,
    attempt: u32,
    digest: Seq<char>,
    drev: u64,
    source_revision: String,
    root: Seq<char>,
)
    requires
        keys_ascending(claim_keys(b)),
    ensures
        claims_progress(b, b, issues, obs, Seq::empty(), attempt, digest, drev, source_revision, root),
{
    assert forall|i: int| 0 <= i < b.len() implies has_claim(b, (#[trigger] b[i]).claim_id@)
        && b[claim_pos(b, b[i].claim_id@)] == b[i] by {
        crate::automation_run::lemma_claim_pos(b, i);
    }
    assert forall|j: int| 0 <= j < b.len() implies claim_origin(b, issues, obs, Seq::empty(), attempt, #[trigger] b[j]) by {
        assert(b[j] == b[j]);
    }
}

impl AutomationRunStore {
    /// Reconciles tracker pages into a deterministic queue and claims as much
    /// eligible work as the profile permits. The digest of `profile` must be the
    /// dispatch digest; `workspace_root` is the run's workspace root, resolved. A saturated state is skipped, so
    /// capacity in another state stays usable.
    #[verifier::rlimit(100)]
    pub fn coordinate_fixture(
        &self,
        checkpoint: &mut AutomationRootCheckpoint,
        profile: &AutomationProfile,
        issues: &[AutomationIssue],
        attempt: u32,
        workspace_root: &str,
        stored: &mut Option<StoredRevision>,
    ) -> (r: Result<AutomationCoordinationResult, AutomationRunError>)
        requires
            old(checkpoint).wf(),
            old(checkpoint).claims@.len() + issues@.len() <= u32::MAX,
        ensures
            final(checkpoint).wf(),
            coordinated(*old(checkpoint), *final(checkpoint), *old(stored), *final(stored), *profile, issues@, attempt,
                workspace_root@, r),
    {
        let canonical = match crate::profile_json::profile_digest(profile) {
            Ok(d) => d,
            Err(e) => {
                return Err(AutomationRunError::Storage(e.message));
            },
        };
        let digest_text = match &checkpoint.profile_revision.pending_digest {
            Some(d) => d.clone(),
            None => checkpoint.profile_digest.clone(),
        };
        if !crate::text::str_eq(canonical.as_str(), digest_text.as_str()) {
            return Err(AutomationRunError::ProfileDigestMismatch);
        }
        let drev = match &checkpoint.profile_revision.pending_digest {
            Some(_) => checkpoint.profile_revision.revision.saturating_add(1),
            None => checkpoint.profile_revision.revision,
        };
        let ghost old_ck = *checkpoint;
        let ghost oc = old_ck.claims@;
        let obs = observe_issues(issues);
        refresh_claims(&mut checkpoint.claims, issues, &obs, profile);
        let ghost b = checkpoint.claims@;
        proof {
            lemma_refresh_keeps_holders(oc, b, issues@, obs@, *profile);
            assert(claim_keys(b) =~= claim_keys(oc));
            lemma_refreshed_base(oc, b, issues@, obs@);
        }
        let (queue, eligible) = triage_queue(profile, &checkpoint.claims, issues, &obs);
        checkpoint.queue = queue;
        proof {
            lemma_triage_same(b, oc, issues@, obs@, *profile, obs@.len());
            lemma_triage_split(*profile, oc, issues@, obs@, obs@.len());
            lemma_eligible_elems(issues@, obs@, obs@.len(), oc, *profile);
        }
        let order = sort_by_dispatch(issues, &obs, &eligible);
        let ghost ord = order@;
        let ghost bt = active_count(oc);
        let ghost bk = active_state_keys(oc, issues@, obs@);
        let ghost full = plan_upto(issues@, obs@, *profile, ord, bt, bk, ord.len());
        proof {
            lemma_dispatch_sorted_elems(issues@, obs@, eligible@);
            lemma_plan_upto_shape(issues@, obs@, *profile, ord, bt, bk, ord.len());
            assert(obs@ == coord_obs(issues@));
            assert(ord == coord_order(old_ck, *profile, issues@));
        }
        let (base_total, base_keys) = active_base(&checkpoint.claims);
        let mut active_total: u64 = base_total;
        let mut done: Vec<String> = Vec::new();
        let mut ids: Vec<String> = Vec::new();
        let ghost mut pk = plan_upto(issues@, obs@, *profile, ord, bt, bk, 0);
        let mut k: usize = 0;
        proof {
            lemma_plan_prefix(issues@, obs@, *profile, ord, bt, bk, 0, ord.len());
            lemma_progress_start(b, issues@, obs@, attempt, dispatch_digest(old_ck), dispatch_revision(old_ck),
                old_ck.source_revision, workspace_root@);
        }
        while k < order.len()
            invariant
                k <= ord.len(),
                order@ == ord,
                obs@ == coord_obs(issues@),
                obs@.len() <= issues@.len(),
                keys_ascending(obs_keys(issues@, obs@)),
                forall|x: int| 0 <= x < obs@.len() ==> (#[trigger] obs@[x]) < issues@.len(),
                ord == coord_order(old_ck, *profile, issues@),
                ord.no_duplicates(),
                ord.len() == eligible@.len(),
                forall|y: usize| #[trigger] ord.contains(y) ==> y < obs@.len()
                    && triage(*profile, oc, obs_issue(issues@, obs@, y as int)) == 3,
                oc == old_ck.claims@,
                oc.len() + issues@.len() <= u32::MAX,
                b.len() == oc.len(),
                forall|i: int| 0 <= i < oc.len() ==> (#[trigger] b[i]).status == oc[i].status && b[i].issue_id == oc[i].issue_id
                    && b[i].claim_id == oc[i].claim_id,
                forall|i: int| 0 <= i < oc.len() ==> claim_refreshed(#[trigger] oc[i], b[i], issues@, obs@, *profile),
                forall|issue: AutomationIssue| #[trigger] triage(*profile, b, issue) == triage(*profile, oc, issue),
                bt == active_count(oc),
                bt <= oc.len(),
                bk == active_state_keys(oc, issues@, obs@),
                base_total == bt,
                base_keys@.map_values(|s: String| s@) == bk,
                bk.len() == bt,
                digest_text@ == dispatch_digest(old_ck),
                profile_digest_spec(*profile) == Some(dispatch_digest(old_ck)),
                old_ck == *old(checkpoint),
                drev == dispatch_revision(old_ck),
                full == plan_upto(issues@, obs@, *profile, ord, bt, bk, ord.len()),
                full.0.len() == ord.len(),
                pk == plan_upto(issues@, obs@, *profile, ord, bt, bk, k as nat),
                done@.map_values(|s: String| s@) == pk.1,
                ids@.len() == pk.2.len(),
                forall|t: int| 0 <= t < pk.2.len() ==> (#[trigger] ids@[t])@ == dcid(issues@, obs@, pk.2[t], attempt),
                active_total == bt + pk.1.len(),
                pk.1.len() == pk.2.len(),
                pk.2.len() <= k,
                pk.0 == full.0.take(k as int),
                pk.2 == full.2.take(pk.2.len() as int),
                (pk.2.len() == 0 ==> checkpoint.revision == old_ck.revision && *stored == *old(stored)),
                (pk.2.len() > 0 ==> is_fresh(*old(stored), old_ck.lease_epoch, old_ck.revision)
                    && checkpoint.revision == advance(old_ck.revision, pk.2.len())
                    && *stored == Some(StoredRevision { lease_epoch: old_ck.lease_epoch, revision: checkpoint.revision })),
                checkpoint.queue@.len() == triaged_count(*profile, oc, issues@, obs@, obs@.len()) + (k - pk.2.len()),
                forall|j: int| 0 <= j < k && pk.0[j] != DispatchDecision::Dispatch
                    ==> #[trigger] capacity_item(issues@, obs@, ord, pk.0, checkpoint.queue@, j),
                forall|q: int| 0 <= q < checkpoint.queue@.len()
                    ==> queue_origin(*profile, oc, issues@, obs@, ord, pk.0, k as int, #[trigger] checkpoint.queue@[q].issue_id@),
                checkpoint.claims@.len() <= oc.len() + pk.2.len(),
                (collision_free(oc, issues@, obs@, full.2, attempt) ==> {
                    &&& claims_progress(checkpoint.claims@, b, issues@, obs@, pk.2, attempt, dispatch_digest(old_ck),
                        dispatch_revision(old_ck), old_ck.source_revision, workspace_root@)
                    &&& none_claimed(oc, issues@, obs@, pk.2)
                }),
                forall|m: int| 0 <= m < obs@.len() ==> #[trigger] triaged_listed(*profile, oc, issues@, obs@, checkpoint.queue@, m),
                checkpoint.wf(),
                *checkpoint == (AutomationRootCheckpoint {
                    claims: checkpoint.claims,
                    queue: checkpoint.queue,
                    revision: checkpoint.revision,
                    next_action: checkpoint.next_action,
                    ..old_ck
                }),
            decreases ord.len() - k,
        {
            let m = order[k];
            let ghost pk_old = pk;
            proof {
                assert(ord.contains(m)) by {
                    assert(ord[k as int] == m);
                }
                pk = plan_upto(issues@, obs@, *profile, ord, bt, bk, (k + 1) as nat);
                lemma_plan_prefix(issues@, obs@, *profile, ord, bt, bk, (k + 1) as nat, ord.len());
                lemma_plan_upto_shape(issues@, obs@, *profile, ord, bt, bk, (k + 1) as nat);
                lemma_plan_from_order(issues@, obs@, *profile, ord, bt, bk, k as nat);
            }
            let issue = &issues[obs[m]];
            let ghost id = issue.id@;
            proof {
                assert(*issue == obs_issue(issues@, obs@, m as int));
                // the issue is listed nowhere yet
                assert forall|q: int| 0 <= q < checkpoint.queue@.len() implies #[trigger] checkpoint.queue@[q].issue_id@ != id by {
                    assert(queue_origin(*profile, oc, issues@, obs@, ord, pk_old.0, k as int, checkpoint.queue@[q].issue_id@));
                    if checkpoint.queue@[q].issue_id@ == id {
                        if exists|m2: int| 0 <= m2 < obs@.len() && (triage(*profile, oc, obs_issue(issues@, obs@, m2)) == 1
                            || triage(*profile, oc, obs_issue(issues@, obs@, m2)) == 2) && #[trigger] obs_issue(issues@, obs@, m2).id@ == id {
                            let m2 = choose|m2: int| 0 <= m2 < obs@.len() && (triage(*profile, oc, obs_issue(issues@, obs@, m2)) == 1
                                || triage(*profile, oc, obs_issue(issues@, obs@, m2)) == 2) && #[trigger] obs_issue(issues@, obs@, m2).id@ == id;
                            lemma_obs_ids_distinct(issues@, obs@, m2, m as int);
                        } else {
                            let j = choose|j: int| 0 <= j < k && pk_old.0[j] != DispatchDecision::Dispatch
                                && #[trigger] obs_issue(issues@, obs@, ord[j] as int).id@ == id;
                            assert(ord.contains(ord[j])) by {
                                assert(ord[j] == ord[j]);
                            }
                            lemma_obs_ids_distinct(issues@, obs@, ord[j] as int, m as int);
                            assert(ord[j] == ord[k as int]);
                        }
                    }
                }
                assert(!queue_keys(checkpoint.queue@).contains(id)) by {
                    if queue_keys(checkpoint.queue@).contains(id) {
                        let q = choose|q: int| 0 <= q < queue_keys(checkpoint.queue@).len() && queue_keys(checkpoint.queue@)[q] == id;
                        assert(checkpoint.queue@[q].issue_id@ == id);
                    }
                }
            }
            let key = crate::text::to_ascii_lowercase(issue.state.as_str());
            let limit = state_limit(profile, issue.state.as_str());
            let held_back: u8 = if active_total >= profile.agent.max_concurrent_agents as u64 {
                1
            } else {
                let in_state = count_key_in(&base_keys, key.as_str()) + count_key_in(&done, key.as_str());
                match limit {
                    Some(l) => if in_state >= l as u64 { 2 } else { 0 },
                    None => 0,
                }
            };
            proof {
                let d = decide(*profile, *issue, bt + pk_old.1.len(), count_key(bk, key@) + count_key(pk_old.1, key@));
                assert(held_back == 1 <==> d == DispatchDecision::GlobalCapacity);
                assert(held_back == 2 <==> d == DispatchDecision::StateCapacity);
                assert(pk.0 == pk_old.0.push(d));
            }
            if held_back != 0 {
                let ghost before = checkpoint.queue@;
                let item = if held_back == 1 {
                    queue_item(issue, AutomationQueueStatus::Queued, "waiting for global capacity")
                } else {
                    queue_item(issue, AutomationQueueStatus::Queued, "waiting for state capacity")
                };
                let ghost it = item;
                insert_queue_item(&mut checkpoint.queue, item);
                proof {
                    crate::keyed::lemma_lower_bound_len(queue_keys(before), id);
                    lemma_queue_insert_keeps(before, checkpoint.queue@, it);
                    assert(pk.2 == pk_old.2);
                    assert(pk.1 == pk_old.1);
                    assert forall|j: int| 0 <= j < k + 1 && pk.0[j] != DispatchDecision::Dispatch
                        implies #[trigger] capacity_item(issues@, obs@, ord, pk.0, checkpoint.queue@, j) by {
                        if j < k {
                            assert(pk.0[j] == pk_old.0[j]);
                            assert(capacity_item(issues@, obs@, ord, pk_old.0, before, j));
                            let jid = obs_issue(issues@, obs@, ord[j] as int).id@;
                            assert(queue_keys(before).contains(jid));
                        } else {
                            assert(ord[j] == m);
                        }
                    }
                    assert forall|q: int| 0 <= q < checkpoint.queue@.len()
                        implies queue_origin(*profile, oc, issues@, obs@, ord, pk.0, (k + 1) as int, #[trigger] checkpoint.queue@[q].issue_id@) by {
                        let qid = checkpoint.queue@[q].issue_id@;
                        if qid == id {
                            assert(obs_issue(issues@, obs@, ord[k as int] as int).id@ == qid);
                        } else {
                            assert(queue_keys(before).contains(qid));
                            let x = choose|x: int| 0 <= x < queue_keys(before).len() && queue_keys(before)[x] == qid;
                            assert(before[x].issue_id@ == qid);
                            assert(queue_origin(*profile, oc, issues@, obs@, ord, pk_old.0, k as int, before[x].issue_id@));
                            if exists|j: int| 0 <= j < k && pk_old.0[j] != DispatchDecision::Dispatch
                                && #[trigger] obs_issue(issues@, obs@, ord[j] as int).id@ == qid {
                                let j = choose|j: int| 0 <= j < k && pk_old.0[j] != DispatchDecision::Dispatch
                                    && #[trigger] obs_issue(issues@, obs@, ord[j] as int).id@ == qid;
                                assert(pk.0[j] == pk_old.0[j]);
                            }
                        }
                    }
                    assert forall|m2: int| 0 <= m2 < obs@.len() implies #[trigger] triaged_listed(*profile, oc, issues@, obs@, checkpoint.queue@, m2) by {
                        assert(triaged_listed(*profile, oc, issues@, obs@, before, m2));
                    }
                }
            } else {
                let ghost before = *checkpoint;
                let ghost stored_before = *stored;
                let res = self.claim_fixture_with_profile(checkpoint, issue, attempt, digest_text.as_str(), drev, workspace_root, stored);
                let id_text = match res {
                    Ok(x) => x,
                    Err(e) => {
                        proof {
                            assert(pk.2 == pk_old.2.push(m));
                            if issue_claimed(before.claims@, id) {
                                if collision_free(oc, issues@, obs@, full.2, attempt) {
                                    assert forall|t: int| 0 <= t < pk_old.2.len() implies obs_issue(issues@, obs@, #[trigger] pk_old.2[t] as int).id@
                                        != obs_issue(issues@, obs@, m as int).id@ by {
                                        let j = choose|j: int| 0 <= j < k && ord[j] == #[trigger] pk_old.2[t];
                                        assert(ord.contains(ord[j])) by {
                                            assert(ord[j] == ord[j]);
                                        }
                                        if obs_issue(issues@, obs@, pk_old.2[t] as int).id@ == obs_issue(issues@, obs@, m as int).id@ {
                                            lemma_obs_ids_distinct(issues@, obs@, pk_old.2[t] as int, m as int);
                                            assert(ord[j] == ord[k as int]);
                                        }
                                    }
                                    lemma_claimed_same(before.claims@, b, oc, issues@, obs@, pk_old.2, m, attempt,
                                        dispatch_digest(old_ck), dispatch_revision(old_ck), old_ck.source_revision, workspace_root@);
                                    assert(pk.2[pk_old.2.len() as int] == m);
                                    assert(pk.2 == full.2.take(pk.2.len() as int));
                                    assert(full.2.take(pk.2.len() as int)[pk_old.2.len() as int] == full.2[pk_old.2.len() as int]);
                                    assert(full.2[pk_old.2.len() as int] == m);
                                    assert(!none_claimed(oc, issues@, obs@, full.2));
                                }
                            } else {
                                if pk_old.2.len() > 0 {
                                    assert(is_fresh(stored_before, before.lease_epoch, before.revision));
                                }
                                assert(stored_before == *old(stored));
                                assert(!is_fresh(*old(stored), old_ck.lease_epoch, old_ck.revision));
                                assert(stale_error(e, *old(stored), old_ck.lease_epoch, old_ck.revision));
                            }
                        }
                        return Err(e);
                    },
                };
                let ghost ids_before = ids@;
                let ghost done_before = done@;
                ids.push(id_text);
                active_total = active_total + 1;
                done.push(key);
                proof {
                    let cid = claim_id_spec(id, attempt);
                    assert(cid == dcid(issues@, obs@, m, attempt));
                    assert(!issue_claimed(before.claims@, id));
                    assert(pk.2 == pk_old.2.push(m));
                    assert(pk.1 == pk_old.1.push(key@));
                    assert(done@.map_values(|s: String| s@) =~= done_before.map_values(|s: String| s@).push(key@));
                    assert forall|t: int| 0 <= t < pk.2.len() implies (#[trigger] ids@[t])@ == dcid(issues@, obs@, pk.2[t], attempt) by {
                        if t < pk_old.2.len() {
                            assert(ids@[t] == ids_before[t]);
                            assert(pk.2[t] == pk_old.2[t]);
                        }
                    }
                    let mid = crate::automation_store::unsaved(before, *checkpoint);
                    let p = lower_bound(claim_keys(before.claims@), cid);
                    crate::keyed::lemma_lower_bound_len(claim_keys(before.claims@), cid);
                    // revision and the durable copy
                    if pk_old.2.len() > 0 {
                        assert(is_fresh(stored_before, before.lease_epoch, before.revision));
                    }
                    assert(advance(old_ck.revision, pk.2.len()) == next_revision(advance(old_ck.revision, pk_old.2.len())));
                    assert(checkpoint.revision == next_revision(before.revision));
                    assert(checkpoint.revision == advance(old_ck.revision, pk.2.len()));
                    // the queue is untouched
                    assert(checkpoint.queue == before.queue);
                    assert(pk.0[k as int] == DispatchDecision::Dispatch);
                    assert forall|j: int| 0 <= j < k + 1 && pk.0[j] != DispatchDecision::Dispatch
                        implies #[trigger] capacity_item(issues@, obs@, ord, pk.0, checkpoint.queue@, j) by {
                        assert(j < k);
                        assert(pk.0[j] == pk_old.0[j]);
                        assert(capacity_item(issues@, obs@, ord, pk_old.0, before.queue@, j));
                    }
                    assert forall|q: int| 0 <= q < checkpoint.queue@.len()
                        implies queue_origin(*profile, oc, issues@, obs@, ord, pk.0, (k + 1) as int, #[trigger] checkpoint.queue@[q].issue_id@) by {
                        let qid = checkpoint.queue@[q].issue_id@;
                        assert(before.queue@[q].issue_id@ == qid);
                        assert(queue_origin(*profile, oc, issues@, obs@, ord, pk_old.0, k as int, qid));
                        if exists|j: int| 0 <= j < k && pk_old.0[j] != DispatchDecision::Dispatch
                            && #[trigger] obs_issue(issues@, obs@, ord[j] as int).id@ == qid {
                            let j = choose|j: int| 0 <= j < k && pk_old.0[j] != DispatchDecision::Dispatch
                                && #[trigger] obs_issue(issues@, obs@, ord[j] as int).id@ == qid;
                            assert(pk.0[j] == pk_old.0[j]);
                        }
                    }
                    // the claims
                    assert(mid.claims == checkpoint.claims);
                    if claim_keys(before.claims@).contains(cid) {
                        crate::automation_coordinate::lemma_lower_bound_found(claim_keys(before.claims@), cid);
                        assert(mid.claims@ == before.claims@.update(p, mid.claims@[p]));
                        assert(checkpoint.claims@.len() == before.claims@.len());
                    } else {
                        assert(mid.claims@ == before.claims@.insert(p, mid.claims@[p]));
                        assert(checkpoint.claims@.len() == before.claims@.len() + 1);
                    }
                    if collision_free(oc, issues@, obs@, full.2, attempt) {
                        assert(pk.2 == full.2.take(pk.2.len() as int));
                        lemma_collision_free_prefix(oc, issues@, obs@, full.2, pk.2.len() as int, attempt);
                        lemma_new_key_absent(before.claims@, b, oc, issues@, obs@, pk_old.2, m, attempt,
                            dispatch_digest(old_ck), dispatch_revision(old_ck), old_ck.source_revision, workspace_root@);
                        lemma_claims_step(before.claims@, checkpoint.claims@, mid.claims@[p], b, issues@, obs@, pk_old.2, m, attempt,
                            dispatch_digest(old_ck), dispatch_revision(old_ck), old_ck.source_revision, workspace_root@);
                        assert forall|t: int| 0 <= t < pk_old.2.len() implies obs_issue(issues@, obs@, #[trigger] pk_old.2[t] as int).id@
                            != obs_issue(issues@, obs@, m as int).id@ by {
                            let j = choose|j: int| 0 <= j < k && ord[j] == #[trigger] pk_old.2[t];
                            assert(ord.contains(ord[j])) by {
                                assert(ord[j] == ord[j]);
                            }
                            if obs_issue(issues@, obs@, pk_old.2[t] as int).id@ == obs_issue(issues@, obs@, m as int).id@ {
                                lemma_obs_ids_distinct(issues@, obs@, pk_old.2[t] as int, m as int);
                                assert(ord[j] == ord[k as int]);
                            }
                        }
                        lemma_claimed_same(before.claims@, b, oc, issues@, obs@, pk_old.2, m, attempt,
                            dispatch_digest(old_ck), dispatch_revision(old_ck), old_ck.source_revision, workspace_root@);
                        assert forall|t: int| 0 <= t < pk.2.len() implies !issue_claimed(oc, obs_issue(issues@, obs@, #[trigger] pk.2[t] as int).id@) by {
                            if t < pk_old.2.len() {
                                assert(pk.2[t] == pk_old.2[t]);
                            }
                        }
                    }
                }
            }
            k = k + 1;
        }
        proof {
            assert(pk == full);
            assert(full.0.take(ord.len() as int) =~= full.0);
        }
        if ids.len() > 0 && checkpoint.profile_revision.pending_digest.is_some() {
            checkpoint.profile_digest = digest_text;
            checkpoint.profile_revision.revision = drev;
            checkpoint.profile_revision.status = AutomationProfileRevisionStatus::Active;
            checkpoint.profile_revision.pending_digest = None;
            checkpoint.profile_revision.rejected_digest = None;
            checkpoint.profile_revision.diagnostics = Vec::new();
        }
        let next = if ids.len() == 0 {
            to_owned_string("queue reconciled; wait for eligible capacity or tracker changes")
        } else {
            let mut n = to_owned_string("start ");
            push_str(&mut n, u64_to_string(ids.len() as u64).as_str());
            push_str(&mut n, " deterministically selected claim(s)");
            n
        };
        checkpoint.next_action = next;
        proof {
            assert(claim_keys(checkpoint.claims@) == claim_keys(checkpoint.claims@));
            if pk.2.len() > 0 {
                assert(is_fresh(*stored, checkpoint.lease_epoch, checkpoint.revision));
            }
            assert(advance(old_ck.revision, pk.2.len() + 1) == next_revision(advance(old_ck.revision, pk.2.len())));
        }
        self.save(checkpoint, stored)?;
        proof {
            lemma_triage_split(*profile, oc, issues@, obs@, obs@.len());
            assert(checkpoint.queue@.len() + checkpoint.claims@.len() <= u32::MAX);
        }
        let counts = crate::automation_queue::automation_queue_counts(checkpoint);
        let result = AutomationCoordinationResult { dispatched_claim_ids: ids, counts };
        proof {
            if collision_free(oc, issues@, obs@, full.2, attempt) {
                let fin = *checkpoint;
                assert forall|i: int| 0 <= i < oc.len() implies has_claim(fin.claims@, (#[trigger] oc[i]).claim_id@)
                    && claim_refreshed(oc[i], fin.claims@[claim_pos(fin.claims@, oc[i].claim_id@)], issues@, obs@, *profile) by {
                    assert(b[i].claim_id == oc[i].claim_id);
                    assert(has_claim(fin.claims@, b[i].claim_id@));
                }
                assert forall|m2: int| 0 <= m2 < obs@.len() implies #[trigger] triaged_listed(*profile, oc, issues@, obs@, fin.queue@, m2) by {
                }
                assert forall|j: int| 0 <= j < fin.claims@.len() implies #[trigger] claim_source(oc, issues@, obs@, full.2, attempt, *profile, fin.claims@[j]) by {
                    assert(claim_origin(b, issues@, obs@, full.2, attempt, fin.claims@[j]));
                    if exists|i: int| 0 <= i < b.len() && fin.claims@[j] == #[trigger] b[i] {
                        let i = choose|i: int| 0 <= i < b.len() && fin.claims@[j] == #[trigger] b[i];
                        assert(claim_refreshed(oc[i], b[i], issues@, obs@, *profile));
                    }
                }
            }
        }
        Ok(result)
    }
}

/// No two claims hold the same issue.
pub open spec fn issues_unique(claims: Seq<AutomationIssueClaim>) -> bool {
    forall|a: int, b: int| 0 <= a < claims.len() && 0 <= b < claims.len() && a != b
        ==> (#[trigger] claims[a]).issue_id@ != (#[trigger] claims[b]).issue_id@
}

/// A successful coordination pass whose new claim keys are distinct and new
/// keeps every issue held by at most one claim.
pub proof fn lemma_coordination_keeps_issues_unique(
    old: AutomationRootCheckpoint,
    fin: AutomationRootCheckpoint,
    profile: AutomationProfile,
    issues: Seq<AutomationIssue>,
    attempt: u32,
    workspace_root: Seq<char>,
)
    requires
        fin.wf(),
        issues_unique(old.claims@),
        collision_free(old.claims@, issues, coord_obs(issues), coord_plan(old, profile, issues).2, attempt),
        none_claimed(old.claims@, issues, coord_obs(issues), coord_plan(old, profile, issues).2),
        coordination_claims(old, fin, profile, issues, attempt, workspace_root),
    ensures
        issues_unique(fin.claims@),
{
    let obs = coord_obs(issues);
    let disp = coord_plan(old, profile, issues).2;
    let oc = old.claims@;
    let fc = fin.claims@;
    assert forall|a: int, b: int| 0 <= a < fc.len() && 0 <= b < fc.len() && a != b
        implies (#[trigger] fc[a]).issue_id@ != (#[trigger] fc[b]).issue_id@ by {
        if fc[a].issue_id@ == fc[b].issue_id@ {
            assert(claim_source(oc, issues, obs, disp, attempt, profile, fc[a]));
            assert(claim_source(oc, issues, obs, disp, attempt, profile, fc[b]));
            // the two keys are the same, so the two positions are
            assert(fc[a].claim_id@ == fc[b].claim_id@) by {
                if exists|i: int| 0 <= i < oc.len() && claim_refreshed(#[trigger] oc[i], fc[a], issues, obs, profile) {
                    let i = choose|i: int| 0 <= i < oc.len() && claim_refreshed(#[trigger] oc[i], fc[a], issues, obs, profile);
                    if exists|k: int| 0 <= k < oc.len() && claim_refreshed(#[trigger] oc[k], fc[b], issues, obs, profile) {
                        let k = choose|k: int| 0 <= k < oc.len() && claim_refreshed(#[trigger] oc[k], fc[b], issues, obs, profile);
                        if i != k {
                            assert(oc[i].issue_id@ != oc[k].issue_id@);
                        }
                    } else {
                        let t = choose|t: int| 0 <= t < disp.len() && fc[b].claim_id@ == dcid(issues, obs, #[trigger] disp[t], attempt)
                            && fc[b].issue_id@ == obs_issue(issues, obs, disp[t] as int).id@;
                        assert(!issue_claimed(oc, obs_issue(issues, obs, disp[t] as int).id@));
                        assert(oc[i].issue_id@ == fc[a].issue_id@);
                    }
                } else {
                    let t = choose|t: int| 0 <= t < disp.len() && fc[a].claim_id@ == dcid(issues, obs, #[trigger] disp[t], attempt)
                        && fc[a].issue_id@ == obs_issue(issues, obs, disp[t] as int).id@;
                    if exists|k: int| 0 <= k < oc.len() && claim_refreshed(#[trigger] oc[k], fc[b], issues, obs, profile) {
                        let k = choose|k: int| 0 <= k < oc.len() && claim_refreshed(#[trigger] oc[k], fc[b], issues, obs, profile);
                        assert(!issue_claimed(oc, obs_issue(issues, obs, disp[t] as int).id@));
                        assert(oc[k].issue_id@ == fc[b].issue_id@);
                    } else {
                        let u = choose|u: int| 0 <= u < disp.len() && fc[b].claim_id@ == dcid(issues, obs, #[trigger] disp[u], attempt)
                            && fc[b].issue_id@ == obs_issue(issues, obs, disp[u] as int).id@;
                        assert(dcid(issues, obs, disp[t], attempt) == dcid(issues, obs, disp[u], attempt));
                    }
                }
            }
            assert(claim_keys(fc)[a] == claim_keys(fc)[b]);
            crate::automation_run::lemma_keys_unique(claim_keys(fc), a, b);
        }
    }
}

/// A coordination pass starts new claims only within capacity: when it starts
/// any, the claims active before it plus those it starts are at most the
/// profile's `max_concurrent_agents`; and for every state with a limit, when it
/// starts any in that state, the claims active there before (by their refreshed
/// state) plus those it starts there are at most that limit.
pub proof fn lemma_coordination_within_capacity(
    old: AutomationRootCheckpoint,
    profile: AutomationProfile,
    issues: Seq<AutomationIssue>,
)
    ensures
        ({
            let pl = coord_plan(old, profile, issues);
            pl.2.len() == 0 || active_count(old.claims@) + pl.2.len() <= profile.agent.max_concurrent_agents
        }),
        forall|state: Seq<char>|
            #![trigger crate::automation_policy::state_limit_from(profile.agent.max_concurrent_agents_by_state@, state)]
            ({
                let limit = crate::automation_policy::state_limit_from(profile.agent.max_concurrent_agents_by_state@, state);
                let pl = coord_plan(old, profile, issues);
                let key = crate::text::ascii_lower_seq(state);
                let before = active_state_keys(old.claims@, issues, coord_obs(issues));
                limit is Some ==> count_key(pl.1, key) == 0 || count_key(before, key) + count_key(pl.1, key) <= limit->0
            }),
{
    let obs = coord_obs(issues);
    let order = coord_order(old, profile, issues);
    let base_total = active_count(old.claims@);
    let base_keys = active_state_keys(old.claims@, issues, obs);
    crate::automation_coordinate::lemma_plan_upto_global_capacity(issues, obs, profile, order, base_total, base_keys, order.len());
    lemma_plan_upto_shape(issues, obs, profile, order, base_total, base_keys, order.len());
    assert forall|state: Seq<char>|
        #![trigger crate::automation_policy::state_limit_from(profile.agent.max_concurrent_agents_by_state@, state)]
        crate::automation_policy::state_limit_from(profile.agent.max_concurrent_agents_by_state@, state) is Some
        implies ({
            let limit = crate::automation_policy::state_limit_from(profile.agent.max_concurrent_agents_by_state@, state);
            let pl = coord_plan(old, profile, issues);
            let key = crate::text::ascii_lower_seq(state);
            count_key(pl.1, key) == 0 || count_key(base_keys, key) + count_key(pl.1, key) <= limit->0
        }) by {
        let limit = crate::automation_policy::state_limit_from(profile.agent.max_concurrent_agents_by_state@, state)->0;
        crate::automation_coordinate::lemma_plan_upto_state_capacity(issues, obs, profile, order, base_total, base_keys, order.len(), state, limit);
    }
}

/// The keys of the active claims.
pub open spec fn active_claim_keys(claims: Seq<AutomationIssueClaim>) -> Set<Seq<char>> {
    Set::new(|k: Seq<char>| exists|i: int| 0 <= i < claims.len()
        && crate::automation_run::claim_is_active_spec(claims[i].status) && #[trigger] claims[i].claim_id@ == k)
}

/// No two claims share a key.
pub open spec fn claim_keys_distinct(claims: Seq<AutomationIssueClaim>) -> bool {
    forall|a: int, b: int| 0 <= a < claims.len() && 0 <= b < claims.len() && a != b
        ==> (#[trigger] claims[a]).claim_id@ != (#[trigger] claims[b]).claim_id@
}

proof fn lemma_wf_keys_distinct(claims: Seq<AutomationIssueClaim>)
    requires
        keys_ascending(claim_keys(claims)),
    ensures
        claim_keys_distinct(claims),
{
    assert forall|a: int, b: int| 0 <= a < claims.len() && 0 <= b < claims.len() && a != b
        implies (#[trigger] claims[a]).claim_id@ != (#[trigger] claims[b]).claim_id@ by {
        if claims[a].claim_id@ == claims[b].claim_id@ {
            assert(claim_keys(claims)[a] == claim_keys(claims)[b]);
            crate::automation_run::lemma_keys_unique(claim_keys(claims), a, b);
        }
    }
}

/// With distinct keys, the active claims are as many as their keys.
proof fn lemma_active_keys_count(claims: Seq<AutomationIssueClaim>)
    requires
        claim_keys_distinct(claims),
    ensures
        active_claim_keys(claims).finite(),
        active_claim_keys(claims).len() == active_count(claims),
    decreases claims.len(),
{
    if claims.len() == 0 {
        assert(active_claim_keys(claims) =~= Set::empty());
    } else {
        let rest = claims.drop_last();
        let n = claims.len() - 1;
        assert forall|a: int, b: int| 0 <= a < rest.len() && 0 <= b < rest.len() && a != b
            implies (#[trigger] rest[a]).claim_id@ != (#[trigger] rest[b]).claim_id@ by {
            assert(rest[a] == claims[a] && rest[b] == claims[b]);
        }
        lemma_active_keys_count(rest);
        let last = claims.last();
        assert(!active_claim_keys(rest).contains(last.claim_id@)) by {
            if active_claim_keys(rest).contains(last.claim_id@) {
                let i = choose|i: int| 0 <= i < rest.len()
                    && crate::automation_run::claim_is_active_spec(rest[i].status) && #[trigger] rest[i].claim_id@ == last.claim_id@;
                assert(rest[i] == claims[i]);
                assert(claims[i].claim_id@ != claims[n].claim_id@);
            }
        }
        if crate::automation_run::claim_is_active_spec(last.status) {
            assert forall|k: Seq<char>| active_claim_keys(claims).contains(k)
                == active_claim_keys(rest).insert(last.claim_id@).contains(k) by {
                if active_claim_keys(claims).contains(k) {
                    let i = choose|i: int| 0 <= i < claims.len()
                        && crate::automation_run::claim_is_active_spec(claims[i].status) && #[trigger] claims[i].claim_id@ == k;
                    if i < n {
                        assert(rest[i] == claims[i]);
                    }
                }
                if active_claim_keys(rest).contains(k) {
                    let i = choose|i: int| 0 <= i < rest.len()
                        && crate::automation_run::claim_is_active_spec(rest[i].status) && #[trigger] rest[i].claim_id@ == k;
                    assert(rest[i] == claims[i]);
                }
                if k == last.claim_id@ {
                    assert(claims[n].claim_id@ == k);
                }
            }
            assert(active_claim_keys(claims) =~= active_claim_keys(rest).insert(last.claim_id@));
        } else {
            assert forall|k: Seq<char>| active_claim_keys(claims).contains(k) == active_claim_keys(rest).contains(k) by {
                if active_claim_keys(claims).contains(k) {
                    let i = choose|i: int| 0 <= i < claims.len()
                        && crate::automation_run::claim_is_active_spec(claims[i].status) && #[trigger] claims[i].claim_id@ == k;
                    if i < n {
                        assert(rest[i] == claims[i]);
                    }
                }
                if active_claim_keys(rest).contains(k) {
                    let i = choose|i: int| 0 <= i < rest.len()
                        && crate::automation_run::claim_is_active_spec(rest[i].status) && #[trigger] rest[i].claim_id@ == k;
                    assert(rest[i] == claims[i]);
                }
            }
            assert(active_claim_keys(claims) =~= active_claim_keys(rest));
        }
    }
}

/// A successful coordination pass whose new claim keys are distinct and new
/// adds one active claim per dispatched issue, so it keeps the active claims
/// within the profile's `max_concurrent_agents` when they were within it.
pub proof fn lemma_coordination_keeps_capacity(
    old: AutomationRootCheckpoint,
    fin: AutomationRootCheckpoint,
    stored: Option<StoredRevision>,
    stored_fin: Option<StoredRevision>,
    profile: AutomationProfile,
    issues: Seq<AutomationIssue>,
    attempt: u32,
    workspace_root: Seq<char>,
    r: Result<AutomationCoordinationResult, AutomationRunError>,
)
    requires
        old.wf(),
        fin.wf(),
        coordinated(old, fin, stored, stored_fin, profile, issues, attempt, workspace_root, r),
        r is Ok,
        collision_free(old.claims@, issues, coord_obs(issues), coord_plan(old, profile, issues).2, attempt),
    ensures
        active_count(fin.claims@) == active_count(old.claims@) + coord_plan(old, profile, issues).2.len(),
        active_count(old.claims@) <= profile.agent.max_concurrent_agents
            ==> active_count(fin.claims@) <= profile.agent.max_concurrent_agents,
{
    let obs = coord_obs(issues);
    let disp = coord_plan(old, profile, issues).2;
    let oc = old.claims@;
    let fc = fin.claims@;
    assert(coordination_claims(old, fin, profile, issues, attempt, workspace_root));
    lemma_wf_keys_distinct(oc);
    lemma_wf_keys_distinct(fc);
    lemma_active_keys_count(oc);
    lemma_active_keys_count(fc);
    let ks = disp.map_values(|m: usize| dcid(issues, obs, m, attempt));
    assert(ks.no_duplicates()) by {
        assert forall|a: int, b: int| 0 <= a < ks.len() && 0 <= b < ks.len() && a != b implies ks[a] != ks[b] by {
            assert(ks[a] == dcid(issues, obs, disp[a], attempt));
            assert(ks[b] == dcid(issues, obs, disp[b], attempt));
        }
    }
    ks.unique_seq_to_set();
    let d = ks.to_set();
    let ko = active_claim_keys(oc);
    let kf = active_claim_keys(fc);
    assert(ko.disjoint(d)) by {
        assert forall|k: Seq<char>| ko.contains(k) implies !d.contains(k) by {
            let i = choose|i: int| 0 <= i < oc.len()
                && crate::automation_run::claim_is_active_spec(oc[i].status) && #[trigger] oc[i].claim_id@ == k;
            if d.contains(k) {
                let t = choose|t: int| 0 <= t < ks.len() && ks[t] == k;
                assert(ks[t] == dcid(issues, obs, disp[t], attempt));
                assert(oc[i].claim_id@ != dcid(issues, obs, disp[t], attempt));
            }
        }
    }
    assert forall|k: Seq<char>| kf.contains(k) == (ko + d).contains(k) by {
        if kf.contains(k) {
            let j = choose|j: int| 0 <= j < fc.len()
                && crate::automation_run::claim_is_active_spec(fc[j].status) && #[trigger] fc[j].claim_id@ == k;
            assert(claim_source(oc, issues, obs, disp, attempt, profile, fc[j]));
            if exists|i: int| 0 <= i < oc.len() && claim_refreshed(#[trigger] oc[i], fc[j], issues, obs, profile) {
                let i = choose|i: int| 0 <= i < oc.len() && claim_refreshed(#[trigger] oc[i], fc[j], issues, obs, profile);
                assert(oc[i].claim_id@ == k);
                assert(ko.contains(k));
            } else {
                let t = choose|t: int| 0 <= t < disp.len() && fc[j].claim_id@ == dcid(issues, obs, #[trigger] disp[t], attempt)
                    && fc[j].issue_id@ == obs_issue(issues, obs, disp[t] as int).id@;
                assert(ks[t] == k);
                assert(d.contains(k));
            }
        }
        if ko.contains(k) {
            let i = choose|i: int| 0 <= i < oc.len()
                && crate::automation_run::claim_is_active_spec(oc[i].status) && #[trigger] oc[i].claim_id@ == k;
            assert(has_claim(fc, oc[i].claim_id@));
            let j = claim_pos(fc, oc[i].claim_id@);
            assert(claim_refreshed(oc[i], fc[j], issues, obs, profile));
            assert(fc[j].claim_id@ == k);
            assert(kf.contains(k));
        }
        if d.contains(k) {
            let t = choose|t: int| 0 <= t < ks.len() && ks[t] == k;
            assert(ks[t] == dcid(issues, obs, disp[t], attempt));
            assert(has_claim(fc, dcid(issues, obs, disp[t], attempt)));
            let j = claim_pos(fc, dcid(issues, obs, disp[t], attempt));
            assert(fc[j].claim_id@ == k);
            assert(kf.contains(k));
        }
    }
    assert(kf =~= ko + d);
    vstd::set_lib::lemma_set_disjoint_lens(ko, d);
    lemma_coordination_within_capacity(old, profile, issues);
}

proof fn lemma_observations_len(issues: Seq<AutomationIssue>, n: nat)
    requires
        n <= usize::MAX,
    ensures
        observations(issues, n).len() <= n,
        keys_ascending(obs_keys(issues, observations(issues, n))),
    decreases n,
{
    if n == 0 {
        assert(obs_keys(issues, observations(issues, n)) =~= Seq::<Seq<char>>::empty());
    } else {
        lemma_observations_len(issues, (n - 1) as nat);
        let prev = observations(issues, (n - 1) as nat);
        let i = (n - 1) as usize;
        let keys = obs_keys(issues, prev);
        let id = issues[i as int].id@;
        let p = crate::keyed::lower_bound(keys, id);
        crate::keyed::lemma_lower_bound(keys, id);
        let next = observations(issues, n);
        assert(next == crate::automation_coordinate::observe_one(issues, prev, i));
        if keys.contains(id) {
            crate::automation_coordinate::lemma_lower_bound_found(keys, id);
            if next != prev {
                assert(next == prev.update(p, i));
                assert(obs_keys(issues, next) =~= keys);
            }
        } else {
            assert(next == prev.insert(p, i));
            crate::keyed::lemma_insert_ascending(keys, id);
            assert(obs_keys(issues, next) =~= keys.insert(p, id));
        }
    }
}

proof fn lemma_eligible_no_duplicates(
    issues: Seq<AutomationIssue>,
    obs: Seq<usize>,
    n: nat,
    claims: Seq<AutomationIssueClaim>,
    profile: AutomationProfile,
)
    requires
        n <= usize::MAX,
    ensures
        eligible_of(issues, obs, n, claims, profile).no_duplicates(),
    decreases n,
{
    if n > 0 {
        lemma_eligible_no_duplicates(issues, obs, (n - 1) as nat, claims, profile);
        lemma_eligible_elems(issues, obs, (n - 1) as nat, claims, profile);
        let rest = eligible_of(issues, obs, (n - 1) as nat, claims, profile);
        let e = eligible_of(issues, obs, n, claims, profile);
        if e != rest {
            assert forall|i: int, j: int| 0 <= i < e.len() && 0 <= j < e.len() && i != j implies e[i] != e[j] by {
                if i < rest.len() && j < rest.len() {
                    assert(e[i] == rest[i] && e[j] == rest[j]);
                } else if i < rest.len() {
                    assert(e[i] == rest[i]);
                    assert(rest.contains(rest[i]));
                } else if j < rest.len() {
                    assert(e[j] == rest[j]);
                    assert(rest.contains(rest[j]));
                }
            }
        }
    }
}

/// A coordination pass dispatches only eligible issues (no active claim holds
/// them, their state is active and not terminal, they carry every required
/// label and have no non-terminal blocker), and dispatches them in dispatch
/// order: by priority (unset or non-positive last), creation time, identifier
/// and id.
pub proof fn lemma_coordination_dispatches_eligible_in_order(
    old: AutomationRootCheckpoint,
    profile: AutomationProfile,
    issues: Seq<AutomationIssue>,
)
    requires
        issues.len() <= usize::MAX,
    ensures
        ({
            let obs = coord_obs(issues);
            let disp = coord_plan(old, profile, issues).2;
            &&& forall|t: int| 0 <= t < disp.len()
                ==> triage(profile, old.claims@, obs_issue(issues, obs, #[trigger] disp[t] as int)) == 3
            &&& forall|t1: int, t2: int| 0 <= t1 < t2 < disp.len()
                ==> crate::automation_policy::dispatch_order(obs_issue(issues, obs, #[trigger] disp[t1] as int),
                    obs_issue(issues, obs, #[trigger] disp[t2] as int)) <= 0
        }),
{
    let obs = coord_obs(issues);
    let order = coord_order(old, profile, issues);
    let e = eligible_of(issues, obs, obs.len(), old.claims@, profile);
    lemma_observations_len(issues, issues.len());
    lemma_eligible_no_duplicates(issues, obs, obs.len(), old.claims@, profile);
    lemma_eligible_elems(issues, obs, obs.len(), old.claims@, profile);
    lemma_dispatch_sorted_elems(issues, obs, e);
    crate::automation_coordinate::lemma_dispatch_sorted_ordered(issues, obs, e);
    let base_total = active_count(old.claims@);
    let base_keys = active_state_keys(old.claims@, issues, obs);
    crate::automation_coordinate::lemma_plan_upto_ordered(issues, obs, profile, order, base_total, base_keys, order.len());
    let disp = coord_plan(old, profile, issues).2;
    assert forall|t: int| 0 <= t < disp.len()
        implies triage(profile, old.claims@, obs_issue(issues, obs, #[trigger] disp[t] as int)) == 3 by {
        let j = choose|j: int| 0 <= j < order.len() && order[j] == #[trigger] disp[t];
        assert(order.contains(disp[t]));
        assert(e.contains(disp[t]));
    }
    assert forall|t1: int, t2: int| 0 <= t1 < t2 < disp.len()
        implies crate::automation_policy::dispatch_order(obs_issue(issues, obs, #[trigger] disp[t1] as int),
            obs_issue(issues, obs, #[trigger] disp[t2] as int)) <= 0 by {
        assert(crate::automation_coordinate::in_dispatch_order(issues, obs, disp));
    }
}

} // verus!
