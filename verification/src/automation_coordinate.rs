//! Coordination of a run with the tracker: one snapshot per issue, the
//! deterministic queue, and dispatch within global and per-state capacity.
use crate::automation::AutomationIssue;
use crate::automation::AutomationProfile;
use crate::automation_policy::dispatch_order;
use crate::automation_policy::observation_order;
use crate::automation_run::keys_ascending;
use crate::automation_run::claim_is_active;
use crate::automation_run::claim_is_active_spec;
use crate::automation_run::AutomationIssueClaim;
use crate::automation_policy::is_active_state_spec;
use crate::automation_policy::is_terminal_state_spec;
use crate::automation_policy::has_nonterminal_blocker_spec;
use crate::automation_policy::state_limit_from;
use crate::text::ascii_lower_seq;
use crate::text::trim_seq;
use crate::automation_run::AutomationQueueItem;
use crate::automation_run::AutomationQueueStatus;
use crate::automation_run::queue_keys;
use crate::automation_policy::is_terminal_state;
use crate::automation_policy::is_active_state;
use crate::automation_policy::has_nonterminal_blocker;
use crate::keyed::queue_slot;
use crate::keyed::lemma_insert_ascending;
use crate::keyed::lemma_lower_bound;
use crate::keyed::lower_bound;
use crate::order::lemma_text_order_eq;
use crate::order::text_order;
use vstd::prelude::*;

verus! {

/// The ids of the observed snapshots.
pub open spec fn obs_keys(issues: Seq<AutomationIssue>, obs: Seq<usize>) -> Seq<Seq<char>> {
    obs.map_values(|k: usize| issues[k as int].id@)
}

/// Takes snapshot `i` into the observations: a new id is inserted at its place; for a
/// known id, the snapshot that orders later by observation order is kept.
pub open spec fn observe_one(issues: Seq<AutomationIssue>, obs: Seq<usize>, i: usize) -> Seq<usize> {
    let keys = obs_keys(issues, obs);
    let id = issues[i as int].id@;
    let p = lower_bound(keys, id);
    if keys.contains(id) {
        if observation_order(issues[i as int], issues[obs[p] as int]) > 0 { obs.update(p, i) } else { obs }
    } else {
        obs.insert(p, i)
    }
}

/// The observations of the first `n` snapshots, ordered by issue id.
pub open spec fn observations(issues: Seq<AutomationIssue>, n: nat) -> Seq<usize>
    decreases n,
{
    if n == 0 {
        Seq::empty()
    } else {
        observe_one(issues, observations(issues, (n - 1) as nat), (n - 1) as usize)
    }
}

/// In ascending keys that hold `key`, the lower bound is where it is.
pub proof fn lemma_lower_bound_found(keys: Seq<Seq<char>>, key: Seq<char>)
    requires
        keys_ascending(keys),
        keys.contains(key),
    ensures
        lower_bound(keys, key) < keys.len(),
        keys[lower_bound(keys, key)] == key,
{
    lemma_lower_bound(keys, key);
    let p = lower_bound(keys, key);
    let j = choose|j: int| 0 <= j < keys.len() && keys[j] == key;
    lemma_text_order_eq(keys[j], key);
    if j > p {
        lemma_text_order_eq(keys[p], key);
        if keys[p] != key {
            assert(text_order(keys[p], keys[j]) < 0);
            lemma_text_order_eq(keys[p], keys[j]);
        }
    }
}

/// Where a snapshot with id `key` belongs among the observations, and whether its id is there.
fn obs_slot(issues: &[AutomationIssue], obs: &Vec<usize>, key: &str) -> (r: (usize, bool))
    requires
        keys_ascending(obs_keys(issues@, obs@)),
        forall|k: int| 0 <= k < obs@.len() ==> (#[trigger] obs@[k]) < issues@.len(),
    ensures
        r.0 == lower_bound(obs_keys(issues@, obs@), key@),
        r.0 <= obs@.len(),
        r.1 == obs_keys(issues@, obs@).contains(key@),
        r.1 ==> r.0 < obs@.len(),
{
    let ghost keys = obs_keys(issues@, obs@);
    let mut k: usize = obs.len();
    proof {
        assert(keys.take(k as int) =~= keys);
    }
    while k > 0 && crate::order::compare_text(issues[obs[k - 1]].id.as_str(), key) >= 0
        invariant
            k <= obs@.len(),
            keys == obs_keys(issues@, obs@),
            forall|j: int| 0 <= j < obs@.len() ==> (#[trigger] obs@[j]) < issues@.len(),
            lower_bound(keys, key@) == lower_bound(keys.take(k as int), key@),
        decreases k,
    {
        proof {
            let t = keys.take(k as int);
            assert(t.drop_last() =~= keys.take(k - 1));
            assert(t.last() == keys[k - 1]);
        }
        k = k - 1;
    }
    proof {
        let t = keys.take(k as int);
        if k > 0 {
            assert(t.last() == keys[k - 1]);
        }
        lemma_lower_bound(keys, key@);
    }
    let found = k < obs.len() && crate::text::str_eq(issues[obs[k]].id.as_str(), key);
    proof {
        if keys.contains(key@) {
            lemma_lower_bound_found(keys, key@);
        }
        if found {
            assert(keys[k as int] == key@);
        }
    }
    (k, found)
}

/// One snapshot per issue id, ordered by id: for each id, the snapshot that orders
/// last by observation order (the first of equals).
pub fn observe_issues(issues: &[AutomationIssue]) -> (r: Vec<usize>)
    ensures
        r@ == observations(issues@, issues@.len()),
        r@.len() <= issues@.len(),
        keys_ascending(obs_keys(issues@, r@)),
        forall|k: int| 0 <= k < r@.len() ==> (#[trigger] r@[k]) < issues@.len(),
{
    let mut obs: Vec<usize> = Vec::new();
    let mut i: usize = 0;
    while i < issues.len()
        invariant
            i <= issues@.len(),
            obs@ == observations(issues@, i as nat),
            obs@.len() <= i,
            keys_ascending(obs_keys(issues@, obs@)),
            forall|k: int| 0 <= k < obs@.len() ==> (#[trigger] obs@[k]) < i,
        decreases issues.len() - i,
    {
        let ghost keys = obs_keys(issues@, obs@);
        let (p, found) = obs_slot(issues, &obs, issues[i].id.as_str());
        if found {
            proof {
                lemma_lower_bound_found(keys, issues@[i as int].id@);
            }
            if crate::automation_policy::compare_observation(&issues[i], &issues[obs[p]]) > 0 {
                obs.set(p, i);
                proof {
                    assert(obs_keys(issues@, obs@) =~= keys);
                }
            }
        } else {
            obs.insert(p, i);
            proof {
                lemma_insert_ascending(keys, issues@[i as int].id@);
                assert(obs_keys(issues@, obs@) =~= keys.insert(p as int, issues@[i as int].id@));
            }
        }
        i = i + 1;
    }
    obs
}


/// The tracker state a claim takes from the observations (its own when its issue was not observed).
pub open spec fn refreshed_state(c: AutomationIssueClaim, issues: Seq<AutomationIssue>, obs: Seq<usize>) -> Seq<char> {
    let keys = obs_keys(issues, obs);
    if keys.contains(c.issue_id@) { issues[obs[lower_bound(keys, c.issue_id@)] as int].state@ } else { c.tracker_state@ }
}

/// A claim refreshed from the observations: it takes its issue's observed state, and
/// an active claim whose issue is now terminal is told to reconcile first.
pub open spec fn claim_refreshed(
    old: AutomationIssueClaim,
    new: AutomationIssueClaim,
    issues: Seq<AutomationIssue>,
    obs: Seq<usize>,
    profile: AutomationProfile,
) -> bool {
    let keys = obs_keys(issues, obs);
    if keys.contains(old.issue_id@) {
        let o = issues[obs[lower_bound(keys, old.issue_id@)] as int];
        &&& new == (AutomationIssueClaim { tracker_state: o.state, next_action: new.next_action, ..old })
        &&& if is_terminal_state_spec(profile, o.state@) && claim_is_active_spec(old.status) {
            new.next_action@ == "reconcile externally terminal tracker state before dispatch"@
        } else {
            new.next_action == old.next_action
        }
    } else {
        new == old
    }
}

/// Whether an active claim holds the issue.
pub open spec fn issue_held(claims: Seq<AutomationIssueClaim>, issue_id: Seq<char>) -> bool {
    exists|i: int| 0 <= i < claims.len() && claim_is_active_spec(claims[i].status) && #[trigger] claims[i].issue_id@ == issue_id
}

/// A label as compared: trimmed, ASCII-lowercased.
pub open spec fn label_norm(s: Seq<char>) -> Seq<char> {
    ascii_lower_seq(trim_seq(s))
}

/// The issue carries the label `wanted` (both compared normalized).
pub open spec fn has_label(issue: AutomationIssue, wanted: Seq<char>) -> bool {
    exists|l: int| 0 <= l < issue.labels@.len() && label_norm(#[trigger] issue.labels@[l]@) == label_norm(wanted)
}

/// Every required label of the profile is among the issue's labels.
pub open spec fn labels_cover(profile: AutomationProfile, issue: AutomationIssue) -> bool {
    forall|r: int| 0 <= r < profile.tracker.required_labels@.len() ==> has_label(issue, #[trigger] profile.tracker.required_labels@[r]@)
}

/// What coordination makes of an observed issue: 0 skipped, 1 queued as terminal,
/// 2 queued as blocked, 3 eligible for dispatch.
pub open spec fn triage(profile: AutomationProfile, claims: Seq<AutomationIssueClaim>, issue: AutomationIssue) -> u8 {
    if issue_held(claims, issue.id@) {
        0
    } else if is_terminal_state_spec(profile, issue.state@) {
        1
    } else if !is_active_state_spec(profile, issue.state@) {
        0
    } else if !labels_cover(profile, issue) {
        0
    } else if has_nonterminal_blocker_spec(profile, issue) {
        2
    } else {
        3
    }
}

/// The positions (into the observations) of the eligible issues, in id order.
pub open spec fn eligible_of(
    issues: Seq<AutomationIssue>,
    obs: Seq<usize>,
    n: nat,
    claims: Seq<AutomationIssueClaim>,
    profile: AutomationProfile,
) -> Seq<usize>
    decreases n,
{
    if n == 0 {
        Seq::empty()
    } else {
        let rest = eligible_of(issues, obs, (n - 1) as nat, claims, profile);
        if triage(profile, claims, issues[obs[n - 1] as int]) == 3 { rest.push((n - 1) as usize) } else { rest }
    }
}

/// Stable insertion of an observation position by dispatch order.
pub open spec fn insert_by_dispatch(issues: Seq<AutomationIssue>, obs: Seq<usize>, sorted: Seq<usize>, x: usize) -> Seq<usize>
    decreases sorted.len(),
{
    if sorted.len() == 0 {
        seq![x]
    } else if dispatch_order(issues[obs[sorted.last() as int] as int], issues[obs[x as int] as int]) > 0 {
        insert_by_dispatch(issues, obs, sorted.drop_last(), x).push(sorted.last())
    } else {
        sorted.push(x)
    }
}

/// The stable sort of observation positions by dispatch order.
pub open spec fn dispatch_sorted(issues: Seq<AutomationIssue>, obs: Seq<usize>, e: Seq<usize>) -> Seq<usize>
    decreases e.len(),
{
    if e.len() == 0 {
        e
    } else {
        insert_by_dispatch(issues, obs, dispatch_sorted(issues, obs, e.drop_last()), e.last())
    }
}

proof fn lemma_insert_by_dispatch_elems(issues: Seq<AutomationIssue>, obs: Seq<usize>, sorted: Seq<usize>, x: usize)
    requires
        sorted.no_duplicates(),
        !sorted.contains(x),
    ensures
        insert_by_dispatch(issues, obs, sorted, x).no_duplicates(),
        insert_by_dispatch(issues, obs, sorted, x).len() == sorted.len() + 1,
        forall|y: usize| #[trigger] insert_by_dispatch(issues, obs, sorted, x).contains(y) <==> (sorted.contains(y) || y == x),
    decreases sorted.len(),
{
    let r = insert_by_dispatch(issues, obs, sorted, x);
    if sorted.len() == 0 {
        assert forall|y: usize| #[trigger] r.contains(y) <==> (sorted.contains(y) || y == x) by {
            if r.contains(y) {
                assert(r[0] == x);
            }
            if y == x {
                assert(r[0] == x);
            }
        }
    } else if dispatch_order(issues[obs[sorted.last() as int] as int], issues[obs[x as int] as int]) > 0 {
        let d = sorted.drop_last();
        assert(d.no_duplicates());
        assert(!d.contains(x)) by {
            if d.contains(x) {
                let j = choose|j: int| 0 <= j < d.len() && d[j] == x;
                assert(sorted[j] == x);
            }
        }
        lemma_insert_by_dispatch_elems(issues, obs, d, x);
        let inner = insert_by_dispatch(issues, obs, d, x);
        assert(!inner.contains(sorted.last())) by {
            if inner.contains(sorted.last()) {
                if d.contains(sorted.last()) {
                    let j = choose|j: int| 0 <= j < d.len() && d[j] == sorted.last();
                    assert(sorted[j] == sorted[sorted.len() - 1]);
                }
            }
        }
        assert(r == inner.push(sorted.last()));
        assert forall|i: int, j: int| 0 <= i < r.len() && 0 <= j < r.len() && i != j implies r[i] != r[j] by {
            if i < inner.len() && j < inner.len() {
            } else if i == inner.len() {
                assert(inner.contains(r[j]));
            } else {
                assert(inner.contains(r[i]));
            }
        }
        assert forall|y: usize| #[trigger] r.contains(y) <==> (sorted.contains(y) || y == x) by {
            if r.contains(y) {
                let j = choose|j: int| 0 <= j < r.len() && r[j] == y;
                if j < inner.len() {
                    assert(inner.contains(y));
                    if d.contains(y) {
                        let k = choose|k: int| 0 <= k < d.len() && d[k] == y;
                        assert(sorted[k] == y);
                    }
                }
            }
            if sorted.contains(y) {
                let k = choose|k: int| 0 <= k < sorted.len() && sorted[k] == y;
                if k < sorted.len() - 1 {
                    assert(d[k] == y);
                    assert(d.contains(y));
                    assert(inner.contains(y));
                    let m = choose|m: int| 0 <= m < inner.len() && inner[m] == y;
                    assert(r[m] == y);
                } else {
                    assert(r[r.len() - 1] == y);
                }
            }
            if y == x {
                assert(inner.contains(x));
                let m = choose|m: int| 0 <= m < inner.len() && inner[m] == x;
                assert(r[m] == x);
            }
        }
    } else {
        assert(r == sorted.push(x));
        assert forall|y: usize| #[trigger] r.contains(y) <==> (sorted.contains(y) || y == x) by {
            if r.contains(y) {
                let j = choose|j: int| 0 <= j < r.len() && r[j] == y;
                if j < sorted.len() {
                    assert(sorted[j] == y);
                }
            }
            if sorted.contains(y) {
                let k = choose|k: int| 0 <= k < sorted.len() && sorted[k] == y;
                assert(r[k] == y);
            }
            if y == x {
                assert(r[sorted.len() as int] == x);
            }
        }
    }
}

/// Sorting keeps the positions: the same elements, none twice.
pub proof fn lemma_dispatch_sorted_elems(issues: Seq<AutomationIssue>, obs: Seq<usize>, e: Seq<usize>)
    requires
        e.no_duplicates(),
    ensures
        dispatch_sorted(issues, obs, e).no_duplicates(),
        dispatch_sorted(issues, obs, e).len() == e.len(),
        forall|y: usize| #[trigger] dispatch_sorted(issues, obs, e).contains(y) <==> e.contains(y),
    decreases e.len(),
{
    if e.len() > 0 {
        let d = e.drop_last();
        assert(d.no_duplicates());
        lemma_dispatch_sorted_elems(issues, obs, d);
        let sd = dispatch_sorted(issues, obs, d);
        assert(!sd.contains(e.last())) by {
            if sd.contains(e.last()) {
                assert(d.contains(e.last()));
                let j = choose|j: int| 0 <= j < d.len() && d[j] == e.last();
                assert(e[j] == e[e.len() - 1]);
            }
        }
        lemma_insert_by_dispatch_elems(issues, obs, sd, e.last());
        assert forall|y: usize| #[trigger] dispatch_sorted(issues, obs, e).contains(y) <==> e.contains(y) by {
            if e.contains(y) {
                let k = choose|k: int| 0 <= k < e.len() && e[k] == y;
                if k < e.len() - 1 {
                    assert(d[k] == y);
                    assert(d.contains(y));
                }
            }
            if d.contains(y) {
                let k = choose|k: int| 0 <= k < d.len() && d[k] == y;
                assert(e[k] == y);
            }
        }
    }
}

/// Observation positions whose issues come in dispatch order.
pub open spec fn in_dispatch_order(issues: Seq<AutomationIssue>, obs: Seq<usize>, s: Seq<usize>) -> bool {
    forall|i: int, j: int| 0 <= i < j < s.len()
        ==> dispatch_order(issues[obs[#[trigger] s[i] as int] as int], issues[obs[#[trigger] s[j] as int] as int]) <= 0
}

proof fn lemma_insert_by_dispatch_ordered(issues: Seq<AutomationIssue>, obs: Seq<usize>, sorted: Seq<usize>, x: usize)
    requires
        in_dispatch_order(issues, obs, sorted),
    ensures
        in_dispatch_order(issues, obs, insert_by_dispatch(issues, obs, sorted, x)),
        forall|i: int| 0 <= i < insert_by_dispatch(issues, obs, sorted, x).len()
            ==> #[trigger] insert_by_dispatch(issues, obs, sorted, x)[i] == x
                || sorted.contains(insert_by_dispatch(issues, obs, sorted, x)[i]),
    decreases sorted.len(),
{
    let r = insert_by_dispatch(issues, obs, sorted, x);
    if sorted.len() == 0 {
        assert(r =~= seq![x]);
    } else if dispatch_order(issues[obs[sorted.last() as int] as int], issues[obs[x as int] as int]) > 0 {
        let d = sorted.drop_last();
        let n = sorted.len() - 1;
        let last = sorted.last();
        assert forall|i: int, j: int| 0 <= i < j < d.len()
            implies dispatch_order(issues[obs[#[trigger] d[i] as int] as int], issues[obs[#[trigger] d[j] as int] as int]) <= 0 by {
            assert(d[i] == sorted[i] && d[j] == sorted[j]);
        }
        lemma_insert_by_dispatch_ordered(issues, obs, d, x);
        let inner = insert_by_dispatch(issues, obs, d, x);
        assert(r == inner.push(last));
        crate::automation_policy::lemma_dispatch_order_antisymmetric(issues[obs[last as int] as int], issues[obs[x as int] as int]);
        assert forall|i: int| 0 <= i < inner.len()
            implies dispatch_order(issues[obs[inner[i] as int] as int], issues[obs[last as int] as int]) <= 0 by {
            if inner[i] != x {
                assert(d.contains(inner[i]));
                let k = choose|k: int| 0 <= k < d.len() && d[k] == inner[i];
                assert(sorted[k] == inner[i]);
                assert(sorted[n] == last);
            }
        }
        assert forall|i: int, j: int| 0 <= i < j < r.len()
            implies dispatch_order(issues[obs[#[trigger] r[i] as int] as int], issues[obs[#[trigger] r[j] as int] as int]) <= 0 by {
            if j < inner.len() {
                assert(r[i] == inner[i] && r[j] == inner[j]);
            } else {
                assert(r[i] == inner[i] && r[j] == last);
            }
        }
        assert forall|i: int| 0 <= i < r.len() implies #[trigger] r[i] == x || sorted.contains(r[i]) by {
            if i < inner.len() {
                assert(r[i] == inner[i]);
                if inner[i] != x {
                    let k = choose|k: int| 0 <= k < d.len() && d[k] == inner[i];
                    assert(sorted[k] == inner[i]);
                }
            } else {
                assert(sorted[n] == r[i]);
            }
        }
    } else {
        let n = sorted.len() - 1;
        let last = sorted.last();
        assert(r == sorted.push(x));
        assert forall|i: int, j: int| 0 <= i < j < r.len()
            implies dispatch_order(issues[obs[#[trigger] r[i] as int] as int], issues[obs[#[trigger] r[j] as int] as int]) <= 0 by {
            if j < sorted.len() {
                assert(r[i] == sorted[i] && r[j] == sorted[j]);
            } else {
                assert(r[i] == sorted[i] && r[j] == x);
                if i < n {
                    assert(sorted[n] == last);
                    crate::automation_policy::lemma_dispatch_order_transitive(
                        issues[obs[sorted[i] as int] as int], issues[obs[last as int] as int], issues[obs[x as int] as int]);
                }
            }
        }
        assert forall|i: int| 0 <= i < r.len() implies #[trigger] r[i] == x || sorted.contains(r[i]) by {
            if i < sorted.len() {
                assert(r[i] == sorted[i]);
            }
        }
    }
}

/// The stable sort by dispatch order orders its positions by dispatch order.
pub proof fn lemma_dispatch_sorted_ordered(issues: Seq<AutomationIssue>, obs: Seq<usize>, e: Seq<usize>)
    ensures
        in_dispatch_order(issues, obs, dispatch_sorted(issues, obs, e)),
    decreases e.len(),
{
    if e.len() > 0 {
        lemma_dispatch_sorted_ordered(issues, obs, e.drop_last());
        lemma_insert_by_dispatch_ordered(issues, obs, dispatch_sorted(issues, obs, e.drop_last()), e.last());
    }
}

/// A plan dispatches positions in the order it walks them: each dispatched
/// position is an earlier entry of `order`, and their entries come in order.
pub proof fn lemma_plan_upto_ordered(
    issues: Seq<AutomationIssue>,
    obs: Seq<usize>,
    profile: AutomationProfile,
    order: Seq<usize>,
    base_total: nat,
    base_keys: Seq<Seq<char>>,
    k: nat,
)
    requires
        k <= order.len(),
        in_dispatch_order(issues, obs, order),
    ensures
        in_dispatch_order(issues, obs, plan_upto(issues, obs, profile, order, base_total, base_keys, k).2),
        forall|t: int| 0 <= t < plan_upto(issues, obs, profile, order, base_total, base_keys, k).2.len()
            ==> exists|j: int| 0 <= j < k && order[j] == #[trigger] plan_upto(issues, obs, profile, order, base_total, base_keys, k).2[t],
    decreases k,
{
    if k > 0 {
        lemma_plan_upto_ordered(issues, obs, profile, order, base_total, base_keys, (k - 1) as nat);
        let prev = plan_upto(issues, obs, profile, order, base_total, base_keys, (k - 1) as nat);
        let p = plan_upto(issues, obs, profile, order, base_total, base_keys, k);
        if p.2.len() > prev.2.len() {
            assert(p.2 == prev.2.push(order[k - 1]));
            assert forall|i: int, j: int| 0 <= i < j < p.2.len()
                implies dispatch_order(issues[obs[#[trigger] p.2[i] as int] as int], issues[obs[#[trigger] p.2[j] as int] as int]) <= 0 by {
                if j < prev.2.len() {
                    assert(p.2[i] == prev.2[i] && p.2[j] == prev.2[j]);
                } else {
                    assert(p.2[i] == prev.2[i]);
                    let a = choose|a: int| 0 <= a < k - 1 && order[a] == #[trigger] prev.2[i];
                    assert(order[a] == p.2[i] && order[k - 1] == p.2[j]);
                }
            }
            assert forall|t: int| 0 <= t < p.2.len() implies exists|j: int| 0 <= j < k && order[j] == #[trigger] p.2[t] by {
                if t < prev.2.len() {
                    assert(p.2[t] == prev.2[t]);
                    let a = choose|a: int| 0 <= a < k - 1 && order[a] == #[trigger] prev.2[t];
                    assert(order[a] == p.2[t]);
                } else {
                    assert(order[k - 1] == p.2[t]);
                }
            }
        }
    }
}

#[derive(Clone, Copy, Debug, PartialEq, Eq, Structural)]
pub enum DispatchDecision {
    Dispatch,
    GlobalCapacity,
    StateCapacity,
}

/// The lowercased refreshed states of the active claims, in claim order.
pub open spec fn active_state_keys(claims: Seq<AutomationIssueClaim>, issues: Seq<AutomationIssue>, obs: Seq<usize>) -> Seq<Seq<char>>
    decreases claims.len(),
{
    if claims.len() == 0 {
        Seq::empty()
    } else {
        let rest = active_state_keys(claims.drop_last(), issues, obs);
        if claim_is_active_spec(claims.last().status) {
            rest.push(ascii_lower_seq(refreshed_state(claims.last(), issues, obs)))
        } else {
            rest
        }
    }
}

pub open spec fn count_key(keys: Seq<Seq<char>>, key: Seq<char>) -> nat
    decreases keys.len(),
{
    if keys.len() == 0 {
        0
    } else {
        count_key(keys.drop_last(), key) + if keys.last() == key { 1nat } else { 0nat }
    }
}

/// The capacity decision for one eligible issue, given the active total and the
/// number active in its state.
pub open spec fn decide(profile: AutomationProfile, issue: AutomationIssue, total: nat, in_state: nat) -> DispatchDecision {
    if total >= profile.agent.max_concurrent_agents {
        DispatchDecision::GlobalCapacity
    } else if state_limit_from(profile.agent.max_concurrent_agents_by_state@, issue.state@) matches Some(l) && in_state >= l {
        DispatchDecision::StateCapacity
    } else {
        DispatchDecision::Dispatch
    }
}

/// Decisions for the first `k` eligible issues in dispatch order, with the state
/// keys and positions of those dispatched: each dispatch takes capacity.
pub open spec fn plan_upto(
    issues: Seq<AutomationIssue>,
    obs: Seq<usize>,
    profile: AutomationProfile,
    order: Seq<usize>,
    base_total: nat,
    base_keys: Seq<Seq<char>>,
    k: nat,
) -> (Seq<DispatchDecision>, Seq<Seq<char>>, Seq<usize>)
    decreases k,
{
    if k == 0 {
        (Seq::empty(), Seq::empty(), Seq::empty())
    } else {
        let prev = plan_upto(issues, obs, profile, order, base_total, base_keys, (k - 1) as nat);
        let m = order[k - 1];
        let issue = obs_issue(issues, obs, m as int);
        let key = ascii_lower_seq(issue.state@);
        let d = decide(profile, issue, base_total + prev.1.len(), count_key(base_keys, key) + count_key(prev.1, key));
        if d == DispatchDecision::Dispatch {
            (prev.0.push(d), prev.1.push(key), prev.2.push(m))
        } else {
            (prev.0.push(d), prev.1, prev.2)
        }
    }
}

pub proof fn lemma_plan_upto_shape(
    issues: Seq<AutomationIssue>,
    obs: Seq<usize>,
    profile: AutomationProfile,
    order: Seq<usize>,
    base_total: nat,
    base_keys: Seq<Seq<char>>,
    k: nat,
)
    ensures
        ({
            let p = plan_upto(issues, obs, profile, order, base_total, base_keys, k);
            &&& p.0.len() == k
            &&& p.1.len() == p.2.len()
            &&& p.2.len() <= k
        }),
    decreases k,
{
    if k > 0 {
        lemma_plan_upto_shape(issues, obs, profile, order, base_total, base_keys, (k - 1) as nat);
    }
}

/// Each dispatch of a plan takes global capacity: when a plan dispatches
/// anything, the base total plus what it dispatched is within the global limit.
pub proof fn lemma_plan_upto_global_capacity(
    issues: Seq<AutomationIssue>,
    obs: Seq<usize>,
    profile: AutomationProfile,
    order: Seq<usize>,
    base_total: nat,
    base_keys: Seq<Seq<char>>,
    k: nat,
)
    ensures
        ({
            let p = plan_upto(issues, obs, profile, order, base_total, base_keys, k);
            p.1.len() == 0 || base_total + p.1.len() <= profile.agent.max_concurrent_agents
        }),
    decreases k,
{
    if k > 0 {
        lemma_plan_upto_global_capacity(issues, obs, profile, order, base_total, base_keys, (k - 1) as nat);
    }
}

/// Each dispatch of a plan takes capacity in its state: for a state with a
/// limit, when a plan dispatches into it, the base count in that state plus
/// what it dispatched there is within the limit.
pub proof fn lemma_plan_upto_state_capacity(
    issues: Seq<AutomationIssue>,
    obs: Seq<usize>,
    profile: AutomationProfile,
    order: Seq<usize>,
    base_total: nat,
    base_keys: Seq<Seq<char>>,
    k: nat,
    state: Seq<char>,
    limit: u32,
)
    requires
        state_limit_from(profile.agent.max_concurrent_agents_by_state@, state) == Some(limit),
    ensures
        ({
            let p = plan_upto(issues, obs, profile, order, base_total, base_keys, k);
            let key = ascii_lower_seq(state);
            count_key(p.1, key) == 0 || count_key(base_keys, key) + count_key(p.1, key) <= limit
        }),
    decreases k,
{
    if k > 0 {
        lemma_plan_upto_state_capacity(issues, obs, profile, order, base_total, base_keys, (k - 1) as nat, state, limit);
        let prev = plan_upto(issues, obs, profile, order, base_total, base_keys, (k - 1) as nat);
        let p = plan_upto(issues, obs, profile, order, base_total, base_keys, k);
        let key = ascii_lower_seq(state);
        if p.1.len() > prev.1.len() {
            assert(p.1.drop_last() =~= prev.1);
            let issue = obs_issue(issues, obs, order[k - 1] as int);
            if ascii_lower_seq(issue.state@) == key {
                lemma_state_limit_case(profile.agent.max_concurrent_agents_by_state@, issue.state@, state);
            }
        }
    }
}

/// The per-state limit of a state depends only on its ASCII-lowercased form.
pub proof fn lemma_state_limit_case(limits: Seq<(String, u32)>, a: Seq<char>, b: Seq<char>)
    requires
        ascii_lower_seq(a) == ascii_lower_seq(b),
    ensures
        state_limit_from(limits, a) == state_limit_from(limits, b),
    decreases limits.len(),
{
    if limits.len() > 0 {
        lemma_state_limit_case(limits.drop_first(), a, b);
    }
}

pub open spec fn active_count(claims: Seq<AutomationIssueClaim>) -> nat
    decreases claims.len(),
{
    if claims.len() == 0 {
        0
    } else {
        active_count(claims.drop_last()) + if claim_is_active_spec(claims.last().status) { 1nat } else { 0nat }
    }
}


/// Refreshes every claim from the observations.
pub fn refresh_claims(
    claims: &mut Vec<AutomationIssueClaim>,
    issues: &[AutomationIssue],
    obs: &Vec<usize>,
    profile: &AutomationProfile,
)
    requires
        keys_ascending(obs_keys(issues@, obs@)),
        forall|k: int| 0 <= k < obs@.len() ==> (#[trigger] obs@[k]) < issues@.len(),
    ensures
        final(claims)@.len() == old(claims)@.len(),
        forall|i: int| 0 <= i < old(claims)@.len() ==> claim_refreshed(#[trigger] old(claims)@[i], final(claims)@[i], issues@, obs@, *profile),
{
    let mut i: usize = 0;
    while i < claims.len()
        invariant
            i <= claims@.len(),
            claims@.len() == old(claims)@.len(),
            keys_ascending(obs_keys(issues@, obs@)),
            forall|k: int| 0 <= k < obs@.len() ==> (#[trigger] obs@[k]) < issues@.len(),
            forall|j: int| 0 <= j < i ==> claim_refreshed(#[trigger] old(claims)@[j], claims@[j], issues@, obs@, *profile),
            forall|j: int| i <= j < claims@.len() ==> #[trigger] claims@[j] == old(claims)@[j],
        decreases claims.len() - i,
    {
        let ghost before = claims@;
        let (p, found) = obs_slot(issues, obs, claims[i].issue_id.as_str());
        if found {
            proof {
                lemma_lower_bound_found(obs_keys(issues@, obs@), claims@[i as int].issue_id@);
            }
            let state = issues[obs[p]].state.clone();
            let terminal = is_terminal_state(profile, state.as_str());
            claims[i].tracker_state = state;
            if terminal && claim_is_active(claims[i].status) {
                claims[i].next_action = crate::text::to_owned_string("reconcile externally terminal tracker state before dispatch");
            }
        }
        proof {
            assert(claims@ =~= before.update(i as int, claims@[i as int]));
            assert(claim_refreshed(old(claims)@[i as int], claims@[i as int], issues@, obs@, *profile));
        }
        i = i + 1;
    }
}

fn held_by_active_claim(claims: &Vec<AutomationIssueClaim>, issue_id: &str) -> (r: bool)
    ensures
        r == issue_held(claims@, issue_id@),
{
    let mut i: usize = 0;
    while i < claims.len()
        invariant
            i <= claims@.len(),
            forall|j: int| 0 <= j < i ==> !(claim_is_active_spec(claims@[j].status) && (#[trigger] claims@[j]).issue_id@ == issue_id@),
        decreases claims.len() - i,
    {
        if claim_is_active(claims[i].status) && crate::text::str_eq(claims[i].issue_id.as_str(), issue_id) {
            return true;
        }
        i = i + 1;
    }
    false
}

fn normalize_label(label: &str) -> (r: String)
    ensures
        r@ == label_norm(label@),
{
    let t = crate::text::trim(label);
    crate::text::to_ascii_lowercase(t.as_str())
}

fn labels_cover_in(profile: &AutomationProfile, issue: &AutomationIssue) -> (r: bool)
    ensures
        r == labels_cover(*profile, *issue),
{
    let required = &profile.tracker.required_labels;
    let n = required.len();
    let mut q: usize = 0;
    while q < n
        invariant
            q <= n,
            n == profile.tracker.required_labels@.len(),
            required@ == profile.tracker.required_labels@,
            forall|j: int| 0 <= j < q ==> has_label(*issue, #[trigger] profile.tracker.required_labels@[j]@),
        decreases n - q,
    {
        let want = normalize_label(required[q].as_str());
        let mut found = false;
        let mut l: usize = 0;
        while l < issue.labels.len()
            invariant
                l <= issue.labels@.len(),
                found ==> exists|m: int| 0 <= m < issue.labels@.len() && label_norm(#[trigger] issue.labels@[m]@) == want@,
                !found ==> forall|m: int| 0 <= m < l ==> label_norm(#[trigger] issue.labels@[m]@) != want@,
            decreases issue.labels.len() - l,
        {
            let have = normalize_label(issue.labels[l].as_str());
            if crate::text::str_eq(have.as_str(), want.as_str()) {
                found = true;
            }
            l = l + 1;
        }
        if !found {
            proof {
                assert(!has_label(*issue, profile.tracker.required_labels@[q as int]@));
            }
            return false;
        }
        proof {
            assert(want@ == label_norm(profile.tracker.required_labels@[q as int]@));
            assert(has_label(*issue, profile.tracker.required_labels@[q as int]@));
        }
        q = q + 1;
    }
    true
}

fn triage_of(profile: &AutomationProfile, claims: &Vec<AutomationIssueClaim>, issue: &AutomationIssue) -> (r: u8)
    ensures
        r == triage(*profile, claims@, *issue),
{
    if held_by_active_claim(claims, issue.id.as_str()) {
        0
    } else if is_terminal_state(profile, issue.state.as_str()) {
        1
    } else if !is_active_state(profile, issue.state.as_str()) {
        0
    } else if !labels_cover_in(profile, issue) {
        0
    } else if has_nonterminal_blocker(profile, issue) {
        2
    } else {
        3
    }
}

fn insert_by_dispatch_in(issues: &[AutomationIssue], obs: &Vec<usize>, sorted: &mut Vec<usize>, x: usize)
    requires
        x < obs@.len(),
        forall|k: int| 0 <= k < old(sorted)@.len() ==> (#[trigger] old(sorted)@[k]) < obs@.len(),
        forall|k: int| 0 <= k < obs@.len() ==> (#[trigger] obs@[k]) < issues@.len(),
    ensures
        final(sorted)@ == insert_by_dispatch(issues@, obs@, old(sorted)@, x),
{
    let mut k: usize = sorted.len();
    proof {
        assert(old(sorted)@.take(k as int) =~= old(sorted)@);
        assert(old(sorted)@.skip(k as int) =~= Seq::<usize>::empty());
        assert(insert_by_dispatch(issues@, obs@, old(sorted)@, x) + Seq::<usize>::empty() =~= insert_by_dispatch(issues@, obs@, old(sorted)@, x));
    }
    while k > 0 && crate::automation_policy::compare_dispatch(&issues[obs[sorted[k - 1]]], &issues[obs[x]]) > 0
        invariant
            k <= sorted@.len(),
            sorted@ == old(sorted)@,
            x < obs@.len(),
            forall|j: int| 0 <= j < sorted@.len() ==> (#[trigger] sorted@[j]) < obs@.len(),
            forall|j: int| 0 <= j < obs@.len() ==> (#[trigger] obs@[j]) < issues@.len(),
            insert_by_dispatch(issues@, obs@, old(sorted)@, x) == insert_by_dispatch(issues@, obs@, old(sorted)@.take(k as int), x) + old(sorted)@.skip(k as int),
        decreases k,
    {
        proof {
            let t = old(sorted)@.take(k as int);
            assert(t.drop_last() =~= old(sorted)@.take(k - 1));
            assert(t.last() == old(sorted)@[k - 1]);
            assert(old(sorted)@.skip(k - 1) =~= seq![old(sorted)@[k - 1]] + old(sorted)@.skip(k as int));
            assert(insert_by_dispatch(issues@, obs@, t.drop_last(), x).push(t.last()) + old(sorted)@.skip(k as int)
                =~= insert_by_dispatch(issues@, obs@, t.drop_last(), x) + old(sorted)@.skip(k - 1));
        }
        k = k - 1;
    }
    proof {
        let t = old(sorted)@.take(k as int);
        if k > 0 {
            assert(t.last() == old(sorted)@[k - 1]);
        }
        assert(insert_by_dispatch(issues@, obs@, t, x) =~= t.push(x));
    }
    sorted.insert(k, x);
    proof {
        assert(sorted@ =~= old(sorted)@.take(k as int).push(x) + old(sorted)@.skip(k as int));
    }
}

/// Eligible positions sorted stably by dispatch order.
pub fn sort_by_dispatch(issues: &[AutomationIssue], obs: &Vec<usize>, e: &Vec<usize>) -> (r: Vec<usize>)
    requires
        forall|k: int| 0 <= k < e@.len() ==> (#[trigger] e@[k]) < obs@.len(),
        forall|k: int| 0 <= k < obs@.len() ==> (#[trigger] obs@[k]) < issues@.len(),
    ensures
        r@ == dispatch_sorted(issues@, obs@, e@),
{
    let mut sorted: Vec<usize> = Vec::new();
    let mut i: usize = 0;
    while i < e.len()
        invariant
            i <= e@.len(),
            sorted@ == dispatch_sorted(issues@, obs@, e@.take(i as int)),
            forall|k: int| 0 <= k < e@.len() ==> (#[trigger] e@[k]) < obs@.len(),
            forall|k: int| 0 <= k < obs@.len() ==> (#[trigger] obs@[k]) < issues@.len(),
            forall|k: int| 0 <= k < sorted@.len() ==> (#[trigger] sorted@[k]) < obs@.len(),
        decreases e.len() - i,
    {
        proof {
            assert(e@.take(i + 1).drop_last() =~= e@.take(i as int));
            assert(e@.take(i + 1).last() == e@[i as int]);
        }
        insert_by_dispatch_in(issues, obs, &mut sorted, e[i]);
        proof {
            lemma_insert_by_dispatch_bound(issues@, obs@, dispatch_sorted(issues@, obs@, e@.take(i as int)), e@[i as int], obs@.len());
        }
        i = i + 1;
    }
    proof {
        assert(e@.take(e@.len() as int) =~= e@);
    }
    sorted
}

proof fn lemma_insert_by_dispatch_bound(issues: Seq<AutomationIssue>, obs: Seq<usize>, sorted: Seq<usize>, x: usize, n: nat)
    requires
        x < n,
        forall|k: int| 0 <= k < sorted.len() ==> (#[trigger] sorted[k]) < n,
    ensures
        forall|k: int| 0 <= k < insert_by_dispatch(issues, obs, sorted, x).len() ==> (#[trigger] insert_by_dispatch(issues, obs, sorted, x)[k]) < n,
    decreases sorted.len(),
{
    let r = insert_by_dispatch(issues, obs, sorted, x);
    if sorted.len() == 0 {
        assert(r == seq![x]);
    } else if dispatch_order(issues[obs[sorted.last() as int] as int], issues[obs[x as int] as int]) > 0 {
        lemma_insert_by_dispatch_bound(issues, obs, sorted.drop_last(), x, n);
        let inner = insert_by_dispatch(issues, obs, sorted.drop_last(), x);
        assert(r == inner.push(sorted.last()));
        assert forall|k: int| 0 <= k < r.len() implies (#[trigger] r[k]) < n by {
            if k < inner.len() {
                assert(r[k] == inner[k]);
            } else {
                assert(r[k] == sorted[sorted.len() - 1]);
            }
        }
    } else {
        assert(r == sorted.push(x));
        assert forall|k: int| 0 <= k < r.len() implies (#[trigger] r[k]) < n by {
            if k < sorted.len() {
                assert(r[k] == sorted[k]);
            }
        }
    }
}

pub fn count_key_in(keys: &Vec<String>, key: &str) -> (r: u64)
    requires
        keys@.len() <= u32::MAX,
    ensures
        r == count_key(keys@.map_values(|s: String| s@), key@),
        r <= keys@.len(),
{
    let ghost ks = keys@.map_values(|s: String| s@);
    let mut n: u64 = 0;
    let mut i: usize = 0;
    while i < keys.len()
        invariant
            i <= keys@.len(),
            keys@.len() <= u32::MAX,
            ks == keys@.map_values(|s: String| s@),
            n == count_key(ks.take(i as int), key@),
            n <= i,
        decreases keys.len() - i,
    {
        proof {
            assert(ks.take(i + 1).drop_last() =~= ks.take(i as int));
            assert(ks.take(i + 1).last() == keys@[i as int]@);
        }
        if crate::text::str_eq(keys[i].as_str(), key) {
            n = n + 1;
        }
        i = i + 1;
    }
    proof {
        assert(ks.take(keys@.len() as int) =~= ks);
    }
    n
}

/// A queue item keyed by a new id, put at its place.
pub fn insert_queue_item(queue: &mut Vec<AutomationQueueItem>, item: AutomationQueueItem)
    requires
        keys_ascending(queue_keys(old(queue)@)),
        !queue_keys(old(queue)@).contains(item.issue_id@),
    ensures
        keys_ascending(queue_keys(final(queue)@)),
        final(queue)@ == old(queue)@.insert(lower_bound(queue_keys(old(queue)@), item.issue_id@), item),
{
    let (p, found) = queue_slot(queue, item.issue_id.as_str());
    let ghost id = item.issue_id@;
    queue.insert(p, item);
    proof {
        lemma_insert_ascending(queue_keys(old(queue)@), id);
        assert(queue_keys(queue@) =~= queue_keys(old(queue)@).insert(p as int, id));
    }
}


pub open spec fn obs_issue(issues: Seq<AutomationIssue>, obs: Seq<usize>, m: int) -> AutomationIssue {
    issues[obs[m] as int]
}

pub open spec fn triage_status(t: u8) -> AutomationQueueStatus {
    if t == 1 { AutomationQueueStatus::Terminal } else { AutomationQueueStatus::Blocked }
}

pub open spec fn triage_reason(t: u8) -> Seq<char> {
    if t == 1 { "tracker state is terminal"@ } else { "waiting for a nonterminal blocker"@ }
}

/// A queue item of `issue` with the given status and reason.
pub open spec fn item_for(item: AutomationQueueItem, issue: AutomationIssue, status: AutomationQueueStatus, reason: Seq<char>) -> bool {
    &&& item.issue_id == issue.id
    &&& item.issue_identifier == issue.identifier
    &&& item.issue_title == issue.title
    &&& item.state == issue.state
    &&& item.priority == issue.priority
    &&& item.status == status
    &&& item.reason@ == reason
}

pub open spec fn queue_pos(queue: Seq<AutomationQueueItem>, id: Seq<char>) -> int {
    choose|j: int| 0 <= j < queue.len() && #[trigger] queue[j].issue_id@ == id
}

pub open spec fn triaged_count(profile: AutomationProfile, claims: Seq<AutomationIssueClaim>, issues: Seq<AutomationIssue>, obs: Seq<usize>, n: nat) -> nat
    decreases n,
{
    if n == 0 {
        0
    } else {
        let t = triage(profile, claims, obs_issue(issues, obs, n - 1));
        triaged_count(profile, claims, issues, obs, (n - 1) as nat) + if t == 1 || t == 2 { 1nat } else { 0nat }
    }
}

/// Claims that differ only as refreshing makes them hold the same issues, actively or not.
pub proof fn lemma_refresh_keeps_holders(
    old: Seq<AutomationIssueClaim>,
    new: Seq<AutomationIssueClaim>,
    issues: Seq<AutomationIssue>,
    obs: Seq<usize>,
    profile: AutomationProfile,
)
    requires
        new.len() == old.len(),
        forall|i: int| 0 <= i < old.len() ==> claim_refreshed(#[trigger] old[i], new[i], issues, obs, profile),
    ensures
        forall|id: Seq<char>| #[trigger] issue_held(new, id) == issue_held(old, id),
        forall|i: int| 0 <= i < old.len() ==> (#[trigger] new[i]).status == old[i].status && new[i].issue_id == old[i].issue_id
            && new[i].claim_id == old[i].claim_id && new[i].tracker_state@ == refreshed_state(old[i], issues, obs),
{
    assert forall|i: int| 0 <= i < old.len() implies (#[trigger] new[i]).status == old[i].status && new[i].issue_id == old[i].issue_id
        && new[i].claim_id == old[i].claim_id && new[i].tracker_state@ == refreshed_state(old[i], issues, obs) by {
        assert(claim_refreshed(old[i], new[i], issues, obs, profile));
    }
    assert forall|id: Seq<char>| #[trigger] issue_held(new, id) == issue_held(old, id) by {
        if issue_held(new, id) {
            let i = choose|i: int| 0 <= i < new.len() && claim_is_active_spec(new[i].status) && #[trigger] new[i].issue_id@ == id;
            assert(new[i].status == old[i].status);
            assert(old[i].issue_id@ == id);
        }
        if issue_held(old, id) {
            let i = choose|i: int| 0 <= i < old.len() && claim_is_active_spec(old[i].status) && #[trigger] old[i].issue_id@ == id;
            assert(new[i].status == old[i].status);
            assert(new[i].issue_id@ == id);
        }
    }
}

pub proof fn lemma_triage_same(
    a: Seq<AutomationIssueClaim>,
    b: Seq<AutomationIssueClaim>,
    issues: Seq<AutomationIssue>,
    obs: Seq<usize>,
    profile: AutomationProfile,
    n: nat,
)
    requires
        forall|id: Seq<char>| #[trigger] issue_held(a, id) == issue_held(b, id),
    ensures
        eligible_of(issues, obs, n, a, profile) == eligible_of(issues, obs, n, b, profile),
        triaged_count(profile, a, issues, obs, n) == triaged_count(profile, b, issues, obs, n),
        forall|issue: AutomationIssue| #[trigger] triage(profile, a, issue) == triage(profile, b, issue),
    decreases n,
{
    assert forall|issue: AutomationIssue| #[trigger] triage(profile, a, issue) == triage(profile, b, issue) by {
        assert(issue_held(a, issue.id@) == issue_held(b, issue.id@));
    }
    if n > 0 {
        lemma_triage_same(a, b, issues, obs, profile, (n - 1) as nat);
    }
}

/// The queue item of a terminal or blocked issue.
pub open spec fn triaged_item(profile: AutomationProfile, claims: Seq<AutomationIssueClaim>, issue: AutomationIssue, item: AutomationQueueItem) -> bool {
    let t = triage(profile, claims, issue);
    &&& (t == 1 || t == 2)
    &&& item_for(item, issue, triage_status(t), triage_reason(t))
}

/// Triage of every observation: terminal and blocked issues are queued (in id order),
/// eligible positions are returned in id order.
pub fn triage_queue(
    profile: &AutomationProfile,
    claims: &Vec<AutomationIssueClaim>,
    issues: &[AutomationIssue],
    obs: &Vec<usize>,
) -> (r: (Vec<AutomationQueueItem>, Vec<usize>))
    requires
        keys_ascending(obs_keys(issues@, obs@)),
        forall|k: int| 0 <= k < obs@.len() ==> (#[trigger] obs@[k]) < issues@.len(),
    ensures
        keys_ascending(queue_keys(r.0@)),
        r.1@ == eligible_of(issues@, obs@, obs@.len(), claims@, *profile),
        forall|k: int| 0 <= k < r.1@.len() ==> (#[trigger] r.1@[k]) < obs@.len(),
        r.1@.no_duplicates(),
        r.0@.len() == triaged_count(*profile, claims@, issues@, obs@, obs@.len()),
        forall|m: int| 0 <= m < obs@.len() && ({ let t = triage(*profile, claims@, obs_issue(issues@, obs@, m)); t == 1 || t == 2 })
            ==> queue_keys(r.0@).contains(#[trigger] obs_issue(issues@, obs@, m).id@)
                && item_for(r.0@[queue_pos(r.0@, obs_issue(issues@, obs@, m).id@)], obs_issue(issues@, obs@, m),
                    triage_status(triage(*profile, claims@, obs_issue(issues@, obs@, m))),
                    triage_reason(triage(*profile, claims@, obs_issue(issues@, obs@, m)))),
        forall|q: int| 0 <= q < r.0@.len() ==> exists|m: int| 0 <= m < obs@.len()
            && ({ let t = triage(*profile, claims@, obs_issue(issues@, obs@, m)); t == 1 || t == 2 })
            && #[trigger] r.0@[q].issue_id@ == obs_issue(issues@, obs@, m).id@,
{
    let mut queue: Vec<AutomationQueueItem> = Vec::new();
    let mut eligible: Vec<usize> = Vec::new();
    let ghost mut tpos: Seq<int> = Seq::empty();
    let ghost keys = obs_keys(issues@, obs@);
    let mut m: usize = 0;
    while m < obs.len()
        invariant
            m <= obs@.len(),
            keys == obs_keys(issues@, obs@),
            keys_ascending(keys),
            forall|k: int| 0 <= k < obs@.len() ==> (#[trigger] obs@[k]) < issues@.len(),
            eligible@ == eligible_of(issues@, obs@, m as nat, claims@, *profile),
            forall|k: int| 0 <= k < eligible@.len() ==> (#[trigger] eligible@[k]) < m,
            forall|i: int, j: int| 0 <= i < j < eligible@.len() ==> eligible@[i] < eligible@[j],
            queue@.len() == tpos.len(),
            queue@.len() == triaged_count(*profile, claims@, issues@, obs@, m as nat),
            forall|i: int, j: int| 0 <= i < j < tpos.len() ==> tpos[i] < tpos[j],
            forall|q: int| 0 <= q < tpos.len() ==> 0 <= #[trigger] tpos[q] < m,
            forall|q: int| 0 <= q < tpos.len() ==> triaged_item(*profile, claims@, obs_issue(issues@, obs@, tpos[q]), #[trigger] queue@[q]),
            forall|k: int| 0 <= k < m && ({ let tk = triage(*profile, claims@, #[trigger] obs_issue(issues@, obs@, k)); tk == 1 || tk == 2 })
                ==> exists|q: int| 0 <= q < tpos.len() && tpos[q] == k,
        decreases obs.len() - m,
    {
        let issue = &issues[obs[m]];
        let t = triage_of(profile, claims, issue);
        let ghost old_tpos = tpos;
        let ghost old_queue = queue@;
        if t == 1 || t == 2 {
            let item = if t == 1 {
                crate::automation_policy::queue_item(issue, AutomationQueueStatus::Terminal, "tracker state is terminal")
            } else {
                crate::automation_policy::queue_item(issue, AutomationQueueStatus::Blocked, "waiting for a nonterminal blocker")
            };
            queue.push(item);
            proof {
                tpos = tpos.push(m as int);
            }
        } else if t == 3 {
            eligible.push(m);
        }
        proof {
            assert forall|q: int| 0 <= q < tpos.len() implies triaged_item(*profile, claims@, obs_issue(issues@, obs@, tpos[q]), #[trigger] queue@[q]) by {
                if q < old_tpos.len() {
                    assert(tpos[q] == old_tpos[q]);
                    assert(queue@[q] == old_queue[q]);
                } else {
                    assert(tpos[q] == m);
                }
            }
            assert forall|k: int| 0 <= k < m + 1 && ({ let tk = triage(*profile, claims@, #[trigger] obs_issue(issues@, obs@, k)); tk == 1 || tk == 2 })
                implies exists|q: int| 0 <= q < tpos.len() && tpos[q] == k by {
                if k < m {
                    let q = choose|q: int| 0 <= q < old_tpos.len() && old_tpos[q] == k;
                    assert(tpos[q] == k);
                } else {
                    assert(tpos[tpos.len() - 1] == k);
                }
            }
        }
        m = m + 1;
    }
    proof {
        assert forall|i: int, j: int| 0 <= i < j < queue@.len() implies text_order(#[trigger] queue_keys(queue@)[i], #[trigger] queue_keys(queue@)[j]) < 0 by {
            assert(queue_keys(queue@)[i] == keys[tpos[i]]);
            assert(queue_keys(queue@)[j] == keys[tpos[j]]);
        }
        assert forall|i: int, j: int| 0 <= i < eligible@.len() && 0 <= j < eligible@.len() && i != j implies eligible@[i] != eligible@[j] by {
            if i < j {
                assert(eligible@[i] < eligible@[j]);
            } else {
                assert(eligible@[j] < eligible@[i]);
            }
        }
        assert forall|k: int| 0 <= k < obs@.len() && ({ let t = triage(*profile, claims@, obs_issue(issues@, obs@, k)); t == 1 || t == 2 })
            implies queue_keys(queue@).contains(#[trigger] obs_issue(issues@, obs@, k).id@)
                && item_for(queue@[queue_pos(queue@, obs_issue(issues@, obs@, k).id@)], obs_issue(issues@, obs@, k),
                    triage_status(triage(*profile, claims@, obs_issue(issues@, obs@, k))),
                    triage_reason(triage(*profile, claims@, obs_issue(issues@, obs@, k)))) by {
            let q = choose|q: int| 0 <= q < tpos.len() && tpos[q] == k;
            assert(queue_keys(queue@)[q] == obs_issue(issues@, obs@, k).id@);
            let p = queue_pos(queue@, obs_issue(issues@, obs@, k).id@);
            assert(queue@[q].issue_id@ == obs_issue(issues@, obs@, k).id@);
            assert(queue_keys(queue@)[p] == queue_keys(queue@)[q]);
            crate::automation_run::lemma_keys_unique(queue_keys(queue@), p, q);
        }
        assert forall|q: int| 0 <= q < queue@.len() implies exists|m2: int| 0 <= m2 < obs@.len()
            && ({ let t = triage(*profile, claims@, obs_issue(issues@, obs@, m2)); t == 1 || t == 2 })
            && #[trigger] queue@[q].issue_id@ == obs_issue(issues@, obs@, m2).id@ by {
            let k = tpos[q];
            assert(queue@[q].issue_id@ == obs_issue(issues@, obs@, k).id@);
        }
    }
    (queue, eligible)
}


pub proof fn lemma_triage_split(
    profile: AutomationProfile,
    claims: Seq<AutomationIssueClaim>,
    issues: Seq<AutomationIssue>,
    obs: Seq<usize>,
    n: nat,
)
    ensures
        triaged_count(profile, claims, issues, obs, n) + eligible_of(issues, obs, n, claims, profile).len() <= n,
    decreases n,
{
    if n > 0 {
        lemma_triage_split(profile, claims, issues, obs, (n - 1) as nat);
    }
}

} // verus!
