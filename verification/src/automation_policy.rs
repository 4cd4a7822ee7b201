//! Rules of an Automation Root Run that read a profile: retry backoff, liveness,
//! tracker states, dispatch order, and the names of tracker effects.
use crate::automation::effect_name;
use crate::automation::AutomationEffect;
use crate::automation::AutomationIssue;
use crate::automation::AutomationIssueBlocker;
use crate::automation::AutomationProfile;
use crate::automation_run::claim_is_terminal_spec;
use crate::automation_run::effect_waits_gate;
use crate::automation_run::any_effect_waiting_gate;
use crate::automation_run::AutomationClaimLiveness;
use crate::automation_run::AutomationClaimStatus;
use crate::automation_run::AutomationIssueClaim;
use crate::automation_run::AutomationQueueItem;
use crate::automation_run::AutomationQueueStatus;
use crate::order::text_order;
use crate::order::then_order;
use crate::order::int_order;
use crate::text::ascii_lower_seq;
use crate::text::eq_ignore_ascii_case;
use crate::text::eq_ignore_ascii_case_spec;
use vstd::arithmetic::power2::pow2;
use vstd::prelude::*;

verus! {

/// The allowlisted name of a tracker effect.
pub fn automation_effect_name(kind: AutomationEffect) -> (r: &'static str)
    ensures
        r@ == effect_name(kind),
{
    match kind {
        AutomationEffect::TrackerComment => "tracker.comment",
        AutomationEffect::TrackerTransition => "tracker.transition",
        AutomationEffect::TrackerLinkPullRequest => "tracker.link_pull_request",
    }
}

/// `base * 2^(attempt - 1)`, saturating at `u64::MAX`, then capped at `cap`.
pub open spec fn retry_delay_spec(base: u64, cap: u64, attempt: u32) -> u64 {
    let exponent: nat = if attempt == 0 { 0 } else if attempt - 1 > 63 { 63 } else { (attempt - 1) as nat };
    let product = base * pow2(exponent);
    let saturated: u64 = if product > u64::MAX { u64::MAX } else { product as u64 };
    if saturated < cap { saturated } else { cap }
}

/// Exponential retry backoff from the polling interval, capped by the profile.
pub fn retry_delay_ms(base_ms: u64, cap_ms: u64, attempt: u32) -> (r: u64)
    ensures
        r == retry_delay_spec(base_ms, cap_ms, attempt),
{
    let sub = attempt.saturating_sub(1);
    let exponent: u64 = if sub > 63 { 63 } else { sub as u64 };
    proof {
        vstd::bits::lemma_u64_pow2_no_overflow(exponent as nat);
        vstd::bits::lemma_u64_shl_is_mul(1, exponent);
    }
    let factor: u64 = 1u64 << exponent;
    let saturated: u64 = match base_ms.checked_mul(factor) {
        Some(p) => p,
        None => u64::MAX,
    };
    if saturated < cap_ms { saturated } else { cap_ms }
}

/// Retry backoff never exceeds its cap.
pub proof fn lemma_retry_delay_capped(base: u64, cap: u64, attempt: u32)
    ensures
        retry_delay_spec(base, cap, attempt) <= cap,
{
}

/// Retry backoff grows with the attempt number.
pub proof fn lemma_retry_delay_monotone(base: u64, cap: u64, a: u32, b: u32)
    requires
        a <= b,
    ensures
        retry_delay_spec(base, cap, a) <= retry_delay_spec(base, cap, b),
{
    let ea: nat = if a == 0 { 0 } else if a - 1 > 63 { 63 } else { (a - 1) as nat };
    let eb: nat = if b == 0 { 0 } else if b - 1 > 63 { 63 } else { (b - 1) as nat };
    assert(ea <= eb);
    vstd::arithmetic::power2::lemma_pow2_pos(ea);
    if ea < eb {
        vstd::arithmetic::power2::lemma_pow2_strictly_increases(ea, eb);
    }
    vstd::arithmetic::mul::lemma_mul_inequality(pow2(ea) as int, pow2(eb) as int, base as int);
    vstd::arithmetic::mul::lemma_mul_is_commutative(pow2(ea) as int, base as int);
    vstd::arithmetic::mul::lemma_mul_is_commutative(pow2(eb) as int, base as int);
}

/// The first retry waits the polling interval (or the cap, if smaller).
pub proof fn lemma_retry_delay_first(base: u64, cap: u64)
    ensures
        retry_delay_spec(base, cap, 1) == if base < cap { base } else { cap },
{
    vstd::arithmetic::power2::lemma2_to64();
    assert(pow2(0) == 1);
    assert(base * pow2(0) == base);
}

pub open spec fn liveness_spec(claim: AutomationIssueClaim, stall_timeout_ms: u64, now_ms: u64) -> AutomationClaimLiveness {
    if claim_is_terminal_spec(claim.status) {
        AutomationClaimLiveness::Terminal
    } else if effect_waits_gate(claim.effects@) {
        AutomationClaimLiveness::WaitingGate
    } else if claim.retry is Some {
        AutomationClaimLiveness::WaitingRetry
    } else if claim.status == AutomationClaimStatus::Suspended {
        AutomationClaimLiveness::Handoff
    } else if claim.last_progress_at_ms matches Some(last) && (if now_ms >= last { now_ms - last } else { 0 }) >= stall_timeout_ms {
        AutomationClaimLiveness::Stalled
    } else {
        AutomationClaimLiveness::Active
    }
}

/// How a claim is doing: terminal, waiting for a gate or a retry, handed off,
/// stalled past the profile's stall timeout, or active.
pub fn automation_claim_liveness(claim: &AutomationIssueClaim, profile: &AutomationProfile, now_ms: u64) -> (r: AutomationClaimLiveness)
    ensures
        r == liveness_spec(*claim, profile.codex.stall_timeout_ms, now_ms),
{
    if matches!(claim.status, AutomationClaimStatus::Completed | AutomationClaimStatus::Cancelled | AutomationClaimStatus::Failed) {
        return AutomationClaimLiveness::Terminal;
    }
    if any_effect_waiting_gate(&claim.effects) {
        return AutomationClaimLiveness::WaitingGate;
    }
    if claim.retry.is_some() {
        return AutomationClaimLiveness::WaitingRetry;
    }
    if claim.status == AutomationClaimStatus::Suspended {
        return AutomationClaimLiveness::Handoff;
    }
    if let Some(last) = claim.last_progress_at_ms {
        if now_ms.saturating_sub(last) >= profile.codex.stall_timeout_ms {
            return AutomationClaimLiveness::Stalled;
        }
    }
    AutomationClaimLiveness::Active
}

pub open spec fn state_listed(states: Seq<String>, state: Seq<char>) -> bool {
    exists|i: int| 0 <= i < states.len() && eq_ignore_ascii_case_spec(#[trigger] states[i]@, state)
}

pub fn any_state_matches(states: &Vec<String>, state: &str) -> (r: bool)
    ensures
        r == state_listed(states@, state@),
{
    let mut i: usize = 0;
    while i < states.len()
        invariant
            i <= states.len(),
            forall|j: int| 0 <= j < i ==> !eq_ignore_ascii_case_spec(#[trigger] states@[j]@, state@),
        decreases states.len() - i,
    {
        if eq_ignore_ascii_case(states[i].as_str(), state) {
            return true;
        }
        i = i + 1;
    }
    false
}

pub open spec fn is_active_state_spec(profile: AutomationProfile, state: Seq<char>) -> bool {
    state_listed(profile.tracker.active_states@, state)
}

pub open spec fn is_terminal_state_spec(profile: AutomationProfile, state: Seq<char>) -> bool {
    state_listed(profile.tracker.terminal_states@, state)
}

/// Whether `state` is one of the profile's active states, ignoring ASCII case.
pub fn is_active_state(profile: &AutomationProfile, state: &str) -> (r: bool)
    ensures
        r == is_active_state_spec(*profile, state@),
{
    any_state_matches(&profile.tracker.active_states, state)
}

/// Whether `state` is one of the profile's terminal states, ignoring ASCII case.
pub fn is_terminal_state(profile: &AutomationProfile, state: &str) -> (r: bool)
    ensures
        r == is_terminal_state_spec(*profile, state@),
{
    any_state_matches(&profile.tracker.terminal_states, state)
}

pub open spec fn blocker_holds(profile: AutomationProfile, blocker: AutomationIssueBlocker) -> bool {
    match blocker.state {
        None => true,
        Some(s) => !is_terminal_state_spec(profile, s@),
    }
}

pub open spec fn has_nonterminal_blocker_spec(profile: AutomationProfile, issue: AutomationIssue) -> bool {
    exists|i: int| 0 <= i < issue.blocked_by.len() && blocker_holds(profile, #[trigger] issue.blocked_by@[i])
}

/// Whether a blocker of the issue is in no terminal state (or in an unknown one).
pub fn has_nonterminal_blocker(profile: &AutomationProfile, issue: &AutomationIssue) -> (r: bool)
    ensures
        r == has_nonterminal_blocker_spec(*profile, *issue),
{
    let mut i: usize = 0;
    while i < issue.blocked_by.len()
        invariant
            i <= issue.blocked_by.len(),
            forall|j: int| 0 <= j < i ==> !blocker_holds(*profile, #[trigger] issue.blocked_by@[j]),
        decreases issue.blocked_by.len() - i,
    {
        let holds = match &issue.blocked_by[i].state {
            None => true,
            Some(s) => !is_terminal_state(profile, s.as_str()),
        };
        if holds {
            return true;
        }
        i = i + 1;
    }
    false
}

/// The per-state limit: the first configured entry whose state matches, ignoring ASCII case.
pub open spec fn state_limit_from(limits: Seq<(String, u32)>, state: Seq<char>) -> Option<u32>
    decreases limits.len(),
{
    if limits.len() == 0 {
        None
    } else if eq_ignore_ascii_case_spec(limits[0].0@, state) {
        Some(limits[0].1)
    } else {
        state_limit_from(limits.drop_first(), state)
    }
}

pub fn state_limit(profile: &AutomationProfile, state: &str) -> (r: Option<u32>)
    ensures
        r == state_limit_from(profile.agent.max_concurrent_agents_by_state@, state@),
{
    let limits = &profile.agent.max_concurrent_agents_by_state;
    let mut i: usize = 0;
    proof {
        assert(limits@.skip(0) =~= limits@);
    }
    while i < limits.len()
        invariant
            i <= limits.len(),
            limits@ == profile.agent.max_concurrent_agents_by_state@,
            state_limit_from(limits@, state@) == state_limit_from(limits@.skip(i as int), state@),
        decreases limits.len() - i,
    {
        proof {
            assert(limits@.skip(i as int).drop_first() =~= limits@.skip(i + 1));
            assert(limits@.skip(i as int)[0] == limits@[i as int]);
        }
        if eq_ignore_ascii_case(limits[i].0.as_str(), state) {
            proof {
                let rest = limits@.skip(i as int);
                assert(rest.len() > 0);
                assert(eq_ignore_ascii_case_spec(rest[0].0@, state@));
                assert(state_limit_from(rest, state@) == Some(rest[0].1));
            }
            return Some(limits[i].1);
        }
        i = i + 1;
    }
    None
}

/// Dispatch order: positive priority first (lowest first, unprioritized last),
/// then creation time (unknown last), identifier and id.
pub open spec fn dispatch_order(a: AutomationIssue, b: AutomationIssue) -> int {
    let pa: int = match a.priority { Some(p) => if p > 0 { p as int } else { i64::MAX as int }, None => i64::MAX as int };
    let pb: int = match b.priority { Some(p) => if p > 0 { p as int } else { i64::MAX as int }, None => i64::MAX as int };
    let ca: Seq<char> = match a.created_at { Some(c) => c@, None => "~"@ };
    let cb: Seq<char> = match b.created_at { Some(c) => c@, None => "~"@ };
    then_order(int_order(pa, pb), then_order(text_order(ca, cb), then_order(
        text_order(a.identifier@, b.identifier@), text_order(a.id@, b.id@))))
}

/// The priority an issue is dispatched by: a positive priority as it is, any
/// other (or none) after every positive one.
pub open spec fn dispatch_priority(i: AutomationIssue) -> int {
    match i.priority {
        Some(p) => if p > 0 { p as int } else { i64::MAX as int },
        None => i64::MAX as int,
    }
}

/// Dispatch order is lexicographic: a lower priority first; at equal priority
/// the issue created earlier; then the lower identifier; then the lower id.
pub proof fn lemma_dispatch_order_key(a: AutomationIssue, b: AutomationIssue)
    ensures
        dispatch_priority(a) < dispatch_priority(b) ==> dispatch_order(a, b) < 0,
        ({
            // an issue without a creation time sorts as if created at "~"
            let ka = match a.created_at { Some(c) => c@, None => "~"@ };
            let kb = match b.created_at { Some(c) => c@, None => "~"@ };
            dispatch_priority(a) == dispatch_priority(b) && crate::order::text_order(ka, kb) < 0 ==> dispatch_order(a, b) < 0
        }),
        dispatch_priority(a) == dispatch_priority(b) && opt_text(a.created_at) == opt_text(b.created_at)
            && crate::order::text_order(a.identifier@, b.identifier@) < 0 ==> dispatch_order(a, b) < 0,
        dispatch_priority(a) == dispatch_priority(b) && opt_text(a.created_at) == opt_text(b.created_at)
            && a.identifier@ == b.identifier@ && crate::order::text_order(a.id@, b.id@) < 0 ==> dispatch_order(a, b) < 0,
        dispatch_priority(a) == dispatch_priority(b) && opt_text(a.created_at) == opt_text(b.created_at)
            && a.identifier@ == b.identifier@ && a.id@ == b.id@ ==> dispatch_order(a, b) == 0,
{
    let ca: Seq<char> = match a.created_at { Some(c) => c@, None => "~"@ };
    let cb: Seq<char> = match b.created_at { Some(c) => c@, None => "~"@ };
    crate::order::lemma_text_order_eq(ca, cb);
    crate::order::lemma_text_order_eq(a.identifier@, b.identifier@);
    crate::order::lemma_text_order_eq(a.id@, b.id@);
}

/// An optional text as plain characters.
pub open spec fn opt_text(o: Option<String>) -> Option<Seq<char>> {
    match o {
        Some(s) => Some(s@),
        None => None,
    }
}

/// Dispatch order compares two issues the opposite way round when swapped.
pub proof fn lemma_dispatch_order_antisymmetric(a: AutomationIssue, b: AutomationIssue)
    ensures
        dispatch_order(a, b) == -dispatch_order(b, a),
{
    let ca: Seq<char> = match a.created_at { Some(c) => c@, None => "~"@ };
    let cb: Seq<char> = match b.created_at { Some(c) => c@, None => "~"@ };
    crate::order::lemma_text_order_eq(ca, cb);
    crate::order::lemma_text_order_eq(a.identifier@, b.identifier@);
    crate::order::lemma_text_order_eq(a.id@, b.id@);
}

/// Dispatch order is transitive: an issue no later than a second, itself no
/// later than a third, is no later than the third.
pub proof fn lemma_dispatch_order_transitive(a: AutomationIssue, b: AutomationIssue, c: AutomationIssue)
    requires
        dispatch_order(a, b) <= 0,
        dispatch_order(b, c) <= 0,
    ensures
        dispatch_order(a, c) <= 0,
{
    let ca: Seq<char> = match a.created_at { Some(x) => x@, None => "~"@ };
    let cb: Seq<char> = match b.created_at { Some(x) => x@, None => "~"@ };
    let cc: Seq<char> = match c.created_at { Some(x) => x@, None => "~"@ };
    crate::order::lemma_text_order_eq(ca, cb);
    crate::order::lemma_text_order_eq(cb, cc);
    crate::order::lemma_text_order_eq(ca, cc);
    crate::order::lemma_text_order_eq(a.identifier@, b.identifier@);
    crate::order::lemma_text_order_eq(b.identifier@, c.identifier@);
    crate::order::lemma_text_order_eq(a.identifier@, c.identifier@);
    crate::order::lemma_text_order_eq(a.id@, b.id@);
    crate::order::lemma_text_order_eq(b.id@, c.id@);
    crate::order::lemma_text_order_eq(a.id@, c.id@);
    if crate::order::text_order(ca, cb) <= 0 && crate::order::text_order(cb, cc) <= 0 {
        crate::order::lemma_text_order_le_transitive(ca, cb, cc);
    }
    if crate::order::text_order(a.identifier@, b.identifier@) <= 0 && crate::order::text_order(b.identifier@, c.identifier@) <= 0 {
        crate::order::lemma_text_order_le_transitive(a.identifier@, b.identifier@, c.identifier@);
    }
    if crate::order::text_order(a.id@, b.id@) <= 0 && crate::order::text_order(b.id@, c.id@) <= 0 {
        crate::order::lemma_text_order_le_transitive(a.id@, b.id@, c.id@);
    }
}

/// Three-way comparison of two issues by dispatch order.
pub fn compare_dispatch(a: &AutomationIssue, b: &AutomationIssue) -> (r: i8)
    ensures
        r as int == dispatch_order(*a, *b),
{
    let pa: i64 = match a.priority { Some(p) => if p > 0 { p } else { i64::MAX }, None => i64::MAX };
    let pb: i64 = match b.priority { Some(p) => if p > 0 { p } else { i64::MAX }, None => i64::MAX };
    let c = crate::order::compare_i64(pa, pb);
    if c != 0 {
        return c;
    }
    let c = match (&a.created_at, &b.created_at) {
        (Some(x), Some(y)) => crate::order::compare_text(x.as_str(), y.as_str()),
        (Some(x), None) => crate::order::compare_text(x.as_str(), "~"),
        (None, Some(y)) => crate::order::compare_text("~", y.as_str()),
        (None, None) => crate::order::compare_text("~", "~"),
    };
    if c != 0 {
        return c;
    }
    let c = crate::order::compare_text(a.identifier.as_str(), b.identifier.as_str());
    if c != 0 {
        return c;
    }
    crate::order::compare_text(a.id.as_str(), b.id.as_str())
}

/// Observation order of two snapshots of one issue: last update, then identifier and title.
pub open spec fn observation_order(a: AutomationIssue, b: AutomationIssue) -> int {
    let ua: Seq<char> = match a.updated_at { Some(u) => u@, None => Seq::empty() };
    let ub: Seq<char> = match b.updated_at { Some(u) => u@, None => Seq::empty() };
    then_order(text_order(ua, ub), then_order(text_order(a.identifier@, b.identifier@), text_order(a.title@, b.title@)))
}

pub fn compare_observation(a: &AutomationIssue, b: &AutomationIssue) -> (r: i8)
    ensures
        r as int == observation_order(*a, *b),
{
    let c = match (&a.updated_at, &b.updated_at) {
        (Some(x), Some(y)) => crate::order::compare_text(x.as_str(), y.as_str()),
        (Some(x), None) => crate::order::compare_text(x.as_str(), ""),
        (None, Some(y)) => crate::order::compare_text("", y.as_str()),
        (None, None) => crate::order::compare_text("", ""),
    };
    proof {
        reveal_strlit("");
    }
    if c != 0 {
        return c;
    }
    let c = crate::order::compare_text(a.identifier.as_str(), b.identifier.as_str());
    if c != 0 {
        return c;
    }
    crate::order::compare_text(a.title.as_str(), b.title.as_str())
}

/// A queue entry for an unclaimed issue.
pub fn queue_item(issue: &AutomationIssue, status: AutomationQueueStatus, reason: &str) -> (r: AutomationQueueItem)
    ensures
        r.issue_id == issue.id,
        r.issue_identifier == issue.identifier,
        r.issue_title == issue.title,
        r.state == issue.state,
        r.priority == issue.priority,
        r.status == status,
        r.reason@ == reason@,
{
    AutomationQueueItem {
        issue_id: issue.id.clone(),
        issue_identifier: issue.identifier.clone(),
        issue_title: issue.title.clone(),
        state: issue.state.clone(),
        priority: issue.priority,
        status,
        reason: crate::text::to_owned_string(reason),
    }
}

} // verus!
