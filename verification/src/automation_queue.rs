//! The queue projection of a run: counts per category and bounded, ordered pages.
use crate::automation_run::claim_category;
use crate::automation_run::claim_category_of;
use crate::automation_run::copy_optional_text;
use crate::automation_run::queue_item_category;
use crate::automation_run::AutomationIssueClaim;
use crate::automation_run::AutomationQueueCategory;
use crate::automation_run::AutomationQueueCounts;
use crate::automation_run::AutomationQueueItem;
use crate::automation_run::AutomationQueuePage;
use crate::automation_run::AutomationQueueProjectionItem;
use crate::automation_run::AutomationQueueStatus;
use crate::automation_run::AutomationRootCheckpoint;
use crate::order::int_order;
use crate::order::text_order;
use crate::order::then_order;
use vstd::prelude::*;

verus! {

pub open spec fn queue_count(q: Seq<AutomationQueueItem>, status: AutomationQueueStatus) -> nat
    decreases q.len(),
{
    if q.len() == 0 {
        0
    } else {
        queue_count(q.drop_last(), status) + if q.last().status == status { 1nat } else { 0nat }
    }
}

pub open spec fn claim_count(c: Seq<AutomationIssueClaim>, category: AutomationQueueCategory) -> nat
    decreases c.len(),
{
    if c.len() == 0 {
        0
    } else {
        claim_count(c.drop_last(), category) + if claim_category(c.last()) == category { 1nat } else { 0nat }
    }
}

/// Queue items by status, claims by the category they are listed under.
pub open spec fn counts_spec(ck: AutomationRootCheckpoint) -> (nat, nat, nat, nat, nat, nat) {
    (
        queue_count(ck.queue@, AutomationQueueStatus::Queued),
        claim_count(ck.claims@, AutomationQueueCategory::Running),
        queue_count(ck.queue@, AutomationQueueStatus::Blocked),
        claim_count(ck.claims@, AutomationQueueCategory::WaitingGate),
        claim_count(ck.claims@, AutomationQueueCategory::Handoff),
        queue_count(ck.queue@, AutomationQueueStatus::Terminal) + claim_count(ck.claims@, AutomationQueueCategory::Terminal),
    )
}

pub open spec fn counts_as_tuple(c: AutomationQueueCounts) -> (nat, nat, nat, nat, nat, nat) {
    (c.queued as nat, c.running as nat, c.blocked as nat, c.waiting_gate as nat, c.handoff as nat, c.terminal as nat)
}

proof fn lemma_queue_count_bound(q: Seq<AutomationQueueItem>)
    ensures
        queue_count(q, AutomationQueueStatus::Queued) + queue_count(q, AutomationQueueStatus::Blocked)
            + queue_count(q, AutomationQueueStatus::Terminal) == q.len(),
    decreases q.len(),
{
    if q.len() > 0 {
        lemma_queue_count_bound(q.drop_last());
    }
}

proof fn lemma_claim_count_bound(c: Seq<AutomationIssueClaim>)
    ensures
        claim_count(c, AutomationQueueCategory::Running) + claim_count(c, AutomationQueueCategory::WaitingGate)
            + claim_count(c, AutomationQueueCategory::Handoff) + claim_count(c, AutomationQueueCategory::Terminal) == c.len(),
    decreases c.len(),
{
    if c.len() > 0 {
        lemma_claim_count_bound(c.drop_last());
        let cat = claim_category(c.last());
        assert(cat != AutomationQueueCategory::Queued && cat != AutomationQueueCategory::Blocked);
    }
}

/// Every queue item and every claim is counted exactly once.
pub proof fn lemma_counts_total(ck: AutomationRootCheckpoint)
    ensures
        ({
            let t = counts_spec(ck);
            t.0 + t.1 + t.2 + t.3 + t.4 + t.5 == ck.queue@.len() + ck.claims@.len()
        }),
{
    lemma_queue_count_bound(ck.queue@);
    lemma_claim_count_bound(ck.claims@);
}

/// Counts of the queue projection by category.
pub fn automation_queue_counts(checkpoint: &AutomationRootCheckpoint) -> (r: AutomationQueueCounts)
    requires
        checkpoint.queue@.len() + checkpoint.claims@.len() <= u32::MAX,
    ensures
        counts_as_tuple(r) == counts_spec(*checkpoint),
{
    let mut counts = AutomationQueueCounts { queued: 0, running: 0, blocked: 0, waiting_gate: 0, handoff: 0, terminal: 0 };
    let mut i: usize = 0;
    while i < checkpoint.queue.len()
        invariant
            i <= checkpoint.queue@.len(),
            checkpoint.queue@.len() + checkpoint.claims@.len() <= u32::MAX,
            counts.queued == queue_count(checkpoint.queue@.take(i as int), AutomationQueueStatus::Queued),
            counts.blocked == queue_count(checkpoint.queue@.take(i as int), AutomationQueueStatus::Blocked),
            counts.terminal == queue_count(checkpoint.queue@.take(i as int), AutomationQueueStatus::Terminal),
            counts.running == 0,
            counts.waiting_gate == 0,
            counts.handoff == 0,
        decreases checkpoint.queue.len() - i,
    {
        proof {
            assert(checkpoint.queue@.take(i + 1).drop_last() =~= checkpoint.queue@.take(i as int));
            lemma_queue_count_bound(checkpoint.queue@.take(i as int));
        }
        match checkpoint.queue[i].status {
            AutomationQueueStatus::Queued => counts.queued = counts.queued + 1,
            AutomationQueueStatus::Blocked => counts.blocked = counts.blocked + 1,
            AutomationQueueStatus::Terminal => counts.terminal = counts.terminal + 1,
        }
        i = i + 1;
    }
    proof {
        assert(checkpoint.queue@.take(checkpoint.queue@.len() as int) =~= checkpoint.queue@);
        lemma_queue_count_bound(checkpoint.queue@);
    }
    let ghost qt = counts.terminal;
    let mut j: usize = 0;
    while j < checkpoint.claims.len()
        invariant
            j <= checkpoint.claims@.len(),
            checkpoint.queue@.len() + checkpoint.claims@.len() <= u32::MAX,
            counts.queued == queue_count(checkpoint.queue@, AutomationQueueStatus::Queued),
            counts.blocked == queue_count(checkpoint.queue@, AutomationQueueStatus::Blocked),
            qt == queue_count(checkpoint.queue@, AutomationQueueStatus::Terminal),
            counts.queued + counts.blocked + qt == checkpoint.queue@.len(),
            counts.running == claim_count(checkpoint.claims@.take(j as int), AutomationQueueCategory::Running),
            counts.waiting_gate == claim_count(checkpoint.claims@.take(j as int), AutomationQueueCategory::WaitingGate),
            counts.handoff == claim_count(checkpoint.claims@.take(j as int), AutomationQueueCategory::Handoff),
            counts.terminal == qt + claim_count(checkpoint.claims@.take(j as int), AutomationQueueCategory::Terminal),
        decreases checkpoint.claims.len() - j,
    {
        proof {
            assert(checkpoint.claims@.take(j + 1).drop_last() =~= checkpoint.claims@.take(j as int));
            lemma_claim_count_bound(checkpoint.claims@.take(j as int));
        }
        match claim_category_of(&checkpoint.claims[j]) {
            AutomationQueueCategory::Running => counts.running = counts.running + 1,
            AutomationQueueCategory::WaitingGate => counts.waiting_gate = counts.waiting_gate + 1,
            AutomationQueueCategory::Handoff => counts.handoff = counts.handoff + 1,
            _ => counts.terminal = counts.terminal + 1,
        }
        proof {
            assert(claim_category(checkpoint.claims@[j as int]) != AutomationQueueCategory::Queued);
            assert(claim_category(checkpoint.claims@[j as int]) != AutomationQueueCategory::Blocked);
        }
        j = j + 1;
    }
    proof {
        assert(checkpoint.claims@.take(checkpoint.claims@.len() as int) =~= checkpoint.claims@);
    }
    counts
}

/// Page order: priority (unprioritized last), then identifier, then issue id.
pub open spec fn page_order(a: AutomationQueueProjectionItem, b: AutomationQueueProjectionItem) -> int {
    let pa: int = match a.priority { Some(p) => p as int, None => i64::MAX as int };
    let pb: int = match b.priority { Some(p) => p as int, None => i64::MAX as int };
    then_order(int_order(pa, pb), then_order(text_order(a.issue_identifier@, b.issue_identifier@), text_order(a.issue_id@, b.issue_id@)))
}

fn compare_page_items(a: &AutomationQueueProjectionItem, b: &AutomationQueueProjectionItem) -> (r: i8)
    ensures
        r as int == page_order(*a, *b),
{
    let pa: i64 = match a.priority { Some(p) => p, None => i64::MAX };
    let pb: i64 = match b.priority { Some(p) => p, None => i64::MAX };
    let c = crate::order::compare_i64(pa, pb);
    if c != 0 {
        return c;
    }
    let c = crate::order::compare_text(a.issue_identifier.as_str(), b.issue_identifier.as_str());
    if c != 0 {
        return c;
    }
    crate::order::compare_text(a.issue_id.as_str(), b.issue_id.as_str())
}

/// Stable insertion: `x` goes after every element that does not order after it.
pub open spec fn insert_stable(sorted: Seq<AutomationQueueProjectionItem>, x: AutomationQueueProjectionItem) -> Seq<AutomationQueueProjectionItem>
    decreases sorted.len(),
{
    if sorted.len() == 0 {
        seq![x]
    } else if page_order(sorted.last(), x) > 0 {
        insert_stable(sorted.drop_last(), x).push(sorted.last())
    } else {
        sorted.push(x)
    }
}

/// The stable sort of `s` by page order.
pub open spec fn stable_sorted(s: Seq<AutomationQueueProjectionItem>) -> Seq<AutomationQueueProjectionItem>
    decreases s.len(),
{
    if s.len() == 0 {
        s
    } else {
        insert_stable(stable_sorted(s.drop_last()), s.last())
    }
}

proof fn lemma_insert_stable_len(sorted: Seq<AutomationQueueProjectionItem>, x: AutomationQueueProjectionItem)
    ensures
        insert_stable(sorted, x).len() == sorted.len() + 1,
    decreases sorted.len(),
{
    if sorted.len() > 0 && page_order(sorted.last(), x) > 0 {
        lemma_insert_stable_len(sorted.drop_last(), x);
    }
}

pub proof fn lemma_stable_sorted_len(s: Seq<AutomationQueueProjectionItem>)
    ensures
        stable_sorted(s).len() == s.len(),
    decreases s.len(),
{
    if s.len() > 0 {
        lemma_stable_sorted_len(s.drop_last());
        lemma_insert_stable_len(stable_sorted(s.drop_last()), s.last());
    }
}

/// Inserts `x` into the page-ordered `items`, after every element that does not order after it.
fn insert_item(items: &mut Vec<AutomationQueueProjectionItem>, x: AutomationQueueProjectionItem)
    ensures
        final(items)@ == insert_stable(old(items)@, x),
{
    let mut k: usize = items.len();
    proof {
        assert(old(items)@.take(k as int) =~= old(items)@);
        assert(old(items)@.skip(k as int) =~= Seq::<AutomationQueueProjectionItem>::empty());
        assert(insert_stable(old(items)@, x) + Seq::<AutomationQueueProjectionItem>::empty() =~= insert_stable(old(items)@, x));
    }
    while k > 0 && compare_page_items(&items[k - 1], &x) > 0
        invariant
            k <= items@.len(),
            items@ == old(items)@,
            insert_stable(old(items)@, x) == insert_stable(old(items)@.take(k as int), x) + old(items)@.skip(k as int),
        decreases k,
    {
        proof {
            let t = old(items)@.take(k as int);
            assert(t.drop_last() =~= old(items)@.take(k - 1));
            assert(t.last() == old(items)@[k - 1]);
            assert(insert_stable(t, x) == insert_stable(t.drop_last(), x).push(t.last()));
            assert(old(items)@.skip(k - 1) =~= seq![old(items)@[k - 1]] + old(items)@.skip(k as int));
            assert(insert_stable(t.drop_last(), x).push(t.last()) + old(items)@.skip(k as int)
                =~= insert_stable(t.drop_last(), x) + old(items)@.skip(k - 1));
        }
        k = k - 1;
    }
    proof {
        let t = old(items)@.take(k as int);
        if k > 0 {
            assert(t.last() == old(items)@[k - 1]);
            assert(insert_stable(t, x) == t.push(x));
        } else {
            assert(t.len() == 0);
        }
        assert(insert_stable(t, x) =~= t.push(x));
    }
    items.insert(k, x);
    proof {
        assert(items@ =~= old(items)@.take(k as int).push(x) + old(items)@.skip(k as int));
    }
}

/// The projection of an unclaimed queue item.
pub open spec fn queue_proj(item: AutomationQueueItem) -> AutomationQueueProjectionItem {
    AutomationQueueProjectionItem {
        issue_id: item.issue_id,
        issue_identifier: item.issue_identifier,
        issue_title: item.issue_title,
        state: item.state,
        priority: item.priority,
        claim_id: None,
        category: queue_item_category(item.status),
        next_action: item.reason,
    }
}

/// The projection of a claim.
pub open spec fn claim_proj(claim: AutomationIssueClaim) -> AutomationQueueProjectionItem {
    AutomationQueueProjectionItem {
        issue_id: claim.issue_id,
        issue_identifier: claim.issue_identifier,
        issue_title: claim.issue_title,
        state: claim.tracker_state,
        priority: claim.priority,
        claim_id: Some(claim.claim_id),
        category: claim_category(claim),
        next_action: claim.next_action,
    }
}

pub open spec fn queue_in(q: Seq<AutomationQueueItem>, category: AutomationQueueCategory) -> Seq<AutomationQueueProjectionItem>
    decreases q.len(),
{
    if q.len() == 0 {
        Seq::empty()
    } else {
        let rest = queue_in(q.drop_last(), category);
        if queue_item_category(q.last().status) == category { rest.push(queue_proj(q.last())) } else { rest }
    }
}

pub open spec fn claims_in(c: Seq<AutomationIssueClaim>, category: AutomationQueueCategory) -> Seq<AutomationQueueProjectionItem>
    decreases c.len(),
{
    if c.len() == 0 {
        Seq::empty()
    } else {
        let rest = claims_in(c.drop_last(), category);
        if claim_category(c.last()) == category { rest.push(claim_proj(c.last())) } else { rest }
    }
}

/// The listed entries of one category, before ordering: queue items, then claims,
/// each in key order.
pub open spec fn page_entries(ck: AutomationRootCheckpoint, category: AutomationQueueCategory) -> Seq<AutomationQueueProjectionItem> {
    queue_in(ck.queue@, category) + claims_in(ck.claims@, category)
}

proof fn lemma_queue_in_len(q: Seq<AutomationQueueItem>, category: AutomationQueueCategory)
    ensures
        queue_in(q, category).len() <= q.len(),
    decreases q.len(),
{
    if q.len() > 0 {
        lemma_queue_in_len(q.drop_last(), category);
    }
}

proof fn lemma_claims_in_len(c: Seq<AutomationIssueClaim>, category: AutomationQueueCategory)
    ensures
        claims_in(c, category).len() <= c.len(),
    decreases c.len(),
{
    if c.len() > 0 {
        lemma_claims_in_len(c.drop_last(), category);
    }
}

fn project_queue_item(item: &AutomationQueueItem) -> (p: AutomationQueueProjectionItem)
    ensures
        p == queue_proj(*item),
{
    AutomationQueueProjectionItem {
        issue_id: item.issue_id.clone(),
        issue_identifier: item.issue_identifier.clone(),
        issue_title: item.issue_title.clone(),
        state: item.state.clone(),
        priority: item.priority,
        claim_id: None,
        category: match item.status {
            AutomationQueueStatus::Queued => AutomationQueueCategory::Queued,
            AutomationQueueStatus::Blocked => AutomationQueueCategory::Blocked,
            AutomationQueueStatus::Terminal => AutomationQueueCategory::Terminal,
        },
        next_action: item.reason.clone(),
    }
}

fn project_claim(claim: &AutomationIssueClaim) -> (p: AutomationQueueProjectionItem)
    ensures
        p == claim_proj(*claim),
{
    AutomationQueueProjectionItem {
        issue_id: claim.issue_id.clone(),
        issue_identifier: claim.issue_identifier.clone(),
        issue_title: claim.issue_title.clone(),
        state: claim.tracker_state.clone(),
        priority: claim.priority,
        claim_id: Some(claim.claim_id.clone()),
        category: claim_category_of(claim),
        next_action: claim.next_action.clone(),
    }
}

pub open spec fn page_start(total: nat, offset: u32) -> nat {
    if (offset as nat) < total { offset as nat } else { total }
}

pub open spec fn page_limit(limit: u32) -> nat {
    if limit < 1 { 1 } else if limit > 50 { 50 } else { limit as nat }
}

pub open spec fn page_end(total: nat, offset: u32, limit: u32) -> nat {
    let s = page_start(total, offset) + page_limit(limit);
    if s < total { s } else { total }
}

/// One page of a category of the queue projection: entries of the category in page
/// order (stable), from `offset`, at most `limit` clamped to 1..=50.
pub fn automation_queue_page(
    checkpoint: &AutomationRootCheckpoint,
    category: AutomationQueueCategory,
    offset: u32,
    limit: u32,
) -> (r: AutomationQueuePage)
    requires
        checkpoint.queue@.len() + checkpoint.claims@.len() <= u32::MAX,
    ensures
        ({
            let sorted = stable_sorted(page_entries(*checkpoint, category));
            let total = sorted.len();
            let start = page_start(total, offset);
            let end = page_end(total, offset, limit);
            &&& r.category == category
            &&& r.total == total
            &&& r.items@ == sorted.subrange(start as int, end as int)
            &&& r.next_offset == if end < total { Some(end as u32) } else { None }
        }),
{
    let mut entries: Vec<AutomationQueueProjectionItem> = Vec::new();
    let mut i: usize = 0;
    while i < checkpoint.queue.len()
        invariant
            i <= checkpoint.queue@.len(),
            entries@ == queue_in(checkpoint.queue@.take(i as int), category),
        decreases checkpoint.queue.len() - i,
    {
        proof {
            assert(checkpoint.queue@.take(i + 1).drop_last() =~= checkpoint.queue@.take(i as int));
            assert(checkpoint.queue@.take(i + 1).last() == checkpoint.queue@[i as int]);
        }
        if queue_item_category_of(checkpoint.queue[i].status) == category {
            entries.push(project_queue_item(&checkpoint.queue[i]));
        }
        i = i + 1;
    }
    proof {
        assert(checkpoint.queue@.take(checkpoint.queue@.len() as int) =~= checkpoint.queue@);
    }
    let ghost queued = entries@;
    let mut claimed: Vec<AutomationQueueProjectionItem> = Vec::new();
    let mut j: usize = 0;
    while j < checkpoint.claims.len()
        invariant
            j <= checkpoint.claims@.len(),
            claimed@ == claims_in(checkpoint.claims@.take(j as int), category),
        decreases checkpoint.claims.len() - j,
    {
        proof {
            assert(checkpoint.claims@.take(j + 1).drop_last() =~= checkpoint.claims@.take(j as int));
            assert(checkpoint.claims@.take(j + 1).last() == checkpoint.claims@[j as int]);
        }
        if claim_category_of(&checkpoint.claims[j]) == category {
            claimed.push(project_claim(&checkpoint.claims[j]));
        }
        j = j + 1;
    }
    proof {
        assert(checkpoint.claims@.take(checkpoint.claims@.len() as int) =~= checkpoint.claims@);
    }
    entries.append(&mut claimed);
    let ghost all = entries@;
    proof {
        assert(all =~= page_entries(*checkpoint, category));
        lemma_queue_in_len(checkpoint.queue@, category);
        lemma_claims_in_len(checkpoint.claims@, category);
    }
    let mut sorted: Vec<AutomationQueueProjectionItem> = Vec::new();
    proof {
        assert(all.skip(0) =~= all);
        assert(all.take(0) =~= Seq::<AutomationQueueProjectionItem>::empty());
    }
    while entries.len() > 0
        invariant
            entries@.len() <= all.len(),
            entries@ == all.skip(all.len() - entries@.len()),
            sorted@ == stable_sorted(all.take(all.len() - entries@.len())),
        decreases entries.len(),
    {
        let ghost c = all.len() - entries@.len();
        let x = entries.remove(0);
        proof {
            assert(x == all[c]);
            assert(all.take(c + 1).drop_last() =~= all.take(c));
            assert(all.take(c + 1).last() == all[c]);
            assert(entries@ =~= all.skip(c + 1));
        }
        insert_item(&mut sorted, x);
    }
    proof {
        assert(all.take(all.len() as int) =~= all);
    }
    let total: usize = sorted.len();
    proof {
        lemma_stable_sorted_len(all);
    }
    let start: usize = if (offset as usize) < total { offset as usize } else { total };
    let lim: usize = if limit < 1 { 1 } else if limit > 50 { 50 } else { limit as usize };
    let reach: u64 = start as u64 + lim as u64;
    let end: usize = if reach < total as u64 { reach as usize } else { total };
    let mut tail = sorted.split_off(start);
    tail.truncate(end - start);
    proof {
        assert(tail@ =~= stable_sorted(all).subrange(start as int, end as int));
    }
    AutomationQueuePage {
        category,
        total: total as u32,
        items: tail,
        next_offset: if end < total { Some(end as u32) } else { None },
    }
}

fn queue_item_category_of(status: AutomationQueueStatus) -> (r: AutomationQueueCategory)
    ensures
        r == queue_item_category(status),
{
    match status {
        AutomationQueueStatus::Queued => AutomationQueueCategory::Queued,
        AutomationQueueStatus::Blocked => AutomationQueueCategory::Blocked,
        AutomationQueueStatus::Terminal => AutomationQueueCategory::Terminal,
    }
}


impl crate::automation_store::AutomationRunStore {
    /// One page of the queue projection of the checkpoint.
    pub fn queue_page(&self, checkpoint: &AutomationRootCheckpoint, category: AutomationQueueCategory, offset: u32, limit: u32)
        -> (r: AutomationQueuePage)
        requires
            checkpoint.queue@.len() + checkpoint.claims@.len() <= u32::MAX,
        ensures
            ({
                let sorted = stable_sorted(page_entries(*checkpoint, category));
                let total = sorted.len();
                let start = page_start(total, offset);
                let end = page_end(total, offset, limit);
                &&& r.category == category
                &&& r.total == total
                &&& r.items@ == sorted.subrange(start as int, end as int)
                &&& r.next_offset == if end < total { Some(end as u32) } else { None }
            }),
    {
        automation_queue_page(checkpoint, category, offset, limit)
    }
}

/// A page holds at most 50 entries, and never more than the category lists.
pub proof fn lemma_page_bounded(total: nat, offset: u32, limit: u32)
    ensures
        page_start(total, offset) <= page_end(total, offset, limit) <= total,
        page_end(total, offset, limit) - page_start(total, offset) <= 50,
        page_end(total, offset, limit) - page_start(total, offset) >= 1 || page_start(total, offset) == total,
{
}


pub open spec fn page_ordered(s: Seq<AutomationQueueProjectionItem>) -> bool {
    forall|i: int, j: int| 0 <= i && j == i + 1 && j < s.len() ==> page_order(#[trigger] s[i], #[trigger] s[j]) <= 0
}

proof fn lemma_page_order_antisym(a: AutomationQueueProjectionItem, b: AutomationQueueProjectionItem)
    ensures
        page_order(a, b) == -page_order(b, a),
{
    crate::order::lemma_text_order_eq(a.issue_identifier@, b.issue_identifier@);
    crate::order::lemma_text_order_eq(a.issue_id@, b.issue_id@);
}

proof fn lemma_insert_stable_last(sorted: Seq<AutomationQueueProjectionItem>, x: AutomationQueueProjectionItem)
    ensures
        insert_stable(sorted, x).last() == x || (sorted.len() > 0 && insert_stable(sorted, x).last() == sorted.last()),
        insert_stable(sorted, x).len() == sorted.len() + 1,
    decreases sorted.len(),
{
    lemma_insert_stable_len(sorted, x);
}

proof fn lemma_insert_stable_ordered(sorted: Seq<AutomationQueueProjectionItem>, x: AutomationQueueProjectionItem)
    requires
        page_ordered(sorted),
    ensures
        page_ordered(insert_stable(sorted, x)),
    decreases sorted.len(),
{
    let r = insert_stable(sorted, x);
    lemma_insert_stable_len(sorted, x);
    if sorted.len() == 0 {
    } else if page_order(sorted.last(), x) > 0 {
        let d = sorted.drop_last();
        assert(page_ordered(d)) by {
            assert forall|i: int, j: int| 0 <= i && j == i + 1 && j < d.len() implies page_order(#[trigger] d[i], #[trigger] d[j]) <= 0 by {
                assert(d[i] == sorted[i] && d[j] == sorted[j]);
            }
        }
        lemma_insert_stable_ordered(d, x);
        let inner = insert_stable(d, x);
        lemma_insert_stable_last(d, x);
        assert(r == inner.push(sorted.last()));
        if inner.last() == x {
            lemma_page_order_antisym(sorted.last(), x);
        } else {
            assert(d.last() == sorted[sorted.len() - 2]);
            assert(page_order(sorted[sorted.len() - 2], sorted[sorted.len() - 1]) <= 0);
        }
        assert forall|i: int, j: int| 0 <= i && j == i + 1 && j < r.len() implies page_order(#[trigger] r[i], #[trigger] r[j]) <= 0 by {
            if j < inner.len() {
                assert(r[i] == inner[i] && r[j] == inner[j]);
            } else {
                assert(r[i] == inner.last());
                assert(r[j] == sorted.last());
            }
        }
    } else {
        assert(r == sorted.push(x));
        assert forall|i: int, j: int| 0 <= i && j == i + 1 && j < r.len() implies page_order(#[trigger] r[i], #[trigger] r[j]) <= 0 by {
            if j < sorted.len() {
                assert(r[i] == sorted[i] && r[j] == sorted[j]);
            } else {
                assert(r[i] == sorted.last());
            }
        }
    }
}

/// Queue pages are ordered: by priority (unprioritized last), identifier and issue id.
pub proof fn lemma_stable_sorted_ordered(s: Seq<AutomationQueueProjectionItem>)
    ensures
        page_ordered(stable_sorted(s)),
    decreases s.len(),
{
    if s.len() > 0 {
        lemma_stable_sorted_ordered(s.drop_last());
        lemma_insert_stable_ordered(stable_sorted(s.drop_last()), s.last());
    }
}

/// How many queue items a category lists: those of its status, or none for a
/// category only claims have.
pub open spec fn queue_share(q: Seq<AutomationQueueItem>, category: AutomationQueueCategory) -> nat {
    match category {
        AutomationQueueCategory::Queued => queue_count(q, AutomationQueueStatus::Queued),
        AutomationQueueCategory::Blocked => queue_count(q, AutomationQueueStatus::Blocked),
        AutomationQueueCategory::Terminal => queue_count(q, AutomationQueueStatus::Terminal),
        _ => 0,
    }
}

proof fn lemma_queue_in_count(q: Seq<AutomationQueueItem>, category: AutomationQueueCategory)
    ensures
        queue_in(q, category).len() == queue_share(q, category),
    decreases q.len(),
{
    if q.len() > 0 {
        lemma_queue_in_count(q.drop_last(), category);
    }
}

proof fn lemma_claims_in_count(c: Seq<AutomationIssueClaim>, category: AutomationQueueCategory)
    ensures
        claims_in(c, category).len() == claim_count(c, category),
    decreases c.len(),
{
    if c.len() > 0 {
        lemma_claims_in_count(c.drop_last(), category);
    }
}

/// Each queue count is the total of the page of its category: a category's
/// page lists exactly the items and claims that its count counts.
pub proof fn lemma_counts_match_pages(ck: AutomationRootCheckpoint)
    ensures
        counts_spec(ck).0 == stable_sorted(page_entries(ck, AutomationQueueCategory::Queued)).len(),
        counts_spec(ck).1 == stable_sorted(page_entries(ck, AutomationQueueCategory::Running)).len(),
        counts_spec(ck).2 == stable_sorted(page_entries(ck, AutomationQueueCategory::Blocked)).len(),
        counts_spec(ck).3 == stable_sorted(page_entries(ck, AutomationQueueCategory::WaitingGate)).len(),
        counts_spec(ck).4 == stable_sorted(page_entries(ck, AutomationQueueCategory::Handoff)).len(),
        counts_spec(ck).5 == stable_sorted(page_entries(ck, AutomationQueueCategory::Terminal)).len(),
{
    let cats = seq![
        AutomationQueueCategory::Queued,
        AutomationQueueCategory::Running,
        AutomationQueueCategory::Blocked,
        AutomationQueueCategory::WaitingGate,
        AutomationQueueCategory::Handoff,
        AutomationQueueCategory::Terminal,
    ];
    assert forall|k: int| 0 <= k < 6 implies stable_sorted(page_entries(ck, #[trigger] cats[k])).len()
        == queue_share(ck.queue@, cats[k]) + claim_count(ck.claims@, cats[k]) by {
        lemma_stable_sorted_len(page_entries(ck, cats[k]));
        lemma_queue_in_count(ck.queue@, cats[k]);
        lemma_claims_in_count(ck.claims@, cats[k]);
    }
    assert(stable_sorted(page_entries(ck, cats[0])).len() == queue_share(ck.queue@, cats[0]) + claim_count(ck.claims@, cats[0]));
    assert(stable_sorted(page_entries(ck, cats[1])).len() == queue_share(ck.queue@, cats[1]) + claim_count(ck.claims@, cats[1]));
    assert(stable_sorted(page_entries(ck, cats[2])).len() == queue_share(ck.queue@, cats[2]) + claim_count(ck.claims@, cats[2]));
    assert(stable_sorted(page_entries(ck, cats[3])).len() == queue_share(ck.queue@, cats[3]) + claim_count(ck.claims@, cats[3]));
    assert(stable_sorted(page_entries(ck, cats[4])).len() == queue_share(ck.queue@, cats[4]) + claim_count(ck.claims@, cats[4]));
    assert(stable_sorted(page_entries(ck, cats[5])).len() == queue_share(ck.queue@, cats[5]) + claim_count(ck.claims@, cats[5]));
    lemma_claim_count_zero_for_queue_only(ck.claims@);
}

proof fn lemma_claim_count_zero_for_queue_only(c: Seq<AutomationIssueClaim>)
    ensures
        claim_count(c, AutomationQueueCategory::Queued) == 0,
        claim_count(c, AutomationQueueCategory::Blocked) == 0,
    decreases c.len(),
{
    if c.len() > 0 {
        lemma_claim_count_zero_for_queue_only(c.drop_last());
    }
}

} // verus!
