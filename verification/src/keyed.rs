//! Ordered keyed sequences: where a key belongs in ascending keys, and what
//! inserting at that place keeps.
use crate::automation_run::claim_keys;
use crate::automation_run::keys_ascending;
use crate::automation_run::queue_keys;
use crate::automation_run::AutomationIssueClaim;
use crate::automation_run::AutomationQueueItem;
use crate::order::lemma_text_order_eq;
use crate::order::lemma_text_order_transitive;
use crate::order::text_order;
use vstd::prelude::*;

verus! {

/// The number of keys that order before `key`, counted from the end while they do not.
pub open spec fn lower_bound(keys: Seq<Seq<char>>, key: Seq<char>) -> int
    decreases keys.len(),
{
    if keys.len() == 0 {
        0
    } else if text_order(keys.last(), key) < 0 {
        keys.len() as int
    } else {
        lower_bound(keys.drop_last(), key)
    }
}

/// In ascending keys, the lower bound splits the keys before `key` from those not before it.
pub proof fn lemma_lower_bound(keys: Seq<Seq<char>>, key: Seq<char>)
    requires
        keys_ascending(keys),
    ensures
        0 <= lower_bound(keys, key) <= keys.len(),
        forall|j: int| 0 <= j < lower_bound(keys, key) ==> text_order(#[trigger] keys[j], key) < 0,
        forall|j: int| lower_bound(keys, key) <= j < keys.len() ==> text_order(#[trigger] keys[j], key) >= 0,
    decreases keys.len(),
{
    if keys.len() > 0 {
        let last = keys.last();
        if text_order(last, key) < 0 {
            assert forall|j: int| 0 <= j < keys.len() implies text_order(#[trigger] keys[j], key) < 0 by {
                if j < keys.len() - 1 {
                    lemma_text_order_transitive(keys[j], last, key);
                }
            }
        } else {
            assert(keys_ascending(keys.drop_last()));
            lemma_lower_bound(keys.drop_last(), key);
            let p = lower_bound(keys.drop_last(), key);
            assert forall|j: int| p <= j < keys.len() implies text_order(#[trigger] keys[j], key) >= 0 by {
                if j < keys.len() - 1 {
                    assert(keys.drop_last()[j] == keys[j]);
                }
            }
            assert forall|j: int| 0 <= j < p implies text_order(#[trigger] keys[j], key) < 0 by {
                assert(keys.drop_last()[j] == keys[j]);
            }
        }
    }
}

/// Inserting a new key at its lower bound keeps the keys ascending.
pub proof fn lemma_insert_ascending(keys: Seq<Seq<char>>, key: Seq<char>)
    requires
        keys_ascending(keys),
        !keys.contains(key),
    ensures
        keys_ascending(keys.insert(lower_bound(keys, key), key)),
{
    lemma_lower_bound(keys, key);
    let p = lower_bound(keys, key);
    let n = keys.insert(p, key);
    assert forall|j: int| p <= j < keys.len() implies text_order(key, #[trigger] keys[j]) < 0 by {
        lemma_text_order_eq(keys[j], key);
        assert(keys[j] != key);
    }
    assert forall|i: int, j: int| 0 <= i < j < n.len() implies text_order(#[trigger] n[i], #[trigger] n[j]) < 0 by {
        if j < p {
            assert(n[i] == keys[i] && n[j] == keys[j]);
        } else if j == p {
            assert(n[i] == keys[i]);
        } else if i < p {
            assert(n[i] == keys[i] && n[j] == keys[j - 1]);
            lemma_text_order_transitive(keys[i], key, keys[j - 1]);
        } else if i == p {
            assert(n[j] == keys[j - 1]);
        } else {
            assert(n[i] == keys[i - 1] && n[j] == keys[j - 1]);
        }
    }
}

/// Where a claim keyed `key` belongs, and whether a claim with that key is there.
pub fn claim_slot(claims: &Vec<AutomationIssueClaim>, key: &str) -> (r: (usize, bool))
    requires
        keys_ascending(claim_keys(claims@)),
    ensures
        r.0 == lower_bound(claim_keys(claims@), key@),
        r.0 <= claims@.len(),
        r.1 == (r.0 < claims@.len() && claims@[r.0 as int].claim_id@ == key@),
        r.1 == claim_keys(claims@).contains(key@),
{
    let ghost keys = claim_keys(claims@);
    let mut k: usize = claims.len();
    proof {
        assert(keys.take(k as int) =~= keys);
    }
    while k > 0 && crate::order::compare_text(claims[k - 1].claim_id.as_str(), key) >= 0
        invariant
            k <= claims@.len(),
            keys == claim_keys(claims@),
            lower_bound(keys, key@) == lower_bound(keys.take(k as int), key@),
        decreases k,
    {
        proof {
            let t = keys.take(k as int);
            assert(t.drop_last() =~= keys.take(k - 1));
            assert(t.last() == keys[k - 1]);
        }
        k = k - 1;
    }
    proof {
        let t = keys.take(k as int);
        if k > 0 {
            assert(t.last() == keys[k - 1]);
        }
        lemma_lower_bound(keys, key@);
    }
    let found = k < claims.len() && crate::text::str_eq(claims[k].claim_id.as_str(), key);
    proof {
        if keys.contains(key@) {
            let j = choose|j: int| 0 <= j < keys.len() && keys[j] == key@;
            crate::order::lemma_text_order_eq(keys[j], key@);
            if j > k {
                assert(text_order(keys[k as int], key@) >= 0);
                lemma_text_order_eq(keys[k as int], key@);
                if keys[k as int] != key@ {
                    assert(text_order(keys[k as int], keys[j]) < 0);
                    lemma_text_order_eq(keys[k as int], keys[j]);
                }
            }
        }
        if found {
            assert(keys[k as int] == key@);
        }
    }
    (k, found)
}

/// Where a queue item keyed `key` belongs, and whether one with that key is there.
pub fn queue_slot(queue: &Vec<AutomationQueueItem>, key: &str) -> (r: (usize, bool))
    requires
        keys_ascending(queue_keys(queue@)),
    ensures
        r.0 == lower_bound(queue_keys(queue@), key@),
        r.0 <= queue@.len(),
        r.1 == (r.0 < queue@.len() && queue@[r.0 as int].issue_id@ == key@),
        r.1 == queue_keys(queue@).contains(key@),
{
    let ghost keys = queue_keys(queue@);
    let mut k: usize = queue.len();
    proof {
        assert(keys.take(k as int) =~= keys);
    }
    while k > 0 && crate::order::compare_text(queue[k - 1].issue_id.as_str(), key) >= 0
        invariant
            k <= queue@.len(),
            keys == queue_keys(queue@),
            lower_bound(keys, key@) == lower_bound(keys.take(k as int), key@),
        decreases k,
    {
        proof {
            let t = keys.take(k as int);
            assert(t.drop_last() =~= keys.take(k - 1));
            assert(t.last() == keys[k - 1]);
        }
        k = k - 1;
    }
    proof {
        let t = keys.take(k as int);
        if k > 0 {
            assert(t.last() == keys[k - 1]);
        }
        lemma_lower_bound(keys, key@);
    }
    let found = k < queue.len() && crate::text::str_eq(queue[k].issue_id.as_str(), key);
    proof {
        if keys.contains(key@) {
            let j = choose|j: int| 0 <= j < keys.len() && keys[j] == key@;
            crate::order::lemma_text_order_eq(keys[j], key@);
            if j > k {
                assert(text_order(keys[k as int], key@) >= 0);
                lemma_text_order_eq(keys[k as int], key@);
                if keys[k as int] != key@ {
                    assert(text_order(keys[k as int], keys[j]) < 0);
                    lemma_text_order_eq(keys[k as int], keys[j]);
                }
            }
        }
        if found {
            assert(keys[k as int] == key@);
        }
    }
    (k, found)
}


pub proof fn lemma_lower_bound_len(keys: Seq<Seq<char>>, key: Seq<char>)
    ensures
        0 <= lower_bound(keys, key) <= keys.len(),
    decreases keys.len(),
{
    if keys.len() > 0 {
        lemma_lower_bound_len(keys.drop_last(), key);
    }
}

} // verus!
