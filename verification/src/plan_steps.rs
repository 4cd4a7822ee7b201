//! The step list of a workflow built from its lowered entries: groups are
//! concatenated (a pipeline chains each stage on the one before), and a
//! worktree or repeat wrapper sets its policy on every step it holds.
use crate::inputs::json_view;
use crate::parser::chained;
use crate::parser::chain_pipeline;
use crate::parser::step_ids;
use crate::plan::RepeatPolicy;
use crate::plan::Step;
use crate::plan::WorktreePolicy;
use vstd::prelude::*;

verus! {

/// The steps of each group.
pub open spec fn group_views(groups: Seq<Vec<Step>>) -> Seq<Seq<Step>> {
    groups.map_values(|g: Vec<Step>| g@)
}

/// Pipeline stages as `chain_pipeline` leaves them: the first unchanged, each
/// step of a later stage also needing every step of the stage before.
pub open spec fn pipeline_chained(groups: Seq<Seq<Step>>, r: Seq<Seq<Step>>) -> bool {
    &&& r.len() == groups.len()
    &&& forall|k: int| 0 <= k < r.len() ==> (#[trigger] r[k]).len() == groups[k].len()
    &&& r.len() > 0 ==> r[0] == groups[0]
    &&& forall|k: int, j: int| 0 < k < r.len() && 0 <= j < r[k].len()
        ==> chained(#[trigger] groups[k][j], #[trigger] r[k][j], step_ids(groups[k - 1]))
}

/// Two repeat policies that say the same.
pub open spec fn same_repeat(a: RepeatPolicy, b: RepeatPolicy) -> bool {
    &&& a.max_rounds == b.max_rounds
    &&& a.until_output@ == b.until_output@
    &&& json_view(a.equals) == json_view(b.equals)
    &&& a.stop_on_no_progress == b.stop_on_no_progress
}

fn copy_repeat(p: &RepeatPolicy) -> (r: RepeatPolicy)
    ensures
        same_repeat(r, *p),
{
    RepeatPolicy {
        max_rounds: p.max_rounds,
        until_output: crate::text::to_owned_string(p.until_output.as_str()),
        equals: crate::inputs::copy_json(&p.equals),
        stop_on_no_progress: p.stop_on_no_progress,
    }
}

/// The steps of a group, in order, each group's after the one before; a
/// pipeline's stages are chained first.
pub fn flatten_groups(groups: Vec<Vec<Step>>, pipeline: bool) -> (r: Vec<Step>)
    ensures
        !pipeline ==> r@ == group_views(groups@).flatten(),
        pipeline ==> exists|cs: Seq<Seq<Step>>| pipeline_chained(group_views(groups@), cs) && r@ == cs.flatten(),
{
    let ghost gv = group_views(groups@);
    let staged = if pipeline { chain_pipeline(groups) } else { groups };
    let ghost sv = group_views(staged@);
    proof {
        if pipeline {
            assert(pipeline_chained(gv, sv));
        } else {
            assert(sv == gv);
        }
    }
    let mut rest = staged;
    let mut out: Vec<Step> = Vec::new();
    let mut k: usize = 0;
    let n = rest.len();
    proof {
        assert(group_views(rest@) =~= sv.skip(0));
        assert(sv.take(0) =~= Seq::<Seq<Step>>::empty());
    }
    while rest.len() > 0
        invariant
            k + rest@.len() == n,
            n == sv.len(),
            group_views(rest@) == sv.skip(k as int),
            out@ == sv.take(k as int).flatten_alt(),
        decreases rest@.len(),
    {
        let ghost before = rest@;
        let mut group = rest.remove(0);
        proof {
            assert(group_views(before)[0] == group@);
            assert(sv.skip(k as int)[0] == sv[k as int]);
            assert(group_views(rest@) =~= sv.skip(k + 1)) by {
                assert forall|i: int| 0 <= i < rest@.len() implies #[trigger] group_views(rest@)[i] == sv.skip(k + 1)[i] by {
                    assert(rest@[i] == before[i + 1]);
                    assert(group_views(before)[i + 1] == sv.skip(k as int)[i + 1]);
                }
            }
            assert(sv.take(k + 1).drop_last() =~= sv.take(k as int));
            assert(sv.take(k + 1).last() == sv[k as int]);
        }
        out.append(&mut group);
        k = k + 1;
    }
    proof {
        assert(sv.take(n as int) =~= sv);
        sv.lemma_flatten_and_flatten_alt_are_equivalent();
    }
    out
}

/// The steps with the worktree policy set on each.
pub fn with_worktree(steps: Vec<Step>, policy: WorktreePolicy) -> (r: Vec<Step>)
    ensures
        r@.len() == steps@.len(),
        forall|i: int| 0 <= i < r@.len() ==> #[trigger] r@[i] == (Step { worktree: policy, ..steps@[i] }),
{
    let ghost orig = steps@;
    let mut rest = steps;
    let mut out: Vec<Step> = Vec::new();
    while rest.len() > 0
        invariant
            out@.len() + rest@.len() == orig.len(),
            rest@ == orig.skip(out@.len() as int),
            forall|i: int| 0 <= i < out@.len() ==> #[trigger] out@[i] == (Step { worktree: policy, ..orig[i] }),
        decreases rest@.len(),
    {
        let ghost before = rest@;
        let mut s = rest.remove(0);
        proof {
            assert(before[0] == orig[out@.len() as int]);
            assert(rest@ =~= orig.skip(out@.len() as int + 1));
        }
        s.worktree = policy;
        out.push(s);
    }
    out
}

/// The steps with the repeat policy set on each.
pub fn with_repeat(steps: Vec<Step>, policy: &RepeatPolicy) -> (r: Vec<Step>)
    ensures
        r@.len() == steps@.len(),
        forall|i: int| 0 <= i < r@.len() ==> {
            &&& #[trigger] r@[i] == (Step { repeat: r@[i].repeat, ..steps@[i] })
            &&& r@[i].repeat matches Some(p) && same_repeat(p, *policy)
        },
{
    let ghost orig = steps@;
    let mut rest = steps;
    let mut out: Vec<Step> = Vec::new();
    while rest.len() > 0
        invariant
            out@.len() + rest@.len() == orig.len(),
            rest@ == orig.skip(out@.len() as int),
            forall|i: int| 0 <= i < out@.len() ==> {
                &&& #[trigger] out@[i] == (Step { repeat: out@[i].repeat, ..orig[i] })
                &&& out@[i].repeat matches Some(p) && same_repeat(p, *policy)
            },
        decreases rest@.len(),
    {
        let ghost before = rest@;
        let mut s = rest.remove(0);
        proof {
            assert(before[0] == orig[out@.len() as int]);
            assert(rest@ =~= orig.skip(out@.len() as int + 1));
        }
        s.repeat = Some(copy_repeat(policy));
        out.push(s);
    }
    out
}

} // verus!
