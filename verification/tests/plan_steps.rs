use orchestra_core::json::JsonValue;
use orchestra_core::plan::Action;
use orchestra_core::plan::CheckStep;
use orchestra_core::plan::RepeatPolicy;
use orchestra_core::plan::Step;
use orchestra_core::plan::WorktreePolicy;
use orchestra_core::plan_steps::flatten_groups;
use orchestra_core::plan_steps::with_repeat;
use orchestra_core::plan_steps::with_worktree;

fn step(id: &str, needs: &[&str]) -> Step {
    Step {
        id: id.into(),
        needs: needs.iter().map(|n| n.to_string()).collect(),
        max_attempts: 1,
        repeat: None,
        worktree: WorktreePolicy::Shared,
        write_scope: Vec::new(),
        action: Action::Check(CheckStep { command: vec!["true".into()], cwd: None, timeout_ms: 1000 }),
    }
}

fn ids(steps: &[Step]) -> Vec<String> {
    steps.iter().map(|s| s.id.clone()).collect()
}

#[test]
fn parallel_groups_are_concatenated_in_order() {
    let flat = flatten_groups(vec![vec![step("a", &[]), step("b", &[])], vec![step("c", &[])]], false);
    assert_eq!(ids(&flat), vec!["a", "b", "c"]);
    assert!(flat.iter().all(|s| s.needs.is_empty()));
}

#[test]
fn pipeline_stages_need_the_stage_before() {
    let flat = flatten_groups(vec![vec![step("a", &[]), step("b", &[])], vec![step("c", &["x"])], vec![step("d", &[])]], true);
    assert_eq!(ids(&flat), vec!["a", "b", "c", "d"]);
    assert!(flat[0].needs.is_empty() && flat[1].needs.is_empty());
    assert_eq!(flat[2].needs, vec!["x", "a", "b"]);
    assert_eq!(flat[3].needs, vec!["c"]);
}

#[test]
fn wrappers_set_their_policy_on_every_step() {
    let isolated = with_worktree(vec![step("a", &[]), step("b", &["a"])], WorktreePolicy::Isolated);
    assert!(isolated.iter().all(|s| s.worktree == WorktreePolicy::Isolated));
    assert_eq!(isolated[1].needs, vec!["a"]);
    let policy = RepeatPolicy {
        max_rounds: 3,
        until_output: "done".into(),
        equals: JsonValue::Bool(true),
        stop_on_no_progress: true,
    };
    let repeated = with_repeat(isolated, &policy);
    assert_eq!(ids(&repeated), vec!["a", "b"]);
    for s in &repeated {
        let r = s.repeat.as_ref().unwrap();
        assert_eq!(r.max_rounds, 3);
        assert_eq!(r.until_output, "done");
        assert!(matches!(r.equals, JsonValue::Bool(true)));
        assert!(r.stop_on_no_progress);
        assert_eq!(s.worktree, WorktreePolicy::Isolated);
    }
}
