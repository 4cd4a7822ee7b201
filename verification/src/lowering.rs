//! Lowering a parsed workflow expression to the shape of its steps.
//!
//! A step call becomes its fields as JSON data; the combinators (`parallel`,
//! `pipeline`, `worktree`, `repeat`) keep their structure, so a caller that
//! decodes the step data can finish the plan.
use crate::compiler::CompileError;
use crate::inputs::JsonView;
use crate::inputs::insert_member;
use crate::inputs::json_view;
use crate::json::JsonValue;
use crate::parser::Ast;
use crate::parser::AstView;
use crate::parser::ast_json;
use crate::parser::ast_to_json;
use crate::parser::ast_view;
use crate::parser::asts_view;
use crate::parser::entries_view;
use crate::parser::members_json;
use crate::plan::WorktreePolicy;
use crate::text::push_str;
use crate::text::str_eq;
use crate::text::to_owned_string;
use vstd::prelude::*;

verus! {

/// An entry of a workflow's step list, lowered.
pub enum Lowered {
    /// A step call: its fields as a JSON object with a `kind` member naming the call.
    Step(JsonValue),
    /// `parallel` (`false`) or `pipeline` (`true`) of lowered entries, in order.
    Group(bool, Vec<Lowered>),
    /// Every step of the entry runs with this worktree policy.
    Worktree(Box<Lowered>, WorktreePolicy),
    /// Every step of the entry repeats under this policy, as JSON data.
    Repeat(Box<Lowered>, JsonValue),
}

/// A lowered entry as plain values.
pub enum LoweredView {
    Step(JsonView),
    Group(bool, Seq<LoweredView>),
    Worktree(Box<LoweredView>, WorktreePolicy),
    Repeat(Box<LoweredView>, JsonView),
}

pub open spec fn lowered_view(l: Lowered) -> LoweredView
    decreases l, 0int,
{
    match l {
        Lowered::Step(v) => LoweredView::Step(json_view(v)),
        Lowered::Group(chained, ls) => LoweredView::Group(chained, lowered_prefix(ls@, ls@.len() as int)),
        Lowered::Worktree(inner, policy) => LoweredView::Worktree(Box::new(lowered_view(*inner)), policy),
        Lowered::Repeat(inner, policy) => LoweredView::Repeat(Box::new(lowered_view(*inner)), json_view(policy)),
    }
}

pub open spec fn lowered_prefix(ls: Seq<Lowered>, n: int) -> Seq<LoweredView>
    decreases ls, n,
{
    if n <= 0 || n > ls.len() { Seq::empty() } else { lowered_prefix(ls, n - 1).push(lowered_view(ls[n - 1])) }
}

pub open spec fn lowered_values(ls: Seq<Lowered>) -> Seq<LoweredView> {
    ls.map_values(|l: Lowered| lowered_view(l))
}

/// The policy a `worktree` call names: the string `isolated` or `shared`.
pub open spec fn worktree_policy(a: AstView) -> Option<WorktreePolicy> {
    match a {
        AstView::Str(s) => if s == "isolated"@ {
            Some(WorktreePolicy::Isolated)
        } else if s == "shared"@ {
            Some(WorktreePolicy::Shared)
        } else {
            None
        },
        _ => None,
    }
}

pub open spec fn is_step_call(name: Seq<char>) -> bool {
    name == "agent"@ || name == "check"@ || name == "approval"@
}

pub open spec fn is_group_call(name: Seq<char>) -> bool {
    name == "parallel"@ || name == "pipeline"@
}

/// A step list entry lowered, or the message of the first error met.
pub open spec fn lower_spec(a: AstView) -> Result<LoweredView, Seq<char>>
    decreases a, 0int,
{
    match a {
        AstView::Call(name, args) => if is_step_call(name) {
            if args.len() != 1 {
                Err("`"@ + name + "` expects one object"@)
            } else {
                match args[0] {
                    AstView::Object(ms) => match members_json(ms, ms.len() as int) {
                        Err(e) => Err(e),
                        Ok(es) => Ok(LoweredView::Step(JsonView::Object(insert_member(es, "kind"@, JsonView::Str(name))))),
                    },
                    _ => Err("`"@ + name + "` expects an object"@),
                }
            }
        } else if is_group_call(name) {
            if args.len() != 1 {
                Err("`"@ + name + "` expects one array"@)
            } else {
                match args[0] {
                    AstView::Array(xs) => match lower_items(xs, xs.len() as int) {
                        Err(e) => Err(e),
                        Ok(ls) => Ok(LoweredView::Group(name == "pipeline"@, ls)),
                    },
                    _ => Err("`"@ + name + "` expects an array"@),
                }
            }
        } else if name == "worktree"@ {
            if args.len() != 2 {
                Err("`worktree` expects a step and `shared` or `isolated`"@)
            } else {
                match worktree_policy(args[1]) {
                    None => Err("invalid worktree policy"@),
                    Some(policy) => match lower_spec(args[0]) {
                        Err(e) => Err(e),
                        Ok(l) => Ok(LoweredView::Worktree(Box::new(l), policy)),
                    },
                }
            }
        } else if name == "repeat"@ {
            if args.len() != 2 {
                Err("`repeat` expects a step and policy object"@)
            } else {
                match ast_json(args[1]) {
                    Err(e) => Err(e),
                    Ok(policy) => match lower_spec(args[0]) {
                        Err(e) => Err(e),
                        Ok(l) => Ok(LoweredView::Repeat(Box::new(l), policy)),
                    },
                }
            }
        } else {
            Err("`"@ + name + "` is not valid in a step list"@)
        },
        _ => Err("steps must be Orchestra DSL calls"@),
    }
}

/// The first `n` entries of a step list lowered, or the first error among them.
pub open spec fn lower_items(xs: Seq<AstView>, n: int) -> Result<Seq<LoweredView>, Seq<char>>
    decreases xs, n,
{
    if n <= 0 || n > xs.len() {
        Ok(Seq::empty())
    } else {
        match lower_items(xs, n - 1) {
            Err(e) => Err(e),
            Ok(ls) => match lower_spec(xs[n - 1]) {
                Err(e) => Err(e),
                Ok(l) => Ok(ls.push(l)),
            },
        }
    }
}

/// The index of the first entry at or after `i` whose key is `k`.
pub open spec fn first_entry(ms: Seq<(Seq<char>, AstView)>, k: Seq<char>, i: int) -> Option<int>
    decreases ms.len() - i,
{
    if i < 0 || i >= ms.len() {
        None
    } else if ms[i].0 == k {
        Some(i)
    } else {
        first_entry(ms, k, i + 1)
    }
}

/// A workflow's default export lowered: its step list, and its other fields as
/// a JSON object (the first `steps` entry taken out).
pub open spec fn lower_workflow_spec(a: AstView) -> Result<(Seq<LoweredView>, JsonView), Seq<char>> {
    match a {
        AstView::Call(name, args) => if !(name == "workflow"@ || name == "defineWorkflow"@) || args.len() != 1 {
            Err("default export must be one workflow call with one object argument"@)
        } else {
            match args[0] {
                AstView::Object(ms) => match first_entry(ms, "steps"@, 0) {
                    None => Err("workflow requires `steps`"@),
                    Some(i) => match ms[i].1 {
                        AstView::Array(xs) => match lower_items(xs, xs.len() as int) {
                            Err(e) => Err(e),
                            Ok(ls) => match members_json(ms.remove(i), ms.len() - 1) {
                                Err(e) => Err(e),
                                Ok(es) => Ok((ls, JsonView::Object(es))),
                            },
                        },
                        _ => Err("workflow `steps` must be an array"@),
                    },
                },
                _ => Err("workflow argument must be an object"@),
            }
        },
        _ => Err("default export must call `workflow` or `defineWorkflow`"@),
    }
}

proof fn lemma_lowered_prefix(ls: Seq<Lowered>, n: int)
    requires
        0 <= n <= ls.len(),
    ensures
        lowered_prefix(ls, n) =~= lowered_values(ls.take(n)),
    decreases n,
{
    if n > 0 {
        lemma_lowered_prefix(ls, n - 1);
        assert(lowered_values(ls.take(n)) =~= lowered_values(ls.take(n - 1)).push(lowered_view(ls[n - 1])));
    }
}

proof fn lemma_lower_items_err(xs: Seq<AstView>, i: int, n: int)
    requires
        0 <= i <= n <= xs.len(),
        lower_items(xs, i) is Err,
    ensures
        lower_items(xs, n) == lower_items(xs, i),
    decreases n - i,
{
    if n > i {
        lemma_lower_items_err(xs, i, n - 1);
    }
}

fn lowering_error(message: String) -> (r: CompileError)
    ensures
        r.offset == 0,
        r.message@ == message@,
{
    CompileError { offset: 0, message }
}

/// `` `name` `` followed by `rest`.
fn quoted_name(name: &str, rest: &str) -> (r: String)
    ensures
        r@ == "`"@ + name@ + rest@,
{
    let mut s = to_owned_string("`");
    push_str(&mut s, name);
    push_str(&mut s, rest);
    s
}

/// The entries of a step list lowered in order; the first error stops it.
fn lower_list(xs: &Vec<Ast>) -> (r: Result<Vec<Lowered>, CompileError>)
    ensures
        match lower_items(asts_view(xs@), xs@.len() as int) {
            Ok(ls) => r matches Ok(out) && lowered_values(out@) == ls,
            Err(m) => r matches Err(e) && e.offset == 0 && e.message@ == m,
        },
    decreases xs@, 1int,
{
    let ghost xv = asts_view(xs@);
    let mut out: Vec<Lowered> = Vec::new();
    let mut i: usize = 0;
    proof {
        assert(lowered_values(out@) =~= Seq::<LoweredView>::empty());
    }
    while i < xs.len()
        invariant
            i <= xs@.len(),
            xv == asts_view(xs@),
            xv.len() == xs@.len(),
            lower_items(xv, i as int) == Ok::<Seq<LoweredView>, Seq<char>>(lowered_values(out@)),
        decreases xs.len() - i,
    {
        proof {
            assert(decreases_to!(xs@ => xs@[i as int]));
            assert(xv[i as int] == ast_view(xs@[i as int]));
        }
        match lower_node(&xs[i]) {
            Ok(l) => {
                let ghost before = lowered_values(out@);
                out.push(l);
                proof {
                    assert(lowered_values(out@) =~= before.push(lowered_view(l)));
                }
            },
            Err(e) => {
                proof {
                    lemma_lower_items_err(xv, i + 1, xv.len() as int);
                }
                return Err(e);
            },
        }
        i = i + 1;
    }
    Ok(out)
}

/// One entry of a step list lowered (see `lower_spec`); errors are reported at offset 0.
pub fn lower_node(a: &Ast) -> (r: Result<Lowered, CompileError>)
    ensures
        match lower_spec(ast_view(*a)) {
            Ok(l) => r matches Ok(x) && lowered_view(x) == l,
            Err(m) => r matches Err(e) && e.offset == 0 && e.message@ == m,
        },
    decreases *a, 0int,
{
    match a {
        Ast::Call(name, args) => {
            proof {
                crate::parser::lemma_asts_all(args@);
            }
            let ghost av = asts_view(args@);
            assert(ast_view(*a) == AstView::Call(name@, av));
            if str_eq(name.as_str(), "agent") || str_eq(name.as_str(), "check") || str_eq(name.as_str(), "approval") {
                if args.len() != 1 {
                    return Err(lowering_error(quoted_name(name.as_str(), "` expects one object")));
                }
                assert(av[0] == ast_view(args@[0]));
                match &args[0] {
                    Ast::Object(_) => {
                        match ast_to_json(&args[0]) {
                            Err(e) => Err(e),
                            Ok(v) => match v {
                                JsonValue::Object(members) => {
                                    let mut members = members;
                                    proof {
                                        crate::inputs::lemma_object_view_pub(JsonValue::Object(members));
                                    }
                                    crate::inputs::insert_member_exec(
                                        &mut members,
                                        to_owned_string("kind"),
                                        JsonValue::String(to_owned_string(name.as_str())),
                                    );
                                    let body = JsonValue::Object(members);
                                    proof {
                                        crate::inputs::lemma_object_view_pub(body);
                                    }
                                    Ok(Lowered::Step(body))
                                },
                                _ => {
                                    proof {
                                        assert(false);
                                    }
                                    Err(lowering_error(to_owned_string("")))
                                },
                            },
                        }
                    },
                    _ => Err(lowering_error(quoted_name(name.as_str(), "` expects an object"))),
                }
            } else if str_eq(name.as_str(), "parallel") || str_eq(name.as_str(), "pipeline") {
                if args.len() != 1 {
                    return Err(lowering_error(quoted_name(name.as_str(), "` expects one array")));
                }
                assert(av[0] == ast_view(args@[0]));
                match &args[0] {
                    Ast::Array(xs) => {
                        proof {
                            crate::parser::lemma_asts_all(xs@);
                            assert(decreases_to!(*a => (*a)->Call_1));
                            assert(decreases_to!((*a)->Call_1 => (*a)->Call_1@));
                            assert(decreases_to!((*a)->Call_1@ => (*a)->Call_1@[0]));
                            assert(decreases_to!((*a)->Call_1@[0] => (*a)->Call_1@[0]->Array_0));
                            assert(decreases_to!((*a)->Call_1@[0]->Array_0 => (*a)->Call_1@[0]->Array_0@));
                        }
                        match lower_list(xs) {
                            Err(e) => Err(e),
                            Ok(ls) => {
                                let chained = str_eq(name.as_str(), "pipeline");
                                let r = Lowered::Group(chained, ls);
                                proof {
                                    lemma_lowered_prefix(ls@, ls@.len() as int);
                                    assert(ls@.take(ls@.len() as int) =~= ls@);
                                }
                                Ok(r)
                            },
                        }
                    },
                    _ => Err(lowering_error(quoted_name(name.as_str(), "` expects an array"))),
                }
            } else if str_eq(name.as_str(), "worktree") {
                if args.len() != 2 {
                    return Err(lowering_error(to_owned_string("`worktree` expects a step and `shared` or `isolated`")));
                }
                assert(av[0] == ast_view(args@[0]));
                assert(av[1] == ast_view(args@[1]));
                let policy = match &args[1] {
                    Ast::Str(s) => if str_eq(s.as_str(), "isolated") {
                        WorktreePolicy::Isolated
                    } else if str_eq(s.as_str(), "shared") {
                        WorktreePolicy::Shared
                    } else {
                        return Err(lowering_error(to_owned_string("invalid worktree policy")));
                    },
                    _ => {
                        return Err(lowering_error(to_owned_string("invalid worktree policy")));
                    },
                };
                proof {
                    assert(decreases_to!(*a => (*a)->Call_1));
                    assert(decreases_to!((*a)->Call_1 => (*a)->Call_1@));
                    assert(decreases_to!((*a)->Call_1@ => (*a)->Call_1@[0]));
                }
                match lower_node(&args[0]) {
                    Err(e) => Err(e),
                    Ok(inner) => Ok(Lowered::Worktree(Box::new(inner), policy)),
                }
            } else if str_eq(name.as_str(), "repeat") {
                if args.len() != 2 {
                    return Err(lowering_error(to_owned_string("`repeat` expects a step and policy object")));
                }
                assert(av[0] == ast_view(args@[0]));
                assert(av[1] == ast_view(args@[1]));
                let policy = match ast_to_json(&args[1]) {
                    Err(e) => {
                        return Err(e);
                    },
                    Ok(v) => v,
                };
                proof {
                    assert(decreases_to!(*a => (*a)->Call_1));
                    assert(decreases_to!((*a)->Call_1 => (*a)->Call_1@));
                    assert(decreases_to!((*a)->Call_1@ => (*a)->Call_1@[0]));
                }
                match lower_node(&args[0]) {
                    Err(e) => Err(e),
                    Ok(inner) => Ok(Lowered::Repeat(Box::new(inner), policy)),
                }
            } else {
                Err(lowering_error(quoted_name(name.as_str(), "` is not valid in a step list")))
            }
        },
        _ => Err(lowering_error(to_owned_string("steps must be Orchestra DSL calls"))),
    }
}

fn first_entry_exec(ms: &Vec<(String, Ast)>, k: &str) -> (r: Option<usize>)
    ensures
        r matches Some(i) ==> i < ms@.len() && first_entry(entries_view(ms@), k@, 0) == Some(i as int),
        r is None ==> first_entry(entries_view(ms@), k@, 0) is None,
{
    let ghost mv = entries_view(ms@);
    let mut i: usize = 0;
    while i < ms.len()
        invariant
            i <= ms@.len(),
            mv == entries_view(ms@),
            mv.len() == ms@.len(),
            first_entry(mv, k@, 0) == first_entry(mv, k@, i as int),
        decreases ms.len() - i,
    {
        assert(mv[i as int].0 == ms@[i as int].0@);
        if str_eq(ms[i].0.as_str(), k) {
            return Some(i);
        }
        i = i + 1;
    }
    None
}

/// A workflow's default export lowered (see `lower_workflow_spec`): the step
/// list, and the workflow's other fields as a JSON object. Errors are reported
/// at offset 0.
pub fn lower_workflow(a: Ast) -> (r: Result<(Vec<Lowered>, JsonValue), CompileError>)
    ensures
        match lower_workflow_spec(ast_view(a)) {
            Ok((ls, fields)) => r matches Ok((out, v)) && lowered_values(out@) == ls && json_view(v) == fields,
            Err(m) => r matches Err(e) && e.offset == 0 && e.message@ == m,
        },
{
    let ghost a0 = a;
    match a {
        Ast::Call(name, args) => {
            proof {
                crate::parser::lemma_asts_all(args@);
            }
            let ghost av = asts_view(args@);
            assert(ast_view(a0) == AstView::Call(name@, av));
            if !(str_eq(name.as_str(), "workflow") || str_eq(name.as_str(), "defineWorkflow")) || args.len() != 1 {
                return Err(lowering_error(to_owned_string("default export must be one workflow call with one object argument")));
            }
            let mut args = args;
            let first = args.remove(0);
            assert(av[0] == ast_view(first));
            match first {
                Ast::Object(entries) => {
                    proof {
                        crate::parser::lemma_entries_all(entries@);
                    }
                    let ghost mv = entries_view(entries@);
                    assert(ast_view(Ast::Object(entries)) == AstView::Object(mv));
                    let index = match first_entry_exec(&entries, "steps") {
                        None => {
                            return Err(lowering_error(to_owned_string("workflow requires `steps`")));
                        },
                        Some(i) => i,
                    };
                    let mut entries = entries;
                    let (_key, steps) = entries.remove(index);
                    assert(mv[index as int].1 == ast_view(steps));
                    proof {
                        assert(entries_view(entries@) =~= mv.remove(index as int));
                    }
                    match steps {
                        Ast::Array(xs) => {
                            proof {
                                crate::parser::lemma_asts_all(xs@);
                            }
                            assert(ast_view(Ast::Array(xs)) == AstView::Array(asts_view(xs@)));
                            let lowered = match lower_list(&xs) {
                                Err(e) => {
                                    return Err(e);
                                },
                                Ok(ls) => ls,
                            };
                            let rest = Ast::Object(entries);
                            proof {
                                crate::parser::lemma_entries_all(entries@);
                            }
                            match ast_to_json(&rest) {
                                Err(e) => Err(e),
                                Ok(fields) => Ok((lowered, fields)),
                            }
                        },
                        _ => Err(lowering_error(to_owned_string("workflow `steps` must be an array"))),
                    }
                },
                _ => Err(lowering_error(to_owned_string("workflow argument must be an object"))),
            }
        },
        _ => Err(lowering_error(to_owned_string("default export must call `workflow` or `defineWorkflow`"))),
    }
}

} // verus!
