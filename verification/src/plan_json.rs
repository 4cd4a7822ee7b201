//! A workflow plan as JSON data, in the shape a compiled artifact records it.
use crate::inputs::JsonView;
use crate::inputs::entries_view;
use crate::inputs::json_view;
use crate::inputs::values_view;
use crate::json::JsonValue;
use crate::plan::Action;
use crate::plan::ContextSource;
use crate::plan::ExecutionPlan;
use crate::plan::ForkTurns;
use crate::plan::InputDefault;
use crate::plan::InputDefinition;
use crate::plan::InputKind;
use crate::plan::RepeatPolicy;
use crate::plan::SkillRequirement;
use crate::plan::Step;
use crate::plan::WorktreePolicy;
use crate::profile_json::member;
use crate::profile_json::num;
use crate::profile_json::number_value;
use crate::profile_json::object_value;
use crate::profile_json::optional_value;
use crate::profile_json::text_or_null;
use crate::profile_json::text_value;
use crate::profile_json::texts_json;
use crate::profile_json::texts_value;
use crate::text::to_owned_string;
use vstd::prelude::*;

verus! {

pub open spec fn str_view(s: Seq<char>) -> JsonView {
    JsonView::Str(s)
}

pub open spec fn context_view(c: ContextSource) -> JsonView {
    match c {
        ContextSource::File { path } => JsonView::Object(seq![("type"@, str_view("file"@)), ("path"@, str_view(path@))]),
        ContextSource::Range { path, start, end } => JsonView::Object(seq![
            ("type"@, str_view("range"@)),
            ("path"@, str_view(path@)),
            ("start"@, num(start as nat)),
            ("end"@, num(end as nat)),
        ]),
        ContextSource::Diff { from, to, paths } => JsonView::Object(seq![
            ("type"@, str_view("diff"@)),
            ("from"@, str_view(from@)),
            ("to"@, str_view(to@)),
            ("paths"@, texts_json(paths@)),
        ]),
        ContextSource::Revision { revision, path } => JsonView::Object(seq![
            ("type"@, str_view("revision"@)),
            ("revision"@, str_view(revision@)),
            ("path"@, str_view(path@)),
        ]),
        ContextSource::DependencyOutput { step, output } => JsonView::Object(seq![
            ("type"@, str_view("dependency_output"@)),
            ("step"@, str_view(step@)),
            ("output"@, str_view(output@)),
        ]),
        ContextSource::Input { input } => JsonView::Object(seq![("type"@, str_view("input"@)), ("input"@, str_view(input@))]),
    }
}

pub open spec fn skill_view(s: SkillRequirement) -> JsonView {
    JsonView::Object(seq![
        ("name"@, str_view(s.name@)),
        ("requires"@, texts_json(s.requires@)),
        ("resources"@, texts_json(s.resources@)),
    ])
}

pub open spec fn fork_view(f: ForkTurns) -> JsonView {
    match f {
        ForkTurns::Disabled => str_view("none"@),
        ForkTurns::All => str_view("all"@),
        ForkTurns::Last(n) => JsonView::Object(seq![("last"@, num(n as nat))]),
    }
}

pub open spec fn bool_view(b: bool) -> JsonView {
    JsonView::Bool(b)
}

/// The members an action adds to its step: its kind and its fields.
pub open spec fn action_members(a: Action) -> Seq<(Seq<char>, JsonView)> {
    match a {
        Action::Agent(g) => seq![
            ("kind"@, str_view("agent"@)),
            ("prompt"@, str_view(g.prompt@)),
            ("model"@, str_view(g.model@)),
            ("reasoning_effort"@, text_or_null(g.reasoning_effort)),
            ("service_tier"@, text_or_null(g.service_tier)),
            ("fork_turns"@, fork_view(g.fork_turns)),
            ("context"@, JsonView::Array(g.context@.map_values(|c: ContextSource| context_view(c)))),
            ("skills"@, JsonView::Array(g.skills@.map_values(|s: SkillRequirement| skill_view(s)))),
            ("outputs"@, texts_json(g.outputs@)),
            ("allow_delegation"@, bool_view(g.allow_delegation)),
        ],
        Action::Check(c) => seq![
            ("kind"@, str_view("check"@)),
            ("command"@, texts_json(c.command@)),
            ("cwd"@, text_or_null(c.cwd)),
            ("timeout_ms"@, num(c.timeout_ms as nat)),
        ],
        Action::Approval(a) => seq![
            ("kind"@, str_view("approval"@)),
            ("prompt"@, str_view(a.prompt@)),
            ("choices"@, texts_json(a.choices@)),
        ],
    }
}

pub open spec fn repeat_view(r: Option<RepeatPolicy>) -> JsonView {
    match r {
        None => JsonView::Null,
        Some(p) => JsonView::Object(seq![
            ("max_rounds"@, num(p.max_rounds as nat)),
            ("until_output"@, str_view(p.until_output@)),
            ("equals"@, json_view(p.equals)),
            ("stop_on_no_progress"@, bool_view(p.stop_on_no_progress)),
        ]),
    }
}

pub open spec fn step_view(s: Step) -> JsonView {
    JsonView::Object(seq![
        ("id"@, str_view(s.id@)),
        ("needs"@, texts_json(s.needs@)),
        ("max_attempts"@, num(s.max_attempts as nat)),
        ("repeat"@, repeat_view(s.repeat)),
        ("worktree"@, str_view(if s.worktree == WorktreePolicy::Shared { "shared"@ } else { "isolated"@ })),
        ("write_scope"@, texts_json(s.write_scope@)),
    ] + action_members(s.action))
}

pub open spec fn kind_text(k: InputKind) -> Seq<char> {
    match k {
        InputKind::String => "string"@,
        InputKind::Number => "number"@,
        InputKind::Boolean => "boolean"@,
        InputKind::Object => "object"@,
        InputKind::Array => "array"@,
        InputKind::Json => "json"@,
    }
}

/// An input definition; a missing default is left out.
pub open spec fn input_view(d: InputDefinition) -> JsonView {
    JsonView::Object(seq![("type"@, str_view(kind_text(d.kind))), ("required"@, bool_view(d.required))] + match d.default {
        InputDefault::Missing => Seq::empty(),
        InputDefault::Value(v) => seq![("default"@, json_view(v))],
    })
}

/// A plan as JSON data.
pub open spec fn plan_view(p: ExecutionPlan) -> JsonView {
    JsonView::Object(seq![
        ("name"@, str_view(p.name@)),
        ("description"@, str_view(p.description@)),
        ("inputs"@, JsonView::Object(p.inputs@.map_values(|e: (String, InputDefinition)| (e.0@, input_view(e.1))))),
        ("max_parallel"@, num(p.max_parallel as nat)),
        ("steps"@, JsonView::Array(p.steps@.map_values(|s: Step| step_view(s)))),
    ])
}

fn array_of(items: Vec<JsonValue>) -> (r: JsonValue)
    ensures
        json_view(r) == JsonView::Array(values_view(items@)),
{
    let r = JsonValue::Array(items);
    proof {
        crate::inputs::lemma_array_view_pub(r);
    }
    r
}

fn named(name: &str) -> (r: JsonValue)
    ensures
        json_view(r) == str_view(name@),
{
    JsonValue::String(to_owned_string(name))
}

fn context_value(c: &ContextSource) -> (r: JsonValue)
    ensures
        json_view(r) == context_view(*c),
{
    let mut ms: Vec<(String, JsonValue)> = Vec::new();
    match c {
        ContextSource::File { path } => {
            ms.push(member("type", named("file")));
            ms.push(member("path", text_value(path)));
        },
        ContextSource::Range { path, start, end } => {
            ms.push(member("type", named("range")));
            ms.push(member("path", text_value(path)));
            ms.push(member("start", number_value(*start as u64)));
            ms.push(member("end", number_value(*end as u64)));
        },
        ContextSource::Diff { from, to, paths } => {
            ms.push(member("type", named("diff")));
            ms.push(member("from", text_value(from)));
            ms.push(member("to", text_value(to)));
            ms.push(member("paths", texts_value(paths)));
        },
        ContextSource::Revision { revision, path } => {
            ms.push(member("type", named("revision")));
            ms.push(member("revision", text_value(revision)));
            ms.push(member("path", text_value(path)));
        },
        ContextSource::DependencyOutput { step, output } => {
            ms.push(member("type", named("dependency_output")));
            ms.push(member("step", text_value(step)));
            ms.push(member("output", text_value(output)));
        },
        ContextSource::Input { input } => {
            ms.push(member("type", named("input")));
            ms.push(member("input", text_value(input)));
        },
    }
    proof {
        assert(entries_view(ms@) =~= context_view(*c)->Object_0);
    }
    object_value(ms)
}

fn contexts_value(xs: &Vec<ContextSource>) -> (r: JsonValue)
    ensures
        json_view(r) == JsonView::Array(xs@.map_values(|c: ContextSource| context_view(c))),
{
    let mut out: Vec<JsonValue> = Vec::new();
    let mut i: usize = 0;
    while i < xs.len()
        invariant
            i <= xs@.len(),
            values_view(out@) == xs@.take(i as int).map_values(|c: ContextSource| context_view(c)),
        decreases xs.len() - i,
    {
        let v = context_value(&xs[i]);
        let ghost before = values_view(out@);
        out.push(v);
        proof {
            assert(values_view(out@) =~= before.push(json_view(v)));
            assert(xs@.take(i + 1).map_values(|c: ContextSource| context_view(c)) =~= xs@.take(i as int).map_values(
                |c: ContextSource| context_view(c),
            ).push(context_view(xs@[i as int])));
        }
        i = i + 1;
    }
    proof {
        assert(xs@.take(xs@.len() as int) =~= xs@);
    }
    array_of(out)
}

fn skills_value(xs: &Vec<SkillRequirement>) -> (r: JsonValue)
    ensures
        json_view(r) == JsonView::Array(xs@.map_values(|s: SkillRequirement| skill_view(s))),
{
    let mut out: Vec<JsonValue> = Vec::new();
    let mut i: usize = 0;
    while i < xs.len()
        invariant
            i <= xs@.len(),
            values_view(out@) == xs@.take(i as int).map_values(|s: SkillRequirement| skill_view(s)),
        decreases xs.len() - i,
    {
        let mut ms: Vec<(String, JsonValue)> = Vec::new();
        ms.push(member("name", text_value(&xs[i].name)));
        ms.push(member("requires", texts_value(&xs[i].requires)));
        ms.push(member("resources", texts_value(&xs[i].resources)));
        proof {
            assert(entries_view(ms@) =~= skill_view(xs@[i as int])->Object_0);
        }
        let v = object_value(ms);
        let ghost before = values_view(out@);
        out.push(v);
        proof {
            assert(values_view(out@) =~= before.push(json_view(v)));
            assert(xs@.take(i + 1).map_values(|s: SkillRequirement| skill_view(s)) =~= xs@.take(i as int).map_values(
                |s: SkillRequirement| skill_view(s),
            ).push(skill_view(xs@[i as int])));
        }
        i = i + 1;
    }
    proof {
        assert(xs@.take(xs@.len() as int) =~= xs@);
    }
    array_of(out)
}

fn step_value(s: &Step) -> (r: JsonValue)
    ensures
        json_view(r) == step_view(*s),
{
    let mut ms: Vec<(String, JsonValue)> = Vec::new();
    ms.push(member("id", text_value(&s.id)));
    ms.push(member("needs", texts_value(&s.needs)));
    ms.push(member("max_attempts", number_value(s.max_attempts as u64)));
    let repeat = match &s.repeat {
        None => JsonValue::Null,
        Some(p) => {
            let mut rs: Vec<(String, JsonValue)> = Vec::new();
            rs.push(member("max_rounds", number_value(p.max_rounds as u64)));
            rs.push(member("until_output", text_value(&p.until_output)));
            rs.push(member("equals", crate::inputs::copy_json(&p.equals)));
            rs.push(member("stop_on_no_progress", JsonValue::Bool(p.stop_on_no_progress)));
            proof {
                assert(entries_view(rs@) =~= repeat_view(s.repeat)->Object_0);
            }
            object_value(rs)
        },
    };
    ms.push(member("repeat", repeat));
    ms.push(member("worktree", match s.worktree {
        WorktreePolicy::Shared => named("shared"),
        WorktreePolicy::Isolated => named("isolated"),
    }));
    ms.push(member("write_scope", texts_value(&s.write_scope)));
    match &s.action {
        Action::Agent(g) => {
            ms.push(member("kind", named("agent")));
            ms.push(member("prompt", text_value(&g.prompt)));
            ms.push(member("model", text_value(&g.model)));
            ms.push(member("reasoning_effort", optional_value(&g.reasoning_effort)));
            ms.push(member("service_tier", optional_value(&g.service_tier)));
            let fork = match g.fork_turns {
                ForkTurns::Disabled => named("none"),
                ForkTurns::All => named("all"),
                ForkTurns::Last(n) => {
                    let mut fs: Vec<(String, JsonValue)> = Vec::new();
                    fs.push(member("last", number_value(n as u64)));
                    proof {
                        assert(entries_view(fs@) =~= fork_view(g.fork_turns)->Object_0);
                    }
                    object_value(fs)
                },
            };
            ms.push(member("fork_turns", fork));
            ms.push(member("context", contexts_value(&g.context)));
            ms.push(member("skills", skills_value(&g.skills)));
            ms.push(member("outputs", texts_value(&g.outputs)));
            ms.push(member("allow_delegation", JsonValue::Bool(g.allow_delegation)));
        },
        Action::Check(c) => {
            ms.push(member("kind", named("check")));
            ms.push(member("command", texts_value(&c.command)));
            ms.push(member("cwd", optional_value(&c.cwd)));
            ms.push(member("timeout_ms", number_value(c.timeout_ms)));
        },
        Action::Approval(a) => {
            ms.push(member("kind", named("approval")));
            ms.push(member("prompt", text_value(&a.prompt)));
            ms.push(member("choices", texts_value(&a.choices)));
        },
    }
    proof {
        assert(entries_view(ms@) =~= step_view(*s)->Object_0);
    }
    object_value(ms)
}

fn input_value(d: &InputDefinition) -> (r: JsonValue)
    ensures
        json_view(r) == input_view(*d),
{
    let kind = match d.kind {
        InputKind::String => named("string"),
        InputKind::Number => named("number"),
        InputKind::Boolean => named("boolean"),
        InputKind::Object => named("object"),
        InputKind::Array => named("array"),
        InputKind::Json => named("json"),
    };
    let mut ms: Vec<(String, JsonValue)> = Vec::new();
    ms.push(member("type", kind));
    ms.push(member("required", JsonValue::Bool(d.required)));
    match &d.default {
        InputDefault::Missing => {},
        InputDefault::Value(v) => {
            ms.push(member("default", crate::inputs::copy_json(v)));
        },
    }
    proof {
        assert(entries_view(ms@) =~= input_view(*d)->Object_0);
    }
    object_value(ms)
}

/// A plan as JSON data (see `plan_view`).
pub fn plan_json(p: &ExecutionPlan) -> (r: JsonValue)
    ensures
        json_view(r) == plan_view(*p),
{
    let mut inputs: Vec<(String, JsonValue)> = Vec::new();
    let mut i: usize = 0;
    while i < p.inputs.len()
        invariant
            i <= p.inputs@.len(),
            entries_view(inputs@) == p.inputs@.take(i as int).map_values(|e: (String, InputDefinition)| (e.0@, input_view(e.1))),
        decreases p.inputs.len() - i,
    {
        let v = input_value(&p.inputs[i].1);
        let k = p.inputs[i].0.clone();
        let ghost before = entries_view(inputs@);
        inputs.push((k, v));
        proof {
            assert(entries_view(inputs@) =~= before.push((k@, json_view(v))));
            assert(p.inputs@.take(i + 1).map_values(|e: (String, InputDefinition)| (e.0@, input_view(e.1))) =~= p.inputs@.take(
                i as int,
            ).map_values(|e: (String, InputDefinition)| (e.0@, input_view(e.1))).push(
                (p.inputs@[i as int].0@, input_view(p.inputs@[i as int].1)),
            ));
        }
        i = i + 1;
    }
    let mut steps: Vec<JsonValue> = Vec::new();
    let mut j: usize = 0;
    while j < p.steps.len()
        invariant
            j <= p.steps@.len(),
            values_view(steps@) == p.steps@.take(j as int).map_values(|s: Step| step_view(s)),
        decreases p.steps.len() - j,
    {
        let v = step_value(&p.steps[j]);
        let ghost before = values_view(steps@);
        steps.push(v);
        proof {
            assert(values_view(steps@) =~= before.push(json_view(v)));
            assert(p.steps@.take(j + 1).map_values(|s: Step| step_view(s)) =~= p.steps@.take(j as int).map_values(
                |s: Step| step_view(s),
            ).push(step_view(p.steps@[j as int])));
        }
        j = j + 1;
    }
    proof {
        assert(p.inputs@.take(p.inputs@.len() as int) =~= p.inputs@);
        assert(p.steps@.take(p.steps@.len() as int) =~= p.steps@);
    }
    let mut ms: Vec<(String, JsonValue)> = Vec::new();
    ms.push(member("name", text_value(&p.name)));
    ms.push(member("description", text_value(&p.description)));
    ms.push(member("inputs", object_value(inputs)));
    ms.push(member("max_parallel", number_value(p.max_parallel as u64)));
    ms.push(member("steps", array_of(steps)));
    proof {
        assert(entries_view(ms@) =~= plan_view(*p)->Object_0);
    }
    object_value(ms)
}

} // verus!
