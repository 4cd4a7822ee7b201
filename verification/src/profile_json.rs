//! An automation profile as JSON data, with camel-case field names, and the
//! digest of its canonical form that identifies the profile.
use crate::automation::AutomationEffect;
use crate::automation::AutomationProfile;
use crate::automation::AutomationSecretKind;
use crate::automation::AutomationSecretReference;
use crate::automation::effect_name;
use crate::evaluator::EvaluatorError;
use crate::evaluator::canonical_digest;
use crate::inputs::JsonView;
use crate::inputs::entries_view;
use crate::inputs::json_view;
use crate::inputs::values_view;
use crate::json::JsonValue;
use crate::text::decimal;
use crate::text::to_owned_string;
use vstd::prelude::*;

verus! {

pub open spec fn num(n: nat) -> JsonView {
    JsonView::Number(decimal(n))
}

pub open spec fn text_or_null(s: Option<String>) -> JsonView {
    match s {
        Some(t) => JsonView::Str(t@),
        None => JsonView::Null,
    }
}

pub open spec fn texts_json(xs: Seq<String>) -> JsonView {
    JsonView::Array(xs.map_values(|s: String| JsonView::Str(s@)))
}

pub open spec fn secret_json(s: AutomationSecretReference) -> JsonView {
    JsonView::Object(seq![
        ("kind"@, JsonView::Str(match s.kind {
            AutomationSecretKind::Environment => "environment"@,
            AutomationSecretKind::InlineDigest => "inline_digest"@,
        })),
        ("reference"@, JsonView::Str(s.reference@)),
        ("digest"@, JsonView::Str(s.digest@)),
    ])
}

/// A profile as JSON data: every section and field, in declaration order.
pub open spec fn profile_view(p: AutomationProfile) -> JsonView {
    JsonView::Object(seq![
        ("tracker"@, JsonView::Object(seq![
            ("kind"@, JsonView::Str(p.tracker.kind@)),
            ("endpoint"@, JsonView::Str(p.tracker.endpoint@)),
            ("projectSlug"@, JsonView::Str(p.tracker.project_slug@)),
            ("requiredLabels"@, texts_json(p.tracker.required_labels@)),
            ("activeStates"@, texts_json(p.tracker.active_states@)),
            ("terminalStates"@, texts_json(p.tracker.terminal_states@)),
            ("credential"@, secret_json(p.tracker.credential)),
        ])),
        ("polling"@, JsonView::Object(seq![("intervalMs"@, num(p.polling.interval_ms as nat))])),
        ("workspace"@, JsonView::Object(seq![("root"@, JsonView::Str(p.workspace.root@))])),
        ("hooks"@, JsonView::Object(seq![
            ("afterCreate"@, text_or_null(p.hooks.after_create)),
            ("beforeRun"@, text_or_null(p.hooks.before_run)),
            ("afterRun"@, text_or_null(p.hooks.after_run)),
            ("beforeRemove"@, text_or_null(p.hooks.before_remove)),
            ("timeoutMs"@, num(p.hooks.timeout_ms as nat)),
        ])),
        ("agent"@, JsonView::Object(seq![
            ("maxConcurrentAgents"@, num(p.agent.max_concurrent_agents as nat)),
            ("maxTurns"@, num(p.agent.max_turns as nat)),
            ("maxRetryBackoffMs"@, num(p.agent.max_retry_backoff_ms as nat)),
            ("maxConcurrentAgentsByState"@, JsonView::Object(
                p.agent.max_concurrent_agents_by_state@.map_values(|e: (String, u32)| (e.0@, num(e.1 as nat))),
            )),
        ])),
        ("codex"@, JsonView::Object(seq![
            ("approvalPolicy"@, json_view(p.codex.approval_policy)),
            ("threadSandbox"@, JsonView::Str(p.codex.thread_sandbox@)),
            ("turnSandboxPolicy"@, json_view(p.codex.turn_sandbox_policy)),
            ("turnTimeoutMs"@, num(p.codex.turn_timeout_ms as nat)),
            ("readTimeoutMs"@, num(p.codex.read_timeout_ms as nat)),
            ("stallTimeoutMs"@, num(p.codex.stall_timeout_ms as nat)),
        ])),
        ("orchestra"@, JsonView::Object(seq![
            ("workflowPath"@, JsonView::Str(p.orchestra.workflow_path@)),
            ("workflowSha256"@, JsonView::Str(p.orchestra.workflow_sha256@)),
            ("workflowName"@, JsonView::Str(p.orchestra.workflow_name@)),
            ("effects"@, JsonView::Array(p.orchestra.effects@.map_values(|e: AutomationEffect| JsonView::Str(effect_name(e))))),
        ])),
        ("promptTemplate"@, JsonView::Str(p.prompt_template@)),
    ])
}

/// The digest that identifies a profile: the SHA-256 of its canonical JSON.
pub open spec fn profile_digest_spec(p: AutomationProfile) -> Option<Seq<char>> {
    canonical_digest(profile_view(p))
}

pub(crate) fn text_value(s: &String) -> (r: JsonValue)
    ensures
        json_view(r) == JsonView::Str(s@),
{
    JsonValue::String(s.clone())
}

pub(crate) fn optional_value(s: &Option<String>) -> (r: JsonValue)
    ensures
        json_view(r) == text_or_null(*s),
{
    match s {
        Some(t) => JsonValue::String(t.clone()),
        None => JsonValue::Null,
    }
}

pub(crate) fn number_value(n: u64) -> (r: JsonValue)
    ensures
        json_view(r) == num(n as nat),
{
    JsonValue::Number(crate::text::u64_to_string(n))
}

pub(crate) fn object_value(members: Vec<(String, JsonValue)>) -> (r: JsonValue)
    ensures
        json_view(r) == JsonView::Object(entries_view(members@)),
{
    let r = JsonValue::Object(members);
    proof {
        crate::inputs::lemma_object_view_pub(r);
    }
    r
}

pub(crate) fn texts_value(xs: &Vec<String>) -> (r: JsonValue)
    ensures
        json_view(r) == texts_json(xs@),
{
    let mut out: Vec<JsonValue> = Vec::new();
    let mut i: usize = 0;
    while i < xs.len()
        invariant
            i <= xs@.len(),
            values_view(out@) == xs@.take(i as int).map_values(|s: String| JsonView::Str(s@)),
        decreases xs.len() - i,
    {
        let v = text_value(&xs[i]);
        let ghost before = values_view(out@);
        out.push(v);
        proof {
            assert(values_view(out@) =~= before.push(json_view(v)));
            assert(xs@.take(i + 1).map_values(|s: String| JsonView::Str(s@)) =~= xs@.take(i as int).map_values(
                |s: String| JsonView::Str(s@),
            ).push(JsonView::Str(xs@[i as int]@)));
        }
        i = i + 1;
    }
    proof {
        assert(xs@.take(xs@.len() as int) =~= xs@);
    }
    let r = JsonValue::Array(out);
    proof {
        crate::inputs::lemma_array_view_pub(r);
    }
    r
}

fn effects_value(xs: &Vec<AutomationEffect>) -> (r: JsonValue)
    ensures
        json_view(r) == JsonView::Array(xs@.map_values(|e: AutomationEffect| JsonView::Str(effect_name(e)))),
{
    let mut out: Vec<JsonValue> = Vec::new();
    let mut i: usize = 0;
    while i < xs.len()
        invariant
            i <= xs@.len(),
            values_view(out@) == xs@.take(i as int).map_values(|e: AutomationEffect| JsonView::Str(effect_name(e))),
        decreases xs.len() - i,
    {
        let v = JsonValue::String(to_owned_string(crate::automation_policy::automation_effect_name(xs[i])));
        let ghost before = values_view(out@);
        out.push(v);
        proof {
            assert(values_view(out@) =~= before.push(json_view(v)));
            assert(xs@.take(i + 1).map_values(|e: AutomationEffect| JsonView::Str(effect_name(e))) =~= xs@.take(
                i as int,
            ).map_values(|e: AutomationEffect| JsonView::Str(effect_name(e))).push(JsonView::Str(effect_name(xs@[i as int]))));
        }
        i = i + 1;
    }
    proof {
        assert(xs@.take(xs@.len() as int) =~= xs@);
    }
    let r = JsonValue::Array(out);
    proof {
        crate::inputs::lemma_array_view_pub(r);
    }
    r
}

fn by_state_value(xs: &Vec<(String, u32)>) -> (r: JsonValue)
    ensures
        json_view(r) == JsonView::Object(xs@.map_values(|e: (String, u32)| (e.0@, num(e.1 as nat)))),
{
    let mut out: Vec<(String, JsonValue)> = Vec::new();
    let mut i: usize = 0;
    while i < xs.len()
        invariant
            i <= xs@.len(),
            entries_view(out@) == xs@.take(i as int).map_values(|e: (String, u32)| (e.0@, num(e.1 as nat))),
        decreases xs.len() - i,
    {
        let v = number_value(xs[i].1 as u64);
        let k = xs[i].0.clone();
        let ghost before = entries_view(out@);
        out.push((k, v));
        proof {
            assert(entries_view(out@) =~= before.push((k@, json_view(v))));
            assert(xs@.take(i + 1).map_values(|e: (String, u32)| (e.0@, num(e.1 as nat))) =~= xs@.take(i as int).map_values(
                |e: (String, u32)| (e.0@, num(e.1 as nat)),
            ).push((xs@[i as int].0@, num(xs@[i as int].1 as nat))));
        }
        i = i + 1;
    }
    proof {
        assert(xs@.take(xs@.len() as int) =~= xs@);
    }
    object_value(out)
}

fn secret_value(s: &AutomationSecretReference) -> (r: JsonValue)
    ensures
        json_view(r) == secret_json(*s),
{
    let kind = match s.kind {
        AutomationSecretKind::Environment => to_owned_string("environment"),
        AutomationSecretKind::InlineDigest => to_owned_string("inline_digest"),
    };
    let mut ms: Vec<(String, JsonValue)> = Vec::new();
    ms.push((to_owned_string("kind"), JsonValue::String(kind)));
    ms.push((to_owned_string("reference"), text_value(&s.reference)));
    ms.push((to_owned_string("digest"), text_value(&s.digest)));
    proof {
        assert(entries_view(ms@) =~= secret_json(*s)->Object_0);
    }
    object_value(ms)
}

pub(crate) fn member(name: &str, value: JsonValue) -> (r: (String, JsonValue))
    ensures
        r.0@ == name@,
        r.1 == value,
{
    (to_owned_string(name), value)
}

/// A profile as JSON data (see `profile_view`).
pub fn profile_json(p: &AutomationProfile) -> (r: JsonValue)
    ensures
        json_view(r) == profile_view(*p),
{
    let t = &p.tracker;
    let mut tracker: Vec<(String, JsonValue)> = Vec::new();
    tracker.push(member("kind", text_value(&t.kind)));
    tracker.push(member("endpoint", text_value(&t.endpoint)));
    tracker.push(member("projectSlug", text_value(&t.project_slug)));
    tracker.push(member("requiredLabels", texts_value(&t.required_labels)));
    tracker.push(member("activeStates", texts_value(&t.active_states)));
    tracker.push(member("terminalStates", texts_value(&t.terminal_states)));
    tracker.push(member("credential", secret_value(&t.credential)));
    proof {
        assert(entries_view(tracker@) =~= profile_view(*p)->Object_0[0].1->Object_0);
    }
    let mut polling: Vec<(String, JsonValue)> = Vec::new();
    polling.push(member("intervalMs", number_value(p.polling.interval_ms)));
    let mut workspace: Vec<(String, JsonValue)> = Vec::new();
    workspace.push(member("root", text_value(&p.workspace.root)));
    proof {
        assert(entries_view(polling@) =~= profile_view(*p)->Object_0[1].1->Object_0);
        assert(entries_view(workspace@) =~= profile_view(*p)->Object_0[2].1->Object_0);
    }
    let h = &p.hooks;
    let mut hooks: Vec<(String, JsonValue)> = Vec::new();
    hooks.push(member("afterCreate", optional_value(&h.after_create)));
    hooks.push(member("beforeRun", optional_value(&h.before_run)));
    hooks.push(member("afterRun", optional_value(&h.after_run)));
    hooks.push(member("beforeRemove", optional_value(&h.before_remove)));
    hooks.push(member("timeoutMs", number_value(h.timeout_ms)));
    proof {
        assert(entries_view(hooks@) =~= profile_view(*p)->Object_0[3].1->Object_0);
    }
    let a = &p.agent;
    let mut agent: Vec<(String, JsonValue)> = Vec::new();
    agent.push(member("maxConcurrentAgents", number_value(a.max_concurrent_agents as u64)));
    agent.push(member("maxTurns", number_value(a.max_turns as u64)));
    agent.push(member("maxRetryBackoffMs", number_value(a.max_retry_backoff_ms)));
    agent.push(member("maxConcurrentAgentsByState", by_state_value(&a.max_concurrent_agents_by_state)));
    proof {
        assert(entries_view(agent@) =~= profile_view(*p)->Object_0[4].1->Object_0);
    }
    let c = &p.codex;
    let mut codex: Vec<(String, JsonValue)> = Vec::new();
    codex.push(member("approvalPolicy", crate::inputs::copy_json(&c.approval_policy)));
    codex.push(member("threadSandbox", text_value(&c.thread_sandbox)));
    codex.push(member("turnSandboxPolicy", crate::inputs::copy_json(&c.turn_sandbox_policy)));
    codex.push(member("turnTimeoutMs", number_value(c.turn_timeout_ms)));
    codex.push(member("readTimeoutMs", number_value(c.read_timeout_ms)));
    codex.push(member("stallTimeoutMs", number_value(c.stall_timeout_ms)));
    proof {
        assert(entries_view(codex@) =~= profile_view(*p)->Object_0[5].1->Object_0);
    }
    let o = &p.orchestra;
    let mut orchestra: Vec<(String, JsonValue)> = Vec::new();
    orchestra.push(member("workflowPath", text_value(&o.workflow_path)));
    orchestra.push(member("workflowSha256", text_value(&o.workflow_sha256)));
    orchestra.push(member("workflowName", text_value(&o.workflow_name)));
    orchestra.push(member("effects", effects_value(&o.effects)));
    proof {
        assert(entries_view(orchestra@) =~= profile_view(*p)->Object_0[6].1->Object_0);
    }
    let mut root: Vec<(String, JsonValue)> = Vec::new();
    root.push(member("tracker", object_value(tracker)));
    root.push(member("polling", object_value(polling)));
    root.push(member("workspace", object_value(workspace)));
    root.push(member("hooks", object_value(hooks)));
    root.push(member("agent", object_value(agent)));
    root.push(member("codex", object_value(codex)));
    root.push(member("orchestra", object_value(orchestra)));
    root.push(member("promptTemplate", text_value(&p.prompt_template)));
    proof {
        assert(entries_view(root@) =~= profile_view(*p)->Object_0);
    }
    object_value(root)
}

/// The digest that identifies a profile (see `profile_digest_spec`).
pub fn profile_digest(p: &AutomationProfile) -> (r: Result<String, EvaluatorError>)
    ensures
        match profile_digest_spec(*p) {
            Some(d) => r matches Ok(x) && x@ == d,
            None => r is Err,
        },
{
    crate::evaluator::canonical_sha256(&profile_json(p))
}

} // verus!
