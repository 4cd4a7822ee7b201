//! Rendering the prompt template of a `WORKFLOW.md` against a fixture issue,
//! and validating the document with that rendering.
use crate::automation::AutomationIssue;
use crate::automation::AutomationIssueBlocker;
use crate::automation::AutomationValidationResult;
use crate::automation::InheritedCodexPolicy;
use crate::automation_profile::AutomationValidationContext;
use crate::automation_profile::AutomationValidationFacts;
use crate::automation_profile::PromptRendering;
use crate::automation_profile::RawAutomationProfile;
use crate::automation_profile::SelectedWorkflow;
use crate::automation_profile::assembled;
use crate::automation_profile::prompt_template_spec;
use crate::inputs::JsonView;
use crate::inputs::entries_view;
use crate::inputs::json_text;
use crate::inputs::json_view;
use crate::inputs::values_view;
use crate::json::JsonValue;
use crate::parser::i64_text;
use crate::text::decimal;
use crate::text::to_owned_string;
use vstd::prelude::*;

verus! {

/// What minijinja makes of a template rendered, with undefined values an error,
/// against the context given as JSON text.
pub uninterp spec fn minijinja_render(template: Seq<char>, context: Seq<char>) -> PromptRendering;

/// `minijinja::Environment::template_from_str` and `Template::render` under
/// `UndefinedBehavior::Strict`, the context decoded from its JSON text. Claimed:
/// the outcome (rendered text, template error, render error) is a function of
/// the template and the context alone.
#[verifier::external_body]
fn render_template(template: &str, context: &str) -> (r: PromptRendering)
    ensures
        r == minijinja_render(template@, context@),
{
    let mut environment = minijinja::Environment::new();
    environment.set_undefined_behavior(minijinja::UndefinedBehavior::Strict);
    let parsed = match environment.template_from_str(template) {
        Ok(parsed) => parsed,
        Err(error) => return PromptRendering::TemplateError(error.to_string()),
    };
    match serde_json::from_str::<serde_json::Value>(context) {
        Ok(value) => match parsed.render(minijinja::value::Serde(value)) {
            Ok(text) => PromptRendering::Rendered(text),
            Err(error) => PromptRendering::RenderError(error.to_string()),
        },
        Err(error) => PromptRendering::RenderError(error.to_string()),
    }
}

pub open spec fn text_or_null(s: Option<String>) -> JsonView {
    match s {
        Some(t) => JsonView::Str(t@),
        None => JsonView::Null,
    }
}

pub open spec fn blocker_json(b: AutomationIssueBlocker) -> JsonView {
    JsonView::Object(seq![
        ("id"@, text_or_null(b.id)),
        ("identifier"@, text_or_null(b.identifier)),
        ("state"@, text_or_null(b.state)),
    ])
}

/// An issue as the template sees it: its fields in camel case.
pub open spec fn issue_json(i: AutomationIssue) -> JsonView {
    JsonView::Object(seq![
        ("id"@, JsonView::Str(i.id@)),
        ("identifier"@, JsonView::Str(i.identifier@)),
        ("title"@, JsonView::Str(i.title@)),
        ("description"@, text_or_null(i.description)),
        ("priority"@, match i.priority {
            Some(n) => JsonView::Number(i64_text(n)),
            None => JsonView::Null,
        }),
        ("state"@, JsonView::Str(i.state@)),
        ("branchName"@, text_or_null(i.branch_name)),
        ("url"@, text_or_null(i.url)),
        ("labels"@, JsonView::Array(i.labels@.map_values(|l: String| JsonView::Str(l@)))),
        ("blockedBy"@, JsonView::Array(i.blocked_by@.map_values(|b: AutomationIssueBlocker| blocker_json(b)))),
        ("createdAt"@, text_or_null(i.created_at)),
        ("updatedAt"@, text_or_null(i.updated_at)),
    ])
}

/// The template's context: the issue and the attempt.
pub open spec fn prompt_context(issue: AutomationIssue, attempt: Option<u32>) -> JsonView {
    JsonView::Object(seq![
        ("issue"@, issue_json(issue)),
        ("attempt"@, match attempt {
            Some(n) => JsonView::Number(decimal(n as nat)),
            None => JsonView::Null,
        }),
    ])
}

/// What rendering a prompt template for an issue and attempt gives.
pub open spec fn rendering_spec(template: Seq<char>, issue: AutomationIssue, attempt: Option<u32>) -> PromptRendering {
    minijinja_render(template, json_text(prompt_context(issue, attempt)))
}

fn text_value(s: &Option<String>) -> (r: JsonValue)
    ensures
        json_view(r) == text_or_null(*s),
{
    match s {
        Some(t) => JsonValue::String(t.clone()),
        None => JsonValue::Null,
    }
}

fn object_of(members: Vec<(String, JsonValue)>) -> (r: JsonValue)
    ensures
        json_view(r) == JsonView::Object(entries_view(members@)),
{
    let r = JsonValue::Object(members);
    proof {
        crate::inputs::lemma_object_view_pub(r);
    }
    r
}

fn array_of(items: Vec<JsonValue>) -> (r: JsonValue)
    ensures
        json_view(r) == JsonView::Array(values_view(items@)),
{
    let r = JsonValue::Array(items);
    proof {
        crate::inputs::lemma_array_view_pub(r);
    }
    r
}

fn blocker_value(b: &AutomationIssueBlocker) -> (r: JsonValue)
    ensures
        json_view(r) == blocker_json(*b),
{
    let mut ms: Vec<(String, JsonValue)> = Vec::new();
    ms.push((to_owned_string("id"), text_value(&b.id)));
    ms.push((to_owned_string("identifier"), text_value(&b.identifier)));
    ms.push((to_owned_string("state"), text_value(&b.state)));
    proof {
        assert(entries_view(ms@) =~= seq![
            ("id"@, text_or_null(b.id)),
            ("identifier"@, text_or_null(b.identifier)),
            ("state"@, text_or_null(b.state)),
        ]);
    }
    object_of(ms)
}

fn issue_value(i: &AutomationIssue) -> (r: JsonValue)
    ensures
        json_view(r) == issue_json(*i),
{
    let mut labels: Vec<JsonValue> = Vec::new();
    let mut k: usize = 0;
    while k < i.labels.len()
        invariant
            k <= i.labels@.len(),
            values_view(labels@) == i.labels@.take(k as int).map_values(|l: String| JsonView::Str(l@)),
        decreases i.labels.len() - k,
    {
        let v = JsonValue::String(i.labels[k].clone());
        let ghost before = values_view(labels@);
        labels.push(v);
        proof {
            assert(values_view(labels@) =~= before.push(json_view(v)));
            assert(json_view(v) == JsonView::Str(i.labels@[k as int]@));
            assert(i.labels@.take(k + 1).map_values(|l: String| JsonView::Str(l@)) =~= i.labels@.take(k as int).map_values(
                |l: String| JsonView::Str(l@),
            ).push(JsonView::Str(i.labels@[k as int]@)));
        }
        k = k + 1;
    }
    let mut blockers: Vec<JsonValue> = Vec::new();
    let mut j: usize = 0;
    while j < i.blocked_by.len()
        invariant
            j <= i.blocked_by@.len(),
            values_view(blockers@) == i.blocked_by@.take(j as int).map_values(|b: AutomationIssueBlocker| blocker_json(b)),
        decreases i.blocked_by.len() - j,
    {
        let v = blocker_value(&i.blocked_by[j]);
        let ghost before = values_view(blockers@);
        blockers.push(v);
        proof {
            assert(values_view(blockers@) =~= before.push(json_view(v)));
            assert(i.blocked_by@.take(j + 1).map_values(|b: AutomationIssueBlocker| blocker_json(b)) =~= i.blocked_by@.take(
                j as int,
            ).map_values(|b: AutomationIssueBlocker| blocker_json(b)).push(blocker_json(i.blocked_by@[j as int])));
        }
        j = j + 1;
    }
    proof {
        assert(i.labels@.take(i.labels@.len() as int) =~= i.labels@);
        assert(i.blocked_by@.take(i.blocked_by@.len() as int) =~= i.blocked_by@);
    }
    let priority = match i.priority {
        Some(n) => JsonValue::Number(crate::parser::i64_to_string(n)),
        None => JsonValue::Null,
    };
    let mut ms: Vec<(String, JsonValue)> = Vec::new();
    ms.push((to_owned_string("id"), JsonValue::String(i.id.clone())));
    ms.push((to_owned_string("identifier"), JsonValue::String(i.identifier.clone())));
    ms.push((to_owned_string("title"), JsonValue::String(i.title.clone())));
    ms.push((to_owned_string("description"), text_value(&i.description)));
    ms.push((to_owned_string("priority"), priority));
    ms.push((to_owned_string("state"), JsonValue::String(i.state.clone())));
    ms.push((to_owned_string("branchName"), text_value(&i.branch_name)));
    ms.push((to_owned_string("url"), text_value(&i.url)));
    ms.push((to_owned_string("labels"), array_of(labels)));
    ms.push((to_owned_string("blockedBy"), array_of(blockers)));
    ms.push((to_owned_string("createdAt"), text_value(&i.created_at)));
    ms.push((to_owned_string("updatedAt"), text_value(&i.updated_at)));
    proof {
        assert(entries_view(ms@) =~= issue_json(*i)->Object_0);
    }
    object_of(ms)
}

/// The JSON text of the template's context for an issue and attempt.
pub fn prompt_context_text(issue: &AutomationIssue, attempt: Option<u32>) -> (r: String)
    ensures
        r@ == json_text(prompt_context(*issue, attempt)),
{
    let attempt_value = match attempt {
        Some(n) => JsonValue::Number(crate::text::u64_to_string(n as u64)),
        None => JsonValue::Null,
    };
    let mut ms: Vec<(String, JsonValue)> = Vec::new();
    ms.push((to_owned_string("issue"), issue_value(issue)));
    ms.push((to_owned_string("attempt"), attempt_value));
    proof {
        assert(entries_view(ms@) =~= prompt_context(*issue, attempt)->Object_0);
    }
    let context = object_of(ms);
    let mut out = String::new();
    crate::inputs::write_json(&context, &mut out);
    proof {
        assert(out@ =~= json_text(prompt_context(*issue, attempt)));
    }
    out
}

/// A prompt template rendered for an issue and attempt.
pub fn render_prompt(template: &str, issue: &AutomationIssue, attempt: Option<u32>) -> (r: PromptRendering)
    ensures
        r == rendering_spec(template@, *issue, attempt),
{
    let context = prompt_context_text(issue, attempt);
    render_template(template, context.as_str())
}

/// Validates a `WORKFLOW.md`'s decoded front matter and prompt body: the prompt
/// is rendered for the fixture issue and attempt, and everything else is
/// decided by the facts (see `assembled`); the profile is identified by the
/// digest of its canonical JSON.
pub fn validate_profile_document(
    raw: RawAutomationProfile,
    prompt_body: String,
    context: AutomationValidationContext,
    inherited_policy: InheritedCodexPolicy,
    workflow: Option<SelectedWorkflow>,
    fixture_issue: &AutomationIssue,
    attempt: Option<u32>,
) -> (r: AutomationValidationResult)
    ensures
        assembled(raw, prompt_body@, (AutomationValidationFacts {
            context,
            inherited_policy,
            workflow,
            prompt: rendering_spec(prompt_template_spec(prompt_body@), *fixture_issue, attempt),
        }), (AutomationValidationResult { profile_digest: None, ..r })),
        r.profile is None ==> r.profile_digest is None,
        r.profile is Some ==> match crate::profile_json::profile_digest_spec(r.profile->0) {
            Some(d) => r.profile_digest matches Some(x) && x@ == d,
            None => r.profile_digest is None,
        },
{
    let template = crate::automation_profile::effective_prompt_template(prompt_body.as_str());
    let prompt = render_prompt(template.as_str(), fixture_issue, attempt);
    let facts = AutomationValidationFacts { context, inherited_policy, workflow, prompt };
    let mut result = crate::automation_profile::assemble_automation_profile(raw, prompt_body, facts);
    let digest = match &result.profile {
        Some(profile) => match crate::profile_json::profile_digest(profile) {
            Ok(d) => Some(d),
            Err(_) => None,
        },
        None => None,
    };
    result.profile_digest = digest;
    result
}

} // verus!
