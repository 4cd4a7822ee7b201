//! Assembling a validated Automation profile from its decoded front matter.
//! The caller reads the files, decodes the YAML, compiles the selected
//! workflow and renders the prompt; every decision on those values is here.
use crate::automation::AutomationAgentProfile;
use crate::automation::AutomationCodexPolicy;
use crate::automation::AutomationDiagnostic;
use crate::automation::AutomationDiagnosticCode;
use crate::automation::AutomationEffect;
use crate::automation::AutomationHooksProfile;
use crate::automation::AutomationOrchestraProfile;
use crate::automation::AutomationPollingProfile;
use crate::automation::AutomationProfile;
use crate::automation::AutomationSecretReference;
use crate::automation::AutomationTrackerProfile;
use crate::automation::AutomationValidationResult;
use crate::automation::AutomationValidationSeverity;
use crate::automation::AutomationWorkflowInput;
use crate::automation::AutomationWorkflowPreview;
use crate::automation::AutomationWorkspaceProfile;
use crate::automation::InheritedCodexPolicy;
use crate::automation_validate::diags_view;
use crate::automation_validate::error_view;
use crate::automation_validate::error_diagnostic;
use crate::automation_validate::lemma_concat_assoc;
use crate::automation_validate::warning_view;
use crate::automation_validate::repeated;
use crate::automation_validate::required_value;
use crate::automation_validate::required_diags;
use crate::automation_validate::required_string;
use crate::automation_validate::text_option;
use crate::automation_validate::texts_view;
use crate::automation_validate::text_is_empty;
use crate::automation_validate::secret_spec;
use crate::automation_validate::secret_diags;
use crate::automation_validate::secret_reference;
use crate::automation_validate::blank_labels;
use crate::automation_validate::labels_normalized;
use crate::automation_validate::normalize_labels;
use crate::automation_validate::state_list_fold;
use crate::automation_validate::state_list_diags;
use crate::automation_validate::normalized_nonempty_list;
use crate::automation_validate::positive_diags;
use crate::automation_validate::positive_u64;
use crate::automation_validate::positive_u32;
use crate::automation_validate::expanded_path;
use crate::automation_validate::expansion_diags;
use crate::automation_validate::resolve_path_value;
use crate::automation_validate::workspace_root_unsafe;
use crate::automation_validate::validate_workspace_root;
use crate::automation_validate::by_state_fold;
use crate::automation_validate::by_state_diags;
use crate::automation_validate::lists_map;
use crate::automation_validate::normalize_state_limits;
use crate::automation_validate::approval_allowed;
use crate::automation_validate::sandbox_allowed;
use crate::automation_validate::policy_diags;
use crate::automation_validate::validate_approval_policy;
use crate::automation_validate::validate_thread_sandbox;
use crate::automation_validate::validate_turn_sandbox;
use crate::automation_validate::effects_selected;
use crate::automation_validate::unsupported_effect_diags;
use crate::automation_validate::select_effects;
use crate::automation_validate::workflow_path_spec;
use crate::automation_validate::workflow_path_diags;
use crate::automation_validate::resolve_workflow_path;
use crate::automation_validate::extension_diags;
use crate::automation_validate::warn_extensions;
use crate::json::json_same;
use crate::lexical::lexical_absolute_spec;
use crate::digest::sha256_hex;
use crate::digest::sha256_hex_str;
use crate::json::JsonValue;
use crate::lexical::lexical_view;
use crate::lexical::render_lexical;
use crate::lexical::render_path;
use crate::plan::InputDefault;
use crate::plan::InputDefinition;
use crate::plan::InputKind;
use crate::text::concat;
use crate::text::str_eq;
use crate::text::to_owned_string;
use crate::text::trim;
use crate::text::trim_seq;
use vstd::prelude::*;

verus! {

/// The `tracker` section as decoded; an absent section decodes as all-absent.
pub struct RawTrackerSection {
    pub kind: Option<String>,
    pub endpoint: Option<String>,
    pub api_key: Option<String>,
    pub project_slug: Option<String>,
    pub required_labels: Vec<String>,
    pub active_states: Option<Vec<String>>,
    pub terminal_states: Option<Vec<String>>,
}

pub struct RawPollingSection {
    pub interval_ms: Option<u64>,
}

pub struct RawWorkspaceSection {
    pub root: Option<String>,
}

pub struct RawHooksSection {
    pub after_create: Option<String>,
    pub before_run: Option<String>,
    pub after_run: Option<String>,
    pub before_remove: Option<String>,
    pub timeout_ms: Option<u64>,
}

pub struct RawAgentSection {
    pub max_concurrent_agents: Option<u32>,
    pub max_turns: Option<u32>,
    pub max_retry_backoff_ms: Option<u64>,
    /// Overrides as written, ordered by state.
    pub max_concurrent_agents_by_state: Vec<(String, i64)>,
}

pub struct RawCodexSection {
    pub command: Option<String>,
    pub approval_policy: Option<JsonValue>,
    pub thread_sandbox: Option<String>,
    pub turn_sandbox_policy: Option<JsonValue>,
    pub turn_timeout_ms: Option<u64>,
    pub read_timeout_ms: Option<u64>,
    pub stall_timeout_ms: Option<u64>,
}

pub struct RawOrchestraSection {
    pub workflow: Option<String>,
    pub effects: Vec<String>,
}

/// The decoded front matter of a `WORKFLOW.md`.
pub struct RawAutomationProfile {
    pub tracker: RawTrackerSection,
    pub polling: RawPollingSection,
    pub workspace: RawWorkspaceSection,
    pub hooks: RawHooksSection,
    pub agent: RawAgentSection,
    pub codex: RawCodexSection,
    pub orchestra: RawOrchestraSection,
    /// Unrecognized top-level keys, in order.
    pub extensions: Vec<String>,
}

/// What reading and compiling the selected workflow gave.
pub enum SelectedWorkflow {
    Unreadable(String),
    Rejected { source: String, message: String },
    Compiled { source: String, name: String, inputs: Vec<(String, InputDefinition)> },
}

/// What rendering the prompt template against the fixture issue gave.
pub enum PromptRendering {
    Rendered(String),
    TemplateError(String),
    RenderError(String),
}

/// Where validation runs: the paths, the environment, and what the file system
/// says about the paths that validation resolves.
pub struct AutomationValidationContext {
    /// The directory of the `WORKFLOW.md`.
    pub workflow_dir: String,
    pub repository_root: String,
    pub home_dir: Option<String>,
    /// Environment variables, ordered by name.
    pub environment: Vec<(String, String)>,
    /// Whether the resolved workspace root is a symbolic link.
    pub workspace_root_is_symlink: bool,
    pub canonical_repository_root: Option<String>,
    /// The canonical form of the selected workflow path, when it exists.
    pub canonical_workflow_path: Option<String>,
}

/// Everything validation decides on besides the front matter and prompt body.
pub struct AutomationValidationFacts {
    pub context: AutomationValidationContext,
    pub inherited_policy: InheritedCodexPolicy,
    /// The selected workflow, when one resolved.
    pub workflow: Option<SelectedWorkflow>,
    pub prompt: PromptRendering,
}

pub const DEFAULT_LINEAR_ENDPOINT: &'static str = "https://api.linear.app/graphql";

pub const DEFAULT_PROMPT: &'static str = "You are working on an issue from Linear.";

pub const DEFAULT_WORKSPACE_ROOT: &'static str = ".codex/orchestra/worktrees";

// ---- workflow inputs ----------------------------------------------------------

/// The definition of input `name`, if the workflow declares it.
pub open spec fn input_lookup(inputs: Seq<(String, InputDefinition)>, name: Seq<char>) -> Option<InputDefinition>
    decreases inputs.len(),
{
    if inputs.len() == 0 {
        None
    } else if inputs[0].0@ == name {
        Some(inputs[0].1)
    } else {
        input_lookup(inputs.drop_first(), name)
    }
}

/// The kinds an Automation input may have: text for the task prompt, an object or
/// JSON for the issue and the automation context.
pub open spec fn input_kind_ok(name: Seq<char>, kind: InputKind) -> bool {
    if name == "task_prompt"@ {
        kind == InputKind::String
    } else {
        kind == InputKind::Object || kind == InputKind::Json
    }
}

pub open spec fn input_path(name: Seq<char>) -> Seq<char> {
    "orchestra.workflow.inputs."@ + name
}

pub open spec fn required_input_diags(inputs: Seq<(String, InputDefinition)>, name: Seq<char>) -> Seq<(AutomationValidationSeverity, AutomationDiagnosticCode, Seq<char>, Seq<char>)> {
    match input_lookup(inputs, name) {
        None => seq![error_view(
            AutomationDiagnosticCode::WorkflowInputMissing,
            input_path(name),
            "selected workflow must declare required `"@ + name + "` input"@,
        )],
        Some(d) => if !d.required || !input_kind_ok(name, d.kind) {
            seq![error_view(
                AutomationDiagnosticCode::WorkflowInputIncompatible,
                input_path(name),
                "`"@ + name + "` must be required and use an Automation-compatible type"@,
            )]
        } else {
            Seq::empty()
        },
    }
}

pub open spec fn is_reserved_input(name: Seq<char>) -> bool {
    name == "issue"@ || name == "task_prompt"@ || name == "automation"@
}

pub open spec fn extra_input_diags(inputs: Seq<(String, InputDefinition)>) -> Seq<(AutomationValidationSeverity, AutomationDiagnosticCode, Seq<char>, Seq<char>)>
    decreases inputs.len(),
{
    if inputs.len() == 0 {
        Seq::empty()
    } else {
        extra_input_diags(inputs.drop_last()) + if !is_reserved_input(inputs.last().0@) && inputs.last().1.default is Missing {
            seq![error_view(
                AutomationDiagnosticCode::WorkflowInputNeedsDefault,
                input_path(inputs.last().0@),
                "additional Automation workflow inputs must declare a default"@,
            )]
        } else {
            Seq::empty()
        }
    }
}

/// The three Automation inputs must be declared, required and well typed; any
/// other input must have a default.
pub open spec fn workflow_input_diags(inputs: Seq<(String, InputDefinition)>) -> Seq<(AutomationValidationSeverity, AutomationDiagnosticCode, Seq<char>, Seq<char>)> {
    required_input_diags(inputs, "issue"@) + required_input_diags(inputs, "task_prompt"@)
        + required_input_diags(inputs, "automation"@) + extra_input_diags(inputs)
}

fn find_input<'a>(inputs: &'a Vec<(String, InputDefinition)>, name: &str) -> (r: Option<&'a InputDefinition>)
    ensures
        match r {
            Some(d) => input_lookup(inputs@, name@) == Some(*d),
            None => input_lookup(inputs@, name@) is None,
        },
{
    let mut i: usize = 0;
    proof {
        assert(inputs@.skip(0) =~= inputs@);
    }
    while i < inputs.len()
        invariant
            i <= inputs@.len(),
            input_lookup(inputs@, name@) == input_lookup(inputs@.skip(i as int), name@),
        decreases inputs.len() - i,
    {
        proof {
            let t = inputs@.skip(i as int);
            assert(t[0] == inputs@[i as int]);
            assert(t.drop_first() =~= inputs@.skip(i + 1));
        }
        if str_eq(inputs[i].0.as_str(), name) {
            return Some(&inputs[i].1);
        }
        i = i + 1;
    }
    None
}

fn check_required_input(inputs: &Vec<(String, InputDefinition)>, name: &str, diagnostics: &mut Vec<AutomationDiagnostic>)
    ensures
        diags_view(final(diagnostics)@) == diags_view(old(diagnostics)@) + required_input_diags(inputs@, name@),
{
    let path = concat("orchestra.workflow.inputs.", name);
    match find_input(inputs, name) {
        None => {
            let message = concat(concat("selected workflow must declare required `", name).as_str(), "` input");
            push_error_at(diagnostics, AutomationDiagnosticCode::WorkflowInputMissing, path.as_str(), message.as_str());
        },
        Some(d) => {
            let kind_ok = if str_eq(name, "task_prompt") {
                d.kind == InputKind::String
            } else {
                d.kind == InputKind::Object || d.kind == InputKind::Json
            };
            if !d.required || !kind_ok {
                let message = concat(concat("`", name).as_str(), "` must be required and use an Automation-compatible type");
                push_error_at(diagnostics, AutomationDiagnosticCode::WorkflowInputIncompatible, path.as_str(), message.as_str());
            } else {
                proof {
                    assert(diags_view(diagnostics@) =~= diags_view(diagnostics@) + Seq::empty());
                }
            }
        },
    }
}

fn push_error_at(diagnostics: &mut Vec<AutomationDiagnostic>, code: AutomationDiagnosticCode, path: &str, message: &str)
    ensures
        diags_view(final(diagnostics)@) == diags_view(old(diagnostics)@) + seq![error_view(code, path@, message@)],
{
    let d = error_diagnostic(code, path, message);
    let ghost before = diags_view(diagnostics@);
    diagnostics.push(d);
    proof {
        assert(diags_view(diagnostics@) =~= before + seq![error_view(code, path@, message@)]);
    }
}

/// Checks the selected workflow's inputs against what Automation passes it.
pub fn validate_workflow_inputs(inputs: &Vec<(String, InputDefinition)>, diagnostics: &mut Vec<AutomationDiagnostic>)
    ensures
        diags_view(final(diagnostics)@) == diags_view(old(diagnostics)@) + workflow_input_diags(inputs@),
{
    let ghost start = diags_view(diagnostics@);
    check_required_input(inputs, "issue", diagnostics);
    check_required_input(inputs, "task_prompt", diagnostics);
    check_required_input(inputs, "automation", diagnostics);
    let ghost mid = diags_view(diagnostics@);
    let mut i: usize = 0;
    proof {
        assert(inputs@.take(0) =~= Seq::<(String, InputDefinition)>::empty());
        assert(mid =~= mid + extra_input_diags(inputs@.take(0)));
    }
    while i < inputs.len()
        invariant
            i <= inputs@.len(),
            diags_view(diagnostics@) == mid + extra_input_diags(inputs@.take(i as int)),
        decreases inputs.len() - i,
    {
        proof {
            assert(inputs@.take(i + 1).drop_last() =~= inputs@.take(i as int));
            assert(inputs@.take(i + 1).last() == inputs@[i as int]);
        }
        let name = inputs[i].0.as_str();
        let reserved = str_eq(name, "issue") || str_eq(name, "task_prompt") || str_eq(name, "automation");
        if !reserved && inputs[i].1.default.is_missing() {
            let path = concat("orchestra.workflow.inputs.", name);
            let ghost before = diags_view(diagnostics@);
            push_error_at(
                diagnostics,
                AutomationDiagnosticCode::WorkflowInputNeedsDefault,
                path.as_str(),
                "additional Automation workflow inputs must declare a default",
            );
            proof {
                assert(diags_view(diagnostics@) =~= mid + extra_input_diags(inputs@.take(i + 1)));
            }
        } else {
            proof {
                assert(extra_input_diags(inputs@.take(i + 1)) =~= extra_input_diags(inputs@.take(i as int)) + Seq::empty());
            }
        }
        i = i + 1;
    }
    proof {
        assert(inputs@.take(inputs@.len() as int) =~= inputs@);
        assert(diags_view(diagnostics@) =~= start + workflow_input_diags(inputs@));
    }
}


// ---- the tracker section -------------------------------------------------------

pub open spec fn default_active_states() -> Seq<Seq<char>> {
    seq!["Todo"@, "In Progress"@]
}

pub open spec fn default_terminal_states() -> Seq<Seq<char>> {
    seq!["Closed"@, "Cancelled"@, "Canceled"@, "Duplicate"@, "Done"@]
}

pub open spec fn active_values(t: RawTrackerSection) -> Seq<Seq<char>> {
    match t.active_states {
        Some(v) => texts_view(v@),
        None => default_active_states(),
    }
}

pub open spec fn terminal_values(t: RawTrackerSection) -> Seq<Seq<char>> {
    match t.terminal_states {
        Some(v) => texts_view(v@),
        None => default_terminal_states(),
    }
}

pub open spec fn tracker_kind_diags(kind: Seq<char>) -> Seq<(AutomationValidationSeverity, AutomationDiagnosticCode, Seq<char>, Seq<char>)> {
    if kind.len() > 0 && kind != "linear"@ {
        seq![error_view(
            AutomationDiagnosticCode::UnsupportedTracker,
            "tracker.kind"@,
            "tracker `"@ + kind + "` is not supported; the MVP supports `linear`"@,
        )]
    } else {
        Seq::empty()
    }
}

pub open spec fn credential_warning(available: bool) -> Seq<(AutomationValidationSeverity, AutomationDiagnosticCode, Seq<char>, Seq<char>)> {
    if available {
        Seq::empty()
    } else {
        seq![warning_view(
            AutomationDiagnosticCode::MissingSecret,
            "tracker.api_key"@,
            "tracker credential is unavailable; fixture validation remains available but live Linear reads will be skipped"@,
        )]
    }
}

pub open spec fn tracker_identity_diags(t: RawTrackerSection, env: Seq<(String, String)>) -> Seq<(AutomationValidationSeverity, AutomationDiagnosticCode, Seq<char>, Seq<char>)> {
    required_diags(text_option(t.kind), "tracker.kind"@)
        + tracker_kind_diags(required_value(text_option(t.kind)))
        + required_diags(text_option(t.project_slug), "tracker.project_slug"@)
        + secret_diags(text_option(t.api_key), "tracker.api_key"@)
        + credential_warning(secret_spec(text_option(t.api_key), env).3)
}

pub open spec fn tracker_list_diags(t: RawTrackerSection) -> Seq<(AutomationValidationSeverity, AutomationDiagnosticCode, Seq<char>, Seq<char>)> {
    repeated(
        error_view(AutomationDiagnosticCode::InvalidValue, "tracker.required_labels"@, "required labels must not be blank"@),
        blank_labels(texts_view(t.required_labels@)),
    )
        + state_list_diags(active_values(t), "tracker.active_states"@)
        + state_list_diags(terminal_values(t), "tracker.terminal_states"@)
}

pub open spec fn tracker_diags(t: RawTrackerSection, env: Seq<(String, String)>) -> Seq<(AutomationValidationSeverity, AutomationDiagnosticCode, Seq<char>, Seq<char>)> {
    tracker_identity_diags(t, env) + tracker_list_diags(t)
}

/// The configured endpoint when it is not blank, else Linear's.
pub open spec fn endpoint_spec(endpoint: Option<String>) -> Seq<char> {
    match endpoint {
        Some(v) => if trim_seq(v@).len() > 0 { v@ } else { DEFAULT_LINEAR_ENDPOINT@ },
        None => DEFAULT_LINEAR_ENDPOINT@,
    }
}

pub open spec fn tracker_matches(p: AutomationTrackerProfile, t: RawTrackerSection, env: Seq<(String, String)>) -> bool {
    &&& p.kind@ == required_value(text_option(t.kind))
    &&& p.endpoint@ == endpoint_spec(t.endpoint)
    &&& p.project_slug@ == required_value(text_option(t.project_slug))
    &&& labels_normalized(texts_view(p.required_labels@), texts_view(t.required_labels@))
    &&& texts_view(p.active_states@) == state_list_fold(active_values(t)).0
    &&& texts_view(p.terminal_states@) == state_list_fold(terminal_values(t)).0
    &&& secret_spec(text_option(t.api_key), env) == (p.credential.kind, p.credential.reference@, p.credential.digest@, secret_spec(text_option(t.api_key), env).3)
}

fn copy_secret(s: &AutomationSecretReference) -> (r: AutomationSecretReference)
    ensures
        r.kind == s.kind,
        r.reference@ == s.reference@,
        r.digest@ == s.digest@,
{
    AutomationSecretReference { kind: s.kind, reference: s.reference.clone(), digest: s.digest.clone() }
}

fn tracker_state_values(values: Option<Vec<String>>, defaults_active: bool) -> (r: Vec<String>)
    ensures
        texts_view(r@) == match values {
            Some(v) => texts_view(v@),
            None => if defaults_active { default_active_states() } else { default_terminal_states() },
        },
{
    match values {
        Some(v) => v,
        None => {
            let r = if defaults_active {
                vec![to_owned_string("Todo"), to_owned_string("In Progress")]
            } else {
                vec![
                    to_owned_string("Closed"),
                    to_owned_string("Cancelled"),
                    to_owned_string("Canceled"),
                    to_owned_string("Duplicate"),
                    to_owned_string("Done"),
                ]
            };
            proof {
                if defaults_active {
                    assert(texts_view(r@) =~= default_active_states());
                } else {
                    assert(texts_view(r@) =~= default_terminal_states());
                }
            }
            r
        },
    }
}

fn tracker_identity(
    kind: Option<String>,
    project_slug: Option<String>,
    api_key: Option<String>,
    environment: &Vec<(String, String)>,
    diagnostics: &mut Vec<AutomationDiagnostic>,
) -> (r: (String, String, AutomationSecretReference, bool))
    ensures
        ({
            let t = RawTrackerSection {
                kind,
                endpoint: arbitrary(),
                api_key,
                project_slug,
                required_labels: arbitrary(),
                active_states: arbitrary(),
                terminal_states: arbitrary(),
            };
            &&& r.0@ == required_value(text_option(kind))
            &&& r.1@ == required_value(text_option(project_slug))
            &&& secret_spec(text_option(api_key), environment@) == (r.2.kind, r.2.reference@, r.2.digest@, r.3)
            &&& diags_view(final(diagnostics)@) == diags_view(old(diagnostics)@) + tracker_identity_diags(t, environment@)
        }),
{
    let ghost start = diags_view(diagnostics@);
    let ghost k0 = text_option(kind);
    let ghost s0 = text_option(project_slug);
    let ghost a0 = text_option(api_key);
    let kind = required_string(kind, "tracker.kind", diagnostics);
    let ghost d1 = diags_view(diagnostics@);
    if !text_is_empty(kind.as_str()) && !str_eq(kind.as_str(), "linear") {
        let message = concat(concat("tracker `", kind.as_str()).as_str(), "` is not supported; the MVP supports `linear`");
        push_error_at(diagnostics, AutomationDiagnosticCode::UnsupportedTracker, "tracker.kind", message.as_str());
    } else {
        proof {
            assert(diags_view(diagnostics@) =~= diags_view(diagnostics@) + Seq::empty());
        }
    }
    let ghost d2 = diags_view(diagnostics@);
    let project_slug = required_string(project_slug, "tracker.project_slug", diagnostics);
    let ghost d3 = diags_view(diagnostics@);
    let (credential, available) = secret_reference(api_key, environment, "tracker.api_key", diagnostics);
    let ghost d4 = diags_view(diagnostics@);
    if !available {
        diagnostics.push(AutomationDiagnostic {
            severity: AutomationValidationSeverity::Warning,
            code: AutomationDiagnosticCode::MissingSecret,
            path: to_owned_string("tracker.api_key"),
            message: to_owned_string(
                "tracker credential is unavailable; fixture validation remains available but live Linear reads will be skipped",
            ),
        });
        proof {
            assert(diags_view(diagnostics@) =~= d4 + credential_warning(false));
        }
    } else {
        proof {
            assert(diags_view(diagnostics@) =~= d4 + Seq::empty());
        }
    }
    proof {
        let p1 = required_diags(k0, "tracker.kind"@);
        let p2 = tracker_kind_diags(required_value(k0));
        let p3 = required_diags(s0, "tracker.project_slug"@);
        let p4 = secret_diags(a0, "tracker.api_key"@);
        let p5 = credential_warning(available);
        lemma_concat_assoc(start, p1, p2);
        lemma_concat_assoc(start, p1 + p2, p3);
        lemma_concat_assoc(start, p1 + p2 + p3, p4);
        lemma_concat_assoc(start, p1 + p2 + p3 + p4, p5);
    }
    (kind, project_slug, credential, available)
}

fn tracker_lists(
    required_labels: Vec<String>,
    active_states: Option<Vec<String>>,
    terminal_states: Option<Vec<String>>,
    diagnostics: &mut Vec<AutomationDiagnostic>,
) -> (r: (Vec<String>, Vec<String>, Vec<String>))
    ensures
        ({
            let t = RawTrackerSection {
                kind: arbitrary(),
                endpoint: arbitrary(),
                api_key: arbitrary(),
                project_slug: arbitrary(),
                required_labels,
                active_states,
                terminal_states,
            };
            &&& labels_normalized(texts_view(r.0@), texts_view(required_labels@))
            &&& texts_view(r.1@) == state_list_fold(active_values(t)).0
            &&& texts_view(r.2@) == state_list_fold(terminal_values(t)).0
            &&& diags_view(final(diagnostics)@) == diags_view(old(diagnostics)@) + tracker_list_diags(t)
        }),
{
    let ghost start = diags_view(diagnostics@);
    let ghost l0 = texts_view(required_labels@);
    let ghost t = RawTrackerSection {
        kind: arbitrary(),
        endpoint: arbitrary(),
        api_key: arbitrary(),
        project_slug: arbitrary(),
        required_labels,
        active_states,
        terminal_states,
    };
    let labels = normalize_labels(required_labels, diagnostics);
    let active = tracker_state_values(active_states, true);
    let active = normalized_nonempty_list(active, "tracker.active_states", diagnostics);
    let terminal = tracker_state_values(terminal_states, false);
    let terminal = normalized_nonempty_list(terminal, "tracker.terminal_states", diagnostics);
    proof {
        let p1 = repeated(
            error_view(AutomationDiagnosticCode::InvalidValue, "tracker.required_labels"@, "required labels must not be blank"@),
            blank_labels(l0),
        );
        let p2 = state_list_diags(active_values(t), "tracker.active_states"@);
        let p3 = state_list_diags(terminal_values(t), "tracker.terminal_states"@);
        lemma_concat_assoc(start, p1, p2);
        lemma_concat_assoc(start, p1 + p2, p3);
    }
    (labels, active, terminal)
}

/// The tracker section: kind, project, credential, labels and state lists.
pub fn validate_tracker(
    t: RawTrackerSection,
    environment: &Vec<(String, String)>,
    diagnostics: &mut Vec<AutomationDiagnostic>,
) -> (r: (AutomationTrackerProfile, bool))
    ensures
        tracker_matches(r.0, t, environment@),
        r.1 == secret_spec(text_option(t.api_key), environment@).3,
        diags_view(final(diagnostics)@) == diags_view(old(diagnostics)@) + tracker_diags(t, environment@),
{
    let ghost t0 = t;
    let ghost start = diags_view(diagnostics@);
    let (kind, project_slug, credential, available) = tracker_identity(t.kind, t.project_slug, t.api_key, environment, diagnostics);
    let ghost mid = diags_view(diagnostics@);
    let (required_labels, active_states, terminal_states) = tracker_lists(t.required_labels, t.active_states, t.terminal_states, diagnostics);
    let endpoint = match t.endpoint {
        Some(v) => if !text_is_empty(trim(v.as_str()).as_str()) { v } else { to_owned_string(DEFAULT_LINEAR_ENDPOINT) },
        None => to_owned_string(DEFAULT_LINEAR_ENDPOINT),
    };
    proof {
        lemma_concat_assoc(start, tracker_identity_diags(t0, environment@), tracker_list_diags(t0));
    }
    (
        AutomationTrackerProfile {
            kind,
            endpoint,
            project_slug,
            required_labels,
            active_states,
            terminal_states,
            credential,
        },
        available,
    )
}

// ---- polling, workspace, hooks and agent -------------------------------------------

pub open spec fn u64_or(v: Option<u64>, d: u64) -> u64 {
    match v {
        Some(x) => x,
        None => d,
    }
}

pub open spec fn u32_or(v: Option<u32>, d: u32) -> u32 {
    match v {
        Some(x) => x,
        None => d,
    }
}

pub open spec fn workspace_raw(w: RawWorkspaceSection) -> Seq<char> {
    match w.root {
        Some(r) => r@,
        None => DEFAULT_WORKSPACE_ROOT@,
    }
}

/// The workspace root: configured (or the default), expanded and resolved against
/// the directory of the `WORKFLOW.md`.
pub open spec fn workspace_model(w: RawWorkspaceSection, f: AutomationValidationContext) -> (bool, Seq<Seq<char>>) {
    lexical_absolute_spec(expanded_path(workspace_raw(w), text_option(f.home_dir), f.environment@), f.workflow_dir@)
}

pub open spec fn workspace_diags(w: RawWorkspaceSection, f: AutomationValidationContext) -> Seq<(AutomationValidationSeverity, AutomationDiagnosticCode, Seq<char>, Seq<char>)> {
    expansion_diags(workspace_raw(w), text_option(f.home_dir), f.environment@, "workspace.root"@)
        + if workspace_root_unsafe(workspace_model(w, f), f.repository_root@, f.workspace_root_is_symlink) {
            seq![error_view(
                AutomationDiagnosticCode::UnsafeWorkspaceRoot,
                "workspace.root"@,
                "workspace root must be a dedicated non-symlink directory and cannot be `/`, the repository root, or `.git`"@,
            )]
        } else {
            Seq::empty()
        }
}

pub open spec fn settings_diags(raw: RawAutomationProfile, f: AutomationValidationContext) -> Seq<(AutomationValidationSeverity, AutomationDiagnosticCode, Seq<char>, Seq<char>)> {
    positive_diags(u64_or(raw.polling.interval_ms, 30000) as int, "polling.interval_ms"@)
        + workspace_diags(raw.workspace, f)
        + positive_diags(u64_or(raw.hooks.timeout_ms, 60000) as int, "hooks.timeout_ms"@)
        + positive_diags(u32_or(raw.agent.max_concurrent_agents, 10) as int, "agent.max_concurrent_agents"@)
        + positive_diags(u32_or(raw.agent.max_turns, 20) as int, "agent.max_turns"@)
        + positive_diags(u64_or(raw.agent.max_retry_backoff_ms, 300000) as int, "agent.max_retry_backoff_ms"@)
        + by_state_diags(raw.agent.max_concurrent_agents_by_state@)
}

pub open spec fn settings_match(
    polling: AutomationPollingProfile,
    workspace: AutomationWorkspaceProfile,
    hooks: AutomationHooksProfile,
    agent: AutomationAgentProfile,
    raw: RawAutomationProfile,
    f: AutomationValidationContext,
) -> bool {
    &&& polling.interval_ms == u64_or(raw.polling.interval_ms, 30000)
    &&& workspace.root@ == render_path(workspace_model(raw.workspace, f))
    &&& hooks.after_create == raw.hooks.after_create
    &&& hooks.before_run == raw.hooks.before_run
    &&& hooks.after_run == raw.hooks.after_run
    &&& hooks.before_remove == raw.hooks.before_remove
    &&& hooks.timeout_ms == u64_or(raw.hooks.timeout_ms, 60000)
    &&& agent.max_concurrent_agents == u32_or(raw.agent.max_concurrent_agents, 10)
    &&& agent.max_turns == u32_or(raw.agent.max_turns, 20)
    &&& agent.max_retry_backoff_ms == u64_or(raw.agent.max_retry_backoff_ms, 300000)
    &&& lists_map(agent.max_concurrent_agents_by_state@, by_state_fold(raw.agent.max_concurrent_agents_by_state@).0)
}

/// Polling, workspace, hook and agent settings, with their defaults.
pub fn validate_settings(
    polling: RawPollingSection,
    workspace: RawWorkspaceSection,
    hooks: RawHooksSection,
    agent: RawAgentSection,
    context: &AutomationValidationContext,
    diagnostics: &mut Vec<AutomationDiagnostic>,
) -> (r: (AutomationPollingProfile, AutomationWorkspaceProfile, AutomationHooksProfile, AutomationAgentProfile))
    ensures
        ({
            let raw = RawAutomationProfile {
                tracker: arbitrary(),
                polling,
                workspace,
                hooks,
                agent,
                codex: arbitrary(),
                orchestra: arbitrary(),
                extensions: arbitrary(),
            };
            &&& settings_match(r.0, r.1, r.2, r.3, raw, *context)
            &&& diags_view(final(diagnostics)@) == diags_view(old(diagnostics)@) + settings_diags(raw, *context)
        }),
{
    let ghost start = diags_view(diagnostics@);
    let ghost w0 = workspace;
    let ghost a0 = agent;
    let interval_ms = positive_u64(
        match polling.interval_ms { Some(v) => v, None => 30000 },
        "polling.interval_ms",
        diagnostics,
    );
    let ghost d1 = diags_view(diagnostics@);
    let root_raw = match workspace.root {
        Some(r) => r,
        None => to_owned_string(DEFAULT_WORKSPACE_ROOT),
    };
    let root = resolve_path_value(
        root_raw.as_str(),
        context.workflow_dir.as_str(),
        &context.home_dir,
        &context.environment,
        "workspace.root",
        diagnostics,
    );
    validate_workspace_root(&root, context.repository_root.as_str(), context.workspace_root_is_symlink, diagnostics);
    let ghost d2 = diags_view(diagnostics@);
    let hooks_timeout_ms = positive_u64(
        match hooks.timeout_ms { Some(v) => v, None => 60000 },
        "hooks.timeout_ms",
        diagnostics,
    );
    let max_concurrent_agents = positive_u32(
        match agent.max_concurrent_agents { Some(v) => v, None => 10 },
        "agent.max_concurrent_agents",
        diagnostics,
    );
    let max_turns = positive_u32(
        match agent.max_turns { Some(v) => v, None => 20 },
        "agent.max_turns",
        diagnostics,
    );
    let max_retry_backoff_ms = positive_u64(
        match agent.max_retry_backoff_ms { Some(v) => v, None => 300000 },
        "agent.max_retry_backoff_ms",
        diagnostics,
    );
    let by_state = normalize_state_limits(agent.max_concurrent_agents_by_state, diagnostics);
    let root_text = render_lexical(&root);
    proof {
        let raw = RawAutomationProfile {
            tracker: arbitrary(),
            polling,
            workspace: w0,
            hooks,
            agent: a0,
            codex: arbitrary(),
            orchestra: arbitrary(),
            extensions: arbitrary(),
        };
        let p1 = positive_diags(u64_or(raw.polling.interval_ms, 30000) as int, "polling.interval_ms"@);
        let p2 = workspace_diags(raw.workspace, *context);
        let p3 = positive_diags(u64_or(raw.hooks.timeout_ms, 60000) as int, "hooks.timeout_ms"@);
        let p4 = positive_diags(u32_or(raw.agent.max_concurrent_agents, 10) as int, "agent.max_concurrent_agents"@);
        let p5 = positive_diags(u32_or(raw.agent.max_turns, 20) as int, "agent.max_turns"@);
        let p6 = positive_diags(u64_or(raw.agent.max_retry_backoff_ms, 300000) as int, "agent.max_retry_backoff_ms"@);
        let p7 = by_state_diags(raw.agent.max_concurrent_agents_by_state@);
        lemma_concat_assoc(d1, expansion_diags(workspace_raw(w0), text_option(context.home_dir), context.environment@, "workspace.root"@),
            p2.skip(expansion_diags(workspace_raw(w0), text_option(context.home_dir), context.environment@, "workspace.root"@).len() as int));
        assert(p2 =~= expansion_diags(workspace_raw(w0), text_option(context.home_dir), context.environment@, "workspace.root"@)
            + p2.skip(expansion_diags(workspace_raw(w0), text_option(context.home_dir), context.environment@, "workspace.root"@).len() as int));
        assert(d2 == start + p1 + p2);
        lemma_concat_assoc(start, p1, p2);
        lemma_concat_assoc(start, p1 + p2, p3);
        lemma_concat_assoc(start, p1 + p2 + p3, p4);
        lemma_concat_assoc(start, p1 + p2 + p3 + p4, p5);
        lemma_concat_assoc(start, p1 + p2 + p3 + p4 + p5, p6);
        lemma_concat_assoc(start, p1 + p2 + p3 + p4 + p5 + p6, p7);
    }
    (
        AutomationPollingProfile { interval_ms },
        AutomationWorkspaceProfile { root: root_text },
        AutomationHooksProfile {
            after_create: hooks.after_create,
            before_run: hooks.before_run,
            after_run: hooks.after_run,
            before_remove: hooks.before_remove,
            timeout_ms: hooks_timeout_ms,
        },
        AutomationAgentProfile {
            max_concurrent_agents,
            max_turns,
            max_retry_backoff_ms,
            max_concurrent_agents_by_state: by_state,
        },
    )
}


// ---- Codex policy ------------------------------------------------------------

pub open spec fn codex_diags(c: RawCodexSection, inherited: InheritedCodexPolicy) -> Seq<(AutomationValidationSeverity, AutomationDiagnosticCode, Seq<char>, Seq<char>)> {
    (if c.command is Some {
        seq![error_view(
            AutomationDiagnosticCode::ProhibitedCodexCommand,
            "codex.command"@,
            "Orchestra uses the resident native Codex runtime; `codex.command` is prohibited"@,
        )]
    } else {
        Seq::empty()
    })
        + policy_diags(
            c.approval_policy matches Some(q) && !approval_allowed(q, inherited.approval_policy),
            "codex.approval_policy"@,
            "Automation policy may only narrow the active task approval policy"@,
        )
        + policy_diags(
            c.thread_sandbox matches Some(q) && !sandbox_allowed(q@, inherited.thread_sandbox@),
            "codex.thread_sandbox"@,
            "Automation sandbox may only narrow the active task sandbox"@,
        )
        + policy_diags(
            c.turn_sandbox_policy matches Some(q) && !json_same(q, inherited.turn_sandbox_policy),
            "codex.turn_sandbox_policy"@,
            "the MVP accepts the inherited turn sandbox policy exactly; native policy comparison must prove any future narrowing"@,
        )
}

/// The effective Codex policy: each requested setting when it only narrows the
/// inherited one, else the inherited one; timeouts with their defaults.
pub open spec fn codex_matches(p: AutomationCodexPolicy, c: RawCodexSection, inherited: InheritedCodexPolicy) -> bool {
    &&& p.approval_policy == match c.approval_policy {
        Some(q) => if approval_allowed(q, inherited.approval_policy) { q } else { inherited.approval_policy },
        None => inherited.approval_policy,
    }
    &&& p.thread_sandbox == match c.thread_sandbox {
        Some(q) => if sandbox_allowed(q@, inherited.thread_sandbox@) { q } else { inherited.thread_sandbox },
        None => inherited.thread_sandbox,
    }
    &&& p.turn_sandbox_policy == match c.turn_sandbox_policy {
        Some(q) => if json_same(q, inherited.turn_sandbox_policy) { q } else { inherited.turn_sandbox_policy },
        None => inherited.turn_sandbox_policy,
    }
    &&& p.turn_timeout_ms == u64_or(c.turn_timeout_ms, 3600000)
    &&& p.read_timeout_ms == u64_or(c.read_timeout_ms, 5000)
    &&& p.stall_timeout_ms == u64_or(c.stall_timeout_ms, 300000)
}

pub fn validate_codex(c: RawCodexSection, inherited: InheritedCodexPolicy, diagnostics: &mut Vec<AutomationDiagnostic>) -> (r: AutomationCodexPolicy)
    ensures
        codex_matches(r, c, inherited),
        diags_view(final(diagnostics)@) == diags_view(old(diagnostics)@) + codex_diags(c, inherited),
{
    let ghost c0 = c;
    let ghost i0 = inherited;
    let ghost start = diags_view(diagnostics@);
    if c.command.is_some() {
        push_error_at(
            diagnostics,
            AutomationDiagnosticCode::ProhibitedCodexCommand,
            "codex.command",
            "Orchestra uses the resident native Codex runtime; `codex.command` is prohibited",
        );
    } else {
        proof {
            assert(diags_view(diagnostics@) =~= diags_view(diagnostics@) + Seq::empty());
        }
    }
    let approval_policy = validate_approval_policy(c.approval_policy, inherited.approval_policy, diagnostics);
    let thread_sandbox = validate_thread_sandbox(c.thread_sandbox, inherited.thread_sandbox, diagnostics);
    let turn_sandbox_policy = validate_turn_sandbox(c.turn_sandbox_policy, inherited.turn_sandbox_policy, diagnostics);
    proof {
        let p1 = if c0.command is Some {
            seq![error_view(
                AutomationDiagnosticCode::ProhibitedCodexCommand,
                "codex.command"@,
                "Orchestra uses the resident native Codex runtime; `codex.command` is prohibited"@,
            )]
        } else {
            Seq::empty()
        };
        let p2 = policy_diags(
            c0.approval_policy matches Some(q) && !approval_allowed(q, i0.approval_policy),
            "codex.approval_policy"@,
            "Automation policy may only narrow the active task approval policy"@,
        );
        let p3 = policy_diags(
            c0.thread_sandbox matches Some(q) && !sandbox_allowed(q@, i0.thread_sandbox@),
            "codex.thread_sandbox"@,
            "Automation sandbox may only narrow the active task sandbox"@,
        );
        let p4 = policy_diags(
            c0.turn_sandbox_policy matches Some(q) && !json_same(q, i0.turn_sandbox_policy),
            "codex.turn_sandbox_policy"@,
            "the MVP accepts the inherited turn sandbox policy exactly; native policy comparison must prove any future narrowing"@,
        );
        lemma_concat_assoc(start, p1, p2);
        lemma_concat_assoc(start, p1 + p2, p3);
        lemma_concat_assoc(start, p1 + p2 + p3, p4);
    }
    AutomationCodexPolicy {
        approval_policy,
        thread_sandbox,
        turn_sandbox_policy,
        turn_timeout_ms: match c.turn_timeout_ms { Some(v) => v, None => 3600000 },
        read_timeout_ms: match c.read_timeout_ms { Some(v) => v, None => 5000 },
        stall_timeout_ms: match c.stall_timeout_ms { Some(v) => v, None => 300000 },
    }
}

// ---- the Orchestra extension --------------------------------------------------------

/// The selected workflow as written, when it is not blank.
pub open spec fn workflow_raw(o: RawOrchestraSection) -> Seq<char> {
    match o.workflow {
        Some(v) => if trim_seq(v@).len() > 0 { v@ } else { Seq::empty() },
        None => Seq::empty(),
    }
}

pub open spec fn selected_path(o: RawOrchestraSection, f: AutomationValidationContext) -> Option<Seq<char>> {
    workflow_path_spec(
        workflow_raw(o),
        f.workflow_dir@,
        f.repository_root@,
        text_option(f.canonical_repository_root),
        text_option(f.canonical_workflow_path),
    )
}

/// The diagnostics of the selected workflow itself: unreadable, rejected by the
/// compiler, or with inputs Automation cannot drive.
pub open spec fn selected_workflow_diags(path: Option<Seq<char>>, w: Option<SelectedWorkflow>) -> Seq<(AutomationValidationSeverity, AutomationDiagnosticCode, Seq<char>, Seq<char>)> {
    match (path, w) {
        (Some(p), Some(SelectedWorkflow::Unreadable(e))) => seq![error_view(
            AutomationDiagnosticCode::WorkflowCompileError,
            "orchestra.workflow"@,
            "failed to read selected workflow "@ + p + ": "@ + e@,
        )],
        (Some(p), Some(SelectedWorkflow::Rejected { source, message })) => seq![error_view(
            AutomationDiagnosticCode::WorkflowCompileError,
            "orchestra.workflow"@,
            message@,
        )],
        (Some(p), Some(SelectedWorkflow::Compiled { source, name, inputs })) => workflow_input_diags(inputs@),
        _ => Seq::empty(),
    }
}

pub open spec fn orchestra_diags(o: RawOrchestraSection, f: AutomationValidationContext, w: Option<SelectedWorkflow>) -> Seq<(AutomationValidationSeverity, AutomationDiagnosticCode, Seq<char>, Seq<char>)> {
    (if workflow_raw(o).len() == 0 {
        seq![error_view(
            AutomationDiagnosticCode::MissingOrchestraExtension,
            "orchestra.workflow"@,
            "the Orchestra extension must select an issue `.workflow.ts`"@,
        )]
    } else {
        Seq::empty()
    })
        + unsupported_effect_diags(texts_view(o.effects@))
        + workflow_path_diags(
            workflow_raw(o),
            f.workflow_dir@,
            f.repository_root@,
            text_option(f.canonical_repository_root),
            text_option(f.canonical_workflow_path),
        )
        + selected_workflow_diags(selected_path(o, f), w)
}

pub open spec fn workflow_digest(path: Option<Seq<char>>, w: Option<SelectedWorkflow>) -> Seq<char> {
    match (path, w) {
        (Some(p), Some(SelectedWorkflow::Rejected { source, message })) => sha256_hex(source@),
        (Some(p), Some(SelectedWorkflow::Compiled { source, name, inputs })) => sha256_hex(source@),
        _ => Seq::empty(),
    }
}

pub open spec fn workflow_name(path: Option<Seq<char>>, w: Option<SelectedWorkflow>) -> Seq<char> {
    match (path, w) {
        (Some(p), Some(SelectedWorkflow::Compiled { source, name, inputs })) => name@,
        _ => Seq::empty(),
    }
}

pub open spec fn workflow_inputs(path: Option<Seq<char>>, w: Option<SelectedWorkflow>) -> Seq<(String, InputDefinition)> {
    match (path, w) {
        (Some(p), Some(SelectedWorkflow::Compiled { source, name, inputs })) => inputs@,
        _ => Seq::empty(),
    }
}

/// An input as previewed: its name, kind, whether it is required, and its default.
pub open spec fn input_previewed(p: AutomationWorkflowInput, d: (String, InputDefinition)) -> bool {
    &&& p.name == d.0
    &&& p.kind == d.1.kind
    &&& p.required == d.1.required
    &&& p.default == match d.1.default {
        InputDefault::Missing => None,
        InputDefault::Value(v) => Some(v),
    }
}

pub open spec fn inputs_previewed(p: Seq<AutomationWorkflowInput>, d: Seq<(String, InputDefinition)>) -> bool {
    &&& p.len() == d.len()
    &&& forall|i: int| 0 <= i < d.len() ==> #[trigger] input_previewed(p[i], d[i])
}

fn preview_inputs(inputs: Vec<(String, InputDefinition)>) -> (r: Vec<AutomationWorkflowInput>)
    ensures
        inputs_previewed(r@, inputs@),
{
    let ghost all = inputs@;
    let mut rest = inputs;
    let mut out: Vec<AutomationWorkflowInput> = Vec::new();
    while rest.len() > 0
        invariant
            out@.len() + rest@.len() == all.len(),
            rest@ == all.skip(out@.len() as int),
            forall|i: int| 0 <= i < out@.len() ==> #[trigger] input_previewed(out@[i], all[i]),
        decreases rest.len(),
    {
        let (name, d) = rest.remove(0);
        proof {
            assert((name, d) == all[out@.len() as int]);
        }
        let default = match d.default {
            InputDefault::Missing => None,
            InputDefault::Value(v) => Some(v),
        };
        out.push(AutomationWorkflowInput { name, kind: d.kind, required: d.required, default });
        proof {
            assert(rest@ =~= all.skip(out@.len() as int));
        }
    }
    out
}

pub open spec fn orchestra_matches(
    p: AutomationOrchestraProfile,
    inputs: Seq<AutomationWorkflowInput>,
    o: RawOrchestraSection,
    f: AutomationValidationContext,
    w: Option<SelectedWorkflow>,
) -> bool {
    &&& p.workflow_path@ == match selected_path(o, f) {
        Some(c) => c,
        None => workflow_raw(o),
    }
    &&& p.workflow_sha256@ == workflow_digest(selected_path(o, f), w)
    &&& p.workflow_name@ == workflow_name(selected_path(o, f), w)
    &&& p.effects@ == effects_selected(texts_view(o.effects@))
    &&& inputs_previewed(inputs, workflow_inputs(selected_path(o, f), w))
}

fn selected_workflow_outcome(
    path: &Option<String>,
    workflow: Option<SelectedWorkflow>,
    diagnostics: &mut Vec<AutomationDiagnostic>,
) -> (r: (String, String, Vec<AutomationWorkflowInput>))
    ensures
        r.0@ == workflow_digest(text_option(*path), workflow),
        r.1@ == workflow_name(text_option(*path), workflow),
        inputs_previewed(r.2@, workflow_inputs(text_option(*path), workflow)),
        diags_view(final(diagnostics)@) == diags_view(old(diagnostics)@) + selected_workflow_diags(text_option(*path), workflow),
{
    match path {
        None => {
            proof {
                assert(diags_view(diagnostics@) =~= diags_view(diagnostics@) + Seq::empty());
                assert(workflow_inputs(text_option(*path), workflow) =~= Seq::<(String, InputDefinition)>::empty());
            }
            (String::new(), String::new(), Vec::new())
        },
        Some(p) => match workflow {
            None => {
                proof {
                    assert(diags_view(diagnostics@) =~= diags_view(diagnostics@) + Seq::empty());
                    assert(workflow_inputs(text_option(*path), workflow) =~= Seq::<(String, InputDefinition)>::empty());
                }
                (String::new(), String::new(), Vec::new())
            },
            Some(SelectedWorkflow::Unreadable(error)) => {
                let message = concat(concat(concat("failed to read selected workflow ", p.as_str()).as_str(), ": ").as_str(), error.as_str());
                push_error_at(diagnostics, AutomationDiagnosticCode::WorkflowCompileError, "orchestra.workflow", message.as_str());
                proof {
                    assert(workflow_inputs(text_option(*path), workflow) =~= Seq::<(String, InputDefinition)>::empty());
                }
                (String::new(), String::new(), Vec::new())
            },
            Some(SelectedWorkflow::Rejected { source, message }) => {
                let digest = sha256_hex_str(source.as_str());
                push_error_at(diagnostics, AutomationDiagnosticCode::WorkflowCompileError, "orchestra.workflow", message.as_str());
                proof {
                    assert(workflow_inputs(text_option(*path), workflow) =~= Seq::<(String, InputDefinition)>::empty());
                }
                (digest, String::new(), Vec::new())
            },
            Some(SelectedWorkflow::Compiled { source, name, inputs }) => {
                let digest = sha256_hex_str(source.as_str());
                validate_workflow_inputs(&inputs, diagnostics);
                let previews = preview_inputs(inputs);
                (digest, name, previews)
            },
        },
    }
}

/// The Orchestra extension: the selected workflow, its effects, and what reading
/// and compiling it gave.
pub fn validate_orchestra(
    o: RawOrchestraSection,
    context: &AutomationValidationContext,
    workflow: Option<SelectedWorkflow>,
    diagnostics: &mut Vec<AutomationDiagnostic>,
) -> (r: (AutomationOrchestraProfile, Vec<AutomationWorkflowInput>))
    ensures
        orchestra_matches(r.0, r.1@, o, *context, workflow),
        diags_view(final(diagnostics)@) == diags_view(old(diagnostics)@) + orchestra_diags(o, *context, workflow),
{
    let ghost o0 = o;
    let ghost w0 = workflow;
    let ghost start = diags_view(diagnostics@);
    let workflow_text = match o.workflow {
        Some(v) => if !text_is_empty(trim(v.as_str()).as_str()) { v } else { String::new() },
        None => String::new(),
    };
    if text_is_empty(workflow_text.as_str()) {
        push_error_at(
            diagnostics,
            AutomationDiagnosticCode::MissingOrchestraExtension,
            "orchestra.workflow",
            "the Orchestra extension must select an issue `.workflow.ts`",
        );
    } else {
        proof {
            assert(diags_view(diagnostics@) =~= diags_view(diagnostics@) + Seq::empty());
        }
    }
    let effects = select_effects(&o.effects, diagnostics);
    let path = resolve_workflow_path(
        workflow_text.as_str(),
        context.workflow_dir.as_str(),
        context.repository_root.as_str(),
        &context.canonical_repository_root,
        &context.canonical_workflow_path,
        diagnostics,
    );
    let (workflow_sha256, workflow_name, inputs) = selected_workflow_outcome(&path, workflow, diagnostics);
    proof {
        let p1 = if workflow_raw(o0).len() == 0 {
            seq![error_view(
                AutomationDiagnosticCode::MissingOrchestraExtension,
                "orchestra.workflow"@,
                "the Orchestra extension must select an issue `.workflow.ts`"@,
            )]
        } else {
            Seq::empty()
        };
        let p2 = unsupported_effect_diags(texts_view(o0.effects@));
        let p3 = workflow_path_diags(
            workflow_raw(o0),
            context.workflow_dir@,
            context.repository_root@,
            text_option(context.canonical_repository_root),
            text_option(context.canonical_workflow_path),
        );
        let p4 = selected_workflow_diags(selected_path(o0, *context), w0);
        lemma_concat_assoc(start, p1, p2);
        lemma_concat_assoc(start, p1 + p2, p3);
        lemma_concat_assoc(start, p1 + p2 + p3, p4);
    }
    let workflow_path = match path {
        Some(c) => c,
        None => workflow_text,
    };
    (AutomationOrchestraProfile { workflow_path, workflow_sha256, workflow_name, effects }, inputs)
}


// ---- the prompt and the whole profile ---------------------------------------------

/// The prompt template: the document body, or the default prompt when it is empty.
pub open spec fn prompt_template_spec(body: Seq<char>) -> Seq<char> {
    if body.len() == 0 { DEFAULT_PROMPT@ } else { body }
}

pub fn effective_prompt_template(body: &str) -> (r: String)
    ensures
        r@ == prompt_template_spec(body@),
{
    if text_is_empty(body) {
        to_owned_string(DEFAULT_PROMPT)
    } else {
        to_owned_string(body)
    }
}

pub open spec fn prompt_diags(p: PromptRendering) -> Seq<(AutomationValidationSeverity, AutomationDiagnosticCode, Seq<char>, Seq<char>)> {
    match p {
        PromptRendering::Rendered(_) => Seq::empty(),
        PromptRendering::TemplateError(m) => seq![error_view(AutomationDiagnosticCode::TemplateParseError, "prompt_template"@, m@)],
        PromptRendering::RenderError(m) => seq![error_view(AutomationDiagnosticCode::TemplateRenderError, "prompt_template"@, m@)],
    }
}

pub open spec fn rendered_prompt(p: PromptRendering) -> Option<String> {
    match p {
        PromptRendering::Rendered(s) => Some(s),
        _ => None,
    }
}

/// Every diagnostic of a profile, in the order the sections are checked.
pub open spec fn profile_diags(raw: RawAutomationProfile, body: Seq<char>, f: AutomationValidationFacts) -> Seq<(AutomationValidationSeverity, AutomationDiagnosticCode, Seq<char>, Seq<char>)> {
    extension_diags(texts_view(raw.extensions@))
        + tracker_diags(raw.tracker, f.context.environment@)
        + settings_diags(raw, f.context)
        + codex_diags(raw.codex, f.inherited_policy)
        + orchestra_diags(raw.orchestra, f.context, f.workflow)
        + prompt_diags(f.prompt)
}

pub open spec fn no_errors(d: Seq<(AutomationValidationSeverity, AutomationDiagnosticCode, Seq<char>, Seq<char>)>) -> bool {
    forall|i: int| 0 <= i < d.len() ==> (#[trigger] d[i]).0 != AutomationValidationSeverity::Error
}

fn has_no_errors(diagnostics: &Vec<AutomationDiagnostic>) -> (r: bool)
    ensures
        r == no_errors(diags_view(diagnostics@)),
{
    let mut i: usize = 0;
    while i < diagnostics.len()
        invariant
            i <= diagnostics@.len(),
            forall|k: int| 0 <= k < i ==> diagnostics@[k].severity != AutomationValidationSeverity::Error,
        decreases diagnostics.len() - i,
    {
        if diagnostics[i].severity == AutomationValidationSeverity::Error {
            proof {
                assert(diags_view(diagnostics@)[i as int].0 == AutomationValidationSeverity::Error);
            }
            return false;
        }
        i = i + 1;
    }
    proof {
        assert forall|k: int| 0 <= k < diags_view(diagnostics@).len() implies (#[trigger] diags_view(diagnostics@)[k]).0 != AutomationValidationSeverity::Error by {
            assert(diags_view(diagnostics@)[k] == diag_view_of(diagnostics@[k]));
        }
    }
    true
}

pub open spec fn diag_view_of(d: AutomationDiagnostic) -> (AutomationValidationSeverity, AutomationDiagnosticCode, Seq<char>, Seq<char>) {
    crate::automation_validate::diag_view(d)
}

/// The profile assembled from every section, as validation resolves it.
pub open spec fn profile_matches(
    p: AutomationProfile,
    preview_inputs: Seq<AutomationWorkflowInput>,
    raw: RawAutomationProfile,
    body: Seq<char>,
    f: AutomationValidationFacts,
) -> bool {
    &&& tracker_matches(p.tracker, raw.tracker, f.context.environment@)
    &&& settings_match(p.polling, p.workspace, p.hooks, p.agent, raw, f.context)
    &&& codex_matches(p.codex, raw.codex, f.inherited_policy)
    &&& orchestra_matches(p.orchestra, preview_inputs, raw.orchestra, f.context, f.workflow)
    &&& p.prompt_template@ == prompt_template_spec(body)
}

/// What validating a decoded profile against its facts gives: every diagnostic
/// in order, the resolved profile, and the preview of the selected workflow.
pub open spec fn assembled(raw: RawAutomationProfile, body: Seq<char>, facts: AutomationValidationFacts, r: AutomationValidationResult) -> bool {
    &&& diags_view(r.diagnostics@) == profile_diags(raw, body, facts)
    &&& r.valid == no_errors(diags_view(r.diagnostics@))
    &&& r.profile_digest is None
    &&& r.profile is Some
    &&& r.preview is Some
    &&& profile_matches(r.profile->0, r.preview->0.inputs@, raw, body, facts)
    &&& r.preview->0.rendered_prompt == rendered_prompt(facts.prompt)
    &&& r.preview->0.workflow == (if r.profile->0.orchestra.workflow_name@.len() > 0 {
        Some(r.profile->0.orchestra.workflow_name)
    } else {
        None
    })
    &&& r.preview->0.effects@ == r.profile->0.orchestra.effects@
    &&& r.preview->0.secret_references@.len() == 1
    &&& r.preview->0.secret_references@[0].kind == r.profile->0.tracker.credential.kind
    &&& r.preview->0.secret_references@[0].reference@ == r.profile->0.tracker.credential.reference@
    &&& r.preview->0.secret_references@[0].digest@ == r.profile->0.tracker.credential.digest@
}

/// Validates a decoded profile against its facts (see `assembled`). The profile
/// is valid when no diagnostic is an error. Its digest is left to the caller,
/// who serializes the profile.
pub fn assemble_automation_profile(raw: RawAutomationProfile, prompt_body: String, facts: AutomationValidationFacts) -> (r: AutomationValidationResult)
    ensures
        assembled(raw, prompt_body@, facts, r),
{
    let ghost raw0 = raw;
    let ghost facts0 = facts;
    let mut diagnostics: Vec<AutomationDiagnostic> = Vec::new();
    warn_extensions(&raw.extensions, &mut diagnostics);
    let ghost d1 = diags_view(diagnostics@);
    let (tracker, _available) = validate_tracker(raw.tracker, &facts.context.environment, &mut diagnostics);
    let ghost d2 = diags_view(diagnostics@);
    let (polling, workspace, hooks, agent) = validate_settings(raw.polling, raw.workspace, raw.hooks, raw.agent, &facts.context, &mut diagnostics);
    let ghost d3 = diags_view(diagnostics@);
    let codex = validate_codex(raw.codex, facts.inherited_policy, &mut diagnostics);
    let ghost d4 = diags_view(diagnostics@);
    let (orchestra, inputs) = validate_orchestra(raw.orchestra, &facts.context, facts.workflow, &mut diagnostics);
    let ghost d5 = diags_view(diagnostics@);
    let prompt_template = effective_prompt_template(prompt_body.as_str());
    let rendered_prompt = match facts.prompt {
        PromptRendering::Rendered(text) => {
            proof {
                assert(diags_view(diagnostics@) =~= d5 + Seq::empty());
            }
            Some(text)
        },
        PromptRendering::TemplateError(message) => {
            push_error_at(&mut diagnostics, AutomationDiagnosticCode::TemplateParseError, "prompt_template", message.as_str());
            None
        },
        PromptRendering::RenderError(message) => {
            push_error_at(&mut diagnostics, AutomationDiagnosticCode::TemplateRenderError, "prompt_template", message.as_str());
            None
        },
    };
    proof {
        let p1 = extension_diags(texts_view(raw0.extensions@));
        let p2 = tracker_diags(raw0.tracker, facts0.context.environment@);
        let p3 = settings_diags(raw0, facts0.context);
        let p4 = codex_diags(raw0.codex, facts0.inherited_policy);
        let p5 = orchestra_diags(raw0.orchestra, facts0.context, facts0.workflow);
        let p6 = prompt_diags(facts0.prompt);
        assert(d1 =~= p1);
        lemma_concat_assoc(p1, p2, p3);
    }
    let valid = has_no_errors(&diagnostics);
    let secret = copy_secret(&tracker.credential);
    let workflow_preview = if text_is_empty(orchestra.workflow_name.as_str()) {
        None
    } else {
        Some(orchestra.workflow_name.clone())
    };
    let effects_preview = copy_effects(&orchestra.effects);
    AutomationValidationResult {
        valid,
        profile: Some(AutomationProfile {
            tracker,
            polling,
            workspace,
            hooks,
            agent,
            codex,
            orchestra,
            prompt_template,
        }),
        profile_digest: None,
        preview: Some(AutomationWorkflowPreview {
            rendered_prompt,
            workflow: workflow_preview,
            effects: effects_preview,
            inputs,
            secret_references: vec![secret],
        }),
        diagnostics,
    }
}

fn copy_effects(effects: &Vec<AutomationEffect>) -> (r: Vec<AutomationEffect>)
    ensures
        r@ == effects@,
{
    let mut out: Vec<AutomationEffect> = Vec::new();
    let mut i: usize = 0;
    while i < effects.len()
        invariant
            i <= effects@.len(),
            out@ == effects@.take(i as int),
        decreases effects.len() - i,
    {
        out.push(effects[i]);
        proof {
            assert(out@ =~= effects@.take(i + 1));
        }
        i = i + 1;
    }
    proof {
        assert(effects@.take(effects@.len() as int) =~= effects@);
    }
    out
}


/// The workspace root that validation will check, for the caller to inspect on disk.
pub fn workspace_root_candidate(workspace: &RawWorkspaceSection, context: &AutomationValidationContext) -> (r: String)
    ensures
        r@ == render_path(workspace_model(*workspace, *context)),
{
    let raw = match &workspace.root {
        Some(r) => r.clone(),
        None => to_owned_string(DEFAULT_WORKSPACE_ROOT),
    };
    let mut scratch: Vec<AutomationDiagnostic> = Vec::new();
    let root = resolve_path_value(
        raw.as_str(),
        context.workflow_dir.as_str(),
        &context.home_dir,
        &context.environment,
        "workspace.root",
        &mut scratch,
    );
    render_lexical(&root)
}

/// The selected workflow path before canonicalization, for the caller to canonicalize.
pub fn workflow_candidate(orchestra: &RawOrchestraSection, workflow_dir: &str) -> (r: Option<String>)
    ensures
        match r {
            Some(p) => workflow_raw(*orchestra).len() > 0
                && p@ == render_path(lexical_absolute_spec(workflow_raw(*orchestra), workflow_dir@)),
            None => workflow_raw(*orchestra).len() == 0,
        },
{
    let raw = match &orchestra.workflow {
        Some(v) => if !text_is_empty(trim(v.as_str()).as_str()) { v.clone() } else { String::new() },
        None => String::new(),
    };
    if text_is_empty(raw.as_str()) {
        return None;
    }
    let candidate = crate::lexical::lexical_absolute(raw.as_str(), workflow_dir);
    Some(render_lexical(&candidate))
}

/// The checked workflow path that validation will read, if the selection resolves.
pub fn selected_workflow_path(orchestra: &RawOrchestraSection, context: &AutomationValidationContext) -> (r: Option<String>)
    ensures
        text_option(r) == selected_path(*orchestra, *context),
{
    let raw = match &orchestra.workflow {
        Some(v) => if !text_is_empty(trim(v.as_str()).as_str()) { v.clone() } else { String::new() },
        None => String::new(),
    };
    let mut scratch: Vec<AutomationDiagnostic> = Vec::new();
    resolve_workflow_path(
        raw.as_str(),
        context.workflow_dir.as_str(),
        context.repository_root.as_str(),
        &context.canonical_repository_root,
        &context.canonical_workflow_path,
        &mut scratch,
    )
}


/// The digest that identifies a selected workflow's source.
pub fn automation_source_sha256(source: &str) -> (r: String)
    ensures
        r@ == sha256_hex(source@),
{
    sha256_hex_str(source)
}

} // verus!
