//! The host's decisions around a validation worker: what it checks before a
//! request is sent, how the worker's exit is classified, and what it checks of
//! the outcome the worker returns.
use crate::digest::sha256_hex;
use crate::json::JsonValue;
use crate::inputs::json_text;
use crate::inputs::json_view;
use crate::digest::sha256_hex_str;
use crate::text::str_eq;
use crate::text::to_owned_string;
use crate::text::utf8_byte_len;
use crate::text::utf8_len;
use vstd::prelude::*;

verus! {

#[derive(Clone, Copy, Debug, PartialEq, Eq, Structural)]
pub struct EvaluatorLimits {
    pub request_bytes: usize,
    pub response_bytes: usize,
    pub bundle_bytes: usize,
    pub canonical_value_bytes: usize,
    pub wall_time_ms: u64,
    pub value_depth: usize,
    pub value_nodes: usize,
    pub collection_entries: usize,
    pub string_bytes: usize,
    pub issue_count: usize,
    pub issue_text_bytes: usize,
}

impl EvaluatorLimits {
    pub fn default() -> (r: EvaluatorLimits)
        ensures
            r.request_bytes == 2 * 1024 * 1024,
            r.response_bytes == 2 * 1024 * 1024,
            r.bundle_bytes == 1024 * 1024,
            r.canonical_value_bytes == 1024 * 1024,
            r.wall_time_ms == 1_000,
            r.value_depth == 64,
            r.value_nodes == 100_000,
            r.collection_entries == 10_000,
            r.string_bytes == 256 * 1024,
            r.issue_count == 128,
            r.issue_text_bytes == 512,
    {
        EvaluatorLimits {
            request_bytes: 2 * 1024 * 1024,
            response_bytes: 2 * 1024 * 1024,
            bundle_bytes: 1024 * 1024,
            canonical_value_bytes: 1024 * 1024,
            wall_time_ms: 1_000,
            value_depth: 64,
            value_nodes: 100_000,
            collection_entries: 10_000,
            string_bytes: 256 * 1024,
            issue_count: 128,
            issue_text_bytes: 512,
        }
    }
}

/// A validation worker: the program to run, the revision it reports and the
/// limits it runs under.
#[derive(Clone, Debug)]
pub struct Evaluator {
    executable: String,
    evaluator_revision: String,
    limits: EvaluatorLimits,
}

impl Evaluator {
    pub closed spec fn executable_spec(&self) -> Seq<char> {
        self.executable@
    }

    pub closed spec fn revision_spec(&self) -> Seq<char> {
        self.evaluator_revision@
    }

    pub closed spec fn limits_spec(&self) -> EvaluatorLimits {
        self.limits
    }

    pub fn new(executable: String, evaluator_revision: String, limits: EvaluatorLimits) -> (r: Evaluator)
        ensures
            r.executable_spec() == executable@,
            r.revision_spec() == evaluator_revision@,
            r.limits_spec() == limits,
    {
        Evaluator { executable, evaluator_revision, limits }
    }

    pub fn executable(&self) -> (r: &str)
        ensures
            r@ == self.executable_spec(),
    {
        self.executable.as_str()
    }

    pub fn evaluator_revision(&self) -> (r: &str)
        ensures
            r@ == self.revision_spec(),
    {
        self.evaluator_revision.as_str()
    }

    pub fn limits(&self) -> (r: &EvaluatorLimits)
        ensures
            *r == self.limits_spec(),
    {
        &self.limits
    }
}

/// What `String::from_utf8_lossy` decodes from `bytes`.
pub uninterp spec fn utf8_lossy(bytes: Seq<u8>) -> Seq<char>;

/// `String::from_utf8_lossy`, owned: invalid sequences become U+FFFD. The
/// result is a function of the bytes alone; of it only the ASCII case is
/// stated, where each byte is its own character.
#[verifier::external_body]
fn decode_utf8_lossy(bytes: &[u8]) -> (r: String)
    ensures
        r@ == utf8_lossy(bytes@),
        (forall|i: int| 0 <= i < bytes@.len() ==> #[trigger] bytes@[i] < 128) ==> r@ == bytes@.map_values(|b: u8| b as char),
{
    String::from_utf8_lossy(bytes).into_owned()
}

/// The first `limit` bytes of a worker's diagnostics, decoded and trimmed.
pub open spec fn diagnostic_text(bytes: Seq<u8>, limit: nat) -> Seq<char> {
    let n = if bytes.len() < limit { bytes.len() } else { limit };
    crate::text::trim_seq(utf8_lossy(bytes.take(n as int)))
}

/// The diagnostic text reported for a failed worker (see `diagnostic_text`).
pub fn bounded_diagnostic(bytes: &[u8], limit: usize) -> (r: String)
    ensures
        r@ == diagnostic_text(bytes@, limit as nat),
{
    let n = if bytes.len() < limit { bytes.len() } else { limit };
    let head = crate::text::slice_subrange(bytes, 0, n);
    proof {
        assert(head@ =~= bytes@.take(n as int));
    }
    let text = decode_utf8_lossy(head);
    crate::text::trim(text.as_str())
}

#[derive(Clone, Copy, Debug, PartialEq, Eq, Structural)]
pub enum EvaluatorFailure {
    Spawn,
    RequestTooLarge,
    ResponseTooLarge,
    BundleTooLarge,
    ValueTooLarge,
    Timeout,
    Crash,
    WorkerFailure,
    Protocol,
    ProvenanceMismatch,
    Nondeterministic,
    Noncanonical,
}

#[derive(Debug)]
pub struct EvaluatorError {
    pub kind: EvaluatorFailure,
    pub message: String,
}

pub struct EvaluatorProvenance {
    pub bundle_hash: String,
    pub evaluator_revision: String,
}

pub enum ValuePathSegment {
    Key(String),
    Index(u64),
}

pub struct ValidationIssue {
    pub code: String,
    pub path: Vec<ValuePathSegment>,
    pub message: String,
}

pub enum ValidationOutcome {
    Accepted { provenance: EvaluatorProvenance, raw_canonical: String, transformed_canonical: String },
    Rejected { provenance: EvaluatorProvenance, raw_canonical: String, issues: Vec<ValidationIssue> },
}

impl ValidationOutcome {
    pub fn provenance(&self) -> (r: &EvaluatorProvenance)
        ensures
            r == match *self {
                ValidationOutcome::Accepted { provenance, .. } => provenance,
                ValidationOutcome::Rejected { provenance, .. } => provenance,
            },
    {
        match self {
            ValidationOutcome::Accepted { provenance, .. } => provenance,
            ValidationOutcome::Rejected { provenance, .. } => provenance,
        }
    }

    pub fn raw_canonical(&self) -> (r: &String)
        ensures
            r == match *self {
                ValidationOutcome::Accepted { raw_canonical, .. } => raw_canonical,
                ValidationOutcome::Rejected { raw_canonical, .. } => raw_canonical,
            },
    {
        match self {
            ValidationOutcome::Accepted { raw_canonical, .. } => raw_canonical,
            ValidationOutcome::Rejected { raw_canonical, .. } => raw_canonical,
        }
    }
}

pub open spec fn failed(r: Result<(), EvaluatorError>, kind: EvaluatorFailure, message: Seq<char>) -> bool {
    r matches Err(e) && e.kind == kind && e.message@ == message
}

fn failure(kind: EvaluatorFailure, message: &str) -> (r: EvaluatorError)
    ensures
        r.kind == kind,
        r.message@ == message@,
{
    EvaluatorError { kind, message: to_owned_string(message) }
}

/// The checks made of a validation request before any worker is started, in
/// order: the bundle's size, the bundle against its recorded SHA-256, the
/// value's shape (`shape`, judged by the caller on the value itself), and the
/// size of the value's canonical JSON text.
pub fn check_validation_request(
    bundle_source: &str,
    bundle_hash: &str,
    shape: Result<(), EvaluatorError>,
    canonical_len: usize,
    limits: &EvaluatorLimits,
) -> (r: Result<(), EvaluatorError>)
    ensures
        if utf8_len(bundle_source@) > limits.bundle_bytes {
            failed(r, EvaluatorFailure::BundleTooLarge, "validation bundle exceeds byte limit"@)
        } else if sha256_hex(bundle_source@) != bundle_hash@ {
            failed(r, EvaluatorFailure::ProvenanceMismatch, "validation bundle hash does not match its recorded identity"@)
        } else if shape is Err {
            r == shape
        } else if canonical_len > limits.canonical_value_bytes {
            failed(r, EvaluatorFailure::ValueTooLarge, "canonical value exceeds byte limit"@)
        } else {
            r is Ok
        },
{
    if utf8_byte_len(bundle_source) > limits.bundle_bytes {
        return Err(failure(EvaluatorFailure::BundleTooLarge, "validation bundle exceeds byte limit"));
    }
    let actual = sha256_hex_str(bundle_source);
    if !str_eq(actual.as_str(), bundle_hash) {
        return Err(failure(EvaluatorFailure::ProvenanceMismatch, "validation bundle hash does not match its recorded identity"));
    }
    shape?;
    if canonical_len > limits.canonical_value_bytes {
        return Err(failure(EvaluatorFailure::ValueTooLarge, "canonical value exceeds byte limit"));
    }
    Ok(())
}

/// The last check before a worker is started: the size of the canonical
/// request that would be sent to it.
pub fn check_request_size(request_len: usize, limits: &EvaluatorLimits) -> (r: Result<(), EvaluatorError>)
    ensures
        if request_len > limits.request_bytes {
            failed(r, EvaluatorFailure::RequestTooLarge, "validation request exceeds byte limit"@)
        } else {
            r is Ok
        },
{
    if request_len > limits.request_bytes {
        return Err(failure(EvaluatorFailure::RequestTooLarge, "validation request exceeds byte limit"));
    }
    Ok(())
}

/// How a finished worker is judged from its output size, its exit status
/// (`exit_code` is `None` when a signal ended it) and its trimmed, bounded
/// diagnostic text.
pub fn classify_worker_exit(
    stdout_len: usize,
    success: bool,
    exit_code: Option<i32>,
    detail: String,
    limits: &EvaluatorLimits,
) -> (r: Result<(), EvaluatorError>)
    ensures
        if stdout_len > limits.response_bytes {
            failed(r, EvaluatorFailure::ResponseTooLarge, "validation response exceeds byte limit"@)
        } else if !success {
            failed(
                r,
                if exit_code is None { EvaluatorFailure::Crash } else { EvaluatorFailure::WorkerFailure },
                if detail@.len() == 0 { "validation worker failed without diagnostics"@ } else { detail@ },
            )
        } else if stdout_len == 0 {
            failed(r, EvaluatorFailure::Protocol, "validation worker returned no protocol response"@)
        } else {
            r is Ok
        },
{
    if stdout_len > limits.response_bytes {
        return Err(failure(EvaluatorFailure::ResponseTooLarge, "validation response exceeds byte limit"));
    }
    if !success {
        let kind = if exit_code.is_none() { EvaluatorFailure::Crash } else { EvaluatorFailure::WorkerFailure };
        let message = if crate::automation_validate::text_is_empty(detail.as_str()) {
            to_owned_string("validation worker failed without diagnostics")
        } else {
            detail
        };
        return Err(EvaluatorError { kind, message });
    }
    if stdout_len == 0 {
        return Err(failure(EvaluatorFailure::Protocol, "validation worker returned no protocol response"));
    }
    Ok(())
}

/// The index of the first issue at or after `i` whose message is longer than `limit` bytes.
pub open spec fn first_long_issue(issues: Seq<ValidationIssue>, limit: usize, i: int) -> Option<int>
    decreases issues.len() - i,
{
    if i < 0 || i >= issues.len() {
        None
    } else if utf8_len(issues[i].message@) > limit {
        Some(i)
    } else {
        first_long_issue(issues, limit, i + 1)
    }
}

/// What the host makes of a worker's outcome, in order: its provenance against
/// the request, its raw canonical value against the host's, then for an
/// accepted value the size of the transformed value, `transformed` (the
/// caller's judgement that it reads as JSON of an allowed shape) and that it is
/// in canonical form, and for a rejected value the number and size of its
/// issues and whether they come in the order of their canonical JSON.
pub open spec fn outcome_checked(
    outcome: ValidationOutcome,
    bundle_hash: Seq<char>,
    evaluator_revision: Seq<char>,
    raw_canonical: Seq<char>,
    limits: EvaluatorLimits,
    transformed: Result<(), EvaluatorError>,
    r: Result<(), EvaluatorError>,
) -> bool {
    let p = match outcome {
        ValidationOutcome::Accepted { provenance, .. } => provenance,
        ValidationOutcome::Rejected { provenance, .. } => provenance,
    };
    let raw = match outcome {
        ValidationOutcome::Accepted { raw_canonical, .. } => raw_canonical,
        ValidationOutcome::Rejected { raw_canonical, .. } => raw_canonical,
    };
    if p.bundle_hash@ != bundle_hash || p.evaluator_revision@ != evaluator_revision {
        failed(r, EvaluatorFailure::ProvenanceMismatch, "worker response provenance does not match the request tuple"@)
    } else if raw@ != raw_canonical {
        failed(r, EvaluatorFailure::Nondeterministic, "worker and host canonical raw values differ"@)
    } else {
        match outcome {
            ValidationOutcome::Accepted { transformed_canonical, .. } => if utf8_len(transformed_canonical@)
                > limits.canonical_value_bytes {
                failed(r, EvaluatorFailure::ValueTooLarge, "transformed canonical value exceeds byte limit"@)
            } else if transformed is Err {
                r == transformed
            } else if jcs_text(transformed_canonical@) != Some(transformed_canonical@) {
                failed(r, EvaluatorFailure::Noncanonical, "transformed value is not in canonical form"@)
            } else {
                r is Ok
            },
            ValidationOutcome::Rejected { issues, .. } => if issues@.len() > limits.issue_count {
                failed(r, EvaluatorFailure::Protocol, "worker returned more validation issues than allowed"@)
            } else if first_long_issue(issues@, limits.issue_text_bytes, 0) is Some {
                failed(r, EvaluatorFailure::Protocol, "worker returned an oversized validation issue"@)
            } else if !issues_ordered(issues@) {
                failed(r, EvaluatorFailure::Nondeterministic, "validation issues are not in canonical order"@)
            } else {
                r is Ok
            },
        }
    }
}

/// Checks a worker's outcome (see `outcome_checked`).
pub fn check_worker_outcome(
    outcome: &ValidationOutcome,
    bundle_hash: &str,
    evaluator_revision: &str,
    raw_canonical: &str,
    limits: &EvaluatorLimits,
    transformed: Result<(), EvaluatorError>,
) -> (r: Result<(), EvaluatorError>)
    ensures
        outcome_checked(*outcome, bundle_hash@, evaluator_revision@, raw_canonical@, *limits, transformed, r),
{
    let provenance = outcome.provenance();
    if !str_eq(provenance.bundle_hash.as_str(), bundle_hash) || !str_eq(provenance.evaluator_revision.as_str(), evaluator_revision) {
        return Err(failure(EvaluatorFailure::ProvenanceMismatch, "worker response provenance does not match the request tuple"));
    }
    if !str_eq(outcome.raw_canonical().as_str(), raw_canonical) {
        return Err(failure(EvaluatorFailure::Nondeterministic, "worker and host canonical raw values differ"));
    }
    match outcome {
        ValidationOutcome::Accepted { transformed_canonical, .. } => {
            if utf8_byte_len(transformed_canonical.as_str()) > limits.canonical_value_bytes {
                return Err(failure(EvaluatorFailure::ValueTooLarge, "transformed canonical value exceeds byte limit"));
            }
            transformed?;
            let canonical = jcs_canonicalize(transformed_canonical.as_str());
            let same = match &canonical {
                Some(t) => str_eq(t.as_str(), transformed_canonical.as_str()),
                None => false,
            };
            if !same {
                return Err(failure(EvaluatorFailure::Noncanonical, "transformed value is not in canonical form"));
            }
            Ok(())
        },
        ValidationOutcome::Rejected { issues, .. } => {
            if issues.len() > limits.issue_count {
                return Err(failure(EvaluatorFailure::Protocol, "worker returned more validation issues than allowed"));
            }
            let mut i: usize = 0;
            while i < issues.len()
                invariant
                    i <= issues@.len(),
                    *outcome is Rejected,
                    outcome->issues == *issues,
                    issues@.len() <= limits.issue_count,
                    outcome->Rejected_provenance.bundle_hash@ == bundle_hash@,
                    outcome->Rejected_provenance.evaluator_revision@ == evaluator_revision@,
                    outcome->Rejected_raw_canonical@ == raw_canonical@,
                    first_long_issue(issues@, limits.issue_text_bytes, 0) == first_long_issue(issues@, limits.issue_text_bytes, i as int),
                decreases issues.len() - i,
            {
                if utf8_byte_len(issues[i].message.as_str()) > limits.issue_text_bytes {
                    return Err(failure(EvaluatorFailure::Protocol, "worker returned an oversized validation issue"));
                }
                i = i + 1;
            }
            if !issues_in_canonical_order(issues) {
                return Err(failure(EvaluatorFailure::Nondeterministic, "validation issues are not in canonical order"));
            }
            Ok(())
        },
    }
}

// ---------------------------------------------------------------------------
// The shape of a value

/// The number of nodes of a JSON value.
pub open spec fn value_size(v: JsonValue) -> nat
    decreases v, 0int,
{
    match v {
        JsonValue::Array(xs) => 1 + values_size(xs@, xs@.len() as int),
        JsonValue::Object(ms) => 1 + member_values_size(ms@, ms@.len() as int),
        _ => 1,
    }
}

pub open spec fn values_size(xs: Seq<JsonValue>, n: int) -> nat
    decreases xs, n,
{
    if n <= 0 || n > xs.len() { 0 } else { values_size(xs, n - 1) + value_size(xs[n - 1]) }
}

pub open spec fn member_values_size(ms: Seq<(String, JsonValue)>, n: int) -> nat
    decreases ms, n,
{
    if n <= 0 || n > ms.len() { 0 } else { member_values_size(ms, n - 1) + value_size(ms[n - 1].1) }
}

/// The nodes still to visit on a stack of values.
pub open spec fn stack_size(s: Seq<(JsonValue, nat)>) -> nat
    decreases s.len(),
{
    if s.len() == 0 { 0 } else { stack_size(s.drop_last()) + value_size(s.last().0) }
}

pub open spec fn at_depth(xs: Seq<JsonValue>, d: nat) -> Seq<(JsonValue, nat)> {
    xs.map_values(|x: JsonValue| (x, d))
}

pub open spec fn member_values_at(ms: Seq<(String, JsonValue)>, d: nat) -> Seq<(JsonValue, nat)> {
    ms.map_values(|m: (String, JsonValue)| (m.1, d))
}

pub proof fn lemma_stack_size_concat(a: Seq<(JsonValue, nat)>, b: Seq<(JsonValue, nat)>)
    ensures
        stack_size(a + b) == stack_size(a) + stack_size(b),
    decreases b.len(),
{
    if b.len() > 0 {
        assert((a + b).drop_last() =~= a + b.drop_last());
        lemma_stack_size_concat(a, b.drop_last());
    }
}

pub proof fn lemma_values_at_size(xs: Seq<JsonValue>, d: nat, n: int)
    requires
        0 <= n <= xs.len(),
    ensures
        stack_size(at_depth(xs.take(n), d)) == values_size(xs, n),
    decreases n,
{
    if n > 0 {
        assert(at_depth(xs.take(n), d).drop_last() =~= at_depth(xs.take(n - 1), d));
        lemma_values_at_size(xs, d, n - 1);
    }
}

pub proof fn lemma_members_at_size(ms: Seq<(String, JsonValue)>, d: nat, n: int)
    requires
        0 <= n <= ms.len(),
    ensures
        stack_size(member_values_at(ms.take(n), d)) == member_values_size(ms, n),
    decreases n,
{
    if n > 0 {
        assert(member_values_at(ms.take(n), d).drop_last() =~= member_values_at(ms.take(n - 1), d));
        lemma_members_at_size(ms, d, n - 1);
    }
}

pub open spec fn sat_inc(n: nat) -> nat {
    if n >= usize::MAX { usize::MAX as nat } else { n + 1 }
}

/// Walking a value's nodes from a stack, last first, as the host does: the
/// first limit that a node breaks, by its message, or `None` when none does.
pub open spec fn shape_walk(stack: Seq<(JsonValue, nat)>, nodes: nat, limits: EvaluatorLimits) -> Option<Seq<char>>
    decreases stack_size(stack),
{
    if stack.len() == 0 {
        None
    } else {
        let (v, depth) = stack.last();
        let rest = stack.drop_last();
        let seen = sat_inc(nodes);
        if seen > limits.value_nodes {
            Some("canonical value exceeds node limit"@)
        } else if depth > limits.value_depth {
            Some("canonical value exceeds depth limit"@)
        } else {
            match v {
                JsonValue::String(t) => if utf8_len(t@) > limits.string_bytes {
                    Some("canonical string exceeds byte limit"@)
                } else {
                    shape_walk(rest, seen, limits)
                },
                JsonValue::Array(xs) => if xs@.len() > limits.collection_entries {
                    Some("canonical array exceeds entry limit"@)
                } else {
                    proof {
                        lemma_stack_size_concat(rest, at_depth(xs@, sat_inc(depth)));
                        lemma_values_at_size(xs@, sat_inc(depth), xs@.len() as int);
                        assert(xs@.take(xs@.len() as int) =~= xs@);
                    }
                    shape_walk(rest + at_depth(xs@, sat_inc(depth)), seen, limits)
                },
                JsonValue::Object(ms) => if ms@.len() > limits.collection_entries {
                    Some("canonical object exceeds key limit"@)
                } else if exists|k: int| 0 <= k < ms@.len() && utf8_len((#[trigger] ms@[k]).0@) > limits.string_bytes {
                    Some("canonical object key exceeds byte limit"@)
                } else {
                    proof {
                        lemma_stack_size_concat(rest, member_values_at(ms@, sat_inc(depth)));
                        lemma_members_at_size(ms@, sat_inc(depth), ms@.len() as int);
                        assert(ms@.take(ms@.len() as int) =~= ms@);
                    }
                    shape_walk(rest + member_values_at(ms@, sat_inc(depth)), seen, limits)
                },
                _ => shape_walk(rest, seen, limits),
            }
        }
    }
}

pub open spec fn pending_view(s: Seq<(&JsonValue, usize)>) -> Seq<(JsonValue, nat)> {
    s.map_values(|p: (&JsonValue, usize)| (*p.0, p.1 as nat))
}

fn value_too_large(message: &str) -> (r: Result<(), EvaluatorError>)
    ensures
        failed(r, EvaluatorFailure::ValueTooLarge, message@),
{
    Err(failure(EvaluatorFailure::ValueTooLarge, message))
}

/// Checks a value against the node, depth, entry and byte limits, visiting its
/// nodes as `shape_walk` does.
pub fn check_value_shape(value: &JsonValue, limits: &EvaluatorLimits) -> (r: Result<(), EvaluatorError>)
    ensures
        match shape_walk(seq![(*value, 0nat)], 0, *limits) {
            None => r is Ok,
            Some(m) => failed(r, EvaluatorFailure::ValueTooLarge, m),
        },
{
    let ghost goal = shape_walk(seq![(*value, 0nat)], 0, *limits);
    let mut pending: Vec<(&JsonValue, usize)> = Vec::new();
    pending.push((value, 0));
    let mut nodes: usize = 0;
    proof {
        assert(pending_view(pending@) =~= seq![(*value, 0nat)]);
    }
    while pending.len() > 0
        invariant
            goal == shape_walk(seq![(*value, 0nat)], 0, *limits),
            shape_walk(pending_view(pending@), nodes as nat, *limits) == goal,
        decreases stack_size(pending_view(pending@)),
    {
        let ghost before = pending_view(pending@);
        let ghost nodes0 = nodes as nat;
        let (v, depth) = match pending.pop() {
            Some(p) => p,
            None => {
                return Ok(());
            },
        };
        let ghost rest = pending_view(pending@);
        proof {
            assert(rest =~= before.drop_last());
            assert(before.last() == (*v, depth as nat));
        }
        nodes = if nodes == usize::MAX { nodes } else { nodes + 1 };
        assert(nodes as nat == sat_inc(nodes0));
        if nodes > limits.value_nodes {
            assert(shape_walk(before, nodes0, *limits) == Some("canonical value exceeds node limit"@));
            return value_too_large("canonical value exceeds node limit");
        }
        if depth > limits.value_depth {
            assert(shape_walk(before, nodes0, *limits) == Some("canonical value exceeds depth limit"@));
            return value_too_large("canonical value exceeds depth limit");
        }
        let child_depth: usize = if depth == usize::MAX { depth } else { depth + 1 };
        match v {
            JsonValue::String(t) => {
                if utf8_byte_len(t.as_str()) > limits.string_bytes {
                    return value_too_large("canonical string exceeds byte limit");
                }
            },
            JsonValue::Array(xs) => {
                if xs.len() > limits.collection_entries {
                    return value_too_large("canonical array exceeds entry limit");
                }
                let mut i: usize = 0;
                while i < xs.len()
                    invariant
                        i <= xs@.len(),
                        pending_view(pending@) == rest + at_depth(xs@.take(i as int), child_depth as nat),
                    decreases xs.len() - i,
                {
                    let ghost p0 = pending@;
                    pending.push((&xs[i], child_depth));
                    proof {
                        assert(pending@ == p0.push((&xs[i as int], child_depth)));
                        assert(pending_view(pending@) =~= pending_view(p0).push((xs@[i as int], child_depth as nat)));
                        assert(at_depth(xs@.take(i + 1), child_depth as nat) =~= at_depth(xs@.take(i as int), child_depth as nat).push(
                            (xs@[i as int], child_depth as nat),
                        ));
                        assert(pending_view(pending@) =~= rest + at_depth(xs@.take(i + 1), child_depth as nat));
                    }
                    i = i + 1;
                }
                proof {
                    assert(xs@.take(xs@.len() as int) =~= xs@);
                    lemma_stack_size_concat(rest, at_depth(xs@, child_depth as nat));
                    lemma_values_at_size(xs@, child_depth as nat, xs@.len() as int);
                }
            },
            JsonValue::Object(ms) => {
                if ms.len() > limits.collection_entries {
                    return value_too_large("canonical object exceeds key limit");
                }
                let mut k: usize = 0;
                while k < ms.len()
                    invariant
                        k <= ms@.len(),
                        goal == shape_walk(seq![(*value, 0nat)], 0, *limits),
                        shape_walk(before, nodes0, *limits) == goal,
                        *v == JsonValue::Object(*ms),
                        ms@.len() <= limits.collection_entries,
                        before.len() > 0,
                        before.last() == (*v, depth as nat),
                        nodes as nat == sat_inc(nodes0),
                        nodes <= limits.value_nodes,
                        depth <= limits.value_depth,
                        forall|q: int| 0 <= q < k ==> utf8_len((#[trigger] ms@[q]).0@) <= limits.string_bytes,
                    decreases ms.len() - k,
                {
                    if utf8_byte_len(ms[k].0.as_str()) > limits.string_bytes {
                        assert(utf8_len(ms@[k as int].0@) > limits.string_bytes);
                        assert(shape_walk(before, nodes0, *limits) == Some("canonical object key exceeds byte limit"@));
                        return value_too_large("canonical object key exceeds byte limit");
                    }
                    k = k + 1;
                }
                let mut i: usize = 0;
                while i < ms.len()
                    invariant
                        i <= ms@.len(),
                        pending_view(pending@) == rest + member_values_at(ms@.take(i as int), child_depth as nat),
                    decreases ms.len() - i,
                {
                    let ghost p0 = pending@;
                    pending.push((&ms[i].1, child_depth));
                    proof {
                        assert(pending_view(pending@) =~= pending_view(p0).push((ms@[i as int].1, child_depth as nat)));
                        assert(member_values_at(ms@.take(i + 1), child_depth as nat) =~= member_values_at(ms@.take(i as int), child_depth as nat).push(
                            (ms@[i as int].1, child_depth as nat),
                        ));
                        assert(pending_view(pending@) =~= rest + member_values_at(ms@.take(i + 1), child_depth as nat));
                    }
                    i = i + 1;
                }
                proof {
                    assert(ms@.take(ms@.len() as int) =~= ms@);
                    lemma_stack_size_concat(rest, member_values_at(ms@, child_depth as nat));
                    lemma_members_at_size(ms@, child_depth as nat, ms@.len() as int);
                }
            },
            _ => {},
        }
    }
    Ok(())
}

// ---------------------------------------------------------------------------
// Canonical JSON

/// The RFC 8785 canonical form of a JSON text, as `serde_json_canonicalizer`
/// writes it after `serde_json` reads the text, or `None` when either fails.
pub uninterp spec fn jcs_text(json: Seq<char>) -> Option<Seq<char>>;

/// `serde_json::from_str` then `serde_json_canonicalizer::to_string`. Claimed:
/// the outcome is a function of the text alone.
#[verifier::external_body]
fn jcs_canonicalize(json: &str) -> (r: Option<String>)
    ensures
        match r {
            Some(t) => jcs_text(json@) == Some(t@),
            None => jcs_text(json@) is None,
        },
{
    let value: serde_json::Value = serde_json::from_str(json).ok()?;
    serde_json_canonicalizer::to_string(&value).ok()
}

/// The canonical JSON text of a value.
pub fn canonical_json(value: &JsonValue) -> (r: Result<String, EvaluatorError>)
    ensures
        match jcs_text(json_text(json_view(*value))) {
            Some(t) => r matches Ok(x) && x@ == t,
            None => failed_result(r, EvaluatorFailure::Noncanonical, "value is not canonical JSON"@),
        },
{
    let mut text = String::new();
    crate::inputs::write_json(value, &mut text);
    proof {
        assert(text@ =~= json_text(json_view(*value)));
    }
    match jcs_canonicalize(text.as_str()) {
        Some(t) => Ok(t),
        None => Err(failure(EvaluatorFailure::Noncanonical, "value is not canonical JSON")),
    }
}

pub open spec fn failed_result<T>(r: Result<T, EvaluatorError>, kind: EvaluatorFailure, message: Seq<char>) -> bool {
    r matches Err(e) && e.kind == kind && e.message@ == message
}

/// The SHA-256 of a value's canonical JSON text, when it has one.
pub open spec fn canonical_digest(v: crate::inputs::JsonView) -> Option<Seq<char>> {
    match jcs_text(json_text(v)) {
        Some(t) => Some(sha256_hex(t)),
        None => None,
    }
}

/// The lowercase hex SHA-256 of a value's canonical JSON text.
pub fn canonical_sha256(value: &JsonValue) -> (r: Result<String, EvaluatorError>)
    ensures
        match canonical_digest(json_view(*value)) {
            Some(d) => r matches Ok(x) && x@ == d,
            None => failed_result(r, EvaluatorFailure::Noncanonical, "value is not canonical JSON"@),
        },
{
    let text = canonical_json(value)?;
    Ok(sha256_hex_str(text.as_str()))
}

pub open spec fn segment_view(s: ValuePathSegment) -> crate::inputs::JsonView {
    match s {
        ValuePathSegment::Key(k) => crate::inputs::JsonView::Str(k@),
        ValuePathSegment::Index(n) => crate::inputs::JsonView::Number(crate::text::decimal(n as nat)),
    }
}

/// An issue as JSON data.
pub open spec fn issue_view(i: ValidationIssue) -> crate::inputs::JsonView {
    crate::inputs::JsonView::Object(seq![
        ("code"@, crate::inputs::JsonView::Str(i.code@)),
        ("path"@, crate::inputs::JsonView::Array(i.path@.map_values(|s: ValuePathSegment| segment_view(s)))),
        ("message"@, crate::inputs::JsonView::Str(i.message@)),
    ])
}

/// The text an issue is ordered by: its canonical JSON, or empty without one.
pub open spec fn issue_key(i: ValidationIssue) -> Seq<char> {
    match jcs_text(json_text(issue_view(i))) {
        Some(t) => t,
        None => Seq::empty(),
    }
}

/// Each issue's key is ordered no later than the next one's.
pub open spec fn issues_ordered(issues: Seq<ValidationIssue>) -> bool {
    forall|k: int| 0 <= k < issues.len() - 1 ==> crate::order::text_order(issue_key(#[trigger] issues[k]), issue_key(issues[k + 1])) <= 0
}

fn issue_key_text(i: &ValidationIssue) -> (r: String)
    ensures
        r@ == issue_key(*i),
{
    let mut path: Vec<JsonValue> = Vec::new();
    let mut k: usize = 0;
    while k < i.path.len()
        invariant
            k <= i.path@.len(),
            crate::inputs::values_view(path@) == i.path@.take(k as int).map_values(|s: ValuePathSegment| segment_view(s)),
        decreases i.path.len() - k,
    {
        let v = match &i.path[k] {
            ValuePathSegment::Key(s) => JsonValue::String(s.clone()),
            ValuePathSegment::Index(n) => JsonValue::Number(crate::text::u64_to_string(*n)),
        };
        let ghost before = crate::inputs::values_view(path@);
        path.push(v);
        proof {
            assert(crate::inputs::values_view(path@) =~= before.push(json_view(v)));
            assert(i.path@.take(k + 1).map_values(|s: ValuePathSegment| segment_view(s)) =~= i.path@.take(k as int).map_values(
                |s: ValuePathSegment| segment_view(s),
            ).push(segment_view(i.path@[k as int])));
        }
        k = k + 1;
    }
    proof {
        assert(i.path@.take(i.path@.len() as int) =~= i.path@);
    }
    let path_value = JsonValue::Array(path);
    proof {
        crate::inputs::lemma_array_view_pub(path_value);
    }
    let mut ms: Vec<(String, JsonValue)> = Vec::new();
    ms.push((to_owned_string("code"), JsonValue::String(i.code.clone())));
    ms.push((to_owned_string("path"), path_value));
    ms.push((to_owned_string("message"), JsonValue::String(i.message.clone())));
    proof {
        assert(crate::inputs::entries_view(ms@) =~= issue_view(*i)->Object_0);
    }
    let value = JsonValue::Object(ms);
    proof {
        crate::inputs::lemma_object_view_pub(value);
    }
    match canonical_json(&value) {
        Ok(t) => t,
        Err(_) => String::new(),
    }
}

/// Whether issues come in the order of their canonical JSON.
pub fn issues_in_canonical_order(issues: &Vec<ValidationIssue>) -> (r: bool)
    ensures
        r == issues_ordered(issues@),
{
    if issues.len() < 2 {
        return true;
    }
    let mut prev = issue_key_text(&issues[0]);
    let mut k: usize = 0;
    while k + 1 < issues.len()
        invariant
            issues@.len() >= 2,
            k + 1 <= issues@.len(),
            prev@ == issue_key(issues@[k as int]),
            forall|q: int| 0 <= q < k ==> crate::order::text_order(issue_key(#[trigger] issues@[q]), issue_key(issues@[q + 1])) <= 0,
        decreases issues.len() - k,
    {
        let next = issue_key_text(&issues[k + 1]);
        if crate::order::compare_text(prev.as_str(), next.as_str()) > 0 {
            return false;
        }
        prev = next;
        k = k + 1;
    }
    true
}

} // verus!
