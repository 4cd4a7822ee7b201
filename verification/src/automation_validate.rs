//! Validation of an Automation profile (the `WORKFLOW.md` front matter): the
//! document split, each section's normalization and defaults, the diagnostics
//! they raise in order, and the profile they assemble.
use crate::automation::AutomationDiagnostic;
use crate::automation::AutomationDiagnosticCode;
use crate::automation::AutomationSecretKind;
use crate::automation::AutomationSecretReference;
use crate::automation::AutomationValidationResult;
use crate::automation::AutomationValidationSeverity;
use crate::digest::sha256_hex;
use crate::digest::sha256_hex_str;
use crate::segments::is_ascii_alphanumeric;
use crate::text::concat;
use crate::text::str_chars;
use crate::text::string_from_chars;
use crate::text::slice_subrange;
use crate::text::to_owned_string;
use crate::text::trim;
use crate::text::trim_seq;
use crate::text::spec_unicode_lowercase;
use crate::text::unicode_lowercase;
use crate::text::str_eq;
use crate::automation_run::keys_ascending;
use crate::keyed::lower_bound;
use crate::keyed::lemma_lower_bound;
use crate::keyed::lemma_insert_ascending;
use crate::order::text_order;
use crate::order::lemma_text_order_eq;
use crate::automation::AutomationEffect;
use crate::automation::effect_name;
use crate::json::JsonValue;
use crate::lexical::LexicalPath;
use crate::lexical::is_absolute;
use crate::lexical::joined_path;
use crate::lexical::lexical_absolute;
use crate::lexical::lexical_absolute_spec;
use crate::lexical::lexical_model;
use crate::lexical::lexical_view;
use crate::lexical::path_model;
use crate::lexical::render_lexical;
use crate::lexical::render_path;
use crate::lexical::components_view;
use crate::plan::InputDefinition;
use crate::plan::InputKind;
use crate::json::json_same;
use crate::json::json_eq;
use vstd::prelude::*;

verus! {

/// A diagnostic as plain values: severity, code, path and message.
pub open spec fn diag_view(d: AutomationDiagnostic) -> (AutomationValidationSeverity, AutomationDiagnosticCode, Seq<char>, Seq<char>) {
    (d.severity, d.code, d.path@, d.message@)
}

pub open spec fn diags_view(s: Seq<AutomationDiagnostic>) -> Seq<(AutomationValidationSeverity, AutomationDiagnosticCode, Seq<char>, Seq<char>)> {
    s.map_values(|d: AutomationDiagnostic| diag_view(d))
}

pub open spec fn error_view(code: AutomationDiagnosticCode, path: Seq<char>, message: Seq<char>) -> (AutomationValidationSeverity, AutomationDiagnosticCode, Seq<char>, Seq<char>) {
    (AutomationValidationSeverity::Error, code, path, message)
}

pub open spec fn warning_view(code: AutomationDiagnosticCode, path: Seq<char>, message: Seq<char>) -> (AutomationValidationSeverity, AutomationDiagnosticCode, Seq<char>, Seq<char>) {
    (AutomationValidationSeverity::Warning, code, path, message)
}

/// `n` copies of one diagnostic.
pub open spec fn repeated(d: (AutomationValidationSeverity, AutomationDiagnosticCode, Seq<char>, Seq<char>), n: nat) -> Seq<(AutomationValidationSeverity, AutomationDiagnosticCode, Seq<char>, Seq<char>)> {
    Seq::new(n, |i: int| d)
}

pub proof fn lemma_concat_assoc<A>(a: Seq<A>, b: Seq<A>, c: Seq<A>)
    ensures
        a + (b + c) == (a + b) + c,
{
    assert(a + (b + c) =~= (a + b) + c);
}

/// An error-severity diagnostic.
pub fn error_diagnostic(code: AutomationDiagnosticCode, path: &str, message: &str) -> (r: AutomationDiagnostic)
    ensures
        diag_view(r) == error_view(code, path@, message@),
{
    AutomationDiagnostic {
        severity: AutomationValidationSeverity::Error,
        code,
        path: to_owned_string(path),
        message: to_owned_string(message),
    }
}

fn push_diagnostic(
    diagnostics: &mut Vec<AutomationDiagnostic>,
    severity: AutomationValidationSeverity,
    code: AutomationDiagnosticCode,
    path: &str,
    message: &str,
)
    ensures
        diags_view(final(diagnostics)@) == diags_view(old(diagnostics)@).push((severity, code, path@, message@)),
{
    diagnostics.push(AutomationDiagnostic {
        severity,
        code,
        path: to_owned_string(path),
        message: to_owned_string(message),
    });
    proof {
        assert(diags_view(final(diagnostics)@) =~= diags_view(old(diagnostics)@).push((severity, code, path@, message@)));
    }
}

fn push_error(diagnostics: &mut Vec<AutomationDiagnostic>, code: AutomationDiagnosticCode, path: &str, message: &str)
    ensures
        diags_view(final(diagnostics)@) == diags_view(old(diagnostics)@).push(error_view(code, path@, message@)),
{
    push_diagnostic(diagnostics, AutomationValidationSeverity::Error, code, path, message);
}

/// The result of a profile that could not be read: invalid, with only diagnostics.
pub fn invalid_result(diagnostics: Vec<AutomationDiagnostic>) -> (r: AutomationValidationResult)
    ensures
        !r.valid,
        r.profile is None,
        r.profile_digest is None,
        r.preview is None,
        r.diagnostics@ == diagnostics@,
{
    AutomationValidationResult { valid: false, profile: None, profile_digest: None, preview: None, diagnostics }
}

// ---- the document split -------------------------------------------------

/// `s` without one leading byte-order mark.
pub open spec fn strip_bom(s: Seq<char>) -> Seq<char> {
    if s.len() > 0 && s[0] == '\u{feff}' { s.drop_first() } else { s }
}

/// The length of the first line of `t`, its `\n` included.
pub open spec fn line_len(t: Seq<char>) -> nat
    decreases t.len(),
{
    if t.len() == 0 {
        0
    } else if t[0] == '\n' {
        1
    } else {
        1 + line_len(t.drop_first())
    }
}

/// `t` without trailing `\r` and `\n`.
pub open spec fn trim_newlines_end(t: Seq<char>) -> Seq<char>
    decreases t.len(),
{
    if t.len() > 0 && (t.last() == '\r' || t.last() == '\n') { trim_newlines_end(t.drop_last()) } else { t }
}

pub open spec fn is_delimiter(line: Seq<char>) -> bool {
    trim_newlines_end(line) == "---"@
}

/// The line starting at `i` of `s`, as a range.
pub open spec fn line_end(s: Seq<char>, i: int) -> int {
    i + line_len(s.skip(i))
}

/// The first delimiter line at or after `i`, as a range.
pub open spec fn closing_delimiter(s: Seq<char>, i: int) -> Option<(int, int)>
    decreases s.len() - i,
{
    if i < 0 || i >= s.len() {
        None
    } else {
        let j = line_end(s, i);
        if j <= i || j > s.len() {
            None
        } else if is_delimiter(s.subrange(i, j)) {
            Some((i, j))
        } else {
            closing_delimiter(s, j)
        }
    }
}

/// The front matter and the trimmed prompt body of a `WORKFLOW.md`: with no
/// opening `---` line the whole document is the body; an opening one without a
/// closing one is an error.
pub open spec fn split_document_spec(source: Seq<char>) -> Option<(Seq<char>, Seq<char>)> {
    let s = strip_bom(source);
    if s.len() == 0 {
        Some((Seq::empty(), Seq::empty()))
    } else {
        let j = line_end(s, 0);
        if !is_delimiter(s.subrange(0, j)) {
            Some((Seq::empty(), trim_seq(s)))
        } else {
            match closing_delimiter(s, j) {
                Some((a, b)) => Some((s.subrange(j, a), trim_seq(s.skip(b)))),
                None => None,
            }
        }
    }
}

proof fn lemma_line_len(t: Seq<char>, k: int)
    requires
        0 <= k <= t.len(),
        forall|m: int| 0 <= m < k ==> t[m] != '\n',
        k == t.len() || t[k] == '\n',
    ensures
        line_len(t) == if k < t.len() { k + 1 } else { k },
    decreases k,
{
    if k > 0 {
        lemma_line_len(t.drop_first(), k - 1);
    }
}

fn line_end_at(s: &Vec<char>, i: usize) -> (r: usize)
    requires
        i <= s@.len(),
    ensures
        r == line_end(s@, i as int),
        i <= r <= s@.len(),
        i < s@.len() ==> i < r,
{
    let mut k: usize = i;
    while k < s.len() && s[k] != '\n'
        invariant
            i <= k <= s@.len(),
            forall|m: int| i <= m < k ==> s@[m] != '\n',
        decreases s@.len() - k,
    {
        k = k + 1;
    }
    proof {
        let t = s@.skip(i as int);
        assert forall|m: int| 0 <= m < k - i implies t[m] != '\n' by {
            assert(t[m] == s@[i + m]);
        }
        if k < s@.len() {
            assert(t[k - i] == s@[k as int]);
        }
        lemma_line_len(t, k - i);
    }
    if k < s.len() {
        k + 1
    } else {
        k
    }
}

fn trim_newlines_end_len(s: &Vec<char>, from: usize, to: usize) -> (r: usize)
    requires
        from <= to <= s@.len(),
    ensures
        from <= r <= to,
        s@.subrange(from as int, r as int) == trim_newlines_end(s@.subrange(from as int, to as int)),
{
    let mut k: usize = to;
    while k > from && (s[k - 1] == '\r' || s[k - 1] == '\n')
        invariant
            from <= k <= to,
            to <= s@.len(),
            trim_newlines_end(s@.subrange(from as int, to as int)) == trim_newlines_end(s@.subrange(from as int, k as int)),
        decreases k,
    {
        proof {
            let t = s@.subrange(from as int, k as int);
            assert(t.drop_last() =~= s@.subrange(from as int, k - 1));
            assert(t.last() == s@[k - 1]);
        }
        k = k - 1;
    }
    proof {
        let t = s@.subrange(from as int, k as int);
        if k > from {
            assert(t.last() == s@[k - 1]);
        }
    }
    k
}

fn is_delimiter_range(s: &Vec<char>, from: usize, to: usize) -> (r: bool)
    requires
        from <= to <= s@.len(),
    ensures
        r == is_delimiter(s@.subrange(from as int, to as int)),
{
    let k = trim_newlines_end_len(s, from, to);
    let r = k - from == 3 && s[from] == '-' && s[from + 1] == '-' && s[from + 2] == '-';
    proof {
        reveal_strlit("---");
        assert("---"@ =~= seq!['-', '-', '-']);
        let t = s@.subrange(from as int, k as int);
        if r {
            assert(t =~= "---"@);
        } else if t == "---"@ {
            assert(t[0] == s@[from as int]);
            assert(t[1] == s@[from + 1]);
            assert(t[2] == s@[from + 2]);
        }
    }
    r
}

fn text_of(s: &Vec<char>, from: usize, to: usize) -> (r: String)
    requires
        from <= to <= s@.len(),
    ensures
        r@ == s@.subrange(from as int, to as int),
{
    string_from_chars(slice_subrange(s.as_slice(), from, to))
}

/// Splits a `WORKFLOW.md` into its YAML front matter and its trimmed prompt body.
pub fn split_workflow_document(source: &str) -> (r: Result<(String, String), AutomationDiagnostic>)
    ensures
        match r {
            Ok((front, body)) => split_document_spec(source@) == Some((front@, body@)),
            Err(d) => split_document_spec(source@) is None && diag_view(d) == error_view(
                AutomationDiagnosticCode::WorkflowParseError,
                "WORKFLOW.md"@,
                "YAML front matter is missing its closing `---` delimiter"@,
            ),
        },
{
    let mut s = str_chars(source);
    if s.len() > 0 && s[0] == '\u{feff}' {
        s.remove(0);
    }
    proof {
        assert(s@ =~= strip_bom(source@));
    }
    proof {
        assert(s@ =~= strip_bom(source@));
    }
    if s.len() == 0 {
        return Ok((String::new(), String::new()));
    }
    let first_end = line_end_at(&s, 0);
    if !is_delimiter_range(&s, 0, first_end) {
        let whole = text_of(&s, 0, s.len());
        proof {
            assert(s@.subrange(0, s@.len() as int) =~= s@);
        }
        return Ok((String::new(), trim(whole.as_str())));
    }
    let mut i: usize = first_end;
    while i < s.len()
        invariant
            first_end <= i <= s@.len(),
            closing_delimiter(s@, first_end as int) == closing_delimiter(s@, i as int),
            first_end == line_end(s@, 0),
            is_delimiter(s@.subrange(0, first_end as int)),
            s@ == strip_bom(source@),
            s@.len() > 0,
        decreases s@.len() - i,
    {
        let j = line_end_at(&s, i);
        if is_delimiter_range(&s, i, j) {
            let front = text_of(&s, first_end, i);
            let rest = text_of(&s, j, s.len());
            proof {
                assert(s@.subrange(j as int, s@.len() as int) =~= s@.skip(j as int));
                assert(closing_delimiter(s@, i as int) == Some((i as int, j as int)));
                assert(line_end(s@, 0) == first_end);
            }
            return Ok((front, trim(rest.as_str())));
        }
        i = j;
    }
    Err(error_diagnostic(
        AutomationDiagnosticCode::WorkflowParseError,
        "WORKFLOW.md",
        "YAML front matter is missing its closing `---` delimiter",
    ))
}

// ---- scalar fields -----------------------------------------------------

/// A required text: trimmed, or empty when absent or blank.
pub open spec fn required_value(value: Option<Seq<char>>) -> Seq<char> {
    match value {
        Some(v) => trim_seq(v),
        None => Seq::empty(),
    }
}

pub open spec fn required_diags(value: Option<Seq<char>>, path: Seq<char>) -> Seq<(AutomationValidationSeverity, AutomationDiagnosticCode, Seq<char>, Seq<char>)> {
    if required_value(value).len() == 0 {
        seq![error_view(AutomationDiagnosticCode::MissingField, path, "required value is missing or empty"@)]
    } else {
        Seq::empty()
    }
}

pub open spec fn text_option(value: Option<String>) -> Option<Seq<char>> {
    match value {
        Some(v) => Some(v@),
        None => None,
    }
}

pub fn text_is_empty(s: &str) -> (r: bool)
    ensures
        r == (s@.len() == 0),
{
    str_chars(s).len() == 0
}

/// A required text field, trimmed; a missing or blank one is an error.
pub fn required_string(value: Option<String>, path: &str, diagnostics: &mut Vec<AutomationDiagnostic>) -> (r: String)
    ensures
        r@ == required_value(text_option(value)),
        diags_view(final(diagnostics)@) == diags_view(old(diagnostics)@) + required_diags(text_option(value), path@),
{
    let trimmed = match value {
        Some(v) => trim(v.as_str()),
        None => String::new(),
    };
    if text_is_empty(trimmed.as_str()) {
        push_error(diagnostics, AutomationDiagnosticCode::MissingField, path, "required value is missing or empty");
    } else {
        proof {
            assert(diags_view(diagnostics@) =~= diags_view(diagnostics@) + Seq::empty());
        }
    }
    trimmed
}

pub open spec fn positive_diags(value: int, path: Seq<char>) -> Seq<(AutomationValidationSeverity, AutomationDiagnosticCode, Seq<char>, Seq<char>)> {
    if value == 0 {
        seq![error_view(AutomationDiagnosticCode::InvalidValue, path, "must be greater than zero"@)]
    } else {
        Seq::empty()
    }
}

/// A count or duration that must be positive; zero is an error and kept.
pub fn positive_u64(value: u64, path: &str, diagnostics: &mut Vec<AutomationDiagnostic>) -> (r: u64)
    ensures
        r == value,
        diags_view(final(diagnostics)@) == diags_view(old(diagnostics)@) + positive_diags(value as int, path@),
{
    if value == 0 {
        push_error(diagnostics, AutomationDiagnosticCode::InvalidValue, path, "must be greater than zero");
    } else {
        proof {
            assert(diags_view(diagnostics@) =~= diags_view(diagnostics@) + Seq::empty());
        }
    }
    value
}

pub fn positive_u32(value: u32, path: &str, diagnostics: &mut Vec<AutomationDiagnostic>) -> (r: u32)
    ensures
        r == value,
        diags_view(final(diagnostics)@) == diags_view(old(diagnostics)@) + positive_diags(value as int, path@),
{
    if value == 0 {
        push_error(diagnostics, AutomationDiagnosticCode::InvalidValue, path, "must be greater than zero");
    } else {
        proof {
            assert(diags_view(diagnostics@) =~= diags_view(diagnostics@) + Seq::empty());
        }
    }
    value
}


// ---- secrets and the environment -------------------------------------------

/// The value of `key` in an environment listed by key.
pub open spec fn env_lookup(env: Seq<(String, String)>, key: Seq<char>) -> Option<Seq<char>>
    decreases env.len(),
{
    if env.len() == 0 {
        None
    } else if env[0].0@ == key {
        Some(env[0].1@)
    } else {
        env_lookup(env.drop_first(), key)
    }
}

pub fn env_get<'a>(env: &'a Vec<(String, String)>, key: &str) -> (r: Option<&'a String>)
    ensures
        match r {
            Some(v) => env_lookup(env@, key@) == Some(v@),
            None => env_lookup(env@, key@) is None,
        },
{
    let mut i: usize = 0;
    proof {
        assert(env@.skip(0) =~= env@);
    }
    while i < env.len()
        invariant
            i <= env@.len(),
            env_lookup(env@, key@) == env_lookup(env@.skip(i as int), key@),
        decreases env.len() - i,
    {
        proof {
            let t = env@.skip(i as int);
            assert(t[0] == env@[i as int]);
            assert(t.drop_first() =~= env@.skip(i + 1));
        }
        if str_eq(env[i].0.as_str(), key) {
            return Some(&env[i].1);
        }
        i = i + 1;
    }
    None
}

/// Whether `env` holds `key` with a value that is not blank.
pub open spec fn env_has_value(env: Seq<(String, String)>, key: Seq<char>) -> bool {
    match env_lookup(env, key) {
        Some(v) => trim_seq(v).len() > 0,
        None => false,
    }
}

pub open spec fn is_ascii_alphabetic(c: char) -> bool {
    ('a' <= c && c <= 'z') || ('A' <= c && c <= 'Z')
}

/// A `VAR_NAME`: ASCII alphanumerics and `_`, not starting with a digit.
pub open spec fn env_name_ok(v: Seq<char>) -> bool {
    &&& v.len() > 0
    &&& forall|i: int| 0 <= i < v.len() ==> (v[i] == '_' || is_ascii_alphanumeric(#[trigger] v[i]))
    &&& (v[0] == '_' || is_ascii_alphabetic(v[0]))
}

fn env_name_valid(v: &Vec<char>, from: usize) -> (r: bool)
    requires
        from <= v@.len(),
    ensures
        r == env_name_ok(v@.skip(from as int)),
{
    let ghost t = v@.skip(from as int);
    if from >= v.len() {
        return false;
    }
    let c0 = v[from];
    if !(c0 == '_' || ('a' <= c0 && c0 <= 'z') || ('A' <= c0 && c0 <= 'Z')) {
        proof {
            assert(t[0] == c0);
        }
        return false;
    }
    let mut i: usize = from;
    while i < v.len()
        invariant
            from <= i <= v@.len(),
            t == v@.skip(from as int),
            forall|k: int| 0 <= k < i - from ==> (t[k] == '_' || is_ascii_alphanumeric(#[trigger] t[k])),
        decreases v.len() - i,
    {
        let c = v[i];
        if !(c == '_' || ('0' <= c && c <= '9') || ('a' <= c && c <= 'z') || ('A' <= c && c <= 'Z')) {
            proof {
                assert(t[i - from] == c);
            }
            return false;
        }
        proof {
            assert(t[i - from] == c);
        }
        i = i + 1;
    }
    proof {
        assert(t[0] == c0);
    }
    true
}

/// How a credential is referenced: `$VAR` names an environment variable, anything
/// else is an inline secret known only by the digest of its text.
pub open spec fn secret_spec(raw: Option<Seq<char>>, env: Seq<(String, String)>) -> (AutomationSecretKind, Seq<char>, Seq<char>, bool) {
    let r = required_value(raw);
    if r.len() > 0 && r[0] == '$' {
        let var = r.drop_first();
        (AutomationSecretKind::Environment, var, sha256_hex(r), env_name_ok(var) && env_has_value(env, var))
    } else {
        (AutomationSecretKind::InlineDigest, "inline"@, sha256_hex(r), r.len() > 0)
    }
}

pub open spec fn secret_diags(raw: Option<Seq<char>>, path: Seq<char>) -> Seq<(AutomationValidationSeverity, AutomationDiagnosticCode, Seq<char>, Seq<char>)> {
    let r = required_value(raw);
    required_diags(raw, path) + if r.len() > 0 && r[0] == '$' && !env_name_ok(r.drop_first()) {
        seq![error_view(AutomationDiagnosticCode::InvalidValue, path, "secret references must use the exact `$VAR_NAME` form"@)]
    } else {
        Seq::empty()
    }
}

/// The reference to a required credential and whether the credential is available.
pub fn secret_reference(
    raw: Option<String>,
    environment: &Vec<(String, String)>,
    path: &str,
    diagnostics: &mut Vec<AutomationDiagnostic>,
) -> (r: (AutomationSecretReference, bool))
    ensures
        secret_spec(text_option(raw), environment@) == (r.0.kind, r.0.reference@, r.0.digest@, r.1),
        diags_view(final(diagnostics)@) == diags_view(old(diagnostics)@) + secret_diags(text_option(raw), path@),
{
    let ghost raw_view = text_option(raw);
    let value = required_string(raw, path, diagnostics);
    let chars = str_chars(value.as_str());
    let digest = sha256_hex_str(value.as_str());
    if chars.len() > 0 && chars[0] == '$' {
        let valid = env_name_valid(&chars, 1);
        let variable = string_from_chars(slice_subrange(chars.as_slice(), 1, chars.len()));
        proof {
            assert(variable@ =~= value@.drop_first());
        }
        let ghost mid = diags_view(diagnostics@);
        if !valid {
            push_error(diagnostics, AutomationDiagnosticCode::InvalidValue, path, "secret references must use the exact `$VAR_NAME` form");
        } else {
            proof {
                assert(diags_view(diagnostics@) =~= mid + Seq::empty());
            }
        }
        let available = valid && match env_get(environment, variable.as_str()) {
            Some(v) => !text_is_empty(trim(v.as_str()).as_str()),
            None => false,
        };
        proof {
            assert(diags_view(diagnostics@) =~= diags_view(old(diagnostics)@) + secret_diags(raw_view, path@));
        }
        return (AutomationSecretReference { kind: AutomationSecretKind::Environment, reference: variable, digest }, available);
    }
    proof {
        assert(diags_view(diagnostics@) =~= diags_view(old(diagnostics)@) + secret_diags(raw_view, path@));
    }
    let available = chars.len() > 0;
    (AutomationSecretReference { kind: AutomationSecretKind::InlineDigest, reference: to_owned_string("inline"), digest }, available)
}

// ---- lists ---------------------------------------------------------------

pub open spec fn texts_view(v: Seq<String>) -> Seq<Seq<char>> {
    v.map_values(|s: String| s@)
}

/// A label as compared: trimmed and lowercased.
pub open spec fn label_key(s: Seq<char>) -> Seq<char> {
    spec_unicode_lowercase(trim_seq(s))
}

pub open spec fn blank_labels(labels: Seq<Seq<char>>) -> nat
    decreases labels.len(),
{
    if labels.len() == 0 {
        0
    } else {
        blank_labels(labels.drop_last()) + if label_key(labels.last()).len() == 0 { 1nat } else { 0nat }
    }
}

/// The required labels: distinct, non-blank, trimmed and lowercased, in ascending order.
pub open spec fn labels_normalized(r: Seq<Seq<char>>, labels: Seq<Seq<char>>) -> bool {
    &&& keys_ascending(r)
    &&& forall|x: Seq<char>| r.contains(x) <==> (x.len() > 0 && exists|i: int| 0 <= i < labels.len() && #[trigger] label_key(labels[i]) == x)
}

fn text_slot(keys: &Vec<String>, key: &str) -> (r: (usize, bool))
    requires
        keys_ascending(texts_view(keys@)),
    ensures
        r.0 == lower_bound(texts_view(keys@), key@),
        r.0 <= keys@.len(),
        r.1 == texts_view(keys@).contains(key@),
        r.1 == (r.0 < keys@.len() && keys@[r.0 as int]@ == key@),
{
    let ghost ks = texts_view(keys@);
    let mut k: usize = keys.len();
    proof {
        assert(ks.take(k as int) =~= ks);
    }
    while k > 0 && crate::order::compare_text(keys[k - 1].as_str(), key) >= 0
        invariant
            k <= keys@.len(),
            ks == texts_view(keys@),
            lower_bound(ks, key@) == lower_bound(ks.take(k as int), key@),
        decreases k,
    {
        proof {
            let t = ks.take(k as int);
            assert(t.drop_last() =~= ks.take(k - 1));
            assert(t.last() == ks[k - 1]);
        }
        k = k - 1;
    }
    proof {
        let t = ks.take(k as int);
        if k > 0 {
            assert(t.last() == ks[k - 1]);
        }
        lemma_lower_bound(ks, key@);
    }
    let found = k < keys.len() && str_eq(keys[k].as_str(), key);
    proof {
        if ks.contains(key@) {
            let j = choose|j: int| 0 <= j < ks.len() && ks[j] == key@;
            lemma_text_order_eq(ks[j], key@);
            if j > k {
                assert(text_order(ks[k as int], key@) >= 0);
                lemma_text_order_eq(ks[k as int], key@);
                if ks[k as int] != key@ {
                    assert(text_order(ks[k as int], ks[j]) < 0);
                    lemma_text_order_eq(ks[k as int], ks[j]);
                }
            }
        }
        if found {
            assert(ks[k as int] == key@);
        }
    }
    (k, found)
}

/// Inserts a text into ascending distinct texts, unless it is already there.
fn insert_text(keys: &mut Vec<String>, key: String)
    requires
        keys_ascending(texts_view(old(keys)@)),
    ensures
        keys_ascending(texts_view(final(keys)@)),
        forall|x: Seq<char>| texts_view(final(keys)@).contains(x) <==> (texts_view(old(keys)@).contains(x) || x == key@),
{
    let (slot, found) = text_slot(keys, key.as_str());
    if !found {
        let ghost before = texts_view(keys@);
        proof {
            lemma_insert_ascending(before, key@);
        }
        keys.insert(slot, key);
        proof {
            assert(texts_view(keys@) =~= before.insert(slot as int, key@));
            assert forall|x: Seq<char>| texts_view(keys@).contains(x) <==> (before.contains(x) || x == key@) by {
                let after = texts_view(keys@);
                if before.contains(x) {
                    let j = choose|j: int| 0 <= j < before.len() && before[j] == x;
                    if j < slot {
                        assert(after[j] == x);
                    } else {
                        assert(after[j + 1] == x);
                    }
                }
                if x == key@ {
                    assert(after[slot as int] == x);
                }
                if after.contains(x) {
                    let j = choose|j: int| 0 <= j < after.len() && after[j] == x;
                    if j < slot {
                        assert(before[j] == x);
                    } else if j > slot {
                        assert(before[j - 1] == x);
                    }
                }
            }
        }
    }
}

/// The required labels, normalized; each blank label is an error.
pub fn normalize_labels(labels: Vec<String>, diagnostics: &mut Vec<AutomationDiagnostic>) -> (r: Vec<String>)
    ensures
        labels_normalized(texts_view(r@), texts_view(labels@)),
        diags_view(final(diagnostics)@) == diags_view(old(diagnostics)@) + repeated(
            error_view(AutomationDiagnosticCode::InvalidValue, "tracker.required_labels"@, "required labels must not be blank"@),
            blank_labels(texts_view(labels@)),
        ),
{
    let ghost all = texts_view(labels@);
    let ghost d = error_view(AutomationDiagnosticCode::InvalidValue, "tracker.required_labels"@, "required labels must not be blank"@);
    let ghost start = diags_view(diagnostics@);
    let mut out: Vec<String> = Vec::new();
    let mut i: usize = 0;
    proof {
        assert(start =~= start + repeated(d, 0));
    }
    while i < labels.len()
        invariant
            i <= labels@.len(),
            all == texts_view(labels@),
            d == error_view(AutomationDiagnosticCode::InvalidValue, "tracker.required_labels"@, "required labels must not be blank"@),
            keys_ascending(texts_view(out@)),
            forall|x: Seq<char>| texts_view(out@).contains(x) <==> (x.len() > 0 && exists|k: int| 0 <= k < i && #[trigger] label_key(all[k]) == x),
            diags_view(diagnostics@) == start + repeated(d, blank_labels(all.take(i as int))),
        decreases labels.len() - i,
    {
        let key = unicode_lowercase(trim(labels[i].as_str()).as_str());
        proof {
            assert(all.take(i + 1).drop_last() =~= all.take(i as int));
            assert(all.take(i + 1).last() == all[i as int]);
            assert(key@ == label_key(all[i as int]));
        }
        let ghost before = texts_view(out@);
        if text_is_empty(key.as_str()) {
            let ghost n = blank_labels(all.take(i as int));
            push_error(diagnostics, AutomationDiagnosticCode::InvalidValue, "tracker.required_labels", "required labels must not be blank");
            proof {
                assert((start + repeated(d, n)).push(d) =~= start + repeated(d, n).push(d));
                assert(blank_labels(all.take(i + 1)) == blank_labels(all.take(i as int)) + 1);
                assert(repeated(d, blank_labels(all.take(i as int))).push(d) =~= repeated(d, blank_labels(all.take(i + 1))));
                assert(diags_view(diagnostics@) =~= start + repeated(d, blank_labels(all.take(i + 1))));
                assert forall|x: Seq<char>| texts_view(out@).contains(x) <==> (x.len() > 0 && exists|k: int| 0 <= k < i + 1 && #[trigger] label_key(all[k]) == x) by {
                    if x.len() > 0 && exists|k: int| 0 <= k < i + 1 && #[trigger] label_key(all[k]) == x {
                        let k = choose|k: int| 0 <= k < i + 1 && #[trigger] label_key(all[k]) == x;
                        assert(k != i);
                    }
                }
            }
        } else {
            insert_text(&mut out, key);
            proof {
                assert(blank_labels(all.take(i + 1)) == blank_labels(all.take(i as int)));
                assert forall|x: Seq<char>| texts_view(out@).contains(x) <==> (x.len() > 0 && exists|k: int| 0 <= k < i + 1 && #[trigger] label_key(all[k]) == x) by {
                    if x.len() > 0 && exists|k: int| 0 <= k < i + 1 && #[trigger] label_key(all[k]) == x {
                        let k = choose|k: int| 0 <= k < i + 1 && #[trigger] label_key(all[k]) == x;
                        if k < i {
                            assert(before.contains(x));
                        }
                    }
                    if x == label_key(all[i as int]) {
                        assert(label_key(all[i as int]) == x);
                    }
                }
            }
        }
        i = i + 1;
    }
    proof {
        assert(all.take(labels@.len() as int) =~= all);
    }
    out
}


pub fn contains_text(v: &Vec<String>, x: &str) -> (r: bool)
    ensures
        r == texts_view(v@).contains(x@),
{
    let mut i: usize = 0;
    while i < v.len()
        invariant
            i <= v@.len(),
            forall|k: int| 0 <= k < i ==> v@[k]@ != x@,
        decreases v.len() - i,
    {
        if str_eq(v[i].as_str(), x) {
            proof {
                assert(texts_view(v@)[i as int] == x@);
            }
            return true;
        }
        i = i + 1;
    }
    proof {
        if texts_view(v@).contains(x@) {
            let k = choose|k: int| 0 <= k < texts_view(v@).len() && texts_view(v@)[k] == x@;
            assert(v@[k]@ == x@);
        }
    }
    false
}

/// The kept values of a state list, the lowercased values seen, and the blanks:
/// values are trimmed, and a value whose lowercase was already kept is dropped.
pub open spec fn state_list_fold(values: Seq<Seq<char>>) -> (Seq<Seq<char>>, Set<Seq<char>>, nat)
    decreases values.len(),
{
    if values.len() == 0 {
        (Seq::empty(), Set::empty(), 0)
    } else {
        let prev = state_list_fold(values.drop_last());
        let t = trim_seq(values.last());
        if t.len() == 0 {
            (prev.0, prev.1, prev.2 + 1)
        } else if prev.1.contains(spec_unicode_lowercase(t)) {
            prev
        } else {
            (prev.0.push(t), prev.1.insert(spec_unicode_lowercase(t)), prev.2)
        }
    }
}

pub open spec fn state_list_diags(values: Seq<Seq<char>>, path: Seq<char>) -> Seq<(AutomationValidationSeverity, AutomationDiagnosticCode, Seq<char>, Seq<char>)> {
    let f = state_list_fold(values);
    repeated(error_view(AutomationDiagnosticCode::InvalidValue, path, "values must not be blank"@), f.2)
        + if f.0.len() == 0 {
            seq![error_view(AutomationDiagnosticCode::InvalidValue, path, "at least one value is required"@)]
        } else {
            Seq::empty()
        }
}

/// A list of tracker states: trimmed, first spelling of each state kept; blank
/// values and an empty result are errors.
pub fn normalized_nonempty_list(values: Vec<String>, path: &str, diagnostics: &mut Vec<AutomationDiagnostic>) -> (r: Vec<String>)
    ensures
        texts_view(r@) == state_list_fold(texts_view(values@)).0,
        diags_view(final(diagnostics)@) == diags_view(old(diagnostics)@) + state_list_diags(texts_view(values@), path@),
{
    let ghost all = texts_view(values@);
    let ghost d = error_view(AutomationDiagnosticCode::InvalidValue, path@, "values must not be blank"@);
    let ghost start = diags_view(diagnostics@);
    let mut out: Vec<String> = Vec::new();
    let mut seen: Vec<String> = Vec::new();
    let mut i: usize = 0;
    proof {
        assert(start =~= start + repeated(d, 0));
    }
    while i < values.len()
        invariant
            i <= values@.len(),
            all == texts_view(values@),
            d == error_view(AutomationDiagnosticCode::InvalidValue, path@, "values must not be blank"@),
            texts_view(out@) == state_list_fold(all.take(i as int)).0,
            forall|x: Seq<char>| texts_view(seen@).contains(x) <==> state_list_fold(all.take(i as int)).1.contains(x),
            diags_view(diagnostics@) == start + repeated(d, state_list_fold(all.take(i as int)).2),
        decreases values.len() - i,
    {
        let t = trim(values[i].as_str());
        proof {
            assert(all.take(i + 1).drop_last() =~= all.take(i as int));
            assert(all.take(i + 1).last() == all[i as int]);
        }
        let ghost prev = state_list_fold(all.take(i as int));
        if text_is_empty(t.as_str()) {
            let ghost n = prev.2;
            push_error(diagnostics, AutomationDiagnosticCode::InvalidValue, path, "values must not be blank");
            proof {
                assert((start + repeated(d, n)).push(d) =~= start + repeated(d, n + 1));
            }
        } else {
            let lowered = unicode_lowercase(t.as_str());
            if !contains_text(&seen, lowered.as_str()) {
                let ghost before_out = texts_view(out@);
                let ghost before_seen = texts_view(seen@);
                seen.push(lowered);
                out.push(t);
                proof {
                    assert(texts_view(out@) =~= before_out.push(trim_seq(all[i as int])));
                    assert(texts_view(seen@) =~= before_seen.push(spec_unicode_lowercase(trim_seq(all[i as int]))));
                    assert forall|x: Seq<char>| texts_view(seen@).contains(x) <==> state_list_fold(all.take(i + 1)).1.contains(x) by {
                        if texts_view(seen@).contains(x) && x != spec_unicode_lowercase(trim_seq(all[i as int])) {
                            let k = choose|k: int| 0 <= k < texts_view(seen@).len() && texts_view(seen@)[k] == x;
                            assert(before_seen[k] == x);
                        }
                        if before_seen.contains(x) {
                            let k = choose|k: int| 0 <= k < before_seen.len() && before_seen[k] == x;
                            assert(texts_view(seen@)[k] == x);
                        }
                        if x == spec_unicode_lowercase(trim_seq(all[i as int])) {
                            assert(texts_view(seen@)[before_seen.len() as int] == x);
                        }
                    }
                }
            }
        }
        i = i + 1;
    }
    proof {
        assert(all.take(values@.len() as int) =~= all);
    }
    let ghost f = state_list_fold(all);
    if out.len() == 0 {
        push_error(diagnostics, AutomationDiagnosticCode::InvalidValue, path, "at least one value is required");
    }
    proof {
        assert(diags_view(diagnostics@) =~= start + state_list_diags(all, path@));
    }
    out
}

// ---- per-state concurrency -------------------------------------------------

pub open spec fn state_limit_valid(key: Seq<char>, value: i64) -> bool {
    key.len() > 0 && value > 0 && value <= u32::MAX
}

/// Concurrency overrides by lowercased state (a later override of a state wins),
/// and the number of overrides ignored as blank or out of range.
pub open spec fn by_state_fold(entries: Seq<(String, i64)>) -> (Map<Seq<char>, u32>, nat)
    decreases entries.len(),
{
    if entries.len() == 0 {
        (Map::empty(), 0)
    } else {
        let prev = by_state_fold(entries.drop_last());
        let k = label_key(entries.last().0@);
        let v = entries.last().1;
        if state_limit_valid(k, v) {
            (prev.0.insert(k, v as u32), prev.1)
        } else {
            (prev.0, prev.1 + 1)
        }
    }
}

pub open spec fn pair_keys(r: Seq<(String, u32)>) -> Seq<Seq<char>> {
    r.map_values(|p: (String, u32)| p.0@)
}

/// `r` lists the map by ascending key.
pub open spec fn lists_map(r: Seq<(String, u32)>, m: Map<Seq<char>, u32>) -> bool {
    &&& keys_ascending(pair_keys(r))
    &&& forall|i: int| 0 <= i < r.len() ==> m.contains_key(#[trigger] r[i].0@) && m[r[i].0@] == r[i].1
    &&& forall|k: Seq<char>| m.contains_key(k) ==> pair_keys(r).contains(k)
}

pub open spec fn by_state_diags(entries: Seq<(String, i64)>) -> Seq<(AutomationValidationSeverity, AutomationDiagnosticCode, Seq<char>, Seq<char>)> {
    repeated(
        warning_view(
            AutomationDiagnosticCode::InvalidValue,
            "agent.max_concurrent_agents_by_state"@,
            "ignored a blank state or non-positive concurrency override"@,
        ),
        by_state_fold(entries).1,
    )
}

/// Per-state concurrency overrides, keyed by trimmed lowercase state; blank
/// states and values outside `1..=u32::MAX` are ignored with a warning.
pub fn normalize_state_limits(entries: Vec<(String, i64)>, diagnostics: &mut Vec<AutomationDiagnostic>) -> (r: Vec<(String, u32)>)
    ensures
        lists_map(r@, by_state_fold(entries@).0),
        diags_view(final(diagnostics)@) == diags_view(old(diagnostics)@) + by_state_diags(entries@),
{
    let ghost d = warning_view(
        AutomationDiagnosticCode::InvalidValue,
        "agent.max_concurrent_agents_by_state"@,
        "ignored a blank state or non-positive concurrency override"@,
    );
    let ghost start = diags_view(diagnostics@);
    let mut keys: Vec<String> = Vec::new();
    let mut vals: Vec<u32> = Vec::new();
    let mut i: usize = 0;
    proof {
        assert(start =~= start + repeated(d, 0));
    }
    while i < entries.len()
        invariant
            i <= entries@.len(),
            d == warning_view(
                AutomationDiagnosticCode::InvalidValue,
                "agent.max_concurrent_agents_by_state"@,
                "ignored a blank state or non-positive concurrency override"@,
            ),
            keys@.len() == vals@.len(),
            keys_ascending(texts_view(keys@)),
            forall|j: int| 0 <= j < keys@.len() ==> by_state_fold(entries@.take(i as int)).0.contains_key(#[trigger] keys@[j]@)
                && by_state_fold(entries@.take(i as int)).0[keys@[j]@] == vals@[j],
            forall|k: Seq<char>| by_state_fold(entries@.take(i as int)).0.contains_key(k) ==> texts_view(keys@).contains(k),
            diags_view(diagnostics@) == start + repeated(d, by_state_fold(entries@.take(i as int)).1),
        decreases entries.len() - i,
    {
        let key = unicode_lowercase(trim(entries[i].0.as_str()).as_str());
        let value = entries[i].1;
        let ghost es = entries@.take(i + 1);
        let ghost prev = by_state_fold(entries@.take(i as int));
        proof {
            assert(es.drop_last() =~= entries@.take(i as int));
            assert(es.last() == entries@[i as int]);
        }
        if text_is_empty(key.as_str()) || value <= 0 || value > 4294967295 {
            let ghost n = prev.1;
            push_diagnostic(
                diagnostics,
                AutomationValidationSeverity::Warning,
                AutomationDiagnosticCode::InvalidValue,
                "agent.max_concurrent_agents_by_state",
                "ignored a blank state or non-positive concurrency override",
            );
            proof {
                assert((start + repeated(d, n)).push(d) =~= start + repeated(d, n + 1));
            }
        } else {
            let v = value as u32;
            let ghost m = prev.0.insert(key@, v);
            let (slot, found) = text_slot(&keys, key.as_str());
            let ghost before_keys = texts_view(keys@);
            let ghost before_vals = vals@;
            if found {
                vals.set(slot, v);
                proof {
                    assert(before_keys[slot as int] == key@);
                    assert forall|j: int| 0 <= j < keys@.len() implies m.contains_key(#[trigger] keys@[j]@) && m[keys@[j]@] == vals@[j] by {
                        if j != slot {
                            assert(keys@[j]@ != key@) by {
                                assert(texts_view(keys@)[j] == keys@[j]@);
                                if j < slot {
                                    assert(text_order(before_keys[j], before_keys[slot as int]) < 0);
                                } else {
                                    assert(text_order(before_keys[slot as int], before_keys[j]) < 0);
                                }
                                lemma_text_order_eq(before_keys[j], before_keys[slot as int]);
                            }
                        } else {
                            assert(texts_view(keys@)[j] == keys@[j]@);
                        }
                    }
                }
            } else {
                proof {
                    lemma_insert_ascending(before_keys, key@);
                    crate::keyed::lemma_lower_bound(before_keys, key@);
                }
                let ghost kv = key@;
                keys.insert(slot, key);
                vals.insert(slot, v);
                proof {
                    assert(texts_view(keys@) =~= before_keys.insert(slot as int, kv));
                    assert forall|j: int| 0 <= j < keys@.len() implies m.contains_key(#[trigger] keys@[j]@) && m[keys@[j]@] == vals@[j] by {
                        assert(texts_view(keys@)[j] == keys@[j]@);
                        if j < slot {
                            assert(keys@[j]@ == before_keys[j]);
                            assert(vals@[j] == before_vals[j]);
                            assert(before_keys[j] != kv) by {
                                assert(text_order(before_keys[j], kv) < 0);
                                lemma_text_order_eq(before_keys[j], kv);
                            }
                        } else if j > slot {
                            assert(keys@[j]@ == before_keys[j - 1]);
                            assert(vals@[j] == before_vals[j - 1]);
                            assert(before_keys[j - 1] != kv) by {
                                assert(!before_keys.contains(kv));
                            }
                        }
                    }
                }
            }
            proof {
                assert forall|k: Seq<char>| m.contains_key(k) implies texts_view(keys@).contains(k) by {
                    if k == key@ {
                        if found {
                            assert(texts_view(keys@)[slot as int] == k);
                        } else {
                            assert(texts_view(keys@)[slot as int] == k);
                        }
                    } else {
                        assert(before_keys.contains(k));
                        let j = choose|j: int| 0 <= j < before_keys.len() && before_keys[j] == k;
                        if found || j < slot {
                            assert(texts_view(keys@)[j] == k);
                        } else {
                            assert(texts_view(keys@)[j + 1] == k);
                        }
                    }
                }
            }
        }
        i = i + 1;
    }
    proof {
        assert(entries@.take(entries@.len() as int) =~= entries@);
    }
    let mut out: Vec<(String, u32)> = Vec::new();
    let mut j: usize = 0;
    while j < keys.len()
        invariant
            j <= keys@.len(),
            keys@.len() == vals@.len(),
            out@.len() == j,
            forall|t: int| 0 <= t < j ==> (#[trigger] out@[t]).0@ == keys@[t]@ && out@[t].1 == vals@[t],
        decreases keys.len() - j,
    {
        out.push((keys[j].clone(), vals[j]));
        j = j + 1;
    }
    proof {
        assert(pair_keys(out@) =~= texts_view(keys@));
    }
    out
}


// ---- effects and extensions -------------------------------------------------

/// Whether some listed value, trimmed, names the effect.
pub open spec fn effect_requested(values: Seq<Seq<char>>, e: AutomationEffect) -> bool {
    exists|i: int| 0 <= i < values.len() && effect_name(e) == trim_seq(#[trigger] values[i])
}

/// The requested effects, each once, in the effects' declared order.
pub open spec fn effects_selected(values: Seq<Seq<char>>) -> Seq<AutomationEffect> {
    (if effect_requested(values, AutomationEffect::TrackerComment) { seq![AutomationEffect::TrackerComment] } else { Seq::empty() })
        + (if effect_requested(values, AutomationEffect::TrackerTransition) { seq![AutomationEffect::TrackerTransition] } else { Seq::empty() })
        + (if effect_requested(values, AutomationEffect::TrackerLinkPullRequest) { seq![AutomationEffect::TrackerLinkPullRequest] } else { Seq::empty() })
}

pub open spec fn names_no_effect(value: Seq<char>) -> bool {
    forall|e: AutomationEffect| effect_name(e) != trim_seq(value)
}

/// One error per listed value that names no allowlisted effect, in order.
pub open spec fn unsupported_effect_diags(values: Seq<Seq<char>>) -> Seq<(AutomationValidationSeverity, AutomationDiagnosticCode, Seq<char>, Seq<char>)>
    decreases values.len(),
{
    if values.len() == 0 {
        Seq::empty()
    } else {
        unsupported_effect_diags(values.drop_last()) + if names_no_effect(values.last()) {
            seq![error_view(
                AutomationDiagnosticCode::UnsupportedEffect,
                "orchestra.effects"@,
                "`"@ + values.last() + "` is not an allowlisted tracker effect"@,
            )]
        } else {
            Seq::empty()
        }
    }
}

proof fn lemma_effect_name_injective(a: AutomationEffect, b: AutomationEffect)
    ensures
        effect_name(a) == effect_name(b) ==> a == b,
{
    reveal_strlit("tracker.comment");
    reveal_strlit("tracker.transition");
    reveal_strlit("tracker.link_pull_request");
    if effect_name(a) == effect_name(b) {
        assert(effect_name(a).len() == effect_name(b).len());
    }
}

/// The allowlisted tracker effects a profile requests.
pub fn select_effects(values: &Vec<String>, diagnostics: &mut Vec<AutomationDiagnostic>) -> (r: Vec<AutomationEffect>)
    ensures
        r@ == effects_selected(texts_view(values@)),
        diags_view(final(diagnostics)@) == diags_view(old(diagnostics)@) + unsupported_effect_diags(texts_view(values@)),
{
    let ghost all = texts_view(values@);
    let ghost start = diags_view(diagnostics@);
    let mut comment = false;
    let mut transition = false;
    let mut link = false;
    let mut i: usize = 0;
    while i < values.len()
        invariant
            i <= values@.len(),
            all == texts_view(values@),
            comment == effect_requested(all.take(i as int), AutomationEffect::TrackerComment),
            transition == effect_requested(all.take(i as int), AutomationEffect::TrackerTransition),
            link == effect_requested(all.take(i as int), AutomationEffect::TrackerLinkPullRequest),
            diags_view(diagnostics@) == start + unsupported_effect_diags(all.take(i as int)),
        decreases values.len() - i,
    {
        let ghost t = all.take(i + 1);
        proof {
            assert(t.drop_last() =~= all.take(i as int));
            assert(t.last() == all[i as int]);
            assert(all[i as int] == values@[i as int]@);
        }
        let trimmed = trim(values[i].as_str());
        match AutomationEffect::parse(trimmed.as_str()) {
            Some(effect) => {
                match effect {
                    AutomationEffect::TrackerComment => { comment = true; },
                    AutomationEffect::TrackerTransition => { transition = true; },
                    AutomationEffect::TrackerLinkPullRequest => { link = true; },
                }
                proof {
                    assert(!names_no_effect(all[i as int]));
                    assert(diags_view(diagnostics@) =~= start + unsupported_effect_diags(t));
                    assert forall|e: AutomationEffect| effect_requested(t, e) == (effect_requested(all.take(i as int), e) || e == effect) by {
                        if effect_requested(t, e) && !effect_requested(all.take(i as int), e) {
                            let k = choose|k: int| 0 <= k < t.len() && effect_name(e) == trim_seq(#[trigger] t[k]);
                            if k < i {
                                assert(all.take(i as int)[k] == t[k]);
                            }
                            assert(effect_name(e) == effect_name(effect));
                            lemma_effect_name_injective(e, effect);
                        }
                        if effect_requested(all.take(i as int), e) {
                            let k = choose|k: int| 0 <= k < i && effect_name(e) == trim_seq(#[trigger] all.take(i as int)[k]);
                            assert(t[k] == all.take(i as int)[k]);
                        }
                        if e == effect {
                            assert(effect_name(e) == trim_seq(t[i as int]));
                        }
                    }
                }
            },
            None => {
                let ghost before = diags_view(diagnostics@);
                let message = concat(concat("`", values[i].as_str()).as_str(), "` is not an allowlisted tracker effect");
                push_error(diagnostics, AutomationDiagnosticCode::UnsupportedEffect, "orchestra.effects", message.as_str());
                proof {
                    assert(names_no_effect(all[i as int]));
                    assert(diags_view(diagnostics@) =~= start + unsupported_effect_diags(t));
                    assert forall|e: AutomationEffect| effect_requested(t, e) == effect_requested(all.take(i as int), e) by {
                        if effect_requested(t, e) {
                            let k = choose|k: int| 0 <= k < t.len() && effect_name(e) == trim_seq(#[trigger] t[k]);
                            if k < i {
                                assert(all.take(i as int)[k] == t[k]);
                            }
                        }
                        if effect_requested(all.take(i as int), e) {
                            let k = choose|k: int| 0 <= k < i && effect_name(e) == trim_seq(#[trigger] all.take(i as int)[k]);
                            assert(t[k] == all.take(i as int)[k]);
                        }
                    }
                }
            },
        }
        i = i + 1;
    }
    proof {
        assert(all.take(values@.len() as int) =~= all);
    }
    let mut out: Vec<AutomationEffect> = Vec::new();
    if comment {
        out.push(AutomationEffect::TrackerComment);
    }
    if transition {
        out.push(AutomationEffect::TrackerTransition);
    }
    if link {
        out.push(AutomationEffect::TrackerLinkPullRequest);
    }
    proof {
        assert(out@ =~= effects_selected(all));
    }
    out
}

/// One warning per unrecognized top-level key, in order.
pub open spec fn extension_diags(keys: Seq<Seq<char>>) -> Seq<(AutomationValidationSeverity, AutomationDiagnosticCode, Seq<char>, Seq<char>)> {
    keys.map_values(|k: Seq<char>| warning_view(
        AutomationDiagnosticCode::UnknownField,
        k,
        "unrecognized top-level Symphony extension is ignored by this Product tuple"@,
    ))
}

pub fn warn_extensions(keys: &Vec<String>, diagnostics: &mut Vec<AutomationDiagnostic>)
    ensures
        diags_view(final(diagnostics)@) == diags_view(old(diagnostics)@) + extension_diags(texts_view(keys@)),
{
    let ghost start = diags_view(diagnostics@);
    let mut i: usize = 0;
    while i < keys.len()
        invariant
            i <= keys@.len(),
            diags_view(diagnostics@) == start + extension_diags(texts_view(keys@).take(i as int)),
        decreases keys.len() - i,
    {
        push_diagnostic(
            diagnostics,
            AutomationValidationSeverity::Warning,
            AutomationDiagnosticCode::UnknownField,
            keys[i].as_str(),
            "unrecognized top-level Symphony extension is ignored by this Product tuple",
        );
        proof {
            assert(extension_diags(texts_view(keys@).take(i + 1)) =~= extension_diags(texts_view(keys@).take(i as int)).push(
                warning_view(AutomationDiagnosticCode::UnknownField, keys@[i as int]@, "unrecognized top-level Symphony extension is ignored by this Product tuple"@),
            ));
            assert(diags_view(diagnostics@) =~= start + extension_diags(texts_view(keys@).take(i + 1)));
        }
        i = i + 1;
    }
    proof {
        assert(texts_view(keys@).take(keys@.len() as int) =~= texts_view(keys@));
    }
}

// ---- Codex policy -----------------------------------------------------------

pub open spec fn approval_rank(v: Seq<char>) -> Option<u8> {
    if v == "untrusted"@ {
        Some(0)
    } else if v == "on-request"@ {
        Some(1)
    } else if v == "never"@ {
        Some(2)
    } else {
        None
    }
}

pub open spec fn approval_rank_of(v: JsonValue) -> Option<u8> {
    match v {
        JsonValue::String(s) => approval_rank(s@),
        _ => None,
    }
}

/// A requested approval policy may equal the inherited one or be a named policy
/// no looser than the inherited named policy.
pub open spec fn approval_allowed(requested: JsonValue, inherited: JsonValue) -> bool {
    json_same(requested, inherited) || match (approval_rank_of(requested), approval_rank_of(inherited)) {
        (Some(a), Some(b)) => a <= b,
        _ => false,
    }
}

fn approval_rank_exec(v: &JsonValue) -> (r: Option<u8>)
    ensures
        r == approval_rank_of(*v),
{
    match v {
        JsonValue::String(s) => {
            if str_eq(s.as_str(), "untrusted") {
                Some(0)
            } else if str_eq(s.as_str(), "on-request") {
                Some(1)
            } else if str_eq(s.as_str(), "never") {
                Some(2)
            } else {
                None
            }
        },
        _ => None,
    }
}

pub open spec fn policy_diags(broadens: bool, path: Seq<char>, message: Seq<char>) -> Seq<(AutomationValidationSeverity, AutomationDiagnosticCode, Seq<char>, Seq<char>)> {
    if broadens {
        seq![error_view(AutomationDiagnosticCode::PolicyBroadening, path, message)]
    } else {
        Seq::empty()
    }
}

/// The effective approval policy: the requested one when it only narrows the
/// inherited one, else the inherited one with an error.
pub fn validate_approval_policy(requested: Option<JsonValue>, inherited: JsonValue, diagnostics: &mut Vec<AutomationDiagnostic>) -> (r: JsonValue)
    ensures
        match requested {
            Some(q) => r == (if approval_allowed(q, inherited) { q } else { inherited }),
            None => r == inherited,
        },
        diags_view(final(diagnostics)@) == diags_view(old(diagnostics)@) + policy_diags(
            requested matches Some(q) && !approval_allowed(q, inherited),
            "codex.approval_policy"@,
            "Automation policy may only narrow the active task approval policy"@,
        ),
{
    match requested {
        None => {
            proof {
                assert(diags_view(diagnostics@) =~= diags_view(diagnostics@) + Seq::empty());
            }
            inherited
        },
        Some(q) => {
            let ranked = match (approval_rank_exec(&q), approval_rank_exec(&inherited)) {
                (Some(a), Some(b)) => a <= b,
                _ => false,
            };
            let allowed = json_eq(&q, &inherited) || ranked;
            if !allowed {
                push_error(
                    diagnostics,
                    AutomationDiagnosticCode::PolicyBroadening,
                    "codex.approval_policy",
                    "Automation policy may only narrow the active task approval policy",
                );
                inherited
            } else {
                proof {
                    assert(diags_view(diagnostics@) =~= diags_view(diagnostics@) + Seq::empty());
                }
                q
            }
        },
    }
}

pub open spec fn sandbox_rank(v: Seq<char>) -> Option<u8> {
    if v == "read-only"@ {
        Some(0)
    } else if v == "workspace-write"@ {
        Some(1)
    } else if v == "danger-full-access"@ {
        Some(2)
    } else {
        None
    }
}

fn sandbox_rank_exec(v: &str) -> (r: Option<u8>)
    ensures
        r == sandbox_rank(v@),
{
    if str_eq(v, "read-only") {
        Some(0)
    } else if str_eq(v, "workspace-write") {
        Some(1)
    } else if str_eq(v, "danger-full-access") {
        Some(2)
    } else {
        None
    }
}

/// A requested sandbox must be a named sandbox no looser than the inherited one.
pub open spec fn sandbox_allowed(requested: Seq<char>, inherited: Seq<char>) -> bool {
    match (sandbox_rank(requested), sandbox_rank(inherited)) {
        (Some(a), Some(b)) => a <= b,
        _ => false,
    }
}

/// The effective thread sandbox: the requested one when it only narrows the
/// inherited one, else the inherited one with an error.
pub fn validate_thread_sandbox(requested: Option<String>, inherited: String, diagnostics: &mut Vec<AutomationDiagnostic>) -> (r: String)
    ensures
        match requested {
            Some(q) => r == (if sandbox_allowed(q@, inherited@) { q } else { inherited }),
            None => r == inherited,
        },
        diags_view(final(diagnostics)@) == diags_view(old(diagnostics)@) + policy_diags(
            requested matches Some(q) && !sandbox_allowed(q@, inherited@),
            "codex.thread_sandbox"@,
            "Automation sandbox may only narrow the active task sandbox"@,
        ),
{
    match requested {
        None => {
            proof {
                assert(diags_view(diagnostics@) =~= diags_view(diagnostics@) + Seq::empty());
            }
            inherited
        },
        Some(q) => {
            let allowed = match (sandbox_rank_exec(q.as_str()), sandbox_rank_exec(inherited.as_str())) {
                (Some(a), Some(b)) => a <= b,
                _ => false,
            };
            if !allowed {
                push_error(
                    diagnostics,
                    AutomationDiagnosticCode::PolicyBroadening,
                    "codex.thread_sandbox",
                    "Automation sandbox may only narrow the active task sandbox",
                );
                inherited
            } else {
                proof {
                    assert(diags_view(diagnostics@) =~= diags_view(diagnostics@) + Seq::empty());
                }
                q
            }
        },
    }
}

/// The effective turn sandbox policy: only the inherited policy itself is accepted.
pub fn validate_turn_sandbox(requested: Option<JsonValue>, inherited: JsonValue, diagnostics: &mut Vec<AutomationDiagnostic>) -> (r: JsonValue)
    ensures
        match requested {
            Some(q) => r == (if json_same(q, inherited) { q } else { inherited }),
            None => r == inherited,
        },
        diags_view(final(diagnostics)@) == diags_view(old(diagnostics)@) + policy_diags(
            requested matches Some(q) && !json_same(q, inherited),
            "codex.turn_sandbox_policy"@,
            "the MVP accepts the inherited turn sandbox policy exactly; native policy comparison must prove any future narrowing"@,
        ),
{
    match requested {
        None => {
            proof {
                assert(diags_view(diagnostics@) =~= diags_view(diagnostics@) + Seq::empty());
            }
            inherited
        },
        Some(q) => {
            if !json_eq(&q, &inherited) {
                push_error(
                    diagnostics,
                    AutomationDiagnosticCode::PolicyBroadening,
                    "codex.turn_sandbox_policy",
                    "the MVP accepts the inherited turn sandbox policy exactly; native policy comparison must prove any future narrowing",
                );
                inherited
            } else {
                proof {
                    assert(diags_view(diagnostics@) =~= diags_view(diagnostics@) + Seq::empty());
                }
                q
            }
        },
    }
}


// ---- paths ------------------------------------------------------------------

/// `s` without every leading `~/`.
pub open spec fn strip_home_prefix(s: Seq<char>) -> Seq<char>
    decreases s.len(),
{
    if s.len() >= 2 && s[0] == '~' && s[1] == '/' { strip_home_prefix(s.skip(2)) } else { s }
}

pub open spec fn is_home_relative(raw: Seq<char>) -> bool {
    raw == seq!['~'] || (raw.len() >= 2 && raw[0] == '~' && raw[1] == '/')
}

/// A configured path with `$VAR` and `~` expanded: the expansion, or the raw text
/// when it cannot be expanded.
pub open spec fn expanded_path(raw: Seq<char>, home: Option<Seq<char>>, env: Seq<(String, String)>) -> Seq<char> {
    if raw.len() > 0 && raw[0] == '$' {
        match env_lookup(env, raw.drop_first()) {
            Some(v) => if trim_seq(v).len() > 0 { v } else { raw },
            None => raw,
        }
    } else if is_home_relative(raw) {
        match home {
            Some(h) => joined_path(strip_home_prefix(raw), h),
            None => raw,
        }
    } else {
        raw
    }
}

pub open spec fn expansion_diags(raw: Seq<char>, home: Option<Seq<char>>, env: Seq<(String, String)>, path: Seq<char>) -> Seq<(AutomationValidationSeverity, AutomationDiagnosticCode, Seq<char>, Seq<char>)> {
    if raw.len() > 0 && raw[0] == '$' {
        if env_has_value(env, raw.drop_first()) {
            Seq::empty()
        } else {
            seq![error_view(
                AutomationDiagnosticCode::MissingSecret,
                path,
                "environment reference `$"@ + raw.drop_first() + "` is unavailable"@,
            )]
        }
    } else if is_home_relative(raw) && home is None {
        seq![error_view(AutomationDiagnosticCode::InvalidValue, path, "cannot expand `~` because no home directory was supplied"@)]
    } else {
        Seq::empty()
    }
}

fn strip_home_prefix_exec(chars: &Vec<char>) -> (r: usize)
    ensures
        r <= chars@.len(),
        chars@.skip(r as int) == strip_home_prefix(chars@),
{
    let mut i: usize = 0;
    proof {
        assert(chars@.skip(0) =~= chars@);
    }
    while chars.len() - i >= 2 && chars[i] == '~' && chars[i + 1] == '/'
        invariant
            i <= chars@.len(),
            strip_home_prefix(chars@) == strip_home_prefix(chars@.skip(i as int)),
        decreases chars.len() - i,
    {
        proof {
            let t = chars@.skip(i as int);
            assert(t[0] == chars@[i as int] && t[1] == chars@[i + 1]);
            assert(t.skip(2) =~= chars@.skip(i + 2));
        }
        i = i + 2;
    }
    proof {
        let t = chars@.skip(i as int);
        if t.len() >= 2 {
            assert(t[0] == chars@[i as int] && t[1] == chars@[i + 1]);
        }
    }
    i
}

fn expand_env_reference(
    raw: &str,
    chars: &Vec<char>,
    environment: &Vec<(String, String)>,
    path: &str,
    diagnostics: &mut Vec<AutomationDiagnostic>,
) -> (r: String)
    requires
        chars@ == raw@,
        raw@.len() > 0 && raw@[0] == '$',
    ensures
        r@ == expanded_path(raw@, None, environment@),
        diags_view(final(diagnostics)@) == diags_view(old(diagnostics)@) + expansion_diags(raw@, None, environment@, path@),
{
    let variable = string_from_chars(slice_subrange(chars.as_slice(), 1, chars.len()));
    proof {
        assert(variable@ =~= raw@.drop_first());
    }
    let found = match env_get(environment, variable.as_str()) {
        Some(v) => if !text_is_empty(trim(v.as_str()).as_str()) { Some(v.clone()) } else { None },
        None => None,
    };
    match found {
        Some(v) => {
            proof {
                assert(diags_view(diagnostics@) =~= diags_view(diagnostics@) + Seq::empty());
            }
            v
        },
        None => {
            let message = concat(concat("environment reference `$", variable.as_str()).as_str(), "` is unavailable");
            push_error(diagnostics, AutomationDiagnosticCode::MissingSecret, path, message.as_str());
            to_owned_string(raw)
        },
    }
}

fn expand_home(raw: &str, chars: &Vec<char>, home: &String) -> (r: String)
    requires
        chars@ == raw@,
        is_home_relative(raw@),
    ensures
        r@ == joined_path(strip_home_prefix(raw@), home@),
{
    let k = strip_home_prefix_exec(chars);
    let mut whole = str_chars(raw);
    let rest: Vec<char> = whole.split_off(k);
    proof {
        assert(rest@ =~= chars@.skip(k as int));
    }
    let mut out = str_chars(home.as_str());
    if (rest.len() > 0 && rest[0] == '/') || out.len() == 0 {
        out = rest;
    } else {
        out.push('/');
        let mut tail = rest;
        out.append(&mut tail);
    }
    proof {
        assert(out@ =~= joined_path(strip_home_prefix(raw@), home@));
    }
    string_from_chars(out.as_slice())
}

fn expand_path_text(
    raw: &str,
    home: &Option<String>,
    environment: &Vec<(String, String)>,
    path: &str,
    diagnostics: &mut Vec<AutomationDiagnostic>,
) -> (r: String)
    ensures
        r@ == expanded_path(raw@, text_option(*home), environment@),
        diags_view(final(diagnostics)@) == diags_view(old(diagnostics)@) + expansion_diags(raw@, text_option(*home), environment@, path@),
{
    let chars = str_chars(raw);
    if chars.len() > 0 && chars[0] == '$' {
        return expand_env_reference(raw, &chars, environment, path, diagnostics);
    }
    let home_relative = (chars.len() == 1 && chars[0] == '~') || (chars.len() >= 2 && chars[0] == '~' && chars[1] == '/');
    proof {
        if chars.len() == 1 && chars[0] == '~' {
            assert(raw@ =~= seq!['~']);
        }
        if raw@ == seq!['~'] {
            assert(raw@[0] == '~');
        }
    }
    if !home_relative {
        proof {
            assert(diags_view(diagnostics@) =~= diags_view(diagnostics@) + Seq::empty());
        }
        return to_owned_string(raw);
    }
    match home {
        Some(h) => {
            proof {
                assert(diags_view(diagnostics@) =~= diags_view(diagnostics@) + Seq::empty());
            }
            expand_home(raw, &chars, h)
        },
        None => {
            push_error(diagnostics, AutomationDiagnosticCode::InvalidValue, path, "cannot expand `~` because no home directory was supplied");
            to_owned_string(raw)
        },
    }
}

/// A configured directory: `$VAR` and `~` expanded, then made absolute against
/// `base` and folded lexically. An unexpandable reference is an error and is
/// resolved as written.
pub fn resolve_path_value(
    raw: &str,
    base: &str,
    home: &Option<String>,
    environment: &Vec<(String, String)>,
    path: &str,
    diagnostics: &mut Vec<AutomationDiagnostic>,
) -> (r: LexicalPath)
    ensures
        lexical_view(r) == lexical_absolute_spec(expanded_path(raw@, text_option(*home), environment@), base@),
        diags_view(final(diagnostics)@) == diags_view(old(diagnostics)@) + expansion_diags(raw@, text_option(*home), environment@, path@),
{
    let expanded = expand_path_text(raw, home, environment, path, diagnostics);
    lexical_absolute(expanded.as_str(), base)
}

/// `p` is `prefix` or lies below it, component by component.
pub open spec fn model_starts_with(p: (bool, Seq<Seq<char>>), prefix: (bool, Seq<Seq<char>>)) -> bool {
    p.0 == prefix.0 && prefix.1.len() <= p.1.len() && p.1.take(prefix.1.len() as int) == prefix.1
}

/// A workspace root is unsafe when it is `/` (or empty), the repository root, inside
/// the repository's `.git`, or a symbolic link.
pub open spec fn workspace_root_unsafe(root: (bool, Seq<Seq<char>>), repository_root: Seq<char>, is_symlink: bool) -> bool {
    let repo = lexical_absolute_spec(repository_root, "/"@);
    ||| root.1.len() == 0
    ||| root == repo
    ||| model_starts_with(root, (repo.0, repo.1.push(".git"@)))
    ||| is_symlink
}

fn model_eq(a: &LexicalPath, b: &LexicalPath) -> (r: bool)
    ensures
        r == (lexical_view(*a) == lexical_view(*b)),
{
    if a.absolute != b.absolute || a.components.len() != b.components.len() {
        proof {
            if lexical_view(*a) == lexical_view(*b) {
                assert(components_view(a.components@).len() == components_view(b.components@).len());
            }
        }
        return false;
    }
    let mut i: usize = 0;
    while i < a.components.len()
        invariant
            i <= a.components@.len(),
            a.components@.len() == b.components@.len(),
            forall|k: int| 0 <= k < i ==> a.components@[k]@ == b.components@[k]@,
        decreases a.components.len() - i,
    {
        let x: String = string_from_chars(a.components[i].as_slice());
        let y: String = string_from_chars(b.components[i].as_slice());
        if !str_eq(x.as_str(), y.as_str()) {
            proof {
                assert(components_view(a.components@)[i as int] != components_view(b.components@)[i as int]);
            }
            return false;
        }
        i = i + 1;
    }
    proof {
        assert(components_view(a.components@) =~= components_view(b.components@));
    }
    true
}

fn model_starts_with_git(p: &LexicalPath, repo: &LexicalPath) -> (r: bool)
    ensures
        r == model_starts_with(lexical_view(*p), (repo.absolute, components_view(repo.components@).push(".git"@))),
{
    let ghost prefix = components_view(repo.components@).push(".git"@);
    let n = repo.components.len();
    if p.absolute != repo.absolute || p.components.len() <= n {
        return false;
    }
    let mut i: usize = 0;
    while i < n
        invariant
            i <= n,
            n == repo.components@.len(),
            n < p.components@.len(),
            prefix == components_view(repo.components@).push(".git"@),
            forall|k: int| 0 <= k < i ==> p.components@[k]@ == repo.components@[k]@,
        decreases n - i,
    {
        let x: String = string_from_chars(p.components[i].as_slice());
        let y: String = string_from_chars(repo.components[i].as_slice());
        if !str_eq(x.as_str(), y.as_str()) {
            proof {
                assert(components_view(p.components@).take(prefix.len() as int)[i as int] != prefix[i as int]);
            }
            return false;
        }
        i = i + 1;
    }
    let last: String = string_from_chars(p.components[n].as_slice());
    let r = str_eq(last.as_str(), ".git");
    proof {
        let t = components_view(p.components@).take(prefix.len() as int);
        if r {
            assert(t =~= prefix);
        } else {
            assert(t[n as int] != prefix[n as int]);
        }
    }
    r
}

/// Rejects a workspace root that is not a dedicated, non-symlink directory.
pub fn validate_workspace_root(
    workspace_root: &LexicalPath,
    repository_root: &str,
    is_symlink: bool,
    diagnostics: &mut Vec<AutomationDiagnostic>,
)
    ensures
        diags_view(final(diagnostics)@) == diags_view(old(diagnostics)@) + if workspace_root_unsafe(lexical_view(*workspace_root), repository_root@, is_symlink) {
            seq![error_view(
                AutomationDiagnosticCode::UnsafeWorkspaceRoot,
                "workspace.root"@,
                "workspace root must be a dedicated non-symlink directory and cannot be `/`, the repository root, or `.git`"@,
            )]
        } else {
            Seq::empty()
        },
{
    let repo = lexical_absolute(repository_root, "/");
    let unsafe_root = workspace_root.components.len() == 0
        || model_eq(workspace_root, &repo)
        || model_starts_with_git(workspace_root, &repo)
        || is_symlink;
    proof {
        reveal_strlit("/");
        assert(components_view(workspace_root.components@).len() == workspace_root.components@.len());
    }
    if unsafe_root {
        push_error(
            diagnostics,
            AutomationDiagnosticCode::UnsafeWorkspaceRoot,
            "workspace.root",
            "workspace root must be a dedicated non-symlink directory and cannot be `/`, the repository root, or `.git`",
        );
    } else {
        proof {
            assert(diags_view(diagnostics@) =~= diags_view(diagnostics@) + Seq::empty());
        }
    }
}

/// A file name has the `ts` extension: something, then `.ts`.
pub open spec fn has_ts_extension(name: Seq<char>) -> bool {
    name.len() > 3 && name.skip(name.len() - 3) == ".ts"@
}

pub open spec fn ends_with_text(name: Seq<char>, suffix: Seq<char>) -> bool {
    name.len() >= suffix.len() && name.skip(name.len() - suffix.len()) == suffix
}

pub open spec fn last_component(m: (bool, Seq<Seq<char>>)) -> Seq<char> {
    if m.1.len() > 0 { m.1.last() } else { Seq::empty() }
}

/// The selected workflow as checked: its canonical form when the file system gave one.
pub open spec fn checked_workflow(candidate: (bool, Seq<Seq<char>>), canonical: Option<Seq<char>>) -> (bool, Seq<Seq<char>>) {
    match canonical {
        Some(c) => path_model(c),
        None => candidate,
    }
}

/// The repository root as checked: its canonical form when the file system gave one.
pub open spec fn checked_repository(repository_root: Seq<char>, canonical: Option<Seq<char>>) -> (bool, Seq<Seq<char>>) {
    match canonical {
        Some(c) => path_model(c),
        None => lexical_absolute_spec(repository_root, "/"@),
    }
}

pub open spec fn workflow_contained(checked: (bool, Seq<Seq<char>>), repository: (bool, Seq<Seq<char>>)) -> bool {
    model_starts_with(checked, repository) && checked.1.len() > 0 && has_ts_extension(last_component(checked))
}

/// Where a selected workflow resolves: `raw` against `base`, checked in its
/// canonical form. It must lie inside the repository and be named `*.workflow.ts`.
pub open spec fn workflow_path_spec(
    raw: Seq<char>,
    base: Seq<char>,
    repository_root: Seq<char>,
    canonical_repository: Option<Seq<char>>,
    canonical_workflow: Option<Seq<char>>,
) -> Option<Seq<char>> {
    if raw.len() == 0 {
        None
    } else {
        let candidate = lexical_absolute_spec(raw, base);
        let checked = checked_workflow(candidate, canonical_workflow);
        if !workflow_contained(checked, checked_repository(repository_root, canonical_repository)) {
            None
        } else if !ends_with_text(last_component(checked), ".workflow.ts"@) {
            None
        } else {
            Some(match canonical_workflow {
                Some(c) => c,
                None => render_path(candidate),
            })
        }
    }
}

pub open spec fn workflow_path_diags(
    raw: Seq<char>,
    base: Seq<char>,
    repository_root: Seq<char>,
    canonical_repository: Option<Seq<char>>,
    canonical_workflow: Option<Seq<char>>,
) -> Seq<(AutomationValidationSeverity, AutomationDiagnosticCode, Seq<char>, Seq<char>)> {
    if raw.len() == 0 {
        Seq::empty()
    } else {
        let checked = checked_workflow(lexical_absolute_spec(raw, base), canonical_workflow);
        if !workflow_contained(checked, checked_repository(repository_root, canonical_repository)) {
            seq![error_view(
                AutomationDiagnosticCode::WorkflowCompileError,
                "orchestra.workflow"@,
                "selected workflow must be a `.workflow.ts` file contained by the target repository"@,
            )]
        } else if !ends_with_text(last_component(checked), ".workflow.ts"@) {
            seq![error_view(
                AutomationDiagnosticCode::WorkflowCompileError,
                "orchestra.workflow"@,
                "selected workflow filename must end in `.workflow.ts`"@,
            )]
        } else {
            Seq::empty()
        }
    }
}

pub fn model_starts_with_exec(p: &LexicalPath, prefix: &LexicalPath) -> (r: bool)
    ensures
        r == model_starts_with(lexical_view(*p), lexical_view(*prefix)),
{
    let n = prefix.components.len();
    if p.absolute != prefix.absolute || p.components.len() < n {
        return false;
    }
    let mut i: usize = 0;
    while i < n
        invariant
            i <= n,
            n == prefix.components@.len(),
            n <= p.components@.len(),
            forall|k: int| 0 <= k < i ==> p.components@[k]@ == prefix.components@[k]@,
        decreases n - i,
    {
        let x: String = string_from_chars(p.components[i].as_slice());
        let y: String = string_from_chars(prefix.components[i].as_slice());
        if !str_eq(x.as_str(), y.as_str()) {
            proof {
                assert(components_view(p.components@).take(n as int)[i as int] != components_view(prefix.components@)[i as int]);
            }
            return false;
        }
        i = i + 1;
    }
    proof {
        assert(components_view(p.components@).take(n as int) =~= components_view(prefix.components@));
    }
    true
}

fn ends_with_chars(name: &Vec<char>, suffix: &str) -> (r: bool)
    ensures
        r == ends_with_text(name@, suffix@),
{
    let s = str_chars(suffix);
    if name.len() < s.len() {
        return false;
    }
    let off = name.len() - s.len();
    let mut k: usize = off;
    while k < name.len()
        invariant
            off <= k <= name@.len(),
            off + s@.len() == name@.len(),
            s@ == suffix@,
            forall|m: int| 0 <= m < k - off ==> name@[off + m] == s@[m],
        decreases name.len() - k,
    {
        if name[k] != s[k - off] {
            proof {
                assert(name@.skip(off as int)[k - off] != suffix@[k - off]);
            }
            return false;
        }
        k = k + 1;
    }
    proof {
        assert(name@.skip(off as int) =~= suffix@);
    }
    true
}

/// Resolves and checks the selected workflow file.
pub fn resolve_workflow_path(
    raw: &str,
    base: &str,
    repository_root: &str,
    canonical_repository: &Option<String>,
    canonical_workflow: &Option<String>,
    diagnostics: &mut Vec<AutomationDiagnostic>,
) -> (r: Option<String>)
    ensures
        text_option(r) == workflow_path_spec(raw@, base@, repository_root@, text_option(*canonical_repository), text_option(*canonical_workflow)),
        diags_view(final(diagnostics)@) == diags_view(old(diagnostics)@) + workflow_path_diags(
            raw@,
            base@,
            repository_root@,
            text_option(*canonical_repository),
            text_option(*canonical_workflow),
        ),
{
    if text_is_empty(raw) {
        proof {
            assert(diags_view(diagnostics@) =~= diags_view(diagnostics@) + Seq::empty());
        }
        return None;
    }
    let candidate = lexical_absolute(raw, base);
    let repository = match canonical_repository {
        Some(c) => lexical_model(&str_chars(c.as_str())),
        None => lexical_absolute(repository_root, "/"),
    };
    let checked_text = match canonical_workflow {
        Some(c) => c.clone(),
        None => render_lexical(&candidate),
    };
    let checked = match canonical_workflow {
        Some(c) => lexical_model(&str_chars(c.as_str())),
        None => candidate,
    };
    proof {
        reveal_strlit("/");
    }
    let n = checked.components.len();
    let contained = model_starts_with_exec(&checked, &repository) && n > 0 && {
        let name = &checked.components[n - 1];
        name.len() > 3 && ends_with_chars(name, ".ts")
    };
    proof {
        reveal_strlit(".ts");
        if n > 0 {
            assert(last_component(lexical_view(checked)) == checked.components@[n - 1]@);
        }
    }
    if !contained {
        push_error(
            diagnostics,
            AutomationDiagnosticCode::WorkflowCompileError,
            "orchestra.workflow",
            "selected workflow must be a `.workflow.ts` file contained by the target repository",
        );
        return None;
    }
    if !ends_with_chars(&checked.components[n - 1], ".workflow.ts") {
        push_error(
            diagnostics,
            AutomationDiagnosticCode::WorkflowCompileError,
            "orchestra.workflow",
            "selected workflow filename must end in `.workflow.ts`",
        );
        return None;
    }
    proof {
        assert(diags_view(diagnostics@) =~= diags_view(diagnostics@) + Seq::empty());
    }
    Some(checked_text)
}

} // verus!
