//! Linear GraphQL issue responses, normalized into tracker issues.
//!
//! A response is decoded field by field from its JSON tree (unknown members are
//! ignored, a missing or `null` optional member is absent), then each issue is
//! normalized: text trimmed, labels lowercased and deduplicated in order,
//! blockers deduplicated in order, issues ordered by identifier.
use crate::automation::AutomationIssue;
use crate::automation::AutomationIssueBlocker;
use crate::json::JsonValue;
use crate::json::json_get;
use crate::json::object_member;
use crate::order::compare_text;
use crate::order::text_order;
use crate::text::ascii_lower_seq;
use crate::text::push_str;
use crate::text::str_eq;
use crate::text::to_ascii_lowercase;
use crate::text::to_owned_string;
use crate::text::trim;
use crate::text::trim_seq;
use vstd::prelude::*;

verus! {

/// One page of normalized issues and where the next page starts.
#[derive(Debug)]
pub struct LinearIssuePage {
    pub issues: Vec<AutomationIssue>,
    pub has_next_page: bool,
    pub end_cursor: Option<String>,
}

#[derive(Debug)]
pub enum LinearReadError {
    GraphQl(String),
    MissingData,
    InvalidData(String),
}

/// What a failed read reports, as plain values.
pub enum LinearFailure {
    GraphQl(Seq<char>),
    MissingData,
    InvalidData(Seq<char>),
}

pub open spec fn failure_view(e: LinearReadError) -> LinearFailure {
    match e {
        LinearReadError::GraphQl(m) => LinearFailure::GraphQl(m@),
        LinearReadError::MissingData => LinearFailure::MissingData,
        LinearReadError::InvalidData(m) => LinearFailure::InvalidData(m@),
    }
}

impl LinearReadError {
    /// The error's message, as the tracker reports it to users.
    pub fn message(&self) -> (r: String)
        ensures
            r@ == match failure_view(*self) {
                LinearFailure::GraphQl(m) => "Linear returned GraphQL errors: "@ + m,
                LinearFailure::MissingData => "Linear response did not contain the expected issue data"@,
                LinearFailure::InvalidData(m) => "Linear response could not be normalized: "@ + m,
            },
    {
        match self {
            LinearReadError::GraphQl(m) => crate::text::concat("Linear returned GraphQL errors: ", m.as_str()),
            LinearReadError::MissingData => to_owned_string("Linear response did not contain the expected issue data"),
            LinearReadError::InvalidData(m) => crate::text::concat("Linear response could not be normalized: ", m.as_str()),
        }
    }
}

pub open spec fn opt_text(o: Option<String>) -> Option<Seq<char>> {
    match o {
        Some(s) => Some(s@),
        None => None,
    }
}

pub open spec fn deref_json(o: Option<&JsonValue>) -> Option<JsonValue> {
    match o {
        Some(v) => Some(*v),
        None => None,
    }
}

// ---------------------------------------------------------------------------
// GraphQL errors

/// The `message` of one GraphQL error, when it is a string.
pub open spec fn error_message(e: JsonValue) -> Option<Seq<char>> {
    match object_member(e, "message"@) {
        Some(JsonValue::String(s)) => Some(s@),
        _ => None,
    }
}

/// The string messages of the errors, in order.
pub open spec fn messages_of(errors: Seq<JsonValue>) -> Seq<Seq<char>>
    decreases errors.len(),
{
    if errors.len() == 0 {
        Seq::empty()
    } else {
        messages_of(errors.drop_last()) + match error_message(errors.last()) {
            Some(m) => seq![m],
            None => Seq::empty(),
        }
    }
}

/// The texts joined by `"; "`.
pub open spec fn join_semicolon(ms: Seq<Seq<char>>) -> Seq<char>
    decreases ms.len(),
{
    if ms.len() == 0 {
        Seq::empty()
    } else if ms.len() == 1 {
        ms[0]
    } else {
        join_semicolon(ms.drop_last()) + "; "@ + ms.last()
    }
}

/// The GraphQL failure a response reports: its first four error messages, when
/// it has a non-empty `errors` array.
pub open spec fn graphql_failure(response: JsonValue) -> Option<Seq<char>> {
    match object_member(response, "errors"@) {
        Some(JsonValue::Array(es)) => if es.len() == 0 {
            None
        } else {
            let ms = messages_of(es@);
            let first = if ms.len() > 4 { ms.take(4) } else { ms };
            Some(if first.len() == 0 { "unknown GraphQL error"@ } else { join_semicolon(first) })
        },
        _ => None,
    }
}

fn reject_graphql_errors(response: &JsonValue) -> (r: Result<(), LinearReadError>)
    ensures
        match graphql_failure(*response) {
            None => r is Ok,
            Some(m) => r matches Err(e) && failure_view(e) == LinearFailure::GraphQl(m),
        },
{
    let errors = match json_get(response, "errors") {
        Some(JsonValue::Array(es)) => es,
        _ => return Ok(()),
    };
    if errors.len() == 0 {
        return Ok(());
    }
    let mut joined = String::new();
    let mut count: usize = 0;
    let mut i: usize = 0;
    proof {
        assert(errors@.take(0) =~= Seq::<JsonValue>::empty());
    }
    while i < errors.len() && count < 4
        invariant
            i <= errors@.len(),
            count <= 4,
            count == messages_of(errors@.take(i as int)).len(),
            joined@ == join_semicolon(messages_of(errors@.take(i as int))),
        decreases errors.len() - i,
    {
        proof {
            assert(errors@.take(i + 1).drop_last() =~= errors@.take(i as int));
            assert(errors@.take(i + 1).last() == errors@[i as int]);
        }
        match json_get(&errors[i], "message") {
            Some(JsonValue::String(m)) => {
                let ghost before = messages_of(errors@.take(i as int));
                if count > 0 {
                    push_str(&mut joined, "; ");
                }
                push_str(&mut joined, m.as_str());
                count = count + 1;
                proof {
                    let after = messages_of(errors@.take(i + 1));
                    assert(after =~= before.push(m@));
                    assert(after.drop_last() =~= before);
                    if before.len() == 0 {
                        assert(joined@ =~= after[0]);
                    } else {
                        assert(joined@ =~= join_semicolon(before) + "; "@ + m@);
                    }
                }
            },
            _ => {
                proof {
                    assert(messages_of(errors@.take(i + 1)) =~= messages_of(errors@.take(i as int)));
                }
            },
        }
        i = i + 1;
    }
    proof {
        let all = messages_of(errors@);
        let first = if all.len() > 4 { all.take(4) } else { all };
        lemma_messages_prefix(errors@, i as int);
        if count == 4 {
            assert(all.take(4) =~= messages_of(errors@.take(i as int)));
            assert(first =~= all.take(4));
        } else {
            assert(errors@.take(i as int) =~= errors@);
            assert(first =~= all);
        }
        assert(first == messages_of(errors@.take(i as int)));
        assert(graphql_failure(*response) == Some(if first.len() == 0 { "unknown GraphQL error"@ } else { join_semicolon(first) }));
    }
    if count == 0 {
        return Err(LinearReadError::GraphQl(to_owned_string("unknown GraphQL error")));
    }
    Err(LinearReadError::GraphQl(joined))
}

/// The messages of a prefix of the errors are a prefix of their messages.
proof fn lemma_messages_prefix(errors: Seq<JsonValue>, i: int)
    requires
        0 <= i <= errors.len(),
    ensures
        messages_of(errors.take(i)).len() <= messages_of(errors).len(),
        messages_of(errors).take(messages_of(errors.take(i)).len() as int) == messages_of(errors.take(i)),
    decreases errors.len() - i,
{
    if i < errors.len() {
        lemma_messages_prefix(errors, i + 1);
        let a = messages_of(errors.take(i));
        let b = messages_of(errors.take(i + 1));
        assert(errors.take(i + 1).drop_last() =~= errors.take(i));
        assert(b.take(a.len() as int) =~= a);
        assert(messages_of(errors).take(a.len() as int) =~= messages_of(errors).take(b.len() as int).take(a.len() as int));
    } else {
        assert(errors.take(i) =~= errors);
        assert(messages_of(errors).take(messages_of(errors).len() as int) =~= messages_of(errors));
    }
}

// ---------------------------------------------------------------------------
// Where the issues are

/// `/data/project/issues`, else `/data/issues`.
pub open spec fn issues_connection(response: JsonValue) -> Option<JsonValue> {
    match object_member(response, "data"@) {
        None => None,
        Some(data) => {
            let project = match object_member(data, "project"@) {
                Some(p) => object_member(p, "issues"@),
                None => None,
            };
            match project {
                Some(c) => Some(c),
                None => object_member(data, "issues"@),
            }
        },
    }
}

fn find_issues_connection(response: &JsonValue) -> (r: Option<&JsonValue>)
    ensures
        deref_json(r) == issues_connection(*response),
{
    let data = match json_get(response, "data") {
        Some(d) => d,
        None => return None,
    };
    let project = match json_get(data, "project") {
        Some(p) => json_get(p, "issues"),
        None => None,
    };
    match project {
        Some(c) => Some(c),
        None => json_get(data, "issues"),
    }
}

// ---------------------------------------------------------------------------
// Scalars

pub open spec fn is_digit(c: char) -> bool {
    '0' <= c && c <= '9'
}

/// The value of a run of decimal digits.
pub open spec fn digits_value(s: Seq<char>) -> int
    decreases s.len(),
{
    if s.len() == 0 {
        0
    } else {
        digits_value(s.drop_last()) * 10 + (s.last() as int - '0' as int)
    }
}

pub open spec fn all_digits(s: Seq<char>) -> bool {
    forall|i: int| 0 <= i < s.len() ==> is_digit(#[trigger] s[i])
}

pub open spec fn is_negative_number(t: Seq<char>) -> bool {
    t.len() > 0 && t[0] == '-'
}

pub open spec fn number_digits(t: Seq<char>) -> Seq<char> {
    if is_negative_number(t) { t.drop_first() } else { t }
}

/// The integer a JSON number's text denotes, when it is an integer that fits `i64`.
pub open spec fn parse_i64(t: Seq<char>) -> Option<i64> {
    let digits = number_digits(t);
    if digits.len() == 0 || !all_digits(digits) {
        None
    } else {
        let v = if is_negative_number(t) { -digits_value(digits) } else { digits_value(digits) };
        if i64::MIN <= v <= i64::MAX { Some(v as i64) } else { None }
    }
}

proof fn lemma_digits_value_nonneg(s: Seq<char>)
    requires
        forall|i: int| 0 <= i < s.len() ==> is_digit(#[trigger] s[i]),
    ensures
        digits_value(s) >= 0,
    decreases s.len(),
{
    if s.len() > 0 {
        lemma_digits_value_nonneg(s.drop_last());
    }
}

proof fn lemma_digits_value_mono(s: Seq<char>, k: int)
    requires
        0 <= k <= s.len(),
        forall|i: int| 0 <= i < s.len() ==> is_digit(#[trigger] s[i]),
    ensures
        digits_value(s.take(k)) <= digits_value(s),
    decreases s.len() - k,
{
    if k < s.len() {
        lemma_digits_value_mono(s, k + 1);
        assert(s.take(k + 1).drop_last() =~= s.take(k));
        lemma_digits_value_nonneg(s.take(k));
        assert(forall|i: int| 0 <= i < k + 1 ==> is_digit(#[trigger] s.take(k + 1)[i]));
        lemma_digits_value_nonneg(s.take(k + 1));
        assert(digits_value(s.take(k)) * 10 >= digits_value(s.take(k))) by (nonlinear_arith)
            requires
                digits_value(s.take(k)) >= 0,
        ;
    } else {
        assert(s.take(k) =~= s);
    }
}

/// `i64` from a JSON number's text; `None` for a fraction, an exponent or a
/// value out of range.
pub fn parse_i64_text(t: &str) -> (r: Option<i64>)
    ensures
        r == parse_i64(t@),
{
    let chars = crate::text::str_chars(t);
    let negative = chars.len() > 0 && chars[0] == '-';
    let start: usize = if negative { 1 } else { 0 };
    let ghost digits = if negative { t@.drop_first() } else { t@ };
    proof {
        assert(chars@ == t@);
        if negative {
            assert(digits =~= t@.subrange(1, t@.len() as int));
        } else {
            assert(digits =~= t@.subrange(0, t@.len() as int));
        }
    }
    if chars.len() == start {
        return None;
    }
    let limit: u64 = 9223372036854775808;
    let mut acc: u64 = 0;
    let mut i: usize = start;
    while i < chars.len()
        invariant
            start <= i <= chars@.len(),
            chars@ == t@,
            limit == 9223372036854775808,
            negative == is_negative_number(t@),
            start == (if negative { 1usize } else { 0usize }),
            digits == number_digits(t@),
            digits == t@.subrange(start as int, t@.len() as int),
            forall|k: int| 0 <= k < i - start ==> is_digit(#[trigger] digits[k]),
            acc == digits_value(digits.take(i - start)),
            acc <= limit,
        decreases chars.len() - i,
    {
        let c = chars[i];
        proof {
            assert(digits[i - start] == c);
            assert(digits.take(i - start + 1).drop_last() =~= digits.take(i - start));
            assert(digits.take(i - start + 1).last() == c);
        }
        if !('0' <= c && c <= '9') {
            proof {
                assert(0 <= i - start < digits.len());
                assert(!is_digit(digits[i - start]));
                assert(!all_digits(digits));
                assert(parse_i64(t@) is None);
            }
            return None;
        }
        let d = (c as u32 - '0' as u32) as u64;
        proof {
            assert(digits_value(digits.take(i - start + 1)) == acc * 10 + d);
        }
        if acc > (limit - d) / 10 {
            proof {
                assert(acc * 10 + d > limit) by (nonlinear_arith)
                    requires
                        acc > (limit - d) / 10,
                        d <= 9,
                        limit == 9223372036854775808,
                ;
                if all_digits(digits) {
                    lemma_digits_value_mono(digits, i - start + 1);
                    assert(digits_value(digits) > limit);
                }
                assert(parse_i64(t@) is None);
            }
            return None;
        }
        proof {
            assert(acc * 10 + d <= limit) by (nonlinear_arith)
                requires
                    acc <= (limit - d) / 10,
                    d <= 9,
                    limit == 9223372036854775808,
            ;
        }
        acc = acc * 10 + d;
        i = i + 1;
    }
    proof {
        assert(digits.take(i - start) =~= digits);
    }
    if negative {
        if acc == limit {
            Some(i64::MIN)
        } else {
            Some(-(acc as i64))
        }
    } else if acc > 9223372036854775807 {
        None
    } else {
        Some(acc as i64)
    }
}


// ---------------------------------------------------------------------------
// Fields

/// A required string member.
pub open spec fn text_field(v: JsonValue, key: Seq<char>) -> Option<Seq<char>> {
    match object_member(v, key) {
        Some(JsonValue::String(s)) => Some(s@),
        _ => None,
    }
}

/// An optional string member: absent or `null` is `Some(None)`; another type is `None`.
pub open spec fn opt_text_field(v: JsonValue, key: Seq<char>) -> Option<Option<Seq<char>>> {
    match object_member(v, key) {
        None => Some(None),
        Some(JsonValue::Null) => Some(None),
        Some(JsonValue::String(s)) => Some(Some(s@)),
        _ => None,
    }
}

/// An optional integer member.
pub open spec fn opt_i64_field(v: JsonValue, key: Seq<char>) -> Option<Option<i64>> {
    match object_member(v, key) {
        None => Some(None),
        Some(JsonValue::Null) => Some(None),
        Some(JsonValue::Number(t)) => match parse_i64(t@) {
            Some(n) => Some(Some(n)),
            None => None,
        },
        _ => None,
    }
}

/// A required boolean member.
pub open spec fn bool_field(v: JsonValue, key: Seq<char>) -> Option<bool> {
    match object_member(v, key) {
        Some(JsonValue::Bool(b)) => Some(b),
        _ => None,
    }
}

/// A required `{ "name": .. }` member.
pub open spec fn name_field(v: JsonValue, key: Seq<char>) -> Option<Seq<char>> {
    match object_member(v, key) {
        Some(o) => if o is Object { text_field(o, "name"@) } else { None },
        None => None,
    }
}

/// An optional `{ "name": .. }` member.
pub open spec fn opt_name_field(v: JsonValue, key: Seq<char>) -> Option<Option<Seq<char>>> {
    match object_member(v, key) {
        None => Some(None),
        Some(JsonValue::Null) => Some(None),
        Some(o) => if o is Object {
            match text_field(o, "name"@) {
                Some(n) => Some(Some(n)),
                None => None,
            }
        } else {
            None
        },
    }
}

fn text_member(v: &JsonValue, key: &str) -> (r: Option<String>)
    ensures
        opt_text(r) == text_field(*v, key@),
{
    match json_get(v, key) {
        Some(JsonValue::String(s)) => Some(s.clone()),
        _ => None,
    }
}

fn opt_text_member(v: &JsonValue, key: &str) -> (r: Option<Option<String>>)
    ensures
        match r {
            Some(o) => opt_text_field(*v, key@) == Some(opt_text(o)),
            None => opt_text_field(*v, key@) is None,
        },
{
    match json_get(v, key) {
        None => Some(None),
        Some(JsonValue::Null) => Some(None),
        Some(JsonValue::String(s)) => Some(Some(s.clone())),
        _ => None,
    }
}

fn opt_i64_member(v: &JsonValue, key: &str) -> (r: Option<Option<i64>>)
    ensures
        r == opt_i64_field(*v, key@),
{
    match json_get(v, key) {
        None => Some(None),
        Some(JsonValue::Null) => Some(None),
        Some(JsonValue::Number(t)) => match parse_i64_text(t.as_str()) {
            Some(n) => Some(Some(n)),
            None => None,
        },
        _ => None,
    }
}

fn bool_member(v: &JsonValue, key: &str) -> (r: Option<bool>)
    ensures
        r == bool_field(*v, key@),
{
    match json_get(v, key) {
        Some(JsonValue::Bool(b)) => Some(*b),
        _ => None,
    }
}

fn name_member(v: &JsonValue, key: &str) -> (r: Option<String>)
    ensures
        opt_text(r) == name_field(*v, key@),
{
    match json_get(v, key) {
        Some(o) => match o {
            JsonValue::Object(_) => text_member(o, "name"),
            _ => None,
        },
        None => None,
    }
}

fn opt_name_member(v: &JsonValue, key: &str) -> (r: Option<Option<String>>)
    ensures
        match r {
            Some(o) => opt_name_field(*v, key@) == Some(opt_text(o)),
            None => opt_name_field(*v, key@) is None,
        },
{
    match json_get(v, key) {
        None => Some(None),
        Some(JsonValue::Null) => Some(None),
        Some(o) => match o {
            JsonValue::Object(_) => match text_member(o, "name") {
                Some(n) => Some(Some(n)),
                None => None,
            },
            _ => None,
        },
    }
}

// ---------------------------------------------------------------------------
// Blockers

/// A blocker as decoded: id, identifier and state name.
pub open spec fn blocker_field(v: JsonValue, key: Seq<char>) -> Option<Option<(Option<Seq<char>>, Option<Seq<char>>, Option<Seq<char>>)>> {
    match object_member(v, key) {
        None => Some(None),
        Some(JsonValue::Null) => Some(None),
        Some(o) => if o is Object {
            match (opt_text_field(o, "id"@), opt_text_field(o, "identifier"@), opt_name_field(o, "state"@)) {
                (Some(a), Some(b), Some(c)) => Some(Some((a, b, c))),
                _ => None,
            }
        } else {
            None
        },
    }
}

#[derive(Debug)]
pub struct RawBlocker {
    pub id: Option<String>,
    pub identifier: Option<String>,
    pub state: Option<String>,
}

pub open spec fn raw_blocker_view(b: RawBlocker) -> (Option<Seq<char>>, Option<Seq<char>>, Option<Seq<char>>) {
    (opt_text(b.id), opt_text(b.identifier), opt_text(b.state))
}

fn blocker_member(v: &JsonValue, key: &str) -> (r: Option<Option<RawBlocker>>)
    ensures
        match r {
            Some(Some(b)) => blocker_field(*v, key@) == Some(Some(raw_blocker_view(b))),
            Some(None) => blocker_field(*v, key@) == Some(None::<(Option<Seq<char>>, Option<Seq<char>>, Option<Seq<char>>)>),
            None => blocker_field(*v, key@) is None,
        },
{
    match json_get(v, key) {
        None => Some(None),
        Some(JsonValue::Null) => Some(None),
        Some(o) => match o {
            JsonValue::Object(_) => {
                let id = opt_text_member(o, "id");
                let identifier = opt_text_member(o, "identifier");
                let state = opt_name_member(o, "state");
                match (id, identifier, state) {
                    (Some(a), Some(b), Some(c)) => Some(Some(RawBlocker { id: a, identifier: b, state: c })),
                    _ => None,
                }
            },
            _ => None,
        },
    }
}

/// Option order: absent first, then by text.
pub open spec fn opt_order(a: Option<Seq<char>>, b: Option<Seq<char>>) -> int {
    match (a, b) {
        (None, None) => 0,
        (None, Some(_)) => -1,
        (Some(_), None) => 1,
        (Some(x), Some(y)) => text_order(x, y),
    }
}

/// Blocker order: by id, then identifier, then state.
pub open spec fn blocker_order(
    a: (Option<Seq<char>>, Option<Seq<char>>, Option<Seq<char>>),
    b: (Option<Seq<char>>, Option<Seq<char>>, Option<Seq<char>>),
) -> int {
    if opt_order(a.0, b.0) != 0 {
        opt_order(a.0, b.0)
    } else if opt_order(a.1, b.1) != 0 {
        opt_order(a.1, b.1)
    } else {
        opt_order(a.2, b.2)
    }
}

fn compare_opt_text(a: &Option<String>, b: &Option<String>) -> (r: i8)
    ensures
        r as int == opt_order(opt_text(*a), opt_text(*b)),
{
    match (a, b) {
        (None, None) => 0,
        (None, Some(_)) => -1,
        (Some(_), None) => 1,
        (Some(x), Some(y)) => compare_text(x.as_str(), y.as_str()),
    }
}

fn compare_blockers(a: &RawBlocker, b: &RawBlocker) -> (r: i8)
    ensures
        r as int == blocker_order(raw_blocker_view(*a), raw_blocker_view(*b)),
{
    let c = compare_opt_text(&a.id, &b.id);
    if c != 0 {
        return c;
    }
    let c = compare_opt_text(&a.identifier, &b.identifier);
    if c != 0 {
        return c;
    }
    compare_opt_text(&a.state, &b.state)
}


// ---------------------------------------------------------------------------
// Ordered sets

/// `sorted` with `k` inserted in text order, unless it is already there.
pub open spec fn insert_label(sorted: Seq<Seq<char>>, k: Seq<char>) -> Seq<Seq<char>>
    decreases sorted.len(),
{
    if sorted.len() == 0 {
        seq![k]
    } else if text_order(sorted.last(), k) > 0 {
        insert_label(sorted.drop_last(), k).push(sorted.last())
    } else if text_order(sorted.last(), k) == 0 {
        sorted
    } else {
        sorted.push(k)
    }
}

/// A label as compared: trimmed and ASCII-lowercased.
pub open spec fn label_key_of(name: Seq<char>) -> Seq<char> {
    ascii_lower_seq(trim_seq(name))
}

/// The distinct non-blank label keys, in text order.
pub open spec fn label_set(names: Seq<Seq<char>>) -> Seq<Seq<char>>
    decreases names.len(),
{
    if names.len() == 0 {
        Seq::empty()
    } else {
        let rest = label_set(names.drop_last());
        let k = label_key_of(names.last());
        if k.len() == 0 { rest } else { insert_label(rest, k) }
    }
}

pub open spec fn texts_of(v: Seq<String>) -> Seq<Seq<char>> {
    v.map_values(|s: String| s@)
}

fn insert_label_exec(items: &mut Vec<String>, x: String)
    ensures
        texts_of(final(items)@) == insert_label(texts_of(old(items)@), x@),
{
    let ghost o = texts_of(items@);
    let mut k: usize = items.len();
    proof {
        assert(o.take(k as int) =~= o);
        assert(o.skip(k as int) =~= Seq::<Seq<char>>::empty());
        assert(insert_label(o, x@) + Seq::<Seq<char>>::empty() =~= insert_label(o, x@));
    }
    while k > 0 && compare_text(items[k - 1].as_str(), x.as_str()) > 0
        invariant
            k <= items@.len(),
            items@ == old(items)@,
            o == texts_of(old(items)@),
            insert_label(o, x@) == insert_label(o.take(k as int), x@) + o.skip(k as int),
        decreases k,
    {
        proof {
            let t = o.take(k as int);
            assert(t.drop_last() =~= o.take(k - 1));
            assert(t.last() == o[k - 1]);
            assert(o.skip(k - 1) =~= seq![o[k - 1]] + o.skip(k as int));
            assert(insert_label(t.drop_last(), x@).push(t.last()) + o.skip(k as int)
                =~= insert_label(t.drop_last(), x@) + o.skip(k - 1));
        }
        k = k - 1;
    }
    let ghost t = o.take(k as int);
    if k > 0 && compare_text(items[k - 1].as_str(), x.as_str()) == 0 {
        proof {
            assert(t.last() == o[k - 1]);
            assert(t + o.skip(k as int) =~= o);
        }
        return;
    }
    proof {
        if k > 0 {
            assert(t.last() == o[k - 1]);
        }
        assert(insert_label(t, x@) =~= t.push(x@));
    }
    items.insert(k, x);
    proof {
        assert(texts_of(items@) =~= o.take(k as int).push(x@) + o.skip(k as int));
    }
}

/// `sorted` with blocker `b` inserted in blocker order, unless it is already there.
pub open spec fn insert_blocker(
    sorted: Seq<(Option<Seq<char>>, Option<Seq<char>>, Option<Seq<char>>)>,
    b: (Option<Seq<char>>, Option<Seq<char>>, Option<Seq<char>>),
) -> Seq<(Option<Seq<char>>, Option<Seq<char>>, Option<Seq<char>>)>
    decreases sorted.len(),
{
    if sorted.len() == 0 {
        seq![b]
    } else if blocker_order(sorted.last(), b) > 0 {
        insert_blocker(sorted.drop_last(), b).push(sorted.last())
    } else if blocker_order(sorted.last(), b) == 0 {
        sorted
    } else {
        sorted.push(b)
    }
}

/// The distinct blockers, in blocker order.
pub open spec fn blocker_set(bs: Seq<(Option<Seq<char>>, Option<Seq<char>>, Option<Seq<char>>)>)
    -> Seq<(Option<Seq<char>>, Option<Seq<char>>, Option<Seq<char>>)>
    decreases bs.len(),
{
    if bs.len() == 0 {
        Seq::empty()
    } else {
        insert_blocker(blocker_set(bs.drop_last()), bs.last())
    }
}

pub open spec fn blockers_of(v: Seq<RawBlocker>) -> Seq<(Option<Seq<char>>, Option<Seq<char>>, Option<Seq<char>>)> {
    v.map_values(|b: RawBlocker| raw_blocker_view(b))
}

fn insert_blocker_exec(items: &mut Vec<RawBlocker>, x: RawBlocker)
    ensures
        blockers_of(final(items)@) == insert_blocker(blockers_of(old(items)@), raw_blocker_view(x)),
{
    let ghost o = blockers_of(items@);
    let ghost xv = raw_blocker_view(x);
    let mut k: usize = items.len();
    proof {
        assert(o.take(k as int) =~= o);
        assert(o.skip(k as int) =~= Seq::<(Option<Seq<char>>, Option<Seq<char>>, Option<Seq<char>>)>::empty());
        assert(insert_blocker(o, xv) + o.skip(k as int) =~= insert_blocker(o, xv));
    }
    while k > 0 && compare_blockers(&items[k - 1], &x) > 0
        invariant
            k <= items@.len(),
            items@ == old(items)@,
            o == blockers_of(old(items)@),
            xv == raw_blocker_view(x),
            insert_blocker(o, xv) == insert_blocker(o.take(k as int), xv) + o.skip(k as int),
        decreases k,
    {
        proof {
            let t = o.take(k as int);
            assert(t.drop_last() =~= o.take(k - 1));
            assert(t.last() == o[k - 1]);
            assert(o.skip(k - 1) =~= seq![o[k - 1]] + o.skip(k as int));
            assert(insert_blocker(t.drop_last(), xv).push(t.last()) + o.skip(k as int)
                =~= insert_blocker(t.drop_last(), xv) + o.skip(k - 1));
        }
        k = k - 1;
    }
    let ghost t = o.take(k as int);
    if k > 0 && compare_blockers(&items[k - 1], &x) == 0 {
        proof {
            assert(t.last() == o[k - 1]);
            assert(t + o.skip(k as int) =~= o);
        }
        return;
    }
    proof {
        if k > 0 {
            assert(t.last() == o[k - 1]);
        }
        assert(insert_blocker(t, xv) =~= t.push(xv));
    }
    items.insert(k, x);
    proof {
        assert(blockers_of(items@) =~= o.take(k as int).push(xv) + o.skip(k as int));
    }
}

// ---------------------------------------------------------------------------
// Connections

/// The nodes of an optional `{ "nodes": [..] }` member: none when it is absent or `null`.
pub open spec fn connection_nodes(v: JsonValue, key: Seq<char>) -> Option<Seq<JsonValue>> {
    match object_member(v, key) {
        None => Some(Seq::empty()),
        Some(JsonValue::Null) => Some(Seq::empty()),
        Some(o) => if o is Object {
            match object_member(o, "nodes"@) {
                Some(JsonValue::Array(xs)) => Some(xs@),
                _ => None,
            }
        } else {
            None
        },
    }
}

/// The connection's nodes: `Some(None)` when it is absent or `null`.
fn connection_member<'a>(v: &'a JsonValue, key: &str) -> (r: Option<Option<&'a Vec<JsonValue>>>)
    ensures
        match r {
            Some(Some(xs)) => connection_nodes(*v, key@) == Some(xs@),
            Some(None) => connection_nodes(*v, key@) == Some(Seq::<JsonValue>::empty()),
            None => connection_nodes(*v, key@) is None,
        },
{
    match json_get(v, key) {
        None => Some(None),
        Some(JsonValue::Null) => Some(None),
        Some(o) => match o {
            JsonValue::Object(_) => match json_get(o, "nodes") {
                Some(JsonValue::Array(xs)) => Some(Some(xs)),
                _ => None,
            },
            _ => None,
        },
    }
}

/// A label node's name.
pub open spec fn label_name(n: JsonValue) -> Option<Seq<char>> {
    if n is Object { text_field(n, "name"@) } else { None }
}

/// The names of the label nodes; `None` when one is malformed.
pub open spec fn label_names(nodes: Seq<JsonValue>) -> Option<Seq<Seq<char>>>
    decreases nodes.len(),
{
    if nodes.len() == 0 {
        Some(Seq::empty())
    } else {
        match (label_names(nodes.drop_last()), label_name(nodes.last())) {
            (Some(ns), Some(n)) => Some(ns.push(n)),
            _ => None,
        }
    }
}

/// The label names of an issue's `labels` connection.
pub open spec fn labels_field(v: JsonValue) -> Option<Seq<Seq<char>>> {
    match connection_nodes(v, "labels"@) {
        Some(nodes) => label_names(nodes),
        None => None,
    }
}

proof fn lemma_label_names_prefix(nodes: Seq<JsonValue>, i: int)
    requires
        0 <= i <= nodes.len(),
        label_names(nodes.take(i)) is None,
    ensures
        label_names(nodes) is None,
    decreases nodes.len() - i,
{
    if i < nodes.len() {
        assert(nodes.take(i + 1).drop_last() =~= nodes.take(i));
        lemma_label_names_prefix(nodes, i + 1);
    } else {
        assert(nodes.take(i) =~= nodes);
    }
}

proof fn lemma_label_names_step(nodes: Seq<JsonValue>, i: int)
    requires
        0 <= i < nodes.len(),
    ensures
        label_names(nodes.take(i + 1)) == match (label_names(nodes.take(i)), label_name(nodes[i])) {
            (Some(ns), Some(n)) => Some(ns.push(n)),
            _ => None::<Seq<Seq<char>>>,
        },
{
    assert(nodes.take(i + 1).drop_last() =~= nodes.take(i));
    assert(nodes.take(i + 1).last() == nodes[i]);
}

fn label_node(n: &JsonValue) -> (r: Option<String>)
    ensures
        opt_text(r) == label_name(*n),
{
    match n {
        JsonValue::Object(_) => text_member(n, "name"),
        _ => None,
    }
}

fn labels_member(v: &JsonValue) -> (r: Option<Vec<String>>)
    ensures
        match r {
            Some(names) => labels_field(*v) == Some(texts_of(names@)),
            None => labels_field(*v) is None,
        },
{
    let nodes = match connection_member(v, "labels") {
        None => return None,
        Some(None) => {
            let empty: Vec<String> = Vec::new();
            proof {
                assert(label_names(Seq::<JsonValue>::empty()) == Some(Seq::<Seq<char>>::empty()));
                assert(texts_of(empty@) =~= Seq::<Seq<char>>::empty());
            }
            return Some(empty);
        },
        Some(Some(xs)) => xs,
    };
    let mut names: Vec<String> = Vec::new();
    let mut i: usize = 0;
    proof {
        assert(nodes@.take(0) =~= Seq::<JsonValue>::empty());
        assert(texts_of(names@) =~= Seq::<Seq<char>>::empty());
    }
    while i < nodes.len()
        invariant
            i <= nodes@.len(),
            label_names(nodes@.take(i as int)) == Some(texts_of(names@)),
            connection_nodes(*v, "labels"@) == Some(nodes@),
        decreases nodes.len() - i,
    {
        proof {
            lemma_label_names_step(nodes@, i as int);
        }
        match label_node(&nodes[i]) {
            Some(n) => {
                let ghost before = texts_of(names@);
                names.push(n);
                proof {
                    assert(texts_of(names@) =~= before.push(names@.last()@));
                }
            },
            None => {
                proof {
                    lemma_label_names_prefix(nodes@, i + 1);
                }
                return None;
            },
        }
        i = i + 1;
    }
    proof {
        assert(nodes@.take(i as int) =~= nodes@);
    }
    Some(names)
}

// ---------------------------------------------------------------------------
// Relations

/// A relation node: its type and its two optional issues.
pub open spec fn relation_of(n: JsonValue) -> Option<(
    Seq<char>,
    Option<(Option<Seq<char>>, Option<Seq<char>>, Option<Seq<char>>)>,
    Option<(Option<Seq<char>>, Option<Seq<char>>, Option<Seq<char>>)>,
)> {
    if n is Object {
        match (text_field(n, "type"@), blocker_field(n, "relatedIssue"@), blocker_field(n, "issue"@)) {
            (Some(k), Some(r), Some(i)) => Some((k, r, i)),
            _ => None,
        }
    } else {
        None
    }
}

pub open spec fn or_else_blocker(
    a: Option<(Option<Seq<char>>, Option<Seq<char>>, Option<Seq<char>>)>,
    b: Option<(Option<Seq<char>>, Option<Seq<char>>, Option<Seq<char>>)>,
) -> Option<(Option<Seq<char>>, Option<Seq<char>>, Option<Seq<char>>)> {
    match a {
        Some(x) => Some(x),
        None => b,
    }
}

/// The blocker a decoded relation names. A forward relation (`inverse ==
/// false`) of type `blocked_by` or `blockedBy` names its related issue (else its
/// issue); an inverse relation of type `blocks` names its issue (else its related
/// issue).
pub open spec fn relation_named(
    rel: (Seq<char>, Option<(Option<Seq<char>>, Option<Seq<char>>, Option<Seq<char>>)>, Option<(Option<Seq<char>>, Option<Seq<char>>, Option<Seq<char>>)>),
    inverse: bool,
) -> Option<(Option<Seq<char>>, Option<Seq<char>>, Option<Seq<char>>)> {
    let (kind, related, issue) = rel;
    if inverse {
        if kind == "blocks"@ { or_else_blocker(issue, related) } else { None }
    } else {
        if kind == "blocked_by"@ || kind == "blockedBy"@ { or_else_blocker(related, issue) } else { None }
    }
}

/// The blockers that relation nodes name, in order; `None` when one is malformed.
pub open spec fn relation_blockers(nodes: Seq<JsonValue>, inverse: bool)
    -> Option<Seq<(Option<Seq<char>>, Option<Seq<char>>, Option<Seq<char>>)>>
    decreases nodes.len(),
{
    if nodes.len() == 0 {
        Some(Seq::empty())
    } else {
        match (relation_blockers(nodes.drop_last(), inverse), relation_of(nodes.last())) {
            (Some(bs), Some(rel)) => match relation_named(rel, inverse) {
                Some(b) => Some(bs.push(b)),
                None => Some(bs),
            },
            _ => None,
        }
    }
}

proof fn lemma_relation_blockers_step(nodes: Seq<JsonValue>, i: int, inverse: bool)
    requires
        0 <= i < nodes.len(),
    ensures
        relation_blockers(nodes.take(i + 1), inverse) == match (relation_blockers(nodes.take(i), inverse), relation_of(nodes[i])) {
            (Some(bs), Some(rel)) => match relation_named(rel, inverse) {
                Some(b) => Some(bs.push(b)),
                None => Some(bs),
            },
            _ => None::<Seq<(Option<Seq<char>>, Option<Seq<char>>, Option<Seq<char>>)>>,
        },
{
    assert(nodes.take(i + 1).drop_last() =~= nodes.take(i));
    assert(nodes.take(i + 1).last() == nodes[i]);
}

/// The blocker one relation node names: `None` when it is malformed, `Some(None)`
/// when it names none.
fn relation_node(n: &JsonValue, inverse: bool) -> (r: Option<Option<RawBlocker>>)
    ensures
        match r {
            None => relation_of(*n) is None,
            Some(named) => relation_of(*n) is Some && match named {
                Some(b) => relation_named(relation_of(*n)->0, inverse) == Some(raw_blocker_view(b)),
                None => relation_named(relation_of(*n)->0, inverse) is None,
            },
        },
{
    proof {
        reveal_strlit("blocks");
        reveal_strlit("blocked_by");
        reveal_strlit("blockedBy");
    }
    let (kind, related, issue) = match n {
        JsonValue::Object(_) => {
            let kind = text_member(n, "type");
            let related = blocker_member(n, "relatedIssue");
            let issue = blocker_member(n, "issue");
            match (kind, related, issue) {
                (Some(k), Some(r), Some(s)) => (k, r, s),
                _ => return None,
            }
        },
        _ => return None,
    };
    let relevant = if inverse {
        str_eq(kind.as_str(), "blocks")
    } else {
        str_eq(kind.as_str(), "blocked_by") || str_eq(kind.as_str(), "blockedBy")
    };
    if !relevant {
        return Some(None);
    }
    if inverse {
        match issue {
            Some(b) => Some(Some(b)),
            None => Some(related),
        }
    } else {
        match related {
            Some(b) => Some(Some(b)),
            None => Some(issue),
        }
    }
}

/// The blockers of an issue's relation connection.
pub open spec fn relations_field(v: JsonValue, key: Seq<char>, inverse: bool)
    -> Option<Seq<(Option<Seq<char>>, Option<Seq<char>>, Option<Seq<char>>)>> {
    match connection_nodes(v, key) {
        Some(nodes) => relation_blockers(nodes, inverse),
        None => None,
    }
}

proof fn lemma_relation_blockers_prefix(nodes: Seq<JsonValue>, i: int, inverse: bool)
    requires
        0 <= i <= nodes.len(),
        relation_blockers(nodes.take(i), inverse) is None,
    ensures
        relation_blockers(nodes, inverse) is None,
    decreases nodes.len() - i,
{
    if i < nodes.len() {
        assert(nodes.take(i + 1).drop_last() =~= nodes.take(i));
        lemma_relation_blockers_prefix(nodes, i + 1, inverse);
    } else {
        assert(nodes.take(i) =~= nodes);
    }
}

#[verifier::spinoff_prover]
#[verifier::rlimit(40)]
fn relations_member(v: &JsonValue, key: &str, inverse: bool) -> (r: Option<Vec<RawBlocker>>)
    ensures
        match r {
            Some(bs) => relations_field(*v, key@, inverse) == Some(blockers_of(bs@)),
            None => relations_field(*v, key@, inverse) is None,
        },
{
    let nodes = match connection_member(v, key) {
        None => return None,
        Some(None) => {
            let empty: Vec<RawBlocker> = Vec::new();
            proof {
                assert(blockers_of(empty@) =~= Seq::<(Option<Seq<char>>, Option<Seq<char>>, Option<Seq<char>>)>::empty());
            }
            return Some(empty);
        },
        Some(Some(xs)) => xs,
    };
    let mut out: Vec<RawBlocker> = Vec::new();
    let mut i: usize = 0;
    proof {
        assert(nodes@.take(0) =~= Seq::<JsonValue>::empty());
        assert(blockers_of(out@) =~= Seq::<(Option<Seq<char>>, Option<Seq<char>>, Option<Seq<char>>)>::empty());
    }
    while i < nodes.len()
        invariant
            i <= nodes@.len(),
            relation_blockers(nodes@.take(i as int), inverse) == Some(blockers_of(out@)),
            connection_nodes(*v, key@) == Some(nodes@),
        decreases nodes.len() - i,
    {
        proof {
            lemma_relation_blockers_step(nodes@, i as int, inverse);
        }
        match relation_node(&nodes[i], inverse) {
            None => {
                proof {
                    lemma_relation_blockers_prefix(nodes@, i + 1, inverse);
                }
                return None;
            },
            Some(Some(b)) => {
                let ghost before = blockers_of(out@);
                out.push(b);
                proof {
                    assert(blockers_of(out@) =~= before.push(raw_blocker_view(out@.last())));
                }
            },
            Some(None) => {},
        }
        i = i + 1;
    }
    proof {
        assert(nodes@.take(i as int) =~= nodes@);
    }
    Some(out)
}


// ---------------------------------------------------------------------------
// Issues

/// An issue as decoded, before normalization.
#[verifier::ext_equal]
pub struct RawIssueView {
    pub id: Seq<char>,
    pub identifier: Seq<char>,
    pub title: Seq<char>,
    pub description: Option<Seq<char>>,
    pub priority: Option<i64>,
    pub state: Seq<char>,
    pub branch_name: Option<Seq<char>>,
    pub url: Option<Seq<char>>,
    pub label_names: Seq<Seq<char>>,
    pub blockers: Seq<(Option<Seq<char>>, Option<Seq<char>>, Option<Seq<char>>)>,
    pub created_at: Option<Seq<char>>,
    pub updated_at: Option<Seq<char>>,
}

/// An issue node decoded; `None` when a member is missing or has the wrong type.
/// The blockers are those of `relations`, then those of `inverseRelations`.
#[verifier::opaque]
pub open spec fn decode_issue(v: JsonValue) -> Option<RawIssueView> {
    if text_field(v, "id"@) is Some && text_field(v, "identifier"@) is Some && text_field(v, "title"@) is Some
        && opt_text_field(v, "description"@) is Some && opt_i64_field(v, "priority"@) is Some
        && name_field(v, "state"@) is Some && opt_text_field(v, "branchName"@) is Some
        && opt_text_field(v, "url"@) is Some && labels_field(v) is Some
        && relations_field(v, "relations"@, false) is Some && relations_field(v, "inverseRelations"@, true) is Some
        && opt_text_field(v, "createdAt"@) is Some && opt_text_field(v, "updatedAt"@) is Some {
        Some(RawIssueView {
            id: text_field(v, "id"@)->0,
            identifier: text_field(v, "identifier"@)->0,
            title: text_field(v, "title"@)->0,
            description: opt_text_field(v, "description"@)->0,
            priority: opt_i64_field(v, "priority"@)->0,
            state: name_field(v, "state"@)->0,
            branch_name: opt_text_field(v, "branchName"@)->0,
            url: opt_text_field(v, "url"@)->0,
            label_names: labels_field(v)->0,
            blockers: relations_field(v, "relations"@, false)->0 + relations_field(v, "inverseRelations"@, true)->0,
            created_at: opt_text_field(v, "createdAt"@)->0,
            updated_at: opt_text_field(v, "updatedAt"@)->0,
        })
    } else {
        None
    }
}

struct RawIssue {
    id: String,
    identifier: String,
    title: String,
    description: Option<String>,
    priority: Option<i64>,
    state: String,
    branch_name: Option<String>,
    url: Option<String>,
    label_names: Vec<String>,
    blockers: Vec<RawBlocker>,
    created_at: Option<String>,
    updated_at: Option<String>,
}

spec fn raw_view(r: RawIssue) -> RawIssueView {
    RawIssueView {
        id: r.id@,
        identifier: r.identifier@,
        title: r.title@,
        description: opt_text(r.description),
        priority: r.priority,
        state: r.state@,
        branch_name: opt_text(r.branch_name),
        url: opt_text(r.url),
        label_names: texts_of(r.label_names@),
        blockers: blockers_of(r.blockers@),
        created_at: opt_text(r.created_at),
        updated_at: opt_text(r.updated_at),
    }
}

fn decode_issue_node(v: &JsonValue) -> (r: Option<RawIssue>)
    ensures
        match r {
            Some(x) => decode_issue(*v) == Some(raw_view(x)),
            None => decode_issue(*v) is None,
        },
{
    proof {
        reveal(decode_issue);
    }
    let id = match text_member(v, "id") { Some(x) => x, None => return None };
    let identifier = match text_member(v, "identifier") { Some(x) => x, None => return None };
    let title = match text_member(v, "title") { Some(x) => x, None => return None };
    let description = match opt_text_member(v, "description") { Some(x) => x, None => return None };
    let priority = match opt_i64_member(v, "priority") { Some(x) => x, None => return None };
    let state = match name_member(v, "state") { Some(x) => x, None => return None };
    let branch_name = match opt_text_member(v, "branchName") { Some(x) => x, None => return None };
    let url = match opt_text_member(v, "url") { Some(x) => x, None => return None };
    let label_names = match labels_member(v) { Some(x) => x, None => return None };
    let mut blockers = match relations_member(v, "relations", false) { Some(x) => x, None => return None };
    let mut inverse = match relations_member(v, "inverseRelations", true) { Some(x) => x, None => return None };
    let created_at = match opt_text_member(v, "createdAt") { Some(x) => x, None => return None };
    let updated_at = match opt_text_member(v, "updatedAt") { Some(x) => x, None => return None };
    let ghost forward = blockers_of(blockers@);
    let ghost backward = blockers_of(inverse@);
    blockers.append(&mut inverse);
    proof {
        assert(blockers_of(blockers@) =~= forward + backward);
    }
    let raw = RawIssue {
        id, identifier, title, description, priority, state, branch_name, url, label_names, blockers, created_at, updated_at,
    };
    proof {
        reveal(decode_issue);
        assert(decode_issue(*v) == Some(raw_view(raw)));
    }
    Some(raw)
}

/// A normalized issue, as plain values.
#[verifier::ext_equal]
pub struct IssueView {
    pub id: Seq<char>,
    pub identifier: Seq<char>,
    pub title: Seq<char>,
    pub description: Option<Seq<char>>,
    pub priority: Option<i64>,
    pub state: Seq<char>,
    pub branch_name: Option<Seq<char>>,
    pub url: Option<Seq<char>>,
    pub labels: Seq<Seq<char>>,
    pub blocked_by: Seq<(Option<Seq<char>>, Option<Seq<char>>, Option<Seq<char>>)>,
    pub created_at: Option<Seq<char>>,
    pub updated_at: Option<Seq<char>>,
}

pub open spec fn blocker_view(b: AutomationIssueBlocker) -> (Option<Seq<char>>, Option<Seq<char>>, Option<Seq<char>>) {
    (opt_text(b.id), opt_text(b.identifier), opt_text(b.state))
}

pub open spec fn issue_view(i: AutomationIssue) -> IssueView {
    IssueView {
        id: i.id@,
        identifier: i.identifier@,
        title: i.title@,
        description: opt_text(i.description),
        priority: i.priority,
        state: i.state@,
        branch_name: opt_text(i.branch_name),
        url: opt_text(i.url),
        labels: texts_of(i.labels@),
        blocked_by: i.blocked_by@.map_values(|b: AutomationIssueBlocker| blocker_view(b)),
        created_at: opt_text(i.created_at),
        updated_at: opt_text(i.updated_at),
    }
}

/// Trimmed, and absent when blank.
pub open spec fn nonempty_text(s: Seq<char>) -> Option<Seq<char>> {
    if trim_seq(s).len() == 0 { None } else { Some(trim_seq(s)) }
}

pub open spec fn trimmed_opt(o: Option<Seq<char>>) -> Option<Seq<char>> {
    match o {
        Some(s) => nonempty_text(s),
        None => None,
    }
}

pub open spec fn normalized_blocker(b: (Option<Seq<char>>, Option<Seq<char>>, Option<Seq<char>>))
    -> (Option<Seq<char>>, Option<Seq<char>>, Option<Seq<char>>) {
    (trimmed_opt(b.0), trimmed_opt(b.1), trimmed_opt(b.2))
}

/// Normalizing keeps every positive priority as it is, and drops only a
/// priority that is absent, zero or negative.
pub proof fn lemma_normalize_keeps_positive_priority(raw: RawIssueView)
    ensures
        normalize_spec(raw) matches Ok(v) ==> {
            &&& forall|p: i64| raw.priority == Some(p) && p > 0 ==> v.priority == Some(p)
            &&& forall|p: i64| raw.priority == Some(p) && p <= 0 ==> v.priority is None
            &&& raw.priority is None ==> v.priority is None
        },
{
}

/// A decoded issue normalized: its id, identifier, title and state trimmed and
/// required; optional text trimmed and dropped when blank; only a positive
/// priority kept; labels and blockers as ordered sets.
pub open spec fn normalize_spec(raw: RawIssueView) -> Result<IssueView, Seq<char>> {
    if nonempty_text(raw.id) is None {
        Err("`id` is empty"@)
    } else if nonempty_text(raw.identifier) is None {
        Err("`identifier` is empty"@)
    } else if nonempty_text(raw.title) is None {
        Err("`title` is empty"@)
    } else if nonempty_text(raw.state) is None {
        Err("`state.name` is empty"@)
    } else {
        Ok(IssueView {
            id: trim_seq(raw.id),
            identifier: trim_seq(raw.identifier),
            title: trim_seq(raw.title),
            description: trimmed_opt(raw.description),
            priority: match raw.priority {
                Some(p) => if p > 0 { Some(p) } else { None },
                None => None,
            },
            state: trim_seq(raw.state),
            branch_name: trimmed_opt(raw.branch_name),
            url: trimmed_opt(raw.url),
            labels: label_set(raw.label_names),
            blocked_by: blocker_set(raw.blockers).map_values(|b: (Option<Seq<char>>, Option<Seq<char>>, Option<Seq<char>>)| normalized_blocker(b)),
            created_at: trimmed_opt(raw.created_at),
            updated_at: trimmed_opt(raw.updated_at),
        })
    }
}

fn nonempty_opt(s: &String) -> (r: Option<String>)
    ensures
        opt_text(r) == nonempty_text(s@),
{
    let t = trim(s.as_str());
    if crate::text::str_chars(t.as_str()).len() == 0 {
        None
    } else {
        Some(t)
    }
}

fn trimmed_option(o: &Option<String>) -> (r: Option<String>)
    ensures
        opt_text(r) == trimmed_opt(opt_text(*o)),
{
    match o {
        Some(s) => nonempty_opt(s),
        None => None,
    }
}

fn label_set_exec(names: &Vec<String>) -> (r: Vec<String>)
    ensures
        texts_of(r@) == label_set(texts_of(names@)),
{
    let ghost ns = texts_of(names@);
    let mut out: Vec<String> = Vec::new();
    let mut i: usize = 0;
    proof {
        assert(ns.take(0) =~= Seq::<Seq<char>>::empty());
        assert(texts_of(out@) =~= Seq::<Seq<char>>::empty());
    }
    while i < names.len()
        invariant
            i <= names@.len(),
            ns == texts_of(names@),
            texts_of(out@) == label_set(ns.take(i as int)),
        decreases names.len() - i,
    {
        proof {
            assert(ns.take(i + 1).drop_last() =~= ns.take(i as int));
            assert(ns.take(i + 1).last() == names@[i as int]@);
        }
        let key = to_ascii_lowercase(trim(names[i].as_str()).as_str());
        if crate::text::str_chars(key.as_str()).len() != 0 {
            insert_label_exec(&mut out, key);
        }
        i = i + 1;
    }
    proof {
        assert(ns.take(i as int) =~= ns);
    }
    out
}

fn copy_blocker(b: &RawBlocker) -> (r: RawBlocker)
    ensures
        raw_blocker_view(r) == raw_blocker_view(*b),
{
    RawBlocker {
        id: crate::automation_run::copy_optional_text(&b.id),
        identifier: crate::automation_run::copy_optional_text(&b.identifier),
        state: crate::automation_run::copy_optional_text(&b.state),
    }
}

fn blocked_by_exec(blockers: &Vec<RawBlocker>) -> (r: Vec<AutomationIssueBlocker>)
    ensures
        r@.map_values(|b: AutomationIssueBlocker| blocker_view(b)) == blocker_set(blockers_of(blockers@)).map_values(
            |b: (Option<Seq<char>>, Option<Seq<char>>, Option<Seq<char>>)| normalized_blocker(b),
        ),
{
    let ghost bs = blockers_of(blockers@);
    let mut set: Vec<RawBlocker> = Vec::new();
    let mut i: usize = 0;
    proof {
        assert(bs.take(0) =~= Seq::<(Option<Seq<char>>, Option<Seq<char>>, Option<Seq<char>>)>::empty());
        assert(blockers_of(set@) =~= Seq::<(Option<Seq<char>>, Option<Seq<char>>, Option<Seq<char>>)>::empty());
    }
    while i < blockers.len()
        invariant
            i <= blockers@.len(),
            bs == blockers_of(blockers@),
            blockers_of(set@) == blocker_set(bs.take(i as int)),
        decreases blockers.len() - i,
    {
        proof {
            assert(bs.take(i + 1).drop_last() =~= bs.take(i as int));
            assert(bs.take(i + 1).last() == raw_blocker_view(blockers@[i as int]));
        }
        insert_blocker_exec(&mut set, copy_blocker(&blockers[i]));
        i = i + 1;
    }
    proof {
        assert(bs.take(i as int) =~= bs);
    }
    let ghost sv = blockers_of(set@);
    let mut out: Vec<AutomationIssueBlocker> = Vec::new();
    let mut j: usize = 0;
    while j < set.len()
        invariant
            j <= set@.len(),
            sv == blockers_of(set@),
            out@.len() == j,
            forall|k: int| 0 <= k < j ==> #[trigger] blocker_view(out@[k]) == normalized_blocker(sv[k]),
        decreases set.len() - j,
    {
        let b = AutomationIssueBlocker {
            id: trimmed_option(&set[j].id),
            identifier: trimmed_option(&set[j].identifier),
            state: trimmed_option(&set[j].state),
        };
        out.push(b);
        proof {
            assert(blocker_view(out@[j as int]) == normalized_blocker(sv[j as int]));
        }
        j = j + 1;
    }
    proof {
        assert(out@.map_values(|b: AutomationIssueBlocker| blocker_view(b)) =~= sv.map_values(
            |b: (Option<Seq<char>>, Option<Seq<char>>, Option<Seq<char>>)| normalized_blocker(b),
        ));
    }
    out
}

fn field_empty(field: &str) -> (r: LinearReadError)
    ensures
        failure_view(r) == LinearFailure::InvalidData("`"@ + field@ + "` is empty"@),
{
    let mut m = to_owned_string("`");
    push_str(&mut m, field);
    push_str(&mut m, "` is empty");
    LinearReadError::InvalidData(m)
}

fn normalize_issue(raw: &RawIssue) -> (r: Result<AutomationIssue, LinearReadError>)
    ensures
        match normalize_spec(raw_view(*raw)) {
            Ok(iv) => r matches Ok(i) && issue_view(i) == iv,
            Err(m) => r matches Err(e) && failure_view(e) == LinearFailure::InvalidData(m),
        },
{
    proof {
        reveal_strlit("id");
        reveal_strlit("identifier");
        reveal_strlit("title");
        reveal_strlit("state.name");
        reveal_strlit("`");
        reveal_strlit("` is empty");
        reveal_strlit("`id` is empty");
        reveal_strlit("`identifier` is empty");
        reveal_strlit("`title` is empty");
        reveal_strlit("`state.name` is empty");
    }
    let id = match nonempty_opt(&raw.id) {
        Some(x) => x,
        None => {
            let e = field_empty("id");
            proof {
                assert("`"@ + "id"@ + "` is empty"@ =~= "`id` is empty"@);
            }
            return Err(e);
        },
    };
    let identifier = match nonempty_opt(&raw.identifier) {
        Some(x) => x,
        None => {
            let e = field_empty("identifier");
            proof {
                assert("`"@ + "identifier"@ + "` is empty"@ =~= "`identifier` is empty"@);
            }
            return Err(e);
        },
    };
    let title = match nonempty_opt(&raw.title) {
        Some(x) => x,
        None => {
            let e = field_empty("title");
            proof {
                assert("`"@ + "title"@ + "` is empty"@ =~= "`title` is empty"@);
            }
            return Err(e);
        },
    };
    let state = match nonempty_opt(&raw.state) {
        Some(x) => x,
        None => {
            let e = field_empty("state.name");
            proof {
                assert("`"@ + "state.name"@ + "` is empty"@ =~= "`state.name` is empty"@);
            }
            return Err(e);
        },
    };
    let priority = match raw.priority {
        Some(p) => if p > 0 { Some(p) } else { None },
        None => None,
    };
    let issue = AutomationIssue {
        id,
        identifier,
        title,
        description: trimmed_option(&raw.description),
        priority,
        state,
        branch_name: trimmed_option(&raw.branch_name),
        url: trimmed_option(&raw.url),
        labels: label_set_exec(&raw.label_names),
        blocked_by: blocked_by_exec(&raw.blockers),
        created_at: trimmed_option(&raw.created_at),
        updated_at: trimmed_option(&raw.updated_at),
    };
    proof {
        assert(issue_view(issue) =~= normalize_spec(raw_view(*raw))->Ok_0);
    }
    Ok(issue)
}


// ---------------------------------------------------------------------------
// Pages

/// The issue nodes decoded; `None` when one is malformed.
pub open spec fn decode_issues(nodes: Seq<JsonValue>) -> Option<Seq<RawIssueView>>
    decreases nodes.len(),
{
    if nodes.len() == 0 {
        Some(Seq::empty())
    } else {
        match (decode_issues(nodes.drop_last()), decode_issue(nodes.last())) {
            (Some(rs), Some(r)) => Some(rs.push(r)),
            _ => None,
        }
    }
}

/// `pageInfo`: whether another page follows, and its cursor.
pub open spec fn page_info(c: JsonValue) -> Option<(bool, Option<Seq<char>>)> {
    match object_member(c, "pageInfo"@) {
        Some(p) => if p is Object {
            match (bool_field(p, "hasNextPage"@), opt_text_field(p, "endCursor"@)) {
                (Some(b), Some(cursor)) => Some((b, cursor)),
                _ => None,
            }
        } else {
            None
        },
        None => None,
    }
}

/// An issue connection decoded: its nodes and page info.
pub open spec fn decode_page(c: JsonValue) -> Option<(Seq<RawIssueView>, bool, Option<Seq<char>>)> {
    match object_member(c, "nodes"@) {
        Some(JsonValue::Array(xs)) => match (decode_issues(xs@), page_info(c)) {
            (Some(raws), Some((more, cursor))) => Some((raws, more, cursor)),
            _ => None,
        },
        _ => None,
    }
}

/// The first normalization failure among decoded issues, in order.
pub open spec fn first_failure(raws: Seq<RawIssueView>) -> Option<Seq<char>>
    decreases raws.len(),
{
    if raws.len() == 0 {
        None
    } else {
        match first_failure(raws.drop_last()) {
            Some(m) => Some(m),
            None => match normalize_spec(raws.last()) {
                Err(m) => Some(m),
                Ok(_) => None,
            },
        }
    }
}

/// `sorted` with `x` inserted after every issue whose identifier is not greater.
pub open spec fn insert_issue(sorted: Seq<IssueView>, x: IssueView) -> Seq<IssueView>
    decreases sorted.len(),
{
    if sorted.len() == 0 {
        seq![x]
    } else if text_order(sorted.last().identifier, x.identifier) > 0 {
        insert_issue(sorted.drop_last(), x).push(sorted.last())
    } else {
        sorted.push(x)
    }
}

/// The issues stably sorted by identifier.
pub open spec fn sort_issues(s: Seq<IssueView>) -> Seq<IssueView>
    decreases s.len(),
{
    if s.len() == 0 {
        s
    } else {
        insert_issue(sort_issues(s.drop_last()), s.last())
    }
}

/// The normalized issues of decoded issues that all normalize.
pub open spec fn normalized_issues(raws: Seq<RawIssueView>) -> Seq<IssueView> {
    raws.map_values(|r: RawIssueView| normalize_spec(r)->Ok_0)
}

pub struct PageView {
    pub issues: Seq<IssueView>,
    pub has_next_page: bool,
    pub end_cursor: Option<Seq<char>>,
}

pub open spec fn issues_of(v: Seq<AutomationIssue>) -> Seq<IssueView> {
    v.map_values(|i: AutomationIssue| issue_view(i))
}

pub open spec fn page_view(p: LinearIssuePage) -> PageView {
    PageView { issues: issues_of(p.issues@), has_next_page: p.has_next_page, end_cursor: opt_text(p.end_cursor) }
}

/// The message of a node that does not have the shape of an issue page.
pub open spec fn shape_message() -> Seq<char> {
    "response does not have the shape of a Linear issue page"@
}

/// What normalizing a page response gives.
pub open spec fn page_spec(response: JsonValue) -> Result<PageView, LinearFailure> {
    match graphql_failure(response) {
        Some(m) => Err(LinearFailure::GraphQl(m)),
        None => match issues_connection(response) {
            None => Err(LinearFailure::MissingData),
            Some(c) => match decode_page(c) {
                None => Err(LinearFailure::InvalidData(shape_message())),
                Some((raws, more, cursor)) => match first_failure(raws) {
                    Some(m) => Err(LinearFailure::InvalidData(m)),
                    None => Ok(PageView {
                        issues: sort_issues(normalized_issues(raws)),
                        has_next_page: more,
                        end_cursor: match cursor {
                            Some(t) => if t.len() > 0 { Some(t) } else { None },
                            None => None,
                        },
                    }),
                },
            },
        },
    }
}

/// What normalizing a single-issue response (`/data/issue`) gives.
pub open spec fn issue_spec(response: JsonValue) -> Result<IssueView, LinearFailure> {
    match graphql_failure(response) {
        Some(m) => Err(LinearFailure::GraphQl(m)),
        None => match object_member(response, "data"@) {
            None => Err(LinearFailure::MissingData),
            Some(data) => match object_member(data, "issue"@) {
                None => Err(LinearFailure::MissingData),
                Some(v) => match decode_issue(v) {
                    None => Err(LinearFailure::InvalidData(shape_message())),
                    Some(raw) => match normalize_spec(raw) {
                        Err(m) => Err(LinearFailure::InvalidData(m)),
                        Ok(iv) => Ok(iv),
                    },
                },
            },
        },
    }
}

fn insert_issue_exec(items: &mut Vec<AutomationIssue>, x: AutomationIssue)
    ensures
        issues_of(final(items)@) == insert_issue(issues_of(old(items)@), issue_view(x)),
{
    let ghost o = issues_of(items@);
    let ghost xv = issue_view(x);
    let mut k: usize = items.len();
    proof {
        assert(o.take(k as int) =~= o);
        assert(insert_issue(o, xv) + o.skip(k as int) =~= insert_issue(o, xv));
    }
    while k > 0 && compare_text(items[k - 1].identifier.as_str(), x.identifier.as_str()) > 0
        invariant
            k <= items@.len(),
            items@ == old(items)@,
            o == issues_of(old(items)@),
            xv == issue_view(x),
            insert_issue(o, xv) == insert_issue(o.take(k as int), xv) + o.skip(k as int),
        decreases k,
    {
        proof {
            let t = o.take(k as int);
            assert(t.drop_last() =~= o.take(k - 1));
            assert(t.last() == o[k - 1]);
            assert(o.skip(k - 1) =~= seq![o[k - 1]] + o.skip(k as int));
            assert(insert_issue(t.drop_last(), xv).push(t.last()) + o.skip(k as int)
                =~= insert_issue(t.drop_last(), xv) + o.skip(k - 1));
        }
        k = k - 1;
    }
    proof {
        let t = o.take(k as int);
        if k > 0 {
            assert(t.last() == o[k - 1]);
        }
        assert(insert_issue(t, xv) =~= t.push(xv));
    }
    items.insert(k, x);
    proof {
        assert(issues_of(items@) =~= o.take(k as int).push(xv) + o.skip(k as int));
    }
}

spec fn raws_of(v: Seq<RawIssue>) -> Seq<RawIssueView> {
    v.map_values(|r: RawIssue| raw_view(r))
}

proof fn lemma_decode_issues_prefix(nodes: Seq<JsonValue>, i: int)
    requires
        0 <= i <= nodes.len(),
        decode_issues(nodes.take(i)) is None,
    ensures
        decode_issues(nodes) is None,
    decreases nodes.len() - i,
{
    if i < nodes.len() {
        assert(nodes.take(i + 1).drop_last() =~= nodes.take(i));
        lemma_decode_issues_prefix(nodes, i + 1);
    } else {
        assert(nodes.take(i) =~= nodes);
    }
}

fn decode_issue_nodes(nodes: &Vec<JsonValue>) -> (r: Option<Vec<RawIssue>>)
    ensures
        match r {
            Some(raws) => decode_issues(nodes@) == Some(raws_of(raws@)),
            None => decode_issues(nodes@) is None,
        },
{
    let mut out: Vec<RawIssue> = Vec::new();
    let mut i: usize = 0;
    proof {
        assert(nodes@.take(0) =~= Seq::<JsonValue>::empty());
        assert(raws_of(out@) =~= Seq::<RawIssueView>::empty());
    }
    while i < nodes.len()
        invariant
            i <= nodes@.len(),
            decode_issues(nodes@.take(i as int)) == Some(raws_of(out@)),
        decreases nodes.len() - i,
    {
        proof {
            assert(nodes@.take(i + 1).drop_last() =~= nodes@.take(i as int));
            assert(nodes@.take(i + 1).last() == nodes@[i as int]);
        }
        match decode_issue_node(&nodes[i]) {
            Some(raw) => {
                let ghost before = raws_of(out@);
                out.push(raw);
                proof {
                    assert(raws_of(out@) =~= before.push(raw_view(out@.last())));
                }
            },
            None => {
                proof {
                    lemma_decode_issues_prefix(nodes@, i + 1);
                }
                return None;
            },
        }
        i = i + 1;
    }
    proof {
        assert(nodes@.take(i as int) =~= nodes@);
    }
    Some(out)
}

proof fn lemma_first_failure_prefix(raws: Seq<RawIssueView>, i: int)
    requires
        0 <= i <= raws.len(),
        first_failure(raws.take(i)) is Some,
    ensures
        first_failure(raws) == first_failure(raws.take(i)),
    decreases raws.len() - i,
{
    if i < raws.len() {
        assert(raws.take(i + 1).drop_last() =~= raws.take(i));
        lemma_first_failure_prefix(raws, i + 1);
    } else {
        assert(raws.take(i) =~= raws);
    }
}

/// The decoded issues normalized and sorted by identifier; the first failure stops.
fn normalize_and_sort(raws: &Vec<RawIssue>) -> (r: Result<Vec<AutomationIssue>, LinearReadError>)
    ensures
        match first_failure(raws_of(raws@)) {
            Some(m) => r matches Err(e) && failure_view(e) == LinearFailure::InvalidData(m),
            None => r matches Ok(issues) && issues_of(issues@) == sort_issues(normalized_issues(raws_of(raws@))),
        },
{
    let ghost rs = raws_of(raws@);
    let mut sorted: Vec<AutomationIssue> = Vec::new();
    let mut i: usize = 0;
    proof {
        assert(rs.take(0) =~= Seq::<RawIssueView>::empty());
        assert(issues_of(sorted@) =~= Seq::<IssueView>::empty());
        assert(normalized_issues(rs.take(0)) =~= Seq::<IssueView>::empty());
    }
    while i < raws.len()
        invariant
            i <= raws@.len(),
            rs == raws_of(raws@),
            first_failure(rs.take(i as int)) is None,
            issues_of(sorted@) == sort_issues(normalized_issues(rs.take(i as int))),
        decreases raws.len() - i,
    {
        let ghost t = rs.take(i + 1);
        proof {
            assert(t.drop_last() =~= rs.take(i as int));
            assert(t.last() == raw_view(raws@[i as int]));
        }
        match normalize_issue(&raws[i]) {
            Err(e) => {
                proof {
                    lemma_first_failure_prefix(rs, i + 1);
                }
                return Err(e);
            },
            Ok(issue) => {
                proof {
                    assert(normalized_issues(t).drop_last() =~= normalized_issues(rs.take(i as int)));
                    assert(normalized_issues(t).last() == issue_view(issue));
                }
                insert_issue_exec(&mut sorted, issue);
            },
        }
        i = i + 1;
    }
    proof {
        assert(rs.take(i as int) =~= rs);
    }
    Ok(sorted)
}

/// One page of a project's (or the workspace's) issues, normalized and ordered by identifier.
pub fn normalize_linear_issue_page(response: &JsonValue) -> (r: Result<LinearIssuePage, LinearReadError>)
    ensures
        match page_spec(*response) {
            Ok(pv) => r matches Ok(p) && page_view(p) == pv,
            Err(f) => r matches Err(e) && failure_view(e) == f,
        },
{
    reject_graphql_errors(response)?;
    let connection = match find_issues_connection(response) {
        Some(c) => c,
        None => return Err(LinearReadError::MissingData),
    };
    let shape = to_owned_string("response does not have the shape of a Linear issue page");
    let nodes = match json_get(connection, "nodes") {
        Some(JsonValue::Array(xs)) => xs,
        _ => return Err(LinearReadError::InvalidData(shape)),
    };
    let raws = match decode_issue_nodes(nodes) {
        Some(raws) => raws,
        None => return Err(LinearReadError::InvalidData(shape)),
    };
    let info = match json_get(connection, "pageInfo") {
        Some(p) => match p {
            JsonValue::Object(_) => p,
            _ => return Err(LinearReadError::InvalidData(shape)),
        },
        None => return Err(LinearReadError::InvalidData(shape)),
    };
    let has_next_page = match bool_member(info, "hasNextPage") {
        Some(b) => b,
        None => return Err(LinearReadError::InvalidData(shape)),
    };
    let cursor = match opt_text_member(info, "endCursor") {
        Some(c) => c,
        None => return Err(LinearReadError::InvalidData(shape)),
    };
    let issues = normalize_and_sort(&raws)?;
    let end_cursor = match cursor {
        Some(t) => if crate::text::str_chars(t.as_str()).len() > 0 { Some(t) } else { None },
        None => None,
    };
    Ok(LinearIssuePage { issues, has_next_page, end_cursor })
}

/// One issue (`/data/issue`), normalized, as a refresh reads it.
pub fn normalize_linear_issue(response: &JsonValue) -> (r: Result<AutomationIssue, LinearReadError>)
    ensures
        match issue_spec(*response) {
            Ok(iv) => r matches Ok(i) && issue_view(i) == iv,
            Err(f) => r matches Err(e) && failure_view(e) == f,
        },
{
    reject_graphql_errors(response)?;
    let data = match json_get(response, "data") {
        Some(d) => d,
        None => return Err(LinearReadError::MissingData),
    };
    let node = match json_get(data, "issue") {
        Some(v) => v,
        None => return Err(LinearReadError::MissingData),
    };
    let raw = match decode_issue_node(node) {
        Some(raw) => raw,
        None => return Err(LinearReadError::InvalidData(to_owned_string("response does not have the shape of a Linear issue page"))),
    };
    normalize_issue(&raw)
}


// ---------------------------------------------------------------------------
// Laws

proof fn lemma_insert_label_has_key(sorted: Seq<Seq<char>>, k: Seq<char>)
    ensures
        insert_label(sorted, k).contains(k),
    decreases sorted.len(),
{
    let r = insert_label(sorted, k);
    if sorted.len() == 0 {
        assert(r[0] == k);
    } else if text_order(sorted.last(), k) > 0 {
        lemma_insert_label_has_key(sorted.drop_last(), k);
        let p = insert_label(sorted.drop_last(), k);
        let i = choose|i: int| 0 <= i < p.len() && p[i] == k;
        assert(r[i] == k);
    } else if text_order(sorted.last(), k) == 0 {
        crate::order::lemma_text_order_eq(sorted.last(), k);
        assert(r[r.len() - 1] == k);
    } else {
        assert(r[r.len() - 1] == k);
    }
}

proof fn lemma_insert_label_elems(sorted: Seq<Seq<char>>, k: Seq<char>)
    ensures
        forall|x: Seq<char>| insert_label(sorted, k).contains(x) <==> (sorted.contains(x) || x == k),
    decreases sorted.len(),
{
    let r = insert_label(sorted, k);
    if sorted.len() == 0 {
        assert forall|x: Seq<char>| r.contains(x) <==> (sorted.contains(x) || x == k) by {
            if r.contains(x) {
                assert(r[0] == k);
            }
            if x == k {
                assert(r[0] == x);
            }
        }
    } else if text_order(sorted.last(), k) > 0 {
        lemma_insert_label_elems(sorted.drop_last(), k);
        let p = insert_label(sorted.drop_last(), k);
        assert forall|x: Seq<char>| r.contains(x) <==> (sorted.contains(x) || x == k) by {
            if r.contains(x) {
                let i = choose|i: int| 0 <= i < r.len() && r[i] == x;
                if i < p.len() {
                    assert(p.contains(x));
                    if sorted.drop_last().contains(x) {
                        let j = choose|j: int| 0 <= j < sorted.drop_last().len() && sorted.drop_last()[j] == x;
                        assert(sorted[j] == x);
                    }
                } else {
                    assert(x == sorted.last());
                    assert(sorted[sorted.len() - 1] == x);
                }
            }
            if sorted.contains(x) {
                let j = choose|j: int| 0 <= j < sorted.len() && sorted[j] == x;
                if j < sorted.len() - 1 {
                    assert(sorted.drop_last()[j] == x);
                    assert(sorted.drop_last().contains(x));
                    assert(insert_label(sorted.drop_last(), k).contains(x) <==> (sorted.drop_last().contains(x) || x == k));
                    assert(p.contains(x));
                    let i = choose|i: int| 0 <= i < p.len() && p[i] == x;
                    assert(r[i] == x);
                } else {
                    assert(r[r.len() - 1] == x);
                }
            }
            if x == k {
                lemma_insert_label_has_key(sorted.drop_last(), k);
                assert(p.contains(x));
                let i = choose|i: int| 0 <= i < p.len() && p[i] == x;
                assert(r[i] == x);
            }
        }
    } else if text_order(sorted.last(), k) == 0 {
        crate::order::lemma_text_order_eq(sorted.last(), k);
        assert forall|x: Seq<char>| r.contains(x) <==> (sorted.contains(x) || x == k) by {
            if x == k {
                assert(sorted[sorted.len() - 1] == x);
            }
        }
    } else {
        assert forall|x: Seq<char>| r.contains(x) <==> (sorted.contains(x) || x == k) by {
            if r.contains(x) {
                let i = choose|i: int| 0 <= i < r.len() && r[i] == x;
                if i < sorted.len() {
                    assert(sorted[i] == x);
                }
            }
            if sorted.contains(x) {
                let j = choose|j: int| 0 <= j < sorted.len() && sorted[j] == x;
                assert(r[j] == x);
            }
            if x == k {
                assert(r[r.len() - 1] == x);
            }
        }
    }
}

proof fn lemma_insert_label_ascending(sorted: Seq<Seq<char>>, k: Seq<char>)
    requires
        crate::automation_run::keys_ascending(sorted),
    ensures
        crate::automation_run::keys_ascending(insert_label(sorted, k)),
    decreases sorted.len(),
{
    let r = insert_label(sorted, k);
    if sorted.len() == 0 {
    } else if text_order(sorted.last(), k) > 0 {
        let d = sorted.drop_last();
        assert(crate::automation_run::keys_ascending(d)) by {
            assert forall|i: int, j: int| 0 <= i < j < d.len() implies text_order(#[trigger] d[i], #[trigger] d[j]) < 0 by {
                assert(d[i] == sorted[i] && d[j] == sorted[j]);
            }
        }
        lemma_insert_label_ascending(d, k);
        lemma_insert_label_elems(d, k);
        let p = insert_label(d, k);
        let last = sorted.last();
        crate::order::lemma_text_order_eq(last, k);
        assert forall|i: int, j: int| 0 <= i < j < r.len() implies text_order(#[trigger] r[i], #[trigger] r[j]) < 0 by {
            if j < p.len() {
                assert(r[i] == p[i] && r[j] == p[j]);
            } else {
                assert(r[j] == last);
                assert(r[i] == p[i]);
                assert(p.contains(p[i]));
                if d.contains(p[i]) {
                    let m = choose|m: int| 0 <= m < d.len() && d[m] == p[i];
                    assert(sorted[m] == p[i]);
                    assert(sorted[sorted.len() - 1] == last);
                } else {
                    assert(p[i] == k);
                }
            }
        }
    } else if text_order(sorted.last(), k) == 0 {
    } else {
        let last = sorted.last();
        assert forall|i: int, j: int| 0 <= i < j < r.len() implies text_order(#[trigger] r[i], #[trigger] r[j]) < 0 by {
            if j < sorted.len() {
                assert(r[i] == sorted[i] && r[j] == sorted[j]);
            } else {
                assert(r[j] == k);
                assert(r[i] == sorted[i]);
                if i < sorted.len() - 1 {
                    assert(text_order(sorted[i], sorted[sorted.len() - 1]) < 0);
                    crate::order::lemma_text_order_eq(last, k);
                    crate::order::lemma_text_order_transitive(sorted[i], last, k);
                }
            }
        }
    }
}

/// Normalized labels form a set: strictly ascending in text order, and exactly the
/// non-blank trimmed, ASCII-lowercased names.
pub proof fn lemma_label_set_normalized(names: Seq<Seq<char>>)
    ensures
        crate::automation_run::keys_ascending(label_set(names)),
        forall|x: Seq<char>| label_set(names).contains(x) <==> (x.len() > 0 && exists|i: int| 0 <= i < names.len()
            && #[trigger] label_key_of(names[i]) == x),
    decreases names.len(),
{
    if names.len() > 0 {
        let d = names.drop_last();
        lemma_label_set_normalized(d);
        let rest = label_set(d);
        let k = label_key_of(names.last());
        if k.len() > 0 {
            lemma_insert_label_ascending(rest, k);
            lemma_insert_label_elems(rest, k);
        }
        assert forall|x: Seq<char>| label_set(names).contains(x) <==> (x.len() > 0 && exists|i: int| 0 <= i < names.len()
            && #[trigger] label_key_of(names[i]) == x) by {
            if x.len() > 0 && exists|i: int| 0 <= i < names.len() && #[trigger] label_key_of(names[i]) == x {
                let i = choose|i: int| 0 <= i < names.len() && #[trigger] label_key_of(names[i]) == x;
                if i < names.len() - 1 {
                    assert(label_key_of(d[i]) == x);
                }
            }
            if rest.contains(x) {
                let i = choose|i: int| 0 <= i < d.len() && #[trigger] label_key_of(d[i]) == x;
                assert(label_key_of(names[i]) == x);
            }
        }
    }
}

/// Issues come out of a page ordered by identifier.
pub proof fn lemma_sort_issues_ordered(s: Seq<IssueView>)
    ensures
        sort_issues(s).len() == s.len(),
        forall|i: int, j: int| 0 <= i < j < sort_issues(s).len() ==> text_order(
            #[trigger] sort_issues(s)[i].identifier,
            #[trigger] sort_issues(s)[j].identifier,
        ) <= 0,
    decreases s.len(),
{
    if s.len() > 0 {
        lemma_sort_issues_ordered(s.drop_last());
        lemma_insert_issue_ordered(sort_issues(s.drop_last()), s.last());
    }
}

proof fn lemma_insert_issue_ordered(sorted: Seq<IssueView>, x: IssueView)
    requires
        forall|i: int, j: int| 0 <= i < j < sorted.len() ==> text_order(#[trigger] sorted[i].identifier, #[trigger] sorted[j].identifier) <= 0,
    ensures
        insert_issue(sorted, x).len() == sorted.len() + 1,
        forall|i: int, j: int| 0 <= i < j < insert_issue(sorted, x).len() ==> text_order(
            #[trigger] insert_issue(sorted, x)[i].identifier,
            #[trigger] insert_issue(sorted, x)[j].identifier,
        ) <= 0,
        forall|i: int| 0 <= i < insert_issue(sorted, x).len() ==> (#[trigger] insert_issue(sorted, x)[i] == x || sorted.contains(insert_issue(sorted, x)[i])),
    decreases sorted.len(),
{
    let r = insert_issue(sorted, x);
    if sorted.len() == 0 {
    } else if text_order(sorted.last().identifier, x.identifier) > 0 {
        let d = sorted.drop_last();
        assert forall|i: int, j: int| 0 <= i < j < d.len() implies text_order(#[trigger] d[i].identifier, #[trigger] d[j].identifier) <= 0 by {
            assert(d[i] == sorted[i] && d[j] == sorted[j]);
        }
        lemma_insert_issue_ordered(d, x);
        let p = insert_issue(d, x);
        let last = sorted.last();
        crate::order::lemma_text_order_eq(last.identifier, x.identifier);
        assert forall|i: int, j: int| 0 <= i < j < r.len() implies text_order(#[trigger] r[i].identifier, #[trigger] r[j].identifier) <= 0 by {
            if j < p.len() {
                assert(r[i] == p[i] && r[j] == p[j]);
            } else {
                assert(r[j] == last);
                assert(r[i] == p[i]);
                if p[i] != x {
                    assert(d.contains(p[i]));
                    let m = choose|m: int| 0 <= m < d.len() && d[m] == p[i];
                    assert(sorted[m] == p[i]);
                    assert(sorted[sorted.len() - 1] == last);
                }
            }
        }
        assert forall|i: int| 0 <= i < r.len() implies (#[trigger] r[i] == x || sorted.contains(r[i])) by {
            if i < p.len() {
                assert(r[i] == p[i]);
                if p[i] != x {
                    let m = choose|m: int| 0 <= m < d.len() && d[m] == p[i];
                    assert(sorted[m] == p[i]);
                }
            } else {
                assert(sorted[sorted.len() - 1] == r[i]);
            }
        }
    } else {
        let last = sorted.last();
        assert forall|i: int, j: int| 0 <= i < j < r.len() implies text_order(#[trigger] r[i].identifier, #[trigger] r[j].identifier) <= 0 by {
            if j < sorted.len() {
                assert(r[i] == sorted[i] && r[j] == sorted[j]);
            } else {
                assert(r[j] == x);
                assert(r[i] == sorted[i]);
                if i < sorted.len() - 1 {
                    lemma_text_order_le_transitive(sorted[i].identifier, last.identifier, x.identifier);
                }
            }
        }
        assert forall|i: int| 0 <= i < r.len() implies (#[trigger] r[i] == x || sorted.contains(r[i])) by {
            if i < sorted.len() {
                assert(sorted[i] == r[i]);
            }
        }
    }
}

proof fn lemma_text_order_le_transitive(a: Seq<char>, b: Seq<char>, c: Seq<char>)
    requires
        text_order(a, b) <= 0,
        text_order(b, c) <= 0,
    ensures
        text_order(a, c) <= 0,
{
    crate::order::lemma_text_order_eq(a, b);
    crate::order::lemma_text_order_eq(b, c);
    if text_order(a, b) < 0 && text_order(b, c) < 0 {
        crate::order::lemma_text_order_transitive(a, b, c);
    }
}

} // verus!
