//! Run inputs: JSON values as plain data, their canonical form and compact
//! text, resolution against a workflow's input definitions, and `${..}`
//! templates over resolved inputs and step outputs.
use crate::json::JsonValue;
use crate::json::json_get;
use crate::json::object_member;
use crate::order::compare_text;
use crate::order::text_order;
use crate::plan::InputDefault;
use crate::plan::InputDefinition;
use crate::plan::InputKind;
use crate::text::push_char;
use crate::text::push_str;
use crate::text::str_chars;
use crate::text::to_owned_string;
use vstd::prelude::*;

verus! {

/// A JSON value as plain values.
pub enum JsonView {
    Null,
    Bool(bool),
    Number(Seq<char>),
    Str(Seq<char>),
    Array(Seq<JsonView>),
    Object(Seq<(Seq<char>, JsonView)>),
}

pub open spec fn json_view(v: JsonValue) -> JsonView
    decreases v, 0int,
{
    match v {
        JsonValue::Null => JsonView::Null,
        JsonValue::Bool(b) => JsonView::Bool(b),
        JsonValue::Number(t) => JsonView::Number(t@),
        JsonValue::String(s) => JsonView::Str(s@),
        JsonValue::Array(xs) => JsonView::Array(items_view(xs@, xs@.len() as int)),
        JsonValue::Object(ms) => JsonView::Object(members_view(ms@, ms@.len() as int)),
    }
}

/// The views of the first `n` items.
pub open spec fn items_view(xs: Seq<JsonValue>, n: int) -> Seq<JsonView>
    decreases xs, n,
{
    if n <= 0 || n > xs.len() {
        Seq::empty()
    } else {
        items_view(xs, n - 1).push(json_view(xs[n - 1]))
    }
}

/// The views of the first `n` members.
pub open spec fn members_view(ms: Seq<(String, JsonValue)>, n: int) -> Seq<(Seq<char>, JsonView)>
    decreases ms, n,
{
    if n <= 0 || n > ms.len() {
        Seq::empty()
    } else {
        members_view(ms, n - 1).push((ms[n - 1].0@, json_view(ms[n - 1].1)))
    }
}

proof fn lemma_items_view(xs: Seq<JsonValue>, n: int)
    requires
        0 <= n <= xs.len(),
    ensures
        items_view(xs, n) =~= xs.take(n).map_values(|x: JsonValue| json_view(x)),
    decreases n,
{
    if n > 0 {
        lemma_items_view(xs, n - 1);
        assert(xs.take(n).map_values(|x: JsonValue| json_view(x)) =~= xs.take(n - 1).map_values(|x: JsonValue| json_view(x)).push(json_view(xs[n - 1])));
    }
}

proof fn lemma_members_view(ms: Seq<(String, JsonValue)>, n: int)
    requires
        0 <= n <= ms.len(),
    ensures
        members_view(ms, n) =~= ms.take(n).map_values(|m: (String, JsonValue)| (m.0@, json_view(m.1))),
    decreases n,
{
    if n > 0 {
        lemma_members_view(ms, n - 1);
        assert(ms.take(n).map_values(|m: (String, JsonValue)| (m.0@, json_view(m.1))) =~= ms.take(n - 1).map_values(
            |m: (String, JsonValue)| (m.0@, json_view(m.1)),
        ).push((ms[n - 1].0@, json_view(ms[n - 1].1))));
    }
}

pub open spec fn values_view(xs: Seq<JsonValue>) -> Seq<JsonView> {
    xs.map_values(|x: JsonValue| json_view(x))
}

pub open spec fn entries_view(ms: Seq<(String, JsonValue)>) -> Seq<(Seq<char>, JsonView)> {
    ms.map_values(|m: (String, JsonValue)| (m.0@, json_view(m.1)))
}

proof fn lemma_array_view(v: JsonValue)
    requires
        v is Array,
    ensures
        json_view(v) == JsonView::Array(values_view(v->Array_0@)),
{
    let xs = v->Array_0@;
    lemma_items_view(xs, xs.len() as int);
    assert(xs.take(xs.len() as int) =~= xs);
}

proof fn lemma_object_view(v: JsonValue)
    requires
        v is Object,
    ensures
        json_view(v) == JsonView::Object(entries_view(v->Object_0@)),
{
    let ms = v->Object_0@;
    lemma_members_view(ms, ms.len() as int);
    assert(ms.take(ms.len() as int) =~= ms);
}


pub proof fn lemma_array_view_pub(v: JsonValue)
    requires
        v is Array,
    ensures
        json_view(v) == JsonView::Array(values_view(v->Array_0@)),
{
    lemma_array_view(v);
}

pub proof fn lemma_object_view_pub(v: JsonValue)
    requires
        v is Object,
    ensures
        json_view(v) == JsonView::Object(entries_view(v->Object_0@)),
{
    lemma_object_view(v);
}

// ---------------------------------------------------------------------------
// Canonical form: object members ordered by key, recursively

pub open spec fn canonical_view(j: JsonView) -> JsonView
    decreases j, 0int,
{
    match j {
        JsonView::Array(xs) => JsonView::Array(canonical_items(xs, xs.len() as int)),
        JsonView::Object(ms) => JsonView::Object(canonical_members(ms, ms.len() as int)),
        _ => j,
    }
}

pub open spec fn canonical_items(xs: Seq<JsonView>, n: int) -> Seq<JsonView>
    decreases xs, n,
{
    if n <= 0 || n > xs.len() {
        Seq::empty()
    } else {
        canonical_items(xs, n - 1).push(canonical_view(xs[n - 1]))
    }
}

/// The first `n` members collected into a key-ordered map: a later member with
/// an existing key replaces its value.
pub open spec fn canonical_members(ms: Seq<(Seq<char>, JsonView)>, n: int) -> Seq<(Seq<char>, JsonView)>
    decreases ms, n,
{
    if n <= 0 || n > ms.len() {
        Seq::empty()
    } else {
        insert_member(canonical_members(ms, n - 1), ms[n - 1].0, canonical_view(ms[n - 1].1))
    }
}

pub open spec fn insert_member(sorted: Seq<(Seq<char>, JsonView)>, k: Seq<char>, v: JsonView) -> Seq<(Seq<char>, JsonView)>
    decreases sorted.len(),
{
    if sorted.len() == 0 {
        seq![(k, v)]
    } else if text_order(sorted.last().0, k) > 0 {
        insert_member(sorted.drop_last(), k, v).push(sorted.last())
    } else if text_order(sorted.last().0, k) == 0 {
        sorted.drop_last().push((sorted.last().0, v))
    } else {
        sorted.push((k, v))
    }
}

proof fn lemma_canonical_items(xs: Seq<JsonView>, n: int)
    requires
        0 <= n <= xs.len(),
    ensures
        canonical_items(xs, n) =~= xs.take(n).map_values(|x: JsonView| canonical_view(x)),
    decreases n,
{
    if n > 0 {
        lemma_canonical_items(xs, n - 1);
        assert(xs.take(n).map_values(|x: JsonView| canonical_view(x)) =~= xs.take(n - 1).map_values(|x: JsonView| canonical_view(x)).push(canonical_view(xs[n - 1])));
    }
}

pub(crate) fn insert_member_exec(items: &mut Vec<(String, JsonValue)>, k: String, v: JsonValue)
    ensures
        entries_view(final(items)@) == insert_member(entries_view(old(items)@), k@, json_view(v)),
{
    let ghost o = entries_view(items@);
    let ghost kv = k@;
    let ghost vv = json_view(v);
    let mut i: usize = items.len();
    proof {
        assert(o.take(i as int) =~= o);
        assert(insert_member(o, kv, vv) + o.skip(i as int) =~= insert_member(o, kv, vv));
    }
    while i > 0 && compare_text(items[i - 1].0.as_str(), k.as_str()) > 0
        invariant
            i <= items@.len(),
            items@ == old(items)@,
            o == entries_view(old(items)@),
            kv == k@,
            vv == json_view(v),
            insert_member(o, kv, vv) == insert_member(o.take(i as int), kv, vv) + o.skip(i as int),
        decreases i,
    {
        proof {
            let t = o.take(i as int);
            assert(t.drop_last() =~= o.take(i - 1));
            assert(t.last() == o[i - 1]);
            assert(o.skip(i - 1) =~= seq![o[i - 1]] + o.skip(i as int));
            assert(insert_member(t.drop_last(), kv, vv).push(t.last()) + o.skip(i as int)
                =~= insert_member(t.drop_last(), kv, vv) + o.skip(i - 1));
        }
        i = i - 1;
    }
    let ghost t = o.take(i as int);
    if i > 0 && compare_text(items[i - 1].0.as_str(), k.as_str()) == 0 {
        proof {
            assert(t.last() == o[i - 1]);
            assert(t.drop_last() =~= o.take(i - 1));
            crate::order::lemma_text_order_eq(items@[i - 1].0@, k@);
        }
        items.set(i - 1, (k, v));
        proof {
            assert(entries_view(items@) =~= o.take(i - 1).push((o[i - 1].0, vv)) + o.skip(i as int));
        }
        return;
    }
    proof {
        if i > 0 {
            assert(t.last() == o[i - 1]);
        }
        assert(insert_member(t, kv, vv) =~= t.push((kv, vv)));
    }
    items.insert(i, (k, v));
    proof {
        assert(entries_view(items@) =~= o.take(i as int).push((kv, vv)) + o.skip(i as int));
    }
}

/// The canonical form of a value: every object's members ordered by key.
pub fn canonicalize(v: &JsonValue) -> (r: JsonValue)
    ensures
        json_view(r) == canonical_view(json_view(*v)),
    decreases v,
{
    match v {
        JsonValue::Array(xs) => {
            let mut out: Vec<JsonValue> = Vec::new();
            let mut i: usize = 0;
            proof {
                lemma_array_view(*v);
            }
            let ghost xv = values_view(xs@);
            while i < xs.len()
                invariant
                    i <= xs@.len(),
                    *v == JsonValue::Array(*xs),
                    xv == values_view(xs@),
                    values_view(out@) =~= xv.take(i as int).map_values(|x: JsonView| canonical_view(x)),
                decreases xs.len() - i,
            {
                proof {
                    assert(decreases_to!(*v => (*v)->Array_0));
                    assert(decreases_to!((*v)->Array_0 => (*v)->Array_0@));
                    assert(decreases_to!((*v)->Array_0@ => (*v)->Array_0@[i as int]));
                }
                let c = canonicalize(&xs[i]);
                out.push(c);
                proof {
                    assert(xv.take(i + 1).map_values(|x: JsonView| canonical_view(x)) =~= xv.take(i as int).map_values(
                        |x: JsonView| canonical_view(x),
                    ).push(canonical_view(xv[i as int])));
                }
                i = i + 1;
            }
            let r = JsonValue::Array(out);
            proof {
                lemma_array_view(r);
                lemma_canonical_items(xv, xv.len() as int);
                assert(xv.take(xv.len() as int) =~= xv);
            }
            r
        },
        JsonValue::Object(ms) => {
            let mut out: Vec<(String, JsonValue)> = Vec::new();
            let mut i: usize = 0;
            proof {
                lemma_object_view(*v);
            }
            let ghost mv = entries_view(ms@);
            proof {
                assert(entries_view(out@) =~= Seq::<(Seq<char>, JsonView)>::empty());
            }
            while i < ms.len()
                invariant
                    i <= ms@.len(),
                    *v == JsonValue::Object(*ms),
                    mv == entries_view(ms@),
                    entries_view(out@) == canonical_members(mv, i as int),
                decreases ms.len() - i,
            {
                proof {
                    assert(decreases_to!(*v => (*v)->Object_0));
                    assert(decreases_to!((*v)->Object_0 => (*v)->Object_0@));
                    assert(decreases_to!((*v)->Object_0@ => (*v)->Object_0@[i as int]));
                    assert(decreases_to!((*v)->Object_0@[i as int] => (*v)->Object_0@[i as int].1));
                }
                let c = canonicalize(&ms[i].1);
                insert_member_exec(&mut out, ms[i].0.clone(), c);
                proof {
                    assert(mv[i as int] == (ms@[i as int].0@, json_view(ms@[i as int].1)));
                }
                i = i + 1;
            }
            let r = JsonValue::Object(out);
            proof {
                lemma_object_view(r);
            }
            r
        },
        JsonValue::Null => JsonValue::Null,
        JsonValue::Bool(b) => JsonValue::Bool(*b),
        JsonValue::Number(t) => JsonValue::Number(t.clone()),
        JsonValue::String(s) => JsonValue::String(s.clone()),
    }
}


// ---------------------------------------------------------------------------
// Compact JSON text

pub open spec fn hex_lower_digit(n: int) -> char {
    if n < 10 { ('0' as int + n) as char } else { ('a' as int + n - 10) as char }
}

/// How one character is written inside a JSON string.
pub open spec fn escape_char(c: char) -> Seq<char> {
    if c == '"' {
        seq!['\\', '"']
    } else if c == '\\' {
        seq!['\\', '\\']
    } else if c == '\u{8}' {
        seq!['\\', 'b']
    } else if c == '\u{c}' {
        seq!['\\', 'f']
    } else if c == '\n' {
        seq!['\\', 'n']
    } else if c == '\r' {
        seq!['\\', 'r']
    } else if c == '\t' {
        seq!['\\', 't']
    } else if (c as u32) < 0x20 {
        seq!['\\', 'u', '0', '0', hex_lower_digit((c as u32 / 16) as int), hex_lower_digit((c as u32 % 16) as int)]
    } else {
        seq![c]
    }
}

pub open spec fn escaped(s: Seq<char>) -> Seq<char>
    decreases s.len(),
{
    if s.len() == 0 { Seq::empty() } else { escaped(s.drop_last()) + escape_char(s.last()) }
}

pub open spec fn quoted(s: Seq<char>) -> Seq<char> {
    seq!['"'] + escaped(s) + seq!['"']
}

/// Compact JSON text: no whitespace, members in the order held.
pub open spec fn json_text(j: JsonView) -> Seq<char>
    decreases j, 0int,
{
    match j {
        JsonView::Null => seq!['n', 'u', 'l', 'l'],
        JsonView::Bool(b) => if b { seq!['t', 'r', 'u', 'e'] } else { seq!['f', 'a', 'l', 's', 'e'] },
        JsonView::Number(t) => t,
        JsonView::Str(s) => quoted(s),
        JsonView::Array(xs) => seq!['['] + items_text(xs, xs.len() as int) + seq![']'],
        JsonView::Object(ms) => seq!['{'] + members_text(ms, ms.len() as int) + seq!['}'],
    }
}

/// The first `n` items, comma-separated.
pub open spec fn items_text(xs: Seq<JsonView>, n: int) -> Seq<char>
    decreases xs, n,
{
    if n <= 0 || n > xs.len() {
        Seq::empty()
    } else if n == 1 {
        json_text(xs[0])
    } else {
        items_text(xs, n - 1) + seq![','] + json_text(xs[n - 1])
    }
}

/// The first `n` members as `"key":value`, comma-separated.
pub open spec fn members_text(ms: Seq<(Seq<char>, JsonView)>, n: int) -> Seq<char>
    decreases ms, n,
{
    if n <= 0 || n > ms.len() {
        Seq::empty()
    } else if n == 1 {
        quoted(ms[0].0) + seq![':'] + json_text(ms[0].1)
    } else {
        members_text(ms, n - 1) + seq![','] + quoted(ms[n - 1].0) + seq![':'] + json_text(ms[n - 1].1)
    }
}

fn hex_digit_char(n: u32) -> (r: char)
    requires
        n < 16,
    ensures
        r == hex_lower_digit(n as int),
{
    if n < 10 {
        crate::text::char_from_ascii(48 + n)
    } else {
        crate::text::char_from_ascii(87 + n)
    }
}

fn push_escaped(out: &mut String, s: &str)
    ensures
        final(out)@ == old(out)@ + escaped(s@),
{
    let chars = str_chars(s);
    let mut i: usize = 0;
    proof {
        assert(s@.take(0) =~= Seq::<char>::empty());
        assert(out@ =~= old(out)@ + escaped(s@.take(0)));
    }
    while i < chars.len()
        invariant
            i <= chars@.len(),
            chars@ == s@,
            out@ == old(out)@ + escaped(s@.take(i as int)),
        decreases chars.len() - i,
    {
        let c = chars[i];
        let ghost before = out@;
        let code = c as u32;
        if c == '"' {
            push_char(out, '\\');
            push_char(out, '"');
        } else if c == '\\' {
            push_char(out, '\\');
            push_char(out, '\\');
        } else if c == '\u{8}' {
            push_char(out, '\\');
            push_char(out, 'b');
        } else if c == '\u{c}' {
            push_char(out, '\\');
            push_char(out, 'f');
        } else if c == '\n' {
            push_char(out, '\\');
            push_char(out, 'n');
        } else if c == '\r' {
            push_char(out, '\\');
            push_char(out, 'r');
        } else if c == '\t' {
            push_char(out, '\\');
            push_char(out, 't');
        } else if code < 32 {
            push_char(out, '\\');
            push_char(out, 'u');
            push_char(out, '0');
            push_char(out, '0');
            push_char(out, hex_digit_char(code / 16));
            push_char(out, hex_digit_char(code % 16));
        } else {
            push_char(out, c);
        }
        proof {
            assert(s@.take(i + 1).drop_last() =~= s@.take(i as int));
            assert(s@.take(i + 1).last() == c);
            assert(out@ =~= before + escape_char(c));
        }
        i = i + 1;
    }
    proof {
        assert(s@.take(i as int) =~= s@);
    }
}

fn push_quoted(out: &mut String, s: &str)
    ensures
        final(out)@ == old(out)@ + quoted(s@),
{
    push_char(out, '"');
    push_escaped(out, s);
    push_char(out, '"');
    proof {
        assert(out@ =~= old(out)@ + quoted(s@));
    }
}

/// Appends the compact JSON text of `v`.
pub fn write_json(v: &JsonValue, out: &mut String)
    ensures
        final(out)@ == old(out)@ + json_text(json_view(*v)),
    decreases v,
{
    match v {
        JsonValue::Null => {
            push_str(out, "null");
            proof {
                reveal_strlit("null");
                assert(out@ =~= old(out)@ + seq!['n', 'u', 'l', 'l']);
            }
        },
        JsonValue::Bool(b) => {
            if *b {
                push_str(out, "true");
                proof {
                    reveal_strlit("true");
                    assert(out@ =~= old(out)@ + seq!['t', 'r', 'u', 'e']);
                }
            } else {
                push_str(out, "false");
                proof {
                    reveal_strlit("false");
                    assert(out@ =~= old(out)@ + seq!['f', 'a', 'l', 's', 'e']);
                }
            }
        },
        JsonValue::Number(t) => {
            push_str(out, t.as_str());
        },
        JsonValue::String(s) => {
            push_quoted(out, s.as_str());
        },
        JsonValue::Array(xs) => {
            proof {
                lemma_array_view(*v);
            }
            let ghost xv = values_view(xs@);
            let ghost start = out@;
            push_char(out, '[');
            let mut i: usize = 0;
            while i < xs.len()
                invariant
                    i <= xs@.len(),
                    *v == JsonValue::Array(*xs),
                    xv == values_view(xs@),
                    out@ == start + seq!['['] + items_text(xv, i as int),
                decreases xs.len() - i,
            {
                proof {
                    assert(decreases_to!(*v => (*v)->Array_0));
                    assert(decreases_to!((*v)->Array_0 => (*v)->Array_0@));
                    assert(decreases_to!((*v)->Array_0@ => (*v)->Array_0@[i as int]));
                }
                let ghost before = out@;
                if i > 0 {
                    push_char(out, ',');
                }
                write_json(&xs[i], out);
                proof {
                    assert(xv[i as int] == json_view(xs@[i as int]));
                    if i == 0 {
                        assert(out@ =~= start + seq!['['] + items_text(xv, 1));
                    } else {
                        assert(out@ =~= start + seq!['['] + items_text(xv, i + 1));
                    }
                }
                i = i + 1;
            }
            push_char(out, ']');
            proof {
                assert(out@ =~= old(out)@ + json_text(JsonView::Array(xv)));
            }
        },
        JsonValue::Object(ms) => {
            proof {
                lemma_object_view(*v);
            }
            let ghost mv = entries_view(ms@);
            let ghost start = out@;
            push_char(out, '{');
            let mut i: usize = 0;
            while i < ms.len()
                invariant
                    i <= ms@.len(),
                    *v == JsonValue::Object(*ms),
                    mv == entries_view(ms@),
                    out@ == start + seq!['{'] + members_text(mv, i as int),
                decreases ms.len() - i,
            {
                proof {
                    assert(decreases_to!(*v => (*v)->Object_0));
                    assert(decreases_to!((*v)->Object_0 => (*v)->Object_0@));
                    assert(decreases_to!((*v)->Object_0@ => (*v)->Object_0@[i as int]));
                    assert(decreases_to!((*v)->Object_0@[i as int] => (*v)->Object_0@[i as int].1));
                }
                if i > 0 {
                    push_char(out, ',');
                }
                push_quoted(out, ms[i].0.as_str());
                push_char(out, ':');
                write_json(&ms[i].1, out);
                proof {
                    assert(mv[i as int] == (ms@[i as int].0@, json_view(ms@[i as int].1)));
                    if i == 0 {
                        assert(out@ =~= start + seq!['{'] + members_text(mv, 1));
                    } else {
                        assert(out@ =~= start + seq!['{'] + members_text(mv, i + 1));
                    }
                }
                i = i + 1;
            }
            push_char(out, '}');
            proof {
                assert(out@ =~= old(out)@ + json_text(JsonView::Object(mv)));
            }
        },
    }
}

/// How a value reads inside rendered text: a string as itself, anything else as compact JSON.
pub open spec fn render_text(j: JsonView) -> Seq<char> {
    match j {
        JsonView::Str(s) => s,
        _ => json_text(j),
    }
}

pub fn render_value(value: &JsonValue) -> (r: String)
    ensures
        r@ == render_text(json_view(*value)),
{
    match value {
        JsonValue::String(s) => s.clone(),
        _ => {
            let mut out = String::new();
            write_json(value, &mut out);
            proof {
                assert(out@ =~= json_text(json_view(*value)));
            }
            out
        },
    }
}

/// The text of resolved inputs as one JSON object, the form that is digested.
pub open spec fn inputs_text(values: Seq<(Seq<char>, JsonView)>) -> Seq<char> {
    json_text(JsonView::Object(values))
}

/// The SHA-256 (lowercase hex) of the resolved inputs' JSON text.
pub fn inputs_digest(values: &Vec<(String, JsonValue)>) -> (r: String)
    ensures
        r@ == crate::digest::sha256_hex(inputs_text(entries_view(values@))),
{
    let ghost mv = entries_view(values@);
    let mut out = String::new();
    push_char(&mut out, '{');
    let mut i: usize = 0;
    proof {
        assert(out@ =~= seq!['{'] + members_text(mv, 0));
    }
    while i < values.len()
        invariant
            i <= values@.len(),
            mv == entries_view(values@),
            out@ == seq!['{'] + members_text(mv, i as int),
        decreases values.len() - i,
    {
        if i > 0 {
            push_char(&mut out, ',');
        }
        push_quoted(&mut out, values[i].0.as_str());
        push_char(&mut out, ':');
        write_json(&values[i].1, &mut out);
        proof {
            assert(mv[i as int] == (values@[i as int].0@, json_view(values@[i as int].1)));
            if i == 0 {
                assert(out@ =~= seq!['{'] + members_text(mv, 1));
            } else {
                assert(out@ =~= seq!['{'] + members_text(mv, i + 1));
            }
        }
        i = i + 1;
    }
    push_char(&mut out, '}');
    proof {
        assert(out@ =~= inputs_text(mv));
    }
    crate::digest::sha256_hex_str(out.as_str())
}


// ---------------------------------------------------------------------------
// Resolution

/// Resolved run inputs, ordered by name, and the digest of their JSON text.
pub struct ResolvedInputs {
    pub values: Vec<(String, JsonValue)>,
    pub sha256: String,
}

#[derive(Debug)]
pub enum InputError {
    NotObject,
    Unknown(String),
    Missing(String),
    WrongType { name: String, expected: &'static str, actual: &'static str },
    UnknownReference(String),
    UnterminatedReference,
    UnsupportedReference(String),
    DigestMismatch { expected: String, actual: String },
    Changed { names: String },
    SnapshotMismatch,
}

/// What an input error reports, as plain values.
pub enum InputFailure {
    NotObject,
    Unknown(Seq<char>),
    Missing(Seq<char>),
    WrongType(Seq<char>, Seq<char>, Seq<char>),
    UnknownReference(Seq<char>),
    UnterminatedReference,
    UnsupportedReference(Seq<char>),
    DigestMismatch(Seq<char>, Seq<char>),
    Changed(Seq<char>),
    SnapshotMismatch,
}

pub open spec fn input_failure(e: InputError) -> InputFailure {
    match e {
        InputError::NotObject => InputFailure::NotObject,
        InputError::Unknown(n) => InputFailure::Unknown(n@),
        InputError::Missing(n) => InputFailure::Missing(n@),
        InputError::WrongType { name, expected, actual } => InputFailure::WrongType(name@, expected@, actual@),
        InputError::UnknownReference(n) => InputFailure::UnknownReference(n@),
        InputError::UnterminatedReference => InputFailure::UnterminatedReference,
        InputError::UnsupportedReference(n) => InputFailure::UnsupportedReference(n@),
        InputError::DigestMismatch { expected, actual } => InputFailure::DigestMismatch(expected@, actual@),
        InputError::Changed { names } => InputFailure::Changed(names@),
        InputError::SnapshotMismatch => InputFailure::SnapshotMismatch,
    }
}

pub open spec fn kind_name_spec(kind: InputKind) -> Seq<char> {
    match kind {
        InputKind::String => "a string"@,
        InputKind::Number => "a number"@,
        InputKind::Boolean => "a boolean"@,
        InputKind::Object => "an object"@,
        InputKind::Array => "an array"@,
        InputKind::Json => "JSON"@,
    }
}

pub fn kind_name(kind: &InputKind) -> (r: &'static str)
    ensures
        r@ == kind_name_spec(*kind),
{
    match kind {
        InputKind::String => "a string",
        InputKind::Number => "a number",
        InputKind::Boolean => "a boolean",
        InputKind::Object => "an object",
        InputKind::Array => "an array",
        InputKind::Json => "JSON",
    }
}

pub open spec fn value_name_spec(v: JsonValue) -> Seq<char> {
    match v {
        JsonValue::Null => "null"@,
        JsonValue::Bool(_) => "a boolean"@,
        JsonValue::Number(_) => "a number"@,
        JsonValue::String(_) => "a string"@,
        JsonValue::Array(_) => "an array"@,
        JsonValue::Object(_) => "an object"@,
    }
}

fn value_name(v: &JsonValue) -> (r: &'static str)
    ensures
        r@ == value_name_spec(*v),
{
    match v {
        JsonValue::Null => "null",
        JsonValue::Bool(_) => "a boolean",
        JsonValue::Number(_) => "a number",
        JsonValue::String(_) => "a string",
        JsonValue::Array(_) => "an array",
        JsonValue::Object(_) => "an object",
    }
}

pub open spec fn value_matches_spec(kind: InputKind, v: JsonValue) -> bool {
    match kind {
        InputKind::String => v is String,
        InputKind::Number => v is Number,
        InputKind::Boolean => v is Bool,
        InputKind::Object => v is Object,
        InputKind::Array => v is Array,
        InputKind::Json => true,
    }
}

/// Whether a value has the declared kind.
pub fn value_matches(kind: &InputKind, value: &JsonValue) -> (r: bool)
    ensures
        r == value_matches_spec(*kind, *value),
{
    match kind {
        InputKind::String => matches!(value, JsonValue::String(_)),
        InputKind::Number => matches!(value, JsonValue::Number(_)),
        InputKind::Boolean => matches!(value, JsonValue::Bool(_)),
        InputKind::Object => matches!(value, JsonValue::Object(_)),
        InputKind::Array => matches!(value, JsonValue::Array(_)),
        InputKind::Json => true,
    }
}

pub open spec fn is_defined(defs: Seq<(String, InputDefinition)>, name: Seq<char>) -> bool {
    exists|i: int| 0 <= i < defs.len() && (#[trigger] defs[i]).0@ == name
}

/// The first provided name that no definition declares.
pub open spec fn first_unknown(ms: Seq<(String, JsonValue)>, defs: Seq<(String, InputDefinition)>) -> Option<Seq<char>>
    decreases ms.len(),
{
    if ms.len() == 0 {
        None
    } else if !is_defined(defs, ms[0].0@) {
        Some(ms[0].0@)
    } else {
        first_unknown(ms.drop_first(), defs)
    }
}

pub open spec fn provided_value(p: Option<JsonValue>, name: Seq<char>) -> Option<JsonValue> {
    match p {
        Some(o) => object_member(o, name),
        None => None,
    }
}

pub open spec fn default_value(d: InputDefault) -> Option<JsonValue> {
    match d {
        InputDefault::Missing => None,
        InputDefault::Value(v) => Some(v),
    }
}

/// The first `n` definitions resolved in order: the provided value, else the
/// default, type-checked and canonical; a required input with neither is missing.
pub open spec fn resolve_defs(defs: Seq<(String, InputDefinition)>, p: Option<JsonValue>, n: int)
    -> Result<Seq<(Seq<char>, JsonView)>, InputFailure>
    decreases n,
{
    if n <= 0 || n > defs.len() {
        Ok(Seq::empty())
    } else {
        match resolve_defs(defs, p, n - 1) {
            Err(e) => Err(e),
            Ok(values) => {
                let (name, d) = defs[n - 1];
                let v = match provided_value(p, name@) {
                    Some(x) => Some(x),
                    None => default_value(d.default),
                };
                match v {
                    Some(x) => if !value_matches_spec(d.kind, x) {
                        Err(InputFailure::WrongType(name@, kind_name_spec(d.kind), value_name_spec(x)))
                    } else {
                        Ok(values.push((name@, canonical_view(json_view(x)))))
                    },
                    None => if d.required { Err(InputFailure::Missing(name@)) } else { Ok(values) },
                }
            },
        }
    }
}

/// The value an input resolves from: the provided one, else its default.
pub open spec fn chosen_value(d: (String, InputDefinition), p: Option<JsonValue>) -> Option<JsonValue> {
    match provided_value(p, d.0@) {
        Some(x) => Some(x),
        None => default_value(d.1.default),
    }
}

/// A value of the JSON kind an input declares: a boolean input holds a JSON
/// boolean, a string input a JSON string, and so on; a JSON input any value.
pub open spec fn of_declared_kind(kind: InputKind, v: JsonValue) -> bool {
    &&& kind == InputKind::String ==> v is String
    &&& kind == InputKind::Number ==> v is Number
    &&& kind == InputKind::Boolean ==> v is Bool
    &&& kind == InputKind::Object ==> v is Object
    &&& kind == InputKind::Array ==> v is Array
}

/// Resolution succeeds only when every input's value has its declared kind,
/// and each value of another kind is reported as the first wrong type.
pub proof fn lemma_resolved_inputs_have_declared_kinds(defs: Seq<(String, InputDefinition)>, p: Option<JsonValue>, n: int)
    requires
        0 <= n <= defs.len(),
    ensures
        resolve_defs(defs, p, n) is Ok ==> forall|k: int| 0 <= k < n ==>
            ((#[trigger] chosen_value(defs[k], p)) is Some ==> of_declared_kind(defs[k].1.kind, chosen_value(defs[k], p)->0)),
        ({
            let x = chosen_value(defs[n - 1], p)->0;
            n > 0 && resolve_defs(defs, p, n - 1) is Ok && chosen_value(defs[n - 1], p) is Some
                && !of_declared_kind(defs[n - 1].1.kind, x)
                ==> resolve_defs(defs, p, n) == Err::<Seq<(Seq<char>, JsonView)>, InputFailure>(
                    InputFailure::WrongType(defs[n - 1].0@, kind_name_spec(defs[n - 1].1.kind), value_name_spec(x)))
        }),
    decreases n,
{
    if n > 0 {
        lemma_resolved_inputs_have_declared_kinds(defs, p, n - 1);
    }
}

/// An input given neither a value nor a default is missing when required and
/// left out when optional; the values resolved before it are kept.
pub proof fn lemma_unvalued_inputs(defs: Seq<(String, InputDefinition)>, p: Option<JsonValue>, n: int)
    requires
        0 < n <= defs.len(),
        resolve_defs(defs, p, n - 1) is Ok,
        chosen_value(defs[n - 1], p) is None,
    ensures
        defs[n - 1].1.required ==> resolve_defs(defs, p, n)
            == Err::<Seq<(Seq<char>, JsonView)>, InputFailure>(InputFailure::Missing(defs[n - 1].0@)),
        !defs[n - 1].1.required ==> resolve_defs(defs, p, n) == resolve_defs(defs, p, n - 1),
{
}

/// What resolving provided inputs against definitions gives.
pub open spec fn resolve_spec(defs: Seq<(String, InputDefinition)>, provided: Option<JsonValue>)
    -> Result<Seq<(Seq<char>, JsonView)>, InputFailure> {
    match provided {
        Some(v) => match v {
            JsonValue::Object(ms) => match first_unknown(ms@, defs) {
                Some(n) => Err(InputFailure::Unknown(n)),
                None => resolve_defs(defs, provided, defs.len() as int),
            },
            _ => Err(InputFailure::NotObject),
        },
        None => resolve_defs(defs, None, defs.len() as int),
    }
}

/// Resolving run inputs succeeds only when each input's provided value (else
/// its default) has the JSON kind the input declares: a boolean input given a
/// string is refused.
pub proof fn lemma_resolve_checks_declared_kinds(defs: Seq<(String, InputDefinition)>, provided: Option<JsonValue>)
    ensures
        resolve_spec(defs, provided) is Ok ==> forall|k: int| 0 <= k < defs.len() ==>
            ((#[trigger] chosen_value(defs[k], provided)) is Some ==> of_declared_kind(defs[k].1.kind, chosen_value(defs[k], provided)->0)),
{
    lemma_resolved_inputs_have_declared_kinds(defs, provided, defs.len() as int);
}

fn defined(defs: &Vec<(String, InputDefinition)>, name: &str) -> (r: bool)
    ensures
        r == is_defined(defs@, name@),
{
    let mut i: usize = 0;
    while i < defs.len()
        invariant
            i <= defs@.len(),
            forall|k: int| 0 <= k < i ==> (#[trigger] defs@[k]).0@ != name@,
        decreases defs.len() - i,
    {
        if crate::text::str_eq(defs[i].0.as_str(), name) {
            return true;
        }
        i = i + 1;
    }
    false
}

pub(crate) fn copy_json(v: &JsonValue) -> (r: JsonValue)
    ensures
        json_view(r) == json_view(*v),
    decreases v,
{
    match v {
        JsonValue::Null => JsonValue::Null,
        JsonValue::Bool(b) => JsonValue::Bool(*b),
        JsonValue::Number(t) => JsonValue::Number(t.clone()),
        JsonValue::String(s) => JsonValue::String(s.clone()),
        JsonValue::Array(xs) => {
            proof {
                lemma_array_view(*v);
            }
            let mut out: Vec<JsonValue> = Vec::new();
            let mut i: usize = 0;
            while i < xs.len()
                invariant
                    i <= xs@.len(),
                    *v == JsonValue::Array(*xs),
                    values_view(out@) =~= values_view(xs@).take(i as int),
                decreases xs.len() - i,
            {
                proof {
                    assert(decreases_to!(*v => (*v)->Array_0));
                    assert(decreases_to!((*v)->Array_0 => (*v)->Array_0@));
                    assert(decreases_to!((*v)->Array_0@ => (*v)->Array_0@[i as int]));
                }
                let c = copy_json(&xs[i]);
                let ghost before = out@;
                out.push(c);
                proof {
                    assert(values_view(out@) =~= values_view(before).push(json_view(xs@[i as int])));
                    assert(values_view(xs@).take(i + 1) =~= values_view(xs@).take(i as int).push(json_view(xs@[i as int])));
                }
                i = i + 1;
            }
            let r = JsonValue::Array(out);
            proof {
                lemma_array_view(r);
                assert(values_view(xs@).take(xs@.len() as int) =~= values_view(xs@));
            }
            r
        },
        JsonValue::Object(ms) => {
            proof {
                lemma_object_view(*v);
            }
            let mut out: Vec<(String, JsonValue)> = Vec::new();
            let mut i: usize = 0;
            while i < ms.len()
                invariant
                    i <= ms@.len(),
                    *v == JsonValue::Object(*ms),
                    entries_view(out@) =~= entries_view(ms@).take(i as int),
                decreases ms.len() - i,
            {
                proof {
                    assert(decreases_to!(*v => (*v)->Object_0));
                    assert(decreases_to!((*v)->Object_0 => (*v)->Object_0@));
                    assert(decreases_to!((*v)->Object_0@ => (*v)->Object_0@[i as int]));
                    assert(decreases_to!((*v)->Object_0@[i as int] => (*v)->Object_0@[i as int].1));
                }
                let c = copy_json(&ms[i].1);
                let ghost before = out@;
                out.push((ms[i].0.clone(), c));
                proof {
                    let e = (ms@[i as int].0@, json_view(ms@[i as int].1));
                    assert(entries_view(out@) =~= entries_view(before).push(e));
                    assert(entries_view(ms@).take(i + 1) =~= entries_view(ms@).take(i as int).push(e));
                }
                i = i + 1;
            }
            let r = JsonValue::Object(out);
            proof {
                lemma_object_view(r);
                assert(entries_view(ms@).take(ms@.len() as int) =~= entries_view(ms@));
            }
            r
        },
    }
}

proof fn lemma_first_unknown_skip(ms: Seq<(String, JsonValue)>, defs: Seq<(String, InputDefinition)>, i: int)
    requires
        0 <= i < ms.len(),
        is_defined(defs, ms[i].0@),
    ensures
        first_unknown(ms.skip(i), defs) == first_unknown(ms.skip(i + 1), defs),
{
    assert(ms.skip(i).drop_first() =~= ms.skip(i + 1));
    assert(ms.skip(i)[0] == ms[i]);
}

proof fn lemma_resolve_defs_err(defs: Seq<(String, InputDefinition)>, p: Option<JsonValue>, i: int, n: int)
    requires
        0 <= i <= n <= defs.len(),
        resolve_defs(defs, p, i) is Err,
    ensures
        resolve_defs(defs, p, n) == resolve_defs(defs, p, i),
    decreases n - i,
{
    if n > i {
        lemma_resolve_defs_err(defs, p, i, n - 1);
    }
}

/// Resolves provided run inputs against a workflow's definitions (ordered by name).
pub fn resolve_inputs(definitions: &Vec<(String, InputDefinition)>, provided: Option<&JsonValue>)
    -> (r: Result<ResolvedInputs, InputError>)
    ensures
        match resolve_spec(definitions@, crate::linear::deref_json(provided)) {
            Ok(values) => r matches Ok(ri) && entries_view(ri.values@) == values
                && ri.sha256@ == crate::digest::sha256_hex(inputs_text(values)),
            Err(f) => r matches Err(e) && input_failure(e) == f,
        },
{
    let ghost p = crate::linear::deref_json(provided);
    if let Some(v) = provided {
        match v {
            JsonValue::Object(ms) => {
                let mut i: usize = 0;
                proof {
                    assert(ms@.skip(0) =~= ms@);
                }
                while i < ms.len()
                    invariant
                        i <= ms@.len(),
                        p == Some(*v),
                        p == crate::linear::deref_json(provided),
                        *v == JsonValue::Object(*ms),
                        first_unknown(ms@, definitions@) == first_unknown(ms@.skip(i as int), definitions@),
                    decreases ms.len() - i,
                {
                    if !defined(definitions, ms[i].0.as_str()) {
                        proof {
                            assert(ms@.skip(i as int)[0] == ms@[i as int]);
                            assert(first_unknown(ms@.skip(i as int), definitions@) == Some(ms@[i as int].0@));
                            assert(p == Some(*v));
                        }
                        return Err(InputError::Unknown(ms[i].0.clone()));
                    }
                    proof {
                        lemma_first_unknown_skip(ms@, definitions@, i as int);
                    }
                    i = i + 1;
                }
                proof {
                    assert(ms@.skip(i as int).len() == 0);
                }
            },
            _ => return Err(InputError::NotObject),
        }
    }
    let mut values: Vec<(String, JsonValue)> = Vec::new();
    let mut i: usize = 0;
    proof {
        assert(entries_view(values@) =~= Seq::<(Seq<char>, JsonView)>::empty());
        assert(resolve_spec(definitions@, p) == resolve_defs(definitions@, p, definitions@.len() as int));
    }
    while i < definitions.len()
        invariant
            i <= definitions@.len(),
            p == crate::linear::deref_json(provided),
            resolve_spec(definitions@, p) == resolve_defs(definitions@, p, definitions@.len() as int),
            resolve_defs(definitions@, p, i as int) == Ok::<Seq<(Seq<char>, JsonView)>, InputFailure>(entries_view(values@)),
        decreases definitions.len() - i,
    {
        let name = &definitions[i].0;
        let definition = &definitions[i].1;
        let found = match provided {
            Some(obj) => json_get(obj, name.as_str()),
            None => None,
        };
        let chosen = match found {
            Some(x) => Some(x),
            None => definition.default.value(),
        };
        match chosen {
            Some(x) => {
                if !value_matches(&definition.kind, x) {
                    proof {
                        lemma_resolve_defs_err(definitions@, p, i + 1, definitions@.len() as int);
                    }
                    return Err(InputError::WrongType {
                        name: name.clone(),
                        expected: kind_name(&definition.kind),
                        actual: value_name(x),
                    });
                }
                let ghost before = entries_view(values@);
                values.push((name.clone(), canonicalize(x)));
                proof {
                    assert(entries_view(values@) =~= before.push((name@, canonical_view(json_view(*x)))));
                }
            },
            None => {
                if definition.required {
                    proof {
                        lemma_resolve_defs_err(definitions@, p, i + 1, definitions@.len() as int);
                    }
                    return Err(InputError::Missing(name.clone()));
                }
            },
        }
        i = i + 1;
    }
    let sha256 = inputs_digest(&values);
    Ok(ResolvedInputs { values, sha256 })
}

/// The resolved inputs still have the digest recorded for them.
pub fn verify_inputs(values: &Vec<(String, JsonValue)>, expected_sha256: &str) -> (r: Result<(), InputError>)
    ensures
        ({
            let actual = crate::digest::sha256_hex(inputs_text(entries_view(values@)));
            if actual == expected_sha256@ {
                r is Ok
            } else {
                r matches Err(e) && input_failure(e) == InputFailure::DigestMismatch(expected_sha256@, actual)
            }
        }),
{
    let actual = inputs_digest(values);
    if crate::text::str_eq(actual.as_str(), expected_sha256) {
        Ok(())
    } else {
        Err(InputError::DigestMismatch { expected: to_owned_string(expected_sha256), actual })
    }
}


// ---------------------------------------------------------------------------
// Templates

/// The first index at or after `from` where `pat` occurs in `s`.
pub open spec fn find_from(s: Seq<char>, pat: Seq<char>, from: int) -> Option<int>
    decreases s.len() - from,
{
    if from < 0 || from >= s.len() || from + pat.len() > s.len() {
        None
    } else if s.subrange(from, from + pat.len()) == pat {
        Some(from)
    } else {
        find_from(s, pat, from + 1)
    }
}

pub(crate) fn find_pair(s: &[char], a: char, b: char) -> (r: Option<usize>)
    ensures
        match r {
            Some(i) => find_from(s@, seq![a, b], 0) == Some(i as int) && i + 2 <= s@.len(),
            None => find_from(s@, seq![a, b], 0) is None,
        },
{
    let mut j: usize = 0;
    while j < s.len() && s.len() - j >= 2
        invariant
            j <= s@.len(),
            find_from(s@, seq![a, b], 0) == find_from(s@, seq![a, b], j as int),
        decreases s.len() - j,
    {
        if s[j] == a && s[j + 1] == b {
            proof {
                assert(s@.subrange(j as int, j + 2) =~= seq![a, b]);
            }
            return Some(j);
        }
        proof {
            assert(s@.subrange(j as int, j + 2)[0] == s@[j as int]);
            assert(s@.subrange(j as int, j + 2)[1] == s@[j + 1]);
            assert(s@.subrange(j as int, j + 2) != seq![a, b]);
        }
        j = j + 1;
    }
    None
}

pub(crate) fn find_char(s: &[char], c: char) -> (r: Option<usize>)
    ensures
        match r {
            Some(i) => find_from(s@, seq![c], 0) == Some(i as int) && i < s@.len(),
            None => find_from(s@, seq![c], 0) is None,
        },
{
    let mut j: usize = 0;
    while j < s.len()
        invariant
            j <= s@.len(),
            find_from(s@, seq![c], 0) == find_from(s@, seq![c], j as int),
        decreases s.len() - j,
    {
        if s[j] == c {
            proof {
                assert(s@.subrange(j as int, j + 1) =~= seq![c]);
            }
            return Some(j);
        }
        proof {
            assert(s@.subrange(j as int, j + 1)[0] == s@[j as int]);
            assert(s@.subrange(j as int, j + 1) != seq![c]);
        }
        j = j + 1;
    }
    None
}

/// The parts of a reference between dots.
pub open spec fn dot_parts(s: Seq<char>) -> Seq<Seq<char>>
    decreases s.len(),
{
    match find_from(s, seq!['.'], 0) {
        Some(i) => if 0 <= i < s.len() { seq![s.take(i)] + dot_parts(s.skip(i + 1)) } else { seq![s] },
        None => seq![s],
    }
}

/// The value under `key` among named values.
pub open spec fn lookup_entry(ms: Seq<(String, JsonValue)>, key: Seq<char>) -> Option<JsonValue>
    decreases ms.len(),
{
    if ms.len() == 0 {
        None
    } else if ms[0].0@ == key {
        Some(ms[0].1)
    } else {
        lookup_entry(ms.drop_first(), key)
    }
}

/// The outputs recorded for `step`.
pub open spec fn lookup_outputs(steps: Seq<(String, Vec<(String, JsonValue)>)>, step: Seq<char>) -> Option<Seq<(String, JsonValue)>>
    decreases steps.len(),
{
    if steps.len() == 0 {
        None
    } else if steps[0].0@ == step {
        Some(steps[0].1@)
    } else {
        lookup_outputs(steps.drop_first(), step)
    }
}

/// The text a reference stands for: `inputs.NAME`, or `steps.STEP.outputs.NAME`.
pub open spec fn reference_text(
    reference: Seq<char>,
    inputs: Seq<(String, JsonValue)>,
    outputs: Seq<(String, Vec<(String, JsonValue)>)>,
) -> Result<Seq<char>, InputFailure> {
    let parts = dot_parts(reference);
    if parts.len() == 2 && parts[0] == "inputs"@ && parts[1].len() > 0 {
        match lookup_entry(inputs, parts[1]) {
            Some(v) => Ok(render_text(json_view(v))),
            None => Err(InputFailure::UnknownReference(parts[1])),
        }
    } else if parts.len() == 4 && parts[0] == "steps"@ && parts[2] == "outputs"@ && parts[1].len() > 0 && parts[3].len() > 0 {
        match lookup_outputs(outputs, parts[1]) {
            Some(values) => match lookup_entry(values, parts[3]) {
                Some(v) => Ok(render_text(json_view(v))),
                None => Err(InputFailure::UnknownReference(reference)),
            },
            None => Err(InputFailure::UnknownReference(reference)),
        }
    } else {
        Err(InputFailure::UnsupportedReference(reference))
    }
}

/// A template with each `${reference}` replaced by its text.
pub open spec fn template_spec(
    t: Seq<char>,
    inputs: Seq<(String, JsonValue)>,
    outputs: Seq<(String, Vec<(String, JsonValue)>)>,
) -> Result<Seq<char>, InputFailure>
    decreases t.len(),
{
    match find_from(t, seq!['$', '{'], 0) {
        None => Ok(t),
        Some(start) => if 0 <= start && start + 2 <= t.len() {
            let after = t.skip(start + 2);
            match find_from(after, seq!['}'], 0) {
                None => Err(InputFailure::UnterminatedReference),
                Some(end) => if 0 <= end < after.len() {
                    match reference_text(after.take(end), inputs, outputs) {
                        Err(e) => Err(e),
                        Ok(text) => match template_spec(after.skip(end + 1), inputs, outputs) {
                            Ok(rest) => Ok(t.take(start) + text + rest),
                            Err(e) => Err(e),
                        },
                    }
                } else {
                    Ok(t)
                },
            }
        } else {
            Ok(t)
        },
    }
}

fn chars_text(s: &[char]) -> (r: String)
    ensures
        r@ == s@,
{
    crate::text::string_from_chars(s)
}

pub(crate) fn split_dots(reference: &[char]) -> (r: Vec<String>)
    ensures
        r@.map_values(|p: String| p@) == dot_parts(reference@),
{
    let mut parts: Vec<String> = Vec::new();
    let mut rest: Vec<char> = vstd::slice::slice_to_vec(reference);
    proof {
        assert(parts@.map_values(|p: String| p@) + dot_parts(rest@) =~= dot_parts(reference@));
    }
    loop
        invariant
            dot_parts(reference@) == parts@.map_values(|p: String| p@) + dot_parts(rest@),
        decreases rest@.len(),
    {
        let rs = rest.as_slice();
        match find_char(rs, '.') {
            None => {
                let ghost before = parts@.map_values(|p: String| p@);
                parts.push(chars_text(rs));
                proof {
                    assert(parts@.map_values(|p: String| p@) =~= before.push(rest@));
                    assert(dot_parts(rest@) == seq![rest@]);
                    assert(before + seq![rest@] =~= before.push(rest@));
                }
                return parts;
            },
            Some(i) => {
                let ghost before = parts@.map_values(|p: String| p@);
                let ghost r = rest@;
                let n = rs.len();
                let head = crate::text::slice_subrange(rs, 0, i);
                parts.push(chars_text(head));
                let tail = crate::text::slice_subrange(rs, i + 1, n);
                rest = vstd::slice::slice_to_vec(tail);
                proof {
                    assert(head@ =~= r.take(i as int));
                    assert(rest@ =~= r.skip(i + 1));
                    assert(parts@.map_values(|p: String| p@) =~= before.push(r.take(i as int)));
                    assert(dot_parts(r) == seq![r.take(i as int)] + dot_parts(r.skip(i + 1)));
                    assert(before + (seq![r.take(i as int)] + dot_parts(rest@)) =~= before.push(r.take(i as int)) + dot_parts(rest@));
                }
            },
        }
    }
}

pub(crate) fn find_entry<'a>(ms: &'a Vec<(String, JsonValue)>, key: &str) -> (r: Option<&'a JsonValue>)
    ensures
        crate::linear::deref_json(r) == lookup_entry(ms@, key@),
{
    let mut i: usize = 0;
    proof {
        assert(ms@.skip(0) =~= ms@);
    }
    while i < ms.len()
        invariant
            i <= ms@.len(),
            lookup_entry(ms@, key@) == lookup_entry(ms@.skip(i as int), key@),
        decreases ms.len() - i,
    {
        proof {
            assert(ms@.skip(i as int)[0] == ms@[i as int]);
            assert(ms@.skip(i as int).drop_first() =~= ms@.skip(i + 1));
        }
        if crate::text::str_eq(ms[i].0.as_str(), key) {
            return Some(&ms[i].1);
        }
        i = i + 1;
    }
    None
}

pub(crate) fn find_outputs<'a>(steps: &'a Vec<(String, Vec<(String, JsonValue)>)>, step: &str) -> (r: Option<&'a Vec<(String, JsonValue)>>)
    ensures
        match r {
            Some(v) => lookup_outputs(steps@, step@) == Some(v@),
            None => lookup_outputs(steps@, step@) is None,
        },
{
    let mut i: usize = 0;
    proof {
        assert(steps@.skip(0) =~= steps@);
    }
    while i < steps.len()
        invariant
            i <= steps@.len(),
            lookup_outputs(steps@, step@) == lookup_outputs(steps@.skip(i as int), step@),
        decreases steps.len() - i,
    {
        proof {
            assert(steps@.skip(i as int)[0] == steps@[i as int]);
            assert(steps@.skip(i as int).drop_first() =~= steps@.skip(i + 1));
        }
        if crate::text::str_eq(steps[i].0.as_str(), step) {
            return Some(&steps[i].1);
        }
        i = i + 1;
    }
    None
}

fn render_reference(
    reference: &[char],
    inputs: &Vec<(String, JsonValue)>,
    outputs: &Vec<(String, Vec<(String, JsonValue)>)>,
) -> (r: Result<String, InputError>)
    ensures
        match reference_text(reference@, inputs@, outputs@) {
            Ok(t) => r matches Ok(s) && s@ == t,
            Err(f) => r matches Err(e) && input_failure(e) == f,
        },
{
    proof {
        reveal_strlit("inputs");
        reveal_strlit("steps");
        reveal_strlit("outputs");
    }
    let parts = split_dots(reference);
    let ghost pv = parts@.map_values(|p: String| p@);
    proof {
        if parts@.len() > 0 {
            assert(pv[0] == parts@[0]@);
        }
        if parts@.len() > 1 {
            assert(pv[1] == parts@[1]@);
        }
        if parts@.len() > 3 {
            assert(pv[2] == parts@[2]@);
            assert(pv[3] == parts@[3]@);
        }
    }
    if parts.len() == 2 && crate::text::str_eq(parts[0].as_str(), "inputs") && str_chars(parts[1].as_str()).len() > 0 {
        return match find_entry(inputs, parts[1].as_str()) {
            Some(v) => Ok(render_value(v)),
            None => Err(InputError::UnknownReference(parts[1].clone())),
        };
    }
    if parts.len() == 4 && crate::text::str_eq(parts[0].as_str(), "steps") && crate::text::str_eq(parts[2].as_str(), "outputs")
        && str_chars(parts[1].as_str()).len() > 0 && str_chars(parts[3].as_str()).len() > 0 {
        return match find_outputs(outputs, parts[1].as_str()) {
            Some(values) => match find_entry(values, parts[3].as_str()) {
                Some(v) => Ok(render_value(v)),
                None => Err(InputError::UnknownReference(chars_text(reference))),
            },
            None => Err(InputError::UnknownReference(chars_text(reference))),
        };
    }
    Err(InputError::UnsupportedReference(chars_text(reference)))
}

/// Replaces each `${inputs.NAME}` and `${steps.STEP.outputs.NAME}` in a template
/// with the rendered value; any other reference is an error.
pub fn resolve_template(
    template: &str,
    inputs: &Vec<(String, JsonValue)>,
    step_outputs: &Vec<(String, Vec<(String, JsonValue)>)>,
) -> (r: Result<String, InputError>)
    ensures
        match template_spec(template@, inputs@, step_outputs@) {
            Ok(t) => r matches Ok(s) && s@ == t,
            Err(f) => r matches Err(e) && input_failure(e) == f,
        },
{
    let mut result = String::new();
    let mut rest: Vec<char> = str_chars(template);
    proof {
        assert(result@ =~= Seq::<char>::empty());
        match template_spec(rest@, inputs@, step_outputs@) {
            Ok(x) => {
                assert(result@ + x =~= x);
            },
            Err(_) => {},
        }
    }
    loop
        invariant
            template_spec(template@, inputs@, step_outputs@) == match template_spec(rest@, inputs@, step_outputs@) {
                Ok(x) => Ok(result@ + x),
                Err(e) => Err(e),
            },
        decreases rest@.len(),
    {
        let rs = rest.as_slice();
        match find_pair(rs, '$', '{') {
            None => {
                push_str(&mut result, chars_text(rs).as_str());
                return Ok(result);
            },
            Some(start) => {
                let ghost r = rest@;
                let n = rs.len();
                let after = crate::text::slice_subrange(rs, start + 2, n);
                proof {
                    assert(after@ =~= r.skip(start + 2));
                }
                match find_char(after, '}') {
                    None => return Err(InputError::UnterminatedReference),
                    Some(end) => {
                        let reference = crate::text::slice_subrange(after, 0, end);
                        proof {
                            assert(reference@ =~= after@.take(end as int));
                        }
                        let text = render_reference(reference, inputs, step_outputs)?;
                        let head = crate::text::slice_subrange(rs, 0, start);
                        let ghost before = result@;
                        push_str(&mut result, chars_text(head).as_str());
                        push_str(&mut result, text.as_str());
                        let tail = crate::text::slice_subrange(after, end + 1, after.len());
                        rest = vstd::slice::slice_to_vec(tail);
                        proof {
                            assert(head@ =~= r.take(start as int));
                            assert(rest@ =~= after@.skip(end + 1));
                            match template_spec(rest@, inputs@, step_outputs@) {
                                Ok(x) => {
                                    assert(before + (r.take(start as int) + text@ + x) =~= result@ + x);
                                },
                                Err(_) => {},
                            }
                        }
                    },
                }
            },
        }
    }
}

} // verus!
