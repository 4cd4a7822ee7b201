//! A JSON document held as plain values.
use crate::text::str_eq;
use vstd::prelude::*;

verus! {

/// A JSON value. Numbers keep their textual form; object members keep their order.
pub enum JsonValue {
    Null,
    Bool(bool),
    Number(String),
    String(String),
    Array(Vec<JsonValue>),
    Object(Vec<(String, JsonValue)>),
}

/// Structural equality of two JSON values: same kind, same scalars, same members in order.
pub open spec fn json_same(a: JsonValue, b: JsonValue) -> bool
    decreases a,
{
    match a {
        JsonValue::Null => b is Null,
        JsonValue::Bool(x) => b matches JsonValue::Bool(y) && x == y,
        JsonValue::Number(x) => b matches JsonValue::Number(y) && x@ == y@,
        JsonValue::String(x) => b matches JsonValue::String(y) && x@ == y@,
        JsonValue::Array(xs) => match b {
            JsonValue::Array(ys) => xs.len() == ys.len() && forall|i: int|
                0 <= i < xs.len() ==> json_same(#[trigger] xs@[i], ys@[i]),
            _ => false,
        },
        JsonValue::Object(xs) => match b {
            JsonValue::Object(ys) => xs.len() == ys.len() && forall|i: int|
                0 <= i < xs.len() ==> (#[trigger] xs@[i]).0@ == ys@[i].0@ && json_same(
                    xs@[i].1,
                    ys@[i].1,
                ),
            _ => false,
        },
    }
}

/// `a == b` on JSON values.
pub fn json_eq(a: &JsonValue, b: &JsonValue) -> (r: bool)
    ensures
        r == json_same(*a, *b),
    decreases a,
{
    match (a, b) {
        (JsonValue::Null, JsonValue::Null) => true,
        (JsonValue::Bool(x), JsonValue::Bool(y)) => *x == *y,
        (JsonValue::Number(x), JsonValue::Number(y)) => str_eq(x.as_str(), y.as_str()),
        (JsonValue::String(x), JsonValue::String(y)) => str_eq(x.as_str(), y.as_str()),
        (JsonValue::Array(xs), JsonValue::Array(ys)) => {
            if xs.len() != ys.len() {
                return false;
            }
            let mut i: usize = 0;
            while i < xs.len()
                invariant
                    i <= xs.len(),
                    xs.len() == ys.len(),
                    *a == JsonValue::Array(*xs),
                    *b == JsonValue::Array(*ys),
                    forall|k: int| 0 <= k < i ==> json_same(#[trigger] xs@[k], ys@[k]),
                decreases xs.len() - i,
            {
                proof {
                    assert(decreases_to!(*a => (*a)->Array_0));
                    assert(decreases_to!((*a)->Array_0 => (*a)->Array_0@));
                    assert(decreases_to!((*a)->Array_0@ => (*a)->Array_0@[i as int]));
                }
                if !json_eq(&xs[i], &ys[i]) {
                    proof {
                        assert(!json_same(xs@[i as int], ys@[i as int]));
                    }
                    return false;
                }
                i = i + 1;
            }
            true
        },
        (JsonValue::Object(xs), JsonValue::Object(ys)) => {
            if xs.len() != ys.len() {
                return false;
            }
            let mut i: usize = 0;
            while i < xs.len()
                invariant
                    i <= xs.len(),
                    xs.len() == ys.len(),
                    *a == JsonValue::Object(*xs),
                    *b == JsonValue::Object(*ys),
                    forall|k: int|
                        0 <= k < i ==> (#[trigger] xs@[k]).0@ == ys@[k].0@ && json_same(
                            xs@[k].1,
                            ys@[k].1,
                        ),
                decreases xs.len() - i,
            {
                proof {
                    assert(decreases_to!(*a => (*a)->Object_0));
                    assert(decreases_to!((*a)->Object_0 => (*a)->Object_0@));
                    assert(decreases_to!((*a)->Object_0@ => (*a)->Object_0@[i as int]));
                    assert(decreases_to!((*a)->Object_0@[i as int] => (*a)->Object_0@[i as int].1));
                }
                if !str_eq(xs[i].0.as_str(), ys[i].0.as_str()) {
                    proof {
                        assert(xs@[i as int].0@ != ys@[i as int].0@);
                    }
                    return false;
                }
                if !json_eq(&xs[i].1, &ys[i].1) {
                    proof {
                        assert(!json_same(xs@[i as int].1, ys@[i as int].1));
                    }
                    return false;
                }
                i = i + 1;
            }
            true
        },
        _ => false,
    }
}

/// The value of the first member named `key`, when `value` is an object holding one.
pub open spec fn object_member(value: JsonValue, key: Seq<char>) -> Option<JsonValue> {
    match value {
        JsonValue::Object(members) => {
            if exists|i: int| 0 <= i < members.len() && (#[trigger] members@[i]).0@ == key {
                let i = choose|i: int|
                    0 <= i < members.len() && (#[trigger] members@[i]).0@ == key && forall|j: int|
                        0 <= j < i ==> (#[trigger] members@[j]).0@ != key;
                Some(members@[i].1)
            } else {
                None
            }
        },
        _ => None,
    }
}

/// `value.get(key)` for an object.
pub fn json_get<'a>(value: &'a JsonValue, key: &str) -> (r: Option<&'a JsonValue>)
    ensures
        r matches Some(v) ==> object_member(*value, key@) == Some(*v),
        r is None ==> object_member(*value, key@) is None,
{
    match value {
        JsonValue::Object(members) => {
            let mut i: usize = 0;
            while i < members.len()
                invariant
                    i <= members.len(),
                    *value == JsonValue::Object(*members),
                    forall|j: int| 0 <= j < i ==> (#[trigger] members@[j]).0@ != key@,
                decreases members.len() - i,
            {
                if str_eq(members[i].0.as_str(), key) {
                    proof {
                        let w = choose|w: int|
                            0 <= w < members.len() && (#[trigger] members@[w]).0@ == key@
                                && forall|j: int| 0 <= j < w ==> (#[trigger] members@[j]).0@ != key@;
                        assert(0 <= i < members.len() && members@[i as int].0@ == key@ && forall|j: int| 0 <= j < i ==> (#[trigger] members@[j]).0@ != key@);
                        if w < i {
                            assert(members@[w].0@ != key@);
                        } else if w > i {
                            assert(members@[i as int].0@ != key@);
                        }
                        assert(w == i);
                    }
                    return Some(&members[i].1);
                }
                i = i + 1;
            }
            None
        },
        _ => None,
    }
}

} // verus!
