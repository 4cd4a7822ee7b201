//! Paths as text: joining a relative component onto a base, as `Path::join` does
//! for components without a root.
use crate::text::push_char;
use crate::text::push_str;
use crate::text::to_owned_string;
use vstd::prelude::*;

verus! {

/// `base` joined with the relative component `part`.
pub open spec fn path_join(base: Seq<char>, part: Seq<char>) -> Seq<char> {
    if base.len() == 0 {
        part
    } else if base.last() == '/' {
        base + part
    } else {
        base + seq!['/'] + part
    }
}

pub fn join_path(base: &str, part: &str) -> (r: String)
    ensures
        r@ == path_join(base@, part@),
{
    let mut out = to_owned_string(base);
    let chars = crate::text::str_chars(base);
    if chars.len() > 0 && chars[chars.len() - 1] != '/' {
        push_char(&mut out, '/');
    }
    push_str(&mut out, part);
    proof {
        if base@.len() > 0 && base@.last() != '/' {
            assert(out@ =~= base@ + seq!['/'] + part@);
        }
    }
    out
}

} // verus!
