//! Lexicographic ordering of texts and optional integers, as `str`'s and tuples' `Ord`.
use crate::text::str_chars;
use vstd::prelude::*;

verus! {

/// Three-way lexicographic comparison of character sequences (-1, 0 or 1); for
/// valid UTF-8 this is the byte order that `str`'s `Ord` uses.
pub open spec fn text_order(a: Seq<char>, b: Seq<char>) -> int
    decreases a.len(),
{
    if a.len() == 0 {
        if b.len() == 0 {
            0
        } else {
            -1
        }
    } else if b.len() == 0 {
        1
    } else if (a[0] as u32) < (b[0] as u32) {
        -1
    } else if (a[0] as u32) > (b[0] as u32) {
        1
    } else {
        text_order(a.drop_first(), b.drop_first())
    }
}

pub proof fn lemma_text_order_eq(a: Seq<char>, b: Seq<char>)
    ensures
        (text_order(a, b) == 0) == (a == b),
        text_order(a, b) == -text_order(b, a),
        -1 <= text_order(a, b) <= 1,
    decreases a.len(),
{
    if a.len() == 0 || b.len() == 0 {
        if a.len() == 0 && b.len() == 0 {
            assert(a =~= b);
        }
    } else if (a[0] as u32) == (b[0] as u32) {
        lemma_text_order_eq(a.drop_first(), b.drop_first());
        vstd::utf8::char_u32_cast(a[0], a[0] as u32);
        vstd::utf8::char_u32_cast(b[0], b[0] as u32);
        if a.drop_first() == b.drop_first() {
            assert(a =~= seq![a[0]] + a.drop_first());
            assert(b =~= seq![b[0]] + b.drop_first());
        }
        if a == b {
            assert(a.drop_first() =~= b.drop_first());
        }
    } else {
        if a == b {
            assert(a[0] == b[0]);
        }
    }
}

pub proof fn lemma_text_order_transitive(a: Seq<char>, b: Seq<char>, c: Seq<char>)
    requires
        text_order(a, b) < 0,
        text_order(b, c) < 0,
    ensures
        text_order(a, c) < 0,
    decreases a.len(),
{
    if a.len() > 0 && b.len() > 0 && c.len() > 0 {
        if (a[0] as u32) == (b[0] as u32) && (b[0] as u32) == (c[0] as u32) {
            lemma_text_order_transitive(a.drop_first(), b.drop_first(), c.drop_first());
        }
    }
}

/// Three-way comparison of two texts by the order above.
pub fn compare_text(a: &str, b: &str) -> (r: i8)
    ensures
        r as int == text_order(a@, b@),
{
    let x = str_chars(a);
    let y = str_chars(b);
    let mut i: usize = 0;
    proof {
        assert(a@.subrange(0, a@.len() as int) =~= a@);
        assert(b@.subrange(0, b@.len() as int) =~= b@);
    }
    while i < x.len() && i < y.len()
        invariant
            i <= x.len(),
            i <= y.len(),
            x@ == a@,
            y@ == b@,
            text_order(a@, b@) == text_order(a@.subrange(i as int, a@.len() as int), b@.subrange(i as int, b@.len() as int)),
        decreases x.len() - i,
    {
        let xa = x[i] as u32;
        let yb = y[i] as u32;
        proof {
            let sa = a@.subrange(i as int, a@.len() as int);
            let sb = b@.subrange(i as int, b@.len() as int);
            assert(sa[0] == x@[i as int]);
            assert(sb[0] == y@[i as int]);
            assert(sa.drop_first() =~= a@.subrange(i + 1, a@.len() as int));
            assert(sb.drop_first() =~= b@.subrange(i + 1, b@.len() as int));
        }
        if xa < yb {
            return -1;
        }
        if xa > yb {
            return 1;
        }
        i = i + 1;
    }
    if i < x.len() {
        1
    } else if i < y.len() {
        -1
    } else {
        0
    }
}

/// Three-way comparison of integers.
pub open spec fn int_order(a: int, b: int) -> int {
    if a < b {
        -1
    } else if a > b {
        1
    } else {
        0
    }
}

pub fn compare_i64(a: i64, b: i64) -> (r: i8)
    ensures
        r as int == int_order(a as int, b as int),
{
    if a < b {
        -1
    } else if a > b {
        1
    } else {
        0
    }
}

/// Lexicographic combination of two three-way comparisons.
pub open spec fn then_order(first: int, second: int) -> int {
    if first != 0 {
        first
    } else {
        second
    }
}

/// Ordering no later is transitive too.
pub proof fn lemma_text_order_le_transitive(a: Seq<char>, b: Seq<char>, c: Seq<char>)
    requires
        text_order(a, b) <= 0,
        text_order(b, c) <= 0,
    ensures
        text_order(a, c) <= 0,
{
    lemma_text_order_eq(a, b);
    lemma_text_order_eq(b, c);
    lemma_text_order_eq(a, c);
    if text_order(a, b) < 0 && text_order(b, c) < 0 {
        lemma_text_order_transitive(a, b, c);
    }
}

} // verus!
