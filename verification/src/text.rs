//! Character-level text operations used throughout the Automation model.
use vstd::prelude::*;
use vstd::utf8::*;
use vstd::std_specs::iter::IteratorSpec;

verus! {

/// The characters of `s`, in order.
pub fn str_chars(s: &str) -> (r: Vec<char>)
    ensures
        r@ == s@,
{
    broadcast use {vstd::string::axiom_spec_iter, vstd::string::next_postcondition};
    let mut out: Vec<char> = Vec::new();
    let mut chars = s.chars();
    loop
        invariant
            out@ + chars.remaining() == s@,
            chars.decrease() is Some,
        ensures
            out@ == s@,
        decreases chars.decrease()->0,
    {
        let ghost before = chars.remaining();
        match chars.next() {
            Some(c) => {
                out.push(c);
                proof {
                    assert(out@ + chars.remaining() =~= s@) by {
                        assert(before =~= seq![c] + before.drop_first());
                    }
                }
            },
            None => {
                proof {
                    assert(out@ =~= s@);
                }
                break;
            },
        }
    }
    out
}

/// A string holding exactly the given characters.
pub fn string_from_chars(chars: &[char]) -> (r: String)
    ensures
        r@ == chars@,
{
    let mut out = String::new();
    let mut i: usize = 0;
    while i < chars.len()
        invariant
            i <= chars@.len(),
            out@ == chars@.take(i as int),
        decreases chars.len() - i,
    {
        push_char(&mut out, chars[i]);
        proof {
            assert(chars@.take(i + 1) =~= chars@.take(i as int).push(chars@[i as int]));
        }
        i = i + 1;
    }
    proof {
        assert(chars@.take(i as int) =~= chars@);
    }
    out
}

/// Appends one character to `s`.
#[verifier::external_body]
pub fn push_char(s: &mut String, c: char)
    ensures
        final(s)@ == old(s)@.push(c),
{
    s.push(c)
}

/// Appends a string slice to `s`.
pub fn push_str(s: &mut String, t: &str)
    ensures
        final(s)@ == old(s)@ + t@,
{
    s.append(t)
}

/// A fresh copy of a string slice.
pub fn to_owned_string(s: &str) -> (r: String)
    ensures
        r@ == s@,
{
    s.to_owned()
}

/// Unicode lowercasing as `str::to_lowercase` performs it.
pub uninterp spec fn spec_unicode_lowercase(s: Seq<char>) -> Seq<char>;

/// Calls `str::to_lowercase`; its result is named, not restated.
#[verifier::external_body]
pub fn unicode_lowercase(s: &str) -> (r: String)
    ensures
        r@ == spec_unicode_lowercase(s@),
{
    s.to_lowercase()
}

/// The characters carrying the Unicode `White_Space` property, which `str::trim` removes.
pub open spec fn is_whitespace(c: char) -> bool {
    let v = c as u32;
    ||| (0x09 <= v && v <= 0x0D)
    ||| v == 0x20
    ||| v == 0x85
    ||| v == 0xA0
    ||| v == 0x1680
    ||| (0x2000 <= v && v <= 0x200A)
    ||| v == 0x2028
    ||| v == 0x2029
    ||| v == 0x202F
    ||| v == 0x205F
    ||| v == 0x3000
}

pub fn char_is_whitespace(c: char) -> (r: bool)
    ensures
        r == is_whitespace(c),
{
    let v = c as u32;
    (0x09 <= v && v <= 0x0D) || v == 0x20 || v == 0x85 || v == 0xA0 || v == 0x1680 || (0x2000
        <= v && v <= 0x200A) || v == 0x2028 || v == 0x2029 || v == 0x202F || v == 0x205F || v
        == 0x3000
}

/// `s` without its leading whitespace.
pub open spec fn trim_start_seq(s: Seq<char>) -> Seq<char>
    decreases s.len(),
{
    if s.len() > 0 && is_whitespace(s[0]) {
        trim_start_seq(s.drop_first())
    } else {
        s
    }
}

/// `s` without its trailing whitespace.
pub open spec fn trim_end_seq(s: Seq<char>) -> Seq<char>
    decreases s.len(),
{
    if s.len() > 0 && is_whitespace(s.last()) {
        trim_end_seq(s.drop_last())
    } else {
        s
    }
}

/// `s` without leading and trailing whitespace, as `str::trim` returns it.
pub open spec fn trim_seq(s: Seq<char>) -> Seq<char> {
    trim_end_seq(trim_start_seq(s))
}

proof fn lemma_trim_start_skip(s: Seq<char>, i: int)
    requires
        0 <= i <= s.len(),
        forall|k: int| 0 <= k < i ==> is_whitespace(#[trigger] s[k]),
    ensures
        trim_start_seq(s) == trim_start_seq(s.subrange(i, s.len() as int)),
    decreases i,
{
    if i > 0 {
        assert(s.drop_first() =~= s.subrange(1, s.len() as int));
        lemma_trim_start_skip(s.drop_first(), i - 1);
        assert(s.drop_first().subrange(i - 1, s.drop_first().len() as int) =~= s.subrange(
            i,
            s.len() as int,
        ));
    } else {
        assert(s.subrange(0, s.len() as int) =~= s);
    }
}

proof fn lemma_trim_end_skip(s: Seq<char>, j: int)
    requires
        0 <= j <= s.len(),
        forall|k: int| j <= k < s.len() ==> is_whitespace(#[trigger] s[k]),
    ensures
        trim_end_seq(s) == trim_end_seq(s.subrange(0, j)),
    decreases s.len() - j,
{
    if j < s.len() {
        lemma_trim_end_skip(s.drop_last(), j);
        assert(s.drop_last().subrange(0, j) =~= s.subrange(0, j));
    } else {
        assert(s.subrange(0, j) =~= s);
    }
}

/// Bounds `(start, end)` of the trimmed part of `chars`.
pub fn trim_bounds(chars: &Vec<char>) -> (r: (usize, usize))
    ensures
        r.0 <= r.1 <= chars.len(),
        chars@.subrange(r.0 as int, r.1 as int) == trim_seq(chars@),
{
    let n = chars.len();
    let mut i: usize = 0;
    while i < n && char_is_whitespace(chars[i])
        invariant
            i <= n,
            n == chars.len(),
            forall|k: int| 0 <= k < i ==> is_whitespace(#[trigger] chars@[k]),
        decreases n - i,
    {
        i = i + 1;
    }
    proof {
        lemma_trim_start_skip(chars@, i as int);
        let rest = chars@.subrange(i as int, n as int);
        if rest.len() > 0 {
            assert(rest[0] == chars@[i as int]);
        }
        assert(trim_start_seq(rest) == rest);
    }
    let mut j: usize = n;
    while j > i && char_is_whitespace(chars[j - 1])
        invariant
            i <= j <= n,
            n == chars.len(),
            forall|k: int| j <= k < n ==> is_whitespace(#[trigger] chars@[k]),
        decreases j,
    {
        j = j - 1;
    }
    proof {
        let rest = chars@.subrange(i as int, n as int);
        lemma_trim_end_skip(rest, (j - i) as int);
        assert(rest.subrange(0, (j - i) as int) =~= chars@.subrange(i as int, j as int));
        let mid = chars@.subrange(i as int, j as int);
        if mid.len() > 0 {
            assert(mid.last() == chars@[j - 1]);
        }
        assert(trim_end_seq(mid) == mid);
    }
    (i, j)
}

/// `str::trim`, returning an owned string.
pub fn trim(s: &str) -> (r: String)
    ensures
        r@ == trim_seq(s@),
{
    let chars = str_chars(s);
    let (a, b) = trim_bounds(&chars);
    string_from_chars(slice_subrange(chars.as_slice(), a, b))
}

/// A sub-slice of `s`.
pub fn slice_subrange<T>(s: &[T], from: usize, to: usize) -> (r: &[T])
    requires
        from <= to <= s@.len(),
    ensures
        r@ == s@.subrange(from as int, to as int),
{
    &s[from..to]
}

/// Lowercase of an ASCII letter; every other character is unchanged.
pub open spec fn ascii_lower(c: char) -> char {
    if 'A' <= c && c <= 'Z' {
        ((c as u32) + 32) as char
    } else {
        c
    }
}

pub open spec fn ascii_lower_seq(s: Seq<char>) -> Seq<char> {
    s.map_values(|c: char| ascii_lower(c))
}

pub fn char_to_ascii_lowercase(c: char) -> (r: char)
    ensures
        r == ascii_lower(c),
{
    if 'A' <= c && c <= 'Z' {
        let v = (c as u32) + 32;
        proof {
            assert(0x61 <= v && v <= 0x7A);
        }
        char_from_ascii(v)
    } else {
        c
    }
}

/// The character with the given ASCII code.
pub(crate) fn char_from_ascii(v: u32) -> (r: char)
    requires
        v < 128,
    ensures
        r == v as char,
{
    let b: u8 = v as u8;
    b as char
}

/// `str::to_ascii_lowercase`.
pub fn to_ascii_lowercase(s: &str) -> (r: String)
    ensures
        r@ == ascii_lower_seq(s@),
{
    let chars = str_chars(s);
    let mut out: Vec<char> = Vec::new();
    let mut i: usize = 0;
    while i < chars.len()
        invariant
            i <= chars.len(),
            chars@ == s@,
            out@ == ascii_lower_seq(s@.subrange(0, i as int)),
        decreases chars.len() - i,
    {
        out.push(char_to_ascii_lowercase(chars[i]));
        i = i + 1;
        assert(ascii_lower_seq(s@.subrange(0, i as int)) =~= ascii_lower_seq(
            s@.subrange(0, i - 1),
        ).push(ascii_lower(s@[i - 1])));
    }
    assert(s@.subrange(0, i as int) =~= s@);
    string_from_chars(out.as_slice())
}

/// Whether two texts are equal ignoring ASCII case, as `str::eq_ignore_ascii_case`.
pub open spec fn eq_ignore_ascii_case_spec(a: Seq<char>, b: Seq<char>) -> bool {
    ascii_lower_seq(a) == ascii_lower_seq(b)
}

pub fn eq_ignore_ascii_case(a: &str, b: &str) -> (r: bool)
    ensures
        r == eq_ignore_ascii_case_spec(a@, b@),
{
    let x = str_chars(a);
    let y = str_chars(b);
    if x.len() != y.len() {
        proof {
            assert(ascii_lower_seq(a@).len() != ascii_lower_seq(b@).len());
        }
        return false;
    }
    let mut i: usize = 0;
    while i < x.len()
        invariant
            i <= x.len(),
            x.len() == y.len(),
            x@ == a@,
            y@ == b@,
            forall|k: int| 0 <= k < i ==> ascii_lower(#[trigger] x@[k]) == ascii_lower(y@[k]),
        decreases x.len() - i,
    {
        if char_to_ascii_lowercase(x[i]) != char_to_ascii_lowercase(y[i]) {
            proof {
                assert(ascii_lower_seq(a@)[i as int] != ascii_lower_seq(b@)[i as int]);
            }
            return false;
        }
        i = i + 1;
    }
    proof {
        assert(ascii_lower_seq(a@) =~= ascii_lower_seq(b@));
    }
    true
}

/// Byte-wise equality of two texts.
pub fn str_eq(a: &str, b: &str) -> (r: bool)
    ensures
        r == (a@ == b@),
{
    let x = str_chars(a);
    let y = str_chars(b);
    if x.len() != y.len() {
        return false;
    }
    let mut i: usize = 0;
    while i < x.len()
        invariant
            i <= x.len(),
            x.len() == y.len(),
            x@ == a@,
            y@ == b@,
            forall|k: int| 0 <= k < i ==> #[trigger] x@[k] == y@[k],
        decreases x.len() - i,
    {
        if x[i] != y[i] {
            return false;
        }
        i = i + 1;
    }
    proof {
        assert(a@ =~= b@);
    }
    true
}

/// Number of UTF-8 bytes that encode `c`.
pub open spec fn char_width(c: char) -> nat {
    let v = c as u32;
    if v <= 0x7F {
        1
    } else if v <= 0x7FF {
        2
    } else if v <= 0xFFFF {
        3
    } else {
        4
    }
}

/// Number of UTF-8 bytes that encode `s`: what `str::len` returns.
pub open spec fn utf8_len(s: Seq<char>) -> nat
    decreases s.len(),
{
    if s.len() == 0 {
        0
    } else {
        char_width(s[0]) + utf8_len(s.drop_first())
    }
}

pub proof fn lemma_utf8_len_encode(s: Seq<char>)
    ensures
        encode_utf8(s).len() == utf8_len(s),
    decreases s.len(),
{
    if s.len() > 0 {
        char_is_scalar(s[0]);
        lemma_utf8_len_encode(s.drop_first());
    }
}

pub proof fn lemma_utf8_len_zero(s: Seq<char>)
    ensures
        (utf8_len(s) == 0) == (s.len() == 0),
{
}

pub proof fn lemma_utf8_len_push(s: Seq<char>, c: char)
    ensures
        utf8_len(s.push(c)) == utf8_len(s) + char_width(c),
    decreases s.len(),
{
    if s.len() == 0 {
        assert(s.push(c).drop_first() =~= Seq::<char>::empty());
        assert(s.push(c)[0] == c);
        assert(utf8_len(Seq::<char>::empty()) == 0);
    } else {
        lemma_utf8_len_push(s.drop_first(), c);
        assert(s.push(c).drop_first() =~= s.drop_first().push(c));
        assert(s.push(c)[0] == s[0]);
    }
}

pub proof fn lemma_utf8_len_concat(a: Seq<char>, b: Seq<char>)
    ensures
        utf8_len(a + b) == utf8_len(a) + utf8_len(b),
    decreases a.len(),
{
    if a.len() == 0 {
        assert(a + b =~= b);
    } else {
        lemma_utf8_len_concat(a.drop_first(), b);
        assert((a + b).drop_first() =~= a.drop_first() + b);
    }
}

pub fn char_utf8_width(c: char) -> (r: usize)
    ensures
        r == char_width(c),
{
    let v = c as u32;
    if v <= 0x7F {
        1
    } else if v <= 0x7FF {
        2
    } else if v <= 0xFFFF {
        3
    } else {
        4
    }
}

/// The byte length of `s`, what `str::len` returns.
pub fn utf8_byte_len(s: &str) -> (r: usize)
    ensures
        r == utf8_len(s@),
{
    proof {
        lemma_utf8_len_encode(s@);
    }
    let bytes = s.as_bytes();
    bytes.len()
}

/// The longest prefix of `s` whose UTF-8 encoding fits in `budget` bytes.
pub open spec fn fit_prefix(s: Seq<char>, budget: int) -> Seq<char>
    decreases s.len(),
{
    if s.len() == 0 || char_width(s[0]) > budget {
        Seq::empty()
    } else {
        seq![s[0]] + fit_prefix(s.drop_first(), budget - char_width(s[0]))
    }
}

proof fn lemma_fit_prefix_step(s: Seq<char>, budget: int, i: int, used: int)
    requires
        0 <= i < s.len(),
        used == utf8_len(s.subrange(0, i)),
        fit_prefix(s, budget) == s.subrange(0, i) + fit_prefix(
            s.subrange(i, s.len() as int),
            budget - used,
        ),
        used + char_width(s[i]) <= budget,
    ensures
        fit_prefix(s, budget) == s.subrange(0, i + 1) + fit_prefix(
            s.subrange(i + 1, s.len() as int),
            budget - used - char_width(s[i]),
        ),
{
    let rest = s.subrange(i, s.len() as int);
    assert(rest[0] == s[i]);
    assert(rest.drop_first() =~= s.subrange(i + 1, s.len() as int));
    assert(s.subrange(0, i) + seq![s[i]] =~= s.subrange(0, i + 1));
    assert(fit_prefix(rest, budget - used) == seq![s[i]] + fit_prefix(
        rest.drop_first(),
        budget - used - char_width(s[i]),
    ));
    assert(s.subrange(0, i) + (seq![s[i]] + fit_prefix(
        rest.drop_first(),
        budget - used - char_width(s[i]),
    )) =~= s.subrange(0, i + 1) + fit_prefix(
        rest.drop_first(),
        budget - used - char_width(s[i]),
    ));
}

/// Number of leading characters of `chars` that fit in `budget` bytes.
pub fn fit_prefix_len(chars: &Vec<char>, budget: usize) -> (r: usize)
    ensures
        r <= chars.len(),
        chars@.subrange(0, r as int) == fit_prefix(chars@, budget as int),
        utf8_len(chars@.subrange(0, r as int)) <= budget,
{
    let mut i: usize = 0;
    let mut used: usize = 0;
    proof {
        assert(chars@.subrange(0, 0) + fit_prefix(chars@.subrange(0, chars@.len() as int), budget as int) =~= fit_prefix(chars@, budget as int)) by {
            assert(chars@.subrange(0, chars@.len() as int) =~= chars@);
        }
    }
    while i < chars.len()
        invariant
            i <= chars.len(),
            used <= budget,
            used == utf8_len(chars@.subrange(0, i as int)),
            fit_prefix(chars@, budget as int) == chars@.subrange(0, i as int) + fit_prefix(
                chars@.subrange(i as int, chars@.len() as int),
                budget - used,
            ),
        decreases chars.len() - i,
    {
        let w = char_utf8_width(chars[i]);
        if w > budget - used {
            proof {
                let rest = chars@.subrange(i as int, chars@.len() as int);
                assert(rest[0] == chars@[i as int]);
                assert(fit_prefix(rest, budget - used) =~= Seq::<char>::empty());
                assert(chars@.subrange(0, i as int) + Seq::<char>::empty() =~= chars@.subrange(0, i as int));
            }
            return i;
        }
        proof {
            lemma_fit_prefix_step(chars@, budget as int, i as int, used as int);
            lemma_utf8_len_push(chars@.subrange(0, i as int), chars@[i as int]);
            assert(chars@.subrange(0, i as int).push(chars@[i as int]) =~= chars@.subrange(0, i + 1));
        }
        used = used + w;
        i = i + 1;
    }
    proof {
        let rest = chars@.subrange(i as int, chars@.len() as int);
        assert(rest.len() == 0);
        assert(chars@.subrange(0, i as int) + fit_prefix(rest, budget - used) =~= chars@.subrange(0, i as int));
    }
    i
}

/// `value` unchanged when it fits in `max_bytes`; otherwise the longest prefix
/// that leaves room for an ellipsis, followed by `…` (or nothing when even the
/// ellipsis does not fit).
pub open spec fn bounded_preview_spec(value: Seq<char>, max_bytes: int) -> Seq<char> {
    if utf8_len(value) <= max_bytes {
        value
    } else if max_bytes < 3 {
        Seq::empty()
    } else {
        fit_prefix(value, max_bytes - 3).push('…')
    }
}

/// The prefix that fits a budget is within it.
pub proof fn lemma_fit_prefix_fits(s: Seq<char>, budget: int)
    requires
        budget >= 0,
    ensures
        utf8_len(fit_prefix(s, budget)) <= budget,
        fit_prefix(s, budget).len() <= s.len(),
    decreases s.len(),
{
    if !(s.len() == 0 || char_width(s[0]) > budget) {
        lemma_fit_prefix_fits(s.drop_first(), budget - char_width(s[0]));
        lemma_utf8_len_concat(seq![s[0]], fit_prefix(s.drop_first(), budget - char_width(s[0])));
        let one = seq![s[0]];
        assert(one.drop_first() =~= Seq::<char>::empty());
        assert(utf8_len(one.drop_first()) == 0);
        assert(utf8_len(one) == char_width(s[0]));
    }
}

/// A bounded preview fits its byte budget.
pub proof fn lemma_bounded_preview_fits(value: Seq<char>, max_bytes: int)
    requires
        max_bytes >= 0,
    ensures
        utf8_len(bounded_preview_spec(value, max_bytes)) <= max_bytes,
{
    if utf8_len(value) > max_bytes && max_bytes >= 3 {
        lemma_fit_prefix_fits(value, max_bytes - 3);
        lemma_utf8_len_push(fit_prefix(value, max_bytes - 3), '…');
        assert(('…' as u32) == 0x2026);
    } else if utf8_len(value) > max_bytes {
        assert(utf8_len(Seq::<char>::empty()) == 0);
    }
}

pub fn bounded_preview(value: &str, max_bytes: usize) -> (r: String)
    ensures
        r@ == bounded_preview_spec(value@, max_bytes as int),
{
    if utf8_byte_len(value) <= max_bytes {
        return to_owned_string(value);
    }
    if max_bytes < 3 {
        return String::new();
    }
    let chars = str_chars(value);
    let k = fit_prefix_len(&chars, max_bytes - 3);
    let mut out = string_from_chars(slice_subrange(chars.as_slice(), 0, k));
    push_char(&mut out, '…');
    out
}

/// Decimal digits of `n`, as `u64`'s `Display` writes them.
pub open spec fn decimal(n: nat) -> Seq<char>
    decreases n,
{
    if n < 10 {
        seq![digit_char(n)]
    } else {
        decimal(n / 10).push(digit_char(n % 10))
    }
}

pub open spec fn digit_char(d: nat) -> char {
    if d == 0 {
        '0'
    } else if d == 1 {
        '1'
    } else if d == 2 {
        '2'
    } else if d == 3 {
        '3'
    } else if d == 4 {
        '4'
    } else if d == 5 {
        '5'
    } else if d == 6 {
        '6'
    } else if d == 7 {
        '7'
    } else if d == 8 {
        '8'
    } else {
        '9'
    }
}

fn digit(d: u64) -> (c: char)
    requires
        d < 10,
    ensures
        c == digit_char(d as nat),
{
    if d == 0 {
        '0'
    } else if d == 1 {
        '1'
    } else if d == 2 {
        '2'
    } else if d == 3 {
        '3'
    } else if d == 4 {
        '4'
    } else if d == 5 {
        '5'
    } else if d == 6 {
        '6'
    } else if d == 7 {
        '7'
    } else if d == 8 {
        '8'
    } else {
        '9'
    }
}

fn decimal_chars(n: u64) -> (r: Vec<char>)
    ensures
        r@ == decimal(n as nat),
    decreases n,
{
    if n < 10 {
        let mut v = Vec::new();
        v.push(digit(n));
        v
    } else {
        let mut v = decimal_chars(n / 10);
        v.push(digit(n % 10));
        v
    }
}

/// `n.to_string()`.
pub fn u64_to_string(n: u64) -> (r: String)
    ensures
        r@ == decimal(n as nat),
{
    let v = decimal_chars(n);
    string_from_chars(v.as_slice())
}

/// Concatenation of two texts.
pub fn concat(a: &str, b: &str) -> (r: String)
    ensures
        r@ == a@ + b@,
{
    let mut s = to_owned_string(a);
    push_str(&mut s, b);
    s
}

/// Whether `s` holds `c`.
pub fn contains_char(s: &str, c: char) -> (r: bool)
    ensures
        r == s@.contains(c),
{
    let chars = str_chars(s);
    let mut i: usize = 0;
    while i < chars.len()
        invariant
            i <= chars.len(),
            chars@ == s@,
            forall|k: int| 0 <= k < i ==> chars@[k] != c,
        decreases chars.len() - i,
    {
        if chars[i] == c {
            return true;
        }
        i = i + 1;
    }
    false
}

} // verus!
