//! Path segments derived from tracker identifiers, and canonical pull-request links.
use crate::text::ascii_lower;
use crate::text::char_to_ascii_lowercase;
use crate::text::decimal;
use crate::text::digit_char;
use crate::text::is_whitespace;
use crate::text::trim_end_seq;
use crate::text::trim_start_seq;
use crate::text::trim_seq;
use vstd::prelude::*;

verus! {

pub open spec fn is_ascii_alphanumeric(c: char) -> bool {
    ('0' <= c && c <= '9') || ('a' <= c && c <= 'z') || ('A' <= c && c <= 'Z')
}

/// A character kept in a path segment: ASCII alphanumerics (lowercased), `-` and `_`; anything else becomes `-`.
pub open spec fn segment_char(c: char) -> char {
    if is_ascii_alphanumeric(c) || c == '-' || c == '_' { ascii_lower(c) } else { '-' }
}

/// `s` without leading `-`.
pub open spec fn trim_dash_start(s: Seq<char>) -> Seq<char>
    decreases s.len(),
{
    if s.len() > 0 && s[0] == '-' { trim_dash_start(s.drop_first()) } else { s }
}

/// `s` without trailing `-`.
pub open spec fn trim_dash_end(s: Seq<char>) -> Seq<char>
    decreases s.len(),
{
    if s.len() > 0 && s.last() == '-' { trim_dash_end(s.drop_last()) } else { s }
}

/// The worktree segment of an issue identifier: mapped, trimmed of `-`, at most
/// 48 characters, and `issue` when nothing is left.
pub open spec fn safe_segment_spec(value: Seq<char>) -> Seq<char> {
    let mapped = value.map_values(|c: char| segment_char(c));
    let trimmed = trim_dash_end(trim_dash_start(mapped));
    let bounded = if trimmed.len() <= 48 { trimmed } else { trimmed.take(48) };
    if bounded.len() == 0 { "issue"@ } else { bounded }
}

proof fn lemma_trim_dash_start_skip(s: Seq<char>, i: int)
    requires
        0 <= i <= s.len(),
        forall|k: int| 0 <= k < i ==> #[trigger] s[k] == '-',
    ensures
        trim_dash_start(s) == trim_dash_start(s.subrange(i, s.len() as int)),
    decreases i,
{
    if i > 0 {
        assert(s.drop_first() =~= s.subrange(1, s.len() as int));
        lemma_trim_dash_start_skip(s.drop_first(), i - 1);
        assert(s.drop_first().subrange(i - 1, s.drop_first().len() as int) =~= s.subrange(i, s.len() as int));
    } else {
        assert(s.subrange(0, s.len() as int) =~= s);
    }
}

proof fn lemma_trim_dash_end_skip(s: Seq<char>, j: int)
    requires
        0 <= j <= s.len(),
        forall|k: int| j <= k < s.len() ==> #[trigger] s[k] == '-',
    ensures
        trim_dash_end(s) == trim_dash_end(s.subrange(0, j)),
    decreases s.len() - j,
{
    if j < s.len() {
        lemma_trim_dash_end_skip(s.drop_last(), j);
        assert(s.drop_last().subrange(0, j) =~= s.subrange(0, j));
    } else {
        assert(s.subrange(0, j) =~= s);
    }
}

fn segment_char_of(c: char) -> (r: char)
    ensures
        r == segment_char(c),
{
    if ('0' <= c && c <= '9') || ('a' <= c && c <= 'z') || ('A' <= c && c <= 'Z') || c == '-' || c == '_' {
        char_to_ascii_lowercase(c)
    } else {
        '-'
    }
}

/// A path segment for an issue identifier.
pub fn safe_segment(value: &str) -> (r: String)
    ensures
        r@ == safe_segment_spec(value@),
        r@.len() > 0,
{
    let chars = crate::text::str_chars(value);
    let mut mapped: Vec<char> = Vec::new();
    let mut i: usize = 0;
    while i < chars.len()
        invariant
            i <= chars.len(),
            chars@ == value@,
            mapped@ == value@.take(i as int).map_values(|c: char| segment_char(c)),
        decreases chars.len() - i,
    {
        mapped.push(segment_char_of(chars[i]));
        proof {
            assert(value@.take(i + 1).map_values(|c: char| segment_char(c)) =~= value@.take(i as int).map_values(|c: char| segment_char(c)).push(segment_char(value@[i as int])));
        }
        i = i + 1;
    }
    proof {
        assert(value@.take(value@.len() as int) =~= value@);
    }
    let n = mapped.len();
    let mut a: usize = 0;
    while a < n && mapped[a] == '-'
        invariant
            a <= n,
            n == mapped.len(),
            forall|k: int| 0 <= k < a ==> #[trigger] mapped@[k] == '-',
        decreases n - a,
    {
        a = a + 1;
    }
    proof {
        lemma_trim_dash_start_skip(mapped@, a as int);
        let rest = mapped@.subrange(a as int, n as int);
        if rest.len() > 0 {
            assert(rest[0] == mapped@[a as int]);
        }
        assert(trim_dash_start(rest) == rest);
    }
    let mut b: usize = n;
    while b > a && mapped[b - 1] == '-'
        invariant
            a <= b <= n,
            n == mapped.len(),
            forall|k: int| b <= k < n ==> #[trigger] mapped@[k] == '-',
        decreases b,
    {
        b = b - 1;
    }
    proof {
        let rest = mapped@.subrange(a as int, n as int);
        lemma_trim_dash_end_skip(rest, (b - a) as int);
        assert(rest.subrange(0, (b - a) as int) =~= mapped@.subrange(a as int, b as int));
        let mid = mapped@.subrange(a as int, b as int);
        if mid.len() > 0 {
            assert(mid.last() == mapped@[b - 1]);
        }
        assert(trim_dash_end(mid) == mid);
    }
    let end = if b - a <= 48 { b } else { a + 48 };
    if end == a {
        proof {
            reveal_strlit("issue");
        }
        return crate::text::to_owned_string("issue");
    }
    let out = crate::text::string_from_chars(crate::text::slice_subrange(mapped.as_slice(), a, end));
    proof {
        let trimmed = mapped@.subrange(a as int, b as int);
        if trimmed.len() > 48 {
            assert(mapped@.subrange(a as int, end as int) =~= trimmed.take(48));
        }
    }
    out
}


/// The length of the part of `s` before the first `?` or `#`.
pub open spec fn before_query_len(s: Seq<char>) -> nat
    decreases s.len(),
{
    if s.len() == 0 || s[0] == '?' || s[0] == '#' { 0 } else { 1 + before_query_len(s.drop_first()) }
}

/// `s` without trailing `/`.
pub open spec fn trim_slash_end(s: Seq<char>) -> Seq<char>
    decreases s.len(),
{
    if s.len() > 0 && s.last() == '/' { trim_slash_end(s.drop_last()) } else { s }
}

/// The length of the part of `s` before its first `/`.
pub open spec fn first_slash(s: Seq<char>) -> nat
    decreases s.len(),
{
    if s.len() == 0 || s[0] == '/' { 0 } else { 1 + first_slash(s.drop_first()) }
}

/// The parts of `s` between `/` separators.
pub open spec fn split_slash(s: Seq<char>) -> Seq<Seq<char>>
    decreases s.len(),
{
    let i = first_slash(s);
    if i >= s.len() {
        seq![s]
    } else {
        seq![s.take(i as int)] + split_slash(s.skip(i as int + 1))
    }
}

pub open spec fn is_digit(c: char) -> bool {
    '0' <= c && c <= '9'
}

/// The value of a string of decimal digits.
pub open spec fn digits_value(s: Seq<char>) -> nat
    decreases s.len(),
{
    if s.len() == 0 { 0 } else { digits_value(s.drop_last()) * 10 + ((s.last() as u32) - 48) as nat }
}

/// The digits of a number: without a leading `+`.
pub open spec fn digits_of(s: Seq<char>) -> Seq<char> {
    if s.len() > 0 && s[0] == '+' { s.drop_first() } else { s }
}

pub open spec fn all_digits(d: Seq<char>) -> bool {
    forall|i: int| 0 <= i < d.len() ==> is_digit(#[trigger] d[i])
}

/// `u64::from_str`: an optional `+`, then one or more digits, within range.
pub open spec fn parse_u64_spec(s: Seq<char>) -> Option<u64> {
    let digits = digits_of(s);
    if digits.len() > 0 && all_digits(digits) && digits_value(digits) <= u64::MAX {
        Some(digits_value(digits) as u64)
    } else {
        None
    }
}

pub open spec fn link_segment_char(c: char) -> bool {
    is_ascii_alphanumeric(c) || c == '-' || c == '_' || c == '.'
}

/// An owner or repository name: 1..=100 of ASCII alphanumerics, `-`, `_` and `.`.
pub open spec fn link_segment_ok(s: Seq<char>) -> bool {
    s.len() > 0 && s.len() <= 100 && forall|i: int| 0 <= i < s.len() ==> link_segment_char(#[trigger] s[i])
}

/// The canonical link of a GitHub pull request, when `value` names one: query and
/// fragment dropped, trailing `/` dropped, exactly `owner/repository/pull/number`.
pub open spec fn normalized_pull_request(value: Seq<char>) -> Option<Seq<char>> {
    let t = trim_seq(value);
    let base = trim_slash_end(t.take(before_query_len(t) as int));
    let prefix = "https://github.com/"@;
    if base.len() < prefix.len() || base.take(prefix.len() as int) != prefix {
        None
    } else {
        let parts = split_slash(base.skip(prefix.len() as int));
        if parts.len() != 4 || parts[2] != "pull"@ {
            None
        } else {
            match parse_u64_spec(parts[3]) {
                Some(n) => if n > 0 && link_segment_ok(parts[0]) && link_segment_ok(parts[1]) {
                    Some(prefix + parts[0] + "/"@ + parts[1] + "/pull/"@ + decimal(n as nat))
                } else {
                    None
                },
                None => None,
            }
        }
    }
}

proof fn lemma_digits_value_monotone(s: Seq<char>, i: int)
    requires
        0 <= i <= s.len(),
        forall|k: int| 0 <= k < s.len() ==> is_digit(#[trigger] s[k]),
    ensures
        digits_value(s.take(i)) <= digits_value(s),
    decreases s.len() - i,
{
    if i < s.len() {
        assert(s.drop_last().take(i) =~= s.take(i));
        assert forall|k: int| 0 <= k < s.drop_last().len() implies is_digit(#[trigger] s.drop_last()[k]) by {
            assert(s.drop_last()[k] == s[k]);
        }
        lemma_digits_value_monotone(s.drop_last(), i);
    } else {
        assert(s.take(i) =~= s);
    }
}

fn parse_u64(s: &[char]) -> (r: Option<u64>)
    ensures
        r == parse_u64_spec(s@),
{
    let start: usize = if s.len() > 0 && s[0] == '+' { 1 } else { 0 };
    let ghost digits = if s@.len() > 0 && s@[0] == '+' { s@.drop_first() } else { s@ };
    proof {
        assert(digits =~= s@.skip(start as int));
    }
    if start == s.len() {
        return None;
    }
    let mut v: u64 = 0;
    let mut i: usize = start;
    while i < s.len()
        invariant
            start <= i <= s@.len(),
            digits == s@.skip(start as int),
            digits == digits_of(s@),
            digits.len() > 0,
            forall|k: int| start <= k < i ==> is_digit(#[trigger] s@[k]),
            v == digits_value(digits.take(i - start)),
        decreases s.len() - i,
    {
        let c = s[i];
        if !('0' <= c && c <= '9') {
            proof {
                assert(digits[i - start] == c);
                assert(!is_digit(digits[i - start]));
            }
            return None;
        }
        let d = (c as u32 - 48) as u64;
        proof {
            assert(digits.take(i - start + 1).drop_last() =~= digits.take(i - start));
            assert(digits.take(i - start + 1).last() == c);
        }
        let next = match v.checked_mul(10) {
            Some(x) => x.checked_add(d),
            None => None,
        };
        match next {
            Some(x) => v = x,
            None => {
                proof {
                    assert(digits_value(digits.take(i - start + 1)) == v * 10 + d);
                    if all_digits(digits) {
                        lemma_digits_value_monotone(digits, i - start + 1);
                    }
                }
                return None;
            },
        }
        i = i + 1;
    }
    proof {
        assert(digits.take(digits.len() as int) =~= digits);
        assert forall|k: int| 0 <= k < digits.len() implies is_digit(#[trigger] digits[k]) by {
            assert(digits[k] == s@[k + start]);
        }
    }
    Some(v)
}


proof fn lemma_first_stop(s: Seq<char>, k: int)
    requires
        0 <= k <= s.len(),
        forall|j: int| 0 <= j < k ==> (#[trigger] s[j]) != '?' && s[j] != '#',
    ensures
        before_query_len(s) == k + before_query_len(s.skip(k)),
    decreases k,
{
    if k > 0 {
        assert(s.drop_first().skip(k - 1) =~= s.skip(k));
        lemma_first_stop(s.drop_first(), k - 1);
    } else {
        assert(s.skip(0) =~= s);
    }
}

pub proof fn lemma_first_slash(s: Seq<char>, k: int)
    requires
        0 <= k <= s.len(),
        forall|j: int| 0 <= j < k ==> (#[trigger] s[j]) != '/',
    ensures
        first_slash(s) == k + first_slash(s.skip(k)),
    decreases k,
{
    if k > 0 {
        assert(s.drop_first().skip(k - 1) =~= s.skip(k));
        lemma_first_slash(s.drop_first(), k - 1);
    } else {
        assert(s.skip(0) =~= s);
    }
}

proof fn lemma_trim_slash_skip(s: Seq<char>, j: int)
    requires
        0 <= j <= s.len(),
        forall|k: int| j <= k < s.len() ==> #[trigger] s[k] == '/',
    ensures
        trim_slash_end(s) == trim_slash_end(s.take(j)),
    decreases s.len() - j,
{
    if j < s.len() {
        lemma_trim_slash_skip(s.drop_last(), j);
        assert(s.drop_last().take(j) =~= s.take(j));
    } else {
        assert(s.take(j) =~= s);
    }
}

fn copy_range(s: &Vec<char>, a: usize, b: usize) -> (r: Vec<char>)
    requires
        a <= b <= s@.len(),
    ensures
        r@ == s@.subrange(a as int, b as int),
{
    let mut out: Vec<char> = Vec::new();
    let mut i: usize = a;
    while i < b
        invariant
            a <= i <= b,
            b <= s@.len(),
            out@ == s@.subrange(a as int, i as int),
        decreases b - i,
    {
        out.push(s[i]);
        proof {
            assert(out@ =~= s@.subrange(a as int, i + 1));
        }
        i = i + 1;
    }
    out
}

/// The parts of `s` between `/` separators.
pub fn split_on_slash(s: &Vec<char>) -> (r: Vec<Vec<char>>)
    ensures
        r@.map_values(|p: Vec<char>| p@) == split_slash(s@),
{
    let mut parts: Vec<Vec<char>> = Vec::new();
    let mut start: usize = 0;
    proof {
        assert(s@.skip(0) =~= s@);
        assert(parts@.map_values(|p: Vec<char>| p@) =~= Seq::<Seq<char>>::empty());
        assert(Seq::<Seq<char>>::empty() + split_slash(s@) =~= split_slash(s@));
    }
    loop
        invariant
            start <= s@.len(),
            split_slash(s@) == parts@.map_values(|p: Vec<char>| p@) + split_slash(s@.skip(start as int)),
        decreases s@.len() - start,
    {
        let ghost rest = s@.skip(start as int);
        let mut k: usize = start;
        while k < s.len() && s[k] != '/'
            invariant
                start <= k <= s@.len(),
                rest == s@.skip(start as int),
                forall|j: int| start <= j < k ==> (#[trigger] s@[j]) != '/',
            decreases s@.len() - k,
        {
            k = k + 1;
        }
        proof {
            assert forall|j: int| 0 <= j < k - start implies (#[trigger] rest[j]) != '/' by {
                assert(rest[j] == s@[start + j]);
            }
            lemma_first_slash(rest, (k - start) as int);
            if k < s@.len() {
                assert(rest.skip(k - start)[0] == s@[k as int]);
            }
            assert(rest.skip(k - start) =~= s@.skip(k as int));
        }
        let part = copy_range(s, start, k);
        let ghost before = parts@.map_values(|p: Vec<char>| p@);
        if k >= s.len() {
            parts.push(part);
            proof {
                assert(rest.take((k - start) as int) =~= rest);
                assert(split_slash(rest) == seq![rest]);
                assert(parts@.map_values(|p: Vec<char>| p@) =~= before + seq![rest]);
            }
            return parts;
        }
        parts.push(part);
        proof {
            assert(rest.take((k - start) as int) =~= s@.subrange(start as int, k as int));
            assert(rest.skip(k - start + 1) =~= s@.skip(k + 1));
            assert(parts@.map_values(|p: Vec<char>| p@) =~= before + seq![s@.subrange(start as int, k as int)]);
        }
        start = k + 1;
    }
}


fn is_link_segment(s: &Vec<char>) -> (r: bool)
    ensures
        r == link_segment_ok(s@),
{
    if s.len() == 0 || s.len() > 100 {
        return false;
    }
    let mut i: usize = 0;
    while i < s.len()
        invariant
            i <= s@.len(),
            forall|k: int| 0 <= k < i ==> link_segment_char(#[trigger] s@[k]),
        decreases s.len() - i,
    {
        let c = s[i];
        if !(('0' <= c && c <= '9') || ('a' <= c && c <= 'z') || ('A' <= c && c <= 'Z') || c == '-' || c == '_' || c == '.') {
            return false;
        }
        i = i + 1;
    }
    true
}

fn chars_equal(a: &Vec<char>, b: &Vec<char>) -> (r: bool)
    ensures
        r == (a@ == b@),
{
    if a.len() != b.len() {
        return false;
    }
    let mut i: usize = 0;
    while i < a.len()
        invariant
            i <= a@.len(),
            a@.len() == b@.len(),
            forall|k: int| 0 <= k < i ==> a@[k] == b@[k],
        decreases a.len() - i,
    {
        if a[i] != b[i] {
            return false;
        }
        i = i + 1;
    }
    proof {
        assert(a@ =~= b@);
    }
    true
}

/// The canonical HTTPS link of a GitHub pull request, or `None` when `value`
/// does not name one.
pub fn normalize_pull_request_url(value: &str) -> (r: Option<String>)
    ensures
        match r {
            Some(x) => normalized_pull_request(value@) == Some(x@),
            None => normalized_pull_request(value@) is None,
        },
{
    let trimmed = crate::text::trim(value);
    let t = crate::text::str_chars(trimmed.as_str());
    let ghost tv = trim_seq(value@);
    let mut stop: usize = 0;
    while stop < t.len() && t[stop] != '?' && t[stop] != '#'
        invariant
            stop <= t@.len(),
            t@ == tv,
            forall|j: int| 0 <= j < stop ==> (#[trigger] t@[j]) != '?' && t@[j] != '#',
        decreases t@.len() - stop,
    {
        stop = stop + 1;
    }
    proof {
        lemma_first_stop(tv, stop as int);
        if stop < t@.len() {
            assert(tv.skip(stop as int)[0] == t@[stop as int]);
        }
        assert(before_query_len(tv) == stop);
    }
    let mut end: usize = stop;
    while end > 0 && t[end - 1] == '/'
        invariant
            end <= stop <= t@.len(),
            t@ == tv,
            forall|k: int| end <= k < stop ==> #[trigger] t@[k] == '/',
        decreases end,
    {
        end = end - 1;
    }
    proof {
        let cut = tv.take(stop as int);
        assert forall|k: int| end <= k < cut.len() implies #[trigger] cut[k] == '/' by {
            assert(cut[k] == t@[k]);
        }
        lemma_trim_slash_skip(cut, end as int);
        assert(cut.take(end as int) =~= tv.take(end as int));
        let base = tv.take(end as int);
        if end > 0 {
            assert(base.last() == t@[end - 1]);
        }
        assert(trim_slash_end(base) == base);
    }
    let ghost base = tv.take(end as int);
    let prefix = crate::text::str_chars("https://github.com/");
    proof {
        reveal_strlit("https://github.com/");
    }
    if end < prefix.len() {
        return None;
    }
    let head = copy_range(&t, 0, prefix.len());
    proof {
        assert(head@ =~= base.take(prefix@.len() as int));
    }
    if !chars_equal(&head, &prefix) {
        return None;
    }
    let path = copy_range(&t, prefix.len(), end);
    proof {
        assert(path@ =~= base.skip(prefix@.len() as int));
    }
    let parts = split_on_slash(&path);
    proof {
        assert(parts@.len() == split_slash(path@).len());
    }
    if parts.len() != 4 {
        return None;
    }
    let pull = crate::text::str_chars("pull");
    proof {
        reveal_strlit("pull");
        assert(parts@[2]@ == split_slash(path@)[2]);
        assert(parts@[3]@ == split_slash(path@)[3]);
        assert(parts@[0]@ == split_slash(path@)[0]);
        assert(parts@[1]@ == split_slash(path@)[1]);
    }
    if !chars_equal(&parts[2], &pull) {
        return None;
    }
    let number = match parse_u64(parts[3].as_slice()) {
        Some(n) => n,
        None => return None,
    };
    if number == 0 || !is_link_segment(&parts[0]) || !is_link_segment(&parts[1]) {
        return None;
    }
    let mut out = crate::text::to_owned_string("https://github.com/");
    crate::text::push_str(&mut out, crate::text::string_from_chars(parts[0].as_slice()).as_str());
    crate::text::push_char(&mut out, '/');
    crate::text::push_str(&mut out, crate::text::string_from_chars(parts[1].as_slice()).as_str());
    crate::text::push_str(&mut out, "/pull/");
    crate::text::push_str(&mut out, crate::text::u64_to_string(number).as_str());
    proof {
        reveal_strlit("/pull/");
        reveal_strlit("/");
        assert(out@ =~= "https://github.com/"@ + parts@[0]@ + "/"@ + parts@[1]@ + "/pull/"@ + decimal(number as nat));
    }
    Some(out)
}

proof fn lemma_decimal_digits(n: nat)
    ensures
        decimal(n).len() > 0,
        all_digits(decimal(n)),
        digits_value(decimal(n)) == n,
        decimal(n)[0] != '+',
    decreases n,
{
    lemma_digit_char_value(n % 10);
    if n < 10 {
        assert(n % 10 == n);
        assert(decimal(n).drop_last() =~= Seq::<char>::empty());
        assert(decimal(n).last() == digit_char(n));
        assert(digits_value(decimal(n)) == digits_value(decimal(n).drop_last()) * 10 + ((decimal(n).last() as u32) - 48) as nat);
    } else {
        lemma_decimal_digits(n / 10);
        assert(n == (n / 10) * 10 + n % 10) by (nonlinear_arith);
        let d = decimal(n);
        assert(d.drop_last() == decimal(n / 10));
        assert(d.last() == digit_char(n % 10));
        assert(digits_value(d) == digits_value(d.drop_last()) * 10 + ((d.last() as u32) - 48) as nat);
        assert(all_digits(d)) by {
            assert forall|i: int| 0 <= i < d.len() implies is_digit(#[trigger] d[i]) by {
                if i < d.len() - 1 {
                    assert(d[i] == decimal(n / 10)[i]);
                }
            }
        }
        assert(d[0] == decimal(n / 10)[0]);
    }
}

proof fn lemma_digit_char_value(k: nat)
    requires
        k < 10,
    ensures
        digit_char(k) as u32 == k + 48,
        is_digit(digit_char(k)),
{
}

proof fn lemma_no_query_chars(s: Seq<char>)
    requires
        forall|i: int| 0 <= i < s.len() ==> s[i] != '?' && s[i] != '#',
    ensures
        before_query_len(s) == s.len(),
    decreases s.len(),
{
    if s.len() > 0 {
        lemma_no_query_chars(s.drop_first());
    }
}

proof fn lemma_first_slash_of(x: Seq<char>, rest: Seq<char>)
    requires
        forall|i: int| 0 <= i < x.len() ==> x[i] != '/',
    ensures
        first_slash(x + "/"@ + rest) == x.len(),
    decreases x.len(),
{
    reveal_strlit("/");
    if x.len() > 0 {
        assert((x + "/"@ + rest).drop_first() =~= x.drop_first() + "/"@ + rest);
        lemma_first_slash_of(x.drop_first(), rest);
    }
}

proof fn lemma_no_slash_split(x: Seq<char>)
    requires
        forall|i: int| 0 <= i < x.len() ==> x[i] != '/',
    ensures
        split_slash(x) == seq![x],
    decreases x.len(),
{
    lemma_first_slash_none(x);
}

proof fn lemma_first_slash_none(x: Seq<char>)
    requires
        forall|i: int| 0 <= i < x.len() ==> x[i] != '/',
    ensures
        first_slash(x) == x.len(),
    decreases x.len(),
{
    if x.len() > 0 {
        lemma_first_slash_none(x.drop_first());
    }
}

proof fn lemma_split_front(x: Seq<char>, rest: Seq<char>)
    requires
        forall|i: int| 0 <= i < x.len() ==> x[i] != '/',
    ensures
        split_slash(x + "/"@ + rest) == seq![x] + split_slash(rest),
{
    reveal_strlit("/");
    lemma_first_slash_of(x, rest);
    let s = x + "/"@ + rest;
    assert(s.take(x.len() as int) =~= x);
    assert(s.skip(x.len() as int + 1) =~= rest);
}

/// Normalizing a pull request link is idempotent: a normalized link
/// normalizes to itself.
#[verifier::spinoff_prover]
#[verifier::rlimit(60)]
pub proof fn lemma_normalized_pull_request_idempotent(value: Seq<char>)
    requires
        normalized_pull_request(value) is Some,
    ensures
        normalized_pull_request(normalized_pull_request(value)->0) == normalized_pull_request(value),
{
    reveal_strlit("https://github.com/");
    reveal_strlit("/");
    reveal_strlit("/pull/");
    reveal_strlit("pull");
    let t = trim_seq(value);
    let base = trim_slash_end(t.take(before_query_len(t) as int));
    let prefix = "https://github.com/"@;
    let parts = split_slash(base.skip(prefix.len() as int));
    let n = parse_u64_spec(parts[3])->0;
    let a = parts[0];
    let b = parts[1];
    let d = decimal(n as nat);
    lemma_decimal_digits(n as nat);
    let tail = a + "/"@ + b + "/pull/"@ + d;
    let out = prefix + tail;
    assert(out =~= prefix + a + "/"@ + b + "/pull/"@ + d);
    assert(normalized_pull_request(value) == Some(out));
    // trimming leaves it
    assert(!is_whitespace(out[0])) by {
        assert(out[0] == 'h');
    }
    assert(trim_start_seq(out) == out);
    assert(out.last() == d.last());
    assert(is_digit(d[d.len() - 1]));
    assert(!is_whitespace(out.last()));
    assert(trim_end_seq(out) == out);
    assert(trim_seq(out) == out);
    // no query, no trailing slash
    assert forall|i: int| 0 <= i < out.len() implies out[i] != '?' && out[i] != '#' by {
        if i < prefix.len() {
            assert(out[i] == prefix[i]);
        } else if i < prefix.len() + a.len() {
            assert(out[i] == a[i - prefix.len()]);
            assert(link_segment_char(a[i - prefix.len()]));
        } else if i == prefix.len() + a.len() {
            assert(out[i] == '/');
        } else if i < prefix.len() + a.len() + 1 + b.len() {
            assert(out[i] == b[i - prefix.len() - a.len() - 1]);
            assert(link_segment_char(b[i - prefix.len() - a.len() - 1]));
        } else if i < prefix.len() + a.len() + 1 + b.len() + 6 {
            assert(out[i] == "/pull/"@[i - prefix.len() - a.len() - 1 - b.len()]);
        } else {
            assert(out[i] == d[i - prefix.len() - a.len() - 1 - b.len() - 6]);
            assert(is_digit(d[i - prefix.len() - a.len() - 1 - b.len() - 6]));
        }
    }
    lemma_no_query_chars(out);
    assert(out.take(out.len() as int) =~= out);
    assert(trim_slash_end(out) == out);
    assert(out.take(prefix.len() as int) =~= prefix);
    assert(out.skip(prefix.len() as int) =~= tail);
    // the parts come back
    assert forall|i: int| 0 <= i < a.len() implies a[i] != '/' by {
        assert(link_segment_char(a[i]));
    }
    assert forall|i: int| 0 <= i < b.len() implies b[i] != '/' by {
        assert(link_segment_char(b[i]));
    }
    assert forall|i: int| 0 <= i < d.len() implies d[i] != '/' by {
        assert(is_digit(d[i]));
    }
    assert(tail =~= a + "/"@ + (b + "/"@ + ("pull"@ + "/"@ + d)));
    lemma_split_front(a, b + "/"@ + ("pull"@ + "/"@ + d));
    lemma_split_front(b, "pull"@ + "/"@ + d);
    assert forall|i: int| 0 <= i < "pull"@.len() implies "pull"@[i] != '/' by {}
    lemma_split_front("pull"@, d);
    lemma_no_slash_split(d);
    let parts2 = split_slash(out.skip(prefix.len() as int));
    assert(parts2 =~= seq![a, b, "pull"@, d]);
    assert(digits_of(d) == d);
    assert(parse_u64_spec(d) == Some(n));
}

} // verus!
