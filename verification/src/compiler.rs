//! The restricted `.workflow.ts` surface: a lexer over the source bytes that
//! admits only literals, identifiers and punctuation, never executable text.
use vstd::prelude::*;
use vstd::utf8::encode_utf8;

verus! {

/// A compile failure at a byte offset of the source.
#[derive(Debug)]
pub struct CompileError {
    pub offset: usize,
    pub message: String,
}

impl CompileError {
    /// The error as one line of text.
    pub fn describe(&self) -> (r: String)
        ensures
            r@ == "workflow compile error at byte "@ + crate::text::decimal(self.offset as nat) + ": "@ + self.message@,
    {
        let mut s = crate::text::to_owned_string("workflow compile error at byte ");
        crate::text::push_str(&mut s, crate::text::u64_to_string(self.offset as u64).as_str());
        crate::text::push_str(&mut s, ": ");
        crate::text::push_str(&mut s, self.message.as_str());
        s
    }
}

/// A token of the workflow surface. Numbers keep their text unless they are integers.
#[derive(Debug)]
pub enum TokenKind {
    Ident(String),
    String(String),
    Template(String),
    Integer(i64),
    Decimal(String),
    LBrace,
    RBrace,
    LBracket,
    RBracket,
    LParen,
    RParen,
    Colon,
    Comma,
    Semi,
}

#[derive(Debug)]
pub struct Token {
    pub offset: usize,
    pub kind: TokenKind,
}

/// A token as plain values.
pub enum TokenView {
    Ident(Seq<char>),
    Str(Seq<char>),
    Template(Seq<char>),
    Integer(i64),
    Decimal(Seq<char>),
    LBrace,
    RBrace,
    LBracket,
    RBracket,
    LParen,
    RParen,
    Colon,
    Comma,
    Semi,
}

pub open spec fn kind_view(k: TokenKind) -> TokenView {
    match k {
        TokenKind::Ident(s) => TokenView::Ident(s@),
        TokenKind::String(s) => TokenView::Str(s@),
        TokenKind::Template(s) => TokenView::Template(s@),
        TokenKind::Integer(n) => TokenView::Integer(n),
        TokenKind::Decimal(s) => TokenView::Decimal(s@),
        TokenKind::LBrace => TokenView::LBrace,
        TokenKind::RBrace => TokenView::RBrace,
        TokenKind::LBracket => TokenView::LBracket,
        TokenKind::RBracket => TokenView::RBracket,
        TokenKind::LParen => TokenView::LParen,
        TokenKind::RParen => TokenView::RParen,
        TokenKind::Colon => TokenView::Colon,
        TokenKind::Comma => TokenView::Comma,
        TokenKind::Semi => TokenView::Semi,
    }
}

pub open spec fn token_view(t: Token) -> (nat, TokenView) {
    (t.offset as nat, kind_view(t.kind))
}

pub open spec fn tokens_view(ts: Seq<Token>) -> Seq<(nat, TokenView)> {
    ts.map_values(|t: Token| token_view(t))
}

// ---- byte classes -----------------------------------------------------------

/// `u8::is_ascii_whitespace`: space, tab, line feed, form feed, carriage return.
pub open spec fn is_space(c: u8) -> bool {
    c == 32 || c == 9 || c == 10 || c == 12 || c == 13
}

pub open spec fn is_digit_byte(c: u8) -> bool {
    48 <= c <= 57
}

pub open spec fn is_alpha_byte(c: u8) -> bool {
    (65 <= c <= 90) || (97 <= c <= 122)
}

/// A byte that may continue a number: digits, `.`, `e`, `E`, `+`, `-`.
pub open spec fn is_number_byte(c: u8) -> bool {
    is_digit_byte(c) || c == 46 || c == 101 || c == 69 || c == 43 || c == 45
}

/// A byte that may start an identifier: letters, `_`, `$`.
pub open spec fn is_ident_start(c: u8) -> bool {
    is_alpha_byte(c) || c == 95 || c == 36
}

/// A byte that may continue an identifier: letters, digits, `_`, `$`, `-`.
pub open spec fn is_ident_byte(c: u8) -> bool {
    is_alpha_byte(c) || is_digit_byte(c) || c == 95 || c == 36 || c == 45
}

pub open spec fn punctuation(c: u8) -> Option<TokenView> {
    if c == 123 {
        Some(TokenView::LBrace)
    } else if c == 125 {
        Some(TokenView::RBrace)
    } else if c == 91 {
        Some(TokenView::LBracket)
    } else if c == 93 {
        Some(TokenView::RBracket)
    } else if c == 40 {
        Some(TokenView::LParen)
    } else if c == 41 {
        Some(TokenView::RParen)
    } else if c == 58 {
        Some(TokenView::Colon)
    } else if c == 44 {
        Some(TokenView::Comma)
    } else if c == 59 {
        Some(TokenView::Semi)
    } else {
        None
    }
}

/// Each byte read as the character of the same number.
pub open spec fn bytes_text(s: Seq<u8>) -> Seq<char> {
    s.map_values(|c: u8| c as char)
}

// ---- scanning -----------------------------------------------------------------

/// The end of a line comment whose text starts at `j`: the next line feed or the end.
pub open spec fn line_comment_end(b: Seq<u8>, j: int) -> int
    decreases b.len() - j,
{
    if j >= b.len() || b[j] == 10 { j } else { line_comment_end(b, j + 1) }
}

/// Where the `*/` closing a block comment whose text starts at `j` begins.
pub open spec fn block_comment_end(b: Seq<u8>, j: int) -> Option<int>
    decreases b.len() - j,
{
    if j + 1 >= b.len() {
        None
    } else if b[j] == 42 && b[j + 1] == 47 {
        Some(j)
    } else {
        block_comment_end(b, j + 1)
    }
}

/// The character an escape sequence `\c` stands for.
pub open spec fn escaped(c: u8) -> char {
    if c == 110 {
        '\n'
    } else if c == 114 {
        '\r'
    } else if c == 116 {
        '\t'
    } else {
        c as char
    }
}

/// The value of a quoted text whose body starts at `j`, and where its closing quote is.
pub open spec fn quoted_body(b: Seq<u8>, j: int, quote: u8) -> Option<(Seq<char>, int)>
    decreases b.len() - j,
{
    if j < 0 || j >= b.len() {
        None
    } else if b[j] == quote {
        Some((Seq::empty(), j))
    } else if b[j] == 92 {
        if j + 1 >= b.len() {
            None
        } else {
            match quoted_body(b, j + 2, quote) {
                Some((v, e)) => Some((seq![escaped(b[j + 1])] + v, e)),
                None => None,
            }
        }
    } else {
        match quoted_body(b, j + 1, quote) {
            Some((v, e)) => Some((seq![b[j] as char] + v, e)),
            None => None,
        }
    }
}

pub open spec fn number_end(b: Seq<u8>, j: int) -> int
    decreases b.len() - j,
{
    if j >= b.len() || !is_number_byte(b[j]) { j } else { number_end(b, j + 1) }
}

pub open spec fn ident_end(b: Seq<u8>, j: int) -> int
    decreases b.len() - j,
{
    if j >= b.len() || !is_ident_byte(b[j]) { j } else { ident_end(b, j + 1) }
}

pub open spec fn all_digit_bytes(t: Seq<u8>) -> bool {
    forall|k: int| 0 <= k < t.len() ==> is_digit_byte(#[trigger] t[k])
}

/// The value of a run of decimal digit bytes.
pub open spec fn digits_of_bytes(t: Seq<u8>) -> nat
    decreases t.len(),
{
    if t.len() == 0 { 0 } else { digits_of_bytes(t.drop_last()) * 10 + (t.last() - 48) as nat }
}

/// `i64::from_str` on a number's text without `.`, `e` or `E`.
pub open spec fn parse_integer(t: Seq<u8>) -> Option<i64> {
    if t.len() > 0 && t[0] == 45 {
        let d = t.drop_first();
        if d.len() > 0 && all_digit_bytes(d) && digits_of_bytes(d) <= 0x8000_0000_0000_0000 {
            Some((0 - digits_of_bytes(d)) as i64)
        } else {
            None
        }
    } else if t.len() > 0 && t[0] == 43 {
        let d = t.drop_first();
        if d.len() > 0 && all_digit_bytes(d) && digits_of_bytes(d) <= 0x7fff_ffff_ffff_ffff {
            Some(digits_of_bytes(d) as i64)
        } else {
            None
        }
    } else if t.len() > 0 && all_digit_bytes(t) && digits_of_bytes(t) <= 0x7fff_ffff_ffff_ffff {
        Some(digits_of_bytes(t) as i64)
    } else {
        None
    }
}

/// The length of the run of digits at the start of `t`.
pub open spec fn digit_run(t: Seq<u8>) -> nat
    decreases t.len(),
{
    if t.len() == 0 || !is_digit_byte(t[0]) { 0 } else { 1 + digit_run(t.drop_first()) }
}

/// The exponent part of a decimal: `e` or `E`, an optional sign, one or more digits.
pub open spec fn exponent_ok(t: Seq<u8>) -> bool {
    let u = if t.len() > 1 && (t[1] == 43 || t[1] == 45) { t.skip(2) } else { t.skip(1) };
    t.len() > 0 && (t[0] == 101 || t[0] == 69) && u.len() > 0 && all_digit_bytes(u)
}

/// The syntax `f64::from_str` accepts for a decimal number: an optional sign,
/// digits with an optional fraction (or a fraction alone), an optional exponent.
pub open spec fn decimal_syntax(t: Seq<u8>) -> bool {
    let m = if t.len() > 0 && (t[0] == 43 || t[0] == 45) { t.drop_first() } else { t };
    let a = digit_run(m);
    let rest = m.skip(a as int);
    if rest.len() > 0 && rest[0] == 46 {
        let f = digit_run(rest.drop_first());
        let tail = rest.drop_first().skip(f as int);
        (a > 0 || f > 0) && (tail.len() == 0 || exponent_ok(tail))
    } else {
        a > 0 && (rest.len() == 0 || exponent_ok(rest))
    }
}

pub open spec fn has_decimal_marker(t: Seq<u8>) -> bool {
    exists|k: int| 0 <= k < t.len() && (t[k] == 46 || t[k] == 101 || t[k] == 69)
}

/// The token a number's text makes, if any.
pub open spec fn number_token(t: Seq<u8>) -> Option<TokenView> {
    if !has_decimal_marker(t) {
        match parse_integer(t) {
            Some(n) => Some(TokenView::Integer(n)),
            None => None,
        }
    } else if decimal_syntax(t) {
        Some(TokenView::Decimal(bytes_text(t)))
    } else {
        None
    }
}

pub open spec fn lex_error(offset: int, message: Seq<char>) -> Result<Seq<(nat, TokenView)>, (nat, Seq<char>)> {
    Err((offset as nat, message))
}

pub open spec fn cons_token(t: (nat, TokenView), rest: Result<Seq<(nat, TokenView)>, (nat, Seq<char>)>) -> Result<Seq<(nat, TokenView)>, (nat, Seq<char>)> {
    match rest {
        Ok(ts) => Ok(seq![t] + ts),
        Err(e) => Err(e),
    }
}

pub open spec fn starts_number(b: Seq<u8>, i: int) -> bool {
    is_digit_byte(b[i]) || (b[i] == 45 && i + 1 < b.len() && is_digit_byte(b[i + 1]))
}

/// The tokens of `b` from byte `i`, or the first error and its offset.
pub open spec fn lex_from(b: Seq<u8>, i: int) -> Result<Seq<(nat, TokenView)>, (nat, Seq<char>)>
    decreases b.len() - i,
{
    if i < 0 || i >= b.len() {
        Ok(Seq::empty())
    } else if is_space(b[i]) {
        lex_from(b, i + 1)
    } else if b[i] == 47 && i + 1 < b.len() && b[i + 1] == 47 {
        let e = line_comment_end(b, i + 2);
        if e <= i || e > b.len() { Ok(Seq::empty()) } else { lex_from(b, e) }
    } else if b[i] == 47 && i + 1 < b.len() && b[i + 1] == 42 {
        match block_comment_end(b, i + 2) {
            None => lex_error(i, "unterminated comment"@),
            Some(e) => if e + 2 <= i || e + 2 > b.len() { Ok(Seq::empty()) } else { lex_from(b, e + 2) },
        }
    } else if punctuation(b[i]) is Some {
        cons_token((i as nat, punctuation(b[i])->0), lex_from(b, i + 1))
    } else if b[i] == 39 || b[i] == 34 || b[i] == 96 {
        match quoted_body(b, i + 1, b[i]) {
            None => lex_error(i, "unterminated string"@),
            Some((v, e)) => if e + 1 <= i || e + 1 > b.len() {
                Ok(Seq::empty())
            } else {
                cons_token(
                    (i as nat, if b[i] == 96 { TokenView::Template(v) } else { TokenView::Str(v) }),
                    lex_from(b, e + 1),
                )
            },
        }
    } else if starts_number(b, i) {
        let e = number_end(b, i + 1);
        if e <= i || e > b.len() {
            Ok(Seq::empty())
        } else {
            match number_token(b.subrange(i, e)) {
                None => lex_error(i, "invalid number"@),
                Some(t) => cons_token((i as nat, t), lex_from(b, e)),
            }
        }
    } else if is_ident_start(b[i]) {
        let e = ident_end(b, i + 1);
        if e <= i || e > b.len() {
            Ok(Seq::empty())
        } else {
            cons_token((i as nat, TokenView::Ident(bytes_text(b.subrange(i, e)))), lex_from(b, e))
        }
    } else {
        lex_error(i, "token `"@ + seq![b[i] as char] + "` is not allowed"@)
    }
}


// ---- facts about the scans -------------------------------------------------------

proof fn lemma_line_comment_end(b: Seq<u8>, j: int)
    requires
        0 <= j <= b.len(),
    ensures
        j <= line_comment_end(b, j) <= b.len(),
    decreases b.len() - j,
{
    if j < b.len() && b[j] != 10 {
        lemma_line_comment_end(b, j + 1);
    }
}

proof fn lemma_block_comment_end(b: Seq<u8>, j: int)
    requires
        0 <= j,
    ensures
        block_comment_end(b, j) matches Some(e) ==> j <= e && e + 2 <= b.len(),
    decreases b.len() - j,
{
    if j + 1 < b.len() && !(b[j] == 42 && b[j + 1] == 47) {
        lemma_block_comment_end(b, j + 1);
    }
}

proof fn lemma_quoted_body(b: Seq<u8>, j: int, quote: u8)
    ensures
        quoted_body(b, j, quote) matches Some((v, e)) ==> j <= e < b.len(),
    decreases b.len() - j,
{
    if 0 <= j < b.len() && b[j] != quote {
        if b[j] == 92 {
            if j + 1 < b.len() {
                lemma_quoted_body(b, j + 2, quote);
            }
        } else {
            lemma_quoted_body(b, j + 1, quote);
        }
    }
}

proof fn lemma_number_end(b: Seq<u8>, j: int)
    requires
        0 <= j <= b.len(),
    ensures
        j <= number_end(b, j) <= b.len(),
    decreases b.len() - j,
{
    if j < b.len() && is_number_byte(b[j]) {
        lemma_number_end(b, j + 1);
    }
}

proof fn lemma_ident_end(b: Seq<u8>, j: int)
    requires
        0 <= j <= b.len(),
    ensures
        j <= ident_end(b, j) <= b.len(),
    decreases b.len() - j,
{
    if j < b.len() && is_ident_byte(b[j]) {
        lemma_ident_end(b, j + 1);
    }
}

// ---- the scans ------------------------------------------------------------------

fn scan_line_comment(b: &[u8], j: usize) -> (r: usize)
    requires
        j <= b@.len(),
    ensures
        r == line_comment_end(b@, j as int),
{
    let mut k = j;
    while k < b.len() && b[k] != 10
        invariant
            j <= k <= b@.len(),
            line_comment_end(b@, j as int) == line_comment_end(b@, k as int),
        decreases b@.len() - k,
    {
        k = k + 1;
    }
    k
}

fn scan_block_comment(b: &[u8], j: usize) -> (r: Option<usize>)
    requires
        j <= b@.len(),
    ensures
        match r {
            Some(e) => block_comment_end(b@, j as int) == Some(e as int),
            None => block_comment_end(b@, j as int) is None,
        },
{
    let mut k = j;
    while k < b.len() && b.len() - k >= 2 && !(b[k] == 42 && b[k + 1] == 47)
        invariant
            j <= k <= b@.len(),
            block_comment_end(b@, j as int) == block_comment_end(b@, k as int),
        decreases b@.len() - k,
    {
        k = k + 1;
    }
    if k < b.len() && b.len() - k >= 2 {
        Some(k)
    } else {
        None
    }
}

fn escaped_char(c: u8) -> (r: char)
    ensures
        r == escaped(c),
{
    if c == 110 {
        '\n'
    } else if c == 114 {
        '\r'
    } else if c == 116 {
        '\t'
    } else {
        c as char
    }
}

pub open spec fn prepend_body(acc: Seq<char>, r: Option<(Seq<char>, int)>) -> Option<(Seq<char>, int)> {
    match r {
        Some((v, e)) => Some((acc + v, e)),
        None => None,
    }
}

fn scan_quoted(b: &[u8], j: usize, quote: u8) -> (r: Option<(Vec<char>, usize)>)
    requires
        j <= b@.len(),
    ensures
        match r {
            Some((v, e)) => quoted_body(b@, j as int, quote) == Some((v@, e as int)),
            None => quoted_body(b@, j as int, quote) is None,
        },
{
    let mut k = j;
    let mut value: Vec<char> = Vec::new();
    proof {
        assert(prepend_body(value@, quoted_body(b@, j as int, quote)) =~= quoted_body(b@, j as int, quote)) by {
            match quoted_body(b@, j as int, quote) {
                Some((v, e)) => {
                    assert(Seq::<char>::empty() + v =~= v);
                },
                None => {},
            }
        }
    }
    while k < b.len() && b[k] != quote
        invariant
            j <= k <= b@.len(),
            quoted_body(b@, j as int, quote) == prepend_body(value@, quoted_body(b@, k as int, quote)),
        decreases b@.len() - k,
    {
        if b[k] == 92 {
            if b.len() - k < 2 {
                return None;
            }
            let c = escaped_char(b[k + 1]);
            proof {
                match quoted_body(b@, k + 2, quote) {
                    Some((v, e)) => {
                        assert(value@.push(c) + v =~= value@ + (seq![c] + v));
                    },
                    None => {},
                }
            }
            value.push(c);
            k = k + 2;
        } else {
            let c = b[k] as char;
            proof {
                match quoted_body(b@, k + 1, quote) {
                    Some((v, e)) => {
                        assert(value@.push(c) + v =~= value@ + (seq![c] + v));
                    },
                    None => {},
                }
            }
            value.push(c);
            k = k + 1;
        }
    }
    if k >= b.len() {
        return None;
    }
    proof {
        assert(value@ + Seq::<char>::empty() =~= value@);
    }
    Some((value, k))
}

fn scan_number(b: &[u8], j: usize) -> (r: usize)
    requires
        j <= b@.len(),
    ensures
        r == number_end(b@, j as int),
{
    let mut k = j;
    while k < b.len() && ((48 <= b[k] && b[k] <= 57) || b[k] == 46 || b[k] == 101 || b[k] == 69 || b[k] == 43 || b[k] == 45)
        invariant
            j <= k <= b@.len(),
            number_end(b@, j as int) == number_end(b@, k as int),
        decreases b@.len() - k,
    {
        k = k + 1;
    }
    k
}

fn scan_ident(b: &[u8], j: usize) -> (r: usize)
    requires
        j <= b@.len(),
    ensures
        r == ident_end(b@, j as int),
{
    let mut k = j;
    while k < b.len() && ((65 <= b[k] && b[k] <= 90) || (97 <= b[k] && b[k] <= 122) || (48 <= b[k] && b[k] <= 57) || b[k] == 95 || b[k] == 36 || b[k] == 45)
        invariant
            j <= k <= b@.len(),
            ident_end(b@, j as int) == ident_end(b@, k as int),
        decreases b@.len() - k,
    {
        k = k + 1;
    }
    k
}


// ---- numbers ----------------------------------------------------------------------

proof fn lemma_digits_prefix_le(t: Seq<u8>, k: int)
    requires
        0 <= k <= t.len(),
    ensures
        digits_of_bytes(t.take(k)) <= digits_of_bytes(t),
    decreases t.len(),
{
    if k < t.len() {
        assert(t.drop_last().take(k) =~= t.take(k));
        lemma_digits_prefix_le(t.drop_last(), k);
    } else {
        assert(t.take(k) =~= t);
    }
}

/// The value of the digits `b[from..to]`, if they are one or more digits worth at most `limit`.
fn parse_digits(b: &[u8], from: usize, to: usize, limit: u64) -> (r: Option<u64>)
    requires
        from <= to <= b@.len(),
    ensures
        ({
            let t = b@.subrange(from as int, to as int);
            match r {
                Some(v) => t.len() > 0 && all_digit_bytes(t) && digits_of_bytes(t) == v && v <= limit,
                None => !(t.len() > 0 && all_digit_bytes(t) && digits_of_bytes(t) <= limit),
            }
        }),
{
    let ghost t = b@.subrange(from as int, to as int);
    if from == to {
        return None;
    }
    let mut acc: u64 = 0;
    let mut k = from;
    proof {
        assert(t.take(0) =~= Seq::<u8>::empty());
    }
    while k < to
        invariant
            from <= k <= to <= b@.len(),
            t == b@.subrange(from as int, to as int),
            all_digit_bytes(t.take(k - from)),
            acc == digits_of_bytes(t.take(k - from)),
            acc <= limit,
        decreases to - k,
    {
        let c = b[k];
        proof {
            assert(t[k - from] == c);
            assert(t.take(k - from + 1).drop_last() =~= t.take(k - from));
            assert(t.take(k - from + 1).last() == c);
        }
        if !(48 <= c && c <= 57) {
            proof {
                assert(!is_digit_byte(t[k - from]));
            }
            return None;
        }
        let d = (c - 48) as u64;
        if d > limit || acc > (limit - d) / 10 {
            proof {
                assert(digits_of_bytes(t.take(k - from + 1)) == acc * 10 + d);
                assert(acc * 10 + d > limit) by (nonlinear_arith)
                    requires
                        d > limit || acc > (limit - d) / 10,
                        acc >= 0,
                ;
                if all_digit_bytes(t) {
                    lemma_digits_prefix_le(t, k - from + 1);
                }
            }
            return None;
        }
        proof {
            assert(acc * 10 + d <= limit) by (nonlinear_arith)
                requires
                    acc <= (limit - d) / 10,
                    d <= limit,
            ;
            assert(digits_of_bytes(t.take(k - from + 1)) == acc * 10 + d);
        }
        acc = acc * 10 + d;
        k = k + 1;
    }
    proof {
        assert(t.take(to - from) =~= t);
    }
    Some(acc)
}


fn parse_integer_at(b: &[u8], from: usize, to: usize) -> (r: Option<i64>)
    requires
        from <= to <= b@.len(),
    ensures
        r == parse_integer(b@.subrange(from as int, to as int)),
{
    let ghost t = b@.subrange(from as int, to as int);
    if from < to && (b[from] == 45 || b[from] == 43) {
        proof {
            assert(t[0] == b@[from as int]);
            assert(t.drop_first() =~= b@.subrange(from + 1, to as int));
        }
        if b[from] == 45 {
            match parse_digits(b, from + 1, to, 0x8000_0000_0000_0000) {
                Some(v) => {
                    if v == 0x8000_0000_0000_0000 {
                        Some(i64::MIN)
                    } else {
                        Some(-(v as i64))
                    }
                },
                None => None,
            }
        } else {
            match parse_digits(b, from + 1, to, 0x7fff_ffff_ffff_ffff) {
                Some(v) => Some(v as i64),
                None => None,
            }
        }
    } else {
        proof {
            if from < to {
                assert(t[0] == b@[from as int]);
            }
        }
        match parse_digits(b, from, to, 0x7fff_ffff_ffff_ffff) {
            Some(v) => Some(v as i64),
            None => None,
        }
    }
}

fn has_decimal_marker_at(b: &[u8], from: usize, to: usize) -> (r: bool)
    requires
        from <= to <= b@.len(),
    ensures
        r == has_decimal_marker(b@.subrange(from as int, to as int)),
{
    let ghost t = b@.subrange(from as int, to as int);
    let mut k = from;
    while k < to
        invariant
            from <= k <= to <= b@.len(),
            t == b@.subrange(from as int, to as int),
            forall|m: int| 0 <= m < k - from ==> !(t[m] == 46 || t[m] == 101 || t[m] == 69),
        decreases to - k,
    {
        if b[k] == 46 || b[k] == 101 || b[k] == 69 {
            proof {
                assert(t[k - from] == b@[k as int]);
            }
            return true;
        }
        proof {
            assert(t[k - from] == b@[k as int]);
        }
        k = k + 1;
    }
    false
}

fn digit_run_at(b: &[u8], from: usize, to: usize) -> (r: usize)
    requires
        from <= to <= b@.len(),
    ensures
        from <= r <= to,
        r - from == digit_run(b@.subrange(from as int, to as int)),
        b@.subrange(from as int, to as int).skip(r - from) == b@.subrange(r as int, to as int),
{
    let mut k = from;
    proof {
        assert(b@.subrange(from as int, to as int).skip(0) =~= b@.subrange(from as int, to as int));
    }
    while k < to && 48 <= b[k] && b[k] <= 57
        invariant
            from <= k <= to <= b@.len(),
            digit_run(b@.subrange(from as int, to as int)) == (k - from) + digit_run(b@.subrange(k as int, to as int)),
        decreases to - k,
    {
        proof {
            let u = b@.subrange(k as int, to as int);
            assert(u[0] == b@[k as int]);
            assert(u.drop_first() =~= b@.subrange(k + 1, to as int));
        }
        k = k + 1;
    }
    proof {
        let u = b@.subrange(k as int, to as int);
        if k < to {
            assert(u[0] == b@[k as int]);
        }
        assert(b@.subrange(from as int, to as int).skip(k - from) =~= b@.subrange(k as int, to as int));
    }
    k
}

fn exponent_ok_at(b: &[u8], from: usize, to: usize) -> (r: bool)
    requires
        from <= to <= b@.len(),
    ensures
        r == exponent_ok(b@.subrange(from as int, to as int)),
{
    let ghost t = b@.subrange(from as int, to as int);
    if from >= to || !(b[from] == 101 || b[from] == 69) {
        proof {
            if from < to {
                assert(t[0] == b@[from as int]);
            }
        }
        return false;
    }
    proof {
        assert(t[0] == b@[from as int]);
    }
    let start = if to - from > 1 && (b[from + 1] == 43 || b[from + 1] == 45) { from + 2 } else { from + 1 };
    proof {
        if to - from > 1 {
            assert(t[1] == b@[from + 1]);
        }
        if start == from + 2 {
            assert(t.skip(2) =~= b@.subrange(start as int, to as int));
        } else {
            assert(t.skip(1) =~= b@.subrange(start as int, to as int));
        }
    }
    if start >= to {
        return false;
    }
    let end = digit_run_at(b, start, to);
    let r = end == to;
    proof {
        let u = b@.subrange(start as int, to as int);
        lemma_digit_run_all(u);
    }
    r
}

proof fn lemma_digit_run_all(u: Seq<u8>)
    ensures
        (digit_run(u) == u.len()) == all_digit_bytes(u),
        digit_run(u) <= u.len(),
    decreases u.len(),
{
    if u.len() > 0 {
        lemma_digit_run_all(u.drop_first());
        if is_digit_byte(u[0]) {
            if all_digit_bytes(u.drop_first()) {
                assert forall|k: int| 0 <= k < u.len() implies is_digit_byte(#[trigger] u[k]) by {
                    if k > 0 {
                        assert(u[k] == u.drop_first()[k - 1]);
                    }
                }
            }
            if all_digit_bytes(u) {
                assert forall|k: int| 0 <= k < u.drop_first().len() implies is_digit_byte(#[trigger] u.drop_first()[k]) by {
                    assert(u.drop_first()[k] == u[k + 1]);
                }
            }
        } else {
            assert(!is_digit_byte(u[0]));
        }
    }
}

fn decimal_syntax_at(b: &[u8], from: usize, to: usize) -> (r: bool)
    requires
        from <= to <= b@.len(),
    ensures
        r == decimal_syntax(b@.subrange(from as int, to as int)),
{
    let ghost t = b@.subrange(from as int, to as int);
    let m = if from < to && (b[from] == 43 || b[from] == 45) { from + 1 } else { from };
    proof {
        if from < to {
            assert(t[0] == b@[from as int]);
        }
        if m == from + 1 {
            assert(t.drop_first() =~= b@.subrange(m as int, to as int));
        }
    }
    let a_end = digit_run_at(b, m, to);
    let a = a_end - m;
    if a_end < to && b[a_end] == 46 {
        let f_end = digit_run_at(b, a_end + 1, to);
        let f = f_end - (a_end + 1);
        let tail_ok = f_end == to || exponent_ok_at(b, f_end, to);
        proof {
            let rest = b@.subrange(a_end as int, to as int);
            assert(rest[0] == b@[a_end as int]);
            assert(rest.drop_first() =~= b@.subrange(a_end + 1, to as int));
        }
        (a > 0 || f > 0) && tail_ok
    } else {
        proof {
            let rest = b@.subrange(a_end as int, to as int);
            if a_end < to {
                assert(rest[0] == b@[a_end as int]);
            }
        }
        a > 0 && (a_end == to || exponent_ok_at(b, a_end, to))
    }
}

fn text_from_bytes(b: &[u8], from: usize, to: usize) -> (r: String)
    requires
        from <= to <= b@.len(),
    ensures
        r@ == bytes_text(b@.subrange(from as int, to as int)),
{
    let mut chars: Vec<char> = Vec::new();
    let mut k = from;
    while k < to
        invariant
            from <= k <= to <= b@.len(),
            chars@ == bytes_text(b@.subrange(from as int, k as int)),
        decreases to - k,
    {
        chars.push(b[k] as char);
        proof {
            assert(chars@ =~= bytes_text(b@.subrange(from as int, k + 1)));
        }
        k = k + 1;
    }
    crate::text::string_from_chars(chars.as_slice())
}

fn number_kind(b: &[u8], from: usize, to: usize) -> (r: Option<TokenKind>)
    requires
        from <= to <= b@.len(),
    ensures
        match r {
            Some(k) => number_token(b@.subrange(from as int, to as int)) == Some(kind_view(k)),
            None => number_token(b@.subrange(from as int, to as int)) is None,
        },
{
    if !has_decimal_marker_at(b, from, to) {
        match parse_integer_at(b, from, to) {
            Some(n) => Some(TokenKind::Integer(n)),
            None => None,
        }
    } else if decimal_syntax_at(b, from, to) {
        Some(TokenKind::Decimal(text_from_bytes(b, from, to)))
    } else {
        None
    }
}


// ---- what a quoted text lexes to -------------------------------------------------

/// Text that stands for itself inside double quotes: ASCII, without a double
/// quote or a backslash.
pub open spec fn plain_quoted(s: Seq<char>) -> bool {
    forall|i: int| 0 <= i < s.len() ==> (#[trigger] s[i] as u32) < 128 && s[i] != '"' && s[i] != '\\'
}

proof fn lemma_quoted_plain(b: Seq<u8>, j: int, k: int, quote: u8)
    requires
        0 <= j <= k <= b.len(),
        forall|x: int| j <= x < k ==> #[trigger] b[x] != quote && b[x] != 92,
    ensures
        quoted_body(b, j, quote) == match quoted_body(b, k, quote) {
            Some((v, e)) => Some((bytes_text(b.subrange(j, k)) + v, e)),
            None => None::<(Seq<char>, int)>,
        },
    decreases k - j,
{
    if j == k {
        match quoted_body(b, k, quote) {
            Some((v, e)) => {
                assert(bytes_text(b.subrange(j, k)) + v =~= v);
            },
            None => {},
        }
    } else {
        lemma_quoted_plain(b, j + 1, k, quote);
        match quoted_body(b, k, quote) {
            Some((v, e)) => {
                assert(seq![b[j] as char] + (bytes_text(b.subrange(j + 1, k)) + v) =~= bytes_text(b.subrange(j, k)) + v);
            },
            None => {},
        }
    }
}

proof fn lemma_ascii_bytes(s: Seq<char>)
    requires
        forall|i: int| 0 <= i < s.len() ==> (#[trigger] s[i] as u32) < 128,
    ensures
        encode_utf8(s).len() == s.len(),
        forall|i: int| 0 <= i < s.len() ==> #[trigger] encode_utf8(s)[i] == s[i] as u8,
        forall|i: int| 0 <= i < s.len() ==> (#[trigger] encode_utf8(s)[i]) as char == s[i],
{
    assert(vstd::utf8::is_ascii_chars(s)) by {
        assert forall|i: int| 0 <= i < s.len() implies '\0' <= #[trigger] s[i] <= '\u{7f}' by {
            vstd::utf8::char_u32_cast(s[i], s[i] as u32);
        }
    }
    vstd::utf8::is_ascii_chars_encode_utf8(s);
    assert forall|i: int| 0 <= i < s.len() implies (#[trigger] encode_utf8(s)[i]) as char == s[i] by {
        vstd::utf8::char_u32_cast(s[i], s[i] as u32);
    }
}

proof fn lemma_lex_quoted_escape(p: Seq<char>, q: Seq<char>, letter: char)
    requires
        plain_quoted(p),
        plain_quoted(q),
        (letter as u32) < 128,
    ensures
        lex_spec(seq!['"'] + p + seq!['\\', letter] + q + seq!['"'])
            == Ok::<Seq<(nat, TokenView)>, (nat, Seq<char>)>(seq![(0nat, TokenView::Str(p + seq![escaped(letter as u8)] + q))]),
{
    let s = seq!['"'] + p + seq!['\\', letter] + q + seq!['"'];
    let n = s.len() as int;
    let pl = p.len() as int;
    let ql = q.len() as int;
    assert(n == pl + ql + 4);
    assert forall|i: int| 0 <= i < n implies (#[trigger] s[i] as u32) < 128 by {
        if i == 0 || i == n - 1 || i == pl + 1 {
        } else if 1 <= i < pl + 1 {
            assert(s[i] == p[i - 1]);
        } else if i == pl + 2 {
            assert(s[i] == letter);
        } else {
            assert(s[i] == q[i - pl - 3]);
        }
    }
    lemma_ascii_bytes(s);
    let b = encode_utf8(s);
    assert(b.len() == n);
    assert(b[0] == 34) by { assert(s[0] == '"'); }
    assert(b[n - 1] == 34) by { assert(s[n - 1] == '"'); }
    assert(b[pl + 1] == 92) by { assert(s[pl + 1] == '\\'); }
    assert(b[pl + 2] == letter as u8) by { assert(s[pl + 2] == letter); }
    // the closing quote
    assert(quoted_body(b, n - 1, 34) == Some((Seq::<char>::empty(), n - 1)));
    // the text after the escape
    assert forall|x: int| pl + 3 <= x < n - 1 implies #[trigger] b[x] != 34 && b[x] != 92 by {
        assert(s[x] == q[x - pl - 3]);
        assert(b[x] as char == s[x]);
    }
    lemma_quoted_plain(b, pl + 3, n - 1, 34);
    assert(bytes_text(b.subrange(pl + 3, n - 1)) =~= q) by {
        assert forall|x: int| 0 <= x < ql implies #[trigger] bytes_text(b.subrange(pl + 3, n - 1))[x] == q[x] by {
            assert(s[pl + 3 + x] == q[x]);
            assert(b[pl + 3 + x] as char == s[pl + 3 + x]);
        }
    }
    assert(quoted_body(b, pl + 3, 34) == Some((q + Seq::<char>::empty(), n - 1)));
    assert(q + Seq::<char>::empty() =~= q);
    // the escape
    assert(quoted_body(b, pl + 1, 34) == Some((seq![escaped(letter as u8)] + q, n - 1)));
    // the text before it
    assert forall|x: int| 1 <= x < pl + 1 implies #[trigger] b[x] != 34 && b[x] != 92 by {
        assert(s[x] == p[x - 1]);
        assert(b[x] as char == s[x]);
    }
    lemma_quoted_plain(b, 1, pl + 1, 34);
    assert(bytes_text(b.subrange(1, pl + 1)) =~= p) by {
        assert forall|x: int| 0 <= x < pl implies #[trigger] bytes_text(b.subrange(1, pl + 1))[x] == p[x] by {
            assert(s[1 + x] == p[x]);
            assert(b[1 + x] as char == s[1 + x]);
        }
    }
    let v = p + (seq![escaped(letter as u8)] + q);
    assert(quoted_body(b, 1, 34) == Some((v, n - 1)));
    assert(v =~= p + seq![escaped(letter as u8)] + q);
    assert(lex_from(b, n) == Ok::<Seq<(nat, TokenView)>, (nat, Seq<char>)>(Seq::empty()));
    assert(!is_space(b[0]));
    assert(punctuation(b[0]) is None);
    assert(seq![(0nat, TokenView::Str(v))] + Seq::<(nat, TokenView)>::empty() =~= seq![(0nat, TokenView::Str(v))]);
}

/// Text that stands for itself between the given quotes: ASCII, without that
/// quote or a backslash.
pub open spec fn plain_between(s: Seq<char>, quote: char) -> bool {
    forall|i: int| 0 <= i < s.len() ==> (#[trigger] s[i] as u32) < 128 && s[i] != quote && s[i] != '\\'
}

/// A quoted text without escapes is one token holding exactly its characters:
/// a string between double or single quotes, a template between backticks.
pub proof fn lemma_lex_plain_quoted(p: Seq<char>, quote: char)
    requires
        quote == '"' || quote == '\'' || quote == '`',
        plain_between(p, quote),
    ensures
        quote != '`' ==> lex_spec(seq![quote] + p + seq![quote])
            == Ok::<Seq<(nat, TokenView)>, (nat, Seq<char>)>(seq![(0nat, TokenView::Str(p))]),
        quote == '`' ==> lex_spec(seq![quote] + p + seq![quote])
            == Ok::<Seq<(nat, TokenView)>, (nat, Seq<char>)>(seq![(0nat, TokenView::Template(p))]),
{
    let s = seq![quote] + p + seq![quote];
    let n = s.len() as int;
    let pl = p.len() as int;
    assert forall|i: int| 0 <= i < n implies (#[trigger] s[i] as u32) < 128 by {
        if 1 <= i < pl + 1 {
            assert(s[i] == p[i - 1]);
        }
    }
    lemma_ascii_bytes(s);
    let b = encode_utf8(s);
    let qb = quote as u8;
    assert(b[0] == qb) by { assert(s[0] == quote); }
    assert(b[n - 1] == qb) by { assert(s[n - 1] == quote); }
    assert(qb == 34 || qb == 39 || qb == 96);
    assert(quoted_body(b, n - 1, qb) == Some((Seq::<char>::empty(), n - 1)));
    assert forall|x: int| 1 <= x < n - 1 implies #[trigger] b[x] != qb && b[x] != 92 by {
        assert(s[x] == p[x - 1]);
        assert(b[x] as char == s[x]);
        vstd::utf8::char_u32_cast(quote, quote as u32);
    }
    lemma_quoted_plain(b, 1, n - 1, qb);
    assert(bytes_text(b.subrange(1, n - 1)) =~= p) by {
        assert forall|x: int| 0 <= x < pl implies #[trigger] bytes_text(b.subrange(1, n - 1))[x] == p[x] by {
            assert(s[1 + x] == p[x]);
            assert(b[1 + x] as char == s[1 + x]);
        }
    }
    assert(p + Seq::<char>::empty() =~= p);
    assert(quoted_body(b, 1, qb) == Some((p, n - 1)));
    assert(lex_from(b, n) == Ok::<Seq<(nat, TokenView)>, (nat, Seq<char>)>(Seq::empty()));
    assert(!is_space(b[0]));
    assert(punctuation(b[0]) is None);
    assert(seq![(0nat, TokenView::Str(p))] + Seq::<(nat, TokenView)>::empty() =~= seq![(0nat, TokenView::Str(p))]);
    assert(seq![(0nat, TokenView::Template(p))] + Seq::<(nat, TokenView)>::empty() =~= seq![(0nat, TokenView::Template(p))]);
}

/// Inside a quoted text, a backslash before any other ASCII character stands
/// for that character itself (so `\"` is a quote and `\\` a backslash).
pub proof fn lemma_lex_other_escapes(p: Seq<char>, q: Seq<char>, c: char)
    requires
        plain_quoted(p),
        plain_quoted(q),
        (c as u32) < 128,
        c != 'n' && c != 'r' && c != 't',
    ensures
        lex_spec(seq!['"'] + p + seq!['\\', c] + q + seq!['"'])
            == Ok::<Seq<(nat, TokenView)>, (nat, Seq<char>)>(seq![(0nat, TokenView::Str(p + seq![c] + q))]),
{
    lemma_lex_quoted_escape(p, q, c);
    vstd::utf8::char_u32_cast(c, c as u32);
    assert(((c as u8) as char) == c);
}

/// Inside a quoted text, `\n`, `\r` and `\t` lex to a line feed, a carriage
/// return and a tab: a double-quoted text of plain characters around one such
/// escape is one string token holding the text with the control character.
pub proof fn lemma_lex_control_escapes(p: Seq<char>, q: Seq<char>)
    requires
        plain_quoted(p),
        plain_quoted(q),
    ensures
        lex_spec(seq!['"'] + p + seq!['\\', 'n'] + q + seq!['"'])
            == Ok::<Seq<(nat, TokenView)>, (nat, Seq<char>)>(seq![(0nat, TokenView::Str(p + seq!['\n'] + q))]),
        lex_spec(seq!['"'] + p + seq!['\\', 'r'] + q + seq!['"'])
            == Ok::<Seq<(nat, TokenView)>, (nat, Seq<char>)>(seq![(0nat, TokenView::Str(p + seq!['\r'] + q))]),
        lex_spec(seq!['"'] + p + seq!['\\', 't'] + q + seq!['"'])
            == Ok::<Seq<(nat, TokenView)>, (nat, Seq<char>)>(seq![(0nat, TokenView::Str(p + seq!['\t'] + q))]),
{
    lemma_lex_quoted_escape(p, q, 'n');
    lemma_lex_quoted_escape(p, q, 'r');
    lemma_lex_quoted_escape(p, q, 't');
    assert(('n' as u8) == 110u8);
    assert(('r' as u8) == 114u8);
    assert(('t' as u8) == 116u8);
}

// ---- the lexer ----------------------------------------------------------------------

pub open spec fn after_tokens(done: Seq<(nat, TokenView)>, rest: Result<Seq<(nat, TokenView)>, (nat, Seq<char>)>) -> Result<Seq<(nat, TokenView)>, (nat, Seq<char>)> {
    match rest {
        Ok(ts) => Ok(done + ts),
        Err(e) => Err(e),
    }
}

/// The lexed form of a source: its tokens, or the first error and its byte offset.
pub open spec fn lex_spec(source: Seq<char>) -> Result<Seq<(nat, TokenView)>, (nat, Seq<char>)> {
    lex_from(encode_utf8(source), 0)
}

fn punctuation_kind(c: u8) -> (r: Option<TokenKind>)
    ensures
        match r {
            Some(k) => punctuation(c) == Some(kind_view(k)),
            None => punctuation(c) is None,
        },
{
    if c == 123 {
        Some(TokenKind::LBrace)
    } else if c == 125 {
        Some(TokenKind::RBrace)
    } else if c == 91 {
        Some(TokenKind::LBracket)
    } else if c == 93 {
        Some(TokenKind::RBracket)
    } else if c == 40 {
        Some(TokenKind::LParen)
    } else if c == 41 {
        Some(TokenKind::RParen)
    } else if c == 58 {
        Some(TokenKind::Colon)
    } else if c == 44 {
        Some(TokenKind::Comma)
    } else if c == 59 {
        Some(TokenKind::Semi)
    } else {
        None
    }
}

fn lex_failure(offset: usize, message: &str) -> (r: CompileError)
    ensures
        r.offset == offset,
        r.message@ == message@,
{
    CompileError { offset, message: crate::text::to_owned_string(message) }
}

/// Splits a workflow source into tokens; comments and whitespace vanish, and any
/// byte that no token admits is an error.
#[verifier::rlimit(40)]
#[verifier::spinoff_prover]
pub fn lex(source: &str) -> (r: Result<Vec<Token>, CompileError>)
    ensures
        match r {
            Ok(ts) => lex_spec(source@) == Ok::<Seq<(nat, TokenView)>, (nat, Seq<char>)>(tokens_view(ts@)),
            Err(e) => lex_spec(source@) == Err::<Seq<(nat, TokenView)>, (nat, Seq<char>)>((e.offset as nat, e.message@)),
        },
{
    let b = source.as_bytes();
    let ghost bs = b@;
    proof {
        assert(bs == encode_utf8(source@));
    }
    let mut out: Vec<Token> = Vec::new();
    let mut i: usize = 0;
    proof {
        assert(after_tokens(tokens_view(out@), lex_from(bs, 0)) =~= lex_from(bs, 0)) by {
            match lex_from(bs, 0) {
                Ok(ts) => {
                    assert(tokens_view(out@) + ts =~= ts);
                },
                Err(e) => {},
            }
        }
    }
    while i < b.len()
        invariant
            i <= bs.len(),
            bs == b@,
            bs == encode_utf8(source@),
            lex_from(bs, 0) == after_tokens(tokens_view(out@), lex_from(bs, i as int)),
        decreases bs.len() - i,
    {
        let c = b[i];
        if c == 32 || c == 9 || c == 10 || c == 12 || c == 13 {
            i = i + 1;
            continue;
        }
        if c == 47 && b.len() - i >= 2 && b[i + 1] == 47 {
            let e = scan_line_comment(b, i + 2);
            proof {
                lemma_line_comment_end(bs, i + 2);
            }
            i = e;
            continue;
        }
        if c == 47 && b.len() - i >= 2 && b[i + 1] == 42 {
            match scan_block_comment(b, i + 2) {
                None => {
                    proof {
                        assert(!is_space(bs[i as int]));
                        assert(lex_from(bs, i as int) == lex_error(i as int, "unterminated comment"@));
                    }
                    return Err(lex_failure(i, "unterminated comment"));
                },
                Some(e) => {
                    proof {
                        lemma_block_comment_end(bs, i + 2);
                    }
                    i = e + 2;
                    continue;
                },
            }
        }
        let ghost done = tokens_view(out@);
        match punctuation_kind(c) {
            Some(kind) => {
                out.push(Token { offset: i, kind });
                proof {
                    assert(tokens_view(out@) =~= done.push(token_view(out@[out@.len() - 1])));
                    match lex_from(bs, i + 1) {
                        Ok(ts) => {
                            assert(done + (seq![(i as nat, punctuation(c)->0)] + ts) =~= tokens_view(out@) + ts);
                        },
                        Err(e) => {},
                    }
                }
                i = i + 1;
                continue;
            },
            None => {},
        }
        if c == 39 || c == 34 || c == 96 {
            match scan_quoted(b, i + 1, c) {
                None => {
                    proof {
                        assert(!is_space(bs[i as int]));
                        assert(punctuation(bs[i as int]) is None);
                        assert(lex_from(bs, i as int) == lex_error(i as int, "unterminated string"@));
                    }
                    return Err(lex_failure(i, "unterminated string"));
                },
                Some((value, e)) => {
                    proof {
                        lemma_quoted_body(bs, i + 1, c);
                    }
                    let text = crate::text::string_from_chars(value.as_slice());
                    let kind = if c == 96 { TokenKind::Template(text) } else { TokenKind::String(text) };
                    out.push(Token { offset: i, kind });
                    proof {
                        let tv = (i as nat, if c == 96 { TokenView::Template(value@) } else { TokenView::Str(value@) });
                        assert(token_view(out@[out@.len() - 1]) == tv);
                        assert(tokens_view(out@) =~= done.push(tv));
                        match lex_from(bs, e + 1) {
                            Ok(ts) => {
                                assert(done + (seq![tv] + ts) =~= tokens_view(out@) + ts);
                            },
                            Err(err) => {},
                        }
                    }
                    i = e + 1;
                    continue;
                },
            }
        }
        if (48 <= c && c <= 57) || (c == 45 && b.len() - i >= 2 && 48 <= b[i + 1] && b[i + 1] <= 57) {
            let e = scan_number(b, i + 1);
            proof {
                lemma_number_end(bs, i + 1);
                assert(starts_number(bs, i as int));
            }
            match number_kind(b, i, e) {
                None => {
                    return Err(lex_failure(i, "invalid number"));
                },
                Some(kind) => {
                    let ghost tv = (i as nat, kind_view(kind));
                    out.push(Token { offset: i, kind });
                    proof {
                        assert(tokens_view(out@) =~= done.push(tv));
                        match lex_from(bs, e as int) {
                            Ok(ts) => {
                                assert(done + (seq![tv] + ts) =~= tokens_view(out@) + ts);
                            },
                            Err(err) => {},
                        }
                    }
                    i = e;
                    continue;
                },
            }
        }
        if (65 <= c && c <= 90) || (97 <= c && c <= 122) || c == 95 || c == 36 {
            let e = scan_ident(b, i + 1);
            proof {
                lemma_ident_end(bs, i + 1);
            }
            let text = text_from_bytes(b, i, e);
            let ghost tv = (i as nat, TokenView::Ident(text@));
            out.push(Token { offset: i, kind: TokenKind::Ident(text) });
            proof {
                assert(tokens_view(out@) =~= done.push(tv));
                match lex_from(bs, e as int) {
                    Ok(ts) => {
                        assert(done + (seq![tv] + ts) =~= tokens_view(out@) + ts);
                    },
                    Err(err) => {},
                }
            }
            i = e;
            continue;
        }
        let mut message = crate::text::to_owned_string("token `");
        crate::text::push_char(&mut message, c as char);
        crate::text::push_str(&mut message, "` is not allowed");
        proof {
            assert(message@ =~= "token `"@ + seq![c as char] + "` is not allowed"@);
        }
        return Err(CompileError { offset: i, message });
    }
    proof {
        assert(tokens_view(out@) + Seq::<(nat, TokenView)>::empty() =~= tokens_view(out@));
    }
    Ok(out)
}

} // verus!
