//! The workflow surface parser: one import of the Orchestra SDK, then
//! `export default` of one static expression built from literals, arrays,
//! objects with static keys, and calls of imported DSL functions.
use crate::compiler::CompileError;
use crate::compiler::Token;
use crate::compiler::TokenKind;
use crate::compiler::TokenView;
use crate::compiler::kind_view;
use crate::compiler::tokens_view;
use crate::json::JsonValue;
use crate::inputs::dot_parts;
use crate::inputs::find_from;
use crate::text::push_str;
use crate::text::str_eq;
use crate::text::to_owned_string;
use vstd::prelude::*;

verus! {

/// A parsed static expression.
pub enum Ast {
    Null,
    Bool(bool),
    Integer(i64),
    Decimal(String),
    Str(String),
    Array(Vec<Ast>),
    Object(Vec<(String, Ast)>),
    Call(String, Vec<Ast>),
}

/// A parsed expression as plain values.
pub enum AstView {
    Null,
    Bool(bool),
    Integer(i64),
    Decimal(Seq<char>),
    Str(Seq<char>),
    Array(Seq<AstView>),
    Object(Seq<(Seq<char>, AstView)>),
    Call(Seq<char>, Seq<AstView>),
}

pub open spec fn ast_view(a: Ast) -> AstView
    decreases a, 0int,
{
    match a {
        Ast::Null => AstView::Null,
        Ast::Bool(b) => AstView::Bool(b),
        Ast::Integer(n) => AstView::Integer(n),
        Ast::Decimal(t) => AstView::Decimal(t@),
        Ast::Str(s) => AstView::Str(s@),
        Ast::Array(xs) => AstView::Array(asts_prefix(xs@, xs@.len() as int)),
        Ast::Object(ms) => AstView::Object(entries_prefix(ms@, ms@.len() as int)),
        Ast::Call(name, args) => AstView::Call(name@, asts_prefix(args@, args@.len() as int)),
    }
}

pub open spec fn asts_prefix(xs: Seq<Ast>, n: int) -> Seq<AstView>
    decreases xs, n,
{
    if n <= 0 || n > xs.len() { Seq::empty() } else { asts_prefix(xs, n - 1).push(ast_view(xs[n - 1])) }
}

pub open spec fn entries_prefix(ms: Seq<(String, Ast)>, n: int) -> Seq<(Seq<char>, AstView)>
    decreases ms, n,
{
    if n <= 0 || n > ms.len() { Seq::empty() } else { entries_prefix(ms, n - 1).push((ms[n - 1].0@, ast_view(ms[n - 1].1))) }
}

pub open spec fn asts_view(xs: Seq<Ast>) -> Seq<AstView> {
    xs.map_values(|x: Ast| ast_view(x))
}

pub open spec fn entries_view(ms: Seq<(String, Ast)>) -> Seq<(Seq<char>, AstView)> {
    ms.map_values(|m: (String, Ast)| (m.0@, ast_view(m.1)))
}

proof fn lemma_asts_prefix(xs: Seq<Ast>, n: int)
    requires
        0 <= n <= xs.len(),
    ensures
        asts_prefix(xs, n) =~= asts_view(xs.take(n)),
    decreases n,
{
    if n > 0 {
        lemma_asts_prefix(xs, n - 1);
        assert(asts_view(xs.take(n)) =~= asts_view(xs.take(n - 1)).push(ast_view(xs[n - 1])));
    }
}

proof fn lemma_entries_prefix(ms: Seq<(String, Ast)>, n: int)
    requires
        0 <= n <= ms.len(),
    ensures
        entries_prefix(ms, n) =~= entries_view(ms.take(n)),
    decreases n,
{
    if n > 0 {
        lemma_entries_prefix(ms, n - 1);
        assert(entries_view(ms.take(n)) =~= entries_view(ms.take(n - 1)).push((ms[n - 1].0@, ast_view(ms[n - 1].1))));
    }
}

pub(crate) proof fn lemma_asts_all(xs: Seq<Ast>)
    ensures
        asts_prefix(xs, xs.len() as int) == asts_view(xs),
{
    lemma_asts_prefix(xs, xs.len() as int);
    assert(xs.take(xs.len() as int) =~= xs);
}

pub(crate) proof fn lemma_entries_all(ms: Seq<(String, Ast)>)
    ensures
        entries_prefix(ms, ms.len() as int) == entries_view(ms),
{
    lemma_entries_prefix(ms, ms.len() as int);
    assert(ms.take(ms.len() as int) =~= ms);
}

// ---------------------------------------------------------------------------
// Tokens

/// Where an error at token `i` is reported: that token's offset, or 0 past the end.
pub open spec fn offset_at(ts: Seq<(nat, TokenView)>, i: int) -> nat {
    if 0 <= i < ts.len() { ts[i].0 } else { 0 }
}

pub open spec fn is_kind(ts: Seq<(nat, TokenView)>, i: int, k: TokenView) -> bool {
    0 <= i < ts.len() && ts[i].1 == k
}

/// The name `Debug` gives a punctuation token.
pub open spec fn punct_name(k: TokenView) -> Seq<char> {
    match k {
        TokenView::LBrace => "LBrace"@,
        TokenView::RBrace => "RBrace"@,
        TokenView::LBracket => "LBracket"@,
        TokenView::RBracket => "RBracket"@,
        TokenView::LParen => "LParen"@,
        TokenView::RParen => "RParen"@,
        TokenView::Colon => "Colon"@,
        TokenView::Comma => "Comma"@,
        TokenView::Semi => "Semi"@,
        _ => Seq::empty(),
    }
}

pub open spec fn expected_message(k: TokenView) -> Seq<char> {
    "expected "@ + punct_name(k)
}

pub open spec fn is_punct(k: TokenView) -> bool {
    k is LBrace || k is RBrace || k is LBracket || k is RBracket || k is LParen || k is RParen || k is Colon || k is Comma || k is Semi
}

fn offset_of(tokens: &Vec<Token>, i: usize) -> (r: usize)
    ensures
        r as nat == offset_at(tokens_view(tokens@), i as int),
{
    if i < tokens.len() {
        tokens[i].offset
    } else {
        0
    }
}

fn error_at(tokens: &Vec<Token>, i: usize, message: String) -> (r: CompileError)
    ensures
        r.offset as nat == offset_at(tokens_view(tokens@), i as int),
        r.message@ == message@,
{
    CompileError { offset: offset_of(tokens, i), message }
}

/// Whether token `i` is the punctuation `want`.
fn token_is(tokens: &Vec<Token>, i: usize, want: &TokenKind) -> (r: bool)
    requires
        is_punct(kind_view(*want)),
    ensures
        r == is_kind(tokens_view(tokens@), i as int, kind_view(*want)),
        r ==> i < tokens@.len(),
{
    if i >= tokens.len() {
        return false;
    }
    match (&tokens[i].kind, want) {
        (TokenKind::LBrace, TokenKind::LBrace) => true,
        (TokenKind::RBrace, TokenKind::RBrace) => true,
        (TokenKind::LBracket, TokenKind::LBracket) => true,
        (TokenKind::RBracket, TokenKind::RBracket) => true,
        (TokenKind::LParen, TokenKind::LParen) => true,
        (TokenKind::RParen, TokenKind::RParen) => true,
        (TokenKind::Colon, TokenKind::Colon) => true,
        (TokenKind::Comma, TokenKind::Comma) => true,
        (TokenKind::Semi, TokenKind::Semi) => true,
        _ => false,
    }
}

fn expected(want: &TokenKind) -> (r: String)
    requires
        is_punct(kind_view(*want)),
    ensures
        r@ == expected_message(kind_view(*want)),
{
    let name = match want {
        TokenKind::LBrace => "LBrace",
        TokenKind::RBrace => "RBrace",
        TokenKind::LBracket => "LBracket",
        TokenKind::RBracket => "RBracket",
        TokenKind::LParen => "LParen",
        TokenKind::RParen => "RParen",
        TokenKind::Colon => "Colon",
        TokenKind::Comma => "Comma",
        _ => "Semi",
    };
    crate::text::concat("expected ", name)
}

// ---------------------------------------------------------------------------
// Template strings

/// A reference a template may hold: `inputs.NAME` or `steps.ID.outputs.NAME`.
pub open spec fn valid_reference(reference: Seq<char>) -> bool {
    let parts = dot_parts(reference);
    (parts.len() == 2 && parts[0] == "inputs"@ && parts[1].len() > 0) || (parts.len() == 4 && parts[0] == "steps"@
        && parts[2] == "outputs"@ && parts[1].len() > 0 && parts[3].len() > 0)
}

pub open spec fn reference_message() -> Seq<char> {
    "templates may reference only `inputs.<name>` or `steps.<id>.outputs.<name>`"@
}

/// The first problem with a template's `${..}` references, if any.
pub open spec fn template_problem(t: Seq<char>) -> Option<Seq<char>>
    decreases t.len(),
{
    match find_from(t, seq!['$', '{'], 0) {
        None => None,
        Some(start) => if 0 <= start && start + 2 <= t.len() {
            let after = t.skip(start + 2);
            match find_from(after, seq!['}'], 0) {
                None => Some("unterminated template reference"@),
                Some(end) => if 0 <= end < after.len() {
                    if !valid_reference(after.take(end)) {
                        Some(reference_message())
                    } else {
                        template_problem(after.skip(end + 1))
                    }
                } else {
                    None
                },
            }
        } else {
            None
        },
    }
}

fn reference_ok(reference: &[char]) -> (r: bool)
    ensures
        r == valid_reference(reference@),
{
    proof {
        reveal_strlit("inputs");
        reveal_strlit("steps");
        reveal_strlit("outputs");
    }
    let parts = crate::inputs::split_dots(reference);
    let ghost pv = parts@.map_values(|p: String| p@);
    proof {
        if parts@.len() > 0 {
            assert(pv[0] == parts@[0]@);
        }
        if parts@.len() > 1 {
            assert(pv[1] == parts@[1]@);
        }
        if parts@.len() > 3 {
            assert(pv[2] == parts@[2]@);
            assert(pv[3] == parts@[3]@);
        }
    }
    (parts.len() == 2 && str_eq(parts[0].as_str(), "inputs") && crate::text::str_chars(parts[1].as_str()).len() > 0)
        || (parts.len() == 4 && str_eq(parts[0].as_str(), "steps") && str_eq(parts[2].as_str(), "outputs")
        && crate::text::str_chars(parts[1].as_str()).len() > 0 && crate::text::str_chars(parts[3].as_str()).len() > 0)
}

fn check_template(value: &str) -> (r: Option<String>)
    ensures
        match r {
            Some(m) => template_problem(value@) == Some(m@),
            None => template_problem(value@) is None,
        },
{
    let mut rest: Vec<char> = crate::text::str_chars(value);
    loop
        invariant
            template_problem(value@) == template_problem(rest@),
        decreases rest@.len(),
    {
        let rs = rest.as_slice();
        match crate::inputs::find_pair(rs, '$', '{') {
            None => return None,
            Some(start) => {
                let n = rs.len();
                let after = crate::text::slice_subrange(rs, start + 2, n);
                proof {
                    assert(after@ =~= rest@.skip(start + 2));
                }
                match crate::inputs::find_char(after, '}') {
                    None => return Some(to_owned_string("unterminated template reference")),
                    Some(end) => {
                        let reference = crate::text::slice_subrange(after, 0, end);
                        proof {
                            assert(reference@ =~= after@.take(end as int));
                        }
                        if !reference_ok(reference) {
                            return Some(to_owned_string(
                                "templates may reference only `inputs.<name>` or `steps.<id>.outputs.<name>`",
                            ));
                        }
                        let tail = crate::text::slice_subrange(after, end + 1, after.len());
                        let next = vstd::slice::slice_to_vec(tail);
                        proof {
                            assert(next@ =~= after@.skip(end + 1));
                        }
                        rest = next;
                    },
                }
            },
        }
    }
}


// ---------------------------------------------------------------------------
// Expressions

/// `true`, `false` and `null`.
pub open spec fn keyword(v: Seq<char>) -> Option<AstView> {
    if v == "true"@ {
        Some(AstView::Bool(true))
    } else if v == "false"@ {
        Some(AstView::Bool(false))
    } else if v == "null"@ {
        Some(AstView::Null)
    } else {
        None
    }
}

pub open spec fn foreign_message(v: Seq<char>) -> Seq<char> {
    "reference to non-Orchestra identifier `"@ + v + "` is not allowed"@
}

/// The expression starting at token `i`, and the position after it.
pub open spec fn parse_expr(ts: Seq<(nat, TokenView)>, i: int, imports: Seq<Seq<char>>)
    -> Result<(AstView, int), (nat, Seq<char>)>
    decreases ts.len() - i, 0int,
{
    if i < 0 || i >= ts.len() {
        Err((offset_at(ts, i), "expected expression"@))
    } else {
        let off = ts[i].0;
        match ts[i].1 {
            TokenView::Str(v) => Ok((AstView::Str(v), i + 1)),
            TokenView::Template(v) => match template_problem(v) {
                None => Ok((AstView::Str(v), i + 1)),
                Some(m) => Err((off, m)),
            },
            TokenView::Integer(n) => Ok((AstView::Integer(n), i + 1)),
            TokenView::Decimal(t) => Ok((AstView::Decimal(t), i + 1)),
            TokenView::Ident(v) => if keyword(v) is Some {
                Ok((keyword(v)->0, i + 1))
            } else if !imports.contains(v) {
                Err((off, foreign_message(v)))
            } else if !is_kind(ts, i + 1, TokenView::LParen) {
                Err((offset_at(ts, i + 1), expected_message(TokenView::LParen)))
            } else {
                match parse_items(ts, i + 2, imports, TokenView::RParen) {
                    Ok((args, j)) => Ok((AstView::Call(v, args), j)),
                    Err(e) => Err(e),
                }
            },
            TokenView::LBracket => match parse_items(ts, i + 1, imports, TokenView::RBracket) {
                Ok((xs, j)) => Ok((AstView::Array(xs), j)),
                Err(e) => Err(e),
            },
            TokenView::LBrace => match parse_entries(ts, i + 1, imports) {
                Ok((ms, j)) => Ok((AstView::Object(ms), j)),
                Err(e) => Err(e),
            },
            _ => Err((off, "unsupported TypeScript expression"@)),
        }
    }
}

/// Comma-separated expressions up to `close` (a trailing comma is allowed).
pub open spec fn parse_items(ts: Seq<(nat, TokenView)>, i: int, imports: Seq<Seq<char>>, close: TokenView)
    -> Result<(Seq<AstView>, int), (nat, Seq<char>)>
    decreases ts.len() - i, 1int,
{
    if i < 0 || i > ts.len() {
        Err((0, Seq::empty()))
    } else if is_kind(ts, i, close) {
        Ok((Seq::empty(), i + 1))
    } else {
        match parse_expr(ts, i, imports) {
            Err(e) => Err(e),
            Ok((a, j)) => if j <= i || j > ts.len() {
                Err((0, Seq::empty()))
            } else if is_kind(ts, j, TokenView::Comma) {
                match parse_items(ts, j + 1, imports, close) {
                    Ok((rest, k)) => Ok((seq![a] + rest, k)),
                    Err(e) => Err(e),
                }
            } else if is_kind(ts, j, close) {
                Ok((seq![a], j + 1))
            } else {
                Err((offset_at(ts, j), expected_message(close)))
            },
        }
    }
}

/// The static key of token `i`: an identifier or a string.
pub open spec fn key_at(ts: Seq<(nat, TokenView)>, i: int) -> Option<Seq<char>> {
    if 0 <= i < ts.len() {
        match ts[i].1 {
            TokenView::Ident(k) => Some(k),
            TokenView::Str(k) => Some(k),
            _ => None,
        }
    } else {
        None
    }
}

/// `key: expression` entries up to `}` (a trailing comma is allowed).
pub open spec fn parse_entries(ts: Seq<(nat, TokenView)>, i: int, imports: Seq<Seq<char>>)
    -> Result<(Seq<(Seq<char>, AstView)>, int), (nat, Seq<char>)>
    decreases ts.len() - i, 1int,
{
    if i < 0 || i > ts.len() {
        Err((0, Seq::empty()))
    } else if is_kind(ts, i, TokenView::RBrace) {
        Ok((Seq::empty(), i + 1))
    } else if key_at(ts, i) is None {
        Err((offset_at(ts, i), "object keys must be static identifiers or strings"@))
    } else if !is_kind(ts, i + 1, TokenView::Colon) {
        Err((offset_at(ts, i + 1), expected_message(TokenView::Colon)))
    } else {
        match parse_expr(ts, i + 2, imports) {
            Err(e) => Err(e),
            Ok((v, j)) => if j <= i || j > ts.len() {
                Err((0, Seq::empty()))
            } else if is_kind(ts, j, TokenView::Comma) {
                match parse_entries(ts, j + 1, imports) {
                    Ok((rest, k)) => Ok((seq![(key_at(ts, i)->0, v)] + rest, k)),
                    Err(e) => Err(e),
                }
            } else if is_kind(ts, j, TokenView::RBrace) {
                Ok((seq![(key_at(ts, i)->0, v)], j + 1))
            } else {
                Err((offset_at(ts, j), expected_message(TokenView::RBrace)))
            },
        }
    }
}

pub open spec fn texts(v: Seq<String>) -> Seq<Seq<char>> {
    v.map_values(|s: String| s@)
}

fn imported(imports: &Vec<String>, name: &str) -> (r: bool)
    ensures
        r == texts(imports@).contains(name@),
{
    let mut i: usize = 0;
    while i < imports.len()
        invariant
            i <= imports@.len(),
            forall|k: int| 0 <= k < i ==> (#[trigger] imports@[k])@ != name@,
        decreases imports.len() - i,
    {
        if str_eq(imports[i].as_str(), name) {
            proof {
                assert(texts(imports@)[i as int] == name@);
            }
            return true;
        }
        i = i + 1;
    }
    proof {
        if texts(imports@).contains(name@) {
            let k = choose|k: int| 0 <= k < texts(imports@).len() && texts(imports@)[k] == name@;
            assert(imports@[k]@ == name@);
        }
    }
    false
}

pub open spec fn parsed<T>(
    spec_result: Result<(T, int), (nat, Seq<char>)>,
    r: Result<(T, usize), CompileError>,
) -> bool {
    match spec_result {
        Ok((a, j)) => r matches Ok((b, k)) && a == b && k as int == j,
        Err((o, m)) => r matches Err(e) && e.offset as nat == o && e.message@ == m,
    }
}

fn parse_expr_exec(tokens: &Vec<Token>, imports: &Vec<String>, i: usize) -> (r: Result<(Ast, usize), CompileError>)
    requires
        i <= tokens@.len(),
    ensures
        match parse_expr(tokens_view(tokens@), i as int, texts(imports@)) {
            Ok((a, j)) => r matches Ok((b, k)) && ast_view(b) == a && k as int == j && i < k <= tokens@.len(),
            Err((o, m)) => r matches Err(e) && e.offset as nat == o && e.message@ == m,
        },
    decreases tokens@.len() - i, 0int,
{
    let ghost ts = tokens_view(tokens@);
    if i >= tokens.len() {
        return Err(error_at(tokens, i, to_owned_string("expected expression")));
    }
    let off = tokens[i].offset;
    proof {
        assert(ts[i as int] == (off as nat, kind_view(tokens@[i as int].kind)));
    }
    match &tokens[i].kind {
        TokenKind::String(v) => Ok((Ast::Str(v.clone()), i + 1)),
        TokenKind::Template(v) => match check_template(v.as_str()) {
            None => Ok((Ast::Str(v.clone()), i + 1)),
            Some(m) => Err(CompileError { offset: off, message: m }),
        },
        TokenKind::Integer(n) => Ok((Ast::Integer(*n), i + 1)),
        TokenKind::Decimal(t) => Ok((Ast::Decimal(t.clone()), i + 1)),
        TokenKind::Ident(v) => {
            proof {
                reveal_strlit("true");
                reveal_strlit("false");
                reveal_strlit("null");
            }
            if str_eq(v.as_str(), "true") {
                return Ok((Ast::Bool(true), i + 1));
            }
            if str_eq(v.as_str(), "false") {
                return Ok((Ast::Bool(false), i + 1));
            }
            if str_eq(v.as_str(), "null") {
                return Ok((Ast::Null, i + 1));
            }
            if !imported(imports, v.as_str()) {
                let mut m = to_owned_string("reference to non-Orchestra identifier `");
                push_str(&mut m, v.as_str());
                push_str(&mut m, "` is not allowed");
                return Err(CompileError { offset: off, message: m });
            }
            if !token_is(tokens, i + 1, &TokenKind::LParen) {
                return Err(error_at(tokens, i + 1, expected(&TokenKind::LParen)));
            }
            match parse_items_exec(tokens, imports, i + 2, &TokenKind::RParen) {
                Ok((args, j)) => {
                    let call = Ast::Call(v.clone(), args);
                    proof {
                        lemma_asts_all(args@);
                    }
                    Ok((call, j))
                },
                Err(e) => Err(e),
            }
        },
        TokenKind::LBracket => match parse_items_exec(tokens, imports, i + 1, &TokenKind::RBracket) {
            Ok((xs, j)) => {
                proof {
                    lemma_asts_all(xs@);
                }
                Ok((Ast::Array(xs), j))
            },
            Err(e) => Err(e),
        },
        TokenKind::LBrace => match parse_entries_exec(tokens, imports, i + 1) {
            Ok((ms, j)) => {
                proof {
                    lemma_entries_all(ms@);
                }
                Ok((Ast::Object(ms), j))
            },
            Err(e) => Err(e),
        },
        _ => Err(CompileError { offset: off, message: to_owned_string("unsupported TypeScript expression") }),
    }
}

fn parse_items_exec(tokens: &Vec<Token>, imports: &Vec<String>, i: usize, close: &TokenKind) -> (r: Result<(Vec<Ast>, usize), CompileError>)
    requires
        i <= tokens@.len(),
        is_punct(kind_view(*close)),
    ensures
        match parse_items(tokens_view(tokens@), i as int, texts(imports@), kind_view(*close)) {
            Ok((xs, j)) => r matches Ok((v, k)) && asts_view(v@) == xs && k as int == j && i < k <= tokens@.len(),
            Err((o, m)) => r matches Err(e) && e.offset as nat == o && e.message@ == m,
        },
    decreases tokens@.len() - i, 1int,
{
    let total = tokens.len();
    if token_is(tokens, i, close) {
        let empty: Vec<Ast> = Vec::new();
        proof {
            assert(asts_view(empty@) =~= Seq::<AstView>::empty());
        }
        return Ok((empty, i + 1));
    }
    let (a, j) = match parse_expr_exec(tokens, imports, i) {
        Ok(x) => x,
        Err(e) => return Err(e),
    };
    if token_is(tokens, j, &TokenKind::Comma) {
        match parse_items_exec(tokens, imports, j + 1, close) {
            Ok((rest, k)) => {
                let mut out: Vec<Ast> = Vec::new();
                out.push(a);
                let mut rest = rest;
                let ghost rv = asts_view(rest@);
                out.append(&mut rest);
                proof {
                    assert(asts_view(out@) =~= seq![ast_view(out@[0])] + rv);
                }
                Ok((out, k))
            },
            Err(e) => Err(e),
        }
    } else if token_is(tokens, j, close) {
        let mut out: Vec<Ast> = Vec::new();
        out.push(a);
        proof {
            assert(asts_view(out@) =~= seq![ast_view(out@[0])]);
        }
        Ok((out, j + 1))
    } else {
        Err(error_at(tokens, j, expected(close)))
    }
}

fn parse_entries_exec(tokens: &Vec<Token>, imports: &Vec<String>, i: usize) -> (r: Result<(Vec<(String, Ast)>, usize), CompileError>)
    requires
        i <= tokens@.len(),
    ensures
        match parse_entries(tokens_view(tokens@), i as int, texts(imports@)) {
            Ok((ms, j)) => r matches Ok((v, k)) && entries_view(v@) == ms && k as int == j && i < k <= tokens@.len(),
            Err((o, m)) => r matches Err(e) && e.offset as nat == o && e.message@ == m,
        },
    decreases tokens@.len() - i, 1int,
{
    let ghost ts = tokens_view(tokens@);
    let total = tokens.len();
    if token_is(tokens, i, &TokenKind::RBrace) {
        let empty: Vec<(String, Ast)> = Vec::new();
        proof {
            assert(entries_view(empty@) =~= Seq::<(Seq<char>, AstView)>::empty());
        }
        return Ok((empty, i + 1));
    }
    let key = if i < tokens.len() {
        proof {
            assert(ts[i as int].1 == kind_view(tokens@[i as int].kind));
        }
        match &tokens[i].kind {
            TokenKind::Ident(k) => Some(k.clone()),
            TokenKind::String(k) => Some(k.clone()),
            _ => None,
        }
    } else {
        None
    };
    let key = match key {
        Some(k) => k,
        None => return Err(error_at(tokens, i, to_owned_string("object keys must be static identifiers or strings"))),
    };
    if !token_is(tokens, i + 1, &TokenKind::Colon) {
        return Err(error_at(tokens, i + 1, expected(&TokenKind::Colon)));
    }
    let (v, j) = match parse_expr_exec(tokens, imports, i + 2) {
        Ok(x) => x,
        Err(e) => return Err(e),
    };
    if token_is(tokens, j, &TokenKind::Comma) {
        match parse_entries_exec(tokens, imports, j + 1) {
            Ok((rest, k)) => {
                let mut out: Vec<(String, Ast)> = Vec::new();
                out.push((key, v));
                let mut rest = rest;
                let ghost rv = entries_view(rest@);
                out.append(&mut rest);
                proof {
                    assert(entries_view(out@) =~= seq![(out@[0].0@, ast_view(out@[0].1))] + rv);
                }
                Ok((out, k))
            },
            Err(e) => Err(e),
        }
    } else if token_is(tokens, j, &TokenKind::RBrace) {
        let mut out: Vec<(String, Ast)> = Vec::new();
        out.push((key, v));
        proof {
            assert(entries_view(out@) =~= seq![(out@[0].0@, ast_view(out@[0].1))]);
        }
        Ok((out, j + 1))
    } else {
        Err(error_at(tokens, j, expected(&TokenKind::RBrace)))
    }
}


// ---------------------------------------------------------------------------
// The module

/// The DSL functions a workflow may import.
pub open spec fn approved_call(name: Seq<char>) -> bool {
    name == "workflow"@ || name == "defineWorkflow"@ || name == "agent"@ || name == "parallel"@ || name == "pipeline"@
        || name == "check"@ || name == "approval"@ || name == "worktree"@ || name == "repeat"@ || name == "ref"@
}

pub open spec fn is_ident(ts: Seq<(nat, TokenView)>, i: int, v: Seq<char>) -> bool {
    0 <= i < ts.len() && ts[i].1 == TokenView::Ident(v)
}

/// The comma-separated names of an import list, from token `i`.
pub open spec fn import_names(ts: Seq<(nat, TokenView)>, i: int) -> Result<(Seq<Seq<char>>, int), (nat, Seq<char>)>
    decreases ts.len() - i,
{
    if i < 0 || i >= ts.len() || !(ts[i].1 is Ident) {
        Err((offset_at(ts, i), "expected identifier"@))
    } else {
        let name = ts[i].1->Ident_0;
        if !approved_call(name) {
            Err((offset_at(ts, i + 1), "`"@ + name + "` is not an approved Orchestra DSL import"@))
        } else if is_ident(ts, i + 1, "as"@) {
            Err((offset_at(ts, i + 1), "import aliases are not allowed"@))
        } else if is_kind(ts, i + 1, TokenView::Comma) {
            match import_names(ts, i + 2) {
                Ok((ns, k)) => Ok((seq![name] + ns, k)),
                Err(e) => Err(e),
            }
        } else {
            Ok((seq![name], i + 1))
        }
    }
}

pub open spec fn sdk_module() -> Seq<char> {
    "@codex-orchestra/workflow"@
}

/// `import { .. } from "@codex-orchestra/workflow";`: the imported names and the
/// position after the import.
pub open spec fn parse_import(ts: Seq<(nat, TokenView)>) -> Result<(Seq<Seq<char>>, int), (nat, Seq<char>)> {
    if !is_ident(ts, 0, "import"@) {
        Err((offset_at(ts, 0), "expected `import`"@))
    } else if !is_kind(ts, 1, TokenView::LBrace) {
        Err((offset_at(ts, 1), expected_message(TokenView::LBrace)))
    } else {
        match import_names(ts, 2) {
            Err(e) => Err(e),
            Ok((names, j)) => if !is_kind(ts, j, TokenView::RBrace) {
                Err((offset_at(ts, j), expected_message(TokenView::RBrace)))
            } else if !is_ident(ts, j + 1, "from"@) {
                Err((offset_at(ts, j + 1), "expected `from`"@))
            } else if !(0 <= j + 2 < ts.len() && ts[j + 2].1 is Str) {
                Err((offset_at(ts, j + 2), "expected string"@))
            } else if ts[j + 2].1->Str_0 != sdk_module() {
                Err((offset_at(ts, j + 3), "workflow may import only `@codex-orchestra/workflow`"@))
            } else {
                Ok((names, if is_kind(ts, j + 3, TokenView::Semi) { j + 4 } else { j + 3 }))
            },
        }
    }
}

/// A whole workflow module: its import, then `export default` of one expression,
/// an optional `;`, and nothing after.
pub open spec fn parse_module(ts: Seq<(nat, TokenView)>) -> Result<AstView, (nat, Seq<char>)> {
    match parse_import(ts) {
        Err(e) => Err(e),
        Ok((names, j)) => if !is_ident(ts, j, "export"@) {
            Err((offset_at(ts, j), "expected `export`"@))
        } else if !is_ident(ts, j + 1, "default"@) {
            Err((offset_at(ts, j + 1), "expected `default`"@))
        } else {
            match parse_expr(ts, j + 2, names) {
                Err(e) => Err(e),
                Ok((a, k)) => {
                    let end = if is_kind(ts, k, TokenView::Semi) { k + 1 } else { k };
                    if end != ts.len() {
                        Err((offset_at(ts, end), "side effects or trailing statements are not allowed"@))
                    } else {
                        Ok(a)
                    }
                },
            }
        },
    }
}

/// The workflow source parsed: lexing errors first, then parse errors.
pub open spec fn parse_source(source: Seq<char>) -> Result<AstView, (nat, Seq<char>)> {
    match crate::compiler::lex_spec(source) {
        Err(e) => Err(e),
        Ok(ts) => parse_module(ts),
    }
}

fn ident_at(tokens: &Vec<Token>, i: usize, v: &str) -> (r: bool)
    ensures
        r == is_ident(tokens_view(tokens@), i as int, v@),
        r ==> i < tokens@.len(),
{
    if i >= tokens.len() {
        return false;
    }
    proof {
        assert(tokens_view(tokens@)[i as int].1 == kind_view(tokens@[i as int].kind));
    }
    match &tokens[i].kind {
        TokenKind::Ident(x) => str_eq(x.as_str(), v),
        _ => false,
    }
}

fn approved(name: &str) -> (r: bool)
    ensures
        r == approved_call(name@),
{
    str_eq(name, "workflow") || str_eq(name, "defineWorkflow") || str_eq(name, "agent") || str_eq(name, "parallel")
        || str_eq(name, "pipeline") || str_eq(name, "check") || str_eq(name, "approval") || str_eq(name, "worktree")
        || str_eq(name, "repeat") || str_eq(name, "ref")
}

fn import_names_exec(tokens: &Vec<Token>, i: usize) -> (r: Result<(Vec<String>, usize), CompileError>)
    requires
        i <= tokens@.len(),
    ensures
        match import_names(tokens_view(tokens@), i as int) {
            Ok((ns, j)) => r matches Ok((v, k)) && texts(v@) == ns && k as int == j && k <= tokens@.len(),
            Err((o, m)) => r matches Err(e) && e.offset as nat == o && e.message@ == m,
        },
    decreases tokens@.len() - i,
{
    let total = tokens.len();
    if i >= total {
        return Err(error_at(tokens, i, to_owned_string("expected identifier")));
    }
    proof {
        assert(tokens_view(tokens@)[i as int].1 == kind_view(tokens@[i as int].kind));
    }
    let name = match &tokens[i].kind {
        TokenKind::Ident(x) => x.clone(),
        _ => return Err(error_at(tokens, i, to_owned_string("expected identifier"))),
    };
    if !approved(name.as_str()) {
        let mut m = to_owned_string("`");
        push_str(&mut m, name.as_str());
        push_str(&mut m, "` is not an approved Orchestra DSL import");
        return Err(error_at(tokens, i + 1, m));
    }
    if ident_at(tokens, i + 1, "as") {
        return Err(error_at(tokens, i + 1, to_owned_string("import aliases are not allowed")));
    }
    if token_is(tokens, i + 1, &TokenKind::Comma) {
        match import_names_exec(tokens, i + 2) {
            Ok((rest, k)) => {
                let mut out: Vec<String> = Vec::new();
                out.push(name);
                let mut rest = rest;
                let ghost rv = texts(rest@);
                out.append(&mut rest);
                proof {
                    assert(texts(out@) =~= seq![out@[0]@] + rv);
                }
                Ok((out, k))
            },
            Err(e) => Err(e),
        }
    } else {
        let mut out: Vec<String> = Vec::new();
        out.push(name);
        proof {
            assert(texts(out@) =~= seq![out@[0]@]);
        }
        Ok((out, i + 1))
    }
}

fn parse_import_exec(tokens: &Vec<Token>) -> (r: Result<(Vec<String>, usize), CompileError>)
    ensures
        match parse_import(tokens_view(tokens@)) {
            Ok((ns, j)) => r matches Ok((v, k)) && texts(v@) == ns && k as int == j && k <= tokens@.len(),
            Err((o, m)) => r matches Err(e) && e.offset as nat == o && e.message@ == m,
        },
{
    let total = tokens.len();
    if !ident_at(tokens, 0, "import") {
        return Err(error_at(tokens, 0, to_owned_string("expected `import`")));
    }
    if !token_is(tokens, 1, &TokenKind::LBrace) {
        return Err(error_at(tokens, 1, expected(&TokenKind::LBrace)));
    }
    let (names, j) = match import_names_exec(tokens, 2) {
        Ok(x) => x,
        Err(e) => return Err(e),
    };
    if !token_is(tokens, j, &TokenKind::RBrace) {
        return Err(error_at(tokens, j, expected(&TokenKind::RBrace)));
    }
    if !ident_at(tokens, j + 1, "from") {
        return Err(error_at(tokens, j + 1, to_owned_string("expected `from`")));
    }
    if j + 2 >= total {
        return Err(error_at(tokens, j + 2, to_owned_string("expected string")));
    }
    proof {
        assert(tokens_view(tokens@)[j + 2].1 == kind_view(tokens@[j + 2].kind));
        reveal_strlit("@codex-orchestra/workflow");
    }
    let module_ok = match &tokens[j + 2].kind {
        TokenKind::String(m) => str_eq(m.as_str(), "@codex-orchestra/workflow"),
        _ => return Err(error_at(tokens, j + 2, to_owned_string("expected string"))),
    };
    if !module_ok {
        return Err(error_at(tokens, j + 3, to_owned_string("workflow may import only `@codex-orchestra/workflow`")));
    }
    let end = if token_is(tokens, j + 3, &TokenKind::Semi) { j + 4 } else { j + 3 };
    Ok((names, end))
}

/// Parses a workflow module into its default-exported expression.
pub fn parse_workflow(source: &str) -> (r: Result<Ast, CompileError>)
    ensures
        match parse_source(source@) {
            Ok(a) => r matches Ok(b) && ast_view(b) == a,
            Err((o, m)) => r matches Err(e) && e.offset as nat == o && e.message@ == m,
        },
{
    let tokens = crate::compiler::lex(source)?;
    let total = tokens.len();
    let (names, j) = parse_import_exec(&tokens)?;
    if !ident_at(&tokens, j, "export") {
        return Err(error_at(&tokens, j, to_owned_string("expected `export`")));
    }
    if !ident_at(&tokens, j + 1, "default") {
        return Err(error_at(&tokens, j + 1, to_owned_string("expected `default`")));
    }
    let (ast, k) = parse_expr_exec(&tokens, &names, j + 2)?;
    let end = if token_is(&tokens, k, &TokenKind::Semi) { k + 1 } else { k };
    if end != total {
        return Err(error_at(&tokens, end, to_owned_string("side effects or trailing statements are not allowed")));
    }
    Ok(ast)
}


// ---------------------------------------------------------------------------
// Static values

/// A decimal integer as text.
pub open spec fn i64_text(n: i64) -> Seq<char> {
    if n < 0 { seq!['-'] + crate::text::decimal((-n) as nat) } else { crate::text::decimal(n as nat) }
}

pub open spec fn ref_only_message() -> Seq<char> {
    "`ref` may reference only `inputs.<name>` or `steps.<id>.outputs.<name>`"@
}

pub open spec fn has_key(es: Seq<(Seq<char>, crate::inputs::JsonView)>, k: Seq<char>) -> bool {
    exists|i: int| 0 <= i < es.len() && (#[trigger] es[i]).0 == k
}

/// A parsed expression as JSON data: `ref("..")` becomes its `${..}` template;
/// any other call is an error, and so is a repeated object key. Object members
/// come out ordered by key.
pub open spec fn ast_json(a: AstView) -> Result<crate::inputs::JsonView, Seq<char>>
    decreases a, 0int,
{
    match a {
        AstView::Null => Ok(crate::inputs::JsonView::Null),
        AstView::Bool(b) => Ok(crate::inputs::JsonView::Bool(b)),
        AstView::Integer(n) => Ok(crate::inputs::JsonView::Number(i64_text(n))),
        AstView::Decimal(t) => Ok(crate::inputs::JsonView::Number(t)),
        AstView::Str(s) => Ok(crate::inputs::JsonView::Str(s)),
        AstView::Array(xs) => match items_json(xs, xs.len() as int) {
            Ok(ys) => Ok(crate::inputs::JsonView::Array(ys)),
            Err(e) => Err(e),
        },
        AstView::Object(ms) => match members_json(ms, ms.len() as int) {
            Ok(es) => Ok(crate::inputs::JsonView::Object(es)),
            Err(e) => Err(e),
        },
        AstView::Call(name, args) => if name == "ref"@ && args.len() == 1 {
            match args[0] {
                AstView::Str(v) => if valid_reference(v) {
                    Ok(crate::inputs::JsonView::Str("${"@ + v + "}"@))
                } else {
                    Err(ref_only_message())
                },
                _ => Err("`ref` expects one string"@),
            }
        } else {
            Err("DSL call `"@ + name + "` is not valid in this value"@)
        },
    }
}

pub open spec fn items_json(xs: Seq<AstView>, n: int) -> Result<Seq<crate::inputs::JsonView>, Seq<char>>
    decreases xs, n,
{
    if n <= 0 || n > xs.len() {
        Ok(Seq::empty())
    } else {
        match items_json(xs, n - 1) {
            Err(e) => Err(e),
            Ok(ys) => match ast_json(xs[n - 1]) {
                Err(e) => Err(e),
                Ok(y) => Ok(ys.push(y)),
            },
        }
    }
}

pub open spec fn members_json(ms: Seq<(Seq<char>, AstView)>, n: int)
    -> Result<Seq<(Seq<char>, crate::inputs::JsonView)>, Seq<char>>
    decreases ms, n,
{
    if n <= 0 || n > ms.len() {
        Ok(Seq::empty())
    } else {
        match members_json(ms, n - 1) {
            Err(e) => Err(e),
            Ok(es) => match ast_json(ms[n - 1].1) {
                Err(e) => Err(e),
                Ok(v) => if has_key(es, ms[n - 1].0) {
                    Err("duplicate object key `"@ + ms[n - 1].0 + "`"@)
                } else {
                    Ok(crate::inputs::insert_member(es, ms[n - 1].0, v))
                },
            },
        }
    }
}

pub(crate) fn i64_to_string(n: i64) -> (r: String)
    ensures
        r@ == i64_text(n),
{
    if n < 0 {
        let magnitude = (-(n as i128)) as u64;
        proof {
            reveal_strlit("-");
            assert(magnitude as int == -(n as int));
        }
        let mut s = to_owned_string("-");
        push_str(&mut s, crate::text::u64_to_string(magnitude).as_str());
        proof {
            assert(s@ =~= seq!['-'] + crate::text::decimal((-n) as nat));
        }
        s
    } else {
        crate::text::u64_to_string(n as u64)
    }
}

fn lowering_error(message: String) -> (r: CompileError)
    ensures
        r.offset == 0,
        r.message@ == message@,
{
    CompileError { offset: 0, message }
}

fn member_key_present(es: &Vec<(String, JsonValue)>, k: &str) -> (r: bool)
    ensures
        r == has_key(crate::inputs::entries_view(es@), k@),
{
    let ghost ev = crate::inputs::entries_view(es@);
    let mut i: usize = 0;
    while i < es.len()
        invariant
            i <= es@.len(),
            ev == crate::inputs::entries_view(es@),
            forall|j: int| 0 <= j < i ==> (#[trigger] ev[j]).0 != k@,
        decreases es.len() - i,
    {
        if str_eq(es[i].0.as_str(), k) {
            proof {
                assert(ev[i as int].0 == k@);
            }
            return true;
        }
        i = i + 1;
    }
    proof {
        if has_key(ev, k@) {
            let j = choose|j: int| 0 <= j < ev.len() && (#[trigger] ev[j]).0 == k@;
            assert(ev[j].0 != k@);
        }
    }
    false
}

/// A parsed expression as JSON data (see `ast_json`); errors are reported at offset 0.
pub fn ast_to_json(a: &Ast) -> (r: Result<JsonValue, CompileError>)
    ensures
        match ast_json(ast_view(*a)) {
            Ok(j) => r matches Ok(v) && crate::inputs::json_view(v) == j,
            Err(m) => r matches Err(e) && e.offset == 0 && e.message@ == m,
        },
    decreases a,
{
    match a {
        Ast::Null => Ok(JsonValue::Null),
        Ast::Bool(b) => Ok(JsonValue::Bool(*b)),
        Ast::Integer(n) => Ok(JsonValue::Number(i64_to_string(*n))),
        Ast::Decimal(t) => Ok(JsonValue::Number(t.clone())),
        Ast::Str(s) => Ok(JsonValue::String(s.clone())),
        Ast::Array(xs) => {
            proof {
                lemma_asts_all(xs@);
            }
            let ghost xv = asts_view(xs@);
            let mut out: Vec<JsonValue> = Vec::new();
            let mut i: usize = 0;
            proof {
                assert(crate::inputs::values_view(out@) =~= Seq::<crate::inputs::JsonView>::empty());
            }
            while i < xs.len()
                invariant
                    i <= xs@.len(),
                    *a == Ast::Array(*xs),
                    xv == asts_view(xs@),
                    ast_view(*a) == AstView::Array(xv),
                    items_json(xv, i as int) == Ok::<Seq<crate::inputs::JsonView>, Seq<char>>(crate::inputs::values_view(out@)),
                decreases xs.len() - i,
            {
                proof {
                    assert(decreases_to!(*a => (*a)->Array_0));
                    assert(decreases_to!((*a)->Array_0 => (*a)->Array_0@));
                    assert(decreases_to!((*a)->Array_0@ => (*a)->Array_0@[i as int]));
                    assert(xv[i as int] == ast_view(xs@[i as int]));
                }
                match ast_to_json(&xs[i]) {
                    Ok(v) => {
                        let ghost before = crate::inputs::values_view(out@);
                        out.push(v);
                        proof {
                            assert(crate::inputs::values_view(out@) =~= before.push(crate::inputs::json_view(v)));
                        }
                    },
                    Err(e) => {
                        proof {
                            lemma_items_json_err(xv, i + 1, xv.len() as int);
                        }
                        return Err(e);
                    },
                }
                i = i + 1;
            }
            let r = JsonValue::Array(out);
            proof {
                crate::inputs::lemma_array_view_pub(r);
            }
            Ok(r)
        },
        Ast::Object(ms) => {
            proof {
                lemma_entries_all(ms@);
            }
            let ghost mv = entries_view(ms@);
            let mut out: Vec<(String, JsonValue)> = Vec::new();
            let mut i: usize = 0;
            proof {
                assert(crate::inputs::entries_view(out@) =~= Seq::<(Seq<char>, crate::inputs::JsonView)>::empty());
            }
            while i < ms.len()
                invariant
                    i <= ms@.len(),
                    *a == Ast::Object(*ms),
                    mv == entries_view(ms@),
                    ast_view(*a) == AstView::Object(mv),
                    members_json(mv, i as int) == Ok::<Seq<(Seq<char>, crate::inputs::JsonView)>, Seq<char>>(
                        crate::inputs::entries_view(out@),
                    ),
                decreases ms.len() - i,
            {
                proof {
                    assert(decreases_to!(*a => (*a)->Object_0));
                    assert(decreases_to!((*a)->Object_0 => (*a)->Object_0@));
                    assert(decreases_to!((*a)->Object_0@ => (*a)->Object_0@[i as int]));
                    assert(decreases_to!((*a)->Object_0@[i as int] => (*a)->Object_0@[i as int].1));
                    assert(mv[i as int] == (ms@[i as int].0@, ast_view(ms@[i as int].1)));
                }
                match ast_to_json(&ms[i].1) {
                    Ok(v) => {
                        if member_key_present(&out, ms[i].0.as_str()) {
                            let mut m = to_owned_string("duplicate object key `");
                            push_str(&mut m, ms[i].0.as_str());
                            push_str(&mut m, "`");
                            proof {
                                lemma_members_json_err(mv, i + 1, mv.len() as int);
                            }
                            return Err(lowering_error(m));
                        }
                        crate::inputs::insert_member_exec(&mut out, ms[i].0.clone(), v);
                    },
                    Err(e) => {
                        proof {
                            lemma_members_json_err(mv, i + 1, mv.len() as int);
                        }
                        return Err(e);
                    },
                }
                i = i + 1;
            }
            let r = JsonValue::Object(out);
            proof {
                crate::inputs::lemma_object_view_pub(r);
            }
            Ok(r)
        },
        Ast::Call(name, args) => {
            proof {
                lemma_asts_all(args@);
                reveal_strlit("ref");
            }
            if str_eq(name.as_str(), "ref") && args.len() == 1 {
                proof {
                    assert(asts_view(args@)[0] == ast_view(args@[0]));
                }
                match &args[0] {
                    Ast::Str(v) => {
                        let chars = crate::text::str_chars(v.as_str());
                        if reference_ok(chars.as_slice()) {
                            let mut t = to_owned_string("${");
                            push_str(&mut t, v.as_str());
                            push_str(&mut t, "}");
                            Ok(JsonValue::String(t))
                        } else {
                            Err(lowering_error(to_owned_string(
                                "`ref` may reference only `inputs.<name>` or `steps.<id>.outputs.<name>`",
                            )))
                        }
                    },
                    _ => Err(lowering_error(to_owned_string("`ref` expects one string"))),
                }
            } else {
                let mut m = to_owned_string("DSL call `");
                push_str(&mut m, name.as_str());
                push_str(&mut m, "` is not valid in this value");
                Err(lowering_error(m))
            }
        },
    }
}

proof fn lemma_items_json_err(xs: Seq<AstView>, i: int, n: int)
    requires
        0 <= i <= n <= xs.len(),
        items_json(xs, i) is Err,
    ensures
        items_json(xs, n) == items_json(xs, i),
    decreases n - i,
{
    if n > i {
        lemma_items_json_err(xs, i, n - 1);
    }
}

proof fn lemma_members_json_err(ms: Seq<(Seq<char>, AstView)>, i: int, n: int)
    requires
        0 <= i <= n <= ms.len(),
        members_json(ms, i) is Err,
    ensures
        members_json(ms, n) == members_json(ms, i),
    decreases n - i,
{
    if n > i {
        lemma_members_json_err(ms, i, n - 1);
    }
}


// ---------------------------------------------------------------------------
// Lowering composed steps

/// `needs` with each of `deps` appended that it does not hold yet, in order.
pub open spec fn add_missing(needs: Seq<Seq<char>>, deps: Seq<Seq<char>>) -> Seq<Seq<char>>
    decreases deps.len(),
{
    if deps.len() == 0 {
        needs
    } else {
        let acc = add_missing(needs, deps.drop_last());
        if acc.contains(deps.last()) { acc } else { acc.push(deps.last()) }
    }
}

pub open spec fn step_ids(group: Seq<crate::plan::Step>) -> Seq<Seq<char>> {
    group.map_values(|s: crate::plan::Step| s.id@)
}

/// A step of a pipeline stage after the first: it also needs every step of the
/// stage before, and is otherwise unchanged.
pub open spec fn chained(old: crate::plan::Step, new: crate::plan::Step, prior: Seq<Seq<char>>) -> bool {
    &&& new == (crate::plan::Step { needs: new.needs, ..old })
    &&& texts(new.needs@) == add_missing(texts(old.needs@), prior)
}

fn contains_text(v: &Vec<String>, x: &str) -> (r: bool)
    ensures
        r == texts(v@).contains(x@),
{
    let mut i: usize = 0;
    while i < v.len()
        invariant
            i <= v@.len(),
            forall|k: int| 0 <= k < i ==> (#[trigger] v@[k])@ != x@,
        decreases v.len() - i,
    {
        if str_eq(v[i].as_str(), x) {
            proof {
                assert(texts(v@)[i as int] == x@);
            }
            return true;
        }
        i = i + 1;
    }
    proof {
        if texts(v@).contains(x@) {
            let k = choose|k: int| 0 <= k < texts(v@).len() && texts(v@)[k] == x@;
            assert(v@[k]@ == x@);
        }
    }
    false
}

fn chain_step(step: crate::plan::Step, prior: &Vec<String>) -> (r: crate::plan::Step)
    ensures
        chained(step, r, texts(prior@)),
{
    let mut step = step;
    let ghost original = step;
    let mut i: usize = 0;
    proof {
        assert(texts(prior@).take(0) =~= Seq::<Seq<char>>::empty());
    }
    while i < prior.len()
        invariant
            i <= prior@.len(),
            step == (crate::plan::Step { needs: step.needs, ..original }),
            texts(step.needs@) == add_missing(texts(original.needs@), texts(prior@).take(i as int)),
        decreases prior.len() - i,
    {
        let ghost d = texts(prior@).take(i + 1);
        proof {
            assert(d.drop_last() =~= texts(prior@).take(i as int));
            assert(d.last() == prior@[i as int]@);
        }
        if !contains_text(&step.needs, prior[i].as_str()) {
            let ghost before = texts(step.needs@);
            let mut needs = step.needs;
            needs.push(prior[i].clone());
            step = crate::plan::Step { needs, ..step };
            proof {
                assert(texts(step.needs@) =~= before.push(prior@[i as int]@));
            }
        }
        i = i + 1;
    }
    proof {
        assert(texts(prior@).take(i as int) =~= texts(prior@));
    }
    step
}

fn ids_of(group: &Vec<crate::plan::Step>) -> (r: Vec<String>)
    ensures
        texts(r@) == step_ids(group@),
{
    let mut out: Vec<String> = Vec::new();
    let mut i: usize = 0;
    while i < group.len()
        invariant
            i <= group@.len(),
            texts(out@) == step_ids(group@).take(i as int),
        decreases group.len() - i,
    {
        let ghost before = texts(out@);
        out.push(group[i].id.clone());
        proof {
            assert(texts(out@) =~= before.push(group@[i as int].id@));
            assert(step_ids(group@).take(i + 1) =~= step_ids(group@).take(i as int).push(group@[i as int].id@));
        }
        i = i + 1;
    }
    proof {
        assert(step_ids(group@).take(i as int) =~= step_ids(group@));
    }
    out
}

/// A pipeline's stages: each step of a stage after the first also needs every
/// step of the stage before it; the first stage is unchanged.
pub fn chain_pipeline(groups: Vec<Vec<crate::plan::Step>>) -> (r: Vec<Vec<crate::plan::Step>>)
    ensures
        r@.len() == groups@.len(),
        forall|k: int| 0 <= k < r@.len() ==> (#[trigger] r@[k])@.len() == groups@[k]@.len(),
        r@.len() > 0 ==> r@[0]@ == groups@[0]@,
        forall|k: int, j: int| 0 < k < r@.len() && 0 <= j < r@[k]@.len() ==> chained(
            #[trigger] groups@[k]@[j],
            #[trigger] r@[k]@[j],
            step_ids(groups@[k - 1]@),
        ),
{
    let ghost original = groups@.map_values(|g: Vec<crate::plan::Step>| g@);
    let mut rest = groups;
    let mut out: Vec<Vec<crate::plan::Step>> = Vec::new();
    let mut prior: Vec<String> = Vec::new();
    let mut k: usize = 0;
    let n = rest.len();
    proof {
        assert(rest@.map_values(|g: Vec<crate::plan::Step>| g@) =~= original.skip(0));
    }
    while rest.len() > 0
        invariant
            k + rest@.len() == n,
            n == original.len(),
            rest@.map_values(|g: Vec<crate::plan::Step>| g@) == original.skip(k as int),
            out@.len() == k,
            forall|q: int| 0 <= q < k ==> (#[trigger] out@[q])@.len() == original[q].len(),
            k > 0 ==> out@[0]@ == original[0],
            k > 0 ==> texts(prior@) == step_ids(original[k - 1]),
            forall|q: int, j: int| 0 < q < k && 0 <= j < out@[q]@.len() ==> chained(
                #[trigger] original[q][j],
                #[trigger] out@[q]@[j],
                step_ids(original[q - 1]),
            ),
        decreases rest@.len(),
    {
        let ghost rv = rest@.map_values(|g: Vec<crate::plan::Step>| g@);
        let ghost old_rest = rest@;
        let group = rest.remove(0);
        proof {
            assert(rv[0] == group@);
            assert(group@ == original[k as int]);
            assert(rest@ =~= old_rest.subrange(1, old_rest.len() as int));
            let mapped = rest@.map_values(|g: Vec<crate::plan::Step>| g@);
            let target = original.skip(k + 1);
            assert forall|i: int| 0 <= i < rest@.len() implies #[trigger] mapped[i] == target[i] by {
                assert(rest@[i] == old_rest[i + 1]);
                assert(rv[i + 1] == old_rest[i + 1]@);
                assert(original.skip(k as int)[i + 1] == original.skip(k + 1)[i]);
            }
            assert(rest@.map_values(|g: Vec<crate::plan::Step>| g@) =~= original.skip(k + 1));
        }
        let ids = ids_of(&group);
        if k == 0 {
            out.push(group);
        } else {
            let ghost g0 = group@;
            let mut source = group;
            let mut chained_group: Vec<crate::plan::Step> = Vec::new();
            while source.len() > 0
                invariant
                    chained_group@.len() + source@.len() == g0.len(),
                    source@ == g0.skip(chained_group@.len() as int),
                    forall|j: int| 0 <= j < chained_group@.len() ==> chained(#[trigger] g0[j], chained_group@[j], texts(prior@)),
                decreases source@.len(),
            {
                let ghost before = source@;
                let step = source.remove(0);
                proof {
                    assert(before[0] == step);
                    assert(g0[chained_group@.len() as int] == step);
                    assert(source@ =~= g0.skip(chained_group@.len() as int + 1));
                }
                let c = chain_step(step, &prior);
                chained_group.push(c);
            }
            out.push(chained_group);
        }
        prior = ids;
        k = k + 1;
    }
    out
}

} // verus!
