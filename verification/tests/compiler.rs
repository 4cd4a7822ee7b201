use orchestra_core::compiler::lex;
use orchestra_core::compiler::TokenKind;

#[test]
fn lexes_identifiers_strings_numbers_and_punctuation() {
    let tokens = lex("workflow({ name: \"issue\", max: 3, ratio: 1.5 }); // done").unwrap();
    let kinds: Vec<&TokenKind> = tokens.iter().map(|token| &token.kind).collect();
    assert!(matches!(kinds[0], TokenKind::Ident(name) if name == "workflow"));
    assert!(matches!(kinds[1], TokenKind::LParen));
    assert!(matches!(kinds[2], TokenKind::LBrace));
    assert!(matches!(kinds[5], TokenKind::String(text) if text == "issue"));
    assert!(matches!(kinds[9], TokenKind::Integer(3)));
    assert!(matches!(kinds[13], TokenKind::Decimal(text) if text == "1.5"));
    assert!(matches!(kinds.last().unwrap(), TokenKind::Semi));
    assert_eq!(tokens[0].offset, 0);
    assert_eq!(tokens[1].offset, 8);
}

#[test]
fn comments_and_whitespace_vanish() {
    let tokens = lex("/* block */ a /* more */ // line\n b").unwrap();
    assert_eq!(tokens.len(), 2);
    assert!(matches!(&tokens[1].kind, TokenKind::Ident(name) if name == "b"));
}

#[test]
fn unterminated_comments_and_unknown_bytes_are_errors() {
    assert!(lex("a /* never closed").is_err());
    assert!(lex("a # b").is_err());
}

#[test]
fn compile_errors_describe_their_offset_and_message() {
    let error = orchestra_core::compiler::CompileError { offset: 17, message: "unterminated string".into() };
    assert_eq!(error.describe(), "workflow compile error at byte 17: unterminated string");
}
