use move_syntax::lexer::{find_token, Lexer};
use move_syntax::syntax_kind::SyntaxKind;

#[test]
fn empty_text_lexes_to_eof() {
    let (kind, len) = find_token(b"", 0);
    assert_eq!(kind, SyntaxKind::EOF);
    assert_eq!(len, 0);
}

#[test]
fn whitespace_run_is_one_token() {
    let (kind, len) = find_token(b"  \t\n  x", 0);
    assert_eq!(kind, SyntaxKind::WHITESPACE);
    assert_eq!(len, 6);
}

#[test]
fn keywords_are_reclassified_at_lex_time() {
    let (kind, len) = find_token(b"module m", 0);
    assert_eq!(kind, SyntaxKind::MODULE_KW);
    assert_eq!(len, 6);
    let (kind, len) = find_token(b"modules", 0);
    assert_eq!(kind, SyntaxKind::IDENT);
    assert_eq!(len, 7);
}

#[test]
fn longest_match_wins_for_operators() {
    assert_eq!(find_token(b"==> x", 0), (SyntaxKind::EQ_EQ_GT, 3));
    assert_eq!(find_token(b"== x", 0), (SyntaxKind::EQ_EQ, 2));
    assert_eq!(find_token(b"= x", 0), (SyntaxKind::EQ, 1));
    assert_eq!(find_token(b"<==> y", 0), (SyntaxKind::LT_EQ_EQ_GT, 4));
    assert_eq!(find_token(b"<= y", 0), (SyntaxKind::LT_EQ, 2));
    assert_eq!(find_token(b"<< y", 0), (SyntaxKind::LT_LT, 2));
    assert_eq!(find_token(b"&mut x", 0), (SyntaxKind::AMP_MUT, 4));
    assert_eq!(find_token(b"&& x", 0), (SyntaxKind::AMP_AMP, 2));
    assert_eq!(find_token(b"& x", 0), (SyntaxKind::AMP, 1));
    assert_eq!(find_token(b".. x", 0), (SyntaxKind::DOTDOT, 2));
    assert_eq!(find_token(b":: x", 0), (SyntaxKind::COLON_COLON, 2));
}

#[test]
fn numbers_fold_their_width_suffix() {
    assert_eq!(find_token(b"123 ", 0), (SyntaxKind::INTEGER_NUMBER, 3));
    assert_eq!(find_token(b"1u8 ", 0), (SyntaxKind::INTEGER_NUMBER, 3));
    assert_eq!(find_token(b"1u64 ", 0), (SyntaxKind::INTEGER_NUMBER, 4));
    assert_eq!(find_token(b"1u128 ", 0), (SyntaxKind::INTEGER_NUMBER, 5));
    assert_eq!(find_token(b"0x1f ", 0), (SyntaxKind::INTEGER_NUMBER, 4));
    assert_eq!(find_token(b"0xffu8 ", 0), (SyntaxKind::INTEGER_NUMBER, 6));
    // a lone `0x` with nothing hexadecimal after it is just the zero
    assert_eq!(find_token(b"0xg", 0), (SyntaxKind::INTEGER_NUMBER, 1));
}

#[test]
fn byte_strings_run_to_the_closing_quote() {
    assert_eq!(find_token(b"b\"abc\" ", 0), (SyntaxKind::BYTE_STRING, 6));
    assert_eq!(find_token(b"x\"00\" ", 0), (SyntaxKind::BYTE_STRING, 5));
    // escaped quotes do not close the literal
    assert_eq!(find_token(b"b\"a\\\"b\" ", 0), (SyntaxKind::BYTE_STRING, 7));
}

#[test]
fn lexing_recovers_from_bad_input() {
    // an unterminated byte string lexes as a one-byte error token
    let (kind, len) = find_token(b"b\"abc\nx", 0);
    assert_eq!(kind, SyntaxKind::ERROR);
    assert_eq!(len, 1);
    // an unrecognized byte lexes as a one-byte error token
    let (kind, len) = find_token(b"?", 0);
    assert_eq!(kind, SyntaxKind::ERROR);
    assert_eq!(len, 1);
}

#[test]
fn fresh_lexer_holds_the_raw_first_token() {
    // a fresh lexer exposes the first raw token, even when it is trivia,
    // and holds exactly that one token in its history
    let mut lexer = Lexer::new(b"  module m");
    assert_eq!(lexer.current().kind, SyntaxKind::WHITESPACE);
    assert_eq!(lexer.current().len, 2);
    assert_eq!(lexer.all_tokens.len(), 1);
    assert_eq!(lexer.all_tokens[0].kind, SyntaxKind::WHITESPACE);
    lexer.bump();
    assert_eq!(lexer.current().kind, SyntaxKind::MODULE_KW);
    lexer.bump();
    // bump skipped the interior space but retained it in the history
    assert_eq!(lexer.current().kind, SyntaxKind::IDENT);
    assert_eq!(lexer.all_tokens[2].kind, SyntaxKind::WHITESPACE);
    lexer.bump();
    assert_eq!(lexer.current().kind, SyntaxKind::EOF);
    lexer.bump();
    assert_eq!(lexer.current().kind, SyntaxKind::EOF);
}

#[test]
fn fresh_lexer_on_whitespace_only_text() {
    let lexer = Lexer::new(b" ");
    assert_eq!(lexer.current().kind, SyntaxKind::WHITESPACE);
    assert_eq!(lexer.current().len, 1);
    assert_eq!(lexer.all_tokens.len(), 1);
}

#[test]
fn lookahead_does_not_advance() {
    let lexer = Lexer::new(b"module m{");
    let t1 = lexer.lookahead();
    assert_eq!(t1.kind, SyntaxKind::WHITESPACE);
    let (t1b, t2) = lexer.lookahead_2();
    assert_eq!(t1b.kind, SyntaxKind::WHITESPACE);
    assert_eq!(t2.kind, SyntaxKind::IDENT);
    assert_eq!(lexer.current().kind, SyntaxKind::MODULE_KW);
}

#[test]
fn kind_classification_tables() {
    assert!(SyntaxKind::WHITESPACE.is_trivia());
    assert!(SyntaxKind::COMMENT.is_trivia());
    assert!(!SyntaxKind::IDENT.is_trivia());
    assert!(SyntaxKind::STRUCT_KW.is_keyword());
    assert!(SyntaxKind::CONTINUE_KW.is_keyword());
    assert!(!SyntaxKind::IDENT.is_keyword());
    assert!(SyntaxKind::COLON_COLON.is_punct());
    assert!(SyntaxKind::WILDCARD.is_punct());
    assert!(!SyntaxKind::STRUCT_KW.is_punct());
    assert!(SyntaxKind::INTEGER_NUMBER.is_literal());
    assert!(SyntaxKind::BYTE_STRING.is_literal());
    assert!(!SyntaxKind::IDENT.is_literal());
}

#[test]
fn keyword_and_char_lookup() {
    assert_eq!(SyntaxKind::from_keyword(b"struct"), Some(SyntaxKind::STRUCT_KW));
    assert_eq!(SyntaxKind::from_keyword(b"continue"), Some(SyntaxKind::CONTINUE_KW));
    assert_eq!(SyntaxKind::from_keyword(b"if"), Some(SyntaxKind::IF_KW));
    assert_eq!(SyntaxKind::from_keyword(b"structs"), None);
    assert_eq!(SyntaxKind::from_keyword(b""), None);
    assert_eq!(SyntaxKind::from_char(':'), Some(SyntaxKind::COLON));
    assert_eq!(SyntaxKind::from_char('_'), Some(SyntaxKind::WILDCARD));
    assert_eq!(SyntaxKind::from_char('q'), None);
}
