use move_syntax::ast::nodes::SourceFile;
use move_syntax::event::Event;
use move_syntax::lexer::Lexer;
use move_syntax::parsing::parse_with_lexer;
use move_syntax::syntax_kind::SyntaxKind;
use move_syntax::syntax_node::{SyntaxElement, SyntaxNode};

fn kinds_of_children(node: &SyntaxNode) -> Vec<SyntaxKind> {
    let mut out = Vec::new();
    for child in &node.children {
        match child {
            SyntaxElement::Node(n) => out.push(n.kind),
            SyntaxElement::Token(t) => {
                if t.kind != SyntaxKind::WHITESPACE {
                    out.push(t.kind);
                }
            }
        }
    }
    out
}

fn find_first<'a>(node: &'a SyntaxNode, kind: SyntaxKind) -> Option<&'a SyntaxNode> {
    if node.kind == kind {
        return Some(node);
    }
    for child in &node.children {
        if let SyntaxElement::Node(n) = child {
            if let Some(found) = find_first(n, kind) {
                return Some(found);
            }
        }
    }
    None
}

fn roundtrip(text: &[u8]) {
    let parse = SourceFile::parse(text);
    assert_eq!(parse.green.text(), text.to_vec());
    assert_eq!(parse.green.kind, SyntaxKind::SOURCE_FILE);
}

#[test]
fn roundtrip_empty_and_whitespace() {
    roundtrip(b"");
    roundtrip(b"   \n\t  ");
}

#[test]
fn roundtrip_well_formed_sources() {
    roundtrip(b"module m { fun f() { 1 + 2; } }");
    roundtrip(b"script { fun main() { let x = 1; x; } }");
    roundtrip(b"module a; module b { struct S { x: T, y: U } }");
}

#[test]
fn roundtrip_garbage() {
    roundtrip(b"fun f( {");
    roundtrip(b")))) ;;; let let");
    roundtrip(b"module { { { ");
    roundtrip(b"+-*/ 12u8 b\"xx\" ????");
    roundtrip(b"script { fun f() { (1 + ) + (1 + ) + 1; 1 + 1; } }");
}

#[test]
fn unbalanced_input_terminates_with_errors() {
    let parse = SourceFile::parse(b"fun f( {");
    assert_eq!(parse.green.kind, SyntaxKind::SOURCE_FILE);
    assert!(parse.errors.len() >= 1);
}

#[test]
fn event_stream_is_balanced_after_resolution() {
    let lexer = Lexer::new(b"module m { fun f(x: T): T { x.g(1); } }");
    let (events, _tokens) = parse_with_lexer(lexer);
    // resolution opens one node per non-tombstone start (chain members
    // are opened early, but exactly once), and closes one per finish
    let mut starts = 0usize;
    let mut finishes = 0usize;
    for e in &events {
        match e {
            Event::Start { kind, .. } => {
                if *kind != SyntaxKind::TOMBSTONE {
                    starts += 1;
                }
            }
            Event::Finish => finishes += 1,
            _ => {}
        }
    }
    assert_eq!(starts, finishes);
    assert!(matches!(events[0], Event::Start { kind: SyntaxKind::SOURCE_FILE, .. }));
    assert!(matches!(events[events.len() - 1], Event::Finish));
}

#[test]
fn multiplication_binds_tighter_than_addition() {
    let parse = SourceFile::parse(b"script { fun f() { 1 + 2 * 3; } }");
    assert!(parse.errors.is_empty());
    let outer = find_first(&parse.green, SyntaxKind::BIN_EXPR).unwrap();
    // BinExpr(1, +, BinExpr(2, *, 3))
    assert_eq!(
        kinds_of_children(outer),
        vec![SyntaxKind::LITERAL, SyntaxKind::PLUS, SyntaxKind::BIN_EXPR]
    );
    let inner = find_first(&outer.children.iter().rev().find_map(|c| match c {
        SyntaxElement::Node(n) => Some(n),
        _ => None,
    }).unwrap(), SyntaxKind::BIN_EXPR).unwrap();
    assert_eq!(
        kinds_of_children(inner),
        vec![SyntaxKind::LITERAL, SyntaxKind::STAR, SyntaxKind::LITERAL]
    );
}

#[test]
fn subtraction_is_left_associative() {
    let parse = SourceFile::parse(b"script { fun f() { 1 - 2 - 3; } }");
    assert!(parse.errors.is_empty());
    let outer = find_first(&parse.green, SyntaxKind::BIN_EXPR).unwrap();
    // BinExpr(BinExpr(1, -, 2), -, 3)
    assert_eq!(
        kinds_of_children(outer),
        vec![SyntaxKind::BIN_EXPR, SyntaxKind::MINUS, SyntaxKind::LITERAL]
    );
}

#[test]
fn assignment_groups_to_the_left() {
    // `=` re-enters on the right at its own power plus one, so repeated
    // assignment groups as ((a = b) = c)
    let parse = SourceFile::parse(b"script { fun f() { a = b = c; } }");
    let outer = find_first(&parse.green, SyntaxKind::BIN_EXPR).unwrap();
    let kinds = kinds_of_children(outer);
    assert_eq!(kinds[0], SyntaxKind::BIN_EXPR);
    assert_eq!(kinds[1], SyntaxKind::EQ);
}

#[test]
fn postfix_binds_tighter_than_infix() {
    let parse = SourceFile::parse(b"script { fun f() { x.y + g(1); } }");
    assert!(parse.errors.is_empty());
    let outer = find_first(&parse.green, SyntaxKind::BIN_EXPR).unwrap();
    let kinds = kinds_of_children(outer);
    assert_eq!(kinds, vec![SyntaxKind::DOT_EXPR, SyntaxKind::PLUS, SyntaxKind::CALL_EXPR]);
}

fn first_pattern_kind(text: &[u8]) -> SyntaxKind {
    let parse = SourceFile::parse(text);
    let stmt = find_first(&parse.green, SyntaxKind::LET_STMT).expect("let statement");
    for child in &stmt.children {
        if let SyntaxElement::Node(n) = child {
            match n.kind {
                SyntaxKind::PAREN_PAT
                | SyntaxKind::TUPLE_PAT
                | SyntaxKind::IDENT_PAT
                | SyntaxKind::RECORD_PAT
                | SyntaxKind::WILDCARD_PAT
                | SyntaxKind::REST_PAT
                | SyntaxKind::PATH_PAT => return n.kind,
                _ => {}
            }
        }
    }
    panic!("no pattern under the let statement");
}

#[test]
fn paren_versus_tuple_patterns() {
    assert_eq!(first_pattern_kind(b"script { fun f() { let (a) = x; } }"), SyntaxKind::PAREN_PAT);
    assert_eq!(first_pattern_kind(b"script { fun f() { let (a,) = x; } }"), SyntaxKind::TUPLE_PAT);
    assert_eq!(
        first_pattern_kind(b"script { fun f() { let (a, b) = x; } }"),
        SyntaxKind::TUPLE_PAT
    );
    assert_eq!(first_pattern_kind(b"script { fun f() { let (..) = x; } }"), SyntaxKind::TUPLE_PAT);
    // empty parentheses stay a paren pattern under the current policy
    assert_eq!(first_pattern_kind(b"script { fun f() { let () = x; } }"), SyntaxKind::PAREN_PAT);
}

fn first_leaf(node: &SyntaxNode) -> Option<(SyntaxKind, Vec<u8>)> {
    for child in &node.children {
        match child {
            SyntaxElement::Token(t) => return Some((t.kind, t.text.clone())),
            SyntaxElement::Node(n) => {
                if let Some(found) = first_leaf(n) {
                    return Some(found);
                }
            }
        }
    }
    None
}

#[test]
fn trivia_lands_in_the_tree() {
    let text = b"  module m {}  ";
    let parse = SourceFile::parse(text);
    assert_eq!(parse.green.text(), text.to_vec());
    // the leading trivia is the very first leaf of the tree
    let (kind, bytes) = first_leaf(&parse.green).expect("a leaf");
    assert_eq!(kind, SyntaxKind::WHITESPACE);
    assert_eq!(bytes, b"  ".to_vec());
}

#[test]
fn struct_items_parse() {
    let text = b"module m { struct S<T: Copy> { a: T, b: vector } }";
    let parse = SourceFile::parse(text);
    assert!(parse.errors.is_empty(), "errors: {:?}", parse.errors);
    assert!(find_first(&parse.green, SyntaxKind::STRUCT).is_some());
    assert!(find_first(&parse.green, SyntaxKind::GENERIC_PARAM_LIST).is_some());
    assert!(find_first(&parse.green, SyntaxKind::RECORD_FIELD_LIST).is_some());
    assert_eq!(parse.green.text(), text.to_vec());
}

#[test]
fn record_patterns_and_paths() {
    let text = b"script { fun f() { let S{h: _, x} = y; a::b::c; } }";
    let parse = SourceFile::parse(text);
    assert!(find_first(&parse.green, SyntaxKind::RECORD_PAT).is_some());
    assert!(find_first(&parse.green, SyntaxKind::PATH).is_some());
    assert_eq!(parse.green.text(), text.to_vec());
}

#[test]
fn error_ranges_lie_within_the_text() {
    let text = b"fun f( {";
    let parse = SourceFile::parse(text);
    assert!(parse.errors.len() >= 1);
    for e in parse.errors.iter() {
        assert!(e.start <= text.len());
        assert!(e.end <= text.len());
        assert!(e.start <= e.end);
    }
}
