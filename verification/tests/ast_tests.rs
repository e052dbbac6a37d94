use move_syntax::ast::nodes::{BinExpr, Expr, SourceFile};
use move_syntax::ast::AstNode;
use move_syntax::syntax_kind::SyntaxKind;
use move_syntax::syntax_node::SyntaxNode;

#[test]
fn cast_checks_the_kind_exactly() {
    let parse = SourceFile::parse(b"module m {}");
    let root = parse.syntax_node();
    assert!(SourceFile::can_cast(root.kind));
    assert!(!BinExpr::can_cast(root.kind));
    let cloned = root.deep_clone();
    assert!(SourceFile::cast(cloned).is_some());
    let bad = SyntaxNode { kind: SyntaxKind::LITERAL, children: Vec::new() };
    assert!(SourceFile::cast(bad).is_none());
}

#[test]
fn enum_casts_are_membership_by_kind() {
    assert!(Expr::can_cast(SyntaxKind::BIN_EXPR));
    assert!(Expr::can_cast(SyntaxKind::LITERAL));
    assert!(!Expr::can_cast(SyntaxKind::PAREN_EXPR));
    let lit = SyntaxNode { kind: SyntaxKind::LITERAL, children: Vec::new() };
    match Expr::cast(lit) {
        Some(Expr::Literal(_)) => {}
        other => panic!("expected a literal variant, got {:?}", other),
    }
}

#[test]
fn typed_accessors_walk_the_children() {
    let parse = SourceFile::parse(b"script { fun f() { 1 + 2; true; } }");
    assert!(parse.errors().is_empty());
    let file = parse.tree();
    let scripts = file.script_defs();
    assert_eq!(scripts.len(), 1);
    let items = scripts[0].item_list().expect("item list");
    let funs = items.function_defs();
    assert_eq!(funs.len(), 1);
    assert_eq!(funs[0].fun_token().unwrap().text, b"fun".to_vec());
    // the function's name sits inside a NAME node, not as a direct
    // token child, so the direct token accessor reads None
    assert!(funs[0].ident_token().is_none());
    let block = funs[0].block_expr().expect("block");
    let stmts = block.expr_stmts();
    assert_eq!(stmts.len(), 2);
    let first = stmts[0].expr().expect("expression");
    match first {
        Expr::BinExpr(bin) => {
            let lhs = bin.lhs().expect("lhs");
            let rhs = bin.rhs().expect("rhs");
            assert!(matches!(lhs, Expr::Literal(_)));
            assert!(matches!(rhs, Expr::Literal(_)));
            assert!(bin.plus_token().is_some());
            assert!(bin.minus_token().is_none());
        }
        other => panic!("expected a binary expression, got {:?}", other),
    }
    assert!(stmts[0].semicolon_token().is_some());
    match stmts[1].expr().expect("expression") {
        Expr::Literal(lit) => {
            assert!(lit.true_token().is_some());
            assert!(lit.false_token().is_none());
        }
        other => panic!("expected a literal, got {:?}", other),
    }
}

#[test]
fn absent_children_read_as_none() {
    let parse = SourceFile::parse(b"module m;");
    let file = parse.tree();
    assert_eq!(file.script_defs().len(), 0);
    let modules = file.modules();
    assert_eq!(modules.len(), 1);
    assert!(modules[0].item_list().is_none());
}

#[test]
fn parse_ok_distinguishes_clean_from_broken() {
    let clean = SourceFile::parse(b"module m {}");
    assert!(clean.ok().is_ok());
    let broken = SourceFile::parse(b"module {");
    match broken.ok() {
        Err(errors) => assert!(!errors.is_empty()),
        Ok(_) => panic!("a broken file must yield its errors"),
    }
}
