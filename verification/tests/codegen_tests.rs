use move_syntax::codegen::{
    deduplicate_fields, lower, lower_enum, to_lower_snake_case, pluralize, Cardinality,
    GrammarAST, GrammarNode, GrammarNodeField, GrammarRuleDef, Rule,
};

fn b(s: &str) -> Vec<u8> {
    s.as_bytes().to_vec()
}

#[test]
fn snake_case_and_plurals() {
    assert_eq!(to_lower_snake_case(&b("ParamList")), b("param_list"));
    assert_eq!(to_lower_snake_case(&b("Expr")), b("expr"));
    assert_eq!(to_lower_snake_case(&b("already_low")), b("already_low"));
    assert_eq!(pluralize(&b("param")), b("params"));
}

#[test]
fn pure_alternations_lower_to_enums() {
    let rule = Rule::Alt(vec![Rule::Node(b("BinExpr")), Rule::Node(b("Literal"))]);
    let variants = lower_enum(&rule).expect("an enum");
    assert_eq!(variants, vec![b("BinExpr"), b("Literal")]);
    // anything beyond bare node references refuses to be an enum
    let mixed = Rule::Alt(vec![Rule::Node(b("BinExpr")), Rule::Token(b("comma"))]);
    assert!(lower_enum(&mixed).is_none());
}

#[test]
fn comma_lists_lower_to_many_fields() {
    // Param (',' Param)* ','?
    let rule = Rule::Sequence(vec![
        Rule::Node(b("Param")),
        Rule::Rep(Box::new(Rule::Sequence(vec![
            Rule::Token(b("comma")),
            Rule::Node(b("Param")),
        ]))),
        Rule::Opt(Box::new(Rule::Token(b("comma")))),
    ]);
    let grammar = vec![GrammarRuleDef { name: b("ParamList"), rule }];
    let ast = lower(grammar);
    assert_eq!(ast.nodes.len(), 1);
    let fields = &ast.nodes[0].fields;
    assert_eq!(fields.len(), 1);
    match &fields[0] {
        GrammarNodeField::Node { name, ty, cardinality } => {
            assert_eq!(name, &b("params"));
            assert_eq!(ty, &b("Param"));
            assert_eq!(*cardinality, Cardinality::Many);
        }
        other => panic!("expected a many field, got {:?}", other),
    }
}

#[test]
fn repeated_nodes_lower_to_many_and_single_nodes_to_optional() {
    let rule = Rule::Sequence(vec![
        Rule::Token(b("l_brace")),
        Rule::Rep(Box::new(Rule::Node(b("FunctionDef")))),
        Rule::Token(b("r_brace")),
    ]);
    let grammar = vec![GrammarRuleDef { name: b("ItemList"), rule }];
    let ast = lower(grammar);
    let fields = &ast.nodes[0].fields;
    assert_eq!(fields.len(), 3);
    match &fields[1] {
        GrammarNodeField::Node { name, cardinality, .. } => {
            assert_eq!(name, &b("function_defs"));
            assert_eq!(*cardinality, Cardinality::Many);
        }
        other => panic!("expected a many field, got {:?}", other),
    }
    // a labeled bare node lowers to an optional field under the label
    let rule2 = Rule::Labeled { label: b("lhs"), rule: Box::new(Rule::Node(b("Expr"))) };
    let grammar2 = vec![GrammarRuleDef { name: b("X"), rule: rule2 }];
    let ast2 = lower(grammar2);
    match &ast2.nodes[0].fields[0] {
        GrammarNodeField::Node { name, cardinality, .. } => {
            assert_eq!(name, &b("lhs"));
            assert_eq!(*cardinality, Cardinality::Optional);
        }
        other => panic!("expected an optional field, got {:?}", other),
    }
}

#[test]
fn literal_tokens_lower_to_no_field() {
    let rule = Rule::Sequence(vec![
        Rule::Token(b("integer_number")),
        Rule::Token(b("true")),
    ]);
    let grammar = vec![GrammarRuleDef { name: b("Literal"), rule }];
    let ast = lower(grammar);
    let fields = &ast.nodes[0].fields;
    assert_eq!(fields.len(), 1);
    match &fields[0] {
        GrammarNodeField::Token(t) => assert_eq!(t, &b("true")),
        other => panic!("expected a token field, got {:?}", other),
    }
}

#[test]
fn duplicate_fields_are_dropped() {
    let mut ast = GrammarAST {
        tokens: Vec::new(),
        nodes: vec![GrammarNode {
            doc: Vec::new(),
            name: b("X"),
            traits: Vec::new(),
            fields: vec![
                GrammarNodeField::Token(b("comma")),
                GrammarNodeField::Token(b("comma")),
                GrammarNodeField::Token(b("colon")),
            ],
        }],
        enums: Vec::new(),
    };
    deduplicate_fields(&mut ast);
    assert_eq!(ast.nodes[0].fields.len(), 2);
}

#[test]
fn enum_coverage_collapses_fields_and_traits_extract() {
    // a node holding exactly the variants of an enum collapses to one
    // field of the enum type; a node with exactly a `name` field gains
    // the name-owner trait
    let grammar = vec![
        GrammarRuleDef {
            name: b("Expr"),
            rule: Rule::Alt(vec![Rule::Node(b("BinExpr")), Rule::Node(b("Literal"))]),
        },
        GrammarRuleDef {
            name: b("ExprStmt"),
            rule: Rule::Sequence(vec![
                Rule::Node(b("BinExpr")),
                Rule::Node(b("Literal")),
                Rule::Token(b("semicolon")),
            ]),
        },
        GrammarRuleDef {
            name: b("BinExpr"),
            rule: Rule::Node(b("Name")),
        },
        GrammarRuleDef {
            name: b("Literal"),
            rule: Rule::Node(b("Name")),
        },
    ];
    let ast = lower(grammar);
    assert_eq!(ast.enums.len(), 1);
    let stmt = ast.nodes.iter().find(|n| n.name == b("ExprStmt")).unwrap();
    assert_eq!(stmt.fields.len(), 2);
    assert!(stmt.fields.iter().any(|f| match f {
        GrammarNodeField::Node { ty, .. } => ty == &b("Expr"),
        _ => false,
    }));
    // BinExpr and Literal both had exactly a `name` field: the trait is
    // extracted from the structs and shared by the enum
    let bin = ast.nodes.iter().find(|n| n.name == b("BinExpr")).unwrap();
    assert_eq!(bin.traits, vec![b("NameOwner")]);
    assert!(bin.fields.is_empty());
    let enm = &ast.enums[0];
    assert_eq!(enm.traits, vec![b("NameOwner")]);
}
