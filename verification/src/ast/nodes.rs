//! The generated node types: one thin wrapper per grammar production,
//! with typed accessors over the immediate children.

use vstd::prelude::*;
use crate::ast::{
    are_children, is_first_child, is_first_token, is_nth_child, support_child, support_children,
    support_nth_child, support_token, AstNode,
};
use crate::syntax_kind::SyntaxKind;
use crate::syntax_node::{SyntaxNode, SyntaxToken};

verus! {

/// The root of a parsed file.
#[derive(Debug, PartialEq, Eq, Hash)]
pub struct SourceFile {
    pub syntax: SyntaxNode,
}

impl AstNode for SourceFile {
    open spec fn castable(kind: SyntaxKind) -> bool {
        kind is SOURCE_FILE
    }

    open spec fn syntax_spec(self) -> SyntaxNode {
        self.syntax
    }

    fn can_cast(kind: SyntaxKind) -> (r: bool) {
        kind == SyntaxKind::SOURCE_FILE
    }

    fn cast(syntax: SyntaxNode) -> (r: Option<Self>) {
        if syntax.kind == SyntaxKind::SOURCE_FILE {
            Some(SourceFile { syntax })
        } else {
            None
        }
    }

    fn syntax(&self) -> (r: &SyntaxNode) {
        &self.syntax
    }
}

impl SourceFile {
    pub fn script_defs(&self) -> (r: Vec<ScriptDef>)
        ensures
            are_children::<ScriptDef>(self.syntax, r@),
    {
        support_children(&self.syntax)
    }

    pub fn modules(&self) -> (r: Vec<Module>)
        ensures
            are_children::<Module>(self.syntax, r@),
    {
        support_children(&self.syntax)
    }
}

/// A `script { ... }` definition.
#[derive(Debug, PartialEq, Eq, Hash)]
pub struct ScriptDef {
    pub syntax: SyntaxNode,
}

impl AstNode for ScriptDef {
    open spec fn castable(kind: SyntaxKind) -> bool {
        kind is SCRIPT_DEF
    }

    open spec fn syntax_spec(self) -> SyntaxNode {
        self.syntax
    }

    fn can_cast(kind: SyntaxKind) -> (r: bool) {
        kind == SyntaxKind::SCRIPT_DEF
    }

    fn cast(syntax: SyntaxNode) -> (r: Option<Self>) {
        if syntax.kind == SyntaxKind::SCRIPT_DEF {
            Some(ScriptDef { syntax })
        } else {
            None
        }
    }

    fn syntax(&self) -> (r: &SyntaxNode) {
        &self.syntax
    }
}

impl ScriptDef {
    pub fn item_list(&self) -> (r: Option<ItemList>)
        ensures
            is_first_child::<ItemList>(self.syntax, r),
    {
        support_child(&self.syntax)
    }
}

/// A `module name { ... }` definition.
#[derive(Debug, PartialEq, Eq, Hash)]
pub struct Module {
    pub syntax: SyntaxNode,
}

impl AstNode for Module {
    open spec fn castable(kind: SyntaxKind) -> bool {
        kind is MODULE
    }

    open spec fn syntax_spec(self) -> SyntaxNode {
        self.syntax
    }

    fn can_cast(kind: SyntaxKind) -> (r: bool) {
        kind == SyntaxKind::MODULE
    }

    fn cast(syntax: SyntaxNode) -> (r: Option<Self>) {
        if syntax.kind == SyntaxKind::MODULE {
            Some(Module { syntax })
        } else {
            None
        }
    }

    fn syntax(&self) -> (r: &SyntaxNode) {
        &self.syntax
    }
}

impl Module {
    pub fn item_list(&self) -> (r: Option<ItemList>)
        ensures
            is_first_child::<ItemList>(self.syntax, r),
    {
        support_child(&self.syntax)
    }
}

/// The `{ ... }` item list of a module or script.
#[derive(Debug, PartialEq, Eq, Hash)]
pub struct ItemList {
    pub syntax: SyntaxNode,
}

impl AstNode for ItemList {
    open spec fn castable(kind: SyntaxKind) -> bool {
        kind is ITEM_LIST
    }

    open spec fn syntax_spec(self) -> SyntaxNode {
        self.syntax
    }

    fn can_cast(kind: SyntaxKind) -> (r: bool) {
        kind == SyntaxKind::ITEM_LIST
    }

    fn cast(syntax: SyntaxNode) -> (r: Option<Self>) {
        if syntax.kind == SyntaxKind::ITEM_LIST {
            Some(ItemList { syntax })
        } else {
            None
        }
    }

    fn syntax(&self) -> (r: &SyntaxNode) {
        &self.syntax
    }
}

impl ItemList {
    pub fn function_defs(&self) -> (r: Vec<FunctionDef>)
        ensures
            are_children::<FunctionDef>(self.syntax, r@),
    {
        support_children(&self.syntax)
    }

    pub fn l_brace_token(&self) -> (r: Option<SyntaxToken>)
        ensures
            is_first_token(self.syntax, SyntaxKind::L_BRACE, r),
    {
        support_token(&self.syntax, SyntaxKind::L_BRACE)
    }

    pub fn r_brace_token(&self) -> (r: Option<SyntaxToken>)
        ensures
            is_first_token(self.syntax, SyntaxKind::R_BRACE, r),
    {
        support_token(&self.syntax, SyntaxKind::R_BRACE)
    }
}

/// A `fun name(...) { ... }` definition.
#[derive(Debug, PartialEq, Eq, Hash)]
pub struct FunctionDef {
    pub syntax: SyntaxNode,
}

impl AstNode for FunctionDef {
    open spec fn castable(kind: SyntaxKind) -> bool {
        kind is FUNCTION_DEF
    }

    open spec fn syntax_spec(self) -> SyntaxNode {
        self.syntax
    }

    fn can_cast(kind: SyntaxKind) -> (r: bool) {
        kind == SyntaxKind::FUNCTION_DEF
    }

    fn cast(syntax: SyntaxNode) -> (r: Option<Self>) {
        if syntax.kind == SyntaxKind::FUNCTION_DEF {
            Some(FunctionDef { syntax })
        } else {
            None
        }
    }

    fn syntax(&self) -> (r: &SyntaxNode) {
        &self.syntax
    }
}

impl FunctionDef {
    pub fn fun_token(&self) -> (r: Option<SyntaxToken>)
        ensures
            is_first_token(self.syntax, SyntaxKind::FUN_KW, r),
    {
        support_token(&self.syntax, SyntaxKind::FUN_KW)
    }

    pub fn ident_token(&self) -> (r: Option<SyntaxToken>)
        ensures
            is_first_token(self.syntax, SyntaxKind::IDENT, r),
    {
        support_token(&self.syntax, SyntaxKind::IDENT)
    }

    pub fn block_expr(&self) -> (r: Option<BlockExpr>)
        ensures
            is_first_child::<BlockExpr>(self.syntax, r),
    {
        support_child(&self.syntax)
    }
}

/// A `{ ... }` block expression.
#[derive(Debug, PartialEq, Eq, Hash)]
pub struct BlockExpr {
    pub syntax: SyntaxNode,
}

impl AstNode for BlockExpr {
    open spec fn castable(kind: SyntaxKind) -> bool {
        kind is BLOCK_EXPR
    }

    open spec fn syntax_spec(self) -> SyntaxNode {
        self.syntax
    }

    fn can_cast(kind: SyntaxKind) -> (r: bool) {
        kind == SyntaxKind::BLOCK_EXPR
    }

    fn cast(syntax: SyntaxNode) -> (r: Option<Self>) {
        if syntax.kind == SyntaxKind::BLOCK_EXPR {
            Some(BlockExpr { syntax })
        } else {
            None
        }
    }

    fn syntax(&self) -> (r: &SyntaxNode) {
        &self.syntax
    }
}

impl BlockExpr {
    pub fn expr_stmts(&self) -> (r: Vec<ExprStmt>)
        ensures
            are_children::<ExprStmt>(self.syntax, r@),
    {
        support_children(&self.syntax)
    }
}

/// An expression statement.
#[derive(Debug, PartialEq, Eq, Hash)]
pub struct ExprStmt {
    pub syntax: SyntaxNode,
}

impl AstNode for ExprStmt {
    open spec fn castable(kind: SyntaxKind) -> bool {
        kind is EXPR_STMT
    }

    open spec fn syntax_spec(self) -> SyntaxNode {
        self.syntax
    }

    fn can_cast(kind: SyntaxKind) -> (r: bool) {
        kind == SyntaxKind::EXPR_STMT
    }

    fn cast(syntax: SyntaxNode) -> (r: Option<Self>) {
        if syntax.kind == SyntaxKind::EXPR_STMT {
            Some(ExprStmt { syntax })
        } else {
            None
        }
    }

    fn syntax(&self) -> (r: &SyntaxNode) {
        &self.syntax
    }
}

impl ExprStmt {
    pub fn expr(&self) -> (r: Option<Expr>)
        ensures
            is_first_child::<Expr>(self.syntax, r),
    {
        support_child(&self.syntax)
    }

    pub fn semicolon_token(&self) -> (r: Option<SyntaxToken>)
        ensures
            is_first_token(self.syntax, SyntaxKind::SEMICOLON, r),
    {
        support_token(&self.syntax, SyntaxKind::SEMICOLON)
    }
}

/// A binary expression.
#[derive(Debug, PartialEq, Eq, Hash)]
pub struct BinExpr {
    pub syntax: SyntaxNode,
}

impl AstNode for BinExpr {
    open spec fn castable(kind: SyntaxKind) -> bool {
        kind is BIN_EXPR
    }

    open spec fn syntax_spec(self) -> SyntaxNode {
        self.syntax
    }

    fn can_cast(kind: SyntaxKind) -> (r: bool) {
        kind == SyntaxKind::BIN_EXPR
    }

    fn cast(syntax: SyntaxNode) -> (r: Option<Self>) {
        if syntax.kind == SyntaxKind::BIN_EXPR {
            Some(BinExpr { syntax })
        } else {
            None
        }
    }

    fn syntax(&self) -> (r: &SyntaxNode) {
        &self.syntax
    }
}

impl BinExpr {
    /// The left operand: the first sub-expression.
    pub fn lhs(&self) -> (r: Option<Expr>)
        ensures
            is_first_child::<Expr>(self.syntax, r),
    {
        support_child(&self.syntax)
    }

    /// The right operand: the second sub-expression.
    pub fn rhs(&self) -> (r: Option<Expr>)
        ensures
            is_nth_child::<Expr>(self.syntax, 1, r),
    {
        support_nth_child(&self.syntax, 1)
    }

    pub fn plus_token(&self) -> (r: Option<SyntaxToken>)
        ensures
            is_first_token(self.syntax, SyntaxKind::PLUS, r),
    {
        support_token(&self.syntax, SyntaxKind::PLUS)
    }

    pub fn minus_token(&self) -> (r: Option<SyntaxToken>)
        ensures
            is_first_token(self.syntax, SyntaxKind::MINUS, r),
    {
        support_token(&self.syntax, SyntaxKind::MINUS)
    }

    pub fn star_token(&self) -> (r: Option<SyntaxToken>)
        ensures
            is_first_token(self.syntax, SyntaxKind::STAR, r),
    {
        support_token(&self.syntax, SyntaxKind::STAR)
    }

    pub fn slash_token(&self) -> (r: Option<SyntaxToken>)
        ensures
            is_first_token(self.syntax, SyntaxKind::SLASH, r),
    {
        support_token(&self.syntax, SyntaxKind::SLASH)
    }

    pub fn mod_token(&self) -> (r: Option<SyntaxToken>)
        ensures
            is_first_token(self.syntax, SyntaxKind::MOD, r),
    {
        support_token(&self.syntax, SyntaxKind::MOD)
    }
}

/// A literal expression.
#[derive(Debug, PartialEq, Eq, Hash)]
pub struct Literal {
    pub syntax: SyntaxNode,
}

impl AstNode for Literal {
    open spec fn castable(kind: SyntaxKind) -> bool {
        kind is LITERAL
    }

    open spec fn syntax_spec(self) -> SyntaxNode {
        self.syntax
    }

    fn can_cast(kind: SyntaxKind) -> (r: bool) {
        kind == SyntaxKind::LITERAL
    }

    fn cast(syntax: SyntaxNode) -> (r: Option<Self>) {
        if syntax.kind == SyntaxKind::LITERAL {
            Some(Literal { syntax })
        } else {
            None
        }
    }

    fn syntax(&self) -> (r: &SyntaxNode) {
        &self.syntax
    }
}

impl Literal {
    pub fn true_token(&self) -> (r: Option<SyntaxToken>)
        ensures
            is_first_token(self.syntax, SyntaxKind::TRUE_KW, r),
    {
        support_token(&self.syntax, SyntaxKind::TRUE_KW)
    }

    pub fn false_token(&self) -> (r: Option<SyntaxToken>)
        ensures
            is_first_token(self.syntax, SyntaxKind::FALSE_KW, r),
    {
        support_token(&self.syntax, SyntaxKind::FALSE_KW)
    }
}

/// A prefix (unary) expression.
#[derive(Debug, PartialEq, Eq, Hash)]
pub struct PrefixExpr {
    pub syntax: SyntaxNode,
}

impl AstNode for PrefixExpr {
    open spec fn castable(kind: SyntaxKind) -> bool {
        kind is PREFIX_EXPR
    }

    open spec fn syntax_spec(self) -> SyntaxNode {
        self.syntax
    }

    fn can_cast(kind: SyntaxKind) -> (r: bool) {
        kind == SyntaxKind::PREFIX_EXPR
    }

    fn cast(syntax: SyntaxNode) -> (r: Option<Self>) {
        if syntax.kind == SyntaxKind::PREFIX_EXPR {
            Some(PrefixExpr { syntax })
        } else {
            None
        }
    }

    fn syntax(&self) -> (r: &SyntaxNode) {
        &self.syntax
    }
}

impl PrefixExpr {
    pub fn expr(&self) -> (r: Option<Expr>)
        ensures
            is_first_child::<Expr>(self.syntax, r),
    {
        support_child(&self.syntax)
    }

    pub fn bang_token(&self) -> (r: Option<SyntaxToken>)
        ensures
            is_first_token(self.syntax, SyntaxKind::BANG, r),
    {
        support_token(&self.syntax, SyntaxKind::BANG)
    }

    pub fn star_token(&self) -> (r: Option<SyntaxToken>)
        ensures
            is_first_token(self.syntax, SyntaxKind::STAR, r),
    {
        support_token(&self.syntax, SyntaxKind::STAR)
    }

    pub fn minus_token(&self) -> (r: Option<SyntaxToken>)
        ensures
            is_first_token(self.syntax, SyntaxKind::MINUS, r),
    {
        support_token(&self.syntax, SyntaxKind::MINUS)
    }
}

/// A grammar alternative: any expression node, as a closed union over the
/// concrete kinds that satisfy it.
#[derive(Debug, PartialEq, Eq, Hash)]
pub enum Expr {
    BinExpr(BinExpr),
    Literal(Literal),
}

impl AstNode for Expr {
    open spec fn castable(kind: SyntaxKind) -> bool {
        kind is BIN_EXPR || kind is LITERAL
    }

    open spec fn syntax_spec(self) -> SyntaxNode {
        match self {
            Expr::BinExpr(it) => it.syntax,
            Expr::Literal(it) => it.syntax,
        }
    }

    fn can_cast(kind: SyntaxKind) -> (r: bool) {
        kind == SyntaxKind::BIN_EXPR || kind == SyntaxKind::LITERAL
    }

    fn cast(syntax: SyntaxNode) -> (r: Option<Self>) {
        if syntax.kind == SyntaxKind::BIN_EXPR {
            Some(Expr::BinExpr(BinExpr { syntax }))
        } else if syntax.kind == SyntaxKind::LITERAL {
            Some(Expr::Literal(Literal { syntax }))
        } else {
            None
        }
    }

    fn syntax(&self) -> (r: &SyntaxNode) {
        match self {
            Expr::BinExpr(it) => &it.syntax,
            Expr::Literal(it) => &it.syntax,
        }
    }
}

} // verus!
