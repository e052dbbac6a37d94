//! Lossless, error-tolerant syntax trees for a small Move-like language.
//!
//! The pipeline: a lexer classifies bytes into tokens, a recursive-descent /
//! Pratt parser emits a flat event stream with markers that allow retroactive
//! re-parenting, a tree sink replays the events into a lossless concrete
//! syntax tree, and a typed view layer projects strongly-typed accessors over
//! the untyped tree.  An incremental database memoizes one parse per file and
//! applies change transactions with durability tiers.

pub mod ast;
pub mod change;
pub mod codegen;
pub mod database;
pub mod diagnostics;
pub mod event;
pub mod input;
pub mod grammar;
pub mod lexer;
pub mod marker;
pub mod parser;
pub mod parsing;
pub mod syntax_error;
pub mod syntax_kind;
pub mod syntax_node;
pub mod token_set;
pub mod tree_sink;

use vstd::prelude::*;
use crate::ast::AstNode;
use crate::syntax_error::SyntaxError;
use crate::syntax_node::{node_text, SyntaxNode};

verus! {

/// A structured parse error: a message plus the byte offset it was reported at.
#[derive(Debug, Clone, PartialEq, Eq, Hash)]
pub struct ParseError {
    pub message: String,
}

/// The result of parsing: a lossless tree plus the recorded syntax
/// errors.  A tree is always produced, even for completely invalid
/// input; its root is always a `SOURCE_FILE` node.
#[derive(Debug, PartialEq, Eq)]
pub struct Parse {
    pub green: SyntaxNode,
    pub errors: Vec<SyntaxError>,
}

impl Parse {
    /// The root is what `SourceFile::parse` promises: a source-file node.
    pub open spec fn wf(self) -> bool {
        self.green.kind is SOURCE_FILE
    }

    pub fn new(green: SyntaxNode, errors: Vec<SyntaxError>) -> (r: Parse)
        ensures
            r.green == green,
            r.errors == errors,
    {
        Parse { green, errors }
    }

    /// The untyped root node.
    pub fn syntax_node(&self) -> (r: &SyntaxNode)
        ensures
            *r == self.green,
    {
        &self.green
    }

    /// The typed root: casting the untyped root to its wrapper.
    pub fn tree(&self) -> (r: crate::ast::nodes::SourceFile)
        requires
            self.wf(),
        ensures
            r.syntax@ == self.green@,
            node_text(r.syntax) == node_text(self.green),
            r.syntax.kind == self.green.kind,
    {
        let cloned = self.green.deep_clone();
        let cast = crate::ast::nodes::SourceFile::cast(cloned);
        match cast {
            Some(t) => t,
            None => {
                proof {
                    assert(false);
                }
                crate::ast::nodes::SourceFile {
                    syntax: SyntaxNode { kind: syntax_kind::SyntaxKind::ERROR, children: Vec::new() },
                }
            },
        }
    }

    /// The recorded syntax errors.
    pub fn errors(&self) -> (r: &Vec<SyntaxError>)
        ensures
            *r == self.errors,
    {
        &self.errors
    }

    /// The typed tree when the parse was clean, the error list otherwise.
    pub fn ok(self) -> (r: Result<crate::ast::nodes::SourceFile, Vec<SyntaxError>>)
        requires
            self.wf(),
        ensures
            (r is Ok) == (self.errors@.len() == 0),
            r matches Ok(t) ==> t.syntax@ == self.green@,
            r matches Err(e) ==> e == self.errors,
    {
        if self.errors.len() == 0 {
            Ok(self.tree())
        } else {
            Err(self.errors)
        }
    }

    /// A copy with the same tree value and the same errors.
    pub fn dup(&self) -> (r: Parse)
        ensures
            r.green@ == self.green@,
            node_text(r.green) == node_text(self.green),
            r.green.kind == self.green.kind,
            r.errors@ == self.errors@,
    {
        let green = self.green.deep_clone();
        let mut errors: Vec<SyntaxError> = Vec::new();
        let mut i: usize = 0;
        while i < self.errors.len()
            invariant
                i <= self.errors@.len(),
                errors@ =~= self.errors@.subrange(0, i as int),
            decreases self.errors@.len() - i,
        {
            let e = &self.errors[i];
            errors.push(SyntaxError { message: e.message.clone(), start: e.start, end: e.end });
            proof {
                assert(errors@ =~= self.errors@.subrange(0, i + 1));
            }
            i = i + 1;
        }
        proof {
            assert(errors@ =~= self.errors@);
        }
        Parse { green, errors }
    }
}

impl crate::ast::nodes::SourceFile {
    /// Parses text into a lossless tree: the leaves reproduce the input
    /// byte for byte, and the root is always a `SOURCE_FILE` node, no
    /// matter how broken the input is.  Every recorded error lies within
    /// the text, and a text whose first semantic token opens no item
    /// yields at least one error.
    pub fn parse(text: &[u8]) -> (r: Parse)
        ensures
            r.wf(),
            node_text(r.green) == text@,
            forall|k: int|
                0 <= k < r.errors@.len() ==> (#[trigger] r.errors@[k]).start == r.errors@[k].end
                    && r.errors@[k].end <= text@.len(),
            parsing::root_rejects_first(text@) ==> r.errors@.len() >= 1,
    {
        let (green, errors) = parsing::parse_text(text);
        Parse { green, errors }
    }
}

} // verus!
