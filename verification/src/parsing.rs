//! The parsing pipeline: text in, lossless tree and errors out.
//!
//! The lexer scans the bytes, the grammar drives the parser into a flat
//! event stream, and the tree sink replays the events into the tree.

use vstd::prelude::*;
use vstd::slice::slice_to_vec;
use crate::event::{error_count, lemma_error_count_pos, Event};
use crate::grammar::{root, root_first_kind, root_nested, root_rejects};
use crate::lexer::{find_token_spec, lens_sum, Lexer, Token};
use crate::parser::Parser;
use crate::syntax_error::SyntaxError;
use crate::syntax_node::{node_text, SyntaxNode};
use crate::tree_sink::process;

verus! {

/// The kind of the first semantic token of a text: the first raw token,
/// or — when that is trivia, a maximal whitespace run — the token right
/// after it.
pub open spec fn first_semantic_kind(text: Seq<u8>) -> crate::syntax_kind::SyntaxKind {
    let (k0, l0) = find_token_spec(text, 0);
    if k0.is_trivia_spec() {
        find_token_spec(text, l0).0
    } else {
        k0
    }
}

/// Whether a text's first semantic token opens no top-level item, so
/// that parsing it is guaranteed to record an error.
pub open spec fn root_rejects_first(text: Seq<u8>) -> bool {
    root_rejects(first_semantic_kind(text))
}

/// Runs the grammar over a fresh lexer and hands out the flat event
/// stream together with the retained token history.  The event stream,
/// after forward-parent resolution, is one properly nested tree rooted
/// at a `SOURCE_FILE` node, and the retained tokens tile the whole text.
/// When the first semantic token opens no item, the stream holds an
/// error event.
pub fn parse_with_lexer(lexer: Lexer) -> (r: (Vec<Event>, Vec<Token>))
    requires
        lexer.wf(),
    ensures
        root_nested(r.0@),
        lens_sum(r.1@) == lexer.text@.len(),
        forall|i: int|
            0 <= i < r.1@.len() ==> ((#[trigger] r.1@[i].kind) is EOF ==> r.1@[i].len == 0),
        ({
            let k = if lexer.token.kind.is_trivia_spec() {
                lexer.lookahead_spec(1).kind
            } else {
                lexer.token.kind
            };
            root_rejects(k) ==> error_count(r.0@, r.0@.len() as int) >= 1
        }),
{
    let mut p = Parser::new(lexer);
    proof {
        assert(root_first_kind(p) == (if lexer.token.kind.is_trivia_spec() {
            lexer.lookahead_spec(1).kind
        } else {
            lexer.token.kind
        }));
    }
    let ghost p0 = p;
    root(&mut p);
    proof {
        if root_rejects(root_first_kind(p0)) {
            let j = choose|j: int| 0 <= j < p.events@.len() && p.events@[j] is Error;
            lemma_error_count_pos(p.events@, j, p.events@.len() as int);
        }
    }
    proof {
        assert(p.lexer.cur_start == p.lexer.text@.len());
        assert(p.lexer.cur_end == p.lexer.text@.len());
        assert(lens_sum(p.lexer.all_tokens@) == p.lexer.text@.len());
        assert forall|i: int|
            0 <= i < p.lexer.all_tokens@.len() implies ((
        #[trigger] p.lexer.all_tokens@[i].kind) is EOF ==> p.lexer.all_tokens@[i].len == 0) by {
            if p.lexer.all_tokens@[i].kind is EOF {
                assert(i == p.lexer.all_tokens@.len() - 1);
                assert(p.lexer.all_tokens@[i] == p.lexer.token);
            }
        }
    }
    p.finish()
}

/// Parses the given text into a lossless tree plus the recorded errors.
/// The tree is rooted at a `SOURCE_FILE` node and its leaves reproduce
/// the input byte for byte; every error lies within the text, and a text
/// whose first semantic token opens no item yields at least one error.
pub fn parse_text(text: &[u8]) -> (r: (SyntaxNode, Vec<SyntaxError>))
    ensures
        node_text(r.0) == text@,
        r.0.kind is SOURCE_FILE,
        forall|k: int|
            0 <= k < r.1@.len() ==> (#[trigger] r.1@[k]).start == r.1@[k].end && r.1@[k].end
                <= text@.len(),
        root_rejects(first_semantic_kind(text@)) ==> r.1@.len() >= 1,
{
    let text_v: Vec<u8> = slice_to_vec(text);
    let lexer = Lexer::new(text);
    proof {
        crate::lexer::lemma_find_token_props(text@, 0);
        assert((if lexer.token.kind.is_trivia_spec() {
            lexer.lookahead_spec(1).kind
        } else {
            lexer.token.kind
        }) == first_semantic_kind(text@));
    }
    let (events, tokens) = parse_with_lexer(lexer);
    process(&events, &tokens, &text_v)
}

} // verus!
