//! The grammar rules: recursive-descent functions driving the parser.
//!
//! A source file is a sequence of `module` / `script` items; expressions
//! use a Pratt binding-power loop; error recovery is local, so parsing
//! always terminates and always yields a complete tree.  Every rule
//! preserves the parser's well-formedness and only ever appends to the
//! event log (`evolves`), and every loop decreases the count of
//! unconsumed input bytes.

pub mod atom;
pub mod expressions;
pub mod generic_params;
pub mod items;
pub mod params;
pub mod paths;
pub mod patterns;
pub mod types;

use vstd::prelude::*;
use crate::marker::CompletedMarker;
use crate::parser::{evolves, lemma_marker_preserved, Parser};
use crate::syntax_kind::SyntaxKind;
use crate::token_set::TokenSet;

verus! {

pub(crate) fn name_r(p: &mut Parser, recovery: &TokenSet)
    requires
        old(p).wf(),
    ensures
        final(p).wf(),
        evolves(*old(p), *final(p)),
        old(p).cur() is IDENT ==> final(p).rem() < old(p).rem(),
    decreases old(p).rem(), 1int,
{
    if p.at(SyntaxKind::IDENT) {
        let m = p.start();
        let ghost s0 = *p;
        p.bump(SyntaxKind::IDENT);
        proof {
            lemma_marker_preserved(m, s0, *p);
        }
        let cm = m.complete(p, SyntaxKind::NAME);
    } else {
        p.err_recover("expected a name", recovery);
    }
}

pub(crate) fn name(p: &mut Parser)
    requires
        old(p).wf(),
    ensures
        final(p).wf(),
        evolves(*old(p), *final(p)),
        old(p).cur() is IDENT ==> final(p).rem() < old(p).rem(),
    decreases old(p).rem(), 2int,
{
    let empty = TokenSet::empty();
    name_r(p, &empty);
}

pub(crate) fn name_ref(p: &mut Parser)
    requires
        old(p).wf(),
    ensures
        final(p).wf(),
        evolves(*old(p), *final(p)),
    decreases old(p).rem(), 1int,
{
    if p.at(SyntaxKind::IDENT) {
        let m = p.start();
        let ghost s0 = *p;
        p.bump(SyntaxKind::IDENT);
        proof {
            lemma_marker_preserved(m, s0, *p);
        }
        let cm = m.complete(p, SyntaxKind::NAME_REF);
    } else {
        p.err_and_bump("expected identifier");
    }
}

/// Consumes a whole stray `{ ... }` block as an `ERROR` node.
pub(crate) fn error_block(p: &mut Parser, message: &str)
    requires
        old(p).wf(),
        old(p).cur() is L_BRACE,
    ensures
        final(p).wf(),
        evolves(*old(p), *final(p)),
        final(p).rem() < old(p).rem(),
    decreases old(p).rem(), 1int,
{
    let m = p.start();
    let ghost s0 = *p;
    p.error(message);
    proof {
        lemma_marker_preserved(m, s0, *p);
    }
    let ghost s1 = *p;
    p.bump(SyntaxKind::L_BRACE);
    proof {
        lemma_marker_preserved(m, s1, *p);
    }
    let ghost s2 = *p;
    expressions::expr_block_contents(p);
    proof {
        lemma_marker_preserved(m, s2, *p);
    }
    let ghost s3 = *p;
    let ate = p.eat(SyntaxKind::R_BRACE);
    proof {
        lemma_marker_preserved(m, s3, *p);
    }
    let cm = m.complete(p, SyntaxKind::ERROR);
}

pub(crate) fn block_expr(p: &mut Parser)
    requires
        old(p).wf(),
    ensures
        final(p).wf(),
        evolves(*old(p), *final(p)),
    decreases old(p).rem(), 2int,
{
    if !p.at(SyntaxKind::L_BRACE) {
        p.error("expected a block");
        return;
    }
    let cm = block_expr_unchecked(p);
}

pub(crate) fn block_expr_unchecked(p: &mut Parser) -> (cm: CompletedMarker)
    requires
        old(p).wf(),
        old(p).cur() is L_BRACE,
    ensures
        final(p).wf(),
        evolves(*old(p), *final(p)),
        cm.wf(*final(p)),
        cm.start_pos as int >= old(p).events@.len(),
        final(p).rem() < old(p).rem(),
    decreases old(p).rem(), 1int,
{
    let m = p.start();
    let ghost s0 = *p;
    p.bump(SyntaxKind::L_BRACE);
    proof {
        lemma_marker_preserved(m, s0, *p);
    }
    let ghost s1 = *p;
    block_contents(p);
    proof {
        lemma_marker_preserved(m, s1, *p);
    }
    let ghost s2 = *p;
    let ate = p.expect(SyntaxKind::R_BRACE);
    proof {
        lemma_marker_preserved(m, s2, *p);
    }
    m.complete(p, SyntaxKind::BLOCK_EXPR)
}

pub(crate) fn block_contents(p: &mut Parser)
    requires
        old(p).wf(),
    ensures
        final(p).wf(),
        evolves(*old(p), *final(p)),
    decreases old(p).rem(), 12int,
{
    let ghost pre = *p;
    loop
        invariant
            p.wf(),
            evolves(pre, *p),
            p.rem() <= old(p).rem(),
        ensures
            p.wf(),
            evolves(pre, *p),
            p.rem() <= old(p).rem(),
        decreases p.rem(),
    {
        if p.at(SyntaxKind::R_BRACE) || p.at(SyntaxKind::EOF) {
            break;
        }
        let start_pos = p.lexer.cur_start;
        expressions::stmt(p, expressions::StmtWithSemi::Optional);
        if p.at(SyntaxKind::R_BRACE) || p.at(SyntaxKind::EOF) {
            break;
        }
        if p.lexer.cur_start == start_pos {
            // a statement that consumed nothing would spin for ever:
            // absorb the stuck token as an error and go on
            p.force_bump_error("expected a statement");
        }
    }
}

/// The whole stream, after resolution, is one properly nested tree: it
/// opens the `SOURCE_FILE` root first, closes it last, and strictly in
/// between never returns to depth zero.
pub open spec fn root_nested(es: Seq<crate::event::Event>) -> bool {
    &&& crate::event::well_nested(es)
    &&& es.len() >= 2
    &&& es[0] == (crate::event::Event::Start {
        kind: SyntaxKind::SOURCE_FILE,
        forward_parent: None,
    })
    &&& es.last() is Finish
    &&& forall|n: int|
        0 < n < es.len() ==> #[trigger] crate::event::finish_count(es, n)
            < crate::event::open_count(es, n)
}

/// The first semantic token the root loop will decide on: the current
/// token itself, or — when the raw first token is trivia — the token
/// right after it.
pub open spec fn root_first_kind(p: Parser) -> SyntaxKind {
    if p.cur().is_trivia_spec() {
        p.lexer.lookahead_spec(1).kind
    } else {
        p.cur()
    }
}

/// A first semantic token that opens no item: the root loop records an
/// error for it.
pub open spec fn root_rejects(k: SyntaxKind) -> bool {
    !(k.is_trivia_spec() || k is EOF || k is MODULE_KW || k is SCRIPT_KW)
}

/// The top-level rule: a source file is a sequence of modules and
/// scripts; stray leading trivia is absorbed silently, anything else is
/// absorbed as an error node so that parsing always reaches the end of
/// the input — and leaves an error event behind.
pub(crate) fn root(p: &mut Parser)
    requires
        old(p).wf(),
        old(p).events@.len() == 0,
    ensures
        final(p).wf(),
        evolves(*old(p), *final(p)),
        final(p).cur() is EOF,
        root_nested(final(p).events@),
        root_rejects(root_first_kind(*old(p))) ==> exists|j: int|
            0 <= j < final(p).events@.len() && (#[trigger] final(p).events@[j]) is Error,
    decreases old(p).rem(), 3int,
{
    let ghost tgt = root_first_kind(*old(p));
    let m = p.start();
    let ghost pre = *p;
    loop
        invariant
            p.wf(),
            evolves(pre, *p),
            p.rem() <= old(p).rem(),
            m.wf(*p),
            m.untargeted(*p),
            m.pos == 0,
            tgt == root_first_kind(*old(p)),
            root_rejects(tgt) ==> ((exists|j: int|
                1 <= j < p.events@.len() && (#[trigger] p.events@[j]) is Error) || p.cur() == tgt
                || (p.cur().is_trivia_spec() && p.lexer == old(p).lexer)),
        ensures
            p.wf(),
            evolves(pre, *p),
            m.wf(*p),
            m.untargeted(*p),
            m.pos == 0,
            p.cur() is EOF,
            root_rejects(tgt) ==> exists|j: int|
                1 <= j < p.events@.len() && (#[trigger] p.events@[j]) is Error,
        decreases p.rem(),
    {
        if p.at(SyntaxKind::EOF) {
            break;
        }
        if p.at(SyntaxKind::MODULE_KW) {
            let ghost s0 = *p;
            items::module(p);
            proof {
                lemma_marker_preserved(m, s0, *p);
                if root_rejects(tgt) {
                    let j = choose|j: int| 1 <= j < s0.events@.len() && s0.events@[j] is Error;
                    assert(p.events@[j] is Error);
                }
            }
        } else if p.at(SyntaxKind::SCRIPT_KW) {
            let ghost s1 = *p;
            items::script(p);
            proof {
                lemma_marker_preserved(m, s1, *p);
                if root_rejects(tgt) {
                    let j = choose|j: int| 1 <= j < s1.events@.len() && s1.events@[j] is Error;
                    assert(p.events@[j] is Error);
                }
            }
        } else if p.current().is_trivia() {
            // stray trivia (the raw first token of the file) is absorbed
            // so the tree stays lossless, without reporting an error
            let ghost s3 = *p;
            p.bump_any();
            proof {
                lemma_marker_preserved(m, s3, *p);
                if root_rejects(tgt) {
                    if s3.cur() == tgt || (s3.cur().is_trivia_spec() && s3.lexer == old(
                        p,
                    ).lexer) {
                        // the target is not trivia, so this was the raw
                        // leading trivia token and the target is next
                        assert(tgt == s3.lexer.lookahead_spec(1).kind);
                        assert(p.cur() == tgt);
                    } else {
                        let j = choose|j: int|
                            1 <= j < s3.events@.len() && s3.events@[j] is Error;
                        assert(p.events@[j] is Error);
                    }
                }
            }
        } else {
            let ghost s2 = *p;
            p.force_bump_error("expected module or script");
            proof {
                lemma_marker_preserved(m, s2, *p);
                if root_rejects(tgt) {
                    assert(p.events@[s2.events@.len() as int + 1] is Error);
                }
            }
        }
    }
    let ghost es0 = p.events@;
    let cm = m.complete(p, SyntaxKind::SOURCE_FILE);
    proof {
        if root_rejects(tgt) {
            let j = choose|j: int| 1 <= j < es0.len() && es0[j] is Error;
            assert(p.events@[j] is Error);
        }
        let es2 = p.events@;
        let len0 = es0.len() as int;
        assert(crate::event::origin(es0, 0) == 0);
        assert forall|n: int| 0 < n < es2.len() implies #[trigger] crate::event::finish_count(
            es2,
            n,
        ) < crate::event::open_count(es2, n) by {
            assert(n <= len0);
            assert(crate::event::finish_count(es2, n) == crate::event::finish_count(es0, n));
            assert(crate::event::open_count(es2, n) == crate::event::open_count(es0, n) + 1);
            assert(crate::event::finish_count(es0, n) <= crate::event::open_count(es0, n));
        }
        assert(es2[0] == (crate::event::Event::Start {
            kind: SyntaxKind::SOURCE_FILE,
            forward_parent: None,
        }));
        assert(es2.last() is Finish);
    }
}

} // verus!
