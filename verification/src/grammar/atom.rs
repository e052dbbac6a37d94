//! Atomic expressions: literals, path and record expressions,
//! parenthesized expressions, and block expressions.

use vstd::prelude::*;
use crate::grammar::{block_expr_unchecked, expressions, paths};
use crate::marker::CompletedMarker;
use crate::parser::{evolves, lemma_marker_preserved, Parser};
use crate::syntax_kind::SyntaxKind;
use crate::token_set::TokenSet;

verus! {

/// Tokens that can begin a literal.
pub(crate) fn literal_first_set() -> (r: TokenSet)
    ensures
        forall|k: SyntaxKind| #[trigger] r.spec_contains(k) <==> (k is TRUE_KW || k is FALSE_KW
            || k is INTEGER_NUMBER || k is HEX_STRING || k is BYTE_STRING),
{
    TokenSet::new(
        &[
            SyntaxKind::TRUE_KW,
            SyntaxKind::FALSE_KW,
            SyntaxKind::INTEGER_NUMBER,
            SyntaxKind::HEX_STRING,
            SyntaxKind::BYTE_STRING,
        ],
    )
}

pub(crate) fn literal(p: &mut Parser) -> (r: Option<CompletedMarker>)
    requires
        old(p).wf(),
    ensures
        final(p).wf(),
        evolves(*old(p), *final(p)),
        match r {
            Some(cm) => cm.wf(*final(p)) && final(p).rem() < old(p).rem()
                && cm.start_pos as int >= old(p).events@.len(),
            None => *final(p) == *old(p),
        },
    decreases old(p).rem(), 1int,
{
    let first = literal_first_set();
    if !p.at_ts(&first) {
        return None;
    }
    let m = p.start();
    let ghost s0 = *p;
    p.bump_any();
    proof {
        lemma_marker_preserved(m, s0, *p);
    }
    Some(m.complete(p, SyntaxKind::LITERAL))
}

pub(crate) fn atom_expr(p: &mut Parser) -> (r: Option<CompletedMarker>)
    requires
        old(p).wf(),
    ensures
        final(p).wf(),
        evolves(*old(p), *final(p)),
        match r {
            Some(cm) => cm.wf(*final(p)) && cm.start_pos as int >= old(p).events@.len(),
            None => true,
        },
    decreases old(p).rem(), 7int,
{
    let lit = literal(p);
    match lit {
        Some(cm) => {
            return Some(cm);
        },
        None => {},
    }
    if p.at(SyntaxKind::IDENT) {
        return Some(path_expr(p));
    }
    if p.at(SyntaxKind::L_PAREN) {
        return Some(paren_expr(p));
    }
    if p.at(SyntaxKind::L_BRACE) {
        return Some(block_expr_unchecked(p));
    }
    let end = TokenSet::new(&[SyntaxKind::SEMICOLON, SyntaxKind::R_PAREN]);
    let done = p.error_and_skip_until("expected expression", &end);
    Some(done)
}

fn path_expr(p: &mut Parser) -> (cm: CompletedMarker)
    requires
        old(p).wf(),
        old(p).cur() is IDENT,
    ensures
        final(p).wf(),
        evolves(*old(p), *final(p)),
        cm.wf(*final(p)),
        cm.start_pos as int >= old(p).events@.len(),
    decreases old(p).rem(), 6int,
{
    let m = p.start();
    let ghost s0 = *p;
    paths::expr_path(p);
    proof {
        lemma_marker_preserved(m, s0, *p);
    }
    if p.at(SyntaxKind::L_BRACE) {
        let ghost s1 = *p;
        expressions::record_expr_field_list(p);
        proof {
            lemma_marker_preserved(m, s1, *p);
        }
        m.complete(p, SyntaxKind::RECORD_EXPR)
    } else {
        m.complete(p, SyntaxKind::PATH_EXPR)
    }
}

fn paren_expr(p: &mut Parser) -> (cm: CompletedMarker)
    requires
        old(p).wf(),
        old(p).cur() is L_PAREN,
    ensures
        final(p).wf(),
        evolves(*old(p), *final(p)),
        cm.wf(*final(p)),
        cm.start_pos as int >= old(p).events@.len(),
        final(p).rem() < old(p).rem(),
    decreases old(p).rem(), 1int,
{
    let m = p.start();
    let ghost s0 = *p;
    p.bump(SyntaxKind::L_PAREN);
    proof {
        lemma_marker_preserved(m, s0, *p);
    }
    let ghost pre = *p;
    loop
        invariant
            p.wf(),
            evolves(pre, *p),
            p.rem() < old(p).rem(),
            m.wf(*p),
            m.untargeted(*p),
        ensures
            p.wf(),
            evolves(pre, *p),
            p.rem() < old(p).rem(),
            m.wf(*p),
            m.untargeted(*p),
        decreases p.rem(),
    {
        if p.at(SyntaxKind::EOF) || p.at(SyntaxKind::R_PAREN) {
            break;
        }
        let start_pos: usize = p.lexer.cur_start;
        let ghost s1 = *p;
        let e = expressions::expr(p);
        proof {
            lemma_marker_preserved(m, s1, *p);
        }
        if p.lexer.cur_start == start_pos {
            // an expression that consumed nothing would spin for ever
            break;
        }
    }
    let ghost s2 = *p;
    let ate = p.expect(SyntaxKind::R_PAREN);
    proof {
        lemma_marker_preserved(m, s2, *p);
    }
    m.complete(p, SyntaxKind::PAREN_EXPR)
}

} // verus!
