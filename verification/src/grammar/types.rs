//! Types: reference types (`&T`, `&mut T`) and path types.

use vstd::prelude::*;
use crate::grammar::paths;
use crate::parser::{evolves, lemma_marker_preserved, Parser};
use crate::syntax_kind::SyntaxKind;
use crate::token_set::TokenSet;

verus! {

pub(crate) fn type_first_set() -> (r: TokenSet)
    ensures
        forall|k: SyntaxKind| #[trigger] r.spec_contains(k) <==> (k is IDENT || k is AMP),
{
    TokenSet::new(&[SyntaxKind::IDENT, SyntaxKind::AMP])
}

fn type_recovery_set() -> (r: TokenSet)
    ensures
        forall|k: SyntaxKind| #[trigger] r.spec_contains(k) <==> (k is R_PAREN || k is COMMA),
{
    TokenSet::new(&[SyntaxKind::R_PAREN, SyntaxKind::COMMA])
}

/// `: Type`, as used by let statements and parameters.
pub(crate) fn ascription(p: &mut Parser)
    requires
        old(p).wf(),
        old(p).cur() is COLON,
    ensures
        final(p).wf(),
        evolves(*old(p), *final(p)),
        final(p).rem() < old(p).rem(),
    decreases old(p).rem(), 1int,
{
    p.bump(SyntaxKind::COLON);
    type_(p);
}

pub(crate) fn type_(p: &mut Parser)
    requires
        old(p).wf(),
    ensures
        final(p).wf(),
        evolves(*old(p), *final(p)),
    decreases old(p).rem(), 7int,
{
    if p.at(SyntaxKind::AMP) {
        ref_type(p);
    } else if paths::is_path_start(p) {
        path_type(p);
    } else {
        let recovery = type_recovery_set();
        p.err_recover("expected type", &recovery);
    }
}

pub(crate) fn ref_type(p: &mut Parser)
    requires
        old(p).wf(),
        old(p).cur() is AMP,
    ensures
        final(p).wf(),
        evolves(*old(p), *final(p)),
        final(p).rem() < old(p).rem(),
    decreases old(p).rem(), 1int,
{
    let m = p.start();
    let ghost s0 = *p;
    p.bump(SyntaxKind::AMP);
    proof {
        lemma_marker_preserved(m, s0, *p);
    }
    let ghost s1 = *p;
    let ate = p.eat(SyntaxKind::MUT_KW);
    proof {
        lemma_marker_preserved(m, s1, *p);
    }
    let ghost s2 = *p;
    type_(p);
    proof {
        lemma_marker_preserved(m, s2, *p);
    }
    let cm = m.complete(p, SyntaxKind::REF_TYPE);
}

pub(crate) fn path_type(p: &mut Parser)
    requires
        old(p).wf(),
        old(p).cur() is IDENT,
    ensures
        final(p).wf(),
        evolves(*old(p), *final(p)),
    decreases old(p).rem(), 6int,
{
    let m = p.start();
    let ghost s0 = *p;
    paths::type_path(p);
    proof {
        lemma_marker_preserved(m, s0, *p);
    }
    let cm = m.complete(p, SyntaxKind::PATH_TYPE);
}

} // verus!
