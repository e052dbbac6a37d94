//! Generic parameter lists: `<T, U: Bound + Bound>`.

use vstd::prelude::*;
use crate::grammar::name;
use crate::marker::Marker;
use crate::parser::{evolves, lemma_marker_preserved, Parser};
use crate::syntax_kind::SyntaxKind;

verus! {

pub(crate) fn opt_generic_param_list(p: &mut Parser)
    requires
        old(p).wf(),
    ensures
        final(p).wf(),
        evolves(*old(p), *final(p)),
    decreases old(p).rem(), 2int,
{
    if p.at(SyntaxKind::LT) {
        generic_param_list(p);
    }
}

fn generic_param_list(p: &mut Parser)
    requires
        old(p).wf(),
        old(p).cur() is LT,
    ensures
        final(p).wf(),
        evolves(*old(p), *final(p)),
        final(p).rem() < old(p).rem(),
    decreases old(p).rem(), 1int,
{
    let m = p.start();
    let ghost s0 = *p;
    p.bump(SyntaxKind::LT);
    proof {
        lemma_marker_preserved(m, s0, *p);
    }
    let ghost pre = *p;
    loop
        invariant
            p.wf(),
            evolves(pre, *p),
            p.rem() < old(p).rem(),
            m.wf(*p),
            m.untargeted(*p),
        ensures
            p.wf(),
            evolves(pre, *p),
            p.rem() < old(p).rem(),
            m.wf(*p),
            m.untargeted(*p),
        decreases p.rem(),
    {
        if p.at(SyntaxKind::EOF) || p.at(SyntaxKind::GT) {
            break;
        }
        let ghost s1 = *p;
        generic_param(p);
        proof {
            lemma_marker_preserved(m, s1, *p);
        }
        if p.at(SyntaxKind::EOF) || p.at(SyntaxKind::GT) {
            break;
        }
        let ghost s2 = *p;
        let ate = p.expect(SyntaxKind::COMMA);
        proof {
            lemma_marker_preserved(m, s2, *p);
        }
        if !ate {
            break;
        }
    }
    let ghost s3 = *p;
    let ate = p.expect(SyntaxKind::GT);
    proof {
        lemma_marker_preserved(m, s3, *p);
    }
    let cm = m.complete(p, SyntaxKind::GENERIC_PARAM_LIST);
}

fn generic_param(p: &mut Parser)
    requires
        old(p).wf(),
    ensures
        final(p).wf(),
        evolves(*old(p), *final(p)),
    decreases old(p).rem(), 4int,
{
    let m = p.start();
    if p.at(SyntaxKind::IDENT) {
        type_param(p, m);
    } else {
        m.abandon(p);
        p.err_and_bump("expected type parameter");
    }
}

fn type_param(p: &mut Parser, m: Marker)
    requires
        old(p).wf(),
        m.wf(*old(p)),
        m.untargeted(*old(p)),
        old(p).cur() is IDENT,
    ensures
        final(p).wf(),
        crate::parser::evolves_from(*old(p), *final(p), m.pos as int),
    decreases old(p).rem(), 3int,
{
    let ghost s0 = *p;
    name(p);
    proof {
        lemma_marker_preserved(m, s0, *p);
    }
    if p.at(SyntaxKind::COLON) {
        let ghost s1 = *p;
        bounds(p);
        proof {
            lemma_marker_preserved(m, s1, *p);
        }
    }
    let cm = m.complete(p, SyntaxKind::TYPE_PARAM);
}

pub(crate) fn bounds(p: &mut Parser)
    requires
        old(p).wf(),
        old(p).cur() is COLON,
    ensures
        final(p).wf(),
        evolves(*old(p), *final(p)),
    decreases old(p).rem(), 1int,
{
    p.bump(SyntaxKind::COLON);
    bounds_without_colon(p);
}

pub(crate) fn bounds_without_colon(p: &mut Parser)
    requires
        old(p).wf(),
    ensures
        final(p).wf(),
        evolves(*old(p), *final(p)),
    decreases old(p).rem(), 5int,
{
    let m = p.start();
    bounds_without_colon_m(p, m);
}

pub(crate) fn bounds_without_colon_m(p: &mut Parser, m: Marker)
    requires
        old(p).wf(),
        m.wf(*old(p)),
        m.untargeted(*old(p)),
    ensures
        final(p).wf(),
        crate::parser::evolves_from(*old(p), *final(p), m.pos as int),
    decreases old(p).rem(), 4int,
{
    let ghost pre = *p;
    loop
        invariant
            p.wf(),
            evolves(pre, *p),
            p.rem() <= old(p).rem(),
            m.wf(*p),
            m.untargeted(*p),
        ensures
            p.wf(),
            evolves(pre, *p),
            p.rem() <= old(p).rem(),
            m.wf(*p),
            m.untargeted(*p),
        decreases p.rem(),
    {
        let ghost s0 = *p;
        let found = type_bound(p);
        proof {
            lemma_marker_preserved(m, s0, *p);
        }
        if !found {
            break;
        }
        let ghost s1 = *p;
        let plus = p.eat(SyntaxKind::PLUS);
        proof {
            lemma_marker_preserved(m, s1, *p);
        }
        if !plus {
            break;
        }
    }
    let cm = m.complete(p, SyntaxKind::TYPE_BOUND_LIST);
}

fn type_bound(p: &mut Parser) -> (found: bool)
    requires
        old(p).wf(),
    ensures
        final(p).wf(),
        evolves(*old(p), *final(p)),
        found ==> final(p).rem() < old(p).rem(),
    decreases old(p).rem(), 3int,
{
    let m = p.start();
    if p.at(SyntaxKind::IDENT) {
        let ghost s0 = *p;
        name(p);
        proof {
            lemma_marker_preserved(m, s0, *p);
        }
        let cm = m.complete(p, SyntaxKind::TYPE_BOUND);
        true
    } else {
        m.abandon(p);
        false
    }
}

} // verus!
