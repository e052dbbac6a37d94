//! Paths: `a`, `a::b`, `a::b::c`, used by expressions, types and
//! patterns.  Qualified paths are built with `precede`, wrapping the
//! already-parsed qualifier into a new `PATH` node.

use vstd::prelude::*;
use crate::grammar::{items, name_ref};
use crate::marker::{CompletedMarker, Marker};
use crate::parser::{evolves, lemma_cm_preserved, lemma_marker_preserved, Parser};
use crate::syntax_kind::SyntaxKind;

verus! {

/// Which context a path is parsed in; segments do not differ between
/// them in this grammar, but the distinction is kept for callers.
#[derive(Clone, Copy, PartialEq, Eq, Structural)]
pub(crate) enum Mode {
    Use,
    Type,
    Expr,
}

pub(crate) fn is_path_start(p: &Parser) -> (r: bool)
    requires
        p.wf(),
    ensures
        r == (p.cur() is IDENT),
{
    p.at(SyntaxKind::IDENT)
}

pub(crate) fn is_use_path_start(p: &Parser) -> (r: bool)
    requires
        p.wf(),
    ensures
        r == (p.cur() is IDENT),
{
    p.at(SyntaxKind::IDENT)
}

pub(crate) fn type_path(p: &mut Parser)
    requires
        old(p).wf(),
    ensures
        final(p).wf(),
        evolves(*old(p), *final(p)),
    decreases old(p).rem(), 5int,
{
    path(p, Mode::Type)
}

pub(crate) fn expr_path(p: &mut Parser)
    requires
        old(p).wf(),
    ensures
        final(p).wf(),
        evolves(*old(p), *final(p)),
    decreases old(p).rem(), 5int,
{
    path(p, Mode::Expr)
}

fn path(p: &mut Parser, mode: Mode)
    requires
        old(p).wf(),
    ensures
        final(p).wf(),
        evolves(*old(p), *final(p)),
    decreases old(p).rem(), 4int,
{
    let m = p.start();
    let ghost s0 = *p;
    path_segment(p, mode, true);
    proof {
        lemma_marker_preserved(m, s0, *p);
    }
    let qual = m.complete(p, SyntaxKind::PATH);
    path_for_qualifier(p, mode, qual);
}

fn path_for_qualifier(p: &mut Parser, mode: Mode, qual: CompletedMarker)
    requires
        old(p).wf(),
        qual.wf(*old(p)),
    ensures
        final(p).wf(),
        crate::parser::evolves_from(*old(p), *final(p), qual.start_pos as int),
    decreases old(p).rem(), 3int,
{
    let ghost pre = *p;
    let mut q = qual;
    loop
        invariant
            p.wf(),
            crate::parser::evolves_from(pre, *p, qual.start_pos as int),
            p.rem() <= old(p).rem(),
            q.wf(*p),
            q.start_pos as int >= qual.start_pos as int,
        ensures
            p.wf(),
            crate::parser::evolves_from(pre, *p, qual.start_pos as int),
            p.rem() <= old(p).rem(),
        decreases p.rem(),
    {
        let use_tree = {
            let k2 = p.nth(2);
            k2 == SyntaxKind::STAR || k2 == SyntaxKind::L_BRACE
        };
        if !(p.at(SyntaxKind::COLON_COLON) && !use_tree) {
            break;
        }
        let m = q.precede(p);
        let ghost s0 = *p;
        p.bump(SyntaxKind::COLON_COLON);
        proof {
            assert(p.events@[m.pos as int] == s0.events@[m.pos as int]);
        }
        let ghost s1 = *p;
        path_segment(p, mode, false);
        proof {
            assert(p.events@[m.pos as int] == s1.events@[m.pos as int]);
        }
        q = m.complete(p, SyntaxKind::PATH);
    }
}

fn path_segment(p: &mut Parser, mode: Mode, first: bool)
    requires
        old(p).wf(),
    ensures
        final(p).wf(),
        evolves(*old(p), *final(p)),
    decreases old(p).rem(), 2int,
{
    let m = p.start();
    if first {
        let ghost s0 = *p;
        let ate = p.eat(SyntaxKind::COLON_COLON);
        proof {
            lemma_marker_preserved(m, s0, *p);
        }
    }
    if p.at(SyntaxKind::IDENT) {
        let ghost s1 = *p;
        name_ref(p);
        proof {
            lemma_marker_preserved(m, s1, *p);
        }
        let cm = m.complete(p, SyntaxKind::PATH_SEGMENT);
    } else {
        let ghost s2 = *p;
        let recovery = items::item_recovery_set();
        p.err_recover("expected identifier", &recovery);
        proof {
            lemma_marker_preserved(m, s2, *p);
        }
        if !first {
            m.abandon(p);
            return;
        }
        let cm = m.complete(p, SyntaxKind::PATH_SEGMENT);
    }
}

} // verus!
