//! Function parameter lists: `(name: Type, ...)`.

use vstd::prelude::*;
use crate::grammar::{name, types};
use crate::marker::Marker;
use crate::parser::{evolves, lemma_marker_preserved, Parser};
use crate::syntax_kind::SyntaxKind;

verus! {

pub(crate) fn param_list(p: &mut Parser)
    requires
        old(p).wf(),
        old(p).cur() is L_PAREN,
    ensures
        final(p).wf(),
        evolves(*old(p), *final(p)),
        final(p).rem() < old(p).rem(),
    decreases old(p).rem(), 1int,
{
    let list_marker = p.start();
    let ghost s0 = *p;
    p.bump(SyntaxKind::L_PAREN);
    proof {
        lemma_marker_preserved(list_marker, s0, *p);
    }
    let ghost pre = *p;
    loop
        invariant
            p.wf(),
            evolves(pre, *p),
            p.rem() < old(p).rem(),
            list_marker.wf(*p),
            list_marker.untargeted(*p),
        ensures
            p.wf(),
            evolves(pre, *p),
            p.rem() < old(p).rem(),
            list_marker.wf(*p),
            list_marker.untargeted(*p),
        decreases p.rem(),
    {
        if p.at(SyntaxKind::EOF) || p.at(SyntaxKind::R_PAREN) {
            break;
        }
        let first = types::type_first_set();
        if !p.at_ts(&first) {
            let ghost s1 = *p;
            p.error("expected value parameter");
            proof {
                lemma_marker_preserved(list_marker, s1, *p);
            }
            break;
        }
        let start_pos: usize = p.lexer.cur_start;
        let ghost it0 = *p;
        let m = p.start();
        proof {
            lemma_marker_preserved(list_marker, it0, *p);
        }
        let ghost s2 = *p;
        param(p, m);
        proof {
            crate::parser::lemma_marker_preserved_from(list_marker, s2, *p, m.pos as int);
        }
        if p.at(SyntaxKind::R_PAREN) {
            break;
        }
        let ghost s3 = *p;
        let ate = p.expect(SyntaxKind::COMMA);
        proof {
            lemma_marker_preserved(list_marker, s3, *p);
        }
        if p.lexer.cur_start == start_pos {
            // neither the parameter nor a separator consumed anything
            break;
        }
    }
    let ghost s4 = *p;
    let ate = p.expect(SyntaxKind::R_PAREN);
    proof {
        lemma_marker_preserved(list_marker, s4, *p);
    }
    let cm = list_marker.complete(p, SyntaxKind::PARAM_LIST);
}

fn param(p: &mut Parser, m: Marker)
    requires
        old(p).wf(),
        m.wf(*old(p)),
        m.untargeted(*old(p)),
    ensures
        final(p).wf(),
        crate::parser::evolves_from(*old(p), *final(p), m.pos as int),
    decreases old(p).rem(), 3int,
{
    let ghost s0 = *p;
    name(p);
    proof {
        lemma_marker_preserved(m, s0, *p);
    }
    if p.at(SyntaxKind::COLON) {
        let ghost s1 = *p;
        types::ascription(p);
        proof {
            lemma_marker_preserved(m, s1, *p);
        }
    } else {
        let ghost s2 = *p;
        p.error("missing type for function parameter");
        proof {
            lemma_marker_preserved(m, s2, *p);
        }
    }
    let cm = m.complete(p, SyntaxKind::PARAM);
}

} // verus!
