//! Items: `script { ... }`, `module name { ... }`, and inside an item
//! list, functions and structs.  The recovery token set is keyed off the
//! enclosing construct, so a malformed item does not swallow the rest of
//! the file.

use vstd::prelude::*;
use crate::grammar::{block_expr, error_block, name, name_r, generic_params, types};
use crate::marker::Marker;
use crate::parser::{
    evolves, evolves_from, lemma_marker_preserved, lemma_marker_preserved_from, Parser,
};
use crate::syntax_kind::SyntaxKind;
use crate::token_set::TokenSet;

verus! {

pub(crate) fn item_recovery_set() -> (r: TokenSet)
    ensures
        forall|k: SyntaxKind| #[trigger] r.spec_contains(k) <==> (k is STRUCT_KW || k is FUN_KW
            || k is SEMICOLON),
{
    TokenSet::new(&[SyntaxKind::STRUCT_KW, SyntaxKind::FUN_KW, SyntaxKind::SEMICOLON])
}

pub(crate) fn script(p: &mut Parser)
    requires
        old(p).wf(),
        old(p).cur() is SCRIPT_KW,
    ensures
        final(p).wf(),
        evolves(*old(p), *final(p)),
        final(p).rem() < old(p).rem(),
    decreases old(p).rem(), 1int,
{
    let m = p.start();
    let ghost s0 = *p;
    p.bump(SyntaxKind::SCRIPT_KW);
    proof {
        lemma_marker_preserved(m, s0, *p);
    }
    if p.at(SyntaxKind::L_BRACE) {
        let ghost s1 = *p;
        item_list(p);
        proof {
            lemma_marker_preserved(m, s1, *p);
        }
    } else {
        let ghost s2 = *p;
        let ate = p.eat(SyntaxKind::SEMICOLON);
        proof {
            lemma_marker_preserved(m, s2, *p);
        }
        if !ate {
            let ghost s3 = *p;
            p.error("expected `;` or `{`");
            proof {
                lemma_marker_preserved(m, s3, *p);
            }
        }
    }
    let cm = m.complete(p, SyntaxKind::SCRIPT_DEF);
}

pub(crate) fn module(p: &mut Parser)
    requires
        old(p).wf(),
        old(p).cur() is MODULE_KW,
    ensures
        final(p).wf(),
        evolves(*old(p), *final(p)),
        final(p).rem() < old(p).rem(),
    decreases old(p).rem(), 1int,
{
    let m = p.start();
    let ghost s0 = *p;
    p.bump(SyntaxKind::MODULE_KW);
    proof {
        lemma_marker_preserved(m, s0, *p);
    }
    let ghost s1 = *p;
    name(p);
    proof {
        lemma_marker_preserved(m, s1, *p);
    }
    if p.at(SyntaxKind::L_BRACE) {
        let ghost s2 = *p;
        item_list(p);
        proof {
            lemma_marker_preserved(m, s2, *p);
        }
    } else {
        let ghost s3 = *p;
        let ate = p.eat(SyntaxKind::SEMICOLON);
        proof {
            lemma_marker_preserved(m, s3, *p);
        }
        if !ate {
            let ghost s4 = *p;
            p.error("expected `;` or `{`");
            proof {
                lemma_marker_preserved(m, s4, *p);
            }
        }
    }
    let cm = m.complete(p, SyntaxKind::MODULE);
}

pub(crate) fn item_list(p: &mut Parser)
    requires
        old(p).wf(),
        old(p).cur() is L_BRACE,
    ensures
        final(p).wf(),
        evolves(*old(p), *final(p)),
        final(p).rem() < old(p).rem(),
    decreases old(p).rem(), 1int,
{
    let m = p.start();
    let ghost s0 = *p;
    p.bump(SyntaxKind::L_BRACE);
    proof {
        lemma_marker_preserved(m, s0, *p);
    }
    let ghost pre = *p;
    loop
        invariant
            p.wf(),
            evolves(pre, *p),
            p.rem() < old(p).rem(),
            m.wf(*p),
            m.untargeted(*p),
        ensures
            p.wf(),
            evolves(pre, *p),
            p.rem() < old(p).rem(),
            m.wf(*p),
            m.untargeted(*p),
        decreases p.rem(),
    {
        if p.at(SyntaxKind::R_BRACE) || p.at(SyntaxKind::EOF) {
            break;
        }
        let ghost s1 = *p;
        item(p);
        proof {
            lemma_marker_preserved(m, s1, *p);
        }
        if p.at(SyntaxKind::R_BRACE) || p.at(SyntaxKind::EOF) {
            break;
        }
    }
    let ghost s2 = *p;
    let ate = p.expect(SyntaxKind::R_BRACE);
    proof {
        lemma_marker_preserved(m, s2, *p);
    }
    let cm = m.complete(p, SyntaxKind::ITEM_LIST);
}

pub(crate) fn item(p: &mut Parser)
    requires
        old(p).wf(),
    ensures
        final(p).wf(),
        evolves(*old(p), *final(p)),
        final(p).rem() < old(p).rem() || final(p).cur() is R_BRACE || final(p).cur() is EOF,
    decreases old(p).rem(), 3int,
{
    let m = p.start();
    let ghost s0 = *p;
    match opt_item(p, m) {
        Ok(consumed) => {
            if p.at(SyntaxKind::SEMICOLON) {
                p.err_and_bump(
                    "expected item, found `;`\nconsider removing this semicolon",
                );
            }
        },
        Err(m) => {
            m.abandon(p);
            if p.at(SyntaxKind::L_BRACE) {
                error_block(p, "expected an item");
            } else if !p.at(SyntaxKind::EOF) && !p.at(SyntaxKind::R_BRACE) {
                p.err_and_bump("expected an item");
            } else {
                p.error("expected an item");
            }
        },
    }
}

/// Tries to parse an item, completing `m` on success; hands the marker
/// back if the current token cannot begin one.
pub(crate) fn opt_item(p: &mut Parser, m: Marker) -> (r: Result<bool, Marker>)
    requires
        old(p).wf(),
        m.wf(*old(p)),
        m.untargeted(*old(p)),
        m.pos as int == old(p).events@.len() - 1,
    ensures
        final(p).wf(),
        evolves_from(*old(p), *final(p), m.pos as int),
        match r {
            Ok(consumed) => consumed && final(p).rem() < old(p).rem(),
            Err(m2) => m2 == m && *final(p) == *old(p),
        },
    decreases old(p).rem(), 2int,
{
    if p.at(SyntaxKind::FUN_KW) {
        let ghost s0 = *p;
        fun(p);
        proof {
            lemma_marker_preserved(m, s0, *p);
        }
        let cm = m.complete(p, SyntaxKind::FUNCTION_DEF);
        Ok(true)
    } else if p.at(SyntaxKind::STRUCT_KW) {
        struct_(p, m);
        Ok(true)
    } else {
        Err(m)
    }
}

pub(crate) fn fun(p: &mut Parser)
    requires
        old(p).wf(),
        old(p).cur() is FUN_KW,
    ensures
        final(p).wf(),
        evolves(*old(p), *final(p)),
        final(p).rem() < old(p).rem(),
    decreases old(p).rem(), 1int,
{
    p.bump(SyntaxKind::FUN_KW);
    let recovery = item_recovery_set();
    name_r(p, &recovery);
    if p.at(SyntaxKind::L_PAREN) {
        crate::grammar::params::param_list(p);
    } else {
        p.error("expected function arguments");
    }
    let ret = opt_ret_type(p);
    block_expr(p);
}

fn opt_ret_type(p: &mut Parser) -> (r: bool)
    requires
        old(p).wf(),
    ensures
        final(p).wf(),
        evolves(*old(p), *final(p)),
    decreases old(p).rem(), 1int,
{
    if p.at(SyntaxKind::COLON) {
        let m = p.start();
        let ghost s0 = *p;
        p.bump(SyntaxKind::COLON);
        proof {
            lemma_marker_preserved(m, s0, *p);
        }
        let ghost s1 = *p;
        types::type_(p);
        proof {
            lemma_marker_preserved(m, s1, *p);
        }
        let cm = m.complete(p, SyntaxKind::RET_TYPE);
        true
    } else {
        false
    }
}

pub(crate) fn struct_(p: &mut Parser, m: Marker)
    requires
        old(p).wf(),
        m.wf(*old(p)),
        m.untargeted(*old(p)),
        old(p).cur() is STRUCT_KW,
    ensures
        final(p).wf(),
        evolves_from(*old(p), *final(p), m.pos as int),
        final(p).rem() < old(p).rem(),
    decreases old(p).rem(), 1int,
{
    let ghost s0 = *p;
    p.bump(SyntaxKind::STRUCT_KW);
    proof {
        lemma_marker_preserved(m, s0, *p);
    }
    let ghost s1 = *p;
    let recovery = item_recovery_set();
    name_r(p, &recovery);
    proof {
        lemma_marker_preserved(m, s1, *p);
    }
    let ghost s2 = *p;
    generic_params::opt_generic_param_list(p);
    proof {
        lemma_marker_preserved(m, s2, *p);
    }
    if p.at(SyntaxKind::L_BRACE) {
        let ghost s3 = *p;
        record_field_list(p);
        proof {
            lemma_marker_preserved(m, s3, *p);
        }
    } else if p.at(SyntaxKind::SEMICOLON) {
        let ghost s4 = *p;
        p.bump(SyntaxKind::SEMICOLON);
        proof {
            lemma_marker_preserved(m, s4, *p);
        }
    } else {
        let ghost s5 = *p;
        p.error("expected `;` or `{`");
        proof {
            lemma_marker_preserved(m, s5, *p);
        }
    }
    let cm = m.complete(p, SyntaxKind::STRUCT);
}

pub(crate) fn record_field_list(p: &mut Parser)
    requires
        old(p).wf(),
        old(p).cur() is L_BRACE,
    ensures
        final(p).wf(),
        evolves(*old(p), *final(p)),
        final(p).rem() < old(p).rem(),
    decreases old(p).rem(), 1int,
{
    let m = p.start();
    let ghost s0 = *p;
    p.bump(SyntaxKind::L_BRACE);
    proof {
        lemma_marker_preserved(m, s0, *p);
    }
    let ghost pre = *p;
    loop
        invariant
            p.wf(),
            evolves(pre, *p),
            p.rem() < old(p).rem(),
            m.wf(*p),
            m.untargeted(*p),
        ensures
            p.wf(),
            evolves(pre, *p),
            p.rem() < old(p).rem(),
            m.wf(*p),
            m.untargeted(*p),
        decreases p.rem(),
    {
        if p.at(SyntaxKind::R_BRACE) || p.at(SyntaxKind::EOF) {
            break;
        }
        let start_pos: usize = p.lexer.cur_start;
        let ghost s1 = *p;
        record_field(p);
        proof {
            lemma_marker_preserved(m, s1, *p);
        }
        if p.at(SyntaxKind::R_BRACE) {
            break;
        }
        let ghost s2 = *p;
        let ate = p.expect(SyntaxKind::COMMA);
        proof {
            lemma_marker_preserved(m, s2, *p);
        }
        if p.lexer.cur_start == start_pos {
            break;
        }
    }
    let ghost s3 = *p;
    let ate = p.expect(SyntaxKind::R_BRACE);
    proof {
        lemma_marker_preserved(m, s3, *p);
    }
    let cm = m.complete(p, SyntaxKind::RECORD_FIELD_LIST);
}

fn record_field(p: &mut Parser)
    requires
        old(p).wf(),
    ensures
        final(p).wf(),
        evolves(*old(p), *final(p)),
    decreases old(p).rem(), 3int,
{
    if p.at(SyntaxKind::IDENT) {
        let m = p.start();
        let ghost s0 = *p;
        name(p);
        proof {
            lemma_marker_preserved(m, s0, *p);
        }
        let ghost s1 = *p;
        let ate = p.expect(SyntaxKind::COLON);
        proof {
            lemma_marker_preserved(m, s1, *p);
        }
        let ghost s2 = *p;
        types::type_(p);
        proof {
            lemma_marker_preserved(m, s2, *p);
        }
        let cm = m.complete(p, SyntaxKind::RECORD_FIELD);
    } else {
        p.err_and_bump("expected field declaration");
    }
}

} // verus!
