//! Patterns: identifier, path, record, tuple/paren, wildcard and rest
//! patterns, distinguished by one or two tokens of lookahead.
//!
//! `(` opens a tuple pattern only if it holds more than one sub-pattern,
//! a trailing comma, or a rest marker; otherwise it is a paren pattern.
//! In particular `(a)` is a paren pattern and `(a,)`, `(a, b)`, `(..)`
//! are tuple patterns; empty parentheses `()` are a paren pattern.

use vstd::prelude::*;
use crate::event::Event;
use crate::grammar::{error_block, name, name_ref, paths};
use crate::parser::{evolves, lemma_marker_preserved, Parser};
use crate::syntax_kind::SyntaxKind;
use crate::token_set::TokenSet;

verus! {

/// Tokens that can begin a pattern: literal firsts, path firsts, the
/// rest marker, and the pattern-specific starters.
pub(crate) fn pattern_first_set() -> (r: TokenSet)
    ensures
        forall|k: SyntaxKind| #[trigger] r.spec_contains(k) <==> (k is TRUE_KW || k is FALSE_KW
            || k is INTEGER_NUMBER || k is HEX_STRING || k is BYTE_STRING || k is IDENT
            || k is MUT_KW || k is L_PAREN || k is L_BRACK || k is AMP || k is WILDCARD
            || k is MINUS || k is DOTDOT),
{
    TokenSet::new(
        &[
            SyntaxKind::TRUE_KW,
            SyntaxKind::FALSE_KW,
            SyntaxKind::INTEGER_NUMBER,
            SyntaxKind::HEX_STRING,
            SyntaxKind::BYTE_STRING,
            SyntaxKind::IDENT,
            SyntaxKind::MUT_KW,
            SyntaxKind::L_PAREN,
            SyntaxKind::L_BRACK,
            SyntaxKind::AMP,
            SyntaxKind::WILDCARD,
            SyntaxKind::MINUS,
            SyntaxKind::DOTDOT,
        ],
    )
}

fn pat_recovery_set() -> (r: TokenSet)
    ensures
        forall|k: SyntaxKind| #[trigger] r.spec_contains(k) <==> (k is LET_KW || k is IF_KW
            || k is WHILE_KW || k is R_PAREN || k is COMMA || k is EQ),
{
    TokenSet::new(
        &[
            SyntaxKind::LET_KW,
            SyntaxKind::IF_KW,
            SyntaxKind::WHILE_KW,
            SyntaxKind::R_PAREN,
            SyntaxKind::COMMA,
            SyntaxKind::EQ,
        ],
    )
}

pub(crate) fn pattern(p: &mut Parser)
    requires
        old(p).wf(),
    ensures
        final(p).wf(),
        evolves(*old(p), *final(p)),
        ({
            let e0 = old(p).events@.len() as int;
            &&& (old(p).cur() is WILDCARD ==> final(p).events@.len() > e0 && final(p).events@[e0]
                == (Event::Start { kind: SyntaxKind::WILDCARD_PAT, forward_parent: None }))
            &&& (old(p).cur() is DOTDOT ==> final(p).events@.len() > e0 && final(p).events@[e0]
                == (Event::Start { kind: SyntaxKind::REST_PAT, forward_parent: None }))
            &&& (old(p).cur() is MUT_KW ==> final(p).events@.len() > e0 && final(p).events@[e0]
                == (Event::Start { kind: SyntaxKind::IDENT_PAT, forward_parent: None }))
            &&& (old(p).cur() is L_PAREN ==> final(p).events@.len() > e0
                && (final(p).events@[e0] matches Event::Start { kind: k, forward_parent: fp }
                && fp is None && (k is PAREN_PAT || k is TUPLE_PAT)
                && (old(p).lexer.lookahead_spec(1).kind is R_PAREN ==> k is PAREN_PAT)
                && (old(p).lexer.lookahead_spec(1).kind is DOTDOT ==> k is TUPLE_PAT)))
        }),
    decreases old(p).rem(), 7int,
{
    let kind = p.current();
    if kind == SyntaxKind::MUT_KW {
        ident_pat(p);
    } else if kind == SyntaxKind::IDENT {
        if p.nth(1) == SyntaxKind::L_BRACE {
            path_pat(p);
        } else {
            ident_pat(p);
        }
    } else if kind == SyntaxKind::DOTDOT {
        rest_pat(p);
    } else if kind == SyntaxKind::WILDCARD {
        wildcard_pat(p);
    } else if kind == SyntaxKind::L_PAREN {
        tuple_pat(p);
    } else {
        let recovery = pat_recovery_set();
        p.err_recover("expected pattern", &recovery);
    }
}

/// `(a)`, `(a, b)`, `(a,)`, `(..)`, `()`: paren pattern if there is a
/// single sub-pattern and no comma and no rest marker (or nothing at
/// all), tuple pattern otherwise.  The node opened at the call completes
/// as `PAREN_PAT` or `TUPLE_PAT`; in particular an immediate `)` gives a
/// paren pattern and an immediate rest marker gives a tuple pattern.
fn tuple_pat(p: &mut Parser)
    requires
        old(p).wf(),
        old(p).cur() is L_PAREN,
    ensures
        final(p).wf(),
        evolves(*old(p), *final(p)),
        final(p).rem() < old(p).rem(),
        final(p).events@.len() > old(p).events@.len(),
        final(p).events@[old(p).events@.len() as int] matches Event::Start {
            kind: k,
            forward_parent: fp,
        } && fp is None && (k is PAREN_PAT || k is TUPLE_PAT) && (old(
            p,
        ).lexer.lookahead_spec(1).kind is R_PAREN ==> k is PAREN_PAT) && (old(
            p,
        ).lexer.lookahead_spec(1).kind is DOTDOT ==> k is TUPLE_PAT),
    decreases old(p).rem(), 2int,
{
    let m = p.start();
    let ghost s0 = *p;
    p.bump(SyntaxKind::L_PAREN);
    proof {
        lemma_marker_preserved(m, s0, *p);
    }
    let mut has_comma = false;
    let mut has_rest = false;
    let ghost pre = *p;
    loop
        invariant
            p.wf(),
            evolves(pre, *p),
            p.rem() < old(p).rem(),
            m.wf(*p),
            m.untargeted(*p),
            pre.cur() is R_PAREN ==> !has_comma && !has_rest && p.cur() is R_PAREN,
            pre.cur() is DOTDOT ==> has_rest || p.cur() is DOTDOT,
        ensures
            p.wf(),
            evolves(pre, *p),
            p.rem() < old(p).rem(),
            m.wf(*p),
            m.untargeted(*p),
            pre.cur() is R_PAREN ==> !has_comma && !has_rest,
            pre.cur() is DOTDOT ==> has_rest,
        decreases p.rem(),
    {
        if p.at(SyntaxKind::EOF) || p.at(SyntaxKind::R_PAREN) {
            break;
        }
        let first = pattern_first_set();
        if !p.at_ts(&first) {
            let ghost s1 = *p;
            p.error("expected a pattern");
            proof {
                lemma_marker_preserved(m, s1, *p);
            }
            break;
        }
        if p.at(SyntaxKind::DOTDOT) {
            has_rest = true;
        }
        let start_pos: usize = p.lexer.cur_start;
        let ghost s2 = *p;
        pattern(p);
        proof {
            lemma_marker_preserved(m, s2, *p);
        }
        if p.at(SyntaxKind::R_PAREN) {
            break;
        }
        has_comma = true;
        let ghost s3 = *p;
        let ate = p.expect(SyntaxKind::COMMA);
        proof {
            lemma_marker_preserved(m, s3, *p);
        }
        if p.lexer.cur_start == start_pos {
            // no progress: neither a pattern nor a comma was consumed
            break;
        }
    }
    let ghost s4 = *p;
    let ate = p.expect(SyntaxKind::R_PAREN);
    proof {
        lemma_marker_preserved(m, s4, *p);
    }
    // no comma and no rest marker means a paren pattern; empty
    // parentheses stay a paren pattern (they match a unit value)
    let kind = if !has_comma && !has_rest {
        SyntaxKind::PAREN_PAT
    } else {
        SyntaxKind::TUPLE_PAT
    };
    let cm = m.complete(p, kind);
}

fn path_pat(p: &mut Parser)
    requires
        old(p).wf(),
        old(p).cur() is IDENT,
    ensures
        final(p).wf(),
        evolves(*old(p), *final(p)),
        final(p).events@.len() > old(p).events@.len(),
        final(p).events@[old(p).events@.len() as int] matches Event::Start {
            kind: k,
            forward_parent: fp,
        } && fp is None && (k is RECORD_PAT || k is PATH_PAT),
    decreases old(p).rem(), 6int,
{
    let m = p.start();
    let ghost s0 = *p;
    paths::expr_path(p);
    proof {
        lemma_marker_preserved(m, s0, *p);
    }
    let kind = if p.at(SyntaxKind::L_BRACE) {
        let ghost s1 = *p;
        record_pat_field_list(p);
        proof {
            lemma_marker_preserved(m, s1, *p);
        }
        SyntaxKind::RECORD_PAT
    } else {
        SyntaxKind::PATH_PAT
    };
    let cm = m.complete(p, kind);
}

fn record_pat_field_list(p: &mut Parser)
    requires
        old(p).wf(),
        old(p).cur() is L_BRACE,
    ensures
        final(p).wf(),
        evolves(*old(p), *final(p)),
        final(p).rem() < old(p).rem(),
    decreases old(p).rem(), 1int,
{
    let m = p.start();
    let ghost s0 = *p;
    p.bump(SyntaxKind::L_BRACE);
    proof {
        lemma_marker_preserved(m, s0, *p);
    }
    let ghost pre = *p;
    loop
        invariant
            p.wf(),
            evolves(pre, *p),
            p.rem() < old(p).rem(),
            m.wf(*p),
            m.untargeted(*p),
        ensures
            p.wf(),
            evolves(pre, *p),
            p.rem() < old(p).rem(),
            m.wf(*p),
            m.untargeted(*p),
        decreases p.rem(),
    {
        if p.at(SyntaxKind::EOF) || p.at(SyntaxKind::R_BRACE) {
            break;
        }
        let start_pos: usize = p.lexer.cur_start;
        if p.at(SyntaxKind::DOTDOT) {
            // a trailing `..` is *not* treated as a REST_PAT here
            let ghost s1 = *p;
            p.bump(SyntaxKind::DOTDOT);
            proof {
                lemma_marker_preserved(m, s1, *p);
            }
        } else if p.at(SyntaxKind::L_BRACE) {
            let ghost s2 = *p;
            error_block(p, "expected ident");
            proof {
                lemma_marker_preserved(m, s2, *p);
            }
        } else {
            let ghost it0 = *p;
            let field = p.start();
            proof {
                lemma_marker_preserved(m, it0, *p);
            }
            let ghost s3 = *p;
            if p.at(SyntaxKind::IDENT) && p.nth(1) == SyntaxKind::COLON {
                name_ref(p);
                proof {
                    lemma_marker_preserved(m, s3, *p);
                    lemma_marker_preserved(field, s3, *p);
                }
                let ghost s4 = *p;
                let colon = p.expect(SyntaxKind::COLON);
                proof {
                    lemma_marker_preserved(m, s4, *p);
                    lemma_marker_preserved(field, s4, *p);
                }
                let ghost s5 = *p;
                pattern(p);
                proof {
                    lemma_marker_preserved(m, s5, *p);
                    lemma_marker_preserved(field, s5, *p);
                }
            } else {
                ident_pat(p);
                proof {
                    lemma_marker_preserved(m, s3, *p);
                    lemma_marker_preserved(field, s3, *p);
                }
            }
            let ghost s6 = *p;
            let cm = field.complete(p, SyntaxKind::RECORD_PAT_FIELD);
            proof {
                crate::parser::lemma_marker_preserved_from(m, s6, *p, field.pos as int);
            }
        }
        if p.at(SyntaxKind::R_BRACE) {
            break;
        }
        let ghost s6 = *p;
        let ate = p.expect(SyntaxKind::COMMA);
        proof {
            lemma_marker_preserved(m, s6, *p);
        }
        if p.lexer.cur_start == start_pos {
            break;
        }
    }
    let ghost s7 = *p;
    let ate = p.expect(SyntaxKind::R_BRACE);
    proof {
        lemma_marker_preserved(m, s7, *p);
    }
    let cm = m.complete(p, SyntaxKind::RECORD_PAT_FIELD_LIST);
}

fn wildcard_pat(p: &mut Parser)
    requires
        old(p).wf(),
        old(p).cur() is WILDCARD,
    ensures
        final(p).wf(),
        evolves(*old(p), *final(p)),
        final(p).rem() < old(p).rem(),
        final(p).events@.len() > old(p).events@.len(),
        final(p).events@[old(p).events@.len() as int] == (Event::Start {
            kind: SyntaxKind::WILDCARD_PAT,
            forward_parent: None,
        }),
    decreases old(p).rem(), 1int,
{
    let m = p.start();
    let ghost s0 = *p;
    p.bump(SyntaxKind::WILDCARD);
    proof {
        lemma_marker_preserved(m, s0, *p);
    }
    let cm = m.complete(p, SyntaxKind::WILDCARD_PAT);
}

fn rest_pat(p: &mut Parser)
    requires
        old(p).wf(),
        old(p).cur() is DOTDOT,
    ensures
        final(p).wf(),
        evolves(*old(p), *final(p)),
        final(p).rem() < old(p).rem(),
        final(p).events@.len() > old(p).events@.len(),
        final(p).events@[old(p).events@.len() as int] == (Event::Start {
            kind: SyntaxKind::REST_PAT,
            forward_parent: None,
        }),
    decreases old(p).rem(), 1int,
{
    let m = p.start();
    let ghost s0 = *p;
    p.bump(SyntaxKind::DOTDOT);
    proof {
        lemma_marker_preserved(m, s0, *p);
    }
    let cm = m.complete(p, SyntaxKind::REST_PAT);
}

fn ident_pat(p: &mut Parser)
    requires
        old(p).wf(),
    ensures
        final(p).wf(),
        evolves(*old(p), *final(p)),
        final(p).events@.len() > old(p).events@.len(),
        final(p).events@[old(p).events@.len() as int] == (Event::Start {
            kind: SyntaxKind::IDENT_PAT,
            forward_parent: None,
        }),
    decreases old(p).rem(), 3int,
{
    let m = p.start();
    let ghost s0 = *p;
    let ate = p.eat(SyntaxKind::MUT_KW);
    proof {
        lemma_marker_preserved(m, s0, *p);
    }
    let ghost s1 = *p;
    name(p);
    proof {
        lemma_marker_preserved(m, s1, *p);
    }
    let cm = m.complete(p, SyntaxKind::IDENT_PAT);
}

} // verus!
