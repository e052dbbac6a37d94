//! Expressions: a Pratt binding-power loop over a recursive-descent
//! core.
//!
//! `expr_bp(min_bp)` parses a left-hand side and then repeatedly consumes
//! infix operators whose binding power is at least `min_bp`, wrapping the
//! completed left-hand side into a `BIN_EXPR` via `precede`; the right
//! operand re-enters at `op_bp + 1`, which makes every operator
//! left-associative, and higher powers bind tighter.  Postfix call and
//! field expressions are applied directly after the atom, before the
//! Pratt loop sees them, so they bind tighter than any infix operator.

use vstd::prelude::*;
use crate::event::Event;
use crate::grammar::{atom, name_ref, error_block, types};
use crate::grammar::patterns::pattern;
use crate::marker::{CompletedMarker, Marker};
use crate::parser::{
    evolves, evolves_from, lemma_marker_preserved, lemma_marker_preserved_from, Parser,
};
use crate::syntax_kind::SyntaxKind;

verus! {

/// Whether a statement requires, forbids, or tolerates a trailing
/// semicolon; block bodies use `Optional` so the final statement may be a
/// trailing expression.
pub(crate) enum StmtWithSemi {
    Yes,
    No,
    Optional,
}

/// The binding powers of the infix operators (higher binds tighter); a
/// non-operator reports power 0.
pub open spec fn op_power(k: SyntaxKind) -> int {
    if k is PIPE {
        6
    } else if k is GT {
        5
    } else if k is EQ {
        1
    } else if k is LT {
        5
    } else if k is PLUS {
        10
    } else if k is CARET {
        7
    } else if k is MOD {
        11
    } else if k is AMP {
        8
    } else if k is SLASH {
        11
    } else if k is STAR {
        11
    } else if k is MINUS {
        10
    } else {
        0
    }
}

/// Looks up the binding power of the current token; `(0, ATSIGN)` stands
/// for "not an operator".
fn current_op(p: &Parser) -> (r: (u8, SyntaxKind))
    requires
        p.wf(),
    ensures
        r.0 as int == op_power(p.cur()),
        r.0 >= 1 ==> r.1 == p.cur() && !(r.1 is EOF),
        r.0 <= 11,
{
    let kind = p.current();
    if kind == SyntaxKind::PIPE {
        (6, SyntaxKind::PIPE)
    } else if kind == SyntaxKind::GT {
        (5, SyntaxKind::GT)
    } else if kind == SyntaxKind::EQ {
        (1, SyntaxKind::EQ)
    } else if kind == SyntaxKind::LT {
        (5, SyntaxKind::LT)
    } else if kind == SyntaxKind::PLUS {
        (10, SyntaxKind::PLUS)
    } else if kind == SyntaxKind::CARET {
        (7, SyntaxKind::CARET)
    } else if kind == SyntaxKind::MOD {
        (11, SyntaxKind::MOD)
    } else if kind == SyntaxKind::AMP {
        (8, SyntaxKind::AMP)
    } else if kind == SyntaxKind::SLASH {
        (11, SyntaxKind::SLASH)
    } else if kind == SyntaxKind::STAR {
        (11, SyntaxKind::STAR)
    } else if kind == SyntaxKind::MINUS {
        (10, SyntaxKind::MINUS)
    } else {
        (0, SyntaxKind::ATSIGN)
    }
}

pub(crate) fn expr(p: &mut Parser) -> (r: Option<CompletedMarker>)
    requires
        old(p).wf(),
    ensures
        final(p).wf(),
        evolves(*old(p), *final(p)),
        match r {
            Some(cm) => cm.wf(*final(p)) && cm.start_pos as int >= old(p).events@.len(),
            None => true,
        },
        r is Some ==> op_power(final(p).cur()) == 0,
    decreases old(p).rem(), 10int,
{
    let r = expr_bp(p, 1);
    proof {
        if r is Some {
            assert(op_power(p.cur()) >= 0);
        }
    }
    r
}

/// Parses an expression with binding power of at least `bp`: every infix
/// operator it consumes binds with power `bp` or more, so when it
/// returns it stands on a token whose power is below `bp` — the
/// invariant that makes higher powers bind tighter and, with the right
/// operand re-entering at `op_bp + 1`, equal powers group to the left.
fn expr_bp(p: &mut Parser, bp: u8) -> (r: Option<CompletedMarker>)
    requires
        old(p).wf(),
        bp >= 1,
    ensures
        final(p).wf(),
        evolves(*old(p), *final(p)),
        match r {
            Some(cm) => cm.wf(*final(p)) && cm.start_pos as int >= old(p).events@.len(),
            None => true,
        },
        r is Some ==> op_power(final(p).cur()) < bp,
    decreases old(p).rem(), 9int,
{
    let ghost pre = *p;
    let lhs_opt = lhs(p);
    let mut lh = match lhs_opt {
        Some(cm) => cm,
        None => {
            return None;
        },
    };
    loop
        invariant
            p.wf(),
            evolves(pre, *p),
            p.rem() <= old(p).rem(),
            bp >= 1,
            lh.wf(*p),
            lh.start_pos as int >= pre.events@.len(),
        ensures
            p.wf(),
            evolves(pre, *p),
            p.rem() <= old(p).rem(),
            lh.wf(*p),
            lh.start_pos as int >= pre.events@.len(),
            op_power(p.cur()) < bp,
        decreases p.rem(),
    {
        let (op_bp, op) = current_op(p);
        if op_bp < bp {
            break;
        }
        let m = lh.precede(p);
        let ghost s0 = *p;
        p.bump(op);
        proof {
            assert(p.events@[m.pos as int] == s0.events@[m.pos as int]);
        }
        let ghost s1 = *p;
        let rhs = expr_bp(p, op_bp + 1);
        proof {
            assert(p.events@[m.pos as int] == s1.events@[m.pos as int]);
        }
        lh = m.complete(p, SyntaxKind::BIN_EXPR);
    }
    Some(lh)
}

fn lhs(p: &mut Parser) -> (r: Option<CompletedMarker>)
    requires
        old(p).wf(),
    ensures
        final(p).wf(),
        evolves(*old(p), *final(p)),
        match r {
            Some(cm) => cm.wf(*final(p)) && cm.start_pos as int >= old(p).events@.len(),
            None => true,
        },
    decreases old(p).rem(), 8int,
{
    let kind = p.current();
    if kind == SyntaxKind::STAR || kind == SyntaxKind::BANG || kind == SyntaxKind::MINUS {
        let m = p.start();
        let ghost s0 = *p;
        p.bump_any();
        proof {
            lemma_marker_preserved(m, s0, *p);
        }
        let ghost s1 = *p;
        let inner = expr_bp(p, 255);
        proof {
            lemma_marker_preserved(m, s1, *p);
        }
        Some(m.complete(p, SyntaxKind::PREFIX_EXPR))
    } else {
        match atom::atom_expr(p) {
            Some(cm) => Some(postfix_expr(p, cm)),
            None => None,
        }
    }
}

fn postfix_expr(p: &mut Parser, lhs0: CompletedMarker) -> (cm: CompletedMarker)
    requires
        old(p).wf(),
        lhs0.wf(*old(p)),
    ensures
        final(p).wf(),
        crate::parser::evolves_from(*old(p), *final(p), lhs0.start_pos as int),
        cm.wf(*final(p)),
        cm.start_pos as int >= lhs0.start_pos as int,
    decreases old(p).rem(), 3int,
{
    let ghost pre = *p;
    let mut lh = lhs0;
    loop
        invariant
            p.wf(),
            crate::parser::evolves_from(pre, *p, lhs0.start_pos as int),
            p.rem() <= old(p).rem(),
            lh.wf(*p),
            lh.start_pos as int >= lhs0.start_pos as int,
        ensures
            p.wf(),
            crate::parser::evolves_from(pre, *p, lhs0.start_pos as int),
            p.rem() <= old(p).rem(),
            lh.wf(*p),
            lh.start_pos as int >= lhs0.start_pos as int,
        decreases p.rem(),
    {
        if p.at(SyntaxKind::L_PAREN) {
            lh = call_expr(p, lh);
        } else if p.at(SyntaxKind::DOT) {
            lh = field_expr(p, lh);
        } else {
            break;
        }
    }
    lh
}

fn call_expr(p: &mut Parser, lh: CompletedMarker) -> (cm: CompletedMarker)
    requires
        old(p).wf(),
        lh.wf(*old(p)),
        old(p).cur() is L_PAREN,
    ensures
        final(p).wf(),
        evolves_from(*old(p), *final(p), lh.start_pos as int),
        cm.wf(*final(p)),
        cm.start_pos as int >= lh.start_pos as int,
        final(p).rem() < old(p).rem(),
    decreases old(p).rem(), 2int,
{
    let m = lh.precede(p);
    let ghost s0 = *p;
    arg_list(p);
    proof {
        assert(p.events@[m.pos as int] == s0.events@[m.pos as int]);
    }
    m.complete(p, SyntaxKind::CALL_EXPR)
}

fn field_expr(p: &mut Parser, lh: CompletedMarker) -> (cm: CompletedMarker)
    requires
        old(p).wf(),
        lh.wf(*old(p)),
        old(p).cur() is DOT,
    ensures
        final(p).wf(),
        evolves_from(*old(p), *final(p), lh.start_pos as int),
        cm.wf(*final(p)),
        cm.start_pos as int >= lh.start_pos as int,
        final(p).rem() < old(p).rem(),
    decreases old(p).rem(), 1int,
{
    let m = lh.precede(p);
    let ghost s0 = *p;
    p.bump(SyntaxKind::DOT);
    proof {
        assert(p.events@[m.pos as int] == s0.events@[m.pos as int]);
    }
    if p.at(SyntaxKind::IDENT) {
        let ghost s1 = *p;
        name_ref(p);
        proof {
            assert(p.events@[m.pos as int] == s1.events@[m.pos as int]);
        }
    } else {
        let ghost s2 = *p;
        p.error("expected field name");
        proof {
            assert(p.events@[m.pos as int] == s2.events@[m.pos as int]);
        }
    }
    m.complete(p, SyntaxKind::DOT_EXPR)
}

fn arg_list(p: &mut Parser)
    requires
        old(p).wf(),
        old(p).cur() is L_PAREN,
    ensures
        final(p).wf(),
        evolves(*old(p), *final(p)),
        final(p).rem() < old(p).rem(),
    decreases old(p).rem(), 1int,
{
    let m = p.start();
    let ghost s0 = *p;
    p.bump(SyntaxKind::L_PAREN);
    proof {
        lemma_marker_preserved(m, s0, *p);
    }
    let ghost pre = *p;
    loop
        invariant
            p.wf(),
            evolves(pre, *p),
            p.rem() < old(p).rem(),
            m.wf(*p),
            m.untargeted(*p),
        ensures
            p.wf(),
            evolves(pre, *p),
            p.rem() < old(p).rem(),
            m.wf(*p),
            m.untargeted(*p),
        decreases p.rem(),
    {
        if p.at(SyntaxKind::R_PAREN) || p.at(SyntaxKind::EOF) {
            break;
        }
        let ghost s1 = *p;
        let parsed = expr(p);
        proof {
            lemma_marker_preserved(m, s1, *p);
        }
        if parsed.is_none() {
            break;
        }
        if p.at(SyntaxKind::R_PAREN) {
            break;
        }
        let ghost s2 = *p;
        let comma = p.expect(SyntaxKind::COMMA);
        proof {
            lemma_marker_preserved(m, s2, *p);
        }
        if !comma {
            break;
        }
    }
    let ghost s3 = *p;
    let ate = p.eat(SyntaxKind::R_PAREN);
    proof {
        lemma_marker_preserved(m, s3, *p);
    }
    let cm = m.complete(p, SyntaxKind::ARG_LIST);
}

fn let_stmt(p: &mut Parser, m: Marker, with_semi: StmtWithSemi)
    requires
        old(p).wf(),
        m.wf(*old(p)),
        m.untargeted(*old(p)),
        old(p).cur() is LET_KW,
    ensures
        final(p).wf(),
        evolves_from(*old(p), *final(p), m.pos as int),
        final(p).rem() < old(p).rem(),
        final(p).events@.len() > m.pos,
        final(p).events@[m.pos as int] == (Event::Start {
            kind: SyntaxKind::LET_STMT,
            forward_parent: None,
        }),
    decreases old(p).rem(), 1int,
{
    let ghost s0 = *p;
    p.bump(SyntaxKind::LET_KW);
    proof {
        lemma_marker_preserved(m, s0, *p);
    }
    let ghost s1 = *p;
    pattern(p);
    proof {
        lemma_marker_preserved(m, s1, *p);
    }
    if p.at(SyntaxKind::COLON) {
        let ghost s2 = *p;
        types::ascription(p);
        proof {
            lemma_marker_preserved(m, s2, *p);
        }
    }
    let ghost s3 = *p;
    let eq = p.eat(SyntaxKind::EQ);
    proof {
        lemma_marker_preserved(m, s3, *p);
    }
    if eq {
        let ghost s4 = *p;
        let e = expr(p);
        proof {
            lemma_marker_preserved(m, s4, *p);
        }
    }
    let ghost s5 = *p;
    stmt_semi(p, with_semi);
    proof {
        lemma_marker_preserved(m, s5, *p);
    }
    let cm = m.complete(p, SyntaxKind::LET_STMT);
}

/// Applies the caller's trailing-semicolon policy.
fn stmt_semi(p: &mut Parser, with_semi: StmtWithSemi)
    requires
        old(p).wf(),
    ensures
        final(p).wf(),
        evolves(*old(p), *final(p)),
    decreases old(p).rem(), 1int,
{
    match with_semi {
        StmtWithSemi::Yes => {
            let ate = p.expect(SyntaxKind::SEMICOLON);
        },
        StmtWithSemi::No => {},
        StmtWithSemi::Optional => {
            if p.at(SyntaxKind::SEMICOLON) {
                let ate = p.eat(SyntaxKind::SEMICOLON);
            }
        },
    }
}

pub(crate) fn stmt(p: &mut Parser, with_semi: StmtWithSemi)
    requires
        old(p).wf(),
    ensures
        final(p).wf(),
        evolves(*old(p), *final(p)),
        final(p).events@.len() > old(p).events@.len(),
        final(p).events@[old(p).events@.len() as int] == (Event::Start {
            kind: if old(p).cur() is LET_KW {
                SyntaxKind::LET_STMT
            } else {
                SyntaxKind::EXPR_STMT
            },
            forward_parent: None,
        }),
    decreases old(p).rem(), 11int,
{
    let m = p.start();
    if p.at(SyntaxKind::LET_KW) {
        let_stmt(p, m, with_semi);
        return;
    }
    let ghost s0 = *p;
    let e = expr(p);
    proof {
        lemma_marker_preserved(m, s0, *p);
    }
    let ghost s1 = *p;
    stmt_semi(p, with_semi);
    proof {
        lemma_marker_preserved(m, s1, *p);
    }
    let cm = m.complete(p, SyntaxKind::EXPR_STMT);
}

/// `S { x, y: 32, }`: the field list of a record expression.
pub(crate) fn record_expr_field_list(p: &mut Parser)
    requires
        old(p).wf(),
        old(p).cur() is L_BRACE,
    ensures
        final(p).wf(),
        evolves(*old(p), *final(p)),
        final(p).rem() < old(p).rem(),
    decreases old(p).rem(), 1int,
{
    let m = p.start();
    let ghost s0 = *p;
    p.bump(SyntaxKind::L_BRACE);
    proof {
        lemma_marker_preserved(m, s0, *p);
    }
    let ghost pre = *p;
    loop
        invariant
            p.wf(),
            evolves(pre, *p),
            p.rem() < old(p).rem(),
            m.wf(*p),
            m.untargeted(*p),
        ensures
            p.wf(),
            evolves(pre, *p),
            p.rem() < old(p).rem(),
            m.wf(*p),
            m.untargeted(*p),
        decreases p.rem(),
    {
        if p.at(SyntaxKind::EOF) || p.at(SyntaxKind::R_BRACE) {
            break;
        }
        let start_pos: usize = p.lexer.cur_start;
        let kind = p.current();
        if kind == SyntaxKind::IDENT || kind == SyntaxKind::INTEGER_NUMBER {
            let ghost it0 = *p;
            let field = p.start();
            proof {
                lemma_marker_preserved(m, it0, *p);
            }
            if p.nth_at(1, SyntaxKind::COLON) {
                let ghost s1 = *p;
                name_ref(p);
                proof {
                    lemma_marker_preserved(m, s1, *p);
                    lemma_marker_preserved(field, s1, *p);
                }
                let ghost s2 = *p;
                let colon = p.expect(SyntaxKind::COLON);
                proof {
                    lemma_marker_preserved(m, s2, *p);
                    lemma_marker_preserved(field, s2, *p);
                }
            }
            let ghost s3 = *p;
            let e = expr(p);
            proof {
                lemma_marker_preserved(m, s3, *p);
                lemma_marker_preserved(field, s3, *p);
            }
            let ghost s4 = *p;
            let cm = field.complete(p, SyntaxKind::RECORD_EXPR_FIELD);
            proof {
                lemma_marker_preserved_from(m, s4, *p, field.pos as int);
            }
        } else if kind == SyntaxKind::L_BRACE {
            let ghost it1 = *p;
            let field = p.start();
            proof {
                lemma_marker_preserved(m, it1, *p);
            }
            let ghost s5 = *p;
            error_block(p, "expected a field");
            proof {
                lemma_marker_preserved(m, s5, *p);
                lemma_marker_preserved(field, s5, *p);
            }
            let ghost s5b = *p;
            field.abandon(p);
            proof {
                lemma_marker_preserved_from(m, s5b, *p, field.pos as int);
            }
        } else {
            let ghost it2 = *p;
            let field = p.start();
            proof {
                lemma_marker_preserved(m, it2, *p);
            }
            let ghost s6 = *p;
            p.err_and_bump("expected identifier");
            proof {
                lemma_marker_preserved(m, s6, *p);
                lemma_marker_preserved(field, s6, *p);
            }
            let ghost s6b = *p;
            field.abandon(p);
            proof {
                lemma_marker_preserved_from(m, s6b, *p, field.pos as int);
            }
        }
        if p.at(SyntaxKind::R_BRACE) {
            break;
        }
        let ghost s7 = *p;
        let comma = p.expect(SyntaxKind::COMMA);
        proof {
            lemma_marker_preserved(m, s7, *p);
        }
        if p.lexer.cur_start == start_pos {
            break;
        }
    }
    let ghost s8 = *p;
    let ate = p.expect(SyntaxKind::R_BRACE);
    proof {
        lemma_marker_preserved(m, s8, *p);
    }
    let cm = m.complete(p, SyntaxKind::RECORD_EXPR_FIELD_LIST);
}

pub(crate) fn expr_block_contents(p: &mut Parser)
    requires
        old(p).wf(),
    ensures
        final(p).wf(),
        evolves(*old(p), *final(p)),
    decreases old(p).rem(), 12int,
{
    let ghost pre = *p;
    loop
        invariant
            p.wf(),
            evolves(pre, *p),
            p.rem() <= old(p).rem(),
        ensures
            p.wf(),
            evolves(pre, *p),
            p.rem() <= old(p).rem(),
        decreases p.rem(),
    {
        if p.at(SyntaxKind::EOF) || p.at(SyntaxKind::R_BRACE) {
            break;
        }
        if p.at(SyntaxKind::SEMICOLON) {
            p.bump(SyntaxKind::SEMICOLON);
            continue;
        }
        let start_pos: usize = p.lexer.cur_start;
        stmt(p, StmtWithSemi::Yes);
        if p.at(SyntaxKind::EOF) || p.at(SyntaxKind::R_BRACE) {
            break;
        }
        if p.lexer.cur_start == start_pos {
            p.force_bump_error("expected a statement");
        }
    }
}

} // verus!
