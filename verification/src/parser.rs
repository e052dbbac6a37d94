//! The parser core: the low-level API for walking the token stream and
//! emitting the flat event sequence.
//!
//! The actual grammar lives in the `grammar` modules; this type only
//! offers token tests (`at`, `nth_at`, `at_ts`), token consumption
//! (`bump`, `eat`, `expect`), node bracketing through markers (`start`),
//! and the error-recovery helpers.  Every operation preserves the event
//! stream's nesting invariant (`well_nested`) and never moves the lexer
//! backwards, which is what makes every grammar loop terminate.

use vstd::prelude::*;
use vstd::string::StringExecFns;
use crate::event::{
    finish_count, indeg_ok, links_ok, lemma_append_stable, open_count, well_nested, Event,
};
use crate::lexer::{Lexer, Token};
use crate::marker::{CompletedMarker, Marker};
use crate::syntax_kind::SyntaxKind;
use crate::token_set::TokenSet;
use crate::ParseError;

verus! {

/// The parser: a lexer over the input text plus the event log built so
/// far.
pub struct Parser {
    pub lexer: Lexer,
    pub events: Vec<Event>,
}

impl Parser {
    /// The lexer is consistent with the text and the event log is
    /// well-nested.
    pub open spec fn wf(self) -> bool {
        &&& self.lexer.wf()
        &&& well_nested(self.events@)
    }

    /// The kind of the current token (`EOF` at the end of input).
    pub open spec fn cur(self) -> SyntaxKind {
        self.lexer.token.kind
    }

    /// The termination measure: bytes of input not yet consumed.
    pub open spec fn rem(self) -> int {
        self.lexer.remaining()
    }

    pub fn new(lexer: Lexer) -> (p: Parser)
        requires
            lexer.wf(),
        ensures
            p.wf(),
            p.lexer == lexer,
            p.events@ =~= Seq::<Event>::empty(),
    {
        let p = Parser { lexer, events: Vec::new() };
        proof {
            assert(p.events@.len() == 0);
            assert(open_count(p.events@, 0) == 0);
            assert(finish_count(p.events@, 0) == 0);
        }
        p
    }

    /// Hands the built event log and the retained token history out.
    pub fn finish(self) -> (r: (Vec<Event>, Vec<Token>))
        ensures
            r.0@ == self.events@,
            r.1@ == self.lexer.all_tokens@,
    {
        (self.events, self.lexer.all_tokens)
    }

    /// Returns the kind of the current token.
    pub fn current(&self) -> (k: SyntaxKind)
        ensures
            k == self.cur(),
    {
        self.lexer.current().kind
    }

    /// Lookahead: the kind of the `n`-th token past the current one.
    pub fn nth(&self, n: usize) -> (k: SyntaxKind)
        requires
            self.wf(),
            n <= 2,
        ensures
            k == self.lexer.lookahead_spec(n as int).kind,
    {
        self.lexer.lookahead_nth(n).kind
    }

    /// Checks whether the current token is `kind`.
    pub fn at(&self, kind: SyntaxKind) -> (r: bool)
        requires
            self.wf(),
        ensures
            r == (self.cur() == kind),
    {
        self.nth_at(0, kind)
    }

    /// Checks whether the `n`-th lookahead token is `kind`.
    pub fn nth_at(&self, n: usize, kind: SyntaxKind) -> (r: bool)
        requires
            self.wf(),
            n <= 2,
        ensures
            r == (self.lexer.lookahead_spec(n as int).kind == kind),
    {
        self.lexer.lookahead_nth(n).kind == kind
    }

    /// Checks whether the current token is in `kinds`.
    pub fn at_ts(&self, kinds: &TokenSet) -> (r: bool)
        requires
            self.wf(),
        ensures
            r == kinds.spec_contains(self.cur()),
    {
        kinds.contains(self.current())
    }
}

/// How a parser may change across any grammar rule: the event log only
/// grows (positions below `lo` stay untouched), the text is fixed, and
/// the lexer never moves backwards.
pub open spec fn evolves_from(pre: Parser, post: Parser, lo: int) -> bool {
    &&& post.lexer.text@ == pre.lexer.text@
    &&& post.events@.len() >= lo
    &&& (forall|i: int| 0 <= i < lo ==> post.events@[i] == pre.events@[i])
    &&& post.rem() <= pre.rem()
}

/// `evolves_from` with the cut at the end of `pre`'s event log: nothing
/// already emitted is touched.
pub open spec fn evolves(pre: Parser, post: Parser) -> bool {
    evolves_from(pre, post, pre.events@.len() as int)
}

impl Parser {
    /// Starts a new node: pushes a tombstone `Start` event and returns a
    /// marker for it.
    pub fn start(&mut self) -> (m: Marker)
        requires
            old(self).wf(),
        ensures
            final(self).wf(),
            evolves(*old(self), *final(self)),
            final(self).lexer == old(self).lexer,
            final(self).events@ == old(self).events@.push(
                Event::Start { kind: SyntaxKind::TOMBSTONE, forward_parent: None },
            ),
            m.pos == old(self).events@.len(),
            m.wf(*final(self)),
            m.untargeted(*final(self)),
    {
        let pos = self.events.len();
        proof {
            lemma_append_stable(
                self.events@,
                Event::Start { kind: SyntaxKind::TOMBSTONE, forward_parent: None },
            );
            lemma_wf_after_inert(self.events@, Event::Start {
                kind: SyntaxKind::TOMBSTONE,
                forward_parent: None,
            });
        }
        self.events.push(Event::tombstone());
        Marker::new(pos)
    }

    /// Consumes the current token, recording a `Token` event for it.
    /// When the very next raw token is not trivia, it becomes current.
    pub fn do_bump(&mut self, kind: SyntaxKind, n_raw_tokens: u8)
        requires
            old(self).wf(),
            !(old(self).cur() is EOF),
        ensures
            final(self).wf(),
            evolves(*old(self), *final(self)),
            final(self).rem() < old(self).rem(),
            final(self).events@ == old(self).events@.push(
                Event::Token { kind, n_raw_tokens },
            ),
            !old(self).lexer.lookahead_spec(1).kind.is_trivia_spec() ==> final(self).cur() == old(
                self,
            ).lexer.lookahead_spec(1).kind,
    {
        let ghost pre_lexer = self.lexer;
        self.lexer.bump();
        proof {
            if !pre_lexer.lookahead_spec(1).kind.is_trivia_spec() {
                let app = self.lexer.all_tokens@.skip(pre_lexer.all_tokens@.len() as int);
                assert(app.take(0) =~= Seq::<crate::lexer::Token>::empty());
                assert(app[0].kind == pre_lexer.lookahead_spec(1).kind);
                assert(app.len() == 1) by {
                    if app.len() > 1 {
                        assert(app[0].kind.is_trivia_spec());
                    }
                }
                assert(app.last() == app[0]);
            }
            lemma_append_stable(self.events@, Event::Token { kind, n_raw_tokens });
            lemma_wf_after_inert(self.events@, Event::Token { kind, n_raw_tokens });
        }
        self.events.push(Event::Token { kind, n_raw_tokens });
    }

    /// Consumes the next token if its kind is `kind`, recording a
    /// `Token` event for it.
    pub fn eat(&mut self, kind: SyntaxKind) -> (r: bool)
        requires
            old(self).wf(),
            !(kind is EOF),
        ensures
            final(self).wf(),
            evolves(*old(self), *final(self)),
            r == (old(self).cur() == kind),
            r ==> final(self).rem() < old(self).rem(),
            r ==> final(self).events@ == old(self).events@.push(
                Event::Token { kind, n_raw_tokens: 1u8 },
            ),
            r && !old(self).lexer.lookahead_spec(1).kind.is_trivia_spec() ==> final(self).cur()
                == old(self).lexer.lookahead_spec(1).kind,
            !r ==> *final(self) == *old(self),
    {
        if !self.at(kind) {
            return false;
        }
        self.do_bump(kind, 1);
        true
    }

    /// Consumes the next token, asserting that its kind is `kind`.
    pub fn bump(&mut self, kind: SyntaxKind)
        requires
            old(self).wf(),
            old(self).cur() == kind,
            !(kind is EOF),
        ensures
            final(self).wf(),
            evolves(*old(self), *final(self)),
            final(self).rem() < old(self).rem(),
            !old(self).lexer.lookahead_spec(1).kind.is_trivia_spec() ==> final(self).cur() == old(
                self,
            ).lexer.lookahead_spec(1).kind,
    {
        let ate = self.eat(kind);
    }

    /// Advances the parser by one token, recording a `Token` event of the
    /// consumed kind; a no-op at `EOF`.
    pub fn bump_any(&mut self)
        requires
            old(self).wf(),
        ensures
            final(self).wf(),
            evolves(*old(self), *final(self)),
            old(self).cur() is EOF ==> *final(self) == *old(self),
            !(old(self).cur() is EOF) ==> final(self).rem() < old(self).rem(),
            !(old(self).cur() is EOF) ==> final(self).events@ == old(self).events@.push(
                Event::Token { kind: old(self).cur(), n_raw_tokens: 1u8 },
            ),
            !(old(self).cur() is EOF) && !old(self).lexer.lookahead_spec(1).kind.is_trivia_spec()
                ==> final(self).cur() == old(self).lexer.lookahead_spec(1).kind,
    {
        let kind = self.current();
        if kind == SyntaxKind::EOF {
            return;
        }
        self.do_bump(kind, 1);
    }

    /// Records an error event carrying the given message; consumes
    /// nothing.
    pub fn error(&mut self, message: &str)
        requires
            old(self).wf(),
        ensures
            final(self).wf(),
            evolves(*old(self), *final(self)),
            final(self).lexer == old(self).lexer,
            final(self).events@.len() == old(self).events@.len() + 1,
            final(self).events@.last() matches Event::Error { msg } && msg.message@ == message@,
    {
        let msg = ParseError { message: String::from_str(message) };
        proof {
            lemma_append_stable(self.events@, Event::Error { msg: msg });
            lemma_wf_after_inert(self.events@, Event::Error { msg: msg });
        }
        self.events.push(Event::Error { msg });
    }

    /// Consumes the next token if it is `kind`, recording its `Token`
    /// event; otherwise records an error event and consumes nothing.
    pub fn expect(&mut self, kind: SyntaxKind) -> (r: bool)
        requires
            old(self).wf(),
            !(kind is EOF),
        ensures
            final(self).wf(),
            evolves(*old(self), *final(self)),
            r == (old(self).cur() == kind),
            r ==> final(self).rem() < old(self).rem(),
            r ==> final(self).events@ == old(self).events@.push(
                Event::Token { kind, n_raw_tokens: 1u8 },
            ),
            !r ==> final(self).rem() == old(self).rem(),
            !r ==> final(self).events@.len() == old(self).events@.len() + 1,
            !r ==> final(self).events@.last() matches Event::Error { .. },
    {
        if self.eat(kind) {
            return true;
        }
        self.error("expected a different token");
        false
    }

    /// Error recovery: at a block boundary or a recovery token, an error
    /// event is recorded and nothing is consumed; otherwise the offending
    /// token is wrapped in an `ERROR` node — a `Start`, the error, the
    /// token and a `Finish` — and parsing continues past it.
    pub fn err_recover(&mut self, message: &str, recovery: &TokenSet)
        requires
            old(self).wf(),
        ensures
            final(self).wf(),
            evolves(*old(self), *final(self)),
            ({
                let boundary = old(self).cur() is L_BRACE || old(self).cur() is R_BRACE || old(
                    self,
                ).cur() is EOF || recovery.spec_contains(old(self).cur());
                &&& (boundary ==> {
                    &&& final(self).lexer == old(self).lexer
                    &&& final(self).events@.len() == old(self).events@.len() + 1
                    &&& (final(self).events@.last() matches Event::Error { .. })
                })
                &&& (!boundary ==> {
                    &&& final(self).rem() < old(self).rem()
                    &&& final(self).events@.len() == old(self).events@.len() + 4
                    &&& final(self).events@[old(self).events@.len() as int] == (Event::Start {
                        kind: SyntaxKind::ERROR,
                        forward_parent: None,
                    })
                    &&& (final(self).events@[old(self).events@.len() as int + 1] matches Event::Error {
                        ..
                    })
                    &&& final(self).events@[old(self).events@.len() as int + 2] == (Event::Token {
                        kind: old(self).cur(),
                        n_raw_tokens: 1u8,
                    })
                    &&& final(self).events@.last() is Finish
                })
            }),
    {
        let kind = self.current();
        if kind == SyntaxKind::L_BRACE || kind == SyntaxKind::R_BRACE {
            self.error(message);
            return;
        }
        if self.at_ts(recovery) {
            self.error(message);
            return;
        }
        if kind == SyntaxKind::EOF {
            self.error(message);
            return;
        }
        let m = self.start();
        let ghost s1 = *self;
        self.error(message);
        proof {
            lemma_marker_preserved(m, s1, *self);
        }
        let ghost s2 = *self;
        self.bump_any();
        proof {
            lemma_marker_preserved(m, s2, *self);
        }
        let cm = m.complete(self, SyntaxKind::ERROR);
    }

    /// Reports an error and unconditionally wraps the current token in an
    /// `ERROR` node — a `Start`, the error, the token and a `Finish`;
    /// used where recovery must make progress.
    pub fn force_bump_error(&mut self, message: &str)
        requires
            old(self).wf(),
            !(old(self).cur() is EOF),
        ensures
            final(self).wf(),
            evolves(*old(self), *final(self)),
            final(self).rem() < old(self).rem(),
            final(self).events@.len() == old(self).events@.len() + 4,
            final(self).events@[old(self).events@.len() as int] == (Event::Start {
                kind: SyntaxKind::ERROR,
                forward_parent: None,
            }),
            final(self).events@[old(self).events@.len() as int + 1] matches Event::Error { .. },
            final(self).events@[old(self).events@.len() as int + 2] == (Event::Token {
                kind: old(self).cur(),
                n_raw_tokens: 1u8,
            }),
            final(self).events@.last() is Finish,
    {
        let m = self.start();
        let ghost s1 = *self;
        self.error(message);
        proof {
            lemma_marker_preserved(m, s1, *self);
        }
        let ghost s2 = *self;
        self.bump_any();
        proof {
            lemma_marker_preserved(m, s2, *self);
        }
        let cm = m.complete(self, SyntaxKind::ERROR);
    }

    /// Creates an error node and consumes the next token.
    pub fn err_and_bump(&mut self, message: &str)
        requires
            old(self).wf(),
        ensures
            final(self).wf(),
            evolves(*old(self), *final(self)),
            (old(self).cur() is L_BRACE || old(self).cur() is R_BRACE || old(self).cur() is EOF)
                ==> final(self).rem() == old(self).rem(),
            !(old(self).cur() is L_BRACE || old(self).cur() is R_BRACE || old(self).cur() is EOF)
                ==> final(self).rem() < old(self).rem(),
    {
        let empty = TokenSet::empty();
        self.err_recover(message, &empty);
    }

    /// Reports an error and skips tokens until one of `end_tokens` (or
    /// `EOF`) is reached, wrapping everything skipped in an `ERROR` node:
    /// the node holds the error event followed by one `Token` event per
    /// skipped token.
    pub fn error_and_skip_until(&mut self, message: &str, end_tokens: &TokenSet) -> (cm:
        CompletedMarker)
        requires
            old(self).wf(),
        ensures
            final(self).wf(),
            evolves(*old(self), *final(self)),
            cm.wf(*final(self)),
            cm.kind is ERROR,
            cm.start_pos == old(self).events@.len(),
            cm.finish_pos as int == final(self).events@.len() - 1,
            final(self).events@[cm.start_pos as int] == (Event::Start {
                kind: SyntaxKind::ERROR,
                forward_parent: None,
            }),
            final(self).events@[cm.start_pos as int + 1] matches Event::Error { .. },
            final(self).events@.last() is Finish,
            forall|j: int|
                cm.start_pos + 2 <= j < final(self).events@.len() - 1
                    ==> (#[trigger] final(self).events@[j]) is Token,
            end_tokens.spec_contains(final(self).cur()) || final(self).cur() is EOF,
            (end_tokens.spec_contains(old(self).cur()) || old(self).cur() is EOF)
                ==> final(self).rem() == old(self).rem(),
    {
        let ghost pre = *self;
        let m = self.start();
        let ghost s1 = *self;
        self.error(message);
        proof {
            lemma_marker_preserved(m, s1, *self);
        }
        let ghost mid = *self;
        loop
            invariant
                self.wf(),
                m.wf(*self),
                m.untargeted(*self),
                evolves(mid, *self),
                evolves(pre, *self),
                m.pos == pre.events@.len(),
                self.lexer.text@ == pre.lexer.text@,
                self.events@.len() >= m.pos + 2,
                self.events@[m.pos as int + 1] matches Event::Error { .. },
                forall|j: int|
                    m.pos + 2 <= j < self.events@.len() ==> (#[trigger] self.events@[j]) is Token,
                (end_tokens.spec_contains(pre.cur()) || pre.cur() is EOF) ==> self.lexer
                    == pre.lexer,
            ensures
                self.wf(),
                m.wf(*self),
                m.untargeted(*self),
                evolves(pre, *self),
                m.pos == pre.events@.len(),
                self.events@.len() >= m.pos + 2,
                self.events@[m.pos as int + 1] matches Event::Error { .. },
                forall|j: int|
                    m.pos + 2 <= j < self.events@.len() ==> (#[trigger] self.events@[j]) is Token,
                end_tokens.spec_contains(self.cur()) || self.cur() is EOF,
                (end_tokens.spec_contains(pre.cur()) || pre.cur() is EOF) ==> self.lexer
                    == pre.lexer,
            decreases self.rem(),
        {
            if self.at_ts(end_tokens) {
                break;
            }
            if self.at(SyntaxKind::EOF) {
                break;
            }
            let ghost before = *self;
            self.bump_any();
            proof {
                lemma_marker_preserved(m, before, *self);
            }
        }
        let cm = m.complete(self, SyntaxKind::ERROR);
        cm
    }
}

/// A marker stays pending and untargeted across any rule that leaves
/// every event position below `lo` alone, as long as `lo` is above the
/// marker: forward-parent links always point forward, so nothing at or
/// beyond `lo` can link back down at the marker.
pub proof fn lemma_marker_preserved_from(m: Marker, pre: Parser, post: Parser, lo: int)
    requires
        m.wf(pre),
        m.untargeted(pre),
        evolves_from(pre, post, lo),
        (m.pos as int) < lo,
        lo <= pre.events@.len(),
        links_ok(post.events@),
    ensures
        m.wf(post),
        m.untargeted(post),
{
    assert(post.events@[m.pos as int] == pre.events@[m.pos as int]);
    assert forall|j: int| !crate::event::link(post.events@, j, m.pos as int) by {
        if crate::event::link(post.events@, j, m.pos as int) {
            if j < lo {
                assert(post.events@[j] == pre.events@[j]);
                assert(crate::event::link(pre.events@, j, m.pos as int));
            } else {
                assert(j < m.pos as int) by {
                    assert(crate::event::fp_target(post.events@, j) == Some(m.pos as int));
                }
            }
        }
    }
}

/// A marker stays pending and untargeted across any rule that only
/// appends to the event log.
pub proof fn lemma_marker_preserved(m: Marker, pre: Parser, post: Parser)
    requires
        m.wf(pre),
        m.untargeted(pre),
        evolves(pre, post),
        links_ok(post.events@),
    ensures
        m.wf(post),
        m.untargeted(post),
{
    lemma_marker_preserved_from(m, pre, post, pre.events@.len() as int);
}

/// A completed marker stays valid across any rule that only appends.
pub proof fn lemma_cm_preserved(cm: CompletedMarker, pre: Parser, post: Parser)
    requires
        cm.wf(pre),
        evolves(pre, post),
        post.events@.len() >= pre.events@.len(),
    ensures
        cm.wf(post),
{
    assert(post.events@[cm.start_pos as int] == pre.events@[cm.start_pos as int]);
}

/// Appending an inert event keeps the log well-nested.
proof fn lemma_wf_after_inert(es: Seq<Event>, e: Event)
    requires
        well_nested(es),
        crate::event::inert_evt(e),
        !(e is Finish),
    ensures
        well_nested(es.push(e)),
{
    lemma_append_stable(es, e);
    let es2 = es.push(e);
    let len = es.len() as int;
    assert forall|n: int| 0 <= n <= es2.len() implies #[trigger] finish_count(es2, n)
        <= open_count(es2, n) by {
        if n <= len {
            assert(finish_count(es2, n) == finish_count(es, n));
            assert(open_count(es2, n) == open_count(es, n));
        } else {
            assert(open_count(es2, len + 1) == open_count(es, len));
            assert(finish_count(es2, len + 1) == finish_count(es, len) + (if e is Finish {
                1int
            } else {
                0int
            }));
            assert(finish_count(es, len) == open_count(es, len));
            assert(!(e is Finish));
        }
    }
    assert(open_count(es2, len + 1) == finish_count(es2, len + 1)) by {
        assert(!(e is Finish));
        assert(finish_count(es, len) == open_count(es, len));
    }
}

} // verus!
