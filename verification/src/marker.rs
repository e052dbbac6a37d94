//! Markers: handles to not-yet-finalized node positions in the event log.
//!
//! `Parser::start` pushes a tombstone `Start` event and hands back a
//! `Marker` for it.  A `Marker` must be either completed (the tombstone
//! takes a real kind and a matching `Finish` is appended) or abandoned;
//! both consume the marker by value, so forgetting to do either is a move
//! error at compile time rather than a runtime defect.  A
//! `CompletedMarker` supports `precede`: starting a new node that will
//! become the parent of the completed one, recorded as a forward-parent
//! offset on the completed node's `Start` event.

use vstd::prelude::*;
use crate::event::{
    fp_target, has_pred, indeg_ok, inert_evt, link, links_ok, lemma_append_stable,
    lemma_complete_stable, lemma_pop_stable, lemma_precede_stable, open_count, origin,
    precede_result, finish_count, Event,
};
use crate::parser::{evolves, evolves_from, Parser};
use crate::syntax_kind::SyntaxKind;

verus! {

/// A pending node: the position of a tombstone `Start` event that still
/// has to be completed or abandoned.
pub struct Marker {
    pub pos: usize,
}

impl Marker {
    /// The marker denotes a pending tombstone in `p`'s event log.
    pub open spec fn wf(self, p: Parser) -> bool {
        &&& self.pos < p.events@.len()
        &&& p.events@[self.pos as int] == (Event::Start {
            kind: SyntaxKind::TOMBSTONE,
            forward_parent: None,
        })
    }

    /// No forward-parent link points at the marker's position.  Markers
    /// created by `Parser::start` stay untargeted for their whole life;
    /// only markers created by `precede` are targeted.
    pub open spec fn untargeted(self, p: Parser) -> bool {
        !has_pred(p.events@, self.pos as int)
    }

    pub fn new(pos: usize) -> (m: Marker)
        ensures
            m.pos == pos,
    {
        Marker { pos }
    }

    /// Finishes the node: the tombstone takes `kind` and a `Finish` event
    /// is appended.  Exactly one more node is opened by resolution, at the
    /// first member of this marker's forward-parent chain.
    pub fn complete(self, p: &mut Parser, kind: SyntaxKind) -> (cm: CompletedMarker)
        requires
            old(p).wf(),
            self.wf(*old(p)),
            !(kind is TOMBSTONE),
        ensures
            final(p).wf(),
            evolves_from(*old(p), *final(p), self.pos as int),
            final(p).lexer == old(p).lexer,
            final(p).events@ == old(p).events@.update(
                self.pos as int,
                Event::Start { kind, forward_parent: None },
            ).push(Event::Finish),
            cm.wf(*final(p)),
            cm.kind == kind,
            cm.start_pos == self.pos,
            cm.finish_pos == old(p).events@.len(),
            ({
                let r = origin(old(p).events@, self.pos as int);
                &&& 0 <= r <= self.pos
                &&& (self.untargeted(*old(p)) ==> r == self.pos as int)
                &&& forall|n: int|
                    0 <= n <= old(p).events@.len() ==> #[trigger] open_count(
                        final(p).events@,
                        n,
                    ) == open_count(old(p).events@, n) + (if r < n {
                        1int
                    } else {
                        0int
                    })
                &&& forall|n: int|
                    0 <= n <= old(p).events@.len() ==> #[trigger] finish_count(
                        final(p).events@,
                        n,
                    ) == finish_count(old(p).events@, n)
            }),
    {
        let ghost es0 = p.events@;
        let idx = self.pos;
        let finish_pos = p.events.len();
        proof {
            lemma_complete_stable(es0, idx as int, kind);
        }
        p.events[idx] = Event::Start { kind, forward_parent: None };
        let ghost es1 = p.events@;
        proof {
            lemma_append_stable(es1, Event::Finish);
        }
        p.events.push(Event::Finish);
        proof {
            let es2 = p.events@;
            let len = es0.len() as int;
            let r = origin(es0, idx as int);
            assert forall|n: int| 0 <= n <= len + 1 implies #[trigger] finish_count(es2, n)
                <= open_count(es2, n) by {
                if n <= len {
                    assert(finish_count(es2, n) == finish_count(es1, n));
                    assert(open_count(es2, n) == open_count(es1, n));
                    assert(finish_count(es1, n) == finish_count(es0, n));
                    assert(open_count(es1, n) == open_count(es0, n) + (if r < n {
                        1int
                    } else {
                        0int
                    }));
                } else {
                    assert(open_count(es2, len + 1) == open_count(es1, len));
                    assert(finish_count(es2, len + 1) == finish_count(es1, len) + 1);
                    assert(finish_count(es1, len) == finish_count(es0, len));
                    assert(open_count(es1, len) == open_count(es0, len) + 1);
                    assert(finish_count(es0, len) == open_count(es0, len));
                }
            }
            assert(open_count(es2, len + 1) == finish_count(es2, len + 1)) by {
                assert(open_count(es2, len + 1) == open_count(es1, len));
                assert(finish_count(es2, len + 1) == finish_count(es1, len) + 1);
                assert(open_count(es1, len) == open_count(es0, len) + 1);
                assert(finish_count(es1, len) == finish_count(es0, len));
                assert(finish_count(es0, len) == open_count(es0, len));
            }
        }
        CompletedMarker { start_pos: idx, finish_pos, kind }
    }

    /// Abandons the node.  If the tombstone is the newest event it is
    /// physically removed; otherwise it stays in place and resolution
    /// skips it.
    pub fn abandon(self, p: &mut Parser)
        requires
            old(p).wf(),
            self.wf(*old(p)),
            self.untargeted(*old(p)),
        ensures
            final(p).wf(),
            evolves_from(*old(p), *final(p), self.pos as int),
            final(p).lexer == old(p).lexer,
            final(p).events@ == (if self.pos as int == old(p).events@.len() - 1 {
                old(p).events@.drop_last()
            } else {
                old(p).events@
            }),
    {
        let idx = self.pos;
        if idx == p.events.len() - 1 {
            proof {
                lemma_pop_stable(p.events@);
            }
            let ghost es0 = p.events@;
            let popped = p.events.pop();
            proof {
                assert(p.events@ =~= es0.drop_last());
                let es3 = p.events@;
                let len = es0.len() - 1;
                assert forall|n: int| 0 <= n <= len implies #[trigger] finish_count(es3, n)
                    <= open_count(es3, n) by {
                    assert(finish_count(es3, n) == finish_count(es0, n));
                    assert(open_count(es3, n) == open_count(es0, n));
                }
                assert(open_count(es3, len) == finish_count(es3, len)) by {
                    assert(open_count(es0, len + 1) == open_count(es0, len));
                    assert(finish_count(es0, len + 1) == finish_count(es0, len));
                }
            }
        }
    }
}

/// A completed node: records where its `Start` event sits, where its
/// `Finish` event was appended, and its resolved kind.
pub struct CompletedMarker {
    pub start_pos: usize,
    pub finish_pos: usize,
    pub kind: SyntaxKind,
}

impl CompletedMarker {
    /// The marker denotes a completed, not-yet-preceded start in `p`'s
    /// event log.
    pub open spec fn wf(self, p: Parser) -> bool {
        &&& self.start_pos < p.events@.len()
        &&& p.events@[self.start_pos as int] == (Event::Start {
            kind: self.kind,
            forward_parent: None,
        })
        &&& !(self.kind is TOMBSTONE)
    }

    pub fn kind(&self) -> (k: SyntaxKind)
        ensures
            k == self.kind,
    {
        self.kind
    }

    /// Starts a new node that will become the parent of this completed
    /// one: a fresh tombstone is pushed and this node's `Start` event is
    /// given a forward-parent offset pointing at it.  Resolution is
    /// unchanged until the new marker completes.
    pub fn precede(self, p: &mut Parser) -> (m: Marker)
        requires
            old(p).wf(),
            self.wf(*old(p)),
        ensures
            final(p).wf(),
            evolves_from(*old(p), *final(p), self.start_pos as int),
            final(p).lexer == old(p).lexer,
            final(p).events@ == precede_result(old(p).events@, self.start_pos as int),
            m.pos == old(p).events@.len(),
            m.wf(*final(p)),
    {
        let ghost es0 = p.events@;
        let new_pos = p.events.len();
        let c = self.start_pos;
        proof {
            assert(es0.len() <= usize::MAX) by {
                assert(p.events@.len() == p.events.len());
            }
            lemma_precede_stable(es0, c as int);
        }
        p.events.push(Event::Start { kind: SyntaxKind::TOMBSTONE, forward_parent: None });
        p.events[c] = Event::Start { kind: self.kind, forward_parent: Some(new_pos - c) };
        proof {
            assert(p.events@ =~= precede_result(es0, c as int));
            let es2 = p.events@;
            let len = es0.len() as int;
            assert forall|n: int| 0 <= n <= len + 1 implies #[trigger] finish_count(es2, n)
                <= open_count(es2, n) by {
                if n <= len {
                    assert(finish_count(es2, n) == finish_count(es0, n));
                    assert(open_count(es2, n) == open_count(es0, n));
                } else {
                    assert(open_count(es2, len + 1) == open_count(es0, len));
                    assert(finish_count(es2, len + 1) == finish_count(es0, len));
                }
            }
            assert(open_count(es2, len + 1) == finish_count(es2, len + 1)) by {
                assert(open_count(es2, len + 1) == open_count(es0, len));
                assert(finish_count(es2, len + 1) == finish_count(es0, len));
            }
        }
        Marker { pos: new_pos }
    }
}

} // verus!
