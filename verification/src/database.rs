//! The incremental database: per-file input facts and the memoized
//! parse query.
//!
//! The database owns the ground truth — file texts, source-root
//! assignments and their durability tiers — and memoizes `parse` per
//! file: at most one recompute per text change.  Setting a file's text
//! invalidates exactly that file's memoized parse, never others.
//! `request_cancellation` is a synthetic low-durability write with no
//! observable data change; callers issue it before applying a real
//! change so that in-flight derived work is superseded promptly.

use vstd::prelude::*;
use crate::ast::AstNode;
use crate::input::{Durability, FileId, SourceRoot, SourceRootId};
use crate::syntax_node::node_text;
use crate::Parse;

verus! {

/// The database: input facts plus the memoized parse per file, with an
/// instrumentation counter that records how often the parser really ran.
#[derive(Debug)]
pub struct RootDatabase {
    pub file_texts: Vec<Vec<u8>>,
    pub file_roots: Vec<SourceRootId>,
    pub durabilities: Vec<Durability>,
    pub source_roots: Vec<SourceRoot>,
    pub memo: Vec<Option<Parse>>,
    pub parse_count: u64,
    pub revision: u64,
}

impl RootDatabase {
    /// The text of a file; never-written files read as empty (ids are
    /// permanent, deletion only resets the text).
    pub open spec fn file_text_spec(self, id: int) -> Seq<u8> {
        if 0 <= id < self.file_texts@.len() {
            self.file_texts@[id]@
        } else {
            Seq::empty()
        }
    }

    /// The recorded durability of a file's facts.
    pub open spec fn durability_spec(self, id: int) -> Durability {
        if 0 <= id < self.durabilities@.len() {
            self.durabilities@[id]
        } else {
            Durability::Low
        }
    }

    /// The source root a file is assigned to.
    pub open spec fn root_spec(self, id: int) -> SourceRootId {
        if 0 <= id < self.file_roots@.len() {
            self.file_roots@[id]
        } else {
            SourceRootId(0)
        }
    }

    /// Whether a memoized parse is currently held for a file.
    pub open spec fn memo_spec(self, id: int) -> Option<Parse> {
        if 0 <= id < self.memo@.len() {
            self.memo@[id]
        } else {
            None
        }
    }

    /// The bookkeeping vectors run in step, and every memoized parse is
    /// valid for the file's current text: a `SOURCE_FILE` tree whose
    /// leaves spell that text exactly.
    pub open spec fn wf(self) -> bool {
        &&& self.file_texts@.len() == self.memo@.len()
        &&& self.file_texts@.len() == self.durabilities@.len()
        &&& self.file_texts@.len() == self.file_roots@.len()
        &&& forall|i: int|
            0 <= i < self.memo@.len() ==> ((#[trigger] self.memo@[i]) matches Some(p) ==> (
            p.green.kind is SOURCE_FILE && node_text(p.green) == self.file_texts@[i]@))
    }

    pub fn new() -> (db: RootDatabase)
        ensures
            db.wf(),
            db.file_texts@.len() == 0,
            db.source_roots@.len() == 0,
            db.parse_count == 0,
    {
        RootDatabase {
            file_texts: Vec::new(),
            file_roots: Vec::new(),
            durabilities: Vec::new(),
            source_roots: Vec::new(),
            memo: Vec::new(),
            parse_count: 0,
            revision: 0,
        }
    }

    /// Grows the per-file vectors so that index `n - 1` exists, filling
    /// new slots with the defaults (empty text, root 0, low durability,
    /// no memo).
    fn ensure_len(&mut self, n: usize)
        requires
            old(self).wf(),
        ensures
            final(self).wf(),
            final(self).file_texts@.len() >= n,
            final(self).file_texts@.len() >= old(self).file_texts@.len(),
            forall|j: int|
                #![trigger final(self).file_text_spec(j)]
                final(self).file_text_spec(j) == old(self).file_text_spec(j),
            forall|j: int|
                #![trigger final(self).durability_spec(j)]
                final(self).durability_spec(j) == old(self).durability_spec(j),
            forall|j: int|
                #![trigger final(self).root_spec(j)]
                final(self).root_spec(j) == old(self).root_spec(j),
            forall|j: int|
                #![trigger final(self).memo_spec(j)]
                final(self).memo_spec(j) == old(self).memo_spec(j),
            final(self).source_roots == old(self).source_roots,
            final(self).parse_count == old(self).parse_count,
            final(self).revision == old(self).revision,
    {
        while self.file_texts.len() < n
            invariant
                self.wf(),
                self.file_texts@.len() >= old(self).file_texts@.len(),
                forall|j: int|
                    #![trigger self.file_text_spec(j)]
                    self.file_text_spec(j) == old(self).file_text_spec(j),
                forall|j: int|
                    #![trigger self.durability_spec(j)]
                    self.durability_spec(j) == old(self).durability_spec(j),
                forall|j: int|
                    #![trigger self.root_spec(j)]
                    self.root_spec(j) == old(self).root_spec(j),
                forall|j: int|
                    #![trigger self.memo_spec(j)]
                    self.memo_spec(j) == old(self).memo_spec(j),
                self.source_roots == old(self).source_roots,
                self.parse_count == old(self).parse_count,
                self.revision == old(self).revision,
            decreases n - self.file_texts.len(),
        {
            let ghost pre = *self;
            self.file_texts.push(Vec::new());
            self.file_roots.push(SourceRootId(0));
            self.durabilities.push(Durability::Low);
            self.memo.push(None);
            proof {
                assert forall|j: int| #![trigger self.file_text_spec(j)]
                    self.file_text_spec(j) == pre.file_text_spec(j) by {
                    if 0 <= j < pre.file_texts@.len() {
                        assert(self.file_texts@[j] == pre.file_texts@[j]);
                    } else if j == pre.file_texts@.len() {
                        assert(self.file_text_spec(j) =~= Seq::<u8>::empty());
                    }
                }
                assert forall|j: int| #![trigger self.durability_spec(j)]
                    self.durability_spec(j) == pre.durability_spec(j) by {
                    if 0 <= j < pre.durabilities@.len() {
                        assert(self.durabilities@[j] == pre.durabilities@[j]);
                    }
                }
                assert forall|j: int| #![trigger self.root_spec(j)]
                    self.root_spec(j) == pre.root_spec(j) by {
                    if 0 <= j < pre.file_roots@.len() {
                        assert(self.file_roots@[j] == pre.file_roots@[j]);
                    }
                }
                assert forall|j: int| #![trigger self.memo_spec(j)]
                    self.memo_spec(j) == pre.memo_spec(j) by {
                    if 0 <= j < pre.memo@.len() {
                        assert(self.memo@[j] == pre.memo@[j]);
                    }
                }
            }
        }
    }

    /// Writes a file's text at the given durability, invalidating
    /// exactly that file's memoized parse.
    pub fn set_file_text_with_durability(&mut self, id: FileId, text: Vec<u8>, dur: Durability)
        requires
            old(self).wf(),
            id.0 as int + 1 <= usize::MAX as int,
        ensures
            final(self).wf(),
            final(self).file_text_spec(id.0 as int) == text@,
            final(self).durability_spec(id.0 as int) == dur,
            final(self).memo_spec(id.0 as int) is None,
            forall|j: int|
                j != id.0 as int ==> #[trigger] final(self).file_text_spec(j) == old(
                    self,
                ).file_text_spec(j),
            forall|j: int|
                j != id.0 as int ==> #[trigger] final(self).memo_spec(j) == old(self).memo_spec(
                    j,
                ),
            forall|j: int|
                j != id.0 as int ==> #[trigger] final(self).durability_spec(j) == old(
                    self,
                ).durability_spec(j),
            forall|j: int|
                #![trigger final(self).root_spec(j)]
                final(self).root_spec(j) == old(self).root_spec(j),
            final(self).source_roots == old(self).source_roots,
            final(self).parse_count == old(self).parse_count,
    {
        let idx = id.0 as usize;
        self.ensure_len(idx + 1);
        let ghost mid = *self;
        self.file_texts[idx] = text;
        self.durabilities[idx] = dur;
        self.memo[idx] = None;
        self.revision = self.revision.wrapping_add(1);
        proof {
            assert forall|j: int| j != id.0 as int implies #[trigger] self.file_text_spec(j)
                == mid.file_text_spec(j) by {
                if 0 <= j < mid.file_texts@.len() {
                    assert(self.file_texts@[j] == mid.file_texts@[j]);
                }
            }
            assert forall|j: int| j != id.0 as int implies #[trigger] self.memo_spec(j)
                == mid.memo_spec(j) by {
                if 0 <= j < mid.memo@.len() {
                    assert(self.memo@[j] == mid.memo@[j]);
                }
            }
            assert forall|j: int| j != id.0 as int implies #[trigger] self.durability_spec(j)
                == mid.durability_spec(j) by {
                if 0 <= j < mid.durabilities@.len() {
                    assert(self.durabilities@[j] == mid.durabilities@[j]);
                }
            }
            assert forall|j: int| #![trigger self.root_spec(j)]
                self.root_spec(j) == mid.root_spec(j) by {
                if 0 <= j < mid.file_roots@.len() {
                    assert(self.file_roots@[j] == mid.file_roots@[j]);
                }
            }
        }
    }

    /// Assigns a file to a source root at the given durability.
    pub fn set_file_source_root_with_durability(
        &mut self,
        id: FileId,
        root_id: SourceRootId,
        dur: Durability,
    )
        requires
            old(self).wf(),
            id.0 as int + 1 <= usize::MAX as int,
        ensures
            final(self).wf(),
            final(self).root_spec(id.0 as int) == root_id,
            final(self).durability_spec(id.0 as int) == dur,
            forall|j: int|
                #![trigger final(self).file_text_spec(j)]
                final(self).file_text_spec(j) == old(self).file_text_spec(j),
            forall|j: int|
                #![trigger final(self).memo_spec(j)]
                final(self).memo_spec(j) == old(self).memo_spec(j),
            forall|j: int|
                j != id.0 as int ==> #[trigger] final(self).durability_spec(j) == old(
                    self,
                ).durability_spec(j),
            forall|j: int|
                j != id.0 as int ==> #[trigger] final(self).root_spec(j) == old(self).root_spec(
                    j,
                ),
            final(self).source_roots == old(self).source_roots,
            final(self).parse_count == old(self).parse_count,
    {
        let idx = id.0 as usize;
        self.ensure_len(idx + 1);
        let ghost mid = *self;
        self.file_roots[idx] = root_id;
        self.durabilities[idx] = dur;
        self.revision = self.revision.wrapping_add(1);
        proof {
            assert forall|j: int| #![trigger self.file_text_spec(j)]
                self.file_text_spec(j) == mid.file_text_spec(j) by {
                if 0 <= j < mid.file_texts@.len() {
                    assert(self.file_texts@[j] == mid.file_texts@[j]);
                }
            }
            assert forall|j: int| #![trigger self.memo_spec(j)]
                self.memo_spec(j) == mid.memo_spec(j) by {
                if 0 <= j < mid.memo@.len() {
                    assert(self.memo@[j] == mid.memo@[j]);
                }
            }
            assert forall|j: int| j != id.0 as int implies #[trigger] self.durability_spec(j)
                == mid.durability_spec(j) by {
                if 0 <= j < mid.durabilities@.len() {
                    assert(self.durabilities@[j] == mid.durabilities@[j]);
                }
            }
            assert forall|j: int| j != id.0 as int implies #[trigger] self.root_spec(j)
                == mid.root_spec(j) by {
                if 0 <= j < mid.file_roots@.len() {
                    assert(self.file_roots@[j] == mid.file_roots@[j]);
                }
            }
        }
    }

    /// Records the contents of a source root, growing the roots table
    /// as needed (fresh slots hold empty local roots).
    pub fn set_source_root_with_durability(
        &mut self,
        root_id: SourceRootId,
        root: SourceRoot,
        dur: Durability,
    )
        requires
            old(self).wf(),
            root_id.0 as int + 1 <= usize::MAX as int,
        ensures
            final(self).wf(),
            final(self).source_roots@.len() > root_id.0 as int,
            final(self).source_roots@.len() >= old(self).source_roots@.len(),
            final(self).source_roots@[root_id.0 as int] == root,
            forall|j: int|
                0 <= j < old(self).source_roots@.len() && j != root_id.0 as int ==> (
                #[trigger] final(self).source_roots@[j]) == old(self).source_roots@[j],
            forall|j: int|
                #![trigger final(self).file_text_spec(j)]
                final(self).file_text_spec(j) == old(self).file_text_spec(j),
            forall|j: int|
                #![trigger final(self).memo_spec(j)]
                final(self).memo_spec(j) == old(self).memo_spec(j),
            forall|j: int|
                #![trigger final(self).durability_spec(j)]
                final(self).durability_spec(j) == old(self).durability_spec(j),
            forall|j: int|
                #![trigger final(self).root_spec(j)]
                final(self).root_spec(j) == old(self).root_spec(j),
            final(self).parse_count == old(self).parse_count,
    {
        let idx = root_id.0 as usize;
        proof {
            assert(idx as int == root_id.0 as int);
        }
        while self.source_roots.len() <= idx
            invariant
                self.wf(),
                self.source_roots@.len() >= old(self).source_roots@.len(),
                forall|j: int|
                    0 <= j < old(self).source_roots@.len() ==> (
                    #[trigger] self.source_roots@[j]) == old(self).source_roots@[j],
                self.file_texts == old(self).file_texts,
                self.file_roots == old(self).file_roots,
                self.durabilities == old(self).durabilities,
                self.memo == old(self).memo,
                self.parse_count == old(self).parse_count,
            decreases idx + 1 - self.source_roots@.len(),
        {
            self.source_roots.push(
                SourceRoot { is_library: false, file_set: crate::input::FileSet::new() },
            );
        }
        self.source_roots[idx] = root;
        self.revision = self.revision.wrapping_add(1);
    }

    /// A synthetic low-durability write: no recorded fact changes, but
    /// the revision counter moves by exactly one, so in-flight derived
    /// work observes a new revision and gives way.
    pub fn request_cancellation(&mut self)
        requires
            old(self).wf(),
        ensures
            final(self).wf(),
            final(self).file_texts == old(self).file_texts,
            final(self).file_roots == old(self).file_roots,
            final(self).durabilities == old(self).durabilities,
            final(self).source_roots == old(self).source_roots,
            final(self).memo == old(self).memo,
            final(self).parse_count == old(self).parse_count,
            final(self).revision == (if old(self).revision == u64::MAX {
                0u64
            } else {
                (old(self).revision + 1) as u64
            }),
    {
        self.revision = self.revision.wrapping_add(1);
    }

    /// The memoized parse query: always a tree for the file's current
    /// text; a cached result is returned as-is, without re-running the
    /// parser, and a fresh result is computed at most once per text
    /// change.
    pub fn parse(&mut self, id: FileId) -> (r: Parse)
        requires
            old(self).wf(),
            id.0 as int + 1 <= usize::MAX as int,
        ensures
            final(self).wf(),
            r.green.kind is SOURCE_FILE,
            node_text(r.green) == old(self).file_text_spec(id.0 as int),
            (old(self).memo_spec(id.0 as int) matches Some(p) ==> {
                &&& final(self).parse_count == old(self).parse_count
                &&& r.green@ == p.green@
                &&& r.errors@ == p.errors@
            }),
            final(self).memo_spec(id.0 as int) matches Some(p2) && p2.green@ == r.green@
                && p2.errors@ == r.errors@,
            forall|j: int|
                #![trigger final(self).file_text_spec(j)]
                final(self).file_text_spec(j) == old(self).file_text_spec(j),
            forall|j: int|
                j != id.0 as int ==> #[trigger] final(self).memo_spec(j) == old(self).memo_spec(
                    j,
                ),
            forall|j: int|
                #![trigger final(self).durability_spec(j)]
                final(self).durability_spec(j) == old(self).durability_spec(j),
            forall|j: int|
                #![trigger final(self).root_spec(j)]
                final(self).root_spec(j) == old(self).root_spec(j),
            final(self).source_roots == old(self).source_roots,
    {
        let idx = id.0 as usize;
        self.ensure_len(idx + 1);
        let hit = match &self.memo[idx] {
            Some(p) => true,
            None => false,
        };
        if hit {
            proof {
                assert(self.memo_spec(id.0 as int) == old(self).memo_spec(id.0 as int));
                assert(self.memo@[idx as int] == self.memo_spec(id.0 as int));
            }
            let r = match &self.memo[idx] {
                Some(p) => p.dup(),
                None => {
                    proof {
                        assert(false);
                    }
                    Parse { green: crate::syntax_node::SyntaxNode {
                        kind: crate::syntax_kind::SyntaxKind::ERROR,
                        children: Vec::new(),
                    }, errors: Vec::new() }
                },
            };
            return r;
        }
        let ghost mid = *self;
        let parsed = crate::ast::nodes::SourceFile::parse(self.file_texts[idx].as_slice());
        self.parse_count = self.parse_count.wrapping_add(1);
        let stored = parsed.dup();
        self.memo[idx] = Some(stored);
        proof {
            assert forall|j: int| #![trigger self.file_text_spec(j)]
                self.file_text_spec(j) == mid.file_text_spec(j) by {
                if 0 <= j < mid.file_texts@.len() {
                    assert(self.file_texts@[j] == mid.file_texts@[j]);
                }
            }
            assert forall|j: int| j != id.0 as int implies #[trigger] self.memo_spec(j)
                == mid.memo_spec(j) by {
                if 0 <= j < mid.memo@.len() {
                    assert(self.memo@[j] == mid.memo@[j]);
                }
            }
            assert forall|j: int| #![trigger self.durability_spec(j)]
                self.durability_spec(j) == mid.durability_spec(j) by {
                if 0 <= j < mid.durabilities@.len() {
                    assert(self.durabilities@[j] == mid.durabilities@[j]);
                }
            }
            assert forall|j: int| #![trigger self.root_spec(j)]
                self.root_spec(j) == mid.root_spec(j) by {
                if 0 <= j < mid.file_roots@.len() {
                    assert(self.file_roots@[j] == mid.file_roots@[j]);
                }
            }
            assert(self.file_text_spec(id.0 as int) == mid.file_text_spec(id.0 as int));
        }
        parsed
    }
}

} // verus!
