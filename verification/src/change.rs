//! Change transactions: a write-once batch of facts pushed into the
//! database.
//!
//! A change optionally replaces all source roots and then writes file
//! texts in order.  When roots are set, every file in every root gets
//! its root assignment and durability written before any text is
//! written, so no file is ever observed with a text but no root.
//! Deleting a file is represented as resetting its text to empty; ids
//! are never reclaimed.  Files in library roots are recorded with high
//! durability, all others with low durability.

use vstd::prelude::*;
use crate::database::RootDatabase;
use crate::input::{durability, Durability, FileId, SourceRoot, SourceRootId};

verus! {

/// A transaction: an optional full replacement of the source roots plus
/// an ordered list of file-text writes (`None` text means deletion,
/// which resets the text to empty).
#[derive(Debug)]
pub struct Change {
    pub roots: Option<Vec<SourceRoot>>,
    pub files_changed: Vec<(FileId, Option<Vec<u8>>)>,
}

/// Every file id mentioned fits the address space.
pub open spec fn roots_ids_in_range(rs: Seq<SourceRoot>) -> bool {
    forall|k: int, j: int|
        0 <= k < rs.len() && 0 <= j < rs[k].file_set.files@.len() ==> ((
        #[trigger] rs[k].file_set.files@[j]).0 as int) + 1 <= usize::MAX as int
}

/// No file is listed in two places across the new roots.
pub open spec fn roots_files_distinct(rs: Seq<SourceRoot>) -> bool {
    forall|k1: int, j1: int, k2: int, j2: int|
        0 <= k1 < rs.len() && 0 <= j1 < rs[k1].file_set.files@.len() && 0 <= k2 < rs.len() && 0
            <= j2 < rs[k2].file_set.files@.len() && (k1 != k2 || j1 != j2) ==> (
        #[trigger] rs[k1].file_set.files@[j1]) != (#[trigger] rs[k2].file_set.files@[j2])
}

/// The durability tier P8 asks for: high for library roots, low else.
pub open spec fn root_durability(r: SourceRoot) -> Durability {
    if r.is_library {
        Durability::High
    } else {
        Durability::Low
    }
}

/// The text a change entry writes: the new text, or empty on deletion.
pub open spec fn text_of_entry(e: (FileId, Option<Vec<u8>>)) -> Seq<u8> {
    match e.1 {
        Some(t) => t@,
        None => Seq::empty(),
    }
}

/// Every changed file id fits the address space.
pub open spec fn changed_ids_in_range(fs: Seq<(FileId, Option<Vec<u8>>)>) -> bool {
    forall|i: int|
        0 <= i < fs.len() ==> ((#[trigger] fs[i]).0.0 as int) + 1 <= usize::MAX as int
}

/// No entry after `i` (up to `hi`, exclusive) writes the same file as
/// entry `i`.  With `hi` the whole list's length this says entry `i` is
/// the last write to its file: writes apply in order, so the last one
/// wins.
pub open spec fn no_later_write(fs: Seq<(FileId, Option<Vec<u8>>)>, i: int, hi: int) -> bool {
    forall|j: int| i < j < hi ==> (#[trigger] fs[j]).0 != fs[i].0
}

/// After the roots phase: every file of root `k` is assigned to root `k`
/// at the root's durability tier, and the recorded roots mirror the new
/// ones.
pub open spec fn roots_recorded(db: RootDatabase, rs: Seq<SourceRoot>, upto: int) -> bool {
    &&& (forall|k: int, j: int|
        0 <= k < upto && 0 <= j < rs[k].file_set.files@.len() ==> {
            &&& db.durability_spec((#[trigger] rs[k].file_set.files@[j]).0 as int)
                == root_durability(rs[k])
            &&& db.root_spec(rs[k].file_set.files@[j].0 as int) == SourceRootId(k as u32)
        })
    &&& db.source_roots@.len() >= upto
    &&& (forall|k: int|
        0 <= k < upto ==> (#[trigger] db.source_roots@[k]).is_library == rs[k].is_library)
}

impl Change {
    pub fn new() -> (c: Change)
        ensures
            c.roots is None,
            c.files_changed@.len() == 0,
    {
        Change { roots: None, files_changed: Vec::new() }
    }

    /// Replaces the whole source-root partition.
    pub fn set_roots(&mut self, roots: Vec<SourceRoot>)
        ensures
            final(self).roots == Some(roots),
            final(self).files_changed == old(self).files_changed,
    {
        self.roots = Some(roots);
    }

    /// Queues a text write (`None` deletes the file's contents).
    pub fn change_file(&mut self, file_id: FileId, new_text: Option<Vec<u8>>)
        ensures
            final(self).roots == old(self).roots,
            final(self).files_changed@ == old(self).files_changed@.push((file_id, new_text)),
    {
        self.files_changed.push((file_id, new_text));
    }

    /// Pushes the transaction's facts into the database: first every
    /// root assignment (so no file has a text but no root), then the
    /// text writes in order — a file written twice takes the later
    /// text — each at the durability of the file's root.
    pub fn apply(self, db: &mut RootDatabase)
        requires
            old(db).wf(),
            match self.roots {
                Some(rs) => roots_ids_in_range(rs@) && roots_files_distinct(rs@) && rs@.len()
                    <= u32::MAX,
                None => true,
            },
            changed_ids_in_range(self.files_changed@),
        ensures
            final(db).wf(),
            self.roots matches Some(rs) ==> roots_recorded(*final(db), rs@, rs@.len() as int),
            forall|i: int|
                0 <= i < self.files_changed@.len() && no_later_write(
                    self.files_changed@,
                    i,
                    self.files_changed@.len() as int,
                ) ==> {
                    &&& final(db).file_text_spec(
                        (#[trigger] self.files_changed@[i]).0.0 as int,
                    ) == text_of_entry(self.files_changed@[i])
                    &&& final(db).memo_spec(self.files_changed@[i].0.0 as int) is None
                },
    {
        let Change { roots: roots_opt, files_changed: files_changed_v } = self;
        let ghost rs_ghost: Seq<SourceRoot> = match &roots_opt {
            Some(rs) => rs@,
            None => Seq::empty(),
        };
        let ghost had_roots = roots_opt is Some;
        match roots_opt {
            Some(roots) => {
                let mut k: usize = 0;
                let n = roots.len();
                let mut roots_v = roots;
                while k < n
                    invariant
                        db.wf(),
                        n == rs_ghost.len(),
                        n <= u32::MAX,
                        roots_v@ =~= rs_ghost.subrange(k as int, n as int),
                        roots_ids_in_range(rs_ghost),
                        roots_files_distinct(rs_ghost),
                        k <= n,
                        roots_recorded(*db, rs_ghost, k as int),
                    decreases n - k,
                {
                    let ghost dbk = *db;
                    let root = roots_v.remove(0);
                    proof {
                        assert(root == rs_ghost[k as int]);
                        assert(roots_v@ =~= rs_ghost.subrange(k as int + 1, n as int));
                    }
                    let dur = durability(&root);
                    let m = root.file_set.files.len();
                    let mut j: usize = 0;
                    while j < m
                        invariant
                            db.wf(),
                            m == root.file_set.files@.len(),
                            j <= m,
                            k < n,
                            n == rs_ghost.len(),
                            n <= u32::MAX,
                            root == rs_ghost[k as int],
                            dur == root_durability(root),
                            roots_ids_in_range(rs_ghost),
                            roots_files_distinct(rs_ghost),
                            db.source_roots == dbk.source_roots,
                            roots_recorded(*db, rs_ghost, k as int),
                            forall|j2: int|
                                0 <= j2 < j ==> {
                                    &&& db.durability_spec(
                                        (#[trigger] root.file_set.files@[j2]).0 as int,
                                    ) == dur
                                    &&& db.root_spec(root.file_set.files@[j2].0 as int)
                                        == SourceRootId(k as u32)
                                },
                        decreases m - j,
                    {
                        let f = root.file_set.files[j];
                        proof {
                            assert(rs_ghost[k as int].file_set.files@[j as int] == f);
                        }
                        db.set_file_source_root_with_durability(f, SourceRootId(k as u32), dur);
                        proof {
                            assert forall|k1: int, j1: int|
                                0 <= k1 < k as int && 0 <= j1 < rs_ghost[k1].file_set.files@.len()
                                    implies rs_ghost[k1].file_set.files@[j1] != f by {
                                let ka = k as int;
                                assert(rs_ghost[k1].file_set.files@[j1]
                                    != rs_ghost[ka].file_set.files@[j as int]);
                            }
                            assert forall|j2: int|
                                0 <= j2 < j as int implies root.file_set.files@[j2] != f by {
                                let ka = k as int;
                                assert(rs_ghost[ka].file_set.files@[j2]
                                    != rs_ghost[ka].file_set.files@[j as int]);
                            }
                            assert forall|k1: int, j1: int|
                                0 <= k1 < k as int && 0 <= j1 < rs_ghost[k1].file_set.files@.len()
                                    implies {
                                &&& db.durability_spec(
                                    (#[trigger] rs_ghost[k1].file_set.files@[j1]).0 as int,
                                ) == root_durability(rs_ghost[k1])
                                &&& db.root_spec(rs_ghost[k1].file_set.files@[j1].0 as int)
                                    == SourceRootId(k1 as u32)
                            } by {
                                let f1 = rs_ghost[k1].file_set.files@[j1];
                                assert(f1 != f);
                                assert(f1.0 as int + 1 <= usize::MAX as int);
                                assert(f1.0 as int != f.0 as int) by {
                                    if f1.0 == f.0 {
                                        assert(f1 == f);
                                    }
                                }
                            }
                            assert(roots_recorded(*db, rs_ghost, k as int));
                        }
                        j = j + 1;
                    }
                    let ghost dbj = *db;
                    db.set_source_root_with_durability(SourceRootId(k as u32), root, dur);
                    proof {
                        let ka = k as int;
                        assert((k as u32) as int == ka);
                        assert(db.source_roots@[ka] == root);
                        assert forall|k1: int|
                            0 <= k1 < ka + 1 implies (#[trigger] db.source_roots@[k1]).is_library
                            == rs_ghost[k1].is_library by {
                            if k1 < ka {
                                assert(dbj.source_roots@[k1].is_library == rs_ghost[k1].is_library);
                                assert(db.source_roots@[k1] == dbj.source_roots@[k1]);
                            }
                        }
                        assert(db.source_roots@.len() >= ka + 1);
                        assert forall|k1: int, j1: int|
                            0 <= k1 < ka + 1 && 0 <= j1 < rs_ghost[k1].file_set.files@.len()
                                implies {
                            &&& db.durability_spec(
                                (#[trigger] rs_ghost[k1].file_set.files@[j1]).0 as int,
                            ) == root_durability(rs_ghost[k1])
                            &&& db.root_spec(rs_ghost[k1].file_set.files@[j1].0 as int)
                                == SourceRootId(k1 as u32)
                        } by {
                            if k1 == ka {
                                assert(rs_ghost[ka].file_set.files@.len() == m);
                            }
                        }
                    }
                    k = k + 1;
                }
            },
            None => {},
        }
        // text writes, each at the durability of the file's root
        let mut fs = files_changed_v;
        let ghost fs_all = fs@;
        proof {
            assert(fs_all == self.files_changed@);
        }
        let mut i: usize = 0;
        let nf = fs.len();
        while i < nf
            invariant
                db.wf(),
                nf == fs_all.len(),
                fs@ =~= fs_all.subrange(i as int, nf as int),
                i <= nf,
                changed_ids_in_range(fs_all),
                had_roots ==> roots_recorded(*db, rs_ghost, rs_ghost.len() as int),
                rs_ghost.len() <= u32::MAX,
                roots_files_distinct(rs_ghost),
                forall|i2: int|
                    0 <= i2 < i && no_later_write(fs_all, i2, i as int) ==> {
                        &&& db.file_text_spec((#[trigger] fs_all[i2]).0.0 as int)
                            == text_of_entry(fs_all[i2])
                        &&& db.memo_spec(fs_all[i2].0.0 as int) is None
                    },
            decreases nf - i,
        {
            let entry = fs.remove(0);
            proof {
                assert(entry == fs_all[i as int]);
                assert(fs@ =~= fs_all.subrange(i as int + 1, nf as int));
            }
            let (file_id, text_opt) = entry;
            let rid = db.file_source_root(file_id);
            let dur = if db.root_is_library(rid) {
                Durability::High
            } else {
                Durability::Low
            };
            let text = match text_opt {
                Some(t) => t,
                None => Vec::new(),
            };
            let ghost dbp = *db;
            db.set_file_text_with_durability(file_id, text, dur);
            proof {
                if had_roots {
                    assert forall|k: int, j: int|
                        0 <= k < rs_ghost.len() && 0 <= j < rs_ghost[k].file_set.files@.len()
                            implies {
                        &&& db.durability_spec(
                            (#[trigger] rs_ghost[k].file_set.files@[j]).0 as int,
                        ) == root_durability(rs_ghost[k])
                        &&& db.root_spec(rs_ghost[k].file_set.files@[j].0 as int) == SourceRootId(
                            k as u32,
                        )
                    } by {
                        let f2 = rs_ghost[k].file_set.files@[j];
                        if f2 == file_id {
                            // the recomputed durability is the root's own tier
                            assert(dbp.root_spec(f2.0 as int) == SourceRootId(k as u32));
                            assert(rid == SourceRootId(k as u32));
                            assert((k as u32) as int == k);
                            assert(rid.0 as int == k);
                            assert(dbp.source_roots@.len() > k);
                            assert(dbp.source_roots@[k].is_library == rs_ghost[k].is_library);
                            assert(dur == root_durability(rs_ghost[k]));
                        }
                    }
                }
                assert forall|i2: int|
                    0 <= i2 < i + 1 && no_later_write(fs_all, i2, i + 1) implies {
                    &&& db.file_text_spec((#[trigger] fs_all[i2]).0.0 as int) == text_of_entry(
                        fs_all[i2],
                    )
                    &&& db.memo_spec(fs_all[i2].0.0 as int) is None
                } by {
                    if i2 < i as int {
                        assert(fs_all[i as int].0 != fs_all[i2].0);
                        assert(no_later_write(fs_all, i2, i as int));
                        assert(dbp.file_text_spec(fs_all[i2].0.0 as int) == text_of_entry(
                            fs_all[i2],
                        ));
                        assert(fs_all[i2].0.0 as int != file_id.0 as int) by {
                            if fs_all[i2].0.0 == file_id.0 {
                                assert(fs_all[i2].0 == file_id);
                            }
                        }
                    } else {
                        assert(fs_all[i2] == entry);
                    }
                }
                if had_roots {
                    assert forall|k1: int|
                        0 <= k1 < rs_ghost.len() implies (#[trigger] db.source_roots@[k1]).is_library
                        == rs_ghost[k1].is_library by {
                        assert(dbp.source_roots@[k1].is_library == rs_ghost[k1].is_library);
                        assert(db.source_roots@[k1] == dbp.source_roots@[k1]);
                    }
                    assert(db.source_roots@.len() >= rs_ghost.len());
                    assert(roots_recorded(*db, rs_ghost, rs_ghost.len() as int));
                }
            }
            i = i + 1;
        }
    }
}

impl RootDatabase {
    /// The root a file is assigned to (root 0 for never-assigned files).
    pub fn file_source_root(&self, id: FileId) -> (r: SourceRootId)
        requires
            id.0 as int + 1 <= usize::MAX as int,
        ensures
            r == self.root_spec(id.0 as int),
    {
        let idx = id.0 as usize;
        if idx < self.file_roots.len() {
            self.file_roots[idx]
        } else {
            SourceRootId(0)
        }
    }

    /// Whether the given root is a library root (never-recorded roots
    /// read as local).
    pub fn root_is_library(&self, rid: SourceRootId) -> (r: bool)
        ensures
            r == (rid.0 < self.source_roots@.len() && self.source_roots@[rid.0 as int].is_library),
    {
        let idx = rid.0 as usize;
        if idx < self.source_roots.len() {
            self.source_roots[idx].is_library
        } else {
            false
        }
    }

    /// Applies a change transaction, preceded by the required
    /// cancellation request.
    pub fn apply_change(&mut self, change: Change)
        requires
            old(self).wf(),
            match change.roots {
                Some(rs) => roots_ids_in_range(rs@) && roots_files_distinct(rs@) && rs@.len()
                    <= u32::MAX,
                None => true,
            },
            changed_ids_in_range(change.files_changed@),
        ensures
            final(self).wf(),
            change.roots matches Some(rs) ==> roots_recorded(*final(self), rs@, rs@.len() as int),
            forall|i: int|
                0 <= i < change.files_changed@.len() && no_later_write(
                    change.files_changed@,
                    i,
                    change.files_changed@.len() as int,
                ) ==> {
                    &&& final(self).file_text_spec(
                        (#[trigger] change.files_changed@[i]).0.0 as int,
                    ) == text_of_entry(change.files_changed@[i])
                    &&& final(self).memo_spec(change.files_changed@[i].0.0 as int) is None
                },
    {
        self.request_cancellation();
        change.apply(self);
    }
}

} // verus!
