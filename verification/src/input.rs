//! The database inputs: file identities, source roots, and durability.
//!
//! A `FileId` is a dense small integer assigned once per discovered file
//! and never reused.  Files are grouped into source roots; a root may be
//! flagged as a library, which makes its facts high-durability (rarely
//! invalidated).  Durability is purely a caching hint, never a
//! correctness switch.

use vstd::prelude::*;

verus! {

/// The identity of a file: a dense integer, never reclaimed.
#[derive(Clone, Copy, PartialEq, Eq, Structural, Debug, Hash)]
pub struct FileId(pub u32);

/// The identity of a source root: its position in the roots list.
#[derive(Clone, Copy, PartialEq, Eq, Structural, Debug, Hash)]
pub struct SourceRootId(pub u32);

/// How rarely a recorded fact is expected to change.
#[derive(Clone, Copy, PartialEq, Eq, Structural, Debug, Hash)]
pub enum Durability {
    Low,
    High,
}

/// A bidirectional file-id / path mapping: `paths[i]` is the path of
/// `files[i]`.
#[derive(Debug)]
pub struct FileSet {
    pub files: Vec<FileId>,
    pub paths: Vec<Vec<u8>>,
}

fn bytes_eq(a: &Vec<u8>, b: &[u8]) -> (r: bool)
    ensures
        r == (a@ =~= b@),
{
    if a.len() != b.len() {
        return false;
    }
    let mut i: usize = 0;
    while i < a.len()
        invariant
            i <= a@.len(),
            a@.len() == b@.len(),
            forall|j: int| 0 <= j < i ==> a@[j] == b@[j],
        decreases a@.len() - i,
    {
        if a[i] != b[i] {
            return false;
        }
        i = i + 1;
    }
    true
}

impl FileSet {
    /// The mapping is consistent: one path per file.
    pub open spec fn wf(self) -> bool {
        self.files@.len() == self.paths@.len()
    }

    pub fn new() -> (r: FileSet)
        ensures
            r.wf(),
            r.files@.len() == 0,
    {
        FileSet { files: Vec::new(), paths: Vec::new() }
    }

    /// Records a file under a path.
    pub fn insert(&mut self, file: FileId, path: Vec<u8>)
        requires
            old(self).wf(),
        ensures
            final(self).wf(),
            final(self).files@ == old(self).files@.push(file),
            final(self).paths@ == old(self).paths@.push(path),
    {
        self.files.push(file);
        self.paths.push(path);
    }

    pub fn len(&self) -> (r: usize)
        ensures
            r == self.files@.len(),
    {
        self.files.len()
    }

    /// The file recorded under `path`, if any (first match).
    pub fn file_for_path(&self, path: &[u8]) -> (r: Option<FileId>)
        requires
            self.wf(),
        ensures
            match r {
                Some(f) => exists|i: int|
                    0 <= i < self.files@.len() && (#[trigger] self.paths@[i]@) == path@
                        && self.files@[i] == f,
                None => forall|i: int|
                    0 <= i < self.files@.len() ==> (#[trigger] self.paths@[i]@) != path@,
            },
    {
        let mut i: usize = 0;
        while i < self.files.len()
            invariant
                self.wf(),
                i <= self.files@.len(),
                forall|j: int| 0 <= j < i ==> (#[trigger] self.paths@[j]@) != path@,
            decreases self.files@.len() - i,
        {
            if bytes_eq(&self.paths[i], path) {
                return Some(self.files[i]);
            }
            i = i + 1;
        }
        None
    }

    /// The path recorded for `file`, if any (first match).
    pub fn path_for_file(&self, file: FileId) -> (r: Option<&Vec<u8>>)
        requires
            self.wf(),
        ensures
            match r {
                Some(p) => exists|i: int|
                    0 <= i < self.files@.len() && (#[trigger] self.files@[i]) == file
                        && self.paths@[i]@ == p@,
                None => forall|i: int|
                    0 <= i < self.files@.len() ==> (#[trigger] self.files@[i]) != file,
            },
    {
        let mut i: usize = 0;
        while i < self.files.len()
            invariant
                self.wf(),
                i <= self.files@.len(),
                forall|j: int| 0 <= j < i ==> (#[trigger] self.files@[j]) != file,
            decreases self.files@.len() - i,
        {
            if self.files[i] == file {
                return Some(&self.paths[i]);
            }
            i = i + 1;
        }
        None
    }
}

/// A grouping of files under a common namespace; once built it is only
/// read.  Library roots are considered mostly immutable, which the
/// caching layer exploits through durability.
#[derive(Debug)]
pub struct SourceRoot {
    pub is_library: bool,
    pub file_set: FileSet,
}

impl SourceRoot {
    pub open spec fn wf(self) -> bool {
        self.file_set.wf()
    }

    /// A root for ordinary, editable files.
    pub fn new_local(file_set: FileSet) -> (r: SourceRoot)
        ensures
            !r.is_library,
            r.file_set == file_set,
    {
        SourceRoot { is_library: false, file_set }
    }

    /// A root for library files, which rarely change.
    pub fn new_library(file_set: FileSet) -> (r: SourceRoot)
        ensures
            r.is_library,
            r.file_set == file_set,
    {
        SourceRoot { is_library: true, file_set }
    }

    pub fn path_for_file(&self, file: FileId) -> (r: Option<&Vec<u8>>)
        requires
            self.wf(),
        ensures
            match r {
                Some(p) => exists|i: int|
                    0 <= i < self.file_set.files@.len() && (#[trigger] self.file_set.files@[i])
                        == file && self.file_set.paths@[i]@ == p@,
                None => forall|i: int|
                    0 <= i < self.file_set.files@.len() ==> (#[trigger] self.file_set.files@[i])
                        != file,
            },
    {
        self.file_set.path_for_file(file)
    }

    pub fn file_for_path(&self, path: &[u8]) -> (r: Option<FileId>)
        requires
            self.wf(),
        ensures
            match r {
                Some(f) => exists|i: int|
                    0 <= i < self.file_set.files@.len() && (#[trigger] self.file_set.paths@[i]@)
                        == path@ && self.file_set.files@[i] == f,
                None => forall|i: int|
                    0 <= i < self.file_set.files@.len() ==> (#[trigger] self.file_set.paths@[i]@)
                        != path@,
            },
    {
        self.file_set.file_for_path(path)
    }

    /// The files of this root, in insertion order.
    pub fn files(&self) -> (r: &Vec<FileId>)
        ensures
            r == &self.file_set.files,
    {
        &self.file_set.files
    }
}

/// The durability tier of facts about a root's files.
pub fn durability(source_root: &SourceRoot) -> (r: Durability)
    ensures
        r == (if source_root.is_library {
            Durability::High
        } else {
            Durability::Low
        }),
{
    if source_root.is_library {
        Durability::High
    } else {
        Durability::Low
    }
}

} // verus!
