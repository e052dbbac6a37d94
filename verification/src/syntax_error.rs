//! Structured syntax errors: a message plus the byte range it covers.

use vstd::prelude::*;

verus! {

/// A parse error attached to a byte range of the source text.
#[derive(Debug, Clone, PartialEq, Eq, Hash)]
pub struct SyntaxError {
    pub message: String,
    pub start: usize,
    pub end: usize,
}

impl SyntaxError {
    /// An error reported at a single offset (an empty range).
    pub fn new_at_offset(message: String, offset: usize) -> (e: SyntaxError)
        ensures
            e.message == message,
            e.start == offset,
            e.end == offset,
    {
        SyntaxError { message, start: offset, end: offset }
    }

    pub fn range(&self) -> (r: (usize, usize))
        ensures
            r.0 == self.start,
            r.1 == self.end,
    {
        (self.start, self.end)
    }
}

} // verus!
