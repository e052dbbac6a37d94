//! A set of token kinds, used to drive error recovery and first-token
//! tests in the grammar.

use vstd::prelude::*;
use vstd::slice::slice_to_vec;
use crate::syntax_kind::SyntaxKind;

verus! {

/// A set of `SyntaxKind`s.
pub struct TokenSet {
    pub kinds: Vec<SyntaxKind>,
}

impl TokenSet {
    pub open spec fn spec_contains(self, kind: SyntaxKind) -> bool {
        self.kinds@.contains(kind)
    }

    /// The set holding exactly the given kinds.
    pub fn new(kinds: &[SyntaxKind]) -> (r: TokenSet)
        ensures
            forall|k: SyntaxKind| #[trigger] r.spec_contains(k) <==> kinds@.contains(k),
    {
        TokenSet { kinds: slice_to_vec(kinds) }
    }

    /// The empty set.
    pub fn empty() -> (r: TokenSet)
        ensures
            forall|k: SyntaxKind| !(#[trigger] r.spec_contains(k)),
    {
        TokenSet { kinds: Vec::new() }
    }

    pub fn contains(&self, kind: SyntaxKind) -> (r: bool)
        ensures
            r == self.spec_contains(kind),
    {
        let mut i: usize = 0;
        while i < self.kinds.len()
            invariant
                i <= self.kinds@.len(),
                forall|j: int| 0 <= j < i ==> self.kinds@[j] != kind,
            decreases self.kinds@.len() - i,
        {
            if self.kinds[i] == kind {
                return true;
            }
            i = i + 1;
        }
        false
    }

    /// The union of the two sets.
    pub fn union(&self, other: &TokenSet) -> (r: TokenSet)
        ensures
            forall|k: SyntaxKind| #[trigger] r.spec_contains(k) <==> (self.spec_contains(k)
                || other.spec_contains(k)),
    {
        let mut kinds: Vec<SyntaxKind> = Vec::new();
        let mut i: usize = 0;
        while i < self.kinds.len()
            invariant
                i <= self.kinds@.len(),
                kinds@ =~= self.kinds@.subrange(0, i as int),
            decreases self.kinds@.len() - i,
        {
            kinds.push(self.kinds[i]);
            i = i + 1;
        }
        proof {
            assert(kinds@ =~= self.kinds@);
        }
        let mut j: usize = 0;
        while j < other.kinds.len()
            invariant
                j <= other.kinds@.len(),
                kinds@ =~= self.kinds@ + other.kinds@.subrange(0, j as int),
            decreases other.kinds@.len() - j,
        {
            kinds.push(other.kinds[j]);
            j = j + 1;
        }
        proof {
            assert(kinds@ =~= self.kinds@ + other.kinds@);
            assert forall|k: SyntaxKind| (self.kinds@ + other.kinds@).contains(k) implies (
            self.kinds@.contains(k) || other.kinds@.contains(k)) by {
                let idx = choose|idx: int|
                    0 <= idx < (self.kinds@ + other.kinds@).len() && (self.kinds@
                        + other.kinds@)[idx] == k;
                if idx < self.kinds@.len() {
                    assert(self.kinds@[idx] == k);
                } else {
                    assert(other.kinds@[idx - self.kinds@.len()] == k);
                }
            }
            assert forall|k: SyntaxKind| self.kinds@.contains(k) || other.kinds@.contains(
                k,
            ) implies (self.kinds@ + other.kinds@).contains(k) by {
                if self.kinds@.contains(k) {
                    let idx = choose|idx: int| 0 <= idx < self.kinds@.len() && self.kinds@[idx] == k;
                    assert((self.kinds@ + other.kinds@)[idx] == k);
                } else {
                    let idx = choose|idx: int|
                        0 <= idx < other.kinds@.len() && other.kinds@[idx] == k;
                    assert((self.kinds@ + other.kinds@)[self.kinds@.len() + idx] == k);
                }
            }
        }
        TokenSet { kinds }
    }
}

} // verus!
