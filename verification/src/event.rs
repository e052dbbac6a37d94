//! The flat event stream that the parser emits, and the theory of its
//! forward-parent resolution.
//!
//! A `Start` event opens a node; its `forward_parent` field may name a
//! later `Start` (by a positive relative offset) that must be opened
//! *before* it, so that a node can retroactively become the parent of an
//! already-completed one.  Resolution therefore opens, at the position of
//! the first `Start` of each forward-parent chain, every node of the chain,
//! outermost (latest-declared) first, and skips the chain members at their
//! own positions.  A `Start` whose kind is `TOMBSTONE` and which carries no
//! forward parent is an abandoned node and resolves to nothing.
//!
//! The spec functions below define that resolution declaratively: which
//! positions are the target of a link (`has_pred`), which kinds are opened
//! where (`chain_opens`, `opens_at`), and the running open/finish counts
//! over any prefix.  `well_nested` is the nesting guarantee the parser
//! maintains: no prefix closes more nodes than it has opened, and the
//! whole stream closes exactly as many as it opens.

use vstd::prelude::*;
use crate::syntax_kind::SyntaxKind;
use crate::ParseError;

verus! {

/// One entry of the parser's output: the flat, ordered event sequence is
/// the parser's sole product and the tree builder's sole input.
pub enum Event {
    Start { kind: SyntaxKind, forward_parent: Option<usize> },
    Finish,
    Token { kind: SyntaxKind, n_raw_tokens: u8 },
    Error { msg: ParseError },
}

impl Event {
    /// The canonical placeholder pushed by `Parser::start`.
    pub fn tombstone() -> (e: Event)
        ensures
            e == (Event::Start { kind: SyntaxKind::TOMBSTONE, forward_parent: None }),
    {
        Event::Start { kind: SyntaxKind::TOMBSTONE, forward_parent: None }
    }
}

/// The kind recorded on a `Start` event.
pub open spec fn start_kind(e: Event) -> SyntaxKind {
    match e {
        Event::Start { kind, .. } => kind,
        _ => SyntaxKind::TOMBSTONE,
    }
}

/// The absolute position a `Start` event's forward parent points at.
pub open spec fn fp_target(es: Seq<Event>, j: int) -> Option<int> {
    if 0 <= j < es.len() {
        match es[j] {
            Event::Start { forward_parent: Some(d), .. } => Some(j + d as int),
            _ => None,
        }
    } else {
        None
    }
}

/// Position `j`'s forward parent is position `i`.
pub open spec fn link(es: Seq<Event>, j: int, i: int) -> bool {
    fp_target(es, j) == Some(i)
}

/// Every forward-parent link points strictly forward and into the stream.
pub open spec fn links_ok(es: Seq<Event>) -> bool {
    forall|j: int| (#[trigger] fp_target(es, j)) matches Some(t) ==> j < t && t < es.len()
}

/// No position is the forward parent of two distinct earlier starts.
pub open spec fn indeg_ok(es: Seq<Event>) -> bool {
    forall|j1: int, j2: int, i: int| link(es, j1, i) && link(es, j2, i) ==> j1 == j2
}

/// Position `i` is a member of some forward-parent chain (and is therefore
/// skipped at its own position during resolution).
pub open spec fn has_pred(es: Seq<Event>, i: int) -> bool {
    exists|j: int| link(es, j, i)
}

/// The kinds opened at the position of a chain's first `Start`: the kinds
/// found along the forward-parent chain, outermost (furthest) first, with
/// tombstones dropped.
pub open spec fn chain_opens(es: Seq<Event>, i: int) -> Seq<SyntaxKind>
    decreases es.len() - i,
{
    if 0 <= i < es.len() && es[i] is Start {
        let own: Seq<SyntaxKind> = if start_kind(es[i]) is TOMBSTONE {
            Seq::empty()
        } else {
            seq![start_kind(es[i])]
        };
        match fp_target(es, i) {
            Some(t) => (if i < t < es.len() {
                chain_opens(es, t)
            } else {
                Seq::empty()
            }) + own,
            None => own,
        }
    } else {
        Seq::empty()
    }
}

/// How many nodes resolution opens at position `i`.
pub open spec fn opens_at(es: Seq<Event>, i: int) -> int {
    if 0 <= i < es.len() && es[i] is Start && !has_pred(es, i) {
        chain_opens(es, i).len() as int
    } else {
        0
    }
}

/// Total number of nodes opened within the prefix of length `n`.
pub open spec fn open_count(es: Seq<Event>, n: int) -> int
    decreases n,
{
    if n <= 0 {
        0
    } else {
        open_count(es, n - 1) + opens_at(es, n - 1)
    }
}

/// Total number of `Error` events within the prefix of length `n`.
pub open spec fn error_count(es: Seq<Event>, n: int) -> int
    decreases n,
{
    if n <= 0 {
        0
    } else {
        error_count(es, n - 1) + (if 0 <= n - 1 < es.len() && es[n - 1] is Error {
            1int
        } else {
            0int
        })
    }
}

/// A prefix holding an `Error` event has a positive error count.
pub proof fn lemma_error_count_pos(es: Seq<Event>, j: int, n: int)
    requires
        0 <= j < n,
        j < es.len(),
        es[j] is Error,
    ensures
        error_count(es, n) >= 1,
    decreases n,
{
    lemma_error_count_nonneg(es, n - 1);
    if j < n - 1 {
        lemma_error_count_pos(es, j, n - 1);
        assert(error_count(es, n) >= error_count(es, n - 1));
    }
}

/// Error counts are never negative.
pub proof fn lemma_error_count_nonneg(es: Seq<Event>, n: int)
    ensures
        error_count(es, n) >= 0,
    decreases n,
{
    if n > 0 {
        lemma_error_count_nonneg(es, n - 1);
    }
}

/// Total number of `Finish` events within the prefix of length `n`.
pub open spec fn finish_count(es: Seq<Event>, n: int) -> int
    decreases n,
{
    if n <= 0 {
        0
    } else {
        finish_count(es, n - 1) + (if 0 <= n - 1 < es.len() && es[n - 1] is Finish {
            1int
        } else {
            0int
        })
    }
}

/// The event stream, after forward-parent resolution, forms a properly
/// nested Start/Finish sequence: no prefix finishes a node it has not
/// opened, and overall every opened node is finished.
pub open spec fn well_nested(es: Seq<Event>) -> bool {
    &&& links_ok(es)
    &&& indeg_ok(es)
    &&& forall|n: int|
        0 <= n <= es.len() ==> #[trigger] finish_count(es, n) <= open_count(es, n)
    &&& open_count(es, es.len() as int) == finish_count(es, es.len() as int)
}

// ------------------------------------------------------------------
// Stability of resolution under appending a link-free event.
// ------------------------------------------------------------------

/// An event whose appending cannot open a node or create a link: a
/// `Finish`, `Token`, or `Error` event, or a fresh tombstone `Start`.
pub open spec fn inert_evt(e: Event) -> bool {
    match e {
        Event::Start { kind, forward_parent } => kind is TOMBSTONE && forward_parent is None,
        _ => true,
    }
}

proof fn lemma_chain_push(es: Seq<Event>, e: Event, i: int)
    requires
        links_ok(es),
        0 <= i < es.len(),
    ensures
        chain_opens(es.push(e), i) == chain_opens(es, i),
    decreases es.len() - i,
{
    let es2 = es.push(e);
    assert(es2[i] == es[i]);
    if es[i] is Start {
        match fp_target(es, i) {
            Some(t) => {
                assert(fp_target(es2, i) == Some(t));
                lemma_chain_push(es, e, t);
            },
            None => {
                assert(fp_target(es2, i) is None);
            },
        }
    }
}

/// Appending a `Finish`, `Token`, `Error`, or fresh tombstone `Start`
/// leaves the resolution of every existing position unchanged and opens
/// nothing at the new position.
pub proof fn lemma_append_stable(es: Seq<Event>, e: Event)
    requires
        links_ok(es),
        indeg_ok(es),
        inert_evt(e),
    ensures
        links_ok(es.push(e)),
        indeg_ok(es.push(e)),
        forall|j: int, i: int| #[trigger] link(es.push(e), j, i) <==> link(es, j, i),
        forall|i: int| #[trigger] has_pred(es.push(e), i) <==> has_pred(es, i),
        forall|i: int| 0 <= i < es.len() ==> #[trigger] opens_at(es.push(e), i) == opens_at(
            es,
            i,
        ),
        opens_at(es.push(e), es.len() as int) == 0,
        forall|n: int| 0 <= n <= es.len() ==> #[trigger] open_count(es.push(e), n) == open_count(
            es,
            n,
        ),
        open_count(es.push(e), es.len() as int + 1) == open_count(es, es.len() as int),
        forall|n: int| 0 <= n <= es.len() ==> #[trigger] finish_count(es.push(e), n)
            == finish_count(es, n),
        finish_count(es.push(e), es.len() as int + 1) == finish_count(es, es.len() as int) + (
        if e is Finish {
            1int
        } else {
            0int
        }),
{
    let es2 = es.push(e);
    let len = es.len() as int;
    assert forall|j: int| (#[trigger] fp_target(es2, j)) == (if j == len {
        None
    } else {
        fp_target(es, j)
    }) by {
        if 0 <= j < len {
            assert(es2[j] == es[j]);
        }
    }
    assert forall|j: int, i: int| #[trigger] link(es2, j, i) <==> link(es, j, i) by {}
    assert forall|i: int| #[trigger] has_pred(es2, i) <==> has_pred(es, i) by {
        if has_pred(es2, i) {
            let j = choose|j: int| link(es2, j, i);
            assert(link(es, j, i));
        }
        if has_pred(es, i) {
            let j = choose|j: int| link(es, j, i);
            assert(link(es2, j, i));
        }
    }
    assert forall|i: int| 0 <= i < len implies #[trigger] opens_at(es2, i) == opens_at(es, i) by {
        assert(es2[i] == es[i]);
        lemma_chain_push(es, e, i);
    }
    assert(opens_at(es2, len) == 0) by {
        assert(es2[len] == e);
        if es2[len] is Start {
            assert(start_kind(es2[len]) is TOMBSTONE);
            assert(fp_target(es2, len) is None);
            assert(chain_opens(es2, len) =~= Seq::<SyntaxKind>::empty());
        }
    }
    assert forall|i: int| 0 <= i < len implies es2[i] == es[i] by {}
    assert forall|n: int| 0 <= n <= len implies #[trigger] open_count(es.push(e), n) == open_count(
        es,
        n,
    ) by {
        lemma_counts_prefix_eq(es, es2, n);
    }
    assert forall|n: int| 0 <= n <= len implies #[trigger] finish_count(es.push(e), n)
        == finish_count(es, n) by {
        lemma_counts_prefix_eq(es, es2, n);
    }
    assert(open_count(es2, len + 1) == open_count(es2, len) + opens_at(es2, len));
    assert(finish_count(es2, len + 1) == finish_count(es2, len) + (if e is Finish {
        1int
    } else {
        0int
    })) by {
        assert(es2[len] == e);
    }
}

/// If two streams agree on `opens_at` and on finish-hood below `n`, their
/// counts agree at `n`.
proof fn lemma_counts_prefix_eq(es: Seq<Event>, es2: Seq<Event>, n: int)
    requires
        0 <= n <= es.len(),
        n <= es2.len(),
        forall|i: int| 0 <= i < n ==> #[trigger] opens_at(es2, i) == opens_at(es, i),
        forall|i: int| 0 <= i < n ==> es2[i] == es[i],
    ensures
        open_count(es2, n) == open_count(es, n),
        finish_count(es2, n) == finish_count(es, n),
    decreases n,
{
    if n > 0 {
        lemma_counts_prefix_eq(es, es2, n - 1);
    }
}

// ------------------------------------------------------------------
// Chains and their first members.
// ------------------------------------------------------------------

/// The forward-parent chain starting at `i` passes through `m`.
pub open spec fn reach(es: Seq<Event>, i: int, m: int) -> bool
    decreases es.len() - i,
{
    if i == m {
        true
    } else if 0 <= i < es.len() && es[i] is Start {
        match fp_target(es, i) {
            Some(t) => if i < t < es.len() {
                reach(es, t, m)
            } else {
                false
            },
            None => false,
        }
    } else {
        false
    }
}

/// The first member of the chain that position `i` belongs to: the unique
/// position with no incoming link from which `i` is reachable.  Resolution
/// opens `i`'s node there.
pub open spec fn origin(es: Seq<Event>, i: int) -> int
    decreases i,
{
    if has_pred(es, i) {
        let j = choose|j: int| link(es, j, i);
        if 0 <= j < i {
            origin(es, j)
        } else {
            i
        }
    } else {
        i
    }
}

proof fn lemma_reach_link_extend(es: Seq<Event>, x: int, j: int, m: int)
    requires
        links_ok(es),
        reach(es, x, j),
        link(es, j, m),
    ensures
        reach(es, x, m),
    decreases es.len() - x,
{
    if x == j {
        assert(0 <= j < es.len() && es[j] is Start);
        assert(fp_target(es, j) == Some(m));
        assert(j < m < es.len());
        assert(reach(es, m, m));
        assert(reach(es, j, m));
    } else {
        let t = fp_target(es, x)->Some_0;
        assert(0 <= x < es.len() && es[x] is Start && x < t < es.len());
        lemma_reach_link_extend(es, t, j, m);
        if x != m {
            assert(reach(es, x, m));
        }
    }
}

proof fn lemma_reach_last_hop(es: Seq<Event>, x: int, m: int)
    requires
        links_ok(es),
        reach(es, x, m),
        x != m,
    ensures
        exists|y: int| #[trigger] reach(es, x, y) && link(es, y, m),
    decreases es.len() - x,
{
    let t = fp_target(es, x)->Some_0;
    if t == m {
        assert(reach(es, x, x));
        assert(link(es, x, m));
    } else {
        lemma_reach_last_hop(es, t, m);
        let y = choose|y: int| #[trigger] reach(es, t, y) && link(es, y, m);
        assert(reach(es, x, y));
    }
}

proof fn lemma_origin_props(es: Seq<Event>, m: int)
    requires
        links_ok(es),
        0 <= m < es.len(),
        es[m] is Start,
    ensures
        0 <= origin(es, m) <= m,
        es[origin(es, m)] is Start,
        !has_pred(es, origin(es, m)),
        reach(es, origin(es, m), m),
    decreases m,
{
    if has_pred(es, m) {
        let j = choose|j: int| link(es, j, m);
        assert(fp_target(es, j) == Some(m));
        assert(0 <= j < es.len() && es[j] is Start);
        assert(j < m);
        lemma_origin_props(es, j);
        lemma_reach_link_extend(es, origin(es, j), j, m);
    } else {
        assert(reach(es, m, m));
    }
}

proof fn lemma_origin_of_reacher(es: Seq<Event>, x: int, m: int)
    requires
        links_ok(es),
        indeg_ok(es),
        reach(es, x, m),
        !has_pred(es, x),
    ensures
        origin(es, m) == x,
    decreases m - x,
{
    if x == m {
        assert(origin(es, m) == m);
    } else {
        lemma_reach_last_hop(es, x, m);
        let y = choose|y: int| #[trigger] reach(es, x, y) && link(es, y, m);
        assert(has_pred(es, m));
        let j = choose|j: int| link(es, j, m);
        assert(j == y);
        assert(y < m);
        assert(x <= y) by {
            if x != y {
                lemma_reach_le(es, x, y);
            }
        }
        lemma_origin_of_reacher(es, x, y);
    }
}

proof fn lemma_reach_le(es: Seq<Event>, x: int, m: int)
    requires
        links_ok(es),
        reach(es, x, m),
        x != m,
    ensures
        x < m,
    decreases es.len() - x,
{
    let t = fp_target(es, x)->Some_0;
    if t != m {
        lemma_reach_le(es, t, m);
    }
}

// ------------------------------------------------------------------
// Completing a marker: the tombstone at `m` takes a real kind.
// ------------------------------------------------------------------

proof fn lemma_chain_update_kind(es: Seq<Event>, m: int, k: SyntaxKind, i: int)
    requires
        links_ok(es),
        0 <= m < es.len(),
        es[m] == (Event::Start { kind: SyntaxKind::TOMBSTONE, forward_parent: None }),
        !(k is TOMBSTONE),
        0 <= i < es.len(),
    ensures
        chain_opens(es.update(m, Event::Start { kind: k, forward_parent: None }), i).len()
            == chain_opens(es, i).len() + (if reach(es, i, m) && es[i] is Start {
            1int
        } else {
            0int
        }),
    decreases es.len() - i,
{
    let es1 = es.update(m, Event::Start { kind: k, forward_parent: None });
    assert(forall|j: int| #[trigger] fp_target(es1, j) == fp_target(es, j));
    if es[i] is Start {
        if i == m {
            assert(fp_target(es, i) is None);
            assert(chain_opens(es, i) =~= Seq::<SyntaxKind>::empty());
            assert(chain_opens(es1, i) =~= seq![k]);
            assert(reach(es, i, m));
        } else {
            assert(es1[i] == es[i]);
            match fp_target(es, i) {
                Some(t) => {
                    if i < t < es.len() {
                        lemma_chain_update_kind(es, m, k, t);
                        assert(reach(es, i, m) == (reach(es, t, m) && es[t] is Start)) by {
                            if reach(es, t, m) {
                                if t == m {
                                } else {
                                    assert(es[t] is Start);
                                }
                            }
                        }
                    }
                },
                None => {
                    assert(!reach(es, i, m));
                },
            }
        }
    } else {
        assert(!reach(es, i, m) || i == m);
    }
}

/// Setting the kind of the pending tombstone at `m` opens exactly one more
/// node, at the first member of `m`'s chain, and changes nothing else about
/// the resolution.
pub proof fn lemma_complete_stable(es: Seq<Event>, m: int, k: SyntaxKind)
    requires
        links_ok(es),
        indeg_ok(es),
        0 <= m < es.len(),
        es[m] == (Event::Start { kind: SyntaxKind::TOMBSTONE, forward_parent: None }),
        !(k is TOMBSTONE),
    ensures
        ({
            let es1 = es.update(m, Event::Start { kind: k, forward_parent: None });
            let r = origin(es, m);
            &&& links_ok(es1)
            &&& indeg_ok(es1)
            &&& forall|j: int| #[trigger] fp_target(es1, j) == fp_target(es, j)
            &&& forall|i: int| #[trigger] has_pred(es1, i) == has_pred(es, i)
            &&& 0 <= r <= m
            &&& !has_pred(es, r)
            &&& (!has_pred(es, m) ==> r == m)
            &&& forall|i: int|
                0 <= i < es.len() ==> #[trigger] opens_at(es1, i) == opens_at(es, i) + (if i == r {
                    1int
                } else {
                    0int
                })
            &&& forall|n: int|
                0 <= n <= es.len() ==> #[trigger] open_count(es1, n) == open_count(es, n) + (if r
                    < n {
                    1int
                } else {
                    0int
                })
            &&& forall|n: int|
                0 <= n <= es.len() ==> #[trigger] finish_count(es1, n) == finish_count(es, n)
        }),
{
    let es1 = es.update(m, Event::Start { kind: k, forward_parent: None });
    let r = origin(es, m);
    assert(forall|j: int| #[trigger] fp_target(es1, j) == fp_target(es, j));
    assert forall|i: int| #[trigger] has_pred(es1, i) == has_pred(es, i) by {
        if has_pred(es1, i) {
            let j = choose|j: int| link(es1, j, i);
            assert(link(es, j, i));
        }
        if has_pred(es, i) {
            let j = choose|j: int| link(es, j, i);
            assert(link(es1, j, i));
        }
    }
    lemma_origin_props(es, m);
    assert forall|i: int| 0 <= i < es.len() implies #[trigger] opens_at(es1, i) == opens_at(es, i)
        + (if i == r {
        1int
    } else {
        0int
    }) by {
        lemma_chain_update_kind(es, m, k, i);
        assert(es1[i] is Start == es[i] is Start);
        if es[i] is Start && !has_pred(es, i) {
            if reach(es, i, m) {
                lemma_origin_of_reacher(es, i, m);
                assert(i == r);
            } else {
                assert(i != r);
            }
        } else {
            assert(opens_at(es1, i) == 0 && opens_at(es, i) == 0);
            assert(i != r || !(es[i] is Start) || has_pred(es, i));
            if i == r {
                assert(es[r] is Start && !has_pred(es, r));
            }
        }
    }
    assert forall|n: int| 0 <= n <= es.len() implies #[trigger] open_count(es1, n) == open_count(
        es,
        n,
    ) + (if r < n {
        1int
    } else {
        0int
    }) by {
        lemma_counts_plus_one(es, es1, r, n);
    }
    assert forall|n: int| 0 <= n <= es.len() implies #[trigger] finish_count(es1, n)
        == finish_count(es, n) by {
        lemma_counts_plus_one(es, es1, r, n);
    }
    assert(links_ok(es1));
    assert forall|j1: int, j2: int, i: int|
        link(es1, j1, i) && link(es1, j2, i) implies j1 == j2 by {
        assert(fp_target(es1, j1) == fp_target(es, j1));
        assert(fp_target(es1, j2) == fp_target(es, j2));
        assert(link(es, j1, i) && link(es, j2, i));
    }
    assert(indeg_ok(es1));
}

/// Counting helper: if `es1` opens exactly one more node than `es`, at
/// position `r`, and finish events agree, the counts differ by one from
/// `r + 1` on.
proof fn lemma_counts_plus_one(es: Seq<Event>, es1: Seq<Event>, r: int, n: int)
    requires
        0 <= n <= es.len(),
        es1.len() == es.len(),
        forall|i: int|
            0 <= i < es.len() ==> #[trigger] opens_at(es1, i) == opens_at(es, i) + (if i == r {
                1int
            } else {
                0int
            }),
        forall|i: int| 0 <= i < es.len() ==> (es1[i] is Finish == es[i] is Finish),
    ensures
        open_count(es1, n) == open_count(es, n) + (if r < n && r >= 0 {
            1int
        } else {
            0int
        }),
        finish_count(es1, n) == finish_count(es, n),
    decreases n,
{
    if n > 0 {
        lemma_counts_plus_one(es, es1, r, n - 1);
    }
}

// ------------------------------------------------------------------
// Preceding a completed node: a fresh tombstone is pushed and the
// completed start at `c` is linked forward to it.
// ------------------------------------------------------------------

/// The event stream after `precede`: a fresh tombstone `Start` appended,
/// and the completed start at `c` given a forward-parent link to it.
pub open spec fn precede_result(es: Seq<Event>, c: int) -> Seq<Event> {
    es.push(Event::Start { kind: SyntaxKind::TOMBSTONE, forward_parent: None }).update(
        c,
        Event::Start {
            kind: start_kind(es[c]),
            forward_parent: Some((es.len() - c) as usize),
        },
    )
}

proof fn lemma_chain_precede(es: Seq<Event>, c: int, i: int)
    requires
        links_ok(es),
        es.len() <= usize::MAX,
        0 <= c < es.len(),
        es[c] matches Event::Start { forward_parent: None, .. },
        0 <= i < es.len(),
    ensures
        chain_opens(precede_result(es, c), i) == chain_opens(es, i),
    decreases es.len() - i,
{
    let es2 = precede_result(es, c);
    let len = es.len() as int;
    if i == c {
        assert(fp_target(es, c) is None);
        assert(fp_target(es2, c) == Some(len));
        assert(es2[len] == (Event::Start { kind: SyntaxKind::TOMBSTONE, forward_parent: None }));
        assert(fp_target(es2, len) is None);
        assert(chain_opens(es2, len) =~= Seq::<SyntaxKind>::empty());
        assert(start_kind(es2[c]) == start_kind(es[c]));
        assert(chain_opens(es2, c) =~= Seq::<SyntaxKind>::empty() + (if start_kind(es[c])
            is TOMBSTONE {
            Seq::<SyntaxKind>::empty()
        } else {
            seq![start_kind(es[c])]
        }));
        assert(chain_opens(es2, c) =~= chain_opens(es, c));
    } else {
        assert(es2[i] == es[i]);
        if es[i] is Start {
            match fp_target(es, i) {
                Some(t) => {
                    assert(fp_target(es2, i) == Some(t));
                    lemma_chain_precede(es, c, t);
                },
                None => {
                    assert(fp_target(es2, i) is None);
                },
            }
        }
    }
}

/// `precede` changes nothing about the resolution of existing positions:
/// the chain through `c` merely extends into a tombstone, and the new
/// position itself opens nothing.
pub proof fn lemma_precede_stable(es: Seq<Event>, c: int)
    requires
        links_ok(es),
        indeg_ok(es),
        es.len() <= usize::MAX,
        0 <= c < es.len(),
        es[c] matches Event::Start { forward_parent: None, .. },
    ensures
        ({
            let es2 = precede_result(es, c);
            let len = es.len() as int;
            &&& es2.len() == len + 1
            &&& links_ok(es2)
            &&& indeg_ok(es2)
            &&& forall|i: int|
                0 <= i <= len && i != c ==> es2[i] == (if i < len {
                    es[i]
                } else {
                    Event::Start { kind: SyntaxKind::TOMBSTONE, forward_parent: None }
                })
            &&& forall|i: int| 0 <= i < len ==> (#[trigger] has_pred(es2, i) == has_pred(es, i))
            &&& has_pred(es2, len)
            &&& forall|i: int|
                0 <= i < len ==> #[trigger] opens_at(es2, i) == opens_at(es, i)
            &&& opens_at(es2, len) == 0
            &&& forall|n: int|
                0 <= n <= len ==> #[trigger] open_count(es2, n) == open_count(es, n)
            &&& open_count(es2, len + 1) == open_count(es, len)
            &&& forall|n: int|
                0 <= n <= len ==> #[trigger] finish_count(es2, n) == finish_count(es, n)
            &&& finish_count(es2, len + 1) == finish_count(es, len)
        }),
{
    let es2 = precede_result(es, c);
    let len = es.len() as int;
    assert forall|j: int| 0 <= j <= len implies #[trigger] fp_target(es2, j) == (if j == c {
        Some(len)
    } else if j < len {
        fp_target(es, j)
    } else {
        None::<int>
    }) by {
        if j != c && j < len {
            assert(es2[j] == es[j]);
        }
    }
    assert(links_ok(es2));
    assert forall|j1: int, j2: int, i: int|
        link(es2, j1, i) && link(es2, j2, i) implies j1 == j2 by {
        if i == len {
            assert(fp_target(es, j1) != Some(len) && fp_target(es, j2) != Some(len));
            assert(j1 == c && j2 == c);
        } else {
            assert(j1 != c && j2 != c);
            assert(link(es, j1, i) && link(es, j2, i));
        }
    }
    assert forall|i: int| 0 <= i < len implies (#[trigger] has_pred(es2, i) == has_pred(es, i))
        by {
        if has_pred(es2, i) {
            let j = choose|j: int| link(es2, j, i);
            assert(j != c || i == len);
            assert(link(es, j, i));
        }
        if has_pred(es, i) {
            let j = choose|j: int| link(es, j, i);
            assert(j != c) by {
                if j == c {
                    assert(fp_target(es, c) is None);
                }
            }
            assert(link(es2, j, i));
        }
    }
    assert(has_pred(es2, len)) by {
        assert(link(es2, c, len));
    }
    assert forall|i: int| 0 <= i < len implies #[trigger] opens_at(es2, i) == opens_at(es, i) by {
        lemma_chain_precede(es, c, i);
        assert(es2[i] is Start == es[i] is Start) by {
            if i != c {
                assert(es2[i] == es[i]);
            }
        }
    }
    assert(opens_at(es2, len) == 0);
    assert forall|n: int| 0 <= n <= len implies #[trigger] open_count(es2, n) == open_count(es, n)
        by {
        lemma_counts_precede(es, es2, n);
    }
    assert forall|n: int| 0 <= n <= len implies #[trigger] finish_count(es2, n) == finish_count(
        es,
        n,
    ) by {
        lemma_counts_precede(es, es2, n);
    }
    assert(open_count(es2, len + 1) == open_count(es2, len) + opens_at(es2, len));
    assert(finish_count(es2, len + 1) == finish_count(es2, len)) by {
        assert(!(es2[len] is Finish));
    }
}

proof fn lemma_counts_precede(es: Seq<Event>, es2: Seq<Event>, n: int)
    requires
        0 <= n <= es.len(),
        es.len() <= es2.len(),
        forall|i: int| 0 <= i < es.len() ==> #[trigger] opens_at(es2, i) == opens_at(es, i),
        forall|i: int| 0 <= i < es.len() ==> (es2[i] is Finish == es[i] is Finish),
    ensures
        open_count(es2, n) == open_count(es, n),
        finish_count(es2, n) == finish_count(es, n),
    decreases n,
{
    if n > 0 {
        lemma_counts_precede(es, es2, n - 1);
    }
}

// ------------------------------------------------------------------
// Abandoning the newest marker: its trailing tombstone is removed.
// ------------------------------------------------------------------

proof fn lemma_chain_pop(es: Seq<Event>, i: int)
    requires
        links_ok(es),
        es.len() >= 1,
        !has_pred(es, es.len() - 1),
        0 <= i < es.len() - 1,
    ensures
        chain_opens(es.drop_last(), i) == chain_opens(es, i),
    decreases es.len() - i,
{
    let es3 = es.drop_last();
    assert(es3[i] == es[i]);
    if es[i] is Start {
        match fp_target(es, i) {
            Some(t) => {
                assert(fp_target(es3, i) == Some(t));
                assert(t != es.len() - 1) by {
                    if t == es.len() - 1 {
                        assert(link(es, i, t));
                    }
                }
                lemma_chain_pop(es, t);
            },
            None => {
                assert(fp_target(es3, i) is None);
            },
        }
    }
}

/// Removing a trailing tombstone that nothing links to leaves the
/// resolution of every remaining position unchanged.
pub proof fn lemma_pop_stable(es: Seq<Event>)
    requires
        links_ok(es),
        indeg_ok(es),
        es.len() >= 1,
        es.last() == (Event::Start { kind: SyntaxKind::TOMBSTONE, forward_parent: None }),
        !has_pred(es, es.len() - 1),
    ensures
        ({
            let es3 = es.drop_last();
            let len = es.len() - 1;
            &&& links_ok(es3)
            &&& indeg_ok(es3)
            &&& forall|i: int| 0 <= i < len ==> (#[trigger] has_pred(es3, i) == has_pred(es, i))
            &&& forall|i: int|
                0 <= i < len ==> #[trigger] opens_at(es3, i) == opens_at(es, i)
            &&& opens_at(es, len) == 0
            &&& forall|n: int|
                0 <= n <= len ==> #[trigger] open_count(es3, n) == open_count(es, n)
            &&& open_count(es, len + 1) == open_count(es, len)
            &&& forall|n: int|
                0 <= n <= len ==> #[trigger] finish_count(es3, n) == finish_count(es, n)
            &&& finish_count(es, len + 1) == finish_count(es, len)
        }),
{
    let es3 = es.drop_last();
    let len = es.len() - 1;
    assert forall|j: int| #[trigger] fp_target(es3, j) == (if 0 <= j < len {
        fp_target(es, j)
    } else {
        None::<int>
    }) by {
        if 0 <= j < len {
            assert(es3[j] == es[j]);
        } else if j == len {
            assert(es[j] matches Event::Start { forward_parent: None, .. });
        }
    }
    assert forall|j: int| (#[trigger] fp_target(es3, j)) is Some implies j < fp_target(
        es3,
        j,
    )->Some_0 && fp_target(es3, j)->Some_0 < es3.len() by {
        if 0 <= j < len {
            let t = fp_target(es, j)->Some_0;
            assert(t != len) by {
                if t == len {
                    assert(link(es, j, len));
                }
            }
        }
    }
    assert forall|j1: int, j2: int, i: int|
        link(es3, j1, i) && link(es3, j2, i) implies j1 == j2 by {
        assert(link(es, j1, i) && link(es, j2, i));
    }
    assert forall|i: int| 0 <= i < len implies (#[trigger] has_pred(es3, i) == has_pred(es, i))
        by {
        if has_pred(es3, i) {
            let j = choose|j: int| link(es3, j, i);
            assert(link(es, j, i));
        }
        if has_pred(es, i) {
            let j = choose|j: int| link(es, j, i);
            assert(0 <= j < es.len());
            assert(j != len) by {
                if j == len {
                    assert(fp_target(es, len) is None);
                }
            }
            assert(link(es3, j, i));
        }
    }
    assert forall|i: int| 0 <= i < len implies #[trigger] opens_at(es3, i) == opens_at(es, i) by {
        lemma_chain_pop(es, i);
        assert(es3[i] == es[i]);
    }
    assert(opens_at(es, len) == 0) by {
        assert(start_kind(es[len]) is TOMBSTONE);
        assert(fp_target(es, len) is None);
        assert(chain_opens(es, len) =~= Seq::<SyntaxKind>::empty());
    }
    assert forall|n: int| 0 <= n <= len implies #[trigger] open_count(es3, n) == open_count(es, n)
        by {
        lemma_counts_pop(es, es3, n);
    }
    assert forall|n: int| 0 <= n <= len implies #[trigger] finish_count(es3, n) == finish_count(
        es,
        n,
    ) by {
        lemma_counts_pop(es, es3, n);
    }
    assert(open_count(es, len + 1) == open_count(es, len) + opens_at(es, len));
    assert(finish_count(es, len + 1) == finish_count(es, len)) by {
        assert(!(es[len] is Finish));
    }
}

proof fn lemma_counts_pop(es: Seq<Event>, es3: Seq<Event>, n: int)
    requires
        0 <= n <= es3.len(),
        es3.len() <= es.len(),
        forall|i: int| 0 <= i < es3.len() ==> #[trigger] opens_at(es3, i) == opens_at(es, i),
        forall|i: int| 0 <= i < es3.len() ==> es3[i] == es[i],
    ensures
        open_count(es3, n) == open_count(es, n),
        finish_count(es3, n) == finish_count(es, n),
    decreases n,
{
    if n > 0 {
        lemma_counts_pop(es, es3, n - 1);
    }
}

} // verus!