//! The typed view layer over the untyped tree.
//!
//! Each generated node type wraps one `SyntaxNode` whose kind matches;
//! `cast` either wraps the whole node or yields nothing.  Typed accessors
//! search the immediate children for the first node that casts to the
//! requested type, or the first token of a given kind; absence is normal
//! and reported as `None`.  "Many" accessors collect every matching
//! child in document order.

pub mod nodes;

use vstd::prelude::*;
use crate::syntax_kind::SyntaxKind;
use crate::syntax_node::{node_view, NodeV, SyntaxElement, SyntaxNode, SyntaxToken};

verus! {

/// A typed wrapper over an untyped node: membership is decided by `kind`
/// alone, and a cast never partially succeeds.
pub trait AstNode: Sized {
    /// Which node kinds this wrapper accepts.
    spec fn castable(kind: SyntaxKind) -> bool;

    /// The wrapped untyped node.
    spec fn syntax_spec(self) -> SyntaxNode;

    fn can_cast(kind: SyntaxKind) -> (r: bool)
        ensures
            r == Self::castable(kind),
    ;

    fn cast(syntax: SyntaxNode) -> (r: Option<Self>)
        ensures
            (r is Some) == Self::castable(syntax.kind),
            r matches Some(n) ==> n.syntax_spec() == syntax,
    ;

    fn syntax(&self) -> (r: &SyntaxNode)
        ensures
            *r == self.syntax_spec(),
    ;
}

/// The element at `j` is a node this wrapper accepts.
pub open spec fn castable_node_at<N: AstNode>(s: Seq<SyntaxElement>, j: int) -> bool {
    s[j] matches SyntaxElement::Node(n) && N::castable(n.kind)
}

/// The view of the node inside an element (meaningful only for nodes).
pub open spec fn elem_node_view(e: SyntaxElement) -> NodeV {
    match e {
        SyntaxElement::Node(n) => node_view(n),
        SyntaxElement::Token(t) => NodeV { kind: t.kind, children: Seq::empty() },
    }
}

/// The element at `j` is a token of the given kind.
pub open spec fn token_at(s: Seq<SyntaxElement>, j: int, kind: SyntaxKind) -> bool {
    s[j] matches SyntaxElement::Token(t) && t.kind == kind
}

/// The text of the token inside an element (meaningful only for tokens).
pub open spec fn elem_token_text(e: SyntaxElement) -> Seq<u8> {
    match e {
        SyntaxElement::Token(t) => t.text@,
        SyntaxElement::Node(n) => Seq::empty(),
    }
}

/// The views of the first `i` children that cast to `N`, in order.
pub open spec fn cast_children_views<N: AstNode>(s: Seq<SyntaxElement>, i: int) -> Seq<NodeV>
    decreases i,
{
    if i <= 0 || i > s.len() {
        Seq::empty()
    } else {
        let rest = cast_children_views::<N>(s, i - 1);
        if castable_node_at::<N>(s, i - 1) {
            rest.push(elem_node_view(s[i - 1]))
        } else {
            rest
        }
    }
}

/// `r` is the first immediate child of `parent` casting to `N` (or there
/// is none).
pub open spec fn is_first_child<N: AstNode>(parent: SyntaxNode, r: Option<N>) -> bool {
    match r {
        Some(x) => exists|j: int|
            0 <= j < parent.children@.len() && #[trigger] castable_node_at::<N>(
                parent.children@,
                j,
            ) && x.syntax_spec()@ == elem_node_view(parent.children@[j]) && (forall|k: int|
                0 <= k < j ==> !castable_node_at::<N>(parent.children@, k)),
        None => forall|j: int|
            0 <= j < parent.children@.len() ==> !(#[trigger] castable_node_at::<N>(
                parent.children@,
                j,
            )),
    }
}

/// `r` is the `n`-th immediate child of `parent` casting to `N` (or
/// there are at most `n` such children).
pub open spec fn is_nth_child<N: AstNode>(parent: SyntaxNode, n: int, r: Option<N>) -> bool {
    match r {
        Some(x) => exists|j: int|
            0 <= j < parent.children@.len() && #[trigger] castable_node_at::<N>(
                parent.children@,
                j,
            ) && x.syntax_spec()@ == elem_node_view(parent.children@[j]) && cast_children_views::<
                N,
            >(parent.children@, j).len() == n,
        None => cast_children_views::<N>(
            parent.children@,
            parent.children@.len() as int,
        ).len() <= n,
    }
}

/// `r` holds the views of every immediate child of `parent` casting to
/// `N`, in document order.
pub open spec fn are_children<N: AstNode>(parent: SyntaxNode, r: Seq<N>) -> bool {
    r.map_values(|x: N| x.syntax_spec()@) == cast_children_views::<N>(
        parent.children@,
        parent.children@.len() as int,
    )
}

/// `r` is the first immediate token child of the given kind (or there is
/// none).
pub open spec fn is_first_token(parent: SyntaxNode, kind: SyntaxKind, r: Option<
    SyntaxToken,
>) -> bool {
    match r {
        Some(t) => t.kind == kind && exists|j: int|
            0 <= j < parent.children@.len() && #[trigger] token_at(parent.children@, j, kind)
                && t.text@ == elem_token_text(parent.children@[j]) && (forall|k: int|
                0 <= k < j ==> !token_at(parent.children@, k, kind)),
        None => forall|j: int|
            0 <= j < parent.children@.len() ==> !(#[trigger] token_at(
                parent.children@,
                j,
                kind,
            )),
    }
}

/// The first immediate child that casts to `N`, if any.
pub fn support_child<N: AstNode>(parent: &SyntaxNode) -> (r: Option<N>)
    ensures
        is_first_child::<N>(*parent, r),
{
    let r = support_nth_child::<N>(parent, 0);
    proof {
        lemma_cast_views_count::<N>(parent.children@, parent.children@.len() as int);
        if r is Some {
            let j = choose|j: int|
                0 <= j < parent.children@.len() && #[trigger] castable_node_at::<N>(
                    parent.children@,
                    j,
                ) && r->Some_0.syntax_spec()@ == elem_node_view(parent.children@[j])
                    && cast_children_views::<N>(parent.children@, j).len() == 0;
            lemma_cast_views_count::<N>(parent.children@, j);
        }
    }
    r
}

/// A prefix yields no cast children exactly when none of its elements is
/// castable.
proof fn lemma_cast_views_count<N: AstNode>(s: Seq<SyntaxElement>, j: int)
    requires
        0 <= j <= s.len(),
    ensures
        (cast_children_views::<N>(s, j).len() == 0) <==> (forall|k: int|
            0 <= k < j ==> !(#[trigger] castable_node_at::<N>(s, k))),
    decreases j,
{
    if j > 0 {
        lemma_cast_views_count::<N>(s, j - 1);
    }
}

/// The `n`-th (0-based) immediate child that casts to `N`, if any.
pub fn support_nth_child<N: AstNode>(parent: &SyntaxNode, n: usize) -> (r: Option<N>)
    ensures
        is_nth_child::<N>(*parent, n as int, r),
{
    let ghost s = parent.children@;
    let mut seen: usize = 0;
    let mut i: usize = 0;
    while i < parent.children.len()
        invariant
            i <= parent.children@.len(),
            parent.children@ == s,
            seen as int == cast_children_views::<N>(s, i as int).len(),
            seen <= n,
        decreases parent.children@.len() - i,
    {
        let found = match &parent.children[i] {
            SyntaxElement::Node(node) => N::can_cast(node.kind),
            SyntaxElement::Token(t) => false,
        };
        if found {
            if seen == n {
                let node = match &parent.children[i] {
                    SyntaxElement::Node(node) => node.deep_clone(),
                    SyntaxElement::Token(t) => {
                        proof {
                            assert(false);
                        }
                        SyntaxNode { kind: SyntaxKind::ERROR, children: Vec::new() }
                    },
                };
                let cast = N::cast(node);
                match cast {
                    Some(x) => {
                        proof {
                            assert(castable_node_at::<N>(s, i as int));
                        }
                        return Some(x);
                    },
                    None => {
                        proof {
                            assert(false);
                        }
                        return None;
                    },
                }
            }
            seen = seen + 1;
        }
        i = i + 1;
    }
    proof {
        assert(cast_children_views::<N>(s, s.len() as int).len() == seen);
    }
    None
}

/// Every immediate child that casts to `N`, in document order.
pub fn support_children<N: AstNode>(parent: &SyntaxNode) -> (r: Vec<N>)
    ensures
        are_children::<N>(*parent, r@),
{
    let ghost s = parent.children@;
    let mut out: Vec<N> = Vec::new();
    let mut i: usize = 0;
    while i < parent.children.len()
        invariant
            i <= parent.children@.len(),
            parent.children@ == s,
            out@.map_values(|x: N| x.syntax_spec()@) =~= cast_children_views::<N>(s, i as int),
        decreases parent.children@.len() - i,
    {
        let ghost out0 = out@;
        match &parent.children[i] {
            SyntaxElement::Node(node) => {
                if N::can_cast(node.kind) {
                    let cloned = node.deep_clone();
                    let cast = N::cast(cloned);
                    match cast {
                        Some(x) => {
                            out.push(x);
                            proof {
                                assert(out@.map_values(|y: N| y.syntax_spec()@)
                                    =~= out0.map_values(|y: N| y.syntax_spec()@).push(
                                    x.syntax_spec()@,
                                ));
                                assert(castable_node_at::<N>(s, i as int));
                            }
                        },
                        None => {
                            proof {
                                assert(false);
                            }
                        },
                    }
                }
            },
            SyntaxElement::Token(t) => {},
        }
        i = i + 1;
    }
    out
}

/// The first immediate token child of the given kind, if any.
pub fn support_token(parent: &SyntaxNode, kind: SyntaxKind) -> (r: Option<SyntaxToken>)
    ensures
        is_first_token(*parent, kind, r),
{
    let ghost s = parent.children@;
    let mut i: usize = 0;
    while i < parent.children.len()
        invariant
            i <= parent.children@.len(),
            parent.children@ == s,
            forall|k: int| 0 <= k < i ==> !token_at(s, k, kind),
        decreases parent.children@.len() - i,
    {
        match &parent.children[i] {
            SyntaxElement::Token(t) => {
                if t.kind == kind {
                    let text = vstd::slice::slice_to_vec(t.text.as_slice());
                    let tok = SyntaxToken { kind: t.kind, text };
                    proof {
                        assert(token_at(s, i as int, kind));
                    }
                    return Some(tok);
                }
            },
            SyntaxElement::Node(n) => {},
        }
        i = i + 1;
    }
    None
}

} // verus!
