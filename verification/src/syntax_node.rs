//! The lossless concrete syntax tree and its append-only builder.
//!
//! Every node has a kind and an ordered sequence of children (nodes and
//! tokens interleaved); every token, whitespace and comments included,
//! appears exactly once as a leaf.  The builder mirrors the event stream:
//! `start_node` / `token` / `finish_node` calls grow the tree, and the
//! concatenation of all token texts fed in is exactly the text of the
//! finished tree — the round-trip guarantee.

use vstd::prelude::*;
use crate::syntax_error::SyntaxError;
use crate::syntax_kind::SyntaxKind;

verus! {

/// A leaf of the tree: a token's kind and its exact bytes.
#[derive(Debug, PartialEq, Eq, Hash)]
#[verifier::ext_equal]
pub struct SyntaxToken {
    pub kind: SyntaxKind,
    pub text: Vec<u8>,
}

/// A child of a node: either a nested node or a token leaf.
#[derive(Debug, PartialEq, Eq, Hash)]
#[verifier::ext_equal]
pub enum SyntaxElement {
    Node(SyntaxNode),
    Token(SyntaxToken),
}

/// An interior node: its kind and its children in document order.
#[derive(Debug, PartialEq, Eq, Hash)]
#[verifier::ext_equal]
pub struct SyntaxNode {
    pub kind: SyntaxKind,
    pub children: Vec<SyntaxElement>,
}

/// The text of one element.
pub open spec fn elem_text(e: SyntaxElement) -> Seq<u8>
    decreases e, 0int,
{
    match e {
        SyntaxElement::Token(t) => t.text@,
        SyntaxElement::Node(n) => node_text(n),
    }
}

/// The concatenated text of the first `i` elements.
pub open spec fn elems_text(s: Seq<SyntaxElement>, i: int) -> Seq<u8>
    decreases s, i,
{
    if i <= 0 || i > s.len() {
        Seq::empty()
    } else {
        elems_text(s, i - 1) + elem_text(s[i - 1])
    }
}

/// The text of a whole node: the concatenation of its leaves in order.
pub open spec fn node_text(n: SyntaxNode) -> Seq<u8>
    decreases n, 1int,
{
    elems_text(n.children@, n.children@.len() as int)
}

/// The mathematical value of an element: kinds, structure, and token
/// bytes, with the container bookkeeping abstracted away.
pub ghost enum ElemV {
    Node(NodeV),
    Token(SyntaxKind, Seq<u8>),
}

/// The mathematical value of a node.
pub ghost struct NodeV {
    pub kind: SyntaxKind,
    pub children: Seq<ElemV>,
}

pub open spec fn elem_view(e: SyntaxElement) -> ElemV
    decreases e, 0int,
{
    match e {
        SyntaxElement::Token(t) => ElemV::Token(t.kind, t.text@),
        SyntaxElement::Node(n) => ElemV::Node(node_view(n)),
    }
}

pub open spec fn elems_view(s: Seq<SyntaxElement>, i: int) -> Seq<ElemV>
    decreases s, i,
{
    if i <= 0 || i > s.len() {
        Seq::empty()
    } else {
        elems_view(s, i - 1).push(elem_view(s[i - 1]))
    }
}

pub open spec fn node_view(n: SyntaxNode) -> NodeV
    decreases n, 1int,
{
    NodeV { kind: n.kind, children: elems_view(n.children@, n.children@.len() as int) }
}

impl View for SyntaxNode {
    type V = NodeV;

    open spec fn view(&self) -> NodeV {
        node_view(*self)
    }
}

impl View for SyntaxElement {
    type V = ElemV;

    open spec fn view(&self) -> ElemV {
        elem_view(*self)
    }
}

/// Pushing onto an element sequence leaves the views of prefixes alone.
pub proof fn lemma_elems_view_push_prefix(s: Seq<SyntaxElement>, e: SyntaxElement, i: int)
    requires
        0 <= i <= s.len(),
    ensures
        elems_view(s.push(e), i) == elems_view(s, i),
    decreases i,
{
    if i > 0 {
        lemma_elems_view_push_prefix(s, e, i - 1);
        assert(s.push(e)[i - 1] == s[i - 1]);
    }
}

/// Extending an element sequence appends its view.
pub proof fn lemma_elems_view_push(s: Seq<SyntaxElement>, e: SyntaxElement)
    ensures
        elems_view(s.push(e), s.len() as int + 1) == elems_view(s, s.len() as int).push(
            elem_view(e),
        ),
{
    lemma_elems_view_push_prefix(s, e, s.len() as int);
    assert(s.push(e)[s.len() as int] == e);
}

/// Extending an element sequence leaves the text of shorter prefixes
/// alone.
pub proof fn lemma_elems_text_push_prefix(s: Seq<SyntaxElement>, e: SyntaxElement, i: int)
    requires
        0 <= i <= s.len(),
    ensures
        elems_text(s.push(e), i) == elems_text(s, i),
    decreases i,
{
    if i > 0 {
        lemma_elems_text_push_prefix(s, e, i - 1);
        assert(s.push(e)[i - 1] == s[i - 1]);
    }
}

/// Extending an element sequence extends its full text on the right.
pub proof fn lemma_elems_text_push(s: Seq<SyntaxElement>, e: SyntaxElement)
    ensures
        elems_text(s.push(e), s.len() as int + 1) == elems_text(s, s.len() as int) + elem_text(e),
{
    lemma_elems_text_push_prefix(s, e, s.len() as int);
    assert(s.push(e)[s.len() as int] == e);
}

/// One still-open node in the builder: its kind and the children
/// collected so far.
#[derive(Debug)]
pub struct PartialNode {
    pub kind: SyntaxKind,
    pub children: Vec<SyntaxElement>,
}

/// The text collected in one frame.
pub open spec fn frame_text(f: PartialNode) -> Seq<u8> {
    elems_text(f.children@, f.children@.len() as int)
}

/// The concatenated text of the first `i` open frames, bottom up.
pub open spec fn frames_text(s: Seq<PartialNode>, i: int) -> Seq<u8>
    decreases i,
{
    if i <= 0 || i > s.len() {
        Seq::empty()
    } else {
        frames_text(s, i - 1) + frame_text(s[i - 1])
    }
}

proof fn lemma_frames_text_push_prefix(s: Seq<PartialNode>, f: PartialNode, i: int)
    requires
        0 <= i <= s.len(),
    ensures
        frames_text(s.push(f), i) == frames_text(s, i),
    decreases i,
{
    if i > 0 {
        lemma_frames_text_push_prefix(s, f, i - 1);
        assert(s.push(f)[i - 1] == s[i - 1]);
    }
}

proof fn lemma_frames_text_push(s: Seq<PartialNode>, f: PartialNode)
    ensures
        frames_text(s.push(f), s.len() as int + 1) == frames_text(s, s.len() as int) + frame_text(f),
{
    lemma_frames_text_push_prefix(s, f, s.len() as int);
    assert(s.push(f)[s.len() as int] == f);
}

/// The builder: a stack of open nodes, the finished root once the last
/// node closes, and the collected errors.
#[derive(Debug)]
pub struct SyntaxTreeBuilder {
    pub stack: Vec<PartialNode>,
    pub root: Option<SyntaxNode>,
    pub errors: Vec<SyntaxError>,
}

impl SyntaxTreeBuilder {
    /// How many nodes are open.
    pub open spec fn depth(self) -> int {
        self.stack@.len() as int
    }

    /// All text fed in so far (while at least one node is open).
    pub open spec fn text(self) -> Seq<u8> {
        frames_text(self.stack@, self.stack@.len() as int)
    }

    pub fn new() -> (b: SyntaxTreeBuilder)
        ensures
            b.depth() == 0,
            b.text() =~= Seq::<u8>::empty(),
            b.root is None,
            b.errors@ =~= Seq::<SyntaxError>::empty(),
    {
        SyntaxTreeBuilder { stack: Vec::new(), root: None, errors: Vec::new() }
    }

    /// Opens a new node.
    pub fn start_node(&mut self, kind: SyntaxKind)
        ensures
            final(self).depth() == old(self).depth() + 1,
            final(self).text() == old(self).text(),
            final(self).root == old(self).root,
            final(self).errors == old(self).errors,
            forall|i: int|
                0 <= i < old(self).stack@.len() ==> final(self).stack@[i] == old(self).stack@[i],
            final(self).stack@.last().kind == kind,
    {
        let ghost s0 = self.stack@;
        let f = PartialNode { kind, children: Vec::new() };
        proof {
            lemma_frames_text_push(s0, f);
            assert(frame_text(f) =~= Seq::<u8>::empty());
        }
        self.stack.push(f);
    }

    /// Appends a token leaf to the innermost open node.
    pub fn token(&mut self, kind: SyntaxKind, text: Vec<u8>)
        requires
            old(self).depth() >= 1,
        ensures
            final(self).depth() == old(self).depth(),
            final(self).text() == old(self).text() + text@,
            final(self).root == old(self).root,
            final(self).errors == old(self).errors,
            forall|i: int|
                0 <= i < old(self).stack@.len() - 1 ==> final(self).stack@[i] == old(
                    self,
                ).stack@[i],
            final(self).stack@.last().kind == old(self).stack@.last().kind,
    {
        let ghost s0 = self.stack@;
        let elem = SyntaxElement::Token(SyntaxToken { kind, text });
        let popped = self.stack.pop();
        if let Some(mut f) = popped {
            let ghost f0 = f;
            f.children.push(elem);
            proof {
                lemma_elems_text_push(f0.children@, elem);
                assert(frame_text(f) == frame_text(f0) + elem_text(elem));
                lemma_frames_text_push(s0.drop_last(), f0);
                lemma_frames_text_push(s0.drop_last(), f);
                assert(s0.drop_last().push(f0) =~= s0);
            }
            self.stack.push(f);
            proof {
                assert(self.stack@ =~= s0.drop_last().push(f));
                assert(frames_text(s0, s0.len() as int) == frames_text(
                    s0.drop_last(),
                    s0.len() - 1,
                ) + frame_text(f0)) by {
                    lemma_frames_text_eq(s0.drop_last().push(f0), s0, s0.len() as int);
                }
                assert(elem_text(elem) == text@);
            }
        } else {
            proof {
                assert(false);
            }
        }
    }

    /// Closes the innermost open node, attaching it to its parent, or
    /// recording it as the finished root if it was the outermost one.
    pub fn finish_node(&mut self)
        requires
            old(self).depth() >= 1,
            old(self).depth() == 1 ==> old(self).root is None,
        ensures
            final(self).depth() == old(self).depth() - 1,
            final(self).errors == old(self).errors,
            old(self).depth() >= 2 ==> {
                &&& final(self).text() == old(self).text()
                &&& final(self).root == old(self).root
                &&& (forall|i: int|
                    0 <= i < old(self).stack@.len() - 2 ==> final(self).stack@[i] == old(
                        self,
                    ).stack@[i])
                &&& final(self).stack@.last().kind == old(self).stack@[old(self).stack@.len()
                    - 2].kind
            },
            old(self).depth() == 1 ==> {
                &&& final(self).root matches Some(n) && node_text(n) == old(self).text()
                    && n.kind == old(self).stack@[0].kind
            },
    {
        let ghost s0 = self.stack@;
        let popped = self.stack.pop();
        if let Some(f) = popped {
            let node = SyntaxNode { kind: f.kind, children: f.children };
            proof {
                assert(node_text(node) == frame_text(f));
                assert(s0.drop_last().push(f) =~= s0);
                lemma_frames_text_eq(s0.drop_last().push(f), s0, s0.len() as int);
                lemma_frames_text_push(s0.drop_last(), f);
            }
            if self.stack.len() == 0 {
                proof {
                    assert(frames_text(s0.drop_last(), 0) =~= Seq::<u8>::empty());
                    assert(Seq::<u8>::empty() + frame_text(f) =~= frame_text(f));
                }
                self.root = Some(node);
            } else {
                let ghost s1 = self.stack@;
                let popped2 = self.stack.pop();
                if let Some(mut parent) = popped2 {
                    let ghost p0 = parent;
                    let elem = SyntaxElement::Node(node);
                    parent.children.push(elem);
                    proof {
                        lemma_elems_text_push(p0.children@, elem);
                        assert(frame_text(parent) == frame_text(p0) + elem_text(elem));
                        assert(elem_text(elem) == frame_text(f));
                        lemma_frames_text_push(s1.drop_last(), p0);
                        lemma_frames_text_push(s1.drop_last(), parent);
                        assert(s1.drop_last().push(p0) =~= s1);
                        lemma_frames_text_eq(s1.drop_last().push(p0), s1, s1.len() as int);
                    }
                    self.stack.push(parent);
                    proof {
                        assert(self.stack@ =~= s1.drop_last().push(parent));
                        assert(s1 =~= s0.drop_last());
                        lemma_frames_text_eq(s0.drop_last(), s1, s1.len() as int);
                        assert(old(self).text() == frames_text(s1, s1.len() as int) + frame_text(
                            f,
                        ));
                        assert(frames_text(s1, s1.len() as int) == frames_text(
                            s1.drop_last(),
                            s1.len() - 1,
                        ) + frame_text(p0));
                        assert(self.text() == frames_text(s1.drop_last(), s1.len() - 1)
                            + frame_text(parent));
                        assert(self.text() =~= old(self).text());
                    }
                } else {
                    proof {
                        assert(false);
                    }
                }
            }
        } else {
            proof {
                assert(false);
            }
        }
    }

    /// Records an error at the given byte offset.
    pub fn error(&mut self, message: String, offset: usize)
        ensures
            final(self).stack == old(self).stack,
            final(self).root == old(self).root,
            final(self).errors@ == old(self).errors@.push(
                SyntaxError { message, start: offset, end: offset },
            ),
    {
        self.errors.push(SyntaxError { message, start: offset, end: offset });
    }

    /// Hands out the finished tree and the collected errors.
    pub fn finish(self) -> (r: (SyntaxNode, Vec<SyntaxError>))
        requires
            self.depth() == 0,
            self.root is Some,
        ensures
            Some(r.0) == self.root,
            r.1 == self.errors,
    {
        let root = self.root;
        if let Some(n) = root {
            (n, self.errors)
        } else {
            proof {
                assert(false);
            }
            (SyntaxNode { kind: SyntaxKind::ERROR, children: Vec::new() }, self.errors)
        }
    }
}

/// Two equal frame sequences have the same text (pointwise rewriting).
proof fn lemma_frames_text_eq(a: Seq<PartialNode>, b: Seq<PartialNode>, i: int)
    requires
        a == b,
    ensures
        frames_text(a, i) == frames_text(b, i),
{
}

impl SyntaxElement {
    /// The bytes this element covers, appended to `out`.
    pub fn push_text(&self, out: &mut Vec<u8>)
        ensures
            final(out)@ == old(out)@ + elem_text(*self),
        decreases *self, 0int,
    {
        match self {
            SyntaxElement::Token(t) => {
                let ghost out0 = out@;
                let mut i: usize = 0;
                while i < t.text.len()
                    invariant
                        i <= t.text@.len(),
                        out@ == out0 + t.text@.subrange(0, i as int),
                    decreases t.text@.len() - i,
                {
                    out.push(t.text[i]);
                    proof {
                        assert(out@ =~= out0 + t.text@.subrange(0, i + 1));
                    }
                    i = i + 1;
                }
                proof {
                    assert(t.text@.subrange(0, t.text@.len() as int) =~= t.text@);
                }
            },
            SyntaxElement::Node(n) => {
                n.push_text(out);
            },
        }
    }
}

impl SyntaxNode {
    /// The text of this node: the concatenation of its leaves, appended
    /// to `out`.
    pub fn push_text(&self, out: &mut Vec<u8>)
        ensures
            final(out)@ == old(out)@ + node_text(*self),
        decreases *self, 1int,
    {
        let ghost out0 = out@;
        let mut i: usize = 0;
        while i < self.children.len()
            invariant
                i <= self.children@.len(),
                out@ == out0 + elems_text(self.children@, i as int),
            decreases self.children@.len() - i,
        {
            proof {
                broadcast use vstd::std_specs::vec::axiom_vec_index_decreases;

            }
            let ghost mid = out@;
            let child = &self.children[i];
            child.push_text(out);
            proof {
                assert(out@ =~= out0 + (elems_text(self.children@, i as int) + elem_text(
                    self.children@[i as int],
                )));
            }
            i = i + 1;
        }
    }

    /// The exact bytes this node's leaves spell, in order.
    pub fn text(&self) -> (r: Vec<u8>)
        ensures
            r@ == node_text(*self),
    {
        let mut out: Vec<u8> = Vec::new();
        self.push_text(&mut out);
        proof {
            assert(Seq::<u8>::empty() + node_text(*self) =~= node_text(*self));
        }
        out
    }
}

impl SyntaxElement {
    /// A copy with the same mathematical value and the same text.
    pub fn deep_clone(&self) -> (r: SyntaxElement)
        ensures
            r@ == self@,
            elem_text(r) == elem_text(*self),
        decreases *self, 0int,
    {
        match self {
            SyntaxElement::Token(t) => {
                let text = vstd::slice::slice_to_vec(t.text.as_slice());
                let tok = SyntaxToken { kind: t.kind, text };
                SyntaxElement::Token(tok)
            },
            SyntaxElement::Node(n) => {
                let c = n.deep_clone();
                proof {
                    assert(elem_text(SyntaxElement::Node(c)) == node_text(c));
                }
                SyntaxElement::Node(c)
            },
        }
    }
}

impl SyntaxNode {
    /// A copy with the same mathematical value and the same text.
    pub fn deep_clone(&self) -> (r: SyntaxNode)
        ensures
            r@ == self@,
            node_text(r) == node_text(*self),
            r.kind == self.kind,
        decreases *self, 1int,
    {
        let mut children: Vec<SyntaxElement> = Vec::new();
        let mut i: usize = 0;
        while i < self.children.len()
            invariant
                i <= self.children@.len(),
                children@.len() == i,
                elems_view(children@, i as int) == elems_view(self.children@, i as int),
                elems_text(children@, i as int) == elems_text(self.children@, i as int),
            decreases self.children@.len() - i,
        {
            proof {
                broadcast use vstd::std_specs::vec::axiom_vec_index_decreases;

            }
            let ghost cs0 = children@;
            let child = &self.children[i];
            let cloned = child.deep_clone();
            proof {
                lemma_elems_view_push(cs0, cloned);
                lemma_elems_view_push_prefix(cs0, cloned, i as int);
                lemma_elems_text_push(cs0, cloned);
                lemma_elems_text_push_prefix(cs0, cloned, i as int);
            }
            children.push(cloned);
            i = i + 1;
        }
        let r = SyntaxNode { kind: self.kind, children };
        proof {
            assert(r@.children =~= self@.children);
            assert(r@ =~= self@);
        }
        r
    }
}

} // verus!
