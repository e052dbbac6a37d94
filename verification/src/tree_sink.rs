//! The event processor / tree sink: replays the flat event stream into
//! the lossless tree.
//!
//! A single pass over the events drives the builder.  A `Start` that is
//! the first member of a forward-parent chain opens every node of its
//! chain, outermost first; chain members are skipped at their own
//! positions.  A `Token` event first attaches any pending trivia tokens
//! from the retained token history, then the semantic token itself, each
//! with its exact slice of the source text.  Before the final `Finish`
//! closes the root, every remaining retained token is attached, so the
//! finished tree reproduces the input byte for byte.

use vstd::prelude::*;
use vstd::slice::{slice_subrange, slice_to_vec};
use crate::event::{
    chain_opens, fp_target, has_pred, link, finish_count, open_count, opens_at, start_kind, Event,
};
use crate::grammar::root_nested;
use crate::lexer::{lens_sum, lemma_lens_sum_take_bound, lemma_lens_sum_take_succ, Token};
use crate::syntax_error::SyntaxError;
use crate::syntax_kind::SyntaxKind;
use crate::syntax_node::{node_text, SyntaxNode, SyntaxTreeBuilder};

verus! {

/// Copies `text[start .. end]` into a fresh buffer.
fn text_slice(text: &Vec<u8>, start: usize, end: usize) -> (r: Vec<u8>)
    requires
        start <= end <= text@.len(),
    ensures
        r@ == text@.subrange(start as int, end as int),
{
    let s = slice_subrange(text.as_slice(), start, end);
    slice_to_vec(s)
}

fn event_start_info(e: &Event) -> (r: (bool, SyntaxKind, Option<usize>))
    ensures
        r.0 == (*e is Start),
        r.0 ==> *e == (Event::Start { kind: r.1, forward_parent: r.2 }),
{
    match e {
        Event::Start { kind, forward_parent } => (true, *kind, *forward_parent),
        _ => (false, SyntaxKind::TOMBSTONE, None),
    }
}

/// Attaches the next retained token to the innermost open node with its
/// exact text slice (`EOF` sentinels contribute nothing and are skipped).
fn emit_one(
    b: &mut SyntaxTreeBuilder,
    tokens: &Vec<Token>,
    text: &Vec<u8>,
    c: &mut usize,
    pos: &mut usize,
)
    requires
        *old(c) < tokens@.len(),
        old(b).depth() >= 1,
        *old(pos) as int == lens_sum(tokens@.take(*old(c) as int)),
        lens_sum(tokens@) == text@.len(),
        old(b).text() == text@.subrange(0, *old(pos) as int),
        forall|i: int|
            0 <= i < tokens@.len() ==> ((#[trigger] tokens@[i].kind) is EOF ==> tokens@[i].len
                == 0),
    ensures
        *final(c) == *old(c) + 1,
        *final(pos) == *old(pos) + tokens@[*old(c) as int].len,
        *final(pos) as int == lens_sum(tokens@.take(*final(c) as int)),
        *final(pos) <= text@.len(),
        final(b).depth() == old(b).depth(),
        final(b).text() == text@.subrange(0, *final(pos) as int),
        final(b).root == old(b).root,
        final(b).errors == old(b).errors,
        final(b).stack@.last().kind == old(b).stack@.last().kind,
        forall|i: int|
            0 <= i < old(b).stack@.len() - 1 ==> final(b).stack@[i] == old(b).stack@[i],
{
    let t = tokens[*c];
    proof {
        lemma_lens_sum_take_succ(tokens@, *c as int);
        lemma_lens_sum_take_bound(tokens@, *c as int + 1);
        assert(text@.len() == text.len());
        assert(tokens@.len() == tokens.len());
        assert(*pos + t.len <= text@.len());
    }
    let start = *pos;
    let end = *pos + t.len;
    if t.kind == SyntaxKind::EOF {
        proof {
            assert(t.len == 0);
            assert(text@.subrange(0, start as int) =~= text@.subrange(0, end as int));
        }
    } else {
        let piece = text_slice(text, start, end);
        let ghost b0 = *b;
        b.token(t.kind, piece);
        proof {
            assert(b.text() =~= text@.subrange(0, end as int)) by {
                assert(b.text() == b0.text() + text@.subrange(start as int, end as int));
            }
        }
    }
    *pos = end;
    *c = *c + 1;
}

/// Replays `events` into a tree, interleaving the retained `tokens` with
/// their exact text slices.  The resulting tree is rooted at a
/// `SOURCE_FILE` node whose text is the whole input — the round-trip
/// guarantee.
pub fn process(events: &Vec<Event>, tokens: &Vec<Token>, text: &Vec<u8>) -> (r: (
    SyntaxNode,
    Vec<SyntaxError>,
))
    requires
        root_nested(events@),
        lens_sum(tokens@) == text@.len(),
        forall|i: int|
            0 <= i < tokens@.len() ==> ((#[trigger] tokens@[i].kind) is EOF ==> tokens@[i].len
                == 0),
    ensures
        node_text(r.0) == text@,
        r.0.kind is SOURCE_FILE,
        r.1@.len() == crate::event::error_count(events@, events@.len() as int),
        forall|k: int|
            0 <= k < r.1@.len() ==> (#[trigger] r.1@[k]).start == r.1@[k].end && r.1@[k].end
                <= text@.len(),
{
    let ghost es = events@;
    let n = events.len();
    // which positions are members of a forward-parent chain
    let mut consumed: Vec<bool> = Vec::new();
    let mut z: usize = 0;
    while z < n
        invariant
            z <= n,
            consumed@.len() == z,
            forall|i: int| 0 <= i < z ==> !consumed@[i],
        decreases n - z,
    {
        consumed.push(false);
        z = z + 1;
    }
    let mut j: usize = 0;
    while j < n
        invariant
            j <= n,
            n == es.len(),
            events@ == es,
            root_nested(es),
            consumed@.len() == n,
            forall|i: int|
                0 <= i < n ==> (#[trigger] consumed@[i] <==> exists|j2: int|
                    0 <= j2 < j && link(es, j2, i)),
        decreases n - j,
    {
        let (is_start, k, fp) = event_start_info(&events[j]);
        let ghost c0 = consumed@;
        let mut target: Option<usize> = None;
        if is_start {
            match fp {
                Some(d) => {
                    proof {
                        assert(fp_target(es, j as int) == Some(j + d));
                    }
                    let t = j + d;
                    consumed[t] = true;
                    target = Some(t);
                },
                None => {},
            }
        }
        proof {
            match target {
                Some(t) => {
                    assert(link(es, j as int, t as int));
                    assert forall|i: int| 0 <= i < n implies (#[trigger] consumed@[i] <==> exists|
                        j2: int,
                    | 0 <= j2 < j + 1 && link(es, j2, i)) by {
                        if i == t {
                            assert(link(es, j as int, i));
                        } else {
                            assert(consumed@[i] == c0[i]);
                            assert forall|j2: int|
                                0 <= j2 < j + 1 && link(es, j2, i) implies j2 < j by {
                                if j2 == j {
                                    assert(fp_target(es, j2) == Some(i));
                                    assert(fp_target(es, j2) == Some(t as int));
                                }
                            }
                        }
                    }
                },
                None => {
                    assert(fp_target(es, j as int) is None);
                    assert forall|i: int| 0 <= i < n implies (#[trigger] consumed@[i] <==> exists|
                        j2: int,
                    | 0 <= j2 < j + 1 && link(es, j2, i)) by {
                        assert forall|j2: int|
                            0 <= j2 < j + 1 && link(es, j2, i) implies j2 < j by {
                            if j2 == j {
                                assert(fp_target(es, j2) == Some(i));
                            }
                        }
                    }
                },
            }
        }
        j = j + 1;
    }
    proof {
        assert forall|i: int| 0 <= i < n implies (#[trigger] consumed@[i] <==> has_pred(es, i))
            by {
            if has_pred(es, i) {
                let j2 = choose|j2: int| link(es, j2, i);
                assert(0 <= j2 < n) by {
                    assert(fp_target(es, j2) == Some(i));
                }
            }
            if consumed@[i] {
                let j2 = choose|j2: int| 0 <= j2 < n && link(es, j2, i);
                assert(has_pred(es, i));
            }
        }
    }

    // main replay pass
    let mut b = SyntaxTreeBuilder::new();
    let mut c: usize = 0;  // next retained token
    let mut pos: usize = 0;  // byte offset reached
    let mut i: usize = 0;
    proof {
        assert(text@.subrange(0, 0) =~= Seq::<u8>::empty());
        assert(tokens@.take(0) =~= Seq::<Token>::empty());
    }
    while i < n
        invariant
            i <= n,
            n == es.len(),
            events@ == es,
            root_nested(es),
            consumed@.len() == n,
            forall|i2: int| 0 <= i2 < n ==> (#[trigger] consumed@[i2] <==> has_pred(es, i2)),
            c <= tokens@.len(),
            pos as int == lens_sum(tokens@.take(c as int)),
            pos <= text@.len(),
            lens_sum(tokens@) == text@.len(),
            forall|i2: int|
                0 <= i2 < tokens@.len() ==> ((#[trigger] tokens@[i2].kind) is EOF
                    ==> tokens@[i2].len == 0),
            b.depth() == open_count(es, i as int) - finish_count(es, i as int),
            b.errors@.len() == crate::event::error_count(es, i as int),
            forall|k2: int|
                0 <= k2 < b.errors@.len() ==> (#[trigger] b.errors@[k2]).start
                    == b.errors@[k2].end && b.errors@[k2].end <= text@.len(),
            i < n ==> b.root is None,
            i < n ==> b.text() == text@.subrange(0, pos as int),
            b.depth() >= 1 ==> b.stack@[0].kind is SOURCE_FILE,
            i == n ==> (b.root matches Some(rt) && node_text(rt) == text@ && rt.kind
                is SOURCE_FILE && b.depth() == 0),
        decreases n - i,
    {
        let (is_start, k, fp) = event_start_info(&events[i]);
        if is_start {
            let skip = consumed[i] || (k == SyntaxKind::TOMBSTONE && fp.is_none());
            if skip {
                proof {
                    assert(opens_at(es, i as int) == 0) by {
                        if !has_pred(es, i as int) {
                            assert(start_kind(es[i as int]) is TOMBSTONE);
                            assert(fp_target(es, i as int) is None);
                            assert(chain_opens(es, i as int) =~= Seq::<SyntaxKind>::empty());
                        }
                    }
                }
            } else {
                // collect the chain's kinds, own kind first
                let mut kinds: Vec<SyntaxKind> = Vec::new();
                let mut cur = i;
                loop
                    invariant_except_break
                        chain_opens(es, i as int) =~= chain_opens(es, cur as int)
                            + kinds@.reverse(),
                    invariant
                        n == es.len(),
                        events@ == es,
                        root_nested(es),
                        0 <= cur < n,
                    ensures
                        events@ == es,
                        chain_opens(es, i as int) =~= kinds@.reverse(),
                    decreases n - cur,
                {
                    let (cs, ck, cfp) = event_start_info(&events[cur]);
                    if !cs {
                        proof {
                            assert(chain_opens(es, cur as int) =~= Seq::<SyntaxKind>::empty());
                            assert(chain_opens(es, i as int) =~= kinds@.reverse());
                        }
                        break;
                    }
                    let ghost kinds0 = kinds@;
                    let ghost own: Seq<SyntaxKind> = if start_kind(es[cur as int]) is TOMBSTONE {
                        Seq::empty()
                    } else {
                        seq![start_kind(es[cur as int])]
                    };
                    if ck != SyntaxKind::TOMBSTONE {
                        kinds.push(ck);
                    }
                    proof {
                        assert(kinds@.reverse() =~= own + kinds0.reverse());
                    }
                    match cfp {
                        Some(d) => {
                            proof {
                                assert(fp_target(es, cur as int) == Some(cur + d));
                                assert(cur < cur + d < n);
                                assert(chain_opens(es, cur as int) =~= chain_opens(es, cur + d)
                                    + own);
                                assert(chain_opens(es, cur + d) + own + kinds0.reverse()
                                    =~= chain_opens(es, cur + d) + (own + kinds0.reverse()));
                            }
                            cur = cur + d;
                        },
                        None => {
                            proof {
                                assert(fp_target(es, cur as int) is None);
                                assert(chain_opens(es, cur as int) =~= own);
                                assert(chain_opens(es, i as int) =~= kinds@.reverse());
                            }
                            break;
                        },
                    }
                }
                // open outermost first
                let ghost depth0 = b.depth();
                let ghost bottom0: SyntaxKind = if b.depth() >= 1 {
                    b.stack@[0].kind
                } else {
                    SyntaxKind::SOURCE_FILE
                };
                let mut w = kinds.len();
                while w > 0
                    invariant
                        w <= kinds@.len(),
                        depth0 >= 0,
                        b.depth() == depth0 + (kinds@.len() - w),
                        b.text() == text@.subrange(0, pos as int),
                        b.root is None,
                        b.errors@.len() == crate::event::error_count(es, i as int),
                        forall|k2: int|
                            0 <= k2 < b.errors@.len() ==> (#[trigger] b.errors@[k2]).start
                                == b.errors@[k2].end && b.errors@[k2].end <= text@.len(),
                        depth0 >= 1 ==> b.stack@[0].kind == bottom0,
                        depth0 == 0 && w < kinds@.len() ==> b.stack@.len() >= 1
                            && b.stack@[0].kind == kinds@[kinds@.len() - 1],
                    decreases w,
                {
                    w = w - 1;
                    let ghost bpre = b;
                    b.start_node(kinds[w]);
                    proof {
                        if bpre.depth() == 0 {
                            assert(b.stack@[0].kind == kinds@[w as int]);
                            assert(w == kinds@.len() - 1);
                        } else {
                            assert(b.stack@[0] == bpre.stack@[0]);
                        }
                    }
                }
                proof {
                    assert(opens_at(es, i as int) == chain_opens(es, i as int).len());
                    assert(chain_opens(es, i as int).len() == kinds@.len()) by {
                        assert(kinds@.reverse().len() == kinds@.len());
                    }
                    if i == 0 {
                        assert(es[0] == (Event::Start {
                            kind: SyntaxKind::SOURCE_FILE,
                            forward_parent: None,
                        }));
                        assert(fp_target(es, 0) is None);
                        assert(chain_opens(es, 0) =~= seq![SyntaxKind::SOURCE_FILE]);
                        assert(kinds@.reverse() =~= seq![SyntaxKind::SOURCE_FILE]);
                        assert(kinds@.len() == 1);
                        assert(kinds@.reverse()[0] == kinds@[0]);
                        assert(kinds@[kinds@.len() - 1] == SyntaxKind::SOURCE_FILE);
                        assert(b.stack@[0].kind is SOURCE_FILE);
                    } else {
                        if depth0 == 0 {
                            // interior positions always sit at depth >= 1
                            assert(finish_count(es, i as int) < open_count(es, i as int));
                            assert(false);
                        }
                        assert(b.stack@[0].kind is SOURCE_FILE);
                    }
                }
            }
        } else {
            proof {
                assert(opens_at(es, i as int) == 0);
                assert(i != 0) by {
                    assert(es[0] is Start);
                }
                assert(finish_count(es, i as int) < open_count(es, i as int));
                assert(b.depth() >= 1);
            }
            match &events[i] {
                Event::Token { kind, n_raw_tokens } => {
                    // attach pending trivia, then the semantic token(s)
                    while c < tokens.len() && tokens[c].kind.is_trivia()
                        invariant
                            c <= tokens@.len(),
                            pos as int == lens_sum(tokens@.take(c as int)),
                            pos <= text@.len(),
                            lens_sum(tokens@) == text@.len(),
                            forall|i2: int|
                                0 <= i2 < tokens@.len() ==> ((#[trigger] tokens@[i2].kind) is EOF
                                    ==> tokens@[i2].len == 0),
                            b.depth() >= 1,
                            b.depth() == open_count(es, i as int) - finish_count(es, i as int),
                            b.errors@.len() == crate::event::error_count(es, i as int),
                            forall|k2: int|
                                0 <= k2 < b.errors@.len() ==> (#[trigger] b.errors@[k2]).start
                                    == b.errors@[k2].end && b.errors@[k2].end <= text@.len(),
                            b.root is None,
                            b.text() == text@.subrange(0, pos as int),
                            b.stack@[0].kind is SOURCE_FILE,
                        decreases tokens@.len() - c,
                    {
                        let ghost b0 = b;
                        emit_one(&mut b, tokens, text, &mut c, &mut pos);
                        proof {
                            lemma_bottom_kind_kept(b0, b);
                        }
                    }
                    // a trivia token's own event is already satisfied by
                    // the trivia pass above; only semantic events take
                    // raw tokens of their own
                    let semantic = !kind.is_trivia();
                    let mut kk: u8 = 0;
                    while semantic && kk < *n_raw_tokens
                        invariant
                            c <= tokens@.len(),
                            pos as int == lens_sum(tokens@.take(c as int)),
                            pos <= text@.len(),
                            lens_sum(tokens@) == text@.len(),
                            forall|i2: int|
                                0 <= i2 < tokens@.len() ==> ((#[trigger] tokens@[i2].kind) is EOF
                                    ==> tokens@[i2].len == 0),
                            b.depth() >= 1,
                            b.depth() == open_count(es, i as int) - finish_count(es, i as int),
                            b.errors@.len() == crate::event::error_count(es, i as int),
                            forall|k2: int|
                                0 <= k2 < b.errors@.len() ==> (#[trigger] b.errors@[k2]).start
                                    == b.errors@[k2].end && b.errors@[k2].end <= text@.len(),
                            b.root is None,
                            b.text() == text@.subrange(0, pos as int),
                            b.stack@[0].kind is SOURCE_FILE,
                        decreases *n_raw_tokens - kk,
                    {
                        if c < tokens.len() {
                            let ghost b0 = b;
                            emit_one(&mut b, tokens, text, &mut c, &mut pos);
                            proof {
                                lemma_bottom_kind_kept(b0, b);
                            }
                        }
                        kk = kk + 1;
                    }
                },
                Event::Error { msg } => {
                    let message = msg.message.clone();
                    b.error(message, pos);
                },
                Event::Finish => {
                    if i == n - 1 {
                        // attach everything that is left before the root closes
                        while c < tokens.len()
                            invariant
                                c <= tokens@.len(),
                                pos as int == lens_sum(tokens@.take(c as int)),
                                pos <= text@.len(),
                                lens_sum(tokens@) == text@.len(),
                                forall|i2: int|
                                    0 <= i2 < tokens@.len() ==> ((
                                    #[trigger] tokens@[i2].kind) is EOF ==> tokens@[i2].len == 0),
                                b.depth() >= 1,
                                b.depth() == open_count(es, i as int) - finish_count(
                                    es,
                                    i as int,
                                ),
                                b.errors@.len() == crate::event::error_count(es, i as int),
                                forall|k2: int|
                                    0 <= k2 < b.errors@.len() ==> (
                                    #[trigger] b.errors@[k2]).start == b.errors@[k2].end
                                        && b.errors@[k2].end <= text@.len(),
                                b.root is None,
                                b.text() == text@.subrange(0, pos as int),
                                b.stack@[0].kind is SOURCE_FILE,
                            decreases tokens@.len() - c,
                        {
                            let ghost b0 = b;
                            emit_one(&mut b, tokens, text, &mut c, &mut pos);
                            proof {
                                lemma_bottom_kind_kept(b0, b);
                            }
                        }
                        proof {
                            assert(tokens@.take(tokens@.len() as int) =~= tokens@);
                            assert(pos == text@.len());
                            assert(text@.subrange(0, text@.len() as int) =~= text@);
                            // the final finish takes the tree back to depth zero
                            assert(open_count(es, n as int) == finish_count(es, n as int));
                            assert(open_count(es, n as int) == open_count(es, n - 1)
                                + opens_at(es, n - 1));
                            assert(opens_at(es, n - 1) == 0);
                            assert(finish_count(es, n as int) == finish_count(es, n - 1) + 1);
                            assert(b.depth() == 1);
                        }
                        let ghost bfin = b;
                        b.finish_node();
                        proof {
                            assert(b.root matches Some(rt) && node_text(rt) == text@ && rt.kind
                                is SOURCE_FILE);
                        }
                    } else {
                        proof {
                            // an interior finish never returns to depth zero
                            assert(finish_count(es, i + 1) < open_count(es, i + 1));
                            assert(open_count(es, i + 1) == open_count(es, i as int));
                            assert(finish_count(es, i + 1) == finish_count(es, i as int) + 1);
                            assert(b.depth() >= 2);
                        }
                        let ghost bfin = b;
                        b.finish_node();
                        proof {
                            assert(b.stack@[0].kind is SOURCE_FILE) by {
                                if bfin.stack@.len() >= 3 {
                                    assert(b.stack@[0] == bfin.stack@[0]);
                                } else {
                                    assert(b.stack@.len() == 1);
                                    assert(b.stack@.last().kind == bfin.stack@[0].kind);
                                }
                            }
                        }
                    }
                },
                Event::Start { .. } => {
                    proof {
                        assert(false);
                    }
                },
            }
        }
        i = i + 1;
    }
    proof {
        assert(i == n);
    }
    let (root_node, errors) = b.finish();
    (root_node, errors)
}

/// Emitting a token keeps the bottom frame's kind.
proof fn lemma_bottom_kind_kept(b0: SyntaxTreeBuilder, b1: SyntaxTreeBuilder)
    requires
        b0.depth() >= 1,
        b1.depth() == b0.depth(),
        b1.stack@.last().kind == b0.stack@.last().kind,
        forall|i: int| 0 <= i < b0.stack@.len() - 1 ==> b1.stack@[i] == b0.stack@[i],
    ensures
        b1.stack@[0].kind == b0.stack@[0].kind,
{
    if b0.stack@.len() == 1 {
        assert(b1.stack@.last() == b1.stack@[0]);
    }
}

} // verus!
