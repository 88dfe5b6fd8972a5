//! What holds of gluing and of assembling, for every input.

use vstd::prelude::*;
use crate::builder::{glues_to_last, pushed};
use crate::flatten::{lemma_tokens_of_take, tokens_of, tree_tokens};
use crate::span::{cover, Span};
use crate::token::{glued, glued_kind, KindView, TokenView};
use crate::token_stream::{Spacing, StreamView, TreeView};
use crate::token_tree::{
    assembly, lemma_tree_at_advances, lemma_trees_from_stops, stops_at, tree_at, trees_from, Read,
};
use crate::tokens::InputView;

verus! {

/// Whether a tree is one that assembling gives: a token that is no
/// delimiter, or a group that stands alone and whose inner stream is settled.
pub open spec fn tree_settled(tree: TreeView, spacing: Spacing) -> bool
    decreases tree,
{
    match tree {
        TreeView::Token(token) => !(token.kind is OpenDelim) && !(token.kind is CloseDelim),
        TreeView::Delimited { inner, .. } => spacing == Spacing::Alone && settled(inner),
    }
}

/// Whether a stream is one that assembling gives: each of its trees is, at
/// every depth, and no tree is left that would be glued to the one before it.
pub open spec fn settled(stream: StreamView) -> bool
    decreases stream,
{
    stream.len() > 0 ==> {
        &&& settled(stream.drop_last())
        &&& tree_settled(stream.last().0, stream.last().1)
        &&& !glues_to_last(stream.drop_last(), stream.last().0)
    }
}

/// Gluing respects spacing: behind a tree that stands alone, the next tree is
/// appended as it is.
pub proof fn lemma_alone_is_never_glued(acc: StreamView, tree: TreeView, spacing: Spacing)
    requires
        acc.len() > 0,
        acc.last().1 == Spacing::Alone,
    ensures
        pushed(acc, tree, spacing) == acc.push((tree, spacing)),
{
}

/// Only tokens are glued: a group is appended as it is, and so is the tree
/// behind a group.
pub proof fn lemma_group_is_never_glued(acc: StreamView, tree: TreeView, spacing: Spacing)
    requires
        tree is Delimited || (acc.len() > 0 && acc.last().0 is Delimited),
    ensures
        pushed(acc, tree, spacing) == acc.push((tree, spacing)),
{
}

/// Gluing takes one tree's place or adds one tree: the number of trees
/// never goes down, and the last tree carries the spacing that came in.
pub proof fn lemma_pushed_len(acc: StreamView, tree: TreeView, spacing: Spacing)
    ensures
        pushed(acc, tree, spacing).len() == if glues_to_last(acc, tree) {
            acc.len()
        } else {
            acc.len() + 1
        },
        pushed(acc, tree, spacing).last().1 == spacing,
{
}

/// Two tokens never make a delimiter, nor a literal.
pub proof fn lemma_glued_is_no_delimiter(a: KindView, b: KindView)
    ensures
        glued_kind(a, b) matches Some(kind) ==> !(kind is OpenDelim) && !(kind is CloseDelim) && !(
        kind is Literal),
{
}

/// A token that is not glued to the one behind it is not glued to what
/// that one becomes by gluing either.
pub proof fn lemma_glue_chain(a: KindView, b: KindView, c: KindView)
    requires
        glued_kind(a, b) is None,
        glued_kind(b, c) is Some,
    ensures
        glued_kind(a, glued_kind(b, c)->0) is None,
{
}

/// Appending a tree that assembling gives to a settled stream leaves the
/// stream settled.
pub proof fn lemma_pushed_settled(acc: StreamView, tree: TreeView, spacing: Spacing)
    requires
        settled(acc),
        tree_settled(tree, spacing),
    ensures
        settled(pushed(acc, tree, spacing)),
{
    let next = pushed(acc, tree, spacing);
    if glues_to_last(acc, tree) {
        let last = acc.last().0->Token_0;
        let token = tree->Token_0;
        let merged = glued(last, token)->0;
        assert(next.drop_last() =~= acc.drop_last());
        lemma_glued_is_no_delimiter(last.kind, token.kind);
        assert(tree_settled(next.last().0, next.last().1));
        if glues_to_last(acc.drop_last(), TreeView::Token(merged)) {
            let before = acc.drop_last().last().0->Token_0;
            lemma_glue_chain(before.kind, last.kind, token.kind);
        }
    } else {
        assert(next.drop_last() =~= acc);
    }
}

/// Every tree that is read is one that assembling gives.
pub proof fn lemma_tree_at_settled(input: InputView, pos: nat)
    requires
        !stops_at(input, pos),
    ensures
        tree_at(input, pos) matches Read::Done { value, .. } ==> tree_settled(value.0, value.1),
    decreases input.len() - pos, 0int,
{
    if input[pos as int].0.kind is OpenDelim {
        lemma_trees_from_settled(input, pos + 1, Seq::empty());
    }
}

/// Reading trees behind a settled stream gives a settled stream.
pub proof fn lemma_trees_from_settled(input: InputView, pos: nat, acc: StreamView)
    requires
        pos <= input.len(),
        settled(acc),
    ensures
        trees_from(input, pos, acc) matches Read::Done { value, .. } ==> settled(value),
    decreases input.len() - pos, 1int,
{
    if !stops_at(input, pos) {
        lemma_tree_at_settled(input, pos);
        lemma_tree_at_advances(input, pos);
        match tree_at(input, pos) {
            Read::Failed(_) => {},
            Read::Done { value, next } => {
                lemma_pushed_settled(acc, value.0, value.1);
                lemma_trees_from_settled(input, next, pushed(acc, value.0, value.1));
            },
        }
    }
}

/// Whether the tokens of `tokens` stand in `input` from `pos` on.
pub open spec fn holds_at(input: InputView, pos: nat, tokens: InputView) -> bool {
    &&& pos + tokens.len() <= input.len()
    &&& input.subrange(pos as int, pos + tokens.len() as int) == tokens
}

/// The first trees of a settled stream make a settled stream.
pub proof fn lemma_settled_take(stream: StreamView, k: int)
    requires
        settled(stream),
        0 <= k <= stream.len(),
    ensures
        settled(stream.take(k)),
    decreases stream.len(),
{
    if k < stream.len() {
        lemma_settled_take(stream.drop_last(), k);
        assert(stream.drop_last().take(k) =~= stream.take(k));
    } else {
        assert(stream.take(k) =~= stream);
    }
}

/// Where the tokens of a tree that assembling gives stand in the input,
/// that tree is read from them.
pub proof fn lemma_reparse_tree(tree: TreeView, spacing: Spacing, input: InputView, pos: nat)
    requires
        tree_settled(tree, spacing),
        holds_at(input, pos, tree_tokens(tree, spacing)),
    ensures
        !stops_at(input, pos),
        tree_at(input, pos) == (Read::Done {
            value: (tree, spacing),
            next: pos + tree_tokens(tree, spacing).len(),
        }),
    decreases tree, 0int,
{
    let tokens = tree_tokens(tree, spacing);
    let at = pos as int;
    let whole = input.subrange(at, at + tokens.len());
    assert(input[at] == whole[0]);
    match tree {
        TreeView::Token(token) => {},
        TreeView::Delimited { open, close, delim, inner } => {
            let n = tokens_of(inner).len() as int;
            assert(input.subrange(at + 1, at + 1 + n) =~= tokens_of(inner)) by {
                assert forall|i: int| 0 <= i < n implies input[at + 1 + i] == tokens_of(
                    inner,
                )[i] by {
                    assert(input[at + 1 + i] == whole[1 + i]);
                }
            }
            assert(input[at + 1 + n] == whole[n + 1]);
            assert(inner.take(0) =~= StreamView::empty());
            lemma_reparse_trees(inner, input, pos + 1, 0);
        },
    }
}

/// Where the tokens of a settled stream stand in the input, and the reading
/// stops behind them, the stream is read from them.
pub proof fn lemma_reparse_trees(stream: StreamView, input: InputView, pos: nat, k: nat)
    requires
        settled(stream),
        k <= stream.len(),
        holds_at(input, pos, tokens_of(stream)),
        stops_at(input, pos + tokens_of(stream).len()),
    ensures
        trees_from(input, pos + tokens_of(stream.take(k as int)).len(), stream.take(k as int))
            == (Read::Done { value: stream, next: pos + tokens_of(stream).len() }),
    decreases stream, stream.len() - k,
{
    let all = tokens_of(stream);
    let done = tokens_of(stream.take(k as int));
    let here = pos + done.len();
    let at = here as int;
    lemma_tokens_of_take(stream, k as int);
    if k == stream.len() {
        assert(stream.take(k as int) =~= stream);
    } else {
        let tree = stream[k as int].0;
        let spacing = stream[k as int].1;
        let tokens = tree_tokens(tree, spacing);
        lemma_tokens_of_take(stream, k as int + 1);
        assert(input.subrange(at, at + tokens.len()) =~= tokens) by {
            assert forall|i: int| 0 <= i < tokens.len() implies input[at + i] == tokens[i] by {
                assert(input[at + i] == input.subrange(pos as int, pos + all.len() as int)[
                    done.len() + i]);
                assert(all[done.len() + i] == tokens_of(stream.take(k as int + 1))[done.len() + i]);
            }
        }
        lemma_settled_take(stream, k as int + 1);
        lemma_reparse_tree(tree, spacing, input, here);
        assert(pushed(stream.take(k as int), tree, spacing) =~= stream.take(k as int + 1));
        lemma_reparse_trees(stream, input, pos, (k + 1) as nat);
    }
}

/// Assembling is idempotent: the tokens of a stream that assembling gave
/// are assembled into that stream again.
pub proof fn lemma_assembly_is_idempotent(input: InputView, start: nat)
    requires
        assembly(input, start) is Stream,
    ensures
        assembly(tokens_of(assembly(input, start)->Stream_0), 0) == assembly(input, start),
{
    let stream = assembly(input, start)->Stream_0;
    if start <= input.len() {
        lemma_trees_from_settled(input, start, Seq::empty());
    }
    assert(stream.take(0) =~= StreamView::empty());
    assert(tokens_of(stream).subrange(0, tokens_of(stream).len() as int) =~= tokens_of(stream));
    lemma_reparse_trees(stream, tokens_of(stream), 0, 0);
}

/// Whether position `p` of the text lies in `span`.
pub open spec fn inside(span: Span, p: int) -> bool {
    span.start <= p < span.end
}

/// Whether position `p` of the text lies in one of the tokens.
pub open spec fn covers(tokens: InputView, p: int) -> bool {
    exists|i: int| 0 <= i < tokens.len() && inside(#[trigger] tokens[i].0.span, p)
}

/// Whether the tokens stand in the order of the text, none reaching into
/// the next.
pub open spec fn in_order(tokens: InputView) -> bool {
    &&& forall|i: int|
        0 <= i < tokens.len() ==> (#[trigger] tokens[i]).0.span.start <= tokens[i].0.span.end
    &&& forall|i: int, j: int|
        0 <= i < j < tokens.len() ==> (#[trigger] tokens[i]).0.span.end <= (
        #[trigger] tokens[j]).0.span.start
}

/// Whether the tokens are spaced as a text has them: they stand in order,
/// and a token that is followed without a gap ends where the next begins.
pub open spec fn well_spaced(tokens: InputView) -> bool {
    &&& in_order(tokens)
    &&& forall|i: int, j: int|
        0 <= i && j == i + 1 && j < tokens.len() && (#[trigger] tokens[i]).1 == Spacing::Joint
            ==> tokens[i].0.span.end == (#[trigger] tokens[j]).0.span.start
}

proof fn lemma_covers_concat(a: InputView, b: InputView, p: int)
    ensures
        covers(a + b, p) <==> covers(a, p) || covers(b, p),
{
    if covers(a + b, p) {
        let i = choose|i: int| 0 <= i < (a + b).len() && inside(#[trigger] (a + b)[i].0.span, p);
        if i < a.len() {
            assert(inside(a[i].0.span, p));
        } else {
            assert(inside(b[i - a.len()].0.span, p));
        }
    }
    if covers(a, p) {
        let i = choose|i: int| 0 <= i < a.len() && inside(#[trigger] a[i].0.span, p);
        assert(inside((a + b)[i].0.span, p));
    }
    if covers(b, p) {
        let i = choose|i: int| 0 <= i < b.len() && inside(#[trigger] b[i].0.span, p);
        assert(inside((a + b)[a.len() + i].0.span, p));
    }
}

proof fn lemma_covers_one(token: (TokenView, Spacing), p: int)
    ensures
        covers(seq![token], p) <==> inside(token.0.span, p),
{
    if inside(token.0.span, p) {
        assert(inside(seq![token][0].0.span, p));
    }
}

proof fn lemma_in_order_concat(a: InputView, b: InputView)
    requires
        in_order(a),
        in_order(b),
        a.len() > 0 && b.len() > 0 ==> a.last().0.span.end <= b[0].0.span.start,
    ensures
        in_order(a + b),
{
    let c = a + b;
    assert forall|i: int, j: int| 0 <= i < j < c.len() implies (#[trigger] c[i]).0.span.end <= (
    #[trigger] c[j]).0.span.start by {
        if i < a.len() && a.len() <= j {
            assert(a[i].0.span.end <= a.last().0.span.end);
            assert(b[0].0.span.start <= b[j - a.len()].0.span.start);
        }
    }
}

proof fn lemma_in_order_parts(a: InputView, b: InputView)
    requires
        in_order(a + b),
    ensures
        in_order(a),
        in_order(b),
{
    let c = a + b;
    assert forall|i: int| 0 <= i < a.len() implies (#[trigger] a[i]).0.span.start
        <= a[i].0.span.end by {
        assert(c[i] == a[i]);
    }
    assert forall|i: int, j: int| 0 <= i < j < a.len() implies (#[trigger] a[i]).0.span.end <= (
    #[trigger] a[j]).0.span.start by {
        assert(c[i] == a[i] && c[j] == a[j]);
    }
    assert forall|i: int| 0 <= i < b.len() implies (#[trigger] b[i]).0.span.start
        <= b[i].0.span.end by {
        assert(c[a.len() + i] == b[i]);
    }
    assert forall|i: int, j: int| 0 <= i < j < b.len() implies (#[trigger] b[i]).0.span.end <= (
    #[trigger] b[j]).0.span.start by {
        assert(c[a.len() + i] == b[i] && c[a.len() + j] == b[j]);
    }
}

/// What holds of the trees `acc` that were read from the tokens of `input`
/// between `from` and `pos`, as far as the position `p` goes.
spec fn tracks(input: InputView, from: int, pos: int, acc: StreamView, p: int) -> bool {
    let tokens = tokens_of(acc);
    &&& 0 <= from <= pos <= input.len()
    &&& in_order(tokens)
    &&& covers(tokens, p) <==> covers(input.subrange(from, pos), p)
    &&& (acc.len() > 0 <==> from < pos)
    &&& (tokens.len() > 0 <==> from < pos)
    &&& from < pos ==> {
        &&& tokens[0].0.span.start == input[from].0.span.start
        &&& tokens.last().0.span.end == input[pos - 1].0.span.end
        &&& acc.last().0 is Token ==> acc.last().1 == input[pos - 1].1
    }
}

/// What holds of the tree that was read from the tokens of `input` between
/// `pos` and `next`, as far as the position `p` goes.
spec fn tracks_tree(
    input: InputView,
    pos: int,
    next: int,
    tree: TreeView,
    spacing: Spacing,
    p: int,
) -> bool {
    let tokens = tree_tokens(tree, spacing);
    &&& 0 <= pos < next <= input.len()
    &&& tokens.len() > 0
    &&& in_order(tokens)
    &&& covers(tokens, p) <==> covers(input.subrange(pos, next), p)
    &&& tokens[0].0.span.start == input[pos].0.span.start
    &&& tokens.last().0.span.end == input[next - 1].0.span.end
    &&& tree is Token ==> next == pos + 1 && tree->Token_0 == input[pos].0 && spacing
        == input[pos].1
}

/// Putting `merged`, which covers `last` and the span `next` behind it, in
/// the place of `last` keeps the order and adds the positions of `next`.
proof fn lemma_merge_last(
    head: InputView,
    last: (TokenView, Spacing),
    merged: (TokenView, Spacing),
    next: Span,
    p: int,
)
    requires
        in_order(head + seq![last]),
        last.0.span.end == next.start,
        next.start <= next.end,
        merged.0.span == cover(last.0.span, next),
    ensures
        in_order(head + seq![merged]),
        covers(head + seq![merged], p) <==> covers(head + seq![last], p) || inside(next, p),
        (head + seq![merged])[0].0.span.start == (head + seq![last])[0].0.span.start,
        (head + seq![merged]).last().0.span.end == next.end,
{
    let before = head + seq![last];
    assert(before[head.len() as int] == last);
    lemma_in_order_parts(head, seq![last]);
    if head.len() > 0 {
        assert(before[head.len() - 1] == head.last());
    }
    lemma_in_order_concat(head, seq![merged]);
    lemma_covers_concat(head, seq![last], p);
    lemma_covers_concat(head, seq![merged], p);
    lemma_covers_one(last, p);
    lemma_covers_one(merged, p);
}

proof fn lemma_tracks_glued(
    input: InputView,
    from: int,
    pos: int,
    acc: StreamView,
    tree: TreeView,
    spacing: Spacing,
    p: int,
)
    requires
        well_spaced(input),
        tracks(input, from, pos, acc, p),
        tracks_tree(input, pos, pos + 1, tree, spacing, p),
        glues_to_last(acc, tree),
    ensures
        tracks(input, from, pos + 1, pushed(acc, tree, spacing), p),
{
    let after = pushed(acc, tree, spacing);
    let last = acc.last().0->Token_0;
    let token = tree->Token_0;
    let merged = glued(last, token)->0;
    let head = tokens_of(acc.drop_last());
    assert(input.subrange(from, pos + 1) =~= input.subrange(from, pos) + input.subrange(
        pos,
        pos + 1,
    ));
    lemma_covers_concat(input.subrange(from, pos), input.subrange(pos, pos + 1), p);
    lemma_covers_one(input[pos], p);
    assert(after.drop_last() =~= acc.drop_last());
    assert(tree_tokens(acc.last().0, acc.last().1) == seq![(last, Spacing::Joint)]);
    assert(tree_tokens(after.last().0, after.last().1) == seq![(merged, spacing)]);
    lemma_merge_last(head, (last, Spacing::Joint), (merged, spacing), token.span, p);
}

proof fn lemma_tracks_appended(
    input: InputView,
    from: int,
    pos: int,
    next: int,
    acc: StreamView,
    tree: TreeView,
    spacing: Spacing,
    p: int,
)
    requires
        well_spaced(input),
        tracks(input, from, pos, acc, p),
        tracks_tree(input, pos, next, tree, spacing, p),
        !glues_to_last(acc, tree),
    ensures
        tracks(input, from, next, pushed(acc, tree, spacing), p),
{
    let after = pushed(acc, tree, spacing);
    let one = tree_tokens(tree, spacing);
    assert(input.subrange(from, next) =~= input.subrange(from, pos) + input.subrange(pos, next));
    lemma_covers_concat(input.subrange(from, pos), input.subrange(pos, next), p);
    assert(after.drop_last() =~= acc);
    lemma_in_order_concat(tokens_of(acc), one);
    lemma_covers_concat(tokens_of(acc), one, p);
}

proof fn lemma_tracks_pushed(
    input: InputView,
    from: int,
    pos: int,
    next: int,
    acc: StreamView,
    tree: TreeView,
    spacing: Spacing,
    p: int,
)
    requires
        well_spaced(input),
        tracks(input, from, pos, acc, p),
        tracks_tree(input, pos, next, tree, spacing, p),
    ensures
        tracks(input, from, next, pushed(acc, tree, spacing), p),
{
    if glues_to_last(acc, tree) {
        lemma_tracks_glued(input, from, pos, acc, tree, spacing, p);
    } else {
        lemma_tracks_appended(input, from, pos, next, acc, tree, spacing, p);
    }
}

proof fn lemma_tree_at_tracks(input: InputView, pos: nat, p: int)
    requires
        well_spaced(input),
        !stops_at(input, pos),
    ensures
        tree_at(input, pos) matches Read::Done { value, next } ==> tracks_tree(
            input,
            pos as int,
            next as int,
            value.0,
            value.1,
            p,
        ),
    decreases input.len() - pos, 0int,
{
    let at = pos as int;
    if input[at].0.kind is OpenDelim {
        lemma_trees_from_tracks(input, pos + 1, pos + 1, Seq::empty(), p);
        lemma_trees_from_stops(input, pos + 1, Seq::empty());
        match tree_at(input, pos) {
            Read::Failed(_) => {},
            Read::Done { value, next } => {
                let inner = trees_from(input, pos + 1, Seq::empty())->Done_value;
                let end = next as int - 1;
                let open = seq![
                    (
                        TokenView {
                            kind: KindView::OpenDelim(input[at].0.kind->OpenDelim_0),
                            span: input[at].0.span,
                        },
                        Spacing::Alone,
                    ),
                ];
                let close = seq![
                    (
                        TokenView {
                            kind: KindView::CloseDelim(input[at].0.kind->OpenDelim_0),
                            span: input[end].0.span,
                        },
                        Spacing::Alone,
                    ),
                ];
                assert(in_order(open));
                assert(in_order(close));
                lemma_in_order_concat(open, tokens_of(inner));
                assert((open + tokens_of(inner)).last() == if tokens_of(inner).len() > 0 {
                    tokens_of(inner).last()
                } else {
                    open[0]
                });
                lemma_in_order_concat(open + tokens_of(inner), close);
                assert(input.subrange(at, end + 1) =~= seq![input[at]] + input.subrange(
                    at + 1,
                    end,
                ) + seq![input[end]]);
                lemma_covers_concat(open, tokens_of(inner), p);
                lemma_covers_concat(open + tokens_of(inner), close, p);
                lemma_covers_concat(seq![input[at]], input.subrange(at + 1, end), p);
                lemma_covers_concat(
                    seq![input[at]] + input.subrange(at + 1, end),
                    seq![input[end]],
                    p,
                );
                lemma_covers_one(open[0], p);
                lemma_covers_one(close[0], p);
                lemma_covers_one(input[at], p);
                lemma_covers_one(input[end], p);
            },
        }
    } else {
        assert(input.subrange(at, at + 1) =~= seq![input[at]]);
        assert(in_order(seq![input[at]]));
    }
}

proof fn lemma_trees_from_tracks(input: InputView, from: nat, pos: nat, acc: StreamView, p: int)
    requires
        well_spaced(input),
        tracks(input, from as int, pos as int, acc, p),
    ensures
        trees_from(input, pos, acc) matches Read::Done { value, next } ==> tracks(
            input,
            from as int,
            next as int,
            value,
            p,
        ),
    decreases input.len() - pos, 1int,
{
    if !stops_at(input, pos) {
        lemma_tree_at_tracks(input, pos, p);
        match tree_at(input, pos) {
            Read::Failed(_) => {},
            Read::Done { value, next } => {
                lemma_tracks_pushed(
                    input,
                    from as int,
                    pos as int,
                    next as int,
                    acc,
                    value.0,
                    value.1,
                    p,
                );
                lemma_trees_from_tracks(input, from, next, pushed(acc, value.0, value.1), p);
            },
        }
    }
}

/// Assembling keeps the positions of the text: where the tokens of the
/// input are spaced as a text has them, the tokens of the stream stand in
/// order, none reaching into the next, and they cover the positions that the
/// tokens of the input cover, and no other.
pub proof fn lemma_assembly_keeps_positions(input: InputView)
    requires
        well_spaced(input),
        assembly(input, 0) is Stream,
    ensures
        in_order(tokens_of(assembly(input, 0)->Stream_0)),
        forall|p: int|
            covers(tokens_of(assembly(input, 0)->Stream_0), p) <==> covers(input, p),
{
    let stream = assembly(input, 0)->Stream_0;
    assert(input.subrange(0, input.len() as int) =~= input);
    lemma_trees_from_stops(input, 0, Seq::empty());
    lemma_trees_from_tracks(input, 0, 0, Seq::empty(), 0);
    assert forall|p: int| covers(tokens_of(stream), p) <==> covers(input, p) by {
        lemma_trees_from_tracks(input, 0, 0, Seq::empty(), p);
    }
}

/// Whether a token of this kind takes no part in gluing: it is glued to no
/// token, and no two tokens make it.
pub open spec fn inert(kind: KindView) -> bool {
    match kind {
        KindView::Tilde
        | KindView::At
        | KindView::Comma
        | KindView::Semi
        | KindView::Pound
        | KindView::Dollar
        | KindView::Question
        | KindView::OpenDelim(_)
        | KindView::CloseDelim(_)
        | KindView::Literal(_)
        | KindView::DocComment(_, _, _) => true,
        KindView::Ident(_, is_raw) => is_raw,
        _ => false,
    }
}

/// The tokens among `tokens` that take no part in gluing, in their order.
pub open spec fn inert_tokens(tokens: InputView) -> Seq<TokenView>
    decreases tokens.len(),
{
    if tokens.len() == 0 {
        Seq::empty()
    } else if inert(tokens.last().0.kind) {
        inert_tokens(tokens.drop_last()).push(tokens.last().0)
    } else {
        inert_tokens(tokens.drop_last())
    }
}

/// A token that takes no part in gluing is glued to no token before or
/// behind it, and is not what two tokens make.
pub proof fn lemma_inert_is_never_glued(kind: KindView, a: KindView, b: KindView)
    ensures
        inert(kind) ==> glued_kind(kind, a) is None && glued_kind(a, kind) is None,
        glued_kind(a, b) matches Some(made) ==> !inert(made),
{
}

proof fn lemma_inert_tokens_concat(a: InputView, b: InputView)
    ensures
        inert_tokens(a + b) == inert_tokens(a) + inert_tokens(b),
    decreases b.len(),
{
    if b.len() == 0 {
        assert(a + b =~= a);
        assert(inert_tokens(a) + inert_tokens(b) =~= inert_tokens(a));
    } else {
        lemma_inert_tokens_concat(a, b.drop_last());
        assert((a + b).drop_last() =~= a + b.drop_last());
        assert((a + b).last() == b.last());
        assert(inert_tokens(a + b) =~= inert_tokens(a) + inert_tokens(b));
    }
}

proof fn lemma_inert_tokens_one(token: (TokenView, Spacing))
    ensures
        inert_tokens(seq![token]) == if inert(token.0.kind) {
            seq![token.0]
        } else {
            Seq::empty()
        },
{
    reveal_with_fuel(inert_tokens, 2);
    assert(inert_tokens(seq![token]) =~= if inert(token.0.kind) {
        seq![token.0]
    } else {
        Seq::empty()
    });
}

proof fn lemma_pushed_inert_tokens(acc: StreamView, tree: TreeView, spacing: Spacing)
    ensures
        inert_tokens(tokens_of(pushed(acc, tree, spacing))) == inert_tokens(tokens_of(acc))
            + inert_tokens(tree_tokens(tree, spacing)),
{
    let after = pushed(acc, tree, spacing);
    if glues_to_last(acc, tree) {
        let last = acc.last().0->Token_0;
        let token = tree->Token_0;
        let merged = glued(last, token)->0;
        let head = tokens_of(acc.drop_last());
        lemma_inert_is_never_glued(last.kind, token.kind, last.kind);
        lemma_inert_is_never_glued(token.kind, last.kind, token.kind);
        assert(after.drop_last() =~= acc.drop_last());
        assert(tree_tokens(acc.last().0, acc.last().1) == seq![(last, Spacing::Joint)]);
        assert(tree_tokens(after.last().0, after.last().1) == seq![(merged, spacing)]);
        lemma_inert_tokens_concat(head, seq![(last, Spacing::Joint)]);
        lemma_inert_tokens_concat(head, seq![(merged, spacing)]);
        lemma_inert_tokens_one((last, Spacing::Joint));
        lemma_inert_tokens_one((merged, spacing));
        lemma_inert_tokens_one((token, spacing));
        assert(inert_tokens(head) + Seq::<TokenView>::empty() =~= inert_tokens(head));
    } else {
        assert(after.drop_last() =~= acc);
        lemma_inert_tokens_concat(tokens_of(acc), tree_tokens(tree, spacing));
    }
}

proof fn lemma_tree_at_inert_tokens(input: InputView, pos: nat)
    requires
        !stops_at(input, pos),
    ensures
        tree_at(input, pos) matches Read::Done { value, next } ==> pos < next <= input.len()
            && inert_tokens(tree_tokens(value.0, value.1)) == inert_tokens(
            input.subrange(pos as int, next as int),
        ),
    decreases input.len() - pos, 0int,
{
    let at = pos as int;
    lemma_tree_at_advances(input, pos);
    if input[at].0.kind is OpenDelim {
        assert(input.subrange(at + 1, at + 1) =~= InputView::empty());
        lemma_trees_from_inert_tokens(input, pos + 1, pos + 1, Seq::empty());
        lemma_trees_from_stops(input, pos + 1, Seq::empty());
        match tree_at(input, pos) {
            Read::Failed(_) => {},
            Read::Done { value, next } => {
                let inner = trees_from(input, pos + 1, Seq::empty())->Done_value;
                let end = next as int - 1;
                let tokens = tree_tokens(value.0, value.1);
                let open = tokens[0];
                let close = tokens.last();
                assert(tokens == seq![open] + tokens_of(inner) + seq![close]);
                assert(open.0 == input[at].0);
                assert(close.0 == input[end].0);
                assert(input.subrange(at, end + 1) =~= seq![input[at]] + input.subrange(
                    at + 1,
                    end,
                ) + seq![input[end]]);
                lemma_inert_tokens_concat(seq![open], tokens_of(inner));
                lemma_inert_tokens_concat(seq![open] + tokens_of(inner), seq![close]);
                lemma_inert_tokens_concat(seq![input[at]], input.subrange(at + 1, end));
                lemma_inert_tokens_concat(
                    seq![input[at]] + input.subrange(at + 1, end),
                    seq![input[end]],
                );
                lemma_inert_tokens_one(open);
                lemma_inert_tokens_one(close);
                lemma_inert_tokens_one(input[at]);
                lemma_inert_tokens_one(input[end]);
            },
        }
    } else {
        assert(input.subrange(at, at + 1) =~= seq![input[at]]);
    }
}

proof fn lemma_trees_from_inert_tokens(input: InputView, from: nat, pos: nat, acc: StreamView)
    requires
        from <= pos <= input.len(),
        inert_tokens(tokens_of(acc)) == inert_tokens(input.subrange(from as int, pos as int)),
    ensures
        trees_from(input, pos, acc) matches Read::Done { value, next } ==> pos <= next
            <= input.len() && inert_tokens(tokens_of(value)) == inert_tokens(
            input.subrange(from as int, next as int),
        ),
    decreases input.len() - pos, 1int,
{
    if !stops_at(input, pos) {
        lemma_tree_at_inert_tokens(input, pos);
        match tree_at(input, pos) {
            Read::Failed(_) => {},
            Read::Done { value, next } => {
                lemma_pushed_inert_tokens(acc, value.0, value.1);
                assert(input.subrange(from as int, next as int) =~= input.subrange(
                    from as int,
                    pos as int,
                ) + input.subrange(pos as int, next as int));
                lemma_inert_tokens_concat(
                    input.subrange(from as int, pos as int),
                    input.subrange(pos as int, next as int),
                );
                lemma_trees_from_inert_tokens(
                    input,
                    from,
                    next,
                    pushed(acc, value.0, value.1),
                );
            },
        }
    }
}

/// Assembling hands on the tokens that take no part in gluing: the
/// delimiters, the literals, the doc comments and the others of them are in
/// the stream what they are in the input, each with its kind and its span,
/// and in the same order. So each group of the stream has the spans of an
/// opening and of a closing delimiter of its kind that stand in the input.
pub proof fn lemma_inert_tokens_pass_through(input: InputView)
    requires
        assembly(input, 0) is Stream,
    ensures
        inert_tokens(tokens_of(assembly(input, 0)->Stream_0)) == inert_tokens(input),
{
    assert(input.subrange(0, 0) =~= InputView::empty());
    assert(input.subrange(0, input.len() as int) =~= input);
    lemma_trees_from_stops(input, 0, Seq::empty());
    lemma_trees_from_inert_tokens(input, 0, 0, Seq::empty());
}

} // verus!
