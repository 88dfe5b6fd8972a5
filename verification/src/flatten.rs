//! The tokens that a stream of token trees is made of.

use vstd::prelude::*;
use crate::token::{KindView, Token, TokenKind, TokenView};
use crate::token_stream::{pairs_view, Spacing, StreamView, TokenStream, TokenTree, TreeView};
use crate::tokens::{items_view, InputView};

verus! {

/// The tokens that a tree is made of, in the order of the text. A group
/// gives its opening delimiter, the tokens of its inner trees and its closing
/// delimiter; the closing delimiter carries the spacing of the group.
pub open spec fn tree_tokens(tree: TreeView, spacing: Spacing) -> InputView
    decreases tree,
{
    match tree {
        TreeView::Token(token) => seq![(token, spacing)],
        TreeView::Delimited { open, close, delim, inner } => seq![
            (TokenView { kind: KindView::OpenDelim(delim), span: open }, Spacing::Alone),
        ] + tokens_of(inner) + seq![
            (TokenView { kind: KindView::CloseDelim(delim), span: close }, spacing),
        ],
    }
}

/// The tokens that the trees of a stream are made of, in the order of the
/// text.
pub open spec fn tokens_of(stream: StreamView) -> InputView
    decreases stream,
{
    if stream.len() == 0 {
        Seq::empty()
    } else {
        tokens_of(stream.drop_last()) + tree_tokens(stream.last().0, stream.last().1)
    }
}

/// The tokens of the first `k` trees of a stream are the first tokens of the
/// stream.
pub proof fn lemma_tokens_of_take(stream: StreamView, k: int)
    requires
        0 <= k <= stream.len(),
    ensures
        tokens_of(stream.take(k)).len() <= tokens_of(stream).len(),
        tokens_of(stream.take(k)) == tokens_of(stream).take(
            tokens_of(stream.take(k)).len() as int,
        ),
        k < stream.len() ==> tokens_of(stream.take(k + 1)) == tokens_of(stream.take(k))
            + tree_tokens(stream[k].0, stream[k].1),
    decreases stream.len(),
{
    if k < stream.len() {
        assert(stream.take(k + 1).drop_last() =~= stream.take(k));
        lemma_tokens_of_take(stream.drop_last(), k);
        assert(stream.drop_last().take(k) =~= stream.take(k));
        assert(tokens_of(stream.take(k)) =~= tokens_of(stream).take(
            tokens_of(stream.take(k)).len() as int,
        ));
    } else {
        assert(stream.take(k) =~= stream);
    }
}

/// The tokens that the trees of `stream` are made of, in the order of the
/// text: what assembling would be given to make `stream`.
pub fn flatten(stream: &TokenStream) -> (tokens: Vec<(Token, Spacing)>)
    ensures
        items_view(tokens@) == tokens_of(stream@),
    decreases stream@,
{
    let trees = stream.trees();
    let mut tokens: Vec<(Token, Spacing)> = Vec::new();
    let mut i: usize = 0;
    while i < trees.len()
        invariant
            i <= trees.len(),
            pairs_view(trees@) == stream@,
            items_view(tokens@) == tokens_of(stream@.take(i as int)),
        decreases trees.len() - i,
    {
        proof {
            lemma_tokens_of_take(stream@, i as int);
        }
        let ghost before = tokens@;
        let spacing = trees[i].1;
        match &trees[i].0 {
            TokenTree::Token(token) => {
                tokens.push((token.clone(), spacing));
            },
            TokenTree::Delimited { open, close, delim, inner } => {
                tokens.push((Token::new(TokenKind::OpenDelim(*delim), *open), Spacing::Alone));
                let mut inner_tokens = flatten(inner);
                tokens.append(&mut inner_tokens);
                tokens.push((Token::new(TokenKind::CloseDelim(*delim), *close), spacing));
            },
        }
        assert(items_view(tokens@) =~= items_view(before) + tree_tokens(
            stream@[i as int].0,
            stream@[i as int].1,
        ));
        i += 1;
    }
    assert(stream@.take(i as int) =~= stream@);
    tokens
}

} // verus!
