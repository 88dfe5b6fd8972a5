//! Building a stream tree by tree, gluing as the trees arrive.

use vstd::prelude::*;
use crate::token::glued;
use crate::token_stream::{pairs_view, Spacing, StreamView, TokenStream, TokenTree, TreeView};

verus! {

/// Whether `tree`, arriving behind the trees of `acc`, is glued to the last
/// of them: the last is a token that is followed without a gap, `tree` is a
/// token too, and the two make one token.
pub open spec fn glues_to_last(acc: StreamView, tree: TreeView) -> bool {
    &&& acc.len() > 0
    &&& acc.last().0 is Token
    &&& acc.last().1 == Spacing::Joint
    &&& tree is Token
    &&& glued(acc.last().0->Token_0, tree->Token_0) is Some
}

/// The trees of `acc` with `tree` appended. Where `tree` is glued to the
/// last of them, the glued token takes the place of the last, and carries the
/// spacing of `tree`; else `tree` is added behind the last, as it is.
pub open spec fn pushed(acc: StreamView, tree: TreeView, spacing: Spacing) -> StreamView {
    if glues_to_last(acc, tree) {
        acc.drop_last().push(
            (TreeView::Token(glued(acc.last().0->Token_0, tree->Token_0)->0), spacing),
        )
    } else {
        acc.push((tree, spacing))
    }
}

/// Collects the trees of a stream in their order.
pub struct TokenStreamBuilder {
    vec: Vec<(TokenTree, Spacing)>,
}

impl View for TokenStreamBuilder {
    type V = StreamView;

    closed spec fn view(&self) -> StreamView {
        pairs_view(self.vec@)
    }
}

impl TokenStreamBuilder {
    /// A builder that holds no tree yet.
    pub fn new() -> (builder: TokenStreamBuilder)
        ensures
            builder@ == StreamView::empty(),
    {
        TokenStreamBuilder { vec: Vec::new() }
    }

    /// Appends a tree and its spacing, gluing the tree to the last one where
    /// the two are tokens that make one token.
    pub fn push(&mut self, pair: (TokenTree, Spacing))
        ensures
            final(self)@ == pushed(old(self)@, pair.0@, pair.1),
    {
        let (tree, joint) = pair;
        let mut merged: Option<TokenTree> = None;
        if self.vec.len() > 0 {
            let last = &self.vec[self.vec.len() - 1];
            if let (TokenTree::Token(prev_token), Spacing::Joint) = (&last.0, last.1) {
                if let TokenTree::Token(token) = &tree {
                    if let Some(token) = prev_token.glue(token) {
                        merged = Some(TokenTree::Token(token));
                    }
                }
            }
        }
        match merged {
            Some(merged) => {
                self.vec.pop();
                self.vec.push((merged, joint));
            },
            None => {
                self.vec.push((tree, joint));
            },
        }
    }

    /// The stream of the trees that were appended.
    pub fn build(self) -> (stream: TokenStream)
        ensures
            stream@ == self@,
    {
        TokenStream::new(self.vec)
    }
}

} // verus!
