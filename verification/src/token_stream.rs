//! Token trees, and the streams that hold them.

use vstd::prelude::*;
use crate::span::Span;
use crate::token::{Delimiter, Token, TokenView};

verus! {

/// Whether a token is followed by the next one without a gap.
#[derive(Clone, Copy, Debug, PartialEq, Eq, Hash, Structural)]
pub enum Spacing {
    /// Something stands between the token and the next: the two are never glued.
    Alone,
    /// The next token follows at once: the two are glued if they make one token.
    Joint,
}

/// A token, or a delimited group of token trees.
#[derive(Debug, PartialEq, Eq, Hash)]
pub enum TokenTree {
    /// A single token.
    Token(Token),
    /// What stands between an opening delimiter and the closing delimiter
    /// that matches it.
    Delimited { open: Span, close: Span, delim: Delimiter, inner: TokenStream },
}

/// A sequence of token trees, each with its spacing, in the order of the
/// source text.
#[derive(Debug, PartialEq, Eq, Hash)]
pub struct TokenStream {
    trees: Vec<(TokenTree, Spacing)>,
}

/// The model of a token tree.
pub ghost enum TreeView {
    Token(TokenView),
    Delimited { open: Span, close: Span, delim: Delimiter, inner: Seq<(TreeView, Spacing)> },
}

/// The model of a stream: its trees' models, each with its spacing.
pub type StreamView = Seq<(TreeView, Spacing)>;

impl View for TokenTree {
    type V = TreeView;

    open spec fn view(&self) -> TreeView
        decreases self,
    {
        match self {
            TokenTree::Token(token) => TreeView::Token(token@),
            TokenTree::Delimited { open, close, delim, inner } => TreeView::Delimited {
                open: *open,
                close: *close,
                delim: *delim,
                inner: inner@,
            },
        }
    }
}

/// The models of the trees in `pairs`, each with its spacing.
pub open spec fn pairs_view(pairs: Seq<(TokenTree, Spacing)>) -> StreamView
    decreases pairs,
{
    Seq::new(
        pairs.len(),
        |i: int|
            if 0 <= i < pairs.len() {
                (pairs[i].0@, pairs[i].1)
            } else {
                arbitrary()
            },
    )
}

impl View for TokenStream {
    type V = StreamView;

    closed spec fn view(&self) -> StreamView
        decreases self,
    {
        pairs_view(self.trees@)
    }
}

impl TokenStream {
    /// The stream of the trees in `trees`, in their order.
    pub fn new(trees: Vec<(TokenTree, Spacing)>) -> (stream: TokenStream)
        ensures
            stream@ == pairs_view(trees@),
    {
        TokenStream { trees }
    }

    /// The trees of the stream, each with its spacing.
    pub fn trees(&self) -> (trees: &Vec<(TokenTree, Spacing)>)
        ensures
            pairs_view(trees@) == self@,
    {
        &self.trees
    }

    /// The number of trees at the top of the stream.
    pub fn len(&self) -> (len: usize)
        ensures
            len == self@.len(),
    {
        self.trees.len()
    }

    pub fn is_empty(&self) -> (empty: bool)
        ensures
            empty == (self@.len() == 0),
    {
        self.trees.len() == 0
    }
}

} // verus!
