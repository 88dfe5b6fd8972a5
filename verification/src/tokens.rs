//! The source of the tokens that are assembled into trees.

use vstd::prelude::*;
use crate::token::{Token, TokenView};
use crate::token_stream::Spacing;

verus! {

/// The model of the tokens of a source text: each token with its own
/// spacing, in the order of the text.
pub type InputView = Seq<(TokenView, Spacing)>;

/// The models of the tokens in `items`, each with its spacing.
pub open spec fn items_view(items: Seq<(Token, Spacing)>) -> InputView {
    Seq::new(items.len(), |i: int| (items[i].0@, items[i].1))
}

/// The spacing that is handed out together with the token at `pos`: that of
/// the token before it, which says whether the two are adjacent. Before the
/// first token it is `Alone`; behind the last, it is that of the last.
pub open spec fn spacing_before(input: InputView, pos: nat) -> Spacing {
    if pos == 0 || input.len() == 0 {
        Spacing::Alone
    } else if pos <= input.len() {
        input[pos - 1].1
    } else {
        input.last().1
    }
}

/// The tokens of a source text, handed out one at a time.
pub struct Tokens {
    items: Vec<(Token, Spacing)>,
    pos: usize,
}

impl Tokens {
    /// All the tokens, those that were handed out too.
    pub closed spec fn items(&self) -> InputView {
        items_view(self.items@)
    }

    /// The number of tokens that were handed out.
    pub closed spec fn pos(&self) -> nat {
        self.pos as nat
    }

    /// A source that hands out the tokens in `items`, from the first on.
    pub fn new(items: Vec<(Token, Spacing)>) -> (tokens: Tokens)
        ensures
            tokens.items() == items_view(items@),
            tokens.pos() == 0,
    {
        Tokens { items, pos: 0 }
    }

    /// Hands out the next token, together with the spacing of the token
    /// before it, or `None` when no token is left; it then stays at `None`.
    pub fn next_token(&mut self) -> (next: (Spacing, Option<Token>))
        ensures
            final(self).items() == old(self).items(),
            next.0 == spacing_before(old(self).items(), old(self).pos()),
            old(self).pos() < old(self).items().len() ==> {
                &&& next.1 is Some
                &&& next.1->0@ == old(self).items()[old(self).pos() as int].0
                &&& final(self).pos() == old(self).pos() + 1
            },
            old(self).pos() >= old(self).items().len() ==> {
                &&& next.1 is None
                &&& final(self).pos() == old(self).pos()
            },
    {
        let len: usize = self.items.len();
        let spacing = if self.pos == 0 || len == 0 {
            Spacing::Alone
        } else if self.pos <= len {
            self.items[self.pos - 1].1
        } else {
            self.items[len - 1].1
        };
        if self.pos < len {
            let token = self.items[self.pos].0.clone();
            self.pos = self.pos + 1;
            (spacing, Some(token))
        } else {
            (spacing, None)
        }
    }
}

} // verus!
