//! Assembling the tokens of a source text into token trees.

use vstd::prelude::*;
use vstd::pervasive::unreached;
use crate::builder::{pushed, TokenStreamBuilder};
use crate::span::Span;
use crate::token::{Delimiter, KindView, Token, TokenKind};
use crate::token_stream::{Spacing, StreamView, TokenStream, TokenTree, TreeView};
use crate::tokens::{spacing_before, InputView, Tokens};

verus! {

/// Why the tokens of a source text make no stream of token trees.
#[derive(Clone, Copy, Debug, PartialEq, Eq, Hash, Structural)]
pub enum DelimError {
    /// The text ended before the delimiter that was opened at `open` was
    /// closed.
    UnclosedDelimiter { delim: Delimiter, open: Span },
    /// Where the delimiter that was opened at `open` had to be closed, a
    /// closing delimiter of another kind was found, at `close`.
    MismatchedDelimiter { delim: Delimiter, open: Span, found: Delimiter, close: Span },
}

/// What reading from a position of the input gives: a value and the position
/// behind what was read, or the error that ended the reading.
pub ghost enum Read<T> {
    Done { value: T, next: nat },
    Failed(DelimError),
}

/// Whether reading a sequence of trees stops at `pos`: the input ends there,
/// or a closing delimiter stands there.
pub open spec fn stops_at(input: InputView, pos: nat) -> bool {
    pos >= input.len() || input[pos as int].0.kind is CloseDelim
}

/// The group that was opened at `open_at`, once its inner trees are read up
/// to `next`: the delimited tree, where a closing delimiter of the same kind
/// stands at `next`; else the error.
pub open spec fn group_closed_at(input: InputView, open_at: nat, inner: StreamView, next: nat) -> Read<
    (TreeView, Spacing),
> {
    let delim = input[open_at as int].0.kind->OpenDelim_0;
    let open = input[open_at as int].0.span;
    if next < input.len() && input[next as int].0.kind is CloseDelim {
        let found = input[next as int].0.kind->CloseDelim_0;
        let close = input[next as int].0.span;
        if found == delim {
            Read::Done {
                value: (TreeView::Delimited { open, close, delim, inner }, Spacing::Alone),
                next: next + 1,
            }
        } else {
            Read::Failed(DelimError::MismatchedDelimiter { delim, open, found, close })
        }
    } else {
        Read::Failed(DelimError::UnclosedDelimiter { delim, open })
    }
}

/// The one tree that starts at `pos`, where a token other than a closing
/// delimiter stands: the token itself with its spacing, or, for an opening
/// delimiter, the group up to the closing delimiter that matches it.
pub open spec fn tree_at(input: InputView, pos: nat) -> Read<(TreeView, Spacing)>
    recommends
        !stops_at(input, pos),
    decreases input.len() - pos, 0int,
    when pos < input.len()
{
    if input[pos as int].0.kind is OpenDelim {
        match trees_from(input, pos + 1, Seq::empty()) {
            Read::Failed(error) => Read::Failed(error),
            Read::Done { value, next } => group_closed_at(input, pos, value, next),
        }
    } else {
        Read::Done {
            value: (TreeView::Token(input[pos as int].0), input[pos as int].1),
            next: pos + 1,
        }
    }
}

/// The trees of `acc`, followed by the trees that start at `pos` and go on to
/// the next closing delimiter that matches no opening one behind `pos`, or to
/// the end of the input; each tree is appended as `pushed` says.
///
/// A tree is never empty (`lemma_tree_at_advances`), so the test on `next`
/// never fails; it is there to show that the reading ends.
pub open spec fn trees_from(input: InputView, pos: nat, acc: StreamView) -> Read<StreamView>
    decreases input.len() - pos, 1int,
{
    if stops_at(input, pos) {
        Read::Done { value: acc, next: pos }
    } else {
        match tree_at(input, pos) {
            Read::Failed(error) => Read::Failed(error),
            Read::Done { value, next } => if pos < next <= input.len() {
                trees_from(input, next, pushed(acc, value.0, value.1))
            } else {
                Read::Done { value: acc, next: pos }
            },
        }
    }
}

/// What assembling the tokens of an input ends in.
pub ghost enum Assembly {
    /// The stream of the whole input.
    Stream(StreamView),
    /// A delimiter was not closed, or was closed by one of another kind.
    Failed(DelimError),
    /// A closing delimiter stands at this position, outside every group.
    StrayClose(nat),
}

/// What a reading of trees that began outside every group ends in.
pub open spec fn finished(input: InputView, read: Read<StreamView>) -> Assembly {
    match read {
        Read::Failed(error) => Assembly::Failed(error),
        Read::Done { value, next } => if next >= input.len() {
            Assembly::Stream(value)
        } else {
            Assembly::StrayClose(next)
        },
    }
}

/// What assembling the tokens of `input` from `pos` on ends in.
pub open spec fn assembly(input: InputView, pos: nat) -> Assembly {
    finished(input, trees_from(input, pos, Seq::empty()))
}

/// A tree that is read takes at least one token, and ends inside the input.
pub proof fn lemma_tree_at_advances(input: InputView, pos: nat)
    requires
        pos < input.len(),
    ensures
        tree_at(input, pos) matches Read::Done { next, .. } ==> pos < next <= input.len(),
    decreases input.len() - pos, 0int,
{
    if input[pos as int].0.kind is OpenDelim {
        lemma_trees_from_stops(input, pos + 1, Seq::empty());
    }
}

/// A sequence of trees that is read ends inside the input, where the input
/// ends or a closing delimiter stands.
pub proof fn lemma_trees_from_stops(input: InputView, pos: nat, acc: StreamView)
    requires
        pos <= input.len(),
    ensures
        trees_from(input, pos, acc) matches Read::Done { next, .. } ==> pos <= next <= input.len()
            && stops_at(input, next),
    decreases input.len() - pos, 1int,
{
    if !stops_at(input, pos) {
        lemma_tree_at_advances(input, pos);
        match tree_at(input, pos) {
            Read::Failed(_) => {},
            Read::Done { value, next } => {
                lemma_trees_from_stops(input, next, pushed(acc, value.0, value.1));
            },
        }
    }
}

/// Reads the tokens of a source, one token ahead, and assembles them into
/// token trees.
pub struct TokenTrees {
    tokens: Tokens,
    current: Option<Token>,
}

impl TokenTrees {
    /// The tokens of the source, those that were read too.
    pub closed spec fn input(&self) -> InputView {
        self.tokens.items()
    }

    /// The number of tokens that the source has handed out.
    pub closed spec fn start(&self) -> nat {
        self.tokens.pos()
    }

    /// Whether `current` holds the token that the source handed out last, or
    /// nothing once the source is at its end.
    spec fn ready(&self) -> bool {
        match self.current {
            Some(token) => 1 <= self.tokens.pos() <= self.input().len() && token@
                == self.input()[self.tokens.pos() - 1].0,
            None => self.tokens.pos() >= self.input().len(),
        }
    }

    /// The position of the token in `current`; the length of the input at its
    /// end.
    spec fn cursor(&self) -> nat {
        match self.current {
            Some(_) => (self.tokens.pos() - 1) as nat,
            None => self.input().len(),
        }
    }

    /// An assembler for the tokens that `tokens` has yet to hand out.
    pub fn new(tokens: Tokens) -> (trees: TokenTrees)
        ensures
            trees.input() == tokens.items(),
            trees.start() == tokens.pos(),
    {
        TokenTrees { tokens, current: None }
    }

    /// Reads the tree that starts at the current token.
    fn next_token_tree(&mut self) -> (tree: Result<(TokenTree, Spacing), DelimError>)
        requires
            old(self).ready(),
            !stops_at(old(self).input(), old(self).cursor()),
        ensures
            final(self).input() == old(self).input(),
            match tree {
                Ok(pair) => {
                    &&& final(self).ready()
                    &&& old(self).cursor() < final(self).cursor()
                    &&& tree_at(old(self).input(), old(self).cursor()) == (Read::Done {
                        value: (pair.0@, pair.1),
                        next: final(self).cursor(),
                    })
                },
                Err(error) => tree_at(old(self).input(), old(self).cursor()) == Read::<
                    (TreeView, Spacing),
                >::Failed(error),
            },
        decreases old(self).input().len() - old(self).cursor(), 0int,
    {
        let opening: Option<(Delimiter, Span)> = match &self.current {
            Some(token) => match &token.kind {
                TokenKind::OpenDelim(delim) => Some((*delim, token.span)),
                TokenKind::CloseDelim(_) => unreached(),
                _ => None,
            },
            None => unreached(),
        };
        match opening {
            Some((delim, open)) => {
                self.bump();

                let inner = self.token_trees_until_close_delim()?;
                let (found, close) = match &self.current {
                    Some(current) => match &current.kind {
                        TokenKind::CloseDelim(found) => (*found, current.span),
                        _ => unreached(),
                    },
                    None => {
                        return Err(DelimError::UnclosedDelimiter { delim, open });
                    },
                };
                if found == delim {
                    self.bump();
                } else {
                    return Err(DelimError::MismatchedDelimiter { delim, open, found, close });
                }

                let delimited = TokenTree::Delimited { open, close, delim, inner };
                Ok((delimited, Spacing::Alone))
            },
            None => {
                let token = self.current.take().unwrap();
                let spacing = self.bump();
                Ok((TokenTree::Token(token), spacing))
            },
        }
    }

    /// Takes the next token of the source into `current`, and returns the
    /// spacing of the token that was there.
    fn bump(&mut self) -> (spacing: Spacing)
        ensures
            final(self).input() == old(self).input(),
            final(self).ready(),
            final(self).cursor() == if old(self).tokens.pos() <= old(self).input().len() {
                old(self).tokens.pos()
            } else {
                old(self).input().len()
            },
            spacing == spacing_before(old(self).input(), old(self).tokens.pos()),
    {
        let (spacing, next) = self.tokens.next_token();
        self.current = next;
        spacing
    }

    /// Reads trees up to a closing delimiter that belongs to no group among
    /// them, or to the end of the input, and leaves what ended the reading in
    /// `current`.
    fn token_trees_until_close_delim(&mut self) -> (stream: Result<TokenStream, DelimError>)
        requires
            old(self).ready(),
        ensures
            final(self).input() == old(self).input(),
            match stream {
                Ok(stream) => {
                    &&& final(self).ready()
                    &&& old(self).cursor() <= final(self).cursor()
                    &&& stops_at(final(self).input(), final(self).cursor())
                    &&& trees_from(old(self).input(), old(self).cursor(), Seq::empty()) == (
                    Read::Done { value: stream@, next: final(self).cursor() })
                },
                Err(error) => trees_from(old(self).input(), old(self).cursor(), Seq::empty())
                    == Read::<StreamView>::Failed(error),
            },
        decreases old(self).input().len() - old(self).cursor(), 1int,
    {
        let mut vec = TokenStreamBuilder::new();
        let ghost input = self.input();
        let ghost first = self.cursor();
        loop
            invariant
                self.ready(),
                self.input() == input,
                input == old(self).input(),
                first == old(self).cursor(),
                first <= self.cursor() <= input.len(),
                trees_from(input, first, Seq::empty()) == trees_from(input, self.cursor(), vec@),
            decreases input.len() - self.cursor(),
        {
            let is_eof_or_close = match &self.current {
                None => true,
                Some(token) => match &token.kind {
                    TokenKind::CloseDelim(_) => true,
                    _ => false,
                },
            };
            if is_eof_or_close {
                return Ok(vec.build());
            }
            let tree = self.next_token_tree()?;
            vec.push(tree);
        }
    }

    /// Assembles the tokens that the source has yet to hand out into a
    /// stream of token trees, or returns the error of the first delimiter
    /// that is not closed by one of its kind.
    ///
    /// A closing delimiter outside every group has no place in a stream and
    /// is no such error: the caller rules it out (`try_parse` tests for it).
    pub fn parse(self) -> (stream: Result<TokenStream, DelimError>)
        requires
            !(assembly(self.input(), self.start()) is StrayClose),
        ensures
            match stream {
                Ok(stream) => assembly(self.input(), self.start()) == Assembly::Stream(stream@),
                Err(error) => assembly(self.input(), self.start()) == Assembly::Failed(error),
            },
    {
        let mut trees = self;
        let mut vec = TokenStreamBuilder::new();
        let ghost input = trees.input();
        let ghost start = trees.start();
        trees.bump();
        while trees.current.is_some()
            invariant
                trees.ready(),
                trees.input() == input,
                input == self.input(),
                start == self.start(),
                trees.cursor() <= input.len(),
                !(assembly(input, start) is StrayClose),
                assembly(input, start) == finished(
                    input,
                    trees_from(input, trees.cursor(), vec@),
                ),
            decreases input.len() - trees.cursor(),
        {
            let tree = trees.next_token_tree()?;
            vec.push(tree);
        }
        Ok(vec.build())
    }

    /// Assembles as `parse` does, and returns `None` where a closing
    /// delimiter stands outside every group.
    pub fn try_parse(self) -> (stream: Option<Result<TokenStream, DelimError>>)
        ensures
            match stream {
                Some(Ok(stream)) => assembly(self.input(), self.start()) == Assembly::Stream(
                    stream@,
                ),
                Some(Err(error)) => assembly(self.input(), self.start()) == Assembly::Failed(
                    error,
                ),
                None => assembly(self.input(), self.start()) is StrayClose,
            },
    {
        let mut trees = self;
        trees.bump();
        match trees.token_trees_until_close_delim() {
            Ok(stream) => if trees.current.is_some() {
                None
            } else {
                Some(Ok(stream))
            },
            Err(error) => Some(Err(error)),
        }
    }
}

} // verus!
