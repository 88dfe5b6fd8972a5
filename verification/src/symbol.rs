//! Names and literal texts carried by tokens.

use vstd::prelude::*;
use vstd::string::StringExecFns;

verus! {

/// A piece of source text that a token carries: the name of an identifier,
/// the text of a literal, the body of a doc comment.
///
/// Its model is the sequence of its characters.
#[derive(Debug, PartialEq, Eq, Hash)]
pub struct Symbol {
    text: String,
}

impl View for Symbol {
    type V = Seq<char>;

    closed spec fn view(&self) -> Seq<char> {
        self.text@
    }
}

/// The characters of `name` behind a single quote: the text of the lifetime
/// that is named `name`.
pub open spec fn quoted(name: Seq<char>) -> Seq<char> {
    seq!['\''] + name
}

impl Clone for Symbol {
    fn clone(&self) -> (symbol: Symbol)
        ensures
            symbol == *self,
    {
        Symbol { text: self.text.clone() }
    }
}

impl Symbol {
    /// The symbol that holds the characters of `text`.
    pub fn new(text: &str) -> (symbol: Symbol)
        ensures
            symbol@ == text@,
    {
        Symbol { text: String::from_str(text) }
    }

    /// The symbol that holds the characters of `text`, taking the string over.
    pub fn new_owned(text: String) -> (symbol: Symbol)
        ensures
            symbol@ == text@,
    {
        Symbol { text }
    }

    /// The characters of the symbol.
    pub fn as_str(&self) -> (text: &str)
        ensures
            text@ == self@,
    {
        self.text.as_str()
    }

    /// Whether two symbols hold the same characters.
    pub fn same(&self, other: &Symbol) -> (same: bool)
        ensures
            same == (self@ == other@),
    {
        self.text == other.text
    }

    /// The symbol of the lifetime that is named by `self`: a single quote,
    /// then the characters of `self`.
    pub fn quoted(&self) -> (symbol: Symbol)
        ensures
            symbol@ == quoted(self@),
    {
        let mut text = String::from_str("'");
        proof {
            reveal_strlit("'");
        }
        text.append(self.text.as_str());
        Symbol { text }
    }
}

} // verus!
