//! Assembly of a flat sequence of lexical tokens into a tree of tokens.
//!
//! Adjacent single-character tokens are glued into compound operators, and
//! matching delimiters are turned into nested groups. Every function is
//! verified against a mathematical model of the tokens and trees.

pub mod span;
pub mod symbol;
pub mod token;
pub mod token_stream;
pub mod builder;
pub mod tokens;
pub mod token_tree;
pub mod flatten;
pub mod laws;
