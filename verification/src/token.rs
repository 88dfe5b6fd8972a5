//! The tokens of the source text, and the rule by which two adjacent tokens
//! are glued into one.

use vstd::prelude::*;
use crate::span::{cover, Span};
use crate::symbol::{quoted, Symbol};

verus! {

/// Whether a doc comment is written on one line or as a block.
#[derive(Clone, Copy, Debug, PartialEq, Eq, Hash, Structural)]
pub enum CommentKind {
    Line,
    Block,
}

/// Whether a doc comment speaks of the item that follows it or of the item
/// that encloses it.
#[derive(Clone, Copy, Debug, PartialEq, Eq, Hash, Structural)]
pub enum AttrStyle {
    Outer,
    Inner,
}

/// The binary operators.
#[derive(Clone, Copy, Debug, PartialEq, Eq, Hash, Structural)]
pub enum BinOpToken {
    Plus,
    Minus,
    Star,
    Slash,
    BackSlash,
    Percent,
    Caret,
    And,
    Or,
    Shl,
    Shr,
}

/// How a group of token trees is delimited.
#[derive(Clone, Copy, Debug, PartialEq, Eq, Hash, Structural)]
pub enum Delimiter {
    /// `( ... )`
    Parenthesis,
    /// `{ ... }`
    Brace,
    /// `[ ... ]`
    Bracket,
}

/// The kinds of literal. A suffix plays no part in the kind: `1f32` is an
/// `Integer` here.
#[derive(Clone, Copy, Debug, PartialEq, Eq, Hash, Structural)]
pub enum LitKind {
    /// Never the kind of a literal inside a token.
    Bool,
    Byte,
    Char,
    Integer,
    Float,
    Str,
    ByteStr,
    CStr,
}

/// A literal: its kind, its text and its suffix, if it has one.
#[derive(Debug, PartialEq, Eq, Hash)]
pub struct Lit {
    pub kind: LitKind,
    pub symbol: Symbol,
    pub suffix: Option<Symbol>,
}

/// The model of a literal.
pub ghost struct LitView {
    pub kind: LitKind,
    pub symbol: Seq<char>,
    pub suffix: Option<Seq<char>>,
}

impl View for Lit {
    type V = LitView;

    open spec fn view(&self) -> LitView {
        LitView {
            kind: self.kind,
            symbol: self.symbol@,
            suffix: match self.suffix {
                Some(suffix) => Some(suffix@),
                None => None,
            },
        }
    }
}

impl Clone for Lit {
    fn clone(&self) -> (lit: Lit)
        ensures
            lit == *self,
    {
        let suffix = match &self.suffix {
            Some(suffix) => Some(suffix.clone()),
            None => None,
        };
        Lit { kind: self.kind, symbol: self.symbol.clone(), suffix }
    }
}

/// What a token is.
#[derive(Debug, PartialEq, Eq, Hash)]
pub enum TokenKind {
    /// `=`
    Eq,
    /// `<`
    Lt,
    /// `<=`
    Le,
    /// `==`
    EqEq,
    /// `!=`
    Ne,
    /// `>=`
    Ge,
    /// `>`
    Gt,
    /// `&&`
    AndAnd,
    /// `||`
    OrOr,
    /// `!`
    Not,
    /// `~`
    Tilde,
    /// A binary operator, such as `+`.
    BinOp(BinOpToken),
    /// A binary operator followed by `=`, such as `+=`.
    BinOpEq(BinOpToken),
    /// `@`
    At,
    /// `.`
    Dot,
    /// `..`
    DotDot,
    /// `...`
    DotDotDot,
    /// `..=`
    DotDotEq,
    /// `,`
    Comma,
    /// `;`
    Semi,
    /// `:`
    Colon,
    /// `::`
    ColonColon,
    /// `->`
    RArrow,
    /// `<-`
    LArrow,
    /// `=>`
    FatArrow,
    /// `#`
    Pound,
    /// `$`
    Dollar,
    /// `?`
    Question,
    /// `'`, the mark that opens a lifetime.
    SingleQuote,
    /// An opening delimiter, such as `{`.
    OpenDelim(Delimiter),
    /// A closing delimiter, such as `}`.
    CloseDelim(Delimiter),
    /// A literal.
    Literal(Lit),
    /// An identifier, and whether it was written in raw form.
    Ident(Symbol, bool),
    /// A lifetime; the symbol holds the leading quote.
    Lifetime(Symbol),
    /// A doc comment; the symbol holds its body without the comment marks.
    DocComment(CommentKind, AttrStyle, Symbol),
}

/// The model of a token's kind: the kind itself, with each symbol given by its
/// characters.
pub ghost enum KindView {
    Eq,
    Lt,
    Le,
    EqEq,
    Ne,
    Ge,
    Gt,
    AndAnd,
    OrOr,
    Not,
    Tilde,
    BinOp(BinOpToken),
    BinOpEq(BinOpToken),
    At,
    Dot,
    DotDot,
    DotDotDot,
    DotDotEq,
    Comma,
    Semi,
    Colon,
    ColonColon,
    RArrow,
    LArrow,
    FatArrow,
    Pound,
    Dollar,
    Question,
    SingleQuote,
    OpenDelim(Delimiter),
    CloseDelim(Delimiter),
    Literal(LitView),
    Ident(Seq<char>, bool),
    Lifetime(Seq<char>),
    DocComment(CommentKind, AttrStyle, Seq<char>),
}

impl View for TokenKind {
    type V = KindView;

    open spec fn view(&self) -> KindView {
        match *self {
            TokenKind::Eq => KindView::Eq,
            TokenKind::Lt => KindView::Lt,
            TokenKind::Le => KindView::Le,
            TokenKind::EqEq => KindView::EqEq,
            TokenKind::Ne => KindView::Ne,
            TokenKind::Ge => KindView::Ge,
            TokenKind::Gt => KindView::Gt,
            TokenKind::AndAnd => KindView::AndAnd,
            TokenKind::OrOr => KindView::OrOr,
            TokenKind::Not => KindView::Not,
            TokenKind::Tilde => KindView::Tilde,
            TokenKind::BinOp(x) => KindView::BinOp(x),
            TokenKind::BinOpEq(x) => KindView::BinOpEq(x),
            TokenKind::At => KindView::At,
            TokenKind::Dot => KindView::Dot,
            TokenKind::DotDot => KindView::DotDot,
            TokenKind::DotDotDot => KindView::DotDotDot,
            TokenKind::DotDotEq => KindView::DotDotEq,
            TokenKind::Comma => KindView::Comma,
            TokenKind::Semi => KindView::Semi,
            TokenKind::Colon => KindView::Colon,
            TokenKind::ColonColon => KindView::ColonColon,
            TokenKind::RArrow => KindView::RArrow,
            TokenKind::LArrow => KindView::LArrow,
            TokenKind::FatArrow => KindView::FatArrow,
            TokenKind::Pound => KindView::Pound,
            TokenKind::Dollar => KindView::Dollar,
            TokenKind::Question => KindView::Question,
            TokenKind::SingleQuote => KindView::SingleQuote,
            TokenKind::OpenDelim(x) => KindView::OpenDelim(x),
            TokenKind::CloseDelim(x) => KindView::CloseDelim(x),
            TokenKind::Literal(lit) => KindView::Literal(lit@),
            TokenKind::Ident(name, is_raw) => KindView::Ident(name@, is_raw),
            TokenKind::Lifetime(name) => KindView::Lifetime(name@),
            TokenKind::DocComment(kind, style, body) => KindView::DocComment(kind, style, body@),
        }
    }
}

impl Clone for TokenKind {
    fn clone(&self) -> (kind: TokenKind)
        ensures
            kind == *self,
    {
        match self {
            TokenKind::Eq => TokenKind::Eq,
            TokenKind::Lt => TokenKind::Lt,
            TokenKind::Le => TokenKind::Le,
            TokenKind::EqEq => TokenKind::EqEq,
            TokenKind::Ne => TokenKind::Ne,
            TokenKind::Ge => TokenKind::Ge,
            TokenKind::Gt => TokenKind::Gt,
            TokenKind::AndAnd => TokenKind::AndAnd,
            TokenKind::OrOr => TokenKind::OrOr,
            TokenKind::Not => TokenKind::Not,
            TokenKind::Tilde => TokenKind::Tilde,
            TokenKind::BinOp(x) => TokenKind::BinOp(*x),
            TokenKind::BinOpEq(x) => TokenKind::BinOpEq(*x),
            TokenKind::At => TokenKind::At,
            TokenKind::Dot => TokenKind::Dot,
            TokenKind::DotDot => TokenKind::DotDot,
            TokenKind::DotDotDot => TokenKind::DotDotDot,
            TokenKind::DotDotEq => TokenKind::DotDotEq,
            TokenKind::Comma => TokenKind::Comma,
            TokenKind::Semi => TokenKind::Semi,
            TokenKind::Colon => TokenKind::Colon,
            TokenKind::ColonColon => TokenKind::ColonColon,
            TokenKind::RArrow => TokenKind::RArrow,
            TokenKind::LArrow => TokenKind::LArrow,
            TokenKind::FatArrow => TokenKind::FatArrow,
            TokenKind::Pound => TokenKind::Pound,
            TokenKind::Dollar => TokenKind::Dollar,
            TokenKind::Question => TokenKind::Question,
            TokenKind::SingleQuote => TokenKind::SingleQuote,
            TokenKind::OpenDelim(x) => TokenKind::OpenDelim(*x),
            TokenKind::CloseDelim(x) => TokenKind::CloseDelim(*x),
            TokenKind::Literal(lit) => TokenKind::Literal(lit.clone()),
            TokenKind::Ident(name, is_raw) => TokenKind::Ident(name.clone(), *is_raw),
            TokenKind::Lifetime(name) => TokenKind::Lifetime(name.clone()),
            TokenKind::DocComment(kind, style, body) => TokenKind::DocComment(
                *kind,
                *style,
                body.clone(),
            ),
        }
    }
}

/// A token: what it is, and where it stands in the source text.
#[derive(Debug, PartialEq, Eq, Hash)]
pub struct Token {
    pub kind: TokenKind,
    pub span: Span,
}

/// The model of a token.
pub ghost struct TokenView {
    pub kind: KindView,
    pub span: Span,
}

impl View for Token {
    type V = TokenView;

    open spec fn view(&self) -> TokenView {
        TokenView { kind: self.kind@, span: self.span }
    }
}

impl Clone for Token {
    fn clone(&self) -> (token: Token)
        ensures
            token == *self,
    {
        Token { kind: self.kind.clone(), span: self.span }
    }
}

/// The kind that a token of kind `a` and the token of kind `b` that follows
/// it without a gap make together, if they make one.
pub open spec fn glued_kind(a: KindView, b: KindView) -> Option<KindView> {
    match (a, b) {
        (KindView::Eq, KindView::Eq) => Some(KindView::EqEq),
        (KindView::Eq, KindView::Gt) => Some(KindView::FatArrow),
        (KindView::Lt, KindView::Eq) => Some(KindView::Le),
        (KindView::Lt, KindView::Lt) => Some(KindView::BinOp(BinOpToken::Shl)),
        (KindView::Lt, KindView::Le) => Some(KindView::BinOpEq(BinOpToken::Shl)),
        (KindView::Lt, KindView::BinOp(BinOpToken::Minus)) => Some(KindView::LArrow),
        (KindView::Gt, KindView::Eq) => Some(KindView::Ge),
        (KindView::Gt, KindView::Gt) => Some(KindView::BinOp(BinOpToken::Shr)),
        (KindView::Gt, KindView::Ge) => Some(KindView::BinOpEq(BinOpToken::Shr)),
        (KindView::Not, KindView::Eq) => Some(KindView::Ne),
        (KindView::BinOp(op), KindView::Eq) => Some(KindView::BinOpEq(op)),
        (KindView::BinOp(BinOpToken::And), KindView::BinOp(BinOpToken::And)) => Some(
            KindView::AndAnd,
        ),
        (KindView::BinOp(BinOpToken::Or), KindView::BinOp(BinOpToken::Or)) => Some(
            KindView::OrOr,
        ),
        (KindView::BinOp(BinOpToken::Minus), KindView::Gt) => Some(KindView::RArrow),
        (KindView::Dot, KindView::Dot) => Some(KindView::DotDot),
        (KindView::Dot, KindView::DotDot) => Some(KindView::DotDotDot),
        (KindView::DotDot, KindView::Dot) => Some(KindView::DotDotDot),
        (KindView::DotDot, KindView::Eq) => Some(KindView::DotDotEq),
        (KindView::Colon, KindView::Colon) => Some(KindView::ColonColon),
        (KindView::SingleQuote, KindView::Ident(name, false)) => Some(
            KindView::Lifetime(quoted(name)),
        ),
        _ => None,
    }
}

/// The token that `a` and the token `b` that follows it without a gap make
/// together, if they make one: its kind is given by `glued_kind`, and its
/// span covers both.
pub open spec fn glued(a: TokenView, b: TokenView) -> Option<TokenView> {
    match glued_kind(a.kind, b.kind) {
        Some(kind) => Some(TokenView { kind, span: cover(a.span, b.span) }),
        None => None,
    }
}

impl Token {
    pub fn new(kind: TokenKind, span: Span) -> (token: Token)
        ensures
            token == (Token { kind, span }),
    {
        Token { kind, span }
    }

    /// Glues `self` and `joint`, the token that follows it without a gap,
    /// into one token where the two make one, and returns `None` where they
    /// do not.
    pub fn glue(&self, joint: &Token) -> (token: Option<Token>)
        ensures
            match token {
                Some(token) => glued(self@, joint@) == Some(token@),
                None => glued(self@, joint@) is None,
            },
    {
        let kind = match &self.kind {
            TokenKind::Eq => match &joint.kind {
                TokenKind::Eq => TokenKind::EqEq,
                TokenKind::Gt => TokenKind::FatArrow,
                _ => return None,
            },
            TokenKind::Lt => match &joint.kind {
                TokenKind::Eq => TokenKind::Le,
                TokenKind::Lt => TokenKind::BinOp(BinOpToken::Shl),
                TokenKind::Le => TokenKind::BinOpEq(BinOpToken::Shl),
                TokenKind::BinOp(BinOpToken::Minus) => TokenKind::LArrow,
                _ => return None,
            },
            TokenKind::Gt => match &joint.kind {
                TokenKind::Eq => TokenKind::Ge,
                TokenKind::Gt => TokenKind::BinOp(BinOpToken::Shr),
                TokenKind::Ge => TokenKind::BinOpEq(BinOpToken::Shr),
                _ => return None,
            },
            TokenKind::Not => match &joint.kind {
                TokenKind::Eq => TokenKind::Ne,
                _ => return None,
            },
            TokenKind::BinOp(op) => match &joint.kind {
                TokenKind::Eq => TokenKind::BinOpEq(*op),
                TokenKind::BinOp(BinOpToken::And) if *op == BinOpToken::And => TokenKind::AndAnd,
                TokenKind::BinOp(BinOpToken::Or) if *op == BinOpToken::Or => TokenKind::OrOr,
                TokenKind::Gt if *op == BinOpToken::Minus => TokenKind::RArrow,
                _ => return None,
            },
            TokenKind::Dot => match &joint.kind {
                TokenKind::Dot => TokenKind::DotDot,
                TokenKind::DotDot => TokenKind::DotDotDot,
                _ => return None,
            },
            TokenKind::DotDot => match &joint.kind {
                TokenKind::Dot => TokenKind::DotDotDot,
                TokenKind::Eq => TokenKind::DotDotEq,
                _ => return None,
            },
            TokenKind::Colon => match &joint.kind {
                TokenKind::Colon => TokenKind::ColonColon,
                _ => return None,
            },
            TokenKind::SingleQuote => match &joint.kind {
                TokenKind::Ident(name, false) => TokenKind::Lifetime(name.quoted()),
                _ => return None,
            },
            TokenKind::Le
            | TokenKind::EqEq
            | TokenKind::Ne
            | TokenKind::Ge
            | TokenKind::AndAnd
            | TokenKind::OrOr
            | TokenKind::Tilde
            | TokenKind::BinOpEq(..)
            | TokenKind::At
            | TokenKind::DotDotDot
            | TokenKind::DotDotEq
            | TokenKind::Comma
            | TokenKind::Semi
            | TokenKind::ColonColon
            | TokenKind::RArrow
            | TokenKind::LArrow
            | TokenKind::FatArrow
            | TokenKind::Pound
            | TokenKind::Dollar
            | TokenKind::Question
            | TokenKind::OpenDelim(..)
            | TokenKind::CloseDelim(..)
            | TokenKind::Literal(..)
            | TokenKind::Ident(..)
            | TokenKind::Lifetime(..)
            | TokenKind::DocComment(..) => return None,
        };
        Some(Token::new(kind, self.span.to(&joint.span)))
    }
}

} // verus!
