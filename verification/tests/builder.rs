use dendro_tokens::builder::TokenStreamBuilder;
use dendro_tokens::span::Span;
use dendro_tokens::symbol::Symbol;
use dendro_tokens::token::{BinOpToken, Delimiter, Token, TokenKind};
use dendro_tokens::token_stream::{Spacing, TokenStream, TokenTree};

fn leaf(kind: TokenKind, start: usize, end: usize) -> TokenTree {
    TokenTree::Token(Token::new(kind, Span::new(start, end)))
}

fn built(pairs: Vec<(TokenTree, Spacing)>) -> TokenStream {
    let mut builder = TokenStreamBuilder::new();
    for pair in pairs {
        builder.push(pair);
    }
    builder.build()
}

#[test]
fn empty_builder_builds_the_empty_stream() {
    let stream = TokenStreamBuilder::new().build();
    assert!(stream.is_empty());
    assert_eq!(stream.len(), 0);
    assert_eq!(stream, TokenStream::new(Vec::new()));
}

#[test]
fn three_joint_dots_glue_to_dot_dot_dot() {
    let stream = built(vec![
        (leaf(TokenKind::Dot, 0, 1), Spacing::Joint),
        (leaf(TokenKind::Dot, 1, 2), Spacing::Joint),
        (leaf(TokenKind::Dot, 2, 3), Spacing::Joint),
    ]);
    assert_eq!(
        stream,
        TokenStream::new(vec![(leaf(TokenKind::DotDotDot, 0, 3), Spacing::Joint)])
    );
}

#[test]
fn alone_less_than_and_assign_stay_apart() {
    let stream = built(vec![
        (leaf(TokenKind::Lt, 0, 1), Spacing::Alone),
        (leaf(TokenKind::Eq, 2, 3), Spacing::Alone),
    ]);
    assert_eq!(stream.len(), 2);
    assert_eq!(
        stream,
        TokenStream::new(vec![
            (leaf(TokenKind::Lt, 0, 1), Spacing::Alone),
            (leaf(TokenKind::Eq, 2, 3), Spacing::Alone),
        ])
    );
}

#[test]
fn less_than_glues_to_arrow_left() {
    let stream = built(vec![
        (leaf(TokenKind::Lt, 0, 1), Spacing::Joint),
        (leaf(TokenKind::BinOp(BinOpToken::Minus), 1, 2), Spacing::Joint),
    ]);
    assert_eq!(stream, TokenStream::new(vec![(leaf(TokenKind::LArrow, 0, 2), Spacing::Joint)]));
}

#[test]
fn less_than_twice_glues_to_shift_left() {
    let stream = built(vec![
        (leaf(TokenKind::Lt, 0, 1), Spacing::Joint),
        (leaf(TokenKind::Lt, 1, 2), Spacing::Alone),
    ]);
    assert_eq!(
        stream,
        TokenStream::new(vec![(leaf(TokenKind::BinOp(BinOpToken::Shl), 0, 2), Spacing::Alone)])
    );
}

#[test]
fn less_than_and_less_or_equal_glue_to_shift_left_equals() {
    let stream = built(vec![
        (leaf(TokenKind::Lt, 0, 1), Spacing::Joint),
        (leaf(TokenKind::Le, 1, 3), Spacing::Alone),
    ]);
    assert_eq!(
        stream,
        TokenStream::new(vec![(leaf(TokenKind::BinOpEq(BinOpToken::Shl), 0, 3), Spacing::Alone)])
    );
}

#[test]
fn shift_left_equals_from_three_single_tokens() {
    let stream = built(vec![
        (leaf(TokenKind::Lt, 0, 1), Spacing::Joint),
        (leaf(TokenKind::Lt, 1, 2), Spacing::Joint),
        (leaf(TokenKind::Eq, 2, 3), Spacing::Alone),
    ]);
    assert_eq!(
        stream,
        TokenStream::new(vec![(leaf(TokenKind::BinOpEq(BinOpToken::Shl), 0, 3), Spacing::Alone)])
    );
}

#[test]
fn quote_and_identifier_glue_to_a_lifetime() {
    let stream = built(vec![
        (leaf(TokenKind::SingleQuote, 0, 1), Spacing::Joint),
        (leaf(TokenKind::Ident(Symbol::new("a"), false), 1, 2), Spacing::Alone),
    ]);
    assert_eq!(
        stream,
        TokenStream::new(vec![(leaf(TokenKind::Lifetime(Symbol::new("'a")), 0, 2), Spacing::Alone)])
    );
}

#[test]
fn quote_and_raw_identifier_do_not_glue() {
    let stream = built(vec![
        (leaf(TokenKind::SingleQuote, 0, 1), Spacing::Joint),
        (leaf(TokenKind::Ident(Symbol::new("a"), true), 1, 4), Spacing::Alone),
    ]);
    assert_eq!(
        stream,
        TokenStream::new(vec![
            (leaf(TokenKind::SingleQuote, 0, 1), Spacing::Joint),
            (leaf(TokenKind::Ident(Symbol::new("a"), true), 1, 4), Spacing::Alone),
        ])
    );
}

#[test]
fn glued_token_carries_the_spacing_of_the_second() {
    let stream = built(vec![
        (leaf(TokenKind::Eq, 0, 1), Spacing::Joint),
        (leaf(TokenKind::Eq, 1, 2), Spacing::Alone),
        (leaf(TokenKind::Eq, 3, 4), Spacing::Alone),
    ]);
    assert_eq!(
        stream,
        TokenStream::new(vec![
            (leaf(TokenKind::EqEq, 0, 2), Spacing::Alone),
            (leaf(TokenKind::Eq, 3, 4), Spacing::Alone),
        ])
    );
}

#[test]
fn glue_looks_at_the_last_tree_only() {
    let stream = built(vec![
        (leaf(TokenKind::Dot, 0, 1), Spacing::Joint),
        (leaf(TokenKind::Comma, 1, 2), Spacing::Joint),
        (leaf(TokenKind::Dot, 2, 3), Spacing::Joint),
    ]);
    assert_eq!(stream.len(), 3);
}

#[test]
fn four_joint_dots_leave_one_dot_over() {
    let stream = built(vec![
        (leaf(TokenKind::Dot, 0, 1), Spacing::Joint),
        (leaf(TokenKind::Dot, 1, 2), Spacing::Joint),
        (leaf(TokenKind::Dot, 2, 3), Spacing::Joint),
        (leaf(TokenKind::Dot, 3, 4), Spacing::Alone),
    ]);
    assert_eq!(
        stream,
        TokenStream::new(vec![
            (leaf(TokenKind::DotDotDot, 0, 3), Spacing::Joint),
            (leaf(TokenKind::Dot, 3, 4), Spacing::Alone),
        ])
    );
}

#[test]
fn a_group_is_never_glued() {
    let group = || TokenTree::Delimited {
        open: Span::new(1, 2),
        close: Span::new(2, 3),
        delim: Delimiter::Parenthesis,
        inner: TokenStream::new(Vec::new()),
    };
    let stream = built(vec![
        (leaf(TokenKind::Eq, 0, 1), Spacing::Joint),
        (group(), Spacing::Joint),
        (leaf(TokenKind::Eq, 3, 4), Spacing::Joint),
    ]);
    assert_eq!(
        stream,
        TokenStream::new(vec![
            (leaf(TokenKind::Eq, 0, 1), Spacing::Joint),
            (group(), Spacing::Joint),
            (leaf(TokenKind::Eq, 3, 4), Spacing::Joint),
        ])
    );
}

#[test]
fn stream_hands_out_its_trees() {
    let stream = TokenStream::new(vec![
        (leaf(TokenKind::At, 0, 1), Spacing::Alone),
        (leaf(TokenKind::Pound, 2, 3), Spacing::Joint),
    ]);
    assert_eq!(stream.len(), 2);
    assert!(!stream.is_empty());
    assert_eq!(stream.trees()[0], (leaf(TokenKind::At, 0, 1), Spacing::Alone));
    assert_eq!(stream.trees()[1], (leaf(TokenKind::Pound, 2, 3), Spacing::Joint));
}
