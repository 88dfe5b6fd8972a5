use dendro_tokens::span::Span;
use dendro_tokens::symbol::Symbol;
use dendro_tokens::token::{BinOpToken, Delimiter, Token, TokenKind};
use dendro_tokens::token_stream::{Spacing, TokenStream, TokenTree};
use dendro_tokens::token_tree::{DelimError, TokenTrees};
use dendro_tokens::tokens::Tokens;

fn raw(kind: TokenKind, start: usize, end: usize, spacing: Spacing) -> (Token, Spacing) {
    (Token::new(kind, Span::new(start, end)), spacing)
}

fn ident(name: &str, start: usize, end: usize) -> (Token, Spacing) {
    raw(TokenKind::Ident(Symbol::new(name), false), start, end, Spacing::Alone)
}

fn open(delim: Delimiter, start: usize) -> (Token, Spacing) {
    raw(TokenKind::OpenDelim(delim), start, start + 1, Spacing::Alone)
}

fn close(delim: Delimiter, start: usize) -> (Token, Spacing) {
    raw(TokenKind::CloseDelim(delim), start, start + 1, Spacing::Alone)
}

fn leaf_of(pair: (Token, Spacing)) -> (TokenTree, Spacing) {
    (TokenTree::Token(pair.0), pair.1)
}

fn group(delim: Delimiter, open: usize, close: usize, inner: Vec<(TokenTree, Spacing)>) -> (TokenTree, Spacing) {
    (
        TokenTree::Delimited {
            open: Span::new(open, open + 1),
            close: Span::new(close, close + 1),
            delim,
            inner: TokenStream::new(inner),
        },
        Spacing::Alone,
    )
}

fn assemble(items: Vec<(Token, Spacing)>) -> Option<Result<TokenStream, DelimError>> {
    TokenTrees::new(Tokens::new(items)).try_parse()
}

#[test]
fn source_hands_out_each_token_with_the_spacing_of_the_one_before() {
    let mut tokens = Tokens::new(vec![
        raw(TokenKind::Lt, 0, 1, Spacing::Joint),
        raw(TokenKind::Eq, 1, 2, Spacing::Alone),
        raw(TokenKind::Comma, 2, 3, Spacing::Joint),
    ]);
    assert_eq!(
        tokens.next_token(),
        (Spacing::Alone, Some(Token::new(TokenKind::Lt, Span::new(0, 1))))
    );
    assert_eq!(
        tokens.next_token(),
        (Spacing::Joint, Some(Token::new(TokenKind::Eq, Span::new(1, 2))))
    );
    assert_eq!(
        tokens.next_token(),
        (Spacing::Alone, Some(Token::new(TokenKind::Comma, Span::new(2, 3))))
    );
    assert_eq!(tokens.next_token(), (Spacing::Joint, None));
    assert_eq!(tokens.next_token(), (Spacing::Joint, None));
}

#[test]
fn empty_source_stays_at_its_end() {
    let mut tokens = Tokens::new(Vec::new());
    assert_eq!(tokens.next_token(), (Spacing::Alone, None));
    assert_eq!(tokens.next_token(), (Spacing::Alone, None));
}

#[test]
fn empty_input_gives_the_empty_stream() {
    assert_eq!(TokenTrees::new(Tokens::new(Vec::new())).parse(), Ok(TokenStream::new(Vec::new())));
    assert_eq!(assemble(Vec::new()), Some(Ok(TokenStream::new(Vec::new()))));
}

#[test]
fn balanced_input_nests_in_source_order() {
    let items = vec![
        open(Delimiter::Parenthesis, 0),
        ident("a", 2, 3),
        open(Delimiter::Bracket, 4),
        ident("b", 6, 7),
        close(Delimiter::Bracket, 8),
        ident("c", 10, 11),
        close(Delimiter::Parenthesis, 12),
    ];
    let expected = TokenStream::new(vec![group(
        Delimiter::Parenthesis,
        0,
        12,
        vec![
            leaf_of(ident("a", 2, 3)),
            group(Delimiter::Bracket, 4, 8, vec![leaf_of(ident("b", 6, 7))]),
            leaf_of(ident("c", 10, 11)),
        ],
    )]);
    assert_eq!(TokenTrees::new(Tokens::new(items)).parse(), Ok(expected));
}

#[test]
fn open_alone_is_unclosed() {
    let items = vec![open(Delimiter::Parenthesis, 0)];
    assert_eq!(
        TokenTrees::new(Tokens::new(items)).parse(),
        Err(DelimError::UnclosedDelimiter { delim: Delimiter::Parenthesis, open: Span::new(0, 1) })
    );
}

#[test]
fn close_of_another_kind_is_mismatched() {
    let items = vec![open(Delimiter::Parenthesis, 0), close(Delimiter::Bracket, 2)];
    assert_eq!(
        TokenTrees::new(Tokens::new(items)).parse(),
        Err(DelimError::MismatchedDelimiter {
            delim: Delimiter::Parenthesis,
            open: Span::new(0, 1),
            found: Delimiter::Bracket,
            close: Span::new(2, 3),
        })
    );
}

#[test]
fn close_alone_is_a_stray_close() {
    assert_eq!(assemble(vec![close(Delimiter::Brace, 0)]), None);
}

#[test]
fn close_behind_a_closed_group_is_a_stray_close() {
    let items = vec![
        open(Delimiter::Brace, 0),
        close(Delimiter::Brace, 1),
        close(Delimiter::Brace, 2),
        ident("x", 3, 4),
    ];
    assert_eq!(assemble(items), None);
}

#[test]
fn error_before_a_stray_close_is_reported() {
    let items = vec![
        open(Delimiter::Brace, 0),
        close(Delimiter::Parenthesis, 1),
        close(Delimiter::Brace, 2),
        close(Delimiter::Brace, 3),
    ];
    assert_eq!(
        assemble(items),
        Some(Err(DelimError::MismatchedDelimiter {
            delim: Delimiter::Brace,
            open: Span::new(0, 1),
            found: Delimiter::Parenthesis,
            close: Span::new(1, 2),
        }))
    );
}

#[test]
fn try_parse_agrees_with_parse_on_balanced_input() {
    let items = || vec![
        open(Delimiter::Brace, 0),
        ident("x", 1, 2),
        close(Delimiter::Brace, 2),
        ident("y", 4, 5),
    ];
    let parsed = TokenTrees::new(Tokens::new(items())).parse();
    assert_eq!(assemble(items()), Some(parsed));
}

#[test]
fn inner_unclosed_delimiter_is_named() {
    let items = vec![
        open(Delimiter::Parenthesis, 0),
        open(Delimiter::Brace, 1),
        ident("x", 2, 3),
    ];
    assert_eq!(
        assemble(items),
        Some(Err(DelimError::UnclosedDelimiter { delim: Delimiter::Brace, open: Span::new(1, 2) }))
    );
}

#[test]
fn outer_unclosed_delimiter_is_named_when_the_inner_is_closed() {
    let items = vec![
        open(Delimiter::Parenthesis, 0),
        open(Delimiter::Brace, 1),
        close(Delimiter::Brace, 2),
    ];
    assert_eq!(
        assemble(items),
        Some(Err(DelimError::UnclosedDelimiter {
            delim: Delimiter::Parenthesis,
            open: Span::new(0, 1),
        }))
    );
}

#[test]
fn crossed_delimiters_are_mismatched_at_the_inner_one() {
    let items = vec![
        open(Delimiter::Parenthesis, 0),
        open(Delimiter::Bracket, 1),
        close(Delimiter::Parenthesis, 2),
        close(Delimiter::Bracket, 3),
    ];
    assert_eq!(
        assemble(items),
        Some(Err(DelimError::MismatchedDelimiter {
            delim: Delimiter::Bracket,
            open: Span::new(1, 2),
            found: Delimiter::Parenthesis,
            close: Span::new(2, 3),
        }))
    );
}

#[test]
fn empty_groups_of_each_kind() {
    let items = vec![
        open(Delimiter::Parenthesis, 0),
        close(Delimiter::Parenthesis, 1),
        open(Delimiter::Brace, 2),
        close(Delimiter::Brace, 3),
        open(Delimiter::Bracket, 4),
        close(Delimiter::Bracket, 5),
    ];
    let expected = TokenStream::new(vec![
        group(Delimiter::Parenthesis, 0, 1, Vec::new()),
        group(Delimiter::Brace, 2, 3, Vec::new()),
        group(Delimiter::Bracket, 4, 5, Vec::new()),
    ]);
    assert_eq!(assemble(items), Some(Ok(expected)));
}

#[test]
fn deeply_nested_groups() {
    let items = vec![
        open(Delimiter::Parenthesis, 0),
        open(Delimiter::Brace, 1),
        open(Delimiter::Bracket, 2),
        close(Delimiter::Bracket, 3),
        close(Delimiter::Brace, 4),
        close(Delimiter::Parenthesis, 5),
    ];
    let expected = TokenStream::new(vec![group(
        Delimiter::Parenthesis,
        0,
        5,
        vec![group(Delimiter::Brace, 1, 4, vec![group(Delimiter::Bracket, 2, 3, Vec::new())])],
    )]);
    assert_eq!(assemble(items), Some(Ok(expected)));
}

#[test]
fn joint_tokens_are_glued_while_assembling() {
    let items = vec![
        ident("a", 0, 1),
        raw(TokenKind::Lt, 2, 3, Spacing::Joint),
        raw(TokenKind::Lt, 3, 4, Spacing::Joint),
        raw(TokenKind::Eq, 4, 5, Spacing::Alone),
        ident("b", 6, 7),
    ];
    let expected = TokenStream::new(vec![
        leaf_of(ident("a", 0, 1)),
        leaf_of(raw(TokenKind::BinOpEq(BinOpToken::Shl), 2, 5, Spacing::Alone)),
        leaf_of(ident("b", 6, 7)),
    ]);
    assert_eq!(TokenTrees::new(Tokens::new(items)).parse(), Ok(expected));
}

#[test]
fn alone_tokens_are_not_glued_while_assembling() {
    let items = vec![
        raw(TokenKind::Lt, 0, 1, Spacing::Alone),
        raw(TokenKind::Eq, 2, 3, Spacing::Alone),
    ];
    let expected = TokenStream::new(vec![
        leaf_of(raw(TokenKind::Lt, 0, 1, Spacing::Alone)),
        leaf_of(raw(TokenKind::Eq, 2, 3, Spacing::Alone)),
    ]);
    assert_eq!(TokenTrees::new(Tokens::new(items)).parse(), Ok(expected));
}

#[test]
fn gluing_does_not_reach_across_a_delimiter() {
    let items = vec![
        raw(TokenKind::Eq, 0, 1, Spacing::Joint),
        raw(TokenKind::OpenDelim(Delimiter::Parenthesis), 1, 2, Spacing::Joint),
        raw(TokenKind::Eq, 2, 3, Spacing::Joint),
        raw(TokenKind::CloseDelim(Delimiter::Parenthesis), 3, 4, Spacing::Joint),
        raw(TokenKind::Eq, 4, 5, Spacing::Joint),
    ];
    let expected = TokenStream::new(vec![
        leaf_of(raw(TokenKind::Eq, 0, 1, Spacing::Joint)),
        group(
            Delimiter::Parenthesis,
            1,
            3,
            vec![leaf_of(raw(TokenKind::Eq, 2, 3, Spacing::Joint))],
        ),
        leaf_of(raw(TokenKind::Eq, 4, 5, Spacing::Joint)),
    ]);
    assert_eq!(assemble(items), Some(Ok(expected)));
}

#[test]
fn lifetime_is_glued_inside_a_group() {
    let items = vec![
        open(Delimiter::Bracket, 0),
        raw(TokenKind::SingleQuote, 1, 2, Spacing::Joint),
        ident("a", 2, 3),
        close(Delimiter::Bracket, 3),
    ];
    let expected = TokenStream::new(vec![group(
        Delimiter::Bracket,
        0,
        3,
        vec![leaf_of(raw(TokenKind::Lifetime(Symbol::new("'a")), 1, 3, Spacing::Alone))],
    )]);
    assert_eq!(assemble(items), Some(Ok(expected)));
}

#[test]
fn a_source_that_was_read_from_is_assembled_from_there() {
    let mut tokens = Tokens::new(vec![
        close(Delimiter::Brace, 0),
        ident("x", 1, 2),
        ident("y", 3, 4),
    ]);
    let _ = tokens.next_token();
    let expected = TokenStream::new(vec![leaf_of(ident("x", 1, 2)), leaf_of(ident("y", 3, 4))]);
    assert_eq!(TokenTrees::new(tokens).parse(), Ok(expected));
}
