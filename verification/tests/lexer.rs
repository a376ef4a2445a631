use expert_system::lexer::tokenize;
use expert_system::token::{Identifier, Implicator, Operator, Parenthesis, ParseError, Token};

fn id(c: char) -> Token {
    Token::Identifier(Identifier(c))
}

fn op(c: char) -> Token {
    Token::Operator(Operator(c))
}

#[test]
fn tokenize_empty_formula() {
    assert_eq!(tokenize(""), Ok(vec![]));
    assert_eq!(tokenize("  \t "), Ok(vec![]));
}

#[test]
fn tokenize_keeps_source_order() {
    assert_eq!(
        tokenize("A + !B | (C ^ D)"),
        Ok(vec![
            id('A'),
            op('+'),
            op('!'),
            id('B'),
            op('|'),
            Token::Parenthesis(Parenthesis('(')),
            id('C'),
            op('^'),
            id('D'),
            Token::Parenthesis(Parenthesis(')')),
        ])
    );
}

#[test]
fn tokenize_skips_whitespace() {
    assert_eq!(tokenize("A=>Z"), tokenize(" A  =>\tZ\n"));
    assert_eq!(
        tokenize("A=>Z"),
        Ok(vec![id('A'), Token::Implicator(Implicator { iff: false }), id('Z')])
    );
}

#[test]
fn tokenize_matches_longest_arrow_first() {
    assert_eq!(
        tokenize("A<=>B=>C"),
        Ok(vec![
            id('A'),
            Token::Implicator(Implicator { iff: true }),
            id('B'),
            Token::Implicator(Implicator { iff: false }),
            id('C'),
        ])
    );
}

#[test]
fn tokenize_rejects_unknown_character() {
    assert_eq!(
        tokenize("A + b"),
        Err(ParseError::LexError { position: 4, character: 'b' })
    );
    assert_eq!(
        tokenize("A & B"),
        Err(ParseError::LexError { position: 2, character: '&' })
    );
}

#[test]
fn tokenize_rejects_broken_arrows() {
    assert_eq!(
        tokenize("A = B"),
        Err(ParseError::LexError { position: 2, character: '=' })
    );
    assert_eq!(
        tokenize("A <= B"),
        Err(ParseError::LexError { position: 2, character: '<' })
    );
    assert_eq!(
        tokenize("A <"),
        Err(ParseError::LexError { position: 2, character: '<' })
    );
    assert_eq!(
        tokenize("A < = > B"),
        Err(ParseError::LexError { position: 2, character: '<' })
    );
}

#[test]
fn tokenize_counts_characters_not_bytes() {
    assert_eq!(
        tokenize("Aé"),
        Err(ParseError::LexError { position: 1, character: 'é' })
    );
    assert_eq!(
        tokenize("A é"),
        Err(ParseError::LexError { position: 2, character: 'é' })
    );
}
