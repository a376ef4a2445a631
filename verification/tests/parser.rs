use expert_system::ast::{evaluate, lookup, Node};
use expert_system::direct::evaluate_tokens;
use expert_system::lexer::tokenize;
use expert_system::parser::{binary_level, parse_tokens, Parser};
use expert_system::token::{
    Expected, Identifier, Implicator, InternalEvaluationError, Operator, Parenthesis, ParseError,
    Token,
};

fn leaf(c: char) -> Node {
    Node { token: Token::Identifier(Identifier(c)), left: None, right: None }
}

fn join(token: Token, left: Node, right: Node) -> Node {
    Node { token, left: Some(Box::new(left)), right: Some(Box::new(right)) }
}

fn not(inner: Node) -> Node {
    Node { token: Token::Operator(Operator('!')), left: Some(Box::new(inner)), right: None }
}

fn and() -> Token {
    Token::Operator(Operator('+'))
}

fn or() -> Token {
    Token::Operator(Operator('|'))
}

fn xor() -> Token {
    Token::Operator(Operator('^'))
}

fn implies() -> Token {
    Token::Implicator(Implicator { iff: false })
}

fn iff() -> Token {
    Token::Implicator(Implicator { iff: true })
}

fn parse(formula: &str) -> Result<Node, ParseError> {
    Parser::new().parse(formula)
}

#[test]
fn parse_single_identifier() {
    assert_eq!(parse("A"), Ok(leaf('A')));
}

#[test]
fn parse_and_binds_tighter_than_or() {
    assert_eq!(parse("A + B | C"), Ok(join(or(), join(and(), leaf('A'), leaf('B')), leaf('C'))));
    assert_ne!(parse("A + B | C"), Ok(join(and(), leaf('A'), join(or(), leaf('B'), leaf('C')))));
    assert_eq!(parse("A | B + C"), Ok(join(or(), leaf('A'), join(and(), leaf('B'), leaf('C')))));
}

#[test]
fn parse_implies_chains_to_the_right() {
    assert_eq!(
        parse("A => B => C"),
        Ok(join(implies(), leaf('A'), join(implies(), leaf('B'), leaf('C'))))
    );
    assert_eq!(
        parse("A <=> B <=> C"),
        Ok(join(iff(), leaf('A'), join(iff(), leaf('B'), leaf('C'))))
    );
}

#[test]
fn parse_and_or_xor_chain_to_the_left() {
    assert_eq!(parse("A + B + C"), Ok(join(and(), join(and(), leaf('A'), leaf('B')), leaf('C'))));
    assert_eq!(parse("A | B | C"), Ok(join(or(), join(or(), leaf('A'), leaf('B')), leaf('C'))));
    assert_eq!(parse("A ^ B ^ C"), Ok(join(xor(), join(xor(), leaf('A'), leaf('B')), leaf('C'))));
}

#[test]
fn parse_precedence_ladder() {
    // iff < implies < or < xor < and < not
    assert_eq!(
        parse("A <=> B => C | D ^ E + !F"),
        Ok(join(
            iff(),
            leaf('A'),
            join(
                implies(),
                leaf('B'),
                join(or(), leaf('C'), join(xor(), leaf('D'), join(and(), leaf('E'), not(leaf('F')))))
            )
        ))
    );
    assert_eq!(
        parse("A => B <=> C"),
        Ok(join(iff(), join(implies(), leaf('A'), leaf('B')), leaf('C')))
    );
}

#[test]
fn parse_parentheses_group() {
    assert_eq!(parse("A + (B | C)"), Ok(join(and(), leaf('A'), join(or(), leaf('B'), leaf('C')))));
    assert_eq!(parse("((A))"), Ok(leaf('A')));
    assert_eq!(
        parse("(A => B) => C"),
        Ok(join(implies(), join(implies(), leaf('A'), leaf('B')), leaf('C')))
    );
}

#[test]
fn parse_negation_nests() {
    assert_eq!(parse("!!A"), Ok(not(not(leaf('A')))));
    assert_eq!(parse("!A + B"), Ok(join(and(), not(leaf('A')), leaf('B'))));
    assert_eq!(parse("!(A + B)"), Ok(not(join(and(), leaf('A'), leaf('B')))));
}

#[test]
fn parse_unclosed_parenthesis() {
    assert_eq!(
        parse("(A + B"),
        Err(ParseError::SyntaxError {
            expected: Expected::CloseParenthesis,
            found: None,
            position: 4
        })
    );
    assert_eq!(
        parse("(A + B C"),
        Err(ParseError::SyntaxError {
            expected: Expected::CloseParenthesis,
            found: Some(Token::Identifier(Identifier('C'))),
            position: 4
        })
    );
}

#[test]
fn parse_adjacent_identifiers() {
    assert_eq!(
        parse("A B"),
        Err(ParseError::SyntaxError {
            expected: Expected::OperatorOrEnd,
            found: Some(Token::Identifier(Identifier('B'))),
            position: 1
        })
    );
}

#[test]
fn parse_stray_tokens() {
    assert_eq!(
        parse("A )"),
        Err(ParseError::SyntaxError {
            expected: Expected::OperatorOrEnd,
            found: Some(Token::Parenthesis(Parenthesis(')'))),
            position: 1
        })
    );
    assert_eq!(
        parse("A + | B"),
        Err(ParseError::SyntaxError {
            expected: Expected::Operand,
            found: Some(Token::Operator(Operator('|'))),
            position: 2
        })
    );
    assert_eq!(
        parse("A !B"),
        Err(ParseError::SyntaxError {
            expected: Expected::OperatorOrEnd,
            found: Some(Token::Operator(Operator('!'))),
            position: 1
        })
    );
}

#[test]
fn parse_unexpected_end() {
    assert_eq!(parse(""), Err(ParseError::UnexpectedEndOfInput));
    assert_eq!(parse("A +"), Err(ParseError::UnexpectedEndOfInput));
    assert_eq!(parse("(A +"), Err(ParseError::UnexpectedEndOfInput));
    assert_eq!(parse("!"), Err(ParseError::UnexpectedEndOfInput));
    assert_eq!(parse("("), Err(ParseError::UnexpectedEndOfInput));
    assert_eq!(parse("A =>"), Err(ParseError::UnexpectedEndOfInput));
}

#[test]
fn parse_passes_lex_errors_on() {
    assert_eq!(parse("A + b"), Err(ParseError::LexError { position: 4, character: 'b' }));
}

#[test]
fn parse_is_deterministic() {
    let mut parser = Parser::new();
    let first = parser.parse("A + B | !C => D <=> (E ^ F)");
    let second = parser.parse("A + B | !C => D <=> (E ^ F)");
    assert!(first.is_ok());
    assert_eq!(first, second);
    assert!(parser.tokens.is_empty());
}

#[test]
fn parse_tokens_agrees_with_parse() {
    let tokens = tokenize("A + B | C").unwrap();
    assert_eq!(parse_tokens(&tokens), parse("A + B | C"));
}

#[test]
fn parse_tokens_refuses_identifier_that_is_no_letter() {
    let tokens = vec![Token::Identifier(Identifier('a'))];
    assert_eq!(
        parse_tokens(&tokens),
        Err(ParseError::SyntaxError {
            expected: Expected::Operand,
            found: Some(Token::Identifier(Identifier('a'))),
            position: 0
        })
    );
}

#[test]
fn binary_levels() {
    assert_eq!(binary_level(iff()), Some(0));
    assert_eq!(binary_level(implies()), Some(1));
    assert_eq!(binary_level(or()), Some(2));
    assert_eq!(binary_level(xor()), Some(3));
    assert_eq!(binary_level(and()), Some(4));
    assert_eq!(binary_level(Token::Operator(Operator('!'))), None);
    assert_eq!(binary_level(Token::Identifier(Identifier('A'))), None);
}

#[test]
fn lookup_reads_bit_of_variable() {
    let vars = vec!['A', 'B', 'C'];
    assert_eq!(lookup(&vars, 0b001, 'A'), Some(true));
    assert_eq!(lookup(&vars, 0b001, 'B'), Some(false));
    assert_eq!(lookup(&vars, 0b100, 'C'), Some(true));
    assert_eq!(lookup(&vars, 0b011, 'C'), Some(false));
    assert_eq!(lookup(&vars, 0b111, 'D'), None);
}

#[test]
fn evaluate_operators() {
    let vars = vec!['A', 'B'];
    let cases: Vec<(&str, [bool; 4])> = vec![
        ("A + B", [false, false, false, true]),
        ("A | B", [false, true, true, true]),
        ("A ^ B", [false, true, true, false]),
        ("A => B", [true, false, true, true]),
        ("A <=> B", [true, false, false, true]),
        ("!A", [true, false, true, false]),
        ("!!A", [false, true, false, true]),
    ];
    for (formula, expected) in cases {
        let root = parse(formula).unwrap();
        for bits in 0..4u64 {
            assert_eq!(evaluate(&root, &vars, bits), Ok(expected[bits as usize]), "{} at {}", formula, bits);
        }
    }
}

#[test]
fn evaluate_agrees_with_direct_definition() {
    let formula = "(A => B) + !C | A ^ C <=> B";
    let root = parse(formula).unwrap();
    let vars = root.variables();
    assert_eq!(vars, vec!['A', 'B', 'C']);
    for bits in 0..8u64 {
        let a = bits & 1 == 1;
        let b = bits & 2 == 2;
        let c = bits & 4 == 4;
        let direct = ((((!a || b) && !c) || (a ^ c)) == b);
        assert_eq!(evaluate(&root, &vars, bits), Ok(direct));
    }
}

#[test]
fn evaluate_reports_missing_identifier() {
    let root = parse("A + Z").unwrap();
    assert_eq!(
        evaluate(&root, &vec!['A'], 1),
        Err(InternalEvaluationError { identifier: 'Z' })
    );
    let both = parse("Y + Z").unwrap();
    assert_eq!(
        evaluate(&both, &vec!['A'], 1),
        Err(InternalEvaluationError { identifier: 'Y' })
    );
}

#[test]
fn variables_in_first_occurrence_order() {
    let root = parse("C + A | C ^ B + A").unwrap();
    assert_eq!(root.variables(), vec!['C', 'A', 'B']);
}

#[test]
fn duplicate_copies_tree() {
    let root = parse("!(A + B) => C").unwrap();
    assert_eq!(root.duplicate(), root);
}

#[test]
fn evaluate_tokens_agrees_with_tree() {
    for formula in ["A + B | C", "!(A => B) <=> C ^ A", "A", "!!B + (C | !A)"] {
        let tokens = tokenize(formula).unwrap();
        let root = parse_tokens(&tokens).unwrap();
        let vars = root.variables();
        for bits in 0..(1u64 << vars.len()) {
            assert_eq!(evaluate_tokens(&tokens, &vars, bits), Ok(evaluate(&root, &vars, bits)));
        }
    }
}

#[test]
fn evaluate_tokens_exact_values() {
    let tokens = tokenize("A => B").unwrap();
    let vars = vec!['A', 'B'];
    assert_eq!(evaluate_tokens(&tokens, &vars, 0), Ok(Ok(true)));
    assert_eq!(evaluate_tokens(&tokens, &vars, 1), Ok(Ok(false)));
    assert_eq!(evaluate_tokens(&tokens, &vars, 2), Ok(Ok(true)));
    assert_eq!(evaluate_tokens(&tokens, &vars, 3), Ok(Ok(true)));
    assert_eq!(
        evaluate_tokens(&tokens, &vec!['A'], 1),
        Ok(Err(InternalEvaluationError { identifier: 'B' }))
    );
    let broken = tokenize("(A + B").unwrap();
    assert_eq!(
        evaluate_tokens(&broken, &vars, 0),
        Err(ParseError::SyntaxError { expected: Expected::CloseParenthesis, found: None, position: 4 })
    );
}
