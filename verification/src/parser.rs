//! The parser: from tokens to the expression tree.
//!
//! The grammar has five levels of binary operators; a level with a smaller
//! number binds less tightly:
//!
//! | level | operator | written | chains to the |
//! |-------|----------|---------|---------------|
//! | 0     | iff      | `<=>`   | right         |
//! | 1     | implies  | `=>`    | right         |
//! | 2     | or       | `\|`    | left          |
//! | 3     | xor      | `^`     | left          |
//! | 4     | and      | `+`     | left          |
//!
//! Below them stand negation `!`, which applies to the operand that follows
//! it, groups in parentheses, and identifiers.

use vstd::prelude::*;
use crate::token::{Token, Implicator, Operator, Parenthesis, Identifier, ParseError, Expected,
    is_identifier, is_identifier_char};
use crate::ast::{Node, is_binary};
use crate::lexer::{lex, tokenize};

verus! {

/// A tree together with the position of the first token behind it.
pub type Parsed = Result<(Node, int), ParseError>;

/// The number of binary levels.
pub const LEVELS: u8 = 5;

/// The level of the binary operator `t`, if it is one.
pub open spec fn level_of(t: Token) -> Option<int> {
    match t {
        Token::Implicator(Implicator { iff }) => Some(if iff { 0int } else { 1int }),
        Token::Operator(Operator(op)) => if op == '|' {
            Some(2int)
        } else if op == '^' {
            Some(3int)
        } else if op == '+' {
            Some(4int)
        } else {
            None
        },
        _ => None,
    }
}

/// Whether the operators of `level` chain to the right: `A => B => C` is
/// `A => (B => C)`.
pub open spec fn chains_right(level: int) -> bool {
    level <= 1
}

/// The token at `pos`, if the formula has not ended there.
pub open spec fn token_at(tokens: Seq<Token>, pos: int) -> Option<Token> {
    if 0 <= pos < tokens.len() {
        Some(tokens[pos])
    } else {
        None
    }
}

/// The negation sign `!`.
pub open spec fn not_token() -> Token {
    Token::Operator(Operator('!'))
}

/// The opening parenthesis.
pub open spec fn open_token() -> Token {
    Token::Parenthesis(Parenthesis('('))
}

/// The closing parenthesis.
pub open spec fn close_token() -> Token {
    Token::Parenthesis(Parenthesis(')'))
}

/// How many levels lie at or below `level`, operands included: what gets
/// smaller as the grammar steps from a level to the next tighter one.
pub open spec fn level_rank(level: int) -> int {
    if 0 <= level < LEVELS {
        1 + LEVELS - level
    } else {
        1
    }
}

/// An expression of `level` or tighter that starts at `pos`: an operand of
/// the next level, then the operators of this level that follow it.
pub open spec fn expr(tokens: Seq<Token>, pos: int, level: int) -> Parsed
    decreases tokens.len() - pos, level_rank(level),
{
    if pos < 0 || pos >= tokens.len() {
        Err(ParseError::UnexpectedEndOfInput)
    } else if level < 0 || level >= LEVELS {
        operand(tokens, pos)
    } else {
        match expr(tokens, pos, level + 1) {
            Err(e) => Err(e),
            Ok((lhs, p)) => if pos < p <= tokens.len() {
                chain(tokens, p, level, lhs)
            } else {
                Ok((lhs, p))
            },
        }
    }
}

/// What follows the operand `lhs` of `level`, which ended at `pos`: where an
/// operator of this level stands there, its right operand is read and joined
/// to `lhs`; a level that chains to the left then goes on from the joined
/// node.
pub open spec fn chain(tokens: Seq<Token>, pos: int, level: int, lhs: Node) -> Parsed
    decreases tokens.len() - pos, 0int,
{
    if 0 <= pos < tokens.len() && 0 <= level < LEVELS && level_of(tokens[pos]) == Some(level) {
        match expr(tokens, pos + 1, if chains_right(level) { level } else { level + 1 }) {
            Err(e) => Err(e),
            Ok((rhs, p)) => {
                let joined = Node { token: tokens[pos], left: Some(Box::new(lhs)), right: Some(Box::new(rhs)) };
                if !chains_right(level) && pos < p <= tokens.len() {
                    chain(tokens, p, level, joined)
                } else {
                    Ok((joined, p))
                }
            },
        }
    } else {
        Ok((lhs, pos))
    }
}

/// A negation, a group in parentheses or an identifier that starts at `pos`.
/// An identifier token that holds no upper-case letter is no operand.
pub open spec fn operand(tokens: Seq<Token>, pos: int) -> Parsed
    decreases tokens.len() - pos, 0int,
{
    if pos < 0 || pos >= tokens.len() {
        Err(ParseError::UnexpectedEndOfInput)
    } else if tokens[pos] == not_token() {
        match operand(tokens, pos + 1) {
            Err(e) => Err(e),
            Ok((inner, p)) => Ok((Node { token: tokens[pos], left: Some(Box::new(inner)), right: None }, p)),
        }
    } else if tokens[pos] == open_token() {
        match expr(tokens, pos + 1, 0) {
            Err(e) => Err(e),
            Ok((inner, p)) => if token_at(tokens, p) == Some(close_token()) {
                Ok((inner, p + 1))
            } else {
                Err(ParseError::SyntaxError {
                    expected: Expected::CloseParenthesis,
                    found: token_at(tokens, p),
                    position: p as usize,
                })
            },
        }
    } else if tokens[pos] matches Token::Identifier(Identifier(c)) && is_identifier_char(c) {
        Ok((Node { token: tokens[pos], left: None, right: None }, pos + 1))
    } else {
        Err(ParseError::SyntaxError {
            expected: Expected::Operand,
            found: Some(tokens[pos]),
            position: pos as usize,
        })
    }
}

/// The tree of a whole token sequence: one expression of the loosest level
/// with nothing behind it.
pub open spec fn grammar(tokens: Seq<Token>) -> Result<Node, ParseError> {
    match expr(tokens, 0, 0) {
        Err(e) => Err(e),
        Ok((root, p)) => if p == tokens.len() {
            Ok(root)
        } else {
            Err(ParseError::SyntaxError {
                expected: Expected::OperatorOrEnd,
                found: token_at(tokens, p),
                position: p as usize,
            })
        },
    }
}

/// The tree of a formula given as text.
pub open spec fn parse_formula(s: Seq<char>) -> Result<Node, ParseError> {
    match lex(s) {
        Err(e) => Err(e),
        Ok(tokens) => grammar(tokens),
    }
}

/// Whether a parsed expression that started at `pos` is a well-formed tree
/// that ends behind `pos` and inside the tokens.
pub open spec fn advances(parsed: Parsed, pos: int, len: int) -> bool {
    parsed matches Ok((n, p)) ==> pos < p <= len && n.wf()
}

/// Every expression that the grammar reads takes up at least one token and
/// is a well-formed tree.
pub proof fn lemma_expr_advances(tokens: Seq<Token>, pos: int, level: int)
    ensures
        advances(expr(tokens, pos, level), pos, tokens.len() as int),
    decreases tokens.len() - pos, level_rank(level),
{
    if pos < 0 || pos >= tokens.len() {
    } else if level < 0 || level >= LEVELS {
        lemma_operand_advances(tokens, pos);
    } else {
        lemma_expr_advances(tokens, pos, level + 1);
        if let Ok((lhs, p)) = expr(tokens, pos, level + 1) {
            lemma_chain_advances(tokens, p, level, lhs);
        }
    }
}

/// What follows a well-formed operand is joined to it into a well-formed
/// tree, and ends no earlier than the operand did.
pub proof fn lemma_chain_advances(tokens: Seq<Token>, pos: int, level: int, lhs: Node)
    requires
        lhs.wf(),
        0 <= pos <= tokens.len(),
    ensures
        advances(chain(tokens, pos, level, lhs), pos - 1, tokens.len() as int),
    decreases tokens.len() - pos, 0int,
{
    if 0 <= pos < tokens.len() && 0 <= level < LEVELS && level_of(tokens[pos]) == Some(level) {
        let sub = if chains_right(level) { level } else { level + 1 };
        lemma_expr_advances(tokens, pos + 1, sub);
        if let Ok((rhs, p)) = expr(tokens, pos + 1, sub) {
            let joined = Node { token: tokens[pos], left: Some(Box::new(lhs)), right: Some(Box::new(rhs)) };
            assert(is_binary(tokens[pos]));
            assert(joined.wf());
            if !chains_right(level) {
                lemma_chain_advances(tokens, p, level, joined);
            }
        }
    }
}

/// Every operand that the grammar reads takes up at least one token and is a
/// well-formed tree.
pub proof fn lemma_operand_advances(tokens: Seq<Token>, pos: int)
    ensures
        advances(operand(tokens, pos), pos, tokens.len() as int),
    decreases tokens.len() - pos, 0int,
{
    if pos < 0 || pos >= tokens.len() {
    } else if tokens[pos] == not_token() {
        lemma_operand_advances(tokens, pos + 1);
        if let Ok((inner, p)) = operand(tokens, pos + 1) {
            let node = Node { token: tokens[pos], left: Some(Box::new(inner)), right: None };
            assert(node.wf());
        }
    } else if tokens[pos] == open_token() {
        lemma_expr_advances(tokens, pos + 1, 0);
    } else {
    }
}

/// Every tree that the grammar gives is well formed.
pub proof fn lemma_grammar_wf(tokens: Seq<Token>)
    ensures
        grammar(tokens) matches Ok(root) ==> root.wf(),
{
    lemma_expr_advances(tokens, 0, 0);
}

/// Reading is a function of the text alone: two readings of the same formula
/// give the same tree, or fail with the same error.
pub proof fn lemma_parse_deterministic(first: Seq<char>, second: Seq<char>)
    requires
        first == second,
    ensures
        parse_formula(first) == parse_formula(second),
{
}

/// That the executable result `r` is the specified result `s`, and that a
/// tree it holds is well formed and ends behind `pos`, inside the tokens.
pub open spec fn agrees(r: Result<(Node, usize), ParseError>, s: Parsed, pos: int, len: int) -> bool {
    match r {
        Ok((n, p)) => s == Ok::<(Node, int), ParseError>((n, p as int)) && pos < p <= len && n.wf(),
        Err(e) => s == Err::<(Node, int), ParseError>(e),
    }
}

/// The level of a binary operator.
pub fn binary_level(t: Token) -> (r: Option<u8>)
    ensures
        match r {
            Some(l) => level_of(t) == Some(l as int) && l < LEVELS && is_binary(t),
            None => level_of(t) is None,
        },
{
    match t {
        Token::Implicator(Implicator { iff }) => Some(if iff { 0u8 } else { 1u8 }),
        Token::Operator(Operator(op)) => if op == '|' {
            Some(2u8)
        } else if op == '^' {
            Some(3u8)
        } else if op == '+' {
            Some(4u8)
        } else {
            None
        },
        _ => None,
    }
}

fn parse_expr(tokens: &Vec<Token>, pos: usize, level: u8) -> (r: Result<(Node, usize), ParseError>)
    requires
        pos <= tokens.len(),
        level <= LEVELS,
    ensures
        agrees(r, expr(tokens@, pos as int, level as int), pos as int, tokens.len() as int),
    decreases tokens.len() - pos, level_rank(level as int),
{
    if pos >= tokens.len() {
        Err(ParseError::UnexpectedEndOfInput)
    } else if level >= LEVELS {
        parse_operand(tokens, pos)
    } else {
        match parse_expr(tokens, pos, level + 1) {
            Err(e) => Err(e),
            Ok((lhs, p)) => parse_chain(tokens, p, level, lhs),
        }
    }
}

fn parse_chain(tokens: &Vec<Token>, pos: usize, level: u8, lhs: Node) -> (r: Result<(Node, usize), ParseError>)
    requires
        pos <= tokens.len(),
        level < LEVELS,
        lhs.wf(),
    ensures
        agrees(r, chain(tokens@, pos as int, level as int, lhs), pos as int - 1, tokens.len() as int),
    decreases tokens.len() - pos, 0int,
{
    if pos >= tokens.len() {
        return Ok((lhs, pos));
    }
    let token = tokens[pos];
    match binary_level(token) {
        Some(l) if l == level => {
            let right = level <= 1;
            match parse_expr(tokens, pos + 1, if right { level } else { level + 1 }) {
                Err(e) => Err(e),
                Ok((rhs, p)) => {
                    let joined = Node::binary(token, lhs, rhs);
                    if right {
                        Ok((joined, p))
                    } else {
                        parse_chain(tokens, p, level, joined)
                    }
                },
            }
        },
        _ => Ok((lhs, pos)),
    }
}

fn parse_operand(tokens: &Vec<Token>, pos: usize) -> (r: Result<(Node, usize), ParseError>)
    requires
        pos <= tokens.len(),
    ensures
        agrees(r, operand(tokens@, pos as int), pos as int, tokens.len() as int),
    decreases tokens.len() - pos, 0int,
{
    if pos >= tokens.len() {
        return Err(ParseError::UnexpectedEndOfInput);
    }
    let token = tokens[pos];
    match token {
        Token::Operator(Operator(op)) if op == '!' => match parse_operand(tokens, pos + 1) {
            Err(e) => Err(e),
            Ok((inner, p)) => Ok((Node::negation(inner), p)),
        },
        Token::Parenthesis(Parenthesis(side)) if side == '(' => match parse_expr(tokens, pos + 1, 0) {
            Err(e) => Err(e),
            Ok((inner, p)) => {
                if p < tokens.len() {
                    match tokens[p] {
                        Token::Parenthesis(Parenthesis(other)) if other == ')' => { return Ok((inner, p + 1)); },
                        _ => {},
                    }
                }
                Err(ParseError::SyntaxError {
                    expected: Expected::CloseParenthesis,
                    found: if p < tokens.len() { Some(tokens[p]) } else { None },
                    position: p,
                })
            },
        },
        Token::Identifier(id) if is_identifier(id.0) => Ok((Node::leaf(id), pos + 1)),
        _ => Err(ParseError::SyntaxError { expected: Expected::Operand, found: Some(token), position: pos }),
    }
}

/// Builds the tree of a token sequence. A tree comes back exactly where the
/// tokens are one expression of the grammar; otherwise the first place at
/// which they are not is given back.
pub fn parse_tokens(tokens: &Vec<Token>) -> (r: Result<Node, ParseError>)
    ensures
        r == grammar(tokens@),
        r matches Ok(root) ==> root.wf(),
{
    match parse_expr(tokens, 0, 0) {
        Err(e) => Err(e),
        Ok((root, p)) => if p == tokens.len() {
            Ok(root)
        } else {
            Err(ParseError::SyntaxError {
                expected: Expected::OperatorOrEnd,
                found: Some(tokens[p]),
                position: p,
            })
        },
    }
}

/// A parser, which holds the tokens of the formula it is reading.
pub struct Parser {
    pub tokens: Vec<Token>,
}

impl Parser {
    /// A parser that holds no tokens.
    pub fn new() -> (p: Parser)
        ensures
            p.tokens@ == Seq::<Token>::empty(),
    {
        Parser { tokens: Vec::new() }
    }

    /// Reads a formula: splits it into tokens and builds their tree. The
    /// tokens are kept for the time of the call only.
    pub fn parse(&mut self, formula: &str) -> (r: Result<Node, ParseError>)
        ensures
            r == parse_formula(formula@),
            r matches Ok(root) ==> root.wf(),
            final(self).tokens@ == Seq::<Token>::empty(),
    {
        let r = match tokenize(formula) {
            Err(e) => Err(e),
            Ok(tokens) => {
                self.tokens = tokens;
                parse_tokens(&self.tokens)
            },
        };
        self.tokens = Vec::new();
        r
    }
}

} // verus!
