//! The truth value of a formula read straight off its tokens: every
//! identifier is replaced by its value as it is met, and the operators are
//! applied as the grammar groups them. No tree is built.
//!
//! This is a second way to the value that `evaluate` finds on the tree; the
//! two agree on every formula and every assignment.

use vstd::prelude::*;
use crate::token::{Token, Operator, Parenthesis, Identifier, ParseError, Expected, InternalEvaluationError,
    is_identifier, is_identifier_char};
use crate::ast::{Node, apply, combine, lookup, value_of};
use crate::parser::{LEVELS, Parsed, binary_level, chain, chains_right, close_token, expr, grammar, level_of,
    level_rank, not_token, open_token, operand, token_at};

verus! {

/// A truth value, or the identifier that has none.
pub type Value = Result<bool, InternalEvaluationError>;

/// A value together with the position of the first token behind its
/// expression.
pub type Valued = Result<(Value, int), ParseError>;

/// The value of a negation.
pub open spec fn negate(v: Value) -> Value {
    match v {
        Ok(a) => Ok(!a),
        Err(e) => Err(e),
    }
}

/// The value of a binary operator on two operands, the left one first.
pub open spec fn join(token: Token, left: Value, right: Value) -> Value {
    match left {
        Err(e) => Err(e),
        Ok(a) => match right {
            Err(e) => Err(e),
            Ok(b) => Ok(apply(token, a, b)),
        },
    }
}

/// The value of an identifier.
pub open spec fn identifier_value(variables: Seq<char>, bits: nat, c: char) -> Value {
    match value_of(variables, bits, c) {
        Some(b) => Ok(b),
        None => Err(InternalEvaluationError { identifier: c }),
    }
}

/// The value of the expression of `level` that starts at `pos`.
pub open spec fn value_expr(tokens: Seq<Token>, pos: int, level: int, variables: Seq<char>, bits: nat) -> Valued
    decreases tokens.len() - pos, level_rank(level),
{
    if pos < 0 || pos >= tokens.len() {
        Err(ParseError::UnexpectedEndOfInput)
    } else if level < 0 || level >= LEVELS {
        value_operand(tokens, pos, variables, bits)
    } else {
        match value_expr(tokens, pos, level + 1, variables, bits) {
            Err(e) => Err(e),
            Ok((lhs, p)) => if pos < p <= tokens.len() {
                value_chain(tokens, p, level, lhs, variables, bits)
            } else {
                Ok((lhs, p))
            },
        }
    }
}

/// The value of what follows an operand of `level` whose value is `lhs`.
pub open spec fn value_chain(
    tokens: Seq<Token>,
    pos: int,
    level: int,
    lhs: Value,
    variables: Seq<char>,
    bits: nat,
) -> Valued
    decreases tokens.len() - pos, 0int,
{
    if 0 <= pos < tokens.len() && 0 <= level < LEVELS && level_of(tokens[pos]) == Some(level) {
        match value_expr(tokens, pos + 1, if chains_right(level) { level } else { level + 1 }, variables, bits) {
            Err(e) => Err(e),
            Ok((rhs, p)) => {
                let joined = join(tokens[pos], lhs, rhs);
                if !chains_right(level) && pos < p <= tokens.len() {
                    value_chain(tokens, p, level, joined, variables, bits)
                } else {
                    Ok((joined, p))
                }
            },
        }
    } else {
        Ok((lhs, pos))
    }
}

/// The value of the negation, group or identifier that starts at `pos`.
pub open spec fn value_operand(tokens: Seq<Token>, pos: int, variables: Seq<char>, bits: nat) -> Valued
    decreases tokens.len() - pos, 0int,
{
    if pos < 0 || pos >= tokens.len() {
        Err(ParseError::UnexpectedEndOfInput)
    } else if tokens[pos] == not_token() {
        match value_operand(tokens, pos + 1, variables, bits) {
            Err(e) => Err(e),
            Ok((inner, p)) => Ok((negate(inner), p)),
        }
    } else if tokens[pos] == open_token() {
        match value_expr(tokens, pos + 1, 0, variables, bits) {
            Err(e) => Err(e),
            Ok((inner, p)) => if token_at(tokens, p) == Some(close_token()) {
                Ok((inner, p + 1))
            } else {
                Err(ParseError::SyntaxError {
                    expected: Expected::CloseParenthesis,
                    found: token_at(tokens, p),
                    position: p as usize,
                })
            },
        }
    } else if tokens[pos] matches Token::Identifier(Identifier(c)) && is_identifier_char(c) {
        Ok((identifier_value(variables, bits, tokens[pos]->Identifier_0.0), pos + 1))
    } else {
        Err(ParseError::SyntaxError {
            expected: Expected::Operand,
            found: Some(tokens[pos]),
            position: pos as usize,
        })
    }
}

/// The value of a whole token sequence under the assignment `bits`.
pub open spec fn direct_value(tokens: Seq<Token>, variables: Seq<char>, bits: nat) -> Result<Value, ParseError> {
    match value_expr(tokens, 0, 0, variables, bits) {
        Err(e) => Err(e),
        Ok((v, p)) => if p == tokens.len() {
            Ok(v)
        } else {
            Err(ParseError::SyntaxError {
                expected: Expected::OperatorOrEnd,
                found: token_at(tokens, p),
                position: p as usize,
            })
        },
    }
}

/// The value of a parsed tree, at the place where its expression ended.
pub open spec fn valued(parsed: Parsed, variables: Seq<char>, bits: nat) -> Valued {
    match parsed {
        Ok((n, p)) => Ok((n.truth(variables, bits), p)),
        Err(e) => Err(e),
    }
}

proof fn lemma_expr_value(tokens: Seq<Token>, pos: int, level: int, variables: Seq<char>, bits: nat)
    ensures
        value_expr(tokens, pos, level, variables, bits) == valued(expr(tokens, pos, level), variables, bits),
    decreases tokens.len() - pos, level_rank(level),
{
    if pos < 0 || pos >= tokens.len() {
    } else if level < 0 || level >= LEVELS {
        lemma_operand_value(tokens, pos, variables, bits);
    } else {
        lemma_expr_value(tokens, pos, level + 1, variables, bits);
        match expr(tokens, pos, level + 1) {
            Err(_) => {},
            Ok((lhs, p)) => {
                if pos < p <= tokens.len() {
                    lemma_chain_value(tokens, p, level, lhs, variables, bits);
                }
            },
        }
    }
}

proof fn lemma_chain_value(tokens: Seq<Token>, pos: int, level: int, lhs: Node, variables: Seq<char>, bits: nat)
    ensures
        value_chain(tokens, pos, level, lhs.truth(variables, bits), variables, bits) == valued(
            chain(tokens, pos, level, lhs),
            variables,
            bits,
        ),
    decreases tokens.len() - pos, 0int,
{
    if 0 <= pos < tokens.len() && 0 <= level < LEVELS && level_of(tokens[pos]) == Some(level) {
        let sub = if chains_right(level) { level } else { level + 1 };
        lemma_expr_value(tokens, pos + 1, sub, variables, bits);
        match expr(tokens, pos + 1, sub) {
            Err(_) => {},
            Ok((rhs, p)) => {
                let joined = Node { token: tokens[pos], left: Some(Box::new(lhs)), right: Some(Box::new(rhs)) };
                assert(joined.truth(variables, bits) == join(
                    tokens[pos],
                    lhs.truth(variables, bits),
                    rhs.truth(variables, bits),
                ));
                if !chains_right(level) && pos < p <= tokens.len() {
                    lemma_chain_value(tokens, p, level, joined, variables, bits);
                }
            },
        }
    }
}

proof fn lemma_operand_value(tokens: Seq<Token>, pos: int, variables: Seq<char>, bits: nat)
    ensures
        value_operand(tokens, pos, variables, bits) == valued(operand(tokens, pos), variables, bits),
    decreases tokens.len() - pos, 0int,
{
    if pos < 0 || pos >= tokens.len() {
    } else if tokens[pos] == not_token() {
        lemma_operand_value(tokens, pos + 1, variables, bits);
        match operand(tokens, pos + 1) {
            Err(_) => {},
            Ok((inner, p)) => {
                let node = Node { token: tokens[pos], left: Some(Box::new(inner)), right: None };
                assert(node.truth(variables, bits) == negate(inner.truth(variables, bits)));
            },
        }
    } else if tokens[pos] == open_token() {
        lemma_expr_value(tokens, pos + 1, 0, variables, bits);
    } else {
    }
}

/// Reading the value off the tokens and evaluating the parsed tree agree, for
/// every token sequence and every assignment: both fail to read the same
/// sequences, with the same error, and where they read one they give the same
/// truth value or miss the same identifier.
pub proof fn lemma_direct_value_agrees(tokens: Seq<Token>, variables: Seq<char>, bits: nat)
    ensures
        direct_value(tokens, variables, bits) == match grammar(tokens) {
            Ok(root) => Ok::<Value, ParseError>(root.truth(variables, bits)),
            Err(e) => Err::<Value, ParseError>(e),
        },
{
    lemma_expr_value(tokens, 0, 0, variables, bits);
}

/// That the executable result `r` is the specified result `s`, and that it
/// ends behind `pos`, inside the tokens.
pub open spec fn same_value(r: Result<(Value, usize), ParseError>, s: Valued, pos: int, len: int) -> bool {
    match r {
        Ok((v, p)) => s == Ok::<(Value, int), ParseError>((v, p as int)) && pos < p <= len,
        Err(e) => s == Err::<(Value, int), ParseError>(e),
    }
}

fn negated(v: Value) -> (r: Value)
    ensures
        r == negate(v),
{
    match v {
        Ok(a) => Ok(!a),
        Err(e) => Err(e),
    }
}

fn joined(token: Token, left: Value, right: Value) -> (r: Value)
    ensures
        r == join(token, left, right),
{
    match left {
        Err(e) => Err(e),
        Ok(a) => match right {
            Err(e) => Err(e),
            Ok(b) => Ok(combine(token, a, b)),
        },
    }
}

fn read_expr(tokens: &Vec<Token>, pos: usize, level: u8, variables: &Vec<char>, bits: u64) -> (r: Result<
    (Value, usize),
    ParseError,
>)
    requires
        pos <= tokens.len(),
        level <= LEVELS,
    ensures
        same_value(
            r,
            value_expr(tokens@, pos as int, level as int, variables@, bits as nat),
            pos as int,
            tokens.len() as int,
        ),
    decreases tokens.len() - pos, level_rank(level as int),
{
    if pos >= tokens.len() {
        Err(ParseError::UnexpectedEndOfInput)
    } else if level >= LEVELS {
        read_operand(tokens, pos, variables, bits)
    } else {
        match read_expr(tokens, pos, level + 1, variables, bits) {
            Err(e) => Err(e),
            Ok((lhs, p)) => read_chain(tokens, p, level, lhs, variables, bits),
        }
    }
}

fn read_chain(tokens: &Vec<Token>, pos: usize, level: u8, lhs: Value, variables: &Vec<char>, bits: u64) -> (r:
    Result<(Value, usize), ParseError>)
    requires
        pos <= tokens.len(),
        level < LEVELS,
    ensures
        same_value(
            r,
            value_chain(tokens@, pos as int, level as int, lhs, variables@, bits as nat),
            pos as int - 1,
            tokens.len() as int,
        ),
    decreases tokens.len() - pos, 0int,
{
    if pos >= tokens.len() {
        return Ok((lhs, pos));
    }
    let token = tokens[pos];
    match binary_level(token) {
        Some(l) if l == level => {
            let right = level <= 1;
            match read_expr(tokens, pos + 1, if right { level } else { level + 1 }, variables, bits) {
                Err(e) => Err(e),
                Ok((rhs, p)) => {
                    let both = joined(token, lhs, rhs);
                    if right {
                        Ok((both, p))
                    } else {
                        read_chain(tokens, p, level, both, variables, bits)
                    }
                },
            }
        },
        _ => Ok((lhs, pos)),
    }
}

fn read_operand(tokens: &Vec<Token>, pos: usize, variables: &Vec<char>, bits: u64) -> (r: Result<
    (Value, usize),
    ParseError,
>)
    requires
        pos <= tokens.len(),
    ensures
        same_value(
            r,
            value_operand(tokens@, pos as int, variables@, bits as nat),
            pos as int,
            tokens.len() as int,
        ),
    decreases tokens.len() - pos, 0int,
{
    if pos >= tokens.len() {
        return Err(ParseError::UnexpectedEndOfInput);
    }
    let token = tokens[pos];
    match token {
        Token::Operator(Operator(op)) if op == '!' => match read_operand(tokens, pos + 1, variables, bits) {
            Err(e) => Err(e),
            Ok((inner, p)) => Ok((negated(inner), p)),
        },
        Token::Parenthesis(Parenthesis(side)) if side == '(' => match read_expr(
            tokens,
            pos + 1,
            0,
            variables,
            bits,
        ) {
            Err(e) => Err(e),
            Ok((inner, p)) => {
                if p < tokens.len() {
                    match tokens[p] {
                        Token::Parenthesis(Parenthesis(other)) if other == ')' => { return Ok((inner, p + 1)); },
                        _ => {},
                    }
                }
                Err(ParseError::SyntaxError {
                    expected: Expected::CloseParenthesis,
                    found: if p < tokens.len() { Some(tokens[p]) } else { None },
                    position: p,
                })
            },
        },
        Token::Identifier(id) if is_identifier(id.0) => {
            let v = match lookup(variables, bits, id.0) {
                Some(b) => Ok(b),
                None => Err(InternalEvaluationError { identifier: id.0 }),
            };
            Ok((v, pos + 1))
        },
        _ => Err(ParseError::SyntaxError { expected: Expected::Operand, found: Some(token), position: pos }),
    }
}

/// Reads the truth value of a formula off its tokens, under the assignment
/// `bits` of `variables`. The outer result says whether the tokens are a
/// formula, the inner one whether every identifier had a value; both are
/// what parsing and then evaluating the tree give.
pub fn evaluate_tokens(tokens: &Vec<Token>, variables: &Vec<char>, bits: u64) -> (r: Result<Value, ParseError>)
    ensures
        r == direct_value(tokens@, variables@, bits as nat),
        r == match grammar(tokens@) {
            Ok(root) => Ok::<Value, ParseError>(root.truth(variables@, bits as nat)),
            Err(e) => Err::<Value, ParseError>(e),
        },
{
    proof {
        lemma_direct_value_agrees(tokens@, variables@, bits as nat);
    }
    match read_expr(tokens, 0, 0, variables, bits) {
        Err(e) => Err(e),
        Ok((v, p)) => if p == tokens.len() {
            Ok(v)
        } else {
            Err(ParseError::SyntaxError { expected: Expected::OperatorOrEnd, found: Some(tokens[p]), position: p })
        },
    }
}

} // verus!
