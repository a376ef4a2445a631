//! Tokens of a formula and the errors that reading a formula can give.

use vstd::prelude::*;

verus! {

/// An implication arrow: `=>`, or `<=>` when `iff` is set.
#[derive(Clone, Copy, Debug, PartialEq, Eq, Structural)]
pub struct Implicator {
    pub iff: bool,
}

/// One of the operators `+` (and), `|` (or), `^` (xor) and `!` (not).
#[derive(Clone, Copy, Debug, PartialEq, Eq, Structural)]
pub struct Operator(pub char);

/// An opening `(` or a closing `)` parenthesis.
#[derive(Clone, Copy, Debug, PartialEq, Eq, Structural)]
pub struct Parenthesis(pub char);

/// A variable, one upper-case letter.
#[derive(Clone, Copy, Debug, PartialEq, Eq, Structural)]
pub struct Identifier(pub char);

/// A token of a formula.
#[derive(Clone, Copy, Debug, PartialEq, Eq, Structural)]
pub enum Token {
    Implicator(Implicator),
    Operator(Operator),
    Parenthesis(Parenthesis),
    Identifier(Identifier),
}

/// What the parser was looking for when it met a token it could not use.
#[derive(Clone, Copy, Debug, PartialEq, Eq, Structural)]
pub enum Expected {
    /// The `)` that closes a group.
    CloseParenthesis,
    /// A binary operator, or the end of the formula.
    OperatorOrEnd,
    /// An identifier, a `!` or a `(`.
    Operand,
}

/// Why a formula could not be read. Positions of `LexError` count the
/// characters of the formula, those of `SyntaxError` its tokens; both from 0.
#[derive(Clone, Copy, Debug, PartialEq, Eq, Structural)]
pub enum ParseError {
    LexError { position: usize, character: char },
    /// `found` is `None` where the formula ended instead.
    SyntaxError { expected: Expected, found: Option<Token>, position: usize },
    UnexpectedEndOfInput,
}

/// An identifier of the formula that the assignment gives no value to.
#[derive(Clone, Copy, Debug, PartialEq, Eq, Structural)]
pub struct InternalEvaluationError {
    pub identifier: char,
}

/// Why an engine could not be built.
#[derive(Clone, Copy, Debug, PartialEq, Eq, Structural)]
pub enum EngineError {
    InvalidThreadCount,
}

/// The upper-case letters `A`–`Z`.
pub open spec fn is_identifier_char(c: char) -> bool {
    'A' <= c && c <= 'Z'
}

/// Space, tab, line feed and carriage return.
pub open spec fn is_space(c: char) -> bool {
    c == ' ' || c == '\t' || c == '\n' || c == '\r'
}

/// Whether `c` is an upper-case letter `A`–`Z`.
pub fn is_identifier(c: char) -> (b: bool)
    ensures
        b == is_identifier_char(c),
{
    'A' <= c && c <= 'Z'
}

/// Whether `c` is blank space that the lexer passes over.
pub fn is_whitespace(c: char) -> (b: bool)
    ensures
        b == is_space(c),
{
    c == ' ' || c == '\t' || c == '\n' || c == '\r'
}

} // verus!
