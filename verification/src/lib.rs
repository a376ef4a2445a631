//! Propositional formulas over the variables `A`–`Z`: lexing, parsing with
//! operator precedence, evaluation, and exhaustive truth-table enumeration.

pub mod token;
pub mod lexer;
pub mod ast;
pub mod parser;
pub mod direct;
pub mod order;
pub mod variables;
pub mod engine;
pub mod partition;
pub mod parallel;
pub mod input;
