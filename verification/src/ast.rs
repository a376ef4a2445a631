//! The expression tree of a formula and its truth value under an assignment.
//!
//! An assignment is an ordered list of variables and a number: the lowest bit
//! of the number is the value of the first variable, the next bit that of the
//! second, and so on.

use vstd::prelude::*;
use crate::token::{Token, Implicator, Operator, Identifier, InternalEvaluationError, is_identifier_char};

verus! {

/// A node of the tree. A leaf holds an identifier, an upper-case letter, and no child, a negation
/// holds `!` and its operand on the left, every other node holds a binary
/// operator and both operands.
#[derive(Debug, PartialEq, Eq)]
pub struct Node {
    pub token: Token,
    pub left: Option<Box<Node>>,
    pub right: Option<Box<Node>>,
}

/// Whether `t` is one of the binary operators.
pub open spec fn is_binary(t: Token) -> bool {
    match t {
        Token::Implicator(_) => true,
        Token::Operator(Operator(op)) => op == '+' || op == '|' || op == '^',
        _ => false,
    }
}

/// The value of the binary operator `t` on `a` and `b`.
pub open spec fn apply(t: Token, a: bool, b: bool) -> bool {
    match t {
        Token::Implicator(Implicator { iff }) => if iff { a == b } else { !a || b },
        Token::Operator(Operator(op)) => if op == '+' {
            a && b
        } else if op == '|' {
            a || b
        } else {
            a != b
        },
        _ => false,
    }
}

/// The value that the assignment `bits` gives to `c`: bit `i` of `bits`
/// where `c` is first found at index `i` of `variables`.
pub open spec fn value_of(variables: Seq<char>, bits: nat, c: char) -> Option<bool>
    decreases variables.len(),
{
    if variables.len() == 0 {
        None
    } else if variables[0] == c {
        Some(bits % 2 == 1)
    } else {
        value_of(variables.drop_first(), bits / 2, c)
    }
}

impl Node {
    /// The shape that every tree of a formula has.
    pub open spec fn wf(self) -> bool
        decreases self,
    {
        match self.token {
            Token::Identifier(Identifier(c)) => is_identifier_char(c) && self.left is None && self.right is None,
            Token::Operator(Operator(op)) => if op == '!' {
                self.right is None && match self.left {
                    Some(l) => l.wf(),
                    None => false,
                }
            } else {
                is_binary(self.token) && match (self.left, self.right) {
                    (Some(l), Some(r)) => l.wf() && r.wf(),
                    _ => false,
                }
            },
            Token::Implicator(_) => match (self.left, self.right) {
                (Some(l), Some(r)) => l.wf() && r.wf(),
                _ => false,
            },
            Token::Parenthesis(_) => false,
        }
    }

    /// The identifiers at the leaves, from left to right.
    pub open spec fn leaves(self) -> Seq<char>
        decreases self,
    {
        match self.token {
            Token::Identifier(Identifier(c)) => seq![c],
            _ => (match self.left {
                Some(l) => l.leaves(),
                None => Seq::empty(),
            }) + (match self.right {
                Some(r) => r.leaves(),
                None => Seq::empty(),
            }),
        }
    }

    /// The truth value of the formula under the assignment `bits` of
    /// `variables`, or the first identifier, left operand before right, that
    /// the assignment has no value for.
    pub open spec fn truth(self, variables: Seq<char>, bits: nat) -> Result<bool, InternalEvaluationError>
        decreases self,
    {
        match self.token {
            Token::Identifier(Identifier(c)) => match value_of(variables, bits, c) {
                Some(b) => Ok(b),
                None => Err(InternalEvaluationError { identifier: c }),
            },
            _ => match self.left {
                None => Ok(false),
                Some(l) => match l.truth(variables, bits) {
                    Err(e) => Err(e),
                    Ok(a) => match self.right {
                        None => Ok(!a),
                        Some(r) => match r.truth(variables, bits) {
                            Err(e) => Err(e),
                            Ok(b) => Ok(apply(self.token, a, b)),
                        },
                    },
                },
            },
        }
    }

    /// The leaf for the identifier `id`.
    pub fn leaf(id: Identifier) -> (n: Node)
        requires
            is_identifier_char(id.0),
        ensures
            n == (Node { token: Token::Identifier(id), left: None, right: None }),
            n.wf(),
    {
        Node { token: Token::Identifier(id), left: None, right: None }
    }

    /// The negation of `operand`.
    pub fn negation(operand: Node) -> (n: Node)
        requires
            operand.wf(),
        ensures
            n == (Node { token: Token::Operator(Operator('!')), left: Some(Box::new(operand)), right: None }),
            n.wf(),
    {
        Node { token: Token::Operator(Operator('!')), left: Some(Box::new(operand)), right: None }
    }

    /// The node that joins `left` and `right` by the binary operator `token`.
    pub fn binary(token: Token, left: Node, right: Node) -> (n: Node)
        requires
            is_binary(token),
            left.wf(),
            right.wf(),
        ensures
            n == (Node { token, left: Some(Box::new(left)), right: Some(Box::new(right)) }),
            n.wf(),
    {
        Node { token, left: Some(Box::new(left)), right: Some(Box::new(right)) }
    }
}

/// Looks a variable up in an assignment.
pub fn lookup(variables: &Vec<char>, bits: u64, c: char) -> (r: Option<bool>)
    ensures
        r == value_of(variables@, bits as nat, c),
{
    let mut rest: u64 = bits;
    let mut i: usize = 0;
    assert(variables@.skip(0) =~= variables@);
    while i < variables.len()
        invariant
            i <= variables.len(),
            value_of(variables@, bits as nat, c) == value_of(variables@.skip(i as int), rest as nat, c),
        decreases variables.len() - i,
    {
        proof {
            assert(variables@.skip(i as int).drop_first() =~= variables@.skip(i + 1));
        }
        if variables[i] == c {
            return Some(rest % 2 == 1);
        }
        rest = rest / 2;
        i = i + 1;
    }
    None
}

/// The value of the binary operator `token` on two truth values.
pub fn combine(token: Token, a: bool, b: bool) -> (r: bool)
    ensures
        r == apply(token, a, b),
{
    match token {
        Token::Implicator(Implicator { iff }) => if iff { a == b } else { !a || b },
        Token::Operator(Operator(op)) => if op == '+' {
            a && b
        } else if op == '|' {
            a || b
        } else {
            a != b
        },
        _ => false,
    }
}

/// Evaluates a formula under the assignment `bits` of `variables`, the left
/// operand before the right one. It fails only on an identifier that
/// `variables` does not hold.
pub fn evaluate(node: &Node, variables: &Vec<char>, bits: u64) -> (r: Result<bool, InternalEvaluationError>)
    requires
        node.wf(),
    ensures
        r == node.truth(variables@, bits as nat),
    decreases *node,
{
    match node.token {
        Token::Identifier(Identifier(c)) => match lookup(variables, bits, c) {
            Some(b) => Ok(b),
            None => Err(InternalEvaluationError { identifier: c }),
        },
        _ => match &node.left {
            None => Ok(false),
            Some(l) => match evaluate(l, variables, bits) {
                Err(e) => Err(e),
                Ok(a) => match &node.right {
                    None => Ok(!a),
                    Some(r) => match evaluate(r, variables, bits) {
                        Err(e) => Err(e),
                        Ok(b) => Ok(combine(node.token, a, b)),
                    },
                },
            },
        },
    }
}

} // verus!
