//! What parsing keeps: the tokens of a tree, read from left to right, are the
//! tokens of the formula without its parentheses. The parser drops no
//! identifier and no operator, adds none, and changes no order; parentheses
//! only decide how the tokens are grouped.

use vstd::prelude::*;
use crate::token::Token;
use crate::ast::Node;
use crate::parser::{LEVELS, chain, chains_right, expr, grammar, level_of, level_rank, not_token, open_token,
    operand, lemma_expr_advances, lemma_chain_advances, lemma_operand_advances};

verus! {

/// The tokens of a tree from left to right: a negation stands before its
/// operand, a binary operator between its operands.
pub open spec fn infix(node: Node) -> Seq<Token>
    decreases node,
{
    match (node.left, node.right) {
        (None, None) => seq![node.token],
        (Some(l), None) => seq![node.token] + infix(*l),
        (None, Some(r)) => seq![node.token] + infix(*r),
        (Some(l), Some(r)) => infix(*l) + seq![node.token] + infix(*r),
    }
}

/// The tokens of `s` that are no parentheses, in their order.
pub open spec fn without_parentheses(s: Seq<Token>) -> Seq<Token>
    decreases s.len(),
{
    if s.len() == 0 {
        Seq::empty()
    } else if s[0] is Parenthesis {
        without_parentheses(s.drop_first())
    } else {
        seq![s[0]] + without_parentheses(s.drop_first())
    }
}

/// Taking the parentheses out of two sequences in a row is taking them out
/// of each.
pub proof fn lemma_without_parentheses_concat(a: Seq<Token>, b: Seq<Token>)
    ensures
        without_parentheses(a + b) == without_parentheses(a) + without_parentheses(b),
    decreases a.len(),
{
    if a.len() == 0 {
        assert(a + b =~= b);
        assert(without_parentheses(a) + without_parentheses(b) =~= without_parentheses(b));
    } else {
        assert((a + b)[0] == a[0]);
        assert((a + b).drop_first() =~= a.drop_first() + b);
        lemma_without_parentheses_concat(a.drop_first(), b);
        assert(seq![a[0]] + (without_parentheses(a.drop_first()) + without_parentheses(b)) =~= seq![a[0]]
            + without_parentheses(a.drop_first()) + without_parentheses(b));
    }
}

/// The tokens from `from` up to `to` without their parentheses, split at
/// `mid`.
proof fn lemma_split(tokens: Seq<Token>, from: int, mid: int, to: int)
    requires
        0 <= from <= mid <= to <= tokens.len(),
    ensures
        without_parentheses(tokens.subrange(from, to)) == without_parentheses(tokens.subrange(from, mid))
            + without_parentheses(tokens.subrange(mid, to)),
{
    assert(tokens.subrange(from, to) =~= tokens.subrange(from, mid) + tokens.subrange(mid, to));
    lemma_without_parentheses_concat(tokens.subrange(from, mid), tokens.subrange(mid, to));
}

/// One token without parentheses: itself, or nothing.
proof fn lemma_single(tokens: Seq<Token>, at: int)
    requires
        0 <= at < tokens.len(),
    ensures
        without_parentheses(tokens.subrange(at, at + 1)) == if tokens[at] is Parenthesis {
            Seq::<Token>::empty()
        } else {
            seq![tokens[at]]
        },
{
    let one = tokens.subrange(at, at + 1);
    assert(one[0] == tokens[at]);
    assert(one.drop_first() =~= Seq::<Token>::empty());
    assert(without_parentheses(one.drop_first()) =~= Seq::<Token>::empty());
    assert(seq![tokens[at]] + Seq::<Token>::empty() =~= seq![tokens[at]]);
}

proof fn lemma_expr_order(tokens: Seq<Token>, pos: int, level: int)
    ensures
        expr(tokens, pos, level) matches Ok((n, p)) ==> 0 <= pos < p <= tokens.len() && infix(n)
            == without_parentheses(tokens.subrange(pos, p)),
    decreases tokens.len() - pos, level_rank(level),
{
    lemma_expr_advances(tokens, pos, level);
    if pos < 0 || pos >= tokens.len() {
    } else if level < 0 || level >= LEVELS {
        lemma_operand_order(tokens, pos);
    } else {
        lemma_expr_order(tokens, pos, level + 1);
        if let Ok((lhs, p)) = expr(tokens, pos, level + 1) {
            lemma_expr_advances(tokens, pos, level + 1);
            lemma_chain_order(tokens, p, level, lhs);
            if let Ok((n, q)) = chain(tokens, p, level, lhs) {
                lemma_split(tokens, pos, p, q);
            }
        }
    }
}

proof fn lemma_chain_order(tokens: Seq<Token>, pos: int, level: int, lhs: Node)
    requires
        lhs.wf(),
        0 <= pos <= tokens.len(),
    ensures
        chain(tokens, pos, level, lhs) matches Ok((n, p)) ==> pos <= p <= tokens.len() && infix(n) == infix(lhs)
            + without_parentheses(tokens.subrange(pos, p)),
    decreases tokens.len() - pos, 0int,
{
    lemma_chain_advances(tokens, pos, level, lhs);
    if 0 <= pos < tokens.len() && 0 <= level < LEVELS && level_of(tokens[pos]) == Some(level) {
        let sub = if chains_right(level) { level } else { level + 1 };
        lemma_expr_order(tokens, pos + 1, sub);
        lemma_expr_advances(tokens, pos + 1, sub);
        if let Ok((rhs, p)) = expr(tokens, pos + 1, sub) {
            let joined = Node { token: tokens[pos], left: Some(Box::new(lhs)), right: Some(Box::new(rhs)) };
            lemma_single(tokens, pos);
            lemma_split(tokens, pos, pos + 1, p);
            assert(infix(joined) == infix(lhs) + seq![tokens[pos]] + infix(rhs));
            assert(infix(joined) =~= infix(lhs) + without_parentheses(tokens.subrange(pos, p)));
            if !chains_right(level) {
                assert(joined.wf());
                lemma_chain_order(tokens, p, level, joined);
                if let Ok((n, q)) = chain(tokens, p, level, joined) {
                    lemma_split(tokens, pos, p, q);
                    assert(infix(n) =~= infix(lhs) + without_parentheses(tokens.subrange(pos, q)));
                }
            }
        }
    } else {
        assert(tokens.subrange(pos, pos) =~= Seq::<Token>::empty());
        assert(infix(lhs) + Seq::<Token>::empty() =~= infix(lhs));
    }
}

proof fn lemma_operand_order(tokens: Seq<Token>, pos: int)
    ensures
        operand(tokens, pos) matches Ok((n, p)) ==> 0 <= pos < p <= tokens.len() && infix(n) == without_parentheses(
            tokens.subrange(pos, p),
        ),
    decreases tokens.len() - pos, 0int,
{
    lemma_operand_advances(tokens, pos);
    if pos < 0 || pos >= tokens.len() {
    } else if tokens[pos] == not_token() {
        lemma_operand_order(tokens, pos + 1);
        if let Ok((inner, p)) = operand(tokens, pos + 1) {
            lemma_operand_advances(tokens, pos + 1);
            let node = Node { token: tokens[pos], left: Some(Box::new(inner)), right: None };
            assert(infix(node) == seq![tokens[pos]] + infix(inner));
            lemma_single(tokens, pos);
            lemma_split(tokens, pos, pos + 1, p);
        }
    } else if tokens[pos] == open_token() {
        lemma_expr_order(tokens, pos + 1, 0);
        if let Ok((inner, p)) = expr(tokens, pos + 1, 0) {
            if p < tokens.len() {
                lemma_single(tokens, pos);
                lemma_single(tokens, p);
                lemma_split(tokens, pos, pos + 1, p + 1);
                lemma_split(tokens, pos + 1, p, p + 1);
                assert(Seq::<Token>::empty() + (infix(inner) + Seq::<Token>::empty()) =~= infix(inner));
            }
        }
    } else {
        lemma_single(tokens, pos);
    }
}

/// The tree of a formula holds the tokens of the formula, but for the
/// parentheses, in the order in which they were written.
pub proof fn lemma_parse_keeps_order(tokens: Seq<Token>)
    ensures
        grammar(tokens) matches Ok(root) ==> infix(root) == without_parentheses(tokens),
{
    lemma_expr_order(tokens, 0, 0);
    assert(tokens.subrange(0, tokens.len() as int) =~= tokens);
}

} // verus!
