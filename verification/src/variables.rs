//! The variable set of a formula: its distinct identifiers in the order in
//! which they first occur.

use vstd::prelude::*;
use vstd::set_lib::{lemma_int_range, lemma_len_subset, set_int_range};
use crate::token::{Token, Identifier, is_identifier_char};
use crate::ast::{Node, value_of};

verus! {

/// `acc`, then the items of `s` that are not yet there, each once, in the
/// order of `s`.
pub open spec fn merge(acc: Seq<char>, s: Seq<char>) -> Seq<char>
    decreases s.len(),
{
    if s.len() == 0 {
        acc
    } else if acc.contains(s[0]) {
        merge(acc, s.drop_first())
    } else {
        merge(acc.push(s[0]), s.drop_first())
    }
}

/// The distinct items of `s` in the order of their first occurrence.
pub open spec fn distinct(s: Seq<char>) -> Seq<char> {
    merge(Seq::empty(), s)
}

/// The identifiers under a child that may be missing.
pub open spec fn leaves_under(child: Option<Box<Node>>) -> Seq<char> {
    match child {
        Some(n) => n.leaves(),
        None => Seq::empty(),
    }
}

/// The variable set of the formula `root`.
pub open spec fn variables_of(root: Node) -> Seq<char> {
    distinct(root.leaves())
}

/// Whether `variables` holds every identifier of `root`.
pub open spec fn covers(variables: Seq<char>, root: Node) -> bool {
    forall|c: char| root.leaves().contains(c) ==> variables.contains(c)
}

/// Merging keeps what is there, takes in every item of `s`, adds nothing
/// else and never makes a duplicate.
pub proof fn lemma_merge(acc: Seq<char>, s: Seq<char>)
    ensures
        forall|c: char| merge(acc, s).contains(c) <==> (acc.contains(c) || s.contains(c)),
        acc.no_duplicates() ==> merge(acc, s).no_duplicates(),
        acc.len() <= merge(acc, s).len(),
        acc =~= merge(acc, s).take(acc.len() as int),
    decreases s.len(),
{
    if s.len() > 0 {
        let head = s[0];
        let rest = s.drop_first();
        let next = if acc.contains(head) { acc } else { acc.push(head) };
        lemma_merge(next, rest);
        assert(merge(acc, s) == merge(next, rest));
        assert forall|c: char| merge(acc, s).contains(c) <==> (acc.contains(c) || s.contains(c)) by {
            if s.contains(c) {
                let i = choose|i: int| 0 <= i < s.len() && s[i] == c;
                if i > 0 {
                    assert(rest[i - 1] == c);
                }
            }
            if rest.contains(c) {
                let i = choose|i: int| 0 <= i < rest.len() && rest[i] == c;
                assert(s[i + 1] == c);
            }
            if !acc.contains(head) {
                assert(next.last() == head);
                if next.contains(c) && c != head {
                    let i = choose|i: int| 0 <= i < next.len() && next[i] == c;
                    assert(acc[i] == c);
                }
                if acc.contains(c) {
                    let i = choose|i: int| 0 <= i < acc.len() && acc[i] == c;
                    assert(next[i] == c);
                }
            }
            assert(s[0] == head);
        }
    }
}

/// Merging a concatenation is merging its parts in turn.
pub proof fn lemma_merge_concat(acc: Seq<char>, a: Seq<char>, b: Seq<char>)
    ensures
        merge(acc, a + b) == merge(merge(acc, a), b),
    decreases a.len(),
{
    if a.len() == 0 {
        assert(a + b =~= b);
    } else {
        assert((a + b).drop_first() =~= a.drop_first() + b);
        assert((a + b)[0] == a[0]);
        let next = if acc.contains(a[0]) { acc } else { acc.push(a[0]) };
        lemma_merge_concat(next, a.drop_first(), b);
    }
}

/// The variable set of a formula names each of its identifiers once.
pub proof fn lemma_variables_cover(root: Node)
    ensures
        covers(variables_of(root), root),
        variables_of(root).no_duplicates(),
        forall|c: char| variables_of(root).contains(c) ==> root.leaves().contains(c),
{
    lemma_merge(Seq::empty(), root.leaves());
}

/// The identifiers of a well-formed formula are upper-case letters.
pub proof fn lemma_leaves_are_letters(root: Node)
    requires
        root.wf(),
    ensures
        forall|i: int| 0 <= i < root.leaves().len() ==> is_identifier_char(#[trigger] root.leaves()[i]),
    decreases root,
{
    match root.token {
        Token::Identifier(Identifier(c)) => {
            assert(root.leaves() =~= seq![c]);
            assert(seq![c][0] == c);
        },
        _ => {
            if let Some(l) = root.left {
                lemma_leaves_are_letters(*l);
            }
            if let Some(r) = root.right {
                lemma_leaves_are_letters(*r);
            }
            let ls = leaves_under(root.left);
            let rs = leaves_under(root.right);
            assert(root.leaves() == ls + rs);
            assert forall|i: int| 0 <= i < root.leaves().len() implies is_identifier_char(
                #[trigger] root.leaves()[i],
            ) by {
                if i < ls.len() {
                    assert(root.leaves()[i] == ls[i]);
                } else {
                    assert(root.leaves()[i] == rs[i - ls.len()]);
                }
            }
        },
    }
}

/// There are no more distinct letters than the alphabet holds.
pub proof fn lemma_letters_bound(s: Seq<char>)
    requires
        s.no_duplicates(),
        forall|i: int| 0 <= i < s.len() ==> is_identifier_char(#[trigger] s[i]),
    ensures
        s.len() <= 26,
{
    let codes = Seq::new(s.len(), |i: int| s[i] as int);
    assert forall|i: int, j: int| 0 <= i < codes.len() && 0 <= j < codes.len() && i != j implies codes[i]
        != codes[j] by {
        assert(s[i] != s[j]);
    }
    codes.unique_seq_to_set();
    lemma_int_range(65, 91);
    assert forall|x: int| codes.to_set().contains(x) implies set_int_range(65, 91).contains(x) by {
        let i = choose|i: int| 0 <= i < codes.len() && codes[i] == x;
        assert(is_identifier_char(s[i]));
    }
    lemma_len_subset(codes.to_set(), set_int_range(65, 91));
}

/// A well-formed formula has at most 26 variables.
pub proof fn lemma_variables_bound(root: Node)
    requires
        root.wf(),
    ensures
        variables_of(root).len() <= 26,
{
    lemma_variables_cover(root);
    lemma_leaves_are_letters(root);
    let vars = variables_of(root);
    assert forall|i: int| 0 <= i < vars.len() implies is_identifier_char(#[trigger] vars[i]) by {
        assert(vars.contains(vars[i]));
        let j = choose|j: int| 0 <= j < root.leaves().len() && root.leaves()[j] == vars[i];
        assert(is_identifier_char(root.leaves()[j]));
    }
    lemma_letters_bound(vars);
}

/// An assignment has a value for exactly the variables it lists.
pub proof fn lemma_value_defined(variables: Seq<char>, bits: nat, c: char)
    ensures
        value_of(variables, bits, c) is Some <==> variables.contains(c),
    decreases variables.len(),
{
    if variables.len() > 0 {
        lemma_value_defined(variables.drop_first(), bits / 2, c);
        if variables.contains(c) && variables[0] != c {
            let i = choose|i: int| 0 <= i < variables.len() && variables[i] == c;
            assert(variables.drop_first()[i - 1] == c);
        }
        if variables.drop_first().contains(c) {
            let i = choose|i: int| 0 <= i < variables.len() - 1 && variables.drop_first()[i] == c;
            assert(variables[i + 1] == c);
        }
    }
}

/// A well-formed formula has a truth value under every assignment of
/// variables that cover it.
pub proof fn lemma_truth_defined(root: Node, variables: Seq<char>, bits: nat)
    requires
        root.wf(),
        covers(variables, root),
    ensures
        root.truth(variables, bits) is Ok,
    decreases root,
{
    match root.token {
        Token::Identifier(Identifier(c)) => {
            assert(root.leaves()[0] == c);
            lemma_value_defined(variables, bits, c);
        },
        _ => {
            let l = root.left->Some_0;
            let ls = l.leaves();
            let rs = match root.right {
                Some(r) => r.leaves(),
                None => Seq::empty(),
            };
            assert(root.leaves() == ls + rs);
            assert forall|c: char| ls.contains(c) implies variables.contains(c) by {
                let i = choose|i: int| 0 <= i < ls.len() && ls[i] == c;
                assert((ls + rs)[i] == c);
            }
            lemma_truth_defined(*l, variables, bits);
            if let Some(r) = root.right {
                assert forall|c: char| rs.contains(c) implies variables.contains(c) by {
                    let i = choose|i: int| 0 <= i < rs.len() && rs[i] == c;
                    assert((ls + rs)[ls.len() + i] == c);
                }
                lemma_truth_defined(*r, variables, bits);
            }
        },
    }
}

/// Whether `c` is one of `items`.
pub fn holds_char(items: &Vec<char>, c: char) -> (b: bool)
    ensures
        b == items@.contains(c),
{
    let mut i: usize = 0;
    while i < items.len()
        invariant
            i <= items.len(),
            forall|j: int| 0 <= j < i ==> items@[j] != c,
        decreases items.len() - i,
    {
        if items[i] == c {
            return true;
        }
        i = i + 1;
    }
    false
}

fn gather(node: &Node, acc: &mut Vec<char>)
    ensures
        final(acc)@ == merge(old(acc)@, node.leaves()),
    decreases *node,
{
    match node.token {
        Token::Identifier(Identifier(c)) => {
            proof {
                let s = seq![c];
                assert(s.drop_first() =~= Seq::<char>::empty());
                assert(s[0] == c);
                assert(merge(old(acc)@, s.drop_first()) == old(acc)@);
                assert(merge(old(acc)@.push(c), s.drop_first()) == old(acc)@.push(c));
            }
            if !holds_char(acc, c) {
                acc.push(c);
            }
        },
        _ => {
            proof {
                lemma_merge_concat(old(acc)@, leaves_under(node.left), leaves_under(node.right));
            }
            match &node.left {
                Some(l) => gather(l, acc),
                None => {},
            }
            match &node.right {
                Some(r) => gather(r, acc),
                None => {},
            }
        },
    }
}

impl Node {
    /// The variable set of the formula: its distinct identifiers in the order
    /// in which they first occur from left to right.
    pub fn variables(&self) -> (r: Vec<char>)
        ensures
            r@ == variables_of(*self),
            covers(r@, *self),
            r@.no_duplicates(),
            self.wf() ==> r@.len() <= 26,
    {
        let mut acc: Vec<char> = Vec::new();
        gather(self, &mut acc);
        proof {
            lemma_variables_cover(*self);
            if self.wf() {
                lemma_variables_bound(*self);
            }
        }
        acc
    }
}

} // verus!
