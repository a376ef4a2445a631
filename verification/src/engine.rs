//! The sequential truth-table engine: one row for each assignment of a range.
//!
//! A row is the text of an assignment, one digit `0` or `1` for each variable
//! in the order of the variable set, then `|` and the digit of the formula's
//! truth value.

use vstd::prelude::*;
use vstd::string::StringExecFns;
use vstd::arithmetic::power2::{pow2, lemma_pow2_unfold, lemma_pow2_strictly_increases, lemma2_to64,
    lemma2_to64_rest};
use crate::ast::{Node, evaluate, value_of};
use crate::token::ParseError;
use crate::parser::{Parser, parse_formula};
use crate::variables::{covers, variables_of, lemma_truth_defined};

verus! {

/// The most variables that an engine takes: the assignments of more do not
/// fit the counter.
pub const MAX_VARIABLES: usize = 63;

/// The digit of a truth value.
pub open spec fn digit(b: bool) -> char {
    if b {
        '1'
    } else {
        '0'
    }
}

/// The lowest `n` bits of `bits` as digits, the lowest bit first.
pub open spec fn bits_text(n: nat, bits: nat) -> Seq<char>
    decreases n,
{
    if n == 0 {
        Seq::empty()
    } else {
        seq![digit(bits % 2 == 1)] + bits_text((n - 1) as nat, bits / 2)
    }
}

/// Whether the formula is true under the assignment `bits`.
pub open spec fn holds(root: Node, variables: Seq<char>, bits: nat) -> bool {
    match root.truth(variables, bits) {
        Ok(b) => b,
        Err(_) => false,
    }
}

/// The row of the assignment `bits`.
pub open spec fn row_text(root: Node, variables: Seq<char>, bits: nat) -> Seq<char> {
    bits_text(variables.len(), bits) + seq!['|', digit(holds(root, variables, bits))]
}

/// The rows of the assignments `start`, `start + 1`, ... up to `end`, which
/// is left out.
pub open spec fn table(root: Node, variables: Seq<char>, start: nat, end: nat) -> Seq<Seq<char>> {
    Seq::new((end - start) as nat, |i: int| row_text(root, variables, (start + i) as nat))
}

/// The texts of a list of strings.
pub open spec fn texts(rows: Seq<String>) -> Seq<Seq<char>> {
    Seq::new(rows.len(), |i: int| rows[i]@)
}

/// The number of assignments of `n` variables, two to the power `n`.
pub fn assignment_count(n: usize) -> (total: u64)
    requires
        n <= MAX_VARIABLES,
    ensures
        total == pow2(n as nat),
{
    let mut total: u64 = 1;
    let mut i: usize = 0;
    proof {
        lemma2_to64();
    }
    while i < n
        invariant
            i <= n <= MAX_VARIABLES,
            total == pow2(i as nat),
        decreases n - i,
    {
        proof {
            lemma_pow2_unfold((i + 1) as nat);
            lemma2_to64_rest();
            if i + 1 < 63 {
                lemma_pow2_strictly_increases((i + 1) as nat, 63);
            }
        }
        total = total * 2;
        i = i + 1;
    }
    total
}

/// The text of one row.
pub fn row(root: &Node, variables: &Vec<char>, bits: u64) -> (s: String)
    requires
        root.wf(),
        covers(variables@, *root),
    ensures
        s@ == row_text(*root, variables@, bits as nat),
{
    let n: usize = variables.len();
    let mut out: String = String::new();
    let mut rest: u64 = bits;
    let mut i: usize = 0;
    proof {
        reveal_strlit("0");
        reveal_strlit("1");
        reveal_strlit("|");
        assert("0"@ =~= seq!['0']);
        assert("1"@ =~= seq!['1']);
        assert("|"@ =~= seq!['|']);
        assert(out@ + bits_text(n as nat, bits as nat) =~= bits_text(n as nat, bits as nat));
    }
    while i < n
        invariant
            i <= n,
            "0"@ == seq!['0'],
            "1"@ == seq!['1'],
            out@ + bits_text((n - i) as nat, rest as nat) == bits_text(n as nat, bits as nat),
        decreases n - i,
    {
        proof {
            let tail = bits_text((n - i - 1) as nat, (rest / 2) as nat);
            assert(out@ + (seq![digit(rest % 2 == 1)] + tail) =~= out@ + seq![digit(rest % 2 == 1)] + tail);
        }
        if rest % 2 == 1 {
            out.append("1");
        } else {
            out.append("0");
        }
        rest = rest / 2;
        i = i + 1;
    }
    proof {
        assert(out@ + bits_text(0, rest as nat) =~= out@);
        lemma_truth_defined(*root, variables@, bits as nat);
    }
    let value = match evaluate(root, variables, bits) {
        Ok(b) => b,
        Err(_) => false,
    };
    out.append("|");
    if value {
        out.append("1");
    } else {
        out.append("0");
    }
    proof {
        assert(out@ =~= row_text(*root, variables@, bits as nat));
    }
    out
}

/// The truth table of a formula given as text: one row for each assignment
/// of its variable set, in ascending order of assignment. It fails exactly
/// where the formula cannot be read.
pub fn truth_table(formula: &str) -> (r: Result<Vec<String>, ParseError>)
    ensures
        match r {
            Ok(rows) => parse_formula(formula@) matches Ok(root) && rows@.len() == pow2(variables_of(root).len())
                && texts(rows@) == table(root, variables_of(root), 0, pow2(variables_of(root).len())),
            Err(e) => parse_formula(formula@) == Err::<Node, ParseError>(e),
        },
{
    match SequentialPermutationIter::from_formula(formula) {
        Err(e) => Err(e),
        Ok(mut it) => Ok(it.collect()),
    }
}

/// The digits of an assignment are as many as the variables.
pub proof fn lemma_bits_text_len(n: nat, bits: nat)
    ensures
        bits_text(n, bits).len() == n,
    decreases n,
{
    if n > 0 {
        lemma_bits_text_len((n - 1) as nat, bits / 2);
    }
}

/// Two assignments of `n` variables with the same digits are the same.
pub proof fn lemma_bits_text_injective(n: nat, i: nat, j: nat)
    requires
        i < pow2(n),
        j < pow2(n),
        bits_text(n, i) == bits_text(n, j),
    ensures
        i == j,
    decreases n,
{
    if n == 0 {
        lemma2_to64();
    } else {
        let m = (n - 1) as nat;
        lemma_pow2_unfold(n);
        let a = seq![digit(i % 2 == 1)];
        let b = seq![digit(j % 2 == 1)];
        assert((a + bits_text(m, i / 2))[0] == a[0]);
        assert((b + bits_text(m, j / 2))[0] == b[0]);
        assert((a + bits_text(m, i / 2)).drop_first() =~= bits_text(m, i / 2));
        assert((b + bits_text(m, j / 2)).drop_first() =~= bits_text(m, j / 2));
        lemma_bits_text_injective(m, i / 2, j / 2);
    }
}

/// The digits of a row are the values of the variables: the digit at place
/// `i` is `1` exactly where the assignment makes variable `i` true.
pub proof fn lemma_digits_are_values(variables: Seq<char>, bits: nat, i: int)
    requires
        variables.no_duplicates(),
        0 <= i < variables.len(),
    ensures
        bits_text(variables.len(), bits).len() == variables.len(),
        value_of(variables, bits, variables[i]) == Some(bits_text(variables.len(), bits)[i] == '1'),
    decreases variables.len(),
{
    lemma_bits_text_len(variables.len(), bits);
    let rest = variables.drop_first();
    let tail = bits_text(rest.len(), bits / 2);
    lemma_bits_text_len(rest.len(), bits / 2);
    assert(bits_text(variables.len(), bits) == seq![digit(bits % 2 == 1)] + tail);
    if i > 0 {
        assert(variables[0] != variables[i]);
        assert(rest[i - 1] == variables[i]);
        assert(rest.no_duplicates()) by {
            assert forall|a: int, b: int| 0 <= a < rest.len() && 0 <= b < rest.len() && a != b implies rest[a]
                != rest[b] by {
                assert(rest[a] == variables[a + 1] && rest[b] == variables[b + 1]);
            }
        }
        lemma_digits_are_values(rest, bits / 2, i - 1);
        assert((seq![digit(bits % 2 == 1)] + tail)[i] == tail[i - 1]);
    }
}

/// No two assignments of a table give the same row: the rows of the
/// assignments `0` to `2^n - 1` name each of them once.
pub proof fn lemma_rows_distinct(root: Node, variables: Seq<char>, i: nat, j: nat)
    requires
        i < pow2(variables.len()),
        j < pow2(variables.len()),
        i != j,
    ensures
        row_text(root, variables, i) != row_text(root, variables, j),
{
    let n = variables.len();
    lemma_bits_text_len(n, i);
    lemma_bits_text_len(n, j);
    if row_text(root, variables, i) == row_text(root, variables, j) {
        assert(row_text(root, variables, i).take(n as int) =~= bits_text(n, i));
        assert(row_text(root, variables, j).take(n as int) =~= bits_text(n, j));
        lemma_bits_text_injective(n, i, j);
    }
}

/// The rows of a range of assignments, in ascending order.
pub struct SequentialPermutationIter {
    pub root: Node,
    pub variables: Vec<char>,
    pub start: u64,
    pub cursor: u64,
    pub end: u64,
}

impl SequentialPermutationIter {
    /// What holds of every engine: the variables cover the formula, and the
    /// range that is left lies among their assignments.
    pub open spec fn wf(self) -> bool {
        &&& self.root.wf()
        &&& covers(self.variables@, self.root)
        &&& self.variables.len() <= MAX_VARIABLES
        &&& self.start <= self.cursor <= self.end <= pow2(self.variables@.len())
    }

    /// The rows that are still to come.
    pub open spec fn remaining(self) -> Seq<Seq<char>> {
        table(self.root, self.variables@, self.cursor as nat, self.end as nat)
    }

    /// The engine for the assignments from `start` up to `end`, which is left
    /// out.
    pub fn new(root: Node, variables: Vec<char>, start: u64, end: u64) -> (it: SequentialPermutationIter)
        requires
            root.wf(),
            covers(variables@, root),
            variables.len() <= MAX_VARIABLES,
            start <= end <= pow2(variables@.len()),
        ensures
            it == (SequentialPermutationIter { root, variables, start, cursor: start, end }),
            it.wf(),
    {
        SequentialPermutationIter { root, variables, start, cursor: start, end }
    }

    /// Goes back to the first assignment of the range: the rows that were
    /// handed out come again.
    pub fn restart(&mut self)
        requires
            old(self).wf(),
        ensures
            *final(self) == (SequentialPermutationIter { cursor: old(self).start, ..*old(self) }),
            final(self).wf(),
    {
        self.cursor = self.start;
    }

    /// The engine for a formula given as text, over all the assignments of
    /// its variable set. It fails exactly where the formula cannot be read.
    pub fn from_formula(formula: &str) -> (r: Result<SequentialPermutationIter, ParseError>)
        ensures
            match r {
                Ok(it) => parse_formula(formula@) == Ok::<Node, ParseError>(it.root) && it.wf()
                    && it.variables@ == variables_of(it.root) && it.start == 0 && it.cursor == 0 && it.end == pow2(
                    it.variables@.len(),
                ),
                Err(e) => parse_formula(formula@) == Err::<Node, ParseError>(e),
            },
    {
        let mut parser = Parser::new();
        match parser.parse(formula) {
            Err(e) => Err(e),
            Ok(root) => {
                let variables = root.variables();
                let end = assignment_count(variables.len());
                Ok(SequentialPermutationIter::new(root, variables, 0, end))
            },
        }
    }

    /// The next row, or `None` once the range is used up; after that every
    /// call gives `None` again.
    pub fn next(&mut self) -> (r: Option<String>)
        requires
            old(self).wf(),
        ensures
            final(self).wf(),
            old(self).cursor < old(self).end ==> *final(self) == (SequentialPermutationIter {
                cursor: (old(self).cursor + 1) as u64,
                ..*old(self)
            }) && (r matches Some(s) && s@ == row_text(
                old(self).root,
                old(self).variables@,
                old(self).cursor as nat,
            )),
            old(self).cursor >= old(self).end ==> r is None && *final(self) == *old(self),
    {
        if self.cursor >= self.end {
            return None;
        }
        let s = row(&self.root, &self.variables, self.cursor);
        self.cursor = self.cursor + 1;
        Some(s)
    }

    /// All the rows that are left, in ascending order of assignment. The
    /// engine is used up afterwards.
    pub fn collect(&mut self) -> (rows: Vec<String>)
        requires
            old(self).wf(),
        ensures
            texts(rows@) == old(self).remaining(),
            rows@.len() == old(self).end - old(self).cursor,
            final(self).wf(),
            *final(self) == (SequentialPermutationIter { cursor: old(self).end, ..*old(self) }),
    {
        let mut rows: Vec<String> = Vec::new();
        while self.cursor < self.end
            invariant
                self.wf(),
                self.root == old(self).root,
                self.variables == old(self).variables,
                self.start == old(self).start,
                self.end == old(self).end,
                old(self).cursor <= self.cursor,
                rows@.len() == self.cursor - old(self).cursor,
                forall|i: int| 0 <= i < rows@.len() ==> (#[trigger] rows@[i])@ == row_text(
                    self.root,
                    self.variables@,
                    (old(self).cursor + i) as nat,
                ),
            decreases self.end - self.cursor,
        {
            let s = row(&self.root, &self.variables, self.cursor);
            rows.push(s);
            self.cursor = self.cursor + 1;
        }
        proof {
            assert(texts(rows@) =~= old(self).remaining());
        }
        rows
    }
}

} // verus!
