//! How a range of assignments is cut into chunks, one for each worker.
//!
//! With `count` workers every chunk holds `total / count` assignments, but
//! for the last, which runs to the end and so takes the remainder too.

use vstd::prelude::*;
use crate::ast::Node;
use crate::engine::table;

verus! {

/// The first assignment of chunk `i`.
pub open spec fn chunk_start(total: nat, count: nat, i: nat) -> nat {
    (total / count) * i
}

/// The assignment behind the last one of chunk `i`.
pub open spec fn chunk_end(total: nat, count: nat, i: nat) -> nat {
    if i + 1 == count {
        total
    } else {
        (total / count) * (i + 1)
    }
}

/// The rows of the first `upto` chunks, chunk after chunk.
pub open spec fn chunk_rows(root: Node, variables: Seq<char>, total: nat, count: nat, upto: nat) -> Seq<Seq<char>>
    decreases upto,
{
    if upto == 0 {
        Seq::empty()
    } else {
        chunk_rows(root, variables, total, count, (upto - 1) as nat) + table(
            root,
            variables,
            chunk_start(total, count, (upto - 1) as nat),
            chunk_end(total, count, (upto - 1) as nat),
        )
    }
}

/// A chunk lies inside the range and is not reversed.
pub proof fn lemma_chunk_bounds(total: nat, count: nat, i: nat)
    requires
        i < count,
    ensures
        chunk_start(total, count, i) <= chunk_end(total, count, i) <= total,
        chunk_end(total, count, i) - chunk_start(total, count, i) >= total / count,
{
    let step = total / count;
    assert(step * i <= step * (i + 1) && step * (i + 1) == step * i + step) by (nonlinear_arith)
        requires
            step >= 0,
            i >= 0,
    ;
    assert(step * (i + 1) <= total) by (nonlinear_arith)
        requires
            step == total / count,
            i + 1 <= count,
            count > 0,
            total >= 0,
            i >= 0,
    ;
}

/// The chunks tile the range: the first starts at 0, each starts where the
/// one before it ends, and the last ends at `total`. So no assignment is in
/// two chunks and none is left out.
pub proof fn lemma_chunks_tile(total: nat, count: nat)
    requires
        count >= 1,
    ensures
        chunk_start(total, count, 0) == 0,
        chunk_end(total, count, (count - 1) as nat) == total,
        forall|i: nat| i + 1 < count ==> chunk_end(total, count, i) == #[trigger] chunk_start(total, count, i + 1),
        forall|i: nat| i < count ==> #[trigger] chunk_start(total, count, i) <= chunk_end(total, count, i) <= total,
{
    assert((total / count) * 0 == 0) by (nonlinear_arith);
    assert forall|i: nat| i < count implies #[trigger] chunk_start(total, count, i) <= chunk_end(total, count, i)
        <= total by {
        lemma_chunk_bounds(total, count, i);
    }
}

/// Two tables that meet give the table of the joined range.
pub proof fn lemma_table_join(root: Node, variables: Seq<char>, a: nat, b: nat, c: nat)
    requires
        a <= b <= c,
    ensures
        table(root, variables, a, b) + table(root, variables, b, c) =~= table(root, variables, a, c),
{
}

proof fn lemma_chunk_rows_prefix(root: Node, variables: Seq<char>, total: nat, count: nat, upto: nat)
    requires
        1 <= upto <= count,
    ensures
        chunk_rows(root, variables, total, count, upto) == table(
            root,
            variables,
            0,
            chunk_end(total, count, (upto - 1) as nat),
        ),
    decreases upto,
{
    let last = (upto - 1) as nat;
    lemma_chunks_tile(total, count);
    lemma_chunk_bounds(total, count, last);
    if upto == 1 {
        assert(chunk_rows(root, variables, total, count, 0) =~= Seq::<Seq<char>>::empty());
        assert(Seq::<Seq<char>>::empty() + table(root, variables, 0, chunk_end(total, count, 0)) =~= table(
            root,
            variables,
            0,
            chunk_end(total, count, 0),
        ));
    } else {
        lemma_chunk_rows_prefix(root, variables, total, count, last);
        let before = (last - 1) as nat;
        assert(chunk_end(total, count, before) == chunk_start(total, count, before + 1));
        lemma_table_join(
            root,
            variables,
            0,
            chunk_start(total, count, last),
            chunk_end(total, count, last),
        );
    }
}

/// The rows of all the chunks, taken chunk after chunk, are the rows of the
/// whole range in ascending order. Taken in any other order they are the same
/// rows, each as often: workers that run side by side give what one engine
/// over the whole range gives, but for the order.
pub proof fn lemma_chunks_give_table(root: Node, variables: Seq<char>, total: nat, count: nat)
    requires
        count >= 1,
    ensures
        chunk_rows(root, variables, total, count, count) == table(root, variables, 0, total),
        chunk_rows(root, variables, total, count, count).to_multiset() == table(
            root,
            variables,
            0,
            total,
        ).to_multiset(),
{
    lemma_chunk_rows_prefix(root, variables, total, count, count);
}

/// The bounds of chunk `i` of `thread_count`: its first assignment, and the
/// one behind its last.
pub fn chunk(total: u64, thread_count: usize, i: usize) -> (r: (u64, u64))
    requires
        i < thread_count,
    ensures
        r.0 == chunk_start(total as nat, thread_count as nat, i as nat),
        r.1 == chunk_end(total as nat, thread_count as nat, i as nat),
        r.0 <= r.1 <= total,
{
    proof {
        lemma_chunk_bounds(total as nat, thread_count as nat, i as nat);
        lemma_chunk_bounds(total as nat, thread_count as nat, (thread_count - 1) as nat);
    }
    let step: u64 = total / (thread_count as u64);
    let start: u64 = step * (i as u64);
    let end: u64 = if i == thread_count - 1 {
        total
    } else {
        start + step
    };
    proof {
        assert(step * (i + 1) == step * i + step) by (nonlinear_arith);
    }
    (start, end)
}

} // verus!
