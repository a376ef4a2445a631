//! The parallel truth-table engine: the assignments are cut into one chunk
//! for each worker, every worker sends the rows of its chunk into one bounded
//! channel, and the engine hands out what arrives there.
//!
//! The library builds the workers and the channel; whoever uses it puts each
//! worker on a thread of its own and calls `Worker::run` there. Rows of one
//! chunk arrive in ascending order; rows of different chunks arrive in any
//! order.

use vstd::prelude::*;
use vstd::arithmetic::power2::pow2;
use crossbeam::channel::{Receiver, RecvError, Sender};
use crate::ast::Node;
use crate::token::EngineError;
use crate::engine::{SequentialPermutationIter, MAX_VARIABLES, assignment_count};
use crate::partition::{chunk, chunk_start, chunk_end};
use crate::variables::covers;

verus! {

/// The sending end of a `crossbeam` channel; nothing is known of its state.
#[verifier::external_type_specification]
#[verifier::external_body]
#[verifier::reject_recursive_types(T)]
pub struct ExSender<T>(Sender<T>);

/// The receiving end of a `crossbeam` channel; nothing is known of its state.
#[verifier::external_type_specification]
#[verifier::external_body]
#[verifier::reject_recursive_types(T)]
pub struct ExReceiver<T>(Receiver<T>);

/// What `crossbeam` gives in place of a message once a channel is empty and
/// every sending end is gone.
#[verifier::external_type_specification]
#[verifier::external_body]
pub struct ExRecvError(RecvError);

/// The rows that the channel buffers for each worker.
pub const PARALLEL_THREAD_BUFF_SIZE: usize = 4000;

/// The most workers that an engine takes: the channel's capacity for more
/// cannot be set up.
pub const MAX_THREADS: usize = usize::MAX / 256000;

/// The number of messages that the channel behind `receiver` buffers, as it
/// was fixed when the channel was made.
pub uninterp spec fn channel_capacity(receiver: Receiver<String>) -> nat;

/// `crossbeam::channel::bounded`: a new channel that buffers `capacity`
/// messages; its buffer is laid out at once. The capacity is kept so small
/// that neither the channel's counters nor the size of the buffer overflow.
/// Of the two ends only the capacity is claimed.
#[verifier::external_body]
fn open_channel(capacity: usize) -> (ends: (Sender<String>, Receiver<String>))
    requires
        capacity <= usize::MAX / 64,
    ensures
        channel_capacity(ends.1) == capacity,
{
    crossbeam::channel::bounded(capacity)
}

/// `Sender::clone`: one more sending end of the same channel.
#[verifier::external_body]
fn share(sender: &Sender<String>) -> (other: Sender<String>) {
    sender.clone()
}

/// `Sender::send`: waits until the channel takes the row, and says whether it
/// did. It did not where the receiving end is gone. Which of the two happens
/// depends on the other threads, so nothing is claimed of the answer.
#[verifier::external_body]
fn send_row(sender: &Sender<String>, row: String) -> (delivered: bool) {
    sender.send(row).is_ok()
}

/// `Receiver::recv`: waits for a row, and gives the error once the channel
/// is empty and every sending end is gone. Which of the two happens, and
/// which row arrives, depends on the other threads, so nothing is claimed of
/// the answer.
#[verifier::external_body]
fn receive_row(receiver: &Receiver<String>) -> (received: Result<String, RecvError>) {
    receiver.recv()
}

impl Node {
    /// A copy of the tree.
    pub fn duplicate(&self) -> (n: Node)
        ensures
            n == *self,
        decreases *self,
    {
        let left = match &self.left {
            Some(l) => Some(Box::new(l.duplicate())),
            None => None,
        };
        let right = match &self.right {
            Some(r) => Some(Box::new(r.duplicate())),
            None => None,
        };
        Node { token: self.token, left, right }
    }
}

/// A copy of a list of variables.
pub fn copy_variables(variables: &Vec<char>) -> (r: Vec<char>)
    ensures
        r@ == variables@,
{
    let mut r: Vec<char> = Vec::new();
    let mut i: usize = 0;
    while i < variables.len()
        invariant
            i <= variables.len(),
            r@ == variables@.take(i as int),
        decreases variables.len() - i,
    {
        r.push(variables[i]);
        proof {
            assert(r@ =~= variables@.take(i + 1));
        }
        i = i + 1;
    }
    proof {
        assert(variables@.take(variables.len() as int) =~= variables@);
    }
    r
}

/// The work of one thread: the rows of one chunk, and where to send them.
pub struct Worker {
    pub rows: SequentialPermutationIter,
    pub sender: Sender<String>,
}

impl Worker {
    /// Sends the rows of the chunk, in ascending order. `Ok` says that the
    /// channel took every row of the chunk, and how many they were; `Err`
    /// says that the receiving end went away, and how many rows the channel
    /// had taken before.
    pub fn run(self) -> (r: Result<u64, u64>)
        requires
            self.rows.wf(),
        ensures
            match r {
                Ok(sent) => sent == self.rows.end - self.rows.cursor,
                Err(sent) => sent < self.rows.end - self.rows.cursor,
            },
    {
        let mut rows = self.rows;
        let mut sent: u64 = 0;
        while rows.cursor < rows.end
            invariant
                rows.wf(),
                rows.end == self.rows.end,
                rows.cursor == self.rows.cursor + sent,
            decreases rows.end - rows.cursor,
        {
            match rows.next() {
                None => {},
                Some(row) => {
                    if !send_row(&self.sender, row) {
                        return Err(sent);
                    }
                    sent = sent + 1;
                },
            }
        }
        Ok(sent)
    }
}

/// The receiving side of the parallel engine.
pub struct ParallelPermutationIter {
    pub variables: Vec<char>,
    pub thread_count: usize,
    pub receiver: Receiver<String>,
}

/// Whether `worker` is the one for chunk `i` of `thread_count`.
pub open spec fn works_on(worker: Worker, root: Node, variables: Seq<char>, thread_count: nat, i: nat) -> bool {
    &&& worker.rows.wf()
    &&& worker.rows.root == root
    &&& worker.rows.variables@ == variables
    &&& worker.rows.start == chunk_start(pow2(variables.len()), thread_count, i)
    &&& worker.rows.cursor == worker.rows.start
    &&& worker.rows.end == chunk_end(pow2(variables.len()), thread_count, i)
}

impl ParallelPermutationIter {
    /// Sets the engine up for `thread_count` workers: the channel, with room
    /// for `PARALLEL_THREAD_BUFF_SIZE` rows for each worker, and the workers,
    /// one for each chunk of the assignments, none of them started. Without
    /// workers there is nothing to set up: that is refused before anything
    /// is made.
    pub fn new(root: &Node, variables: Vec<char>, thread_count: usize) -> (r: Result<
        (ParallelPermutationIter, Vec<Worker>),
        EngineError,
    >)
        requires
            root.wf(),
            covers(variables@, *root),
            variables.len() <= MAX_VARIABLES,
            thread_count <= MAX_THREADS,
        ensures
            thread_count == 0 <==> r is Err,
            r is Err ==> r == Err::<(ParallelPermutationIter, Vec<Worker>), EngineError>(
                EngineError::InvalidThreadCount,
            ),
            r matches Ok((it, workers)) ==> {
                &&& it.variables == variables
                &&& it.thread_count == thread_count
                &&& channel_capacity(it.receiver) == PARALLEL_THREAD_BUFF_SIZE * thread_count
                &&& workers@.len() == thread_count
                &&& forall|i: int|
                    0 <= i < thread_count ==> works_on(
                        #[trigger] workers@[i],
                        *root,
                        variables@,
                        thread_count as nat,
                        i as nat,
                    )
            },
    {
        if thread_count == 0 {
            return Err(EngineError::InvalidThreadCount);
        }
        let total: u64 = assignment_count(variables.len());
        let (sender, receiver) = open_channel(PARALLEL_THREAD_BUFF_SIZE * thread_count);
        let mut workers: Vec<Worker> = Vec::new();
        let mut i: usize = 0;
        while i < thread_count
            invariant
                i <= thread_count,
                root.wf(),
                covers(variables@, *root),
                variables.len() <= MAX_VARIABLES,
                total == pow2(variables@.len()),
                workers@.len() == i,
                forall|j: int|
                    0 <= j < i ==> works_on(#[trigger] workers@[j], *root, variables@, thread_count as nat, j as nat),
            decreases thread_count - i,
        {
            let (start, end) = chunk(total, thread_count, i);
            let rows = SequentialPermutationIter::new(root.duplicate(), copy_variables(&variables), start, end);
            workers.push(Worker { rows, sender: share(&sender) });
            i = i + 1;
        }
        Ok((ParallelPermutationIter { variables, thread_count, receiver }, workers))
    }

    /// What the engine hands out for an answer of the channel: the row that
    /// arrived, or the end of the rows where the channel has closed.
    pub fn row_or_end(received: Result<String, RecvError>) -> (row: Option<String>)
        ensures
            row == match received {
                Ok(arrived) => Some(arrived),
                Err(_) => None::<String>,
            },
    {
        match received {
            Ok(arrived) => Some(arrived),
            Err(_) => None,
        }
    }

    /// Waits for the next row from any worker. `None` says that every worker
    /// has finished and all their rows were handed out.
    pub fn next(&mut self) -> (row: Option<String>)
        ensures
            *final(self) == *old(self),
    {
        Self::row_or_end(receive_row(&self.receiver))
    }
}

} // verus!
