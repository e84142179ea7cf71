use vstd::prelude::*;
use vstd::arithmetic::div_mod::{lemma_fundamental_div_mod, lemma_mod_division_less_than_divisor};
use crate::card::Card;
use crate::deck::{deck_valid, make_deck};
use crate::encode::{all_zero, make_deck_hash};
use crate::shuffle::shuffle_deck;

verus! {

/// Why a run failed, by kind. All three are fatal: the run aborts and
/// nothing partial is reported.
#[derive(Clone, Copy, Debug, PartialEq, Eq, Structural)]
pub enum RunError {
    /// The requested thread count was zero, so no partition exists.
    InvalidPartition,
    /// The execution substrate could not create a worker.
    ThreadSpawnFailure,
    /// A worker terminated abnormally.
    JoinFailure,
}

/// The equal-partition split of a requested run: each of `thread_count`
/// workers performs `per_worker` iterations; the division remainder is
/// deliberately dropped.
#[derive(Clone, Copy, Debug, PartialEq, Eq, Structural)]
pub struct WorkPlan {
    pub total_count: u128,
    pub thread_count: u128,
    pub per_worker: u128,
}

impl WorkPlan {
    /// A plan as `plan_run` builds it: at least one worker, and the
    /// per-worker share is the floor of the even split.
    pub open spec fn wf(self) -> bool {
        &&& self.thread_count >= 1
        &&& self.per_worker == self.total_count as int / self.thread_count as int
    }

    /// How many iterations actually execute over the whole run.
    pub open spec fn spec_actual_count(self) -> int {
        self.per_worker * self.thread_count
    }

    /// The iterations dropped so that every worker gets an equal share.
    pub open spec fn spec_dropped(self) -> int {
        self.total_count as int % self.thread_count as int
    }

    /// The count the runner reports: `per_worker * thread_count`, which
    /// never exceeds the requested total.
    pub fn actual_count(&self) -> (n: u128)
        requires
            self.wf(),
        ensures
            n as int == self.spec_actual_count(),
            n <= self.total_count,
    {
        proof {
            lemma_partition_arithmetic(*self);
        }
        self.per_worker * self.thread_count
    }
}

/// Partition arithmetic: a well-formed plan executes exactly
/// `floor(total_count / thread_count) * thread_count` iterations, and what
/// is dropped is exactly the division remainder - fewer than one worker's
/// worth of iterations per thread.
pub proof fn lemma_partition_arithmetic(p: WorkPlan)
    requires
        p.wf(),
    ensures
        p.spec_actual_count() + p.spec_dropped() == p.total_count,
        0 <= p.spec_dropped() < p.thread_count,
        0 <= p.spec_actual_count() <= p.total_count,
{
    let t = p.total_count as int;
    let n = p.thread_count as int;
    lemma_fundamental_div_mod(t, n);
    lemma_mod_division_less_than_divisor(t, n);
}

/// Splits `total_count` into `thread_count` equal shares by floor
/// division, dropping the remainder; a zero `thread_count` is rejected
/// before any division happens.
pub fn plan_run(total_count: u128, thread_count: u128) -> (r: Result<WorkPlan, RunError>)
    ensures
        thread_count == 0 ==> r == Err::<WorkPlan, RunError>(RunError::InvalidPartition),
        thread_count >= 1 ==> (r matches Ok(p) && p == (WorkPlan {
            total_count,
            thread_count,
            per_worker: (total_count as int / thread_count as int) as u128,
        }) && p.wf()),
{
    if thread_count == 0 {
        return Err(RunError::InvalidPartition);
    }
    let per_worker = total_count / thread_count;
    Ok(WorkPlan { total_count, thread_count, per_worker })
}

/// A fresh fingerprint buffer: 39 bytes, all zero.
pub fn new_buffer() -> (buffer: Vec<u8>)
    ensures
        buffer@.len() == 39,
        all_zero(buffer@),
{
    let mut buffer: Vec<u8> = Vec::new();
    for i in 0..39usize
        invariant
            buffer@.len() == i,
            forall|k: int| 0 <= k < i ==> buffer@[k] == 0,
    {
        buffer.push(0);
    }
    buffer
}

/// Zeroes every byte of the buffer again; the encoder OR-combines bits,
/// so each iteration must start from a clean buffer.
pub fn clear_buffer(buffer: &mut Vec<u8>)
    requires
        old(buffer)@.len() == 39,
    ensures
        final(buffer)@.len() == 39,
        all_zero(final(buffer)@),
{
    for i in 0..39usize
        invariant
            buffer@.len() == 39,
            forall|k: int| 0 <= k < i ==> buffer@[k] == 0,
    {
        buffer[i] = 0;
    }
}

/// One worker's whole pipeline: build one deck and one buffer, then
/// `per_worker` times shuffle the deck in place, clear the buffer, and
/// fingerprint the order. Returns how many iterations it completed,
/// which is always exactly its share.
pub fn run_worker(per_worker: u128) -> (count: u128)
    ensures
        count == per_worker,
{
    let mut deck: Vec<Card> = make_deck();
    let mut bytebuffer: Vec<u8> = new_buffer();

    let mut done: u128 = 0;
    while done < per_worker
        invariant
            done <= per_worker,
            deck_valid(deck@),
            bytebuffer@.len() == 39,
        decreases per_worker - done,
    {
        shuffle_deck(&mut deck);
        clear_buffer(&mut bytebuffer);
        let _ = make_deck_hash(&deck, &mut bytebuffer);
        done = done + 1;
    }
    done
}

} // verus!
