//! The job queue: the single source of truth for which jobs are still
//! pending. It holds the job indices `0 .. n-1` and hands each one out exactly
//! once; a worker owns a job from the moment `take_next` returns its index.

use vstd::prelude::*;

verus! {

/// A pool of pending job indices, handed out front to back.
#[derive(Debug)]
pub struct JobQueue {
    pending: Vec<usize>,
}

impl View for JobQueue {
    type V = Seq<usize>;

    closed spec fn view(&self) -> Seq<usize> {
        self.pending@
    }
}

impl JobQueue {
    /// A queue of the `n` job indices `0 .. n-1`, in order.
    pub fn new(n: usize) -> (r: Self)
        ensures
            r@ =~= Seq::new(n as nat, |i: int| i as usize),
    {
        let mut pending: Vec<usize> = Vec::new();
        let mut i: usize = 0;
        while i < n
            invariant
                i <= n,
                pending@.len() == i,
                forall|j: int| 0 <= j < i ==> pending@[j] == j as usize,
            decreases n - i,
        {
            pending.push(i);
            i = i + 1;
        }
        JobQueue { pending }
    }

    /// How many jobs are still pending.
    pub fn len(&self) -> (r: usize)
        ensures
            r == self@.len(),
    {
        self.pending.len()
    }

    /// Atomically takes the next pending index out, or reports exhaustion.
    /// Every index is delivered exactly once across all calls: what comes back
    /// is the head of the pending pool, and the pool afterwards no longer
    /// holds it.
    pub fn take_next(&mut self) -> (r: Option<usize>)
        ensures
            old(self)@.len() == 0 ==> r is None && final(self)@ == old(self)@,
            old(self)@.len() > 0 ==> r == Some(old(self)@.first()) && final(self)@ == old(
                self,
            )@.drop_first(),
    {
        if self.pending.is_empty() {
            None
        } else {
            Some(self.pending.remove(0))
        }
    }
}

} // verus!
