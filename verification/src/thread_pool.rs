//! The thread-pool that runs the tasks.

use crate::effect::Effect;
use crate::resource::{ChannelId, ResourceId, WorkId};
use vstd::prelude::*;

verus! {

/// Bookkeeping of a pool of worker threads.
#[derive(Debug, Clone, Copy, PartialEq, Eq, Structural)]
pub struct ThreadPool {
    pub num_threads: usize,
    pub pending: usize,
}

impl ThreadPool {
    /// Creates a new thread-pool with the requested threads.
    pub fn new(num_threads: usize) -> (pool: Self)
        requires
            num_threads > 0,
        ensures
            pool.num_threads == num_threads,
            pool.pending == 0,
    {
        ThreadPool { num_threads, pending: 0 }
    }

    /// Puts the task into the thread-pool for execution.
    pub fn spawn(
        &mut self,
        id: ResourceId,
        work: WorkId,
        cancelation: ChannelId,
    ) -> (effect: Effect)
        requires
            old(self).pending < usize::MAX,
        ensures
            effect == Effect::SpawnWork(id, work, cancelation),
            final(self).num_threads == old(self).num_threads,
            final(self).pending == old(self).pending + 1,
    {
        self.pending = self.pending + 1;
        Effect::SpawnWork(id, work, cancelation)
    }

    /// Whether a worker that has picked up a task starts executing it: only if
    /// there is no cancelation signal.
    pub fn should_run(cancelation_signaled: bool) -> (run: bool)
        ensures
            run == !cancelation_signaled,
    {
        !cancelation_signaled
    }

    /// Takes note that a worker is done with a task, executed or not.
    pub fn settle(&mut self)
        requires
            old(self).pending > 0,
        ensures
            final(self).num_threads == old(self).num_threads,
            final(self).pending == old(self).pending - 1,
    {
        self.pending = self.pending - 1;
    }

    /// Returns how many tasks no worker is done with.
    pub fn pending_count(&self) -> (count: usize)
        ensures
            count == self.pending,
    {
        self.pending
    }
}

/// The number of workers of a pool, given how many threads the machine runs in
/// parallel, where that is known.
pub fn default_pool_size(available: Option<usize>) -> (size: usize)
    ensures
        size == (match available {
            Some(threads) => threads,
            None => 4,
        }),
{
    match available {
        Some(threads) => threads,
        None => 4,
    }
}

} // verus!
