//! Worker-pool bookkeeping, held as an explicit value.
//!
//! The pool is passed to its operations rather than living in process-wide
//! state; the caller owns the waiting and the threads, and hands jobs over
//! as plain identifiers. The functions here are the pool's decisions: what
//! an enqueue does to the queue, and what a worker takes or when it stops.

use vstd::prelude::*;

verus! {

/// The state a worker pool shares between its threads.
pub struct PoolState {
    pub idle_workers: u32,
    pub shutdown: bool,
    pub work_queue: Vec<u64>,
}

/// A fresh pool: no idle workers, not shut down, an empty queue.
pub fn get_pool() -> (p: PoolState)
    ensures
        p.idle_workers == 0,
        !p.shutdown,
        p.work_queue@ == Seq::<u64>::empty(),
{
    PoolState { idle_workers: 0, shutdown: false, work_queue: Vec::new() }
}

/// Hand a job to the pool. The caller blocks until a worker is idle, so
/// the queue only grows while someone can drain it.
pub fn run_on_pool(pool: &mut PoolState, job: u64)
    requires
        old(pool).idle_workers > 0,
    ensures
        final(pool).work_queue@ == old(pool).work_queue@.push(job),
        final(pool).idle_workers == old(pool).idle_workers,
        final(pool).shutdown == old(pool).shutdown,
{
    pool.work_queue.push(job);
}

/// What a woken worker does: take the front job when there is one, or
/// report `None` when the pool has shut down and the queue is drained.
pub fn worker_take(pool: &mut PoolState) -> (r: Option<u64>)
    requires
        old(pool).work_queue@.len() > 0 || old(pool).shutdown,
    ensures
        old(pool).shutdown && old(pool).work_queue@.len() == 0 ==> r is None && *final(pool)
            == *old(pool),
        old(pool).work_queue@.len() > 0 ==> r == Some(old(pool).work_queue@[0])
            && final(pool).work_queue@ == old(pool).work_queue@.drop_first()
            && final(pool).shutdown == old(pool).shutdown
            && final(pool).idle_workers == old(pool).idle_workers,
{
    if pool.work_queue.len() > 0 {
        let job = pool.work_queue.remove(0);
        proof {
            assert(pool.work_queue@ =~= old(pool).work_queue@.drop_first());
        }
        Some(job)
    } else {
        None
    }
}

/// Shut the pool down: workers drain the queue and then stop.
pub fn shutdown_pool(pool: &mut PoolState)
    ensures
        final(pool).shutdown,
        final(pool).work_queue@ == old(pool).work_queue@,
        final(pool).idle_workers == old(pool).idle_workers,
{
    pool.shutdown = true;
}

} // verus!
