//! The thread pools: how many workers a pool starts, what a worker of the
//! shared-queue pool does after each turn, and the pool that hands jobs to
//! rayon.
use vstd::prelude::*;

verus! {

/// Relies on `num_cpus::get`, which always returns at least 1.
#[verifier::external_body]
fn cpu_count() -> (r: usize)
    ensures
        r >= 1,
{
    num_cpus::get()
}

/// The number of workers for a pool asked for `requested` threads on a
/// machine with `cpus` processors: one per processor where 0 is asked.
pub fn workers_for(requested: u32, cpus: usize) -> (r: u32)
    ensures
        requested > 0 ==> r == requested,
        requested == 0 ==> r == (if cpus <= u32::MAX as usize { cpus as u32 } else { u32::MAX }),
{
    if requested == 0 {
        if cpus <= u32::MAX as usize {
            cpus as u32
        } else {
            u32::MAX
        }
    } else {
        requested
    }
}

/// The number of workers for a pool asked for `requested` threads on this
/// machine; never 0.
pub fn pool_size(requested: u32) -> (r: u32)
    ensures
        r >= 1,
        requested > 0 ==> r == requested,
{
    let cpus = cpu_count();
    workers_for(requested, cpus)
}

/// How a worker's turn at the queue ended.
#[derive(Debug, Clone, Copy, PartialEq, Eq, Structural)]
pub enum Turn {
    /// It took a job and the job returned.
    Ran,
    /// It took a job and the job panicked.
    Panicked,
    /// The queue was closed: the pool is gone.
    Closed,
}

/// What a worker does next.
#[derive(Debug, Clone, Copy, PartialEq, Eq, Structural)]
pub enum Next {
    /// Take the next job.
    Continue,
    /// Spawn a worker in its place on the same queue, and end.
    Replace,
    /// End.
    Exit,
}

pub open spec fn next_spec(t: Turn) -> Next {
    match t {
        Turn::Ran => Next::Continue,
        Turn::Panicked => Next::Replace,
        Turn::Closed => Next::Exit,
    }
}

/// The workers alive after one worker's turn, `live` before it: the worker
/// ends unless it continues, and a replacement starts where it replaces itself.
pub open spec fn live_after(live: nat, t: Turn) -> nat {
    let ends: nat = if next_spec(t) == Next::Continue { 0 } else { 1 };
    let starts: nat = if next_spec(t) == Next::Replace { 1 } else { 0 };
    (live - ends + starts) as nat
}

/// A worker of the shared-queue pool.
pub struct Worker;

impl Worker {
    /// Decides what follows a turn: a job that returned or panicked keeps the
    /// pool's size (a panicking worker is replaced); a closed queue ends it.
    pub fn on_loop(&self, t: Turn) -> (r: Next)
        ensures
            r == next_spec(t),
    {
        match t {
            Turn::Ran => Next::Continue,
            Turn::Panicked => Next::Replace,
            Turn::Closed => Next::Exit,
        }
    }
}

/// A job that panics does not shrink the pool: while the queue is open, every
/// turn leaves as many workers as there were.
pub proof fn lemma_turn_keeps_pool_size(live: nat, t: Turn)
    requires
        live >= 1,
        t != Turn::Closed,
    ensures
        live_after(live, t) == live,
{
}

/// The pool that runs each job on a thread of its own.
pub struct NaiveThreadPool;

#[verifier::external_type_specification]
#[verifier::external_body]
pub struct ExRayonPool(rayon::ThreadPool);

#[verifier::external_type_specification]
#[verifier::external_body]
pub struct ExRayonBuildError(rayon::ThreadPoolBuildError);

/// Relies on rayon's `ThreadPoolBuilder::num_threads` and `build`: a pool of
/// `threads` workers (rayon's default where 0), or why none was built.
#[verifier::external_body]
fn build_rayon_pool(threads: usize) -> (r: Result<rayon::ThreadPool, rayon::ThreadPoolBuildError>) {
    rayon::ThreadPoolBuilder::new().num_threads(threads).build()
}

/// Relies on rayon's `ThreadPool::spawn`: runs `job` once on a worker of the pool.
#[verifier::external_body]
fn rayon_spawn<F: FnOnce() + Send + 'static>(pool: &rayon::ThreadPool, job: F) {
    pool.spawn(job)
}

/// The pool could not be built.
#[derive(Debug, Clone, Copy, PartialEq, Eq, Structural)]
pub struct PoolBuildError;

/// The pool that hands jobs to rayon's work-stealing pool.
pub struct RayonThreadPool {
    pool: rayon::ThreadPool,
}

impl RayonThreadPool {
    /// A pool of `threads` workers; 0 leaves the number to rayon.
    pub fn new(threads: u32) -> (r: Result<RayonThreadPool, PoolBuildError>) {
        match build_rayon_pool(threads as usize) {
            Ok(pool) => Ok(RayonThreadPool { pool }),
            Err(_) => Err(PoolBuildError),
        }
    }

    /// Runs `job` once on a worker of the pool.
    pub fn spawn<F: FnOnce() + Send + 'static>(&self, job: F) {
        rayon_spawn(&self.pool, job)
    }
}

/// The size of a pool of long-lived workers that share one job queue.
pub struct SharedQueueThreadPool {
    pub workers: u32,
}

impl SharedQueueThreadPool {
    /// A pool with `threads` workers, or one per processor where 0 is asked.
    pub fn new(threads: u32) -> (r: SharedQueueThreadPool)
        ensures
            r.workers >= 1,
            threads > 0 ==> r.workers == threads,
    {
        SharedQueueThreadPool { workers: pool_size(threads) }
    }
}

} // verus!
