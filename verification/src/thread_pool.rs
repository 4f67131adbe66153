//! What the worker pool decides.
//!
//! A pool keeps a fixed number of worker threads. The workers take messages
//! from one queue: a task to run, or the word to stop. Each worker holds a
//! sentinel while it lives. A worker that is told to stop cancels its
//! sentinel and ends. A worker whose task panics ends with its sentinel still
//! active: the sentinel then asks for a new worker in its place, so the pool
//! keeps its number of workers.
use vstd::prelude::*;

verus! {

/// What a worker takes from the queue of its pool: a task to run, or the
/// word to stop.
pub enum Message<J> {
    RunJob(J),
    Shutdown,
}

/// The guard of one worker of the pool `P`.
pub struct Sentinel<'a, P> {
    pool: &'a P,
    active: bool,
}

impl<'a, P> Sentinel<'a, P> {
    /// Whether the worker has not been told to stop.
    pub closed spec fn is_active(&self) -> bool {
        self.active
    }

    /// The pool of the worker.
    pub closed spec fn guarded(&self) -> &'a P {
        self.pool
    }

    /// The guard of a worker that starts in `pool`: it is active.
    pub fn new(pool: &'a P) -> (sentinel: Sentinel<'a, P>)
        ensures
            sentinel.is_active(),
            sentinel.guarded() == pool,
    {
        Sentinel { pool, active: true }
    }

    /// Marks that the worker ends because it was told to stop.
    pub fn cancel(&mut self)
        ensures
            !final(self).is_active(),
            final(self).guarded() == old(self).guarded(),
    {
        self.active = false;
    }

    /// The step of a worker on a message from the queue. A task is handed to
    /// the worker to run, and the worker goes on. The word to stop cancels
    /// the sentinel, and the worker ends.
    pub fn take<J>(&mut self, message: Message<J>) -> (task: Option<J>)
        ensures
            final(self).guarded() == old(self).guarded(),
            match message {
                Message::RunJob(job) => task == Some(job) && final(self).is_active() == old(
                    self,
                ).is_active(),
                Message::Shutdown => task is None && !final(self).is_active(),
            },
    {
        match message {
            Message::RunJob(job) => Some(job),
            Message::Shutdown => {
                self.cancel();
                None
            },
        }
    }

    /// The pool of the worker.
    pub fn pool(&self) -> (pool: &'a P)
        ensures
            pool == self.guarded(),
    {
        self.pool
    }

    /// Whether a new worker takes the place of this one when it ends: if and
    /// only if the worker was not told to stop and its thread is panicking.
    pub open spec fn replaces(&self, panicking: bool) -> bool {
        self.is_active() && panicking
    }

    /// Decides, when the worker ends, whether a new worker takes its place.
    pub fn must_replace(&self, panicking: bool) -> (replace: bool)
        ensures
            replace == self.replaces(panicking),
    {
        self.active && panicking
    }
}

/// The number of workers of a pool after one of them ends, from the number
/// before: a worker that is replaced leaves the number as it was.
pub open spec fn workers_after(workers: nat, replace: bool) -> nat {
    if replace {
        workers
    } else {
        (workers - 1) as nat
    }
}

/// A panic inside a task does not reduce the number of workers: the worker
/// was not told to stop, so its sentinel is active when the thread unwinds,
/// and a new worker takes its place.
pub proof fn lemma_panic_keeps_workers<'a, P>(sentinel: Sentinel<'a, P>, workers: nat)
    requires
        sentinel.is_active(),
    ensures
        workers_after(workers, sentinel.replaces(true)) == workers,
{
}

} // verus!
