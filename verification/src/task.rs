//! The state word of a task of the work-queue executor.
//!
//! Two bits say whether the task has been woken since it last began to run
//! and whether a worker is running it. Every thread that holds a waker may
//! wake the task at any moment; the word decides who puts the task into the
//! queue, so that it is there at most once.
use std::sync::atomic::AtomicUsize;
use std::sync::atomic::Ordering;
use vstd::prelude::*;

verus! {

/// The task has been woken since it last began to run.
pub const WOKEN: usize = 1;

/// A worker is running the task, or the task has finished.
pub const RUNNING: usize = 2;

/// The word after a wake.
pub open spec fn woken(prev: usize) -> usize {
    prev | WOKEN
}

/// Whether the wake that found the word `prev` puts the task into the queue:
/// it does when the task was idle.
pub open spec fn wake_enqueues(prev: usize) -> bool {
    prev == 0
}

/// The word after a run that left the task pending.
pub open spec fn suspended(prev: usize) -> usize {
    prev & !RUNNING
}

/// Whether the worker that ends a pending run and found the word `prev`
/// puts the task back into the queue: it does when a wake arrived during
/// the run.
pub open spec fn suspend_requeues(prev: usize) -> bool {
    prev == WOKEN | RUNNING
}

/// The four values that a state word takes, and how the transitions act on
/// them.
pub proof fn lemma_state_words()
    ensures
        woken(0) == WOKEN,
        woken(WOKEN) == WOKEN,
        woken(RUNNING) == WOKEN | RUNNING,
        woken(WOKEN | RUNNING) == WOKEN | RUNNING,
        suspended(RUNNING) == 0,
        suspended(WOKEN | RUNNING) == WOKEN,
        WOKEN | RUNNING == 3,
{
    assert(0usize | 1usize == 1usize) by (bit_vector);
    assert(1usize | 1usize == 1usize) by (bit_vector);
    assert(2usize | 1usize == 3usize) by (bit_vector);
    assert(1usize | 2usize == 3usize) by (bit_vector);
    assert(3usize | 1usize == 3usize) by (bit_vector);
    assert(2usize & !2usize == 0usize) by (bit_vector);
    assert(3usize & !2usize == 1usize) by (bit_vector);
}

/// Decides, from the word that a wake found, whether the waker is to put
/// the task into the queue.
pub fn on_wake(prev: usize) -> (enqueue: bool)
    ensures
        enqueue == wake_enqueues(prev),
{
    prev == 0
}

/// Decides, from the word that the end of a pending run found, whether the
/// worker is to put the task back into the queue.
pub fn on_suspend(prev: usize) -> (requeue: bool)
    ensures
        requeue == suspend_requeues(prev),
{
    prev == WOKEN | RUNNING
}

/// The state word of one task, shared by the workers and by every holder of
/// a waker of the task.
pub struct Task {
    state: AtomicUsize,
}

impl Task {
    /// The word of a task that was just spawned: idle.
    pub fn new() -> Task {
        Task { state: AtomicUsize::new(0) }
    }

    /// Wakes the task: marks it woken and says whether the caller is to put
    /// it into the queue. Of all the wakes that arrive while the task is
    /// queued or running, none is told to.
    pub fn wake_by_ref(&self) -> bool {
        on_wake(self.state.fetch_or(WOKEN, Ordering::SeqCst))
    }

    /// A worker begins to run the task: earlier wakes are forgotten, since
    /// the run that begins serves them.
    pub fn start(&self) {
        self.state.store(RUNNING, Ordering::SeqCst);
    }

    /// The run has left the task pending: the worker lets go of it and is
    /// told whether to put it back into the queue at once, because a wake
    /// arrived during the run.
    pub fn suspend(&self) -> bool {
        on_suspend(self.state.fetch_and(!RUNNING, Ordering::SeqCst))
    }
}

} // verus!
