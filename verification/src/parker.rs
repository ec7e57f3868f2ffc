//! Blocking a thread on one computation.
//!
//! A parker holds at most one wake-up token. Waking leaves a token; parking
//! takes it, or finds none and has the thread block until one is left. The
//! blocking itself is the driver's: it waits on its condition variable and
//! parks again.
use crate::poll::Poll;
use vstd::prelude::*;

verus! {

/// The wake-up token of one blocked thread.
#[derive(Debug)]
pub struct Parker {
    resumable: bool,
}

impl View for Parker {
    type V = bool;

    /// Whether a token is present.
    closed spec fn view(&self) -> bool {
        self.resumable
    }
}

impl Parker {
    /// A parker without a token.
    pub fn new() -> (p: Parker)
        ensures
            !p@,
    {
        Parker { resumable: false }
    }

    /// Parks the thread: takes the token if one is present and says so. If
    /// none is present the thread is to block until it is notified, and to
    /// park again.
    pub fn park(&mut self) -> (resumed: bool)
        ensures
            resumed == old(self)@,
            !final(self)@,
    {
        let resumed = self.resumable;
        self.resumable = false;
        resumed
    }

    /// Unparks the thread: leaves a token, in place of any that is present.
    /// The driver is to notify the blocked thread.
    pub fn unpark(&mut self)
        ensures
            final(self)@,
    {
        self.resumable = true;
    }
}

/// What the thread that drives a computation is to do next.
#[derive(Debug, PartialEq, Eq)]
pub enum Next<T> {
    /// The computation has finished: return its value.
    Return(T),
    /// A wake-up arrived in the meantime: resume the computation again.
    Resume,
    /// Block until the waker of the computation is invoked, then resume it.
    Park,
}

/// What follows from `polled` while a token is or is not present.
pub open spec fn next_of<T>(token: bool, polled: Poll<T>) -> Next<T> {
    match polled {
        Poll::Ready(value) => Next::Return(value),
        Poll::Pending => if token {
            Next::Resume
        } else {
            Next::Park
        },
    }
}

/// One turn of the loop that drives a computation to its value on the
/// calling thread: `polled` is what its last resumption gave. A finished
/// computation ends the loop with its value and leaves the parker alone; a
/// pending one parks the thread.
pub fn block_on<T>(parker: &mut Parker, polled: Poll<T>) -> (next: Next<T>)
    ensures
        next == next_of(old(parker)@, polled),
        final(parker)@ == (polled is Ready && old(parker)@),
{
    match polled {
        Poll::Ready(value) => Next::Return(value),
        Poll::Pending => {
            if parker.park() {
                Next::Resume
            } else {
                Next::Park
            }
        },
    }
}

/// A wake-up that arrives before the thread parks is not lost: a pending
/// computation is resumed again at once where a token is present, and the
/// thread blocks only where none is.
pub proof fn law_wake_before_park_is_kept<T>()
    ensures
        next_of::<T>(true, Poll::Pending) == Next::<T>::Resume,
        next_of::<T>(false, Poll::Pending) == Next::<T>::Park,
{
}

/// A computation that has finished is not resumed again: its value ends the
/// loop whether or not a token is present.
pub proof fn law_ready_ends_the_loop<T>(token: bool, value: T)
    ensures
        next_of(token, Poll::Ready(value)) == Next::Return(value),
{
}

} // verus!
