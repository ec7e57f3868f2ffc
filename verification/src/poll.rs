//! The outcome of resuming a computation.
use vstd::prelude::*;

verus! {

/// What one resumption of a computation yields: its value, or nothing yet.
#[derive(Debug, PartialEq, Eq)]
pub enum Poll<T> {
    /// The computation has finished with this value.
    Ready(T),
    /// The computation is suspended until its waker is invoked.
    Pending,
}

impl<T> Poll<T> {
    /// Whether the computation has finished.
    pub fn is_ready(&self) -> (ready: bool)
        ensures
            ready == (*self is Ready),
    {
        match self {
            Poll::Ready(_) => true,
            Poll::Pending => false,
        }
    }

    /// Whether the computation is still suspended.
    pub fn is_pending(&self) -> (pending: bool)
        ensures
            pending == (*self is Pending),
    {
        match self {
            Poll::Ready(_) => false,
            Poll::Pending => true,
        }
    }
}

} // verus!
