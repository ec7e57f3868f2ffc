//! A computation that finishes when a duration has elapsed.
//!
//! The state is shared by the computation and by whoever sleeps for it: the
//! sleeper completes the timer and fires the waker that the last resumption
//! left, if one did.
use crate::poll::Poll;
use std::time::Duration;
use vstd::prelude::*;

verus! {

/// The state of a timer.
pub struct TimerView<W> {
    /// Whether the duration has elapsed.
    pub completed: bool,
    /// The waker to fire when it does.
    pub waker: Option<W>,
}

impl<W> TimerView<W> {
    /// The state after the computation was resumed with `waker`.
    pub open spec fn polled(self, waker: W) -> TimerView<W> {
        if self.completed {
            self
        } else {
            TimerView { completed: false, waker: Some(waker) }
        }
    }

    /// What the resumption yields.
    pub open spec fn outcome(self) -> Poll<()> {
        if self.completed {
            Poll::Ready(())
        } else {
            Poll::Pending
        }
    }
}

/// A timer: whether its duration has elapsed, and the waker that the last
/// resumption left to be fired when it does.
pub struct TimerFuture<W> {
    completed: bool,
    waker: Option<W>,
    dur: Duration,
}

impl<W> View for TimerFuture<W> {
    type V = TimerView<W>;

    closed spec fn view(&self) -> TimerView<W> {
        TimerView { completed: self.completed, waker: self.waker }
    }
}

impl<W> TimerFuture<W> {
    /// A timer for `dur` that has not elapsed and holds no waker. The driver
    /// is to sleep for the duration and then to complete the timer.
    pub fn new(dur: Duration) -> (timer: TimerFuture<W>)
        ensures
            timer@ == (TimerView::<W> { completed: false, waker: None }),
            timer.duration() == dur,
    {
        TimerFuture { completed: false, waker: None, dur }
    }

    /// The duration that the timer was made for.
    pub closed spec fn duration(&self) -> Duration {
        self.dur
    }

    /// The duration that the timer was made for.
    pub fn dur(&self) -> (dur: &Duration)
        ensures
            *dur == self.duration(),
    {
        &self.dur
    }

    /// Resumes the computation: it is ready once the timer has elapsed, and
    /// until then it stays pending and leaves `waker` to be fired, in place
    /// of any waker it left before.
    pub fn poll(&mut self, waker: W) -> (polled: Poll<()>)
        ensures
            final(self).duration() == old(self).duration(),
            final(self)@ == old(self)@.polled(waker),
            polled == old(self)@.outcome(),
    {
        if self.completed {
            Poll::Ready(())
        } else {
            self.waker = Some(waker);
            Poll::Pending
        }
    }

    /// The duration has elapsed: the timer is completed, and the waker that
    /// the last resumption left, if any, is handed back to be fired.
    pub fn complete(&mut self) -> (waker: Option<W>)
        ensures
            final(self).duration() == old(self).duration(),
            final(self)@ == (TimerView::<W> { completed: true, waker: None }),
            waker == old(self)@.waker,
    {
        self.completed = true;
        self.waker.take()
    }
}

/// While the duration has not elapsed every resumption is pending, and the
/// timer holds the waker of the last one, and no other: that is the waker
/// that is fired when the duration elapses.
pub proof fn law_last_waker_is_kept<W>(timer: TimerView<W>, first: W, last: W)
    requires
        !timer.completed,
    ensures
        timer.outcome() == Poll::<()>::Pending,
        timer.polled(first).outcome() == Poll::<()>::Pending,
        timer.polled(first).polled(last).waker == Some(last),
        !timer.polled(first).polled(last).completed,
{
}

/// Once the duration has elapsed every resumption is ready and changes
/// nothing: no waker is left behind that could be fired later.
pub proof fn law_elapsed_timer_is_ready<W>(timer: TimerView<W>, waker: W)
    requires
        timer.completed,
    ensures
        timer.outcome() == Poll::Ready(()),
        timer.polled(waker) == timer,
{
}

} // verus!
