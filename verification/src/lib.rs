//! A minimal asynchronous runtime, stated as verified state machines.
//!
//! Every scheduling decision of the runtime lives here as a function from a
//! state and an event to the next state and an action: which computation to
//! resume next, which waker to fire, when to block. A driver performs the
//! actions (resuming a computation, sleeping, waiting on the operating
//! system) and reports what happened.
//!
//! - [`poll`], [`queue`]: the outcome of a resumption, and the run queue.
//! - [`executor`], [`helper`], [`schedule`]: the cooperative executor of one
//!   thread, the waker protocol that counts the handles to its tasks, and
//!   what holds of every sequence of operations on it.
//! - [`reactor`], [`tcp`], [`serve`]: the table of I/O interest, the
//!   transport that suspends instead of blocking, and the echo service.
//! - [`timer`], [`clock`], [`parker`]: the timer backend with its dispatcher,
//!   a counted clock for its helpers, and the executor that parks the
//!   calling thread.
//! - [`task`], [`pool`], [`interleaving`]: the state word of a task of the
//!   work-queue executor, the pool of workers under one lock, and what holds
//!   of every interleaving on it.
//! - [`channel`], [`timer_future`]: the executor behind a bounded queue, and
//!   the timer that a sleeping thread completes.
//! - [`pinned`]: a value that refers to itself.
pub mod channel;
pub mod clock;
pub mod executor;
pub mod helper;
pub mod interleaving;
pub mod parker;
pub mod pinned;
pub mod poll;
pub mod pool;
pub mod queue;
pub mod reactor;
pub mod schedule;
pub mod serve;
pub mod task;
pub mod tcp;
pub mod timer;
pub mod timer_future;
