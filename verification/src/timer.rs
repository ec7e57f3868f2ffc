//! The timer backend of the reactor: a table of per-task wait states keyed by
//! task id, the suspendable timer task that is resumed against it, and the
//! dispatcher that turns timeout events into sleeping helpers.
//!
//! The table is mutated under one lock held by the caller for the duration of
//! each resume, registration and wake. The sleeping itself, the helper
//! threads and the channel that carries the events belong to the driver.
use crate::poll::Poll;
use std::collections::HashMap;
use vstd::prelude::*;

verus! {

broadcast use vstd::std_specs::hash::group_hash_axioms;

/// What the reactor sends to its dispatcher.
#[derive(Debug, Clone, Copy, PartialEq, Eq)]
pub enum Event {
    /// Stop accepting events and join the outstanding helpers.
    Close,
    /// After this many seconds, wake the task with this id.
    Timeout(u64, usize),
}

/// The wait state of one task.
#[derive(Debug)]
pub enum TaskState<W> {
    /// The timeout has elapsed and the task has not been resumed since.
    Ready,
    /// The timeout is running; this waker is fired when it elapses.
    NotReady(W),
    /// The task was resumed after its timeout elapsed and has returned its value.
    Finished,
}

/// An invariant of the scheduler that a caller has broken. None of these is
/// recoverable: a driver that meets one terminates.
#[derive(Debug, Clone, Copy, PartialEq, Eq)]
pub enum Fatal {
    /// A task id was registered while the table already held it.
    RegisteredTwice(usize),
    /// A task was woken after it had finished.
    WokenTwice(usize),
    /// A task was woken whose timeout had already elapsed.
    AlreadyReady(usize),
    /// A task was woken that was never registered.
    Unknown(usize),
}

/// The registry of the timer backend: for each task id its wait state.
pub struct Reactor<W> {
    tasks: HashMap<usize, TaskState<W>>,
}

impl<W> View for Reactor<W> {
    type V = Map<usize, TaskState<W>>;

    closed spec fn view(&self) -> Map<usize, TaskState<W>> {
        self.tasks@
    }
}

/// The table after the fresh task `id` has been registered with `waker`.
pub open spec fn registered<W>(table: Map<usize, TaskState<W>>, waker: W, id: usize) -> Map<
    usize,
    TaskState<W>,
> {
    table.insert(id, TaskState::NotReady(waker))
}

/// The table after the timeout of `id` has elapsed.
pub open spec fn woken<W>(table: Map<usize, TaskState<W>>, id: usize) -> Map<
    usize,
    TaskState<W>,
> {
    table.insert(id, TaskState::Ready)
}

/// Whether `wake` may be called for `id`: the task is registered and its
/// timeout has not elapsed yet.
pub open spec fn armed<W>(table: Map<usize, TaskState<W>>, id: usize) -> bool {
    table.contains_key(id) && table[id] is NotReady
}

/// The error, if any, with which waking `id` is rejected.
pub open spec fn wake_error<W>(table: Map<usize, TaskState<W>>, id: usize) -> Option<Fatal> {
    if !table.contains_key(id) {
        Some(Fatal::Unknown(id))
    } else {
        match table[id] {
            TaskState::NotReady(_) => None,
            TaskState::Finished => Some(Fatal::WokenTwice(id)),
            TaskState::Ready => Some(Fatal::AlreadyReady(id)),
        }
    }
}

impl<W> Reactor<W> {
    /// A reactor that knows no task.
    pub fn new() -> (r: Reactor<W>)
        ensures
            r@ == Map::<usize, TaskState<W>>::empty(),
    {
        Reactor { tasks: HashMap::new() }
    }

    /// Whether the reactor holds a wait state for `id`.
    pub fn contains(&self, id: usize) -> (known: bool)
        ensures
            known == self@.contains_key(id),
    {
        self.tasks.contains_key(&id)
    }

    /// Whether the timeout of `id` has elapsed and the task has not been
    /// resumed since.
    pub fn is_ready(&self, id: usize) -> (ready: bool)
        ensures
            ready == (self@.contains_key(id) && self@[id] is Ready),
    {
        match self.tasks.get(&id) {
            Some(TaskState::Ready) => true,
            _ => false,
        }
    }

    /// Whether the task `id` has returned its value.
    pub fn is_finished(&self, id: usize) -> (finished: bool)
        ensures
            finished == (self@.contains_key(id) && self@[id] is Finished),
    {
        match self.tasks.get(&id) {
            Some(TaskState::Finished) => true,
            _ => false,
        }
    }

    /// Registers the fresh task `id`: it waits with `waker`, and the returned
    /// timeout event is to be sent to the dispatcher.
    pub fn register(&mut self, duration: u64, waker: W, id: usize) -> (event: Event)
        requires
            !old(self)@.contains_key(id),
        ensures
            final(self)@ == registered(old(self)@, waker, id),
            event == Event::Timeout(duration, id),
    {
        self.tasks.insert(id, TaskState::NotReady(waker));
        Event::Timeout(duration, id)
    }

    /// Registers the task `id` unless the table already holds it; in that
    /// case nothing changes and the registration is rejected.
    pub fn try_register(&mut self, duration: u64, waker: W, id: usize) -> (outcome: Result<
        Event,
        Fatal,
    >)
        ensures
            old(self)@.contains_key(id) ==> outcome == Err::<Event, Fatal>(
                Fatal::RegisteredTwice(id),
            ) && final(self)@ == old(self)@,
            !old(self)@.contains_key(id) ==> outcome == Ok::<Event, Fatal>(
                Event::Timeout(duration, id),
            ) && final(self)@ == registered(old(self)@, waker, id),
    {
        if self.tasks.contains_key(&id) {
            Err(Fatal::RegisteredTwice(id))
        } else {
            Ok(self.register(duration, waker, id))
        }
    }

    /// The timeout of `id` has elapsed: the task becomes ready, and the waker
    /// it waited with is handed back to be fired, once.
    ///
    /// A wake of a task that has finished, that is ready already or that
    /// was never registered breaks the scheduler and is fatal; no caller
    /// may make it. A caller that cannot rule it out calls `try_wake`,
    /// which rejects it, and terminates on the rejection.
    pub fn wake(&mut self, id: usize) -> (waker: W)
        requires
            armed(old(self)@, id),
        ensures
            final(self)@ == woken(old(self)@, id),
            old(self)@[id] == TaskState::NotReady(waker),
    {
        match self.tasks.insert(id, TaskState::Ready) {
            Some(TaskState::NotReady(waker)) => waker,
            _ => vstd::pervasive::unreached(),
        }
    }

    /// Wakes `id` if its timeout is running. A task that is unknown, already
    /// ready or already finished is rejected, and nothing changes.
    pub fn try_wake(&mut self, id: usize) -> (outcome: Result<W, Fatal>)
        ensures
            match outcome {
                Ok(waker) => armed(old(self)@, id) && old(self)@[id] == TaskState::NotReady(waker)
                    && final(self)@ == woken(old(self)@, id),
                Err(e) => wake_error(old(self)@, id) == Some(e) && final(self)@ == old(self)@,
            },
    {
        match self.tasks.get(&id) {
            None => Err(Fatal::Unknown(id)),
            Some(TaskState::Finished) => Err(Fatal::WokenTwice(id)),
            Some(TaskState::Ready) => Err(Fatal::AlreadyReady(id)),
            Some(TaskState::NotReady(_)) => Ok(self.wake(id)),
        }
    }

    /// The event that ends the dispatcher.
    pub fn close(&self) -> (event: Event)
        ensures
            event == Event::Close,
    {
        Event::Close
    }
}

/// A computation that finishes once its timeout has elapsed, yielding its id.
#[derive(Debug, Clone, Copy, PartialEq, Eq)]
pub struct Task {
    id: usize,
    data: u64,
}

/// The table after the task `id` has been resumed with `waker`: a ready task
/// finishes, any other waits with the waker it was resumed with.
pub open spec fn resumed<W>(table: Map<usize, TaskState<W>>, id: usize, waker: W) -> Map<
    usize,
    TaskState<W>,
> {
    if table.contains_key(id) && table[id] is Ready {
        table.insert(id, TaskState::Finished)
    } else {
        table.insert(id, TaskState::NotReady(waker))
    }
}

impl Task {
    /// A task with identity `id` whose timeout lasts `data` seconds.
    pub fn new(data: u64, id: usize) -> (task: Task)
        ensures
            task.id() == id,
            task.data() == data,
    {
        Task { id, data }
    }

    /// The identity of the task.
    pub closed spec fn id(&self) -> usize {
        self.id
    }

    /// The length of the timeout in seconds.
    pub closed spec fn data(&self) -> u64 {
        self.data
    }

    /// Resumes the task against `reactor`.
    ///
    /// If its timeout has elapsed the task finishes with its id. Otherwise it
    /// stays pending and waits with `waker`, which replaces any waker it
    /// waited with before; on the first resumption the timeout event for the
    /// dispatcher is returned as well.
    pub fn poll<W>(&self, reactor: &mut Reactor<W>, waker: W) -> (polled: (Poll<usize>, Option<
        Event,
    >))
        ensures
            final(reactor)@ == resumed(old(reactor)@, self.id(), waker),
            polled.0 == if old(reactor)@.contains_key(self.id()) && old(reactor)@[self.id()] is Ready {
                Poll::Ready(self.id())
            } else {
                Poll::<usize>::Pending
            },
            polled.1 == if old(reactor)@.contains_key(self.id()) {
                None::<Event>
            } else {
                Some(Event::Timeout(self.data(), self.id()))
            },
    {
        if reactor.is_ready(self.id) {
            reactor.tasks.insert(self.id, TaskState::Finished);
            (Poll::Ready(self.id), None)
        } else if reactor.contains(self.id) {
            reactor.tasks.insert(self.id, TaskState::NotReady(waker));
            (Poll::Pending, None)
        } else {
            let event = reactor.register(self.data, waker, self.id);
            (Poll::Pending, Some(event))
        }
    }
}

/// What the dispatcher does with an event.
#[derive(Debug, Clone, Copy, PartialEq, Eq)]
pub enum Dispatch {
    /// Start a helper that sleeps `duration` seconds and then wakes `id`.
    Sleep { duration: u64, id: usize },
    /// Receive no further event: join every helper that was started, then end.
    Stop,
    /// The event arrived after the dispatcher was closed and is not accepted.
    Refused,
}

/// The decisions of the dispatcher, which consumes the events of a reactor
/// one after the other.
pub struct Dispatcher {
    helpers: Vec<usize>,
    accepting: bool,
}

/// The state of a dispatcher: the tasks for which it has started a helper, in
/// the order of their events, and whether it still accepts events.
pub struct DispatcherView {
    pub helpers: Seq<usize>,
    pub accepting: bool,
}

impl DispatcherView {
    /// The state after `event` has been taken.
    pub open spec fn next(self, event: Event) -> DispatcherView {
        if !self.accepting {
            self
        } else {
            match event {
                Event::Close => DispatcherView { helpers: self.helpers, accepting: false },
                Event::Timeout(_, id) => DispatcherView {
                    helpers: self.helpers.push(id),
                    accepting: true,
                },
            }
        }
    }

    /// The action with which `event` is answered.
    pub open spec fn action(self, event: Event) -> Dispatch {
        if !self.accepting {
            Dispatch::Refused
        } else {
            match event {
                Event::Close => Dispatch::Stop,
                Event::Timeout(duration, id) => Dispatch::Sleep { duration, id },
            }
        }
    }
}

impl View for Dispatcher {
    type V = DispatcherView;

    closed spec fn view(&self) -> DispatcherView {
        DispatcherView { helpers: self.helpers@, accepting: self.accepting }
    }
}

impl Dispatcher {
    /// A dispatcher that accepts events and has started no helper.
    pub fn new() -> (d: Dispatcher)
        ensures
            d@.accepting,
            d@.helpers == Seq::<usize>::empty(),
    {
        Dispatcher { helpers: Vec::new(), accepting: true }
    }

    /// Takes the next event of the reactor and says what is to be done.
    pub fn dispatch(&mut self, event: Event) -> (action: Dispatch)
        ensures
            final(self)@ == old(self)@.next(event),
            action == old(self)@.action(event),
    {
        if !self.accepting {
            return Dispatch::Refused;
        }
        match event {
            Event::Close => {
                self.accepting = false;
                Dispatch::Stop
            },
            Event::Timeout(duration, id) => {
                self.helpers.push(id);
                Dispatch::Sleep { duration, id }
            },
        }
    }

    /// Whether events are still accepted.
    pub fn is_accepting(&self) -> (accepting: bool)
        ensures
            accepting == self@.accepting,
    {
        self.accepting
    }

    /// The number of helpers that were started and are to be joined on `Stop`.
    pub fn outstanding(&self) -> (n: usize)
        ensures
            n == self@.helpers.len(),
    {
        self.helpers.len()
    }
}

/// The course of every timeout, whatever the task and whatever else the
/// table holds: registering arms it with its waker; when it elapses the task
/// is ready and that waker, no other, is handed out to be fired; until the
/// task is resumed a further wake is rejected, so that the waker is fired
/// once; resuming the task finishes it; and from then on a wake is rejected
/// as fatal, hands out no waker and leaves the table as it is.
pub proof fn law_timeout_runs_its_course<W>(
    table: Map<usize, TaskState<W>>,
    waker: W,
    later: W,
    id: usize,
)
    requires
        !table.contains_key(id),
    ensures
        armed(registered(table, waker, id), id),
        registered(table, waker, id)[id] == TaskState::NotReady(waker),
        wake_error(registered(table, waker, id), id) is None,
        woken(registered(table, waker, id), id)[id] is Ready,
        wake_error(woken(registered(table, waker, id), id), id) == Some(Fatal::AlreadyReady(id)),
        resumed(woken(registered(table, waker, id), id), id, later)[id] is Finished,
        !armed(resumed(woken(registered(table, waker, id), id), id, later), id),
        wake_error(resumed(woken(registered(table, waker, id), id), id, later), id) == Some(
            Fatal::WokenTwice(id),
        ),
{
}

/// A wake is accepted exactly where the timeout of the task is running; a
/// task that has finished is rejected with the error that names the second
/// wake, whatever the table holds besides.
pub proof fn law_wake_is_rejected_unless_armed<W>(table: Map<usize, TaskState<W>>, id: usize)
    ensures
        wake_error(table, id) is None <==> armed(table, id),
        table.contains_key(id) && table[id] is Finished ==> wake_error(table, id) == Some(
            Fatal::WokenTwice(id),
        ),
{
}

/// Resuming a ready task finishes it, and waking a finished task is fatal.
pub proof fn law_wake_after_finish_is_fatal<W>(
    table: Map<usize, TaskState<W>>,
    id: usize,
    waker: W,
)
    requires
        table.contains_key(id),
        table[id] is Ready,
    ensures
        resumed(table, id, waker)[id] is Finished,
        !armed(resumed(table, id, waker), id),
        wake_error(resumed(table, id, waker), id) == Some(Fatal::WokenTwice(id)),
{
}

/// No transition of one task touches the wait state of another.
pub proof fn law_tasks_are_independent<W>(
    table: Map<usize, TaskState<W>>,
    id: usize,
    other: usize,
    waker: W,
)
    requires
        id != other,
    ensures
        registered(table, waker, id).contains_key(other) == table.contains_key(other),
        woken(table, id).contains_key(other) == table.contains_key(other),
        resumed(table, id, waker).contains_key(other) == table.contains_key(other),
        table.contains_key(other) ==> registered(table, waker, id)[other] == table[other]
            && woken(table, id)[other] == table[other] && resumed(table, id, waker)[other]
            == table[other],
{
}

/// Once closed, a dispatcher stays closed and starts no further helper.
pub proof fn law_closed_dispatcher_starts_nothing(d: DispatcherView, event: Event)
    requires
        !d.accepting,
    ensures
        d.next(event) == d,
        d.action(event) == Dispatch::Refused,
{
}

} // verus!
