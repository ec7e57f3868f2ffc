//! The single-threaded cooperative executor.
//!
//! One thread owns the run queue and the storage of every task, which holds
//! the computation of the task while it is not being resumed. `block_on` is
//! the loop of that thread, stated as a function from the state and what the
//! driver last did to the next state and what the driver is to do next:
//! resume the root computation, resume the computation of a queued task, or
//! block in the reactor. A task that has finished is never handed out again,
//! and the storage of a task is released exactly when the last handle to it
//! is gone.
use crate::poll::Poll;
use crate::queue::{
    lemma_occurrences_drop_first, lemma_occurrences_positive, lemma_occurrences_push,
    lemma_occurrences_witness, occurrences, TaskId, TaskQueue,
};
use std::collections::HashMap;
use vstd::prelude::*;

verus! {

broadcast use vstd::std_specs::hash::group_hash_axioms;

/// The storage of a task.
#[derive(Debug)]
pub struct Record<F> {
    /// The number of handles to the task: its queue entries, the handle of
    /// the loop while the task is resumed, and the wakers held elsewhere.
    pub refs: usize,
    /// The computation of the task, unless it is being resumed or has
    /// finished.
    pub future: Option<F>,
}

/// Where the loop of `block_on` stands.
#[derive(Debug, Clone, Copy, PartialEq, Eq)]
pub enum Phase {
    /// No `block_on` is running.
    Idle,
    /// The root computation is being resumed at the head of an iteration.
    Root,
    /// The run queue is being drained and the task named here is being resumed.
    Task(TaskId),
    /// The run queue has run empty and the root computation is being resumed
    /// again.
    Recheck,
    /// Nothing was runnable: the thread blocks in the reactor.
    Blocked,
}

/// How the resumption of a task went.
#[derive(Debug, PartialEq, Eq)]
pub enum Resumed<F> {
    /// The computation is still pending: here it is again.
    Pending(F),
    /// The computation has finished.
    Ready,
}

/// What the driver reports to `block_on`.
#[derive(Debug, PartialEq, Eq)]
pub enum Event<O, F> {
    /// `block_on` has been entered.
    Start,
    /// The root computation was resumed with this outcome.
    Root(Poll<O>),
    /// The computation handed out by the last action was resumed.
    Task(Resumed<F>),
    /// The reactor has returned from its wait and has fired its wakers.
    Woken,
}

/// What the driver is to do next.
#[derive(Debug, PartialEq, Eq)]
pub enum Action<O, F> {
    /// Resume the root computation.
    PollRoot,
    /// Resume the computation, which is that of the named task, with a
    /// context whose waker is bound to the task.
    PollTask(TaskId, F),
    /// Block in the reactor until it has fired a waker.
    Wait,
    /// Leave `block_on` with the value of the root computation.
    Return(O),
}

/// One step of the loop, as the driver sees it.
#[derive(Debug, PartialEq, Eq)]
pub struct Step<O, F> {
    /// What the driver is to do next.
    pub action: Action<O, F>,
    /// The tasks whose storage the step released, in the order of release.
    pub released: Vec<TaskId>,
    /// The computation that left with released storage, if there was one:
    /// it was still pending and nothing can wake it any more. The driver
    /// drops it.
    pub cancelled: Option<F>,
}

/// The state of an executor.
pub struct ExecutorView<F> {
    /// The run queue, oldest entry first.
    pub queue: Seq<TaskId>,
    /// The tasks whose storage is live.
    pub tasks: Map<TaskId, Record<F>>,
    /// The identity that the next spawned task gets.
    pub next_id: TaskId,
    /// Where the loop stands.
    pub phase: Phase,
}

/// The outcome of one step of the loop.
pub struct Stepped<O, F> {
    /// The state after the step.
    pub state: ExecutorView<F>,
    /// What the driver is to do next.
    pub action: Action<O, F>,
    /// The tasks whose storage the step released, in the order of release.
    pub released: Seq<TaskId>,
    /// The computation that left with released storage, if there was one.
    pub cancelled: Option<F>,
}

impl<F> ExecutorView<F> {
    /// Whether the task waits with its computation in its storage.
    pub open spec fn live(self, id: TaskId) -> bool {
        self.tasks.contains_key(id) && self.tasks[id].future is Some
    }

    /// Whether the computation of the task is with the driver.
    pub open spec fn running(self, id: TaskId) -> bool {
        self.phase == Phase::Task(id)
    }

    /// Whether the task was spawned and has finished or lost its storage: it
    /// will never run again.
    pub open spec fn retired(self, id: TaskId) -> bool {
        id < self.next_id && !self.live(id) && !self.running(id)
    }

    /// The handles to `id` that the scheduler itself holds: one for each
    /// queue entry, and one while the task is being resumed.
    pub open spec fn held(self, id: TaskId) -> nat {
        occurrences(self.queue, id) + if self.phase == Phase::Task(id) {
            1nat
        } else {
            0nat
        }
    }

    /// The handles to `id` that are held outside the scheduler, as wakers.
    pub open spec fn wakers(self, id: TaskId) -> int {
        if self.tasks.contains_key(id) {
            self.tasks[id].refs - self.held(id)
        } else {
            0
        }
    }

    /// Every handle refers to live storage: a stored task has at least one
    /// handle and at least as many as the scheduler holds, every queue entry
    /// is stored, no stored task has an identity that is still to be given
    /// out, and the task being resumed is stored without its computation.
    pub open spec fn wf(self) -> bool {
        &&& forall|id: TaskId| #[trigger]
            self.tasks.contains_key(id) ==> id < self.next_id && self.tasks[id].refs >= 1
                && self.tasks[id].refs >= self.held(id)
        &&& forall|i: int|
            0 <= i < self.queue.len() ==> self.tasks.contains_key(#[trigger] self.queue[i])
        &&& self.phase matches Phase::Task(t) ==> self.tasks.contains_key(t)
            && self.tasks[t].future is None
    }

    /// The same state in another phase.
    pub open spec fn with_phase(self, phase: Phase) -> ExecutorView<F> {
        ExecutorView { queue: self.queue, tasks: self.tasks, next_id: self.next_id, phase }
    }

    /// The same state with other storage.
    pub open spec fn with_tasks(self, tasks: Map<TaskId, Record<F>>) -> ExecutorView<F> {
        ExecutorView { queue: self.queue, tasks, next_id: self.next_id, phase: self.phase }
    }

    /// The state with one more handle to `id`.
    pub open spec fn retain(self, id: TaskId) -> ExecutorView<F> {
        if self.tasks.contains_key(id) {
            self.with_tasks(
                self.tasks.insert(
                    id,
                    Record {
                        refs: (self.tasks[id].refs + 1) as usize,
                        future: self.tasks[id].future,
                    },
                ),
            )
        } else {
            self
        }
    }

    /// Whether giving up one handle to `id` releases the storage of the task.
    pub open spec fn releases(self, id: TaskId) -> bool {
        self.tasks.contains_key(id) && self.tasks[id].refs <= 1
    }

    /// The state with one handle to `id` given up: the last one takes the
    /// storage of the task with it.
    pub open spec fn release(self, id: TaskId) -> ExecutorView<F> {
        if !self.tasks.contains_key(id) {
            self
        } else if self.tasks[id].refs <= 1 {
            self.with_tasks(self.tasks.remove(id))
        } else {
            self.with_tasks(
                self.tasks.insert(
                    id,
                    Record {
                        refs: (self.tasks[id].refs - 1) as usize,
                        future: self.tasks[id].future,
                    },
                ),
            )
        }
    }

    /// The tasks that giving up one handle to `id` releases: `id` or none.
    pub open spec fn freed(self, id: TaskId) -> Seq<TaskId> {
        if self.releases(id) {
            seq![id]
        } else {
            Seq::empty()
        }
    }

    /// The computation that leaves with the storage when one handle to `id`
    /// is given up: that of `id`, if the handle is the last and the task
    /// still waits.
    pub open spec fn cancelled(self, id: TaskId) -> Option<F> {
        if self.releases(id) {
            self.tasks[id].future
        } else {
            None
        }
    }

    /// The state with `id` appended to the run queue.
    pub open spec fn enqueue(self, id: TaskId) -> ExecutorView<F> {
        ExecutorView {
            queue: self.queue.push(id),
            tasks: self.tasks,
            next_id: self.next_id,
            phase: self.phase,
        }
    }

    /// The state after a task with the computation `future` was spawned: it
    /// gets the next identity, one handle, and the last place in the run
    /// queue.
    pub open spec fn spawn(self, future: F) -> ExecutorView<F> {
        ExecutorView {
            queue: self.queue.push(self.next_id),
            tasks: self.tasks.insert(self.next_id, Record { refs: 1, future: Some(future) }),
            next_id: (self.next_id + 1) as TaskId,
            phase: self.phase,
        }
    }

    /// The state after the computation that was with the driver has come
    /// back: a pending one returns to the storage of its task, a finished
    /// one leaves the storage empty. The loop holds the handle of the task
    /// no longer than that.
    pub open spec fn settle(self, resumed: Resumed<F>) -> ExecutorView<F> {
        match (resumed, self.phase) {
            (Resumed::Pending(future), Phase::Task(t)) => if self.tasks.contains_key(t) {
                self.with_tasks(
                    self.tasks.insert(t, Record { refs: self.tasks[t].refs, future: Some(future) }),
                ).with_phase(Phase::Root)
            } else {
                self.with_phase(Phase::Root)
            },
            _ => self.with_phase(Phase::Root),
        }
    }

    /// Takes entries from the front of the run queue until one names a task
    /// that waits with its computation, which then goes to the driver. An
    /// entry of a task that has finished only gives up its handle. When the
    /// queue runs empty the root computation is resumed again.
    pub open spec fn drain<O>(self) -> Stepped<O, F>
        decreases self.queue.len(),
    {
        if self.queue.len() == 0 {
            Stepped {
                state: self.with_phase(Phase::Recheck),
                action: Action::PollRoot,
                released: Seq::empty(),
                cancelled: None,
            }
        } else {
            let t = self.queue[0];
            let popped = ExecutorView {
                queue: self.queue.drop_first(),
                tasks: self.tasks,
                next_id: self.next_id,
                phase: self.phase,
            };
            if popped.live(t) {
                Stepped {
                    state: popped.with_tasks(
                        popped.tasks.insert(t, Record { refs: popped.tasks[t].refs, future: None }),
                    ).with_phase(Phase::Task(t)),
                    action: Action::PollTask(t, popped.tasks[t].future->Some_0),
                    released: Seq::empty(),
                    cancelled: None,
                }
            } else {
                let rest = popped.release(t).drain::<O>();
                Stepped {
                    state: rest.state,
                    action: rest.action,
                    released: popped.freed(t) + rest.released,
                    cancelled: None,
                }
            }
        }
    }

    /// Whether nothing is runnable once the root computation is found
    /// pending: the run queue had run empty before the root computation was
    /// resumed again, and that resumption has put nothing into it.
    pub open spec fn nothing_runnable(self) -> bool {
        self.phase is Recheck && self.queue.len() == 0
    }

    /// Whether `event` is what the loop waits for in this state.
    pub open spec fn accepts<O>(self, event: Event<O, F>) -> bool {
        match event {
            Event::Start => self.phase is Idle,
            Event::Root(_) => self.phase is Root || self.phase is Recheck,
            Event::Task(_) => self.phase is Task,
            Event::Woken => self.phase is Blocked,
        }
    }

    /// One step of the loop of `block_on`.
    ///
    /// The root computation is resumed first; if it is ready its value is
    /// returned. Otherwise the run queue is drained, one task at a time, and
    /// the root computation is resumed again. If it is still pending and
    /// nothing is runnable, the thread blocks in the reactor, and the next
    /// iteration begins when the reactor has fired. If that resumption of
    /// the root computation has spawned or woken a task, the run queue is
    /// drained again instead: the thread never blocks while a task is
    /// queued.
    pub open spec fn next<O>(self, event: Event<O, F>) -> Stepped<O, F> {
        match event {
            Event::Start | Event::Woken => Stepped {
                state: self.with_phase(Phase::Root),
                action: Action::PollRoot,
                released: Seq::empty(),
                cancelled: None,
            },
            Event::Root(Poll::Ready(value)) => Stepped {
                state: self.with_phase(Phase::Idle),
                action: Action::Return(value),
                released: Seq::empty(),
                cancelled: None,
            },
            Event::Root(Poll::Pending) => if self.nothing_runnable() {
                Stepped {
                    state: self.with_phase(Phase::Blocked),
                    action: Action::Wait,
                    released: Seq::empty(),
                    cancelled: None,
                }
            } else {
                self.drain::<O>()
            },
            Event::Task(resumed) => {
                let t = self.phase->Task_0;
                let settled = self.settle(resumed);
                let rest = settled.release(t).drain::<O>();
                Stepped {
                    state: rest.state,
                    action: rest.action,
                    released: settled.freed(t) + rest.released,
                    cancelled: settled.cancelled(t),
                }
            },
        }
    }
}

/// The single-threaded executor: its run queue and the storage of its tasks.
pub struct Executor<F> {
    local_queue: TaskQueue,
    tasks: HashMap<TaskId, Record<F>>,
    next_id: TaskId,
    phase: Phase,
}

impl<F> View for Executor<F> {
    type V = ExecutorView<F>;

    closed spec fn view(&self) -> ExecutorView<F> {
        ExecutorView {
            queue: self.local_queue@,
            tasks: self.tasks@,
            next_id: self.next_id,
            phase: self.phase,
        }
    }
}

impl<F> Executor<F> {
    /// An executor with no task, outside `block_on`.
    pub fn new() -> (ex: Executor<F>)
        ensures
            ex@.wf(),
            ex@.queue == Seq::<TaskId>::empty(),
            ex@.tasks == Map::<TaskId, Record<F>>::empty(),
            ex@.next_id == 0,
            ex@.phase == Phase::Idle,
    {
        Executor {
            local_queue: TaskQueue::new(),
            tasks: HashMap::new(),
            next_id: 0,
            phase: Phase::Idle,
        }
    }

    /// Where the loop stands.
    pub fn phase(&self) -> (phase: Phase)
        ensures
            phase == self@.phase,
    {
        self.phase
    }

    /// Whether a `block_on` is running, so that tasks may be spawned.
    pub fn is_active(&self) -> (active: bool)
        ensures
            active == !(self@.phase is Idle),
    {
        match self.phase {
            Phase::Idle => false,
            _ => true,
        }
    }

    /// Whether `event` is what the loop waits for.
    pub fn accepts<O>(&self, event: &Event<O, F>) -> (accepted: bool)
        ensures
            accepted == self@.accepts(*event),
    {
        match event {
            Event::Start => match self.phase {
                Phase::Idle => true,
                _ => false,
            },
            Event::Root(_) => match self.phase {
                Phase::Root => true,
                Phase::Recheck => true,
                _ => false,
            },
            Event::Task(_) => match self.phase {
                Phase::Task(_) => true,
                _ => false,
            },
            Event::Woken => match self.phase {
                Phase::Blocked => true,
                _ => false,
            },
        }
    }

    /// Whether another task can be given an identity.
    pub fn has_room(&self) -> (room: bool)
        ensures
            room == (self@.next_id < u64::MAX),
    {
        self.next_id < u64::MAX
    }

    /// The number of queued entries.
    pub fn queued(&self) -> (n: usize)
        ensures
            n == self@.queue.len(),
    {
        self.local_queue.len()
    }

    /// The number of handles to `id`, if its storage is live.
    pub fn refs(&self, id: TaskId) -> (refs: Option<usize>)
        ensures
            refs == if self@.tasks.contains_key(id) {
                Some(self@.tasks[id].refs)
            } else {
                None
            },
    {
        match self.tasks.get(&id) {
            Some(record) => Some(record.refs),
            None => None,
        }
    }

    /// Whether the task `id` waits with its computation in its storage.
    pub fn is_live(&self, id: TaskId) -> (live: bool)
        ensures
            live == self@.live(id),
    {
        match self.tasks.get(&id) {
            Some(record) => record.future.is_some(),
            None => false,
        }
    }

    /// The number of handles to `id` that are held outside the scheduler.
    pub fn wakers(&self, id: TaskId) -> (n: usize)
        requires
            self@.wf(),
        ensures
            n == self@.wakers(id),
    {
        match self.tasks.get(&id) {
            None => 0,
            Some(record) => {
                proof {
                    assert(self@.tasks.contains_key(id));
                }
                let queued = self.local_queue.occurrences(id);
                let running: usize = match self.phase {
                    Phase::Task(t) => if t == id {
                        1
                    } else {
                        0
                    },
                    _ => 0,
                };
                record.refs - queued - running
            },
        }
    }

    /// Spawns a task with the computation `future`: it gets a fresh
    /// identity, which is returned, and waits at the end of the run queue
    /// for its first resumption.
    pub fn spawn(&mut self, future: F) -> (id: TaskId)
        requires
            old(self)@.wf(),
            !(old(self)@.phase is Idle),
            old(self)@.next_id < u64::MAX,
        ensures
            final(self)@.wf(),
            final(self)@ == old(self)@.spawn(future),
            id == old(self)@.next_id,
    {
        let id = self.next_id;
        proof {
            lemma_spawn_wf(self@, future);
        }
        self.tasks.insert(id, Record { refs: 1, future: Some(future) });
        self.local_queue.push(id);
        self.next_id = id + 1;
        id
    }

    /// Adds a handle to `id`.
    pub(crate) fn retain(&mut self, id: TaskId)
        requires
            old(self)@.tasks.contains_key(id),
            old(self)@.tasks[id].refs < usize::MAX,
        ensures
            final(self)@ == old(self)@.retain(id),
    {
        match self.tasks.remove(&id) {
            None => {},
            Some(record) => {
                self.tasks.insert(id, Record { refs: record.refs + 1, future: record.future });
                proof {
                    assert(self@.tasks =~= old(self)@.retain(id).tasks);
                }
            },
        }
    }

    /// Gives up a handle to `id`. Says whether that released the storage of
    /// the task, and hands out the computation that was in it.
    pub(crate) fn release(&mut self, id: TaskId) -> (out: (bool, Option<F>))
        ensures
            final(self)@ == old(self)@.release(id),
            out.0 == old(self)@.releases(id),
            out.1 == old(self)@.cancelled(id),
    {
        match self.tasks.remove(&id) {
            None => {
                proof {
                    assert(self@.tasks =~= old(self)@.tasks);
                }
                (false, None)
            },
            Some(record) => {
                if record.refs <= 1 {
                    (true, record.future)
                } else {
                    self.tasks.insert(id, Record { refs: record.refs - 1, future: record.future });
                    proof {
                        assert(self@.tasks =~= old(self)@.release(id).tasks);
                    }
                    (false, None)
                }
            },
        }
    }

    /// Appends `id` to the run queue.
    pub(crate) fn enqueue(&mut self, id: TaskId)
        ensures
            final(self)@ == old(self)@.enqueue(id),
    {
        self.local_queue.push(id);
    }

    fn settle(&mut self, resumed: Resumed<F>)
        ensures
            final(self)@ == old(self)@.settle(resumed),
    {
        match resumed {
            Resumed::Pending(future) => {
                match self.phase {
                    Phase::Task(t) => {
                        match self.tasks.remove(&t) {
                            None => {
                                proof {
                                    assert(self@.tasks =~= old(self)@.tasks);
                                }
                            },
                            Some(record) => {
                                self.tasks.insert(
                                    t,
                                    Record { refs: record.refs, future: Some(future) },
                                );
                                proof {
                                    assert(self@.tasks =~= old(self)@.settle(resumed).tasks);
                                }
                            },
                        }
                    },
                    _ => {},
                }
            },
            Resumed::Ready => {},
        }
        self.phase = Phase::Root;
    }

    fn drain<O>(&mut self, released: &mut Vec<TaskId>) -> (action: Action<O, F>)
        ensures
            final(self)@ == old(self)@.drain::<O>().state,
            action == old(self)@.drain::<O>().action,
            final(released)@ == old(released)@ + old(self)@.drain::<O>().released,
    {
        let ghost target = self@.drain::<O>();
        let ghost before = released@;
        loop
            invariant
                target == old(self)@.drain::<O>(),
                before == old(released)@,
                self@.drain::<O>().state == target.state,
                self@.drain::<O>().action == target.action,
                released@ + self@.drain::<O>().released == before + target.released,
            decreases self@.queue.len(),
        {
            let ghost here = self@;
            match self.local_queue.pop() {
                None => {
                    self.phase = Phase::Recheck;
                    proof {
                        assert(self@ == here.drain::<O>().state);
                        assert(released@ + Seq::<TaskId>::empty() == released@);
                    }
                    return Action::PollRoot;
                },
                Some(t) => {
                    let ghost popped = self@;
                    if self.is_live(t) {
                        let record = self.tasks.remove(&t).unwrap();
                        let future = record.future.unwrap();
                        self.tasks.insert(t, Record { refs: record.refs, future: None });
                        self.phase = Phase::Task(t);
                        proof {
                            assert(self@.tasks =~= popped.tasks.insert(
                                t,
                                Record { refs: popped.tasks[t].refs, future: None },
                            ));
                            assert(self@ == here.drain::<O>().state);
                            assert(released@ + Seq::<TaskId>::empty() == released@);
                        }
                        return Action::PollTask(t, future);
                    }
                    let ghost so_far = released@;
                    let (gone, _) = self.release(t);
                    if gone {
                        released.push(t);
                    }
                    proof {
                        assert(self@ == popped.release(t));
                        assert(here.drain::<O>().released == popped.freed(t) + self@.drain::<
                            O,
                        >().released);
                        assert(released@ == so_far + popped.freed(t));
                        assert(released@ + self@.drain::<O>().released == so_far + (popped.freed(t)
                            + self@.drain::<O>().released));
                    }
                },
            }
        }
    }

    /// One step of the loop that drives the root computation to its value.
    ///
    /// The driver calls this with `Event::Start`, performs the action that
    /// comes back, reports its outcome, and so on until the action is
    /// `Return`. Beside the action stand the tasks whose storage the step
    /// released, and the computation that left with it, if any.
    pub fn block_on<O>(&mut self, event: Event<O, F>) -> (step: Step<O, F>)
        requires
            old(self)@.wf(),
            old(self)@.accepts(event),
        ensures
            final(self)@.wf(),
            final(self)@ == old(self)@.next(event).state,
            step.action == old(self)@.next(event).action,
            step.released@ == old(self)@.next(event).released,
            step.cancelled == old(self)@.next(event).cancelled,
            step.action is Wait ==> final(self)@.queue.len() == 0,
    {
        proof {
            lemma_next_wf(self@, event);
            law_thread_blocks_only_when_nothing_is_runnable(self@, event);
        }
        let mut released: Vec<TaskId> = Vec::new();
        match event {
            Event::Start => {
                self.phase = Phase::Root;
                Step { action: Action::PollRoot, released, cancelled: None }
            },
            Event::Woken => {
                self.phase = Phase::Root;
                Step { action: Action::PollRoot, released, cancelled: None }
            },
            Event::Root(Poll::Ready(value)) => {
                self.phase = Phase::Idle;
                Step { action: Action::Return(value), released, cancelled: None }
            },
            Event::Root(Poll::Pending) => {
                let rechecked = match self.phase {
                    Phase::Recheck => true,
                    _ => false,
                };
                if rechecked && self.local_queue.is_empty() {
                    self.phase = Phase::Blocked;
                    Step { action: Action::Wait, released, cancelled: None }
                } else {
                    let action = self.drain(&mut released);
                    proof {
                        assert(Seq::<TaskId>::empty() + old(self)@.drain::<O>().released == old(
                            self,
                        )@.drain::<O>().released);
                    }
                    Step { action, released, cancelled: None }
                }
            },
            Event::Task(resumed) => {
                match self.phase {
                    Phase::Task(t) => {
                        self.settle(resumed);
                        let (gone, cancelled) = self.release(t);
                        if gone {
                            released.push(t);
                        }
                        let action = self.drain(&mut released);
                        Step { action, released, cancelled }
                    },
                    _ => vstd::pervasive::unreached(),
                }
            },
        }
    }
}

/// Spawning keeps every handle on live storage.
pub proof fn lemma_spawn_wf<F>(s: ExecutorView<F>, future: F)
    requires
        s.wf(),
        s.next_id < u64::MAX,
    ensures
        s.spawn(future).wf(),
{
    let after = s.spawn(future);
    assert forall|id: TaskId| #[trigger] after.tasks.contains_key(id) implies id < after.next_id
        && after.tasks[id].refs >= 1 && after.tasks[id].refs >= after.held(id) by {
        lemma_occurrences_push(s.queue, s.next_id, id);
        if id == s.next_id {
            if occurrences(s.queue, id) >= 1 {
                let i = lemma_occurrences_witness(s.queue, id);
                assert(s.tasks.contains_key(s.queue[i]));
            }
        } else {
            assert(s.tasks.contains_key(id));
        }
    }
    assert forall|i: int| 0 <= i < after.queue.len() implies after.tasks.contains_key(
        #[trigger] after.queue[i],
    ) by {
        if i < s.queue.len() {
            assert(s.tasks.contains_key(s.queue[i]));
        }
    }
    if s.phase is Task {
        assert(s.tasks.contains_key(s.phase->Task_0));
    }
}

/// Giving up a handle that the scheduler does not itself hold keeps every
/// handle on live storage.
pub proof fn lemma_release_wf<F>(s: ExecutorView<F>, id: TaskId)
    requires
        s.wf(),
        s.wakers(id) >= 1,
    ensures
        s.release(id).wf(),
{
    let after = s.release(id);
    assert forall|other: TaskId| #[trigger] after.tasks.contains_key(other) implies other
        < after.next_id && after.tasks[other].refs >= 1 && after.tasks[other].refs >= after.held(
        other,
    ) by {
        assert(s.tasks.contains_key(other));
    }
    assert forall|i: int| 0 <= i < after.queue.len() implies after.tasks.contains_key(
        #[trigger] after.queue[i],
    ) by {
        assert(s.tasks.contains_key(s.queue[i]));
        if s.queue[i] == id {
            lemma_occurrences_positive(s.queue, i);
        }
    }
    assert(s.tasks.contains_key(id));
}

/// Taking the front entry of the run queue leaves its handle with the loop:
/// every handle is on live storage, and the task of the entry has one that
/// the scheduler no longer holds.
pub proof fn lemma_popped_wf<F>(s: ExecutorView<F>)
    requires
        s.wf(),
        !(s.phase is Task),
        s.queue.len() > 0,
    ensures
        ({
            let popped = ExecutorView {
                queue: s.queue.drop_first(),
                tasks: s.tasks,
                next_id: s.next_id,
                phase: s.phase,
            };
            popped.wf() && popped.wakers(s.queue[0]) >= 1
        }),
{
    let popped = ExecutorView {
        queue: s.queue.drop_first(),
        tasks: s.tasks,
        next_id: s.next_id,
        phase: s.phase,
    };
    assert(s.tasks.contains_key(s.queue[0]));
    assert forall|id: TaskId| #[trigger] popped.tasks.contains_key(id) implies id < popped.next_id
        && popped.tasks[id].refs >= 1 && popped.tasks[id].refs >= popped.held(id) + if id
        == s.queue[0] {
        1nat
    } else {
        0nat
    } by {
        lemma_occurrences_drop_first(s.queue, id);
    }
    assert forall|i: int| 0 <= i < popped.queue.len() implies popped.tasks.contains_key(
        #[trigger] popped.queue[i],
    ) by {
        assert(s.tasks.contains_key(s.queue[i + 1]));
    }
}

/// Draining keeps every handle on live storage.
pub proof fn lemma_drain_wf<O, F>(s: ExecutorView<F>)
    requires
        s.wf(),
        !(s.phase is Task),
    ensures
        s.drain::<O>().state.wf(),
    decreases s.queue.len(),
{
    if s.queue.len() > 0 {
        let t = s.queue[0];
        let popped = ExecutorView {
            queue: s.queue.drop_first(),
            tasks: s.tasks,
            next_id: s.next_id,
            phase: s.phase,
        };
        lemma_popped_wf(s);
        if popped.live(t) {
            let resumed = s.drain::<O>().state;
            assert forall|id: TaskId| #[trigger] resumed.tasks.contains_key(id) implies id
                < resumed.next_id && resumed.tasks[id].refs >= 1 && resumed.tasks[id].refs
                >= resumed.held(id) by {
                assert(popped.tasks.contains_key(id));
            }
            assert forall|i: int| 0 <= i < resumed.queue.len() implies resumed.tasks.contains_key(
                #[trigger] resumed.queue[i],
            ) by {
                assert(popped.tasks.contains_key(popped.queue[i]));
            }
        } else {
            lemma_release_wf(popped, t);
            lemma_drain_wf::<O, F>(popped.release(t));
        }
    }
}

/// When the computation of a task has come back, the loop still has the
/// handle of the task: every handle is on live storage, and the task has one
/// that the scheduler no longer holds.
pub proof fn lemma_settle_wf<F>(s: ExecutorView<F>, resumed: Resumed<F>)
    requires
        s.wf(),
        s.phase is Task,
    ensures
        s.settle(resumed).wf(),
        s.settle(resumed).wakers(s.phase->Task_0) >= 1,
        s.settle(resumed).phase == Phase::Root,
        s.settle(resumed).next_id == s.next_id,
{
    let t = s.phase->Task_0;
    let settled = s.settle(resumed);
    assert(s.tasks.contains_key(t));
    assert forall|id: TaskId| #[trigger] settled.tasks.contains_key(id) implies id
        < settled.next_id && settled.tasks[id].refs >= 1 && settled.tasks[id].refs >= settled.held(
        id,
    ) + if id == t {
        1nat
    } else {
        0nat
    } by {
        assert(s.tasks.contains_key(id));
    }
    assert forall|i: int| 0 <= i < settled.queue.len() implies settled.tasks.contains_key(
        #[trigger] settled.queue[i],
    ) by {
        assert(s.tasks.contains_key(s.queue[i]));
    }
}

/// A step of the loop keeps every handle on live storage.
pub proof fn lemma_next_wf<O, F>(s: ExecutorView<F>, event: Event<O, F>)
    requires
        s.wf(),
        s.accepts(event),
    ensures
        s.next(event).state.wf(),
{
    match event {
        Event::Start | Event::Woken => {
            let after = s.with_phase(Phase::Root);
            assert forall|id: TaskId| #[trigger] after.tasks.contains_key(id) implies id
                < after.next_id && after.tasks[id].refs >= 1 && after.tasks[id].refs >= after.held(
                id,
            ) by {
                assert(s.tasks.contains_key(id));
            }
        },
        Event::Root(Poll::Ready(_)) => {
            let after = s.with_phase(Phase::Idle);
            assert forall|id: TaskId| #[trigger] after.tasks.contains_key(id) implies id
                < after.next_id && after.tasks[id].refs >= 1 && after.tasks[id].refs >= after.held(
                id,
            ) by {
                assert(s.tasks.contains_key(id));
            }
        },
        Event::Root(Poll::Pending) => {
            if s.nothing_runnable() {
                let after = s.with_phase(Phase::Blocked);
                assert forall|id: TaskId| #[trigger] after.tasks.contains_key(id) implies id
                    < after.next_id && after.tasks[id].refs >= 1 && after.tasks[id].refs
                    >= after.held(id) by {
                    assert(s.tasks.contains_key(id));
                }
            } else {
                lemma_drain_wf::<O, F>(s);
            }
        },
        Event::Task(resumed) => {
            let t = s.phase->Task_0;
            lemma_settle_wf(s, resumed);
            lemma_release_wf(s.settle(resumed), t);
            lemma_drain_wf::<O, F>(s.settle(resumed).release(t));
        },
    }
}

/// What draining leads to: a task to resume, or the root computation with
/// the run queue empty. It never leads to blocking.
pub proof fn lemma_drain_ends<O, F>(s: ExecutorView<F>)
    ensures
        s.drain::<O>().action is PollTask || (s.drain::<O>().action is PollRoot && s.drain::<
            O,
        >().state.nothing_runnable()),
    decreases s.queue.len(),
{
    if s.queue.len() > 0 {
        let t = s.queue[0];
        let popped = ExecutorView {
            queue: s.queue.drop_first(),
            tasks: s.tasks,
            next_id: s.next_id,
            phase: s.phase,
        };
        if !popped.live(t) {
            lemma_drain_ends::<O, F>(popped.release(t));
        }
    }
}

/// The thread blocks only when nothing is runnable: a step answers with
/// `Wait` only for a pending root computation that was resumed on an empty
/// run queue and has left that queue empty. Every other step of a pending
/// root computation drains the queue.
pub proof fn law_thread_blocks_only_when_nothing_is_runnable<O, F>(s: ExecutorView<F>, event: Event<O, F>)
    requires
        s.accepts(event),
    ensures
        s.next(event).action is Wait <==> event == Event::<O, F>::Root(Poll::Pending) && s.nothing_runnable(),
        s.next(event).action is Wait ==> s.next(event).state.queue.len() == 0 && s.next(
            event,
        ).state.phase is Blocked,
{
    match event {
        Event::Root(Poll::Pending) => {
            if !s.nothing_runnable() {
                lemma_drain_ends::<O, F>(s);
            }
        },
        Event::Task(resumed) => {
            lemma_drain_ends::<O, F>(s.settle(resumed).release(s.phase->Task_0));
        },
        _ => {},
    }
}

} // verus!
