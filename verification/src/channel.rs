//! The executor that is fed through a bounded queue.
//!
//! A spawner puts tasks into the queue and a waker puts them back; the
//! executor takes them out one after the other. Each task keeps its
//! computation in a slot. To resume a task the executor takes the
//! computation out of the slot, and puts it back only if it is still
//! pending, so that a task that has finished is found with an empty slot
//! and is passed over. The loop ends when the queue is empty and nobody is
//! left who could fill it.
use crate::queue::{TaskId, TaskQueue};
use std::collections::HashMap;
use vstd::prelude::*;

verus! {

broadcast use vstd::std_specs::hash::group_hash_axioms;

/// The number of entries that the queue holds at most.
pub const MAX_QUEUED_TASKS: usize = 10_000;

/// A task: the slot of its computation.
#[derive(Debug)]
pub struct Task<F> {
    /// The computation, unless it is being resumed or has finished.
    pub future: Option<F>,
}

impl<F> Task<F> {
    /// A task with the given slot.
    pub fn new(future: Option<F>) -> (task: Task<F>)
        ensures
            task.future == future,
    {
        Task { future }
    }
}

/// What the driver reports to `run`.
#[derive(Debug)]
pub enum Ran<F> {
    /// The loop has been entered, or a task has arrived while it was idle.
    Nothing,
    /// The computation handed out by the last turn was resumed and is still
    /// pending: here it is again.
    Pending(F),
    /// The computation handed out by the last turn was resumed and has
    /// finished.
    Ready,
}

/// What the driver is to do next.
#[derive(Debug)]
pub enum Turn<F> {
    /// Resume this computation, which belongs to the named task, with a
    /// context whose waker is bound to that task.
    Poll(TaskId, F),
    /// The queue is empty and somebody can still fill it: wait for a task.
    Wait,
    /// The queue is empty and nobody can fill it any more: end the loop.
    Stop,
}

/// The state of the executor.
pub struct ExecutorView<F> {
    /// The queue, oldest entry first.
    pub queue: Seq<TaskId>,
    /// Every task that was spawned.
    pub tasks: Map<TaskId, Task<F>>,
    /// The identity that the next spawned task gets.
    pub next_id: TaskId,
    /// The task whose computation the driver is resuming, if any.
    pub running: Option<TaskId>,
    /// The number of holders of the sending end: the spawner, until it is
    /// closed, and the wakers.
    pub senders: usize,
}

/// A state and the turn that leads to it.
pub struct Turned<F> {
    /// The state after the turn.
    pub state: ExecutorView<F>,
    /// What the driver is to do next.
    pub turn: Turn<F>,
}

impl<F> ExecutorView<F> {
    /// The queue is within its bound and names spawned tasks only; the tasks
    /// are those with an identity below the next one; and the slot of the
    /// task that is being resumed is empty.
    pub open spec fn wf(self) -> bool {
        &&& self.queue.len() <= MAX_QUEUED_TASKS
        &&& forall|id: TaskId| #[trigger] self.tasks.contains_key(id) <==> id < self.next_id
        &&& forall|i: int|
            0 <= i < self.queue.len() ==> self.tasks.contains_key(#[trigger] self.queue[i])
        &&& self.running matches Some(t) ==> self.tasks.contains_key(t) && self.tasks[t].future
            is None
    }

    /// Whether the queue has room for another entry.
    pub open spec fn has_room(self) -> bool {
        self.queue.len() < MAX_QUEUED_TASKS
    }

    /// Whether the task has finished: it was spawned, its slot is empty, and
    /// its computation is not with the driver.
    pub open spec fn finished(self, id: TaskId) -> bool {
        self.tasks.contains_key(id) && self.tasks[id].future is None && self.running != Some(id)
    }

    /// The state after a task with the computation `future` was spawned.
    pub open spec fn spawn(self, future: F) -> ExecutorView<F> {
        ExecutorView {
            queue: self.queue.push(self.next_id),
            tasks: self.tasks.insert(self.next_id, Task { future: Some(future) }),
            next_id: (self.next_id + 1) as TaskId,
            running: self.running,
            senders: self.senders,
        }
    }

    /// The state after `id` was woken.
    pub open spec fn wake(self, id: TaskId) -> ExecutorView<F> {
        ExecutorView {
            queue: self.queue.push(id),
            tasks: self.tasks,
            next_id: self.next_id,
            running: self.running,
            senders: self.senders,
        }
    }

    /// The state after the computation that was with the driver has come
    /// back: a pending one returns to its slot, a finished one leaves the
    /// slot empty.
    pub open spec fn settle(self, ran: Ran<F>) -> ExecutorView<F> {
        match (ran, self.running) {
            (Ran::Pending(future), Some(t)) => ExecutorView {
                queue: self.queue,
                tasks: self.tasks.insert(t, Task { future: Some(future) }),
                next_id: self.next_id,
                running: None,
                senders: self.senders,
            },
            _ => ExecutorView {
                queue: self.queue,
                tasks: self.tasks,
                next_id: self.next_id,
                running: None,
                senders: self.senders,
            },
        }
    }

    /// Takes entries from the front of the queue until one names a task
    /// whose slot is full; the computation leaves the slot and goes to the
    /// driver. Entries of tasks with an empty slot are passed over. When the
    /// queue runs empty the loop waits, unless no sender is left.
    pub open spec fn receive(self) -> Turned<F>
        decreases self.queue.len(),
    {
        if self.queue.len() == 0 {
            Turned {
                state: self,
                turn: if self.senders == 0 {
                    Turn::Stop
                } else {
                    Turn::Wait
                },
            }
        } else {
            let t = self.queue[0];
            let rest = self.queue.drop_first();
            if self.tasks.contains_key(t) && self.tasks[t].future is Some {
                Turned {
                    state: ExecutorView {
                        queue: rest,
                        tasks: self.tasks.insert(t, Task { future: None }),
                        next_id: self.next_id,
                        running: Some(t),
                        senders: self.senders,
                    },
                    turn: Turn::Poll(t, self.tasks[t].future->Some_0),
                }
            } else {
                ExecutorView {
                    queue: rest,
                    tasks: self.tasks,
                    next_id: self.next_id,
                    running: self.running,
                    senders: self.senders,
                }.receive()
            }
        }
    }

    /// The same state with another number of senders.
    pub open spec fn with_senders(self, senders: usize) -> ExecutorView<F> {
        ExecutorView {
            queue: self.queue,
            tasks: self.tasks,
            next_id: self.next_id,
            running: self.running,
            senders,
        }
    }

    /// Whether `ran` is what the loop waits for in this state.
    pub open spec fn accepts(self, ran: Ran<F>) -> bool {
        match ran {
            Ran::Nothing => self.running is None,
            _ => self.running is Some,
        }
    }

    /// One turn of the loop.
    pub open spec fn next(self, ran: Ran<F>) -> Turned<F> {
        self.settle(ran).receive()
    }
}

/// The receiving end: the queue, and the tasks with their slots.
pub struct Executor<F> {
    queue: TaskQueue,
    tasks: HashMap<TaskId, Task<F>>,
    next_id: TaskId,
    running: Option<TaskId>,
    senders: usize,
}

/// The sending end: the right to spawn tasks on an executor.
#[derive(Debug)]
pub struct Spawner {}

impl<F> View for Executor<F> {
    type V = ExecutorView<F>;

    closed spec fn view(&self) -> ExecutorView<F> {
        ExecutorView {
            queue: self.queue@,
            tasks: self.tasks@,
            next_id: self.next_id,
            running: self.running,
            senders: self.senders,
        }
    }
}

/// An executor without tasks, and the spawner that feeds it.
pub fn new_exector_and_spawner<F>() -> (made: (Executor<F>, Spawner))
    ensures
        made.0@.wf(),
        made.0@.queue == Seq::<TaskId>::empty(),
        made.0@.tasks == Map::<TaskId, Task<F>>::empty(),
        made.0@.next_id == 0,
        made.0@.running is None,
        made.0@.senders == 1,
{
    (
        Executor {
            queue: TaskQueue::new(),
            tasks: HashMap::new(),
            next_id: 0,
            running: None,
            senders: 1,
        },
        Spawner {  },
    )
}

impl Spawner {
    /// Spawns a task with the computation `future` on `ex` and returns its
    /// identity. If the queue is full, or no identity is left, nothing
    /// changes and the computation comes back.
    pub fn spawn<F>(&self, ex: &mut Executor<F>, future: F) -> (outcome: Result<TaskId, F>)
        requires
            old(ex)@.wf(),
        ensures
            final(ex)@.wf(),
            match outcome {
                Ok(id) => old(ex)@.has_room() && old(ex)@.next_id < u64::MAX && id == old(
                    ex,
                )@.next_id && final(ex)@ == old(ex)@.spawn(future),
                Err(back) => !(old(ex)@.has_room() && old(ex)@.next_id < u64::MAX) && back == future
                    && final(ex)@ == old(ex)@,
            },
    {
        if ex.queue.len() >= MAX_QUEUED_TASKS || ex.next_id == u64::MAX {
            return Err(future);
        }
        let id = ex.next_id;
        proof {
            lemma_spawn_wf(ex@, future);
        }
        ex.tasks.insert(id, Task::new(Some(future)));
        ex.queue.push(id);
        ex.next_id = id + 1;
        Ok(id)
    }

    /// Gives the right to spawn up: the executor has one sender less.
    pub fn close<F>(self, ex: &mut Executor<F>)
        requires
            old(ex)@.wf(),
            old(ex)@.senders > 0,
        ensures
            final(ex)@.wf(),
            final(ex)@ == old(ex)@.with_senders((old(ex)@.senders - 1) as usize),
    {
        ex.senders = ex.senders - 1;
    }
}

impl<F> Executor<F> {
    /// The number of queued entries.
    pub fn queued(&self) -> (n: usize)
        ensures
            n == self@.queue.len(),
    {
        self.queue.len()
    }

    /// The number of holders of the sending end.
    pub fn senders(&self) -> (n: usize)
        ensures
            n == self@.senders,
    {
        self.senders
    }

    /// A waker was made for a task: the executor has one sender more.
    pub fn connect(&mut self)
        requires
            old(self)@.wf(),
            old(self)@.senders < usize::MAX,
        ensures
            final(self)@.wf(),
            final(self)@ == old(self)@.with_senders((old(self)@.senders + 1) as usize),
    {
        self.senders = self.senders + 1;
    }

    /// The last copy of a waker was dropped: the executor has one sender
    /// less.
    pub fn disconnect(&mut self)
        requires
            old(self)@.wf(),
            old(self)@.senders > 0,
        ensures
            final(self)@.wf(),
            final(self)@ == old(self)@.with_senders((old(self)@.senders - 1) as usize),
    {
        self.senders = self.senders - 1;
    }

    /// Whether `ran` is what the loop waits for.
    pub fn accepts(&self, ran: &Ran<F>) -> (accepted: bool)
        ensures
            accepted == self@.accepts(*ran),
    {
        match ran {
            Ran::Nothing => self.running.is_none(),
            _ => self.running.is_some(),
        }
    }

    /// Whether the task `id` was spawned.
    pub fn contains(&self, id: TaskId) -> (known: bool)
        ensures
            known == self@.tasks.contains_key(id),
    {
        self.tasks.contains_key(&id)
    }

    /// Whether the task `id` has finished.
    pub fn is_finished(&self, id: TaskId) -> (finished: bool)
        ensures
            finished == self@.finished(id),
    {
        let running = match self.running {
            Some(t) => t == id,
            None => false,
        };
        match self.tasks.get(&id) {
            Some(task) => task.future.is_none() && !running,
            None => false,
        }
    }

    /// Wakes the task `id`: it joins the queue, behind every entry that is
    /// already there. If the queue is full nothing changes, and the answer
    /// is `false`.
    pub fn wake_by_ref(&mut self, id: TaskId) -> (sent: bool)
        requires
            old(self)@.wf(),
            old(self)@.tasks.contains_key(id),
        ensures
            final(self)@.wf(),
            sent == old(self)@.has_room(),
            sent ==> final(self)@ == old(self)@.wake(id),
            !sent ==> final(self)@ == old(self)@,
    {
        if self.queue.len() >= MAX_QUEUED_TASKS {
            return false;
        }
        proof {
            lemma_wake_wf(self@, id);
        }
        self.queue.push(id);
        true
    }

    fn settle(&mut self, ran: Ran<F>)
        ensures
            final(self)@ == old(self)@.settle(ran),
    {
        match ran {
            Ran::Pending(future) => {
                match self.running {
                    Some(t) => {
                        self.tasks.insert(t, Task::new(Some(future)));
                    },
                    None => {},
                }
            },
            _ => {},
        }
        self.running = None;
    }

    fn receive(&mut self) -> (turn: Turn<F>)
        ensures
            final(self)@ == old(self)@.receive().state,
            turn == old(self)@.receive().turn,
    {
        let ghost target = self@.receive();
        loop
            invariant
                target == old(self)@.receive(),
                self@.receive() == target,
            decreases self@.queue.len(),
        {
            let ghost here = self@;
            match self.queue.pop() {
                None => {
                    if self.senders == 0 {
                        return Turn::Stop;
                    }
                    return Turn::Wait;
                },
                Some(t) => {
                    match self.tasks.remove(&t) {
                        None => {
                            assert(self@.tasks =~= here.tasks);
                        },
                        Some(task) => {
                            match task.future {
                                Some(future) => {
                                    self.tasks.insert(t, Task::new(None));
                                    self.running = Some(t);
                                    proof {
                                        assert(self@.tasks =~= here.tasks.insert(
                                            t,
                                            Task { future: None },
                                        ));
                                        assert(self@ == here.receive().state);
                                    }
                                    return Turn::Poll(t, future);
                                },
                                None => {
                                    self.tasks.insert(t, Task::new(None));
                                    assert(self@.tasks =~= here.tasks);
                                },
                            }
                        },
                    }
                },
            }
        }
    }

    /// One turn of the loop that resumes the queued tasks.
    ///
    /// The driver calls this with `Ran::Nothing`, resumes the computation
    /// that comes back, reports how that went, and so on. When the queue is
    /// empty the answer is `Wait`, or `Stop` if no sender is left.
    pub fn run(&mut self, ran: Ran<F>) -> (turn: Turn<F>)
        requires
            old(self)@.wf(),
            old(self)@.accepts(ran),
        ensures
            final(self)@.wf(),
            final(self)@ == old(self)@.next(ran).state,
            turn == old(self)@.next(ran).turn,
    {
        proof {
            lemma_next_wf(self@, ran);
        }
        self.settle(ran);
        self.receive()
    }
}

/// Spawning into a queue with room keeps the state well formed.
pub proof fn lemma_spawn_wf<F>(s: ExecutorView<F>, future: F)
    requires
        s.wf(),
        s.has_room(),
        s.next_id < u64::MAX,
    ensures
        s.spawn(future).wf(),
{
    let after = s.spawn(future);
    assert forall|id: TaskId| #[trigger] after.tasks.contains_key(id) <==> id < after.next_id by {
        assert(s.tasks.contains_key(id) <==> id < s.next_id);
    }
    assert forall|i: int| 0 <= i < after.queue.len() implies after.tasks.contains_key(
        #[trigger] after.queue[i],
    ) by {
        if i < s.queue.len() {
            assert(s.tasks.contains_key(s.queue[i]));
        }
    }
    assert(!s.tasks.contains_key(s.next_id));
}

/// Waking into a queue with room keeps the state well formed.
pub proof fn lemma_wake_wf<F>(s: ExecutorView<F>, id: TaskId)
    requires
        s.wf(),
        s.has_room(),
        s.tasks.contains_key(id),
    ensures
        s.wake(id).wf(),
{
    let after = s.wake(id);
    assert forall|i: int| 0 <= i < after.queue.len() implies after.tasks.contains_key(
        #[trigger] after.queue[i],
    ) by {
        if i < s.queue.len() {
            assert(s.tasks.contains_key(s.queue[i]));
        }
    }
}

/// What receiving does: the state stays well formed; a computation goes to
/// the driver only from the full slot of its task; a task whose slot is
/// empty is not resumed and its slot stays empty.
pub proof fn lemma_receive<F>(s: ExecutorView<F>, id: TaskId)
    requires
        s.wf(),
        s.running is None,
    ensures
        s.receive().state.wf(),
        s.receive().state.next_id == s.next_id,
        s.receive().turn matches Turn::Poll(t, future) ==> s.tasks.contains_key(t)
            && s.tasks[t].future == Some(future) && s.receive().state.running == Some(t),
        s.receive().state.senders == s.senders,
        !(s.receive().turn is Poll) ==> s.receive().state.running is None
            && s.receive().state.queue.len() == 0 && (s.receive().turn is Stop <==> s.senders
            == 0),
        s.finished(id) ==> s.receive().state.finished(id) && !(s.receive().turn matches Turn::Poll(
            t,
            _,
        ) && t == id),
    decreases s.queue.len(),
{
    if s.queue.len() > 0 {
        let t = s.queue[0];
        let rest = s.queue.drop_first();
        assert(s.tasks.contains_key(s.queue[0]));
        if s.tasks[t].future is Some {
            let after = s.receive().state;
            assert forall|other: TaskId| #[trigger] after.tasks.contains_key(other) <==> other
                < after.next_id by {
                assert(s.tasks.contains_key(other) <==> other < s.next_id);
            }
            assert forall|i: int| 0 <= i < after.queue.len() implies after.tasks.contains_key(
                #[trigger] after.queue[i],
            ) by {
                assert(s.tasks.contains_key(s.queue[i + 1]));
            }
        } else {
            let popped = ExecutorView {
                queue: rest,
                tasks: s.tasks,
                next_id: s.next_id,
                running: s.running,
                senders: s.senders,
            };
            assert forall|i: int| 0 <= i < popped.queue.len() implies popped.tasks.contains_key(
                #[trigger] popped.queue[i],
            ) by {
                assert(s.tasks.contains_key(s.queue[i + 1]));
            }
            lemma_receive(popped, id);
        }
    }
}

/// A turn of the loop keeps the state well formed.
pub proof fn lemma_next_wf<F>(s: ExecutorView<F>, ran: Ran<F>)
    requires
        s.wf(),
        s.accepts(ran),
    ensures
        s.next(ran).state.wf(),
{
    lemma_settle(s, ran, 0);
    lemma_receive(s.settle(ran), 0);
}

/// What taking a computation back does: the state stays well formed, and a
/// task that has finished stays so.
pub proof fn lemma_settle<F>(s: ExecutorView<F>, ran: Ran<F>, id: TaskId)
    requires
        s.wf(),
        s.accepts(ran),
    ensures
        s.settle(ran).wf(),
        s.settle(ran).running is None,
        s.finished(id) ==> s.settle(ran).finished(id),
        ran is Ready ==> s.settle(ran).finished(s.running->Some_0),
{
    let after = s.settle(ran);
    assert forall|other: TaskId| #[trigger] after.tasks.contains_key(other) <==> other
        < after.next_id by {
        assert(s.tasks.contains_key(other) <==> other < s.next_id);
    }
    assert forall|i: int| 0 <= i < after.queue.len() implies after.tasks.contains_key(
        #[trigger] after.queue[i],
    ) by {
        assert(s.tasks.contains_key(s.queue[i]));
    }
}

/// A task that has finished is never resumed again: no turn of the loop
/// hands its computation to the driver, no wake and no spawn fills its slot,
/// and it stays finished.
pub proof fn law_finished_task_is_passed_over<F>(
    s: ExecutorView<F>,
    ran: Ran<F>,
    id: TaskId,
    woken: TaskId,
    future: F,
)
    requires
        s.wf(),
        s.finished(id),
    ensures
        s.accepts(ran) ==> s.next(ran).state.finished(id) && !(s.next(ran).turn matches Turn::Poll(
            t,
            _,
        ) && t == id),
        s.wake(woken).finished(id),
        s.spawn(future).finished(id),
{
    if s.accepts(ran) {
        lemma_settle(s, ran, id);
        lemma_receive(s.settle(ran), id);
    }
}

/// The loop ends exactly when the queue holds nothing to resume and no sender
/// is left; while a sender is left it waits.
pub proof fn law_loop_ends_without_senders<F>(s: ExecutorView<F>, ran: Ran<F>)
    requires
        s.wf(),
        s.accepts(ran),
    ensures
        s.next(ran).turn is Stop ==> s.senders == 0 && s.next(ran).state.queue.len() == 0,
        s.next(ran).turn is Wait ==> s.senders > 0 && s.next(ran).state.queue.len() == 0,
        s.next(ran).state.senders == s.senders,
{
    lemma_settle(s, ran, 0);
    lemma_receive(s.settle(ran), 0);
}

/// A computation that the driver reports ready leaves its task finished.
pub proof fn law_ready_task_is_finished<F>(s: ExecutorView<F>)
    requires
        s.wf(),
        s.running is Some,
    ensures
        s.next(Ran::Ready).state.finished(s.running->Some_0),
{
    lemma_settle(s, Ran::Ready, s.running->Some_0);
    lemma_receive(s.settle(Ran::Ready), s.running->Some_0);
}

} // verus!
