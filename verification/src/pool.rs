//! The work-queue executor: one queue of runnable tasks that any number of
//! workers take from.
//!
//! The pool is the discipline of that executor under one lock. A worker
//! takes a task from the queue, begins to run it, which gives it the
//! computation of the task, resumes the computation, and ends the run; a
//! waker may wake the task at any point in between. The state word of the
//! task decides who puts it into the queue, and the pool shows that whatever
//! the interleaving, a task is in the queue at most once, is run by one
//! worker at a time, a wake is never lost, and every result reaches its join
//! handle once.
use crate::queue::{
    lemma_occurrences_drop_first, lemma_occurrences_positive, lemma_occurrences_push,
    lemma_occurrences_witness, occurrences, TaskId, TaskQueue,
};
use crate::task::{lemma_state_words, suspend_requeues, suspended, wake_enqueues, woken, RUNNING, WOKEN};
use std::collections::HashMap;
use vstd::prelude::*;

verus! {

broadcast use vstd::std_specs::hash::group_hash_axioms;

/// What the pool keeps for a task.
#[derive(Debug, Clone, Copy, PartialEq, Eq)]
pub struct Entry {
    /// The state word of the task.
    pub state: usize,
    /// Whether a worker holds the task: it took it from the queue and has
    /// not ended its run yet.
    pub held: bool,
    /// Whether the task has been resumed at least once, so that wakers of it
    /// exist.
    pub started: bool,
    /// Whether the task has returned its value.
    pub done: bool,
}

/// The right to the result of one spawned computation. It is used up by the
/// join that obtains the result.
#[derive(Debug)]
pub struct JoinHandle {
    id: TaskId,
}

impl JoinHandle {
    /// The task whose result the handle stands for.
    pub closed spec fn id(&self) -> TaskId {
        self.id
    }

    /// The task whose result the handle stands for.
    pub fn task(&self) -> (id: TaskId)
        ensures
            id == self.id(),
    {
        self.id
    }
}

/// How a run ended.
#[derive(Debug, PartialEq, Eq)]
pub enum Ended<F, R> {
    /// The computation is still pending: here it is again.
    Pending(F),
    /// The computation has finished with this value.
    Ready(R),
}

/// The state of a pool.
pub struct PoolView<F, R> {
    /// The queue of runnable tasks, oldest entry first.
    pub queue: Seq<TaskId>,
    /// Every task that was spawned.
    pub tasks: Map<TaskId, Entry>,
    /// The computations of the tasks that no worker is running and that
    /// have not finished.
    pub futures: Map<TaskId, F>,
    /// The results that wait for their join handle.
    pub results: Map<TaskId, R>,
    /// The identity that the next spawned task gets, which is the number of
    /// tasks spawned so far.
    pub next_id: TaskId,
}

/// The places in which a task can be, given how often it stands in the queue.
pub open spec fn settled(e: Entry, queued: nat) -> bool {
    let running = e.state == RUNNING || e.state == WOKEN | RUNNING;
    ||| e.state == 0 && !e.started && !e.done && !e.held && queued == 1
    ||| e.state == 0 && !e.started && !e.done && e.held && queued == 0
    ||| running && e.started && !e.done && e.held && queued == 0
    ||| e.state == 0 && e.started && !e.done && !e.held && queued == 0
    ||| e.state == WOKEN && e.started && !e.done && !e.held && queued == 1
    ||| e.state == WOKEN && e.started && !e.done && e.held && queued == 0
    ||| running && e.started && e.done && !e.held && queued == 0
}

impl<F, R> PoolView<F, R> {
    /// The tasks are those with an identity below the next one; each is in
    /// one of its places; the queue names tasks only; a result waits only
    /// for a task that has finished; and the pool holds the computation of
    /// a task exactly while no worker runs the task and it has not finished.
    pub open spec fn wf(self) -> bool {
        &&& forall|id: TaskId| #[trigger] self.tasks.contains_key(id) <==> id < self.next_id
        &&& forall|id: TaskId| #[trigger]
            self.tasks.contains_key(id) ==> settled(self.tasks[id], occurrences(self.queue, id))
        &&& forall|i: int|
            0 <= i < self.queue.len() ==> self.tasks.contains_key(#[trigger] self.queue[i])
        &&& forall|id: TaskId| #[trigger]
            self.results.contains_key(id) ==> self.tasks.contains_key(id) && self.tasks[id].done
        &&& forall|id: TaskId| #[trigger]
            self.futures.contains_key(id) <==> self.tasks.contains_key(id) && (self.tasks[id].state
                == 0 || self.tasks[id].state == WOKEN)
    }

    /// Whether no task is queued and no worker holds one.
    pub open spec fn quiescent(self) -> bool {
        self.queue.len() == 0 && forall|id: TaskId| #[trigger]
            self.tasks.contains_key(id) ==> !self.tasks[id].held
    }

    /// The state with the entry of `id` replaced.
    pub open spec fn with_entry(self, id: TaskId, e: Entry) -> PoolView<F, R> {
        PoolView {
            queue: self.queue,
            tasks: self.tasks.insert(id, e),
            futures: self.futures,
            results: self.results,
            next_id: self.next_id,
        }
    }

    /// The state with `id` appended to the queue.
    pub open spec fn enqueue(self, id: TaskId) -> PoolView<F, R> {
        PoolView {
            queue: self.queue.push(id),
            tasks: self.tasks,
            futures: self.futures,
            results: self.results,
            next_id: self.next_id,
        }
    }

    /// The same state with other computations.
    pub open spec fn with_futures(self, futures: Map<TaskId, F>) -> PoolView<F, R> {
        PoolView {
            queue: self.queue,
            tasks: self.tasks,
            futures,
            results: self.results,
            next_id: self.next_id,
        }
    }

    /// The state after a task with the computation `future` was spawned: it
    /// is idle, never resumed, and last in the queue.
    pub open spec fn spawn(self, future: F) -> PoolView<F, R> {
        self.with_entry(
            self.next_id,
            Entry { state: 0, held: false, started: false, done: false },
        ).with_futures(self.futures.insert(self.next_id, future)).enqueue(
            self.next_id,
        ).with_next_id((self.next_id + 1) as TaskId)
    }

    /// The same state with another next identity.
    pub open spec fn with_next_id(self, next_id: TaskId) -> PoolView<F, R> {
        PoolView {
            queue: self.queue,
            tasks: self.tasks,
            futures: self.futures,
            results: self.results,
            next_id,
        }
    }

    /// Whether `id` may be woken: it has been resumed before, so that a
    /// waker of it exists.
    pub open spec fn wakeable(self, id: TaskId) -> bool {
        self.tasks.contains_key(id) && self.tasks[id].started
    }

    /// The state after `id` was woken: its word is marked, and it joins the
    /// queue if the word says so.
    pub open spec fn wake(self, id: TaskId) -> PoolView<F, R> {
        let e = self.tasks[id];
        let marked = self.with_entry(
            id,
            Entry { state: woken(e.state), held: e.held, started: e.started, done: e.done },
        );
        if wake_enqueues(e.state) {
            marked.enqueue(id)
        } else {
            marked
        }
    }

    /// The task that a worker takes next, if the queue holds one.
    pub open spec fn front(self) -> Option<TaskId> {
        if self.queue.len() > 0 {
            Some(self.queue[0])
        } else {
            None
        }
    }

    /// The state after a worker took the front task.
    pub open spec fn take(self) -> PoolView<F, R> {
        if self.queue.len() > 0 {
            let id = self.queue[0];
            let e = self.tasks[id];
            PoolView {
                queue: self.queue.drop_first(),
                tasks: self.tasks.insert(
                    id,
                    Entry { state: e.state, held: true, started: e.started, done: e.done },
                ),
                futures: self.futures,
                results: self.results,
                next_id: self.next_id,
            }
        } else {
            self
        }
    }

    /// Whether a worker may begin to run `id`: it holds the task and has not
    /// begun yet.
    pub open spec fn startable(self, id: TaskId) -> bool {
        self.tasks.contains_key(id) && self.tasks[id].held && (self.tasks[id].state == 0
            || self.tasks[id].state == WOKEN)
    }

    /// The state after a worker began to run `id`: the computation of the
    /// task has left the pool and is with the worker.
    pub open spec fn start(self, id: TaskId) -> PoolView<F, R> {
        self.with_entry(
            id,
            Entry { state: RUNNING, held: true, started: true, done: false },
        ).with_futures(self.futures.remove(id))
    }

    /// Whether a worker is running `id`.
    pub open spec fn running(self, id: TaskId) -> bool {
        self.tasks.contains_key(id) && self.tasks[id].held && !self.tasks[id].done && (
        self.tasks[id].state == RUNNING || self.tasks[id].state == WOKEN | RUNNING)
    }

    /// The state after the run of `id` ended with `ended`. A pending task
    /// is let go with its computation back in the pool, and put back into
    /// the queue if it was woken during the run; the value of a finished one
    /// waits for its join handle.
    pub open spec fn finish(self, id: TaskId, ended: Ended<F, R>) -> PoolView<F, R> {
        let e = self.tasks[id];
        match ended {
            Ended::Pending(future) => {
                let let_go = self.with_entry(
                    id,
                    Entry { state: suspended(e.state), held: false, started: true, done: false },
                ).with_futures(self.futures.insert(id, future));
                if suspend_requeues(e.state) {
                    let_go.enqueue(id)
                } else {
                    let_go
                }
            },
            Ended::Ready(value) => PoolView {
                queue: self.queue,
                tasks: self.tasks.insert(
                    id,
                    Entry { state: e.state, held: false, started: true, done: true },
                ),
                futures: self.futures,
                results: self.results.insert(id, value),
                next_id: self.next_id,
            },
        }
    }

    /// The state after the result of `id` was handed to its join handle.
    pub open spec fn join(self, id: TaskId) -> PoolView<F, R> {
        PoolView {
            queue: self.queue,
            tasks: self.tasks,
            futures: self.futures,
            results: self.results.remove(id),
            next_id: self.next_id,
        }
    }
}

/// The work-queue executor under one lock.
pub struct Pool<F, R> {
    queue: TaskQueue,
    tasks: HashMap<TaskId, Entry>,
    futures: HashMap<TaskId, F>,
    results: HashMap<TaskId, R>,
    next_id: TaskId,
}

impl<F, R> View for Pool<F, R> {
    type V = PoolView<F, R>;

    closed spec fn view(&self) -> PoolView<F, R> {
        PoolView {
            queue: self.queue@,
            tasks: self.tasks@,
            futures: self.futures@,
            results: self.results@,
            next_id: self.next_id,
        }
    }
}

impl<F, R> Pool<F, R> {
    /// A pool without tasks.
    pub fn new() -> (pool: Pool<F, R>)
        ensures
            pool@.wf(),
            pool@.next_id == 0,
            pool@.queue == Seq::<TaskId>::empty(),
            pool@.tasks == Map::<TaskId, Entry>::empty(),
            pool@.futures == Map::<TaskId, F>::empty(),
            pool@.results == Map::<TaskId, R>::empty(),
    {
        Pool {
            queue: TaskQueue::new(),
            tasks: HashMap::new(),
            futures: HashMap::new(),
            results: HashMap::new(),
            next_id: 0,
        }
    }

    /// The number of tasks spawned so far.
    pub fn spawned(&self) -> (n: TaskId)
        ensures
            n == self@.next_id,
    {
        self.next_id
    }

    /// The number of queued tasks.
    pub fn queued(&self) -> (n: usize)
        ensures
            n == self@.queue.len(),
    {
        self.queue.len()
    }

    /// The entry of `id`, if the task was spawned.
    pub fn entry(&self, id: TaskId) -> (entry: Option<Entry>)
        ensures
            entry == if self@.tasks.contains_key(id) {
                Some(self@.tasks[id])
            } else {
                None
            },
    {
        match self.tasks.get(&id) {
            Some(e) => Some(*e),
            None => None,
        }
    }

    /// Spawns the computation `future`: its task joins the queue, and the
    /// handle that comes back is the right to its result.
    pub fn spawn(&mut self, future: F) -> (handle: JoinHandle)
        requires
            old(self)@.wf(),
            old(self)@.next_id < u64::MAX,
        ensures
            final(self)@.wf(),
            final(self)@ == old(self)@.spawn(future),
            handle.id() == old(self)@.next_id,
    {
        proof {
            lemma_spawn_wf(self@, future);
        }
        let id = self.next_id;
        self.tasks.insert(id, Entry { state: 0, held: false, started: false, done: false });
        self.futures.insert(id, future);
        self.queue.push(id);
        self.next_id = id + 1;
        JoinHandle { id }
    }

    /// Wakes `id` and says whether the wake put it into the queue.
    pub fn wake(&mut self, id: TaskId) -> (enqueued: bool)
        requires
            old(self)@.wf(),
            old(self)@.wakeable(id),
        ensures
            final(self)@.wf(),
            final(self)@ == old(self)@.wake(id),
            enqueued == wake_enqueues(old(self)@.tasks[id].state),
            final(self)@.running(id) == old(self)@.running(id),
            final(self)@.startable(id) == old(self)@.startable(id),
    {
        proof {
            lemma_wake_wf(self@, id);
            lemma_state_words();
            assert(settled(self@.tasks[id], occurrences(self@.queue, id)));
        }
        let e = self.entry(id).unwrap();
        self.tasks.insert(
            id,
            Entry { state: e.state | WOKEN, held: e.held, started: e.started, done: e.done },
        );
        let enqueue = crate::task::on_wake(e.state);
        if enqueue {
            self.queue.push(id);
        }
        enqueue
    }

    /// A worker takes the task that has waited longest, if there is one.
    pub fn take(&mut self) -> (taken: Option<TaskId>)
        requires
            old(self)@.wf(),
        ensures
            final(self)@.wf(),
            final(self)@ == old(self)@.take(),
            taken == old(self)@.front(),
            taken matches Some(id) ==> final(self)@.startable(id),
    {
        proof {
            lemma_take_wf(self@);
        }
        match self.queue.pop() {
            None => None,
            Some(id) => {
                proof {
                    assert(old(self)@.tasks.contains_key(old(self)@.queue[0]));
                }
                let e = self.entry(id).unwrap();
                self.tasks.insert(
                    id,
                    Entry { state: e.state, held: true, started: e.started, done: e.done },
                );
                Some(id)
            },
        }
    }

    /// The worker that holds `id` begins to run it and gets the computation
    /// of the task to resume. Wakes that arrived before are forgotten: the
    /// run that begins serves them.
    pub fn start(&mut self, id: TaskId) -> (future: F)
        requires
            old(self)@.wf(),
            old(self)@.startable(id),
        ensures
            final(self)@.wf(),
            final(self)@ == old(self)@.start(id),
            final(self)@.running(id),
            old(self)@.futures.contains_key(id),
            future == old(self)@.futures[id],
    {
        proof {
            lemma_start_wf(self@, id);
            assert(self@.futures.contains_key(id));
        }
        self.tasks.insert(id, Entry { state: RUNNING, held: true, started: true, done: false });
        self.futures.remove(&id).unwrap()
    }

    /// The worker that runs `id` has resumed its computation and ends the
    /// run. Says whether the task went back into the queue.
    pub fn finish(&mut self, id: TaskId, ended: Ended<F, R>) -> (requeued: bool)
        requires
            old(self)@.wf(),
            old(self)@.running(id),
        ensures
            final(self)@.wf(),
            final(self)@ == old(self)@.finish(id, ended),
            requeued == (ended is Pending && suspend_requeues(old(self)@.tasks[id].state)),
    {
        proof {
            lemma_finish_wf(self@, id, ended);
        }
        let e = self.entry(id).unwrap();
        match ended {
            Ended::Pending(future) => {
                self.tasks.insert(
                    id,
                    Entry { state: e.state & !RUNNING, held: false, started: true, done: false },
                );
                self.futures.insert(id, future);
                let requeue = crate::task::on_suspend(e.state);
                if requeue {
                    self.queue.push(id);
                }
                requeue
            },
            Ended::Ready(value) => {
                self.tasks.insert(
                    id,
                    Entry { state: e.state, held: false, started: true, done: true },
                );
                self.results.insert(id, value);
                false
            },
        }
    }

    /// Asks for the result that `handle` stands for. If the computation has
    /// finished its value is handed over, and the handle is used up; if not,
    /// the handle comes back.
    pub fn join(&mut self, handle: JoinHandle) -> (outcome: Result<R, JoinHandle>)
        requires
            old(self)@.wf(),
        ensures
            final(self)@.wf(),
            match outcome {
                Ok(value) => old(self)@.results.contains_key(handle.id()) && value == old(
                    self,
                )@.results[handle.id()] && final(self)@ == old(self)@.join(handle.id()),
                Err(back) => !old(self)@.results.contains_key(handle.id()) && back.id()
                    == handle.id() && final(self)@ == old(self)@,
            },
    {
        match self.results.remove(&handle.id) {
            Some(value) => {
                proof {
                    lemma_join_wf(old(self)@, handle.id);
                }
                Ok(value)
            },
            None => {
                proof {
                    assert(self@.results =~= old(self)@.results);
                }
                Err(handle)
            },
        }
    }
}

/// Spawns the computation `future` on `pool`.
pub fn spawn<F, R>(pool: &mut Pool<F, R>, future: F) -> (handle: JoinHandle)
    requires
        old(pool)@.wf(),
        old(pool)@.next_id < u64::MAX,
    ensures
        final(pool)@.wf(),
        final(pool)@ == old(pool)@.spawn(future),
        handle.id() == old(pool)@.next_id,
{
    pool.spawn(future)
}

/// The number of processors that the system offers, as `num_cpus::get`
/// reports it. Nothing is claimed of the number.
#[verifier::external_body]
fn available_cpus() -> usize {
    num_cpus::get()
}

/// The number of workers for a system that offers `cpus` processors.
pub open spec fn workers_for(cpus: usize) -> usize {
    if cpus < 1 {
        1
    } else {
        cpus
    }
}

/// The number of workers for a system that offers `cpus` processors: one
/// for each, and at least one.
pub fn worker_count_for(cpus: usize) -> (n: usize)
    ensures
        n == workers_for(cpus),
{
    if cpus < 1 {
        1
    } else {
        cpus
    }
}

/// The number of workers that the pool of this system gets: at least one.
pub fn worker_count() -> (n: usize)
    ensures
        n >= 1,
{
    worker_count_for(available_cpus())
}

proof fn lemma_other_entries<F, R>(s: PoolView<F, R>, after: PoolView<F, R>, id: TaskId)
    requires
        s.wf(),
        s.tasks.contains_key(id),
        after.next_id == s.next_id,
        after.results == s.results,
        after.tasks == s.tasks.insert(id, after.tasks[id]),
        after.tasks[id].done == s.tasks[id].done,
        forall|other: TaskId|
            other != id ==> (after.futures.contains_key(other) <==> s.futures.contains_key(other)),
        after.futures.contains_key(id) <==> after.tasks[id].state == 0 || after.tasks[id].state
            == WOKEN,
        forall|other: TaskId| other != id ==> occurrences(after.queue, other) == occurrences(
            s.queue,
            other,
        ),
        forall|i: int| 0 <= i < after.queue.len() ==> s.tasks.contains_key(#[trigger] after.queue[i]),
        settled(after.tasks[id], occurrences(after.queue, id)),
    ensures
        after.wf(),
{
    assert forall|other: TaskId| #[trigger] after.tasks.contains_key(other) implies settled(
        after.tasks[other],
        occurrences(after.queue, other),
    ) by {
        if other != id {
            assert(s.tasks.contains_key(other));
        }
    }
    assert forall|other: TaskId| #[trigger] after.tasks.contains_key(other) <==> other
        < after.next_id by {
        assert(s.tasks.contains_key(other) <==> other < s.next_id);
    }
    assert forall|other: TaskId| #[trigger] after.results.contains_key(other) implies (
    after.tasks.contains_key(other) && after.tasks[other].done) by {
        assert(s.results.contains_key(other));
    }
    assert forall|other: TaskId| #[trigger]
        after.futures.contains_key(other) <==> after.tasks.contains_key(other) && (
        after.tasks[other].state == 0 || after.tasks[other].state == WOKEN) by {
        if other != id {
            assert(s.futures.contains_key(other) <==> s.tasks.contains_key(other) && (
            s.tasks[other].state == 0 || s.tasks[other].state == WOKEN));
        }
    }
}

/// Spawning keeps every task in one of its places.
pub proof fn lemma_spawn_wf<F, R>(s: PoolView<F, R>, future: F)
    requires
        s.wf(),
        s.next_id < u64::MAX,
    ensures
        s.spawn(future).wf(),
{
    let after = s.spawn(future);
    let id = s.next_id;
    assert(!s.tasks.contains_key(id));
    assert forall|other: TaskId| #[trigger] after.tasks.contains_key(other) implies settled(
        after.tasks[other],
        occurrences(after.queue, other),
    ) by {
        lemma_occurrences_push(s.queue, id, other);
        if other == id {
            if occurrences(s.queue, id) >= 1 {
                let i = lemma_occurrences_witness(s.queue, id);
                assert(s.tasks.contains_key(s.queue[i]));
            }
        } else {
            assert(s.tasks.contains_key(other));
        }
    }
    assert forall|other: TaskId| #[trigger] after.tasks.contains_key(other) <==> other
        < after.next_id by {
        assert(s.tasks.contains_key(other) <==> other < s.next_id);
    }
    assert forall|i: int| 0 <= i < after.queue.len() implies after.tasks.contains_key(
        #[trigger] after.queue[i],
    ) by {
        if i < s.queue.len() {
            assert(s.tasks.contains_key(s.queue[i]));
        }
    }
    assert forall|other: TaskId| #[trigger] after.results.contains_key(other) implies (
    after.tasks.contains_key(other) && after.tasks[other].done) by {
        assert(s.results.contains_key(other));
    }
}

/// Waking keeps every task in one of its places.
pub proof fn lemma_wake_wf<F, R>(s: PoolView<F, R>, id: TaskId)
    requires
        s.wf(),
        s.wakeable(id),
    ensures
        s.wake(id).wf(),
{
    lemma_state_words();
    let after = s.wake(id);
    assert(settled(s.tasks[id], occurrences(s.queue, id)));
    assert forall|other: TaskId|
        occurrences(after.queue, other) == occurrences(s.queue, other) + if other == id
            && wake_enqueues(s.tasks[id].state) {
            1nat
        } else {
            0nat
        } by {
        lemma_occurrences_push(s.queue, id, other);
    }
    assert forall|i: int| 0 <= i < after.queue.len() implies s.tasks.contains_key(
        #[trigger] after.queue[i],
    ) by {
        if i < s.queue.len() {
            assert(s.tasks.contains_key(s.queue[i]));
        }
    }
    lemma_other_entries(s, after, id);
}

/// Taking the front task keeps every task in one of its places, and the
/// task that was taken can be started.
pub proof fn lemma_take_wf<F, R>(s: PoolView<F, R>)
    requires
        s.wf(),
    ensures
        s.take().wf(),
        s.queue.len() > 0 ==> s.take().startable(s.queue[0]),
{
    if s.queue.len() > 0 {
        let id = s.queue[0];
        let after = s.take();
        assert(s.tasks.contains_key(s.queue[0]));
        assert(settled(s.tasks[id], occurrences(s.queue, id)));
        lemma_occurrences_positive(s.queue, 0);
        assert forall|other: TaskId|
            occurrences(s.queue, other) == occurrences(after.queue, other) + if other == id {
                1nat
            } else {
                0nat
            } by {
            lemma_occurrences_drop_first(s.queue, other);
        }
        assert forall|i: int| 0 <= i < after.queue.len() implies s.tasks.contains_key(
            #[trigger] after.queue[i],
        ) by {
            assert(s.tasks.contains_key(s.queue[i + 1]));
        }
        lemma_other_entries(s, after, id);
    }
}

/// Beginning a run keeps every task in one of its places.
pub proof fn lemma_start_wf<F, R>(s: PoolView<F, R>, id: TaskId)
    requires
        s.wf(),
        s.startable(id),
    ensures
        s.start(id).wf(),
        s.start(id).running(id),
{
    let after = s.start(id);
    assert(settled(s.tasks[id], occurrences(s.queue, id)));
    assert forall|i: int| 0 <= i < after.queue.len() implies s.tasks.contains_key(
        #[trigger] after.queue[i],
    ) by {
        assert(s.tasks.contains_key(s.queue[i]));
    }
    lemma_other_entries(s, after, id);
}

/// Ending a run keeps every task in one of its places.
pub proof fn lemma_finish_wf<F, R>(s: PoolView<F, R>, id: TaskId, ended: Ended<F, R>)
    requires
        s.wf(),
        s.running(id),
    ensures
        s.finish(id, ended).wf(),
{
    lemma_state_words();
    let after = s.finish(id, ended);
    assert(settled(s.tasks[id], occurrences(s.queue, id)));
    assert forall|other: TaskId|
        occurrences(after.queue, other) == occurrences(s.queue, other) + if other == id
            && ended is Pending && suspend_requeues(s.tasks[id].state) {
            1nat
        } else {
            0nat
        } by {
        lemma_occurrences_push(s.queue, id, other);
    }
    assert forall|i: int| 0 <= i < after.queue.len() implies after.tasks.contains_key(
        #[trigger] after.queue[i],
    ) by {
        if i < s.queue.len() {
            assert(s.tasks.contains_key(s.queue[i]));
        }
    }
    assert forall|other: TaskId| #[trigger] after.tasks.contains_key(other) implies settled(
        after.tasks[other],
        occurrences(after.queue, other),
    ) by {
        if other != id {
            assert(s.tasks.contains_key(other));
        }
    }
    assert forall|other: TaskId| #[trigger] after.tasks.contains_key(other) <==> other
        < after.next_id by {
        assert(s.tasks.contains_key(other) <==> other < s.next_id);
    }
    assert forall|other: TaskId| #[trigger] after.results.contains_key(other) implies (
    after.tasks.contains_key(other) && after.tasks[other].done) by {
        if other != id {
            assert(s.results.contains_key(other));
        }
    }
}

/// Handing a result over keeps every task in one of its places.
pub proof fn lemma_join_wf<F, R>(s: PoolView<F, R>, id: TaskId)
    requires
        s.wf(),
    ensures
        s.join(id).wf(),
{
    let after = s.join(id);
    assert forall|other: TaskId| #[trigger] after.results.contains_key(other) implies (
    after.tasks.contains_key(other) && after.tasks[other].done) by {
        assert(s.results.contains_key(other));
    }
}

} // verus!
