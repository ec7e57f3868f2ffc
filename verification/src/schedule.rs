//! What holds of every sequence of operations on a cooperative executor.
//!
//! The operations are the steps of the loop, spawning, and the four
//! operations of a waker. A schedule is a sequence of them in which each is
//! permitted in the state that the earlier ones have led to.
use crate::executor::{
    lemma_next_wf, lemma_popped_wf, lemma_release_wf, lemma_settle_wf, lemma_spawn_wf, Action,
    Event, ExecutorView, Phase, Resumed,
};
use crate::helper::{lemma_enqueue_wf, lemma_retain_wf};
use crate::poll::Poll;
use crate::queue::TaskId;
use vstd::prelude::*;

verus! {

/// One operation on an executor.
pub enum Op<O, F> {
    /// A step of the loop of `block_on`.
    Step(Event<O, F>),
    /// A task with the given computation is spawned.
    Spawn(F),
    /// A waker of the named task is invoked and consumed.
    Wake(TaskId),
    /// A waker of the named task is invoked and kept.
    WakeByRef(TaskId),
    /// A waker of the named task is cloned.
    CloneWaker(TaskId),
    /// A waker of the named task is dropped.
    DropWaker(TaskId),
}

/// Whether `op` may be performed in the state `s`.
pub open spec fn permits<O, F>(s: ExecutorView<F>, op: Op<O, F>) -> bool {
    match op {
        Op::Step(event) => s.accepts(event),
        Op::Spawn(_) => !(s.phase is Idle) && s.next_id < u64::MAX,
        Op::Wake(id) => s.wakers(id) >= 1,
        Op::DropWaker(id) => s.wakers(id) >= 1,
        Op::WakeByRef(id) => s.tasks.contains_key(id) && s.tasks[id].refs < usize::MAX,
        Op::CloneWaker(id) => s.tasks.contains_key(id) && s.tasks[id].refs < usize::MAX,
    }
}

/// The state after `op`.
pub open spec fn apply<O, F>(s: ExecutorView<F>, op: Op<O, F>) -> ExecutorView<F> {
    match op {
        Op::Step(event) => s.next(event).state,
        Op::Spawn(future) => s.spawn(future),
        Op::Wake(id) => s.enqueue(id),
        Op::DropWaker(id) => s.release(id),
        Op::WakeByRef(id) => s.retain(id).enqueue(id),
        Op::CloneWaker(id) => s.retain(id),
    }
}

/// The task, if any, whose computation `op` hands to the driver to be
/// resumed.
pub open spec fn resumes<O, F>(s: ExecutorView<F>, op: Op<O, F>) -> Option<TaskId> {
    match op {
        Op::Step(event) => match s.next(event).action {
            Action::PollTask(t, _) => Some(t),
            _ => None,
        },
        _ => None,
    }
}

/// The tasks whose storage `op` releases.
pub open spec fn frees<O, F>(s: ExecutorView<F>, op: Op<O, F>) -> Seq<TaskId> {
    match op {
        Op::Step(event) => s.next(event).released,
        Op::DropWaker(id) => s.freed(id),
        _ => Seq::empty(),
    }
}

/// The state after the operations `ops`, performed from the first to the last.
pub open spec fn run<O, F>(s: ExecutorView<F>, ops: Seq<Op<O, F>>) -> ExecutorView<F>
    decreases ops.len(),
{
    if ops.len() == 0 {
        s
    } else {
        apply(run(s, ops.drop_last()), ops.last())
    }
}

/// Whether each of `ops` is permitted in the state that those before it lead to.
pub open spec fn follows<O, F>(s: ExecutorView<F>, ops: Seq<Op<O, F>>) -> bool
    decreases ops.len(),
{
    ops.len() == 0 || (follows(s, ops.drop_last()) && permits(
        run(s, ops.drop_last()),
        ops.last(),
    ))
}

/// Whether the task was spawned and its storage has been released.
pub open spec fn gone<F>(s: ExecutorView<F>, id: TaskId) -> bool {
    id < s.next_id && !s.tasks.contains_key(id)
}

proof fn lemma_concat_contains(a: Seq<TaskId>, b: Seq<TaskId>, id: TaskId)
    ensures
        (a + b).contains(id) <==> a.contains(id) || b.contains(id),
{
    if a.contains(id) {
        let i = choose|i: int| 0 <= i < a.len() && a[i] == id;
        assert((a + b)[i] == id);
    }
    if b.contains(id) {
        let i = choose|i: int| 0 <= i < b.len() && b[i] == id;
        assert((a + b)[a.len() + i] == id);
    }
    if (a + b).contains(id) {
        let i = choose|i: int| 0 <= i < (a + b).len() && (a + b)[i] == id;
        if i < a.len() {
            assert(a[i] == id);
        } else {
            assert(b[i - a.len()] == id);
        }
    }
}

proof fn lemma_freed_contains<F>(s: ExecutorView<F>, t: TaskId, id: TaskId)
    ensures
        s.freed(t).contains(id) <==> id == t && s.releases(t),
{
    if s.freed(t).contains(id) {
        let i = choose|i: int| 0 <= i < s.freed(t).len() && s.freed(t)[i] == id;
        assert(id == t);
    }
    if id == t && s.releases(t) {
        assert(s.freed(t)[0] == id);
    }
}

/// What draining the run queue does to one task: only the computation of a
/// task that waits goes to the driver, and it is the one in the storage of
/// the task; a task that does not wait does not come to wait; and storage is
/// released only of a task that had some, which then has none.
pub proof fn lemma_drain_spares<O, F>(s: ExecutorView<F>, id: TaskId)
    requires
        s.wf(),
        !(s.phase is Task),
    ensures
        s.drain::<O>().state.next_id == s.next_id,
        s.drain::<O>().action is PollTask || s.drain::<O>().action is PollRoot,
        s.drain::<O>().action matches Action::PollTask(t, future) ==> s.live(t)
            && s.tasks[t].future == Some(future) && s.drain::<O>().state.phase == Phase::Task(t),
        s.drain::<O>().action is PollRoot ==> s.drain::<O>().state.phase == Phase::Recheck,
        !s.live(id) ==> !s.drain::<O>().state.live(id),
        !s.tasks.contains_key(id) ==> !s.drain::<O>().state.tasks.contains_key(id)
            && !s.drain::<O>().released.contains(id),
        s.drain::<O>().released.contains(id) ==> s.tasks.contains_key(id) && !s.drain::<
            O,
        >().state.tasks.contains_key(id),
        s.drain::<O>().cancelled is None,
    decreases s.queue.len(),
{
    if s.queue.len() > 0 {
        let t = s.queue[0];
        let popped = ExecutorView {
            queue: s.queue.drop_first(),
            tasks: s.tasks,
            next_id: s.next_id,
            phase: s.phase,
        };
        if !popped.live(t) {
            let dropped = popped.release(t);
            let rest = dropped.drain::<O>();
            lemma_popped_wf(s);
            lemma_release_wf(popped, t);
            lemma_drain_spares::<O, F>(dropped, id);
            lemma_concat_contains(popped.freed(t), rest.released, id);
            lemma_freed_contains(popped, t, id);
            if rest.action is PollTask {
                let resumed = rest.action->PollTask_0;
                lemma_drain_spares::<O, F>(dropped, resumed);
                assert(dropped.live(resumed));
                assert(resumed != t);
            }
        }
    }
}

/// Every permitted operation keeps every handle on live storage.
pub proof fn lemma_apply_wf<O, F>(s: ExecutorView<F>, op: Op<O, F>)
    requires
        s.wf(),
        permits(s, op),
    ensures
        apply(s, op).wf(),
{
    match op {
        Op::Step(event) => lemma_next_wf(s, event),
        Op::Spawn(future) => lemma_spawn_wf(s, future),
        Op::Wake(id) => lemma_enqueue_wf(s, id),
        Op::DropWaker(id) => lemma_release_wf(s, id),
        Op::WakeByRef(id) => {
            lemma_retain_wf(s, id);
            lemma_enqueue_wf(s.retain(id), id);
        },
        Op::CloneWaker(id) => lemma_retain_wf(s, id),
    }
}

/// Every schedule keeps every handle on live storage.
pub proof fn lemma_run_wf<O, F>(s: ExecutorView<F>, ops: Seq<Op<O, F>>)
    requires
        s.wf(),
        follows(s, ops),
    ensures
        run(s, ops).wf(),
    decreases ops.len(),
{
    if ops.len() > 0 {
        lemma_run_wf(s, ops.drop_last());
        lemma_apply_wf(run(s, ops.drop_last()), ops.last());
    }
}

/// What one operation does to one task: a task that has retired is not
/// resumed and stays retired, a computation goes to the driver only from a
/// task that waits, and storage is released only of a task that had some,
/// which then has none.
pub proof fn lemma_apply_spares<O, F>(s: ExecutorView<F>, op: Op<O, F>, id: TaskId)
    requires
        s.wf(),
        permits(s, op),
    ensures
        s.next_id <= apply(s, op).next_id,
        s.retired(id) ==> apply(s, op).retired(id) && resumes(s, op) != Some(id),
        resumes(s, op) == Some(id) ==> apply(s, op).running(id) && (s.live(id) || s.running(id)),
        gone(s, id) ==> gone(apply(s, op), id) && !frees(s, op).contains(id),
        frees(s, op).contains(id) ==> s.tasks.contains_key(id) && gone(apply(s, op), id),
{
    match op {
        Op::Step(event) => {
            match event {
                Event::Start | Event::Woken => {},
                Event::Root(Poll::Ready(_)) => {},
                Event::Root(Poll::Pending) => {
                    if !s.nothing_runnable() {
                        lemma_drain_spares::<O, F>(s, id);
                    }
                },
                Event::Task(resumed) => {
                    let t = s.phase->Task_0;
                    let settled = s.settle(resumed);
                    lemma_settle_wf(s, resumed);
                    lemma_release_wf(settled, t);
                    let dropped = settled.release(t);
                    let rest = dropped.drain::<O>();
                    lemma_drain_spares::<O, F>(dropped, id);
                    lemma_concat_contains(settled.freed(t), rest.released, id);
                    lemma_freed_contains(settled, t, id);
                    assert(s.tasks.contains_key(t));
                },
            }
        },
        Op::DropWaker(dropped) => {
            lemma_freed_contains(s, dropped, id);
            assert(s.tasks.contains_key(dropped));
        },
        Op::Spawn(_) => {
            if s.phase is Task {
                assert(s.tasks.contains_key(s.phase->Task_0));
            }
        },
        _ => {},
    }
}

/// A task whose computation was resumed and was ready has finished for good.
pub proof fn law_ready_task_retires<O, F>(s: ExecutorView<F>)
    requires
        s.wf(),
        s.phase is Task,
    ensures
        s.next(Event::<O, F>::Task(Resumed::Ready)).state.retired(s.phase->Task_0),
{
    let t = s.phase->Task_0;
    let settled = s.settle(Resumed::Ready);
    lemma_settle_wf(s, Resumed::Ready);
    lemma_release_wf(settled, t);
    lemma_drain_spares::<O, F>(settled.release(t), t);
    assert(s.tasks.contains_key(t));
    let rest = settled.release(t).drain::<O>();
    if rest.action is PollTask {
        lemma_drain_spares::<O, F>(settled.release(t), rest.action->PollTask_0);
    }
}

/// A task that has finished is never resumed again, whatever is done with
/// the executor afterwards: no later operation of any schedule hands its
/// computation to the driver, and it stays finished.
pub proof fn law_finished_task_is_never_resumed<O, F>(
    s: ExecutorView<F>,
    ops: Seq<Op<O, F>>,
    op: Op<O, F>,
    id: TaskId,
)
    requires
        s.wf(),
        s.retired(id),
        follows(s, ops),
        permits(run(s, ops), op),
    ensures
        run(s, ops).retired(id),
        resumes(run(s, ops), op) != Some(id),
    decreases ops.len(),
{
    lemma_run_wf(s, ops);
    if ops.len() > 0 {
        law_finished_task_is_never_resumed(s, ops.drop_last(), ops.last(), id);
        lemma_run_wf(s, ops.drop_last());
        lemma_apply_spares(run(s, ops.drop_last()), ops.last(), id);
    }
    lemma_apply_spares(run(s, ops), op, id);
}

/// The computation that a step hands to the driver is the one that the task
/// was spawned with or that the driver last gave back for it, and while the
/// driver has it no step hands out another: one resumption is in flight at
/// a time.
pub proof fn law_one_resumption_in_flight<O, F>(s: ExecutorView<F>, event: Event<O, F>)
    requires
        s.wf(),
        s.accepts(event),
    ensures
        s.next(event).action matches Action::PollTask(t, future) ==> s.next(event).state.phase
            == Phase::Task(t) && !s.next(event).state.live(t) && ((s.live(t) && s.tasks[t].future
            == Some(future)) || (s.phase == Phase::Task(t) && event == Event::<O, F>::Task(
            Resumed::Pending(future),
        ))),
        s.phase is Task && !(event is Task) ==> !(s.next(event).action is PollTask),
{
    lemma_next_wf(s, event);
    match event {
        Event::Root(Poll::Pending) => {
            if !s.nothing_runnable() {
                lemma_drain_spares::<O, F>(s, 0);
            }
        },
        Event::Task(resumed) => {
            let t = s.phase->Task_0;
            let settled = s.settle(resumed);
            lemma_settle_wf(s, resumed);
            lemma_release_wf(settled, t);
            lemma_drain_spares::<O, F>(settled.release(t), 0);
            assert(s.tasks.contains_key(t));
        },
        _ => {},
    }
}

/// The storage of a task is released at most once: once it is gone, no later
/// operation of any schedule releases it, and it stays gone.
pub proof fn law_storage_is_released_once<O, F>(
    s: ExecutorView<F>,
    ops: Seq<Op<O, F>>,
    op: Op<O, F>,
    id: TaskId,
)
    requires
        s.wf(),
        gone(s, id),
        follows(s, ops),
        permits(run(s, ops), op),
    ensures
        gone(run(s, ops), id),
        !frees(run(s, ops), op).contains(id),
    decreases ops.len(),
{
    lemma_run_wf(s, ops);
    if ops.len() > 0 {
        law_storage_is_released_once(s, ops.drop_last(), ops.last(), id);
        lemma_run_wf(s, ops.drop_last());
        lemma_apply_spares(run(s, ops.drop_last()), ops.last(), id);
    }
    lemma_apply_spares(run(s, ops), op, id);
}

/// An operation releases storage only of a task that had some, and leaves
/// that task without any.
pub proof fn law_release_takes_live_storage<O, F>(s: ExecutorView<F>, op: Op<O, F>, id: TaskId)
    requires
        s.wf(),
        permits(s, op),
        frees(s, op).contains(id),
    ensures
        s.tasks.contains_key(id),
        gone(apply(s, op), id),
{
    lemma_apply_spares(s, op, id);
}

} // verus!
