//! What holds of every interleaving of workers and wakers on a pool.
//!
//! Workers and wakers act on the pool one step at a time, in any order. An
//! interleaving is a sequence of such steps in which each is permitted in
//! the state that the earlier ones have led to; the number of workers does
//! not enter, since a step may be any worker's.
use crate::pool::{
    lemma_finish_wf, lemma_join_wf, lemma_spawn_wf, lemma_start_wf, lemma_take_wf, lemma_wake_wf,
    settled, Ended, PoolView,
};
use crate::queue::{lemma_occurrences_push, occurrences, TaskId};
use crate::task::{lemma_state_words, wake_enqueues, RUNNING, WOKEN};
use vstd::prelude::*;

verus! {

/// One step on a pool.
pub enum Step<F, R> {
    /// The given computation is spawned.
    Spawn(F),
    /// A waker of the named task is invoked.
    Wake(TaskId),
    /// A worker takes the front task of the queue, if there is one.
    Take,
    /// The worker that holds the named task begins to run it.
    Start(TaskId),
    /// The worker that runs the named task has resumed its computation and
    /// ends the run.
    Finish(TaskId, Ended<F, R>),
    /// The result of the named task is asked for through its join handle.
    Join(TaskId),
}

/// Whether `step` may be taken in the state `s`.
pub open spec fn permits<F, R>(s: PoolView<F, R>, step: Step<F, R>) -> bool {
    match step {
        Step::Spawn(_) => s.next_id < u64::MAX,
        Step::Wake(id) => s.wakeable(id),
        Step::Take => true,
        Step::Start(id) => s.startable(id),
        Step::Finish(id, _) => s.running(id),
        Step::Join(_) => true,
    }
}

/// The state after `step`.
pub open spec fn apply<F, R>(s: PoolView<F, R>, step: Step<F, R>) -> PoolView<F, R> {
    match step {
        Step::Spawn(future) => s.spawn(future),
        Step::Wake(id) => s.wake(id),
        Step::Take => s.take(),
        Step::Start(id) => s.start(id),
        Step::Finish(id, ended) => s.finish(id, ended),
        Step::Join(id) => s.join(id),
    }
}

/// The state after the steps `steps`, taken from the first to the last.
pub open spec fn run<F, R>(s: PoolView<F, R>, steps: Seq<Step<F, R>>) -> PoolView<F, R>
    decreases steps.len(),
{
    if steps.len() == 0 {
        s
    } else {
        apply(run(s, steps.drop_last()), steps.last())
    }
}

/// Whether each of `steps` is permitted in the state that those before it
/// lead to.
pub open spec fn follows<F, R>(s: PoolView<F, R>, steps: Seq<Step<F, R>>) -> bool
    decreases steps.len(),
{
    steps.len() == 0 || (follows(s, steps.drop_last()) && permits(
        run(s, steps.drop_last()),
        steps.last(),
    ))
}

/// The number of computations that `steps` spawn.
pub open spec fn spawns<F, R>(steps: Seq<Step<F, R>>) -> nat
    decreases steps.len(),
{
    if steps.len() == 0 {
        0
    } else {
        spawns(steps.drop_last()) + if steps.last() is Spawn {
            1nat
        } else {
            0nat
        }
    }
}

/// Whether no run in `steps` leaves its computation pending: every
/// computation completes the first time it is resumed.
pub open spec fn immediate<F, R>(steps: Seq<Step<F, R>>) -> bool {
    forall|i: int|
        0 <= i < steps.len() ==> !(#[trigger] steps[i] matches Step::Finish(_, Ended::Pending(_)))
}

/// Whether every task that has been resumed is being run or has finished:
/// none was ever left pending.
pub open spec fn unsuspended<F, R>(s: PoolView<F, R>) -> bool {
    forall|id: TaskId| #[trigger]
        s.tasks.contains_key(id) && s.tasks[id].started ==> s.tasks[id].state == RUNNING
            || s.tasks[id].state == WOKEN | RUNNING
}

/// The pool before anything was spawned.
pub open spec fn empty<F, R>() -> PoolView<F, R> {
    PoolView {
        queue: Seq::empty(),
        tasks: Map::empty(),
        futures: Map::empty(),
        results: Map::empty(),
        next_id: 0,
    }
}

/// Every permitted step keeps every task in one of its places.
pub proof fn lemma_apply_wf<F, R>(s: PoolView<F, R>, step: Step<F, R>)
    requires
        s.wf(),
        permits(s, step),
    ensures
        apply(s, step).wf(),
{
    match step {
        Step::Spawn(future) => lemma_spawn_wf(s, future),
        Step::Wake(id) => lemma_wake_wf(s, id),
        Step::Take => lemma_take_wf(s),
        Step::Start(id) => lemma_start_wf(s, id),
        Step::Finish(id, ended) => lemma_finish_wf(s, id, ended),
        Step::Join(id) => lemma_join_wf(s, id),
    }
}

/// Every interleaving keeps every task in one of its places.
pub proof fn lemma_run_wf<F, R>(s: PoolView<F, R>, steps: Seq<Step<F, R>>)
    requires
        s.wf(),
        follows(s, steps),
    ensures
        run(s, steps).wf(),
    decreases steps.len(),
{
    if steps.len() > 0 {
        lemma_run_wf(s, steps.drop_last());
        lemma_apply_wf(run(s, steps.drop_last()), steps.last());
    }
}

/// Whatever the interleaving of wakes, workers and spawns, no task stands in
/// the queue twice.
pub proof fn law_task_is_queued_at_most_once<F, R>(steps: Seq<Step<F, R>>, id: TaskId)
    requires
        follows(empty::<F, R>(), steps),
    ensures
        occurrences(run(empty::<F, R>(), steps).queue, id) <= 1,
{
    let s = run(empty::<F, R>(), steps);
    lemma_run_wf(empty::<F, R>(), steps);
    if s.tasks.contains_key(id) {
        assert(settled(s.tasks[id], occurrences(s.queue, id)));
    } else if occurrences(s.queue, id) >= 1 {
        let i = crate::queue::lemma_occurrences_witness(s.queue, id);
        assert(s.tasks.contains_key(s.queue[i]));
    }
}

/// A wake puts the task into the queue exactly when the task is idle: it
/// has been let go by its worker and has not been woken since. A wake that
/// finds the task queued, taken, running or finished leaves the queue as it
/// is.
pub proof fn law_wake_enqueues_only_idle_task<F, R>(s: PoolView<F, R>, id: TaskId)
    requires
        s.wf(),
        s.wakeable(id),
    ensures
        s.tasks[id].state == 0 ==> s.wake(id).queue == s.queue.push(id) && occurrences(
            s.queue,
            id,
        ) == 0 && !s.tasks[id].held,
        s.tasks[id].state != 0 ==> s.wake(id).queue == s.queue,
        occurrences(s.wake(id).queue, id) <= 1,
{
    lemma_wake_wf(s, id);
    assert(settled(s.tasks[id], occurrences(s.queue, id)));
    assert(s.wake(id).tasks.contains_key(id));
    assert(settled(s.wake(id).tasks[id], occurrences(s.wake(id).queue, id)));
}

/// Waking is idempotent: a second wake that follows the first changes
/// nothing, neither the word of the task nor the queue.
pub proof fn law_wake_is_idempotent<F, R>(s: PoolView<F, R>, id: TaskId)
    requires
        s.wf(),
        s.wakeable(id),
    ensures
        s.wake(id).wakeable(id),
        s.wake(id).wake(id) == s.wake(id),
{
    lemma_state_words();
    assert(settled(s.tasks[id], occurrences(s.queue, id)));
    let once = s.wake(id);
    let twice = once.wake(id);
    assert(once.tasks.contains_key(id));
    assert(!wake_enqueues(once.tasks[id].state));
    assert(twice.tasks =~= once.tasks);
}

/// A wake is never lost: after it, a task that has not finished is in the
/// queue, or in the hands of a worker that has yet to begin its run, or
/// running with the wake marked in its word.
pub proof fn law_wake_is_never_lost<F, R>(s: PoolView<F, R>, id: TaskId)
    requires
        s.wf(),
        s.wakeable(id),
        !s.tasks[id].done,
    ensures
        occurrences(s.wake(id).queue, id) == 1 || s.wake(id).startable(id) || (s.wake(id).running(
            id,
        ) && s.wake(id).tasks[id].state == WOKEN | RUNNING),
{
    lemma_state_words();
    lemma_wake_wf(s, id);
    assert(settled(s.tasks[id], occurrences(s.queue, id)));
    lemma_occurrences_push(s.queue, id, id);
}

/// A run that ends pending puts the task back into the queue exactly when a
/// wake arrived during the run, and then once, however many wakes arrived.
/// Without such a wake the task becomes idle, and the next wake enqueues it.
pub proof fn law_wake_burst_requeues_once<F, R>(s: PoolView<F, R>, id: TaskId, future: F)
    requires
        s.wf(),
        s.running(id),
    ensures
        s.tasks[id].state == WOKEN | RUNNING ==> occurrences(
            s.finish(id, Ended::Pending(future)).queue,
            id,
        ) == 1 && s.finish(id, Ended::Pending(future)).tasks[id].state == WOKEN,
        s.tasks[id].state == RUNNING ==> occurrences(s.finish(id, Ended::Pending(future)).queue, id) == 0
            && s.finish(id, Ended::Pending(future)).tasks[id].state == 0,
        s.wake(id).running(id) && s.wake(id).tasks[id].state == WOKEN | RUNNING,
{
    lemma_state_words();
    assert(settled(s.tasks[id], occurrences(s.queue, id)));
    lemma_occurrences_push(s.queue, id, id);
}

/// A task is never run by two workers at once: while one runs it, it is not
/// in the queue, so that no other worker can take it, no worker can begin to
/// run it, and its computation is not in the pool.
pub proof fn law_task_is_run_by_one_worker<F, R>(s: PoolView<F, R>, id: TaskId)
    requires
        s.wf(),
        s.running(id),
    ensures
        occurrences(s.queue, id) == 0,
        s.front() != Some(id),
        !s.startable(id),
        !s.futures.contains_key(id),
        s.take().running(id),
        !s.take().startable(id),
{
    lemma_state_words();
    assert(settled(s.tasks[id], occurrences(s.queue, id)));
    if s.queue.len() > 0 {
        crate::queue::lemma_occurrences_positive(s.queue, 0);
        assert(s.tasks.contains_key(s.queue[0]));
    }
}

/// The computation that a worker gets when it begins a run is the one that
/// the task was spawned with, or the one that the last run of the task gave
/// back.
pub proof fn law_computation_is_kept<F, R>(s: PoolView<F, R>, id: TaskId, future: F)
    requires
        s.wf(),
    ensures
        s.next_id < u64::MAX ==> s.spawn(future).futures.contains_key(s.next_id) && s.spawn(
            future,
        ).futures[s.next_id] == future,
        s.running(id) ==> s.finish(id, Ended::Pending(future)).futures.contains_key(id)
            && s.finish(id, Ended::Pending(future)).futures[id] == future,
        s.futures.contains_key(id) ==> !s.running(id) && s.take().futures.contains_key(id)
            && s.take().futures[id] == s.futures[id] && (s.wakeable(id) ==> s.wake(
            id,
        ).futures.contains_key(id) && s.wake(id).futures[id] == s.futures[id]),
{
    lemma_state_words();
    if s.futures.contains_key(id) {
        assert(s.tasks.contains_key(id));
    }
}

/// A task that has finished is not in the queue and in no worker's hands,
/// and no step changes that: it is never run again.
pub proof fn law_finished_task_is_never_run_again<F, R>(s: PoolView<F, R>, step: Step<F, R>, id: TaskId)
    requires
        s.wf(),
        permits(s, step),
        s.tasks.contains_key(id),
        s.tasks[id].done,
    ensures
        occurrences(s.queue, id) == 0,
        !s.startable(id),
        !s.running(id),
        s.front() != Some(id),
        apply(s, step).tasks.contains_key(id),
        apply(s, step).tasks[id].done,
{
    lemma_state_words();
    assert(settled(s.tasks[id], occurrences(s.queue, id)));
    if s.queue.len() > 0 {
        crate::queue::lemma_occurrences_positive(s.queue, 0);
        if s.queue[0] != id {
            assert(s.tasks.contains_key(s.queue[0]));
        }
    }
}

proof fn lemma_apply_unsuspended<F, R>(s: PoolView<F, R>, step: Step<F, R>)
    requires
        s.wf(),
        unsuspended(s),
        permits(s, step),
        !(step matches Step::Finish(_, Ended::Pending(_))),
    ensures
        unsuspended(apply(s, step)),
        apply(s, step).next_id == s.next_id + if step is Spawn {
            1nat
        } else {
            0nat
        },
{
    lemma_state_words();
    let after = apply(s, step);
    assert forall|id: TaskId| #[trigger]
        after.tasks.contains_key(id) && after.tasks[id].started implies after.tasks[id].state
        == RUNNING || after.tasks[id].state == WOKEN | RUNNING by {
        match step {
            Step::Spawn(_) => {
                assert(!s.tasks.contains_key(s.next_id));
                if id != s.next_id {
                    assert(s.tasks.contains_key(id));
                }
            },
            Step::Wake(woken) => {
                assert(s.tasks.contains_key(id));
            },
            Step::Take => {
                if s.queue.len() > 0 {
                    assert(s.tasks.contains_key(s.queue[0]));
                    assert(s.tasks.contains_key(id));
                }
            },
            Step::Start(started) => {
                assert(s.tasks.contains_key(id));
            },
            Step::Finish(finished, ended) => {
                assert(s.tasks.contains_key(id));
            },
            Step::Join(_) => {},
        }
    }
}

/// When every computation completes the first time it is resumed, then
/// however the workers interleave, as many tasks exist as were spawned, and
/// once the queue is empty and no worker holds a task every one of them has
/// finished: none is lost.
pub proof fn law_immediate_computations_all_complete<F, R>(steps: Seq<Step<F, R>>, id: TaskId)
    requires
        follows(empty::<F, R>(), steps),
        immediate(steps),
    ensures
        run(empty::<F, R>(), steps).wf(),
        unsuspended(run(empty::<F, R>(), steps)),
        run(empty::<F, R>(), steps).next_id == spawns(steps),
        run(empty::<F, R>(), steps).quiescent() && id < spawns(steps) ==> run(
            empty::<F, R>(),
            steps,
        ).tasks.contains_key(id) && run(empty::<F, R>(), steps).tasks[id].done,
    decreases steps.len(),
{
    let s = run(empty::<F, R>(), steps);
    lemma_run_wf(empty::<F, R>(), steps);
    if steps.len() > 0 {
        let before = steps.drop_last();
        assert forall|i: int| 0 <= i < before.len() implies !(#[trigger] before[i] matches Step::Finish(
            _,
            Ended::Pending(_),
        )) by {
            assert(before[i] == steps[i]);
        }
        law_immediate_computations_all_complete(before, id);
        assert(steps[steps.len() - 1] == steps.last());
        lemma_apply_unsuspended(run(empty::<F, R>(), before), steps.last());
    }
    if s.quiescent() && id < spawns(steps) {
        lemma_state_words();
        assert(s.tasks.contains_key(id));
        assert(occurrences(s.queue, id) == 0);
        assert(settled(s.tasks[id], occurrences(s.queue, id)));
    }
}

/// A result reaches its join handle once: it waits from the moment its task
/// finishes until it is handed over, and after that no step brings it back.
pub proof fn law_result_is_delivered_once<F, R>(s: PoolView<F, R>, step: Step<F, R>, id: TaskId)
    requires
        s.wf(),
        permits(s, step),
        s.tasks.contains_key(id),
        s.tasks[id].done,
    ensures
        !s.results.contains_key(id) ==> !apply(s, step).results.contains_key(id),
        s.results.contains_key(id) && step != Step::<F, R>::Join(id) ==> apply(
            s,
            step,
        ).results.contains_key(id) && apply(s, step).results[id] == s.results[id],
        !s.join(id).results.contains_key(id),
{
}

} // verus!
