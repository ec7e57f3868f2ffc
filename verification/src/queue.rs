//! The run queue: runnable tasks in the order in which they were woken.
use std::collections::VecDeque;
use vstd::prelude::*;

verus! {

/// The identity that a scheduler gives to a task.
pub type TaskId = u64;

/// A first-in, first-out queue of runnable tasks.
pub struct TaskQueue {
    queue: VecDeque<TaskId>,
}

impl View for TaskQueue {
    type V = Seq<TaskId>;

    closed spec fn view(&self) -> Seq<TaskId> {
        self.queue@
    }
}

/// How often `id` stands in `queue`.
pub open spec fn occurrences(queue: Seq<TaskId>, id: TaskId) -> nat
    decreases queue.len(),
{
    if queue.len() == 0 {
        0
    } else {
        occurrences(queue.drop_last(), id) + if queue.last() == id {
            1nat
        } else {
            0nat
        }
    }
}

/// Appending a task adds one occurrence of it and none of any other.
pub proof fn lemma_occurrences_push(queue: Seq<TaskId>, pushed: TaskId, id: TaskId)
    ensures
        occurrences(queue.push(pushed), id) == occurrences(queue, id) + if pushed == id {
            1nat
        } else {
            0nat
        },
{
    assert(queue.push(pushed).drop_last() == queue);
}

/// Taking the front task removes one occurrence of it and none of any other.
pub proof fn lemma_occurrences_drop_first(queue: Seq<TaskId>, id: TaskId)
    requires
        queue.len() > 0,
    ensures
        occurrences(queue, id) == occurrences(queue.drop_first(), id) + if queue[0] == id {
            1nat
        } else {
            0nat
        },
    decreases queue.len(),
{
    let rest = queue.drop_first();
    if queue.len() == 1 {
        assert(occurrences(queue.drop_last(), id) == 0);
        assert(occurrences(rest, id) == 0);
    } else {
        lemma_occurrences_drop_first(queue.drop_last(), id);
        assert(queue.drop_last().drop_first() == rest.drop_last());
        assert(rest.last() == queue.last());
        assert(queue.drop_last()[0] == queue[0]);
        assert(occurrences(rest, id) == occurrences(rest.drop_last(), id) + if rest.last() == id {
            1nat
        } else {
            0nat
        });
    }
}

/// A task that stands in the queue occurs in it at least once.
pub proof fn lemma_occurrences_positive(queue: Seq<TaskId>, i: int)
    requires
        0 <= i < queue.len(),
    ensures
        occurrences(queue, queue[i]) >= 1,
    decreases queue.len(),
{
    if i < queue.len() - 1 {
        lemma_occurrences_positive(queue.drop_last(), i);
    }
}

/// A task that occurs in the queue stands at some position of it.
pub proof fn lemma_occurrences_witness(queue: Seq<TaskId>, id: TaskId) -> (i: int)
    requires
        occurrences(queue, id) >= 1,
    ensures
        0 <= i < queue.len(),
        queue[i] == id,
    decreases queue.len(),
{
    if queue.last() == id {
        queue.len() - 1
    } else {
        lemma_occurrences_witness(queue.drop_last(), id)
    }
}

/// The queue is first in, first out: a task that is pushed leaves after
/// every task that was queued before it, and those leave in their old order.
pub proof fn law_queue_is_fifo(queue: Seq<TaskId>, pushed: TaskId)
    ensures
        queue.len() > 0 ==> queue.push(pushed)[0] == queue[0] && queue.push(pushed).drop_first()
            == queue.drop_first().push(pushed),
        queue.len() == 0 ==> queue.push(pushed)[0] == pushed && queue.push(pushed).drop_first()
            == queue,
{
    if queue.len() > 0 {
        assert(queue.push(pushed).drop_first() =~= queue.drop_first().push(pushed));
    } else {
        assert(queue.push(pushed).drop_first() =~= queue);
    }
}

impl TaskQueue {
    /// An empty queue.
    pub fn new() -> (q: TaskQueue)
        ensures
            q@ == Seq::<TaskId>::empty(),
    {
        TaskQueue { queue: VecDeque::new() }
    }

    /// Appends `runnable` behind every task that is already queued.
    pub fn push(&mut self, runnable: TaskId)
        ensures
            final(self)@ == old(self)@.push(runnable),
    {
        self.queue.push_back(runnable);
    }

    /// Takes the task that has waited longest, if there is one.
    pub fn pop(&mut self) -> (front: Option<TaskId>)
        ensures
            match front {
                Some(t) => old(self)@.len() > 0 && t == old(self)@[0] && final(self)@ == old(
                    self,
                )@.drop_first(),
                None => old(self)@.len() == 0 && final(self)@ == old(self)@,
            },
    {
        let ghost before = self.queue@;
        let front = self.queue.pop_front();
        proof {
            if front.is_some() {
                assert(before.subrange(1, before.len() as int) == before.drop_first());
            }
        }
        front
    }

    /// How often `id` stands in the queue.
    pub fn occurrences(&self, id: TaskId) -> (n: usize)
        ensures
            n == occurrences(self@, id),
    {
        let mut n: usize = 0;
        let mut i: usize = 0;
        while i < self.queue.len()
            invariant
                i <= self.queue@.len(),
                n == occurrences(self.queue@.take(i as int), id),
                n <= i,
            decreases self.queue@.len() - i,
        {
            proof {
                assert(self.queue@.take(i + 1).drop_last() == self.queue@.take(i as int));
            }
            if self.queue[i] == id {
                n = n + 1;
            }
            i = i + 1;
        }
        proof {
            assert(self.queue@.take(i as int) == self.queue@);
        }
        n
    }

    /// The number of queued tasks.
    pub fn len(&self) -> (n: usize)
        ensures
            n == self@.len(),
    {
        self.queue.len()
    }

    /// Whether no task is queued.
    pub fn is_empty(&self) -> (empty: bool)
        ensures
            empty == (self@.len() == 0),
    {
        self.queue.len() == 0
    }
}

} // verus!
