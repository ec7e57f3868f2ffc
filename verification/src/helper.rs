//! The waker protocol of the cooperative executor.
//!
//! A waker is a counted handle to a task, erased to the identity of the task.
//! Four operations act on it: clone, wake, wake by reference, drop. Each
//! takes the executor whose tasks the handles count, so that the state they
//! change is explicit.
use crate::executor::{lemma_release_wf, Executor, ExecutorView};
use crate::queue::{lemma_occurrences_push, TaskId};
use vstd::prelude::*;

verus! {

/// A counted handle to a task of an executor.
///
/// Whoever holds one holds one of the references that the executor counts
/// for the task. It is given up by waking the task with it or by turning it
/// into a waker.
#[derive(Debug)]
pub struct Task {
    id: TaskId,
}

/// A waker in its erased form: only the identity of the task it is bound to.
#[derive(Debug)]
pub struct RawWaker {
    data: TaskId,
}

impl RawWaker {
    /// The waker that stands for one counted handle to `data`.
    pub fn new(data: TaskId) -> (w: RawWaker)
        ensures
            w.data() == data,
    {
        RawWaker { data }
    }

    /// The task that the waker is bound to.
    pub closed spec fn data(&self) -> TaskId {
        self.data
    }

    /// The task that the waker is bound to.
    pub fn task(&self) -> (id: TaskId)
        ensures
            id == self.data(),
    {
        self.data
    }
}

impl Task {
    /// The handle that the erased identity `ptr` stands for.
    pub fn from_raw(ptr: TaskId) -> (task: Task)
        ensures
            task.id() == ptr,
    {
        Task { id: ptr }
    }

    /// Erases the handle to the identity of its task.
    pub fn into_raw(self) -> (ptr: TaskId)
        ensures
            ptr == self.id(),
    {
        self.id
    }

    /// The task that the handle refers to.
    pub closed spec fn id(&self) -> TaskId {
        self.id
    }

    /// Wakes the task and gives the handle up: the handle moves into the run
    /// queue, behind every entry that is already there.
    pub fn wake_<F>(self, ex: &mut Executor<F>)
        requires
            old(ex)@.wf(),
            old(ex)@.wakers(self.id()) >= 1,
        ensures
            final(ex)@.wf(),
            final(ex)@ == old(ex)@.enqueue(self.id()),
    {
        proof {
            lemma_enqueue_wf(ex@, self.id);
        }
        ex.enqueue(self.id);
    }

    /// Wakes the task and keeps the handle: a new handle to the task joins
    /// the run queue, behind every entry that is already there.
    pub fn wake_by_ref_<F>(&self, ex: &mut Executor<F>)
        requires
            old(ex)@.wf(),
            old(ex)@.tasks.contains_key(self.id()),
            old(ex)@.tasks[self.id()].refs < usize::MAX,
        ensures
            final(ex)@.wf(),
            final(ex)@ == old(ex)@.retain(self.id()).enqueue(self.id()),
    {
        proof {
            lemma_retain_wf(ex@, self.id);
            lemma_enqueue_wf(ex@.retain(self.id), self.id);
        }
        ex.retain(self.id);
        ex.enqueue(self.id);
    }
}

/// Turns a handle into a waker. The reference that the handle held is now
/// held by the waker.
pub fn waker(wake: Task) -> (w: RawWaker)
    ensures
        w.data() == wake.id(),
{
    RawWaker::new(wake.into_raw())
}

/// Counts one more reference to the task `data`.
pub fn increase_refcount<F>(ex: &mut Executor<F>, data: TaskId)
    requires
        old(ex)@.wf(),
        old(ex)@.tasks.contains_key(data),
        old(ex)@.tasks[data].refs < usize::MAX,
    ensures
        final(ex)@.wf(),
        final(ex)@ == old(ex)@.retain(data),
{
    proof {
        lemma_retain_wf(ex@, data);
    }
    ex.retain(data);
}

/// The four operations of a waker, each on the erased identity of its task.
#[derive(Debug, Clone, Copy, PartialEq, Eq)]
pub struct Helper;

impl Helper {
    /// Clones a waker of `data`: one more reference is counted, and the new
    /// waker is bound to the same task.
    pub fn clone_waker<F>(ex: &mut Executor<F>, data: TaskId) -> (w: RawWaker)
        requires
            old(ex)@.wf(),
            old(ex)@.tasks.contains_key(data),
            old(ex)@.tasks[data].refs < usize::MAX,
        ensures
            final(ex)@.wf(),
            final(ex)@ == old(ex)@.retain(data),
            w.data() == data,
    {
        increase_refcount(ex, data);
        RawWaker::new(data)
    }

    /// Invokes a waker of `ptr` and consumes it: the task joins the run
    /// queue, and the reference of the waker becomes that of the queue entry.
    pub fn wake<F>(ex: &mut Executor<F>, ptr: TaskId)
        requires
            old(ex)@.wf(),
            old(ex)@.wakers(ptr) >= 1,
        ensures
            final(ex)@.wf(),
            final(ex)@ == old(ex)@.enqueue(ptr),
    {
        let rc = Task::from_raw(ptr);
        rc.wake_(ex);
    }

    /// Invokes a waker of `ptr` and leaves it with its holder: the task joins
    /// the run queue with a reference of its own.
    pub fn wake_by_ref<F>(ex: &mut Executor<F>, ptr: TaskId)
        requires
            old(ex)@.wf(),
            old(ex)@.tasks.contains_key(ptr),
            old(ex)@.tasks[ptr].refs < usize::MAX,
        ensures
            final(ex)@.wf(),
            final(ex)@ == old(ex)@.retain(ptr).enqueue(ptr),
    {
        let rc = Task::from_raw(ptr);
        rc.wake_by_ref_(ex);
    }

    /// Drops a waker of `ptr`: its reference is given up, and the storage of
    /// the task is released if and only if it was the last one. The answer
    /// says whether it was, and holds the computation that was still in the
    /// storage, for the caller to drop.
    pub fn drop_waker<F>(ex: &mut Executor<F>, ptr: TaskId) -> (released: (bool, Option<F>))
        requires
            old(ex)@.wf(),
            old(ex)@.wakers(ptr) >= 1,
        ensures
            final(ex)@.wf(),
            final(ex)@ == old(ex)@.release(ptr),
            released.0 == old(ex)@.releases(ptr),
            released.1 == old(ex)@.cancelled(ptr),
    {
        proof {
            lemma_release_wf(ex@, ptr);
        }
        ex.release(ptr)
    }
}

/// Counting one more reference keeps every handle on live storage.
pub proof fn lemma_retain_wf<F>(s: ExecutorView<F>, id: TaskId)
    requires
        s.wf(),
        s.tasks.contains_key(id),
        s.tasks[id].refs < usize::MAX,
    ensures
        s.retain(id).wf(),
        s.retain(id).wakers(id) == s.wakers(id) + 1,
{
    let after = s.retain(id);
    assert forall|other: TaskId| #[trigger] after.tasks.contains_key(other) implies other
        < after.next_id && after.tasks[other].refs >= 1 && after.tasks[other].refs >= after.held(
        other,
    ) by {
        assert(s.tasks.contains_key(other));
    }
    assert forall|i: int| 0 <= i < after.queue.len() implies after.tasks.contains_key(
        #[trigger] after.queue[i],
    ) by {
        assert(s.tasks.contains_key(s.queue[i]));
    }
}

/// Moving a reference that is held outside the scheduler into the run queue
/// keeps every handle on live storage.
pub proof fn lemma_enqueue_wf<F>(s: ExecutorView<F>, id: TaskId)
    requires
        s.wf(),
        s.wakers(id) >= 1,
    ensures
        s.enqueue(id).wf(),
        s.enqueue(id).wakers(id) == s.wakers(id) - 1,
{
    let after = s.enqueue(id);
    assert forall|other: TaskId| #[trigger] after.tasks.contains_key(other) implies other
        < after.next_id && after.tasks[other].refs >= 1 && after.tasks[other].refs >= after.held(
        other,
    ) by {
        assert(s.tasks.contains_key(other));
        lemma_occurrences_push(s.queue, id, other);
    }
    assert forall|i: int| 0 <= i < after.queue.len() implies after.tasks.contains_key(
        #[trigger] after.queue[i],
    ) by {
        if i < s.queue.len() {
            assert(s.tasks.contains_key(s.queue[i]));
        }
    }
    lemma_occurrences_push(s.queue, id, id);
}

/// A clone that is dropped again leaves the count as it was and releases
/// nothing.
pub proof fn law_clone_then_drop_restores<F>(s: ExecutorView<F>, id: TaskId)
    requires
        s.wf(),
        s.tasks.contains_key(id),
        s.tasks[id].refs < usize::MAX,
    ensures
        !s.retain(id).releases(id),
        s.retain(id).release(id) == s,
{
    assert(s.retain(id).release(id).tasks =~= s.tasks);
}

/// Dropping a waker releases the storage of its task exactly when no other
/// handle is left, and then neither the run queue nor the loop refers to the
/// task any more.
pub proof fn law_last_drop_releases<F>(s: ExecutorView<F>, id: TaskId)
    requires
        s.wf(),
        s.wakers(id) >= 1,
    ensures
        s.releases(id) <==> s.tasks[id].refs == 1,
        s.releases(id) ==> !s.release(id).tasks.contains_key(id) && s.held(id) == 0
            && s.release(id).retired(id) && s.cancelled(id) == s.tasks[id].future,
        !s.releases(id) ==> s.release(id).tasks.contains_key(id) && s.release(id).tasks[id].refs
            == s.tasks[id].refs - 1,
{
    assert(s.tasks.contains_key(id));
}

} // verus!
