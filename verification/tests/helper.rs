use simple_runtime::executor::{Action, Event, Executor, Resumed};
use simple_runtime::helper::{increase_refcount, waker, Helper, RawWaker, Task};
use simple_runtime::poll::Poll;

fn suspended_task_with_one_waker() -> Executor<&'static str> {
    let mut ex = Executor::new();
    ex.block_on::<()>(Event::Start);
    assert_eq!(ex.spawn("a"), 0);
    assert_eq!(ex.block_on::<()>(Event::Root(Poll::Pending)).action, Action::PollTask(0, "a"));
    Helper::clone_waker(&mut ex, 0);
    let step = ex.block_on::<()>(Event::Task(Resumed::Pending("a")));
    assert_eq!(step.action, Action::PollRoot);
    assert!(step.released.is_empty());
    assert_eq!(step.cancelled, None);
    ex
}

#[test]
fn last_drop_releases_the_task_and_no_other_does() {
    let mut ex = suspended_task_with_one_waker();
    assert_eq!(ex.wakers(0), 1);
    let second = Helper::clone_waker(&mut ex, 0);
    let third = Helper::clone_waker(&mut ex, second.task());
    assert_eq!(third.task(), 0);
    assert_eq!(ex.refs(0), Some(3));
    assert_eq!(Helper::drop_waker(&mut ex, 0), (false, None));
    assert_eq!(Helper::drop_waker(&mut ex, 0), (false, None));
    assert_eq!(ex.refs(0), Some(1));
    // The last waker goes, and with it the computation that still waited.
    assert_eq!(Helper::drop_waker(&mut ex, 0), (true, Some("a")));
    assert_eq!(ex.refs(0), None);
    assert_eq!(ex.wakers(0), 0);
}

#[test]
fn last_drop_of_a_finished_task_releases_no_computation() {
    let mut ex: Executor<&'static str> = Executor::new();
    ex.block_on::<()>(Event::Start);
    ex.spawn("a");
    ex.block_on::<()>(Event::Root(Poll::Pending));
    Helper::clone_waker(&mut ex, 0);
    ex.block_on::<()>(Event::Task(Resumed::Ready));
    assert_eq!(ex.refs(0), Some(1));
    assert_eq!(Helper::drop_waker(&mut ex, 0), (true, None));
    assert_eq!(ex.refs(0), None);
}

#[test]
fn wake_moves_the_reference_into_the_queue() {
    let mut ex = suspended_task_with_one_waker();
    Helper::wake(&mut ex, 0);
    assert_eq!(ex.queued(), 1);
    assert_eq!(ex.refs(0), Some(1));
    assert_eq!(ex.wakers(0), 0);
}

#[test]
fn wake_by_ref_keeps_the_waker() {
    let mut ex = suspended_task_with_one_waker();
    Helper::wake_by_ref(&mut ex, 0);
    assert_eq!(ex.queued(), 1);
    assert_eq!(ex.refs(0), Some(2));
    assert_eq!(ex.wakers(0), 1);
    Helper::wake_by_ref(&mut ex, 0);
    assert_eq!(ex.queued(), 2);
    assert_eq!(ex.wakers(0), 1);
    assert_eq!(Helper::drop_waker(&mut ex, 0), (false, None));
    assert_eq!(ex.refs(0), Some(2));
}

#[test]
fn task_handle_wakes_like_its_waker() {
    let mut ex = suspended_task_with_one_waker();
    let handle = Task::from_raw(0);
    handle.wake_by_ref_(&mut ex);
    assert_eq!(ex.queued(), 1);
    assert_eq!(ex.wakers(0), 1);
    handle.wake_(&mut ex);
    assert_eq!(ex.queued(), 2);
    assert_eq!(ex.wakers(0), 0);
}

#[test]
fn waker_of_a_handle_is_bound_to_its_task() {
    let w: RawWaker = waker(Task::from_raw(12));
    assert_eq!(w.task(), 12);
    assert_eq!(RawWaker::new(5).task(), 5);
    assert_eq!(Task::from_raw(8).into_raw(), 8);
}

#[test]
fn increase_refcount_counts_one_more() {
    let mut ex = suspended_task_with_one_waker();
    increase_refcount(&mut ex, 0);
    assert_eq!(ex.refs(0), Some(2));
    assert_eq!(ex.wakers(0), 2);
}

#[test]
fn clone_that_is_dropped_again_changes_nothing() {
    let mut ex = suspended_task_with_one_waker();
    let before = ex.refs(0);
    Helper::clone_waker(&mut ex, 0);
    assert_eq!(Helper::drop_waker(&mut ex, 0), (false, None));
    assert_eq!(ex.refs(0), before);
    assert!(ex.is_live(0));
    assert_eq!(ex.queued(), 0);
}
