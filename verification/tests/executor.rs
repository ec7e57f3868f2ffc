use simple_runtime::executor::{Action, Event, Executor, Phase, Resumed, Step};
use simple_runtime::helper::Helper;
use simple_runtime::poll::Poll;

type Ex = Executor<&'static str>;

fn step<O>(action: Action<O, &'static str>, released: Vec<u64>) -> Step<O, &'static str> {
    Step { action, released, cancelled: None }
}

#[test]
fn new_executor_is_idle_and_empty() {
    let ex = Ex::new();
    assert_eq!(ex.phase(), Phase::Idle);
    assert!(!ex.is_active());
    assert!(ex.has_room());
    assert_eq!(ex.queued(), 0);
    assert_eq!(ex.refs(0), None);
    assert!(!ex.is_live(0));
}

#[test]
fn block_on_returns_at_once_when_root_is_ready() {
    let mut ex = Ex::new();
    assert!(ex.accepts::<u32>(&Event::Start));
    assert!(!ex.accepts::<u32>(&Event::Woken));
    assert_eq!(ex.block_on::<u32>(Event::Start), step(Action::PollRoot, vec![]));
    assert_eq!(ex.phase(), Phase::Root);
    assert!(!ex.accepts::<u32>(&Event::Start));
    assert!(ex.accepts(&Event::Root(Poll::Ready(5u32))));
    assert_eq!(ex.block_on(Event::Root(Poll::Ready(5u32))), step(Action::Return(5), vec![]));
    assert_eq!(ex.phase(), Phase::Idle);
}

#[test]
fn block_on_blocks_only_after_root_was_checked_again() {
    let mut ex = Ex::new();
    assert_eq!(ex.block_on::<u8>(Event::Start).action, Action::PollRoot);
    assert_eq!(ex.block_on::<u8>(Event::Root(Poll::Pending)).action, Action::PollRoot);
    assert_eq!(ex.phase(), Phase::Recheck);
    assert_eq!(ex.block_on::<u8>(Event::Root(Poll::Pending)).action, Action::Wait);
    assert_eq!(ex.phase(), Phase::Blocked);
    assert!(ex.accepts::<u8>(&Event::Woken));
    assert_eq!(ex.block_on::<u8>(Event::Woken).action, Action::PollRoot);
    assert_eq!(ex.phase(), Phase::Root);
    assert_eq!(ex.block_on(Event::Root(Poll::Ready(3u8))).action, Action::Return(3));
}

#[test]
fn root_ready_on_recheck_returns_without_waiting() {
    let mut ex = Ex::new();
    ex.block_on::<u8>(Event::Start);
    ex.block_on::<u8>(Event::Root(Poll::Pending));
    assert_eq!(ex.block_on(Event::Root(Poll::Ready(9u8))).action, Action::Return(9));
    assert_eq!(ex.phase(), Phase::Idle);
}

#[test]
fn block_on_walks_through_drain_wait_and_wake() {
    let mut ex = Ex::new();
    assert_eq!(ex.block_on::<u32>(Event::Start), step(Action::PollRoot, vec![]));
    assert_eq!(ex.spawn("a"), 0);
    assert_eq!(ex.spawn("b"), 1);
    assert_eq!(ex.queued(), 2);
    assert_eq!(ex.refs(0), Some(1));
    assert!(ex.is_live(0));

    assert_eq!(
        ex.block_on::<u32>(Event::Root(Poll::Pending)),
        step(Action::PollTask(0, "a"), vec![])
    );
    assert_eq!(ex.phase(), Phase::Task(0));
    assert!(!ex.is_live(0));
    assert!(ex.accepts::<u32>(&Event::Task(Resumed::Ready)));
    // Task 0 suspends: it leaves a clone of its waker with a reactor.
    let w = Helper::clone_waker(&mut ex, 0);
    assert_eq!(w.task(), 0);
    assert_eq!(ex.refs(0), Some(2));

    assert_eq!(
        ex.block_on::<u32>(Event::Task(Resumed::Pending("a1"))),
        step(Action::PollTask(1, "b"), vec![])
    );
    assert_eq!(ex.refs(0), Some(1));
    assert!(ex.is_live(0));
    assert_eq!(ex.wakers(0), 1);

    // Task 1 finishes and nobody holds a waker of it: its storage goes.
    assert_eq!(ex.block_on::<u32>(Event::Task(Resumed::Ready)), step(Action::PollRoot, vec![1]));
    assert_eq!(ex.refs(1), None);
    assert_eq!(ex.phase(), Phase::Recheck);

    assert_eq!(ex.block_on::<u32>(Event::Root(Poll::Pending)), step(Action::Wait, vec![]));
    // The reactor fires the waker of task 0.
    Helper::wake(&mut ex, w.task());
    assert_eq!(ex.queued(), 1);
    assert_eq!(ex.wakers(0), 0);
    assert_eq!(ex.block_on::<u32>(Event::Woken), step(Action::PollRoot, vec![]));
    // The computation that comes back is the one that was given back.
    assert_eq!(
        ex.block_on::<u32>(Event::Root(Poll::Pending)),
        step(Action::PollTask(0, "a1"), vec![])
    );
    assert_eq!(ex.block_on::<u32>(Event::Task(Resumed::Ready)), step(Action::PollRoot, vec![0]));
    assert_eq!(ex.block_on(Event::Root(Poll::Ready(7u32))), step(Action::Return(7), vec![]));
    assert!(!ex.is_active());
}

#[test]
fn finished_task_is_not_resumed_again() {
    let mut ex = Ex::new();
    ex.block_on::<()>(Event::Start);
    assert_eq!(ex.spawn("a"), 0);
    assert_eq!(ex.block_on::<()>(Event::Root(Poll::Pending)).action, Action::PollTask(0, "a"));
    // Two wakers are made during the run and both fire before it ends.
    Helper::clone_waker(&mut ex, 0);
    Helper::clone_waker(&mut ex, 0);
    assert_eq!(ex.refs(0), Some(3));
    Helper::wake(&mut ex, 0);
    Helper::wake(&mut ex, 0);
    assert_eq!(ex.queued(), 2);
    // The run ends ready: the two stale entries are passed over, and the
    // last of them takes the storage with it.
    assert_eq!(ex.block_on::<()>(Event::Task(Resumed::Ready)), step(Action::PollRoot, vec![0]));
    assert_eq!(ex.queued(), 0);
    assert_eq!(ex.refs(0), None);
}

#[test]
fn finished_task_with_a_waker_left_is_passed_over_when_woken() {
    let mut ex = Ex::new();
    ex.block_on::<()>(Event::Start);
    assert_eq!(ex.spawn("a"), 0);
    assert_eq!(ex.block_on::<()>(Event::Root(Poll::Pending)).action, Action::PollTask(0, "a"));
    Helper::clone_waker(&mut ex, 0);
    assert_eq!(ex.block_on::<()>(Event::Task(Resumed::Ready)), step(Action::PollRoot, vec![]));
    // The task has finished, but a waker of it is still around.
    assert_eq!(ex.refs(0), Some(1));
    assert!(!ex.is_live(0));
    assert_eq!(ex.block_on::<()>(Event::Root(Poll::Pending)).action, Action::Wait);
    Helper::wake(&mut ex, 0);
    assert_eq!(ex.queued(), 1);
    assert_eq!(ex.block_on::<()>(Event::Woken).action, Action::PollRoot);
    assert_eq!(ex.block_on::<()>(Event::Root(Poll::Pending)), step(Action::PollRoot, vec![0]));
    assert_eq!(ex.refs(0), None);
}

#[test]
fn task_woken_during_its_run_is_resumed_again() {
    let mut ex = Ex::new();
    ex.block_on::<()>(Event::Start);
    assert_eq!(ex.spawn("a"), 0);
    assert_eq!(ex.spawn("b"), 1);
    assert_eq!(ex.block_on::<()>(Event::Root(Poll::Pending)).action, Action::PollTask(0, "a"));
    // Task 0 yields: it wakes itself through the waker of its context.
    Helper::wake_by_ref(&mut ex, 0);
    assert_eq!(ex.refs(0), Some(2));
    assert_eq!(
        ex.block_on::<()>(Event::Task(Resumed::Pending("a"))),
        step(Action::PollTask(1, "b"), vec![])
    );
    assert_eq!(
        ex.block_on::<()>(Event::Task(Resumed::Ready)),
        step(Action::PollTask(0, "a"), vec![1])
    );
    assert_eq!(ex.block_on::<()>(Event::Task(Resumed::Ready)), step(Action::PollRoot, vec![0]));
}

#[test]
fn pending_task_without_waker_is_cancelled() {
    let mut ex = Ex::new();
    ex.block_on::<()>(Event::Start);
    assert_eq!(ex.spawn("a"), 0);
    assert_eq!(ex.block_on::<()>(Event::Root(Poll::Pending)).action, Action::PollTask(0, "a"));
    assert_eq!(
        ex.block_on::<()>(Event::Task(Resumed::Pending("a"))),
        Step { action: Action::PollRoot, released: vec![0], cancelled: Some("a") }
    );
    assert_eq!(ex.refs(0), None);
}

#[test]
fn tasks_left_in_the_queue_survive_the_return() {
    let mut ex = Ex::new();
    ex.block_on::<u8>(Event::Start);
    assert_eq!(ex.spawn("a"), 0);
    assert_eq!(ex.block_on(Event::Root(Poll::Ready(1u8))).action, Action::Return(1));
    assert_eq!(ex.queued(), 1);
    assert_eq!(ex.block_on::<u8>(Event::Start).action, Action::PollRoot);
    assert_eq!(ex.block_on::<u8>(Event::Root(Poll::Pending)).action, Action::PollTask(0, "a"));
    assert_eq!(ex.spawn("b"), 1);
}

#[test]
fn task_spawned_while_root_is_checked_again_runs_before_the_thread_blocks() {
    let mut ex = Ex::new();
    assert_eq!(ex.block_on::<()>(Event::Start).action, Action::PollRoot);
    assert_eq!(ex.block_on::<()>(Event::Root(Poll::Pending)).action, Action::PollRoot);
    assert_eq!(ex.phase(), Phase::Recheck);
    // The root computation spawns a task while it is resumed again.
    assert_eq!(ex.spawn("a"), 0);
    assert_eq!(ex.block_on::<()>(Event::Root(Poll::Pending)), step(Action::PollTask(0, "a"), vec![]));
    assert_eq!(ex.phase(), Phase::Task(0));
    Helper::clone_waker(&mut ex, 0);
    assert_eq!(ex.block_on::<()>(Event::Task(Resumed::Pending("a"))).action, Action::PollRoot);
    assert_eq!(ex.phase(), Phase::Recheck);
    // Now nothing is runnable: the thread blocks.
    assert_eq!(ex.block_on::<()>(Event::Root(Poll::Pending)).action, Action::Wait);
    assert_eq!(ex.queued(), 0);
}

#[test]
fn task_woken_while_root_is_checked_again_runs_before_the_thread_blocks() {
    let mut ex = Ex::new();
    ex.block_on::<()>(Event::Start);
    assert_eq!(ex.spawn("a"), 0);
    assert_eq!(ex.block_on::<()>(Event::Root(Poll::Pending)).action, Action::PollTask(0, "a"));
    Helper::clone_waker(&mut ex, 0);
    assert_eq!(ex.block_on::<()>(Event::Task(Resumed::Pending("a"))).action, Action::PollRoot);
    // The root computation wakes the task while it is resumed again.
    Helper::wake(&mut ex, 0);
    assert_eq!(ex.block_on::<()>(Event::Root(Poll::Pending)), step(Action::PollTask(0, "a"), vec![]));
    assert_eq!(ex.block_on::<()>(Event::Task(Resumed::Ready)), step(Action::PollRoot, vec![0]));
    assert_eq!(ex.block_on::<()>(Event::Root(Poll::Pending)).action, Action::Wait);
}

#[test]
fn stale_entries_found_on_the_recheck_do_not_keep_the_thread_from_blocking() {
    let mut ex = Ex::new();
    ex.block_on::<()>(Event::Start);
    assert_eq!(ex.spawn("a"), 0);
    assert_eq!(ex.block_on::<()>(Event::Root(Poll::Pending)).action, Action::PollTask(0, "a"));
    Helper::clone_waker(&mut ex, 0);
    assert_eq!(ex.block_on::<()>(Event::Task(Resumed::Ready)).action, Action::PollRoot);
    // A waker of the finished task fires while the root is resumed again.
    Helper::wake(&mut ex, 0);
    assert_eq!(ex.queued(), 1);
    // The entry is passed over, and the root computation is resumed once more.
    assert_eq!(ex.block_on::<()>(Event::Root(Poll::Pending)), step(Action::PollRoot, vec![0]));
    assert_eq!(ex.block_on::<()>(Event::Root(Poll::Pending)).action, Action::Wait);
}
