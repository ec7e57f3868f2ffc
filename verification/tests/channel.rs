use simple_runtime::channel::{new_exector_and_spawner, Executor, Ran, Spawner, Task, Turn, MAX_QUEUED_TASKS};

fn poll_turn(turn: Turn<&'static str>) -> (u64, &'static str) {
    match turn {
        Turn::Poll(id, future) => (id, future),
        _ => panic!("the queue was empty"),
    }
}

#[test]
fn task_slot_holds_what_it_was_made_with() {
    assert_eq!(Task::new(Some(3)).future, Some(3));
    assert_eq!(Task::<u8>::new(None).future, None);
}

#[test]
fn waits_while_a_sender_is_left_and_stops_when_none_is() {
    let (mut ex, spawner): (Executor<&'static str>, Spawner) = new_exector_and_spawner();
    assert_eq!(ex.queued(), 0);
    assert_eq!(ex.senders(), 1);
    assert!(matches!(ex.run(Ran::Nothing), Turn::Wait));
    assert!(!ex.contains(0));
    ex.connect();
    assert_eq!(ex.senders(), 2);
    spawner.close(&mut ex);
    assert!(matches!(ex.run(Ran::Nothing), Turn::Wait));
    ex.disconnect();
    assert_eq!(ex.senders(), 0);
    assert!(matches!(ex.run(Ran::Nothing), Turn::Stop));
}

#[test]
fn queued_tasks_are_resumed_after_the_spawner_was_closed() {
    let (mut ex, spawner) = new_exector_and_spawner();
    spawner.spawn(&mut ex, "a").unwrap();
    spawner.close(&mut ex);
    assert_eq!(poll_turn(ex.run(Ran::Nothing)), (0, "a"));
    assert!(matches!(ex.run(Ran::Ready), Turn::Stop));
    assert!(ex.is_finished(0));
}

#[test]
fn tasks_are_resumed_in_the_order_they_were_spawned() {
    let (mut ex, spawner) = new_exector_and_spawner();
    assert_eq!(spawner.spawn(&mut ex, "a"), Ok(0));
    assert_eq!(spawner.spawn(&mut ex, "b"), Ok(1));
    assert_eq!(ex.queued(), 2);
    assert_eq!(poll_turn(ex.run(Ran::Nothing)), (0, "a"));
    assert!(!ex.is_finished(0));
    assert_eq!(poll_turn(ex.run(Ran::Ready)), (1, "b"));
    assert!(ex.is_finished(0));
    assert!(matches!(ex.run(Ran::Ready), Turn::Wait));
    assert!(ex.is_finished(1));
}

#[test]
fn pending_computation_returns_to_its_slot_and_runs_when_woken() {
    let (mut ex, spawner) = new_exector_and_spawner();
    spawner.spawn(&mut ex, "a").unwrap();
    assert_eq!(poll_turn(ex.run(Ran::Nothing)), (0, "a"));
    assert!(matches!(ex.run(Ran::Pending("a1")), Turn::Wait));
    assert!(!ex.is_finished(0));
    assert!(ex.wake_by_ref(0));
    assert_eq!(poll_turn(ex.run(Ran::Nothing)), (0, "a1"));
    assert!(matches!(ex.run(Ran::Ready), Turn::Wait));
    assert!(ex.is_finished(0));
}

#[test]
fn finished_task_is_passed_over_when_woken() {
    let (mut ex, spawner) = new_exector_and_spawner();
    spawner.spawn(&mut ex, "a").unwrap();
    spawner.spawn(&mut ex, "b").unwrap();
    assert_eq!(poll_turn(ex.run(Ran::Nothing)), (0, "a"));
    // Task 0 wakes itself twice during its run and then finishes.
    assert!(ex.wake_by_ref(0));
    assert!(ex.wake_by_ref(0));
    assert_eq!(poll_turn(ex.run(Ran::Ready)), (1, "b"));
    // The two stale entries of task 0 are passed over.
    assert!(matches!(ex.run(Ran::Ready), Turn::Wait));
    assert_eq!(ex.queued(), 0);
    assert!(ex.wake_by_ref(0));
    assert!(matches!(ex.run(Ran::Nothing), Turn::Wait));
    assert!(ex.is_finished(0));
}

#[test]
fn task_woken_twice_while_pending_is_resumed_once_per_entry() {
    let (mut ex, spawner) = new_exector_and_spawner();
    spawner.spawn(&mut ex, "a").unwrap();
    assert_eq!(poll_turn(ex.run(Ran::Nothing)), (0, "a"));
    assert!(matches!(ex.run(Ran::Pending("a")), Turn::Wait));
    assert!(ex.wake_by_ref(0));
    assert!(ex.wake_by_ref(0));
    assert_eq!(poll_turn(ex.run(Ran::Nothing)), (0, "a"));
    assert_eq!(poll_turn(ex.run(Ran::Pending("a"))), (0, "a"));
    assert!(matches!(ex.run(Ran::Ready), Turn::Wait));
}

#[test]
fn full_queue_takes_no_further_task() {
    let (mut ex, spawner) = new_exector_and_spawner();
    for i in 0..MAX_QUEUED_TASKS {
        assert_eq!(spawner.spawn(&mut ex, i), Ok(i as u64));
    }
    assert_eq!(MAX_QUEUED_TASKS, 10_000);
    assert_eq!(ex.queued(), 10_000);
    assert_eq!(spawner.spawn(&mut ex, 77), Err(77));
    assert!(!ex.wake_by_ref(0));
    assert!(!ex.contains(10_000));
    assert_eq!(ex.queued(), 10_000);
    assert!(matches!(ex.run(Ran::Nothing), Turn::Poll(0, 0)));
    assert_eq!(spawner.spawn(&mut ex, 78), Ok(10_000));
}
