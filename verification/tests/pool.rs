use simple_runtime::pool::{spawn, worker_count, worker_count_for, Ended, Entry, JoinHandle, Pool};
use simple_runtime::task::{RUNNING, WOKEN};

#[test]
fn worker_count_is_one_for_each_processor_and_at_least_one() {
    assert_eq!(worker_count_for(0), 1);
    assert_eq!(worker_count_for(1), 1);
    assert_eq!(worker_count_for(8), 8);
    assert_eq!(worker_count(), num_cpus::get().max(1));
    assert!(worker_count() >= 1);
}

#[test]
fn spawned_task_is_queued_idle() {
    let mut pool: Pool<&'static str, u32> = Pool::new();
    assert_eq!(pool.spawned(), 0);
    let h = pool.spawn("a");
    assert_eq!(h.task(), 0);
    assert_eq!(spawn(&mut pool, "b").task(), 1);
    assert_eq!(pool.spawned(), 2);
    assert_eq!(pool.queued(), 2);
    assert_eq!(pool.entry(0), Some(Entry { state: 0, held: false, started: false, done: false }));
    assert_eq!(pool.entry(2), None);
}

fn run_to_completion(pool: &mut Pool<u64, u64>, workers: usize) -> u64 {
    // Each worker holds at most one task. In every round each free worker
    // takes a task and begins to run it, then the workers end their runs in
    // reverse order. A computation is the number that its result is made of.
    let mut completions: u64 = 0;
    let mut hands: Vec<Option<(u64, u64)>> = vec![None; workers];
    loop {
        let mut busy = false;
        for w in 0..workers {
            if let Some(id) = pool.take() {
                let computation = pool.start(id);
                hands[w] = Some((id, computation));
                busy = true;
            }
        }
        if !busy {
            return completions;
        }
        for w in (0..workers).rev() {
            if let Some((id, computation)) = hands[w].take() {
                assert!(!pool.finish(id, Ended::Ready(computation * 10)));
                completions += 1;
            }
        }
    }
}

fn spawn_and_join(k: u64, workers: usize) {
    let mut pool: Pool<u64, u64> = Pool::new();
    let mut handles: Vec<JoinHandle> = Vec::new();
    for i in 0..k {
        handles.push(pool.spawn(i + 100));
    }
    assert_eq!(run_to_completion(&mut pool, workers), k);
    assert_eq!(pool.queued(), 0);
    let mut seen: Vec<u64> = Vec::new();
    for h in handles {
        let id = h.task();
        match pool.join(h) {
            Ok(value) => {
                assert_eq!(value, (id + 100) * 10);
                seen.push(id);
            }
            Err(_) => panic!("a result was lost"),
        }
    }
    seen.sort();
    seen.dedup();
    assert_eq!(seen.len() as u64, k);
    for id in 0..k {
        assert_eq!(
            pool.entry(id).unwrap(),
            Entry { state: RUNNING, held: false, started: true, done: true }
        );
    }
}

#[test]
fn every_immediate_computation_completes_once_on_one_worker() {
    spawn_and_join(7, 1);
}

#[test]
fn every_immediate_computation_completes_once_on_three_workers() {
    spawn_and_join(7, 3);
}

#[test]
fn every_immediate_computation_completes_once_on_more_workers_than_tasks() {
    spawn_and_join(2, 5);
    spawn_and_join(0, 2);
}

#[test]
fn result_is_handed_over_once() {
    let mut pool: Pool<u8, &'static str> = Pool::new();
    let h = pool.spawn(1);
    let h = match pool.join(h) {
        Err(back) => back,
        Ok(_) => panic!("nothing has run yet"),
    };
    assert_eq!(h.task(), 0);
    assert_eq!(pool.take(), Some(0));
    assert_eq!(pool.start(0), 1);
    assert!(!pool.finish(0, Ended::Ready("done")));
    assert!(matches!(pool.join(h), Ok("done")));
    assert_eq!(pool.take(), None);
}

#[test]
fn computation_comes_back_as_it_was_given_back() {
    let mut pool: Pool<&'static str, u8> = Pool::new();
    pool.spawn("fresh");
    assert_eq!(pool.take(), Some(0));
    assert_eq!(pool.start(0), "fresh");
    assert!(!pool.finish(0, Ended::Pending("resumed once")));
    assert!(pool.wake(0));
    assert_eq!(pool.take(), Some(0));
    assert_eq!(pool.start(0), "resumed once");
}

#[test]
fn wake_of_idle_task_enqueues_once_per_burst() {
    let mut pool: Pool<u8, u8> = Pool::new();
    pool.spawn(1);
    assert_eq!(pool.take(), Some(0));
    pool.start(0);
    assert!(!pool.finish(0, Ended::Pending(1)));
    assert_eq!(pool.entry(0), Some(Entry { state: 0, held: false, started: true, done: false }));
    assert_eq!(pool.queued(), 0);
    assert!(pool.wake(0));
    assert!(!pool.wake(0));
    assert!(!pool.wake(0));
    assert_eq!(pool.queued(), 1);
    assert_eq!(pool.entry(0), Some(Entry { state: WOKEN, held: false, started: true, done: false }));
    // Wakes that arrive after the worker took the task do not enqueue either.
    assert_eq!(pool.take(), Some(0));
    assert!(!pool.wake(0));
    assert_eq!(pool.queued(), 0);
}

#[test]
fn wakes_during_a_run_requeue_once_at_its_end() {
    let mut pool: Pool<u8, u8> = Pool::new();
    pool.spawn(1);
    assert_eq!(pool.take(), Some(0));
    pool.start(0);
    assert_eq!(pool.entry(0), Some(Entry { state: RUNNING, held: true, started: true, done: false }));
    assert!(!pool.wake(0));
    assert!(!pool.wake(0));
    assert_eq!(pool.queued(), 0);
    assert_eq!(
        pool.entry(0),
        Some(Entry { state: WOKEN | RUNNING, held: true, started: true, done: false })
    );
    assert!(pool.finish(0, Ended::Pending(1)));
    assert_eq!(pool.queued(), 1);
    assert_eq!(pool.entry(0), Some(Entry { state: WOKEN, held: false, started: true, done: false }));
    assert_eq!(pool.take(), Some(0));
    assert_eq!(pool.take(), None);
}

#[test]
fn start_forgets_earlier_wakes() {
    let mut pool: Pool<u8, u8> = Pool::new();
    pool.spawn(1);
    pool.take();
    pool.start(0);
    pool.finish(0, Ended::Pending(1));
    assert!(pool.wake(0));
    assert_eq!(pool.take(), Some(0));
    pool.start(0);
    assert_eq!(pool.entry(0), Some(Entry { state: RUNNING, held: true, started: true, done: false }));
    assert!(!pool.finish(0, Ended::Pending(1)));
    assert_eq!(pool.queued(), 0);
}

#[test]
fn wake_of_finished_task_changes_no_queue() {
    let mut pool: Pool<u8, u8> = Pool::new();
    pool.spawn(1);
    pool.take();
    pool.start(0);
    pool.finish(0, Ended::Ready(1));
    assert!(!pool.wake(0));
    assert_eq!(pool.queued(), 0);
    assert_eq!(pool.take(), None);
    assert_eq!(
        pool.entry(0),
        Some(Entry { state: WOKEN | RUNNING, held: false, started: true, done: true })
    );
}

#[test]
fn tasks_are_taken_in_the_order_they_were_queued() {
    let mut pool: Pool<u8, u8> = Pool::new();
    pool.spawn(10);
    pool.spawn(11);
    pool.spawn(12);
    assert_eq!(pool.take(), Some(0));
    assert_eq!(pool.take(), Some(1));
    assert_eq!(pool.start(1), 11);
    assert!(!pool.wake(1));
    assert!(pool.finish(1, Ended::Pending(11)));
    assert_eq!(pool.take(), Some(2));
    assert_eq!(pool.take(), Some(1));
    assert_eq!(pool.take(), None);
}

#[test]
fn running_task_cannot_be_taken_by_another_worker() {
    let mut pool: Pool<u8, u8> = Pool::new();
    pool.spawn(1);
    pool.spawn(2);
    assert_eq!(pool.take(), Some(0));
    pool.start(0);
    assert!(!pool.wake(0));
    // The other worker finds only the other task.
    assert_eq!(pool.take(), Some(1));
    assert_eq!(pool.take(), None);
    assert_eq!(pool.queued(), 0);
}
