use simple_runtime::clock::{Clock, Sleeper};

#[test]
fn clock_without_sleepers_stands_still() {
    let mut clock = Clock::new();
    assert_eq!(clock.now(), 0);
    assert_eq!(clock.sleeping(), 0);
    assert_eq!(clock.next(), None);
    assert_eq!(clock.now(), 0);
}

#[test]
fn sleepers_end_in_the_order_they_are_due() {
    let mut clock = Clock::new();
    clock.sleep(30, 1);
    clock.sleep(10, 2);
    clock.sleep(20, 3);
    assert_eq!(clock.sleeping(), 3);
    assert_eq!(clock.next(), Some(Sleeper { due: 10, id: 2 }));
    assert_eq!(clock.now(), 10);
    // A sleep that begins now is counted from now.
    clock.sleep(5, 4);
    assert_eq!(clock.next(), Some(Sleeper { due: 15, id: 4 }));
    assert_eq!(clock.next(), Some(Sleeper { due: 20, id: 3 }));
    assert_eq!(clock.next(), Some(Sleeper { due: 30, id: 1 }));
    assert_eq!(clock.now(), 30);
    assert_eq!(clock.next(), None);
    assert_eq!(clock.now(), 30);
}

#[test]
fn sleepers_due_together_end_in_the_order_they_began() {
    let mut clock = Clock::new();
    clock.sleep(7, 1);
    clock.sleep(7, 2);
    clock.sleep(0, 3);
    assert_eq!(clock.next(), Some(Sleeper { due: 0, id: 3 }));
    assert_eq!(clock.next(), Some(Sleeper { due: 7, id: 1 }));
    assert_eq!(clock.next(), Some(Sleeper { due: 7, id: 2 }));
}

#[test]
fn clock_knows_what_it_can_count() {
    let mut clock = Clock::new();
    assert!(clock.can_sleep(u64::MAX));
    clock.sleep(1, 1);
    clock.next();
    assert!(clock.can_sleep(u64::MAX - 1));
    assert!(!clock.can_sleep(u64::MAX));
}
