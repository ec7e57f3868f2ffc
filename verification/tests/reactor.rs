use nix::fcntl::OFlag;
use simple_runtime::reactor::{nonblocking, with_flag, Event, Reactor, Woken};

#[test]
fn add_then_delete_leaves_no_pending_waker() {
    let mut r: Reactor<&'static str> = Reactor::new();
    assert_eq!(r.add(3), Event { key: 3, readable: false, writable: false });
    assert_eq!(r.len(), 0);
    r.delete(3);
    assert!(!r.is_reading(3));
    assert!(!r.is_writing(3));
    assert_eq!(r.len(), 0);
}

#[test]
fn delete_drops_both_directions_and_nothing_else() {
    let mut r: Reactor<&'static str> = Reactor::new();
    r.add(3);
    r.add(4);
    assert_eq!(r.interest_readable(3, "r3"), Event { key: 3, readable: true, writable: false });
    // The reader is pending: the watch that arms the writer keeps it armed.
    assert_eq!(r.interest_writable(3, "w3"), Event { key: 3, readable: true, writable: true });
    r.interest_readable(4, "r4");
    assert_eq!(r.len(), 3);
    assert!(r.is_reading(3) && r.is_writing(3) && r.is_reading(4) && !r.is_writing(4));
    r.delete(3);
    assert!(!r.is_reading(3));
    assert!(!r.is_writing(3));
    assert!(r.is_reading(4));
    assert_eq!(r.len(), 1);
}

#[test]
fn registering_one_direction_keeps_the_other_armed() {
    let mut r: Reactor<&'static str> = Reactor::new();
    assert_eq!(r.watch(7), Event::none(7));
    assert_eq!(r.interest_writable(7, "w"), Event::writable(7));
    assert_eq!(r.interest_readable(7, "r"), Event { key: 7, readable: true, writable: true });
    assert_eq!(r.watch(7), Event { key: 7, readable: true, writable: true });
    // Registering again for a direction does not change the watch.
    assert_eq!(r.interest_writable(7, "w2"), Event { key: 7, readable: true, writable: true });
    // Another descriptor is watched on its own.
    assert_eq!(r.interest_readable(8, "r8"), Event::readable(8));
    assert_eq!(r.watch(8), Event::readable(8));
    r.delete(7);
    assert_eq!(r.watch(7), Event::none(7));
    assert_eq!(r.watch(usize::MAX), Event::none(usize::MAX));
}

#[test]
fn wait_arms_again_what_is_still_pending() {
    let mut r: Reactor<&'static str> = Reactor::new();
    r.interest_readable(6, "r6");
    r.interest_writable(6, "w6");
    r.interest_readable(9, "r9");
    // The multiplexer reports descriptor 6 writable and descriptor 9
    // readable, and with that has dropped its watch on both.
    let woken = r.wait(&vec![Event::writable(6), Event::readable(9)]);
    assert_eq!(
        woken,
        Woken { wakers: vec!["w6", "r9"], rearm: vec![Event::readable(6)] }
    );
    assert!(r.is_reading(6));
    // The reader of descriptor 6 is armed again and is fired by the next event.
    assert_eq!(
        r.wait(&vec![Event::readable(6)]),
        Woken { wakers: vec!["r6"], rearm: vec![] }
    );
}

#[test]
fn wait_arms_again_a_source_whose_event_fired_nothing() {
    let mut r: Reactor<&'static str> = Reactor::new();
    r.interest_writable(6, "w6");
    // The source is reported readable, which nobody waits for.
    assert_eq!(
        r.wait(&vec![Event::readable(6)]),
        Woken { wakers: vec![], rearm: vec![Event::writable(6)] }
    );
    assert!(r.is_writing(6));
}

#[test]
fn event_constructors_name_their_direction() {
    assert_eq!(Event::none(7), Event { key: 7, readable: false, writable: false });
    assert_eq!(Event::readable(7), Event { key: 7, readable: true, writable: false });
    assert_eq!(Event::writable(7), Event { key: 7, readable: false, writable: true });
}

#[test]
fn registering_again_overwrites_the_pending_waker() {
    let mut r: Reactor<u32> = Reactor::new();
    r.interest_readable(5, 1);
    r.interest_readable(5, 2);
    assert_eq!(r.len(), 1);
    assert_eq!(r.wait(&vec![Event::readable(5)]).wakers, vec![2]);
}

#[test]
fn interest_is_one_shot() {
    let mut r: Reactor<u32> = Reactor::new();
    r.interest_readable(5, 1);
    assert_eq!(r.wait(&vec![Event::readable(5)]).wakers, vec![1]);
    assert!(!r.is_reading(5));
    assert_eq!(r.wait(&vec![Event::readable(5)]).wakers, Vec::<u32>::new());
}

#[test]
fn wait_fires_read_before_write_of_one_event() {
    let mut r: Reactor<&'static str> = Reactor::new();
    r.interest_writable(6, "w");
    r.interest_readable(6, "r");
    assert_eq!(r.wait(&vec![Event { key: 6, readable: true, writable: true }]).wakers, vec!["r", "w"]);
    assert_eq!(r.len(), 0);
}

#[test]
fn wait_leaves_the_direction_that_is_not_ready() {
    let mut r: Reactor<&'static str> = Reactor::new();
    r.interest_writable(6, "w");
    r.interest_readable(6, "r");
    assert_eq!(r.wait(&vec![Event::writable(6)]).wakers, vec!["w"]);
    assert!(r.is_reading(6));
    assert!(!r.is_writing(6));
    assert_eq!(r.wait(&vec![Event::none(6)]).wakers, Vec::<&'static str>::new());
    assert!(r.is_reading(6));
}

#[test]
fn wait_handles_the_first_event_then_the_rest_backwards() {
    let mut r: Reactor<&'static str> = Reactor::new();
    r.interest_readable(1, "a");
    r.interest_readable(2, "b");
    r.interest_readable(3, "c");
    r.interest_readable(4, "d");
    let events =
        vec![Event::readable(1), Event::readable(2), Event::readable(3), Event::readable(4)];
    assert_eq!(r.wait(&events).wakers, vec!["a", "d", "c", "b"]);
    assert_eq!(r.len(), 0);
}

#[test]
fn wait_on_no_events_fires_nothing() {
    let mut r: Reactor<u8> = Reactor::new();
    r.interest_readable(1, 1);
    assert_eq!(r.wait(&vec![]).wakers, Vec::<u8>::new());
    assert_eq!(r.len(), 1);
}

#[test]
fn wait_ignores_keys_that_no_descriptor_has() {
    let mut r: Reactor<u8> = Reactor::new();
    r.interest_readable(0, 1);
    r.interest_writable(3, 2);
    let events = vec![
        Event { key: usize::MAX, readable: true, writable: true },
        Event { key: usize::MAX / 2 + 2, readable: true, writable: true },
    ];
    assert_eq!(r.wait(&events).wakers, Vec::<u8>::new());
    assert_eq!(r.len(), 2);
}

#[test]
fn read_and_write_keys_of_neighbouring_descriptors_do_not_collide() {
    let mut r: Reactor<&'static str> = Reactor::new();
    r.interest_writable(2, "w2");
    r.interest_readable(3, "r3");
    assert_eq!(r.len(), 2);
    assert_eq!(r.wait(&vec![Event::readable(2), Event::writable(3)]).wakers, Vec::<&'static str>::new());
    assert_eq!(r.wait(&vec![Event::readable(3)]).wakers, vec!["r3"]);
    assert_eq!(r.wait(&vec![Event::writable(2)]).wakers, vec!["w2"]);
}

#[test]
fn largest_descriptor_has_keys() {
    let mut r: Reactor<u8> = Reactor::new();
    r.interest_readable(i32::MAX, 1);
    r.interest_writable(i32::MAX, 2);
    assert!(r.is_reading(i32::MAX));
    assert!(r.is_writing(i32::MAX));
    assert_eq!(r.wait(&vec![Event { key: i32::MAX as usize, readable: true, writable: true }]).wakers, vec![1, 2]);
}

#[test]
fn nonblocking_sets_the_flag_of_the_system() {
    let nonblock = OFlag::O_NONBLOCK.bits();
    assert_ne!(nonblock, 0);
    assert_eq!(nonblocking(0), Some(nonblock));
    let append = OFlag::O_APPEND.bits();
    assert_eq!(nonblocking(append), Some(append | nonblock));
    assert_eq!(nonblocking(nonblock), Some(nonblock));
}

#[test]
fn nonblocking_rejects_flags_that_the_system_does_not_know() {
    let unknown = !OFlag::all().bits();
    assert_ne!(unknown, 0);
    assert_eq!(nonblocking(unknown), None);
}

#[test]
fn with_flag_sets_the_flag_only_in_known_flags() {
    assert_eq!(with_flag(0b0101, true, 0b0010), Some(0b0111));
    assert_eq!(with_flag(0b0101, true, 0b0100), Some(0b0101));
    assert_eq!(with_flag(0b0101, false, 0b0010), None);
}
