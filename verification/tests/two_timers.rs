use simple_runtime::clock::Clock;
use simple_runtime::parker::{block_on, Next, Parker};
use simple_runtime::poll::Poll;
use simple_runtime::timer::{Dispatch, Dispatcher, Event, Reactor, Task};

// The world around two timer tasks: the reactor, its dispatcher, and the
// clock on which the helpers sleep.
struct World {
    reactor: Reactor<u8>,
    dispatcher: Dispatcher,
    clock: Clock,
}

impl World {
    fn new() -> World {
        World { reactor: Reactor::new(), dispatcher: Dispatcher::new(), clock: Clock::new() }
    }

    // Resumes a timer task; a timeout that it registers starts a helper.
    fn resume(&mut self, task: &Task) -> Poll<usize> {
        let (poll, event) = task.poll(&mut self.reactor, 1);
        if let Some(e) = event {
            self.send(e);
        }
        poll
    }

    fn send(&mut self, e: Event) {
        if let Dispatch::Sleep { duration, id } = self.dispatcher.dispatch(e) {
            assert!(self.clock.can_sleep(duration));
            self.clock.sleep(duration, id);
        }
    }

    // The thread is parked: time passes until the next helper ends and
    // wakes its task, which unparks the thread.
    fn park(&mut self, parker: &mut Parker) {
        let ended = self.clock.next().expect("the thread would never be woken");
        assert_eq!(self.reactor.try_wake(ended.id), Ok(1));
        parker.unpark();
        assert!(parker.park());
    }
}

// The two tasks and the moment at which each of them completed.
struct Both {
    first: Task,
    second: Task,
    first_done: Option<u64>,
    second_done: Option<u64>,
}

// The combination that awaits the first task and then the second.
fn one_after_the_other(both: &mut Both, world: &mut World) -> Poll<()> {
    if both.first_done.is_none() {
        match world.resume(&both.first) {
            Poll::Ready(_) => both.first_done = Some(world.clock.now()),
            Poll::Pending => return Poll::Pending,
        }
    }
    match world.resume(&both.second) {
        Poll::Ready(_) => {
            both.second_done = Some(world.clock.now());
            Poll::Ready(())
        }
        Poll::Pending => Poll::Pending,
    }
}

// The combination that awaits both tasks together.
fn together(both: &mut Both, world: &mut World) -> Poll<()> {
    if both.first_done.is_none() {
        if let Poll::Ready(_) = world.resume(&both.first) {
            both.first_done = Some(world.clock.now());
        }
    }
    if both.second_done.is_none() {
        if let Poll::Ready(_) = world.resume(&both.second) {
            both.second_done = Some(world.clock.now());
        }
    }
    if both.first_done.is_some() && both.second_done.is_some() {
        Poll::Ready(())
    } else {
        Poll::Pending
    }
}

fn drive(both: &mut Both, world: &mut World, combination: fn(&mut Both, &mut World) -> Poll<()>) {
    let mut parker = Parker::new();
    let mut turns = 0;
    loop {
        turns += 1;
        assert!(turns < 20);
        let polled = combination(both, world);
        match block_on(&mut parker, polled) {
            Next::Return(()) => return,
            Next::Resume => {}
            Next::Park => {
                // It does not return before both have completed.
                assert!(both.first_done.is_none() || both.second_done.is_none());
                world.park(&mut parker);
            }
        }
    }
}

#[test]
fn shorter_timer_completes_strictly_before_the_longer() {
    let mut world = World::new();
    let mut both =
        Both { first: Task::new(1, 1), second: Task::new(2, 2), first_done: None, second_done: None };
    drive(&mut both, &mut world, together);
    assert_eq!(both.first_done, Some(1));
    assert_eq!(both.second_done, Some(2));
    assert!(both.first_done.unwrap() < both.second_done.unwrap());
    assert_eq!(world.clock.sleeping(), 0);
    assert!(world.reactor.is_finished(1));
    assert!(world.reactor.is_finished(2));
    let close = world.reactor.close();
    assert_eq!(world.dispatcher.dispatch(close), Dispatch::Stop);
    assert_eq!(world.dispatcher.outstanding(), 2);
}

#[test]
fn shorter_timer_completes_first_when_it_is_registered_last() {
    let mut world = World::new();
    let mut both =
        Both { first: Task::new(5, 1), second: Task::new(3, 2), first_done: None, second_done: None };
    drive(&mut both, &mut world, together);
    assert_eq!(both.second_done, Some(3));
    assert_eq!(both.first_done, Some(5));
}

#[test]
fn timers_awaited_one_after_the_other_complete_in_that_order() {
    let mut world = World::new();
    let mut both =
        Both { first: Task::new(1, 1), second: Task::new(2, 2), first_done: None, second_done: None };
    drive(&mut both, &mut world, one_after_the_other);
    assert_eq!(both.first_done, Some(1));
    assert_eq!(both.second_done, Some(3));
}
