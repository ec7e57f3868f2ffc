use simple_runtime::poll::Poll;
use simple_runtime::timer_future::TimerFuture;
use std::time::Duration;

#[test]
fn timer_is_pending_until_completed() {
    let mut t: TimerFuture<u32> = TimerFuture::new(Duration::from_secs(5));
    assert_eq!(*t.dur(), Duration::from_secs(5));
    assert_eq!(t.poll(1), Poll::Pending);
    assert_eq!(t.poll(2), Poll::Pending);
    assert_eq!(t.complete(), Some(2));
    assert_eq!(t.poll(3), Poll::Ready(()));
    assert_eq!(t.poll(4), Poll::Ready(()));
    assert_eq!(*t.dur(), Duration::from_secs(5));
}

#[test]
fn timer_completed_before_the_first_poll_fires_nothing() {
    let mut t: TimerFuture<u32> = TimerFuture::new(Duration::from_millis(0));
    assert_eq!(t.complete(), None);
    assert_eq!(t.poll(1), Poll::Ready(()));
    assert_eq!(t.complete(), None);
}

#[test]
fn timer_fires_its_waker_once() {
    let mut t: TimerFuture<u32> = TimerFuture::new(Duration::from_millis(10));
    assert_eq!(t.poll(7), Poll::Pending);
    assert_eq!(t.complete(), Some(7));
    assert_eq!(t.complete(), None);
}
