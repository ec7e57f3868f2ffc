use simple_runtime::poll::Poll;
use simple_runtime::reactor::{Event, Reactor};
use simple_runtime::tcp::{Address, Attempt, BindError, Binding, Domain, TcpListener, TcpStream, BACKLOG};

#[test]
fn bind_takes_the_first_address_and_its_family() {
    let v4 = Address::V4(0x7f00_0001, 30000);
    let v6 = Address::V6(1, 30000);
    assert_eq!(
        TcpListener::bind(&vec![v4, v6]),
        Ok(Binding { address: v4, domain: Domain::Ipv4, reuse_address: true, backlog: 1024 })
    );
    assert_eq!(
        TcpListener::bind(&vec![v6, v4]),
        Ok(Binding { address: v6, domain: Domain::Ipv6, reuse_address: true, backlog: 1024 })
    );
    assert_eq!(BACKLOG, 1024);
}

#[test]
fn bind_rejects_a_name_without_address() {
    assert_eq!(TcpListener::bind(&vec![]), Err(BindError::EmptyAddress));
}

#[test]
fn listen_adds_the_descriptor_without_interest() {
    let mut r: Reactor<u8> = Reactor::new();
    let (listener, interest) = TcpListener::listen(3, &mut r);
    assert_eq!(listener.as_raw_fd(), 3);
    assert_eq!(interest, Event::none(3));
    assert_eq!(r.len(), 0);
}

#[test]
fn accept_that_would_block_suspends_on_readability() {
    let mut r: Reactor<u8> = Reactor::new();
    let (listener, _) = TcpListener::listen(3, &mut r);
    let polled = listener.poll_next::<u8, (), i32>(&mut r, Attempt::WouldBlock, 9);
    assert!(polled.poll.is_pending());
    assert_eq!(polled.interest, Some(Event::readable(3)));
    assert!(r.is_reading(3));
    assert!(!r.is_writing(3));
    assert_eq!(r.wait(&vec![Event::readable(3)]).wakers, vec![9]);
}

#[test]
fn accepted_connection_becomes_a_registered_stream() {
    let mut r: Reactor<u8> = Reactor::new();
    let (listener, _) = TcpListener::listen(3, &mut r);
    let polled = listener.poll_next::<u8, &'static str, i32>(&mut r, Attempt::Done((4, "peer")), 9);
    assert_eq!(polled.interest, Some(Event::none(4)));
    match polled.poll {
        Poll::Ready(Some(Ok((stream, addr)))) => {
            assert_eq!(stream.as_raw_fd(), 4);
            assert_eq!(addr, "peer");
        }
        _ => panic!("the connection was not handed on"),
    }
    assert_eq!(r.len(), 0);
}

#[test]
fn failed_accept_is_handed_to_the_computation() {
    let mut r: Reactor<u8> = Reactor::new();
    let (listener, _) = TcpListener::listen(3, &mut r);
    let polled = listener.poll_next::<u8, (), i32>(&mut r, Attempt::Failed(24), 9);
    assert_eq!(polled.interest, None);
    match polled.poll {
        Poll::Ready(Some(Err(e))) => assert_eq!(e, 24),
        _ => panic!("the failure was not handed on"),
    }
    assert_eq!(r.len(), 0);
}

#[test]
fn read_and_write_hand_on_what_was_done() {
    let mut r: Reactor<u8> = Reactor::new();
    let (stream, interest) = TcpStream::from(5, &mut r);
    assert_eq!(interest, Event::none(5));
    let read = stream.poll_read::<u8, i32>(&mut r, Attempt::Done(12), 1);
    assert_eq!(read.poll, Poll::Ready(Ok(12)));
    assert_eq!(read.interest, None);
    let read = stream.poll_read::<u8, i32>(&mut r, Attempt::Done(0), 1);
    assert_eq!(read.poll, Poll::Ready(Ok(0)));
    let written = stream.poll_write::<u8, i32>(&mut r, Attempt::Done(7), 1);
    assert_eq!(written.poll, Poll::Ready(Ok(7)));
    assert_eq!(written.interest, None);
    assert_eq!(r.len(), 0);
}

#[test]
fn read_and_write_hand_on_failures_other_than_would_block() {
    let mut r: Reactor<u8> = Reactor::new();
    let (stream, _) = TcpStream::from(5, &mut r);
    let read = stream.poll_read(&mut r, Attempt::Failed("reset"), 1);
    assert_eq!(read.poll, Poll::Ready(Err("reset")));
    assert_eq!(read.interest, None);
    let written = stream.poll_write(&mut r, Attempt::Failed("pipe"), 1);
    assert_eq!(written.poll, Poll::Ready(Err("pipe")));
    assert_eq!(written.interest, None);
    assert_eq!(r.len(), 0);
}

#[test]
fn directions_of_a_stream_suspend_independently() {
    let mut r: Reactor<u8> = Reactor::new();
    let (stream, _) = TcpStream::from(5, &mut r);
    let read = stream.poll_read::<u8, i32>(&mut r, Attempt::WouldBlock, 1);
    assert_eq!(read.poll, Poll::Pending);
    assert_eq!(read.interest, Some(Event::readable(5)));
    let written = stream.poll_write::<u8, i32>(&mut r, Attempt::WouldBlock, 2);
    assert_eq!(written.poll, Poll::Pending);
    // The reader is suspended on the stream: the watch keeps it armed.
    assert_eq!(written.interest, Some(Event { key: 5, readable: true, writable: true }));
    assert!(r.is_reading(5) && r.is_writing(5));
    let woken = r.wait(&vec![Event::writable(5)]);
    assert_eq!(woken.wakers, vec![2]);
    assert_eq!(woken.rearm, vec![Event::readable(5)]);
    assert!(r.is_reading(5));
    assert_eq!(r.wait(&vec![Event::readable(5)]).wakers, vec![1]);
}

#[test]
fn flush_is_done_at_once() {
    let mut r: Reactor<u8> = Reactor::new();
    let (stream, _) = TcpStream::from(5, &mut r);
    assert_eq!(stream.poll_flush::<i32>(), Poll::Ready(Ok(())));
}

#[test]
fn dropped_stream_leaves_no_registration() {
    let mut r: Reactor<u8> = Reactor::new();
    let (stream, _) = TcpStream::from(5, &mut r);
    let (other, _) = TcpStream::from(6, &mut r);
    stream.poll_read::<u8, i32>(&mut r, Attempt::WouldBlock, 1);
    stream.poll_write::<u8, i32>(&mut r, Attempt::WouldBlock, 2);
    other.poll_read::<u8, i32>(&mut r, Attempt::WouldBlock, 3);
    stream.deregister(&mut r);
    assert!(!r.is_reading(5));
    assert!(!r.is_writing(5));
    assert!(r.is_reading(6));
    assert_eq!(r.len(), 1);
}
