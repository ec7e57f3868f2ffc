//! The TCP transport: a listener and a stream whose operations suspend
//! instead of blocking.
//!
//! The sockets are the driver's. It attempts an operation without blocking
//! and reports the outcome; this module decides what the computation sees.
//! An outcome that would block is never shown to it: the waker of the
//! computation is registered for the direction concerned, and the
//! computation stays pending until the reactor fires.
use crate::poll::Poll;
use crate::reactor::{
    deleted, pending, read_key, reading, watch, write_key, writing, Event, Reactor,
};
use vstd::prelude::*;

verus! {

/// A socket address: the address of the host as a number, and the port.
#[derive(Debug, Clone, Copy, PartialEq, Eq)]
pub enum Address {
    /// An address of the fourth version of the protocol.
    V4(u32, u16),
    /// An address of the sixth version of the protocol.
    V6(u128, u16),
}

/// The family of addresses that a socket speaks.
#[derive(Debug, Clone, Copy, PartialEq, Eq)]
pub enum Domain {
    /// The fourth version of the protocol.
    Ipv4,
    /// The sixth version of the protocol.
    Ipv6,
}

/// How a listening socket is to be made.
#[derive(Debug, Clone, Copy, PartialEq, Eq)]
pub struct Binding {
    /// The address to bind.
    pub address: Address,
    /// The family of the socket.
    pub domain: Domain,
    /// Whether the address may be bound again while old connections linger.
    pub reuse_address: bool,
    /// The number of connections that may wait to be accepted.
    pub backlog: i32,
}

/// Why no listening socket is made.
#[derive(Debug, Clone, Copy, PartialEq, Eq)]
pub enum BindError {
    /// The name resolved to no address.
    EmptyAddress,
}

/// The outcome of one attempt at an operation on a non-blocking socket.
#[derive(Debug, PartialEq, Eq)]
pub enum Attempt<T, E> {
    /// The operation was performed.
    Done(T),
    /// The operation could not be performed without blocking.
    WouldBlock,
    /// The operation failed for another reason.
    Failed(E),
}

/// What the computation sees of an attempt, and what the driver is to tell
/// the multiplexer.
pub struct Polled<T> {
    /// The outcome for the computation.
    pub poll: Poll<T>,
    /// What the driver is to hand to the multiplexer, if anything: for a
    /// computation that suspends the whole watch of its descriptor, with
    /// the other direction in it if a waker is pending there; for a new
    /// connection the interest to add it with.
    pub interest: Option<Event>,
}

/// The number of connections that may wait at a listener.
pub const BACKLOG: i32 = 1024;

/// The binding for the addresses that a name resolved to: the first of them.
pub open spec fn binding_for(addresses: Seq<Address>) -> Result<Binding, BindError> {
    if addresses.len() == 0 {
        Err(BindError::EmptyAddress)
    } else {
        Ok(
            Binding {
                address: addresses[0],
                domain: if addresses[0] is V6 {
                    Domain::Ipv6
                } else {
                    Domain::Ipv4
                },
                reuse_address: true,
                backlog: BACKLOG,
            },
        )
    }
}

/// A listening socket that is registered with a reactor.
#[derive(Debug)]
pub struct TcpListener {
    fd: i32,
}

/// A connected socket that is registered with a reactor.
#[derive(Debug)]
pub struct TcpStream {
    fd: i32,
}

impl TcpListener {
    #[verifier::type_invariant]
    spec fn is_descriptor(self) -> bool {
        self.fd >= 0
    }

    /// Decides how the listening socket for a resolved name is made: for the
    /// first address, in the family of that address, with address reuse and
    /// the standard backlog. A name that resolved to nothing is rejected.
    pub fn bind(addresses: &Vec<Address>) -> (outcome: Result<Binding, BindError>)
        ensures
            outcome == binding_for(addresses@),
    {
        if addresses.len() == 0 {
            return Err(BindError::EmptyAddress);
        }
        let address = addresses[0];
        let domain = match address {
            Address::V6(_, _) => Domain::Ipv6,
            Address::V4(_, _) => Domain::Ipv4,
        };
        Ok(Binding { address, domain, reuse_address: true, backlog: BACKLOG })
    }

    /// The listener on the bound socket `fd`, added to `reactor`. The driver
    /// is to make the descriptor non-blocking and to add it to the
    /// multiplexer with the interest that is returned.
    pub fn listen<W>(fd: i32, reactor: &mut Reactor<W>) -> (made: (TcpListener, Event))
        requires
            fd >= 0,
        ensures
            made.0.fd() == fd,
            made.1 == (Event { key: fd as usize, readable: false, writable: false }),
            final(reactor)@ == old(reactor)@,
    {
        let interest = reactor.add(fd);
        (TcpListener { fd }, interest)
    }

    /// The descriptor of the socket.
    pub closed spec fn fd(&self) -> i32 {
        self.fd
    }

    /// The descriptor of the socket.
    pub fn as_raw_fd(&self) -> (fd: i32)
        ensures
            fd == self.fd(),
            fd >= 0,
    {
        proof {
            use_type_invariant(self);
        }
        self.fd
    }

    /// Decides what the computation that awaits the next connection sees of
    /// an attempt to accept one.
    ///
    /// An accepted connection, given by its descriptor and whatever else the
    /// driver has of it, becomes a stream that is added to the reactor. An
    /// attempt that would block registers `waker` for readability of the
    /// listener and suspends the computation; the interest that comes back
    /// is the whole watch of the listener. Any other failure is handed to
    /// the computation.
    pub fn poll_next<W, A, E>(
        &self,
        reactor: &mut Reactor<W>,
        accepted: Attempt<(i32, A), E>,
        waker: W,
    ) -> (polled: Polled<Option<Result<(TcpStream, A), E>>>)
        requires
            accepted matches Attempt::Done(connection) ==> connection.0 >= 0,
        ensures
            match accepted {
                Attempt::Done(connection) => final(reactor)@ == old(reactor)@ && polled.interest
                    == Some(Event { key: connection.0 as usize, readable: false, writable: false })
                    && (polled.poll matches Poll::Ready(Some(Ok(made))) && made.0.fd()
                    == connection.0 && made.1 == connection.1),
                Attempt::WouldBlock => final(reactor)@ == reading(old(reactor)@, self.fd(), waker)
                    && polled.interest == Some(
                    Event {
                        key: self.fd() as usize,
                        readable: true,
                        writable: pending(old(reactor)@, write_key(self.fd() as int)),
                    },
                ) && polled.interest == Some(watch(final(reactor)@, self.fd() as usize))
                    && polled.poll is Pending,
                Attempt::Failed(e) => final(reactor)@ == old(reactor)@ && polled.interest.is_none()
                    && polled.poll == Poll::Ready(Some(Err::<(TcpStream, A), E>(e))),
            },
    {
        proof {
            use_type_invariant(self);
        }
        match accepted {
            Attempt::Done(connection) => {
                let (stream, interest) = TcpStream::from(connection.0, reactor);
                Polled { poll: Poll::Ready(Some(Ok((stream, connection.1)))), interest: Some(interest) }
            },
            Attempt::WouldBlock => {
                let interest = reactor.interest_readable(self.fd, waker);
                Polled { poll: Poll::Pending, interest: Some(interest) }
            },
            Attempt::Failed(e) => Polled { poll: Poll::Ready(Some(Err(e))), interest: None },
        }
    }
}

impl TcpStream {
    #[verifier::type_invariant]
    spec fn is_descriptor(self) -> bool {
        self.fd >= 0
    }

    /// The stream on the connected socket `fd`, added to `reactor`. The
    /// driver is to make the descriptor non-blocking and to add it to the
    /// multiplexer with the interest that is returned.
    pub fn from<W>(fd: i32, reactor: &mut Reactor<W>) -> (made: (TcpStream, Event))
        requires
            fd >= 0,
        ensures
            made.0.fd() == fd,
            made.1 == (Event { key: fd as usize, readable: false, writable: false }),
            final(reactor)@ == old(reactor)@,
    {
        let interest = reactor.add(fd);
        (TcpStream { fd }, interest)
    }

    /// The descriptor of the socket.
    pub closed spec fn fd(&self) -> i32 {
        self.fd
    }

    /// The descriptor of the socket.
    pub fn as_raw_fd(&self) -> (fd: i32)
        ensures
            fd == self.fd(),
            fd >= 0,
    {
        proof {
            use_type_invariant(self);
        }
        self.fd
    }

    /// Decides what the reading computation sees of an attempt to read.
    ///
    /// The number of bytes read is handed on, and so is a failure; an
    /// attempt that would block registers `waker` for readability of the
    /// stream and suspends the computation. The interest that comes back is
    /// then the whole watch of the stream: a writer that is suspended on it
    /// stays armed.
    pub fn poll_read<W, E>(
        &self,
        reactor: &mut Reactor<W>,
        read: Attempt<usize, E>,
        waker: W,
    ) -> (polled: Polled<Result<usize, E>>)
        ensures
            match read {
                Attempt::Done(n) => final(reactor)@ == old(reactor)@ && polled.interest.is_none()
                    && polled.poll == Poll::Ready(Ok::<usize, E>(n)),
                Attempt::WouldBlock => final(reactor)@ == reading(old(reactor)@, self.fd(), waker)
                    && polled.interest == Some(
                    Event {
                        key: self.fd() as usize,
                        readable: true,
                        writable: pending(old(reactor)@, write_key(self.fd() as int)),
                    },
                ) && polled.interest == Some(watch(final(reactor)@, self.fd() as usize))
                    && polled.poll is Pending,
                Attempt::Failed(e) => final(reactor)@ == old(reactor)@ && polled.interest.is_none()
                    && polled.poll == Poll::Ready(Err::<usize, E>(e)),
            },
    {
        proof {
            use_type_invariant(self);
        }
        match read {
            Attempt::Done(n) => Polled { poll: Poll::Ready(Ok(n)), interest: None },
            Attempt::WouldBlock => {
                let interest = reactor.interest_readable(self.fd, waker);
                Polled { poll: Poll::Pending, interest: Some(interest) }
            },
            Attempt::Failed(e) => Polled { poll: Poll::Ready(Err(e)), interest: None },
        }
    }

    /// Decides what the writing computation sees of an attempt to write.
    ///
    /// The number of bytes written is handed on, and so is a failure; an
    /// attempt that would block registers `waker` for writability of the
    /// stream and suspends the computation. The interest that comes back is
    /// then the whole watch of the stream: a reader that is suspended on it
    /// stays armed.
    pub fn poll_write<W, E>(
        &self,
        reactor: &mut Reactor<W>,
        written: Attempt<usize, E>,
        waker: W,
    ) -> (polled: Polled<Result<usize, E>>)
        ensures
            match written {
                Attempt::Done(n) => final(reactor)@ == old(reactor)@ && polled.interest.is_none()
                    && polled.poll == Poll::Ready(Ok::<usize, E>(n)),
                Attempt::WouldBlock => final(reactor)@ == writing(old(reactor)@, self.fd(), waker)
                    && polled.interest == Some(
                    Event {
                        key: self.fd() as usize,
                        readable: pending(old(reactor)@, read_key(self.fd() as int)),
                        writable: true,
                    },
                ) && polled.interest == Some(watch(final(reactor)@, self.fd() as usize))
                    && polled.poll is Pending,
                Attempt::Failed(e) => final(reactor)@ == old(reactor)@ && polled.interest.is_none()
                    && polled.poll == Poll::Ready(Err::<usize, E>(e)),
            },
    {
        proof {
            use_type_invariant(self);
        }
        match written {
            Attempt::Done(n) => Polled { poll: Poll::Ready(Ok(n)), interest: None },
            Attempt::WouldBlock => {
                let interest = reactor.interest_writable(self.fd, waker);
                Polled { poll: Poll::Pending, interest: Some(interest) }
            },
            Attempt::Failed(e) => Polled { poll: Poll::Ready(Err(e)), interest: None },
        }
    }

    /// Nothing is buffered, so flushing is done at once.
    pub fn poll_flush<E>(&self) -> (polled: Poll<Result<(), E>>)
        ensures
            polled == Poll::Ready(Ok::<(), E>(())),
    {
        Poll::Ready(Ok(()))
    }

    /// Ends the life of the stream: the pending wakers of both its
    /// directions leave the reactor, so that no entry of the table outlives
    /// the socket.
    pub fn deregister<W>(self, reactor: &mut Reactor<W>)
        ensures
            final(reactor)@ == deleted(old(reactor)@, self.fd()),
            !pending(final(reactor)@, read_key(self.fd() as int)),
            !pending(final(reactor)@, write_key(self.fd() as int)),
    {
        proof {
            use_type_invariant(&self);
        }
        reactor.delete(self.fd);
    }
}

/// The two directions of a stream suspend independently: registering for
/// one leaves the waker of the other where it is, and leaves the other
/// watched exactly if it was.
pub proof fn law_directions_are_independent<W>(table: Map<u64, W>, fd: i32, waker: W)
    requires
        fd >= 0,
    ensures
        watch(reading(table, fd, waker), fd as usize).readable,
        watch(reading(table, fd, waker), fd as usize).writable == watch(table, fd as usize).writable,
        watch(writing(table, fd, waker), fd as usize).writable,
        watch(writing(table, fd, waker), fd as usize).readable == watch(table, fd as usize).readable,
        pending(reading(table, fd, waker), write_key(fd as int)) == pending(
            table,
            write_key(fd as int),
        ),
        pending(writing(table, fd, waker), read_key(fd as int)) == pending(
            table,
            read_key(fd as int),
        ),
        pending(table, write_key(fd as int)) ==> reading(table, fd, waker)[write_key(
            fd as int,
        ) as u64] == table[write_key(fd as int) as u64],
        pending(table, read_key(fd as int)) ==> writing(table, fd, waker)[read_key(fd as int) as u64]
            == table[read_key(fd as int) as u64],
{
}

} // verus!
