//! The echo service: every connection gets back the bytes it sends.
//!
//! A session reads into a buffer and writes what it read, as often as it
//! takes to write all of it, then reads again. It ends when the peer has
//! closed the connection or an operation fails.
use vstd::prelude::*;

verus! {

/// The size of the buffer that a session reads into.
pub const BUFFER: usize = 4096;

/// What the accept loop does with the next item of the listener.
#[derive(Debug, PartialEq, Eq)]
pub enum Served<C> {
    /// Spawn a session for this connection, then await the next one.
    Spawn(C),
    /// The attempt failed: await the next connection.
    Skip,
    /// The listener has ended: so does the service.
    Stop,
}

/// Decides what the accept loop does with `accepted`, the next item of the
/// listener.
pub fn serve<C, E>(accepted: Option<Result<C, E>>) -> (served: Served<C>)
    ensures
        served == match accepted {
            Some(Ok(connection)) => Served::Spawn(connection),
            Some(Err(_)) => Served::Skip,
            None => Served::Stop,
        },
{
    match accepted {
        Some(Ok(connection)) => Served::Spawn(connection),
        Some(Err(_)) => Served::Skip,
        None => Served::Stop,
    }
}

/// Where a session stands.
#[derive(Debug, Clone, Copy, PartialEq, Eq)]
pub enum Session {
    /// A read into the buffer is awaited.
    Reading,
    /// The buffer holds `len` bytes, of which the first `written` have been
    /// written back; a write of the rest is awaited.
    Writing { written: usize, len: usize },
    /// The session has ended.
    Closed,
}

/// What a session awaited, and how it went. `None` stands for a failure.
#[derive(Debug, Clone, Copy, PartialEq, Eq)]
pub enum Done {
    /// The read has returned this many bytes.
    Read(Option<usize>),
    /// The write has taken this many bytes.
    Wrote(Option<usize>),
}

/// What a session awaits next.
#[derive(Debug, Clone, Copy, PartialEq, Eq)]
pub enum Await {
    /// A read into the buffer.
    Read,
    /// A write of the bytes of the buffer from `from` up to `to`.
    Write { from: usize, to: usize },
    /// Nothing: the peer has disconnected, the stream is dropped.
    Close,
}

impl Session {
    /// Whether the session is in a state that it can be in: while it writes,
    /// some but not all of the bytes in the buffer have been written.
    pub open spec fn wf(self) -> bool {
        self matches Session::Writing { written, len } ==> written < len <= BUFFER
    }

    /// Whether `done` is what the session awaits: the operation matches, and
    /// the number of bytes is one that the operation can return.
    pub open spec fn accepts(self, done: Done) -> bool {
        match (self, done) {
            (Session::Reading, Done::Read(Some(n))) => n <= BUFFER,
            (Session::Reading, Done::Read(None)) => true,
            (Session::Writing { written, len }, Done::Wrote(Some(n))) => n <= len - written,
            (Session::Writing { .. }, Done::Wrote(None)) => true,
            _ => false,
        }
    }

    /// The state after `done`.
    pub open spec fn next(self, done: Done) -> Session {
        match (self, done) {
            (Session::Reading, Done::Read(Some(n))) => if n == 0 {
                Session::Closed
            } else {
                Session::Writing { written: 0, len: n }
            },
            (Session::Writing { written, len }, Done::Wrote(Some(n))) => if n == 0 {
                Session::Closed
            } else if written + n == len {
                Session::Reading
            } else {
                Session::Writing { written: (written + n) as usize, len }
            },
            _ => Session::Closed,
        }
    }

    /// What the session awaits in this state.
    pub open spec fn awaits(self) -> Await {
        match self {
            Session::Reading => Await::Read,
            Session::Writing { written, len } => Await::Write { from: written, to: len },
            Session::Closed => Await::Close,
        }
    }

    /// A session that awaits its first read.
    pub fn new() -> (s: Session)
        ensures
            s == Session::Reading,
            s.wf(),
    {
        Session::Reading
    }

    /// Whether `done` is what the session awaits.
    pub fn is_awaited(&self, done: Done) -> (awaited: bool)
        requires
            self.wf(),
        ensures
            awaited == self.accepts(done),
    {
        match (*self, done) {
            (Session::Reading, Done::Read(Some(n))) => n <= BUFFER,
            (Session::Reading, Done::Read(None)) => true,
            (Session::Writing { written, len }, Done::Wrote(Some(n))) => n <= len - written,
            (Session::Writing { .. }, Done::Wrote(None)) => true,
            _ => false,
        }
    }

    /// Takes the outcome of the operation that the session awaited and says
    /// what it awaits next.
    ///
    /// A read of no bytes means that the peer has closed the connection, and
    /// a write that takes no bytes that it takes none any more: both end the
    /// session, as does any failure. Bytes that were read are written back
    /// from the first to the last, and only when all are written is the next
    /// read begun.
    pub fn step(&mut self, done: Done) -> (next: Await)
        requires
            old(self).wf(),
            old(self).accepts(done),
        ensures
            final(self).wf(),
            *final(self) == old(self).next(done),
            next == final(self).awaits(),
    {
        let state = *self;
        let after = match (state, done) {
            (Session::Reading, Done::Read(Some(n))) => {
                if n == 0 {
                    Session::Closed
                } else {
                    Session::Writing { written: 0, len: n }
                }
            },
            (Session::Writing { written, len }, Done::Wrote(Some(n))) => {
                if n == 0 {
                    Session::Closed
                } else if written + n == len {
                    Session::Reading
                } else {
                    Session::Writing { written: written + n, len }
                }
            },
            _ => Session::Closed,
        };
        *self = after;
        match after {
            Session::Reading => Await::Read,
            Session::Writing { written, len } => Await::Write { from: written, to: len },
            Session::Closed => Await::Close,
        }
    }
}

/// The number of bytes of the buffer that have been written back when the
/// session has taken the writes `takes`, each of which took some bytes and
/// no more than were left.
pub open spec fn written_after(takes: Seq<usize>) -> int
    decreases takes.len(),
{
    if takes.len() == 0 {
        0
    } else {
        written_after(takes.drop_last()) + takes.last()
    }
}

/// The state after a read of `len` bytes and the writes `takes`.
pub open spec fn after_writes(len: usize, takes: Seq<usize>) -> Session
    decreases takes.len(),
{
    if takes.len() == 0 {
        Session::Reading.next(Done::Read(Some(len)))
    } else {
        after_writes(len, takes.drop_last()).next(Done::Wrote(Some(takes.last())))
    }
}

proof fn lemma_written_is_not_negative(takes: Seq<usize>)
    ensures
        written_after(takes) >= 0,
    decreases takes.len(),
{
    if takes.len() > 0 {
        lemma_written_is_not_negative(takes.drop_last());
    }
}

/// The bytes that were read are written back in order and without a gap:
/// however the writes split them, each write begins where the one before it
/// ended, and the session reads again exactly when the last byte is written.
pub proof fn law_bytes_are_echoed_in_order(len: usize, takes: Seq<usize>)
    requires
        0 < len <= BUFFER,
        forall|i: int| 0 <= i < takes.len() ==> #[trigger] takes[i] > 0,
        written_after(takes) <= len,
    ensures
        after_writes(len, takes).wf(),
        written_after(takes) < len ==> after_writes(len, takes) == (Session::Writing {
            written: written_after(takes) as usize,
            len,
        }) && after_writes(len, takes).awaits() == (Await::Write {
            from: written_after(takes) as usize,
            to: len,
        }),
        written_after(takes) == len && takes.len() > 0 ==> after_writes(len, takes)
            == Session::Reading,
    decreases takes.len(),
{
    if takes.len() > 0 {
        let before = takes.drop_last();
        assert(takes[takes.len() - 1] > 0);
        assert forall|i: int| 0 <= i < before.len() implies #[trigger] before[i] > 0 by {
            assert(before[i] == takes[i]);
        }
        lemma_written_is_not_negative(before);
        law_bytes_are_echoed_in_order(len, before);
    } else {
        assert(after_writes(len, takes) == (Session::Writing { written: 0, len }));
    }
}

/// What happens on a connection, as the driver sees it.
pub enum Happened {
    /// A read has returned these bytes; none means that the peer has closed.
    Read(Seq<u8>),
    /// A read has failed.
    ReadFailed,
    /// A write has taken this many of the bytes it was given.
    Wrote(usize),
    /// A write has failed.
    WriteFailed,
}

impl Happened {
    /// What the session is told of it.
    pub open spec fn done(self) -> Done {
        match self {
            Happened::Read(bytes) => Done::Read(Some(bytes.len() as usize)),
            Happened::ReadFailed => Done::Read(None),
            Happened::Wrote(n) => Done::Wrote(Some(n)),
            Happened::WriteFailed => Done::Wrote(None),
        }
    }
}

/// A connection that is served by a session: where the session stands, what
/// its buffer holds, every byte that the peer has sent and the session has
/// read, and every byte that the session has written back.
pub struct Connection {
    /// Where the session stands.
    pub session: Session,
    /// What the last read has left in the buffer.
    pub buffer: Seq<u8>,
    /// Every byte that was read, in the order of reading.
    pub received: Seq<u8>,
    /// Every byte that was written back, in the order of writing.
    pub sent: Seq<u8>,
}

impl Connection {
    /// A connection on which nothing has happened yet.
    pub open spec fn fresh() -> Connection {
        Connection {
            session: Session::Reading,
            buffer: Seq::empty(),
            received: Seq::empty(),
            sent: Seq::empty(),
        }
    }

    /// Whether `happened` can happen next: it is the outcome of what the
    /// session awaits, and a read returns no more than the buffer takes.
    pub open spec fn admits(self, happened: Happened) -> bool {
        self.session.accepts(happened.done()) && (happened matches Happened::Read(bytes)
            ==> bytes.len() <= BUFFER)
    }

    /// The connection after `happened`. A read fills the buffer with what it
    /// returned; a write that the session awaited from `from` and that took
    /// `n` bytes has sent the bytes of the buffer from `from` up to
    /// `from + n`.
    pub open spec fn after(self, happened: Happened) -> Connection {
        Connection {
            session: self.session.next(happened.done()),
            buffer: match happened {
                Happened::Read(bytes) => bytes,
                _ => self.buffer,
            },
            received: match happened {
                Happened::Read(bytes) => self.received + bytes,
                _ => self.received,
            },
            sent: match (self.session, happened) {
                (Session::Writing { written, len }, Happened::Wrote(n)) => self.sent
                    + self.buffer.subrange(written as int, written + n),
                _ => self.sent,
            },
        }
    }

    /// The connection after everything in `history`, from the first to the
    /// last.
    pub open spec fn run(history: Seq<Happened>) -> Connection
        decreases history.len(),
    {
        if history.len() == 0 {
            Connection::fresh()
        } else {
            Connection::run(history.drop_last()).after(history.last())
        }
    }

    /// Whether each thing in `history` can happen after those before it.
    pub open spec fn possible(history: Seq<Happened>) -> bool
        decreases history.len(),
    {
        history.len() == 0 || (Connection::possible(history.drop_last()) && Connection::run(
            history.drop_last(),
        ).admits(history.last()))
    }

    /// Whether what was sent is what was received, as far as it has been
    /// written: while the session writes, the bytes still to be written are
    /// the rest of what was received.
    pub open spec fn echoes(self) -> bool {
        &&& self.session.wf()
        &&& match self.session {
            Session::Reading => self.sent == self.received,
            Session::Writing { written, len } => len == self.buffer.len() && self.sent
                + self.buffer.subrange(written as int, len as int) == self.received,
            Session::Closed => self.sent.len() <= self.received.len() && self.received.subrange(
                0,
                self.sent.len() as int,
            ) == self.sent,
        }
    }
}

proof fn lemma_echo_step(c: Connection, happened: Happened)
    requires
        c.echoes(),
        c.admits(happened),
    ensures
        c.after(happened).echoes(),
{
    let next = c.after(happened);
    match (c.session, happened) {
        (Session::Reading, Happened::Read(bytes)) => {
            if bytes.len() == 0 {
                assert(c.received + bytes == c.received);
                assert(next.received.subrange(0, next.sent.len() as int) == next.sent);
            } else {
                assert(bytes.subrange(0, bytes.len() as int) == bytes);
            }
        },
        (Session::Reading, _) => {
            assert(next.received.subrange(0, next.sent.len() as int) == next.sent);
        },
        (Session::Writing { written, len }, Happened::Wrote(n)) => {
            let rest = c.buffer.subrange(written as int, len as int);
            let taken = c.buffer.subrange(written as int, written + n);
            assert(taken + c.buffer.subrange(written + n, len as int) == rest);
            assert((c.sent + taken) + c.buffer.subrange(written + n, len as int) == c.sent + rest);
            if n == 0 {
                assert(taken == Seq::<u8>::empty());
                assert(c.sent + taken == c.sent);
                assert((c.sent + rest).subrange(0, c.sent.len() as int) == c.sent);
            } else if written + n == len {
                assert(taken == rest);
            }
        },
        (Session::Writing { written, len }, _) => {
            let rest = c.buffer.subrange(written as int, len as int);
            assert((c.sent + rest).subrange(0, c.sent.len() as int) == c.sent);
        },
        (Session::Closed, _) => {},
    }
}

/// The peer gets back exactly the bytes it has sent, in their order and with
/// nothing added, however many they are, however the reads split them, and
/// however many bytes each write takes: at every moment what was written
/// back is the beginning of what was read, and whenever the session awaits
/// a read it is all of it.
pub proof fn law_connection_echoes_every_byte(history: Seq<Happened>)
    requires
        Connection::possible(history),
    ensures
        Connection::run(history).echoes(),
        Connection::run(history).sent.len() <= Connection::run(history).received.len(),
        Connection::run(history).received.subrange(
            0,
            Connection::run(history).sent.len() as int,
        ) == Connection::run(history).sent,
        Connection::run(history).session is Reading ==> Connection::run(history).sent
            == Connection::run(history).received,
    decreases history.len(),
{
    if history.len() > 0 {
        law_connection_echoes_every_byte(history.drop_last());
        lemma_echo_step(Connection::run(history.drop_last()), history.last());
    }
    let c = Connection::run(history);
    match c.session {
        Session::Reading => {
            assert(c.received.subrange(0, c.sent.len() as int) == c.sent);
        },
        Session::Writing { written, len } => {
            let rest = c.buffer.subrange(written as int, len as int);
            assert((c.sent + rest).subrange(0, c.sent.len() as int) == c.sent);
        },
        Session::Closed => {},
    }
}

/// A session that has ended stays ended.
pub proof fn law_closed_session_stays_closed(done: Done)
    ensures
        Session::Closed.next(done) == Session::Closed,
        Session::Closed.awaits() == Await::Close,
{
}

} // verus!
