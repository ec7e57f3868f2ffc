//! The I/O backend of the reactor: the table that maps readiness conditions
//! of descriptors to the waker to fire when they hold.
//!
//! Interest is one-shot: an event removes the waker it fires, and whoever
//! still waits registers again. The multiplexer of the operating system is
//! the driver's; this module says what is to be registered with it and which
//! wakers its events fire.
//!
//! The multiplexer keeps one watch on a descriptor, for both directions
//! together, and drops it when it reports an event of the descriptor. So
//! every interest that goes to the driver is the whole watch of its
//! descriptor, with each direction in it for which a waker is pending, and
//! after a wait the watch of every reported descriptor on which a waker is
//! still pending is armed again.
use nix::fcntl::OFlag;
use std::collections::HashMap;
use vstd::prelude::*;

verus! {

broadcast use vstd::std_specs::hash::group_hash_axioms;

/// The key under which the waker for readability of `fd` is kept.
pub open spec fn read_key(fd: int) -> int {
    fd * 2
}

/// The key under which the waker for writability of `fd` is kept.
pub open spec fn write_key(fd: int) -> int {
    fd * 2 + 1
}

/// Readiness of one source, as the multiplexer reports it, or interest in
/// it, as the multiplexer is told.
#[derive(Debug, Clone, Copy, PartialEq, Eq)]
pub struct Event {
    /// The descriptor of the source.
    pub key: usize,
    /// Whether the source can be read without blocking.
    pub readable: bool,
    /// Whether the source can be written without blocking.
    pub writable: bool,
}

impl Event {
    /// Neither direction.
    pub fn none(key: usize) -> (e: Event)
        ensures
            e == (Event { key, readable: false, writable: false }),
    {
        Event { key, readable: false, writable: false }
    }

    /// Readability only.
    pub fn readable(key: usize) -> (e: Event)
        ensures
            e == (Event { key, readable: true, writable: false }),
    {
        Event { key, readable: true, writable: false }
    }

    /// Writability only.
    pub fn writable(key: usize) -> (e: Event)
        ensures
            e == (Event { key, readable: false, writable: true }),
    {
        Event { key, readable: false, writable: true }
    }
}

/// A table and the wakers that were taken from it, in the order in which
/// they are to be fired.
pub struct Fired<W> {
    /// The table that is left.
    pub table: Map<u64, W>,
    /// The wakers to fire.
    pub wakers: Seq<W>,
}

/// Whether the table holds a waker under `key`.
pub open spec fn pending<W>(table: Map<u64, W>, key: int) -> bool {
    0 <= key <= u64::MAX && table.contains_key(key as u64)
}

/// Takes the waker under `key` from the table, if there is one.
pub open spec fn take<W>(table: Map<u64, W>, key: int) -> Fired<W> {
    if pending(table, key) {
        Fired { table: table.remove(key as u64), wakers: seq![table[key as u64]] }
    } else {
        Fired { table, wakers: Seq::empty() }
    }
}

/// The table after one event, and the wakers that the event fires: the one
/// waiting for readability if the source is readable, then the one waiting
/// for writability if it is writable.
pub open spec fn fire<W>(table: Map<u64, W>, event: Event) -> Fired<W> {
    let read = if event.readable {
        take(table, read_key(event.key as int))
    } else {
        Fired { table, wakers: Seq::empty() }
    };
    let write = if event.writable {
        take(read.table, write_key(event.key as int))
    } else {
        Fired { table: read.table, wakers: Seq::empty() }
    };
    Fired { table: write.table, wakers: read.wakers + write.wakers }
}

/// The table after the events `events`, taken from the first to the last,
/// and the wakers that they fire.
pub open spec fn dispatch<W>(table: Map<u64, W>, events: Seq<Event>) -> Fired<W>
    decreases events.len(),
{
    if events.len() == 0 {
        Fired { table, wakers: Seq::empty() }
    } else {
        let before = dispatch(table, events.drop_last());
        let last = fire(before.table, events.last());
        Fired { table: last.table, wakers: before.wakers + last.wakers }
    }
}

/// The whole watch that the multiplexer is to keep on the source `key`: each
/// direction for which a waker is pending, and no other.
pub open spec fn watch<W>(table: Map<u64, W>, key: usize) -> Event {
    Event {
        key,
        readable: pending(table, read_key(key as int)),
        writable: pending(table, write_key(key as int)),
    }
}

/// The watches to arm again after the events `events` were handled and left
/// the table `table`. The multiplexer drops its whole watch on a source when
/// it reports an event of it, so every source of an event on which a waker
/// is still pending gets its watch back, in the order of the events.
pub open spec fn rearmed<W>(table: Map<u64, W>, events: Seq<Event>) -> Seq<Event>
    decreases events.len(),
{
    if events.len() == 0 {
        Seq::empty()
    } else {
        let again = watch(table, events.last().key);
        rearmed(table, events.drop_last()) + if again.readable || again.writable {
            seq![again]
        } else {
            Seq::empty()
        }
    }
}

/// The order in which the events of one wait are handled: the first one,
/// then the others from the last backwards. It is the order in which a
/// buffer yields them that is emptied by moving its last element into the
/// place of the first.
pub open spec fn handling_order(events: Seq<Event>) -> Seq<Event> {
    Seq::new(
        events.len(),
        |j: int|
            if j == 0 {
                events[0]
            } else {
                events[events.len() - j]
            },
    )
}

/// The table after the descriptor `fd` was deleted.
pub open spec fn deleted<W>(table: Map<u64, W>, fd: i32) -> Map<u64, W> {
    table.remove(read_key(fd as int) as u64).remove(write_key(fd as int) as u64)
}

/// The table after `waker` was registered for readability of `fd`.
pub open spec fn reading<W>(table: Map<u64, W>, fd: i32, waker: W) -> Map<u64, W> {
    table.insert(read_key(fd as int) as u64, waker)
}

/// The table after `waker` was registered for writability of `fd`.
pub open spec fn writing<W>(table: Map<u64, W>, fd: i32, waker: W) -> Map<u64, W> {
    table.insert(write_key(fd as int) as u64, waker)
}

/// Whether `bits` are status flags that the system knows: the answer of
/// `OFlag::from_bits` of the crate nix, which has the flags of the system
/// it was built for. It rejects bits in which some bit is set that names no
/// flag, so the one thing claimed of the answer is that bits of which none
/// is set are known; which flags the system has is not claimed.
#[verifier::external_body]
fn flags_are_known(bits: i32) -> (known: bool)
    ensures
        bits == 0 ==> known,
{
    OFlag::from_bits(bits).is_some()
}

/// The bit of the status flag that makes a descriptor non-blocking:
/// `OFlag::O_NONBLOCK` of the crate nix. Nothing is claimed of its value,
/// which differs between systems.
#[verifier::external_body]
fn nonblock_flag() -> i32 {
    OFlag::O_NONBLOCK.bits()
}

/// The status flags `bits` with the flag `flag` set, if the flags are known.
pub open spec fn flagged(bits: i32, known: bool, flag: i32) -> Option<i32> {
    if known {
        Some(bits | flag)
    } else {
        None
    }
}

/// Sets the flag `flag` in the status flags `bits` of a descriptor. Flags
/// that are not known are not touched: there is no result.
pub fn with_flag(bits: i32, known: bool, flag: i32) -> (flags: Option<i32>)
    ensures
        flags == flagged(bits, known, flag),
{
    if known {
        Some(bits | flag)
    } else {
        None
    }
}

/// The status flags that make a descriptor with the status flags `bits`
/// non-blocking: every flag that was set stays set. There is no result if
/// `bits` holds a flag that the system does not know, which cannot be where
/// no flag is set at all.
pub fn nonblocking(bits: i32) -> (flags: Option<i32>)
    ensures
        bits == 0 ==> flags is Some,
        flags matches Some(f) ==> f & bits == bits,
{
    let flag = nonblock_flag();
    assert((bits | flag) & bits == bits) by (bit_vector);
    with_flag(bits, flags_are_known(bits), flag)
}

/// What one wait has brought about.
#[derive(Debug, PartialEq, Eq)]
pub struct Woken<W> {
    /// The wakers to fire, in the order in which they are to be fired.
    pub wakers: Vec<W>,
    /// The watches that the driver is to arm again at the multiplexer.
    pub rearm: Vec<Event>,
}

/// The registration table of the I/O backend: at most one pending waker for
/// each direction of each descriptor.
pub struct Reactor<W> {
    waker_map: HashMap<u64, W>,
}

impl<W> View for Reactor<W> {
    type V = Map<u64, W>;

    closed spec fn view(&self) -> Map<u64, W> {
        self.waker_map@
    }
}

impl<W> Reactor<W> {
    /// A reactor in which no waker is pending.
    pub fn new() -> (r: Reactor<W>)
        ensures
            r@ == Map::<u64, W>::empty(),
    {
        Reactor { waker_map: HashMap::new() }
    }

    /// Whether a waker is pending for readability of `fd`.
    pub fn is_reading(&self, fd: i32) -> (waiting: bool)
        requires
            fd >= 0,
        ensures
            waiting == pending(self@, read_key(fd as int)),
    {
        self.waker_map.contains_key(&(fd as u64 * 2))
    }

    /// Whether a waker is pending for writability of `fd`.
    pub fn is_writing(&self, fd: i32) -> (waiting: bool)
        requires
            fd >= 0,
        ensures
            waiting == pending(self@, write_key(fd as int)),
    {
        self.waker_map.contains_key(&(fd as u64 * 2 + 1))
    }

    /// The number of pending wakers.
    pub fn len(&self) -> (n: usize)
        ensures
            n == self@.len(),
    {
        self.waker_map.len()
    }

    /// Adds the descriptor `fd`. The table does not change; the driver is to
    /// make the descriptor non-blocking and to hand the multiplexer the
    /// interest that is returned, which names no direction.
    pub fn add(&mut self, fd: i32) -> (interest: Event)
        requires
            fd >= 0,
        ensures
            final(self)@ == old(self)@,
            interest == (Event { key: fd as usize, readable: false, writable: false }),
    {
        Event::none(fd as usize)
    }

    /// Deletes the descriptor `fd`: the pending wakers of both its
    /// directions are dropped, and no other.
    pub fn delete(&mut self, fd: i32)
        requires
            fd >= 0,
        ensures
            final(self)@ == deleted(old(self)@, fd),
    {
        self.waker_map.remove(&(fd as u64 * 2));
        self.waker_map.remove(&(fd as u64 * 2 + 1));
    }

    /// The whole watch that the multiplexer is to keep on the source `key`.
    pub fn watch(&self, key: usize) -> (interest: Event)
        ensures
            interest == watch(self@, key),
    {
        if key as u64 > (u64::MAX - 1) / 2 {
            return Event::none(key);
        }
        Event {
            key,
            readable: self.waker_map.contains_key(&(key as u64 * 2)),
            writable: self.waker_map.contains_key(&(key as u64 * 2 + 1)),
        }
    }

    /// Registers `waker` for readability of `fd`, in place of any waker that
    /// was pending there. The driver is to hand the multiplexer the interest
    /// that is returned, which is the whole watch of the descriptor:
    /// readability, and writability too if a waker is pending for it, so
    /// that the other direction stays armed.
    pub fn interest_readable(&mut self, fd: i32, waker: W) -> (interest: Event)
        requires
            fd >= 0,
        ensures
            final(self)@ == reading(old(self)@, fd, waker),
            interest == (Event {
                key: fd as usize,
                readable: true,
                writable: pending(old(self)@, write_key(fd as int)),
            }),
            interest == watch(final(self)@, fd as usize),
    {
        self.waker_map.insert(fd as u64 * 2, waker);
        self.watch(fd as usize)
    }

    /// Registers `waker` for writability of `fd`, in place of any waker that
    /// was pending there. The driver is to hand the multiplexer the interest
    /// that is returned, which is the whole watch of the descriptor:
    /// writability, and readability too if a waker is pending for it, so
    /// that the other direction stays armed.
    pub fn interest_writable(&mut self, fd: i32, waker: W) -> (interest: Event)
        requires
            fd >= 0,
        ensures
            final(self)@ == writing(old(self)@, fd, waker),
            interest == (Event {
                key: fd as usize,
                readable: pending(old(self)@, read_key(fd as int)),
                writable: true,
            }),
            interest == watch(final(self)@, fd as usize),
    {
        self.waker_map.insert(fd as u64 * 2 + 1, waker);
        self.watch(fd as usize)
    }

    fn take(&mut self, key: usize, write: bool, fired: &mut Vec<W>)
        ensures
            final(self)@ == take(
                old(self)@,
                if write {
                    write_key(key as int)
                } else {
                    read_key(key as int)
                },
            ).table,
            final(fired)@ == old(fired)@ + take(
                old(self)@,
                if write {
                    write_key(key as int)
                } else {
                    read_key(key as int)
                },
            ).wakers,
    {
        if key as u64 > (u64::MAX - 1) / 2 {
            assert(fired@ + Seq::<W>::empty() == fired@);
            return ;
        }
        let token: u64 = if write {
            key as u64 * 2 + 1
        } else {
            key as u64 * 2
        };
        match self.waker_map.remove(&token) {
            Some(waker) => {
                fired.push(waker);
            },
            None => {
                assert(fired@ + Seq::<W>::empty() == fired@);
            },
        }
    }

    fn fire(&mut self, event: Event, fired: &mut Vec<W>)
        ensures
            final(self)@ == fire(old(self)@, event).table,
            final(fired)@ == old(fired)@ + fire(old(self)@, event).wakers,
    {
        let ghost table = self@;
        let ghost before = fired@;
        if event.readable {
            self.take(event.key, false, fired);
        }
        let ghost read = if event.readable {
            take(table, read_key(event.key as int))
        } else {
            Fired { table, wakers: Seq::empty() }
        };
        assert(fired@ == before + read.wakers);
        if event.writable {
            self.take(event.key, true, fired);
        }
        let ghost write = if event.writable {
            take(read.table, write_key(event.key as int))
        } else {
            Fired { table: read.table, wakers: Seq::empty() }
        };
        assert(fired@ == before + (read.wakers + write.wakers));
    }

    fn rearm(&self, events: &Vec<Event>) -> (rearm: Vec<Event>)
        ensures
            rearm@ == rearmed(self@, events@),
    {
        let mut rearm: Vec<Event> = Vec::new();
        let mut i: usize = 0;
        while i < events.len()
            invariant
                i <= events@.len(),
                rearm@ == rearmed(self@, events@.take(i as int)),
            decreases events@.len() - i,
        {
            proof {
                assert(events@.take(i + 1).drop_last() == events@.take(i as int));
                assert(events@.take(i + 1).last() == events@[i as int]);
            }
            let again = self.watch(events[i].key);
            if again.readable || again.writable {
                rearm.push(again);
            } else {
                assert(rearm@ + Seq::<Event>::empty() == rearm@);
            }
            i = i + 1;
        }
        proof {
            assert(events@.take(events@.len() as int) == events@);
        }
        rearm
    }

    /// Handles the events that one wait of the multiplexer has reported.
    ///
    /// For each event the pending waker of each ready direction is removed
    /// from the table; the removed wakers are returned in the order in which
    /// they are to be fired. The multiplexer has dropped its whole watch on
    /// the source of each event, so with them come the watches that the
    /// driver is to arm again: one for each event on whose source a waker
    /// is still pending.
    pub fn wait(&mut self, events: &Vec<Event>) -> (woken: Woken<W>)
        ensures
            final(self)@ == dispatch(old(self)@, handling_order(events@)).table,
            woken.wakers@ == dispatch(old(self)@, handling_order(events@)).wakers,
            woken.rearm@ == rearmed(final(self)@, events@),
    {
        let mut fired: Vec<W> = Vec::new();
        let n = events.len();
        let ghost order = handling_order(events@);
        let mut j: usize = 0;
        while j < n
            invariant
                n == events@.len(),
                order == handling_order(events@),
                j <= n,
                self@ == dispatch(old(self)@, order.take(j as int)).table,
                fired@ == dispatch(old(self)@, order.take(j as int)).wakers,
            decreases n - j,
        {
            let event = if j == 0 {
                events[0]
            } else {
                events[n - j]
            };
            proof {
                assert(order.take(j + 1).drop_last() == order.take(j as int));
                assert(order.take(j + 1).last() == event);
            }
            self.fire(event, &mut fired);
            j = j + 1;
        }
        proof {
            assert(order.take(n as int) == order);
        }
        let rearm = self.rearm(events);
        Woken { wakers: fired, rearm }
    }
}

/// The keys of the two directions of one descriptor differ, and so do the
/// keys of different descriptors: no two registrations collide.
pub proof fn law_keys_do_not_collide(fd: i32, other: i32)
    requires
        fd >= 0,
        other >= 0,
    ensures
        read_key(fd as int) != write_key(other as int),
        fd != other ==> read_key(fd as int) != read_key(other as int) && write_key(fd as int)
            != write_key(other as int),
        0 <= read_key(fd as int) < write_key(fd as int) <= u64::MAX,
{
}

/// After a descriptor was deleted no waker is pending for either of its
/// directions, whatever was registered for it before, and the wakers of
/// every other key are as they were.
pub proof fn law_delete_leaves_no_waker<W>(table: Map<u64, W>, fd: i32, key: u64)
    requires
        fd >= 0,
    ensures
        !pending(deleted(table, fd), read_key(fd as int)),
        !pending(deleted(table, fd), write_key(fd as int)),
        key != read_key(fd as int) && key != write_key(fd as int) ==> (deleted(
            table,
            fd,
        ).contains_key(key) <==> table.contains_key(key)) && (table.contains_key(key) ==> deleted(
            table,
            fd,
        )[key] == table[key]),
{
}

/// Adding a descriptor, registering interest in both its directions and
/// deleting it again leaves the table as it was before, if the descriptor
/// had no pending waker to begin with.
pub proof fn law_add_then_delete_restores<W>(table: Map<u64, W>, fd: i32, reader: W, writer: W)
    requires
        fd >= 0,
        !pending(table, read_key(fd as int)),
        !pending(table, write_key(fd as int)),
    ensures
        deleted(table, fd) == table,
        deleted(reading(table, fd, reader), fd) == table,
        deleted(writing(table, fd, writer), fd) == table,
        deleted(writing(reading(table, fd, reader), fd, writer), fd) == table,
{
    assert(deleted(table, fd) =~= table);
    assert(deleted(reading(table, fd, reader), fd) =~= table);
    assert(deleted(writing(table, fd, writer), fd) =~= table);
    assert(deleted(writing(reading(table, fd, reader), fd, writer), fd) =~= table);
}

/// A key holds at most one waker: registering again overwrites.
pub proof fn law_registering_again_overwrites<W>(table: Map<u64, W>, fd: i32, first: W, second: W)
    requires
        fd >= 0,
    ensures
        reading(reading(table, fd, first), fd, second) == reading(table, fd, second),
        writing(writing(table, fd, first), fd, second) == writing(table, fd, second),
        reading(table, fd, first)[read_key(fd as int) as u64] == first,
        writing(table, fd, first)[write_key(fd as int) as u64] == first,
{
    assert(reading(reading(table, fd, first), fd, second) =~= reading(table, fd, second));
    assert(writing(writing(table, fd, first), fd, second) =~= writing(table, fd, second));
}

/// The two directions of a descriptor are watched independently: registering
/// for one keeps the watch on the other exactly where a waker is pending for
/// it, and an event that fires one leaves the other to be armed again.
pub proof fn law_watch_keeps_the_other_direction<W>(table: Map<u64, W>, fd: i32, waker: W)
    requires
        fd >= 0,
    ensures
        watch(reading(table, fd, waker), fd as usize) == (Event {
            key: fd as usize,
            readable: true,
            writable: pending(table, write_key(fd as int)),
        }),
        watch(writing(table, fd, waker), fd as usize) == (Event {
            key: fd as usize,
            readable: pending(table, read_key(fd as int)),
            writable: true,
        }),
        pending(table, write_key(fd as int)) ==> rearmed(
            fire(
                reading(table, fd, waker),
                Event { key: fd as usize, readable: true, writable: false },
            ).table,
            seq![Event { key: fd as usize, readable: true, writable: false }],
        ) == seq![Event { key: fd as usize, readable: false, writable: true }],
        pending(table, read_key(fd as int)) ==> rearmed(
            fire(
                writing(table, fd, waker),
                Event { key: fd as usize, readable: false, writable: true },
            ).table,
            seq![Event { key: fd as usize, readable: false, writable: true }],
        ) == seq![Event { key: fd as usize, readable: true, writable: false }],
{
    let read = Event { key: fd as usize, readable: true, writable: false };
    let write = Event { key: fd as usize, readable: false, writable: true };
    assert(seq![read].drop_last() =~= Seq::<Event>::empty());
    assert(seq![write].drop_last() =~= Seq::<Event>::empty());
    let after_read = fire(reading(table, fd, waker), read).table;
    let after_write = fire(writing(table, fd, waker), write).table;
    assert(after_read == reading(table, fd, waker).remove(read_key(fd as int) as u64));
    assert(after_write == writing(table, fd, waker).remove(write_key(fd as int) as u64));
    if pending(table, write_key(fd as int)) {
        assert(watch(after_read, fd as usize) == write);
        assert(seq![read].last() == read);
        assert(rearmed(after_read, seq![read].drop_last()) == Seq::<Event>::empty());
        assert(rearmed(after_read, seq![read]) =~= seq![write]);
    }
    if pending(table, read_key(fd as int)) {
        assert(watch(after_write, fd as usize) == read);
        assert(seq![write].last() == write);
        assert(rearmed(after_write, seq![write].drop_last()) == Seq::<Event>::empty());
        assert(rearmed(after_write, seq![write]) =~= seq![read]);
    }
}

/// A source on which no waker is pending is not armed again: an event that
/// fires the only waker of its source leaves nothing to arm.
pub proof fn law_nothing_pending_nothing_armed<W>(table: Map<u64, W>, events: Seq<Event>)
    requires
        forall|i: int|
            0 <= i < events.len() ==> !pending(table, read_key((#[trigger] events[i]).key as int))
                && !pending(table, write_key(events[i].key as int)),
    ensures
        rearmed(table, events) == Seq::<Event>::empty(),
    decreases events.len(),
{
    if events.len() > 0 {
        assert forall|i: int| 0 <= i < events.drop_last().len() implies !pending(
            table,
            read_key((#[trigger] events.drop_last()[i]).key as int),
        ) && !pending(table, write_key(events.drop_last()[i].key as int)) by {
            assert(events.drop_last()[i] == events[i]);
        }
        law_nothing_pending_nothing_armed(table, events.drop_last());
        assert(events[events.len() - 1] == events.last());
    }
}

/// Interest is one-shot: an event fires the waker that was registered for a
/// ready direction and leaves none pending there, so that whoever still
/// waits has to register again.
pub proof fn law_interest_is_one_shot<W>(table: Map<u64, W>, fd: i32, waker: W)
    requires
        fd >= 0,
    ensures
        fire(
            reading(table, fd, waker),
            Event { key: fd as usize, readable: true, writable: false },
        ).wakers == seq![waker],
        !pending(
            fire(
                reading(table, fd, waker),
                Event { key: fd as usize, readable: true, writable: false },
            ).table,
            read_key(fd as int),
        ),
        fire(
            writing(table, fd, waker),
            Event { key: fd as usize, readable: false, writable: true },
        ).wakers == seq![waker],
        !pending(
            fire(
                writing(table, fd, waker),
                Event { key: fd as usize, readable: false, writable: true },
            ).table,
            write_key(fd as int),
        ),
{
    let read = Event { key: fd as usize, readable: true, writable: false };
    let write = Event { key: fd as usize, readable: false, writable: true };
    assert(fire(reading(table, fd, waker), read).wakers =~= seq![waker]);
    assert(fire(writing(table, fd, waker), write).wakers =~= seq![waker]);
}

} // verus!
