//! A counted clock for the helpers of the timer backend.
//!
//! A helper sleeps for the duration of its timeout and then wakes its task.
//! Under a clock that is counted instead of awaited, the helper that ends
//! next is the one whose sleep is due first, and the clock jumps to that
//! moment. A driver that plays time, as a simulation does, asks this clock
//! which task to wake next and when.
use vstd::prelude::*;

verus! {

/// A helper that sleeps: the moment at which its sleep ends, and the task
/// that it then wakes.
#[derive(Debug, Clone, Copy, PartialEq, Eq)]
pub struct Sleeper {
    /// The moment at which the sleep ends.
    pub due: u64,
    /// The task to wake.
    pub id: usize,
}

/// The state of a clock.
pub struct ClockView {
    /// The present moment.
    pub now: u64,
    /// The helpers that sleep, in the order in which they began.
    pub sleepers: Seq<Sleeper>,
}

/// The place of the helper that ends first: the one whose sleep is due
/// first, and of those that are due together the one that began first.
pub open spec fn first_due(sleepers: Seq<Sleeper>) -> int
    decreases sleepers.len(),
{
    if sleepers.len() <= 1 {
        0
    } else {
        let before = first_due(sleepers.drop_last());
        if sleepers.last().due < sleepers[before].due {
            sleepers.len() - 1
        } else {
            before
        }
    }
}

impl ClockView {
    /// No helper is due in the past.
    pub open spec fn wf(self) -> bool {
        forall|i: int| 0 <= i < self.sleepers.len() ==> (#[trigger] self.sleepers[i]).due >= self.now
    }

    /// The clock after a helper for `id` began to sleep for `duration`.
    pub open spec fn sleep(self, duration: u64, id: usize) -> ClockView {
        ClockView {
            now: self.now,
            sleepers: self.sleepers.push(Sleeper { due: (self.now + duration) as u64, id }),
        }
    }

    /// The helper that ends next, if any sleeps.
    pub open spec fn ends_next(self) -> Option<Sleeper> {
        if self.sleepers.len() == 0 {
            None
        } else {
            Some(self.sleepers[first_due(self.sleepers)])
        }
    }

    /// The clock after the helper that ends next has ended: it is the moment
    /// at which that sleep was due, and the helper sleeps no more.
    pub open spec fn pass(self) -> ClockView {
        if self.sleepers.len() == 0 {
            self
        } else {
            ClockView {
                now: self.sleepers[first_due(self.sleepers)].due,
                sleepers: self.sleepers.remove(first_due(self.sleepers)),
            }
        }
    }
}

/// A clock that is counted.
pub struct Clock {
    now: u64,
    sleepers: Vec<Sleeper>,
}

impl View for Clock {
    type V = ClockView;

    closed spec fn view(&self) -> ClockView {
        ClockView { now: self.now, sleepers: self.sleepers@ }
    }
}

impl Clock {
    /// A clock at the moment 0 on which no helper sleeps.
    pub fn new() -> (clock: Clock)
        ensures
            clock@.wf(),
            clock@.now == 0,
            clock@.sleepers == Seq::<Sleeper>::empty(),
    {
        Clock { now: 0, sleepers: Vec::new() }
    }

    /// The present moment.
    pub fn now(&self) -> (now: u64)
        ensures
            now == self@.now,
    {
        self.now
    }

    /// The number of helpers that sleep.
    pub fn sleeping(&self) -> (n: usize)
        ensures
            n == self@.sleepers.len(),
    {
        self.sleepers.len()
    }

    /// Whether a sleep of `duration` that begins now ends at a moment that
    /// the clock can count.
    pub fn can_sleep(&self, duration: u64) -> (fits: bool)
        ensures
            fits == (self@.now + duration <= u64::MAX),
    {
        duration <= u64::MAX - self.now
    }

    /// A helper begins to sleep for `duration`, to wake `id` then.
    pub fn sleep(&mut self, duration: u64, id: usize)
        requires
            old(self)@.wf(),
            old(self)@.now + duration <= u64::MAX,
        ensures
            final(self)@.wf(),
            final(self)@ == old(self)@.sleep(duration, id),
    {
        proof {
            lemma_sleep_wf(self@, duration, id);
        }
        self.sleepers.push(Sleeper { due: self.now + duration, id });
    }

    /// Lets time pass until the next helper ends, and hands that helper out:
    /// its task is to be woken now. Without a helper nothing happens.
    pub fn next(&mut self) -> (ended: Option<Sleeper>)
        requires
            old(self)@.wf(),
        ensures
            final(self)@.wf(),
            final(self)@ == old(self)@.pass(),
            ended == old(self)@.ends_next(),
    {
        let n = self.sleepers.len();
        if n == 0 {
            return None;
        }
        let mut best: usize = 0;
        let mut i: usize = 1;
        while i < n
            invariant
                n == self.sleepers@.len(),
                1 <= i <= n,
                best < i,
                best == first_due(self.sleepers@.take(i as int)),
            decreases n - i,
        {
            proof {
                assert(self.sleepers@.take(i + 1).drop_last() == self.sleepers@.take(i as int));
                assert(self.sleepers@.take(i + 1).last() == self.sleepers@[i as int]);
                assert(self.sleepers@.take(i + 1)[best as int] == self.sleepers@[best as int]);
            }
            if self.sleepers[i].due < self.sleepers[best].due {
                best = i;
            }
            i = i + 1;
        }
        proof {
            assert(self.sleepers@.take(n as int) == self.sleepers@);
            lemma_pass_wf(self@);
        }
        let ended = self.sleepers.remove(best);
        self.now = ended.due;
        Some(ended)
    }
}

/// The helper that ends first is one of the helpers; none is due before it,
/// and of those that began before it every one is due later.
pub proof fn lemma_first_due(sleepers: Seq<Sleeper>, other: int)
    requires
        0 <= other < sleepers.len(),
    ensures
        0 <= first_due(sleepers) < sleepers.len(),
        sleepers[first_due(sleepers)].due <= sleepers[other].due,
        other < first_due(sleepers) ==> sleepers[first_due(sleepers)].due < sleepers[other].due,
    decreases sleepers.len(),
{
    if sleepers.len() > 1 {
        let before = sleepers.drop_last();
        lemma_first_due(before, 0);
        if other < sleepers.len() - 1 {
            lemma_first_due(before, other);
        }
    }
}

/// A helper that begins to sleep is not due in the past.
pub proof fn lemma_sleep_wf(clock: ClockView, duration: u64, id: usize)
    requires
        clock.wf(),
        clock.now + duration <= u64::MAX,
    ensures
        clock.sleep(duration, id).wf(),
{
    let after = clock.sleep(duration, id);
    assert forall|i: int| 0 <= i < after.sleepers.len() implies (#[trigger] after.sleepers[i]).due
        >= after.now by {
        if i < clock.sleepers.len() {
            assert(clock.sleepers[i].due >= clock.now);
        }
    }
}

/// Time does not run backwards, and no helper is left behind: when the next
/// helper has ended, none of the others is due in the past.
pub proof fn lemma_pass_wf(clock: ClockView)
    requires
        clock.wf(),
    ensures
        clock.pass().wf(),
        clock.pass().now >= clock.now,
{
    if clock.sleepers.len() > 0 {
        let first = first_due(clock.sleepers);
        lemma_first_due(clock.sleepers, 0);
        let after = clock.pass();
        assert forall|i: int| 0 <= i < after.sleepers.len() implies (#[trigger] after.sleepers[i]).due
            >= after.now by {
            if i < first {
                lemma_first_due(clock.sleepers, i);
            } else {
                lemma_first_due(clock.sleepers, i + 1);
            }
        }
    }
}

/// Helpers end in the order in which they are due: while a helper sleeps
/// that is due earlier, a helper that is due later does not end, and it
/// still sleeps when the earlier one has ended.
pub proof fn law_earlier_sleeper_ends_first(clock: ClockView, earlier: int, later: int)
    requires
        clock.wf(),
        0 <= earlier < clock.sleepers.len(),
        0 <= later < clock.sleepers.len(),
        clock.sleepers[earlier].due < clock.sleepers[later].due,
    ensures
        first_due(clock.sleepers) != later,
        clock.ends_next() matches Some(ended) && ended.due <= clock.sleepers[earlier].due
            && ended.due < clock.sleepers[later].due,
        clock.pass().now < clock.sleepers[later].due,
        clock.pass().sleepers.contains(clock.sleepers[later]),
{
    let first = first_due(clock.sleepers);
    lemma_first_due(clock.sleepers, earlier);
    lemma_first_due(clock.sleepers, later);
    let after = clock.pass().sleepers;
    if later < first {
        assert(after[later] == clock.sleepers[later]);
    } else {
        assert(after[later - 1] == clock.sleepers[later]);
    }
}

/// Of two timeouts that begin together the shorter one completes strictly
/// first, in whichever order their helpers began: its task is woken first,
/// at the moment at which its sleep is due, and the task of the longer one
/// is woken next, at a later moment.
pub proof fn law_shorter_timeout_completes_first(
    now: u64,
    shorter: u64,
    longer: u64,
    first: usize,
    second: usize,
)
    requires
        shorter < longer,
        now + longer <= u64::MAX,
    ensures
        ({
            let idle = ClockView { now, sleepers: Seq::empty() };
            let one = idle.sleep(shorter, first).sleep(longer, second);
            let other = idle.sleep(longer, second).sleep(shorter, first);
            &&& one.ends_next() == Some(Sleeper { due: (now + shorter) as u64, id: first })
            &&& one.pass().now == now + shorter
            &&& one.pass().ends_next() == Some(Sleeper { due: (now + longer) as u64, id: second })
            &&& one.pass().pass().now == now + longer
            &&& other.ends_next() == one.ends_next()
            &&& other.pass().now == one.pass().now
            &&& other.pass().ends_next() == one.pass().ends_next()
            &&& other.pass().pass().now == one.pass().pass().now
            &&& one.pass().now < one.pass().pass().now
        }),
{
    let idle = ClockView { now, sleepers: Seq::empty() };
    let a = Sleeper { due: (now + shorter) as u64, id: first };
    let b = Sleeper { due: (now + longer) as u64, id: second };
    let one = idle.sleep(shorter, first).sleep(longer, second);
    let other = idle.sleep(longer, second).sleep(shorter, first);
    assert(one.sleepers =~= seq![a, b]);
    assert(other.sleepers =~= seq![b, a]);
    assert(seq![a, b].drop_last() =~= seq![a]);
    assert(seq![b, a].drop_last() =~= seq![b]);
    assert(first_due(seq![a]) == 0);
    assert(first_due(seq![b]) == 0);
    assert(first_due(seq![a, b]) == 0);
    assert(first_due(seq![b, a]) == 1);
    assert(one.pass().sleepers =~= seq![b]);
    assert(other.pass().sleepers =~= seq![b]);
    assert(one.pass().pass().sleepers =~= Seq::<Sleeper>::empty());
}

} // verus!
