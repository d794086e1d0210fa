//! Time, as far as cached entries need it.
use std::time::Instant;
use vstd::prelude::*;

verus! {

/// The monotonic clock's own point in time.
#[verifier::external_type_specification]
#[verifier::external_body]
pub struct ExInstant(Instant);

/// `Instant::now` reads the monotonic clock. Nothing is claimed of what it reads.
pub assume_specification[ Instant::now ]() -> (now: Instant);

/// A point in time on the time line of a [`Clock`]: whole seconds and nanoseconds since it started.
#[derive(Clone, Copy, Debug, PartialEq, Eq, Structural)]
pub struct Moment {
    pub secs: u64,
    pub nanos: u32,
}

impl Moment {
    /// This moment comes before `other`.
    pub open spec fn before(self, other: Moment) -> bool {
        self.secs < other.secs || (self.secs == other.secs && self.nanos < other.nanos)
    }

    /// The moment `secs` seconds later; the last second there is where that lies beyond it.
    pub open spec fn later(self, secs: nat) -> Moment {
        if self.secs + secs <= u64::MAX {
            Moment { secs: (self.secs + secs) as u64, nanos: self.nanos }
        } else {
            Moment { secs: u64::MAX, nanos: self.nanos }
        }
    }

    pub fn is_before(&self, other: &Moment) -> (earlier: bool)
        ensures
            earlier == self.before(*other),
    {
        self.secs < other.secs || (self.secs == other.secs && self.nanos < other.nanos)
    }

    pub fn plus_secs(&self, secs: u64) -> (moment: Moment)
        ensures
            moment == self.later(secs as nat),
    {
        match self.secs.checked_add(secs) {
            Some(sum) => Moment { secs: sum, nanos: self.nanos },
            None => Moment { secs: u64::MAX, nanos: self.nanos },
        }
    }
}

/// A clock that counts from when it was started. Copies of it share its time line.
#[derive(Clone, Copy)]
pub struct Clock {
    origin: Instant,
}

/// Calls `Instant::elapsed`: the time since `origin` as whole seconds and the nanoseconds beyond
/// them, of which a `Duration` holds fewer than a second's worth. How much time has passed is
/// left unsaid.
#[verifier::external_body]
fn elapsed(origin: &Instant) -> (passed: (u64, u32))
    ensures
        passed.1 < 1_000_000_000,
{
    let passed = origin.elapsed();
    (passed.as_secs(), passed.subsec_nanos())
}

impl Clock {
    /// The point in time that the clock counts from is one that `Instant::now` returns.
    pub closed spec fn started(self) -> bool {
        call_ensures(Instant::now, (), self.origin)
    }

    /// `now` is a reading of this clock: a time that `elapsed` returns for the point in time that the
    /// clock counts from.
    pub closed spec fn shows(self, now: Moment) -> bool {
        call_ensures(elapsed, (&self.origin,), (now.secs, now.nanos))
    }

    /// A clock that counts from now on.
    pub fn start() -> (clock: Clock)
        ensures
            clock.started(),
    {
        Clock { origin: Instant::now() }
    }

    /// The time that has passed since the clock was started.
    pub fn now(&self) -> (now: Moment)
        ensures
            self.shows(now),
            now.nanos < 1_000_000_000,
    {
        let (secs, nanos) = elapsed(&self.origin);
        Moment { secs, nanos }
    }
}

/// A moment in nanoseconds.
pub open spec fn in_nanos(moment: Moment) -> int {
    moment.secs * 1_000_000_000 + moment.nanos
}

/// A moment comes before another exactly if fewer nanoseconds have passed by it.
pub proof fn law_moments_are_ordered_by_time(moment: Moment, other: Moment)
    requires
        moment.nanos < 1_000_000_000,
        other.nanos < 1_000_000_000,
    ensures
        moment.before(other) <==> in_nanos(moment) < in_nanos(other),
{
}

/// A moment some seconds later is that many seconds later; where there are not that many seconds
/// left, it is in the last second there is. It never comes before the moment itself.
pub proof fn law_later_adds_seconds(moment: Moment, secs: nat)
    ensures
        moment.secs + secs <= u64::MAX ==> in_nanos(moment.later(secs)) == in_nanos(moment) + secs
            * 1_000_000_000,
        moment.secs + secs > u64::MAX ==> moment.later(secs).secs == u64::MAX,
        moment.later(secs).nanos == moment.nanos,
        !moment.later(secs).before(moment),
{
}

} // verus!
