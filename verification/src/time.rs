//! Points in time, as the distance from the start of 1970.

use vstd::prelude::*;

verus! {

pub const NANOS_PER_SEC: u32 = 1_000_000_000;

/// A point in time: `secs` whole seconds after the epoch (before it where
/// negative), and `nanos` nanoseconds more.
#[derive(Copy, Clone, Debug, PartialEq, Eq, Structural)]
pub struct Timestamp {
    pub secs: i64,
    pub nanos: u32,
}

impl Timestamp {
    pub open spec fn wf(self) -> bool {
        self.nanos < NANOS_PER_SEC
    }

    /// The distance from the epoch in nanoseconds.
    pub open spec fn total(self) -> int {
        self.secs * 1_000_000_000 + self.nanos
    }

    /// Whether `secs` seconds and `nanos` nanoseconds after the epoch is a
    /// point in time that a timestamp can hold.
    pub open spec fn representable(secs: int, nanos: u32) -> bool {
        0 <= secs && secs + nanos / NANOS_PER_SEC <= i64::MAX
    }

    /// The point in time `secs` seconds and `nanos` nanoseconds after the epoch.
    pub open spec fn at(secs: int, nanos: u32) -> Timestamp {
        Timestamp {
            secs: (secs + nanos / NANOS_PER_SEC) as i64,
            nanos: (nanos % NANOS_PER_SEC) as u32,
        }
    }

    pub fn after_epoch(secs: u64, nanos: u32) -> (t: Timestamp)
        requires
            Timestamp::representable(secs as int, nanos),
        ensures
            t == Timestamp::at(secs as int, nanos),
            t.wf(),
            t.total() == secs * 1_000_000_000 + nanos,
    {
        Timestamp {
            secs: (secs + (nanos / NANOS_PER_SEC) as u64) as i64,
            nanos: nanos % NANOS_PER_SEC,
        }
    }

    /// Seconds and nanoseconds since the epoch; nothing for a point before it.
    pub open spec fn spec_since_epoch(self) -> (i64, u32) {
        if self.secs < 0 {
            (0, 0)
        } else {
            (self.secs, self.nanos)
        }
    }

    pub fn since_epoch(self) -> (r: (i64, u32))
        ensures
            r == self.spec_since_epoch(),
    {
        if self.secs < 0 {
            (0, 0)
        } else {
            (self.secs, self.nanos)
        }
    }

    /// The later of this point and the one `secs` seconds before `now`.
    pub open spec fn spec_no_earlier_than(self, now: Timestamp, secs: int) -> Timestamp {
        if self.total() >= now.total() - secs * 1_000_000_000 {
            self
        } else {
            Timestamp { secs: (now.secs - secs) as i64, nanos: now.nanos }
        }
    }

    pub fn no_earlier_than(self, now: Timestamp, secs: u32) -> (r: Timestamp)
        requires
            self.wf(),
            now.wf(),
            now.secs - secs >= i64::MIN,
        ensures
            r == self.spec_no_earlier_than(now, secs as int),
            r.wf(),
            r.total() == if self.total() >= now.total() - secs * 1_000_000_000 {
                self.total()
            } else {
                now.total() - secs * 1_000_000_000
            },
    {
        let floor = Timestamp { secs: now.secs - secs as i64, nanos: now.nanos };
        if self.secs > floor.secs || (self.secs == floor.secs && self.nanos >= floor.nanos) {
            self
        } else {
            floor
        }
    }
}

/// An instant is in order where its nanoseconds make no second, and it is as far
/// from the epoch as its seconds and nanoseconds say.
pub proof fn law_instants_are_counted(t: Timestamp)
    ensures
        t.wf() <==> t.nanos < 1_000_000_000,
        t.total() == t.secs * 1_000_000_000 + t.nanos,
{
}

/// A number of seconds and nanoseconds after the epoch is held as the instant
/// that it is, with less than a second of nanoseconds, where the seconds fit.
pub proof fn law_instants_are_kept(secs: int, nanos: u32)
    ensures
        Timestamp::representable(secs, nanos) <==> 0 <= secs && secs * 1_000_000_000 + nanos < (
        i64::MAX + 1) * 1_000_000_000,
        Timestamp::representable(secs, nanos) ==> Timestamp::at(secs, nanos).secs * 1_000_000_000
            + Timestamp::at(secs, nanos).nanos == secs * 1_000_000_000 + nanos,
        Timestamp::representable(secs, nanos) ==> Timestamp::at(secs, nanos).nanos < 1_000_000_000,
{
}

/// What is told of an instant is its distance from the epoch, or nothing where
/// it lies before.
pub proof fn law_instants_are_told(t: Timestamp)
    ensures
        t.secs >= 0 ==> t.spec_since_epoch() == (t.secs, t.nanos),
        t.secs < 0 ==> t.spec_since_epoch() == (0i64, 0u32),
{
}

/// Of an instant and a floor below the present the later one is taken.
pub proof fn law_later_instant_is_taken(t: Timestamp, now: Timestamp, secs: int)
    requires
        t.nanos < 1_000_000_000,
        now.nanos < 1_000_000_000,
        0 <= secs <= u32::MAX,
        now.secs - secs >= i64::MIN,
    ensures
        ({
            let r = t.spec_no_earlier_than(now, secs);
            let instant = t.secs * 1_000_000_000 + t.nanos;
            let floor = (now.secs - secs) * 1_000_000_000 + now.nanos;
            &&& r.nanos < 1_000_000_000
            &&& r.secs * 1_000_000_000 + r.nanos >= instant
            &&& r.secs * 1_000_000_000 + r.nanos >= floor
            &&& r.secs * 1_000_000_000 + r.nanos == instant || r.secs * 1_000_000_000 + r.nanos
                == floor
        }),
{
}

} // verus!
