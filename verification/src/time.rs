//! Moments and delays as integers.

use vstd::prelude::*;

verus! {

pub const NANOS_PER_SECOND: u128 = 1_000_000_000;

/// A moment in time: whole seconds since the Unix epoch, and the nanoseconds that follow. Within
/// a leap second `nanos` runs past one second.
#[derive(Debug, Clone, Copy, PartialEq, Eq, Structural)]
pub struct Moment {
    pub seconds: i64,
    pub nanos: u32,
}

/// A length of time in nanoseconds.
#[derive(Debug, Clone, Copy, PartialEq, Eq, Structural)]
pub struct Delay {
    pub nanos: u128,
}

impl Moment {
    /// Nanoseconds since the Unix epoch.
    pub open spec fn instant(self) -> int {
        self.seconds * NANOS_PER_SECOND + self.nanos
    }

    /// Whether this moment lies after the other one.
    pub fn after(self, other: Moment) -> (later: bool)
        ensures
            later == (self.instant() > other.instant()),
    {
        let left: i128 = self.seconds as i128 * 1_000_000_000 + self.nanos as i128;
        let right: i128 = other.seconds as i128 * 1_000_000_000 + other.nanos as i128;
        left > right
    }

    /// The time from `earlier` to this moment; nothing where this moment comes first.
    pub fn since(self, earlier: Moment) -> (delay: Option<Delay>)
        ensures
            delay is Some <==> self.instant() >= earlier.instant(),
            delay matches Some(d) ==> d.nanos == self.instant() - earlier.instant(),
    {
        let left: i128 = self.seconds as i128 * 1_000_000_000 + self.nanos as i128;
        let right: i128 = earlier.seconds as i128 * 1_000_000_000 + earlier.nanos as i128;
        if left >= right {
            Some(Delay { nanos: (left - right) as u128 })
        } else {
            None
        }
    }

    /// The moment `delay` later; nothing where its seconds would not fit.
    pub fn plus(self, delay: Delay) -> (moment: Option<Moment>)
        ensures
            moment is Some <==> (self.instant() + delay.nanos) / (NANOS_PER_SECOND as int)
                <= i64::MAX,
            moment matches Some(m) ==> m.instant() == self.instant() + delay.nanos && m.nanos
                < NANOS_PER_SECOND,
    {
        let seconds: u128 = delay.nanos / 1_000_000_000;
        let rest: u128 = delay.nanos % 1_000_000_000;
        let subsecond: u64 = self.nanos as u64 + rest as u64;
        let carried: u64 = subsecond / 1_000_000_000;
        let nanos: u32 = (subsecond % 1_000_000_000) as u32;
        assert(delay.nanos == seconds * 1_000_000_000 + rest);
        assert(subsecond == carried * 1_000_000_000 + nanos);
        assert(self.instant() + delay.nanos == (self.seconds + seconds + carried) * 1_000_000_000
            + nanos) by (nonlinear_arith)
            requires
                self.instant() == self.seconds * 1_000_000_000 + self.nanos,
                delay.nanos == seconds * 1_000_000_000 + rest,
                self.nanos + rest == carried * 1_000_000_000 + nanos,
        ;
        assert((self.instant() + delay.nanos) / 1_000_000_000 == self.seconds + seconds + carried);
        if seconds > 0x1_0000_0000_0000_0000 {
            return None;
        }
        let total: i128 = self.seconds as i128 + seconds as i128 + carried as i128;
        if total > 0x7fff_ffff_ffff_ffff {
            None
        } else {
            Some(Moment { seconds: total as i64, nanos })
        }
    }
}

impl Delay {
    /// A number of whole seconds.
    pub fn from_seconds(seconds: u64) -> (delay: Delay)
        ensures
            delay.nanos == seconds * NANOS_PER_SECOND,
    {
        Delay { nanos: seconds as u128 * 1_000_000_000 }
    }
}

/// The shorter one of a delay that may be unknown and a known one.
pub open spec fn shorter(known: Option<Delay>, other: Delay) -> Option<Delay> {
    match known {
        Some(delay) => Some(if delay.nanos <= other.nanos { delay } else { other }),
        None => Some(other),
    }
}

pub fn shorter_delay(known: Option<Delay>, other: Delay) -> (delay: Option<Delay>)
    ensures
        delay == shorter(known, other),
{
    match known {
        Some(delay) => if delay.nanos <= other.nanos {
            Some(delay)
        } else {
            Some(other)
        },
        None => Some(other),
    }
}

} // verus!
