//! Lengths of time, and the forms in which librados takes them.

use vstd::prelude::*;

verus! {

/// The nanoseconds in a second.
pub const NANOS_PER_SEC: u32 = 1_000_000_000;

/// A length of time in whole seconds and nanoseconds.
#[derive(Debug, Clone, Copy, PartialEq, Eq)]
pub struct Duration {
    secs: u64,
    nanos: u32,
}

/// A length of time as C's `struct timeval` holds it.
#[derive(Debug, Clone, Copy, PartialEq, Eq, Structural)]
pub struct TimeVal {
    pub tv_sec: i64,
    pub tv_usec: i64,
}

/// The number of seconds that `nanos` nanoseconds take up, the last one counted whole.
pub open spec fn secs_rounded_up(nanos: int) -> int {
    (nanos + NANOS_PER_SEC - 1) / (NANOS_PER_SEC as int)
}

/// The whole seconds in `nanos` nanoseconds.
pub open spec fn whole_secs(nanos: int) -> int {
    nanos / (NANOS_PER_SEC as int)
}

/// The timeout that `rados_notify2` is given for `nanos` nanoseconds, in milliseconds.
pub open spec fn notify_timeout(nanos: int) -> int {
    secs_rounded_up(nanos) * 1000
}

/// `tv` holds `nanos` nanoseconds, cut to whole microseconds. A number of seconds beyond what
/// `tv_sec` can hold wraps round.
pub open spec fn is_timeval(tv: TimeVal, nanos: int) -> bool {
    &&& tv.tv_sec == if whole_secs(nanos) <= i64::MAX {
        whole_secs(nanos)
    } else {
        whole_secs(nanos) - 0x1_0000_0000_0000_0000
    }
    &&& tv.tv_usec == nanos % (NANOS_PER_SEC as int) / 1000
}

impl View for Duration {
    type V = int;

    /// The nanoseconds.
    closed spec fn view(&self) -> int {
        self.secs * NANOS_PER_SEC + self.nanos
    }
}

impl Duration {
    #[verifier::type_invariant]
    spec fn is_normal(&self) -> bool {
        self.nanos < NANOS_PER_SEC
    }

    /// `secs` seconds and `nanos` nanoseconds.
    pub fn from_parts(secs: u64, nanos: u32) -> (d: Duration)
        requires
            nanos < NANOS_PER_SEC,
        ensures
            d@ == secs * 1_000_000_000 + nanos,
    {
        Duration { secs, nanos }
    }

    /// `secs` seconds.
    pub fn from_secs(secs: u64) -> (d: Duration)
        ensures
            d@ == secs * 1_000_000_000,
    {
        Duration { secs, nanos: 0 }
    }

    /// `millis` milliseconds.
    pub fn from_millis(millis: u64) -> (d: Duration)
        ensures
            d@ == millis * 1_000_000,
    {
        let secs: u64 = millis / 1000;
        let nanos: u32 = (millis % 1000) as u32 * 1_000_000;
        Duration { secs, nanos }
    }

    /// The whole seconds.
    pub fn as_secs(&self) -> (secs: u64)
        ensures
            secs == whole_secs(self@),
    {
        proof {
            use_type_invariant(self);
        }
        self.secs
    }

    /// The microseconds beyond the whole seconds.
    pub fn subsec_micros(&self) -> (micros: u32)
        ensures
            micros == self@ % 1_000_000_000 / 1000,
    {
        proof {
            use_type_invariant(self);
        }
        self.nanos / 1000
    }

    /// The form in which a lock's duration is handed over.
    pub fn to_timeval(&self) -> (tv: TimeVal)
        ensures
            is_timeval(tv, self@),
    {
        let secs: u64 = self.as_secs();
        assert(secs > i64::MAX ==> secs as i64 == secs - 0x1_0000_0000_0000_0000) by (bit_vector);
        TimeVal { tv_sec: secs as i64, tv_usec: self.subsec_micros() as i64 }
    }

    /// The timeout of a notification in milliseconds. librados cuts it to whole seconds, and an
    /// OSD reads 0 as its own default, so anything that is not zero is rounded up to whole seconds.
    pub fn to_notify_timeout(&self) -> (millis: u64)
        requires
            notify_timeout(self@) <= u64::MAX,
        ensures
            millis == notify_timeout(self@),
    {
        proof {
            use_type_invariant(self);
        }
        if self.nanos == 0 {
            self.secs * 1000
        } else {
            (self.secs + 1) * 1000
        }
    }

    /// The timeout of a notification, where it fits the 64 bits that librados has for it.
    pub fn checked_notify_timeout(&self) -> (millis: Option<u64>)
        ensures
            match millis {
                Some(millis) => millis == notify_timeout(self@),
                None => notify_timeout(self@) > u64::MAX,
            },
    {
        proof {
            use_type_invariant(self);
        }
        let limit: u64 = u64::MAX / 1000;
        if self.secs < limit || (self.secs == limit && self.nanos == 0) {
            Some(self.to_notify_timeout())
        } else {
            None
        }
    }
}

/// A notification waits at least as long as it was told to and less than a second longer. Its
/// timeout is a whole number of seconds, and only no time at all becomes the 0 that an OSD reads
/// as its own default.
pub proof fn notify_timeout_rounds_up(nanos: int)
    requires
        nanos >= 0,
    ensures
        notify_timeout(nanos) % 1000 == 0,
        nanos <= notify_timeout(nanos) * 1_000_000 < nanos + 1_000_000_000,
        notify_timeout(nanos) == 0 <==> nanos == 0,
{
}

/// Whole seconds leave less than a second over.
pub proof fn whole_seconds_leave_less_than_one(nanos: int)
    requires
        nanos >= 0,
    ensures
        whole_secs(nanos) * 1_000_000_000 <= nanos < (whole_secs(nanos) + 1) * 1_000_000_000,
{
}

/// A `timeval` holds the whole time but for less than a microsecond, where its seconds have room
/// for it. The seconds of a longer one are those of the time, less 2 to the power of 64.
pub proof fn a_timeval_leaves_less_than_a_microsecond(tv: TimeVal, nanos: int)
    requires
        0 <= nanos,
        is_timeval(tv, nanos),
    ensures
        0 <= tv.tv_usec < 1_000_000,
        nanos < 0x8000_0000_0000_0000 * 1_000_000_000 ==> {
            let micros = tv.tv_sec * 1_000_000 + tv.tv_usec;
            &&& tv.tv_sec >= 0
            &&& micros * 1000 <= nanos < (micros + 1) * 1000
        },
        nanos >= 0x8000_0000_0000_0000 * 1_000_000_000 ==> {
            let micros = (tv.tv_sec + 0x1_0000_0000_0000_0000) * 1_000_000 + tv.tv_usec;
            micros * 1000 <= nanos < (micros + 1) * 1000
        },
{
}

} // verus!
