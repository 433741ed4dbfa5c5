//! `Time`: a point on the wall clock, counted in nanoseconds from the Unix epoch.

use vstd::prelude::*;
use std::ops::Add;
use std::ops::Sub;
use std::time::Duration;
use std::time::SystemTime;
use vstd::std_specs::convert::FromSpecImpl;
use vstd::std_specs::ops::AddSpecImpl;
use vstd::std_specs::ops::SubSpecImpl;
use crate::time::clock::Clock;
use crate::time::std_time::duration_nanos;
use crate::time::std_time::system_time_minus;
use crate::time::std_time::system_time_offset;
use crate::time::std_time::system_time_plus;
use crate::time::std_time::unix_epoch;
use crate::time::utc::UtcDateTime;

verus! {

/// The earliest `Time`, in nanoseconds from the epoch: as many seconds before
/// it as an `i64` counts.
pub const MIN_NANOS: i128 = -9_223_372_036_854_775_808_000_000_000;

/// The latest `Time`, in nanoseconds from the epoch: one nanosecond short of
/// two to the power of 63 seconds.
pub const MAX_NANOS: i128 = 9_223_372_036_854_775_807_999_999_999;

/// The `SystemTime` at `offset` nanoseconds from the Unix epoch, as the
/// platform makes it: the epoch with the offset added where the offset is
/// not negative, else the epoch with the offset taken away; `None` where the
/// platform cannot represent the result.
pub open spec fn system_time_at(offset: int) -> Option<SystemTime> {
    if offset >= 0 {
        system_time_plus(0, offset as nat)
    } else {
        system_time_minus(0, (-offset) as nat)
    }
}

/// The date in UTC at `offset` nanoseconds from the Unix epoch: whole
/// seconds, rounded down, and the nanoseconds past them.
pub open spec fn date_at(offset: int) -> UtcDateTime {
    UtcDateTime {
        secs: (offset / 1_000_000_000) as i64,
        subsec_nanos: (offset % 1_000_000_000) as u32,
    }
}

/// The offset nearest to `n` that a `Time` can hold.
pub open spec fn clamp_nanos(n: int) -> int {
    if n < MIN_NANOS {
        MIN_NANOS as int
    } else if n > MAX_NANOS {
        MAX_NANOS as int
    } else {
        n
    }
}

/// A point in time. Its view is its offset from the Unix epoch in nanoseconds,
/// always between `MIN_NANOS` and `MAX_NANOS`, so that the distance between
/// any two of them fits a `Duration`.
#[derive(Copy, Clone, PartialEq, Eq, PartialOrd, Ord, Hash, Debug, Structural)]
pub struct Time {
    nanos: i128,
}

impl View for Time {
    type V = int;

    closed spec fn view(&self) -> int {
        self.nanos as int
    }
}

impl Time {
    #[verifier::type_invariant]
    spec fn in_range(self) -> bool {
        MIN_NANOS <= self.nanos <= MAX_NANOS
    }

    /// The time at offset `nanos`.
    pub closed spec fn at(nanos: int) -> Time {
        Time { nanos: nanos as i128 }
    }

    /// The time at an offset has that offset.
    pub proof fn lemma_at(nanos: int)
        requires
            i128::MIN <= nanos <= i128::MAX,
        ensures
            Time::at(nanos)@ == nanos,
    {
    }

    /// Two times with the same offset are the same time, and a time is the
    /// time at its offset.
    pub proof fn lemma_same_offset(a: Time, b: Time)
        ensures
            a@ == b@ <==> a == b,
            Time::at(a@) == a,
    {
    }

    fn from_offset(nanos: i128) -> (t: Time)
        requires
            MIN_NANOS <= nanos <= MAX_NANOS,
        ensures
            t == Time::at(nanos as int),
            t@ == nanos,
    {
        Time { nanos }
    }

    /// The Unix epoch: midnight before 1 January 1970, UTC.
    pub fn unix_epoch() -> (t: Time)
        ensures
            t@ == 0,
            t == Time::at(0),
    {
        Time { nanos: 0 }
    }

    fn nanos_of(d: &Duration) -> (n: i128)
        ensures
            n == duration_nanos(*d),
            0 <= n <= u64::MAX * 1_000_000_000 + 999_999_999,
    {
        let secs: u64 = d.as_secs();
        let sub: u32 = d.subsec_nanos();
        secs as i128 * 1_000_000_000 + sub as i128
    }

    fn duration_of(nanos: i128) -> (d: Duration)
        requires
            0 <= nanos <= MAX_NANOS - MIN_NANOS,
        ensures
            duration_nanos(d) == nanos,
    {
        let secs: i128 = nanos / 1_000_000_000;
        let sub: i128 = nanos % 1_000_000_000;
        Duration::new(secs as u64, sub as u32)
    }

    /// The date that `clock` gives, as a time: as many nanoseconds after the
    /// epoch as the date's timestamp counts.
    pub fn now(clock: &mut Clock) -> (t: Time)
        requires
            old(clock)@.can_read_utc(),
        ensures
            old(clock)@.is_mock ==> t == Time::at(old(clock)@.utc[0].spec_to_timestamp())
                && final(clock)@ == old(clock)@.after_utc(),
            !old(clock)@.is_mock ==> final(clock)@ == old(clock)@,
    {
        let nanos: u64 = clock.utc().to_timestamp();
        Time::unix_epoch() + Duration::from_nanos(nanos)
    }

    /// How long `self` lies after `rhs`; zero where it lies before it.
    pub fn duration_since(&self, rhs: &Self) -> (d: Duration)
        ensures
            duration_nanos(d) == if self@ >= rhs@ { self@ - rhs@ } else { 0 },
    {
        proof {
            use_type_invariant(self);
            use_type_invariant(rhs);
        }
        if self.nanos >= rhs.nanos {
            Time::duration_of(self.nanos - rhs.nanos)
        } else {
            Time::duration_of(0)
        }
    }

    /// How long ago `self` was, by the date that `clock` gives; zero where
    /// `self` lies after that date.
    pub fn elapsed(&self, clock: &mut Clock) -> (d: Duration)
        requires
            old(clock)@.can_read_utc(),
        ensures
            old(clock)@.is_mock ==> final(clock)@ == old(clock)@.after_utc() && duration_nanos(d)
                == ({
                let now = old(clock)@.utc[0].spec_to_timestamp();
                if now >= self@ {
                    now - self@
                } else {
                    0
                }
            }),
            !old(clock)@.is_mock ==> final(clock)@ == old(clock)@,
    {
        Time::now(clock).duration_since(self)
    }

    /// The time `duration` after the epoch.
    pub fn from_unix_timestamp(duration: Duration) -> (t: Time)
        requires
            duration_nanos(duration) <= MAX_NANOS,
        ensures
            t@ == duration_nanos(duration),
            t == Time::at(duration_nanos(duration) as int),
    {
        let n: i128 = Time::nanos_of(&duration);
        Time::from_offset(n)
    }

    /// The date in UTC of this time.
    pub fn to_utc(self) -> (utc: UtcDateTime)
        ensures
            utc == date_at(self@),
            utc.secs * 1_000_000_000 + utc.subsec_nanos == self@,
            utc.subsec_nanos < 1_000_000_000,
    {
        proof {
            use_type_invariant(self);
        }
        if self.nanos >= 0 {
            let secs: i128 = self.nanos / 1_000_000_000;
            let sub: i128 = self.nanos % 1_000_000_000;
            UtcDateTime { secs: secs as i64, subsec_nanos: sub as u32 }
        } else {
            let back: i128 = -self.nanos;
            let secs: i128 = back / 1_000_000_000;
            let sub: i128 = back % 1_000_000_000;
            if sub == 0 {
                UtcDateTime { secs: (-secs) as i64, subsec_nanos: 0 }
            } else {
                UtcDateTime {
                    secs: (-secs - 1) as i64,
                    subsec_nanos: (1_000_000_000 - sub) as u32,
                }
            }
        }
    }

    /// How long `self` lies after the epoch; zero where it lies before it.
    pub fn to_unix_timestamp_nanos(&self) -> (d: Duration)
        ensures
            duration_nanos(d) == if self@ >= 0 { self@ } else { 0 },
    {
        self.duration_since(&Time::unix_epoch())
    }

    /// This time as a `SystemTime`: what the platform gives for the epoch
    /// moved on, or back, by the offset of `self`. It is `None` only where
    /// the platform cannot represent that time. A platform that counts time
    /// in steps coarser than a nanosecond gives a time that lies between
    /// the epoch and the offset.
    pub fn inner(self) -> (r: Option<SystemTime>)
        ensures
            r == system_time_at(self@),
            r matches Some(t) ==> if self@ >= 0 {
                0 <= system_time_offset(t) <= self@
            } else {
                self@ <= system_time_offset(t) <= 0
            },
    {
        proof {
            use_type_invariant(self);
        }
        let epoch = unix_epoch();
        if self.nanos >= 0 {
            epoch.checked_add(Time::duration_of(self.nanos))
        } else {
            epoch.checked_sub(Time::duration_of(-self.nanos))
        }
    }
}

impl FromSpecImpl<SystemTime> for Time {
    open spec fn obeys_from_spec() -> bool {
        true
    }

    /// The time at the offset of `system_time`; one that lies outside the range of
    /// `Time` becomes the nearest end of the range.
    open spec fn from_spec(system_time: SystemTime) -> Time {
        Time::at(clamp_nanos(system_time_offset(system_time)))
    }
}

impl From<SystemTime> for Time {
    fn from(system_time: SystemTime) -> (t: Time) {
        match system_time.duration_since(unix_epoch()) {
            Ok(d) => {
                let n: i128 = Time::nanos_of(&d);
                if n > MAX_NANOS {
                    Time::from_offset(MAX_NANOS)
                } else {
                    Time::from_offset(n)
                }
            },
            Err(e) => {
                let n: i128 = Time::nanos_of(&e.duration());
                if n > -MIN_NANOS {
                    Time::from_offset(MIN_NANOS)
                } else {
                    Time::from_offset(-n)
                }
            },
        }
    }
}

impl FromSpecImpl<UtcDateTime> for Time {
    open spec fn obeys_from_spec() -> bool {
        true
    }

    /// The time as many nanoseconds after the epoch as the date's timestamp counts.
    open spec fn from_spec(utc: UtcDateTime) -> Time {
        Time::at(utc.spec_to_timestamp())
    }
}

impl From<UtcDateTime> for Time {
    fn from(utc: UtcDateTime) -> (t: Time) {
        let nanos: u64 = utc.to_timestamp();
        Time::from_offset(nanos as i128)
    }
}

impl AddSpecImpl<Duration> for Time {
    open spec fn obeys_add_spec() -> bool {
        true
    }

    /// The sum has to lie within the range of `Time`.
    open spec fn add_req(self, rhs: Duration) -> bool {
        self@ + duration_nanos(rhs) <= MAX_NANOS
    }

    open spec fn add_spec(self, rhs: Duration) -> Time {
        Time::at(self@ + duration_nanos(rhs))
    }
}

impl Add<Duration> for Time {
    type Output = Time;

    fn add(self, other: Duration) -> (sum: Time) {
        proof {
            use_type_invariant(self);
        }
        let n: i128 = Time::nanos_of(&other);
        Time::from_offset(self.nanos + n)
    }
}

impl Time {
    /// The time `duration` after `self`; `None` where that lies beyond the
    /// range of `Time`.
    pub fn checked_add(self, duration: Duration) -> (sum: Option<Time>)
        ensures
            sum == if self@ + duration_nanos(duration) <= MAX_NANOS {
                Some(Time::at(self@ + duration_nanos(duration)))
            } else {
                None
            },
    {
        proof {
            use_type_invariant(self);
        }
        let n: i128 = Time::nanos_of(&duration);
        if self.nanos + n <= MAX_NANOS {
            Some(self + duration)
        } else {
            None
        }
    }
}

impl SubSpecImpl<Time> for Time {
    open spec fn obeys_sub_spec() -> bool {
        false
    }

    open spec fn sub_req(self, rhs: Time) -> bool {
        true
    }

    open spec fn sub_spec(self, rhs: Time) -> Duration {
        arbitrary()
    }
}

impl Sub<Time> for Time {
    type Output = Duration;

    /// Like `duration_since`: zero where `self` lies before `other`.
    fn sub(self, other: Time) -> (d: Duration)
        ensures
            duration_nanos(d) == if self@ >= other@ { self@ - other@ } else { 0 },
    {
        self.duration_since(&other)
    }
}

} // verus!
