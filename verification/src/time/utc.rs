//! A date and time in UTC, as plain numbers.

use vstd::prelude::*;

verus! {

pub const NANOS_PER_SEC: u64 = 1_000_000_000;

/// Two to the power of 64: timestamps are counted modulo this.
pub open spec fn timestamp_modulus() -> int {
    0x1_0000_0000_0000_0000
}

/// A date and time in UTC: whole seconds since 1 January 1970, and the
/// nanoseconds within that second (one billion and more during a leap second).
#[derive(Clone, Copy, Debug, PartialEq, Eq, Structural, Hash)]
pub struct UtcDateTime {
    pub secs: i64,
    pub subsec_nanos: u32,
}

impl UtcDateTime {
    /// Nanoseconds since the epoch, reduced modulo two to the power of 64: the
    /// form in which a timestamp is stored as a `u64`. A date before 1970 or
    /// after 2554 wraps around.
    pub open spec fn spec_to_timestamp(self) -> int {
        (self.secs * 1_000_000_000 + self.subsec_nanos) % timestamp_modulus()
    }

    pub fn new(secs: i64, subsec_nanos: u32) -> (utc: Self)
        ensures
            utc == (UtcDateTime { secs, subsec_nanos }),
    {
        UtcDateTime { secs, subsec_nanos }
    }

    /// The timestamp of this date: see `spec_to_timestamp`.
    pub fn to_timestamp(&self) -> (ts: u64)
        ensures
            ts == self.spec_to_timestamp(),
    {
        let total: i128 = self.secs as i128 * 1_000_000_000 + self.subsec_nanos as i128;
        let modulus: i128 = 0x1_0000_0000_0000_0000;
        if total >= 0 {
            (total % modulus) as u64
        } else {
            let back: i128 = (-total) % modulus;
            if back == 0 {
                0
            } else {
                (modulus - back) as u64
            }
        }
    }

    /// The date that a timestamp stands for, counted forward from the epoch.
    pub fn from_timestamp(timestamp: u64) -> (utc: Self)
        ensures
            utc.secs == timestamp / NANOS_PER_SEC,
            utc.subsec_nanos == timestamp % NANOS_PER_SEC,
            utc.spec_to_timestamp() == timestamp,
    {
        UtcDateTime {
            secs: (timestamp / NANOS_PER_SEC) as i64,
            subsec_nanos: (timestamp % NANOS_PER_SEC) as u32,
        }
    }
}

} // verus!
