//! What this library takes on trust about `std::time`, about the system's
//! clocks, and about the dates of `chrono`. Nothing in this file is proved: each contract restates what the
//! documentation of the function it names promises.

use vstd::prelude::*;
use std::time::Duration;
use std::time::Instant;
use std::time::SystemTime;
use std::time::SystemTimeError;
use crate::time::utc::UtcDateTime;

verus! {

/// `std::time::SystemTime`, as a value that is only handed on.
#[verifier::external_type_specification]
#[verifier::external_body]
pub struct ExSystemTime(SystemTime);

/// `std::time::SystemTimeError`, as a value that is only handed on.
#[verifier::external_type_specification]
#[verifier::external_body]
pub struct ExSystemTimeError(SystemTimeError);

/// `std::time::Instant`, as a value that is only handed on.
#[verifier::external_type_specification]
#[verifier::external_body]
pub struct ExInstant(Instant);

/// The length of a `Duration`, in nanoseconds.
pub uninterp spec fn duration_nanos(d: Duration) -> nat;

/// Where a `SystemTime` lies: nanoseconds after the Unix epoch, negative before it.
pub uninterp spec fn system_time_offset(t: SystemTime) -> int;

/// How far apart the two times of a failed `SystemTime::duration_since` are, in nanoseconds.
pub uninterp spec fn system_time_error_nanos(e: SystemTimeError) -> nat;

/// The result of `SystemTime::checked_add` on a time at `offset` and a
/// duration of `nanos` nanoseconds: the time that lies that much later, or
/// `None` where the platform cannot represent it.
pub uninterp spec fn system_time_plus(offset: int, nanos: nat) -> Option<SystemTime>;

/// The result of `SystemTime::checked_sub` on a time at `offset` and a
/// duration of `nanos` nanoseconds: the time that lies that much earlier, or
/// `None` where the platform cannot represent it.
pub uninterp spec fn system_time_minus(offset: int, nanos: nat) -> Option<SystemTime>;

/// The result of `chrono::DateTime::from_timestamp`, read as seconds and
/// nanoseconds: the date that lies `secs` seconds and `nsecs` nanoseconds
/// after the start of 1970, or `None` where chrono has no such date.
pub uninterp spec fn chrono_date(secs: i64, nsecs: u32) -> Option<UtcDateTime>;

/// The result of `Instant::checked_add`: the instant that lies `d` after `start`,
/// or `None` where the platform cannot represent it.
pub uninterp spec fn instant_after(start: Instant, d: Duration) -> Option<Instant>;

/// `Duration::from_nanos` makes a duration of exactly that many nanoseconds.
pub assume_specification[ Duration::from_nanos ](nanos: u64) -> (d: Duration)
    ensures
        duration_nanos(d) == nanos,
;

/// `Duration::new` makes a duration of `secs` whole seconds and `nanos`
/// nanoseconds. With `nanos` under one second nothing is carried into the
/// seconds, so the call cannot overflow.
pub assume_specification[ Duration::new ](secs: u64, nanos: u32) -> (d: Duration)
    requires
        nanos < 1_000_000_000,
    ensures
        duration_nanos(d) == secs * 1_000_000_000 + nanos,
;

/// `Duration::as_secs` returns the whole seconds of the duration.
pub assume_specification[ Duration::as_secs ](d: &Duration) -> (secs: u64)
    ensures
        secs == duration_nanos(*d) / 1_000_000_000,
;

/// `Duration::subsec_nanos` returns the part of the duration below one second.
pub assume_specification[ Duration::subsec_nanos ](d: &Duration) -> (nanos: u32)
    ensures
        nanos == duration_nanos(*d) % 1_000_000_000,
;

/// `SystemTime::duration_since` returns how long `t` lies after `earlier`, or,
/// where `earlier` is the later of the two, an error that holds the distance.
pub assume_specification[ SystemTime::duration_since ](t: &SystemTime, earlier: SystemTime) -> (r:
    Result<Duration, SystemTimeError>)
    ensures
        match r {
            Ok(d) => system_time_offset(*t) - system_time_offset(earlier) == duration_nanos(d),
            Err(e) => system_time_offset(earlier) - system_time_offset(*t)
                == system_time_error_nanos(e) && system_time_error_nanos(e) > 0,
        },
;

/// `SystemTimeError::duration` returns the distance that the error holds.
pub assume_specification[ SystemTimeError::duration ](e: &SystemTimeError) -> (d: Duration)
    ensures
        duration_nanos(d) == system_time_error_nanos(*e),
;

/// `SystemTime::checked_add` is a function of where `t` lies and how long
/// `d` is; `system_time_plus` names what it returns. Where it returns a
/// time, that time lies after `t` by `d`, or by less than `d` on a platform
/// that counts time in steps coarser than a nanosecond. When the platform
/// cannot represent the sum is not stated.
pub assume_specification[ SystemTime::checked_add ](t: &SystemTime, d: Duration) -> (r: Option<
    SystemTime,
>)
    ensures
        r == system_time_plus(system_time_offset(*t), duration_nanos(d)),
        r matches Some(sum) ==> system_time_offset(*t) <= system_time_offset(sum)
            <= system_time_offset(*t) + duration_nanos(d),
;

/// `SystemTime::checked_sub` is a function of where `t` lies and how long
/// `d` is; `system_time_minus` names what it returns. Where it returns a
/// time, that time lies before `t` by `d`, or by less than `d` on a
/// platform that counts time in steps coarser than a nanosecond. When the
/// platform cannot represent the difference is not stated.
pub assume_specification[ SystemTime::checked_sub ](t: &SystemTime, d: Duration) -> (r: Option<
    SystemTime,
>)
    ensures
        r == system_time_minus(system_time_offset(*t), duration_nanos(d)),
        r matches Some(diff) ==> system_time_offset(*t) - duration_nanos(d)
            <= system_time_offset(diff) <= system_time_offset(*t),
;

/// `Instant::checked_add` is a function of its two arguments; `instant_after`
/// names what it returns.
pub assume_specification[ Instant::checked_add ](start: &Instant, d: Duration) -> (r: Option<
    Instant,
>)
    ensures
        r == instant_after(*start, d),
;

/// The constant `SystemTime::UNIX_EPOCH`.
#[verifier::external_body]
pub(crate) fn unix_epoch() -> (t: SystemTime)
    ensures
        system_time_offset(t) == 0,
{
    SystemTime::UNIX_EPOCH
}

/// `Instant::now` reads the monotonic clock. Nothing is promised of what it
/// returns.
#[verifier::external_body]
pub(crate) fn instant_now() -> Instant {
    Instant::now()
}

/// `SystemTime::now` reads the wall clock. Nothing is promised of what it
/// returns.
#[verifier::external_body]
pub(crate) fn system_now() -> SystemTime {
    SystemTime::now()
}

/// `chrono::DateTime::from_timestamp` makes the date in UTC that lies `secs`
/// seconds and `nsecs` nanoseconds after the start of 1970, and gives `None`
/// where chrono cannot hold that date or the nanoseconds are no valid part
/// of a second. The date is handed back as the seconds and nanoseconds that
/// chrono reports for it, which are those it was made from.
#[verifier::external_body]
pub(crate) fn utc_date(secs: i64, nsecs: u32) -> (r: Option<UtcDateTime>)
    ensures
        r == chrono_date(secs, nsecs),
        r matches Some(utc) ==> utc.secs == secs && utc.subsec_nanos == nsecs,
{
    match chrono::DateTime::from_timestamp(secs, nsecs) {
        Some(date) => Some(
            UtcDateTime { secs: date.timestamp(), subsec_nanos: date.timestamp_subsec_nanos() },
        ),
        None => None,
    }
}

} // verus!
