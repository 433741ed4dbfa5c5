//! The clock: live, or replaying samples that a test has seeded.
//!
//! A `Clock` is an ordinary value that is handed to whatever needs the time.
//! In live mode it reads the system's clocks. In mock mode it hands out, in
//! the order in which they were added, the dates and durations it was seeded
//! with. Reading a mock clock that has run out of samples, and seeding a live
//! clock, are errors of the caller: the contracts rule them out.

use vstd::prelude::*;
use std::collections::VecDeque;
use std::time::Duration;
use std::time::Instant;
use std::time::SystemTime;
use crate::time::std_time::instant_after;
use crate::time::std_time::instant_now;
use crate::time::std_time::system_now;
use crate::time::std_time::system_time_offset;
use crate::time::std_time::utc_date;
use crate::time::time::clamp_nanos;
use crate::time::time::date_at;
use crate::time::time::Time;
use crate::time::utc::UtcDateTime;

verus! {

/// What a clock holds.
pub ghost struct ClockView {
    /// The dates still to be handed out, next one first.
    pub utc: Seq<UtcDateTime>,
    /// The durations still to be handed out, next one first.
    pub durations: Seq<Duration>,
    /// How often a date was asked for in mock mode.
    pub utc_call_count: nat,
    /// How often an instant was asked for in mock mode.
    pub instant_call_count: nat,
    /// The instant from which the seeded durations are counted.
    pub instant: Instant,
    pub is_mock: bool,
}

impl ClockView {
    /// The state of a clock that starts at `start`: live, nothing seeded,
    /// nothing counted, and instants counted from `start`.
    pub open spec fn fresh(start: Instant) -> ClockView {
        ClockView {
            utc: Seq::empty(),
            durations: Seq::empty(),
            utc_call_count: 0,
            instant_call_count: 0,
            instant: start,
            is_mock: false,
        }
    }

    /// The state of a clock after a reset: live, nothing seeded, nothing counted.
    pub open spec fn is_fresh(self) -> bool {
        &&& self.utc.len() == 0
        &&& self.durations.len() == 0
        &&& self.utc_call_count == 0
        &&& self.instant_call_count == 0
        &&& !self.is_mock
    }

    /// A date can be read: a mock clock has one left, and its counter has room.
    pub open spec fn can_read_utc(self) -> bool {
        self.is_mock ==> self.utc.len() > 0 && self.utc_call_count < u64::MAX
    }

    /// The state after a date was taken from a mock clock.
    pub open spec fn after_utc(self) -> ClockView {
        ClockView {
            utc: self.utc.drop_first(),
            utc_call_count: self.utc_call_count + 1,
            ..self
        }
    }

    /// `now` is the timestamp of the date that a clock in this state gave
    /// when it was read, and `after` is its state since: a mock clock gave its
    /// next date and used it up, a live clock stayed as it was and gave what
    /// the system said.
    pub open spec fn gave(self, after: ClockView, now: u64) -> bool {
        if self.is_mock {
            now == self.utc[0].spec_to_timestamp() && after == self.after_utc()
        } else {
            after == self
        }
    }

    /// The state after a duration was taken from a mock clock.
    pub open spec fn after_instant(self) -> ClockView {
        ClockView {
            durations: self.durations.drop_first(),
            instant_call_count: self.instant_call_count + 1,
            ..self
        }
    }

    /// The instant that a mock clock hands out next, if it has one.
    pub open spec fn next_instant(self) -> Option<Instant> {
        if self.durations.len() > 0 {
            instant_after(self.instant, self.durations[0])
        } else {
            None
        }
    }

    /// An instant can be read: a mock clock has one to hand out, and its
    /// counter has room.
    pub open spec fn can_read_instant(self) -> bool {
        self.is_mock ==> self.next_instant().is_some() && self.instant_call_count < u64::MAX
    }
}

/// The samples and counters behind a clock.
pub struct MockClockPerThread {
    utc: VecDeque<UtcDateTime>,
    durations: VecDeque<Duration>,
    utc_call_count: u64,
    instant_call_count: u64,
    instant: Instant,
    is_mock: bool,
}

impl View for MockClockPerThread {
    type V = ClockView;

    closed spec fn view(&self) -> ClockView {
        ClockView {
            utc: self.utc@,
            durations: self.durations@,
            utc_call_count: self.utc_call_count as nat,
            instant_call_count: self.instant_call_count as nat,
            instant: self.instant,
            is_mock: self.is_mock,
        }
    }
}

impl MockClockPerThread {
    /// The state of a clock that starts at `start`.
    pub fn starting_at(start: Instant) -> (clock: Self)
        ensures
            clock@ == ClockView::fresh(start),
    {
        let clock = Self {
            utc: VecDeque::with_capacity(16),
            durations: VecDeque::with_capacity(16),
            utc_call_count: 0,
            instant_call_count: 0,
            instant: start,
            is_mock: false,
        };
        assert(clock@.utc =~= Seq::empty() && clock@.durations =~= Seq::empty());
        clock
    }

    /// Back to live mode: drops the samples, zeroes the counters and takes
    /// `start` as the new starting instant.
    pub fn reset_at(&mut self, start: Instant)
        ensures
            final(self)@ == ClockView::fresh(start),
    {
        self.utc.clear();
        self.durations.clear();
        self.utc_call_count = 0;
        self.instant_call_count = 0;
        self.instant = start;
        self.is_mock = false;
        assert(self@.utc =~= Seq::empty() && self@.durations =~= Seq::empty());
    }

    /// Back to live mode: `reset_at`, with the instant that the system gives
    /// as the new start.
    pub fn reset(&mut self)
        ensures
            final(self)@.is_fresh(),
    {
        self.reset_at(instant_now());
    }

    /// Counts the call and takes the next date, if one is left.
    pub fn pop_utc(&mut self) -> (r: Option<UtcDateTime>)
        requires
            old(self)@.utc_call_count < u64::MAX,
        ensures
            old(self)@.utc.len() > 0 ==> r == Some(old(self)@.utc[0]) && final(self)@ == old(
                self,
            )@.after_utc(),
            old(self)@.utc.len() == 0 ==> r.is_none() && final(self)@ == (ClockView {
                utc_call_count: old(self)@.utc_call_count + 1,
                ..old(self)@
            }),
    {
        self.utc_call_count += 1;
        let r = self.utc.pop_front();
        proof {
            if old(self).utc@.len() > 0 {
                assert(self.utc@ =~= old(self).utc@.drop_first());
            } else {
                assert(self.utc@ =~= old(self).utc@);
            }
        }
        r
    }

    /// Counts the call and takes the next duration, if one is left. The result
    /// is the starting instant moved on by that duration; `None` also where
    /// the platform cannot represent that instant.
    pub fn pop_instant(&mut self) -> (r: Option<Instant>)
        requires
            old(self)@.instant_call_count < u64::MAX,
        ensures
            r == old(self)@.next_instant(),
            old(self)@.durations.len() > 0 ==> final(self)@ == old(self)@.after_instant(),
            old(self)@.durations.len() == 0 ==> final(self)@ == (ClockView {
                instant_call_count: old(self)@.instant_call_count + 1,
                ..old(self)@
            }),
    {
        self.instant_call_count += 1;
        let x = self.durations.pop_front();
        proof {
            if old(self).durations@.len() > 0 {
                assert(self.durations@ =~= old(self).durations@.drop_first());
            } else {
                assert(self.durations@ =~= old(self).durations@);
            }
        }
        match x {
            Some(t) => self.instant.checked_add(t),
            None => None,
        }
    }
}

impl Default for MockClockPerThread {
    /// `starting_at`, with the instant that the system gives as the start.
    fn default() -> (clock: Self)
        ensures
            clock@.is_fresh(),
    {
        Self::starting_at(instant_now())
    }
}

/// The date in UTC at which `now` lies, a time beyond the range of `Time`
/// taken as the nearest end of that range. The date is made by chrono; one
/// that chrono cannot hold is given by its numbers all the same.
pub fn date_of(now: SystemTime) -> (utc: UtcDateTime)
    ensures
        utc == date_at(clamp_nanos(system_time_offset(now))),
{
    let time = Time::from(now);
    proof {
        Time::lemma_at(clamp_nanos(system_time_offset(now)));
    }
    let plain = time.to_utc();
    match utc_date(plain.secs, plain.subsec_nanos) {
        Some(utc) => utc,
        None => plain,
    }
}

/// The clock that the rest of the library reads the time from.
pub struct Clock {
    per_thread: MockClockPerThread,
}

impl View for Clock {
    type V = ClockView;

    closed spec fn view(&self) -> ClockView {
        self.per_thread@
    }
}

impl Default for Clock {
    fn default() -> (clock: Self)
        ensures
            clock@.is_fresh(),
    {
        Clock { per_thread: MockClockPerThread::default() }
    }
}

impl Clock {
    /// Switches to mock mode. Samples and counters stay as they are.
    pub fn set_mock(&mut self)
        ensures
            final(self)@ == (ClockView { is_mock: true, ..old(self)@ }),
    {
        self.per_thread.is_mock = true;
    }

    /// A live clock whose instants are counted from `start`.
    pub fn starting_at(start: Instant) -> (clock: Self)
        ensures
            clock@ == ClockView::fresh(start),
    {
        Clock { per_thread: MockClockPerThread::starting_at(start) }
    }

    /// Back to live mode, with nothing seeded, nothing counted, and `start`
    /// as the new starting instant.
    pub fn reset_at(&mut self, start: Instant)
        ensures
            final(self)@ == ClockView::fresh(start),
    {
        self.per_thread.reset_at(start);
    }

    /// Back to live mode, with nothing seeded and nothing counted, and the
    /// instant that the system gives as the new start.
    pub fn reset(&mut self)
        ensures
            final(self)@.is_fresh(),
    {
        self.per_thread.reset();
    }

    pub fn is_mock(&self) -> (b: bool)
        ensures
            b == self@.is_mock,
    {
        self.per_thread.is_mock
    }

    /// How many seeded dates are left.
    pub fn utc_samples(&self) -> (n: usize)
        ensures
            n == self@.utc.len(),
    {
        self.per_thread.utc.len()
    }

    /// How many seeded durations are left.
    pub fn instant_samples(&self) -> (n: usize)
        ensures
            n == self@.durations.len(),
    {
        self.per_thread.durations.len()
    }

    /// Seeds one more date, to be handed out after those already there.
    pub fn add_utc(&mut self, mock_date: UtcDateTime)
        requires
            old(self)@.is_mock,
        ensures
            final(self)@ == (ClockView { utc: old(self)@.utc.push(mock_date), ..old(self)@ }),
    {
        self.per_thread.utc.push_back(mock_date);
    }

    /// Seeds one more duration, to be handed out after those already there.
    pub fn add_instant(&mut self, mock_instant: Duration)
        requires
            old(self)@.is_mock,
        ensures
            final(self)@ == (ClockView {
                durations: old(self)@.durations.push(mock_instant),
                ..old(self)@
            }),
    {
        self.per_thread.durations.push_back(mock_instant);
    }

    /// The date: in mock mode the next seeded one, which is used up and
    /// counted; in live mode the system's, with the clock left as it is.
    pub fn utc(&mut self) -> (t: UtcDateTime)
        requires
            old(self)@.can_read_utc(),
        ensures
            old(self)@.is_mock ==> t == old(self)@.utc[0] && final(self)@ == old(self)@.after_utc(),
            !old(self)@.is_mock ==> final(self)@ == old(self)@,
    {
        if self.per_thread.is_mock {
            self.per_thread.pop_utc().unwrap()
        } else {
            date_of(system_now())
        }
    }

    /// The instant: in mock mode the starting instant moved on by the next
    /// seeded duration, which is used up and counted; in live mode the
    /// system's, with the clock left as it is.
    pub fn instant(&mut self) -> (t: Instant)
        requires
            old(self)@.can_read_instant(),
        ensures
            old(self)@.is_mock ==> Some(t) == old(self)@.next_instant() && final(self)@ == old(
                self,
            )@.after_instant(),
            !old(self)@.is_mock ==> final(self)@ == old(self)@,
    {
        if self.per_thread.is_mock {
            self.per_thread.pop_instant().unwrap()
        } else {
            instant_now()
        }
    }

    /// Like `instant`, for a caller that cannot tell beforehand whether the
    /// clock has an instant to hand out: `None` where a mock clock has none,
    /// and then only the call is counted.
    pub fn try_instant(&mut self) -> (r: Option<Instant>)
        requires
            old(self)@.is_mock ==> old(self)@.instant_call_count < u64::MAX,
        ensures
            old(self)@.is_mock ==> r == old(self)@.next_instant(),
            old(self)@.is_mock && old(self)@.durations.len() > 0 ==> final(self)@ == old(
                self,
            )@.after_instant(),
            old(self)@.is_mock && old(self)@.durations.len() == 0 ==> final(self)@ == (ClockView {
                instant_call_count: old(self)@.instant_call_count + 1,
                ..old(self)@
            }),
            !old(self)@.is_mock ==> r.is_some() && final(self)@ == old(self)@,
    {
        if self.per_thread.is_mock {
            self.per_thread.pop_instant()
        } else {
            Some(instant_now())
        }
    }

    /// The timestamp of the date of `utc`.
    pub fn timestamp(&mut self) -> (now: u64)
        requires
            old(self)@.can_read_utc(),
        ensures
            old(self)@.gave(final(self)@, now),
    {
        self.utc().to_timestamp()
    }

    /// The date of `utc`, as a `Time`.
    pub fn now(&mut self) -> (t: Time)
        requires
            old(self)@.can_read_utc(),
        ensures
            old(self)@.is_mock ==> t == Time::at(old(self)@.utc[0].spec_to_timestamp())
                && final(self)@ == old(self)@.after_utc(),
            !old(self)@.is_mock ==> final(self)@ == old(self)@,
    {
        Time::from(self.utc())
    }

    pub fn instant_call_count(&self) -> (n: u64)
        ensures
            n == self@.instant_call_count,
    {
        self.per_thread.instant_call_count
    }

    pub fn utc_call_count(&self) -> (n: u64)
        ensures
            n == self@.utc_call_count,
    {
        self.per_thread.utc_call_count
    }
}

/// Holds a clock in mock mode for the length of a test. `release` gives the
/// clock back, reset to live mode whatever was done to it in between.
pub struct MockClockGuard {
    clock: Clock,
}

impl View for MockClockGuard {
    type V = ClockView;

    closed spec fn view(&self) -> ClockView {
        self.clock@
    }
}

impl Default for MockClockGuard {
    fn default() -> (guard: Self)
        ensures
            guard@ == (ClockView { is_mock: true, ..guard@ }),
            guard@.utc.len() == 0,
            guard@.durations.len() == 0,
            guard@.utc_call_count == 0,
            guard@.instant_call_count == 0,
    {
        MockClockGuard::new(Clock::default())
    }
}

impl MockClockGuard {
    /// Takes `clock` and switches it to mock mode.
    pub fn new(clock: Clock) -> (guard: Self)
        ensures
            guard@ == (ClockView { is_mock: true, ..clock@ }),
    {
        let mut clock = clock;
        clock.set_mock();
        MockClockGuard { clock }
    }

    /// The clock, to seed and to read.
    pub fn clock(&mut self) -> (clock: &mut Clock)
        ensures
            clock@ == old(self)@,
            final(self)@ == final(clock)@,
    {
        &mut self.clock
    }

    /// Ends the guard: the clock comes back in live mode, with nothing seeded
    /// and nothing counted.
    pub fn release(self) -> (clock: Clock)
        ensures
            clock@.is_fresh(),
    {
        let mut clock = self.clock;
        clock.reset();
        clock
    }
}

} // verus!
