use peer_routing::time::clock::date_of;
use peer_routing::time::{
    Clock, Duration, Instant, MockClockGuard, MockClockPerThread, Time, UtcDateTime,
};
use std::time::SystemTime;

#[test]
fn test_operator() {
    let now_st = SystemTime::now();

    let now_nc: Time = now_st.into();

    let t_nc = now_nc + Duration::from_nanos(123456);
    let t_st = now_st + Duration::from_nanos(123456);

    assert_eq!(t_nc.inner(), Some(t_st));
}

#[test]
fn test_mock() {
    let mut clock = Clock::default();
    clock.set_mock();
    let utc = chrono::Utc::now();
    let utc = UtcDateTime::new(utc.timestamp(), utc.timestamp_subsec_nanos());

    clock.add_utc(utc);

    assert_eq!(clock.utc(), utc);
}

#[test]
fn test_borsh() {
    let mut clock = Clock::default();
    let now_nc = Time::now(&mut clock);

    let mut v = Vec::new();
    let nanos = now_nc.to_unix_timestamp_nanos().as_nanos() as u64;
    borsh::BorshSerialize::serialize(&nanos, &mut v).unwrap();
    assert_eq!(v, nanos.to_le_bytes().to_vec());

    let v2: &mut &[u8] = &mut v.as_slice();
    let back: u64 = borsh::BorshDeserialize::deserialize(v2).unwrap();
    let now2 = Time::from_unix_timestamp(Duration::from_nanos(back));
    assert_eq!(now_nc, now2);
}

#[test]
fn mock_clock_replays_its_dates_in_order() {
    let t1 = UtcDateTime::new(1_600_000_000, 1);
    let t2 = UtcDateTime::new(1_500_000_000, 999_999_999);
    let mut clock = Clock::default();
    clock.set_mock();
    clock.add_utc(t1);
    clock.add_utc(t2);
    assert_eq!(clock.utc_samples(), 2);

    assert_eq!(clock.now(), Time::from(t1));
    assert_eq!(clock.now(), Time::from(t2));

    // A third reading would find nothing: the clock is mock and has no sample left.
    assert!(clock.is_mock());
    assert_eq!(clock.utc_samples(), 0);
    assert_eq!(clock.utc_call_count(), 2);
    assert_eq!(clock.instant_call_count(), 0);
}

#[test]
fn mock_clock_counts_instants_from_its_start() {
    let mut clock = Clock::default();
    clock.set_mock();
    clock.add_instant(Duration::from_nanos(5_000));
    clock.add_instant(Duration::from_nanos(2_000));
    assert_eq!(clock.instant_samples(), 2);
    let first = clock.instant();
    let second = clock.instant();
    assert_eq!(first.duration_since(second), Duration::from_nanos(3_000));
    assert_eq!(clock.instant_call_count(), 2);
    assert_eq!(clock.try_instant(), None);
    assert_eq!(clock.instant_call_count(), 3);
}

#[test]
fn live_clock_reads_the_system_and_counts_nothing() {
    let mut clock = Clock::default();
    assert!(!clock.is_mock());
    let before = chrono::Utc::now().timestamp();
    let read = clock.utc();
    let after = chrono::Utc::now().timestamp();
    assert!(before <= read.secs && read.secs <= after);
    assert!(clock.try_instant().is_some());
    let _ = clock.instant();
    let _ = clock.now();
    assert_eq!(clock.utc_call_count(), 0);
    assert_eq!(clock.instant_call_count(), 0);
}

#[test]
fn reset_returns_to_live_mode_and_forgets_samples() {
    let mut clock = Clock::default();
    clock.set_mock();
    clock.add_utc(UtcDateTime::new(1, 2));
    clock.add_instant(Duration::from_nanos(3));
    let _ = clock.utc();
    clock.add_utc(UtcDateTime::new(4, 5));
    clock.reset();
    assert!(!clock.is_mock());
    assert_eq!(clock.utc_samples(), 0);
    assert_eq!(clock.instant_samples(), 0);
    assert_eq!(clock.utc_call_count(), 0);
    assert_eq!(clock.instant_call_count(), 0);
}

#[test]
fn guard_holds_a_mock_clock_and_releases_a_live_one() {
    let mut guard = MockClockGuard::default();
    assert!(guard.clock().is_mock());
    guard.clock().add_utc(UtcDateTime::new(10, 0));
    assert_eq!(guard.clock().timestamp(), 10_000_000_000);
    guard.clock().add_utc(UtcDateTime::new(11, 0));
    let clock = guard.release();
    assert!(!clock.is_mock());
    assert_eq!(clock.utc_samples(), 0);
    assert_eq!(clock.utc_call_count(), 0);

    let mut seeded = Clock::default();
    seeded.set_mock();
    seeded.add_utc(UtcDateTime::new(7, 0));
    seeded.reset();
    let mut guard = MockClockGuard::new(seeded);
    assert!(guard.clock().is_mock());
    assert_eq!(guard.clock().utc_samples(), 0);
}

#[test]
fn timestamp_counts_nanoseconds_modulo_two_to_the_64() {
    assert_eq!(UtcDateTime::new(0, 0).to_timestamp(), 0);
    assert_eq!(UtcDateTime::new(1, 5).to_timestamp(), 1_000_000_005);
    assert_eq!(UtcDateTime::new(1_600_000_000, 123).to_timestamp(), 1_600_000_000_000_000_123);
    // One second before the epoch wraps around.
    assert_eq!(UtcDateTime::new(-1, 0).to_timestamp(), u64::MAX - 999_999_999);
    assert_eq!(UtcDateTime::new(-1, 999_999_999).to_timestamp(), u64::MAX);
    // A leap second carries into the next second.
    assert_eq!(UtcDateTime::new(59, 1_500_000_000).to_timestamp(), 60_500_000_000);
    // 2^64 nanoseconds after the epoch is the epoch again.
    assert_eq!(UtcDateTime::new(18_446_744_073, 709_551_616).to_timestamp(), 0);
    assert_eq!(UtcDateTime::new(i64::MAX, 0).to_timestamp(), u64::MAX - 999_999_999);
    assert_eq!(UtcDateTime::new(i64::MIN, 0).to_timestamp(), 0);
}

#[test]
fn timestamp_and_date_round_trip() {
    let utc = UtcDateTime::from_timestamp(1_600_000_000_000_000_123);
    assert_eq!(utc, UtcDateTime::new(1_600_000_000, 123));
    assert_eq!(utc.to_timestamp(), 1_600_000_000_000_000_123);
    assert_eq!(UtcDateTime::from_timestamp(u64::MAX).to_timestamp(), u64::MAX);
    assert_eq!(UtcDateTime::from_timestamp(0), UtcDateTime::new(0, 0));
}

#[test]
fn time_from_a_date_agrees_with_chrono() {
    let now = chrono::Utc::now();
    let nanos = now.timestamp_nanos_opt().unwrap() as u64;
    let utc = UtcDateTime::new(now.timestamp(), now.timestamp_subsec_nanos());
    assert_eq!(utc.to_timestamp(), nanos);
    assert_eq!(Time::from(utc), Time::from_unix_timestamp(Duration::from_nanos(nanos)));
}

#[test]
fn durations_between_times() {
    let early = Time::from_unix_timestamp(Duration::new(100, 7));
    let late = Time::from_unix_timestamp(Duration::new(250, 3));
    assert_eq!(late.duration_since(&early), Duration::new(149, 999_999_996));
    assert_eq!(early.duration_since(&late), Duration::from_millis(0));
    assert_eq!(late - early, Duration::new(149, 999_999_996));
    assert_eq!(early - late, Duration::new(0, 0));
    assert_eq!(early.duration_since(&early), Duration::new(0, 0));
    assert_eq!(late.to_unix_timestamp_nanos(), Duration::new(250, 3));
    assert_eq!(Time::unix_epoch().to_unix_timestamp_nanos(), Duration::new(0, 0));
    assert_eq!(Time::unix_epoch() + Duration::new(250, 3), late);
    assert!(early < late);
}

#[test]
fn times_before_the_epoch() {
    let before = SystemTime::UNIX_EPOCH - Duration::new(5, 250);
    let t = Time::from(before);
    assert_eq!(t.inner(), Some(before));
    assert_eq!(t.to_unix_timestamp_nanos(), Duration::new(0, 0));
    assert_eq!(Time::unix_epoch().duration_since(&t), Duration::new(5, 250));
    assert_eq!(t + Duration::new(5, 250), Time::unix_epoch());
    assert!(t < Time::unix_epoch());
}

#[test]
fn the_widest_span_fits_a_duration() {
    let latest = Time::from_unix_timestamp(Duration::new(i64::MAX as u64, 999_999_999));
    let earliest = Time::from(SystemTime::UNIX_EPOCH - Duration::new(i64::MAX as u64, 0));
    assert_eq!(
        latest.duration_since(&earliest),
        Duration::new(u64::MAX - 1, 999_999_999)
    );
    assert_eq!(Time::unix_epoch().inner(), Some(SystemTime::UNIX_EPOCH));
}

#[test]
fn elapsed_is_measured_by_the_clock() {
    let mut clock = Clock::default();
    clock.set_mock();
    clock.add_utc(UtcDateTime::new(100, 0));
    clock.add_utc(UtcDateTime::new(50, 0));
    let then = Time::from_unix_timestamp(Duration::new(60, 0));
    assert_eq!(then.elapsed(&mut clock), Duration::new(40, 0));
    assert_eq!(then.elapsed(&mut clock), Duration::new(0, 0));
    assert_eq!(clock.utc_call_count(), 2);
}

#[test]
fn samples_of_a_fresh_clock_state() {
    let mut state = MockClockPerThread::default();
    assert_eq!(state.pop_utc(), None);
    assert_eq!(state.pop_instant(), None);
    state.reset();
    assert_eq!(state.pop_utc(), None);
}

#[test]
fn checked_add_stops_at_the_end_of_the_range() {
    let late = Time::from_unix_timestamp(Duration::new(i64::MAX as u64, 999_999_999));
    assert_eq!(late.checked_add(Duration::new(0, 1)), None);
    assert_eq!(late.checked_add(Duration::new(0, 0)), Some(late));
    let t = Time::from_unix_timestamp(Duration::new(1, 0));
    assert_eq!(
        t.checked_add(Duration::new(2, 5)),
        Some(Time::from_unix_timestamp(Duration::new(3, 5)))
    );
    assert_eq!(t.checked_add(Duration::new(u64::MAX, 0)), None);
}

#[test]
fn inner_is_the_epoch_moved_by_the_offset() {
    let after = Time::from_unix_timestamp(Duration::new(1, 5));
    assert_eq!(after.inner(), Some(SystemTime::UNIX_EPOCH + Duration::new(1, 5)));
    assert_eq!(after.inner(), SystemTime::UNIX_EPOCH.checked_add(Duration::new(1, 5)));

    let before = Time::from(SystemTime::UNIX_EPOCH - Duration::new(2, 7));
    assert_eq!(before.inner(), Some(SystemTime::UNIX_EPOCH - Duration::new(2, 7)));
    assert_eq!(before.inner(), SystemTime::UNIX_EPOCH.checked_sub(Duration::new(2, 7)));

    // The ends of the range are what the platform makes of them.
    let latest = Time::from_unix_timestamp(Duration::new(i64::MAX as u64, 999_999_999));
    assert_eq!(
        latest.inner(),
        SystemTime::UNIX_EPOCH.checked_add(Duration::new(i64::MAX as u64, 999_999_999))
    );
}

#[test]
fn date_of_a_system_time() {
    assert_eq!(date_of(SystemTime::UNIX_EPOCH), UtcDateTime::new(0, 0));
    assert_eq!(
        date_of(SystemTime::UNIX_EPOCH + Duration::new(1_600_000_000, 123)),
        UtcDateTime::new(1_600_000_000, 123)
    );
    // Before the epoch the seconds are rounded down.
    assert_eq!(
        date_of(SystemTime::UNIX_EPOCH - Duration::new(0, 1)),
        UtcDateTime::new(-1, 999_999_999)
    );
    assert_eq!(date_of(SystemTime::UNIX_EPOCH - Duration::new(5, 0)), UtcDateTime::new(-5, 0));
    assert_eq!(
        date_of(SystemTime::UNIX_EPOCH - Duration::new(5, 250)),
        UtcDateTime::new(-6, 999_999_750)
    );
    // A date that chrono cannot hold is given by its numbers all the same.
    let far = SystemTime::UNIX_EPOCH + Duration::new(1 << 60, 7);
    assert!(chrono::DateTime::from_timestamp(1 << 60, 7).is_none());
    assert_eq!(date_of(far), UtcDateTime::new(1 << 60, 7));
    // It agrees with chrono where chrono has the date.
    let now = SystemTime::now();
    let by_chrono = chrono::DateTime::<chrono::Utc>::from(now);
    assert_eq!(
        date_of(now),
        UtcDateTime::new(by_chrono.timestamp(), by_chrono.timestamp_subsec_nanos())
    );
}

#[test]
fn date_of_a_time() {
    let t = Time::from_unix_timestamp(Duration::new(12, 34));
    assert_eq!(t.to_utc(), UtcDateTime::new(12, 34));
    assert_eq!(Time::unix_epoch().to_utc(), UtcDateTime::new(0, 0));
    let before = Time::from(SystemTime::UNIX_EPOCH - Duration::new(2, 7));
    assert_eq!(before.to_utc(), UtcDateTime::new(-3, 999_999_993));
    let early = Time::from(SystemTime::UNIX_EPOCH - Duration::new(i64::MAX as u64, 0));
    assert_eq!(early.to_utc(), UtcDateTime::new(-i64::MAX, 0));
    let latest = Time::from_unix_timestamp(Duration::new(i64::MAX as u64, 999_999_999));
    assert_eq!(latest.to_utc(), UtcDateTime::new(i64::MAX, 999_999_999));
}

#[test]
fn a_clock_starts_where_it_is_told_to() {
    let start = Instant::now();
    let mut clock = Clock::starting_at(start);
    assert!(!clock.is_mock());
    clock.set_mock();
    clock.add_instant(Duration::new(3, 0));
    assert_eq!(clock.instant(), start + Duration::new(3, 0));

    // A reset takes the new start, and forgets the rest.
    clock.add_instant(Duration::new(9, 0));
    clock.add_utc(UtcDateTime::new(1, 1));
    let later = start + Duration::new(100, 0);
    clock.reset_at(later);
    assert!(!clock.is_mock());
    assert_eq!(clock.instant_samples(), 0);
    assert_eq!(clock.utc_samples(), 0);
    assert_eq!(clock.instant_call_count(), 0);
    clock.set_mock();
    clock.add_instant(Duration::new(1, 0));
    assert_eq!(clock.instant(), later + Duration::new(1, 0));

    let mut state = MockClockPerThread::starting_at(start);
    assert_eq!(state.pop_instant(), None);
    state.reset_at(later);
    assert_eq!(state.pop_utc(), None);
}

#[test]
fn a_reset_takes_a_new_start() {
    let start = Instant::now();
    let mut clock = Clock::starting_at(start);
    while Instant::now() <= start {}
    clock.reset();
    clock.set_mock();
    clock.add_instant(Duration::new(0, 0));
    assert!(clock.instant() > start);
}
