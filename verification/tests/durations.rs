//! Lengths of time as librados takes them.

use librados::duration::{Duration, TimeVal};

#[test]
fn a_duration_has_seconds_and_microseconds() {
    let d = Duration::from_parts(7, 123_456_789);
    assert_eq!(d.as_secs(), 7);
    assert_eq!(d.subsec_micros(), 123_456);
    assert_eq!(Duration::from_millis(2500), Duration::from_parts(2, 500_000_000));
    assert_eq!(Duration::from_secs(3), Duration::from_parts(3, 0));
}

#[test]
fn a_timeval_is_cut_to_microseconds() {
    assert_eq!(
        Duration::from_parts(30, 999).to_timeval(),
        TimeVal { tv_sec: 30, tv_usec: 0 }
    );
    assert_eq!(
        Duration::from_parts(1, 999_999_999).to_timeval(),
        TimeVal { tv_sec: 1, tv_usec: 999_999 }
    );
}

#[test]
fn seconds_beyond_a_timeval_wrap() {
    assert_eq!(
        Duration::from_secs(i64::MAX as u64).to_timeval().tv_sec,
        i64::MAX
    );
    assert_eq!(
        Duration::from_secs(i64::MAX as u64 + 1).to_timeval().tv_sec,
        i64::MIN
    );
    assert_eq!(Duration::from_secs(u64::MAX).to_timeval().tv_sec, -1);
}

#[test]
fn a_notify_timeout_is_rounded_up_to_whole_seconds() {
    let cases: &[(Duration, u64)] = &[
        (Duration::from_secs(0), 0),
        (Duration::from_parts(0, 1), 1000),
        (Duration::from_millis(1), 1000),
        (Duration::from_millis(500), 1000),
        (Duration::from_millis(999), 1000),
        (Duration::from_secs(1), 1000),
        (Duration::from_parts(1, 1), 2000),
        (Duration::from_millis(1001), 2000),
        (Duration::from_secs(2), 2000),
        (Duration::from_secs(30), 30_000),
    ];
    for (duration, millis) in cases {
        assert_eq!(duration.to_notify_timeout(), *millis, "{duration:?}");
        assert_eq!(duration.checked_notify_timeout(), Some(*millis), "{duration:?}");
    }
}

#[test]
fn a_notify_timeout_has_a_limit() {
    let most = u64::MAX / 1000;
    assert_eq!(
        Duration::from_secs(most).checked_notify_timeout(),
        Some(most * 1000)
    );
    assert_eq!(Duration::from_parts(most, 1).checked_notify_timeout(), None);
    assert_eq!(Duration::from_secs(most + 1).checked_notify_timeout(), None);
    assert_eq!(
        Duration::from_parts(most - 1, 1).checked_notify_timeout(),
        Some(most * 1000)
    );
    assert_eq!(
        Duration::from_parts(u64::MAX, 999_999_999).checked_notify_timeout(),
        None
    );
}
