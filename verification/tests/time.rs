//! The clock and its units.

use std::time::{Duration, SystemTime, UNIX_EPOCH};
use steller::domain::time::{clock_message, Milliseconds, Seconds};

#[test]
fn now_is_after_2024() {
    // 2024-01-01T00:00:00Z
    assert!(Milliseconds::now().unwrap() > Milliseconds::new(1_704_067_200_000));
}

#[test]
fn now_is_millis_not_secs() {
    // A seconds value would be ~1.7e9; millis is ~1.7e12.
    assert!(Milliseconds::now().unwrap() > Milliseconds::new(1_000_000_000_000));
}

#[test]
fn to_seconds_rounds_up() {
    assert_eq!(
        Milliseconds::new(59_999).to_seconds_rounded_up(),
        Seconds::new(60)
    );
    assert_eq!(
        Milliseconds::new(60_000).to_seconds_rounded_up(),
        Seconds::new(60)
    );
    assert_eq!(
        Milliseconds::new(1).to_seconds_rounded_up(),
        Seconds::new(1)
    );
    assert_eq!(
        Milliseconds::new(0).to_seconds_rounded_up(),
        Seconds::new(0)
    );
}

#[test]
fn seconds_convert_to_millis() {
    assert_eq!(
        Milliseconds::from(Seconds::new(60)),
        Milliseconds::new(60_000)
    );
    assert_eq!(Milliseconds::from(Seconds::new(0)), Milliseconds::new(0));
}

#[test]
fn seconds_conversion_saturates() {
    assert_eq!(
        Milliseconds::from(Seconds::new(u64::MAX)),
        Milliseconds::new(u64::MAX)
    );
}

// ---------- the clock ----------

#[test]
fn a_reading_is_counted_in_whole_milliseconds() {
    let reading = UNIX_EPOCH + Duration::from_micros(1_500_999);
    assert_eq!(Milliseconds::at(reading).unwrap(), Milliseconds::new(1500));
    assert_eq!(Milliseconds::at(UNIX_EPOCH).unwrap(), Milliseconds::new(0));
}

#[test]
fn a_reading_before_the_epoch_is_an_error() {
    let e = Milliseconds::at(UNIX_EPOCH - Duration::from_secs(1)).unwrap_err();
    assert_eq!(e.duration(), Duration::from_secs(1));
    assert_eq!(clock_message(), e.to_string().into_bytes());
}

#[test]
fn now_is_between_two_readings() {
    let before = Milliseconds::at(SystemTime::now()).unwrap();
    let now = Milliseconds::now().unwrap();
    let after = Milliseconds::at(SystemTime::now()).unwrap();
    assert!(before <= now && now <= after);
}

#[test]
fn a_count_that_does_not_fit_saturates() {
    assert_eq!(Milliseconds::from_millis(7), Milliseconds::new(7));
    assert_eq!(
        Milliseconds::from_millis(u64::MAX as u128),
        Milliseconds::new(u64::MAX)
    );
    assert_eq!(
        Milliseconds::from_millis(u64::MAX as u128 + 1),
        Milliseconds::new(u64::MAX)
    );
}

#[test]
fn a_deadline_leaves_its_span() {
    let now = Milliseconds::new(1_000_000);
    let span = Milliseconds::new(60_000);
    let left = now.saturating_add(span).saturating_sub(now);
    assert_eq!(left, span);
    assert_eq!(left.to_seconds_rounded_up(), Seconds::new(60));
}

#[test]
fn rounding_up_is_tight() {
    for (millis, seconds) in [(0, 0), (1, 1), (999, 1), (1000, 1), (1001, 2), (u64::MAX, 18446744073709552)] {
        assert_eq!(
            Milliseconds::new(millis).to_seconds_rounded_up(),
            Seconds::new(seconds)
        );
    }
}
