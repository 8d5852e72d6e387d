use chat::time::{MAX_CALENDAR_SECONDS, MICROS_PER_HOUR, MICROS_PER_SECOND, MIN_CALENDAR_SECONDS};
use chat::types::Timestamp;

fn at(micros: i64) -> Timestamp {
    Timestamp { micros }
}

#[test]
fn seconds_round_down() {
    assert_eq!(at(0).seconds(), 0);
    assert_eq!(at(999_999).seconds(), 0);
    assert_eq!(at(1_000_000).seconds(), 1);
    assert_eq!(at(-1).seconds(), -1);
    assert_eq!(at(-1_000_000).seconds(), -1);
    assert_eq!(at(-1_000_001).seconds(), -2);
    assert_eq!(at(i64::MAX).seconds(), 9_223_372_036_854);
    assert_eq!(at(i64::MIN).seconds(), -9_223_372_036_855);
}

#[test]
fn bucket_is_the_hour_of_the_utc_day() {
    // 2022-01-01T00:00:00Z
    let new_year: i64 = 1_640_995_200;
    assert_eq!(at(new_year * MICROS_PER_SECOND).bucket(), Some(0));
    assert_eq!(at((new_year + 3_599) * MICROS_PER_SECOND).bucket(), Some(0));
    assert_eq!(at((new_year + 3_600) * MICROS_PER_SECOND).bucket(), Some(1));
    assert_eq!(at((new_year + 23 * 3_600 + 59) * MICROS_PER_SECOND + 999_999).bucket(), Some(23));
    assert_eq!(at((new_year + 24 * 3_600) * MICROS_PER_SECOND).bucket(), Some(0));
    assert_eq!(at(0).bucket(), Some(0));
}

#[test]
fn bucket_before_the_epoch_counts_from_midnight() {
    assert_eq!(at(-1).bucket(), Some(23));
    assert_eq!(at(-3_600 * MICROS_PER_SECOND).bucket(), Some(23));
    assert_eq!(at(-3_600 * MICROS_PER_SECOND - 1).bucket(), Some(22));
    assert_eq!(at(-86_400 * MICROS_PER_SECOND).bucket(), Some(0));
}

#[test]
fn bucket_at_the_ends_of_the_calendar() {
    assert_eq!(at(MIN_CALENDAR_SECONDS * MICROS_PER_SECOND).bucket(), Some(0));
    assert_eq!(at(MIN_CALENDAR_SECONDS * MICROS_PER_SECOND - 1).bucket(), Some(23));
    assert_eq!(at(MAX_CALENDAR_SECONDS * MICROS_PER_SECOND + 999_999).bucket(), Some(23));
    assert_eq!(at((MAX_CALENDAR_SECONDS + 1) * MICROS_PER_SECOND).bucket(), Some(0));
}

#[test]
fn bucket_far_from_the_calendar() {
    // Where there is a date-time, the hour is the second's place in its day.
    for micros in [i64::MIN, i64::MIN / 2, -7_000_000_000_000_000_000, i64::MAX / 2, i64::MAX] {
        let seconds = at(micros).seconds();
        match at(micros).bucket() {
            Some(hour) => assert_eq!(hour as i64, seconds.rem_euclid(86_400) / 3_600),
            None => assert!(seconds.abs() > MAX_CALENDAR_SECONDS),
        }
    }
    assert_eq!(at(i64::MAX).bucket(), None);
    assert_eq!(at(i64::MIN).bucket(), None);
}

#[test]
fn within_hours_counts_whole_hours() {
    let now = at(1_640_995_200 * MICROS_PER_SECOND);
    let earlier = |micros: i64| at(now.micros - micros);
    assert!(now.within_hours(now, 2));
    assert!(now.within_hours(earlier(MICROS_PER_HOUR), 2));
    assert!(now.within_hours(earlier(2 * MICROS_PER_HOUR - 1), 2));
    assert!(!now.within_hours(earlier(2 * MICROS_PER_HOUR), 2));
    assert!(!now.within_hours(earlier(3 * MICROS_PER_HOUR), 2));
    assert!(now.within_hours(earlier(3 * MICROS_PER_HOUR), 4));
    assert!(!now.within_hours(now, 0));
    assert!(!now.within_hours(earlier(MICROS_PER_HOUR - 1), 0));
}

#[test]
fn within_hours_rounds_toward_zero_for_later_instants() {
    let now = at(1_640_995_200 * MICROS_PER_SECOND);
    let later = |micros: i64| at(now.micros + micros);
    assert!(now.within_hours(later(MICROS_PER_HOUR), 2));
    assert!(now.within_hours(later(50 * MICROS_PER_HOUR), 1));
    assert!(!now.within_hours(later(MICROS_PER_HOUR - 1), 0));
    assert!(now.within_hours(later(MICROS_PER_HOUR), 0));
    assert!(!now.within_hours(later(MICROS_PER_HOUR), -1));
    assert!(now.within_hours(later(2 * MICROS_PER_HOUR), -1));
}

#[test]
fn within_hours_at_the_ends_of_time() {
    let first = at(i64::MIN);
    let last = at(i64::MAX);
    // 2^64 - 1 microseconds are 5_124_095_576 whole hours.
    assert!(!last.within_hours(first, 2));
    assert!(!last.within_hours(first, 5_124_095_576));
    assert!(last.within_hours(first, 5_124_095_577));
    assert!(first.within_hours(last, 2));
    assert!(first.within_hours(last, -5_124_095_575));
    assert!(!first.within_hours(last, -5_124_095_576));
    assert!(at(0).within_hours(first, i64::MAX));
    assert!(!at(-1).within_hours(last, i64::MIN));
}
