use dashcam_hud::calendar::{days_fit, days_since_epoch, leap_days_since_1970};

#[test]
fn unix_epoch_is_day_zero() {
    assert_eq!(days_since_epoch(1970, 1, 1), Some(0));
}

#[test]
fn known_date_day_number() {
    // 2026-03-07: 56 years of days plus January and February plus 6.
    assert_eq!(days_since_epoch(2026, 3, 7), Some(20519));
    assert_eq!(days_since_epoch(2000, 1, 1), Some(10957));
}

#[test]
fn midnight_rollover_adds_one_day() {
    let a = days_since_epoch(2026, 3, 7).unwrap();
    let b = days_since_epoch(2026, 3, 8).unwrap();
    assert_eq!(b - a, 1);
}

#[test]
fn month_and_year_rollover() {
    assert_eq!(
        days_since_epoch(2024, 3, 1).unwrap() - days_since_epoch(2024, 2, 29).unwrap(),
        1
    );
    assert_eq!(
        days_since_epoch(2025, 1, 1).unwrap() - days_since_epoch(2024, 12, 31).unwrap(),
        1
    );
}

#[test]
fn leap_years_count_from_1970() {
    assert_eq!(leap_days_since_1970(1970), 0);
    assert_eq!(leap_days_since_1970(1973), 1);
    assert_eq!(leap_days_since_1970(2001), 8);
    assert_eq!(leap_days_since_1970(2026), 14);
}

#[test]
fn rejected_dates_give_none() {
    assert_eq!(days_since_epoch(1969, 12, 31), None);
    assert_eq!(days_since_epoch(2026, 13, 1), None);
    assert_eq!(days_since_epoch(2026, 0, 1), None);
    assert_eq!(days_since_epoch(2026, 1, 0), None);
}

#[test]
fn day_is_not_held_to_the_month() {
    // February 30th counts on past the end of the month.
    assert_eq!(days_since_epoch(2026, 2, 30), days_since_epoch(2026, 3, 2));
}

#[test]
fn day_count_bounds() {
    assert!(days_fit(2026, 3, 7));
    assert!(!days_fit(u64::MAX, 1, 1));
    assert!(!days_fit(2026, 1, u64::MAX));
    // the count stays within i64 up to about 2.5e16 years
    assert!(days_fit(10_000_000_000_000_000, 1, 1));
    assert!(!days_fit(26_000_000_000_000_000, 1, 1));
    // a date that is rejected anyway only needs its numbers to fit
    assert!(days_fit(1969, 1, i64::MAX as u64));
    assert!(!days_fit(2026, 1, i64::MAX as u64));
}
