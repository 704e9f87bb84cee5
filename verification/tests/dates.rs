use calsync::dates::{date_day_number, date_pred, date_succ, zoned_to_utc, Date, ZonedTime};

fn d(year: u32, month: u32, day: u32) -> Date {
    Date { year, month, day }
}

#[test]
fn pred_within_month() {
    assert_eq!(date_pred(d(2024, 1, 3)), Some(d(2024, 1, 2)));
}

#[test]
fn pred_into_leap_february() {
    assert_eq!(date_pred(d(2024, 3, 1)), Some(d(2024, 2, 29)));
}

#[test]
fn pred_into_plain_february() {
    assert_eq!(date_pred(d(2023, 3, 1)), Some(d(2023, 2, 28)));
}

#[test]
fn pred_into_previous_year() {
    assert_eq!(date_pred(d(2024, 1, 1)), Some(d(2023, 12, 31)));
}

#[test]
fn pred_underflows_at_first_date() {
    assert_eq!(date_pred(d(1, 1, 1)), None);
}

#[test]
fn succ_into_leap_day() {
    assert_eq!(date_succ(d(2024, 2, 28)), Some(d(2024, 2, 29)));
}

#[test]
fn succ_overflows_at_last_date() {
    assert_eq!(date_succ(d(9999, 12, 31)), None);
}

#[test]
fn day_number_starts_at_zero() {
    assert_eq!(date_day_number(d(1, 1, 1)), 0);
    assert_eq!(date_day_number(d(1, 1, 2)), 1);
}

#[test]
fn day_number_of_modern_date() {
    // 2023 full years: 365 * 2023 + (505 - 20 + 5) leap days.
    assert_eq!(date_day_number(d(2024, 1, 1)), 365 * 2023 + 490);
}

#[test]
fn day_number_spans_leap_february() {
    let feb28 = date_day_number(d(2024, 2, 28));
    let mar1 = date_day_number(d(2024, 3, 1));
    assert_eq!(mar1 - feb28, 2);
}

#[test]
fn utc_conversion_without_shift() {
    let z = ZonedTime { date: d(2024, 6, 1), second: 3600, offset_minutes: 0 };
    let i = zoned_to_utc(z).unwrap();
    assert_eq!(i.date, d(2024, 6, 1));
    assert_eq!(i.second, 3600);
}

#[test]
fn utc_conversion_borrows_a_day() {
    // 00:30 local at UTC+1 is 23:30 the previous day.
    let z = ZonedTime { date: d(2024, 1, 1), second: 1800, offset_minutes: 60 };
    let i = zoned_to_utc(z).unwrap();
    assert_eq!(i.date, d(2023, 12, 31));
    assert_eq!(i.second, 84600);
}

#[test]
fn utc_conversion_carries_a_day() {
    // 23:30 local at UTC-1 is 00:30 the next day.
    let z = ZonedTime { date: d(2024, 12, 31), second: 84600, offset_minutes: -60 };
    let i = zoned_to_utc(z).unwrap();
    assert_eq!(i.date, d(2025, 1, 1));
    assert_eq!(i.second, 1800);
}

#[test]
fn utc_conversion_underflows_range() {
    let z = ZonedTime { date: d(1, 1, 1), second: 0, offset_minutes: 1 };
    assert_eq!(zoned_to_utc(z), None);
}
