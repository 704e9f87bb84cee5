//! Calendar dates and times.
//!
//! The engine models a date as a plain (year, month, day) triple in the
//! proleptic Gregorian calendar, restricted to the years 1 through 9999:
//! that is the representable range, and stepping outside it is a reportable
//! error, never a silent clamp.  A timed bound carries its wall-clock time
//! together with an explicit UTC offset, and is normalized to a UTC instant
//! before it is written or compared.

use vstd::prelude::*;

verus! {

/// A calendar date, years 1 through 9999.
#[derive(Clone, Copy, PartialEq, Eq, Structural, Debug)]
pub struct Date {
    pub year: u32,
    pub month: u32,
    pub day: u32,
}

/// A UTC instant: a date plus a second-of-day.
#[derive(Clone, Copy, PartialEq, Eq, Structural, Debug)]
pub struct Instant {
    pub date: Date,
    pub second: u32,
}

/// A wall-clock time with an explicit UTC offset, not yet normalized.
#[derive(Clone, Copy, PartialEq, Eq, Structural, Debug)]
pub struct ZonedTime {
    pub date: Date,
    pub second: u32,
    pub offset_minutes: i32,
}

pub const SECONDS_PER_DAY: u32 = 86400;

pub open spec fn leap_year(y: u32) -> bool {
    y % 4 == 0 && (y % 100 != 0 || y % 400 == 0)
}

pub open spec fn days_in_month(y: u32, m: u32) -> u32 {
    if m == 2 {
        if leap_year(y) {
            29
        } else {
            28
        }
    } else if m == 4 || m == 6 || m == 9 || m == 11 {
        30
    } else {
        31
    }
}

pub open spec fn date_valid(d: Date) -> bool {
    &&& 1 <= d.year <= 9999
    &&& 1 <= d.month <= 12
    &&& 1 <= d.day <= days_in_month(d.year, d.month)
}

pub open spec fn instant_valid(i: Instant) -> bool {
    date_valid(i.date) && i.second < SECONDS_PER_DAY
}

/// A zoned time is valid when its date is valid, its second-of-day is in
/// range, and its offset is at most a day in either direction.
pub open spec fn zoned_valid(t: ZonedTime) -> bool {
    &&& date_valid(t.date)
    &&& t.second < SECONDS_PER_DAY
    &&& -1440 <= t.offset_minutes <= 1440
}

/// The day before `d`, or `None` when `d` is the first representable date.
pub open spec fn pred_date(d: Date) -> Option<Date> {
    if d.day > 1 {
        Some(Date { year: d.year, month: d.month, day: (d.day - 1) as u32 })
    } else if d.month > 1 {
        Some(
            Date {
                year: d.year,
                month: (d.month - 1) as u32,
                day: days_in_month(d.year, (d.month - 1) as u32),
            },
        )
    } else if d.year > 1 {
        Some(Date { year: (d.year - 1) as u32, month: 12, day: 31 })
    } else {
        None
    }
}

/// The day after `d`, or `None` when `d` is the last representable date.
pub open spec fn succ_date(d: Date) -> Option<Date> {
    if d.day < days_in_month(d.year, d.month) {
        Some(Date { year: d.year, month: d.month, day: (d.day + 1) as u32 })
    } else if d.month < 12 {
        Some(Date { year: d.year, month: (d.month + 1) as u32, day: 1 })
    } else if d.year < 9999 {
        Some(Date { year: (d.year + 1) as u32, month: 1, day: 1 })
    } else {
        None
    }
}

pub proof fn lemma_pred_date_valid(d: Date)
    requires
        date_valid(d),
        pred_date(d) is Some,
    ensures
        date_valid(pred_date(d)->Some_0),
{
}

pub proof fn lemma_succ_date_valid(d: Date)
    requires
        date_valid(d),
        succ_date(d) is Some,
    ensures
        date_valid(succ_date(d)->Some_0),
{
}

pub fn is_leap_year(y: u32) -> (r: bool)
    ensures
        r == leap_year(y),
{
    y % 4 == 0 && (y % 100 != 0 || y % 400 == 0)
}

pub fn month_days(y: u32, m: u32) -> (r: u32)
    ensures
        r == days_in_month(y, m),
{
    if m == 2 {
        if is_leap_year(y) {
            29
        } else {
            28
        }
    } else if m == 4 || m == 6 || m == 9 || m == 11 {
        30
    } else {
        31
    }
}

pub fn date_is_valid(d: Date) -> (r: bool)
    ensures
        r == date_valid(d),
{
    1 <= d.year && d.year <= 9999 && 1 <= d.month && d.month <= 12 && 1 <= d.day && d.day
        <= month_days(d.year, d.month)
}

/// The day before `d`; `None` marks underflow out of the representable range.
pub fn date_pred(d: Date) -> (r: Option<Date>)
    ensures
        r == pred_date(d),
{
    if d.day > 1 {
        Some(Date { year: d.year, month: d.month, day: d.day - 1 })
    } else if d.month > 1 {
        Some(Date { year: d.year, month: d.month - 1, day: month_days(d.year, d.month - 1) })
    } else if d.year > 1 {
        Some(Date { year: d.year - 1, month: 12, day: 31 })
    } else {
        None
    }
}

/// The day after `d`; `None` marks overflow out of the representable range.
pub fn date_succ(d: Date) -> (r: Option<Date>)
    ensures
        r == succ_date(d),
{
    if d.day < month_days(d.year, d.month) {
        Some(Date { year: d.year, month: d.month, day: d.day + 1 })
    } else if d.month < 12 {
        Some(Date { year: d.year, month: d.month + 1, day: 1 })
    } else if d.year < 9999 {
        Some(Date { year: d.year + 1, month: 1, day: 1 })
    } else {
        None
    }
}

/// Days taken up by the months of year `y` before month `m`.
pub open spec fn days_before_month(y: u32, m: u32) -> int
    decreases m,
{
    if m <= 1 {
        0
    } else {
        days_before_month(y, (m - 1) as u32) + days_in_month(y, (m - 1) as u32)
    }
}

/// Leap years in the years 1 through `y`.
pub open spec fn leap_count(y: u32) -> int {
    y / 4 - y / 100 + y / 400
}

/// Days from 0001-01-01 to `d` (so 0001-01-01 is day 0): a strictly
/// increasing numbering of valid dates, used by the retention window.
pub open spec fn day_number(d: Date) -> int {
    365 * (d.year - 1) + leap_count((d.year - 1) as u32) + days_before_month(d.year, d.month)
        + d.day - 1
}

proof fn lemma_days_before_month_bound(y: u32, m: u32)
    requires
        1 <= m,
    ensures
        0 <= days_before_month(y, m) <= 31 * (m - 1),
    decreases m,
{
    if m > 1 {
        lemma_days_before_month_bound(y, (m - 1) as u32);
    }
}

/// Days taken up by the months before `m`, computed by a scan.
fn month_offset(y: u32, m: u32) -> (r: u32)
    requires
        1 <= m <= 13,
    ensures
        r == days_before_month(y, m),
{
    let mut acc: u32 = 0;
    let mut k: u32 = 1;
    while k < m
        invariant
            1 <= k <= m <= 13,
            acc == days_before_month(y, k),
        decreases m - k,
    {
        proof {
            lemma_days_before_month_bound(y, k);
        }
        acc = acc + month_days(y, k);
        k = k + 1;
    }
    acc
}

/// The day number of `d`, as an absolute count that fits in a `u32`.
pub fn date_day_number(d: Date) -> (n: u32)
    requires
        date_valid(d),
    ensures
        n == day_number(d),
{
    proof {
        lemma_days_before_month_bound(d.year, d.month);
    }
    let years: u32 = d.year - 1;
    let leaps: u32 = years / 4 - years / 100 + years / 400;
    365 * years + leaps + month_offset(d.year, d.month) + d.day - 1
}

/// Normalize a zoned time to UTC.  `None` marks a date that would step
/// outside the representable range while the offset is applied.
pub open spec fn utc_of(t: ZonedTime) -> Option<Instant> {
    let total = t.second - t.offset_minutes * 60;
    if 0 <= total < SECONDS_PER_DAY {
        Some(Instant { date: t.date, second: total as u32 })
    } else if total < 0 {
        match pred_date(t.date) {
            Some(p) => Some(Instant { date: p, second: (total + SECONDS_PER_DAY) as u32 }),
            None => None,
        }
    } else {
        match succ_date(t.date) {
            Some(s) => Some(Instant { date: s, second: (total - SECONDS_PER_DAY) as u32 }),
            None => None,
        }
    }
}

pub proof fn lemma_utc_of_valid(t: ZonedTime)
    requires
        zoned_valid(t),
        utc_of(t) is Some,
    ensures
        instant_valid(utc_of(t)->Some_0),
{
    if !(0 <= t.second - t.offset_minutes * 60 < SECONDS_PER_DAY) {
        if t.second - t.offset_minutes * 60 < 0 {
            lemma_pred_date_valid(t.date);
        } else {
            lemma_succ_date_valid(t.date);
        }
    }
}

/// Normalize a zoned time to a UTC instant, borrowing or carrying at most
/// one calendar day.
pub fn zoned_to_utc(t: ZonedTime) -> (r: Option<Instant>)
    requires
        zoned_valid(t),
    ensures
        r == utc_of(t),
{
    let total: i64 = t.second as i64 - t.offset_minutes as i64 * 60;
    if 0 <= total && total < SECONDS_PER_DAY as i64 {
        Some(Instant { date: t.date, second: total as u32 })
    } else if total < 0 {
        match date_pred(t.date) {
            Some(p) => Some(Instant { date: p, second: (total + SECONDS_PER_DAY as i64) as u32 }),
            None => None,
        }
    } else {
        match date_succ(t.date) {
            Some(s) => Some(Instant { date: s, second: (total - SECONDS_PER_DAY as i64) as u32 }),
            None => None,
        }
    }
}

} // verus!
