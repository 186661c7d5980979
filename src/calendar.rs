//! Calendar arithmetic over day numbers of the proleptic Gregorian calendar,
//! day 1 being Monday, January 1 of year 1.
use chrono::Datelike;
use vstd::prelude::*;

verus! {

/// The first day of the calendar: January 1 of year -262143.
pub const FIRST_DAY: i64 = -95_746_129;

/// The last day of the calendar: December 31 of year 262142.
pub const LAST_DAY: i64 = 95_745_399;

/// No day of the calendar lies further than this from day zero.
pub const DAY_BOUND: i64 = 95_746_129;

/// A day of the calendar.
pub open spec fn in_calendar(day: int) -> bool {
    FIRST_DAY <= day <= LAST_DAY
}

/// A day of the calendar that a weekend shift of up to two days keeps in it.
pub open spec fn in_range(day: int) -> bool {
    FIRST_DAY <= day <= LAST_DAY - 2
}

pub open spec fn is_leap(year: int) -> bool {
    year % 4 == 0 && (year % 100 != 0 || year % 400 == 0)
}

pub open spec fn month_length(year: int, month: int) -> int {
    if month == 2 {
        if is_leap(year) { 29 } else { 28 }
    } else if month == 4 || month == 6 || month == 9 || month == 11 {
        30
    } else {
        31
    }
}

/// Days of the months of `year` that come before `month`.
pub open spec fn days_before_month(year: int, month: int) -> int
    decreases month,
{
    if month <= 1 { 0 } else { days_before_month(year, month - 1) + month_length(year, month - 1) }
}

/// The day number of a date: year 1 starts on day 1.
pub open spec fn day_number(year: int, month: int, day: int) -> int {
    365 * (year - 1) + (year - 1) / 4 - (year - 1) / 100 + (year - 1) / 400
        + days_before_month(year, month) + day
}

pub open spec fn is_valid_date(year: int, month: int, day: int) -> bool {
    1 <= month <= 12 && 1 <= day <= month_length(year, month)
}

/// The (year, month, day) of a day number.
pub uninterp spec fn civil_of(day: int) -> (int, int, int);

/// Relies on chrono's `NaiveDate::from_num_days_from_ce_opt` with `year`,
/// `month` and `day`: it gives the date of a day number counted as above,
/// for every day of years -262143 to 262142, which are the days from
/// `FIRST_DAY` to `LAST_DAY`.
#[verifier::external_body]
fn civil_date(day: i32) -> (r: (i32, u32, u32))
    requires
        in_calendar(day as int),
    ensures
        (r.0 as int, r.1 as int, r.2 as int) == civil_of(day as int),
        is_valid_date(r.0 as int, r.1 as int, r.2 as int),
        day_number(r.0 as int, r.1 as int, r.2 as int) == day as int,
        -262143 <= r.0 <= 262142,
{
    let d = chrono::NaiveDate::from_num_days_from_ce_opt(day).unwrap();
    (d.year(), d.month(), d.day())
}

/// The year and month in which `day` falls, and the day number of the first
/// day of that month.
pub fn month_of(day: i64) -> (r: (i32, u32, i64))
    requires
        in_calendar(day as int),
    ensures
        is_valid_date(civil_of(day as int).0, civil_of(day as int).1, civil_of(day as int).2),
        day_number(civil_of(day as int).0, civil_of(day as int).1, civil_of(day as int).2)
            == day as int,
        r.0 as int == civil_of(day as int).0,
        r.1 as int == civil_of(day as int).1,
        r.2 as int == day - civil_of(day as int).2 + 1,
        1 <= r.1 <= 12,
        -262143 <= r.0 <= 262142,
        r.2 <= day,
        day - r.2 < 31,
{
    let (y, m, d) = civil_date(day as i32);
    (y, m, day - d as i64 + 1)
}

/// Number of days in `month` of `year`.
pub fn days_in_month(year: i32, month: u32) -> (r: u32)
    requires
        1 <= month <= 12,
        -300_000 <= year,
    ensures
        r as int == month_length(year as int, month as int),
        28 <= r <= 31,
{
    if month == 2 {
        // a multiple of 400 added keeps the year's leap status and makes it positive
        let y: u64 = (year as i64 + 400_000) as u64;
        assert(y as int % 4 == year as int % 4 && y as int % 100 == year as int % 100
            && y as int % 400 == year as int % 400) by {
            assert(y as int == year as int + 400 * 1000);
            vstd::arithmetic::div_mod::lemma_mod_multiples_vanish(1000, year as int, 400);
            vstd::arithmetic::div_mod::lemma_mod_multiples_vanish(4000, year as int, 100);
            vstd::arithmetic::div_mod::lemma_mod_multiples_vanish(100000, year as int, 4);
        }
        if y % 4 == 0 && (y % 100 != 0 || y % 400 == 0) {
            29
        } else {
            28
        }
    } else if month == 4 || month == 6 || month == 9 || month == 11 {
        30
    } else {
        31
    }
}

/// Day of the week, Monday being 0 and Sunday 6.
pub open spec fn weekday(day: int) -> int {
    (day + 6) % 7
}

/// Days to move forward so that a date off a weekend lands on Monday.
pub open spec fn weekend_shift_of(day: int) -> int {
    if weekday(day) == 5 {
        2
    } else if weekday(day) == 6 {
        1
    } else {
        0
    }
}

pub fn day_of_week(day: i64) -> (r: u32)
    requires
        in_calendar(day as int),
    ensures
        r as int == weekday(day as int),
        r < 7,
{
    // a multiple of 7 added makes the number positive
    let n: u64 = (day + 7 * 14_000_000 + 6) as u64;
    assert(n as int % 7 == (day as int + 6) % 7) by {
        vstd::arithmetic::div_mod::lemma_mod_multiples_vanish(14_000_000, day as int + 6, 7);
    }
    (n % 7) as u32
}

/// Days that a date on Saturday or Sunday moves to reach the next Monday:
/// 2 from Saturday, 1 from Sunday, 0 from any other day.
pub fn weekend_shift(day: i64) -> (r: i64)
    requires
        in_calendar(day as int),
    ensures
        r as int == weekend_shift_of(day as int),
        0 <= r <= 2,
        weekday(day + r) < 5,
{
    let w = day_of_week(day);
    if w == 5 {
        2
    } else if w == 6 {
        1
    } else {
        0
    }
}

} // verus!
