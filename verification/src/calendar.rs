//! Days of the proleptic Gregorian calendar, counted from 0000-01-01.

use vstd::prelude::*;

verus! {

/// Day number of 1970-01-01, counted from 0000-01-01.
pub const UNIX_EPOCH_DAY: i64 = 719_528;

/// A year is a leap year when it is a multiple of 4, except that a multiple
/// of 100 is one only when it is also a multiple of 400.
pub open spec fn is_leap_year(year: int) -> bool {
    year % 4 == 0 && (year % 100 != 0 || year % 400 == 0)
}

pub open spec fn year_length(year: int) -> int {
    if is_leap_year(year) {
        366
    } else {
        365
    }
}

/// The number of days of month `month` (1 to 12) in `year`.
pub open spec fn month_length(year: int, month: int) -> int {
    if month == 2 {
        if is_leap_year(year) {
            29
        } else {
            28
        }
    } else if month == 4 || month == 6 || month == 9 || month == 11 {
        30
    } else {
        31
    }
}

/// The days of all years from year 0 up to, not including, `year`.
pub open spec fn days_before_year(year: int) -> int
    decreases year,
{
    if year <= 0 {
        0
    } else {
        days_before_year(year - 1) + year_length(year - 1)
    }
}

/// The days of all months of `year` before `month`.
pub open spec fn days_before_month(year: int, month: int) -> int
    decreases month,
{
    if month <= 1 {
        0
    } else {
        days_before_month(year, month - 1) + month_length(year, month - 1)
    }
}

/// The number of days from 0000-01-01 to the given date.
pub open spec fn day_number(year: int, month: int, day: int) -> int {
    days_before_year(year) + days_before_month(year, month) + day - 1
}

/// The number of days from 1970-01-01 to the given date; negative before it.
pub open spec fn unix_day(year: int, month: int, day: int) -> int {
    day_number(year, month, day) - day_number(1970, 1, 1)
}

/// The closed form of `days_before_year`: 365 days a year, and one more for
/// each leap year, year 0 among them.
pub proof fn lemma_days_before_year(year: int)
    requires
        year >= 1,
    ensures
        days_before_year(year) == 365 * year + (year - 1) / 4 - (year - 1) / 100 + (year - 1) / 400
            + 1,
    decreases year,
{
    if year == 1 {
        assert(days_before_year(1) == days_before_year(0) + year_length(0));
        assert(days_before_year(0) == 0);
    } else {
        lemma_days_before_year(year - 1);
        assert(days_before_year(year) == days_before_year(year - 1) + year_length(year - 1));
    }
}

/// 1970-01-01 is day 719528.
pub proof fn lemma_unix_epoch_day()
    ensures
        day_number(1970, 1, 1) == UNIX_EPOCH_DAY,
{
    lemma_days_before_year(1970);
    assert(days_before_month(1970, 1) == 0);
}

/// The twelve values of `days_before_month`, written out.
pub proof fn lemma_days_before_month(year: int)
    ensures
        days_before_month(year, 1) == 0,
        days_before_month(year, 2) == 31,
        days_before_month(year, 3) == 59 + year_length(year) - 365,
        days_before_month(year, 4) == 90 + year_length(year) - 365,
        days_before_month(year, 5) == 120 + year_length(year) - 365,
        days_before_month(year, 6) == 151 + year_length(year) - 365,
        days_before_month(year, 7) == 181 + year_length(year) - 365,
        days_before_month(year, 8) == 212 + year_length(year) - 365,
        days_before_month(year, 9) == 243 + year_length(year) - 365,
        days_before_month(year, 10) == 273 + year_length(year) - 365,
        days_before_month(year, 11) == 304 + year_length(year) - 365,
        days_before_month(year, 12) == 334 + year_length(year) - 365,
{
    reveal_with_fuel(days_before_month, 13);
}

/// Whether `year` is a leap year.
pub fn leap_year(year: u32) -> (r: bool)
    ensures
        r == is_leap_year(year as int),
{
    year % 4 == 0 && (year % 100 != 0 || year % 400 == 0)
}

/// The number of days of `month` in `year`.
fn days_in_month(year: u32, month: u32) -> (r: u32)
    requires
        1 <= month <= 12,
    ensures
        r == month_length(year as int, month as int),
        28 <= r <= 31,
{
    if month == 2 {
        if leap_year(year) {
            29
        } else {
            28
        }
    } else if month == 4 || month == 6 || month == 9 || month == 11 {
        30
    } else {
        31
    }
}

/// The date exists, in one of the years 0 to 9999.
pub open spec fn is_date(year: int, month: int, day: int) -> bool {
    0 <= year <= 9999 && 1 <= month <= 12 && 1 <= day <= month_length(year, month)
}

/// The number of days from 1970-01-01 to a date of the years 0 to 9999,
/// `None` where there is no such date.
pub fn days_from_unix_epoch(year: u32, month: u32, day: u32) -> (r: Option<i64>)
    ensures
        r == (if is_date(year as int, month as int, day as int) {
            Some(unix_day(year as int, month as int, day as int) as i64)
        } else {
            None
        }),
        r matches Some(days) ==> days == unix_day(year as int, month as int, day as int)
            && -UNIX_EPOCH_DAY <= days <= 2_932_896,
{
    if year > 9999 || month < 1 || month > 12 || day < 1 {
        return None;
    }
    if day > days_in_month(year, month) {
        return None;
    }
    let y: i64 = year as i64;
    let before_year: i64 = if year == 0 {
        0
    } else {
        365 * y + (y - 1) / 4 - (y - 1) / 100 + (y - 1) / 400 + 1
    };
    let leap_shift: i64 = if leap_year(year) {
        1
    } else {
        0
    };
    let before_month: i64 = match month {
        1 => 0,
        2 => 31,
        3 => 59 + leap_shift,
        4 => 90 + leap_shift,
        5 => 120 + leap_shift,
        6 => 151 + leap_shift,
        7 => 181 + leap_shift,
        8 => 212 + leap_shift,
        9 => 243 + leap_shift,
        10 => 273 + leap_shift,
        11 => 304 + leap_shift,
        _ => 334 + leap_shift,
    };
    proof {
        if year >= 1 {
            lemma_days_before_year(year as int);
        }
        lemma_days_before_month(year as int);
        lemma_unix_epoch_day();
    }
    Some(before_year + before_month + (day as i64 - 1) - UNIX_EPOCH_DAY)
}

} // verus!
