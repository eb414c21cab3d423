//! Calendar dates as plain values: validity under the proleptic
//! Gregorian calendar, and ordering.
//!
//! The checker that fires once a date has passed compares its target
//! date with today; today's date itself comes from the clock in the
//! surrounding application, as year, month and day.

use vstd::prelude::*;

verus! {

/// A calendar date. Ordering is lexicographic on year, month, day,
/// which coincides with calendar order for valid dates.
#[derive(Clone, Copy, PartialEq, Eq, Structural)]
pub struct SimpleDate {
    pub year: i32,
    pub month: u32,
    pub day: u32,
}

/// Absolute value.
pub open spec fn int_abs(y: int) -> int {
    if y >= 0 {
        y
    } else {
        -y
    }
}

/// A leap year: divisible by four, except century years not divisible
/// by four hundred.
pub open spec fn spec_is_leap_year(y: int) -> bool {
    &&& int_abs(y) % 4 == 0
    &&& (int_abs(y) % 100 != 0 || int_abs(y) % 400 == 0)
}

/// The number of days in a month of a year.
pub open spec fn spec_days_in_month(y: int, m: int) -> int {
    if m == 2 {
        if spec_is_leap_year(y) {
            29
        } else {
            28
        }
    } else if m == 4 || m == 6 || m == 9 || m == 11 {
        30
    } else {
        31
    }
}

/// The date names a real day: month in range and day within the
/// month's length.
pub open spec fn spec_valid_date(d: SimpleDate) -> bool {
    &&& 1 <= d.month <= 12
    &&& 1 <= d.day <= spec_days_in_month(d.year as int, d.month as int)
}

/// `a` falls on or before `b` in calendar order.
pub open spec fn spec_on_or_before(a: SimpleDate, b: SimpleDate) -> bool {
    ||| a.year < b.year
    ||| (a.year == b.year && a.month < b.month)
    ||| (a.year == b.year && a.month == b.month && a.day <= b.day)
}

/// Whether a year is a leap year.
pub fn is_leap_year(year: i32) -> (r: bool)
    ensures
        r == spec_is_leap_year(year as int),
{
    let a: u64 = if year >= 0 {
        year as u64
    } else {
        (-(year as i64)) as u64
    };
    proof {
        assert(a == int_abs(year as int));
    }
    a % 4 == 0 && (a % 100 != 0 || a % 400 == 0)
}

/// The number of days in a month.
pub fn days_in_month(year: i32, month: u32) -> (r: u32)
    ensures
        r == spec_days_in_month(year as int, month as int),
{
    if month == 2 {
        if is_leap_year(year) {
            29
        } else {
            28
        }
    } else if month == 4 || month == 6 || month == 9 || month == 11 {
        30
    } else {
        31
    }
}

/// Whether the date names a real day.
pub fn date_is_valid(d: &SimpleDate) -> (r: bool)
    ensures
        r == spec_valid_date(*d),
{
    1 <= d.month && d.month <= 12 && 1 <= d.day && d.day <= days_in_month(d.year, d.month)
}

/// Whether `a` falls on or before `b`: the reminder for date `a` fires
/// on the first day `b` with `is_on_or_before(a, b)`.
pub fn is_on_or_before(a: &SimpleDate, b: &SimpleDate) -> (r: bool)
    ensures
        r == spec_on_or_before(*a, *b),
{
    if a.year != b.year {
        a.year < b.year
    } else if a.month != b.month {
        a.month < b.month
    } else {
        a.day <= b.day
    }
}

} // verus!
