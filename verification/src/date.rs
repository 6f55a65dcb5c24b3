//! Calendar dates and their arithmetic.
//!
//! A [`Date`] is a plain (year, month, day) triple in the proleptic
//! Gregorian calendar.  The module defines the day index of a date (days
//! since the first of January of year 1, which is a Monday), and from it
//! the weekday and the ISO-8601 week number, together with the month
//! anchors the widget renders.

use vstd::prelude::*;

verus! {

/// Smallest year the library models.
pub const MIN_YEAR: i32 = 1;

/// Largest year the library models.
pub const MAX_YEAR: i32 = 9999;

/// A calendar date with no time-of-day component.
#[derive(Clone, Copy, PartialEq, Eq, Structural, Debug)]
pub struct Date {
    pub year: i32,
    pub month: u32,
    pub day: u32,
}

/// Gregorian leap-year rule.
pub open spec fn is_leap_year(y: int) -> bool {
    y % 4 == 0 && (y % 100 != 0 || y % 400 == 0)
}

/// Number of days in the given month.
pub open spec fn days_in_month_of(y: int, m: int) -> int {
    if m == 2 {
        if is_leap_year(y) {
            29
        } else {
            28
        }
    } else if m == 4 || m == 6 || m == 9 || m == 11 {
        30
    } else {
        31
    }
}

/// A date the library accepts: a real Gregorian date within the modelled
/// year range.
pub open spec fn valid_date(d: Date) -> bool {
    &&& MIN_YEAR <= d.year <= MAX_YEAR
    &&& 1 <= d.month <= 12
    &&& 1 <= d.day <= days_in_month_of(d.year as int, d.month as int)
}

/// Days in all years before year `y`, counted from year 1.
pub open spec fn days_before_year(y: int) -> int {
    365 * (y - 1) + (y - 1) / 4 - (y - 1) / 100 + (y - 1) / 400
}

/// Days in all months of year `y` before month `m`.
pub open spec fn days_before_month(y: int, m: int) -> int {
    let base: int = if m <= 1 {
        0
    } else if m == 2 {
        31
    } else if m == 3 {
        59
    } else if m == 4 {
        90
    } else if m == 5 {
        120
    } else if m == 6 {
        151
    } else if m == 7 {
        181
    } else if m == 8 {
        212
    } else if m == 9 {
        243
    } else if m == 10 {
        273
    } else if m == 11 {
        304
    } else {
        334
    };
    if m >= 3 && is_leap_year(y) {
        base + 1
    } else {
        base
    }
}

/// Days between the first of January of year 1 and the given date.
pub open spec fn day_index_of(y: int, m: int, d: int) -> int {
    days_before_year(y) + days_before_month(y, m) + (d - 1)
}

/// Weekday of a date, Monday = 0 through Sunday = 6.  The first of
/// January of year 1 is a Monday in the proleptic Gregorian calendar.
pub open spec fn weekday_of(y: int, m: int, d: int) -> int {
    day_index_of(y, m, d) % 7
}

/// Weekday of the first of January of year `y`.
pub open spec fn jan1_weekday(y: int) -> int {
    days_before_year(y) % 7
}

/// Number of ISO-8601 weeks in year `y`: 53 when the first of January
/// falls on a Thursday, or on a Wednesday of a leap year; 52 otherwise.
pub open spec fn weeks_in_iso_year(y: int) -> int {
    if jan1_weekday(y) == 3 || (is_leap_year(y) && jan1_weekday(y) == 2) {
        53
    } else {
        52
    }
}

/// ISO-8601 week number of a date: weeks run Monday to Sunday, and week 1
/// is the week that holds the year's first Thursday.  The first days of
/// January may belong to the last week of the previous year, and the last
/// days of December to week 1 of the next.
pub open spec fn iso_week_of(y: int, m: int, d: int) -> int {
    let doy = days_before_month(y, m) + d;
    let wd = weekday_of(y, m, d);
    let w = (doy + 9 - wd) / 7;
    if w < 1 {
        weeks_in_iso_year(y - 1)
    } else if w > weeks_in_iso_year(y) {
        1
    } else {
        w
    }
}

/// First day of the month that lies `sh` months after the month of `base`.
pub open spec fn shifted_month_anchor(base: Date, sh: int) -> Date {
    let total = base.year * 12 + (base.month - 1) + sh;
    Date { year: (total / 12) as i32, month: (total % 12 + 1) as u32, day: 1 }
}

/// First day of the month before the month of `c`.
pub open spec fn prev_month_anchor_of(c: Date) -> Date {
    if c.month == 1 {
        Date { year: (c.year - 1) as i32, month: 12, day: 1 }
    } else {
        Date { year: c.year, month: (c.month - 1) as u32, day: 1 }
    }
}

/// First day of the month after the month of `c`.
pub open spec fn next_month_anchor_of(c: Date) -> Date {
    if c.month == 12 {
        Date { year: (c.year + 1) as i32, month: 1, day: 1 }
    } else {
        Date { year: c.year, month: (c.month + 1) as u32, day: 1 }
    }
}

/// Paging past December rolls the year forward: the panel after December
/// of year `y` is January of year `y + 1`.
pub proof fn lemma_december_rollover(c: Date)
    requires
        c.month == 12,
    ensures
        next_month_anchor_of(c) == (Date { year: (c.year + 1) as i32, month: 1, day: 1 }),
{
}

/// Paging before January rolls the year back: the panel before January
/// of year `y` is December of year `y - 1`.
pub proof fn lemma_january_rollover(c: Date)
    requires
        c.month == 1,
    ensures
        prev_month_anchor_of(c) == (Date { year: (c.year - 1) as i32, month: 12, day: 1 }),
{
}

/// Executable leap-year test.
pub fn is_leap(y: i32) -> (b: bool)
    requires
        MIN_YEAR <= y <= MAX_YEAR,
    ensures
        b == is_leap_year(y as int),
{
    let yu = y as u32;
    yu % 4 == 0 && (yu % 100 != 0 || yu % 400 == 0)
}

/// Executable month length.
pub fn days_in_month(y: i32, m: u32) -> (n: u32)
    requires
        MIN_YEAR <= y <= MAX_YEAR,
        1 <= m <= 12,
    ensures
        n == days_in_month_of(y as int, m as int),
{
    if m == 2 {
        if is_leap(y) {
            29
        } else {
            28
        }
    } else if m == 4 || m == 6 || m == 9 || m == 11 {
        30
    } else {
        31
    }
}

fn days_before_year_exec(y: i32) -> (n: u32)
    requires
        MIN_YEAR <= y <= MAX_YEAR,
    ensures
        n == days_before_year(y as int),
{
    let p = (y - 1) as u32;
    proof {
        assert(p / 100 <= p / 4) by {
            assert(4 * (p / 4) + p % 4 == p);
            assert(100 * (p / 100) + p % 100 == p);
        }
    }
    365 * p + p / 4 - p / 100 + p / 400
}

fn days_before_month_exec(y: i32, m: u32) -> (n: u32)
    requires
        MIN_YEAR <= y <= MAX_YEAR,
        1 <= m <= 12,
    ensures
        n == days_before_month(y as int, m as int),
{
    let base: u32 = if m <= 1 {
        0
    } else if m == 2 {
        31
    } else if m == 3 {
        59
    } else if m == 4 {
        90
    } else if m == 5 {
        120
    } else if m == 6 {
        151
    } else if m == 7 {
        181
    } else if m == 8 {
        212
    } else if m == 9 {
        243
    } else if m == 10 {
        273
    } else if m == 11 {
        304
    } else {
        334
    };
    if m >= 3 && is_leap(y) {
        base + 1
    } else {
        base
    }
}

/// Executable day index of a date.
pub fn day_index(d: &Date) -> (n: u32)
    requires
        valid_date(*d),
    ensures
        n == day_index_of(d.year as int, d.month as int, d.day as int),
        n < 3_700_000,
{
    let before_years = days_before_year_exec(d.year);
    let before_months = days_before_month_exec(d.year, d.month);
    before_years + before_months + (d.day - 1)
}

/// Executable weekday, Monday = 0 through Sunday = 6.
pub fn weekday(d: &Date) -> (w: u32)
    requires
        valid_date(*d),
    ensures
        w == weekday_of(d.year as int, d.month as int, d.day as int),
        w <= 6,
{
    day_index(d) % 7
}

fn weeks_in_iso_year_exec(y: i32) -> (n: u32)
    requires
        MIN_YEAR <= y <= MAX_YEAR,
    ensures
        n == weeks_in_iso_year(y as int),
{
    let wd = days_before_year_exec(y) % 7;
    if wd == 3 || (is_leap(y) && wd == 2) {
        53
    } else {
        52
    }
}

/// Executable ISO-8601 week number.
pub fn iso_week(d: &Date) -> (w: u32)
    requires
        valid_date(*d),
    ensures
        w == iso_week_of(d.year as int, d.month as int, d.day as int),
        1 <= w <= 53,
{
    let ghost yi = d.year as int;
    let ghost mi = d.month as int;
    let ghost di = d.day as int;
    let doy = days_before_month_exec(d.year, d.month) + d.day;
    let wd = weekday(d);
    let w = (doy + 9 - wd) / 7;
    if w < 1 {
        // Only the first days of January can fall into the previous
        // year's last week, and year 1 opens on a Monday, so the previous
        // year exists within the modelled range.
        proof {
            assert(days_before_month(yi, mi) + di + 9 - weekday_of(yi, mi, di) >= 10 ==> w >= 1)
                by {
                assert(doy + 9 - wd == 7 * w + (doy + 9 - wd) % 7);
            }
            if d.year == 1 {
                assert(days_before_year(1int) == 0);
                let a = days_before_month(yi, mi) + di - 1;
                assert(weekday_of(yi, mi, di) == a % 7);
                assert(a % 7 <= a) by {
                    assert(a == 7 * (a / 7) + a % 7);
                }
                assert(false);
            }
        }
        weeks_in_iso_year_exec(d.year - 1)
    } else {
        let wy = weeks_in_iso_year_exec(d.year);
        if w > wy {
            1
        } else {
            w
        }
    }
}

} // verus!
