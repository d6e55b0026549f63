use vstd::prelude::*;
use chrono::Datelike;

verus! {

/// A proleptic Gregorian calendar date, held as plain year/month/day values.
///
/// Only years 1 through 9999 are admitted, so that every date can be written
/// in the fixed `YYYY-MM-DD` form.
#[derive(Clone, Copy, PartialEq, Eq, Structural, Debug)]
pub struct Date {
    pub year: u32,
    pub month: u32,
    pub day: u32,
}

/// Whether year `y` is a leap year of the proleptic Gregorian calendar.
pub open spec fn spec_is_leap_year(y: int) -> bool {
    (y % 4 == 0 && y % 100 != 0) || y % 400 == 0
}

/// How many days month `m` has in year `y`.
pub open spec fn spec_days_in_month(y: int, m: int) -> int {
    if m == 2 {
        if spec_is_leap_year(y) {
            29
        } else {
            28
        }
    } else if m == 4 || m == 6 || m == 9 || m == 11 {
        30
    } else {
        31
    }
}

/// Whether year, month and day name a calendar date the library handles.
pub open spec fn valid_ymd(y: int, m: int, d: int) -> bool {
    &&& 1 <= y <= 9999
    &&& 1 <= m <= 12
    &&& 1 <= d <= spec_days_in_month(y, m)
}

/// Number of leap years in the range `[0, y)`.
pub open spec fn leap_count(y: int) -> int {
    (y + 3) / 4 - (y + 99) / 100 + (y + 399) / 400
}

/// Days in all years before year `y`, counting day 0 as the first day of year 0.
pub open spec fn days_before_year(y: int) -> int {
    365 * y + leap_count(y)
}

/// Days in all months of year `y` before month `m`.
pub open spec fn days_before_month(y: int, m: int) -> int {
    let plain: int = if m == 1 {
        0
    } else if m == 2 {
        31
    } else if m == 3 {
        59
    } else if m == 4 {
        90
    } else if m == 5 {
        120
    } else if m == 6 {
        151
    } else if m == 7 {
        181
    } else if m == 8 {
        212
    } else if m == 9 {
        243
    } else if m == 10 {
        273
    } else if m == 11 {
        304
    } else {
        334
    };
    if m > 2 && spec_is_leap_year(y) {
        plain + 1
    } else {
        plain
    }
}

/// The day number of a date: days elapsed since the first day of year 0.
pub open spec fn day_num(d: Date) -> int {
    days_before_year(d.year as int) + days_before_month(d.year as int, d.month as int) + d.day - 1
}

/// The date with the given day number, for day numbers of years 1 through 9999.
///
/// This inverts `day_num` over that range, walking 400-year eras of 146097
/// days each, with years taken to begin in March so that a leap day falls
/// last in its year.
pub open spec fn date_of(n: int) -> Date {
    let z = n - 60;
    let era = z / 146097;
    let doe = z % 146097;
    let yoe = (doe - doe / 1460 + doe / 36524 - doe / 146096) / 365;
    let y = yoe + era * 400;
    let doy = doe - (365 * yoe + yoe / 4 - yoe / 100);
    let mp = (5 * doy + 2) / 153;
    let d = doy - (153 * mp + 2) / 5 + 1;
    let m = if mp < 10 {
        mp + 3
    } else {
        mp - 9
    };
    let yy = if m <= 2 {
        y + 1
    } else {
        y
    };
    Date { year: yy as u32, month: m as u32, day: d as u32 }
}

/// The day number of 9999-12-31, the last date the library handles.
pub open spec fn max_day_num() -> int {
    3652424
}

impl Date {
    /// The date is one the library handles: years 1 through 9999, a real
    /// month, and a day the month has in that year.
    pub open spec fn wf(self) -> bool {
        valid_ymd(self.year as int, self.month as int, self.day as int)
    }

    /// Builds a date from year, month and day, and returns `None` exactly
    /// when the three do not name a Gregorian date of years 1 through 9999.
    pub fn new(year: u32, month: u32, day: u32) -> (r: Option<Date>)
        ensures
            valid_ymd(year as int, month as int, day as int) <==> (r matches Some(d) && d
                == (Date { year, month, day })),
            r is Some <==> valid_ymd(year as int, month as int, day as int),
            r matches Some(d) ==> d.wf(),
    {
        if 1 <= year && year <= 9999 && 1 <= month && month <= 12 && 1 <= day && day
            <= days_in_month(year, month) {
            Some(Date { year, month, day })
        } else {
            None
        }
    }
}

/// Whether a year is a leap year in the proleptic Gregorian calendar.
pub fn is_leap_year(y: u32) -> (r: bool)
    ensures
        r == spec_is_leap_year(y as int),
{
    (y % 4 == 0 && y % 100 != 0) || y % 400 == 0
}

/// How many days the given month has in the given year.
pub fn days_in_month(y: u32, m: u32) -> (r: u32)
    ensures
        r == spec_days_in_month(y as int, m as int),
{
    if m == 2 {
        if is_leap_year(y) {
            29
        } else {
            28
        }
    } else if m == 4 || m == 6 || m == 9 || m == 11 {
        30
    } else {
        31
    }
}

/// Every date the library handles has a day number between 0 and
/// `max_day_num`.
pub proof fn lemma_day_num_le_max(d: Date)
    requires
        d.wf(),
    ensures
        0 <= day_num(d) <= max_day_num(),
{
    let y = d.year as int;
    let m = d.month as int;
    let dd = d.day as int;
    vstd::arithmetic::div_mod::lemma_fundamental_div_mod(y + 3, 4);
    vstd::arithmetic::div_mod::lemma_fundamental_div_mod(y + 99, 100);
    vstd::arithmetic::div_mod::lemma_fundamental_div_mod(y + 399, 400);
    vstd::arithmetic::div_mod::lemma_mod_bound(y + 3, 4);
    vstd::arithmetic::div_mod::lemma_mod_bound(y + 99, 100);
    vstd::arithmetic::div_mod::lemma_mod_bound(y + 399, 400);
    assert(days_before_month(y, m) + dd <= 366);
    if y == 9999 {
        assert(!spec_is_leap_year(y));
        assert(days_before_month(y, m) + dd <= 365);
        assert(leap_count(y) == 2425);
    }
}

/// Relies on chrono's `NaiveDate::signed_duration_since` and
/// `TimeDelta::num_days`: the whole-day difference between two calendar
/// dates, here stated as the difference of their day numbers.
#[verifier::external_body]
pub(crate) fn span_days(a: &Date, b: &Date) -> (r: i64)
    requires
        a.wf(),
        b.wf(),
    ensures
        r == day_num(*b) - day_num(*a),
{
    let na = chrono::NaiveDate::from_ymd_opt(a.year as i32, a.month, a.day).unwrap();
    let nb = chrono::NaiveDate::from_ymd_opt(b.year as i32, b.month, b.day).unwrap();
    nb.signed_duration_since(na).num_days()
}

/// Relies on chrono's `NaiveDate::checked_add_days`: stepping a calendar date
/// forward by a number of days. The result is the date whose day number is
/// `n` past the given one.
#[verifier::external_body]
pub(crate) fn add_days(d: &Date, n: u64) -> (r: Date)
    requires
        d.wf(),
        day_num(*d) + n <= max_day_num(),
    ensures
        r == date_of(day_num(*d) + n),
        day_num(r) == day_num(*d) + n,
        r.wf(),
{
    let base = chrono::NaiveDate::from_ymd_opt(d.year as i32, d.month, d.day).unwrap();
    let moved = base.checked_add_days(chrono::Days::new(n)).unwrap();
    Date { year: moved.year() as u32, month: moved.month(), day: moved.day() }
}

} // verus!
