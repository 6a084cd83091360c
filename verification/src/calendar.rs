//! The calendar date of a window.

use chrono::{DateTime, Datelike, Utc};
use vstd::prelude::*;

verus! {

/// The first second that has a calendar date, as a Unix time.
pub const MIN_UNIX_SECS: i64 = -8_334_601_228_800;

/// The last second that has a calendar date, as a Unix time.
pub const MAX_UNIX_SECS: i64 = 8_210_266_876_799;

/// Whether `year` has a 29th of February in the Gregorian calendar.
pub open spec fn is_leap_year(year: int) -> bool {
    year % 4 == 0 && (year % 100 != 0 || year % 400 == 0)
}

/// The number of days that a month has.
pub open spec fn days_in_month(year: int, month: int) -> int {
    if month == 2 {
        if is_leap_year(year) {
            29
        } else {
            28
        }
    } else if month == 4 || month == 6 || month == 9 || month == 11 {
        30
    } else {
        31
    }
}

/// The number of days in the months of `year` before `month`.
pub open spec fn days_before_month(year: int, month: int) -> int
    decreases month,
{
    if month <= 1 {
        0
    } else {
        days_before_month(year, month - 1) + days_in_month(year, month - 1)
    }
}

/// The number of days from 1970-01-01 to a date of the proleptic Gregorian
/// calendar.
pub open spec fn day_number(year: int, month: int, day: int) -> int {
    let past = year - 1;
    365 * past + past / 4 - past / 100 + past / 400 + days_before_month(year, month) + day - 719_163
}

/// The UTC date on which a window starts.
#[derive(Debug, Clone, Copy, PartialEq, Eq, Structural)]
pub struct WindowStart {
    pub year: i32,
    pub month: u32,
    pub day: u32,
}

impl WindowStart {
    /// The date is one of the calendar.
    pub open spec fn is_date(self) -> bool {
        &&& 1 <= self.month <= 12
        &&& 1 <= self.day <= days_in_month(self.year as int, self.month as int)
    }

    /// The number of days from 1970-01-01.
    pub open spec fn day_number(self) -> int {
        day_number(self.year as int, self.month as int, self.day as int)
    }

    /// The UTC date at a Unix time, where the calendar reaches that far.
    pub fn at(unix_secs: i64) -> (start: Option<WindowStart>)
        ensures
            start is Some <==> MIN_UNIX_SECS <= unix_secs <= MAX_UNIX_SECS,
            start matches Some(date) ==> date.is_date() && date.day_number() == unix_secs as int
                / 86_400,
    {
        match utc_date(unix_secs) {
            Some((year, month, day)) => Some(WindowStart { year, month, day }),
            None => None,
        }
    }
}

/// Year, month and day in UTC at a Unix time: `DateTime::<Utc>::from_timestamp`
/// of `chrono`, read through `Datelike::year`, `month` and `day`.
///
/// The contract claims that there is a date for exactly the seconds from
/// [`MIN_UNIX_SECS`] to [`MAX_UNIX_SECS`], that it is a date of the proleptic
/// Gregorian calendar, and that it is the one whose day holds that second.
#[verifier::external_body]
fn utc_date(unix_secs: i64) -> (date: Option<(i32, u32, u32)>)
    ensures
        date is Some <==> MIN_UNIX_SECS <= unix_secs <= MAX_UNIX_SECS,
        date matches Some((year, month, day)) ==> {
            &&& 1 <= month <= 12
            &&& 1 <= day <= days_in_month(year as int, month as int)
            &&& day_number(year as int, month as int, day as int) == unix_secs as int / 86_400
        },
{
    match DateTime::<Utc>::from_timestamp(unix_secs, 0) {
        Some(time) => Some((time.year(), time.month(), time.day())),
        None => None,
    }
}

// ---------------------------------------------------------------------------
// Days and dates
// ---------------------------------------------------------------------------
proof fn lemma_days_before_month(year: int)
    ensures
        days_before_month(year, 1) == 0,
        days_before_month(year, 2) == 31,
        days_before_month(year, 3) == 31 + days_in_month(year, 2),
        days_before_month(year, 4) == 62 + days_in_month(year, 2),
        days_before_month(year, 5) == 92 + days_in_month(year, 2),
        days_before_month(year, 6) == 123 + days_in_month(year, 2),
        days_before_month(year, 7) == 153 + days_in_month(year, 2),
        days_before_month(year, 8) == 184 + days_in_month(year, 2),
        days_before_month(year, 9) == 215 + days_in_month(year, 2),
        days_before_month(year, 10) == 245 + days_in_month(year, 2),
        days_before_month(year, 11) == 276 + days_in_month(year, 2),
        days_before_month(year, 12) == 306 + days_in_month(year, 2),
        days_before_month(year, 13) == 337 + days_in_month(year, 2),
{
    reveal_with_fuel(days_before_month, 13);
}

proof fn lemma_year_length(year: int)
    ensures
        day_number(year + 1, 1, 1) == day_number(year, 13, 1),
{
    lemma_days_before_month(year);
    lemma_days_before_month(year + 1);
}

proof fn lemma_years_in_order(earlier: int, later: int)
    requires
        earlier <= later,
    ensures
        day_number(earlier, 1, 1) <= day_number(later, 1, 1),
    decreases later - earlier,
{
    if earlier < later {
        lemma_years_in_order(earlier, later - 1);
        lemma_year_length(later - 1);
        lemma_days_before_month(later - 1);
        lemma_days_before_month(later);
    }
}

proof fn lemma_months_in_order(year: int, earlier: int, later: int)
    requires
        1 <= earlier < later <= 13,
    ensures
        days_before_month(year, earlier) + days_in_month(year, earlier) <= days_before_month(
            year,
            later,
        ),
    decreases later - earlier,
{
    if earlier + 1 < later {
        lemma_months_in_order(year, earlier, later - 1);
    }
}

/// Dates are numbered in their order: a date with an earlier year, or an
/// earlier month in the same year, or an earlier day in the same month, has a
/// smaller number.
pub proof fn law_days_follow_dates(a: WindowStart, b: WindowStart)
    requires
        a.is_date(),
        b.is_date(),
        a.year < b.year || (a.year == b.year && (a.month < b.month || (a.month == b.month && a.day
            < b.day))),
    ensures
        a.day_number() < b.day_number(),
{
    let (ay, am, ad) = (a.year as int, a.month as int, a.day as int);
    let (by, bm, bd) = (b.year as int, b.month as int, b.day as int);
    if ay < by {
        lemma_months_in_order(ay, am, 13);
        lemma_year_length(ay);
        lemma_years_in_order(ay + 1, by);
        lemma_days_before_month(ay);
        lemma_days_before_month(by);
        if bm > 1 {
            lemma_months_in_order(by, 1, bm);
        }
        assert(a.day_number() < day_number(ay, 13, 1));
        assert(day_number(by, 1, 1) <= b.day_number());
    } else if am < bm {
        lemma_months_in_order(ay, am, bm);
    }
}

/// A day has one date: two dates with the same number are the same date.
pub proof fn law_one_date_per_day(a: WindowStart, b: WindowStart)
    requires
        a.is_date(),
        b.is_date(),
        a.day_number() == b.day_number(),
    ensures
        a == b,
{
    if a != b {
        if a.year < b.year || (a.year == b.year && (a.month < b.month || (a.month == b.month
            && a.day < b.day))) {
            law_days_follow_dates(a, b);
        } else {
            law_days_follow_dates(b, a);
        }
    }
}

/// A date is one of the Gregorian calendar: April, June, September and November
/// have thirty days, February has twenty-eight, or twenty-nine in a leap year, and
/// the other months have thirty-one.
pub proof fn law_dates_are_gregorian(date: WindowStart)
    ensures
        date.is_date() <==> {
            let (year, month, day) = (date.year as int, date.month as int, date.day as int);
            let leap = year % 400 == 0 || (year % 4 == 0 && year % 100 != 0);
            &&& day >= 1
            &&& {
                ||| month == 1 && day <= 31
                ||| month == 2 && (day <= 28 || (leap && day == 29))
                ||| month == 3 && day <= 31
                ||| month == 4 && day <= 30
                ||| month == 5 && day <= 31
                ||| month == 6 && day <= 30
                ||| month == 7 && day <= 31
                ||| month == 8 && day <= 31
                ||| month == 9 && day <= 30
                ||| month == 10 && day <= 31
                ||| month == 11 && day <= 30
                ||| month == 12 && day <= 31
            }
        },
{
}

/// Days are counted from the first of January 1970.
pub proof fn law_days_count_from_the_epoch(date: WindowStart)
    requires
        date.year == 1970,
        date.month == 1,
        date.day == 1,
    ensures
        date.day_number() == 0,
{
    lemma_days_before_month(1970);
}

/// The next day of a month has the next number.
pub proof fn law_days_follow_in_a_month(date: WindowStart, next: WindowStart)
    requires
        next.year == date.year,
        next.month == date.month,
        next.day == date.day + 1,
    ensures
        next.day_number() == date.day_number() + 1,
{
}

/// The first day of a month has the next number after the last day of the month
/// before it.
pub proof fn law_months_follow_in_a_year(last: WindowStart, beyond: WindowStart, next: WindowStart)
    requires
        last.is_date(),
        beyond.year == last.year,
        beyond.month == last.month,
        beyond.day == last.day + 1,
        !beyond.is_date(),
        next.year == last.year,
        next.month == last.month + 1,
        next.day == 1,
    ensures
        next.day_number() == last.day_number() + 1,
{
}

/// The first of January has the next number after the thirty-first of December.
pub proof fn law_years_follow(last: WindowStart, next: WindowStart)
    requires
        last.month == 12,
        last.day == 31,
        next.year == last.year + 1,
        next.month == 1,
        next.day == 1,
    ensures
        next.day_number() == last.day_number() + 1,
{
    let year = last.year as int;
    lemma_days_before_month(year);
    lemma_days_before_month(year + 1);
    lemma_year_length(year);
}

/// The calendar reaches from the first of January of the year -262143 to the end of
/// the year 262142.
pub proof fn law_calendar_reach(first: WindowStart, last: WindowStart)
    requires
        first.year + 262_143 == 0,
        first.month == 1,
        first.day == 1,
        last.year == 262_142,
        last.month == 12,
        last.day == 31,
    ensures
        MIN_UNIX_SECS == first.day_number() * 86_400,
        MAX_UNIX_SECS == (last.day_number() + 1) * 86_400 - 1,
{
    lemma_days_before_month(first.year as int);
    lemma_days_before_month(last.year as int);
}

} // verus!
