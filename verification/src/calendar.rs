//! Calendar dates as the league records write them, checked and read with
//! `chrono`.
use vstd::prelude::*;
use chrono::{Datelike, NaiveDate, TimeDelta};

verus! {

/// A day of the proleptic Gregorian calendar, as year, month and day.
#[derive(Clone, Copy, Debug, PartialEq, Eq, Structural)]
pub struct Ymd {
    pub year: i32,
    pub month: u32,
    pub day: u32,
}

/// A leap year of the proleptic Gregorian calendar.
pub open spec fn is_leap_year(year: int) -> bool {
    year % 4 == 0 && (year % 100 != 0 || year % 400 == 0)
}

/// The number of days of `month` (1 to 12) in `year`.
pub open spec fn days_in_month(year: int, month: int) -> int {
    if month == 2 {
        if is_leap_year(year) {
            29
        } else {
            28
        }
    } else if month == 4 || month == 6 || month == 9 || month == 11 {
        30
    } else {
        31
    }
}

/// `year`-`month`-`day` is a day that `chrono::NaiveDate` can hold: the
/// year lies in its range and the day exists in that month.
pub open spec fn is_valid_ymd(year: int, month: int, day: int) -> bool {
    &&& -262143 <= year <= 262142
    &&& 1 <= month <= 12
    &&& 1 <= day <= days_in_month(year, month)
}

/// The date that `NaiveDate::parse_from_str(text, "%Y-%m-%d")` reads from
/// `text`, as (year, month, day), or `None` where it reports an error.
pub uninterp spec fn iso_date_parse(text: Seq<char>) -> Option<(i32, u32, u32)>;

/// `NaiveDate::from_ymd_opt`: the date `year`-`month`-`day` when that day
/// exists in chrono's calendar (as its documentation states: `None` for a day
/// that does not exist, an invalid month or day, or a year out of range).
#[verifier::external_body]
fn from_ymd(year: i32, month: u32, day: u32) -> (r: Option<Ymd>)
    ensures
        r is Some <==> is_valid_ymd(year as int, month as int, day as int),
        r matches Some(d) ==> d == (Ymd { year, month, day }),
{
    NaiveDate::from_ymd_opt(year, month, day).map(|d| Ymd { year: d.year(), month: d.month(), day: d.day() })
}

/// `NaiveDate::parse_from_str(text, "%Y-%m-%d")`, read back as year, month
/// and day. What it accepts is named, not stated; a date it returns is a
/// date chrono can hold.
#[verifier::external_body]
fn parse_iso(text: &str) -> (r: Option<Ymd>)
    ensures
        match iso_date_parse(text@) {
            Some((y, m, d)) => r == Some(Ymd { year: y, month: m, day: d }),
            None => r is None,
        },
        r matches Some(d) ==> is_valid_ymd(d.year as int, d.month as int, d.day as int),
{
    NaiveDate::parse_from_str(text, "%Y-%m-%d").ok().map(
        |d| Ymd { year: d.year(), month: d.month(), day: d.day() },
    )
}

/// The date `year`-`month`-`day`, or `None` when no such day exists.
pub fn calendar_date(year: i32, month: u32, day: u32) -> (r: Option<Ymd>)
    ensures
        r is Some <==> is_valid_ymd(year as int, month as int, day as int),
        r matches Some(d) ==> d == (Ymd { year, month, day }),
{
    from_ymd(year, month, day)
}

/// The date a record page writes as `YYYY-MM-DD` in `text`.
pub fn parse_record_date(text: &str) -> (r: Option<Ymd>)
    ensures
        match iso_date_parse(text@) {
            Some((y, m, d)) => r == Some(Ymd { year: y, month: m, day: d }),
            None => r is None,
        },
        r matches Some(d) ==> is_valid_ymd(d.year as int, d.month as int, d.day as int),
{
    parse_iso(text)
}

/// `a` is an earlier day than `b`.
pub open spec fn is_earlier(a: Ymd, b: Ymd) -> bool {
    ||| a.year < b.year
    ||| a.year == b.year && a.month < b.month
    ||| a.year == b.year && a.month == b.month && a.day < b.day
}

/// Whether `a` is an earlier day than `b`.
pub fn earlier(a: Ymd, b: Ymd) -> (r: bool)
    ensures
        r == is_earlier(a, b),
{
    a.year < b.year || (a.year == b.year && a.month < b.month) || (a.year == b.year && a.month
        == b.month && a.day < b.day)
}

/// The first day of `month` in `year`, or `None` when chrono holds no such day.
pub fn first_day_of_month(year: i32, month: u32) -> (r: Option<Ymd>)
    ensures
        r is Some <==> is_valid_ymd(year as int, month as int, 1),
        r matches Some(d) ==> d == (Ymd { year, month, day: 1 }),
{
    calendar_date(year, month, 1)
}

/// The date `days` days before `year`-`month`-`day`, as chrono's
/// `NaiveDate::checked_sub_signed` gives it, or `None` where chrono reports
/// that the result lies outside the dates it holds.
pub uninterp spec fn days_back(year: i32, month: u32, day: u32, days: u32) -> Option<(i32, u32, u32)>;

/// `NaiveDate::checked_sub_signed` with `TimeDelta::try_days(days)` (which
/// holds every `u32` count of days). The date it gives is named, not
/// stated; a date it returns is one chrono can hold.
#[verifier::external_body]
fn sub_days(date: Ymd, days: u32) -> (r: Option<Ymd>)
    requires
        is_valid_ymd(date.year as int, date.month as int, date.day as int),
    ensures
        match days_back(date.year, date.month, date.day, days) {
            Some((y, m, d)) => r == Some(Ymd { year: y, month: m, day: d }),
            None => r is None,
        },
        r matches Some(d) ==> is_valid_ymd(d.year as int, d.month as int, d.day as int),
{
    let start = NaiveDate::from_ymd_opt(date.year, date.month, date.day).unwrap();
    start.checked_sub_signed(TimeDelta::try_days(days as i64).unwrap()).map(
        |d| Ymd { year: d.year(), month: d.month(), day: d.day() },
    )
}

/// The date `days` days before `date` (see `days_back`).
pub open spec fn date_back(date: Ymd, days: u32) -> Option<Ymd> {
    match days_back(date.year, date.month, date.day, days) {
        Some((y, m, d)) => Some(Ymd { year: y, month: m, day: d }),
        None => None,
    }
}

/// `date` is a day that chrono can hold.
pub open spec fn is_valid_date(date: Ymd) -> bool {
    is_valid_ymd(date.year as int, date.month as int, date.day as int)
}

/// The cutoff of the head-to-head record: games older than three years
/// (1095 days) before `today` are not counted. `None` when `today` is no
/// date, or when the cutoff lies outside chrono's range.
pub fn head_to_head_cutoff(today: Ymd) -> (r: Option<Ymd>)
    ensures
        !is_valid_date(today) ==> r is None,
        is_valid_date(today) ==> r == date_back(today, 1095),
{
    match calendar_date(today.year, today.month, today.day) {
        None => None,
        Some(_) => sub_days(today, 1095),
    }
}

/// The window of the colour record: the day three months (90 days) before
/// `today`, whose year and month pick the rating list, and the first day of
/// that month, after which games are weighed. `None` when `today` is no
/// date, or when that day lies outside chrono's range.
pub fn colour_window(today: Ymd) -> (r: Option<(Ymd, Ymd)>)
    ensures
        !is_valid_date(today) ==> r is None,
        is_valid_date(today) ==> r == match date_back(today, 90) {
            None => None,
            Some(b) => Some((b, Ymd { year: b.year, month: b.month, day: 1 })),
        },
{
    match calendar_date(today.year, today.month, today.day) {
        None => None,
        Some(_) => match sub_days(today, 90) {
            None => None,
            Some(back) => match first_day_of_month(back.year, back.month) {
                None => None,
                Some(first) => Some((back, first)),
            },
        },
    }
}

} // verus!
