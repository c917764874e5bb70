//! Calendar dates as plain values; parsing and day arithmetic are chrono's.
use vstd::prelude::*;
use chrono::Datelike;

verus! {

/// A date of the proleptic Gregorian calendar.
#[derive(Clone, Copy, Debug, PartialEq, Eq, Structural)]
pub struct CivilDate {
    pub year: i32,
    pub month: u32,
    pub day: u32,
}

pub open spec fn is_leap(y: int) -> bool {
    (y % 4 == 0 && y % 100 != 0) || y % 400 == 0
}

pub open spec fn days_in_month(y: int, m: int) -> int {
    if m == 2 {
        if is_leap(y) {
            29
        } else {
            28
        }
    } else if m == 4 || m == 6 || m == 9 || m == 11 {
        30
    } else {
        31
    }
}

/// Days of the year before the first of month `m`.
pub open spec fn days_before_month(y: int, m: int) -> int
    decreases m,
{
    if m <= 1 {
        0
    } else {
        days_before_month(y, m - 1) + days_in_month(y, m - 1)
    }
}

/// The day count of the proleptic Gregorian calendar, January 1 of year 1 being day 1.
pub open spec fn day_number(y: int, m: int, d: int) -> int {
    let p = y - 1;
    365 * p + p / 4 - p / 100 + p / 400 + days_before_month(y, m) + d
}

/// Month `m` of year `y` has a day `d`.
pub open spec fn is_calendar_day(y: int, m: int, d: int) -> bool {
    1 <= m <= 12 && 1 <= d <= days_in_month(y, m)
}

/// Whether month `m` of year `y` has a day `d`.
pub fn calendar_day(y: u32, m: u32, d: u32) -> (r: bool)
    ensures
        r == is_calendar_day(y as int, m as int, d as int),
{
    if m < 1 || m > 12 || d < 1 {
        return false;
    }
    let leap = (y % 4 == 0 && y % 100 != 0) || y % 400 == 0;
    let last: u32 = if m == 2 {
        if leap { 29 } else { 28 }
    } else if m == 4 || m == 6 || m == 9 || m == 11 {
        30
    } else {
        31
    };
    d <= last
}

/// A date that exists, within the years that chrono represents.
pub open spec fn valid_date(d: CivilDate) -> bool {
    -262143 <= d.year <= 262142 && 1 <= d.month <= 12 && 1 <= d.day <= days_in_month(
        d.year as int,
        d.month as int,
    )
}

pub open spec fn day_of(d: CivilDate) -> int {
    day_number(d.year as int, d.month as int, d.day as int)
}

/// What `chrono::NaiveDate::parse_from_str` reads from a text with a format, as year, month
/// and day.
pub uninterp spec fn parsed_date(s: Seq<char>, fmt: Seq<char>) -> Option<(int, int, int)>;

/// Relies on `chrono::NaiveDate::parse_from_str`: the result depends on the two texts alone,
/// and a `NaiveDate` is always a date that exists within chrono's range of years.
#[verifier::external_body]
pub fn parse_with_format(s: &str, fmt: &str) -> (r: Option<CivilDate>)
    ensures
        match r {
            Some(d) => parsed_date(s@, fmt@) == Some((d.year as int, d.month as int, d.day as int))
                && valid_date(d),
            None => parsed_date(s@, fmt@) is None,
        },
{
    chrono::NaiveDate::parse_from_str(s, fmt).ok().map(
        |d| CivilDate { year: d.year(), month: d.month(), day: d.day() },
    )
}

/// Relies on `chrono::NaiveDate::from_ymd_opt` and `chrono::Datelike::num_days_from_ce`: the
/// day count of the proleptic Gregorian calendar, January 1 of year 1 being day 1.
#[verifier::external_body]
pub fn day_index(d: &CivilDate) -> (r: i32)
    requires
        valid_date(*d),
    ensures
        r == day_of(*d),
{
    chrono::NaiveDate::from_ymd_opt(d.year, d.month, d.day).map(|x| x.num_days_from_ce()).unwrap_or(0)
}

/// Relies on `chrono::NaiveDate::checked_add_days`: the date `n` days later, none only past
/// the end of chrono's range (the last day of year 262142).
#[verifier::external_body]
pub fn add_days(d: &CivilDate, n: u32) -> (r: Option<CivilDate>)
    requires
        valid_date(*d),
        n <= 365,
    ensures
        r matches Some(x) ==> valid_date(x) && day_of(x) == day_of(*d) + n,
        d.year < 262142 ==> r is Some,
{
    chrono::NaiveDate::from_ymd_opt(d.year, d.month, d.day).and_then(
        |x| x.checked_add_days(chrono::Days::new(n as u64)),
    ).map(|x| CivilDate { year: x.year(), month: x.month(), day: x.day() })
}

/// A date as `YYYY-MM-DD`, a negative year led by '-'.
pub open spec fn date_text(d: CivilDate) -> Seq<char> {
    if d.year >= 0 {
        crate::fixed_layout::iso_text(d.year as u32, d.month, d.day)
    } else {
        seq!['-'] + crate::fixed_layout::iso_text((-d.year) as u32, d.month, d.day)
    }
}

/// Writes a date as `YYYY-MM-DD`.
pub fn format_date(d: &CivilDate) -> (r: String)
    requires
        valid_date(*d),
    ensures
        r@ == date_text(*d),
{
    if d.year >= 0 {
        crate::fixed_layout::iso_date(d.year as u32, d.month, d.day)
    } else {
        let s = crate::fixed_layout::iso_date((-d.year) as u32, d.month, d.day);
        let mut v: Vec<char> = Vec::new();
        v.push('-');
        let t = crate::text::chars_of(s.as_str());
        let mut i: usize = 0;
        while i < t.len()
            invariant
                i <= t@.len(),
                v@ == seq!['-'] + t@.take(i as int),
            decreases t.len() - i,
        {
            v.push(t[i]);
            i += 1;
            assert(v@ =~= seq!['-'] + t@.take(i as int));
        }
        assert(t@.take(t@.len() as int) =~= t@);
        crate::text::string_of(v.as_slice())
    }
}

} // verus!
