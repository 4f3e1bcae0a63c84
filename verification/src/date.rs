//! Calendar dates in the proleptic Gregorian calendar.
//!
//! A [`Date`] holds year, month and day as plain integers. Whether a triple
//! names a real day, the day after and before a date, the distance between
//! two dates and the reading of a date from text are computed by `chrono`;
//! the functions that make those calls are the trusted part of this module.
//! Everything built on them (month ends, clamped anchors) is verified.

use chrono::Datelike;
use vstd::prelude::*;

verus! {

/// The first year a date can lie in.
pub const MIN_YEAR: i32 = -262143;

/// The last year a date can lie in.
pub const MAX_YEAR: i32 = 262142;

/// A calendar date.
#[derive(Clone, Copy, Debug, PartialEq, Eq, Structural)]
pub struct Date {
    pub year: i32,
    pub month: u32,
    pub day: u32,
}

pub open spec fn is_leap_year(year: int) -> bool {
    year % 4 == 0 && (year % 100 != 0 || year % 400 == 0)
}

/// Length of a month; zero for a month number outside 1..=12.
pub open spec fn days_in_month(year: int, month: int) -> int {
    if month == 2 {
        if is_leap_year(year) {
            29
        } else {
            28
        }
    } else if month == 4 || month == 6 || month == 9 || month == 11 {
        30
    } else if 1 <= month <= 12 {
        31
    } else {
        0
    }
}

/// Whether year, month and day name a day of the calendar.
pub open spec fn valid_ymd(year: int, month: int, day: int) -> bool {
    &&& MIN_YEAR <= year <= MAX_YEAR
    &&& 1 <= month <= 12
    &&& 1 <= day <= days_in_month(year, month)
}

/// Days of the year that lie before the first of `month`.
pub open spec fn days_before_month(year: int, month: int) -> int
    decreases month,
{
    if month <= 1 {
        0
    } else {
        days_before_month(year, month - 1) + days_in_month(year, month - 1)
    }
}

/// Days that lie before the first of January of `year`, counted from the
/// first of January of year 1.
pub open spec fn days_before_year(year: int) -> int {
    365 * (year - 1) + (year - 1) / 4 - (year - 1) / 100 + (year - 1) / 400
}

/// The running number of a day; the first of January of year 1 is day 1.
pub open spec fn day_number(d: Date) -> int {
    days_before_year(d.year as int) + days_before_month(d.year as int, d.month as int) + d.day
}

/// `a` is an earlier day than `b`.
pub open spec fn date_lt(a: Date, b: Date) -> bool {
    ||| a.year < b.year
    ||| (a.year == b.year && a.month < b.month)
    ||| (a.year == b.year && a.month == b.month && a.day < b.day)
}

/// `a` is `b` or an earlier day.
pub open spec fn date_le(a: Date, b: Date) -> bool {
    a == b || date_lt(a, b)
}

/// The day after `d`, if the calendar holds one.
pub open spec fn succ_spec(d: Date) -> Option<Date> {
    if (d.day as int) < days_in_month(d.year as int, d.month as int) {
        Some(Date { year: d.year, month: d.month, day: (d.day + 1) as u32 })
    } else if d.month < 12 {
        Some(Date { year: d.year, month: (d.month + 1) as u32, day: 1 })
    } else if d.year < MAX_YEAR {
        Some(Date { year: (d.year + 1) as i32, month: 1, day: 1 })
    } else {
        None
    }
}

/// The day before `d`, if the calendar holds one.
pub open spec fn pred_spec(d: Date) -> Option<Date> {
    if d.day > 1 {
        Some(Date { year: d.year, month: d.month, day: (d.day - 1) as u32 })
    } else if d.month > 1 {
        Some(
            Date {
                year: d.year,
                month: (d.month - 1) as u32,
                day: days_in_month(d.year as int, d.month - 1) as u32,
            },
        )
    } else if d.year > MIN_YEAR {
        Some(Date { year: (d.year - 1) as i32, month: 12, day: 31 })
    } else {
        None
    }
}

/// The date that text in the form year-month-day stands for, as `chrono`
/// reads it with the format `%Y-%m-%d`; `None` where it reads no date.
pub uninterp spec fn parsed_iso_date(text: Seq<char>) -> Option<(int, int, int)>;

/// Makes a date from year, month and day, if they name a day.
///
/// Trusted: calls `chrono::NaiveDate::from_ymd_opt`, which returns a date
/// exactly when the year is in range and the day exists in that month.
#[verifier::external_body]
fn naive_from_ymd(year: i32, month: u32, day: u32) -> (r: Option<Date>)
    ensures
        r == (if valid_ymd(year as int, month as int, day as int) {
            Some(Date { year, month, day })
        } else {
            None
        }),
{
    match chrono::NaiveDate::from_ymd_opt(year, month, day) {
        Some(nd) => Some(Date { year: nd.year(), month: nd.month(), day: nd.day() }),
        None => None,
    }
}

/// The next calendar day.
///
/// Trusted: calls `chrono::NaiveDate::succ_opt`, which gives the next day
/// and nothing after the last day of the last year.
#[verifier::external_body]
fn naive_succ(d: Date) -> (r: Option<Date>)
    requires
        d.valid(),
    ensures
        r == succ_spec(d),
{
    let nd = chrono::NaiveDate::from_ymd_opt(d.year, d.month, d.day)?;
    let next = nd.succ_opt()?;
    Some(Date { year: next.year(), month: next.month(), day: next.day() })
}

/// The previous calendar day.
///
/// Trusted: calls `chrono::NaiveDate::pred_opt`, which gives the day before
/// and nothing before the first day of the first year.
#[verifier::external_body]
fn naive_pred(d: Date) -> (r: Option<Date>)
    requires
        d.valid(),
    ensures
        r == pred_spec(d),
{
    let nd = chrono::NaiveDate::from_ymd_opt(d.year, d.month, d.day)?;
    let prev = nd.pred_opt()?;
    Some(Date { year: prev.year(), month: prev.month(), day: prev.day() })
}

/// Whole days from `earlier` to `later`; negative where `later` is the
/// earlier day.
///
/// Trusted: calls `chrono::NaiveDate::signed_duration_since` and
/// `TimeDelta::num_days`, which give the difference of the two days'
/// running numbers.
#[verifier::external_body]
fn naive_days_between(later: Date, earlier: Date) -> (r: i64)
    requires
        later.valid(),
        earlier.valid(),
    ensures
        r == day_number(later) - day_number(earlier),
{
    let a = chrono::NaiveDate::from_ymd_opt(later.year, later.month, later.day).unwrap();
    let b = chrono::NaiveDate::from_ymd_opt(earlier.year, earlier.month, earlier.day).unwrap();
    a.signed_duration_since(b).num_days()
}

/// The date `days` days after `d` (before it, for a negative count).
///
/// Trusted: calls `chrono::NaiveDate::checked_add_signed` with
/// `TimeDelta::try_days`. The result is the day of the calendar whose
/// running number is that of `d` plus `days`, and nothing where the
/// calendar has no day of that number.
#[verifier::external_body]
fn naive_plus_days(d: Date, days: i64) -> (r: Option<Date>)
    requires
        d.valid(),
    ensures
        r matches Some(x) ==> x.valid() && day_number(x) == day_number(d) + days,
        r is None ==> !exists|x: Date| x.valid() && day_number(x) == day_number(d) + days,
{
    let nd = chrono::NaiveDate::from_ymd_opt(d.year, d.month, d.day)?;
    let moved = nd.checked_add_signed(chrono::TimeDelta::try_days(days)?)?;
    Some(Date { year: moved.year(), month: moved.month(), day: moved.day() })
}

/// Reads a date written as year-month-day.
///
/// Trusted: calls `chrono::NaiveDate::parse_from_str` with the format
/// `%Y-%m-%d`. Which texts it accepts is left to `chrono`; a date that it
/// returns is a day of the calendar.
#[verifier::external_body]
fn naive_parse_iso(text: &str) -> (r: Option<Date>)
    ensures
        r matches Some(d) ==> parsed_iso_date(text@) == Some(d.parts()) && d.valid(),
        r is None ==> parsed_iso_date(text@) is None,
{
    match chrono::NaiveDate::parse_from_str(text, "%Y-%m-%d") {
        Ok(nd) => Some(Date { year: nd.year(), month: nd.month(), day: nd.day() }),
        Err(_) => None,
    }
}

impl Date {
    pub open spec fn valid(self) -> bool {
        valid_ymd(self.year as int, self.month as int, self.day as int)
    }

    pub open spec fn parts(self) -> (int, int, int) {
        (self.year as int, self.month as int, self.day as int)
    }

    /// Makes a date from year, month and day, if they name a day.
    pub fn from_ymd(year: i32, month: u32, day: u32) -> (r: Option<Date>)
        ensures
            r == (if valid_ymd(year as int, month as int, day as int) {
                Some(Date { year, month, day })
            } else {
                None
            }),
    {
        naive_from_ymd(year, month, day)
    }

    /// Whether this value names a day of the calendar.
    pub fn is_valid(&self) -> (b: bool)
        ensures
            b == self.valid(),
    {
        naive_from_ymd(self.year, self.month, self.day).is_some()
    }

    pub fn is_before(&self, other: &Date) -> (b: bool)
        ensures
            b == date_lt(*self, *other),
    {
        self.year < other.year || (self.year == other.year && (self.month < other.month || (
        self.month == other.month && self.day < other.day)))
    }

    pub fn is_on_or_before(&self, other: &Date) -> (b: bool)
        ensures
            b == date_le(*self, *other),
    {
        self.is_before(other) || (self.year == other.year && self.month == other.month && self.day
            == other.day)
    }

    /// The next calendar day; `None` on the last day of the calendar or
    /// where this value names no day.
    pub fn succ(&self) -> (r: Option<Date>)
        ensures
            r == (if self.valid() {
                succ_spec(*self)
            } else {
                None
            }),
    {
        if self.is_valid() {
            naive_succ(*self)
        } else {
            None
        }
    }

    /// The previous calendar day; `None` on the first day of the calendar
    /// or where this value names no day.
    pub fn pred(&self) -> (r: Option<Date>)
        ensures
            r == (if self.valid() {
                pred_spec(*self)
            } else {
                None
            }),
    {
        if self.is_valid() {
            naive_pred(*self)
        } else {
            None
        }
    }

    /// Whole days from `earlier` to this date; negative where this date is
    /// the earlier one.
    pub fn days_since(&self, earlier: &Date) -> (r: i64)
        requires
            self.valid(),
            earlier.valid(),
        ensures
            r == day_number(*self) - day_number(*earlier),
    {
        naive_days_between(*self, *earlier)
    }

    /// The date `days` days after this one (before it, for a negative
    /// count), if the calendar holds it.
    pub fn plus_days(&self, days: i64) -> (r: Option<Date>)
        requires
            self.valid(),
        ensures
            r matches Some(d) ==> d.valid() && day_number(d) == day_number(*self) + days,
            r is None ==> !exists|d: Date| d.valid() && day_number(d) == day_number(*self) + days,
    {
        naive_plus_days(*self, days)
    }
}

/// Reads a date written as year-month-day, if the text is one.
pub fn parse_iso(text: &str) -> (r: Option<Date>)
    ensures
        r matches Some(d) ==> parsed_iso_date(text@) == Some(d.parts()) && d.valid(),
        r is None ==> parsed_iso_date(text@) is None,
{
    naive_parse_iso(text)
}

/// The last day of a month.
pub open spec fn month_end_spec(year: int, month: int) -> Date {
    Date { year: year as i32, month: month as u32, day: days_in_month(year, month) as u32 }
}

/// The last day of the given month.
pub fn last_day_of_month(year: i32, month: u32) -> (r: Date)
    requires
        MIN_YEAR <= year <= MAX_YEAR,
        1 <= month <= 12,
    ensures
        r == month_end_spec(year as int, month as int),
        r.valid(),
{
    match naive_from_ymd(year, month, 31) {
        Some(d) => d,
        None => match naive_from_ymd(year, month, 30) {
            Some(d) => d,
            None => match naive_from_ymd(year, month, 29) {
                Some(d) => d,
                None => Date { year, month, day: 28 },
            },
        },
    }
}

/// Day `day` of a month, or day 28 where the month has no such day.
pub open spec fn make_date_spec(year: int, month: int, day: int) -> Date {
    if valid_ymd(year, month, day) {
        Date { year: year as i32, month: month as u32, day: day as u32 }
    } else {
        Date { year: year as i32, month: month as u32, day: 28 }
    }
}

/// Day `day` of the given month; a day that the month does not have is
/// replaced by day 28, which every month has.
pub fn make_date(year: i32, month: u32, day: u32) -> (r: Date)
    requires
        MIN_YEAR <= year <= MAX_YEAR,
        1 <= month <= 12,
    ensures
        r == make_date_spec(year as int, month as int, day as int),
        r.valid(),
{
    match naive_from_ymd(year, month, day) {
        Some(d) => d,
        None => Date { year, month, day: 28 },
    }
}

/// The month that follows `(year, month)`.
pub open spec fn next_month_spec(year: int, month: int) -> (int, int) {
    if month == 12 {
        (year + 1, 1)
    } else {
        (year, month + 1)
    }
}

/// The month that precedes `(year, month)`.
pub open spec fn prev_month_spec(year: int, month: int) -> (int, int) {
    if month == 1 {
        (year - 1, 12)
    } else {
        (year, month - 1)
    }
}

/// Day `day` of a month, or the month's last day where it is shorter.
pub open spec fn clamped_spec(year: int, month: int, day: int) -> Date {
    Date {
        year: year as i32,
        month: month as u32,
        day: (if day <= days_in_month(year, month) {
            day
        } else {
            days_in_month(year, month)
        }) as u32,
    }
}

/// The same day of the following month, clamped to that month's end;
/// `None` past the last year.
pub open spec fn add_month_spec(d: Date) -> Option<Date> {
    let (y, m) = next_month_spec(d.year as int, d.month as int);
    if y <= MAX_YEAR {
        Some(clamped_spec(y, m, d.day as int))
    } else {
        None
    }
}

/// The same day of the same month a year later, clamped to that month's
/// end; `None` past the last year.
pub open spec fn add_year_spec(d: Date) -> Option<Date> {
    if d.year < MAX_YEAR {
        Some(clamped_spec(d.year + 1, d.month as int, d.day as int))
    } else {
        None
    }
}

/// Day `day` of the given month, or the month's last day where the month
/// is shorter.
pub fn clamped_day(year: i32, month: u32, day: u32) -> (r: Date)
    requires
        MIN_YEAR <= year <= MAX_YEAR,
        1 <= month <= 12,
        1 <= day,
    ensures
        r == clamped_spec(year as int, month as int, day as int),
        r.valid(),
{
    match naive_from_ymd(year, month, day) {
        Some(d) => d,
        None => last_day_of_month(year, month),
    }
}

/// One month after `d`, keeping the day of the month where the following
/// month has it and taking that month's last day where it has not.
pub fn add_month(d: Date) -> (r: Option<Date>)
    requires
        d.valid(),
    ensures
        r == add_month_spec(d),
        r matches Some(x) ==> x.valid() && date_lt(d, x),
{
    if d.month == 12 {
        if d.year >= MAX_YEAR {
            None
        } else {
            Some(clamped_day(d.year + 1, 1, d.day))
        }
    } else {
        Some(clamped_day(d.year, d.month + 1, d.day))
    }
}

/// One year after `d`; the 29th of February becomes the 28th where the
/// following year is no leap year.
pub fn add_year(d: Date) -> (r: Option<Date>)
    requires
        d.valid(),
    ensures
        r == add_year_spec(d),
        r matches Some(x) ==> x.valid() && date_lt(d, x),
{
    if d.year >= MAX_YEAR {
        None
    } else {
        Some(clamped_day(d.year + 1, d.month, d.day))
    }
}

/// The days before a month, and the month itself, fit in the year.
pub proof fn lemma_days_before_month(year: int, month: int)
    requires
        1 <= month <= 12,
    ensures
        0 <= days_before_month(year, month),
        days_before_month(year, month) + days_in_month(year, month) <= (if is_leap_year(year) {
            366int
        } else {
            365int
        }),
        month == 12 ==> days_before_month(year, month) + 31 == (if is_leap_year(year) {
            366int
        } else {
            365int
        }),
{
    reveal_with_fuel(days_before_month, 13);
}

/// The days before a later month of a year are at least those before an
/// earlier month and that month.
pub proof fn lemma_months_in_order(year: int, first: int, second: int)
    requires
        1 <= first < second <= 12,
    ensures
        days_before_month(year, first) + days_in_month(year, first) <= days_before_month(
            year,
            second,
        ),
    decreases second - first,
{
    if first + 1 < second {
        lemma_months_in_order(year, first, second - 1);
    }
}

/// A year has 365 days, and one more in a leap year.
pub proof fn lemma_year_length(year: int)
    ensures
        days_before_year(year + 1) == days_before_year(year) + (if is_leap_year(year) {
            366int
        } else {
            365int
        }),
{
}

/// Later years begin later.
pub proof fn lemma_years_in_order(first: int, second: int)
    requires
        first <= second,
    ensures
        days_before_year(first) + 365 * (second - first) <= days_before_year(second),
    decreases second - first,
{
    if first < second {
        lemma_years_in_order(first, second - 1);
        lemma_year_length(second - 1);
    }
}

/// The day after a day has the next running number.
pub proof fn lemma_succ_day_number(d: Date)
    requires
        d.valid(),
        succ_spec(d) is Some,
    ensures
        succ_spec(d).unwrap().valid(),
        day_number(succ_spec(d).unwrap()) == day_number(d) + 1,
        date_lt(d, succ_spec(d).unwrap()),
{
    let y = d.year as int;
    let m = d.month as int;
    if (d.day as int) < days_in_month(y, m) {
    } else if d.month < 12 {
        assert(days_before_month(y, m + 1) == days_before_month(y, m) + days_in_month(y, m));
    } else {
        lemma_days_before_month(y, 12);
        lemma_year_length(y);
        assert(days_before_month(y + 1, 1) == 0);
    }
}

/// An earlier day has a smaller running number, and the other way round.
pub proof fn lemma_day_number_order(a: Date, b: Date)
    requires
        a.valid(),
        b.valid(),
    ensures
        date_lt(a, b) <==> day_number(a) < day_number(b),
        a == b <==> day_number(a) == day_number(b),
{
    lemma_day_number_increases(a, b);
    lemma_day_number_increases(b, a);
}

/// An earlier day has a smaller running number.
pub proof fn lemma_day_number_increases(a: Date, b: Date)
    requires
        a.valid(),
        b.valid(),
    ensures
        date_lt(a, b) ==> day_number(a) < day_number(b),
{
    if date_lt(a, b) {
        let ya = a.year as int;
        let yb = b.year as int;
        lemma_days_before_month(ya, a.month as int);
        lemma_days_before_month(yb, b.month as int);
        if ya < yb {
            lemma_year_length(ya);
            lemma_years_in_order(ya + 1, yb);
        } else if a.month < b.month {
            lemma_months_in_order(ya, a.month as int, b.month as int);
        }
    }
}

/// The running numbers of the days of the calendar are bounded.
pub proof fn lemma_day_number_bounds(d: Date)
    requires
        d.valid(),
    ensures
        -96_000_000 <= day_number(d) <= 96_000_000,
{
    lemma_days_before_month(d.year as int, d.month as int);
}

} // verus!
