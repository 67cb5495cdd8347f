//! Days of the calendar.
use vstd::prelude::*;
use vstd::string::*;
use crate::text::digit_char;

verus! {

/// A day of the proleptic Gregorian calendar.
#[derive(Debug, Clone, Copy, PartialEq, Eq, Hash, Structural)]
pub struct Date {
    pub year: i16,
    pub month: i8,
    pub day: i8,
}

/// Whether a year has 366 days.
pub open spec fn is_leap(year: int) -> bool {
    (year % 4 == 0 && year % 100 != 0) || year % 400 == 0
}

/// The days of a month.
pub open spec fn month_days(year: int, month: int) -> int {
    if month == 2 {
        if is_leap(year) {
            29
        } else {
            28
        }
    } else if month == 4 || month == 6 || month == 9 || month == 11 {
        30
    } else {
        31
    }
}

/// Whether there is such a day, in the years of four digits.
pub open spec fn valid(d: Date) -> bool {
    &&& -9999 <= d.year <= 9999
    &&& 1 <= d.month <= 12
    &&& 1 <= d.day <= month_days(d.year as int, d.month as int)
}

/// The days before a year, counted from the start of the year zero.
pub open spec fn days_before_year(year: int) -> int {
    365 * year + (year - 1) / 4 - (year - 1) / 100 + (year - 1) / 400
}

/// The days of a year before a month.
pub open spec fn days_before_month(year: int, month: int) -> int
    decreases month,
{
    if month <= 1 {
        0
    } else {
        days_before_month(year, month - 1) + month_days(year, month - 1)
    }
}

/// The number of a day: one more for each day.
pub open spec fn day_number(d: Date) -> int {
    days_before_year(d.year as int) + days_before_month(d.year as int, d.month as int) + d.day
}

/// Whether `a` is earlier than `b`.
pub open spec fn earlier(a: Date, b: Date) -> bool {
    a.year < b.year || (a.year == b.year && (a.month < b.month || (a.month == b.month && a.day
        < b.day)))
}

/// Whether `a` is earlier than `b`.
pub fn is_earlier(a: Date, b: Date) -> (r: bool)
    ensures
        r == earlier(a, b),
{
    a.year < b.year || (a.year == b.year && (a.month < b.month || (a.month == b.month && a.day
        < b.day)))
}

/// The last day there is.
pub open spec fn last_day() -> Date {
    Date { year: 9999, month: 12, day: 31 }
}

/// The first day there is.
pub open spec fn first_day() -> Date {
    Date { year: (0 - 9999) as i16, month: 1, day: 1 }
}

/// The day after.
pub open spec fn next_day(d: Date) -> Date {
    if d.day < month_days(d.year as int, d.month as int) {
        Date { year: d.year, month: d.month, day: (d.day + 1) as i8 }
    } else if d.month < 12 {
        Date { year: d.year, month: (d.month + 1) as i8, day: 1 }
    } else {
        Date { year: (d.year + 1) as i16, month: 1, day: 1 }
    }
}

/// A number below a hundred with two digits.
pub open spec fn two_digits(n: nat) -> Seq<char> {
    seq![digit_char(n / 10), digit_char(n % 10)]
}

/// A number below ten thousand with four digits.
pub open spec fn four_digits(n: nat) -> Seq<char> {
    two_digits(n / 100) + two_digits(n % 100)
}

/// The day as year, month and day. A year before zero has a sign and six digits.
pub open spec fn date_text(d: Date) -> Seq<char> {
    (if d.year < 0 {
        "-00"@ + four_digits((0 - d.year) as nat)
    } else {
        four_digits(d.year as nat)
    }) + "-"@ + two_digits(d.month as nat) + "-"@ + two_digits(d.day as nat)
}

/// What `jiff` reads as a date.
pub uninterp spec fn parsed_date(s: Seq<char>) -> Option<Date>;

/// Reads a date with the `FromStr` of `jiff::civil::Date`. The result depends on
/// the text alone and is a day of the calendar; nothing more is said of which
/// texts are dates.
#[verifier::external_body]
pub(crate) fn parse_date(text: &str) -> (r: Option<Date>)
    ensures
        r == parsed_date(text@),
        r is Some ==> valid(r->0),
{
    let date = text.parse::<jiff::civil::Date>().ok();
    date.map(|d| Date { year: d.year(), month: d.month(), day: d.day() })
}

/// Writes a date with the `Display` of `jiff::civil::Date`: the year in four
/// digits, the month and the day in two, with dashes between them. What is
/// written reads back as the date.
#[verifier::external_body]
pub(crate) fn write_date(date: Date) -> (r: String)
    requires
        valid(date),
    ensures
        r@ == date_text(date),
        parsed_date(r@) == Some(date),
{
    jiff::civil::date(date.year, date.month, date.day).to_string()
}

/// The day after, by `jiff::civil::Date::tomorrow`; there is none after the last
/// day.
#[verifier::external_body]
pub(crate) fn tomorrow(date: Date) -> (r: Option<Date>)
    requires
        valid(date),
    ensures
        date == last_day() ==> r is None,
        date != last_day() ==> r == Some(next_day(date)),
{
    let next = jiff::civil::date(date.year, date.month, date.day).tomorrow().ok();
    next.map(|d| Date { year: d.year(), month: d.month(), day: d.day() })
}

/// The day so many days before, by `jiff::civil::Date::checked_sub` with a
/// `jiff::Span` of days; nothing where that day is out of range.
#[verifier::external_body]
pub(crate) fn days_before(date: Date, days: i64) -> (r: Option<Date>)
    requires
        valid(date),
        -7_304_484 <= days <= 7_304_484,
    ensures
        r is Some ==> valid(r->0) && day_number(r->0) == day_number(date) - days,
        r is None <==> !(day_number(first_day()) <= day_number(date) - days <= day_number(
            last_day(),
        )),
{
    let day = jiff::civil::date(date.year, date.month, date.day);
    let past = day.checked_sub(jiff::Span::new().days(days)).ok();
    past.map(|d| Date { year: d.year(), month: d.month(), day: d.day() })
}

/// A year has its days.
proof fn lemma_year_step(year: int)
    ensures
        days_before_year(year + 1) == days_before_year(year) + 365 + if is_leap(year) {
            1int
        } else {
            0
        },
{
}

/// Later years start later.
proof fn lemma_years_grow(a: int, b: int)
    requires
        a <= b,
    ensures
        days_before_year(a) <= days_before_year(b),
    decreases b - a,
{
    if a < b {
        lemma_years_grow(a, b - 1);
        lemma_year_step(b - 1);
    }
}

/// The days of a year before its months, one by one.
proof fn lemma_months(year: int)
    ensures
        days_before_month(year, 1) == 0,
        days_before_month(year, 2) == 31,
        days_before_month(year, 3) == 59 + (month_days(year, 2) - 28),
        days_before_month(year, 4) == 90 + (month_days(year, 2) - 28),
        days_before_month(year, 5) == 120 + (month_days(year, 2) - 28),
        days_before_month(year, 6) == 151 + (month_days(year, 2) - 28),
        days_before_month(year, 7) == 181 + (month_days(year, 2) - 28),
        days_before_month(year, 8) == 212 + (month_days(year, 2) - 28),
        days_before_month(year, 9) == 243 + (month_days(year, 2) - 28),
        days_before_month(year, 10) == 273 + (month_days(year, 2) - 28),
        days_before_month(year, 11) == 304 + (month_days(year, 2) - 28),
        days_before_month(year, 12) == 334 + (month_days(year, 2) - 28),
{
    reveal_with_fuel(days_before_month, 13);
}

/// An earlier day has a smaller number.
proof fn lemma_earlier_is_smaller(a: Date, b: Date)
    requires
        valid(a),
        valid(b),
        earlier(a, b),
    ensures
        day_number(a) < day_number(b),
{
    lemma_months(a.year as int);
    lemma_months(b.year as int);
    if a.year < b.year {
        lemma_year_step(a.year as int);
        lemma_years_grow(a.year + 1, b.year as int);
    }
}

/// Days are in the order of their numbers, and no two have the same number.
pub proof fn law_days_are_in_the_order_of_their_numbers(a: Date, b: Date)
    requires
        valid(a),
        valid(b),
    ensures
        earlier(a, b) <==> day_number(a) < day_number(b),
        a == b <==> day_number(a) == day_number(b),
{
    if earlier(a, b) {
        lemma_earlier_is_smaller(a, b);
    }
    if earlier(b, a) {
        lemma_earlier_is_smaller(b, a);
    }
    assert(earlier(a, b) || earlier(b, a) || a == b);
}

/// The day after has the next number.
pub proof fn law_next_day_has_the_next_number(d: Date)
    requires
        valid(d),
        d != last_day(),
    ensures
        valid(next_day(d)),
        day_number(next_day(d)) == day_number(d) + 1,
{
    lemma_months(d.year as int);
    lemma_months(d.year + 1);
    lemma_year_step(d.year as int);
}

} // verus!
