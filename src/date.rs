//! Calendar dates and date-times, as plain values, with the calendar library behind them.

use crate::text::{
    digits, lemma_digits_plain, lemma_padded_plain, no_dash, no_space, push_char, push_padded,
    zero_padded,
};
use chrono::Datelike;
use vstd::prelude::*;

verus! {

/// The earliest year that the calendar library can represent.
pub const MIN_YEAR: i32 = -262143;

/// The latest year that the calendar library can represent.
pub const MAX_YEAR: i32 = 262142;

pub open spec fn is_leap_year(y: int) -> bool {
    (y % 4 == 0 && y % 100 != 0) || y % 400 == 0
}

pub open spec fn days_in_month(y: int, m: int) -> int {
    if m == 2 {
        if is_leap_year(y) { 29 } else { 28 }
    } else if m == 4 || m == 6 || m == 9 || m == 11 {
        30
    } else {
        31
    }
}

/// Days of the year `y` that come before the first of month `m`.
pub open spec fn days_before_month(y: int, m: int) -> int {
    let common: int = if m <= 1 { 0 } else if m == 2 { 31 } else if m == 3 { 59 } else if m == 4 { 90 }
        else if m == 5 { 120 } else if m == 6 { 151 } else if m == 7 { 181 } else if m == 8 { 212 }
        else if m == 9 { 243 } else if m == 10 { 273 } else if m == 11 { 304 } else { 334 };
    if m > 2 && is_leap_year(y) { common + 1 } else { common }
}

/// Days of the proleptic Gregorian calendar before the first of January of year `y`,
/// counted from the first of January of year 1.
pub open spec fn days_before_year(y: int) -> int {
    let p = y - 1;
    365 * p + p / 4 - p / 100 + p / 400
}

/// A calendar date of the proleptic Gregorian calendar.
#[derive(Clone, Copy, Debug, PartialEq, Eq, Structural)]
pub struct Date {
    pub year: i32,
    pub month: u32,
    pub day: u32,
}

impl Date {
    /// The date exists, within the years that the calendar library represents.
    pub open spec fn wf(self) -> bool {
        &&& MIN_YEAR <= self.year <= MAX_YEAR
        &&& 1 <= self.month <= 12
        &&& 1 <= self.day <= days_in_month(self.year as int, self.month as int)
    }

    /// Day number of the date, the first of January of year 1 being day 1.
    pub open spec fn day_number(self) -> int {
        days_before_year(self.year as int) + days_before_month(self.year as int, self.month as int)
            + self.day
    }

    /// An integer that orders dates as the calendar does.
    pub open spec fn key(self) -> int {
        self.year * 10000 + self.month * 100 + self.day
    }

    pub fn new(year: i32, month: u32, day: u32) -> (r: Option<Date>)
        ensures
            r is Some <==> (Date { year, month, day }).wf(),
            r is Some ==> r->0 == (Date { year, month, day }),
    {
        if year < MIN_YEAR || year > MAX_YEAR || month < 1 || month > 12 || day < 1 {
            return None;
        }
        let leap = (year % 4 == 0 && year % 100 != 0) || year % 400 == 0;
        let last: u32 = if month == 2 {
            if leap { 29 } else { 28 }
        } else if month == 4 || month == 6 || month == 9 || month == 11 {
            30
        } else {
            31
        };
        if day > last {
            None
        } else {
            Some(Date { year, month, day })
        }
    }
}

/// A date and a time of day, to the second, without a time zone.
#[derive(Clone, Copy, Debug, PartialEq, Eq, Structural)]
pub struct DateTime {
    pub date: Date,
    pub hour: u32,
    pub minute: u32,
    pub second: u32,
}

impl DateTime {
    pub open spec fn wf(self) -> bool {
        &&& self.date.wf()
        &&& self.hour < 24
        &&& self.minute < 60
        &&& self.second < 60
    }

    /// Seconds since the start of the day.
    pub open spec fn time_of_day(self) -> int {
        self.hour * 3600 + self.minute * 60 + self.second
    }

    /// Seconds since the start of the first of January of year 1.
    pub open spec fn timestamp(self) -> int {
        (self.date.day_number() - 1) * 86400 + self.time_of_day()
    }

    /// An integer that orders date-times chronologically.
    pub open spec fn key(self) -> int {
        self.date.key() * 1000000 + self.hour * 10000 + self.minute * 100 + self.second
    }

    pub fn new(year: i32, month: u32, day: u32, hour: u32, minute: u32, second: u32) -> (r: Option<
        DateTime,
    >)
        ensures
            r is Some <==> (DateTime { date: Date { year, month, day }, hour, minute, second }).wf(),
            r is Some ==> r->0 == (DateTime {
                date: Date { year, month, day },
                hour,
                minute,
                second,
            }),
    {
        if hour >= 24 || minute >= 60 || second >= 60 {
            return None;
        }
        match Date::new(year, month, day) {
            Some(date) => Some(DateTime { date, hour, minute, second }),
            None => None,
        }
    }

    /// The chronological order key of this date-time.
    pub fn order_key(&self) -> (r: i64)
        requires
            self.wf(),
        ensures
            r == self.key(),
    {
        self.date.year as i64 * 10000000000 + self.date.month as i64 * 100000000
            + self.date.day as i64 * 1000000 + self.hour as i64 * 10000 + self.minute as i64 * 100
            + self.second as i64
    }
}

/// The year as the calendar library writes it: four digits from 0 to 9999, otherwise a sign
/// and at least four digits.
pub open spec fn year_text(y: int) -> Seq<char> {
    if 0 <= y <= 9999 {
        zero_padded(digits(y as nat), 4)
    } else if y < 0 {
        seq!['-'] + zero_padded(digits((-y) as nat), 4)
    } else {
        seq!['+'] + zero_padded(digits(y as nat), 4)
    }
}

pub open spec fn two_digits(n: int) -> Seq<char> {
    zero_padded(digits(n as nat), 2)
}

/// The date written `YYYY-MM-DD`.
pub open spec fn date_text(d: Date) -> Seq<char> {
    year_text(d.year as int) + seq!['-'] + two_digits(d.month as int) + seq!['-'] + two_digits(
        d.day as int,
    )
}

/// Two existing dates with the same order key are the same date.
pub proof fn lemma_date_key_injective(a: Date, b: Date)
    requires
        a.wf(),
        b.wf(),
        a.key() == b.key(),
    ensures
        a == b,
{
}

/// Date-times in chronological order have their dates in calendar order.
pub proof fn lemma_date_key_monotone(a: DateTime, b: DateTime)
    requires
        a.wf(),
        b.wf(),
        a.key() <= b.key(),
    ensures
        a.date.key() <= b.date.key(),
{
}

/// A written date holds no space; for a year from 0 to 9999 its year holds no hyphen.
pub proof fn lemma_date_text_plain(d: Date)
    ensures
        no_space(date_text(d)),
        no_space(year_text(d.year as int)),
        0 <= d.year <= 9999 ==> no_dash(year_text(d.year as int)),
        no_space(two_digits(d.month as int)) && no_dash(two_digits(d.month as int)),
        no_space(two_digits(d.day as int)) && no_dash(two_digits(d.day as int)),
{
    let y = d.year as int;
    let n: nat = if y < 0 { (-y) as nat } else { y as nat };
    lemma_digits_plain(n);
    lemma_padded_plain(digits(n), 4);
    lemma_digits_plain(d.month as nat);
    lemma_padded_plain(digits(d.month as nat), 2);
    lemma_digits_plain(d.day as nat);
    lemma_padded_plain(digits(d.day as nat), 2);
    assert(no_space(year_text(y)));
}

/// The text holds the character `-` at least twice.
pub open spec fn has_two_dashes(s: Seq<char>) -> bool {
    exists|i: int, j: int| 0 <= i < j < s.len() && s[i] == '-' && s[j] == '-'
}

/// What the calendar library reads from a text in the form `YYYY-MM-DD`: year, month and day.
pub uninterp spec fn date_parsed(s: Seq<char>) -> Option<(int, int, int)>;

/// Relies on chrono's `NaiveDate::from_str`, which reads `%Y-%m-%d`, the form in which chrono
/// writes a date: a date it returns exists, the two `-` of the form are in the text, and the
/// text that chrono writes for a date reads back as that date.
#[verifier::external_body]
pub(crate) fn parse_date(s: &str) -> (r: Option<Date>)
    ensures
        match r {
            Some(d) => {
                &&& date_parsed(s@) == Some((d.year as int, d.month as int, d.day as int))
                &&& d.wf()
                &&& has_two_dashes(s@)
            },
            None => date_parsed(s@) is None,
        },
        forall|d: Date| d.wf() && s@ == date_text(d) ==> r == Some(d),
{
    s.parse::<chrono::NaiveDate>().ok().map(|d| Date { year: d.year(), month: d.month(), day: d.day() })
}

/// Relies on chrono's `Datelike::num_days_from_ce`: the day number in the proleptic Gregorian
/// calendar, the first of January of year 1 being day 1.
#[verifier::external_body]
pub(crate) fn days_from_ce(d: Date) -> (r: i32)
    requires
        d.wf(),
    ensures
        r == d.day_number(),
{
    chrono::NaiveDate::from_ymd_opt(d.year, d.month, d.day).unwrap().num_days_from_ce()
}

/// Appends the year as `year_text` writes it.
pub fn push_year(out: &mut String, y: i32)
    ensures
        final(out)@ == old(out)@ + year_text(y as int),
{
    if 0 <= y && y <= 9999 {
        push_padded(out, y as u64, 4);
    } else if y < 0 {
        push_char(out, '-');
        push_padded(out, (-(y as i64)) as u64, 4);
        assert(out@ =~= old(out)@ + year_text(y as int));
    } else {
        push_char(out, '+');
        push_padded(out, y as u64, 4);
        assert(out@ =~= old(out)@ + year_text(y as int));
    }
}

/// Appends the date written `YYYY-MM-DD`.
pub fn push_date(out: &mut String, d: Date)
    ensures
        final(out)@ == old(out)@ + date_text(d),
{
    push_year(out, d.year);
    push_char(out, '-');
    push_padded(out, d.month as u64, 2);
    push_char(out, '-');
    push_padded(out, d.day as u64, 2);
    assert(out@ =~= old(out)@ + date_text(d));
}

impl Date {
    /// The date written `YYYY-MM-DD`.
    pub fn to_text(&self) -> (r: String)
        ensures
            r@ == date_text(*self),
    {
        let mut r = String::new();
        push_date(&mut r, *self);
        assert(r@ =~= date_text(*self));
        r
    }
}

} // verus!
