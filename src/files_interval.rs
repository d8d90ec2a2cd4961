//! The interval of days of a photo collection: reading it from a name, writing it in compact
//! form, and its length.

use crate::date::{
    date_parsed, date_text, days_from_ce, has_two_dashes, lemma_date_text_plain, parse_date,
    push_date, two_digits, year_text, Date, DateTime,
};
use crate::text::{
    chars_of, digits, find, lemma_find_absent, lemma_find_none_absent, lemma_find_first, lemma_split_space,
    no_space, push_char, push_padded, split_once, zero_padded,
};
use vstd::prelude::*;
use vstd::string::{StrSliceExecFns, StringExecFns};

verus! {

/// The text that stands between the two dates of a range: space, hyphen, space.
pub open spec fn sep() -> Seq<char> {
    seq![' ', '-', ' ']
}

/// An integer written as `{:0w}` writes it: zeros after the sign fill `w` characters.
pub open spec fn std_padded(n: int, w: nat) -> Seq<char> {
    if n >= 0 {
        zero_padded(digits(n as nat), w)
    } else {
        seq!['-'] + zero_padded(digits((-n) as nat), (w - 1) as nat)
    }
}

pub open spec fn date_of(x: (int, int, int)) -> Date {
    Date { year: x.0 as i32, month: x.1 as u32, day: x.2 as u32 }
}

/// The year, month and day of a date read, if any.
pub open spec fn reading_of(d: Option<Date>) -> Option<(int, int, int)> {
    match d {
        Some(d) => Some((d.year as int, d.month as int, d.day as int)),
        None => None,
    }
}

/// The first of three readings of an end date that gave a date.
pub open spec fn first_reading(
    full: Option<(int, int, int)>,
    with_year: Option<(int, int, int)>,
    with_month: Option<(int, int, int)>,
) -> Option<(int, int, int)> {
    match full {
        Some(x) => Some(x),
        None => match with_year {
            Some(x) => Some(x),
            None => with_month,
        },
    }
}

/// The end date of a range that starts on `f`, written in full, as `MM-DD`, or as `DD`.
pub open spec fn end_date_parsed(f: Date, t: Seq<char>) -> Option<(int, int, int)> {
    let with_year = std_padded(f.year as int, 4) + seq!['-'] + t;
    let with_month = std_padded(f.year as int, 4) + seq!['-'] + two_digits(f.month as int) + seq![
        '-',
    ] + t;
    first_reading(date_parsed(t), date_parsed(with_year), date_parsed(with_month))
}

/// The two dates at the start of a name and the text after them: first a range
/// `<date> - <end date> <rest>`, else a single day `<date> <rest>`.
pub open spec fn split_dates(name: Seq<char>) -> Option<(Date, Date, Seq<char>)> {
    let range = match split_once(name, sep()) {
        Some((a, rest)) => match split_once(rest, seq![' ']) {
            Some((b, tail)) => match date_parsed(a) {
                Some(f) => match end_date_parsed(date_of(f), b) {
                    Some(t) => Some((date_of(f), date_of(t), tail)),
                    None => None,
                },
                None => None,
            },
            None => None,
        },
        None => None,
    };
    if range is Some {
        range
    } else {
        match split_once(name, seq![' ']) {
            Some((a, tail)) => match date_parsed(a) {
                Some(f) => Some((date_of(f), date_of(f), tail)),
                None => None,
            },
            None => None,
        }
    }
}

/// The interval that a name starts with, and the rest of the name.
pub open spec fn split_spec(name: Seq<char>) -> Option<(FilesInterval, Seq<char>)> {
    match split_dates(name) {
        Some((f, t, tail)) => if f.key() <= t.key() {
            Some((FilesInterval::of_dates(f, t), tail))
        } else {
            None
        },
        None => None,
    }
}

/// The interval written in its compact form.
pub open spec fn interval_text(i: FilesInterval) -> Seq<char> {
    let f = i.from.date;
    let t = i.to.date;
    if f == t {
        date_text(f)
    } else if f.year != t.year {
        date_text(f) + sep() + date_text(t)
    } else if f.month != t.month {
        date_text(f) + sep() + two_digits(t.month as int) + seq!['-'] + two_digits(t.day as int)
    } else {
        date_text(f) + sep() + two_digits(t.day as int)
    }
}

/// The calendar library reads the text it writes for `d` back as `d`.
pub open spec fn reads_back(d: Date) -> bool {
    date_parsed(date_text(d)) == Some((d.year as int, d.month as int, d.day as int))
}

/// Where the calendar library reads a date from `s`, `s` holds the two `-` of the form.
pub open spec fn dashes_if_read(s: Seq<char>) -> bool {
    date_parsed(s) is Some ==> has_two_dashes(s)
}

/// The end date as the compact form of the interval from `from` to `to` writes it.
pub open spec fn end_text(from: Date, to: Date) -> Seq<char> {
    if from.year != to.year || from == to {
        date_text(to)
    } else if from.month != to.month {
        two_digits(to.month as int) + seq!['-'] + two_digits(to.day as int)
    } else {
        two_digits(to.day as int)
    }
}

/// The readings of the calendar library that reading back the compact form of the interval
/// from `from` to `to` goes through.
pub open spec fn round_trip_readings(from: Date, to: Date) -> bool {
    &&& reads_back(from)
    &&& reads_back(to)
    &&& dashes_if_read(end_text(from, to))
    &&& dashes_if_read(std_padded(from.year as int, 4) + seq!['-'] + end_text(from, to))
}

/// A text without spaces, the separator ` - `, and more: split at the separator.
proof fn lemma_split_sep(a: Seq<char>, b: Seq<char>)
    requires
        no_space(a),
    ensures
        split_once(a + sep() + b, sep()) == Some((a, b)),
{
    let s = a + sep() + b;
    let pat = sep();
    assert forall|j: int| 0 <= j < a.len() implies #[trigger] s.subrange(j, j + pat.len())
        != pat by {
        assert(s.subrange(j, j + 3)[0] == a[j]);
    }
    assert(s.subrange(a.len() as int, a.len() + 3 as int) =~= pat);
    lemma_find_first(s, pat, 0, a.len() as int);
    assert(s.subrange(0, a.len() as int) =~= a);
    assert(s.subrange(a.len() + 3 as int, s.len() as int) =~= b);
}

/// A text without spaces followed by a text that holds no separator ` - ` and starts with a
/// space holds no separator.
proof fn lemma_no_sep(x: Seq<char>, rest: Seq<char>)
    requires
        no_space(x),
        split_once(seq![' '] + rest, sep()) is None,
    ensures
        split_once(x + seq![' '] + rest, sep()) is None,
{
    let s = x + seq![' '] + rest;
    let t = seq![' '] + rest;
    let pat = sep();
    lemma_find_none_absent(t, pat, 0);
    assert forall|j: int| 0 <= j && j + pat.len() <= s.len() implies #[trigger] s.subrange(
        j,
        j + pat.len(),
    ) != pat by {
        if j < x.len() {
            assert(s.subrange(j, j + 3)[0] == x[j]);
        } else {
            assert(s.subrange(j, j + 3) =~= t.subrange(j - x.len(), j - x.len() + 3));
        }
    }
    lemma_find_absent(s, pat, 0);
}

/// A text with at most one hyphen, at `p`, does not hold two.
proof fn lemma_one_dash(s: Seq<char>, p: int)
    requires
        forall|i: int| 0 <= i < s.len() && i != p ==> s[i] != '-',
    ensures
        !has_two_dashes(s),
{
}

/// Writing an interval of days in its compact form and reading it back, followed by a space
/// and a rest, gives the interval and the rest: for every start date from year 0 to 9999,
/// given the readings of the calendar library that this goes through, and, for a single day,
/// a rest that does not bring in the separator ` - `.
pub proof fn lemma_format_parse_round_trip(from: Date, to: Date, rest: Seq<char>)
    requires
        round_trip_readings(from, to),
        from.wf(),
        to.wf(),
        from.key() <= to.key(),
        0 <= from.year <= 9999,
        from == to ==> split_once(seq![' '] + rest, sep()) is None,
    ensures
        split_spec(interval_text(FilesInterval::of_dates(from, to)) + seq![' '] + rest) == Some(
            (FilesInterval::of_dates(from, to), rest),
        ),
{
    let i = FilesInterval::of_dates(from, to);
    let name = interval_text(i) + seq![' '] + rest;
    lemma_date_text_plain(from);
    lemma_date_text_plain(to);
    let ft = date_text(from);
    assert(date_of((from.year as int, from.month as int, from.day as int)) == from);
    assert(date_of((to.year as int, to.month as int, to.day as int)) == to);
    if from == to {
        lemma_no_sep(ft, rest);
        lemma_split_space(ft, rest);
        assert(split_dates(name) == Some((from, from, rest)));
    } else {
        let x = end_text(from, to);
        assert(name =~= ft + sep() + (x + seq![' '] + rest));
        lemma_split_sep(ft, x + seq![' '] + rest);
        assert(no_space(x));
        lemma_split_space(x, rest);
        if from.year != to.year {
            assert(end_date_parsed(from, x) == Some((to.year as int, to.month as int, to.day as int)));
        } else if from.month != to.month {
            let tm = two_digits(to.month as int);
            assert forall|k: int| 0 <= k < x.len() && k != tm.len() implies x[k] != '-' by {
                if k < tm.len() {
                    assert(x[k] == tm[k]);
                } else {
                    assert(x[k] == two_digits(to.day as int)[k - tm.len() - 1]);
                }
            }
            lemma_one_dash(x, tm.len() as int);
            assert(date_parsed(x) is None);
            assert(std_padded(from.year as int, 4) == year_text(from.year as int));
            assert(std_padded(from.year as int, 4) + seq!['-'] + x =~= date_text(to));
            assert(end_date_parsed(from, x) == Some((to.year as int, to.month as int, to.day as int)));
        } else {
            lemma_one_dash(x, -1);
            assert(date_parsed(x) is None);
            let y4 = std_padded(from.year as int, 4);
            assert(y4 == year_text(from.year as int));
            let w = y4 + seq!['-'] + x;
            lemma_one_dash(w, y4.len() as int);
            assert(date_parsed(w) is None);
            assert(y4 + seq!['-'] + two_digits(from.month as int) + seq!['-'] + x =~= date_text(to));
            assert(end_date_parsed(from, x) == Some((to.year as int, to.month as int, to.day as int)));
        }
        assert(split_dates(name) == Some((from, to, rest)));
    }
}

/// The span from the creation of the first photo to that of the last.
#[derive(Debug, PartialEq, Eq, Structural)]
pub struct FilesInterval {
    pub from: DateTime,
    pub to: DateTime,
}

impl FilesInterval {
    pub open spec fn wf(self) -> bool {
        &&& self.from.wf()
        &&& self.to.wf()
        &&& self.from.key() <= self.to.key()
    }

    /// From the start of day `from` to the last second of day `to`.
    pub open spec fn of_dates(from: Date, to: Date) -> FilesInterval {
        FilesInterval {
            from: DateTime { date: from, hour: 0, minute: 0, second: 0 },
            to: DateTime { date: to, hour: 23, minute: 59, second: 59 },
        }
    }

    /// Length of the interval in seconds.
    pub open spec fn delta_spec(self) -> int {
        self.to.timestamp() - self.from.timestamp()
    }

    /// The number of whole days in the interval's length, as a count of days and not signed.
    pub open spec fn num_days_spec(self) -> int {
        let d = self.delta_spec();
        (if d < 0 { -d } else { d }) / 86400
    }

    /// Reads an interval from the start of a directory name and hands back the rest of the name.
    ///
    /// Accepted forms: `2025-05-01 rest`, `2025-05-01 - 2025-05-03 rest`,
    /// `2025-05-01 - 05-03 rest` and `2025-05-01 - 03 rest`.
    pub fn try_split(name: &str) -> (r: Option<(FilesInterval, &str)>)
        ensures
            match r {
                Some((i, rest)) => split_spec(name@) == Some((i, rest@)) && i.wf(),
                None => split_spec(name@) is None,
            },
    {
        let cs = chars_of(name);
        let n = cs.len();
        let sep_chars = vec![' ', '-', ' '];
        let space = vec![' '];
        assert(sep_chars@ =~= sep());
        assert(space@ =~= seq![' ']);
        let mut range: Option<(Date, Date, &str)> = None;
        if let Some(i) = find(&cs, &sep_chars) {
            assert(sep_chars@.len() == 3);
            let a = name.substring_char(0, i);
            let rest = name.substring_char(i + 3, n);
            let rest_chars = chars_of(rest);
            if let Some(j) = find(&rest_chars, &space) {
                let b = rest.substring_char(0, j);
                let tail = rest.substring_char(j + 1, rest_chars.len());
                if let Some(f) = parse_date(a) {
                    if let Some(t) = parse_end_date(f, b) {
                        range = Some((f, t, tail));
                    }
                }
            }
        }
        let found = match range {
            Some(x) => Some(x),
            None => match find(&cs, &space) {
                Some(i) => {
                    let a = name.substring_char(0, i);
                    let tail = name.substring_char(i + 1, n);
                    match parse_date(a) {
                        Some(f) => Some((f, f, tail)),
                        None => None,
                    }
                },
                None => None,
            },
        };
        match found {
            Some((f, t, tail)) => match Self::from_date(f, t) {
                Some(interval) => Some((interval, tail)),
                None => None,
            },
            None => None,
        }
    }

    /// Reads an interval from the start of a directory name.
    pub fn try_from_name(name: &str) -> (r: Option<FilesInterval>)
        ensures
            match r {
                Some(i) => split_spec(name@) matches Some((j, _)) && i == j && i.wf(),
                None => split_spec(name@) is None,
            },
    {
        match Self::try_split(name) {
            Some((interval, _rest)) => Some(interval),
            None => None,
        }
    }

    /// Writes the interval of the days `from` to `to` in compact form, follows it with a space
    /// and `rest`, and reads an interval back from that name. For a start year from 0 to 9999
    /// this gives the interval again, where a single day's `rest` does not bring in the
    /// separator ` - `.
    pub fn read_back(from: Date, to: Date, rest: &str) -> (r: Option<FilesInterval>)
        requires
            from.wf(),
            to.wf(),
            from.key() <= to.key(),
        ensures
            ({
                let name = interval_text(FilesInterval::of_dates(from, to)) + seq![' '] + rest@;
                match r {
                    Some(i) => split_spec(name) matches Some((j, _)) && i == j,
                    None => split_spec(name) is None,
                }
            }),
            0 <= from.year <= 9999 && (from == to ==> split_once(seq![' '] + rest@, sep()) is None)
                ==> r == Some(FilesInterval::of_dates(from, to)),
    {
        let interval = FilesInterval {
            from: DateTime { date: from, hour: 0, minute: 0, second: 0 },
            to: DateTime { date: to, hour: 23, minute: 59, second: 59 },
        };
        let mut name = interval.to_string();
        push_char(&mut name, ' ');
        name.append(rest);
        let from_text = from.to_text();
        let from_read = parse_date(from_text.as_str());
        let to_text = to.to_text();
        let to_read = parse_date(to_text.as_str());
        let mut end = String::new();
        if from.year != to.year || from == to {
            push_date(&mut end, to);
        } else if from.month != to.month {
            push_padded(&mut end, to.month as u64, 2);
            push_char(&mut end, '-');
            push_padded(&mut end, to.day as u64, 2);
        } else {
            push_padded(&mut end, to.day as u64, 2);
        }
        assert(end@ =~= end_text(from, to));
        let end_read = parse_date(end.as_str());
        let mut with_year = String::new();
        push_std_padded(&mut with_year, from.year, 4);
        push_char(&mut with_year, '-');
        with_year.append(end.as_str());
        assert(with_year@ =~= std_padded(from.year as int, 4) + seq!['-'] + end_text(from, to));
        let with_year_read = parse_date(with_year.as_str());
        proof {
            assert(from_read == Some(from));
            assert(to_read == Some(to));
            assert(round_trip_readings(from, to));
            assert(name@ =~= interval_text(interval) + seq![' '] + rest@);
            if 0 <= from.year <= 9999 && (from == to ==> split_once(seq![' '] + rest@, sep())
                is None) {
                lemma_format_parse_round_trip(from, to, rest@);
            }
        }
        FilesInterval::try_from_name(name.as_str())
    }

    /// Length of the interval in seconds.
    pub fn delta(&self) -> (r: i64)
        requires
            self.wf(),
        ensures
            r == self.delta_spec(),
    {
        let days = days_from_ce(self.to.date) as i64 - days_from_ce(self.from.date) as i64;
        let to_secs = self.to.hour as i64 * 3600 + self.to.minute as i64 * 60 + self.to.second as i64;
        let from_secs = self.from.hour as i64 * 3600 + self.from.minute as i64 * 60
            + self.from.second as i64;
        days * 86400 + to_secs - from_secs
    }

    /// The number of whole days in the interval's length.
    pub fn num_days(&self) -> (r: i64)
        requires
            self.wf(),
        ensures
            r == self.num_days_spec(),
            r >= 0,
    {
        let d = self.delta();
        let a = if d < 0 { -d } else { d };
        a / 86400
    }

    /// The interval from the start of day `from` to the last second of day `to`; none where
    /// `from` comes after `to`.
    pub fn from_date(from: Date, to: Date) -> (r: Option<FilesInterval>)
        requires
            from.wf(),
            to.wf(),
        ensures
            r is Some <==> from.key() <= to.key(),
            r is Some ==> r->0 == FilesInterval::of_dates(from, to) && r->0.wf(),
    {
        let later = from.year > to.year || (from.year == to.year && (from.month > to.month || (
        from.month == to.month && from.day > to.day)));
        if later {
            None
        } else {
            Some(
                FilesInterval {
                    from: DateTime { date: from, hour: 0, minute: 0, second: 0 },
                    to: DateTime { date: to, hour: 23, minute: 59, second: 59 },
                },
            )
        }
    }

    /// The interval in its compact form: `2025-05-01`, `2025-05-01 - 2026-06-02`,
    /// `2025-05-01 - 06-02` or `2025-05-01 - 02`.
    pub fn to_string(&self) -> (r: String)
        ensures
            r@ == interval_text(*self),
    {
        let f = self.from.date;
        let t = self.to.date;
        let mut r = String::new();
        push_date(&mut r, f);
        if f == t {
            assert(r@ =~= interval_text(*self));
            return r;
        }
        r.append(" - ");
        proof {
            reveal_strlit(" - ");
        }
        if f.year != t.year {
            push_date(&mut r, t);
        } else if f.month != t.month {
            push_padded(&mut r, t.month as u64, 2);
            push_char(&mut r, '-');
            push_padded(&mut r, t.day as u64, 2);
        } else {
            push_padded(&mut r, t.day as u64, 2);
        }
        assert(r@ =~= interval_text(*self));
        r
    }
}

/// Appends `n` as `{:0w}` writes it.
fn push_std_padded(out: &mut String, n: i32, w: usize)
    requires
        w >= 1,
    ensures
        final(out)@ == old(out)@ + std_padded(n as int, w as nat),
{
    if n >= 0 {
        push_padded(out, n as u64, w);
    } else {
        push_char(out, '-');
        push_padded(out, (-(n as i64)) as u64, w - 1);
        assert(out@ =~= old(out)@ + std_padded(n as int, w as nat));
    }
}

/// The end date of a range from its three readings: as written in full, with the start's year
/// in front, and with the start's year and month in front; the first that gave a date.
pub fn end_date_of(full: Option<Date>, with_year: Option<Date>, with_month: Option<Date>) -> (r:
    Option<Date>)
    ensures
        r == (if full is Some {
            full
        } else if with_year is Some {
            with_year
        } else {
            with_month
        }),
        reading_of(r) == first_reading(reading_of(full), reading_of(with_year), reading_of(with_month)),
{
    match full {
        Some(d) => Some(d),
        None => match with_year {
            Some(d) => Some(d),
            None => with_month,
        },
    }
}

/// Reads the end date of a range that starts on `f`: in full, as `MM-DD` or as `DD`.
fn parse_end_date(f: Date, t: &str) -> (r: Option<Date>)
    requires
        f.wf(),
    ensures
        reading_of(r) == end_date_parsed(f, t@),
        r matches Some(d) ==> d.wf(),
{
    let full = parse_date(t);
    let mut with_year = String::new();
    push_std_padded(&mut with_year, f.year, 4);
    push_char(&mut with_year, '-');
    with_year.append(t);
    assert(with_year@ =~= std_padded(f.year as int, 4) + seq!['-'] + t@);
    let year_first = parse_date(with_year.as_str());
    let mut with_month = String::new();
    push_std_padded(&mut with_month, f.year, 4);
    push_char(&mut with_month, '-');
    push_padded(&mut with_month, f.month as u64, 2);
    push_char(&mut with_month, '-');
    with_month.append(t);
    assert(with_month@ =~= std_padded(f.year as int, 4) + seq!['-'] + two_digits(f.month as int)
        + seq!['-'] + t@);
    let month_first = parse_date(with_month.as_str());
    end_date_of(full, year_first, month_first)
}

} // verus!
