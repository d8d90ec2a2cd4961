//! Photo files and the orders in which they can be listed.

use crate::date::{Date, DateTime};
use crate::error::PhotoError;
use crate::path::{path_less, path_lt};
use chrono::{Datelike, Timelike};
use std::cmp::Ordering;
use vstd::prelude::*;

verus! {

/// A photo: where it lies and when it was taken.
#[derive(Debug, PartialEq, Eq)]
pub struct File {
    pub path: String,
    pub created: DateTime,
}

impl Clone for File {
    fn clone(&self) -> (r: Self)
        ensures
            r == *self,
    {
        File { path: self.path.clone(), created: self.created }
    }
}

/// What the calendar library reads from a date-time text in the given `strftime` format:
/// year, month, day, hour, minute and second.
pub uninterp spec fn date_time_parsed(s: Seq<char>, fmt: Seq<char>) -> Option<
    (int, int, int, int, int, int),
>;

/// Relies on chrono's `NaiveDateTime::parse_from_str`: a date-time it returns exists.
#[verifier::external_body]
fn parse_date_time(s: &str, fmt: &str) -> (r: Option<DateTime>)
    ensures
        match r {
            Some(t) => t.wf() && date_time_parsed(s@, fmt@) == Some(
                (
                    t.date.year as int,
                    t.date.month as int,
                    t.date.day as int,
                    t.hour as int,
                    t.minute as int,
                    t.second as int,
                ),
            ),
            None => date_time_parsed(s@, fmt@) is None,
        },
{
    chrono::NaiveDateTime::parse_from_str(s, fmt).ok().map(
        |t| DateTime {
            date: Date { year: t.year(), month: t.month(), day: t.day() },
            hour: t.hour(),
            minute: t.minute(),
            second: t.second(),
        },
    )
}

pub open spec fn date_time_of(x: (int, int, int, int, int, int)) -> DateTime {
    DateTime {
        date: Date { year: x.0 as i32, month: x.1 as u32, day: x.2 as u32 },
        hour: x.3 as u32,
        minute: x.4 as u32,
        second: x.5 as u32,
    }
}

impl File {
    pub open spec fn wf(self) -> bool {
        self.created.wf()
    }

    /// Reads a creation date as photo metadata writes it: `2025-05-01 14:30:25`, or
    /// `2025:05:01 14:30:25`.
    pub fn parse_created(text: &str) -> (r: Result<DateTime, PhotoError>)
        ensures
            match date_time_parsed(text@, "%Y-%m-%d %H:%M:%S"@) {
                Some(x) => r == Ok::<DateTime, PhotoError>(date_time_of(x)),
                None => match date_time_parsed(text@, "%Y:%m:%d %H:%M:%S"@) {
                    Some(x) => r == Ok::<DateTime, PhotoError>(date_time_of(x)),
                    None => r matches Err(PhotoError::UnreadableDate { text: t }) && t@ == text@,
                },
            },
            r matches Ok(t) ==> t.wf(),
    {
        if let Some(t) = parse_date_time(text, "%Y-%m-%d %H:%M:%S") {
            return Ok(t);
        }
        if let Some(t) = parse_date_time(text, "%Y:%m:%d %H:%M:%S") {
            return Ok(t);
        }
        Err(PhotoError::UnreadableDate { text: text.to_string() })
    }
}

/// An order in which files can be listed.
pub trait FileOrder {
    /// `a` comes strictly before `b`.
    spec fn before(a: File, b: File) -> bool;

    fn is_before(a: &File, b: &File) -> (r: bool)
        requires
            a.wf(),
            b.wf(),
        ensures
            r == Self::before(*a, *b),
            r ==> !Self::before(*b, *a),
    ;
}

/// Orders files by their paths, component by component, as the standard library orders paths.
pub struct ByPath<T>(pub T);

/// Orders files by their creation dates.
pub struct ByCreatedDate<T>(pub T);

impl<'a> ByPath<&'a File> {
    /// Compares the paths of the two files.
    pub fn cmp(&self, other: &Self) -> (r: Ordering)
        ensures
            r == (if path_lt(self.0.path@, other.0.path@) {
                Ordering::Less
            } else if path_lt(other.0.path@, self.0.path@) {
                Ordering::Greater
            } else {
                Ordering::Equal
            }),
    {
        if path_less(self.0.path.as_str(), other.0.path.as_str()) {
            Ordering::Less
        } else if path_less(other.0.path.as_str(), self.0.path.as_str()) {
            Ordering::Greater
        } else {
            Ordering::Equal
        }
    }

    /// The one of the two whose path comes first; `self` where neither does.
    pub fn min(self, other: Self) -> (r: Self)
        ensures
            r.0 == (if path_lt(other.0.path@, self.0.path@) {
                other.0
            } else {
                self.0
            }),
    {
        if path_less(other.0.path.as_str(), self.0.path.as_str()) {
            other
        } else {
            self
        }
    }
}

impl<'a> ByPath<&'a mut File> {
    /// Compares the paths of the two files.
    pub fn cmp(&self, other: &Self) -> (r: Ordering)
        ensures
            r == (if path_lt(old(self.0).path@, old(other.0).path@) {
                Ordering::Less
            } else if path_lt(old(other.0).path@, old(self.0).path@) {
                Ordering::Greater
            } else {
                Ordering::Equal
            }),
    {
        if path_less(self.0.path.as_str(), other.0.path.as_str()) {
            Ordering::Less
        } else if path_less(other.0.path.as_str(), self.0.path.as_str()) {
            Ordering::Greater
        } else {
            Ordering::Equal
        }
    }

    /// The one of the two whose path comes first; `self` where neither does.
    pub fn min(self, other: Self) -> (r: Self)
        ensures
            r.0 == (if path_lt(old(other.0).path@, old(self.0).path@) {
                other.0
            } else {
                self.0
            }),
    {
        if path_less(other.0.path.as_str(), self.0.path.as_str()) {
            other
        } else {
            self
        }
    }
}

impl<T> FileOrder for ByPath<T> {
    open spec fn before(a: File, b: File) -> bool {
        path_lt(a.path@, b.path@)
    }

    fn is_before(a: &File, b: &File) -> (r: bool) {
        path_less(a.path.as_str(), b.path.as_str())
    }
}

impl<'a> ByCreatedDate<&'a File> {
    /// Compares the creation dates of the two files.
    pub fn cmp(&self, other: &Self) -> (r: Ordering)
        requires
            self.0.wf(),
            other.0.wf(),
        ensures
            r == (if self.0.created.key() < other.0.created.key() {
                Ordering::Less
            } else if other.0.created.key() < self.0.created.key() {
                Ordering::Greater
            } else {
                Ordering::Equal
            }),
    {
        let a = self.0.created.order_key();
        let b = other.0.created.order_key();
        if a < b {
            Ordering::Less
        } else if b < a {
            Ordering::Greater
        } else {
            Ordering::Equal
        }
    }

    /// The one of the two created first; `self` where neither was.
    pub fn min(self, other: Self) -> (r: Self)
        requires
            self.0.wf(),
            other.0.wf(),
        ensures
            r.0 == (if other.0.created.key() < self.0.created.key() {
                other.0
            } else {
                self.0
            }),
    {
        if other.0.created.order_key() < self.0.created.order_key() {
            other
        } else {
            self
        }
    }
}

impl<'a> ByCreatedDate<&'a mut File> {
    /// Compares the creation dates of the two files.
    pub fn cmp(&self, other: &Self) -> (r: Ordering)
        requires
            old(self.0).wf(),
            old(other.0).wf(),
        ensures
            r == (if old(self.0).created.key() < old(other.0).created.key() {
                Ordering::Less
            } else if old(other.0).created.key() < old(self.0).created.key() {
                Ordering::Greater
            } else {
                Ordering::Equal
            }),
    {
        let a = self.0.created.order_key();
        let b = other.0.created.order_key();
        if a < b {
            Ordering::Less
        } else if b < a {
            Ordering::Greater
        } else {
            Ordering::Equal
        }
    }

    /// The one of the two created first; `self` where neither was.
    pub fn min(self, other: Self) -> (r: Self)
        requires
            old(self.0).wf(),
            old(other.0).wf(),
        ensures
            r.0 == (if old(other.0).created.key() < old(self.0).created.key() {
                other.0
            } else {
                self.0
            }),
    {
        if other.0.created.order_key() < self.0.created.order_key() {
            other
        } else {
            self
        }
    }
}

impl<T> FileOrder for ByCreatedDate<T> {
    open spec fn before(a: File, b: File) -> bool {
        a.created.key() < b.created.key()
    }

    fn is_before(a: &File, b: &File) -> (r: bool) {
        a.created.order_key() < b.created.order_key()
    }
}

} // verus!
