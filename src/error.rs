//! Errors of the library.

use crate::date::DateTime;
use vstd::prelude::*;

verus! {

/// Why an operation on a photo collection failed.
#[derive(Debug, PartialEq, Eq)]
pub enum PhotoError {
    /// No file carries a creation date, so the files span no interval.
    NoInterval,
    /// The directory's path has no final component to take a name from.
    NoDirectoryName,
    /// The files span more days than allowed.
    IntervalTooLong { from: DateTime, to: DateTime, days: i64 },
    /// A creation date is present but cannot be read.
    UnreadableDate { text: String },
}

} // verus!
