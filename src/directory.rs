//! Reconciling a directory's name with the days on which its photos were taken.

use crate::error::PhotoError;
use crate::files::{interval_of, Files};
use crate::files_interval::{interval_text, split_spec, FilesInterval};
use crate::path::{file_name_of, path_file_name, path_with_file_name, with_file_name};
use crate::text::push_char;
use vstd::prelude::*;
use vstd::string::StringExecFns;

verus! {

/// How a directory's name relates to the days on which its photos were taken.
#[derive(Debug, PartialEq, Eq, Clone, Copy, Structural)]
pub enum NameStatus {
    /// The name gives exactly the days of the photos.
    Valid,
    /// The name gives days, but not those of the photos.
    Invalid,
    /// The name gives days that take in those of the photos and more.
    SuperSet,
    /// The name gives no days.
    NoDate,
}

/// The status of a name that gives the interval `parsed`, or none, against the interval
/// that the photos actually span.
pub open spec fn classify_spec(parsed: Option<FilesInterval>, actual: FilesInterval) -> NameStatus {
    match parsed {
        None => NameStatus::NoDate,
        Some(p) => if p.from.date == actual.from.date && p.to.date == actual.to.date {
            NameStatus::Valid
        } else if p.from.key() <= actual.from.key() && p.to.key() >= actual.to.key() {
            NameStatus::SuperSet
        } else {
            NameStatus::Invalid
        },
    }
}

/// The status of a name against the interval that the photos actually span.
pub open spec fn status_of(actual: FilesInterval, name: Seq<char>) -> NameStatus {
    match split_spec(name) {
        None => classify_spec(None, actual),
        Some((p, _)) => classify_spec(Some(p), actual),
    }
}

impl NameStatus {
    /// The status of a name that gives the interval `parsed`, or none, against the interval
    /// that the photos actually span: the same days first, then days that take them in.
    pub fn classify(parsed: Option<FilesInterval>, actual: &FilesInterval) -> (r: NameStatus)
        requires
            parsed matches Some(p) ==> p.wf(),
            actual.wf(),
        ensures
            r == classify_spec(parsed, *actual),
    {
        match parsed {
            None => NameStatus::NoDate,
            Some(p) => {
                if p.from.date == actual.from.date && p.to.date == actual.to.date {
                    NameStatus::Valid
                } else if p.from.order_key() <= actual.from.order_key()
                    && p.to.order_key() >= actual.to.order_key() {
                    NameStatus::SuperSet
                } else {
                    NameStatus::Invalid
                }
            },
        }
    }
}

/// A name whose interval is exactly the interval of the photos is valid, and not a superset,
/// although it also contains that interval.
pub proof fn lemma_exact_name_is_valid(actual: FilesInterval, name: Seq<char>)
    requires
        split_spec(name) matches Some((p, _)) && p == actual,
    ensures
        status_of(actual, name) == NameStatus::Valid,
{
}

/// The path proposed for a directory: unchanged where its name is valid or wider than the
/// photos, otherwise the name with the interval of the photos written in front.
pub open spec fn proposed_path(
    directory: Seq<char>,
    name: Seq<char>,
    actual: FilesInterval,
    status: NameStatus,
) -> Seq<char> {
    match status {
        NameStatus::Valid | NameStatus::SuperSet => directory,
        _ => path_with_file_name(directory, interval_text(actual) + seq![' '] + name),
    }
}

/// A directory of photos.
pub struct Directory {
    /// The path of the directory.
    pub directory: String,
    /// The photos found in the directory and below it.
    pub files: Files,
}

impl Directory {
    pub open spec fn wf(self) -> bool {
        self.files.wf()
    }

    pub fn new(directory: String, files: Files) -> (r: Directory)
        ensures
            r.directory == directory,
            r.files == files,
    {
        Directory { directory, files }
    }

    /// The final component of the directory's path.
    pub fn name(&self) -> (r: Result<String, PhotoError>)
        ensures
            match path_file_name(self.directory@) {
                Some(n) => r matches Ok(s) && s@ == n,
                None => r == Err::<String, PhotoError>(PhotoError::NoDirectoryName),
            },
    {
        match file_name_of(self.directory.as_str()) {
            Some(n) => Ok(n),
            None => Err(PhotoError::NoDirectoryName),
        }
    }

    /// The interval spanned by the photos' creation dates.
    fn interval(&self) -> (r: Result<FilesInterval, PhotoError>)
        requires
            self.wf(),
        ensures
            match interval_of(self.files.0@) {
                Some(i) => r == Ok::<FilesInterval, PhotoError>(i) && i.wf(),
                None => r == Err::<FilesInterval, PhotoError>(PhotoError::NoInterval),
            },
    {
        match self.files.interval() {
            Some(i) => Ok(i),
            None => Err(PhotoError::NoInterval),
        }
    }

    /// The status of `name` against the interval that the photos actually span.
    pub fn get_status(interval: &FilesInterval, name: &str) -> (r: NameStatus)
        requires
            interval.wf(),
        ensures
            r == status_of(*interval, name@),
    {
        NameStatus::classify(FilesInterval::try_from_name(name), interval)
    }

    /// The status of the directory's name against its photos.
    pub fn name_status(&self) -> (r: Result<NameStatus, PhotoError>)
        requires
            self.wf(),
        ensures
            match interval_of(self.files.0@) {
                None => r == Err::<NameStatus, PhotoError>(PhotoError::NoInterval),
                Some(i) => match path_file_name(self.directory@) {
                    None => r == Err::<NameStatus, PhotoError>(PhotoError::NoDirectoryName),
                    Some(n) => r == Ok::<NameStatus, PhotoError>(status_of(i, n)),
                },
            },
    {
        let interval = self.interval()?;
        let name = self.name()?;
        Ok(Self::get_status(&interval, name.as_str()))
    }

    /// Proposes a path for the directory whose name gives the days of its photos, and tells
    /// the status of the present name. Fails where the photos span more than `max_interval`
    /// days: such a directory likely holds stray photos.
    pub fn rename(&self, max_interval: u32) -> (r: Result<(NameStatus, String), PhotoError>)
        requires
            self.wf(),
        ensures
            match interval_of(self.files.0@) {
                None => r == Err::<(NameStatus, String), PhotoError>(PhotoError::NoInterval),
                Some(i) => if i.num_days_spec() > max_interval {
                    r == Err::<(NameStatus, String), PhotoError>(
                        PhotoError::IntervalTooLong {
                            from: i.from,
                            to: i.to,
                            days: i.num_days_spec() as i64,
                        },
                    )
                } else {
                    match path_file_name(self.directory@) {
                        None => r == Err::<(NameStatus, String), PhotoError>(
                            PhotoError::NoDirectoryName,
                        ),
                        Some(n) => r matches Ok((status, path)) && status == status_of(i, n)
                            && path@ == proposed_path(self.directory@, n, i, status),
                    }
                },
            },
    {
        let interval = match self.interval() {
            Ok(i) => i,
            Err(e) => return Err(e),
        };
        let days = interval.num_days();
        if days > max_interval as i64 {
            return Err(
                PhotoError::IntervalTooLong { from: interval.from, to: interval.to, days },
            );
        }
        let old_name = match self.name() {
            Ok(n) => n,
            Err(e) => return Err(e),
        };
        let status = Self::get_status(&interval, old_name.as_str());
        let path = match status {
            NameStatus::Valid | NameStatus::SuperSet => self.directory.clone(),
            NameStatus::Invalid | NameStatus::NoDate => {
                let mut new_name = interval.to_string();
                push_char(&mut new_name, ' ');
                new_name.append(old_name.as_str());
                assert(new_name@ =~= interval_text(interval) + seq![' '] + old_name@);
                with_file_name(self.directory.as_str(), new_name.as_str())
            },
        };
        proof {
            if status == NameStatus::Invalid || status == NameStatus::NoDate {
                assert(path@ == proposed_path(self.directory@, old_name@, interval, status));
            }
        }
        Ok((status, path))
    }

    /// The photos of the directory.
    pub fn get_files(&self) -> (r: &Files)
        ensures
            *r == self.files,
    {
        &self.files
    }
}

} // verus!
