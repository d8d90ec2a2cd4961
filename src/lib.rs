//! Names directories of photos after the days on which the photos were taken: reads a date
//! range from a directory's name, computes the range that the photos' creation dates span,
//! tells how the two relate, and proposes new names and places for directories and files.

pub mod date;
pub mod directory;
pub mod error;
pub mod file;
pub mod files;
pub mod files_interval;
pub mod path;
pub mod text;

pub use date::{Date, DateTime};
pub use directory::{Directory, NameStatus};
pub use error::PhotoError;
pub use file::{ByCreatedDate, ByPath, File, FileOrder};
pub use files::{Files, RenamedFile};
pub use files_interval::FilesInterval;
