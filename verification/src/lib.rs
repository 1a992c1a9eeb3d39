//! A line-oriented text search engine: compile a pattern once into a
//! matcher, then scan the contents of one file or of a whole tree of files
//! for the lines it selects.
//!
//! The crate reads nothing from disk. Its callers read the files and hand
//! over the bytes, or the reason why a file could not be read; the crate
//! splits the bytes into lines, asks the matcher about each line of text
//! and reports the lines that the search selects, or their number.

pub mod engines;
pub mod error;
pub mod laws;
pub mod matcher;
pub mod parallel;
pub mod scan;
pub mod text;
pub mod walk;

pub use error::SearchError;
pub use matcher::{compile, Engine, MatcherType, MatcherWrapper};
pub use scan::{search_dir, search_file, MatchEntry, SearchOutput, SourceFile};
pub use walk::{regular_files, EntryKind, WalkEntry};
