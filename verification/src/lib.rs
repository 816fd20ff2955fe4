//! Sorting pictures and videos into folders by the year and month of their
//! creation.
//!
//! The library decides; the shell around it reads and writes. `get_files`
//! picks the media files out of a directory listing, `get_file_metadata` makes
//! a date of a creation time and the offset of the local clock, and
//! `PycSort::sort_files` runs a sort step by step: each call takes what the
//! shell found or did and answers with what to do next. The module `disk`
//! follows a sort through the files that it leaves.

pub mod date;
pub mod disk;
pub mod engine;
pub mod model;
pub mod place;
pub mod scan;
pub mod style;
pub mod text;

pub use date::{get_file_metadata, Timestamp};
pub use engine::{PycSort, SortAction};
pub use model::{Phase, SortError, SortEvent};
pub use scan::{get_files, is_media_path, scan_patterns, select_media, ScanError};
pub use style::{Button, ButtonStyle, Tint};
