//! A platform-agnostic model of textual paths.
//!
//! A raw path string is tokenized into a sequence of [`Segment`]s
//! (separators, literal names, `.` and `..`), and [`Path`] offers a small
//! algebra over that sequence: normalization (`dedot`), concatenation
//! (`append`), relativization (`relative_to`, `relative_from`), component
//! `push`/`pop`, extension extraction, and rendering back to text with the
//! canonical `/` separator or the host's native one.
//!
//! Nothing here touches the filesystem: a `Path` is an ordinary value, and
//! every operation is specified over the mathematical segment sequence.

mod error;
mod file_name_token;
mod path;
mod segment;
mod token;

pub use error::PathError;
pub use file_name_token::{FileNameSegView, FileNameSegment, FileNameToken};
pub use path::Path;
pub use segment::{SegView, Segment};
pub use token::Token;
