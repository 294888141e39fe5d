//! Renumbering of the files of one directory into a sequentially named set.
//!
//! A run resolves its arguments to [`options::Options`], takes the listing
//! of the directory as a sequence of [`discover::Entry`], selects and sorts
//! the candidates, and plans for each of them the path it shall have:
//! directory, prefix, a number padded with zeros, suffix.  The number is the
//! candidate's position among the sorted candidates, unless the match
//! pattern captures a number in the candidate's path.  The library reads no
//! directory and touches no file: it hands out the plan, the lines that
//! report it, and the operation that each planned rename asks of the file
//! system.

pub mod discover;
pub mod error;
pub mod laws;
pub mod number;
pub mod options;
pub mod path;
pub mod pattern;
pub mod plan;
pub mod sort;
pub mod text;
