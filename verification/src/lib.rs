//! Lines of gzip-compressed text.
//!
//! The crate decodes the members of a gzip file that is held in memory,
//! splits the decoded bytes into lines, checks each line for UTF-8 and hands
//! the lines out one by one, or all at once as the bytes to print. A line
//! that cannot be had is reported with its ordinal and the name of the file.

pub mod echo;
pub mod gzip;
pub mod line_laws;
pub mod reader;
pub mod report;
pub mod run_laws;
pub mod text;
