//! The run configuration and the saved date of the last run.
use vstd::prelude::*;

verus! {

/// What a run does: convert the clippings file, or compile the edited
/// intermediate file.
#[derive(Debug, Clone, PartialEq, Eq)]
pub enum Config {
    Regular { clippings_path: String, output_file_name: String, date_after: Option<i64> },
    Validate { output_file_name: String },
}

/// The instant of the most recent run, seconds since the Unix epoch, UTC.
#[derive(Debug, Clone, Copy, PartialEq, Eq)]
pub struct LastDate {
    pub date: i64,
}

} // verus!
