use vstd::prelude::*;

verus! {

/// The output format of the report.
#[derive(Clone, Debug)]
pub enum Format {
    Console,
    Json,
}

/// The configuration taken from the command line.
#[derive(Debug)]
pub struct Config {
    /// The path of the log file to process.
    pub file_path: String,
    /// The number of top endpoints to display.
    pub top: usize,
    /// The output format.
    pub format: Format,
    /// Only show error statistics.
    pub errors_only: bool,
    /// Process the file with asynchronous tasks rather than threads (`--async`).
    pub async_mode: bool,
}

} // verus!
