use vstd::prelude::*;

verus! {

/// A fully resolved job description: which solver to run, where its fixtures live, and
/// how long each run may take.
pub struct Question {
    /// Display name of the job.
    pub title: String,
    /// Time limit of one solver run, in nanoseconds.
    pub time_limit_ns: u64,
    /// Path of the solver, relative to `root`.
    pub solver: String,
    /// Folders holding the inputs, relative to `root`.
    pub input_folders: Vec<String>,
    /// Folders holding the expected outputs, relative to `root`.
    pub output_folders: Vec<String>,
    /// Directory against which every other path is resolved.
    pub root: Option<String>,
    /// Extension (without the dot) of the input files.
    pub input_format: String,
    /// Extension (without the dot) of the expected-output files.
    pub output_format: String,
}

} // verus!
