//! Grading of a solver program against a set of input and expected-output fixtures.
//!
//! `text` holds the normalization in which texts are compared, `batch` the fixture set and
//! the decision on each run, `results` the summary of a batch, and `question` the job
//! description that drives it.
pub mod batch;
pub mod question;
pub mod results;
pub mod text;
