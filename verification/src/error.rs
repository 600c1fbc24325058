//! What can keep a report from being made.

use vstd::prelude::*;

verus! {

/// Which of the two bounds of a requested window a finding is about.
#[derive(Clone, Copy, Debug, PartialEq, Eq)]
pub enum DateField {
    Start,
    End,
}

/// Why no report was made.
#[derive(Debug, PartialEq, Eq)]
pub enum ReportError {
    /// A bound of the window is no RFC 3339 timestamp; `cause` is the
    /// parser's own finding.
    InvalidDate { field: DateField, cause: chrono::ParseError },
    /// The window ends before it starts.
    InvalidRange,
    /// Storage failed a read; the text is the failure as storage reported it.
    StorageUnavailable(String),
}

/// Turns the outcome of one storage read into the outcome of the report step
/// that needed it: what was read is passed on, and a failure becomes
/// `StorageUnavailable` with the failure's own text.
pub fn reading<T>(outcome: Result<T, String>) -> (r: Result<T, ReportError>)
    ensures
        match outcome {
            Ok(rows) => r == Ok::<T, ReportError>(rows),
            Err(text) => r == Err::<T, ReportError>(ReportError::StorageUnavailable(text)),
        },
{
    match outcome {
        Ok(rows) => Ok(rows),
        Err(text) => Err(ReportError::StorageUnavailable(text)),
    }
}

} // verus!
