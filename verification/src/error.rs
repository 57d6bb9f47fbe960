//! The error kinds that can stop a run.

use vstd::prelude::*;

verus! {

/// A fatal fault of the pipeline. Recoverable conditions (a container that
/// does not open, an image that does not probe) are absorbed where they
/// arise and never surface here.
#[derive(Clone, Copy, Debug, PartialEq, Eq, Structural)]
pub enum ArchiveError {
    /// A required directory is missing.
    NotFound,
    /// A post folder name does not parse as `<date>-<title>`.
    MalformedName,
    /// A read or write failed while expanding or materializing.
    IoFailure,
}

impl ArchiveError {
    /// A short human-readable name for the error, for the caller's messages.
    pub fn describe(&self) -> (r: &'static str)
        ensures
            self is NotFound ==> r@ == "not found"@,
            self is MalformedName ==> r@ == "malformed post folder name"@,
            self is IoFailure ==> r@ == "i/o failure"@,
    {
        match self {
            ArchiveError::NotFound => "not found",
            ArchiveError::MalformedName => "malformed post folder name",
            ArchiveError::IoFailure => "i/o failure",
        }
    }
}

} // verus!
