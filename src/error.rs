use vstd::prelude::*;

verus! {

/// Failures that stop a run before any candidate is tried.
#[derive(Clone, Copy, Debug, PartialEq, Eq, Structural)]
pub enum SetupError {
    /// The wordlist holds no candidate.
    EmptyWordlist,
    /// The archive holds no member that is not a directory.
    EmptyArchive,
    /// No non-directory member carries the requested name.
    MemberNotFound,
    /// The worker pool size is zero.
    InvalidConcurrency,
}

impl SetupError {
    /// A short human-readable description of the error.
    pub fn message(&self) -> (r: String) {
        match self {
            SetupError::EmptyWordlist => String::from_str("wordlist is empty"),
            SetupError::EmptyArchive => String::from_str("archive contains no files to test"),
            SetupError::MemberNotFound => String::from_str("target file not found in archive"),
            SetupError::InvalidConcurrency => String::from_str("worker count must be at least 1"),
        }
    }
}

} // verus!
