//! The errors that the coverage pipeline can surface. Every failure is fatal:
//! there is no partial-result mode.
use vstd::prelude::*;

verus! {

/// Why a run could not produce a report.
#[derive(Debug)]
pub enum CoverageError {
    /// A line of the ignore file is not a valid gitignore glob.
    InvalidIgnoreFile,
    /// No artifact produced any coverage: there was nothing to merge.
    NothingToMerge,
    /// The backend compiler rejected an artifact's program body.
    BackendCompilationFailed,
}

impl CoverageError {
    /// A human-readable description of the failure.
    pub fn message(&self) -> (r: String)
        ensures
            r@ == self.spec_message(),
    {
        proof {
            reveal_strlit("failed to parse the coverage ignore file");
            reveal_strlit("at least one trace file must be provided");
            reveal_strlit("failed to compile program to casm");
        }
        match self {
            CoverageError::InvalidIgnoreFile => String::from_str(
                "failed to parse the coverage ignore file",
            ),
            CoverageError::NothingToMerge => String::from_str(
                "at least one trace file must be provided",
            ),
            CoverageError::BackendCompilationFailed => String::from_str(
                "failed to compile program to casm",
            ),
        }
    }

    /// The description as a character sequence.
    pub open spec fn spec_message(&self) -> Seq<char> {
        match self {
            CoverageError::InvalidIgnoreFile => "failed to parse the coverage ignore file"@,
            CoverageError::NothingToMerge => "at least one trace file must be provided"@,
            CoverageError::BackendCompilationFailed => "failed to compile program to casm"@,
        }
    }
}

} // verus!
