//! The error taxonomy of the workflow. None of these errors is
//! recovered locally: each one aborts the remaining steps and is
//! surfaced to the operator with enough context (step, location, key)
//! to diagnose the failure.

use vstd::prelude::*;

verus! {

/// Every failure the orchestration core can report.
#[derive(Debug)]
pub enum WorkflowError {
    /// A required configuration value is absent or empty; `key` names it.
    ConfigMissing { key: String },
    /// A table already exists at `location` and the save mode forbids
    /// touching it.
    TableAlreadyExists { location: String },
    /// No committed table generation exists at `location`.
    TableNotFound { location: String },
    /// The external dataset at `path` could not be loaded.
    SourceLoadFailed { path: String, cause: String },
    /// A merge computed against `expected_generation` found
    /// `actual_generation` current at commit time and was rejected.
    ConcurrentModification {
        location: String,
        expected_generation: u64,
        actual_generation: u64,
    },
    /// The source batch holds two rows with the same merge key, so the
    /// merge cannot decide which one to apply.
    AmbiguousMatch { key: String },
    /// The merge request itself is malformed (for example, its join
    /// predicate is not the supported key equality).
    MergeExecutionFailed { cause: String },
}

} // verus!
