//! Error taxonomy for the selective-ignore core.

use vstd::prelude::*;

verus! {

/// The kinds of failure the core distinguishes.
///
/// `ValidationError` reports a malformed pattern specification.
/// `IoError` reports a failed read or write of content handed to the core
/// by its callers. `IntegrityMismatch` reports a restore refused because
/// the working-tree content no longer hashes to the recorded cleaned hash.
/// `VerificationViolation` reports ignored content found where none is
/// allowed; it carries one message per violating file and pattern.
#[derive(Debug)]
pub enum IgnoreError {
    ValidationError(String),
    IoError(String),
    IntegrityMismatch(String),
    VerificationViolation(Vec<String>),
}

impl IgnoreError {
    /// A short label for the error kind, for callers that print reports.
    pub fn kind_name(&self) -> (r: &'static str)
        ensures
            r@ == match self {
                IgnoreError::ValidationError(_) => "validation error"@,
                IgnoreError::IoError(_) => "io error"@,
                IgnoreError::IntegrityMismatch(_) => "integrity mismatch"@,
                IgnoreError::VerificationViolation(_) => "verification violation"@,
            },
    {
        match self {
            IgnoreError::ValidationError(_) => "validation error",
            IgnoreError::IoError(_) => "io error",
            IgnoreError::IntegrityMismatch(_) => "integrity mismatch",
            IgnoreError::VerificationViolation(_) => "verification violation",
        }
    }
}

} // verus!
