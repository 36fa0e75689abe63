use vstd::prelude::*;

verus! {

/// A failed scan.
///
/// Only hard failures are represented here: cancellation of the underlying
/// execution is absorbed as a soft stop and never surfaces as an error, and
/// an abnormal worker fault propagates as a panic rather than as a value.
#[derive(Debug)]
pub enum ScanError {
    /// The metadata subdirectory exists but could not be enumerated
    /// (permissions, transient I/O). A missing subdirectory is not an
    /// error.
    Listing { cause: String },
    /// One entry's content could not be decoded into a record. `path`
    /// identifies the offending entry.
    Parse { path: String, cause: String },
}

impl ScanError {
    /// A human-readable description of the failure.
    pub fn describe(&self) -> (r: String)
        ensures
            self is Listing ==> r@ == self->Listing_cause@,
            self is Parse ==> r@ == self->Parse_cause@,
    {
        match self {
            ScanError::Listing { cause } => cause.clone(),
            ScanError::Parse { path: _, cause } => cause.clone(),
        }
    }
}

} // verus!
