use vstd::prelude::*;

verus! {

/// The closed set of failures that every backend reports.
#[derive(Debug, Clone, Copy, PartialEq, Eq, Structural)]
pub enum DBError {
    /// The requested key has no record.
    NotFound,
    /// The engine has been closed.
    Closed,
    /// The backend cannot perform the requested operation.
    NotSupported,
}

} // verus!
