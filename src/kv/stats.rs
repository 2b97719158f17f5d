use vstd::prelude::*;

verus! {

/// A snapshot of an engine's counters.
#[derive(Debug, Clone, Copy, PartialEq, Eq, Structural)]
pub struct DBStats {
    /// The number of live records.
    pub key_count: u64,
}

} // verus!
