use vstd::prelude::*;

verus! {

/// Per-call settings for reads. No option is recognised yet; an absent
/// value means the default behaviour.
#[derive(Debug, Clone, Copy, Default)]
pub struct ReadOptions {}

/// Per-call settings for writes. No option is recognised yet; an absent
/// value means the default behaviour.
#[derive(Debug, Clone, Copy, Default)]
pub struct WriteOptions {}

} // verus!
