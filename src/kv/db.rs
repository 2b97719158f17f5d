//! The storage contract that every backend implements.
use vstd::prelude::*;
use crate::kv::error::DBError;
use crate::kv::model::{bytes_result, footprint, get_outcome, has_outcome, lifecycle_outcome, put_fits};
use crate::kv::options::{ReadOptions, WriteOptions};
use crate::kv::stats::DBStats;

verus! {

/// A key-value store with point operations, counters and an open/closed
/// lifecycle. Each store is seen as a finite map of records and a flag that,
/// once set by `close`, stays set.
pub trait DB: Send + Sync {
    /// The records the store holds.
    spec fn records(&self) -> Map<Seq<u8>, Seq<u8>>;

    /// Whether the store has been closed.
    spec fn closed_state(&self) -> bool;

    /// The store's internal consistency.
    spec fn wf(&self) -> bool;

    /// Reads the value of `key`: `NotFound` where no record has it, `Closed`
    /// once the store is closed.
    fn get(&self, key: &[u8], opts: Option<&ReadOptions>) -> (r: Result<Vec<u8>, DBError>)
        requires
            self.wf(),
        ensures
            bytes_result(r) == get_outcome(self.records(), self.closed_state(), key@),
    ;

    /// Inserts or overwrites the record of `key`; `Closed` once the store is
    /// closed, and then nothing changes.
    fn put(&mut self, key: &[u8], value: &[u8], opts: Option<&WriteOptions>) -> (r: Result<(), DBError>)
        requires
            old(self).wf(),
            !old(self).closed_state() ==> put_fits(old(self).records(), key@, value@),
        ensures
            final(self).wf(),
            r == lifecycle_outcome(old(self).closed_state()),
            final(self).closed_state() == old(self).closed_state(),
            final(self).records() == if old(self).closed_state() {
                old(self).records()
            } else {
                old(self).records().insert(key@, value@)
            },
    ;

    /// Removes the record of `key` if there is one; an absent key is no
    /// error. `Closed` once the store is closed, and then nothing changes.
    fn delete(&mut self, key: &[u8], opts: Option<&WriteOptions>) -> (r: Result<(), DBError>)
        requires
            old(self).wf(),
        ensures
            final(self).wf(),
            r == lifecycle_outcome(old(self).closed_state()),
            final(self).closed_state() == old(self).closed_state(),
            final(self).records() == if old(self).closed_state() {
                old(self).records()
            } else {
                old(self).records().remove(key@)
            },
    ;

    /// Whether a record has `key`; `Closed` once the store is closed.
    fn has(&self, key: &[u8], opts: Option<&ReadOptions>) -> (r: Result<bool, DBError>)
        requires
            self.wf(),
        ensures
            r == has_outcome(self.records(), self.closed_state(), key@),
    ;

    /// The store's counters, open or closed.
    fn stats(&self) -> (r: DBStats)
        requires
            self.wf(),
        ensures
            r.key_count == self.records().dom().len(),
    ;

    /// The total number of key and value bytes over all records.
    fn size(&self) -> (r: i64)
        requires
            self.wf(),
        ensures
            r == footprint(self.records()),
    ;

    /// Closes the store; closing it again is no error. The records stay.
    fn close(&mut self) -> (r: Result<(), DBError>)
        requires
            old(self).wf(),
        ensures
            final(self).wf(),
            r == Ok::<(), DBError>(()),
            final(self).closed_state(),
            final(self).records() == old(self).records(),
    ;

    /// Whether the store has been closed.
    fn is_closed(&self) -> (r: bool)
        ensures
            r == self.closed_state(),
    ;

    /// Succeeds exactly while the store is open.
    fn ping(&self) -> (r: Result<(), DBError>)
        ensures
            r == lifecycle_outcome(self.closed_state()),
    ;
}

} // verus!
