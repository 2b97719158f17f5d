//! The mathematical model of a store: its records as a map from key bytes to
//! value bytes, the outcome of each operation on that map, and the laws that
//! relate the operations.
use vstd::prelude::*;
use crate::kv::error::DBError;

verus! {

/// The records of a store: each key is associated with exactly one value.
pub type Records = Map<Seq<u8>, Seq<u8>>;

/// What a read of `key` answers on a store holding `records`.
pub open spec fn get_outcome(records: Records, closed: bool, key: Seq<u8>) -> Result<Seq<u8>, DBError> {
    if closed {
        Err(DBError::Closed)
    } else if records.contains_key(key) {
        Ok(records[key])
    } else {
        Err(DBError::NotFound)
    }
}

/// What an existence check of `key` answers on a store holding `records`.
pub open spec fn has_outcome(records: Records, closed: bool, key: Seq<u8>) -> Result<bool, DBError> {
    if closed {
        Err(DBError::Closed)
    } else {
        Ok(records.contains_key(key))
    }
}

/// What an operation that only needs the store to be open answers.
pub open spec fn lifecycle_outcome(closed: bool) -> Result<(), DBError> {
    if closed {
        Err(DBError::Closed)
    } else {
        Ok(())
    }
}

/// A read result seen as bytes.
pub open spec fn bytes_result(r: Result<Vec<u8>, DBError>) -> Result<Seq<u8>, DBError> {
    match r {
        Ok(v) => Ok(v@),
        Err(e) => Err(e),
    }
}

/// The bytes that one record occupies.
pub open spec fn record_bytes(key: Seq<u8>, value: Seq<u8>) -> int {
    (key.len() + value.len()) as int
}

/// The total number of key and value bytes over all records.
pub open spec fn footprint(records: Records) -> int
    decreases records.dom().len(),
    via footprint_decreases
{
    if records.dom().finite() && records.dom().len() > 0 {
        let k = records.dom().choose();
        record_bytes(k, records[k]) + footprint(records.remove(k))
    } else {
        0
    }
}

#[via_fn]
proof fn footprint_decreases(records: Records) {
    if records.dom().finite() && records.dom().len() > 0 {
        lemma_nonempty_has_member(records);
        let k = records.dom().choose();
        assert(records.remove(k).dom() =~= records.dom().remove(k));
    }
}

proof fn lemma_nonempty_has_member(records: Records)
    requires
        records.dom().finite(),
        records.dom().len() > 0,
    ensures
        records.contains_key(records.dom().choose()),
{
    if !records.contains_key(records.dom().choose()) {
        assert(records.dom() =~= Set::empty());
    }
}

/// Whether `lengths` lists, once each and in some order, the key and value
/// lengths of every record, with `keys` giving the key of each entry.
pub open spec fn lengths_listed(records: Records, keys: Seq<Seq<u8>>, lengths: Seq<(usize, usize)>) -> bool {
    &&& keys.no_duplicates()
    &&& keys.len() == lengths.len()
    &&& keys.len() == records.dom().len()
    &&& forall|i: int|
        0 <= i < keys.len() ==> {
            &&& #[trigger] records.contains_key(keys[i])
            &&& lengths[i].0 == keys[i].len()
            &&& lengths[i].1 == records[keys[i]].len()
        }
}

/// Whether a put of `key` and `value` keeps a store's counters in range: the
/// record count fits in a `u64` and the footprint in an `i64`.
pub open spec fn put_fits(records: Records, key: Seq<u8>, value: Seq<u8>) -> bool {
    &&& records.insert(key, value).dom().len() <= u64::MAX
    &&& footprint(records.insert(key, value)) <= i64::MAX
}

/// The footprint of a store is the bytes of any one record plus the footprint
/// of the others.
pub proof fn lemma_footprint_remove(records: Records, key: Seq<u8>)
    requires
        records.dom().finite(),
        records.contains_key(key),
    ensures
        footprint(records) == record_bytes(key, records[key]) + footprint(records.remove(key)),
    decreases records.dom().len(),
{
    let c = records.dom().choose();
    lemma_nonempty_has_member(records);
    assert(records.remove(c).dom() =~= records.dom().remove(c));
    assert(records.remove(key).dom() =~= records.dom().remove(key));
    if c != key {
        let without_c = records.remove(c);
        let without_k = records.remove(key);
        lemma_footprint_remove(without_c, key);
        lemma_footprint_remove(without_k, c);
        assert(without_c.remove(key) =~= without_k.remove(c));
    }
}

/// The footprint counts no record negatively.
pub proof fn lemma_footprint_nonnegative(records: Records)
    ensures
        footprint(records) >= 0,
    decreases records.dom().len(),
{
    if records.dom().finite() && records.dom().len() > 0 {
        let k = records.dom().choose();
        lemma_nonempty_has_member(records);
        assert(records.remove(k).dom() =~= records.dom().remove(k));
        lemma_footprint_nonnegative(records.remove(k));
    }
}

/// Writing a record replaces the bytes of the one it overwrites.
pub proof fn lemma_footprint_insert(records: Records, key: Seq<u8>, value: Seq<u8>)
    requires
        records.dom().finite(),
    ensures
        footprint(records.insert(key, value)) == footprint(records.remove(key)) + record_bytes(key, value),
{
    let after = records.insert(key, value);
    lemma_footprint_remove(after, key);
    assert(after.remove(key) =~= records.remove(key));
}

/// An empty store occupies no bytes.
pub proof fn lemma_footprint_empty()
    ensures
        footprint(Map::<Seq<u8>, Seq<u8>>::empty()) == 0,
{
    assert(Map::<Seq<u8>, Seq<u8>>::empty().dom().len() == 0);
}

} // verus!
