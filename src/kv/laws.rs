//! Laws that relate the operations of the storage contract, stated over the
//! model that the contract's `ensures` use.
use vstd::prelude::*;
use crate::kv::error::DBError;
use crate::kv::model::{get_outcome, has_outcome, lifecycle_outcome, Records};

verus! {

/// One mutation of a store's records.
pub ghost enum Mutation {
    Put(Seq<u8>, Seq<u8>),
    Delete(Seq<u8>),
}

/// The key that a mutation acts on.
pub open spec fn mutation_key(m: Mutation) -> Seq<u8> {
    match m {
        Mutation::Put(k, _) => k,
        Mutation::Delete(k) => k,
    }
}

/// The records after one mutation, as `put` and `delete` leave them.
pub open spec fn apply_mutation(records: Records, m: Mutation) -> Records {
    match m {
        Mutation::Put(k, v) => records.insert(k, v),
        Mutation::Delete(k) => records.remove(k),
    }
}

/// The records after a sequence of mutations, applied in order.
pub open spec fn apply_all(records: Records, ms: Seq<Mutation>) -> Records
    decreases ms.len(),
{
    if ms.len() == 0 {
        records
    } else {
        apply_mutation(apply_all(records, ms.drop_last()), ms.last())
    }
}

/// Whether the latest mutation of `key` in `ms` is a put (false when `ms`
/// never touches `key`).
pub open spec fn latest_is_put(ms: Seq<Mutation>, key: Seq<u8>) -> bool
    decreases ms.len(),
{
    if ms.len() == 0 {
        false
    } else if mutation_key(ms.last()) == key {
        ms.last() is Put
    } else {
        latest_is_put(ms.drop_last(), key)
    }
}

/// The record count after one mutation, by the engine's counting rule: a put
/// counts a key that was absent, a delete uncounts a key that was present.
pub open spec fn count_step(records: Records, count: int, m: Mutation) -> int {
    match m {
        Mutation::Put(k, _) => if records.contains_key(k) { count } else { count + 1 },
        Mutation::Delete(k) => if records.contains_key(k) { count - 1 } else { count },
    }
}

/// The record count after a sequence of mutations, by the counting rule.
pub open spec fn count_all(records: Records, count: int, ms: Seq<Mutation>) -> int
    decreases ms.len(),
{
    if ms.len() == 0 {
        count
    } else {
        count_step(apply_all(records, ms.drop_last()), count_all(records, count, ms.drop_last()), ms.last())
    }
}

/// A value written by `put` is what `get` then reads for its key.
pub proof fn law_put_then_get(records: Records, key: Seq<u8>, value: Seq<u8>)
    ensures
        get_outcome(records.insert(key, value), false, key) == Ok::<Seq<u8>, DBError>(value),
{
}

/// After `delete` of a key, `get` of it fails with `NotFound`.
pub proof fn law_delete_then_get(records: Records, key: Seq<u8>)
    ensures
        get_outcome(records.remove(key), false, key) == Err::<Seq<u8>, DBError>(DBError::NotFound),
{
}

/// Starting from no records, `has` of a key answers true exactly when the
/// latest mutation of that key was a put.
pub proof fn law_has_follows_latest_mutation(ms: Seq<Mutation>, key: Seq<u8>)
    ensures
        has_outcome(apply_all(Records::empty(), ms), false, key) == Ok::<bool, DBError>(latest_is_put(ms, key)),
    decreases ms.len(),
{
    if ms.len() > 0 {
        law_has_follows_latest_mutation(ms.drop_last(), key);
    }
}

/// A put of a new key adds one record, a put of a present key adds none.
pub proof fn law_count_on_put(records: Records, key: Seq<u8>, value: Seq<u8>)
    requires
        records.dom().finite(),
    ensures
        records.insert(key, value).dom().len() == if records.contains_key(key) {
            records.dom().len()
        } else {
            records.dom().len() + 1
        },
{
    if records.contains_key(key) {
        assert(records.insert(key, value).dom() =~= records.dom());
    }
}

/// A delete of a present key takes away exactly one record, a delete of an
/// absent key none.
pub proof fn law_count_on_delete(records: Records, key: Seq<u8>)
    requires
        records.dom().finite(),
    ensures
        records.remove(key).dom().len() == if records.contains_key(key) {
            records.dom().len() - 1
        } else {
            records.dom().len() as int
        },
{
    if !records.contains_key(key) {
        assert(records.remove(key).dom() =~= records.dom());
    }
}

/// Starting from no records, any sequence of mutations yields only keys that
/// it mentions.
proof fn lemma_keys_mentioned(ms: Seq<Mutation>, key: Seq<u8>)
    requires
        apply_all(Records::empty(), ms).contains_key(key),
    ensures
        exists|i: int| 0 <= i < ms.len() && mutation_key(#[trigger] ms[i]) == key,
    decreases ms.len(),
{
    if mutation_key(ms.last()) != key {
        lemma_keys_mentioned(ms.drop_last(), key);
        let i = choose|i: int| 0 <= i < ms.drop_last().len() && mutation_key(#[trigger] ms.drop_last()[i]) == key;
        assert(ms[i] == ms.drop_last()[i]);
    } else {
        assert(mutation_key(ms[ms.len() - 1]) == key);
    }
}

/// Puts of n distinct keys on an empty store leave n records.
pub proof fn law_distinct_puts_count(ms: Seq<Mutation>)
    requires
        forall|i: int| 0 <= i < ms.len() ==> #[trigger] ms[i] is Put,
        forall|i: int, j: int| 0 <= i < j < ms.len() ==> mutation_key(#[trigger] ms[i]) != mutation_key(#[trigger] ms[j]),
    ensures
        apply_all(Records::empty(), ms).dom().finite(),
        apply_all(Records::empty(), ms).dom().len() == ms.len(),
    decreases ms.len(),
{
    if ms.len() == 0 {
        assert(Records::empty().dom() =~= Set::empty());
    } else {
        let prefix = ms.drop_last();
        let last = ms.last();
        assert forall|i: int| 0 <= i < prefix.len() implies #[trigger] prefix[i] is Put by {
            assert(ms[i] is Put);
        }
        assert forall|i: int, j: int| 0 <= i < j < prefix.len() implies mutation_key(#[trigger] prefix[i]) != mutation_key(#[trigger] prefix[j]) by {
            assert(mutation_key(ms[i]) != mutation_key(ms[j]));
        }
        law_distinct_puts_count(prefix);
        let before = apply_all(Records::empty(), prefix);
        assert(ms[ms.len() - 1] is Put);
        if before.contains_key(mutation_key(last)) {
            lemma_keys_mentioned(prefix, mutation_key(last));
            let i = choose|i: int| 0 <= i < prefix.len() && mutation_key(#[trigger] prefix[i]) == mutation_key(last);
            assert(mutation_key(ms[i]) != mutation_key(ms[ms.len() - 1]));
        }
        law_count_on_put(before, mutation_key(last), last->Put_1);
    }
}

/// Counting by the engine's rule, one mutation at a time in any order,
/// loses and doubles no update: the count always equals the number of
/// records.
pub proof fn law_count_matches_records(records: Records, ms: Seq<Mutation>)
    requires
        records.dom().finite(),
    ensures
        apply_all(records, ms).dom().finite(),
        count_all(records, records.dom().len() as int, ms) == apply_all(records, ms).dom().len(),
    decreases ms.len(),
{
    if ms.len() > 0 {
        law_count_matches_records(records, ms.drop_last());
        let before = apply_all(records, ms.drop_last());
        match ms.last() {
            Mutation::Put(k, v) => law_count_on_put(before, k, v),
            Mutation::Delete(k) => law_count_on_delete(before, k),
        }
    }
}

/// Once a store is closed, every key operation and `ping` fail with
/// `Closed`, whatever the records.
pub proof fn law_closed_rejects(records: Records, key: Seq<u8>)
    ensures
        get_outcome(records, true, key) == Err::<Seq<u8>, DBError>(DBError::Closed),
        has_outcome(records, true, key) == Err::<bool, DBError>(DBError::Closed),
        lifecycle_outcome(true) == Err::<(), DBError>(DBError::Closed),
{
}

} // verus!
