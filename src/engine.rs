//! The memory-resident engine: records in a sharded concurrent map, with the
//! record count and the lifecycle flag kept beside it.
use vstd::prelude::*;
use dashmap::DashMap;
use crate::concurrent_map::{
    map_contains_key, map_contents, map_get, map_insert, map_record_lengths, map_remove, new_map,
};
use crate::kv::db::DB;
use crate::kv::error::DBError;
use crate::kv::model::{
    footprint, lemma_footprint_nonnegative, lemma_footprint_remove, lengths_listed,
    lifecycle_outcome, Records,
};
use crate::kv::options::{ReadOptions, WriteOptions};
use crate::kv::stats::DBStats;

verus! {

/// A store held in memory. Records live in a map partitioned into
/// independently locked shards; the engine counts them as they come and go.
pub struct Engine {
    data: DashMap<Vec<u8>, Vec<u8>>,
    closed: bool,
    key_count: u64,
}

/// The sum of the key and value lengths in `lengths`.
spec fn lengths_total(lengths: Seq<(usize, usize)>) -> int
    decreases lengths.len(),
{
    if lengths.len() == 0 {
        0
    } else {
        lengths_total(lengths.drop_last()) + lengths.last().0 + lengths.last().1
    }
}

/// A list of the record lengths adds up to the footprint.
proof fn lemma_lengths_total(records: Records, keys: Seq<Seq<u8>>, lengths: Seq<(usize, usize)>)
    requires
        records.dom().finite(),
        lengths_listed(records, keys, lengths),
    ensures
        lengths_total(lengths) == footprint(records),
    decreases lengths.len(),
{
    if lengths.len() == 0 {
        assert(records.dom() =~= Set::empty());
        assert(records =~= Records::empty());
        assert(Records::empty().dom().len() == 0);
    } else {
        let n = (keys.len() - 1) as int;
        let k = keys[n];
        assert(records.contains_key(k));
        let rest = records.remove(k);
        assert(rest.dom() =~= records.dom().remove(k));
        let rest_keys = keys.drop_last();
        let rest_lengths = lengths.drop_last();
        assert forall|i: int| 0 <= i < rest_keys.len() implies {
            &&& #[trigger] rest.contains_key(rest_keys[i])
            &&& rest_lengths[i].0 == rest_keys[i].len()
            &&& rest_lengths[i].1 == rest[rest_keys[i]].len()
        } by {
            assert(keys[i] != keys[n]);
            assert(records.contains_key(keys[i]));
        }
        assert forall|i: int, j: int| 0 <= i < j < rest_keys.len() implies rest_keys[i] != rest_keys[j] by {
            assert(keys[i] != keys[j]);
        }
        assert(rest.dom().len() == records.dom().len() - 1);
        assert(lengths_listed(rest, rest_keys, rest_lengths));
        lemma_lengths_total(rest, rest_keys, lengths.drop_last());
        lemma_footprint_remove(records, k);
    }
}

/// No list of lengths adds up to less than zero.
proof fn lemma_lengths_nonnegative(lengths: Seq<(usize, usize)>)
    ensures
        lengths_total(lengths) >= 0,
    decreases lengths.len(),
{
    if lengths.len() > 0 {
        lemma_lengths_nonnegative(lengths.drop_last());
    }
}

/// A prefix of a list of lengths adds up to no more than the whole.
proof fn lemma_lengths_prefix(lengths: Seq<(usize, usize)>, i: int)
    requires
        0 <= i <= lengths.len(),
    ensures
        lengths_total(lengths.take(i)) <= lengths_total(lengths),
    decreases lengths.len(),
{
    if i < lengths.len() {
        assert(lengths.drop_last().take(i) =~= lengths.take(i));
        lemma_lengths_prefix(lengths.drop_last(), i);
    } else {
        assert(lengths.take(i) =~= lengths);
    }
}

impl Engine {
    /// An open engine with no records.
    pub fn new() -> (r: Engine)
        ensures
            r.wf(),
            r.records() == Records::empty(),
            !r.closed_state(),
    {
        let r = Engine { data: new_map(), closed: false, key_count: 0 };
        proof {
            assert(Records::empty().dom() =~= Set::empty());
            lemma_footprint_nonnegative(Records::empty());
            assert(Records::empty().dom().len() == 0);
        }
        r
    }

    /// Fails with `Closed` once the engine is closed.
    fn ensure_open(&self) -> (r: Result<(), DBError>)
        ensures
            r == lifecycle_outcome(self.closed),
    {
        if self.closed {
            Err(DBError::Closed)
        } else {
            Ok(())
        }
    }
}

impl DB for Engine {
    closed spec fn records(&self) -> Map<Seq<u8>, Seq<u8>> {
        map_contents(self.data)
    }

    closed spec fn closed_state(&self) -> bool {
        self.closed
    }

    closed spec fn wf(&self) -> bool {
        &&& map_contents(self.data).dom().finite()
        &&& self.key_count == map_contents(self.data).dom().len()
        &&& footprint(map_contents(self.data)) <= i64::MAX
    }

    fn get(&self, key: &[u8], opts: Option<&ReadOptions>) -> (r: Result<Vec<u8>, DBError>) {
        match self.ensure_open() {
            Err(e) => Err(e),
            Ok(()) => match map_get(&self.data, key) {
                Some(v) => Ok(v),
                None => Err(DBError::NotFound),
            },
        }
    }

    fn put(&mut self, key: &[u8], value: &[u8], opts: Option<&WriteOptions>) -> (r: Result<(), DBError>) {
        match self.ensure_open() {
            Err(e) => Err(e),
            Ok(()) => {
                let previous = map_insert(&mut self.data, vstd::slice::slice_to_vec(key), vstd::slice::slice_to_vec(value));
                proof {
                    let before = map_contents(old(self).data);
                    assert(map_contents(self.data).dom() =~= before.dom().insert(key@));
                }
                if previous.is_none() {
                    self.key_count = self.key_count + 1;
                }
                Ok(())
            },
        }
    }

    fn delete(&mut self, key: &[u8], opts: Option<&WriteOptions>) -> (r: Result<(), DBError>) {
        match self.ensure_open() {
            Err(e) => Err(e),
            Ok(()) => {
                let removed = map_remove(&mut self.data, key);
                proof {
                    let before = map_contents(old(self).data);
                    assert(map_contents(self.data).dom() =~= before.dom().remove(key@));
                    if before.contains_key(key@) {
                        lemma_footprint_remove(before, key@);
                        lemma_footprint_nonnegative(before.remove(key@));
                    } else {
                        assert(before.remove(key@) =~= before);
                    }
                }
                if removed.is_some() {
                    self.key_count = self.key_count - 1;
                }
                Ok(())
            },
        }
    }

    fn has(&self, key: &[u8], opts: Option<&ReadOptions>) -> (r: Result<bool, DBError>) {
        match self.ensure_open() {
            Err(e) => Err(e),
            Ok(()) => Ok(map_contains_key(&self.data, key)),
        }
    }

    fn stats(&self) -> (r: DBStats) {
        DBStats { key_count: self.key_count }
    }

    fn size(&self) -> (r: i64) {
        let lengths = map_record_lengths(&self.data);
        let ghost keys = choose|keys: Seq<Seq<u8>>| lengths_listed(map_contents(self.data), keys, lengths@);
        proof {
            lemma_lengths_total(map_contents(self.data), keys, lengths@);
        }
        let mut total: i64 = 0;
        let mut i: usize = 0;
        while i < lengths.len()
            invariant
                i <= lengths@.len(),
                total == lengths_total(lengths@.take(i as int)),
                lengths_total(lengths@) <= i64::MAX,
            decreases lengths@.len() - i,
        {
            let (key_len, value_len) = lengths[i];
            proof {
                assert(lengths@.take(i as int + 1).drop_last() =~= lengths@.take(i as int));
                lemma_lengths_prefix(lengths@, i as int + 1);
                lemma_lengths_nonnegative(lengths@.take(i as int));
                let next = lengths@.take(i as int + 1);
                assert(next.last() == lengths@[i as int]);
                assert(lengths_total(next) == total + key_len + value_len);
            }
            total = total + key_len as i64 + value_len as i64;
            i = i + 1;
        }
        proof {
            assert(lengths@.take(i as int) =~= lengths@);
        }
        total
    }

    fn close(&mut self) -> (r: Result<(), DBError>) {
        self.closed = true;
        Ok(())
    }

    fn is_closed(&self) -> (r: bool) {
        self.closed
    }

    fn ping(&self) -> (r: Result<(), DBError>) {
        self.ensure_open()
    }
}

} // verus!
