//! The sharded concurrent map that holds an engine's records, as far as the
//! engine relies on it.
use vstd::prelude::*;
use dashmap::DashMap;
use crate::kv::model::{lengths_listed, Records};

verus! {

#[verifier::external_type_specification]
#[verifier::external_body]
#[verifier::reject_recursive_types(K)]
#[verifier::reject_recursive_types(V)]
#[verifier::reject_recursive_types(S)]
pub struct ExDashMap<K, V, S>(DashMap<K, V, S>);

/// The records that a map of byte strings holds.
pub uninterp spec fn map_contents(m: DashMap<Vec<u8>, Vec<u8>>) -> Map<Seq<u8>, Seq<u8>>;

/// Relies on `DashMap::new`: a new map holds nothing.
#[verifier::external_body]
pub(crate) fn new_map() -> (r: DashMap<Vec<u8>, Vec<u8>>)
    ensures
        map_contents(r) == Records::empty(),
{
    DashMap::new()
}

/// Relies on `DashMap::insert`: the key then maps to the value, and the value
/// it replaced, if any, is handed back.
#[verifier::external_body]
pub(crate) fn map_insert(m: &mut DashMap<Vec<u8>, Vec<u8>>, key: Vec<u8>, value: Vec<u8>) -> (r: Option<Vec<u8>>)
    ensures
        map_contents(*final(m)) == map_contents(*old(m)).insert(key@, value@),
        match r {
            Some(prev) => map_contents(*old(m)).contains_key(key@) && prev@ == map_contents(*old(m))[key@],
            None => !map_contents(*old(m)).contains_key(key@),
        },
{
    m.insert(key, value)
}

/// Relies on `DashMap::remove`: the record of the key is taken out and handed
/// back, if there was one.
#[verifier::external_body]
pub(crate) fn map_remove(m: &mut DashMap<Vec<u8>, Vec<u8>>, key: &[u8]) -> (r: Option<(Vec<u8>, Vec<u8>)>)
    ensures
        map_contents(*final(m)) == map_contents(*old(m)).remove(key@),
        match r {
            Some(pair) => {
                &&& map_contents(*old(m)).contains_key(key@)
                &&& pair.0@ == key@
                &&& pair.1@ == map_contents(*old(m))[key@]
            },
            None => !map_contents(*old(m)).contains_key(key@),
        },
{
    m.remove(key)
}

/// Relies on `DashMap::get`: a copy of the value of the key, if it has one.
#[verifier::external_body]
pub(crate) fn map_get(m: &DashMap<Vec<u8>, Vec<u8>>, key: &[u8]) -> (r: Option<Vec<u8>>)
    ensures
        match r {
            Some(v) => map_contents(*m).contains_key(key@) && v@ == map_contents(*m)[key@],
            None => !map_contents(*m).contains_key(key@),
        },
{
    m.get(key).map(|entry| entry.value().clone())
}

/// Relies on `DashMap::contains_key`: whether the key has a record.
#[verifier::external_body]
pub(crate) fn map_contains_key(m: &DashMap<Vec<u8>, Vec<u8>>, key: &[u8]) -> (r: bool)
    ensures
        r == map_contents(*m).contains_key(key@),
{
    m.contains_key(key)
}

/// The key and value lengths of one record.
pub(crate) fn record_lengths(key: &Vec<u8>, value: &Vec<u8>) -> (r: (usize, usize))
    ensures
        r.0 == key@.len(),
        r.1 == value@.len(),
{
    (key.len(), value.len())
}

/// Relies on `DashMap::iter`: it visits every record once, in an order that
/// the map does not fix.
#[verifier::external_body]
pub(crate) fn map_record_lengths(m: &DashMap<Vec<u8>, Vec<u8>>) -> (r: Vec<(usize, usize)>)
    ensures
        exists|keys: Seq<Seq<u8>>| #[trigger] lengths_listed(map_contents(*m), keys, r@),
{
    m.iter().map(|entry| record_lengths(entry.key(), entry.value())).collect()
}

} // verus!
