//! The two concurrent maps that hold the registry, `dashmap::DashMap`s, and
//! the operations the registry performs on them. Each item here is trusted:
//! its contract restates what the `dashmap` source does.
use vstd::prelude::*;
use dashmap::DashMap;
use crate::models::{TagRecord, TagRecordView, opt_chars, clone_opt_string};

verus! {

/// `dashmap::DashMap`, a concurrent hash map; Verus sees nothing inside it.
#[verifier::external_type_specification]
#[verifier::external_body]
#[verifier::reject_recursive_types(K)]
#[verifier::reject_recursive_types(V)]
#[verifier::reject_recursive_types(S)]
pub struct ExDashMap<K, V, S>(DashMap<K, V, S>);

/// The map from identifier to record.
pub type RecordMap = DashMap<String, TagRecord>;

/// The map from EPC to TID.
pub type IndexMap = DashMap<String, Option<String>>;

/// What a map of records holds: for each key's characters, the record stored under it.
pub uninterp spec fn record_entries(m: RecordMap) -> Map<Seq<char>, TagRecordView>;

/// What a map of EPC index entries holds: for each EPC, the TID stored under it.
pub uninterp spec fn index_entries(m: IndexMap) -> Map<Seq<char>, Option<Seq<char>>>;

/// `DashMap::new` for records: the map starts empty.
#[verifier::external_body]
pub(crate) fn record_map_new() -> (fresh: RecordMap)
    ensures
        record_entries(fresh).dom() == Set::<Seq<char>>::empty(),
{
    DashMap::new()
}

/// `DashMap::insert` for records: the key now maps to the value, and the value
/// that the key held before, if any, is handed back.
#[verifier::external_body]
pub(crate) fn record_map_insert(m: &mut RecordMap, key: String, value: TagRecord) -> (r: Option<TagRecord>)
    ensures
        record_entries(*final(m)) == record_entries(*old(m)).insert(key@, value@),
        match r {
            Some(prev) => record_entries(*old(m)).contains_key(key@) && prev@ == record_entries(*old(m))[key@],
            None => !record_entries(*old(m)).contains_key(key@),
        },
{
    m.insert(key, value)
}

/// `DashMap::remove` for records: the key is gone, and the value it held, if
/// any, is handed back (the key that came with it is dropped).
#[verifier::external_body]
pub(crate) fn record_map_remove(m: &mut RecordMap, key: &str) -> (r: Option<TagRecord>)
    ensures
        record_entries(*final(m)) == record_entries(*old(m)).remove(key@),
        match r {
            Some(prev) => record_entries(*old(m)).contains_key(key@) && prev@ == record_entries(*old(m))[key@],
            None => !record_entries(*old(m)).contains_key(key@),
        },
{
    m.remove(key).map(|(_, v)| v)
}

/// `DashMap::get` for records, handing out a copy of the value found.
#[verifier::external_body]
pub(crate) fn record_map_get(m: &RecordMap, key: &str) -> (r: Option<TagRecord>)
    ensures
        match r {
            Some(v) => record_entries(*m).contains_key(key@) && v@ == record_entries(*m)[key@],
            None => !record_entries(*m).contains_key(key@),
        },
{
    m.get(key).map(|entry| entry.value().clone())
}

/// `DashMap::iter` for records, handing out a copy of each key and value. Every
/// entry comes exactly once; the order is that of the map's shards and is not
/// stated.
#[verifier::external_body]
pub(crate) fn record_map_entries(m: &RecordMap) -> (r: Vec<(String, TagRecord)>)
    ensures
        forall|i: int| 0 <= i < r@.len() ==> {
            &&& record_entries(*m).contains_key(#[trigger] r@[i].0@)
            &&& record_entries(*m)[r@[i].0@] == r@[i].1@
        },
        forall|i: int, j: int| 0 <= i < j < r@.len() ==> #[trigger] r@[i].0@ != #[trigger] r@[j].0@,
        forall|k: Seq<char>| #[trigger] record_entries(*m).contains_key(k) ==>
            exists|i: int| 0 <= i < r@.len() && #[trigger] r@[i].0@ == k,
{
    m.iter().map(|entry| (entry.key().clone(), entry.value().clone())).collect()
}

/// `DashMap::new` for the EPC index: the map starts empty.
#[verifier::external_body]
pub(crate) fn index_map_new() -> (fresh: IndexMap)
    ensures
        index_entries(fresh).dom() == Set::<Seq<char>>::empty(),
{
    DashMap::new()
}

/// `DashMap::insert` for the EPC index: the EPC now maps to the TID, and the
/// TID it held before, if any, is handed back.
#[verifier::external_body]
pub(crate) fn index_map_insert(m: &mut IndexMap, key: String, value: Option<String>) -> (r: Option<Option<String>>)
    ensures
        index_entries(*final(m)) == index_entries(*old(m)).insert(key@, opt_chars(value)),
        match r {
            Some(prev) => index_entries(*old(m)).contains_key(key@) && opt_chars(prev) == index_entries(*old(m))[key@],
            None => !index_entries(*old(m)).contains_key(key@),
        },
{
    m.insert(key, value)
}

/// `DashMap::remove` for the EPC index: the EPC is gone, and the TID it held,
/// if any, is handed back.
#[verifier::external_body]
pub(crate) fn index_map_remove(m: &mut IndexMap, key: &str) -> (r: Option<Option<String>>)
    ensures
        index_entries(*final(m)) == index_entries(*old(m)).remove(key@),
        match r {
            Some(prev) => index_entries(*old(m)).contains_key(key@) && opt_chars(prev) == index_entries(*old(m))[key@],
            None => !index_entries(*old(m)).contains_key(key@),
        },
{
    m.remove(key).map(|(_, v)| v)
}

/// `DashMap::get` for the EPC index, handing out a copy of the TID found.
#[verifier::external_body]
pub(crate) fn index_map_get(m: &IndexMap, key: &str) -> (r: Option<Option<String>>)
    ensures
        match r {
            Some(v) => index_entries(*m).contains_key(key@) && opt_chars(v) == index_entries(*m)[key@],
            None => !index_entries(*m).contains_key(key@),
        },
{
    m.get(key).map(|entry| clone_opt_string(entry.value()))
}

} // verus!
