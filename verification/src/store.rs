//! Trusted boundary to the ordered key-value substrate: an
//! `ic_stable_structures::BTreeMap` over an in-process vector memory.
//!
//! The map's contents are modelled as the ascending sequence of its
//! `(key, value)` entries, named by [`map_entries`].  Every wrapper states
//! over that name what the map's source shows of the call: `insert`
//! upserts, `remove` deletes, iteration and range scans hand the entries
//! out ascending by key.

use core::cell::RefCell;
use ic_stable_structures::btreemap::BTreeMap;
use std::rc::Rc;
use vstd::prelude::*;

verus! {

/// The ordered map the snapshot store keeps its entries in: an
/// `ic_stable_structures` B-tree over an in-process vector memory, held
/// opaquely because its type cannot be declared to the verifier.
#[verifier::external_body]
pub struct SnapMap {
    map: BTreeMap<u128, u128, Rc<RefCell<Vec<u8>>>>,
}

/// The `(key, value)` entries of the map, ascending by key.
pub uninterp spec fn map_entries(m: SnapMap) -> Seq<(u128, u128)>;

/// Keys strictly ascend along the sequence.
pub open spec fn keys_sorted(s: Seq<(u128, u128)>) -> bool {
    forall|i: int, j: int| 0 <= i < j < s.len() ==> s[i].0 < s[j].0
}

/// The value stored under `key`, by first match.
pub open spec fn seq_lookup(s: Seq<(u128, u128)>, key: u128) -> Option<u128>
    decreases s.len(),
{
    if s.len() == 0 {
        None
    } else if s[0].0 == key {
        Some(s[0].1)
    } else {
        seq_lookup(s.drop_first(), key)
    }
}

/// `s` with `(key, value)` placed at its key position: an existing entry
/// under `key` is replaced, any other entry keeps its place.
pub open spec fn seq_upsert(s: Seq<(u128, u128)>, key: u128, value: u128) -> Seq<(u128, u128)>
    decreases s.len(),
{
    if s.len() == 0 {
        seq![(key, value)]
    } else if key < s[0].0 {
        seq![(key, value)] + s
    } else if key == s[0].0 {
        seq![(key, value)] + s.drop_first()
    } else {
        seq![s[0]] + seq_upsert(s.drop_first(), key, value)
    }
}

/// The entries of `s` whose keys lie in `[lo, hi]`, in their order.
pub open spec fn range_entries(s: Seq<(u128, u128)>, lo: u128, hi: u128) -> Seq<(u128, u128)>
    decreases s.len(),
{
    if s.len() == 0 {
        s
    } else if lo <= s[0].0 <= hi {
        seq![s[0]] + range_entries(s.drop_first(), lo, hi)
    } else {
        range_entries(s.drop_first(), lo, hi)
    }
}

/// Relies on `BTreeMap::new`: a map over a fresh memory holds no entries.
#[verifier::external_body]
pub fn new_snap_map() -> (m: SnapMap)
    ensures
        map_entries(m) == Seq::<(u128, u128)>::empty(),
{
    SnapMap { map: BTreeMap::new(Rc::new(RefCell::new(Vec::new()))) }
}

/// Relies on `BTreeMap::insert`: the pair is upserted at its key, and the
/// value previously under the key, if any, is returned.
#[verifier::external_body]
pub fn snap_insert(m: &mut SnapMap, key: u128, value: u128) -> (prior: Option<u128>)
    ensures
        map_entries(*final(m)) == seq_upsert(map_entries(*old(m)), key, value),
        prior == seq_lookup(map_entries(*old(m)), key),
{
    m.map.insert(key, value)
}

/// Relies on `BTreeMap::clear_new`: every entry is dropped.
#[verifier::external_body]
pub fn snap_clear(m: &mut SnapMap)
    ensures
        map_entries(*final(m)) == Seq::<(u128, u128)>::empty(),
{
    m.map.clear_new()
}

/// Relies on `BTreeMap::len`: the number of entries.
#[verifier::external_body]
pub fn snap_len(m: &SnapMap) -> (n: u64)
    ensures
        n == map_entries(*m).len(),
{
    m.map.len()
}

/// Relies on `BTreeMap::iter`: all entries, ascending by key.
#[verifier::external_body]
pub fn snap_entries_vec(m: &SnapMap) -> (r: Vec<(u128, u128)>)
    ensures
        r@ == map_entries(*m),
{
    m.map.iter().map(|e| e.into_pair()).collect()
}

/// Relies on `BTreeMap::range`: the entries with keys in `[lo, hi]`,
/// ascending by key.
#[verifier::external_body]
pub fn snap_range(m: &SnapMap, lo: u128, hi: u128) -> (r: Vec<(u128, u128)>)
    ensures
        r@ == range_entries(map_entries(*m), lo, hi),
{
    m.map.range(lo..=hi).map(|e| e.into_pair()).collect()
}

} // verus!
