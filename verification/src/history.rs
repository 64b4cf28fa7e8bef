//! The Balance History Store: an ordered, append-mostly time series of
//! `(unit, timestamp, balance)` rows, grouped by unit first.
//!
//! A row's key packs the unit id above the timestamp, so one unit's rows
//! are contiguous and ascend by time.  Appending at an existing
//! `(unit, timestamp)` overwrites rather than duplicates, and pruning
//! drops exactly the rows older than a cutoff, over every unit.

use crate::store::{
    keys_sorted, map_entries, new_snap_map, range_entries, seq_upsert, snap_clear,
    snap_entries_vec, snap_insert, snap_len, snap_range, SnapMap,
};
use vstd::arithmetic::div_mod::{lemma_fundamental_div_mod, lemma_fundamental_div_mod_converse};
use vstd::prelude::*;

verus! {

/// One more than the largest timestamp: the width of one unit's key band.
pub const TS_SPAN: u128 = 0x1_0000_0000_0000_0000;

/// The key of a row: the unit id above the timestamp.
pub open spec fn pack(unit: u64, ts: u64) -> u128 {
    (unit * TS_SPAN + ts) as u128
}

/// The unit id of a key.
pub open spec fn unit_of(key: u128) -> u64 {
    (key / TS_SPAN) as u64
}

/// The timestamp of a key.
pub open spec fn ts_of(key: u128) -> u64 {
    (key % TS_SPAN) as u64
}

/// A key lies in a unit's band exactly when it carries that unit's id.
pub proof fn lemma_band_covers_unit(unit: u64, key: u128)
    ensures
        pack(unit, 0) <= key <= pack(unit, 0xffff_ffff_ffff_ffff) <==> unit_of(key) == unit,
{
    if pack(unit, 0) <= key <= pack(unit, 0xffff_ffff_ffff_ffff) {
        lemma_fundamental_div_mod_converse(
            key as int,
            TS_SPAN as int,
            unit as int,
            key - unit * TS_SPAN,
        );
    }
    if unit_of(key) == unit {
        lemma_fundamental_div_mod(key as int, TS_SPAN as int);
    }
}

/// The rows of `es` that survive pruning at `cutoff`: exactly those whose
/// timestamp is at or after it, in their order.
pub open spec fn kept_entries(es: Seq<(u128, u128)>, cutoff: u64) -> Seq<(u128, u128)>
    decreases es.len(),
{
    if es.len() == 0 {
        es
    } else {
        let rest = kept_entries(es.drop_last(), cutoff);
        if ts_of(es.last().0) >= cutoff {
            rest.push(es.last())
        } else {
            rest
        }
    }
}

/// The rows of `es` outside `unit`'s band, in their order.
pub open spec fn other_unit_entries(es: Seq<(u128, u128)>, unit: u64) -> Seq<(u128, u128)>
    decreases es.len(),
{
    if es.len() == 0 {
        es
    } else {
        let rest = other_unit_entries(es.drop_last(), unit);
        if unit_of(es.last().0) != unit {
            rest.push(es.last())
        } else {
            rest
        }
    }
}

/// One unit's rows as `(timestamp, balance)` pairs, ascending by time.
pub open spec fn unit_hist(es: Seq<(u128, u128)>, unit: u64) -> Seq<(u64, u128)> {
    range_entries(es, pack(unit, 0), pack(unit, 0xffff_ffff_ffff_ffff)).map_values(
        |p: (u128, u128)| (ts_of(p.0), p.1),
    )
}

/// The smallest timestamp among the rows; meaningful when any exist.
pub open spec fn min_ts(es: Seq<(u128, u128)>) -> u64
    decreases es.len(),
{
    if es.len() <= 1 {
        ts_of(es[0].0)
    } else {
        let rest = min_ts(es.drop_last());
        if ts_of(es.last().0) < rest {
            ts_of(es.last().0)
        } else {
            rest
        }
    }
}

/// The largest timestamp among the rows; meaningful when any exist.
pub open spec fn max_ts(es: Seq<(u128, u128)>) -> u64
    decreases es.len(),
{
    if es.len() <= 1 {
        ts_of(es[0].0)
    } else {
        let rest = max_ts(es.drop_last());
        if ts_of(es.last().0) > rest {
            ts_of(es.last().0)
        } else {
            rest
        }
    }
}

proof fn lemma_kept_subset(es: Seq<(u128, u128)>, cutoff: u64)
    ensures
        forall|j: int|
            0 <= j < kept_entries(es, cutoff).len() ==> es.contains(
                #[trigger] kept_entries(es, cutoff)[j],
            ),
    decreases es.len(),
{
    if es.len() > 0 {
        lemma_kept_subset(es.drop_last(), cutoff);
        assert forall|j: int| 0 <= j < kept_entries(es, cutoff).len() implies es.contains(
            #[trigger] kept_entries(es, cutoff)[j],
        ) by {
            let k = kept_entries(es, cutoff);
            if j < kept_entries(es.drop_last(), cutoff).len() {
                assert(es.drop_last().contains(k[j]));
                let jj = choose|jj: int|
                    0 <= jj < es.drop_last().len() && es.drop_last()[jj] == k[j];
                assert(es[jj] == k[j]);
            } else {
                assert(k[j] == es.last());
            }
        }
    }
}

pub proof fn lemma_other_subset(es: Seq<(u128, u128)>, unit: u64)
    ensures
        forall|j: int|
            0 <= j < other_unit_entries(es, unit).len() ==> es.contains(
                #[trigger] other_unit_entries(es, unit)[j],
            ),
    decreases es.len(),
{
    if es.len() > 0 {
        lemma_other_subset(es.drop_last(), unit);
        assert forall|j: int| 0 <= j < other_unit_entries(es, unit).len() implies es.contains(
            #[trigger] other_unit_entries(es, unit)[j],
        ) by {
            let k = other_unit_entries(es, unit);
            if j < other_unit_entries(es.drop_last(), unit).len() {
                assert(es.drop_last().contains(k[j]));
                let jj = choose|jj: int|
                    0 <= jj < es.drop_last().len() && es.drop_last()[jj] == k[j];
                assert(es[jj] == k[j]);
            } else {
                assert(k[j] == es.last());
            }
        }
    }
}

proof fn lemma_upsert_key_bound(s: Seq<(u128, u128)>, key: u128, value: u128, b: u128)
    requires
        forall|j: int| 0 <= j < s.len() ==> b < #[trigger] s[j].0,
        b < key,
    ensures
        forall|j: int|
            0 <= j < seq_upsert(s, key, value).len() ==> b < #[trigger] seq_upsert(
                s,
                key,
                value,
            )[j].0,
    decreases s.len(),
{
    let u = seq_upsert(s, key, value);
    if s.len() > 0 && key > s[0].0 {
        assert(forall|j: int|
            0 <= j < s.drop_first().len() ==> b < #[trigger] s.drop_first()[j].0);
        lemma_upsert_key_bound(s.drop_first(), key, value, b);
        let rec = seq_upsert(s.drop_first(), key, value);
        assert(u == seq![s[0]] + rec);
        assert forall|j: int| 0 <= j < u.len() implies b < #[trigger] u[j].0 by {
            if j > 0 {
                assert(u[j] == rec[j - 1]);
            }
        }
    } else if s.len() > 0 && key < s[0].0 {
        assert forall|j: int| 0 <= j < u.len() implies b < #[trigger] u[j].0 by {
            if j > 0 {
                assert(u[j] == s[j - 1]);
            }
        }
    } else if s.len() > 0 {
        assert forall|j: int| 0 <= j < u.len() implies b < #[trigger] u[j].0 by {
            if j > 0 {
                assert(u[j] == s.drop_first()[j - 1]);
                assert(s.drop_first()[j - 1] == s[j]);
            }
        }
    }
}

/// Upserting keeps the keys strictly ascending.
pub proof fn lemma_upsert_sorted(s: Seq<(u128, u128)>, key: u128, value: u128)
    requires
        keys_sorted(s),
    ensures
        keys_sorted(seq_upsert(s, key, value)),
    decreases s.len(),
{
    if s.len() > 0 && key > s[0].0 {
        assert(keys_sorted(s.drop_first()));
        lemma_upsert_sorted(s.drop_first(), key, value);
        lemma_upsert_key_bound(s.drop_first(), key, value, s[0].0);
    }
}

/// Upserting above every present key appends.
pub proof fn lemma_upsert_append(s: Seq<(u128, u128)>, key: u128, value: u128)
    requires
        forall|j: int| 0 <= j < s.len() ==> #[trigger] s[j].0 < key,
    ensures
        seq_upsert(s, key, value) =~= s.push((key, value)),
    decreases s.len(),
{
    if s.len() > 0 {
        assert(forall|j: int| 0 <= j < s.drop_first().len() ==> #[trigger] s.drop_first()[j].0
            < key);
        lemma_upsert_append(s.drop_first(), key, value);
    }
}

proof fn lemma_range_key_bound(s: Seq<(u128, u128)>, lo: u128, hi: u128, b: u128)
    requires
        forall|j: int| 0 <= j < s.len() ==> b < #[trigger] s[j].0,
    ensures
        forall|j: int|
            0 <= j < range_entries(s, lo, hi).len() ==> b < #[trigger] range_entries(
                s,
                lo,
                hi,
            )[j].0,
    decreases s.len(),
{
    if s.len() > 0 {
        assert(forall|j: int|
            0 <= j < s.drop_first().len() ==> b < #[trigger] s.drop_first()[j].0);
        lemma_range_key_bound(s.drop_first(), lo, hi, b);
        if lo <= s[0].0 <= hi {
            let r = range_entries(s, lo, hi);
            assert(r == seq![s[0]] + range_entries(s.drop_first(), lo, hi));
            assert forall|j: int| 0 <= j < r.len() implies b < #[trigger] r[j].0 by {
                if j > 0 {
                    assert(r[j] == range_entries(s.drop_first(), lo, hi)[j - 1]);
                }
            }
        }
    }
}

/// A range scan of a sorted store is sorted, and stays within bounds.
pub proof fn lemma_range_entries_sorted(s: Seq<(u128, u128)>, lo: u128, hi: u128)
    requires
        keys_sorted(s),
    ensures
        keys_sorted(range_entries(s, lo, hi)),
        forall|j: int|
            0 <= j < range_entries(s, lo, hi).len() ==> lo <= #[trigger] range_entries(
                s,
                lo,
                hi,
            )[j].0 <= hi,
    decreases s.len(),
{
    if s.len() > 0 {
        assert(keys_sorted(s.drop_first()));
        lemma_range_entries_sorted(s.drop_first(), lo, hi);
        let rest = range_entries(s.drop_first(), lo, hi);
        if lo <= s[0].0 <= hi {
            assert(forall|j: int|
                0 <= j < s.drop_first().len() ==> s[0].0 < #[trigger] s.drop_first()[j].0);
            lemma_range_key_bound(s.drop_first(), lo, hi, s[0].0);
            let r = range_entries(s, lo, hi);
            assert(r == seq![s[0]] + rest);
            assert forall|i: int, j: int| 0 <= i < j < r.len() implies r[i].0 < r[j].0 by {
                if i > 0 {
                    assert(r[i] == rest[i - 1]);
                    assert(r[j] == rest[j - 1]);
                } else {
                    assert(r[j] == rest[j - 1]);
                }
            }
            assert forall|j: int| 0 <= j < r.len() implies lo <= #[trigger] r[j].0 <= hi by {
                if j > 0 {
                    assert(r[j] == rest[j - 1]);
                }
            }
        }
    }
}

/// One unit's history comes out in strict time order: along
/// `unit_hist`, timestamps strictly ascend.
pub proof fn lemma_unit_hist_ascending(es: Seq<(u128, u128)>, unit: u64)
    requires
        keys_sorted(es),
    ensures
        forall|i: int, j: int|
            0 <= i < j < unit_hist(es, unit).len() ==> unit_hist(es, unit)[i].0 < unit_hist(
                es,
                unit,
            )[j].0,
{
    let lo = pack(unit, 0);
    let hi = pack(unit, 0xffff_ffff_ffff_ffff);
    let band = range_entries(es, lo, hi);
    lemma_range_entries_sorted(es, lo, hi);
    assert forall|i: int, j: int| 0 <= i < j < band.len() implies ts_of(band[i].0) < ts_of(
        band[j].0,
    ) by {
        lemma_band_covers_unit(unit, band[i].0);
        lemma_band_covers_unit(unit, band[j].0);
        lemma_fundamental_div_mod(band[i].0 as int, TS_SPAN as int);
        lemma_fundamental_div_mod(band[j].0 as int, TS_SPAN as int);
    }
}

/// The packed key of a row, as executable code.
pub fn pack_key(unit: u64, ts: u64) -> (k: u128)
    ensures
        k == pack(unit, ts),
{
    (unit as u128) * TS_SPAN + (ts as u128)
}

/// The Balance History Store.
pub struct HistoryStore {
    map: SnapMap,
}

impl HistoryStore {
    /// The rows as packed `(key, balance)` entries, ascending by key.
    pub closed spec fn entries(self) -> Seq<(u128, u128)> {
        map_entries(self.map)
    }

    /// Keys strictly ascend: each `(unit, timestamp)` holds one row.
    pub open spec fn wf(self) -> bool {
        keys_sorted(self.entries())
    }

    /// An empty store.
    pub fn new() -> (r: Self)
        ensures
            r.wf(),
            r.entries() == Seq::<(u128, u128)>::empty(),
    {
        HistoryStore { map: new_snap_map() }
    }

    /// Idempotent upsert of one row at `(unit, timestamp)`.
    pub fn append(&mut self, unit: u64, ts: u64, balance: u128)
        requires
            old(self).wf(),
        ensures
            final(self).wf(),
            final(self).entries() == seq_upsert(old(self).entries(), pack(unit, ts), balance),
    {
        let key = pack_key(unit, ts);
        proof {
            lemma_upsert_sorted(self.entries(), key, balance);
        }
        let _prior = snap_insert(&mut self.map, key, balance);
    }

    /// One unit's `(timestamp, balance)` rows, ascending by time.
    pub fn unit_history(&self, unit: u64) -> (r: Vec<(u64, u128)>)
        ensures
            r@ == unit_hist(self.entries(), unit),
    {
        let lo = pack_key(unit, 0);
        let hi = pack_key(unit, 0xffff_ffff_ffff_ffff);
        let band = snap_range(&self.map, lo, hi);
        let mut r: Vec<(u64, u128)> = Vec::new();
        let mut i: usize = 0;
        while i < band.len()
            invariant
                0 <= i <= band@.len(),
                r@ =~= band@.subrange(0, i as int).map_values(
                    |p: (u128, u128)| (ts_of(p.0), p.1),
                ),
            decreases band@.len() - i,
        {
            let (key, value) = band[i];
            r.push(((key % TS_SPAN) as u64, value));
            proof {
                assert(band@.subrange(0, i + 1 as int) =~= band@.subrange(0, i as int).push(
                    band@[i as int],
                ));
            }
            i = i + 1;
        }
        proof {
            assert(band@.subrange(0, band@.len() as int) =~= band@);
        }
        r
    }

    /// The most recent balance of one unit, or nothing.
    pub fn latest(&self, unit: u64) -> (r: Option<u128>)
        ensures
            r == if unit_hist(self.entries(), unit).len() == 0 {
                Option::<u128>::None
            } else {
                Option::<u128>::Some(unit_hist(self.entries(), unit).last().1)
            },
    {
        let hist = self.unit_history(unit);
        if hist.len() == 0 {
            None
        } else {
            Some(hist[hist.len() - 1].1)
        }
    }

    /// How many rows the store holds.
    pub fn count(&self) -> (n: u64)
        ensures
            n == self.entries().len(),
    {
        snap_len(&self.map)
    }

    /// All rows as `(key, balance)` entries, ascending by key.
    pub fn all_entries(&self) -> (r: Vec<(u128, u128)>)
        ensures
            r@ == self.entries(),
    {
        snap_entries_vec(&self.map)
    }

    /// Deletes every row strictly older than `cutoff`, across all units,
    /// and reports how many went.  Pruning twice at one cutoff deletes
    /// nothing the second time.
    pub fn prune(&mut self, cutoff: u64) -> (pruned: u64)
        requires
            old(self).wf(),
        ensures
            final(self).wf(),
            final(self).entries() == kept_entries(old(self).entries(), cutoff),
            pruned == old(self).entries().len() - final(self).entries().len(),
    {
        let all = snap_entries_vec(&self.map);
        snap_clear(&mut self.map);
        let mut pruned: u64 = 0;
        let mut i: usize = 0;
        while i < all.len()
            invariant
                0 <= i <= all@.len(),
                all@ == old(self).entries(),
                keys_sorted(all@),
                self.entries() == kept_entries(all@.subrange(0, i as int), cutoff),
                keys_sorted(self.entries()),
                pruned == i - kept_entries(all@.subrange(0, i as int), cutoff).len(),
                kept_entries(all@.subrange(0, i as int), cutoff).len() <= i,
            decreases all@.len() - i,
        {
            let (key, value) = all[i];
            let ghost prefix = all@.subrange(0, i as int);
            let ghost next_prefix = all@.subrange(0, i + 1 as int);
            proof {
                assert(next_prefix.drop_last() =~= prefix);
                assert(next_prefix.last() == all@[i as int]);
            }
            if key % TS_SPAN >= cutoff as u128 {
                proof {
                    lemma_kept_subset(prefix, cutoff);
                    assert forall|j: int| 0 <= j < self.entries().len() implies #[trigger] self
                        .entries()[j].0 < key by {
                        assert(prefix.contains(self.entries()[j]));
                        let jj = choose|jj: int|
                            0 <= jj < prefix.len() && prefix[jj] == self.entries()[j];
                        assert(all@[jj] == self.entries()[j]);
                    }
                    lemma_upsert_append(self.entries(), key, value);
                    lemma_upsert_sorted(self.entries(), key, value);
                }
                let _prior = snap_insert(&mut self.map, key, value);
                proof {
                    assert(ts_of(key) >= cutoff);
                    assert(kept_entries(next_prefix, cutoff) =~= self.entries());
                }
            } else {
                pruned = pruned + 1;
                proof {
                    assert(ts_of(key) < cutoff);
                    assert(kept_entries(next_prefix, cutoff) =~= self.entries());
                }
            }
            i = i + 1;
        }
        proof {
            assert(all@.subrange(0, all@.len() as int) =~= all@);
        }
        pruned
    }

    /// Deletes every row of one unit and reports how many went: the
    /// cascade of removing the unit from the registry.
    pub fn drop_unit(&mut self, unit: u64) -> (dropped: u64)
        requires
            old(self).wf(),
        ensures
            final(self).wf(),
            final(self).entries() == other_unit_entries(old(self).entries(), unit),
            dropped == old(self).entries().len() - final(self).entries().len(),
    {
        let all = snap_entries_vec(&self.map);
        snap_clear(&mut self.map);
        let mut dropped: u64 = 0;
        let mut i: usize = 0;
        while i < all.len()
            invariant
                0 <= i <= all@.len(),
                all@ == old(self).entries(),
                keys_sorted(all@),
                self.entries() == other_unit_entries(all@.subrange(0, i as int), unit),
                keys_sorted(self.entries()),
                dropped == i - other_unit_entries(all@.subrange(0, i as int), unit).len(),
                other_unit_entries(all@.subrange(0, i as int), unit).len() <= i,
            decreases all@.len() - i,
        {
            let (key, value) = all[i];
            let ghost prefix = all@.subrange(0, i as int);
            let ghost next_prefix = all@.subrange(0, i + 1 as int);
            proof {
                assert(next_prefix.drop_last() =~= prefix);
                assert(next_prefix.last() == all@[i as int]);
            }
            if (key / TS_SPAN) as u64 != unit {
                proof {
                    lemma_other_subset(prefix, unit);
                    assert forall|j: int| 0 <= j < self.entries().len() implies #[trigger] self
                        .entries()[j].0 < key by {
                        assert(prefix.contains(self.entries()[j]));
                        let jj = choose|jj: int|
                            0 <= jj < prefix.len() && prefix[jj] == self.entries()[j];
                        assert(all@[jj] == self.entries()[j]);
                    }
                    lemma_upsert_append(self.entries(), key, value);
                    lemma_upsert_sorted(self.entries(), key, value);
                }
                let _prior = snap_insert(&mut self.map, key, value);
                proof {
                    assert(unit_of(key) != unit);
                    assert(other_unit_entries(next_prefix, unit) =~= self.entries());
                }
            } else {
                dropped = dropped + 1;
                proof {
                    assert(unit_of(key) == unit);
                    assert(other_unit_entries(next_prefix, unit) =~= self.entries());
                }
            }
            i = i + 1;
        }
        proof {
            assert(all@.subrange(0, all@.len() as int) =~= all@);
        }
        dropped
    }

    /// Deletes every row.
    pub fn clear(&mut self)
        ensures
            final(self).wf(),
            final(self).entries() == Seq::<(u128, u128)>::empty(),
    {
        snap_clear(&mut self.map);
    }
}

/// No row of the dropped unit survives its cascade.
pub proof fn lemma_other_excludes(es: Seq<(u128, u128)>, unit: u64)
    ensures
        forall|k: int|
            0 <= k < other_unit_entries(es, unit).len() ==> unit_of(
                #[trigger] other_unit_entries(es, unit)[k].0,
            ) != unit,
    decreases es.len(),
{
    if es.len() > 0 {
        lemma_other_excludes(es.drop_last(), unit);
        assert forall|k: int| 0 <= k < other_unit_entries(es, unit).len() implies unit_of(
            #[trigger] other_unit_entries(es, unit)[k].0,
        ) != unit by {
            if k < other_unit_entries(es.drop_last(), unit).len() {
                assert(other_unit_entries(es, unit)[k] == other_unit_entries(
                    es.drop_last(),
                    unit,
                )[k]);
            }
        }
    }
}

/// Pruning is idempotent: a second pass at the same cutoff keeps all.
pub proof fn lemma_prune_idempotent(es: Seq<(u128, u128)>, cutoff: u64)
    ensures
        kept_entries(kept_entries(es, cutoff), cutoff) =~= kept_entries(es, cutoff),
    decreases es.len(),
{
    if es.len() > 0 {
        lemma_prune_idempotent(es.drop_last(), cutoff);
        let rest = kept_entries(es.drop_last(), cutoff);
        if ts_of(es.last().0) >= cutoff {
            assert(kept_entries(es, cutoff) == rest.push(es.last()));
            assert(rest.push(es.last()).drop_last() =~= rest);
        }
    }
}

/// What pruning keeps is exactly the rows at or after the cutoff: every
/// kept row was present with its timestamp in bounds, and every present
/// row with its timestamp in bounds is kept.
pub proof fn lemma_prune_exact(es: Seq<(u128, u128)>, cutoff: u64)
    ensures
        forall|j: int|
            0 <= j < kept_entries(es, cutoff).len() ==> es.contains(
                #[trigger] kept_entries(es, cutoff)[j],
            ) && ts_of(kept_entries(es, cutoff)[j].0) >= cutoff,
        forall|j: int|
            0 <= j < es.len() && ts_of(#[trigger] es[j].0) >= cutoff ==> kept_entries(
                es,
                cutoff,
            ).contains(es[j]),
    decreases es.len(),
{
    lemma_kept_subset(es, cutoff);
    if es.len() > 0 {
        lemma_prune_exact(es.drop_last(), cutoff);
        assert forall|j: int|
            0 <= j < kept_entries(es, cutoff).len() implies ts_of(
            #[trigger] kept_entries(es, cutoff)[j].0,
        ) >= cutoff by {
            let k = kept_entries(es, cutoff);
            if j < kept_entries(es.drop_last(), cutoff).len() {
                assert(k[j] == kept_entries(es.drop_last(), cutoff)[j]);
            }
        }
        assert forall|j: int|
            0 <= j < es.len() && ts_of(#[trigger] es[j].0) >= cutoff implies kept_entries(
            es,
            cutoff,
        ).contains(es[j]) by {
            if j < es.len() - 1 {
                assert(es.drop_last()[j] == es[j]);
                assert(kept_entries(es.drop_last(), cutoff).contains(es[j]));
                let jj = choose|jj: int|
                    0 <= jj < kept_entries(es.drop_last(), cutoff).len() && kept_entries(
                        es.drop_last(),
                        cutoff,
                    )[jj] == es[j];
                if ts_of(es.last().0) >= cutoff {
                    assert(kept_entries(es, cutoff)[jj] == es[j]);
                } else {
                    assert(kept_entries(es, cutoff)[jj] == es[j]);
                }
            } else {
                assert(es[j] == es.last());
                assert(kept_entries(es, cutoff).last() == es.last());
            }
        }
    }
}

} // verus!
