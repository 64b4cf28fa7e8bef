//! The Leaderboard/Query Service: read-only views built from the cached
//! registry fields.  Nothing here recomputes burn on the read path except
//! the explicitly on-demand thirty-day figure of the unit detail view.

use crate::burn::{burn_result, calculate_burn, data_spans_window, spans_window};
use crate::history::{unit_hist, HistoryStore};
use crate::projects::{spec_find_project, ProjectRegistry};
use crate::registry::{
    clone_opt_string, opt_bytes, row_index_of, spec_find, CanisterMeta, Registry,
};
use crate::types::{CanisterImport, LeaderboardEntry, Stats};
use crate::{MAX_PAGE_SIZE, NANOS_PER_DAY, NANOS_PER_HOUR, SEVEN_DAYS_NANOS};
use vstd::prelude::*;

verus! {

/// Nanoseconds in thirty days: the on-demand long window of the detail
/// view.
pub const THIRTY_DAYS_NANOS: u64 = 2_592_000_000_000_000;

/// The rank of a leaderboard entry: its cached one-day burn, unknown
/// counting as zero.
pub open spec fn lb_key(e: LeaderboardEntry) -> u128 {
    match e.burn_24h {
        Some(b) => b,
        None => 0,
    }
}

/// Ranks descend along the page.
pub open spec fn sorted_desc(s: Seq<LeaderboardEntry>) -> bool {
    forall|i: int, j: int| 0 <= i < j < s.len() ==> lb_key(s[i]) >= lb_key(s[j])
}

/// Unit ids are pairwise distinct along the page.
pub open spec fn entry_ids_distinct(s: Seq<LeaderboardEntry>) -> bool {
    forall|i: int, j: int| 0 <= i < j < s.len() ==> s[i].canister_id != s[j].canister_id
}

/// The entry faithfully mirrors the registry row of its unit, and the
/// unit may be listed under the filter.
pub open spec fn entry_ok(
    rows: Seq<(u64, CanisterMeta)>,
    e: LeaderboardEntry,
    valid_only: bool,
) -> bool {
    match spec_find(rows, e.canister_id) {
        Some(m) => {
            &&& e.balance == m.balance
            &&& e.burn_1h == m.burn_1h
            &&& e.burn_24h == m.burn_24h
            &&& e.burn_7d == m.burn_7d
            &&& opt_bytes(e.project) == opt_bytes(m.project_name)
            &&& (m.valid || !valid_only)
        },
        None => false,
    }
}

/// How many rows the leaderboard lists under the filter.
pub open spec fn count_listed(rows: Seq<(u64, CanisterMeta)>, valid_only: bool) -> int
    decreases rows.len(),
{
    if rows.len() == 0 {
        0
    } else {
        count_listed(rows.drop_last(), valid_only) + if rows.last().1.valid || !valid_only {
            1int
        } else {
            0int
        }
    }
}

/// The number of entries a page holds: the capped limit, or what remains
/// past the offset if that is less.
pub open spec fn page_len(total: int, offset: int, limit: int) -> int {
    let cap = if limit > MAX_PAGE_SIZE {
        MAX_PAGE_SIZE as int
    } else {
        limit
    };
    let avail = if offset >= total {
        0int
    } else {
        total - offset
    };
    if cap < avail {
        cap
    } else {
        avail
    }
}

/// Every row listed under the filter has its unit on the page.
pub open spec fn covers_all_listed(
    rows: Seq<(u64, CanisterMeta)>,
    page: Seq<LeaderboardEntry>,
    valid_only: bool,
) -> bool {
    forall|j: int|
        0 <= j < rows.len() && ((#[trigger] rows[j]).1.valid || !valid_only) ==> exists|a: int|
            0 <= a < page.len() && (#[trigger] page[a]).canister_id == rows[j].0
}

/// One leaderboard page with the true total and the echoed offset.
pub struct LeaderboardPage {
    pub entries: Vec<LeaderboardEntry>,
    pub total: u64,
    pub offset: u64,
}

fn lb_key_exec(e: &LeaderboardEntry) -> (r: u128)
    ensures
        r == lb_key(*e),
{
    match e.burn_24h {
        Some(b) => b,
        None => 0,
    }
}

fn clone_entry(e: &LeaderboardEntry) -> (r: LeaderboardEntry)
    ensures
        r.canister_id == e.canister_id,
        opt_bytes(r.project) == opt_bytes(e.project),
        r.balance == e.balance,
        r.burn_1h == e.burn_1h,
        r.burn_24h == e.burn_24h,
        r.burn_7d == e.burn_7d,
{
    LeaderboardEntry {
        canister_id: e.canister_id,
        project: clone_opt_string(&e.project),
        balance: e.balance,
        burn_1h: e.burn_1h,
        burn_24h: e.burn_24h,
        burn_7d: e.burn_7d,
    }
}

/// Every pair is the canonical pair of its index into `orig`, and no two
/// pairs share an index.
pub open spec fn pairs_canonical(v: Seq<(u128, usize)>, orig: Seq<(u128, usize)>) -> bool {
    &&& forall|a: int|
        0 <= a < v.len() ==> #[trigger] v[a].1 < orig.len() && v[a] == orig[v[a].1 as int]
    &&& forall|a: int, b: int| 0 <= a < b < v.len() ==> v[a].1 != v[b].1
}

/// Sorts `(rank, index)` pairs descending by rank with an insertion sort
/// that keeps equal ranks in their arrival order: among equal ranks the
/// indices still ascend.
fn sort_pairs(v: &mut Vec<(u128, usize)>, Ghost(orig): Ghost<Seq<(u128, usize)>>)
    requires
        pairs_canonical(old(v)@, orig),
        forall|a: int| 0 <= a < old(v)@.len() ==> (#[trigger] old(v)@[a]).1 == a,
    ensures
        final(v)@.len() == old(v)@.len(),
        pairs_canonical(final(v)@, orig),
        forall|i: int, j: int| 0 <= i < j < final(v)@.len() ==> final(v)@[i].0 >= final(v)@[j].0,
        forall|i: int, j: int|
            0 <= i < j < final(v)@.len() && final(v)@[i].0 == final(v)@[j].0 ==> final(v)@[i].1
                < final(v)@[j].1,
{
    if v.len() < 2 {
        return ;
    }
    let mut k: usize = 1;
    while k < v.len()
        invariant
            1 <= k <= v@.len(),
            v@.len() == old(v)@.len(),
            pairs_canonical(v@, orig),
            forall|i: int, j: int| 0 <= i < j < k ==> v@[i].0 >= v@[j].0,
            forall|i: int, j: int|
                0 <= i < j < k && v@[i].0 == v@[j].0 ==> v@[i].1 < v@[j].1,
            forall|a: int| k <= a < v@.len() ==> (#[trigger] v@[a]).1 == a,
            forall|a: int| 0 <= a < k ==> (#[trigger] v@[a]).1 < k,
        decreases v@.len() - k,
    {
        let ek = v[k].0;
        let mut p: usize = 0;
        while p < k && v[p].0 >= ek
            invariant
                0 <= p <= k < v@.len(),
                forall|q: int| 0 <= q < p ==> #[trigger] v@[q].0 >= ek,
            decreases k - p,
        {
            p = p + 1;
        }
        if p < k {
            let ghost before = v@;
            let e = v.remove(k);
            v.insert(p, e);
            proof {
                let now_v = v@;
                assert forall|q: int| 0 <= q < now_v.len() implies now_v[q] == (if q < p {
                    before[q]
                } else if q == p {
                    before[k as int]
                } else if q <= k {
                    before[q - 1]
                } else {
                    before[q]
                }) by {
                    assert(now_v =~= before.remove(k as int).insert(p as int, before[k as int]));
                }
                assert forall|i: int, j: int| 0 <= i < j < k + 1 implies now_v[i].0
                    >= now_v[j].0 by {}
                assert forall|a: int, b: int| 0 <= a < b < now_v.len() implies now_v[a].1
                    != now_v[b].1 by {}
                assert forall|i: int, j: int|
                    0 <= i < j < k + 1 && now_v[i].0 == now_v[j].0 implies now_v[i].1
                    < now_v[j].1 by {
                    if j == p {
                        assert(now_v[i] == before[i]);
                        assert(before[i].1 < k);
                        assert(now_v[j] == before[k as int]);
                    } else if i == p {
                        assert(now_v[j] == before[j - 1]);
                        assert(before[j - 1].0 <= before[p as int].0);
                        assert(before[p as int].0 < ek);
                    }
                }
            }
        } else {
            proof {
                assert forall|i: int, j: int|
                    0 <= i < j < k + 1 && v@[i].0 == v@[j].0 implies v@[i].1 < v@[j].1 by {
                    if j == k {
                        assert(v@[i].1 < k);
                        assert(v@[k as int].1 == k);
                    }
                }
            }
        }
        k = k + 1;
    }
}

proof fn lemma_count_listed_nonneg(rows: Seq<(u64, CanisterMeta)>, valid_only: bool)
    ensures
        count_listed(rows, valid_only) >= 0,
    decreases rows.len(),
{
    if rows.len() > 0 {
        lemma_count_listed_nonneg(rows.drop_last(), valid_only);
    }
}

proof fn lemma_listed_row_counts(rows: Seq<(u64, CanisterMeta)>, j: int, valid_only: bool)
    requires
        0 <= j < rows.len(),
        rows[j].1.valid || !valid_only,
    ensures
        count_listed(rows, valid_only) > 0,
    decreases rows.len(),
{
    if j < rows.len() - 1 {
        assert(rows.drop_last()[j] == rows[j]);
        lemma_listed_row_counts(rows.drop_last(), j, valid_only);
    } else {
        lemma_count_listed_nonneg(rows.drop_last(), valid_only);
    }
}

/// A canonical pair list as long as its origin reaches every index: the
/// pigeonhole step behind the leaderboards' completeness.
proof fn lemma_canonical_complete(v: Seq<(u128, usize)>, orig: Seq<(u128, usize)>, idx: int)
    requires
        pairs_canonical(v, orig),
        v.len() == orig.len(),
        0 <= idx < orig.len(),
    ensures
        exists|a: int| 0 <= a < v.len() && #[trigger] v[a].1 == idx,
{
    broadcast use vstd::seq_lib::seq_to_set_is_finite;

    let idxs = v.map_values(|p: (u128, usize)| p.1 as int);
    assert(idxs.no_duplicates());
    idxs.unique_seq_to_set();
    let range = vstd::set_lib::set_int_range(0, orig.len() as int);
    vstd::set_lib::lemma_int_range(0, orig.len() as int);
    assert(idxs.to_set().subset_of(range)) by {
        assert forall|x: int| idxs.to_set().contains(x) implies range.contains(x) by {
            let a = choose|a: int| 0 <= a < idxs.len() && idxs[a] == x;
            assert(v[a].1 < orig.len());
        }
    }
    vstd::set_lib::lemma_subset_equality(idxs.to_set(), range);
    assert(range.contains(idx));
    assert(idxs.to_set().contains(idx));
    let a = choose|a: int| 0 <= a < idxs.len() && idxs[a] == idx;
    assert(0 <= a < v.len() && v[a].1 == idx);
}

fn build_entries(reg: &Registry, valid_only: bool) -> (entries: Vec<LeaderboardEntry>)
    requires
        reg.wf(),
    ensures
        entries@.len() == count_listed(reg.rows(), valid_only),
        entry_ids_distinct(entries@),
        forall|a: int|
            0 <= a < entries@.len() ==> #[trigger] entry_ok(reg.rows(), entries@[a], valid_only),
        forall|j: int|
            0 <= j < reg.rows().len() && ((#[trigger] reg.rows()[j]).1.valid || !valid_only)
                ==> exists|a: int|
                0 <= a < entries@.len() && entries@[a].canister_id == reg.rows()[j].0,
        forall|a: int, b: int|
            0 <= a < b < entries@.len() ==> row_index_of(
                reg.rows(),
                (#[trigger] entries@[a]).canister_id,
            ) < row_index_of(reg.rows(), (#[trigger] entries@[b]).canister_id),
{
    let ghost rows = reg.rows();
    let mut entries: Vec<LeaderboardEntry> = Vec::new();
    let mut i: usize = 0;
    while i < reg.len()
        invariant
            reg.wf(),
            rows == reg.rows(),
            0 <= i <= rows.len(),
            entries@.len() == count_listed(rows.subrange(0, i as int), valid_only),
            entry_ids_distinct(entries@),
            forall|a: int|
                0 <= a < entries@.len() ==> #[trigger] entry_ok(rows, entries@[a], valid_only),
            forall|j: int, a: int|
                i <= j < rows.len() && 0 <= a < entries@.len() ==> #[trigger] entries@[a].canister_id
                    != #[trigger] rows[j].0,
            forall|j: int|
                0 <= j < i && ((#[trigger] rows[j]).1.valid || !valid_only) ==> exists|a: int|
                    0 <= a < entries@.len() && entries@[a].canister_id == rows[j].0,
            forall|a: int|
                0 <= a < entries@.len() ==> 0 <= row_index_of(
                    rows,
                    (#[trigger] entries@[a]).canister_id,
                ) < i,
            forall|a: int, b: int|
                0 <= a < b < entries@.len() ==> row_index_of(
                    rows,
                    (#[trigger] entries@[a]).canister_id,
                ) < row_index_of(rows, (#[trigger] entries@[b]).canister_id),
        decreases rows.len() - i,
    {
        let ghost prefix = rows.subrange(0, i as int);
        let ghost next_prefix = rows.subrange(0, i + 1 as int);
        proof {
            assert(next_prefix.drop_last() =~= prefix);
            assert(next_prefix.last() == rows[i as int]);
        }
        let ghost before = entries@;
        let row = reg.row_at(i);
        if row.1.valid || !valid_only {
            proof {
                crate::registry::lemma_find_of_index(rows, i as int);
                crate::registry::lemma_row_index_of(rows, i as int);
            }
            let e = LeaderboardEntry {
                canister_id: row.0,
                project: clone_opt_string(&row.1.project_name),
                balance: row.1.balance,
                burn_1h: row.1.burn_1h,
                burn_24h: row.1.burn_24h,
                burn_7d: row.1.burn_7d,
            };
            entries.push(e);
        }
        proof {
            assert forall|j: int|
                0 <= j < i + 1 && ((#[trigger] rows[j]).1.valid || !valid_only) implies exists|
                a: int,
            | 0 <= a < entries@.len() && entries@[a].canister_id == rows[j].0 by {
                if j == i {
                    assert(entries@[entries@.len() - 1].canister_id == rows[j].0);
                } else {
                    let a0 = choose|a0: int|
                        0 <= a0 < before.len() && before[a0].canister_id == rows[j].0;
                    assert(entries@[a0].canister_id == rows[j].0);
                }
            }
        }
        i = i + 1;
    }
    proof {
        assert(rows.subrange(0, rows.len() as int) =~= rows);
    }
    entries
}

/// The paginated leaderboard: the units passing the validity filter,
/// ranked descending by cached one-day burn, the page cut at the capped
/// limit, beside the true total and the echoed offset.
pub fn get_leaderboard(reg: &Registry, offset: u64, limit: u64, valid_only: bool) -> (r:
    LeaderboardPage)
    requires
        reg.wf(),
    ensures
        r.total == count_listed(reg.rows(), valid_only),
        r.offset == offset,
        r.entries@.len() == page_len(
            count_listed(reg.rows(), valid_only),
            offset as int,
            limit as int,
        ),
        sorted_desc(r.entries@),
        entry_ids_distinct(r.entries@),
        forall|a: int|
            0 <= a < r.entries@.len() ==> #[trigger] entry_ok(reg.rows(), r.entries@[a], valid_only),
        forall|i: int, j: int|
            0 <= i < j < r.entries@.len() && lb_key(r.entries@[i]) == lb_key(r.entries@[j])
                ==> row_index_of(reg.rows(), (#[trigger] r.entries@[i]).canister_id)
                < row_index_of(reg.rows(), (#[trigger] r.entries@[j]).canister_id),
        page_len(count_listed(reg.rows(), valid_only), offset as int, limit as int)
            == count_listed(reg.rows(), valid_only) ==> covers_all_listed(
            reg.rows(),
            r.entries@,
            valid_only,
        ),
{
    let entries = build_entries(reg, valid_only);
    let n = entries.len();
    let mut pairs: Vec<(u128, usize)> = Vec::new();
    let mut i: usize = 0;
    while i < n
        invariant
            0 <= i <= n,
            n == entries@.len(),
            pairs@.len() == i,
            forall|a: int|
                0 <= a < i ==> #[trigger] pairs@[a] == (lb_key(entries@[a]), a as usize),
        decreases n - i,
    {
        let key = lb_key_exec(&entries[i]);
        pairs.push((key, i));
        i = i + 1;
    }
    let ghost orig = pairs@;
    proof {
        assert forall|a: int| 0 <= a < orig.len() implies #[trigger] orig[a].1 < orig.len()
            && orig[a] == orig[orig[a].1 as int] by {}
        assert(forall|a: int| 0 <= a < pairs@.len() ==> (#[trigger] pairs@[a]).1 == a);
    }
    sort_pairs(&mut pairs, Ghost(orig));
    let cap: usize = if limit > MAX_PAGE_SIZE as u64 {
        MAX_PAGE_SIZE
    } else {
        limit as usize
    };
    let start: usize = if offset >= n as u64 {
        n
    } else {
        offset as usize
    };
    let end: usize = if n - start < cap {
        n
    } else {
        start + cap
    };
    let mut page: Vec<LeaderboardEntry> = Vec::new();
    let mut q: usize = start;
    while q < end
        invariant
            start <= q <= end <= n,
            n == entries@.len(),
            pairs@.len() == n,
            pairs_canonical(pairs@, orig),
            orig.len() == n,
            forall|a: int| 0 <= a < n ==> #[trigger] orig[a] == (lb_key(entries@[a]), a as usize),
            forall|i2: int, j2: int| 0 <= i2 < j2 < n ==> pairs@[i2].0 >= pairs@[j2].0,
            entry_ids_distinct(entries@),
            forall|a: int|
                0 <= a < entries@.len() ==> #[trigger] entry_ok(reg.rows(), entries@[a], valid_only),
            page@.len() == q - start,
            forall|a: int|
                0 <= a < page@.len() ==> #[trigger] page@[a].canister_id == entries@[pairs@[start
                    + a].1 as int].canister_id,
            forall|a: int| 0 <= a < page@.len() ==> #[trigger] lb_key(page@[a]) == pairs@[start
                + a].0,
            forall|a: int|
                0 <= a < page@.len() ==> #[trigger] entry_ok(reg.rows(), page@[a], valid_only),
        decreases end - q,
    {
        let idx = pairs[q].1;
        proof {
            assert(entry_ok(reg.rows(), entries@[idx as int], valid_only));
        }
        let e = clone_entry(&entries[idx]);
        proof {
            assert(entry_ok(reg.rows(), e, valid_only));
        }
        page.push(e);
        q = q + 1;
    }
    proof {
        assert forall|i2: int, j2: int| 0 <= i2 < j2 < page@.len() implies page@[i2].canister_id
            != page@[j2].canister_id by {
            assert(pairs@[start + i2].1 != pairs@[start + j2].1);
        }
        assert forall|i2: int, j2: int|
            0 <= i2 < j2 < page@.len() && lb_key(page@[i2]) == lb_key(page@[j2]) implies
            row_index_of(reg.rows(), (#[trigger] page@[i2]).canister_id) < row_index_of(
            reg.rows(),
            (#[trigger] page@[j2]).canister_id,
        ) by {
            assert(pairs@[start + i2].0 == pairs@[start + j2].0);
            assert(pairs@[start + i2].1 < pairs@[start + j2].1);
            assert(page@[i2].canister_id == entries@[pairs@[start + i2].1 as int].canister_id);
            assert(page@[j2].canister_id == entries@[pairs@[start + j2].1 as int].canister_id);
        }
        let count = count_listed(reg.rows(), valid_only);
        if page_len(count, offset as int, limit as int) == count {
            assert forall|j: int|
                0 <= j < reg.rows().len() && ((#[trigger] reg.rows()[j]).1.valid
                    || !valid_only) implies exists|a: int|
                0 <= a < page@.len() && (#[trigger] page@[a]).canister_id == reg.rows()[j].0 by {
                assert(reg.rows()[j].1.valid || !valid_only);
                lemma_listed_row_counts(reg.rows(), j, valid_only);
                assert(start == 0 && end == n);
                let b = choose|b: int|
                    0 <= b < entries@.len() && entries@[b].canister_id == reg.rows()[j].0;
                lemma_canonical_complete(pairs@, orig, b);
                let a = choose|a: int| 0 <= a < pairs@.len() && pairs@[a].1 == b;
                assert(pairs@[a] == orig[b as int]);
                assert(page@[a].canister_id == entries@[pairs@[start + a].1 as int].canister_id);
                assert(page@[a].canister_id == reg.rows()[j].0);
            }
            assert(covers_all_listed(reg.rows(), page@, valid_only));
        }
    }
    LeaderboardPage { entries: page, total: n as u64, offset }
}

/// Aggregate statistics: unit, snapshot and project counts, and the
/// oldest and newest snapshot timestamps over every unit.
pub fn get_stats(reg: &Registry, projects: &ProjectRegistry, history: &HistoryStore) -> (r: Stats)
    ensures
        r.canister_count == reg.rows().len(),
        r.snapshot_count == history.entries().len(),
        r.project_count == projects.rows().len(),
        r.oldest_snapshot == (if history.entries().len() == 0 {
            Option::<u64>::None
        } else {
            Option::<u64>::Some(crate::history::min_ts(history.entries()))
        }),
        r.newest_snapshot == (if history.entries().len() == 0 {
            Option::<u64>::None
        } else {
            Option::<u64>::Some(crate::history::max_ts(history.entries()))
        }),
{
    let all = history.all_entries();
    let (oldest, newest) = if all.len() == 0 {
        (None, None)
    } else {
        let mut lo: u64 = (all[0].0 % crate::history::TS_SPAN) as u64;
        let mut hi: u64 = lo;
        let mut i: usize = 1;
        while i < all.len()
            invariant
                1 <= i <= all@.len(),
                all@.len() >= 1,
                lo == crate::history::min_ts(all@.subrange(0, i as int)),
                hi == crate::history::max_ts(all@.subrange(0, i as int)),
            decreases all@.len() - i,
        {
            let ghost prefix = all@.subrange(0, i as int);
            let ghost next_prefix = all@.subrange(0, i + 1 as int);
            proof {
                assert(next_prefix.drop_last() =~= prefix);
                assert(next_prefix.last() == all@[i as int]);
            }
            let ts = (all[i].0 % crate::history::TS_SPAN) as u64;
            if ts < lo {
                lo = ts;
            }
            if ts > hi {
                hi = ts;
            }
            i = i + 1;
        }
        proof {
            assert(all@.subrange(0, all@.len() as int) =~= all@);
        }
        (Some(lo), Some(hi))
    };
    Stats {
        canister_count: reg.len() as u64,
        snapshot_count: history.count(),
        project_count: projects.len() as u64,
        oldest_snapshot: oldest,
        newest_snapshot: newest,
    }
}

/// How many units are registered.
pub fn get_canister_count(reg: &Registry) -> (n: u64)
    ensures
        n == reg.rows().len(),
{
    reg.len() as u64
}

/// The full detail of one unit: its metadata and cached figures, a
/// thirty-day burn computed on demand from history, and the complete
/// retained snapshot sequence.
pub struct CanisterDetail {
    pub canister_id: u64,
    pub proxy_id: u64,
    pub proxy_type: crate::types::ProxyType,
    pub project: Option<String>,
    pub valid: bool,
    pub balance: u128,
    pub burn_1h: Option<u128>,
    pub burn_24h: Option<u128>,
    pub burn_7d: Option<u128>,
    pub burn_30d: Option<u128>,
    pub history: Vec<(u64, u128)>,
}

/// One window of the history view: the cached figure and whether the
/// retained data actually spans the window.
pub struct WindowBurn {
    pub window_nanos: u64,
    pub burn: Option<u128>,
    pub spans: bool,
}

/// The detail of one unit, or nothing for an unknown id.
pub fn get_unit(reg: &Registry, history: &HistoryStore, id: u64, now: u64) -> (r: Option<
    CanisterDetail,
>)
    ensures
        match spec_find(reg.rows(), id) {
            None => r is None,
            Some(m) => match r {
                Some(d) => {
                    &&& d.canister_id == id
                    &&& d.proxy_id == m.proxy_id
                    &&& d.proxy_type == m.proxy_type
                    &&& opt_bytes(d.project) == opt_bytes(m.project_name)
                    &&& d.valid == m.valid
                    &&& d.balance == m.balance
                    &&& d.burn_1h == m.burn_1h
                    &&& d.burn_24h == m.burn_24h
                    &&& d.burn_7d == m.burn_7d
                    &&& d.burn_30d == burn_result(
                        unit_hist(history.entries(), id),
                        THIRTY_DAYS_NANOS,
                        now,
                    )
                    &&& d.history@ == unit_hist(history.entries(), id)
                },
                None => false,
            },
        },
{
    match reg.get(id) {
        None => None,
        Some(m) => {
            let hist = history.unit_history(id);
            let burn_30d = calculate_burn(&hist, THIRTY_DAYS_NANOS, now);
            Some(
                CanisterDetail {
                    canister_id: id,
                    proxy_id: m.proxy_id,
                    proxy_type: m.proxy_type,
                    project: clone_opt_string(&m.project_name),
                    valid: m.valid,
                    balance: m.balance,
                    burn_1h: m.burn_1h,
                    burn_24h: m.burn_24h,
                    burn_7d: m.burn_7d,
                    burn_30d,
                    history: hist,
                },
            )
        },
    }
}

/// The detail of one unit plus, per cached window, whether the retained
/// data spans that window or the figure was extrapolated.
pub fn get_unit_history(reg: &Registry, history: &HistoryStore, id: u64, now: u64) -> (r: Option<
    (CanisterDetail, Vec<WindowBurn>),
>)
    ensures
        match spec_find(reg.rows(), id) {
            None => r is None,
            Some(m) => match r {
                Some((d, w)) => {
                    &&& d.canister_id == id
                    &&& w@.len() == 3
                    &&& w@[0].window_nanos == NANOS_PER_HOUR
                    &&& w@[1].window_nanos == NANOS_PER_DAY
                    &&& w@[2].window_nanos == SEVEN_DAYS_NANOS
                    &&& w@[0].burn == m.burn_1h
                    &&& w@[1].burn == m.burn_24h
                    &&& w@[2].burn == m.burn_7d
                    &&& w@[0].spans == spans_window(
                        unit_hist(history.entries(), id),
                        NANOS_PER_HOUR,
                        now,
                    )
                    &&& w@[1].spans == spans_window(
                        unit_hist(history.entries(), id),
                        NANOS_PER_DAY,
                        now,
                    )
                    &&& w@[2].spans == spans_window(
                        unit_hist(history.entries(), id),
                        SEVEN_DAYS_NANOS,
                        now,
                    )
                },
                None => false,
            },
        },
{
    match get_unit(reg, history, id, now) {
        None => None,
        Some(d) => {
            let hist = history.unit_history(id);
            let mut w: Vec<WindowBurn> = Vec::new();
            w.push(
                WindowBurn {
                    window_nanos: NANOS_PER_HOUR,
                    burn: d.burn_1h,
                    spans: data_spans_window(&hist, NANOS_PER_HOUR, now),
                },
            );
            w.push(
                WindowBurn {
                    window_nanos: NANOS_PER_DAY,
                    burn: d.burn_24h,
                    spans: data_spans_window(&hist, NANOS_PER_DAY, now),
                },
            );
            w.push(
                WindowBurn {
                    window_nanos: SEVEN_DAYS_NANOS,
                    burn: d.burn_7d,
                    spans: data_spans_window(&hist, SEVEN_DAYS_NANOS, now),
                },
            );
            Some((d, w))
        },
    }
}

/// Bulk export of the registry in round-trippable form: importing the
/// result into an empty registry recreates every row's administered
/// fields.
pub fn export_canisters(reg: &Registry) -> (r: Vec<CanisterImport>)
    requires
        reg.wf(),
    ensures
        r@.len() == reg.rows().len(),
        forall|i: int|
            0 <= i < r@.len() ==> {
                let row = #[trigger] reg.rows()[i];
                &&& r@[i].canister_id == row.0
                &&& r@[i].proxy_id == Some(row.1.proxy_id)
                &&& r@[i].proxy_type == Some(row.1.proxy_type)
                &&& opt_bytes(r@[i].project) == opt_bytes(row.1.project_name)
                &&& r@[i].valid == Some(row.1.valid)
            },
{
    let mut r: Vec<CanisterImport> = Vec::new();
    let mut i: usize = 0;
    while i < reg.len()
        invariant
            0 <= i <= reg.rows().len(),
            r@.len() == i,
            forall|j: int|
                0 <= j < i ==> {
                    let row = #[trigger] reg.rows()[j];
                    &&& r@[j].canister_id == row.0
                    &&& r@[j].proxy_id == Some(row.1.proxy_id)
                    &&& r@[j].proxy_type == Some(row.1.proxy_type)
                    &&& opt_bytes(r@[j].project) == opt_bytes(row.1.project_name)
                    &&& r@[j].valid == Some(row.1.valid)
                },
        decreases reg.rows().len() - i,
    {
        let row = reg.row_at(i);
        r.push(
            CanisterImport {
                canister_id: row.0,
                proxy_id: Some(row.1.proxy_id),
                proxy_type: Some(row.1.proxy_type),
                project: clone_opt_string(&row.1.project_name),
                valid: Some(row.1.valid),
            },
        );
        i = i + 1;
    }
    r
}

/// The unit ids carrying one project label: every registered unit whose
/// label matches, each exactly once.
pub fn get_project_canisters(reg: &Registry, label: &String) -> (r: Vec<u64>)
    requires
        reg.wf(),
    ensures
        forall|a: int, b: int| 0 <= a < b < r@.len() ==> r@[a] != r@[b],
        forall|a: int|
            0 <= a < r@.len() ==> match spec_find(reg.rows(), #[trigger] r@[a]) {
                Some(m) => match m.project_name {
                    Some(p) => p@ == label@,
                    None => false,
                },
                None => false,
            },
        forall|j: int|
            0 <= j < reg.rows().len() && (match (#[trigger] reg.rows()[j]).1.project_name {
                Some(p) => p@ == label@,
                None => false,
            }) ==> exists|a: int| 0 <= a < r@.len() && #[trigger] r@[a] == reg.rows()[j].0,
{
    let mut r: Vec<u64> = Vec::new();
    let mut i: usize = 0;
    while i < reg.len()
        invariant
            reg.wf(),
            0 <= i <= reg.rows().len(),
            forall|a: int, b: int| 0 <= a < b < r@.len() ==> r@[a] != r@[b],
            forall|a: int|
                0 <= a < r@.len() ==> match spec_find(reg.rows(), #[trigger] r@[a]) {
                    Some(m) => match m.project_name {
                        Some(p) => p@ == label@,
                        None => false,
                    },
                    None => false,
                },
            forall|j: int, a: int|
                i <= j < reg.rows().len() && 0 <= a < r@.len() ==> #[trigger] r@[a]
                    != #[trigger] reg.rows()[j].0,
            forall|j: int|
                0 <= j < i && (match (#[trigger] reg.rows()[j]).1.project_name {
                    Some(p) => p@ == label@,
                    None => false,
                }) ==> exists|a: int| 0 <= a < r@.len() && #[trigger] r@[a] == reg.rows()[j].0,
        decreases reg.rows().len() - i,
    {
        let ghost before = r@;
        let row = reg.row_at(i);
        let matches_label = match &row.1.project_name {
            Some(p) => p.eq(label),
            None => false,
        };
        if matches_label {
            proof {
                crate::registry::lemma_find_of_index(reg.rows(), i as int);
            }
            r.push(row.0);
        }
        proof {
            assert forall|j: int|
                0 <= j < i + 1 && (match (#[trigger] reg.rows()[j]).1.project_name {
                    Some(p) => p@ == label@,
                    None => false,
                }) implies exists|a: int| 0 <= a < r@.len() && #[trigger] r@[a]
                == reg.rows()[j].0 by {
                if j == i {
                    assert(r@[r@.len() - 1] == reg.rows()[j].0);
                } else {
                    let a0 = choose|a0: int| 0 <= a0 < before.len() && before[a0] == reg.rows()[j].0;
                    assert(r@[a0] == reg.rows()[j].0);
                }
            }
        }
        i = i + 1;
    }
    r
}

/// One project leaderboard row: the label, its website and aggregates.
pub struct ProjectLeaderboardEntry {
    pub project: String,
    pub website: Option<String>,
    pub canister_count: u64,
    pub total_balance: u128,
    pub total_burn_1h: u128,
    pub total_burn_24h: u128,
    pub total_burn_7d: u128,
}

/// The row faithfully mirrors its project's registry row, which counts at
/// least one unit.
pub open spec fn project_entry_ok(
    rows: Seq<(String, crate::projects::ProjectMeta)>,
    e: ProjectLeaderboardEntry,
) -> bool {
    match spec_find_project(rows, e.project@) {
        Some(m) => {
            &&& opt_bytes(e.website) == opt_bytes(m.website)
            &&& e.canister_count == m.canister_count
            &&& e.canister_count > 0
            &&& e.total_balance == m.total_balance
            &&& e.total_burn_1h == m.total_burn_1h
            &&& e.total_burn_24h == m.total_burn_24h
            &&& e.total_burn_7d == m.total_burn_7d
        },
        None => false,
    }
}

/// How many project rows count at least one unit.
pub open spec fn count_nonzero(rows: Seq<(String, crate::projects::ProjectMeta)>) -> int
    decreases rows.len(),
{
    if rows.len() == 0 {
        0
    } else {
        count_nonzero(rows.drop_last()) + if rows.last().1.canister_count > 0 {
            1int
        } else {
            0int
        }
    }
}

/// The project leaderboard: one row per label with a nonzero unit count,
/// ranked descending by total one-day burn.
pub fn get_project_leaderboard(projects: &ProjectRegistry) -> (r: Vec<ProjectLeaderboardEntry>)
    requires
        projects.wf(),
    ensures
        r@.len() == count_nonzero(projects.rows()),
        forall|i: int, j: int|
            0 <= i < j < r@.len() ==> r@[i].total_burn_24h >= r@[j].total_burn_24h,
        forall|i: int, j: int| 0 <= i < j < r@.len() ==> r@[i].project@ != r@[j].project@,
        forall|a: int| 0 <= a < r@.len() ==> #[trigger] project_entry_ok(projects.rows(), r@[a]),
        forall|j: int|
            0 <= j < projects.rows().len() && (#[trigger] projects.rows()[j]).1.canister_count > 0
                ==> exists|a: int|
                0 <= a < r@.len() && (#[trigger] r@[a]).project@ == projects.rows()[j].0@,
{
    let ghost rows = projects.rows();
    let mut entries: Vec<ProjectLeaderboardEntry> = Vec::new();
    let mut i: usize = 0;
    while i < projects.len()
        invariant
            projects.wf(),
            rows == projects.rows(),
            0 <= i <= rows.len(),
            entries@.len() == count_nonzero(rows.subrange(0, i as int)),
            forall|a: int, b: int|
                0 <= a < b < entries@.len() ==> entries@[a].project@ != entries@[b].project@,
            forall|a: int|
                0 <= a < entries@.len() ==> #[trigger] project_entry_ok(rows, entries@[a]),
            forall|j: int, a: int|
                i <= j < rows.len() && 0 <= a < entries@.len() ==> #[trigger] entries@[a].project@
                    != #[trigger] rows[j].0@,
            forall|j: int|
                0 <= j < i && (#[trigger] rows[j]).1.canister_count > 0 ==> exists|a: int|
                    0 <= a < entries@.len() && (#[trigger] entries@[a]).project@ == rows[j].0@,
        decreases rows.len() - i,
    {
        let ghost prefix = rows.subrange(0, i as int);
        let ghost next_prefix = rows.subrange(0, i + 1 as int);
        proof {
            assert(next_prefix.drop_last() =~= prefix);
            assert(next_prefix.last() == rows[i as int]);
        }
        let ghost before = entries@;
        let row = projects.row_at(i);
        if row.1.canister_count > 0 {
            proof {
                crate::projects::lemma_project_find_of_index(rows, i as int);
            }
            entries.push(
                ProjectLeaderboardEntry {
                    project: row.0.clone(),
                    website: clone_opt_string(&row.1.website),
                    canister_count: row.1.canister_count,
                    total_balance: row.1.total_balance,
                    total_burn_1h: row.1.total_burn_1h,
                    total_burn_24h: row.1.total_burn_24h,
                    total_burn_7d: row.1.total_burn_7d,
                },
            );
        }
        proof {
            assert forall|j: int|
                0 <= j < i + 1 && (#[trigger] rows[j]).1.canister_count > 0 implies exists|
                a: int,
            | 0 <= a < entries@.len() && (#[trigger] entries@[a]).project@ == rows[j].0@ by {
                if j == i {
                    assert(entries@[entries@.len() - 1].project@ == rows[j].0@);
                } else {
                    let a0 = choose|a0: int|
                        0 <= a0 < before.len() && before[a0].project@ == rows[j].0@;
                    assert(entries@[a0].project@ == rows[j].0@);
                }
            }
        }
        i = i + 1;
    }
    proof {
        assert(rows.subrange(0, rows.len() as int) =~= rows);
    }
    let n = entries.len();
    let mut pairs: Vec<(u128, usize)> = Vec::new();
    let mut i2: usize = 0;
    while i2 < n
        invariant
            0 <= i2 <= n,
            n == entries@.len(),
            pairs@.len() == i2,
            forall|a: int|
                0 <= a < i2 ==> #[trigger] pairs@[a] == (entries@[a].total_burn_24h, a as usize),
        decreases n - i2,
    {
        pairs.push((entries[i2].total_burn_24h, i2));
        i2 = i2 + 1;
    }
    let ghost orig = pairs@;
    proof {
        assert forall|a: int| 0 <= a < orig.len() implies #[trigger] orig[a].1 < orig.len()
            && orig[a] == orig[orig[a].1 as int] by {}
        assert(forall|a: int| 0 <= a < pairs@.len() ==> (#[trigger] pairs@[a]).1 == a);
    }
    sort_pairs(&mut pairs, Ghost(orig));
    let mut out: Vec<ProjectLeaderboardEntry> = Vec::new();
    let mut q: usize = 0;
    while q < n
        invariant
            0 <= q <= n,
            n == entries@.len(),
            pairs@.len() == n,
            pairs_canonical(pairs@, orig),
            orig.len() == n,
            forall|a: int|
                0 <= a < n ==> #[trigger] orig[a] == (entries@[a].total_burn_24h, a as usize),
            forall|i3: int, j3: int| 0 <= i3 < j3 < n ==> pairs@[i3].0 >= pairs@[j3].0,
            forall|a: int, b: int|
                0 <= a < b < entries@.len() ==> entries@[a].project@ != entries@[b].project@,
            forall|a: int|
                0 <= a < entries@.len() ==> #[trigger] project_entry_ok(rows, entries@[a]),
            out@.len() == q,
            forall|a: int|
                0 <= a < q ==> #[trigger] out@[a].project@ == entries@[pairs@[a].1 as int].project@,
            forall|a: int| 0 <= a < q ==> #[trigger] out@[a].total_burn_24h == pairs@[a].0,
            forall|a: int| 0 <= a < q ==> #[trigger] project_entry_ok(rows, out@[a]),
        decreases n - q,
    {
        let idx = pairs[q].1;
        proof {
            assert(project_entry_ok(rows, entries@[idx as int]));
        }
        let src = &entries[idx];
        let e = ProjectLeaderboardEntry {
            project: src.project.clone(),
            website: clone_opt_string(&src.website),
            canister_count: src.canister_count,
            total_balance: src.total_balance,
            total_burn_1h: src.total_burn_1h,
            total_burn_24h: src.total_burn_24h,
            total_burn_7d: src.total_burn_7d,
        };
        proof {
            assert(project_entry_ok(rows, e));
        }
        out.push(e);
        q = q + 1;
    }
    proof {
        assert forall|i3: int, j3: int| 0 <= i3 < j3 < out@.len() implies out@[i3].project@
            != out@[j3].project@ by {
            assert(pairs@[i3].1 != pairs@[j3].1);
        }
        assert forall|j: int|
            0 <= j < rows.len() && (#[trigger] rows[j]).1.canister_count > 0 implies exists|
            a: int,
        | 0 <= a < out@.len() && (#[trigger] out@[a]).project@ == rows[j].0@ by {
            let b = choose|b: int| 0 <= b < entries@.len() && entries@[b].project@ == rows[j].0@;
            lemma_canonical_complete(pairs@, orig, b);
            let a = choose|a: int| 0 <= a < pairs@.len() && pairs@[a].1 == b;
            assert(pairs@[a] == orig[b as int]);
            assert(out@[a].project@ == entries@[pairs@[a].1 as int].project@);
            assert(out@[a].project@ == rows[j].0@);
        }
    }
    out
}

} // verus!
