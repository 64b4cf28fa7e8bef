//! The Snapshot Orchestrator's decision logic as an explicit state
//! machine.
//!
//! One cycle runs `Querying → Recomputing → Pruning → Done`; `Idle` is
//! the absence of a live cycle state, and the grouping step happens
//! while the plan is built.  The host
//! asks for a plan (the grouping of registered units by query mechanism,
//! batched under a fixed fan-out width), performs the remote calls of one
//! batch concurrently, and feeds each outcome back here.  A failure only
//! counts; it never blocks another unit's success nor any later phase,
//! and every cycle ends by recomputing caches and pruning.

use crate::burn::{burn_result, calculate_burn};
use crate::history::{pack, unit_hist};
use crate::store::seq_upsert;
use crate::projects::{spec_find_project, ProjectMeta};
use crate::registry::{opt_bytes, spec_find, CanisterMeta};
use crate::service::Service;
use crate::types::{ProxyType, SnapshotResult};
use crate::{BATCH_SIZE, NANOS_PER_DAY, NANOS_PER_HOUR, RETENTION_NANOS, SEVEN_DAYS_NANOS};
use vstd::prelude::*;

verus! {

/// Where in the cycle the state machine stands.
#[derive(Clone, Copy, Debug, PartialEq, Eq, Structural)]
pub enum CyclePhase {
    /// Remote balance queries are being issued and answered.
    Querying,
    /// All batches settled; caches are being recomputed.
    Recomputing,
    /// Caches are fresh; stale history is being pruned.
    Pruning,
    /// The cycle is complete and its summary may be read.
    Done,
}

/// The grouping of registered units: direct units each with their proxy,
/// and grouped units bundled under their shared roots.
pub struct CyclePlan {
    /// `(unit, proxy)` for every unit queried one by one.
    pub direct: Vec<(u64, u64)>,
    /// `(root, units)` with one remote call per root.
    pub grouped: Vec<(u64, Vec<u64>)>,
}

/// One cycle's running counters.
pub struct CycleState {
    pub phase: CyclePhase,
    pub total: u64,
    pub success: u64,
    pub failed: u64,
    pub pruned: u64,
    pub timestamp: u64,
}

/// How many rows carry the `Direct` mechanism.
pub open spec fn count_direct(rows: Seq<(u64, CanisterMeta)>) -> int
    decreases rows.len(),
{
    if rows.len() == 0 {
        0
    } else {
        count_direct(rows.drop_last()) + if rows.last().1.proxy_type == ProxyType::Direct {
            1int
        } else {
            0int
        }
    }
}

/// How many rows carry the `GroupedRoot` mechanism.
pub open spec fn count_grouped(rows: Seq<(u64, CanisterMeta)>) -> int
    decreases rows.len(),
{
    if rows.len() == 0 {
        0
    } else {
        count_grouped(rows.drop_last()) + if rows.last().1.proxy_type == ProxyType::GroupedRoot {
            1int
        } else {
            0int
        }
    }
}

/// How many units the grouped plan holds in all.
pub open spec fn sum_group_sizes(gs: Seq<(u64, Vec<u64>)>) -> int
    decreases gs.len(),
{
    if gs.len() == 0 {
        0
    } else {
        sum_group_sizes(gs.drop_last()) + gs.last().1@.len()
    }
}

proof fn lemma_sum_update(gs: Seq<(u64, Vec<u64>)>, i: int, g2: (u64, Vec<u64>))
    requires
        0 <= i < gs.len(),
    ensures
        sum_group_sizes(gs.update(i, g2)) == sum_group_sizes(gs) - gs[i].1@.len() + g2.1@.len(),
    decreases gs.len(),
{
    let t = gs.update(i, g2);
    if i == gs.len() - 1 {
        assert(t.drop_last() =~= gs.drop_last());
        assert(t.last() == g2);
    } else {
        lemma_sum_update(gs.drop_last(), i, g2);
        assert(t.drop_last() =~= gs.drop_last().update(i, g2));
        assert(t.last() == gs.last());
    }
}

/// Every planned unit is registered under the mechanism and proxy its
/// plan slot names.
pub open spec fn plan_sound(plan_direct: Seq<(u64, u64)>, gs: Seq<(u64, Vec<u64>)>, rows: Seq<
    (u64, CanisterMeta)>) -> bool {
    &&& forall|k: int|
        0 <= k < plan_direct.len() ==> match spec_find(rows, #[trigger] plan_direct[k].0) {
            Some(m) => m.proxy_type == ProxyType::Direct && m.proxy_id == plan_direct[k].1,
            None => false,
        }
    &&& forall|g: int, k: int|
        0 <= g < gs.len() && 0 <= k < gs[g].1@.len() ==> match spec_find(
            rows,
            #[trigger] gs[g].1@[k],
        ) {
            Some(m) => m.proxy_type == ProxyType::GroupedRoot && m.proxy_id == gs[g].0,
            None => false,
        }
}

/// Grouping: partitions the registered units by query mechanism, one
/// plan slot per direct unit and one group per distinct root, and opens
/// the cycle's counters at the given timestamp.
pub fn begin_cycle(svc: &Service, now: u64) -> (r: (CyclePlan, CycleState))
    requires
        svc.wf(),
    ensures
        r.1.phase == CyclePhase::Querying,
        r.1.total == svc.registry.rows().len(),
        r.1.success == 0,
        r.1.failed == 0,
        r.1.pruned == 0,
        r.1.timestamp == now,
        plan_sound(r.0.direct@, r.0.grouped@, svc.registry.rows()),
        r.0.direct@.len() == count_direct(svc.registry.rows()),
        sum_group_sizes(r.0.grouped@) == count_grouped(svc.registry.rows()),
        forall|a: int, b: int| 0 <= a < b < r.0.direct@.len() ==> r.0.direct@[a].0 != r.0.direct@[b].0,
        forall|g1: int, g2: int|
            0 <= g1 < g2 < r.0.grouped@.len() ==> r.0.grouped@[g1].0 != r.0.grouped@[g2].0,
{
    let ghost rows = svc.registry.rows();
    let mut direct: Vec<(u64, u64)> = Vec::new();
    let mut grouped: Vec<(u64, Vec<u64>)> = Vec::new();
    let mut i: usize = 0;
    while i < svc.registry.len()
        invariant
            svc.wf(),
            rows == svc.registry.rows(),
            0 <= i <= rows.len(),
            direct@.len() == count_direct(rows.subrange(0, i as int)),
            sum_group_sizes(grouped@) == count_grouped(rows.subrange(0, i as int)),
            plan_sound(direct@, grouped@, rows),
            forall|a: int, b: int| 0 <= a < b < direct@.len() ==> direct@[a].0 != direct@[b].0,
            forall|g1: int, g2: int|
                0 <= g1 < g2 < grouped@.len() ==> grouped@[g1].0 != grouped@[g2].0,
            forall|j: int, a: int|
                i <= j < rows.len() && 0 <= a < direct@.len() ==> #[trigger] direct@[a].0
                    != #[trigger] rows[j].0,
            forall|j: int, g: int, k: int|
                i <= j < rows.len() && 0 <= g < grouped@.len() && 0 <= k < grouped@[g].1@.len()
                    ==> #[trigger] grouped@[g].1@[k] != #[trigger] rows[j].0,
        decreases rows.len() - i,
    {
        let ghost prefix = rows.subrange(0, i as int);
        let ghost next_prefix = rows.subrange(0, i + 1 as int);
        proof {
            assert(next_prefix.drop_last() =~= prefix);
            assert(next_prefix.last() == rows[i as int]);
            crate::registry::lemma_find_of_index(rows, i as int);
        }
        let row = svc.registry.row_at(i);
        match row.1.proxy_type {
            ProxyType::Direct => {
                direct.push((row.0, row.1.proxy_id));
                proof {
                    assert(count_direct(next_prefix) == count_direct(prefix) + 1);
                    assert(count_grouped(next_prefix) == count_grouped(prefix));
                }
            },
            ProxyType::GroupedRoot => {
                let root = row.1.proxy_id;
                let mut gi: usize = 0;
                let mut found = false;
                while gi < grouped.len() && !found
                    invariant
                        0 <= gi <= grouped@.len(),
                        found ==> gi < grouped@.len() && grouped@[gi as int].0 == root,
                        !found ==> forall|g: int| 0 <= g < gi ==> grouped@[g].0 != root,
                    decreases grouped@.len() - gi + (if found {
                        0int
                    } else {
                        1int
                    }),
                {
                    if grouped[gi].0 == root {
                        found = true;
                    } else {
                        gi = gi + 1;
                    }
                }
                if found {
                    let ghost before = grouped@;
                    let mut g = grouped.remove(gi);
                    g.1.push(row.0);
                    proof {
                        assert(g.0 == root);
                        assert(g.1@ =~= before[gi as int].1@.push(rows[i as int].0));
                    }
                    let ghost gg = g;
                    grouped.insert(gi, g);
                    proof {
                        assert(grouped@ =~= before.update(gi as int, gg));
                        lemma_sum_update(before, gi as int, gg);
                        assert(sum_group_sizes(grouped@) == sum_group_sizes(before) + 1);
                        assert(count_grouped(next_prefix) == count_grouped(prefix) + 1);
                        assert(count_direct(next_prefix) == count_direct(prefix));
                    }
                } else {
                    let g: Vec<u64> = vec![row.0];
                    proof {
                        assert(g@ =~= seq![rows[i as int].0]);
                    }
                    let ghost before = grouped@;
                    grouped.push((root, g));
                    proof {
                        assert(grouped@.drop_last() =~= before);
                        assert(sum_group_sizes(grouped@) == sum_group_sizes(before) + 1);
                        assert(count_grouped(next_prefix) == count_grouped(prefix) + 1);
                        assert(count_direct(next_prefix) == count_direct(prefix));
                    }
                }
            },
        }
        i = i + 1;
    }
    proof {
        assert(rows.subrange(0, rows.len() as int) =~= rows);
    }
    let st = CycleState {
        phase: CyclePhase::Querying,
        total: svc.registry.len() as u64,
        success: 0,
        failed: 0,
        pruned: 0,
        timestamp: now,
    };
    (CyclePlan { direct, grouped }, st)
}

/// Cuts a direct plan into batches of at most the fan-out width, in
/// order: the host awaits one whole batch before issuing the next.
pub fn batch_direct(v: &Vec<(u64, u64)>) -> (r: Vec<Vec<(u64, u64)>>)
    ensures
        forall|b: int| 0 <= b < r@.len() ==> #[trigger] r@[b]@.len() <= BATCH_SIZE,
        forall|b: int|
            0 <= b < r@.len() ==> #[trigger] r@[b]@ == v@.subrange(
                b * BATCH_SIZE,
                if (b + 1) * BATCH_SIZE < v@.len() {
                    (b + 1) * BATCH_SIZE
                } else {
                    v@.len() as int
                },
            ),
        r@.len() == 0 <==> v@.len() == 0,
        r@.len() > 0 ==> (r@.len() - 1) * BATCH_SIZE < v@.len() <= r@.len() * BATCH_SIZE,
{
    let mut r: Vec<Vec<(u64, u64)>> = Vec::new();
    let mut start: usize = 0;
    while start < v.len()
        invariant
            0 <= start <= v@.len(),
            forall|b: int| 0 <= b < r@.len() ==> #[trigger] r@[b]@.len() <= BATCH_SIZE,
            forall|b: int|
                0 <= b < r@.len() ==> #[trigger] r@[b]@ == v@.subrange(
                    b * BATCH_SIZE,
                    if (b + 1) * BATCH_SIZE < v@.len() {
                        (b + 1) * BATCH_SIZE
                    } else {
                        v@.len() as int
                    },
                ),
            r@.len() == 0 ==> start == 0,
            start < v@.len() ==> start == r@.len() * BATCH_SIZE,
            start == v@.len() && r@.len() > 0 ==> (r@.len() - 1) * BATCH_SIZE < v@.len()
                <= r@.len() * BATCH_SIZE,
        decreases v@.len() - start,
    {
        let end: usize = if v.len() - start < BATCH_SIZE {
            v.len()
        } else {
            start + BATCH_SIZE
        };
        let mut chunk: Vec<(u64, u64)> = Vec::new();
        let mut j: usize = start;
        while j < end
            invariant
                start <= j <= end <= v@.len(),
                chunk@ =~= v@.subrange(start as int, j as int),
            decreases end - j,
        {
            chunk.push(v[j]);
            proof {
                assert(v@.subrange(start as int, j + 1 as int) =~= v@.subrange(
                    start as int,
                    j as int,
                ).push(v@[j as int]));
            }
            j = j + 1;
        }
        r.push(chunk);
        start = end;
    }
    r
}

/// One successful remote answer for one unit: exactly one new history
/// row at the cycle's unified timestamp, upserted, and the success
/// counter stepped.  Nothing else of the service changes.
pub fn record_success(svc: &mut Service, st: &mut CycleState, unit: u64, balance: u128)
    requires
        old(svc).wf(),
        old(st).phase == CyclePhase::Querying,
        old(st).success < 0xffff_ffff_ffff_ffff,
    ensures
        final(svc).wf(),
        final(svc).history.entries() == seq_upsert(
            old(svc).history.entries(),
            pack(unit, old(st).timestamp),
            balance,
        ),
        final(svc).registry == old(svc).registry,
        final(svc).projects == old(svc).projects,
        final(svc).scheduler_running == old(svc).scheduler_running,
        final(st).phase == old(st).phase,
        final(st).success == old(st).success + 1,
        final(st).failed == old(st).failed,
        final(st).total == old(st).total,
        final(st).pruned == old(st).pruned,
        final(st).timestamp == old(st).timestamp,
{
    svc.history.append(unit, st.timestamp, balance);
    st.success = st.success + 1;
}

/// One failed remote query: only the failure counter steps.  Prior
/// history is untouched and no other unit is affected, so a failure in a
/// batch never blocks the rest of the batch or of the cycle.
pub fn record_failure(svc: &mut Service, st: &mut CycleState, units_failed: u64)
    requires
        old(svc).wf(),
        old(st).phase == CyclePhase::Querying,
        old(st).failed + units_failed <= 0xffff_ffff_ffff_ffff,
    ensures
        final(svc).wf(),
        *final(svc) == *old(svc),
        final(st).phase == old(st).phase,
        final(st).failed == old(st).failed + units_failed,
        final(st).success == old(st).success,
        final(st).total == old(st).total,
        final(st).pruned == old(st).pruned,
        final(st).timestamp == old(st).timestamp,
{
    st.failed = st.failed + units_failed;
}

/// The balance a grouped answer carries for one unit, by first match.
pub open spec fn find_balance(resp: Seq<(u64, u128)>, id: u64) -> Option<u128>
    decreases resp.len(),
{
    if resp.len() == 0 {
        None
    } else if resp[0].0 == id {
        Some(resp[0].1)
    } else {
        find_balance(resp.drop_first(), id)
    }
}

/// How many of the expected units the answer carries.
pub open spec fn count_present(expected: Seq<u64>, resp: Seq<(u64, u128)>) -> int
    decreases expected.len(),
{
    if expected.len() == 0 {
        0
    } else {
        count_present(expected.drop_last(), resp) + if find_balance(
            resp,
            expected.last(),
        ) is Some {
            1int
        } else {
            0int
        }
    }
}

/// The history after recording a grouped answer: each expected unit the
/// answer carries is upserted at the cycle timestamp, in order; absent
/// units leave no trace.
pub open spec fn apply_units(
    es: Seq<(u128, u128)>,
    expected: Seq<u64>,
    resp: Seq<(u64, u128)>,
    ts: u64,
) -> Seq<(u128, u128)>
    decreases expected.len(),
{
    if expected.len() == 0 {
        es
    } else {
        let stepped = match find_balance(resp, expected[0]) {
            Some(b) => seq_upsert(es, pack(expected[0], ts), b),
            None => es,
        };
        apply_units(stepped, expected.drop_first(), resp, ts)
    }
}

proof fn lemma_count_present_bounds(expected: Seq<u64>, resp: Seq<(u64, u128)>)
    ensures
        0 <= count_present(expected, resp) <= expected.len(),
    decreases expected.len(),
{
    if expected.len() > 0 {
        lemma_count_present_bounds(expected.drop_last(), resp);
    }
}

proof fn lemma_find_balance_at(resp: Seq<(u64, u128)>, id: u64, i: int)
    requires
        0 <= i <= resp.len(),
        forall|j: int| 0 <= j < i ==> #[trigger] resp[j].0 != id,
        i < resp.len() ==> resp[i].0 == id,
    ensures
        find_balance(resp, id) == if i < resp.len() {
            Some(resp[i].1)
        } else {
            Option::<u128>::None
        },
    decreases i,
{
    if i > 0 {
        lemma_find_balance_at(resp.drop_first(), id, i - 1);
    }
}

fn lookup_balance(resp: &Vec<(u64, u128)>, id: u64) -> (r: Option<u128>)
    ensures
        r == find_balance(resp@, id),
{
    let mut i: usize = 0;
    while i < resp.len()
        invariant
            0 <= i <= resp@.len(),
            forall|j: int| 0 <= j < i ==> #[trigger] resp@[j].0 != id,
        decreases resp@.len() - i,
    {
        if resp[i].0 == id {
            proof {
                lemma_find_balance_at(resp@, id, i as int);
            }
            return Some(resp[i].1);
        }
        i = i + 1;
    }
    proof {
        lemma_find_balance_at(resp@, id, resp@.len() as int);
    }
    None
}

/// One grouped answer: among the expected (registered) units, exactly
/// those the answer carries become successes with one history row each
/// at the cycle timestamp; the rest count as failures.  Units the answer
/// names beyond the expected list are ignored.
pub fn apply_grouped_response(
    svc: &mut Service,
    st: &mut CycleState,
    expected: &Vec<u64>,
    resp: &Vec<(u64, u128)>,
)
    requires
        old(svc).wf(),
        old(st).phase == CyclePhase::Querying,
        old(st).success + expected@.len() <= 0xffff_ffff_ffff_ffff,
        old(st).failed + expected@.len() <= 0xffff_ffff_ffff_ffff,
    ensures
        final(svc).wf(),
        final(svc).history.entries() == apply_units(
            old(svc).history.entries(),
            expected@,
            resp@,
            old(st).timestamp,
        ),
        final(svc).registry == old(svc).registry,
        final(svc).projects == old(svc).projects,
        final(svc).scheduler_running == old(svc).scheduler_running,
        final(st).phase == old(st).phase,
        final(st).success == old(st).success + count_present(expected@, resp@),
        final(st).failed == old(st).failed + expected@.len() - count_present(expected@, resp@),
        final(st).total == old(st).total,
        final(st).pruned == old(st).pruned,
        final(st).timestamp == old(st).timestamp,
{
    let ghost es0 = old(svc).history.entries();
    let ghost ts = st.timestamp;
    proof {
        assert(expected@.skip(0) =~= expected@);
    }
    let mut i: usize = 0;
    while i < expected.len()
        invariant
            0 <= i <= expected@.len(),
            svc.wf(),
            svc.registry == old(svc).registry,
            svc.projects == old(svc).projects,
            svc.scheduler_running == old(svc).scheduler_running,
            st.phase == CyclePhase::Querying,
            st.timestamp == old(st).timestamp,
            st.total == old(st).total,
            st.pruned == old(st).pruned,
            ts == old(st).timestamp,
            apply_units(svc.history.entries(), expected@.skip(i as int), resp@, ts) == apply_units(
                es0,
                expected@,
                resp@,
                ts,
            ),
            st.success == old(st).success + count_present(expected@.subrange(0, i as int), resp@),
            st.failed == old(st).failed + i - count_present(
                expected@.subrange(0, i as int),
                resp@,
            ),
            count_present(expected@.subrange(0, i as int), resp@) <= i,
            old(st).success + expected@.len() <= 0xffff_ffff_ffff_ffff,
            old(st).failed + expected@.len() <= 0xffff_ffff_ffff_ffff,
        decreases expected@.len() - i,
    {
        let id = expected[i];
        let ghost pre = expected@.subrange(0, i as int);
        let ghost post = expected@.subrange(0, i + 1 as int);
        proof {
            assert(post.drop_last() =~= pre);
            assert(post.last() == expected@[i as int]);
            assert(expected@.skip(i as int).drop_first() =~= expected@.skip(i + 1 as int));
            assert(expected@.skip(i as int)[0] == expected@[i as int]);
            lemma_count_present_bounds(pre, resp@);
            lemma_count_present_bounds(post, resp@);
        }
        match lookup_balance(resp, id) {
            Some(balance) => {
                svc.history.append(id, st.timestamp, balance);
                st.success = st.success + 1;
            },
            None => {
                st.failed = st.failed + 1;
            },
        }
        i = i + 1;
    }
    proof {
        assert(expected@.subrange(0, expected@.len() as int) =~= expected@);
        assert(expected@.skip(expected@.len() as int) =~= Seq::<u64>::empty());
    }
}

/// Closes the query phase: all batches have settled.
pub fn seal_queries(st: &mut CycleState)
    requires
        old(st).phase == CyclePhase::Querying,
    ensures
        final(st).phase == CyclePhase::Recomputing,
        final(st).success == old(st).success,
        final(st).failed == old(st).failed,
        final(st).total == old(st).total,
        final(st).pruned == old(st).pruned,
        final(st).timestamp == old(st).timestamp,
{
    st.phase = CyclePhase::Recomputing;
}

/// Recomputing: refreshes every registered unit's cached balance and
/// burn figures from its history — even units not answered this cycle,
/// since burn depends on the passage of time — then rebuilds every
/// project's aggregates wholesale from the refreshed unit caches.
pub fn recompute_caches(svc: &mut Service, st: &mut CycleState)
    requires
        old(svc).wf(),
        old(st).phase == CyclePhase::Recomputing,
    ensures
        final(svc).wf(),
        final(svc).history == old(svc).history,
        final(svc).scheduler_running == old(svc).scheduler_running,
        rollups_exact(
            final(svc).projects.rows(),
            old(svc).projects.rows(),
            final(svc).registry.rows(),
        ),
        final(svc).registry.rows().len() == old(svc).registry.rows().len(),
        forall|j: int|
            0 <= j < old(svc).registry.rows().len() ==> #[trigger] final(svc).registry.rows()[j].0
                == old(svc).registry.rows()[j].0,
        forall|j: int|
            0 <= j < old(svc).registry.rows().len() ==> {
                let id = #[trigger] old(svc).registry.rows()[j].0;
                let m0 = old(svc).registry.rows()[j].1;
                match spec_find(final(svc).registry.rows(), id) {
                    Some(m) => {
                        &&& m.proxy_id == m0.proxy_id
                        &&& m.proxy_type == m0.proxy_type
                        &&& opt_bytes(m.project_name) == opt_bytes(m0.project_name)
                        &&& m.valid == m0.valid
                        &&& m.balance == (if unit_hist(old(svc).history.entries(), id).len() == 0 {
                            0u128
                        } else {
                            unit_hist(old(svc).history.entries(), id).last().1
                        })
                        &&& m.burn_1h == burn_result(
                            unit_hist(old(svc).history.entries(), id),
                            NANOS_PER_HOUR,
                            old(st).timestamp,
                        )
                        &&& m.burn_24h == burn_result(
                            unit_hist(old(svc).history.entries(), id),
                            NANOS_PER_DAY,
                            old(st).timestamp,
                        )
                        &&& m.burn_7d == burn_result(
                            unit_hist(old(svc).history.entries(), id),
                            SEVEN_DAYS_NANOS,
                            old(st).timestamp,
                        )
                    },
                    None => false,
                }
            },
        final(st).phase == CyclePhase::Pruning,
        final(st).success == old(st).success,
        final(st).failed == old(st).failed,
        final(st).total == old(st).total,
        final(st).pruned == old(st).pruned,
        final(st).timestamp == old(st).timestamp,
{
    let ghost rows0 = svc.registry.rows();
    let n = svc.registry.len();
    let mut i: usize = 0;
    while i < n
        invariant
            svc.wf(),
            n == rows0.len(),
            0 <= i <= n,
            svc.history == old(svc).history,
            svc.projects == old(svc).projects,
            svc.scheduler_running == old(svc).scheduler_running,
            rows0 == old(svc).registry.rows(),
            crate::registry::ids_unique(rows0),
            svc.registry.rows().len() == rows0.len(),
            forall|j: int|
                0 <= j < rows0.len() ==> #[trigger] svc.registry.rows()[j].0 == rows0[j].0,
            forall|j: int|
                i <= j < rows0.len() ==> #[trigger] spec_find(svc.registry.rows(), rows0[j].0)
                    == spec_find(rows0, rows0[j].0),
            forall|j: int|
                0 <= j < i ==> {
                    let id = #[trigger] rows0[j].0;
                    let m0 = rows0[j].1;
                    match spec_find(svc.registry.rows(), id) {
                        Some(m) => {
                            &&& m.proxy_id == m0.proxy_id
                            &&& m.proxy_type == m0.proxy_type
                            &&& opt_bytes(m.project_name) == opt_bytes(m0.project_name)
                            &&& m.valid == m0.valid
                            &&& m.balance == (if unit_hist(old(svc).history.entries(), id).len()
                                == 0 {
                                0u128
                            } else {
                                unit_hist(old(svc).history.entries(), id).last().1
                            })
                            &&& m.burn_1h == burn_result(
                                unit_hist(old(svc).history.entries(), id),
                                NANOS_PER_HOUR,
                                old(st).timestamp,
                            )
                            &&& m.burn_24h == burn_result(
                                unit_hist(old(svc).history.entries(), id),
                                NANOS_PER_DAY,
                                old(st).timestamp,
                            )
                            &&& m.burn_7d == burn_result(
                                unit_hist(old(svc).history.entries(), id),
                                SEVEN_DAYS_NANOS,
                                old(st).timestamp,
                            )
                        },
                        None => false,
                    }
                },
        decreases n - i,
    {
        proof {
            crate::registry::lemma_find_of_index(rows0, i as int);
        }
        let id = svc.registry.row_at(i).0;
        let hist = svc.history.unit_history(id);
        let balance = if hist.len() == 0 {
            0
        } else {
            hist[hist.len() - 1].1
        };
        let burn_1h = calculate_burn(&hist, NANOS_PER_HOUR, st.timestamp);
        let burn_24h = calculate_burn(&hist, NANOS_PER_DAY, st.timestamp);
        let burn_7d = calculate_burn(&hist, SEVEN_DAYS_NANOS, st.timestamp);
        let _found = svc.registry.set_cached(id, balance, burn_1h, burn_24h, burn_7d);
        proof {
            assert forall|j: int|
                i + 1 <= j < rows0.len() implies #[trigger] spec_find(
                svc.registry.rows(),
                rows0[j].0,
            ) == spec_find(rows0, rows0[j].0) by {
                assert(rows0[j].0 != rows0[i as int].0);
            }
            assert forall|j: int| 0 <= j < i + 1 implies {
                let id2 = #[trigger] rows0[j].0;
                let m0 = rows0[j].1;
                match spec_find(svc.registry.rows(), id2) {
                    Some(m) => {
                        &&& m.proxy_id == m0.proxy_id
                        &&& m.proxy_type == m0.proxy_type
                        &&& opt_bytes(m.project_name) == opt_bytes(m0.project_name)
                        &&& m.valid == m0.valid
                        &&& m.balance == (if unit_hist(old(svc).history.entries(), id2).len()
                            == 0 {
                            0u128
                        } else {
                            unit_hist(old(svc).history.entries(), id2).last().1
                        })
                        &&& m.burn_1h == burn_result(
                            unit_hist(old(svc).history.entries(), id2),
                            NANOS_PER_HOUR,
                            old(st).timestamp,
                        )
                        &&& m.burn_24h == burn_result(
                            unit_hist(old(svc).history.entries(), id2),
                            NANOS_PER_DAY,
                            old(st).timestamp,
                        )
                        &&& m.burn_7d == burn_result(
                            unit_hist(old(svc).history.entries(), id2),
                            SEVEN_DAYS_NANOS,
                            old(st).timestamp,
                        )
                    },
                    None => false,
                }
            } by {
                if j < i {
                    assert(rows0[j].0 != rows0[i as int].0);
                }
            }
        }
        i = i + 1;
    }
    self_rollup(svc);
    st.phase = CyclePhase::Pruning;
}

/// An unknown burn counts as zero in the project aggregates.
pub open spec fn opt_or_zero(o: Option<u128>) -> u128 {
    match o {
        Some(b) => b,
        None => 0,
    }
}

/// Saturating aggregate addition.
pub open spec fn sat_total(a: u128, b: u128) -> u128 {
    if a + b > u128::MAX {
        u128::MAX
    } else {
        (a + b) as u128
    }
}

/// Whether a registry row carries the label.
pub open spec fn row_label_is(row: (u64, CanisterMeta), l: Seq<char>) -> bool {
    match row.1.project_name {
        Some(p) => p@ == l,
        None => false,
    }
}

/// A label's wholesale aggregates over the registry rows, in row order:
/// unit count and the saturating sums of balance and the three cached
/// burns, unknown burns counting zero.
pub open spec fn label_rollup(rows: Seq<(u64, CanisterMeta)>, l: Seq<char>) -> (
    u64,
    u128,
    u128,
    u128,
    u128,
)
    decreases rows.len(),
{
    if rows.len() == 0 {
        (0u64, 0u128, 0u128, 0u128, 0u128)
    } else {
        let prev = label_rollup(rows.drop_last(), l);
        if row_label_is(rows.last(), l) {
            let m = rows.last().1;
            (
                if prev.0 < 0xffff_ffff_ffff_ffff {
                    (prev.0 + 1) as u64
                } else {
                    prev.0
                },
                sat_total(prev.1, m.balance),
                sat_total(prev.2, opt_or_zero(m.burn_1h)),
                sat_total(prev.3, opt_or_zero(m.burn_24h)),
                sat_total(prev.4, opt_or_zero(m.burn_7d)),
            )
        } else {
            prev
        }
    }
}

/// The website a project carries going into the rollup, by label.
pub open spec fn website_of(s: Seq<(String, ProjectMeta)>, l: Seq<char>) -> Option<Seq<u8>> {
    match spec_find_project(s, l) {
        Some(pm) => opt_bytes(pm.website),
        None => None,
    }
}

proof fn lemma_rollup_zero_count(rows: Seq<(u64, CanisterMeta)>, l: Seq<char>)
    requires
        label_rollup(rows, l).0 == 0,
    ensures
        label_rollup(rows, l) == (0u64, 0u128, 0u128, 0u128, 0u128),
    decreases rows.len(),
{
    if rows.len() > 0 {
        if row_label_is(rows.last(), l) {
            assert(label_rollup(rows, l).0 > 0 || label_rollup(rows.drop_last(), l).0
                == 0xffff_ffff_ffff_ffff);
        }
        lemma_rollup_zero_count(rows.drop_last(), l);
    }
}

/// Every project row's aggregates equal its label's wholesale rollup over
/// the registry, and a label with no row counts no unit.
pub open spec fn rollups_exact(
    projects: Seq<(String, ProjectMeta)>,
    projects0: Seq<(String, ProjectMeta)>,
    rows: Seq<(u64, CanisterMeta)>,
) -> bool {
    forall|l: Seq<char>|
        match #[trigger] spec_find_project(projects, l) {
            Some(pm) => {
                let r = label_rollup(rows, l);
                &&& pm.canister_count == r.0
                &&& pm.total_balance == r.1
                &&& pm.total_burn_1h == r.2
                &&& pm.total_burn_24h == r.3
                &&& pm.total_burn_7d == r.4
                &&& opt_bytes(pm.website) == website_of(projects0, l)
            },
            None => spec_find_project(projects0, l) is None && label_rollup(rows, l).0 == 0,
        }
}

fn self_rollup(svc: &mut Service)
    requires
        old(svc).wf(),
    ensures
        final(svc).wf(),
        final(svc).history == old(svc).history,
        final(svc).registry == old(svc).registry,
        final(svc).scheduler_running == old(svc).scheduler_running,
        rollups_exact(
            final(svc).projects.rows(),
            old(svc).projects.rows(),
            old(svc).registry.rows(),
        ),
{
    let ghost rows = svc.registry.rows();
    let ghost projects0 = svc.projects.rows();
    svc.projects.reset_rollups();
    let n = svc.registry.len();
    let mut i: usize = 0;
    proof {
        assert(rows.subrange(0, 0) =~= Seq::<(u64, CanisterMeta)>::empty());
    }
    while i < n
        invariant
            svc.wf(),
            n == svc.registry.rows().len(),
            0 <= i <= n,
            svc.history == old(svc).history,
            svc.registry == old(svc).registry,
            svc.scheduler_running == old(svc).scheduler_running,
            rows == svc.registry.rows(),
            projects0 == old(svc).projects.rows(),
            rollups_exact(svc.projects.rows(), projects0, rows.subrange(0, i as int)),
        decreases n - i,
    {
        let ghost prefix = rows.subrange(0, i as int);
        let ghost next_prefix = rows.subrange(0, i + 1 as int);
        let ghost projects_before = svc.projects.rows();
        proof {
            assert(next_prefix.drop_last() =~= prefix);
            assert(next_prefix.last() == rows[i as int]);
        }
        let row = svc.registry.row_at(i);
        let label = match &row.1.project_name {
            Some(p) => Some(p.clone()),
            None => None,
        };
        let b1 = match row.1.burn_1h {
            Some(b) => b,
            None => 0,
        };
        let b24 = match row.1.burn_24h {
            Some(b) => b,
            None => 0,
        };
        let b7 = match row.1.burn_7d {
            Some(b) => b,
            None => 0,
        };
        let balance = row.1.balance;
        match label {
            Some(l) => {
                proof {
                    assert(row_label_is(rows[i as int], l@));
                }
                svc.projects.accumulate(&l, balance, b1, b24, b7);
                proof {
                    assert forall|l2: Seq<char>|
                        match #[trigger] spec_find_project(svc.projects.rows(), l2) {
                            Some(pm) => {
                                let r = label_rollup(next_prefix, l2);
                                &&& pm.canister_count == r.0
                                &&& pm.total_balance == r.1
                                &&& pm.total_burn_1h == r.2
                                &&& pm.total_burn_24h == r.3
                                &&& pm.total_burn_7d == r.4
                                &&& opt_bytes(pm.website) == website_of(projects0, l2)
                            },
                            None => spec_find_project(projects0, l2) is None && label_rollup(
                                next_prefix,
                                l2,
                            ).0 == 0,
                        } by {
                        if l2 == l@ {
                            if spec_find_project(projects_before, l2) is None {
                                lemma_rollup_zero_count(prefix, l2);
                            }
                        } else {
                            assert(!row_label_is(rows[i as int], l2));
                            assert(label_rollup(next_prefix, l2) == label_rollup(prefix, l2));
                        }
                    }
                }
            },
            None => {
                proof {
                    assert forall|l2: Seq<char>| !row_label_is(rows[i as int], l2) implies
                        label_rollup(next_prefix, l2) == label_rollup(prefix, l2) by {}
                }
            },
        }
        i = i + 1;
    }
    proof {
        assert(rows.subrange(0, n as int) =~= rows);
    }
}

/// Pruning: removes every history row older than the retention horizon
/// before the cycle timestamp, across all units, and records the count.
pub fn prune_history(svc: &mut Service, st: &mut CycleState)
    requires
        old(svc).wf(),
        old(st).phase == CyclePhase::Pruning,
    ensures
        final(svc).wf(),
        final(svc).registry == old(svc).registry,
        final(svc).projects == old(svc).projects,
        final(svc).scheduler_running == old(svc).scheduler_running,
        final(svc).history.entries() == crate::history::kept_entries(
            old(svc).history.entries(),
            if old(st).timestamp >= RETENTION_NANOS {
                (old(st).timestamp - RETENTION_NANOS) as u64
            } else {
                0u64
            },
        ),
        final(st).phase == CyclePhase::Done,
        final(st).pruned == old(svc).history.entries().len() - final(svc).history.entries().len(),
        final(st).success == old(st).success,
        final(st).failed == old(st).failed,
        final(st).total == old(st).total,
        final(st).timestamp == old(st).timestamp,
{
    let cutoff = if st.timestamp >= RETENTION_NANOS {
        st.timestamp - RETENTION_NANOS
    } else {
        0
    };
    let pruned = svc.history.prune(cutoff);
    st.pruned = pruned;
    st.phase = CyclePhase::Done;
}

/// The cycle summary, read once the cycle is done.
pub fn cycle_summary(st: &CycleState) -> (r: SnapshotResult)
    requires
        st.phase == CyclePhase::Done,
    ensures
        r.total == st.total,
        r.success == st.success,
        r.failed == st.failed,
        r.pruned == st.pruned,
        r.timestamp == st.timestamp,
{
    SnapshotResult {
        total: st.total,
        success: st.success,
        failed: st.failed,
        pruned: st.pruned,
        timestamp: st.timestamp,
    }
}

} // verus!
