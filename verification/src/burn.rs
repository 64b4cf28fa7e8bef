//! The burn calculator: a pure function from a unit's snapshot sequence,
//! a window length and the current time to an estimated consumption.
//!
//! With fewer than two snapshots in all, nothing can be estimated.  With
//! two or more snapshots inside the window, the estimate is the sum of the
//! balance decreases between consecutive snapshots, counting a top-up as
//! zero.  Otherwise the last two snapshots of the whole history are
//! extrapolated linearly over the window, truncating to an integer.

use vstd::arithmetic::div_mod::{
    lemma_div_pos_is_pos, lemma_fundamental_div_mod, lemma_fundamental_div_mod_converse,
    lemma_hoist_over_denominator,
};
use vstd::prelude::*;

verus! {

/// The window's lower bound: `now - window`, clamped at zero.
pub open spec fn cutoff_of(now: u64, window: u64) -> u64 {
    if now >= window {
        (now - window) as u64
    } else {
        0
    }
}

/// Index of the first snapshot at or after `cutoff`; `s.len()` if none.
pub open spec fn first_in_window(s: Seq<(u64, u128)>, cutoff: u64) -> int
    decreases s.len(),
{
    if s.len() == 0 {
        0
    } else if s[0].0 >= cutoff {
        0
    } else {
        1 + first_in_window(s.drop_first(), cutoff)
    }
}

/// The positive decrease from snapshot `a` to snapshot `b`; a top-up is zero.
pub open spec fn pos_drop(a: (u64, u128), b: (u64, u128)) -> int {
    if b.1 < a.1 {
        a.1 - b.1
    } else {
        0
    }
}

/// Sum of the positive decreases over the consecutive pairs of `s` whose
/// later element's index lies in `(k, j)`, left-closed at `k + 1`.
pub open spec fn sum_drops_from(s: Seq<(u64, u128)>, k: int, j: int) -> int
    decreases j - k,
{
    if j <= k + 1 {
        0
    } else {
        sum_drops_from(s, k, j - 1) + pos_drop(s[j - 2], s[j - 1])
    }
}

/// The extrapolated burn from the two newest snapshots: zero unless time
/// advanced and the balance fell, else the observed rate times the window,
/// truncated.
pub open spec fn ext_burn(older: (u64, u128), newer: (u64, u128), window: u64) -> int {
    if newer.0 <= older.0 || newer.1 >= older.1 {
        0
    } else {
        (older.1 - newer.1) * window / (newer.0 - older.0)
    }
}

/// The burn estimate as an unbounded integer: `None` with fewer than two
/// snapshots; the in-window sum of decreases when at least two snapshots
/// lie in the window; the extrapolation of the last two snapshots
/// otherwise.
pub open spec fn burn_model(s: Seq<(u64, u128)>, window: u64, now: u64) -> Option<int> {
    if s.len() < 2 {
        None
    } else {
        let k = first_in_window(s, cutoff_of(now, window));
        if s.len() - k >= 2 {
            Some(sum_drops_from(s, k, s.len() as int))
        } else {
            Some(ext_burn(s[s.len() - 2], s[s.len() - 1], window))
        }
    }
}

/// Saturation of an unbounded nonnegative integer into `u128`.
pub open spec fn clamp_u128(x: int) -> u128 {
    if x > u128::MAX {
        u128::MAX
    } else if x < 0 {
        0
    } else {
        x as u128
    }
}

/// What the executable calculator returns: the model, saturated.
pub open spec fn burn_result(s: Seq<(u64, u128)>, window: u64, now: u64) -> Option<u128> {
    match burn_model(s, window, now) {
        None => None,
        Some(b) => Some(clamp_u128(b)),
    }
}

/// Whether data actually spans the window: the oldest snapshot is at least
/// a full window old.
pub open spec fn spans_window(s: Seq<(u64, u128)>, window: u64, now: u64) -> bool {
    s.len() > 0 && s[0].0 <= cutoff_of(now, window)
}

proof fn lemma_first_in_window_bounds(s: Seq<(u64, u128)>, cutoff: u64)
    ensures
        0 <= first_in_window(s, cutoff) <= s.len(),
    decreases s.len(),
{
    if s.len() > 0 && s[0].0 < cutoff {
        lemma_first_in_window_bounds(s.drop_first(), cutoff);
    }
}

proof fn lemma_first_in_window_from_scan(s: Seq<(u64, u128)>, cutoff: u64, k: int)
    requires
        0 <= k <= s.len(),
        forall|i: int| 0 <= i < k ==> #[trigger] s[i].0 < cutoff,
        k < s.len() ==> s[k].0 >= cutoff,
    ensures
        first_in_window(s, cutoff) == k,
    decreases k,
{
    if k == 0 {
    } else {
        assert(s[0].0 < cutoff);
        lemma_first_in_window_from_scan(s.drop_first(), cutoff, k - 1);
    }
}

/// The in-window sum of decreases is never negative: a top-up never turns
/// the estimate into a refund.
pub proof fn lemma_sum_drops_nonneg(s: Seq<(u64, u128)>, k: int, j: int)
    ensures
        sum_drops_from(s, k, j) >= 0,
    decreases j - k,
{
    if j > k + 1 {
        lemma_sum_drops_nonneg(s, k, j - 1);
    }
}

proof fn lemma_ext_burn_nonneg(older: (u64, u128), newer: (u64, u128), window: u64)
    ensures
        ext_burn(older, newer, window) >= 0,
{
    if newer.0 > older.0 && newer.1 < older.1 {
        lemma_div_pos_is_pos((older.1 - newer.1) * window, newer.0 - older.0);
        assert((older.1 - newer.1) * window >= 0) by (nonlinear_arith)
            requires
                older.1 > newer.1,
        ;
    }
}

fn extrapolate(older: (u64, u128), newer: (u64, u128), window: u64) -> (r: u128)
    ensures
        r == clamp_u128(ext_burn(older, newer, window)),
{
    if newer.0 <= older.0 || newer.1 >= older.1 {
        0
    } else {
        let diff: u128 = older.1 - newer.1;
        let elapsed: u128 = (newer.0 - older.0) as u128;
        let w: u128 = window as u128;
        let q: u128 = diff / elapsed;
        let rem: u128 = diff % elapsed;
        proof {
            lemma_fundamental_div_mod(diff as int, elapsed as int);
        }
        assert(rem * w <= u128::MAX) by (nonlinear_arith)
            requires
                rem < elapsed,
                elapsed <= u64::MAX,
                w <= u64::MAX,
        ;
        let part: u128 = (rem * w) / elapsed;
        proof {
            assert(diff * w == (rem as int) * (w as int) + ((q * w) as int) * (elapsed as int))
                by (nonlinear_arith)
                requires
                    diff == elapsed * q + rem,
            ;
            lemma_hoist_over_denominator((rem * w) as int, (q * w) as int, elapsed as nat);
            assert(ext_burn(older, newer, window) == q * w + (rem as int) * (w as int) / (
            elapsed as int));
            lemma_div_pos_is_pos((rem * w) as int, elapsed as int);
        }
        match q.checked_mul(w) {
            None => u128::MAX,
            Some(qw) => match qw.checked_add(part) {
                None => u128::MAX,
                Some(total) => total,
            },
        }
    }
}

/// The burn calculator.  Input is the unit's full snapshot sequence
/// (ascending by timestamp as the history store hands it out), a window
/// length and the current time; the result saturates at `u128::MAX`.
pub fn calculate_burn(snaps: &Vec<(u64, u128)>, window_nanos: u64, now: u64) -> (r: Option<u128>)
    ensures
        r == burn_result(snaps@, window_nanos, now),
{
    let n = snaps.len();
    if n < 2 {
        return None;
    }
    let cutoff = if now >= window_nanos {
        now - window_nanos
    } else {
        0
    };
    let mut k: usize = 0;
    while k < n && snaps[k].0 < cutoff
        invariant
            0 <= k <= n,
            n == snaps@.len(),
            forall|i: int| 0 <= i < k ==> #[trigger] snaps@[i].0 < cutoff,
        decreases n - k,
    {
        k = k + 1;
    }
    proof {
        lemma_first_in_window_from_scan(snaps@, cutoff, k as int);
    }
    if n - k >= 2 {
        let mut acc: u128 = 0;
        let mut j: usize = k + 1;
        while j < n
            invariant
                k + 1 <= j <= n,
                n == snaps@.len(),
                acc == clamp_u128(sum_drops_from(snaps@, k as int, j as int)),
            decreases n - j,
        {
            let prev = snaps[j - 1];
            let cur = snaps[j];
            proof {
                lemma_sum_drops_nonneg(snaps@, k as int, j as int);
            }
            if cur.1 < prev.1 {
                acc = acc.saturating_add(prev.1 - cur.1);
            }
            j = j + 1;
        }
        Some(acc)
    } else {
        proof {
            lemma_ext_burn_nonneg(snaps@[n - 2], snaps@[n - 1], window_nanos);
        }
        Some(extrapolate(snaps[n - 2], snaps[n - 1], window_nanos))
    }
}

/// Whether a cached figure reflects data spanning the full window, for the
/// per-window flags of the history detail view.
pub fn data_spans_window(snaps: &Vec<(u64, u128)>, window_nanos: u64, now: u64) -> (r: bool)
    ensures
        r == spans_window(snaps@, window_nanos, now),
{
    if snaps.len() == 0 {
        false
    } else {
        let cutoff = if now >= window_nanos {
            now - window_nanos
        } else {
            0
        };
        snaps[0].0 <= cutoff
    }
}

/// With fewer than two snapshots in all, the burn of every window at every
/// time is unknown.
pub proof fn lemma_insufficient_data(s: Seq<(u64, u128)>, window: u64, now: u64)
    requires
        s.len() < 2,
    ensures
        burn_model(s, window, now) is None,
{
}

/// A history ending in `(t0, 100)` then `(t1, 40)` with the window
/// covering both burns exactly 60, whatever happened — any number of
/// top-ups or drains — strictly before the window.
pub proof fn lemma_two_in_window_burn(
    p: Seq<(u64, u128)>,
    t0: u64,
    t1: u64,
    window: u64,
    now: u64,
)
    requires
        t0 < t1,
        cutoff_of(now, window) <= t0,
        forall|i: int| 0 <= i < p.len() ==> (#[trigger] p[i]).0 < cutoff_of(now, window),
    ensures
        burn_model(p + seq![(t0, 100u128), (t1, 40u128)], window, now) == Some(60int),
{
    let s = p + seq![(t0, 100u128), (t1, 40u128)];
    let cutoff = cutoff_of(now, window);
    let k = p.len() as int;
    assert(forall|i: int| 0 <= i < k ==> #[trigger] s[i].0 < cutoff);
    assert(s[k].0 == t0);
    lemma_first_in_window_from_scan(s, cutoff, k);
    assert(s[s.len() - 2] == (t0, 100u128));
    assert(s[s.len() - 1] == (t1, 40u128));
    assert(sum_drops_from(s, k, s.len() as int) == sum_drops_from(s, k, s.len() - 1) + pos_drop(
        s[s.len() - 2],
        s[s.len() - 1],
    ));
}

/// A top-up between the consecutive snapshots at indices `j - 2` and
/// `j - 1` contributes nothing to the in-window sum.
pub proof fn lemma_topup_adds_zero(s: Seq<(u64, u128)>, k: int, j: int)
    requires
        k + 1 < j,
        0 <= j - 2,
        j <= s.len(),
        s[j - 1].1 >= s[j - 2].1,
    ensures
        sum_drops_from(s, k, j) == sum_drops_from(s, k, j - 1),
{
}

/// Snapshots `(t0, 1000)` and one hour later `(t1, 900)`, too old for a
/// 24-hour window to hold both, extrapolate to a 24-hour burn of 2400.
pub proof fn lemma_extrapolation_example(t0: u64, now: u64)
    requires
        t0 + 3_600_000_000_000 <= u64::MAX,
        cutoff_of(now, 86_400_000_000_000) > t0,
    ensures
        burn_model(
            seq![(t0, 1000u128), ((t0 + 3_600_000_000_000) as u64, 900u128)],
            86_400_000_000_000,
            now,
        ) == Some(2400int),
{
    let t1 = (t0 + 3_600_000_000_000) as u64;
    let s = seq![(t0, 1000u128), (t1, 900u128)];
    let cutoff = cutoff_of(now, 86_400_000_000_000);
    assert(s[0].0 < cutoff);
    assert(s.drop_first() =~= seq![(t1, 900u128)]);
    let k = first_in_window(s, cutoff);
    assert(k == 1 + first_in_window(s.drop_first(), cutoff));
    lemma_first_in_window_bounds(s.drop_first(), cutoff);
    assert(k >= 1);
    assert(s.len() - k < 2);
    assert(ext_burn(s[0], s[1], 86_400_000_000_000) == 100 * 86_400_000_000_000
        / 3_600_000_000_000);
    assert(100 * 86_400_000_000_000int == 8_640_000_000_000_000int);
    lemma_fundamental_div_mod_converse(8_640_000_000_000_000, 3_600_000_000_000, 2400, 0);
}

} // verus!
