use cyclescan::burn::calculate_burn;
use cyclescan::{NANOS_PER_DAY, NANOS_PER_HOUR};

const H: u64 = NANOS_PER_HOUR;

#[test]
fn no_snapshots_is_unknown() {
    let snaps: Vec<(u64, u128)> = Vec::new();
    assert_eq!(calculate_burn(&snaps, NANOS_PER_HOUR, 10 * H), None);
    assert_eq!(calculate_burn(&snaps, NANOS_PER_DAY, 10 * H), None);
}

#[test]
fn one_snapshot_is_unknown() {
    let snaps = vec![(5 * H, 1000u128)];
    assert_eq!(calculate_burn(&snaps, NANOS_PER_HOUR, 10 * H), None);
    assert_eq!(calculate_burn(&snaps, NANOS_PER_DAY, 10 * H), None);
}

#[test]
fn two_in_window_burn_is_sixty() {
    let t0 = 9 * H;
    let t1 = 10 * H;
    let snaps = vec![(t0, 100u128), (t1, 40u128)];
    assert_eq!(calculate_burn(&snaps, NANOS_PER_DAY, t1), Some(60));
}

#[test]
fn topup_outside_window_does_not_affect_burn() {
    // A low balance long before the window, topped up to 100 at its edge.
    let snaps = vec![(1 * H, 10u128), (30 * H, 100u128), (31 * H, 40u128)];
    // A 2-hour window sees only the last two snapshots.
    assert_eq!(calculate_burn(&snaps, 2 * H, 31 * H), Some(60));
}

#[test]
fn topup_inside_window_contributes_zero() {
    // 100 -> 40 (burn 60), then topped up to 500 (zero), then 500 -> 450.
    let snaps = vec![(10 * H, 100u128), (11 * H, 40u128), (12 * H, 500u128), (13 * H, 450u128)];
    assert_eq!(calculate_burn(&snaps, NANOS_PER_DAY, 13 * H), Some(110));
}

#[test]
fn pure_topup_burns_nothing() {
    let snaps = vec![(10 * H, 100u128), (11 * H, 900u128)];
    assert_eq!(calculate_burn(&snaps, NANOS_PER_DAY, 11 * H), Some(0));
}

#[test]
fn extrapolated_burn_over_a_day() {
    // 100 cycles burned in one hour, observed long before `now`: the
    // 24-hour window holds fewer than two snapshots, so the last two are
    // extrapolated: 100 * 24 = 2400.
    let t0 = 0u64;
    let t1 = 3_600_000_000_000u64;
    let snaps = vec![(t0, 1000u128), (t1, 900u128)];
    let now = 100_000_000_000_000u64;
    assert!(now - NANOS_PER_DAY > t1);
    assert_eq!(calculate_burn(&snaps, NANOS_PER_DAY, now), Some(2400));
}

#[test]
fn extrapolation_of_rising_balance_is_zero() {
    let t0 = 0u64;
    let t1 = 3_600_000_000_000u64;
    let snaps = vec![(t0, 900u128), (t1, 1000u128)];
    let now = 100_000_000_000_000u64;
    assert_eq!(calculate_burn(&snaps, NANOS_PER_DAY, now), Some(0));
}

#[test]
fn extrapolation_truncates_toward_zero() {
    // 7 burned over 3 units of time, window of 2: 14 / 3 = 4 (truncated).
    let snaps = vec![(0u64, 10u128), (3u64, 3u128)];
    let now = 1_000_000u64;
    assert_eq!(calculate_burn(&snaps, 2, now), Some(4));
}

#[test]
fn span_exactly_equal_to_window_counts_as_actual_data() {
    // A snapshot exactly at the cutoff is in the window, so two
    // snapshots spanning exactly one window use the actual-data sum.
    let now = 48 * H;
    let window = NANOS_PER_DAY;
    let snaps = vec![(now - window, 500u128), (now, 200u128)];
    assert_eq!(calculate_burn(&snaps, window, now), Some(300));
}
