use cyclescan::orchestrator::{
    apply_grouped_response, batch_direct, begin_cycle, cycle_summary, prune_history,
    record_failure, record_success, recompute_caches, seal_queries,
};
use cyclescan::query::get_stats;
use cyclescan::service::Service;
use cyclescan::types::{AuthError, CanisterImport, ProxyType};
use cyclescan::{NANOS_PER_HOUR, RETENTION_NANOS};

fn imp(id: u64, proxy: u64, pt: ProxyType, project: Option<&str>) -> CanisterImport {
    CanisterImport {
        canister_id: id,
        proxy_id: Some(proxy),
        proxy_type: Some(pt),
        project: project.map(|s| s.to_string()),
        valid: None,
    }
}

fn service_of_five() -> Service {
    let mut svc = Service::new();
    let items = vec![
        imp(1, 100, ProxyType::Direct, Some("alpha")),
        imp(2, 100, ProxyType::Direct, Some("alpha")),
        imp(3, 101, ProxyType::Direct, None),
        imp(4, 200, ProxyType::GroupedRoot, Some("beta")),
        imp(5, 200, ProxyType::GroupedRoot, None),
    ];
    svc.import_canisters(true, &items).unwrap();
    svc
}

#[test]
fn grouping_partitions_by_mechanism_and_root() {
    let svc = service_of_five();
    let (plan, st) = begin_cycle(&svc, 1000);
    assert_eq!(st.total, 5);
    assert_eq!(st.timestamp, 1000);
    let mut direct_units: Vec<u64> = plan.direct.iter().map(|p| p.0).collect();
    direct_units.sort();
    assert_eq!(direct_units, vec![1, 2, 3]);
    assert_eq!(plan.grouped.len(), 1);
    assert_eq!(plan.grouped[0].0, 200);
    let mut members = plan.grouped[0].1.clone();
    members.sort();
    assert_eq!(members, vec![4, 5]);
}

#[test]
fn batches_respect_the_fanout_width() {
    let pairs: Vec<(u64, u64)> = (0..120u64).map(|i| (i, 100)).collect();
    let batches = batch_direct(&pairs);
    assert_eq!(batches.len(), 3);
    assert_eq!(batches[0].len(), 50);
    assert_eq!(batches[1].len(), 50);
    assert_eq!(batches[2].len(), 20);
    let flat: Vec<(u64, u64)> = batches.into_iter().flatten().collect();
    assert_eq!(flat, pairs);
    assert_eq!(batch_direct(&Vec::new()).len(), 0);
}

#[test]
fn failure_in_a_batch_does_not_block_other_successes() {
    let mut svc = service_of_five();
    let now = 10 * NANOS_PER_HOUR;
    let (plan, mut st) = begin_cycle(&svc, now);
    // Direct units: one fails, the others succeed.
    record_success(&mut svc, &mut st, 1, 900);
    record_failure(&mut svc, &mut st, 1);
    record_success(&mut svc, &mut st, 3, 700);
    // The grouped answer names unit 4 but not the registered unit 5.
    let expected = plan.grouped[0].1.clone();
    let resp = vec![(4u64, 500u128), (999u64, 1u128)];
    apply_grouped_response(&mut svc, &mut st, &expected, &resp);
    seal_queries(&mut st);
    recompute_caches(&mut svc, &mut st);
    prune_history(&mut svc, &mut st);
    let summary = cycle_summary(&st);
    assert_eq!(summary.total, 5);
    assert_eq!(summary.success, 3);
    assert_eq!(summary.failed, 2);
    assert_eq!(summary.pruned, 0);
    assert_eq!(summary.timestamp, now);
    // The successes were all recorded despite the failures.
    assert_eq!(svc.history.latest(1), Some(900));
    assert_eq!(svc.history.latest(3), Some(700));
    assert_eq!(svc.history.latest(4), Some(500));
    assert_eq!(svc.history.latest(2), None);
    assert_eq!(svc.history.latest(5), None);
    // Recomputing ran: the cached balances are fresh.
    assert_eq!(svc.registry.get(1).unwrap().balance, 900);
    assert_eq!(svc.registry.get(2).unwrap().balance, 0);
}

#[test]
fn rerunning_a_cycle_at_one_timestamp_upserts() {
    let mut svc = service_of_five();
    let now = 10 * NANOS_PER_HOUR;
    for _ in 0..2 {
        let (_plan, mut st) = begin_cycle(&svc, now);
        record_success(&mut svc, &mut st, 1, 900);
        seal_queries(&mut st);
        recompute_caches(&mut svc, &mut st);
        prune_history(&mut svc, &mut st);
    }
    assert_eq!(get_stats(&svc.registry, &svc.projects, &svc.history).snapshot_count, 1);
}

#[test]
fn cycle_prunes_rows_past_the_retention_horizon() {
    let mut svc = service_of_five();
    let early = 5u64;
    svc.history.append(1, early, 111);
    let now = RETENTION_NANOS + NANOS_PER_HOUR;
    let (_plan, mut st) = begin_cycle(&svc, now);
    record_success(&mut svc, &mut st, 2, 800);
    seal_queries(&mut st);
    recompute_caches(&mut svc, &mut st);
    prune_history(&mut svc, &mut st);
    let summary = cycle_summary(&st);
    assert_eq!(summary.pruned, 1);
    assert_eq!(svc.history.latest(1), None);
    assert_eq!(svc.history.latest(2), Some(800));
}

#[test]
fn recomputing_feeds_the_project_rollups() {
    let mut svc = service_of_five();
    let now = 10 * NANOS_PER_HOUR;
    let (_plan, mut st) = begin_cycle(&svc, now);
    record_success(&mut svc, &mut st, 1, 900);
    record_success(&mut svc, &mut st, 2, 600);
    record_success(&mut svc, &mut st, 4, 400);
    seal_queries(&mut st);
    recompute_caches(&mut svc, &mut st);
    prune_history(&mut svc, &mut st);
    let alpha = svc.projects.get(&"alpha".to_string()).unwrap();
    assert_eq!(alpha.canister_count, 2);
    assert_eq!(alpha.total_balance, 1500);
    let beta = svc.projects.get(&"beta".to_string()).unwrap();
    assert_eq!(beta.canister_count, 1);
    assert_eq!(beta.total_balance, 400);
}

#[test]
fn stats_reflect_all_three_stores() {
    let mut svc = service_of_five();
    svc.history.append(1, 10, 100);
    svc.history.append(2, 30, 200);
    let stats = get_stats(&svc.registry, &svc.projects, &svc.history);
    assert_eq!(stats.canister_count, 5);
    assert_eq!(stats.snapshot_count, 2);
    assert_eq!(stats.oldest_snapshot, Some(10));
    assert_eq!(stats.newest_snapshot, Some(30));
}

#[test]
fn unauthorized_admin_calls_change_nothing() {
    let mut svc = service_of_five();
    assert_eq!(
        svc.import_canisters(false, &vec![imp(9, 1, ProxyType::Direct, None)]),
        Err(AuthError::NotAuthorized)
    );
    assert_eq!(svc.set_validity(false, 1, false), Err(AuthError::NotAuthorized));
    assert_eq!(svc.remove_canisters(false, &vec![1]), Err(AuthError::NotAuthorized));
    assert_eq!(svc.clear_all(false), Err(AuthError::NotAuthorized));
    assert_eq!(svc.start_timer(false), Err(AuthError::NotAuthorized));
    assert_eq!(svc.registry.len(), 5);
    assert!(svc.registry.get(1).unwrap().valid);
}

#[test]
fn removal_cascades_to_history() {
    let mut svc = service_of_five();
    svc.history.append(1, 10, 100);
    svc.history.append(1, 20, 200);
    svc.history.append(2, 10, 100);
    let removed = svc.remove_canisters(true, &vec![1, 99]).unwrap();
    assert_eq!(removed, 1);
    assert!(svc.registry.get(1).is_none());
    assert_eq!(svc.history.unit_history(1), Vec::<(u64, u128)>::new());
    assert_eq!(svc.history.unit_history(2), vec![(10, 100)]);
}

#[test]
fn timer_flag_follows_start_and_stop() {
    let mut svc = Service::new();
    assert!(!svc.is_timer_running());
    assert_eq!(svc.start_timer(true), Ok(false));
    assert!(svc.is_timer_running());
    assert_eq!(svc.start_timer(true), Ok(true));
    assert_eq!(svc.stop_timer(true), Ok(true));
    assert!(!svc.is_timer_running());
    assert_eq!(svc.stop_timer(true), Ok(false));
}

#[test]
fn clear_all_empties_every_store() {
    let mut svc = service_of_five();
    svc.history.append(1, 10, 100);
    svc.clear_all(true).unwrap();
    assert_eq!(svc.registry.len(), 0);
    assert_eq!(svc.projects.len(), 0);
    assert_eq!(svc.history.count(), 0);
}

#[test]
fn stats_extremes_ignore_unit_grouping() {
    // Rows are grouped by unit first, so key order differs from time
    // order; the extremes still report the true oldest and newest.
    let mut svc = service_of_five();
    svc.history.append(1, 50, 100);
    svc.history.append(2, 10, 200);
    let stats = get_stats(&svc.registry, &svc.projects, &svc.history);
    assert_eq!(stats.oldest_snapshot, Some(10));
    assert_eq!(stats.newest_snapshot, Some(50));
}
