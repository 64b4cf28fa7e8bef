use cyclescan::history::HistoryStore;

#[test]
fn unit_history_is_ascending_and_per_unit() {
    let mut h = HistoryStore::new();
    h.append(2, 30, 300);
    h.append(1, 20, 120);
    h.append(1, 10, 110);
    h.append(2, 10, 210);
    assert_eq!(h.unit_history(1), vec![(10, 110), (20, 120)]);
    assert_eq!(h.unit_history(2), vec![(10, 210), (30, 300)]);
    assert_eq!(h.unit_history(3), Vec::<(u64, u128)>::new());
    assert_eq!(h.count(), 4);
}

#[test]
fn append_at_same_timestamp_upserts() {
    let mut h = HistoryStore::new();
    h.append(1, 10, 100);
    h.append(1, 10, 200);
    assert_eq!(h.count(), 1);
    assert_eq!(h.unit_history(1), vec![(10, 200)]);
    assert_eq!(h.latest(1), Some(200));
}

#[test]
fn latest_of_unknown_unit_is_none() {
    let h = HistoryStore::new();
    assert_eq!(h.latest(7), None);
}

#[test]
fn prune_removes_only_older_rows_across_all_units() {
    let mut h = HistoryStore::new();
    h.append(1, 5, 15);
    h.append(1, 50, 150);
    h.append(2, 6, 26);
    h.append(2, 60, 260);
    h.append(3, 70, 370);
    let pruned = h.prune(50);
    assert_eq!(pruned, 2);
    assert_eq!(h.unit_history(1), vec![(50, 150)]);
    assert_eq!(h.unit_history(2), vec![(60, 260)]);
    assert_eq!(h.unit_history(3), vec![(70, 370)]);
    assert_eq!(h.count(), 3);
}

#[test]
fn prune_twice_removes_nothing_the_second_time() {
    let mut h = HistoryStore::new();
    h.append(1, 5, 15);
    h.append(2, 7, 27);
    h.append(2, 80, 280);
    assert_eq!(h.prune(50), 2);
    assert_eq!(h.prune(50), 0);
    assert_eq!(h.count(), 1);
}

#[test]
fn prune_at_exact_timestamp_keeps_the_row() {
    let mut h = HistoryStore::new();
    h.append(1, 50, 150);
    assert_eq!(h.prune(50), 0);
    assert_eq!(h.unit_history(1), vec![(50, 150)]);
}

#[test]
fn drop_unit_cascades_over_that_unit_only() {
    let mut h = HistoryStore::new();
    h.append(1, 10, 110);
    h.append(1, 20, 120);
    h.append(2, 10, 210);
    assert_eq!(h.drop_unit(1), 2);
    assert_eq!(h.unit_history(1), Vec::<(u64, u128)>::new());
    assert_eq!(h.unit_history(2), vec![(10, 210)]);
    assert_eq!(h.drop_unit(1), 0);
}

#[test]
fn clear_empties_the_store() {
    let mut h = HistoryStore::new();
    h.append(1, 10, 110);
    h.clear();
    assert_eq!(h.count(), 0);
    assert_eq!(h.unit_history(1), Vec::<(u64, u128)>::new());
}
