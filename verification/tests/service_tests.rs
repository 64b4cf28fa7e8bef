use cyclescan::fetch::FetcherState;
use cyclescan::query::{export_canisters, get_project_canisters, get_unit, get_unit_history};
use cyclescan::service::Service;
use cyclescan::types::{CanisterImport, FieldUpdate, ProxyType};
use cyclescan::NANOS_PER_HOUR;

fn unit_import(id: u64, proxy: u64, pt: ProxyType, project: Option<&str>) -> CanisterImport {
    CanisterImport {
        canister_id: id,
        proxy_id: Some(proxy),
        proxy_type: Some(pt),
        project: project.map(|s| s.to_string()),
        valid: None,
    }
}

#[test]
fn export_round_trips_through_import() {
    let mut svc = Service::new();
    svc.import_canisters(
        true,
        &vec![
            unit_import(1, 100, ProxyType::Direct, Some("alpha")),
            unit_import(2, 200, ProxyType::GroupedRoot, None),
        ],
    )
    .unwrap();
    svc.set_validity(true, 2, false).unwrap();
    let exported = export_canisters(&svc.registry);
    let mut other = Service::new();
    other.import_canisters(true, &exported).unwrap();
    for id in [1u64, 2] {
        let a = svc.registry.get(id).unwrap();
        let b = other.registry.get(id).unwrap();
        assert_eq!(a.proxy_id, b.proxy_id);
        assert_eq!(a.proxy_type, b.proxy_type);
        assert_eq!(a.project_name, b.project_name);
        assert_eq!(a.valid, b.valid);
    }
}

#[test]
fn project_canisters_lists_the_labelled_units() {
    let mut svc = Service::new();
    svc.import_canisters(
        true,
        &vec![
            unit_import(1, 100, ProxyType::Direct, Some("alpha")),
            unit_import(2, 100, ProxyType::Direct, Some("beta")),
            unit_import(3, 100, ProxyType::Direct, Some("alpha")),
            unit_import(4, 100, ProxyType::Direct, None),
        ],
    )
    .unwrap();
    let mut ids = get_project_canisters(&svc.registry, &"alpha".to_string());
    ids.sort();
    assert_eq!(ids, vec![1, 3]);
    assert_eq!(get_project_canisters(&svc.registry, &"gamma".to_string()).len(), 0);
}

#[test]
fn unit_detail_reports_history_and_on_demand_burn() {
    let mut svc = Service::new();
    svc.import_canisters(true, &vec![unit_import(1, 100, ProxyType::Direct, None)]).unwrap();
    let t0 = 9 * NANOS_PER_HOUR;
    let t1 = 10 * NANOS_PER_HOUR;
    svc.history.append(1, t0, 100);
    svc.history.append(1, t1, 40);
    let d = get_unit(&svc.registry, &svc.history, 1, t1).unwrap();
    assert_eq!(d.canister_id, 1);
    assert_eq!(d.history, vec![(t0, 100), (t1, 40)]);
    // The thirty-day window covers both snapshots: actual-data burn.
    assert_eq!(d.burn_30d, Some(60));
    assert!(get_unit(&svc.registry, &svc.history, 9, t1).is_none());
}

#[test]
fn unit_history_flags_windows_without_full_data() {
    let mut svc = Service::new();
    svc.import_canisters(true, &vec![unit_import(1, 100, ProxyType::Direct, None)]).unwrap();
    let now = 30 * NANOS_PER_HOUR;
    // Oldest snapshot is two hours old: it spans the one-hour window
    // but not the one-day window.
    svc.history.append(1, now - 2 * NANOS_PER_HOUR, 100);
    svc.history.append(1, now, 90);
    let (_d, windows) = get_unit_history(&svc.registry, &svc.history, 1, now).unwrap();
    assert_eq!(windows.len(), 3);
    assert_eq!(windows[0].window_nanos, NANOS_PER_HOUR);
    assert!(windows[0].spans);
    assert!(!windows[1].spans);
    assert!(!windows[2].spans);
}

#[test]
fn website_update_is_tristate() {
    let mut svc = Service::new();
    let label = "alpha".to_string();
    svc.set_website(true, &label, &FieldUpdate::Assign("https://a.test".to_string())).unwrap();
    assert_eq!(svc.projects.get(&label).unwrap().website.as_deref(), Some("https://a.test"));
    svc.set_website(true, &label, &FieldUpdate::Unchanged).unwrap();
    assert_eq!(svc.projects.get(&label).unwrap().website.as_deref(), Some("https://a.test"));
    svc.set_website(true, &label, &FieldUpdate::Clear).unwrap();
    assert_eq!(svc.projects.get(&label).unwrap().website, None);
}

#[test]
fn fetch_cursor_advances_and_stops() {
    let mut st = FetcherState::new();
    let go = st.apply_batch(vec!["aa".to_string(), "bb".to_string()], 3);
    assert!(go);
    assert_eq!(st.offset, 2);
    let go = st.apply_batch(vec!["cc".to_string()], 3);
    assert!(!go);
    assert_eq!(st.canisters, vec!["aa", "bb", "cc"]);
    // An empty page ends the run whatever the target.
    let go = st.apply_batch(Vec::new(), 100);
    assert!(!go);
    assert_eq!(st.offset, 3);
}
