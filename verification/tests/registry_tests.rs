use cyclescan::registry::{truncate_field, Registry};
use cyclescan::service::Service;
use cyclescan::types::{CanisterImport, FieldUpdate, ProxyType};

fn import(id: u64, proxy: u64, pt: ProxyType, project: Option<&str>) -> CanisterImport {
    CanisterImport {
        canister_id: id,
        proxy_id: Some(proxy),
        proxy_type: Some(pt),
        project: project.map(|s| s.to_string()),
        valid: None,
    }
}

#[test]
fn import_creates_with_defaults() {
    let mut reg = Registry::new();
    let created = reg.import_one(&CanisterImport {
        canister_id: 5,
        proxy_id: None,
        proxy_type: None,
        project: None,
        valid: None,
    });
    assert!(created);
    let m = reg.get(5).unwrap();
    assert_eq!(m.proxy_id, 0);
    assert!(matches!(m.proxy_type, ProxyType::Direct));
    assert_eq!(m.project_name, None);
    assert!(m.valid);
    assert_eq!(m.balance, 0);
    assert_eq!(m.burn_24h, None);
}

#[test]
fn import_with_only_project_preserves_proxy_and_validity() {
    let mut reg = Registry::new();
    reg.import_one(&import(5, 77, ProxyType::GroupedRoot, None));
    assert!(reg.set_validity(5, false));
    // A second import supplying only the project field.
    let created = reg.import_one(&CanisterImport {
        canister_id: 5,
        proxy_id: None,
        proxy_type: None,
        project: Some("alpha".to_string()),
        valid: None,
    });
    assert!(!created);
    let m = reg.get(5).unwrap();
    assert_eq!(m.proxy_id, 77);
    assert!(matches!(m.proxy_type, ProxyType::GroupedRoot));
    assert!(!m.valid);
    assert_eq!(m.project_name.as_deref(), Some("alpha"));
}

#[test]
fn import_does_not_touch_cached_fields() {
    let mut reg = Registry::new();
    reg.import_one(&import(5, 77, ProxyType::Direct, None));
    assert!(reg.set_cached(5, 1234, Some(1), Some(24), Some(7)));
    reg.import_one(&import(5, 88, ProxyType::Direct, Some("beta")));
    let m = reg.get(5).unwrap();
    assert_eq!(m.proxy_id, 88);
    assert_eq!(m.balance, 1234);
    assert_eq!(m.burn_1h, Some(1));
    assert_eq!(m.burn_24h, Some(24));
    assert_eq!(m.burn_7d, Some(7));
}

#[test]
fn bulk_import_counts_items() {
    let mut reg = Registry::new();
    let items = vec![
        import(1, 10, ProxyType::Direct, None),
        import(2, 10, ProxyType::Direct, None),
        import(1, 11, ProxyType::Direct, None),
    ];
    assert_eq!(reg.import_canisters(&items), 3);
    assert_eq!(reg.len(), 2);
    assert_eq!(reg.get(1).unwrap().proxy_id, 11);
}

#[test]
fn set_project_tristate() {
    let mut reg = Registry::new();
    reg.import_one(&import(5, 77, ProxyType::Direct, Some("alpha")));
    assert!(reg.set_project(5, &FieldUpdate::Unchanged));
    assert_eq!(reg.get(5).unwrap().project_name.as_deref(), Some("alpha"));
    assert!(reg.set_project(5, &FieldUpdate::Assign("beta".to_string())));
    assert_eq!(reg.get(5).unwrap().project_name.as_deref(), Some("beta"));
    assert!(reg.set_project(5, &FieldUpdate::Clear));
    assert_eq!(reg.get(5).unwrap().project_name, None);
    assert!(!reg.set_project(9, &FieldUpdate::Clear));
}

#[test]
fn set_validity_of_unknown_unit_is_noop() {
    let mut reg = Registry::new();
    assert!(!reg.set_validity(9, true));
    assert_eq!(reg.len(), 0);
}

#[test]
fn remove_one_deletes_the_row() {
    let mut reg = Registry::new();
    reg.import_one(&import(1, 10, ProxyType::Direct, None));
    reg.import_one(&import(2, 10, ProxyType::Direct, None));
    assert!(reg.remove_one(1));
    assert!(!reg.remove_one(1));
    assert_eq!(reg.len(), 1);
    assert!(reg.get(1).is_none());
    assert!(reg.get(2).is_some());
}

#[test]
fn long_ascii_field_is_cut_at_the_byte_budget() {
    let s = "a".repeat(150);
    assert_eq!(truncate_field(&s), "a".repeat(100));
    let t = "b".repeat(100);
    assert_eq!(truncate_field(&t), t);
}

#[test]
fn truncation_never_splits_a_character() {
    // 99 single-byte characters followed by a two-byte one: the budget
    // of 100 bytes falls inside the last character, so it is dropped.
    let s = format!("{}\u{e9}{}", "a".repeat(99), "x".repeat(30));
    let cut = truncate_field(&s);
    assert_eq!(cut, "a".repeat(99));
    // With the two-byte character fitting entirely, it is kept.
    let t = format!("{}\u{e9}", "a".repeat(98));
    assert_eq!(truncate_field(&t), t);
}

#[test]
fn imported_project_label_is_truncated() {
    let mut reg = Registry::new();
    let long = "p".repeat(130);
    reg.import_one(&CanisterImport {
        canister_id: 5,
        proxy_id: Some(1),
        proxy_type: None,
        project: Some(long),
        valid: None,
    });
    assert_eq!(reg.get(5).unwrap().project_name.as_deref(), Some("p".repeat(100).as_str()));
}

#[test]
fn bulk_import_with_only_project_preserves_proxy_and_validity() {
    let mut svc = Service::new();
    svc.import_canisters(true, &vec![import(5, 77, ProxyType::GroupedRoot, None)]).unwrap();
    svc.set_validity(true, 5, false).unwrap();
    // A second bulk import whose only item supplies just the project.
    let items = vec![CanisterImport {
        canister_id: 5,
        proxy_id: None,
        proxy_type: None,
        project: Some("alpha".to_string()),
        valid: None,
    }];
    assert_eq!(svc.import_canisters(true, &items), Ok(1));
    let m = svc.registry.get(5).unwrap();
    assert_eq!(m.proxy_id, 77);
    assert!(matches!(m.proxy_type, ProxyType::GroupedRoot));
    assert!(!m.valid);
    assert_eq!(m.project_name.as_deref(), Some("alpha"));
}
