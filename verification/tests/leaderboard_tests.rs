use cyclescan::projects::ProjectRegistry;
use cyclescan::query::{get_canister_count, get_leaderboard, get_project_leaderboard};
use cyclescan::registry::Registry;
use cyclescan::types::{CanisterImport, FieldUpdate, ProxyType};

fn registry_of_five() -> Registry {
    let mut reg = Registry::new();
    for id in 1u64..=5 {
        reg.import_one(&CanisterImport {
            canister_id: id,
            proxy_id: Some(10),
            proxy_type: Some(ProxyType::Direct),
            project: None,
            valid: None,
        });
        reg.set_cached(id, id as u128 * 1000, None, Some(id as u128 * 10), None);
    }
    reg
}

#[test]
fn pagination_past_the_end_yields_the_remainder() {
    let reg = registry_of_five();
    let page = get_leaderboard(&reg, 4, 2, false);
    assert_eq!(page.total, 5);
    assert_eq!(page.offset, 4);
    assert_eq!(page.entries.len(), 1);
}

#[test]
fn pagination_beyond_total_is_empty() {
    let reg = registry_of_five();
    let page = get_leaderboard(&reg, 7, 2, false);
    assert_eq!(page.total, 5);
    assert_eq!(page.entries.len(), 0);
}

#[test]
fn leaderboard_sorts_descending_by_cached_day_burn() {
    let reg = registry_of_five();
    let page = get_leaderboard(&reg, 0, 10, false);
    assert_eq!(page.entries.len(), 5);
    let ids: Vec<u64> = page.entries.iter().map(|e| e.canister_id).collect();
    assert_eq!(ids, vec![5, 4, 3, 2, 1]);
    assert_eq!(page.entries[0].burn_24h, Some(50));
    assert_eq!(page.entries[0].balance, 5000);
}

#[test]
fn limit_is_capped_at_the_page_size() {
    let mut reg = Registry::new();
    for id in 1u64..=120 {
        reg.import_one(&CanisterImport {
            canister_id: id,
            proxy_id: Some(10),
            proxy_type: Some(ProxyType::Direct),
            project: None,
            valid: None,
        });
    }
    let page = get_leaderboard(&reg, 0, 500, false);
    assert_eq!(page.total, 120);
    assert_eq!(page.entries.len(), 100);
}

#[test]
fn invalid_units_are_filtered_when_asked() {
    let mut reg = registry_of_five();
    reg.set_validity(2, false);
    reg.set_validity(4, false);
    let page = get_leaderboard(&reg, 0, 10, true);
    assert_eq!(page.total, 3);
    let ids: Vec<u64> = page.entries.iter().map(|e| e.canister_id).collect();
    assert_eq!(ids, vec![5, 3, 1]);
    let all = get_leaderboard(&reg, 0, 10, false);
    assert_eq!(all.total, 5);
}

#[test]
fn canister_count_reports_the_registry_size() {
    let reg = registry_of_five();
    assert_eq!(get_canister_count(&reg), 5);
}

#[test]
fn project_leaderboard_lists_nonzero_rows_sorted() {
    let mut projects = ProjectRegistry::new();
    projects.set_website(&"idle".to_string(), &FieldUpdate::Unchanged);
    projects.accumulate(&"alpha".to_string(), 100, 1, 10, 70);
    projects.accumulate(&"alpha".to_string(), 200, 2, 20, 70);
    projects.accumulate(&"beta".to_string(), 50, 9, 90, 5);
    let rows = get_project_leaderboard(&projects);
    assert_eq!(rows.len(), 2);
    assert_eq!(rows[0].project, "beta");
    assert_eq!(rows[0].total_burn_24h, 90);
    assert_eq!(rows[1].project, "alpha");
    assert_eq!(rows[1].canister_count, 2);
    assert_eq!(rows[1].total_balance, 300);
    assert_eq!(rows[1].total_burn_24h, 30);
}

#[test]
fn project_website_survives_rollup_reset() {
    let mut projects = ProjectRegistry::new();
    projects.set_website(&"alpha".to_string(), &FieldUpdate::Assign("https://a.test".to_string()));
    projects.accumulate(&"alpha".to_string(), 1, 1, 1, 1);
    projects.reset_rollups();
    projects.accumulate(&"alpha".to_string(), 2, 2, 2, 2);
    let rows = get_project_leaderboard(&projects);
    assert_eq!(rows.len(), 1);
    assert_eq!(rows[0].website.as_deref(), Some("https://a.test"));
    assert_eq!(rows[0].total_balance, 2);
    assert_eq!(rows[0].canister_count, 1);
}

#[test]
fn equal_burns_keep_their_registry_order() {
    let mut reg = Registry::new();
    for id in [7u64, 3, 9] {
        reg.import_one(&CanisterImport {
            canister_id: id,
            proxy_id: Some(10),
            proxy_type: Some(ProxyType::Direct),
            project: None,
            valid: None,
        });
        reg.set_cached(id, 0, None, Some(42), None);
    }
    let page = get_leaderboard(&reg, 0, 10, false);
    let ids: Vec<u64> = page.entries.iter().map(|e| e.canister_id).collect();
    assert_eq!(ids, vec![7, 3, 9]);
}
