use missioncenter::services::{
    find_service_by_name, plan_services_update, service_actions, service_counts, ServiceActions,
    ServiceCounts, ServiceInfo, ServiceRow, ServiceStatus,
};

fn st(running: bool, failed: bool, enabled: bool) -> ServiceStatus {
    ServiceStatus { running, failed, enabled }
}

fn info(id: &str, running: bool, pid: Option<u32>) -> ServiceInfo {
    ServiceInfo {
        id: id.to_string(),
        description: Some(format!("{} daemon", id)),
        enabled: true,
        running,
        failed: false,
        pid,
        user: None,
        group: Some("root".to_string()),
    }
}

fn row(name: &str) -> ServiceRow {
    ServiceRow {
        name: name.to_string(),
        description: String::new(),
        enabled: false,
        running: false,
        failed: false,
        pid: String::new(),
        user: String::new(),
        group: String::new(),
    }
}

#[test]
fn counts_by_first_matching_class() {
    let services = vec![
        st(true, true, true),
        st(false, true, false),
        st(false, false, true),
        st(false, false, true),
        st(false, false, false),
    ];
    let c = service_counts(&services);
    assert_eq!(c, ServiceCounts { total: 5, running: 1, failed: 1, stopped: 2, disabled: 1 });
    assert_eq!(c.running + c.failed + c.stopped + c.disabled, c.total);
    assert_eq!(service_counts(&vec![]), ServiceCounts { total: 0, running: 0, failed: 0, stopped: 0, disabled: 0 });
}

#[test]
fn actions_for_running_and_stopped_services() {
    assert_eq!(service_actions(true), ServiceActions { start: false, stop: true, restart: true });
    assert_eq!(service_actions(false), ServiceActions { start: true, stop: false, restart: false });
}

#[test]
fn plan_updates_matching_rows_and_appends_new_services() {
    let rows = vec![row("cups.service"), row("gone.service"), row("dbus.service")];
    let entries = vec![
        ("dbus.service".to_string(), info("dbus.service", true, Some(812))),
        ("new.service".to_string(), info("new.service", false, None)),
        ("cups.service".to_string(), info("cups.service", false, None)),
    ];
    let plan = plan_services_update(&rows, &entries);
    assert_eq!(plan.kept.len(), 2);
    assert_eq!(plan.kept[0].0, 0);
    assert_eq!(plan.kept[0].1.name, "cups.service");
    assert_eq!(plan.kept[0].1.pid, "");
    assert_eq!(plan.kept[0].1.description, "cups.service daemon");
    assert_eq!(plan.kept[1].0, 2);
    assert_eq!(plan.kept[1].1.name, "dbus.service");
    assert!(plan.kept[1].1.running);
    assert_eq!(plan.kept[1].1.pid, "812");
    assert_eq!(plan.kept[1].1.user, "");
    assert_eq!(plan.kept[1].1.group, "root");
    assert_eq!(plan.added.len(), 1);
    assert_eq!(plan.added[0].name, "new.service");
    assert!(plan.added[0].enabled);
}

#[test]
fn plan_lists_every_service_once() {
    // The rows end up naming exactly the services read, whatever was there.
    let rows = vec![row("a"), row("a"), row("c")];
    let entries = vec![
        ("a".to_string(), info("a", true, Some(1))),
        ("b".to_string(), info("b", true, Some(2))),
    ];
    let plan = plan_services_update(&rows, &entries);
    let mut names: Vec<String> = plan.kept.iter().map(|(_, r)| r.name.clone()).collect();
    names.extend(plan.added.iter().map(|r| r.name.clone()));
    names.sort();
    assert_eq!(names, vec!["a".to_string(), "b".to_string()]);
    assert_eq!(plan.kept[0].0, 0);
}

#[test]
fn find_service_row_by_name() {
    let names = vec!["a.service".to_string(), "b.service".to_string(), "b.service".to_string()];
    assert_eq!(find_service_by_name(&names, "b.service"), Some(1));
    assert_eq!(find_service_by_name(&names, "c.service"), None);
}
