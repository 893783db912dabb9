use std::collections::HashMap;

use missioncenter::process_tree::{
    app_icon_name, app_pids, app_row_update, children_to_add, command_line, name_cell_layout,
    process_row_update, rows_to_remove_by_id, service_row_update, NameCellLayout,
    id_row_targets, process_row_targets, RowTarget, find_stoppable_child, get_service_icon, pretty_process_name,
    primary_processes, process_bar_update, root_process, rows_to_remove_by_pid, same_chars,
    select_item, service_stopped, AppIcon, ContentType, ListRow, ProcessBarUpdate, ProcessInfo,
    RowNode, ServiceBarState,
};
use missioncenter::text::chars_of;

fn node(name: &str, pid: u32, children: Vec<RowNode>) -> RowNode {
    RowNode { name: name.to_string(), pid, children }
}

#[test]
fn stoppable_row_skips_bwrap_wrappers() {
    let plain = node("bash", 10, vec![]);
    assert_eq!(find_stoppable_child(&plain).unwrap().pid, 10);

    let wrapped = node(
        "bwrap",
        20,
        vec![node("bwrap", 21, vec![]), node("bwrap", 22, vec![node("app", 23, vec![])]), node("other", 24, vec![])],
    );
    assert_eq!(find_stoppable_child(&wrapped).unwrap().pid, 23);

    let only_wrappers = node("bwrap", 30, vec![node("bwrap", 31, vec![])]);
    assert!(find_stoppable_child(&only_wrappers).is_none());
}

#[test]
fn app_requests_go_to_each_childs_stoppable_process() {
    let app = node(
        "Firefox",
        0,
        vec![
            node("firefox", 100, vec![]),
            node("bwrap", 200, vec![node("bwrap", 201, vec![])]),
            node("bwrap", 300, vec![node("webext", 301, vec![])]),
        ],
    );
    assert_eq!(app_pids(&app), vec![100, 301]);
    assert_eq!(app_pids(&node("x", 1, vec![])), Vec::<u32>::new());
}

#[test]
fn select_item_skips_section_headers() {
    let rows = vec![
        ListRow { content_type: ContentType::SectionHeader, id: "apps".to_string() },
        ListRow { content_type: ContentType::App, id: "apps".to_string() },
        ListRow { content_type: ContentType::Process, id: "42".to_string() },
    ];
    assert_eq!(select_item(&rows, "apps"), Some(1));
    assert_eq!(select_item(&rows, "42"), Some(2));
    assert_eq!(select_item(&rows, "43"), None);
}

#[test]
fn same_chars_compares_contents() {
    assert!(same_chars(&chars_of("abc"), &chars_of("abc")));
    assert!(!same_chars(&chars_of("abc"), &chars_of("abd")));
    assert!(!same_chars(&chars_of("abc"), &chars_of("ab")));
}

#[test]
fn process_bar_follows_selection() {
    assert_eq!(process_bar_update(ContentType::Process), ProcessBarUpdate { actions_enabled: true, visible: Some(true) });
    assert_eq!(process_bar_update(ContentType::App), ProcessBarUpdate { actions_enabled: true, visible: Some(true) });
    assert_eq!(process_bar_update(ContentType::Service), ProcessBarUpdate { actions_enabled: false, visible: Some(false) });
    assert_eq!(process_bar_update(ContentType::SectionHeader), ProcessBarUpdate { actions_enabled: false, visible: None });
}

#[test]
fn service_bar_follows_selection() {
    let mut bar = ServiceBarState::new();
    assert_eq!(bar, ServiceBarState { visible: true, start: true, stop: true, restart: true, details: false });
    bar.handle_changed_selection(ContentType::Service, true);
    assert_eq!(bar, ServiceBarState { visible: true, start: false, stop: true, restart: true, details: true });
    bar.handle_changed_selection(ContentType::Service, false);
    assert_eq!(bar, ServiceBarState { visible: true, start: true, stop: false, restart: false, details: true });
    bar.handle_changed_selection(ContentType::Process, true);
    assert_eq!(bar, ServiceBarState { visible: false, start: true, stop: false, restart: false, details: false });
}

#[test]
fn service_icons_by_precedence() {
    assert_eq!(get_service_icon(true, true, true), "service-running");
    assert_eq!(get_service_icon(false, true, true), "service-failed");
    assert_eq!(get_service_icon(false, false, true), "service-stopped");
    assert_eq!(get_service_icon(false, false, false), "service-disabled");
    assert!(service_stopped(false, false, true));
    assert!(!service_stopped(true, false, true));
    assert!(!service_stopped(false, false, false));
}

#[test]
fn pretty_names() {
    let cmd = |v: &[&str]| v.iter().map(|s| s.to_string()).collect::<Vec<String>>();
    assert_eq!(pretty_process_name("/usr/bin/gnome-shell", &cmd(&["gnome-shell"]), "gnome-shell"), "gnome-shell");
    assert_eq!(
        pretty_process_name("/usr/bin/wine64-preloader", &cmd(&["C:\\Games\\game.exe", "-x"]), "game.exe"),
        "game.exe"
    );
    assert_eq!(pretty_process_name("", &cmd(&["/usr/lib/systemd/systemd-journald: "]), "journald"), "systemd-journald");
    assert_eq!(pretty_process_name("", &cmd(&["kworker/0:1"]), "kw"), "0:1");
    assert_eq!(pretty_process_name("", &cmd(&["   "]), "  kthreadd "), "kthreadd");
    assert_eq!(pretty_process_name("", &cmd(&[]), " idle "), "idle");
    assert_eq!(pretty_process_name("/usr/bin/wine", &cmd(&[]), " wine "), "wine");
}

#[test]
fn primary_processes_are_the_top_level_ones() {
    let mut map = HashMap::new();
    map.insert(1, ProcessInfo { pid: 1, children: vec![2, 3] });
    map.insert(2, ProcessInfo { pid: 2, children: vec![] });
    map.insert(3, ProcessInfo { pid: 3, children: vec![] });
    map.insert(9, ProcessInfo { pid: 9, children: vec![] });
    assert_eq!(primary_processes(&vec![1, 2, 3, 9], &map), vec![1, 9]);
    // A cycle leaves no top-level process: the first with children stands in.
    let mut cyc = HashMap::new();
    cyc.insert(5, ProcessInfo { pid: 5, children: vec![6] });
    cyc.insert(6, ProcessInfo { pid: 6, children: vec![5] });
    assert_eq!(primary_processes(&vec![5, 6], &cyc), vec![5]);
    assert_eq!(primary_processes(&vec![], &cyc), Vec::<u32>::new());
    assert_eq!(primary_processes(&vec![77], &cyc), Vec::<u32>::new());
}

#[test]
fn app_icons() {
    assert_eq!(app_icon_name(&Some(AppIcon::Path("/x/icon.png".to_string()))), "/x/icon.png");
    assert_eq!(app_icon_name(&Some(AppIcon::Id("org.gnome.Nautilus".to_string()))), "org.gnome.Nautilus");
    assert_eq!(app_icon_name(&Some(AppIcon::Empty)), "application-x-executable");
    assert_eq!(app_icon_name(&None), "application-x-executable");
}

#[test]
fn rows_removed_from_last_to_first() {
    let rows = vec![Some(10), None, Some(11), Some(12), Some(13)];
    assert_eq!(rows_to_remove_by_pid(&rows, &vec![11, 13]), vec![3, 1, 0]);
    assert_eq!(rows_to_remove_by_pid(&rows, &vec![10, 11, 12, 13]), vec![1]);
    assert_eq!(rows_to_remove_by_pid(&vec![], &vec![1]), Vec::<u32>::new());
}

#[test]
fn root_process_is_the_least_pid() {
    assert_eq!(root_process(&vec![]), 1);
    assert_eq!(root_process(&vec![300, 2, 45]), 2);
}

#[test]
fn command_lines_join_words_with_spaces() {
    let words = |v: &[&str]| v.iter().map(|s| s.to_string()).collect::<Vec<String>>();
    assert_eq!(command_line(&words(&["/usr/bin/python3", "-m", "http.server"])), "/usr/bin/python3 -m http.server");
    assert_eq!(command_line(&words(&["bash"])), "bash");
    assert_eq!(command_line(&words(&[])), "");
    assert_eq!(command_line(&words(&["", "x", ""])), " x ");
}

#[test]
fn name_cell_layouts() {
    let header = name_cell_layout(ContentType::SectionHeader);
    assert_eq!(
        header,
        NameCellLayout {
            icon_visible: false,
            icon_pixel_size: None,
            icon_margin_end: None,
            heading: true,
            margin_start: 6,
            margin_vertical: 6,
            collapse: false,
            indent_for_icon: false,
        }
    );
    let app = name_cell_layout(ContentType::App);
    assert_eq!(app.icon_pixel_size, Some(24));
    assert!(app.collapse);
    let service = name_cell_layout(ContentType::Service);
    assert_eq!((service.icon_pixel_size, service.margin_vertical, service.collapse), (Some(16), 3, true));
    let process = name_cell_layout(ContentType::Process);
    assert_eq!((process.icon_pixel_size, process.margin_start, process.collapse), (Some(16), 0, false));
    assert!(process.indent_for_icon);
}

#[test]
fn process_rows_follow_their_process() {
    let cmd = vec!["/usr/bin/gnome-shell".to_string(), "--wayland".to_string()];
    let u = process_row_update(
        "/usr/bin/gnome-shell",
        &cmd,
        "gnome-shell",
        None,
        "application-x-executable-symbolic",
        &vec![Some(5), Some(6), None],
        &vec![6, 7],
    );
    assert_eq!(u.name, "gnome-shell");
    assert_eq!(u.icon, "application-x-executable-symbolic");
    assert_eq!(u.command_line, "/usr/bin/gnome-shell --wayland");
    assert_eq!(u.remove, vec![2, 0]);
    let u = process_row_update("", &vec![], " kthreadd ", Some("org.app"), "x", &vec![], &vec![]);
    assert_eq!(u.name, "kthreadd");
    assert_eq!(u.icon, "org.app");
    assert_eq!(u.command_line, "");
    assert!(u.remove.is_empty());
}

#[test]
fn app_rows_keep_primary_processes() {
    assert_eq!(children_to_add(&vec![Some(1), None], &vec![1, 2, 3, 2]), vec![2, 3]);
    let u = app_row_update(
        &Some(AppIcon::Id("org.gnome.Nautilus".to_string())),
        &vec![Some(10), Some(11)],
        &vec![11, 12],
    );
    assert_eq!(u.icon, "org.gnome.Nautilus");
    assert_eq!(u.remove, vec![0]);
    assert_eq!(u.add, vec![12]);
}

#[test]
fn service_rows_keep_the_main_process_only() {
    let u = service_row_update(true, false, true, Some(42), &vec![Some(41), Some(42), Some(43)]);
    assert_eq!(u.icon, "service-running");
    assert_eq!(u.remove, vec![2, 0]);
    let u = service_row_update(false, false, false, None, &vec![Some(41), Some(42)]);
    assert_eq!(u.icon, "service-disabled");
    assert_eq!(u.remove, vec![1, 0]);
}

#[test]
fn list_rows_removed_by_id() {
    let ids = vec![Some("a".to_string()), None, Some("b".to_string()), Some("c".to_string())];
    let keys = vec!["c".to_string(), "a".to_string()];
    assert_eq!(rows_to_remove_by_id(&ids, &keys), vec![2, 1]);
    assert_eq!(rows_to_remove_by_id(&ids, &vec![]), vec![3, 2, 1, 0]);
}

#[test]
fn process_rows_found_or_added() {
    let mut map = HashMap::new();
    map.insert(10, ProcessInfo { pid: 10, children: vec![] });
    map.insert(11, ProcessInfo { pid: 11, children: vec![] });
    map.insert(12, ProcessInfo { pid: 12, children: vec![] });
    let rows = vec![Some(11), None, Some(10)];
    assert_eq!(
        process_row_targets(&rows, &vec![10, 99, 12, 11, 12], &map),
        vec![RowTarget::Existing(2), RowTarget::Skip, RowTarget::Append, RowTarget::Existing(0), RowTarget::Existing(3)]
    );
    assert_eq!(process_row_targets(&vec![], &vec![], &map), vec![]);
}

#[test]
fn app_and_service_rows_found_or_added() {
    let ids = vec![Some("b".to_string()), None, Some("a".to_string())];
    let keys = vec!["a".to_string(), "c".to_string(), "c".to_string(), "b".to_string()];
    assert_eq!(
        id_row_targets(&ids, &keys),
        vec![RowTarget::Existing(2), RowTarget::Append, RowTarget::Existing(3), RowTarget::Existing(0)]
    );
}
