use missioncenter::about::{format_kernel_release_string, setup, OsInfo};

fn s(v: &str) -> Option<String> {
    Some(v.to_string())
}

fn info() -> OsInfo {
    OsInfo {
        name: s("Fedora Linux"),
        pretty_name: s("Fedora Linux 41 (Workstation Edition)"),
        version: s("41 (Workstation Edition)"),
        version_id: s("41"),
        os_type: s("Linux"),
        kernel_release: s("6.11.4-301.fc41.x86_64"),
        kernel_version: s("#1 SMP PREEMPT_DYNAMIC"),
    }
}

#[test]
fn kernel_line() {
    let mut i = info();
    assert_eq!(format_kernel_release_string(&i), s("Linux 6.11.4-301.fc41.x86_64"));
    i.os_type = None;
    assert_eq!(format_kernel_release_string(&i), s("Unknown 6.11.4-301.fc41.x86_64"));
    i.kernel_release = None;
    assert_eq!(format_kernel_release_string(&i), None);
    i.os_type = s("Linux");
    assert_eq!(format_kernel_release_string(&i), s("Linux"));
}

#[test]
fn labels_from_full_information() {
    let l = setup(&info());
    assert_eq!(l.os_name, s("Fedora Linux 41 (Workstation Edition)"));
    assert_eq!(l.version, s("41"));
    assert_eq!(l.kernel_release, s("Linux 6.11.4-301.fc41.x86_64"));
    assert_eq!(l.kernel_version, s("#1 SMP PREEMPT_DYNAMIC"));
}

#[test]
fn name_falls_back_to_plain_name() {
    let mut i = info();
    i.pretty_name = None;
    assert_eq!(setup(&i).os_name, s("Fedora Linux"));
    i.name = None;
    assert_eq!(setup(&i).os_name, None);
}

#[test]
fn without_version_id_the_version_takes_the_name_label() {
    let mut i = info();
    i.version_id = None;
    let l = setup(&i);
    assert_eq!(l.version, None);
    assert_eq!(l.os_name, s("41 (Workstation Edition)"));
    i.version = None;
    let l = setup(&i);
    assert_eq!(l.os_name, None);
    assert_eq!(l.kernel_version, s("#1 SMP PREEMPT_DYNAMIC"));
}
