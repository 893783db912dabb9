use missioncenter::process_tree::ContentType;
use missioncenter::search::{
    process_row_matches_search, process_row_passes_filter, service_item_matches_search,
    service_item_passes_filter, similar_or_contained,
};
use missioncenter::text::chars_of;

#[test]
fn search_off_or_empty_shows_everything() {
    assert!(process_row_matches_search(false, "zzz", ContentType::Process, "bash", 1));
    assert!(process_row_matches_search(true, "", ContentType::Process, "bash", 1));
    assert!(process_row_matches_search(true, "zzz", ContentType::SectionHeader, "Apps", 0));
    assert!(service_item_matches_search(false, "zzz", "cups", "12"));
    assert!(service_item_matches_search(true, "", "cups", "12"));
}

#[test]
fn search_is_case_insensitive_substring() {
    assert!(process_row_matches_search(true, "FIRE", ContentType::App, "Firefox", 4242));
    assert!(process_row_matches_search(true, "firefox web browser", ContentType::App, "Firefox", 4242));
    assert!(service_item_matches_search(true, "Blue", "bluetooth.service", ""));
}

#[test]
fn search_matches_process_id() {
    assert!(process_row_matches_search(true, "42", ContentType::Process, "bash", 4242));
    assert!(process_row_matches_search(true, "pid 4242!", ContentType::Process, "bash", 4242));
    assert!(service_item_matches_search(true, "81", "dbus.service", "812"));
    // An empty process id text matches nothing by itself.
    assert!(!service_item_matches_search(true, "xq", "dbus.service", ""));
}

#[test]
fn search_tolerates_typos_by_edit_distance() {
    // One edit away from "firefox": normalized distance 1/7.
    assert!(process_row_matches_search(true, "frefox", ContentType::App, "Firefox", 1));
    // Distance 3 over 5 characters is exactly 0.6: still a match.
    assert!(process_row_matches_search(true, "abxyz", ContentType::Process, "abcde", 9));
    // Distance 4 over 5 characters is 0.8: no match.
    assert!(!process_row_matches_search(true, "axyzw", ContentType::Process, "abcde", 9));
    assert!(!process_row_matches_search(true, "zzzzzzz", ContentType::App, "firefox", 1));
}

#[test]
fn similarity_from_lowercased_inputs() {
    let pid = chars_of("77");
    assert!(similar_or_contained(&"kitty".to_string(), &pid, &"kity".to_string()));
    assert!(!similar_or_contained(&"kitty".to_string(), &pid, &"qqqqq".to_string()));
    assert!(similar_or_contained(&"kitty".to_string(), &pid, &"7".to_string()));
}

#[test]
fn process_filter_by_service_status() {
    // No toggle group: everything passes.
    assert!(process_row_passes_filter(None, ContentType::Service, false, false, false, false));
    // Non-service rows always pass.
    assert!(process_row_passes_filter(Some(1), ContentType::App, false, false, false, false));
    assert!(process_row_passes_filter(Some(0), ContentType::Service, false, false, false, false));
    assert!(process_row_passes_filter(Some(1), ContentType::Service, true, false, false, true));
    assert!(!process_row_passes_filter(Some(1), ContentType::Service, false, true, false, true));
    assert!(process_row_passes_filter(Some(2), ContentType::Service, false, true, false, true));
    assert!(process_row_passes_filter(Some(3), ContentType::Service, false, false, true, true));
    assert!(!process_row_passes_filter(Some(3), ContentType::Service, false, false, false, true));
    assert!(process_row_passes_filter(Some(4), ContentType::Service, false, false, false, false));
    assert!(!process_row_passes_filter(Some(4), ContentType::Service, false, false, false, true));
    assert!(process_row_passes_filter(Some(9), ContentType::Service, false, false, false, true));
}

#[test]
fn service_filter_by_status() {
    assert!(service_item_passes_filter(None, false, false, false));
    assert!(service_item_passes_filter(Some(0), false, false, false));
    assert!(service_item_passes_filter(Some(1), true, false, false));
    assert!(!service_item_passes_filter(Some(1), false, true, true));
    assert!(service_item_passes_filter(Some(2), false, true, true));
    assert!(service_item_passes_filter(Some(3), false, false, true));
    assert!(!service_item_passes_filter(Some(3), true, false, true));
    assert!(service_item_passes_filter(Some(4), false, false, false));
    assert!(!service_item_passes_filter(Some(4), false, true, false));
    assert!(service_item_passes_filter(Some(7), false, true, false));
}
