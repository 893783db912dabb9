use missioncenter::columns::{
    column_order_string, find_column, restore_column_order, saved_sort_order, sort_order_setting,
    split_chars, SavedSortOrder, SortDirection, SORT_ASCENDING, SORT_DESCENDING, SORT_UNSET,
};
use missioncenter::text::chars_of;

fn ids(v: &[Option<&str>]) -> Vec<Option<String>> {
    v.iter().map(|o| o.map(|s| s.to_string())).collect()
}

#[test]
fn split_like_str_split() {
    let parts = split_chars(&chars_of("a;bc;;d"), ';');
    let parts: Vec<String> = parts.iter().map(|p| p.iter().collect()).collect();
    assert_eq!(parts, vec!["a", "bc", "", "d"]);
    assert_eq!(split_chars(&chars_of(""), ';').len(), 1);
    assert_eq!(split_chars(&chars_of(";"), ';').len(), 2);
}

#[test]
fn restore_places_saved_ids_first() {
    let cols = ids(&[Some("name"), Some("pid"), Some("cpu"), Some("memory")]);
    assert_eq!(restore_column_order("cpu;name", &cols), vec![2, 0, 1, 3]);
    assert_eq!(restore_column_order("memory;cpu;pid;name", &cols), vec![3, 2, 1, 0]);
}

#[test]
fn restore_skips_unknown_ids_and_keeps_the_rest() {
    let cols = ids(&[Some("name"), None, Some("cpu")]);
    assert_eq!(restore_column_order("gpu;cpu", &cols), vec![2, 0, 1]);
    assert_eq!(restore_column_order("", &cols), vec![0, 1, 2]);
}

#[test]
fn restore_with_repeated_ids_places_each_column_once() {
    let cols = ids(&[Some("x"), Some("y"), Some("x")]);
    assert_eq!(restore_column_order("x;x;x", &cols), vec![0, 2, 1]);
}

#[test]
fn order_string_joins_present_ids() {
    let cols = ids(&[Some("name"), None, Some("cpu"), Some("memory")]);
    assert_eq!(column_order_string(&cols), "name;cpu;memory");
    assert_eq!(column_order_string(&ids(&[None])), "");
    assert_eq!(column_order_string(&ids(&[])), "");
}

#[test]
fn saving_then_restoring_keeps_the_arrangement() {
    let cols = ids(&[Some("memory"), Some("name"), Some("cpu")]);
    let saved = column_order_string(&cols);
    assert_eq!(restore_column_order(&saved, &cols), vec![0, 1, 2]);
    // The saved order put back onto a differently arranged view.
    let shuffled = ids(&[Some("cpu"), Some("memory"), Some("name")]);
    assert_eq!(restore_column_order(&saved, &shuffled), vec![1, 2, 0]);
}

#[test]
fn find_first_column_with_id() {
    let cols = ids(&[None, Some("pid"), Some("pid")]);
    assert_eq!(find_column(&cols, "pid"), Some(1));
    assert_eq!(find_column(&cols, "cpu"), None);
}

#[test]
fn sort_order_values() {
    assert_eq!(sort_order_setting(SortDirection::Ascending), SORT_ASCENDING);
    assert_eq!(sort_order_setting(SortDirection::Descending), SORT_DESCENDING);
    assert_eq!(sort_order_setting(SortDirection::Other), SORT_ASCENDING);
    assert_eq!(saved_sort_order(0), SavedSortOrder::Ascending);
    assert_eq!(saved_sort_order(1), SavedSortOrder::Descending);
    assert_eq!(saved_sort_order(SORT_UNSET), SavedSortOrder::Unset);
    assert_eq!(saved_sort_order(7), SavedSortOrder::Unknown);
    for d in [SortDirection::Ascending, SortDirection::Descending] {
        let back = saved_sort_order(sort_order_setting(d));
        let expected = if d == SortDirection::Descending {
            SavedSortOrder::Descending
        } else {
            SavedSortOrder::Ascending
        };
        assert_eq!(back, expected);
    }
}
