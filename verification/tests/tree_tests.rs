use std::collections::HashMap;

use missioncenter::process_tree::{ProcessInfo, RowNode};
use missioncenter::tree::{process_tree_within, update_process_rows};

fn node(name: &str, pid: u32, children: Vec<RowNode>) -> RowNode {
    RowNode { name: name.to_string(), pid, children }
}

fn snapshot(entries: &[(u32, &[u32])]) -> HashMap<u32, ProcessInfo> {
    let mut map = HashMap::new();
    for (pid, children) in entries {
        map.insert(*pid, ProcessInfo { pid: *pid, children: children.to_vec() });
    }
    map
}

fn pids(rows: &[RowNode]) -> Vec<u32> {
    rows.iter().map(|r| r.pid).collect()
}

fn update(rows: &mut Vec<RowNode>, map: &HashMap<u32, ProcessInfo>, pid: u32) {
    assert!(process_tree_within(map, pid, map.len()));
    update_process_rows(rows, map, pid);
}

#[test]
fn new_tree_is_built_below_a_new_row() {
    let map = snapshot(&[(1, &[2, 3]), (2, &[]), (3, &[4]), (4, &[])]);
    let mut rows = Vec::new();
    update(&mut rows, &map, 1);
    assert_eq!(pids(&rows), vec![1]);
    assert_eq!(rows[0].name, "");
    assert_eq!(pids(&rows[0].children), vec![2, 3]);
    assert_eq!(pids(&rows[0].children[0].children), Vec::<u32>::new());
    assert_eq!(pids(&rows[0].children[1].children), vec![4]);
    assert_eq!(pids(&rows[0].children[1].children[0].children), Vec::<u32>::new());
}

#[test]
fn existing_rows_are_kept_and_stale_rows_go() {
    let map = snapshot(&[(1, &[3, 2]), (2, &[]), (3, &[4]), (4, &[])]);
    let mut rows = vec![
        node("other", 5, vec![node("kept", 6, vec![])]),
        node("parent", 1, vec![node("gone", 9, vec![]), node("child", 3, vec![node("gone too", 7, vec![])])]),
    ];
    update(&mut rows, &map, 1);
    assert_eq!(pids(&rows), vec![5, 1]);
    assert_eq!(rows[0].name, "other");
    assert_eq!(pids(&rows[0].children), vec![6]);
    assert_eq!(rows[1].name, "parent");
    assert_eq!(pids(&rows[1].children), vec![3, 2]);
    assert_eq!(rows[1].children[0].name, "child");
    assert_eq!(pids(&rows[1].children[0].children), vec![4]);
    assert_eq!(rows[1].children[1].name, "");
}

#[test]
fn process_missing_from_the_snapshot_changes_nothing() {
    let map = snapshot(&[(1, &[])]);
    let mut rows = vec![node("a", 2, vec![node("b", 3, vec![])])];
    update(&mut rows, &map, 2);
    assert_eq!(pids(&rows), vec![2]);
    assert_eq!(rows[0].name, "a");
    assert_eq!(pids(&rows[0].children), vec![3]);
}

#[test]
fn child_missing_from_the_snapshot_keeps_its_row_but_gets_none() {
    let map = snapshot(&[(1, &[8, 2]), (2, &[])]);
    let mut rows = vec![node("p", 1, vec![node("old", 8, vec![node("x", 11, vec![])])])];
    update(&mut rows, &map, 1);
    assert_eq!(pids(&rows[0].children), vec![8, 2]);
    assert_eq!(rows[0].children[0].name, "old");
    assert_eq!(pids(&rows[0].children[0].children), vec![11]);

    let mut fresh = Vec::new();
    update(&mut fresh, &map, 1);
    assert_eq!(pids(&fresh[0].children), vec![2]);
}

#[test]
fn repeated_child_gets_one_row() {
    let map = snapshot(&[(1, &[2, 2, 3]), (2, &[]), (3, &[])]);
    let mut rows = Vec::new();
    update(&mut rows, &map, 1);
    assert_eq!(pids(&rows[0].children), vec![2, 3]);
}

#[test]
fn first_of_two_rows_with_one_pid_is_updated() {
    let map = snapshot(&[(1, &[2]), (2, &[])]);
    let mut rows = vec![node("first", 1, vec![]), node("second", 1, vec![])];
    update(&mut rows, &map, 1);
    assert_eq!(pids(&rows), vec![1, 1]);
    assert_eq!(pids(&rows[0].children), vec![2]);
    assert_eq!(pids(&rows[1].children), Vec::<u32>::new());
}

#[test]
fn update_twice_mirrors_the_latest_snapshot() {
    let first = snapshot(&[(1, &[2, 3]), (2, &[5]), (3, &[]), (5, &[])]);
    let second = snapshot(&[(1, &[3, 4]), (3, &[6]), (4, &[]), (6, &[])]);
    let mut rows = Vec::new();
    update(&mut rows, &first, 1);
    update(&mut rows, &second, 1);
    assert_eq!(pids(&rows), vec![1]);
    assert_eq!(pids(&rows[0].children), vec![3, 4]);
    assert_eq!(pids(&rows[0].children[0].children), vec![6]);
    assert_eq!(pids(&rows[0].children[1].children), Vec::<u32>::new());
}

#[test]
fn tree_depth_is_checked() {
    let chain = snapshot(&[(1, &[2]), (2, &[3]), (3, &[])]);
    assert!(process_tree_within(&chain, 1, 3));
    assert!(!process_tree_within(&chain, 1, 2));
    assert!(process_tree_within(&chain, 3, 1));
    assert!(!process_tree_within(&chain, 3, 0));
    assert!(process_tree_within(&chain, 42, 0));

    let cycle = snapshot(&[(1, &[2]), (2, &[1])]);
    assert!(!process_tree_within(&cycle, 1, cycle.len()));
    assert!(!process_tree_within(&cycle, 1, 100));
}
