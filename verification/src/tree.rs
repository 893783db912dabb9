use vstd::prelude::*;

use std::collections::HashMap;

use crate::process_tree::{
    first_index, lemma_first_index, plan_rows, vec_contains_u32, ProcessInfo, RowNode,
};

verus! {

// ---------------------------------------------------------------------------
// The rows of a list and the snapshot they stand for
// ---------------------------------------------------------------------------

/// The process ids of `rows`, in order (each wrapped as the planners of
/// `process_tree` take them).
pub open spec fn row_pids(rows: Seq<RowNode>) -> Seq<Option<u32>> {
    rows.map_values(|r: RowNode| Some(r.pid))
}

/// The position of the first of `rows` with process id `pid`, or the end of
/// `rows` when none has it (where a new row goes).
pub open spec fn row_index(rows: Seq<RowNode>, pid: u32) -> int {
    match first_index(row_pids(rows), Some(pid)) {
        Some(i) => i,
        None => rows.len() as int,
    }
}

/// No two of `rows` have the same process id.
pub open spec fn distinct_pids(rows: Seq<RowNode>) -> bool {
    forall|i: int, j: int| 0 <= i < j < rows.len() ==> rows[i].pid != rows[j].pid
}

/// The child rows of `n`, and theirs, all the way down, have distinct
/// process ids among siblings.
pub open spec fn row_wf(n: RowNode) -> bool
    decreases n, 0nat,
{
    distinct_pids(n.children@) && rows_wf_from(n.children@, 0)
}

/// Each of `cs[i..]` is `row_wf`.
pub open spec fn rows_wf_from(cs: Seq<RowNode>, i: nat) -> bool
    decreases cs, cs.len() - i,
{
    if i >= cs.len() {
        true
    } else {
        row_wf(cs[i as int]) && rows_wf_from(cs, i + 1)
    }
}

/// A list of rows with distinct process ids, each `row_wf`.
pub open spec fn rows_wf(rows: Seq<RowNode>) -> bool {
    distinct_pids(rows) && rows_wf_from(rows, 0)
}

/// Each process of the snapshot is filed under its own process id.
pub open spec fn keyed_by_pid(map: Map<u32, ProcessInfo>) -> bool {
    forall|k: u32| #[trigger] map.contains_key(k) ==> map[k].pid == k
}

/// The tree below `p` in the snapshot is at most `n` processes deep: a
/// process missing from the snapshot ends a branch, and no branch comes
/// back to a process it passed. In a snapshot of `m` processes without such
/// a cycle below `p`, this holds for `n == m`.
pub open spec fn within(map: Map<u32, ProcessInfo>, p: u32, n: nat) -> bool
    decreases n,
{
    if !map.contains_key(p) {
        true
    } else if n == 0 {
        false
    } else {
        forall|j: int|
            0 <= j < map[p].children@.len() ==> within(map, #[trigger] map[p].children@[j], (n - 1) as nat)
    }
}

/// The row `r` mirrors the snapshot: if its process is in the snapshot,
/// each child row is the row of a child of that process, each child process
/// that is in the snapshot has a child row, and each child row mirrors the
/// snapshot in turn.
pub open spec fn mirrors(map: Map<u32, ProcessInfo>, r: RowNode) -> bool
    decreases r, 0nat,
{
    if map.contains_key(r.pid) {
        &&& forall|j: int|
            0 <= j < r.children@.len() ==> map[r.pid].children@.contains(#[trigger] r.children@[j].pid)
        &&& forall|k: u32|
            #[trigger] map[r.pid].children@.contains(k) && map.contains_key(k) ==> row_pids(
                r.children@,
            ).contains(Some(k))
        &&& mirrors_from(map, r.children@, 0)
    } else {
        true
    }
}

/// Each of `cs[i..]` mirrors the snapshot.
pub open spec fn mirrors_from(map: Map<u32, ProcessInfo>, cs: Seq<RowNode>, i: nat) -> bool
    decreases cs, cs.len() - i,
{
    if i >= cs.len() {
        true
    } else {
        mirrors(map, cs[i as int]) && mirrors_from(map, cs, i + 1)
    }
}

/// The rows of `rows` whose process id is among `keep`, in order.
pub open spec fn kept_rows(rows: Seq<RowNode>, keep: Seq<u32>) -> Seq<RowNode>
    decreases rows.len(),
{
    if rows.len() == 0 {
        rows
    } else {
        let rest = kept_rows(rows.skip(1), keep);
        if keep.contains(rows[0].pid) {
            seq![rows[0]] + rest
        } else {
            rest
        }
    }
}

/// How the rows `after` come out of the rows `before` when the process
/// `pid` of the snapshot is brought up to date in them: nothing changes for
/// a process missing from the snapshot; otherwise its row is the first row
/// with its process id, or a new row with no name added at the end; no other
/// row changes; the row's child rows of processes that are no longer its
/// children go, and each child process in the snapshot then has its row
/// found or added in turn (see `plan_rows`).
pub open spec fn row_update(
    map: Map<u32, ProcessInfo>,
    pid: u32,
    before: Seq<RowNode>,
    after: Seq<RowNode>,
) -> bool {
    if !map.contains_key(pid) {
        after == before
    } else {
        let q = map[pid].pid;
        let cs = map[pid].children@;
        let found = first_index(row_pids(before), Some(q)) is Some;
        let i = row_index(before, q);
        let prev = if found {
            before[i].children@
        } else {
            Seq::<RowNode>::empty()
        };
        &&& after.len() == (if found {
            before.len()
        } else {
            before.len() + 1
        })
        &&& forall|k: int| 0 <= k < before.len() && k != i ==> #[trigger] after[k] == before[k]
        &&& after[i].pid == q
        &&& after[i].name@ == (if found {
            before[i].name@
        } else {
            Seq::<char>::empty()
        })
        &&& row_pids(after[i].children@) == plan_rows(row_pids(kept_rows(prev, cs)), cs, map).1
    }
}

/// Some row of `rows` has process id `c` and mirrors the snapshot.
pub open spec fn has_mirroring_row(map: Map<u32, ProcessInfo>, rows: Seq<RowNode>, c: u32) -> bool {
    exists|m: int| 0 <= m < rows.len() && rows[m].pid == c && #[trigger] mirrors(map, rows[m])
}


// ---------------------------------------------------------------------------
// The tree as a value
// ---------------------------------------------------------------------------

/// A row of the tree as a value: its process id, its name and its child
/// rows.
pub struct RowView {
    pub pid: u32,
    pub name: Seq<char>,
    pub children: Seq<RowView>,
}

/// The row `n` as a value.
pub open spec fn view_row(n: RowNode) -> RowView
    decreases n, 0nat,
{
    RowView { pid: n.pid, name: n.name@, children: views_from(n.children@, 0) }
}

/// The rows `cs[i..]` as values.
pub open spec fn views_from(cs: Seq<RowNode>, i: nat) -> Seq<RowView>
    decreases cs, cs.len() - i,
{
    if i >= cs.len() {
        Seq::empty()
    } else {
        seq![view_row(cs[i as int])] + views_from(cs, i + 1)
    }
}

/// The rows `rows` as values.
pub open spec fn views(rows: Seq<RowNode>) -> Seq<RowView> {
    views_from(rows, 0)
}

/// The process ids of `rows`, in order.
pub open spec fn view_pids(rows: Seq<RowView>) -> Seq<Option<u32>> {
    rows.map_values(|r: RowView| Some(r.pid))
}

/// The rows of `rows` whose process id is among `keep`, in order.
pub open spec fn kept_views(rows: Seq<RowView>, keep: Seq<u32>) -> Seq<RowView>
    decreases rows.len(),
{
    if rows.len() == 0 {
        rows
    } else {
        let rest = kept_views(rows.skip(1), keep);
        if keep.contains(rows[0].pid) {
            seq![rows[0]] + rest
        } else {
            rest
        }
    }
}

/// The rows `rows` with the process `pid` of the snapshot brought up to
/// date, at most `n` levels deep: nothing changes for a process missing from
/// the snapshot; otherwise its row is the first row with its process id, or
/// a new row with no name at the end; its child rows of processes that are
/// no longer its children go, and then each of its child processes is
/// brought up to date in turn among its child rows.
pub open spec fn refreshed(map: Map<u32, ProcessInfo>, pid: u32, rows: Seq<RowView>, n: nat) -> Seq<RowView>
    decreases n, 0nat,
{
    if !map.contains_key(pid) || n == 0 {
        rows
    } else {
        let q = map[pid].pid;
        let cs = map[pid].children@;
        let i = match first_index(view_pids(rows), Some(q)) {
            Some(i) => i,
            None => rows.len() as int,
        };
        let row = if i < rows.len() {
            rows[i]
        } else {
            RowView { pid: q, name: Seq::empty(), children: Seq::empty() }
        };
        let new_row = RowView {
            pid: q,
            name: row.name,
            children: refreshed_all(map, cs, kept_views(row.children, cs), (n - 1) as nat),
        };
        if i < rows.len() {
            rows.update(i, new_row)
        } else {
            rows.push(new_row)
        }
    }
}

/// The rows `rows` with each of the processes `cs` brought up to date in
/// turn (see `refreshed`).
pub open spec fn refreshed_all(map: Map<u32, ProcessInfo>, cs: Seq<u32>, rows: Seq<RowView>, n: nat) -> Seq<RowView>
    decreases n, cs.len(),
{
    if cs.len() == 0 {
        rows
    } else {
        refreshed(map, cs.last(), refreshed_all(map, cs.drop_last(), rows, n), n)
    }
}

// ---------------------------------------------------------------------------
// Lemmas
// ---------------------------------------------------------------------------


proof fn lemma_views_from(cs: Seq<RowNode>, i: nat)
    requires
        i <= cs.len(),
    ensures
        views_from(cs, i).len() == cs.len() - i,
        forall|k: int| 0 <= k < cs.len() - i ==> #[trigger] views_from(cs, i)[k] == view_row(cs[i + k]),
    decreases cs.len() - i,
{
    if i < cs.len() {
        lemma_views_from(cs, i + 1);
        assert forall|k: int| 0 <= k < cs.len() - i implies #[trigger] views_from(cs, i)[k] == view_row(cs[i + k]) by {
            if k > 0 {
                assert(views_from(cs, i)[k] == views_from(cs, i + 1)[k - 1]);
            }
        }
    }
}

proof fn lemma_views(rows: Seq<RowNode>)
    ensures
        views(rows).len() == rows.len(),
        forall|k: int| 0 <= k < rows.len() ==> #[trigger] views(rows)[k] == view_row(rows[k]),
        view_pids(views(rows)) == row_pids(rows),
{
    lemma_views_from(rows, 0);
    assert forall|k: int| 0 <= k < rows.len() implies #[trigger] views(rows)[k] == view_row(rows[k]) by {
        assert(views_from(rows, 0)[k] == view_row(rows[0 + k]));
    }
    assert(view_pids(views(rows)) =~= row_pids(rows));
}

proof fn lemma_kept_views(rows: Seq<RowNode>, keep: Seq<u32>)
    ensures
        views(kept_rows(rows, keep)) == kept_views(views(rows), keep),
    decreases rows.len(),
{
    lemma_views(rows);
    if rows.len() > 0 {
        let tail = rows.skip(1);
        lemma_kept_views(tail, keep);
        lemma_views(tail);
        assert(views(rows).skip(1) =~= views(tail));
        assert(views(rows)[0] == view_row(rows[0]));
        let rest = kept_rows(tail, keep);
        lemma_views(rest);
        if keep.contains(rows[0].pid) {
            let k = seq![rows[0]] + rest;
            lemma_views(k);
            assert(views(k) =~= seq![view_row(rows[0])] + views(rest)) by {
                assert forall|j: int| 0 <= j < k.len() implies #[trigger] views(k)[j] == (seq![view_row(rows[0])] + views(rest))[j] by {
                    if j > 0 {
                        assert(k[j] == rest[j - 1]);
                    }
                }
            }
        }
    } else {
        assert(views(rows) =~= Seq::<RowView>::empty());
    }
}

proof fn lemma_rows_wf_from(cs: Seq<RowNode>, i: nat)
    requires
        i <= cs.len(),
    ensures
        rows_wf_from(cs, i) == (forall|j: int| i <= j < cs.len() ==> row_wf(#[trigger] cs[j])),
    decreases cs.len() - i,
{
    if i < cs.len() {
        lemma_rows_wf_from(cs, i + 1);
    }
}

proof fn lemma_mirrors_from(map: Map<u32, ProcessInfo>, cs: Seq<RowNode>, i: nat)
    requires
        i <= cs.len(),
    ensures
        mirrors_from(map, cs, i) == (forall|j: int| i <= j < cs.len() ==> mirrors(map, #[trigger] cs[j])),
    decreases cs.len() - i,
{
    if i < cs.len() {
        lemma_mirrors_from(map, cs, i + 1);
    }
}

proof fn lemma_kept_rows(rows: Seq<RowNode>, keep: Seq<u32>)
    ensures
        forall|j: int| 0 <= j < kept_rows(rows, keep).len() ==> keep.contains(#[trigger] kept_rows(rows, keep)[j].pid),
        forall|j: int| 0 <= j < kept_rows(rows, keep).len() ==> rows.contains(#[trigger] kept_rows(rows, keep)[j]),
        rows_wf(rows) ==> rows_wf(kept_rows(rows, keep)),
    decreases rows.len(),
{
    if rows.len() > 0 {
        let tail = rows.skip(1);
        lemma_kept_rows(tail, keep);
        let rest = kept_rows(tail, keep);
        let k = kept_rows(rows, keep);
        assert forall|j: int| 0 <= j < rest.len() implies rows.contains(#[trigger] rest[j]) by {
            assert(tail.contains(rest[j]));
            let t = choose|t: int| 0 <= t < tail.len() && tail[t] == rest[j];
            assert(rows[t + 1] == rest[j]);
        }
        if keep.contains(rows[0].pid) {
            assert forall|j: int| 0 <= j < k.len() implies rows.contains(#[trigger] k[j]) by {
                if j == 0 {
                    assert(rows[0] == k[0]);
                } else {
                    assert(k[j] == rest[j - 1]);
                }
            }
            assert forall|j: int| 0 <= j < k.len() implies keep.contains(#[trigger] k[j].pid) by {
                if j > 0 {
                    assert(k[j] == rest[j - 1]);
                }
            }
        }
        if rows_wf(rows) {
            lemma_rows_wf_from(rows, 0);
            lemma_rows_wf_from(tail, 0);
            assert forall|j: int| 0 <= j < tail.len() implies row_wf(#[trigger] tail[j]) by {
                assert(tail[j] == rows[j + 1]);
            }
            assert(rows_wf(tail));
            lemma_rows_wf_from(rest, 0);
            if keep.contains(rows[0].pid) {
                lemma_rows_wf_from(k, 0);
                assert forall|a: int, b: int| 0 <= a < b < k.len() implies k[a].pid != k[b].pid by {
                    assert(k[b] == rest[b - 1]);
                    if a == 0 {
                        assert(rows.contains(rest[b - 1]));
                        let t = choose|t: int| 0 <= t < rows.len() && rows[t] == rest[b - 1];
                        assert(tail.contains(rest[b - 1]));
                        let u = choose|u: int| 0 <= u < tail.len() && tail[u] == rest[b - 1];
                        assert(rows[u + 1] == rest[b - 1]);
                    } else {
                        assert(k[a] == rest[a - 1]);
                    }
                }
                assert forall|j: int| 0 <= j < k.len() implies row_wf(#[trigger] k[j]) by {
                    if j == 0 {
                        assert(k[0] == rows[0]);
                    } else {
                        assert(k[j] == rest[j - 1]);
                    }
                }
            }
        }
    }
}

// ---------------------------------------------------------------------------
// Executable parts
// ---------------------------------------------------------------------------

/// Takes out of `rows` those whose process id is not among `keep`, from the
/// last to the first.
fn keep_child_rows(rows: &mut Vec<RowNode>, keep: &Vec<u32>)
    ensures
        final(rows)@ == kept_rows(old(rows)@, keep@),
{
    let ghost s = rows@;
    let mut i: usize = rows.len();
    assert(s.skip(s.len() as int) =~= Seq::<RowNode>::empty());
    assert(s.take(s.len() as int) =~= s);
    while i > 0
        invariant
            i <= s.len(),
            rows@ == s.take(i as int) + kept_rows(s.skip(i as int), keep@),
        decreases i,
    {
        i = i - 1;
        proof {
            assert(s.skip(i as int).skip(1) =~= s.skip(i + 1));
            assert(s.skip(i as int)[0] == s[i as int]);
            assert(rows@[i as int] == s[i as int]);
        }
        let pid = rows[i].pid;
        if !vec_contains_u32(keep, pid) {
            rows.remove(i);
            assert(rows@ =~= s.take(i as int) + kept_rows(s.skip(i as int), keep@));
        } else {
            assert(rows@ =~= s.take(i as int) + kept_rows(s.skip(i as int), keep@));
        }
    }
    assert(s.skip(0) =~= s);
    assert(rows@ =~= kept_rows(s, keep@));
}

/// The position of the first of `rows` with process id `pid`.
fn find_row(rows: &Vec<RowNode>, pid: u32) -> (r: Option<usize>)
    ensures
        match first_index(row_pids(rows@), Some(pid)) {
            Some(i) => r == Some(i as usize),
            None => r is None,
        },
{
    proof {
        lemma_first_index(row_pids(rows@), Some(pid));
    }
    let mut i: usize = 0;
    while i < rows.len()
        invariant
            i <= rows.len(),
            forall|j: int| 0 <= j < i ==> rows@[j].pid != pid,
        decreases rows.len() - i,
    {
        if rows[i].pid == pid {
            proof {
                lemma_first_index(row_pids(rows@), Some(pid));
                assert(row_pids(rows@)[i as int] == Some(pid));
                match first_index(row_pids(rows@), Some(pid)) {
                    Some(k) => {
                        if k < i {
                            assert(row_pids(rows@)[k] == Some(rows@[k].pid));
                        }
                    },
                    None => {},
                }
            }
            return Some(i);
        }
        i = i + 1;
    }
    proof {
        match first_index(row_pids(rows@), Some(pid)) {
            Some(k) => {
                assert(row_pids(rows@)[k] == Some(rows@[k].pid));
            },
            None => {},
        }
    }
    None
}

/// Whether the tree below `pid` in the snapshot is at most `depth`
/// processes deep (see `within`).
pub fn process_tree_within(process_map: &HashMap<u32, ProcessInfo>, pid: u32, depth: usize) -> (r: bool)
    ensures
        r == within(process_map@, pid, depth as nat),
    decreases depth,
{
    broadcast use vstd::std_specs::hash::group_hash_axioms;

    match process_map.get(&pid) {
        None => true,
        Some(info) => {
            if depth == 0 {
                return false;
            }
            let mut j: usize = 0;
            while j < info.children.len()
                invariant
                    j <= info.children.len(),
                    depth > 0,
                    process_map@.contains_key(pid),
                    *info == process_map@[pid],
                    forall|k: int| 0 <= k < j ==> within(process_map@, #[trigger] info.children@[k], (depth - 1) as nat),
                decreases info.children.len() - j,
            {
                if !process_tree_within(process_map, info.children[j], depth - 1) {
                    return false;
                }
                j = j + 1;
            }
            true
        },
    }
}

proof fn lemma_row_update_frame(map: Map<u32, ProcessInfo>, p: u32, before: Seq<RowNode>, after: Seq<RowNode>)
    requires
        row_update(map, p, before, after),
    ensures
        after.len() >= before.len(),
        forall|k: int| 0 <= k < before.len() ==> (#[trigger] after[k]).pid == before[k].pid,
        !map.contains_key(p) ==> after == before,
        map.contains_key(p) ==> row_pids(after) == match first_index(row_pids(before), Some(map[p].pid)) {
            Some(_) => row_pids(before),
            None => row_pids(before).push(Some(map[p].pid)),
        },
        map.contains_key(p) ==> after[row_index(before, map[p].pid)].pid == map[p].pid,
        map.contains_key(p) ==> 0 <= row_index(before, map[p].pid) < after.len(),
{
    if map.contains_key(p) {
        let q = map[p].pid;
        lemma_first_index(row_pids(before), Some(q));
        let i = row_index(before, q);
        assert forall|k: int| 0 <= k < before.len() implies (#[trigger] after[k]).pid == before[k].pid by {
            if k == i {
                assert(row_pids(before)[k] == Some(before[k].pid));
            }
        }
        match first_index(row_pids(before), Some(q)) {
            Some(_) => {
                assert(row_pids(after) =~= row_pids(before));
            },
            None => {
                assert(row_pids(after) =~= row_pids(before).push(Some(q)));
            },
        }
    }
}

/// Brings the row of the process `pid` in `rows` up to date with the
/// snapshot, and the rows below it, `n` levels deep at most.
fn update_rows_for(
    rows: &mut Vec<RowNode>,
    process_map: &HashMap<u32, ProcessInfo>,
    pid: u32,
    Ghost(n): Ghost<nat>,
)
    requires
        within(process_map@, pid, n),
    ensures
        views(final(rows)@) == refreshed(process_map@, pid, views(old(rows)@), n),
        row_update(process_map@, pid, old(rows)@, final(rows)@),
        rows_wf(old(rows)@) ==> rows_wf(final(rows)@),
        keyed_by_pid(process_map@) && rows_wf(old(rows)@) && process_map@.contains_key(pid) ==> mirrors(
            process_map@,
            final(rows)@[row_index(old(rows)@, process_map@[pid].pid)],
        ),
    decreases n,
{
    broadcast use vstd::std_specs::hash::group_hash_axioms;

    let info = match process_map.get(&pid) {
        None => {
            return;
        },
        Some(info) => info,
    };
    let ghost map = process_map@;
    let ghost before = rows@;
    let ghost cs = info.children@;
    let q = info.pid;
    proof {
        lemma_first_index(row_pids(before), Some(q));
    }
    let end = rows.len();
    let idx = match find_row(rows, q) {
        Some(i) => {
            proof {
                match first_index(row_pids(before), Some(q)) {
                    Some(k) => {
                        assert(0 <= k < before.len());
                        assert(i as int == k);
                    },
                    None => {
                        assert(false);
                    },
                }
            }
            i
        },
        None => {
            rows.push(RowNode { name: String::new(), pid: q, children: Vec::new() });
            end
        },
    };
    assert(idx == row_index(before, q));
    let ghost found = first_index(row_pids(before), Some(q)) is Some;
    let ghost prev = if found {
        before[idx as int].children@
    } else {
        Seq::<RowNode>::empty()
    };
    assert(rows@[idx as int].children@ == prev);
    let mut kids: Vec<RowNode> = Vec::new();
    std::mem::swap(&mut kids, &mut rows[idx].children);
    keep_child_rows(&mut kids, &info.children);
    let ghost kept = kids@;
    proof {
        lemma_kept_rows(prev, cs);
        lemma_kept_views(prev, cs);
        if rows_wf(before) && found {
            lemma_rows_wf_from(before, 0);
            assert(row_wf(before[idx as int]));
        }
        assert(cs.take(0) =~= Seq::<u32>::empty());
    }
    let mut j: usize = 0;
    while j < info.children.len()
        invariant
            j <= cs.len(),
            cs == info.children@,
            map == process_map@,
            map.contains_key(pid),
            *info == map[pid],
            within(map, pid, n),
            row_pids(kids@) == plan_rows(row_pids(kept), cs.take(j as int), map).1,
            views(kids@) == refreshed_all(map, cs.take(j as int), views(kept), (n - 1) as nat),
            rows_wf(before) ==> rows_wf(kids@),
            keyed_by_pid(map) ==> forall|k: int| 0 <= k < kids@.len() ==> cs.contains(#[trigger] kids@[k].pid),
            keyed_by_pid(map) && rows_wf(before) ==> forall|k: int|
                0 <= k < j && map.contains_key(#[trigger] cs[k]) ==> has_mirroring_row(map, kids@, cs[k]),
        decreases cs.len() - j,
    {
        let c = info.children[j];
        let ghost k0 = kids@;
        update_rows_for(&mut kids, process_map, c, Ghost((n - 1) as nat));
        proof {
            lemma_row_update_frame(map, c, k0, kids@);
            assert(cs.take(j + 1).drop_last() =~= cs.take(j as int));
            assert(refreshed_all(map, cs.take(j + 1), views(kept), (n - 1) as nat) == refreshed(
                map,
                c,
                refreshed_all(map, cs.take(j as int), views(kept), (n - 1) as nat),
                (n - 1) as nat,
            ));
            assert(cs.take(j + 1).last() == c);
            if keyed_by_pid(map) {
                assert forall|k: int| 0 <= k < kids@.len() implies cs.contains(#[trigger] kids@[k].pid) by {
                    if k < k0.len() {
                        assert(kids@[k].pid == k0[k].pid);
                    } else {
                        assert(cs[j as int] == c);
                    }
                }
            }
            if keyed_by_pid(map) && rows_wf(before) {
                assert forall|k: int| 0 <= k < j + 1 && map.contains_key(#[trigger] cs[k]) implies has_mirroring_row(map, kids@, cs[k]) by {
                    let m = row_index(k0, map[c].pid);
                    if !map.contains_key(c) {
                        assert(kids@ == k0);
                        assert(has_mirroring_row(map, k0, cs[k]));
                    } else if cs[k] == c {
                        assert(kids@[m].pid == cs[k]);
                        assert(mirrors(map, kids@[m]));
                    } else {
                        assert(k < j);
                        assert(has_mirroring_row(map, k0, cs[k]));
                        let w = choose|w: int| 0 <= w < k0.len() && k0[w].pid == cs[k] && #[trigger] mirrors(map, k0[w]);
                        assert(map[c].pid == c);
                        lemma_first_index(row_pids(k0), Some(c));
                        if m < k0.len() {
                            assert(row_pids(k0)[m] == Some(k0[m].pid));
                        }
                        assert(w != m);
                        assert(kids@[w] == k0[w]);
                        assert(kids@[w].pid == cs[k]);
                        assert(mirrors(map, kids@[w]));
                    }
                }
            }
        }
        j = j + 1;
    }
    rows[idx].children = kids;
    proof {
        assert(cs.take(cs.len() as int) =~= cs);
        let after = rows@;
        lemma_views(before);
        lemma_views(after);
        let v = views(before);
        let row_v = if found { v[idx as int] } else { RowView { pid: q, name: Seq::empty(), children: Seq::empty() } };
        if found {
            assert(v[idx as int] == view_row(before[idx as int]));
            lemma_views(prev);
            assert(row_v.children == views(prev));
        } else {
            assert(views(prev) =~= Seq::<RowView>::empty());
        }
        let new_row = RowView {
            pid: q,
            name: row_v.name,
            children: refreshed_all(map, cs, kept_views(row_v.children, cs), (n - 1) as nat),
        };
        assert(view_row(after[idx as int]) == new_row);
        if found {
            assert(views(after) =~= v.update(idx as int, new_row));
        } else {
            assert(views(after) =~= v.push(new_row));
        }
        assert(views(after) == refreshed(map, pid, v, n));
        assert(after[idx as int].children@ == kids@);
        assert(after[idx as int].pid == q);
        assert forall|k: int| 0 <= k < before.len() && k != idx implies #[trigger] after[k] == before[k] by {}
        if rows_wf(before) {
            lemma_rows_wf_from(before, 0);
            lemma_rows_wf_from(after, 0);
            assert forall|a: int, b: int| 0 <= a < b < after.len() implies after[a].pid != after[b].pid by {
                if b == idx && !found {
                    assert(row_pids(before)[a] == Some(before[a].pid));
                } else if a == idx && found {
                    assert(row_pids(before)[a] == Some(before[a].pid));
                }
            }
            assert forall|j2: int| 0 <= j2 < after.len() implies row_wf(#[trigger] after[j2]) by {
                if j2 != idx {
                    assert(after[j2] == before[j2]);
                }
            }
        }
        if keyed_by_pid(map) && rows_wf(before) {
            let r = after[idx as int];
            assert(map.contains_key(q));
            assert(q == pid);
            lemma_mirrors_from(map, kids@, 0);
            assert forall|m: int| 0 <= m < kids@.len() implies mirrors(map, #[trigger] kids@[m]) by {
                let c = kids@[m].pid;
                if map.contains_key(c) {
                    assert(cs.contains(c));
                    let k = choose|k: int| 0 <= k < cs.len() && cs[k] == c;
                    assert(has_mirroring_row(map, kids@, cs[k]));
                    let w = choose|w: int| 0 <= w < kids@.len() && kids@[w].pid == cs[k] && #[trigger] mirrors(map, kids@[w]);
                    assert(w == m);
                }
            }
            assert forall|k: u32| #[trigger] cs.contains(k) && map.contains_key(k) implies row_pids(kids@).contains(Some(k)) by {
                let t = choose|t: int| 0 <= t < cs.len() && cs[t] == k;
                assert(has_mirroring_row(map, kids@, cs[t]));
                let w = choose|w: int| 0 <= w < kids@.len() && kids@[w].pid == cs[t] && #[trigger] mirrors(map, kids@[w]);
                assert(row_pids(kids@)[w] == Some(k));
            }
            assert(mirrors(map, r));
        }
    }
}

/// Brings the row of the process `pid` in `rows` up to date with the
/// snapshot, and the rows below it: the first row with its process id, or a
/// new row at the end, keeps only the child rows of processes that are still
/// its children, and each child process in the snapshot then has its row
/// found or added below it, and brought up to date the same way (the tree
/// that comes out is `refreshed`; `row_update` says what that means for the
/// list itself). Rows of other processes do not change. Names are left as
/// they are; a new row has none.
///
/// The snapshot must not lead from `pid` back to a process on the way there
/// (see `within`; `process_tree_within` tells): the walk would not end.
///
/// When every process is filed under its own process id, the row comes out
/// mirroring the snapshot below it: one child row for each child process in
/// the snapshot, and no row of a process that is not a child; and a list
/// without two sibling rows of one process keeps that property.
pub fn update_process_rows(rows: &mut Vec<RowNode>, process_map: &HashMap<u32, ProcessInfo>, pid: u32)
    requires
        within(process_map@, pid, process_map@.len()),
    ensures
        views(final(rows)@) == refreshed(process_map@, pid, views(old(rows)@), process_map@.len()),
        row_update(process_map@, pid, old(rows)@, final(rows)@),
        rows_wf(old(rows)@) ==> rows_wf(final(rows)@),
        keyed_by_pid(process_map@) && rows_wf(old(rows)@) && process_map@.contains_key(pid) ==> mirrors(
            process_map@,
            final(rows)@[row_index(old(rows)@, process_map@[pid].pid)],
        ),
{
    update_rows_for(rows, process_map, pid, Ghost(process_map@.len()));
}

} // verus!
