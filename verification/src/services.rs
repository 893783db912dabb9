use vstd::prelude::*;

use crate::process_tree::same_chars;
use crate::text::{chars_of, decimal, decimal_string};

verus! {

// ---------------------------------------------------------------------------
// Status counts
// ---------------------------------------------------------------------------

/// The status flags of a service.
#[derive(Clone, Copy, PartialEq, Eq, Structural, Debug)]
pub struct ServiceStatus {
    pub running: bool,
    pub failed: bool,
    pub enabled: bool,
}

/// How many services there are, and how many of them are running, failed,
/// stopped (enabled, but neither running nor failed) and disabled (none of
/// these).
#[derive(Clone, Copy, PartialEq, Eq, Structural, Debug)]
pub struct ServiceCounts {
    pub total: usize,
    pub running: usize,
    pub failed: usize,
    pub stopped: usize,
    pub disabled: usize,
}

/// The class a service is counted in: 0 running, 1 failed, 2 stopped,
/// 3 disabled; the first that applies.
pub open spec fn status_class(s: ServiceStatus) -> nat {
    if s.running {
        0
    } else if s.failed {
        1
    } else if s.enabled {
        2
    } else {
        3
    }
}

/// How many of `ss` fall in class `c`.
pub open spec fn count_class(ss: Seq<ServiceStatus>, c: nat) -> nat
    decreases ss.len(),
{
    if ss.len() == 0 {
        0
    } else {
        count_class(ss.drop_last(), c) + if status_class(ss.last()) == c {
            1nat
        } else {
            0nat
        }
    }
}

/// The counts shown above the services list.
pub fn service_counts(services: &Vec<ServiceStatus>) -> (r: ServiceCounts)
    ensures
        r.total == services@.len(),
        r.running == count_class(services@, 0),
        r.failed == count_class(services@, 1),
        r.stopped == count_class(services@, 2),
        r.disabled == count_class(services@, 3),
{
    let mut running: usize = 0;
    let mut failed: usize = 0;
    let mut stopped: usize = 0;
    let mut disabled: usize = 0;
    let mut i: usize = 0;
    while i < services.len()
        invariant
            i <= services.len(),
            running == count_class(services@.take(i as int), 0),
            failed == count_class(services@.take(i as int), 1),
            stopped == count_class(services@.take(i as int), 2),
            disabled == count_class(services@.take(i as int), 3),
            running + failed + stopped + disabled == i,
        decreases services.len() - i,
    {
        proof {
            assert(services@.take(i + 1).drop_last() =~= services@.take(i as int));
            assert(services@.take(i + 1).last() == services@[i as int]);
        }
        let s = services[i];
        if s.running {
            running = running + 1;
        } else if s.failed {
            failed = failed + 1;
        } else if s.enabled {
            stopped = stopped + 1;
        } else {
            disabled = disabled + 1;
        }
        i = i + 1;
    }
    proof {
        assert(services@.take(services.len() as int) =~= services@);
    }
    ServiceCounts { total: services.len(), running, failed, stopped, disabled }
}

/// Each service is counted exactly once: the four classes add up to the
/// total.
pub proof fn lemma_counts_add_up(ss: Seq<ServiceStatus>)
    ensures
        count_class(ss, 0) + count_class(ss, 1) + count_class(ss, 2) + count_class(ss, 3)
            == ss.len(),
    decreases ss.len(),
{
    if ss.len() > 0 {
        lemma_counts_add_up(ss.drop_last());
    }
}

/// What each count counts, flag by flag: running services; services that
/// are not running and failed, whether enabled or not; services neither
/// running nor failed but enabled (stopped); and the rest (disabled).
pub proof fn lemma_counts_by_flags(ss: Seq<ServiceStatus>)
    ensures
        count_class(ss, 0) == ss.filter(|s: ServiceStatus| s.running).len(),
        count_class(ss, 1) == ss.filter(|s: ServiceStatus| !s.running && s.failed).len(),
        count_class(ss, 2) == ss.filter(|s: ServiceStatus| !s.running && !s.failed && s.enabled).len(),
        count_class(ss, 3) == ss.filter(|s: ServiceStatus| !s.running && !s.failed && !s.enabled).len(),
    decreases ss.len(),
{
    reveal(Seq::filter);
    if ss.len() > 0 {
        lemma_counts_by_flags(ss.drop_last());
    }
}

/// A service that is not running and has failed is counted as failed and
/// not as stopped or disabled, whether it is enabled or not.
pub proof fn lemma_failed_counts_as_failed(ss: Seq<ServiceStatus>, s: ServiceStatus)
    requires
        !s.running,
        s.failed,
    ensures
        count_class(ss.push(s), 1) == count_class(ss, 1) + 1,
        count_class(ss.push(s), 0) == count_class(ss, 0),
        count_class(ss.push(s), 2) == count_class(ss, 2),
        count_class(ss.push(s), 3) == count_class(ss, 3),
{
    lemma_counts_by_flags(ss);
    lemma_counts_by_flags(ss.push(s));
    reveal(Seq::filter);
    assert(ss.push(s).drop_last() =~= ss);
}

/// Which of the start, stop and restart actions are enabled for the
/// selected service.
#[derive(Clone, Copy, PartialEq, Eq, Structural, Debug)]
pub struct ServiceActions {
    pub start: bool,
    pub stop: bool,
    pub restart: bool,
}

/// A running service can be stopped and restarted; any other started.
pub fn service_actions(running: bool) -> (r: ServiceActions)
    ensures
        r == (ServiceActions { start: !running, stop: running, restart: running }),
{
    if running {
        ServiceActions { stop: true, start: false, restart: true }
    } else {
        ServiceActions { stop: false, start: true, restart: false }
    }
}

// ---------------------------------------------------------------------------
// The services list
// ---------------------------------------------------------------------------

/// A service as read from the system.
pub struct ServiceInfo {
    pub id: String,
    pub description: Option<String>,
    pub enabled: bool,
    pub running: bool,
    pub failed: bool,
    pub pid: Option<u32>,
    pub user: Option<String>,
    pub group: Option<String>,
}

/// A row of the services list.
pub struct ServiceRow {
    pub name: String,
    pub description: String,
    pub enabled: bool,
    pub running: bool,
    pub failed: bool,
    pub pid: String,
    pub user: String,
    pub group: String,
}

/// A row of the services list, its texts as character sequences.
pub struct ServiceRowView {
    pub name: Seq<char>,
    pub description: Seq<char>,
    pub enabled: bool,
    pub running: bool,
    pub failed: bool,
    pub pid: Seq<char>,
    pub user: Seq<char>,
    pub group: Seq<char>,
}

impl View for ServiceRow {
    type V = ServiceRowView;

    open spec fn view(&self) -> ServiceRowView {
        ServiceRowView {
            name: self.name@,
            description: self.description@,
            enabled: self.enabled,
            running: self.running,
            failed: self.failed,
            pid: self.pid@,
            user: self.user@,
            group: self.group@,
        }
    }
}

pub open spec fn text_or_empty(o: Option<String>) -> Seq<char> {
    match o {
        Some(s) => s@,
        None => Seq::empty(),
    }
}

pub open spec fn pid_text(pid: Option<u32>) -> Seq<char> {
    match pid {
        Some(p) => decimal(p as nat),
        None => Seq::empty(),
    }
}

/// The row that shows `service` under the name `name`.
pub open spec fn row_for(name: Seq<char>, service: ServiceInfo) -> ServiceRowView {
    ServiceRowView {
        name: name,
        description: text_or_empty(service.description),
        enabled: service.enabled,
        running: service.running,
        failed: service.failed,
        pid: pid_text(service.pid),
        user: text_or_empty(service.user),
        group: text_or_empty(service.group),
    }
}

/// The first entry among `keys` named `name` that `used` does not mark yet.
pub open spec fn first_unused(keys: Seq<Seq<char>>, name: Seq<char>, used: Set<int>, from: nat) -> Option<
    int,
>
    decreases keys.len() - from,
{
    if from >= keys.len() {
        None
    } else if keys[from as int] == name && !used.contains(from as int) {
        Some(from as int)
    } else {
        first_unused(keys, name, used, from + 1)
    }
}

/// For the first `i` rows, which entry each row that stays was matched with:
/// pairs (row, entry), in row order. A row stays when an entry not matched
/// yet has its name as key.
pub open spec fn matches_upto(names: Seq<Seq<char>>, keys: Seq<Seq<char>>, i: nat) -> Seq<(int, int)>
    decreases i,
{
    if i == 0 {
        Seq::empty()
    } else {
        let prev = matches_upto(names, keys, (i - 1) as nat);
        match first_unused(keys, names[i - 1], used_entries(prev), 0) {
            Some(e) => prev.push((i - 1, e)),
            None => prev,
        }
    }
}

/// The entries that a list of matches uses.
pub open spec fn used_entries(ms: Seq<(int, int)>) -> Set<int> {
    Set::new(|e: int| exists|k: int| 0 <= k < ms.len() && #[trigger] ms[k].1 == e)
}

/// The entries among the first `m` that no row was matched with, in order.
pub open spec fn unused_upto(used: Set<int>, m: nat) -> Seq<int>
    decreases m,
{
    if m == 0 {
        Seq::empty()
    } else if used.contains(m - 1) {
        unused_upto(used, (m - 1) as nat)
    } else {
        unused_upto(used, (m - 1) as nat).push(m - 1)
    }
}

/// The change to the services list for the services read anew (`keys[e]`
/// is the name that entry `e` was read under): the rows that stay, each
/// with its old position and new contents, and the rows to append.
pub struct ServiceListPlan {
    pub kept: Vec<(usize, ServiceRow)>,
    pub added: Vec<ServiceRow>,
}

pub open spec fn entry_keys(entries: Seq<(String, ServiceInfo)>) -> Seq<Seq<char>> {
    Seq::new(entries.len(), |e: int| entries[e].0@)
}

pub open spec fn row_names(rows: Seq<ServiceRow>) -> Seq<Seq<char>> {
    Seq::new(rows.len(), |i: int| rows[i].name@)
}

proof fn lemma_first_unused(keys: Seq<Seq<char>>, name: Seq<char>, used: Set<int>, from: nat)
    ensures
        match first_unused(keys, name, used, from) {
            Some(e) => from <= e < keys.len() && keys[e] == name && !used.contains(e) && forall|
                f: int,
            | from <= f < e ==> !(keys[f] == name && !used.contains(f)),
            None => forall|f: int|
                from <= f < keys.len() ==> !(keys[f] == name && !used.contains(f)),
        },
    decreases keys.len() - from,
{
    if from < keys.len() {
        lemma_first_unused(keys, name, used, from + 1);
    }
}

/// The change to make to the services list: each row whose name is the key
/// of an entry not matched yet is updated from that entry and stays; the
/// others go; entries matched by no row are appended, in order, as new rows
/// named by their service id.
pub fn plan_services_update(rows: &Vec<ServiceRow>, entries: &Vec<(String, ServiceInfo)>) -> (r:
    ServiceListPlan)
    ensures
        ({
            let ms = matches_upto(row_names(rows@), entry_keys(entries@), rows@.len());
            let unused = unused_upto(used_entries(ms), entries@.len());
            &&& r.kept@.len() == ms.len()
            &&& forall|k: int|
                0 <= k < ms.len() ==> {
                    &&& (#[trigger] r.kept@[k]).0 == ms[k].0
                    &&& r.kept@[k].1@ == row_for(rows@[ms[k].0].name@, entries@[ms[k].1].1)
                }
            &&& r.added@.len() == unused.len()
            &&& forall|k: int|
                0 <= k < unused.len() ==> (#[trigger] r.added@[k])@ == row_for(
                    entries@[unused[k]].1.id@,
                    entries@[unused[k]].1,
                )
        }),
{
    let ghost names = row_names(rows@);
    let ghost keys = entry_keys(entries@);
    let mut keys_c: Vec<Vec<char>> = Vec::new();
    let mut e: usize = 0;
    while e < entries.len()
        invariant
            e <= entries.len(),
            keys == entry_keys(entries@),
            keys_c@.len() == e,
            forall|q: int| 0 <= q < e ==> (#[trigger] keys_c@[q])@ == keys[q],
        decreases entries.len() - e,
    {
        keys_c.push(chars_of(entries[e].0.as_str()));
        e = e + 1;
    }
    let mut used: Vec<bool> = Vec::new();
    let mut e: usize = 0;
    while e < entries.len()
        invariant
            e <= entries.len(),
            used@.len() == e,
            forall|q: int| 0 <= q < e ==> !used@[q],
        decreases entries.len() - e,
    {
        used.push(false);
        e = e + 1;
    }
    let mut kept: Vec<(usize, ServiceRow)> = Vec::new();
    let mut i: usize = 0;
    while i < rows.len()
        invariant
            i <= rows.len(),
            names == row_names(rows@),
            keys == entry_keys(entries@),
            keys_c@.len() == entries.len(),
            forall|q: int| 0 <= q < entries.len() ==> (#[trigger] keys_c@[q])@ == keys[q],
            used@.len() == entries.len(),
            forall|q: int|
                0 <= q < entries.len() ==> (used@[q] <==> used_entries(
                    matches_upto(names, keys, i as nat),
                ).contains(q)),
            kept@.len() == matches_upto(names, keys, i as nat).len(),
            forall|k: int|
                0 <= k < kept@.len() ==> {
                    &&& (#[trigger] kept@[k]).0 == matches_upto(names, keys, i as nat)[k].0
                    &&& kept@[k].1@ == row_for(
                        rows@[matches_upto(names, keys, i as nat)[k].0].name@,
                        entries@[matches_upto(names, keys, i as nat)[k].1].1,
                    )
                },
        decreases rows.len() - i,
    {
        let ghost prev = matches_upto(names, keys, i as nat);
        let ghost used_set = used_entries(prev);
        let name = chars_of(rows[i].name.as_str());
        let mut e: usize = 0;
        let mut found = false;
        while e < entries.len() && !found
            invariant
                e <= entries.len(),
                keys == entry_keys(entries@),
                keys_c@.len() == entries.len(),
                forall|q: int| 0 <= q < entries.len() ==> (#[trigger] keys_c@[q])@ == keys[q],
                used@.len() == entries.len(),
                forall|q: int| 0 <= q < entries.len() ==> (used@[q] <==> used_set.contains(q)),
                found ==> e < entries.len() && first_unused(keys, name@, used_set, 0) == Some(
                    e as int,
                ),
                !found ==> first_unused(keys, name@, used_set, 0) == first_unused(
                    keys,
                    name@,
                    used_set,
                    e as nat,
                ),
            decreases entries.len() - e + (if found {
                0int
            } else {
                1int
            }),
        {
            if !used[e] && same_chars(&keys_c[e], &name) {
                proof {
                    assert(keys[e as int] == name@);
                    assert(!used_set.contains(e as int));
                    assert(first_unused(keys, name@, used_set, e as nat) == Some(e as int));
                }
                found = true;
            } else {
                e = e + 1;
            }
        }
        proof {
            assert(names[i as int] == name@);
            lemma_first_unused(keys, name@, used_set, 0);
        }
        if found {
            let row = row_from(rows[i].name.as_str(), &entries[e].1);
            kept.push((i, row));
            used.set(e, true);
            proof {
                let now = matches_upto(names, keys, (i + 1) as nat);
                assert(now == prev.push((i as int, e as int)));
                assert forall|q: int| 0 <= q < entries.len() implies (used@[q]
                    <==> used_entries(now).contains(q)) by {
                    if used_entries(now).contains(q) {
                        let k = choose|k: int| 0 <= k < now.len() && #[trigger] now[k].1 == q;
                        if k < prev.len() {
                            assert(prev[k].1 == q);
                            assert(used_set.contains(q));
                        }
                    }
                    if used_set.contains(q) {
                        let k = choose|k: int| 0 <= k < prev.len() && #[trigger] prev[k].1 == q;
                        assert(now[k].1 == q);
                    }
                    if q == e {
                        assert(now[prev.len() as int].1 == q);
                    }
                }
            }
        } else {
            proof {
                let now = matches_upto(names, keys, (i + 1) as nat);
                assert(now == prev);
            }
        }
        i = i + 1;
    }
    let ghost ms = matches_upto(names, keys, rows.len() as nat);
    let ghost used_set = used_entries(ms);
    let mut added: Vec<ServiceRow> = Vec::new();
    let mut e: usize = 0;
    while e < entries.len()
        invariant
            e <= entries.len(),
            used@.len() == entries.len(),
            forall|q: int| 0 <= q < entries.len() ==> (used@[q] <==> used_set.contains(q)),
            added@.len() == unused_upto(used_set, e as nat).len(),
            forall|k: int|
                0 <= k < added@.len() ==> (#[trigger] added@[k])@ == row_for(
                    entries@[unused_upto(used_set, e as nat)[k]].1.id@,
                    entries@[unused_upto(used_set, e as nat)[k]].1,
                ),
        decreases entries.len() - e,
    {
        if !used[e] {
            let row = row_from(entries[e].1.id.as_str(), &entries[e].1);
            added.push(row);
        }
        e = e + 1;
    }
    ServiceListPlan { kept, added }
}

fn text_of(o: &Option<String>) -> (r: String)
    ensures
        r@ == text_or_empty(*o),
{
    match o {
        Some(s) => s.clone(),
        None => String::new(),
    }
}

fn row_from(name: &str, service: &ServiceInfo) -> (r: ServiceRow)
    ensures
        r@ == row_for(name@, *service),
{
    let pid = match service.pid {
        Some(p) => decimal_string(p as u64),
        None => String::new(),
    };
    let mut n = String::new();
    n = vstd::string::StringExecFns::concat(n, name);
    ServiceRow {
        name: n,
        description: text_of(&service.description),
        enabled: service.enabled,
        running: service.running,
        failed: service.failed,
        pid,
        user: text_of(&service.user),
        group: text_of(&service.group),
    }
}

// ---------------------------------------------------------------------------
// The list mirrors what was read
// ---------------------------------------------------------------------------

/// The names of the services list after the change: the rows that stay,
/// then the rows appended.
pub open spec fn listed_names(rows: Seq<ServiceRow>, entries: Seq<(String, ServiceInfo)>) -> Seq<
    Seq<char>,
> {
    let ms = matches_upto(row_names(rows), entry_keys(entries), rows.len());
    let unused = unused_upto(used_entries(ms), entries.len());
    Seq::new(ms.len(), |k: int| rows[ms[k].0].name@) + Seq::new(
        unused.len(),
        |k: int| entries[unused[k]].1.id@,
    )
}

proof fn lemma_matches(names: Seq<Seq<char>>, keys: Seq<Seq<char>>, i: nat)
    requires
        i <= names.len(),
    ensures
        ({
            let ms = matches_upto(names, keys, i);
            &&& forall|k: int|
                0 <= k < ms.len() ==> 0 <= (#[trigger] ms[k]).0 < i && 0 <= ms[k].1 < keys.len()
                    && names[ms[k].0] == keys[ms[k].1]
            &&& forall|a: int, b: int| 0 <= a < ms.len() && 0 <= b < ms.len() && a != b ==> ms[a].1 != ms[b].1
        }),
    decreases i,
{
    if i > 0 {
        lemma_matches(names, keys, (i - 1) as nat);
        let prev = matches_upto(names, keys, (i - 1) as nat);
        lemma_first_unused(keys, names[i - 1], used_entries(prev), 0);
        match first_unused(keys, names[i - 1], used_entries(prev), 0) {
            Some(e) => {
                let ms = prev.push((i - 1, e));
                assert forall|a: int, b: int| 0 <= a < ms.len() && 0 <= b < ms.len() && a != b implies ms[a].1
                    != ms[b].1 by {
                    if a == prev.len() {
                        assert(!used_entries(prev).contains(e));
                        if ms[b].1 == e {
                            assert(prev[b].1 == e);
                        }
                    } else if b == prev.len() {
                        assert(!used_entries(prev).contains(e));
                        if ms[a].1 == e {
                            assert(prev[a].1 == e);
                        }
                    }
                }
            },
            None => {},
        }
    }
}

proof fn lemma_unused(used: Set<int>, m: nat)
    ensures
        forall|k: int| 0 <= k < unused_upto(used, m).len() ==> 0 <= #[trigger] unused_upto(used, m)[k] < m,
        unused_upto(used, m).no_duplicates(),
        forall|e: int| unused_upto(used, m).contains(e) <==> (0 <= e < m && !used.contains(e)),
    decreases m,
{
    if m > 0 {
        lemma_unused(used, (m - 1) as nat);
        let prev = unused_upto(used, (m - 1) as nat);
        if !used.contains(m - 1) {
            let now = prev.push(m - 1);
            assert forall|e: int| now.contains(e) <==> (0 <= e < m && !used.contains(e)) by {
                if e == m - 1 {
                    assert(now[prev.len() as int] == e);
                }
                if now.contains(e) && e != m - 1 {
                    let k = choose|k: int| 0 <= k < now.len() && now[k] == e;
                    assert(prev[k] == e);
                }
                if 0 <= e < m - 1 && !used.contains(e) {
                    let k = choose|k: int| 0 <= k < prev.len() && prev[k] == e;
                    assert(now[k] == e);
                }
            }
        }
    }
}

/// The services list shows exactly the services read: when every service is
/// read under its own id and no id is read twice, the names of the list
/// after the change are those ids, each once, whatever the list held before.
pub proof fn lemma_services_list_mirrors_readings(
    rows: Seq<ServiceRow>,
    entries: Seq<(String, ServiceInfo)>,
)
    requires
        forall|e: int| 0 <= e < entries.len() ==> (#[trigger] entries[e]).0@ == entries[e].1.id@,
        entry_keys(entries).no_duplicates(),
    ensures
        listed_names(rows, entries).len() == entries.len(),
        listed_names(rows, entries).no_duplicates(),
        forall|x: Seq<char>| listed_names(rows, entries).contains(x) <==> entry_keys(entries).contains(x),
{
    let names = row_names(rows);
    let keys = entry_keys(entries);
    let m = entries.len();
    let ms = matches_upto(names, keys, rows.len());
    let used = used_entries(ms);
    let unused = unused_upto(used, m);
    lemma_matches(names, keys, rows.len());
    lemma_unused(used, m);
    // the entries shown, in list order
    let shown = Seq::new(ms.len(), |k: int| ms[k].1) + unused;
    let listed = listed_names(rows, entries);
    assert(listed.len() == shown.len());
    assert forall|k: int| 0 <= k < listed.len() implies #[trigger] listed[k] == keys[shown[k]] by {
        if k < ms.len() {
            assert(rows[ms[k].0].name@ == names[ms[k].0]);
        } else {
            let e = unused[k - ms.len()];
            assert(entries[e].0@ == entries[e].1.id@);
        }
    }
    assert forall|a: int, b: int| 0 <= a < shown.len() && 0 <= b < shown.len() && a != b implies shown[a]
        != shown[b] by {
        if a < ms.len() && b >= ms.len() {
            assert(unused.contains(shown[b]));
            assert(used.contains(ms[a].1));
        } else if a >= ms.len() && b < ms.len() {
            assert(unused.contains(shown[a]));
            assert(used.contains(ms[b].1));
        }
    }
    assert forall|e: int| 0 <= e < m implies shown.contains(e) by {
        if used.contains(e) {
            let k = choose|k: int| 0 <= k < ms.len() && #[trigger] ms[k].1 == e;
            assert(shown[k] == e);
        } else {
            assert(unused.contains(e));
            let k = choose|k: int| 0 <= k < unused.len() && unused[k] == e;
            assert(shown[k + ms.len()] == e);
        }
    }
    assert forall|k: int| 0 <= k < shown.len() implies 0 <= #[trigger] shown[k] < m by {
        if k >= ms.len() {
            assert(unused[k - ms.len()] == shown[k]);
        }
    }
    // `shown` holds each of the `m` entries once, so it has `m` elements
    lemma_int_permutation_len(shown, m);
    assert forall|a: int, b: int| 0 <= a < listed.len() && 0 <= b < listed.len() && a != b implies listed[a]
        != listed[b] by {
        assert(shown[a] != shown[b]);
    }
    assert forall|x: Seq<char>| listed.contains(x) <==> keys.contains(x) by {
        if listed.contains(x) {
            let k = choose|k: int| 0 <= k < listed.len() && listed[k] == x;
            assert(keys[shown[k]] == x);
        }
        if keys.contains(x) {
            let e = choose|e: int| 0 <= e < keys.len() && keys[e] == x;
            assert(keys.len() == m);
            assert(shown.contains(e));
            let k = choose|k: int| 0 <= k < shown.len() && shown[k] == e;
            assert(listed[k] == x);
        }
    }
}

/// A duplicate-free sequence of integers in `0..m` that holds each of them
/// has `m` elements.
proof fn lemma_int_permutation_len(s: Seq<int>, m: nat)
    requires
        s.no_duplicates(),
        forall|k: int| 0 <= k < s.len() ==> 0 <= #[trigger] s[k] < m,
        forall|e: int| 0 <= e < m ==> s.contains(e),
    ensures
        s.len() == m,
{
    let set = s.to_set();
    s.unique_seq_to_set();
    let range = Set::new(|e: int| 0 <= e < m);
    assert(set =~= range) by {
        assert forall|e: int| set.contains(e) implies range.contains(e) by {
            let k = choose|k: int| 0 <= k < s.len() && s[k] == e;
        }
    }
    lemma_int_range_len(m);
}

proof fn lemma_int_range_len(m: nat)
    ensures
        Set::new(|e: int| 0 <= e < m).finite(),
        Set::new(|e: int| 0 <= e < m).len() == m,
    decreases m,
{
    if m == 0 {
        assert(Set::new(|e: int| 0 <= e < m) =~= Set::<int>::empty());
    } else {
        lemma_int_range_len((m - 1) as nat);
        assert(Set::new(|e: int| 0 <= e < m) =~= Set::new(|e: int| 0 <= e < (m - 1) as nat).insert(
            m - 1,
        ));
    }
}


/// The position of the first row of the services list named `name`: the row
/// that the context menu of a service opens on.
pub fn find_service_by_name(names: &Vec<String>, name: &str) -> (r: Option<usize>)
    ensures
        match r {
            Some(i) => i < names.len() && names@[i as int]@ == name@ && forall|j: int|
                0 <= j < i ==> names@[j]@ != name@,
            None => forall|j: int| 0 <= j < names.len() ==> names@[j]@ != name@,
        },
{
    let target = chars_of(name);
    let mut i: usize = 0;
    while i < names.len()
        invariant
            i <= names.len(),
            target@ == name@,
            forall|j: int| 0 <= j < i ==> names@[j]@ != name@,
        decreases names.len() - i,
    {
        let cs = chars_of(names[i].as_str());
        if same_chars(&cs, &target) {
            return Some(i);
        }
        i = i + 1;
    }
    None
}

} // verus!
