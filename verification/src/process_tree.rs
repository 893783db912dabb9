use vstd::prelude::*;

use std::collections::HashMap;

use crate::columns::join_with;
use crate::text::{
    after_last, after_last_char, chars_of, first_ascii_word, first_ascii_word_chars, starts_with,
    string_from_chars, strip_last_if, trim, trim_chars, wine_prefix,
};

verus! {

/// What a row of the process tree stands for.
#[derive(Clone, Copy, PartialEq, Eq, Structural, Debug)]
pub enum ContentType {
    SectionHeader,
    App,
    Process,
    Service,
}

/// A row of the process tree as far as the actions on it need it: its name,
/// its process id and its child rows, in order.
pub struct RowNode {
    pub name: String,
    pub pid: u32,
    pub children: Vec<RowNode>,
}

pub open spec fn bwrap_name() -> Seq<char> {
    seq!['b', 'w', 'r', 'a', 'p']
}

/// The row whose process receives a signal meant for `n`: `n` itself unless
/// it is a `bwrap` sandbox wrapper, else the first row found depth first
/// below it that is not one.
pub open spec fn stoppable(n: RowNode) -> Option<RowNode>
    decreases n, 0nat,
{
    if n.name@ != bwrap_name() {
        Some(n)
    } else {
        stoppable_from(n.children@, 0)
    }
}

/// The first `stoppable` row below one of `cs[i..]`, in order.
pub open spec fn stoppable_from(cs: Seq<RowNode>, i: nat) -> Option<RowNode>
    decreases cs, cs.len() - i,
{
    if i >= cs.len() {
        None
    } else {
        match stoppable(cs[i as int]) {
            Some(r) => Some(r),
            None => stoppable_from(cs, i + 1),
        }
    }
}

fn is_bwrap(name: &String) -> (r: bool)
    ensures
        r == (name@ == bwrap_name()),
{
    let cs = chars_of(name.as_str());
    if cs.len() != 5 {
        return false;
    }
    let r = cs[0] == 'b' && cs[1] == 'w' && cs[2] == 'r' && cs[3] == 'a' && cs[4] == 'p';
    if r {
        assert(cs@ =~= bwrap_name());
    }
    r
}

/// The row below `row_model` (or `row_model` itself) whose process a stop
/// request is sent to.
pub fn find_stoppable_child(row_model: &RowNode) -> (r: Option<&RowNode>)
    ensures
        match r {
            Some(n) => stoppable(*row_model) == Some(*n),
            None => stoppable(*row_model) is None,
        },
    decreases row_model, 0nat,
{
    if !is_bwrap(&row_model.name) {
        return Some(row_model);
    }
    let mut i: usize = 0;
    while i < row_model.children.len()
        invariant
            i <= row_model.children.len(),
            row_model.name@ == bwrap_name(),
            stoppable(*row_model) == stoppable_from(row_model.children@, i as nat),
        decreases row_model.children.len() - i,
    {
        let child = &row_model.children[i];
        assert(decreases_to!(row_model.children => row_model.children@[i as int]));
        match find_stoppable_child(child) {
            Some(found) => {
                return Some(found);
            },
            None => {},
        }
        i = i + 1;
    }
    None
}

/// The process ids of the stoppable rows below each child of `cs[i..]`.
pub open spec fn stoppable_pids_from(cs: Seq<RowNode>, i: nat) -> Seq<u32>
    decreases cs.len() - i,
{
    if i >= cs.len() {
        Seq::empty()
    } else {
        match stoppable(cs[i as int]) {
            Some(r) => seq![r.pid] + stoppable_pids_from(cs, i + 1),
            None => stoppable_pids_from(cs, i + 1),
        }
    }
}

/// The process ids that a request on the app row `row_model` goes to: for
/// each child row, in order, the process of its stoppable row, if it has one.
pub fn app_pids(row_model: &RowNode) -> (r: Vec<u32>)
    ensures
        r@ == stoppable_pids_from(row_model.children@, 0),
{
    let mut result: Vec<u32> = Vec::new();
    let n = row_model.children.len();
    let mut i: usize = 0;
    while i < n
        invariant
            n == row_model.children.len(),
            i <= n,
            stoppable_pids_from(row_model.children@, 0) =~= result@ + stoppable_pids_from(
                row_model.children@,
                i as nat,
            ),
        decreases n - i,
    {
        match find_stoppable_child(&row_model.children[i]) {
            Some(child) => {
                result.push(child.pid);
            },
            None => {},
        }
        i = i + 1;
    }
    result
}

/// A row of a flattened tree list: what it stands for and its id.
pub struct ListRow {
    pub content_type: ContentType,
    pub id: String,
}

/// The position of the first row, not a section header, whose id is `id`.
pub fn select_item(rows: &Vec<ListRow>, id: &str) -> (r: Option<usize>)
    ensures
        match r {
            Some(i) => {
                &&& i < rows.len()
                &&& rows@[i as int].content_type != ContentType::SectionHeader
                &&& rows@[i as int].id@ == id@
                &&& forall|j: int|
                    0 <= j < i ==> !(rows@[j].content_type != ContentType::SectionHeader
                        && rows@[j].id@ == id@)
            },
            None => forall|j: int|
                0 <= j < rows.len() ==> !(rows@[j].content_type != ContentType::SectionHeader
                    && rows@[j].id@ == id@),
        },
{
    let target = chars_of(id);
    let mut i: usize = 0;
    while i < rows.len()
        invariant
            i <= rows.len(),
            target@ == id@,
            forall|j: int|
                0 <= j < i ==> !(rows@[j].content_type != ContentType::SectionHeader
                    && rows@[j].id@ == id@),
        decreases rows.len() - i,
    {
        let row = &rows[i];
        if row.content_type != ContentType::SectionHeader {
            let cs = chars_of(row.id.as_str());
            if same_chars(&cs, &target) {
                return Some(i);
            }
        }
        i = i + 1;
    }
    None
}

/// Whether two character vectors hold the same characters.
pub fn same_chars(a: &Vec<char>, b: &Vec<char>) -> (r: bool)
    ensures
        r == (a@ == b@),
{
    if a.len() != b.len() {
        return false;
    }
    let mut i: usize = 0;
    while i < a.len()
        invariant
            a.len() == b.len(),
            i <= a.len(),
            forall|j: int| 0 <= j < i ==> a@[j] == b@[j],
        decreases a.len() - i,
    {
        if a[i] != b[i] {
            return false;
        }
        i = i + 1;
    }
    assert(a@ =~= b@);
    true
}

// ---------------------------------------------------------------------------
// Action bars
// ---------------------------------------------------------------------------

/// What selecting a row does to the process action bar: whether its actions
/// become enabled, and its new visibility (`None`: left as it is).
#[derive(Clone, Copy, PartialEq, Eq, Structural, Debug)]
pub struct ProcessBarUpdate {
    pub actions_enabled: bool,
    pub visible: Option<bool>,
}

/// The process action bar's reaction to a changed selection.
pub fn process_bar_update(content_type: ContentType) -> (r: ProcessBarUpdate)
    ensures
        r.actions_enabled == (content_type == ContentType::Process || content_type
            == ContentType::App),
        r.visible == match content_type {
            ContentType::Process | ContentType::App => Some(true),
            ContentType::SectionHeader => None::<bool>,
            ContentType::Service => Some(false),
        },
{
    match content_type {
        ContentType::Process | ContentType::App => ProcessBarUpdate {
            actions_enabled: true,
            visible: Some(true),
        },
        ContentType::SectionHeader => ProcessBarUpdate { actions_enabled: false, visible: None },
        ContentType::Service => ProcessBarUpdate { actions_enabled: false, visible: Some(false) },
    }
}

/// The state of the service action bar: its visibility and which of its
/// actions are enabled.
#[derive(Clone, Copy, PartialEq, Eq, Structural, Debug)]
pub struct ServiceBarState {
    pub visible: bool,
    pub start: bool,
    pub stop: bool,
    pub restart: bool,
    pub details: bool,
}

impl ServiceBarState {
    /// The state of a freshly configured bar: shown, with its start, stop
    /// and restart actions enabled (as actions are when created) and its
    /// details action disabled.
    pub fn new() -> (r: Self)
        ensures
            r == (ServiceBarState { visible: true, start: true, stop: true, restart: true, details: false }),
    {
        ServiceBarState { visible: true, start: true, stop: true, restart: true, details: false }
    }

    /// The bar's reaction to a newly selected row: shown for a service, with
    /// stop and restart enabled when it runs and start when it does not;
    /// hidden otherwise, with details disabled and the other actions left as
    /// they were.
    pub fn handle_changed_selection(&mut self, content_type: ContentType, service_running: bool)
        ensures
            content_type == ContentType::Service ==> *final(self) == (ServiceBarState {
                visible: true,
                start: !service_running,
                stop: service_running,
                restart: service_running,
                details: true,
            }),
            content_type != ContentType::Service ==> *final(self) == (ServiceBarState {
                visible: false,
                details: false,
                ..*old(self)
            }),
    {
        match content_type {
            ContentType::Service => {
                self.visible = true;
                if service_running {
                    self.stop = true;
                    self.start = false;
                    self.restart = true;
                } else {
                    self.stop = false;
                    self.start = true;
                    self.restart = false;
                }
                self.details = true;
            },
            _ => {
                self.visible = false;
                self.details = false;
            },
        }
    }
}

// ---------------------------------------------------------------------------
// Services
// ---------------------------------------------------------------------------

/// The icon name of a service row.
pub open spec fn service_icon_spec(running: bool, failed: bool, enabled: bool) -> Seq<char> {
    if running {
        "service-running"@
    } else if failed {
        "service-failed"@
    } else if enabled {
        "service-stopped"@
    } else {
        "service-disabled"@
    }
}

/// The icon shown for a service: running, failed, stopped (enabled but not
/// running) or disabled, in that order of precedence.
pub fn get_service_icon(running: bool, failed: bool, enabled: bool) -> (r: &'static str)
    ensures
        r@ == service_icon_spec(running, failed, enabled),
{
    if running {
        "service-running"
    } else {
        if failed {
            "service-failed"
        } else if enabled {
            "service-stopped"
        } else {
            "service-disabled"
        }
    }
}

/// The icon follows the flags: the running icon for a running service; the
/// failed icon for one that is not running and has failed, whether it is
/// enabled or not; otherwise the stopped icon when it is enabled and the
/// disabled icon when not. The stopped icon shows exactly for the services
/// that count as stopped.
pub proof fn lemma_service_icon_by_flags(running: bool, failed: bool, enabled: bool)
    ensures
        running ==> service_icon_spec(running, failed, enabled) == "service-running"@,
        !running && failed ==> service_icon_spec(running, failed, enabled) == "service-failed"@,
        !running && !failed && enabled ==> service_icon_spec(running, failed, enabled)
            == "service-stopped"@,
        !running && !failed && !enabled ==> service_icon_spec(running, failed, enabled)
            == "service-disabled"@,
        (service_icon_spec(running, failed, enabled) == "service-stopped"@) == (!running && !failed
            && enabled),
        (service_icon_spec(running, failed, enabled) == "service-failed"@) == (!running && failed),
{
    reveal_strlit("service-running");
    reveal_strlit("service-failed");
    reveal_strlit("service-stopped");
    reveal_strlit("service-disabled");
    assert("service-running"@[8] != "service-stopped"@[8]);
    assert("service-failed"@[8] != "service-stopped"@[8]);
    assert("service-disabled"@[8] != "service-stopped"@[8]);
    assert("service-running"@[8] != "service-failed"@[8]);
    assert("service-disabled"@[8] != "service-failed"@[8]);
}

/// Whether a service counts as stopped: enabled, but neither running nor
/// failed.
pub fn service_stopped(running: bool, failed: bool, enabled: bool) -> (r: bool)
    ensures
        r == (!running && !failed && enabled),
{
    !running && !failed && enabled
}

// ---------------------------------------------------------------------------
// Process names
// ---------------------------------------------------------------------------

/// The name shown for a process, from its executable path, its command line
/// (only its first element matters) and the name the kernel gives it.
pub open spec fn pretty_name(exe: Seq<char>, first_cmd: Option<Seq<char>>, name: Seq<char>) -> Seq<
    char,
> {
    if exe.len() == 0 {
        match first_cmd {
            Some(cmd) => {
                let picked = match first_ascii_word(cmd) {
                    Some(w) => after_last(w, '/'),
                    None => name,
                };
                trim(strip_last_if(picked, ':'))
            },
            None => trim(name),
        }
    } else {
        let exe_name = after_last(exe, '/');
        if starts_with(exe_name, wine_prefix()) {
            match first_cmd {
                Some(cmd) => trim(after_last(after_last(cmd, '\\'), '/')),
                None => trim(name),
            }
        } else {
            trim(exe_name)
        }
    }
}

pub open spec fn first_of(cmd: Seq<String>) -> Option<Seq<char>> {
    if cmd.len() > 0 {
        Some(cmd[0]@)
    } else {
        None
    }
}

fn strip_last_char_if(s: Vec<char>, c: char) -> (r: Vec<char>)
    ensures
        r@ == strip_last_if(s@, c),
{
    let mut s = s;
    if s.len() > 0 && s[s.len() - 1] == c {
        s.pop();
    }
    s
}

fn starts_with_wine(s: &Vec<char>) -> (r: bool)
    ensures
        r == starts_with(s@, wine_prefix()),
{
    let r = s.len() >= 4 && s[0] == 'w' && s[1] == 'i' && s[2] == 'n' && s[3] == 'e';
    if s.len() >= 4 {
        if r {
            assert(s@.subrange(0, 4) =~= wine_prefix());
        } else {
            assert(!(s@.subrange(0, 4) =~= wine_prefix()));
        }
    }
    r
}

/// `after_last(s, c)` is the end of `s` from position `k`: the start of `s`
/// or just after an occurrence of `c`, with no `c` after it.
proof fn lemma_after_last_position(s: Seq<char>, c: char) -> (k: int)
    ensures
        0 <= k <= s.len(),
        after_last(s, c) == s.subrange(k, s.len() as int),
        k == 0 || s[k - 1] == c,
        forall|j: int| k <= j < s.len() ==> s[j] != c,
    decreases s.len(),
{
    if s.len() == 0 {
        assert(s.subrange(0, 0) =~= s);
        0
    } else if s.last() == c {
        assert(s.subrange(s.len() as int, s.len() as int) =~= Seq::<char>::empty());
        s.len() as int
    } else {
        let k = lemma_after_last_position(s.drop_last(), c);
        assert(after_last(s, c) =~= s.subrange(k, s.len() as int));
        assert forall|j: int| k <= j < s.len() implies s[j] != c by {
            if j < s.len() - 1 {
                assert(s.drop_last()[j] == s[j]);
            }
        }
        if k > 0 {
            assert(s.drop_last()[k - 1] == s[k - 1]);
        }
        k
    }
}

/// The name of a wine program: the part of its first command-line argument
/// after the last path separator of either kind (`/` or `\\`), or all of it
/// without one, trimmed; it holds neither separator.
pub proof fn lemma_wine_program_name(exe: Seq<char>, cmd: Seq<char>, name: Seq<char>)
    requires
        exe.len() > 0,
        starts_with(after_last(exe, '/'), wine_prefix()),
    ensures
        exists|k: int|
            0 <= k <= cmd.len() && (k == 0 || cmd[k - 1] == '/' || cmd[k - 1] == '\\') && (forall|j: int|
                k <= j < cmd.len() ==> cmd[j] != '/' && cmd[j] != '\\') && pretty_name(exe, Some(cmd), name)
                == trim(#[trigger] cmd.subrange(k, cmd.len() as int)),
{
    let k1 = lemma_after_last_position(cmd, '\\');
    let inner = after_last(cmd, '\\');
    let k2 = lemma_after_last_position(inner, '/');
    let k = k1 + k2;
    assert(inner.subrange(k2, inner.len() as int) =~= cmd.subrange(k, cmd.len() as int));
    assert forall|j: int| k <= j < cmd.len() implies cmd[j] != '/' && cmd[j] != '\\' by {
        assert(cmd[j] == inner[j - k1]);
    }
    if k2 > 0 {
        assert(cmd[k - 1] == inner[k2 - 1]);
    }
    assert(pretty_name(exe, Some(cmd), name) == trim(cmd.subrange(k, cmd.len() as int)));
}

/// The name of a process with an executable that is not a wine program: the
/// part of the executable's path after its last `/`, or all of it without
/// one, trimmed.
pub proof fn lemma_executable_name(exe: Seq<char>, cmd: Option<Seq<char>>, name: Seq<char>)
    requires
        exe.len() > 0,
        !starts_with(after_last(exe, '/'), wine_prefix()),
    ensures
        exists|k: int|
            0 <= k <= exe.len() && (k == 0 || exe[k - 1] == '/') && (forall|j: int| k <= j < exe.len() ==> exe[j] != '/')
                && pretty_name(exe, cmd, name) == trim(#[trigger] exe.subrange(k, exe.len() as int)),
{
    let k = lemma_after_last_position(exe, '/');
    assert(pretty_name(exe, cmd, name) == trim(exe.subrange(k, exe.len() as int)));
}

/// The name of a process without an executable: from the first word of its
/// command line, the part after its last `/` (all of it without one),
/// without one trailing `:`, trimmed.
pub proof fn lemma_command_name(cmd: Seq<char>, word: Seq<char>, name: Seq<char>)
    requires
        first_ascii_word(cmd) == Some(word),
    ensures
        exists|k: int|
            0 <= k <= word.len() && (k == 0 || word[k - 1] == '/') && (forall|j: int| k <= j < word.len() ==> word[j] != '/')
                && pretty_name(Seq::empty(), Some(cmd), name) == trim(strip_last_if(#[trigger] word.subrange(k, word.len() as int), ':')),
{
    let k = lemma_after_last_position(word, '/');
    assert(pretty_name(Seq::empty(), Some(cmd), name) == trim(strip_last_if(word.subrange(k, word.len() as int), ':')));
}

/// The name shown for a process: the last path component of its executable,
/// or, for wine programs, of its first command-line argument, or, without an
/// executable, of the first word of its command line; trimmed.
pub fn pretty_process_name(exe: &str, cmd: &Vec<String>, name: &str) -> (r: String)
    ensures
        r@ == pretty_name(exe@, first_of(cmd@), name@),
{
    let exe_chars = chars_of(exe);
    let name_chars = chars_of(name);
    let result = if exe_chars.len() == 0 {
        if cmd.len() > 0 {
            let first = chars_of(cmd[0].as_str());
            let picked = match first_ascii_word_chars(&first) {
                Some(w) => after_last_char(&w, '/'),
                None => name_chars,
            };
            let picked = strip_last_char_if(picked, ':');
            trim_chars(&picked)
        } else {
            trim_chars(&name_chars)
        }
    } else {
        let exe_name = after_last_char(&exe_chars, '/');
        if starts_with_wine(&exe_name) {
            if cmd.len() == 0 {
                trim_chars(&name_chars)
            } else {
                let first = chars_of(cmd[0].as_str());
                let a = after_last_char(&first, '\\');
                let b = after_last_char(&a, '/');
                trim_chars(&b)
            }
        } else {
            trim_chars(&exe_name)
        }
    };
    string_from_chars(&result)
}

// ---------------------------------------------------------------------------
// Apps and their processes
// ---------------------------------------------------------------------------

/// A process as far as grouping it under an app needs it.
pub struct ProcessInfo {
    pub pid: u32,
    pub children: Vec<u32>,
}

/// Whether `c` is one of the app's processes and a child of another of them.
pub open spec fn is_secondary(app_pids: Seq<u32>, map: Map<u32, ProcessInfo>, c: u32) -> bool {
    &&& app_pids.contains(c)
    &&& exists|a: int|
        0 <= a < app_pids.len() && map.contains_key(#[trigger] app_pids[a])
            && map[app_pids[a]].children@.contains(c)
}

/// The processes of `app_pids[i..]` that no other process of the app has as
/// a child, in order.
pub open spec fn top_level_from(app_pids: Seq<u32>, map: Map<u32, ProcessInfo>, i: nat) -> Seq<u32>
    decreases app_pids.len() - i,
{
    if i >= app_pids.len() {
        Seq::empty()
    } else {
        let rest = top_level_from(app_pids, map, i + 1);
        let p = app_pids[i as int];
        if map.contains_key(p) && !is_secondary(app_pids, map, map[p].pid) {
            seq![map[p].pid] + rest
        } else {
            rest
        }
    }
}

/// The first process of `app_pids[i..]` that has children or is the app's
/// last.
pub open spec fn fallback_from(app_pids: Seq<u32>, map: Map<u32, ProcessInfo>, i: nat) -> Option<
    u32,
>
    decreases app_pids.len() - i,
{
    if i >= app_pids.len() {
        None
    } else {
        let p = app_pids[i as int];
        if map.contains_key(p) && (map[p].children@.len() > 0 || i == app_pids.len() - 1) {
            Some(map[p].pid)
        } else {
            fallback_from(app_pids, map, i + 1)
        }
    }
}

/// The processes an app is shown with: those of its processes that are not
/// children of another of its processes; when there are none, the first of
/// them with children (or its last one).
pub open spec fn primary_processes_spec(app_pids: Seq<u32>, map: Map<u32, ProcessInfo>) -> Seq<u32> {
    let top = top_level_from(app_pids, map, 0);
    if top.len() > 0 {
        top
    } else {
        match fallback_from(app_pids, map, 0) {
            Some(p) => seq![p],
            None => Seq::empty(),
        }
    }
}

pub(crate) fn vec_contains_u32(v: &Vec<u32>, x: u32) -> (r: bool)
    ensures
        r == v@.contains(x),
{
    let mut i: usize = 0;
    while i < v.len()
        invariant
            i <= v.len(),
            forall|j: int| 0 <= j < i ==> v@[j] != x,
        decreases v.len() - i,
    {
        if v[i] == x {
            return true;
        }
        i = i + 1;
    }
    false
}

/// Whether `c` is one of the app's processes and a child of another of them.
fn check_secondary(app_pids: &Vec<u32>, process_map: &HashMap<u32, ProcessInfo>, c: u32) -> (r: bool)
    ensures
        r == is_secondary(app_pids@, process_map@, c),
{
    broadcast use vstd::std_specs::hash::group_hash_axioms;

    if !vec_contains_u32(app_pids, c) {
        return false;
    }
    let mut b: usize = 0;
    while b < app_pids.len()
        invariant
            b <= app_pids.len(),
            app_pids@.contains(c),
            forall|q: int|
                0 <= q < b ==> !(process_map@.contains_key(#[trigger] app_pids@[q])
                    && process_map@[app_pids@[q]].children@.contains(c)),
        decreases app_pids.len() - b,
    {
        match process_map.get(&app_pids[b]) {
            Some(process) => {
                if vec_contains_u32(&process.children, c) {
                    return true;
                }
            },
            None => {},
        }
        b = b + 1;
    }
    false
}

/// The process ids of the processes an app is shown with (see
/// `primary_processes_spec`).
pub fn primary_processes(app_pids: &Vec<u32>, process_map: &HashMap<u32, ProcessInfo>) -> (r: Vec<
    u32,
>)
    ensures
        r@ == primary_processes_spec(app_pids@, process_map@),
{
    broadcast use vstd::std_specs::hash::group_hash_axioms;

    let ghost map = process_map@;
    // Those that are not, in order.
    let mut top: Vec<u32> = Vec::new();
    let mut i: usize = app_pids.len();
    while i > 0
        invariant
            i <= app_pids.len(),
            map == process_map@,
            top@ == top_level_from(app_pids@, map, i as nat),
        decreases i,
    {
        i = i - 1;
        match process_map.get(&app_pids[i]) {
            Some(process) => {
                if !check_secondary(app_pids, process_map, process.pid) {
                    top.insert(0, process.pid);
                    assert(top@ =~= seq![map[app_pids@[i as int]].pid] + top_level_from(
                        app_pids@,
                        map,
                        (i + 1) as nat,
                    ));
                }
            },
            None => {},
        }
    }
    if top.len() > 0 {
        return top;
    }
    let mut j: usize = 0;
    while j < app_pids.len()
        invariant
            j <= app_pids.len(),
            map == process_map@,
            top_level_from(app_pids@, map, 0).len() == 0,
            fallback_from(app_pids@, map, 0) == fallback_from(app_pids@, map, j as nat),
        decreases app_pids.len() - j,
    {
        match process_map.get(&app_pids[j]) {
            Some(process) => {
                if process.children.len() > 0 || j == app_pids.len() - 1 {
                    assert(fallback_from(app_pids@, map, j as nat) == Some(process.pid));
                    let mut r = Vec::new();
                    r.push(process.pid);
                    assert(r@ =~= seq![process.pid]);
                    return r;
                }
            },
            None => {},
        }
        j = j + 1;
    }
    Vec::new()
}

proof fn lemma_top_level_from(app_pids: Seq<u32>, map: Map<u32, ProcessInfo>, i: nat)
    requires
        i <= app_pids.len(),
    ensures
        forall|x: u32|
            #[trigger] top_level_from(app_pids, map, i).contains(x) <==> exists|k: int|
                i <= k < app_pids.len() && map.contains_key(#[trigger] app_pids[k]) && map[app_pids[k]].pid == x
                    && !is_secondary(app_pids, map, x),
    decreases app_pids.len() - i,
{
    if i < app_pids.len() {
        lemma_top_level_from(app_pids, map, i + 1);
        let rest = top_level_from(app_pids, map, i + 1);
        let p = app_pids[i as int];
        let top = top_level_from(app_pids, map, i);
        assert forall|x: u32| #[trigger] top.contains(x) <==> exists|k: int|
            i <= k < app_pids.len() && map.contains_key(#[trigger] app_pids[k]) && map[app_pids[k]].pid == x
                && !is_secondary(app_pids, map, x) by {
            if map.contains_key(p) && !is_secondary(app_pids, map, map[p].pid) {
                assert(top == seq![map[p].pid] + rest);
                if top.contains(x) {
                    let t = choose|t: int| 0 <= t < top.len() && top[t] == x;
                    if t == 0 {
                        assert(app_pids[i as int] == p);
                    } else {
                        assert(rest[t - 1] == x);
                        assert(rest.contains(x));
                    }
                }
                if exists|k: int|
                    i <= k < app_pids.len() && map.contains_key(#[trigger] app_pids[k]) && map[app_pids[k]].pid == x
                        && !is_secondary(app_pids, map, x) {
                    let k = choose|k: int|
                        i <= k < app_pids.len() && map.contains_key(#[trigger] app_pids[k]) && map[app_pids[k]].pid == x
                            && !is_secondary(app_pids, map, x);
                    if k == i {
                        assert(top[0] == x);
                    } else {
                        assert(rest.contains(x));
                        let t = choose|t: int| 0 <= t < rest.len() && rest[t] == x;
                        assert(top[t + 1] == x);
                    }
                }
            } else {
                if exists|k: int|
                    i <= k < app_pids.len() && map.contains_key(#[trigger] app_pids[k]) && map[app_pids[k]].pid == x
                        && !is_secondary(app_pids, map, x) {
                    let k = choose|k: int|
                        i <= k < app_pids.len() && map.contains_key(#[trigger] app_pids[k]) && map[app_pids[k]].pid == x
                            && !is_secondary(app_pids, map, x);
                    if k == i {
                        assert(false);
                    }
                    assert(rest.contains(x));
                }
            }
        }
    }
}

/// The primary processes of an app, when at least one of its processes
/// (the one at `w`) is not listed as a child by any of its processes: no
/// process of the app that any of its processes lists as a child is among
/// them; every process of the app that none lists as a child is; and each
/// of them is a process of the app.
pub proof fn lemma_children_are_not_primary(app_pids: Seq<u32>, map: Map<u32, ProcessInfo>, w: int)
    requires
        0 <= w < app_pids.len(),
        map.contains_key(app_pids[w]),
        !app_pids.contains(map[app_pids[w]].pid) || forall|a: int|
            0 <= a < app_pids.len() && map.contains_key(#[trigger] app_pids[a])
                ==> !map[app_pids[a]].children@.contains(map[app_pids[w]].pid),
    ensures
        forall|a: int, c: u32|
            0 <= a < app_pids.len() && map.contains_key(app_pids[a]) && #[trigger] map[app_pids[a]].children@.contains(c)
                && app_pids.contains(c) ==> !primary_processes_spec(app_pids, map).contains(c),
        forall|k: int|
            0 <= k < app_pids.len() && map.contains_key(#[trigger] app_pids[k]) && (!app_pids.contains(map[app_pids[k]].pid) || forall|a: int|
                0 <= a < app_pids.len() && map.contains_key(#[trigger] app_pids[a])
                    ==> !map[app_pids[a]].children@.contains(map[app_pids[k]].pid))
                ==> primary_processes_spec(app_pids, map).contains(map[app_pids[k]].pid),
        forall|x: u32|
            #[trigger] primary_processes_spec(app_pids, map).contains(x) ==> exists|k: int|
                0 <= k < app_pids.len() && map.contains_key(#[trigger] app_pids[k]) && map[app_pids[k]].pid == x,
{
    lemma_top_level_from(app_pids, map, 0);
    let top = top_level_from(app_pids, map, 0);
    let xw = map[app_pids[w]].pid;
    assert(!is_secondary(app_pids, map, xw));
    assert(top.contains(xw));
    assert(top.len() > 0);
    assert(primary_processes_spec(app_pids, map) == top);
    assert forall|a: int, c: u32|
        0 <= a < app_pids.len() && map.contains_key(app_pids[a]) && #[trigger] map[app_pids[a]].children@.contains(c)
            && app_pids.contains(c) implies !primary_processes_spec(app_pids, map).contains(c) by {
        assert(is_secondary(app_pids, map, c));
    }
    assert forall|k: int|
        0 <= k < app_pids.len() && map.contains_key(#[trigger] app_pids[k]) && (!app_pids.contains(map[app_pids[k]].pid) || forall|a: int|
            0 <= a < app_pids.len() && map.contains_key(#[trigger] app_pids[a])
                ==> !map[app_pids[a]].children@.contains(map[app_pids[k]].pid))
            implies primary_processes_spec(app_pids, map).contains(map[app_pids[k]].pid) by {
        assert(!is_secondary(app_pids, map, map[app_pids[k]].pid));
    }
}

/// Whether the process at `k` stands for an app whose processes are all
/// children of one another: it is in the snapshot and has children, or it
/// is the app's last.
pub open spec fn fallback_candidate(app_pids: Seq<u32>, map: Map<u32, ProcessInfo>, k: int) -> bool {
    map.contains_key(app_pids[k]) && (map[app_pids[k]].children@.len() > 0 || k == app_pids.len() - 1)
}

proof fn lemma_fallback_from(app_pids: Seq<u32>, map: Map<u32, ProcessInfo>, i: nat)
    requires
        i <= app_pids.len(),
    ensures
        match fallback_from(app_pids, map, i) {
            Some(p) => exists|k: int|
                i <= k < app_pids.len() && #[trigger] fallback_candidate(app_pids, map, k) && p == map[app_pids[k]].pid
                    && forall|m: int| i <= m < k ==> !fallback_candidate(app_pids, map, m),
            None => forall|k: int| i <= k < app_pids.len() ==> !fallback_candidate(app_pids, map, k),
        },
    decreases app_pids.len() - i,
{
    if i < app_pids.len() {
        lemma_fallback_from(app_pids, map, i + 1);
        if fallback_candidate(app_pids, map, i as int) {
            assert(fallback_candidate(app_pids, map, i as int));
        } else {
            match fallback_from(app_pids, map, i + 1) {
                Some(p) => {
                    let k = choose|k: int|
                        i + 1 <= k < app_pids.len() && #[trigger] fallback_candidate(app_pids, map, k) && p == map[app_pids[k]].pid
                            && forall|m: int| i + 1 <= m < k ==> !fallback_candidate(app_pids, map, m);
                    assert(fallback_candidate(app_pids, map, k));
                },
                None => {},
            }
        }
    }
}

/// When every process of an app that is in the snapshot is itself one of
/// the app's processes and listed as a child by one of them, the app is
/// shown with one process: the first of its processes in the snapshot that
/// has children or is its last; with none if there is no such process.
pub proof fn lemma_primary_when_all_are_children(app_pids: Seq<u32>, map: Map<u32, ProcessInfo>)
    requires
        forall|k: int|
            0 <= k < app_pids.len() && map.contains_key(#[trigger] app_pids[k]) ==> app_pids.contains(map[app_pids[k]].pid)
                && exists|a: int|
                0 <= a < app_pids.len() && map.contains_key(app_pids[a]) && map[app_pids[a]].children@.contains(
                    map[app_pids[k]].pid,
                ),
    ensures
        primary_processes_spec(app_pids, map).len() <= 1,
        primary_processes_spec(app_pids, map).len() == 1 ==> exists|k: int|
            0 <= k < app_pids.len() && #[trigger] fallback_candidate(app_pids, map, k)
                && primary_processes_spec(app_pids, map)[0] == map[app_pids[k]].pid && forall|m: int|
                0 <= m < k ==> !fallback_candidate(app_pids, map, m),
        primary_processes_spec(app_pids, map).len() == 0 ==> forall|k: int|
            0 <= k < app_pids.len() ==> !fallback_candidate(app_pids, map, k),
{
    lemma_top_level_from(app_pids, map, 0);
    lemma_fallback_from(app_pids, map, 0);
    let top = top_level_from(app_pids, map, 0);
    if top.len() > 0 {
        assert(top.contains(top[0]));
        let k = choose|k: int|
            0 <= k < app_pids.len() && map.contains_key(#[trigger] app_pids[k]) && map[app_pids[k]].pid == top[0]
                && !is_secondary(app_pids, map, top[0]);
        assert(is_secondary(app_pids, map, top[0]));
    }
}

/// The icon an app row shows: the path or name of the app's icon, the
/// generic executable icon when it has neither.
#[derive(Clone, PartialEq, Eq, Debug)]
pub enum AppIcon {
    Empty,
    Path(String),
    Id(String),
}

pub open spec fn default_app_icon() -> Seq<char> {
    "application-x-executable"@
}

/// The icon name an app row shows.
pub fn app_icon_name(icon: &Option<AppIcon>) -> (r: &str)
    ensures
        r@ == match icon {
            Some(AppIcon::Path(p)) => p@,
            Some(AppIcon::Id(i)) => i@,
            _ => default_app_icon(),
        },
{
    match icon {
        Some(AppIcon::Path(p)) => p.as_str(),
        Some(AppIcon::Id(i)) => i.as_str(),
        _ => "application-x-executable",
    }
}

/// `r` lists, from the last to the first, the positions of the rows whose
/// process id (`None`: not a process row) is not in `keep`.
pub open spec fn is_removal_list(r: Seq<u32>, row_pids: Seq<Option<u32>>, keep: Seq<u32>) -> bool {
    &&& r.len() <= row_pids.len()
    &&& forall|k: int| 0 <= k < r.len() ==> (#[trigger] r[k]) < row_pids.len()
    &&& forall|a: int, b: int| 0 <= a < b < r.len() ==> r[a] > r[b]
    &&& forall|i: int|
        #![trigger row_pids[i]]
        0 <= i < row_pids.len() ==> (r.contains(i as u32) <==> !(row_pids[i] matches Some(p)
            && keep.contains(p)))
}

/// The positions of the rows to take out of a list, from the last to the
/// first: the rows whose process id (`None`: not a process row) is not in
/// `keep`.
pub fn rows_to_remove_by_pid(row_pids: &Vec<Option<u32>>, keep: &Vec<u32>) -> (r: Vec<u32>)
    requires
        row_pids.len() <= u32::MAX,
    ensures
        is_removal_list(r@, row_pids@, keep@),
{
    let mut r: Vec<u32> = Vec::new();
    let mut i: usize = row_pids.len();
    while i > 0
        invariant
            i <= row_pids.len() <= u32::MAX,
            r@.len() + i <= row_pids.len(),
            forall|k: int| 0 <= k < r@.len() ==> i <= (#[trigger] r@[k]) < row_pids.len(),
            forall|a: int, b: int| 0 <= a < b < r@.len() ==> r@[a] > r@[b],
            forall|q: int|
                #![trigger row_pids@[q]]
                i <= q < row_pids.len() ==> (r@.contains(q as u32) <==> !(row_pids@[q] matches Some(
                    p,
                ) && keep@.contains(p))),
        decreases i,
    {
        i = i - 1;
        let ghost before = r@;
        let kept = match row_pids[i] {
            Some(p) => vec_contains_u32(keep, p),
            None => false,
        };
        if !kept {
            r.push(i as u32);
        }
        proof {
            assert forall|q: int| #![trigger row_pids@[q]] i <= q < row_pids.len() implies (r@.contains(q as u32) <==> !(
            row_pids@[q] matches Some(p) && keep@.contains(p))) by {
                if q > i {
                    if r@.contains(q as u32) {
                        let k = choose|k: int| 0 <= k < r@.len() && r@[k] == q as u32;
                        if k == before.len() {
                            assert(r@[k] == i as u32);
                        }
                        assert(before[k] == q as u32);
                    }
                    if before.contains(q as u32) {
                        let k = choose|k: int| 0 <= k < before.len() && before[k] == q as u32;
                        assert(r@[k] == q as u32);
                    }
                } else {
                    if !kept {
                        assert(r@[before.len() as int] == i as u32);
                    } else if r@.contains(q as u32) {
                        let k = choose|k: int| 0 <= k < r@.len() && r@[k] == q as u32;
                        assert(before[k] >= i + 1);
                    }
                }
            }
        }
    }
    r
}

/// The process whose children make up the process list: the one with the
/// least process id, 1 when there is none.
pub fn root_process(pids: &Vec<u32>) -> (r: u32)
    ensures
        pids.len() == 0 ==> r == 1,
        pids.len() > 0 ==> pids@.contains(r) && forall|k: int| 0 <= k < pids.len() ==> r <= pids@[k],
{
    if pids.len() == 0 {
        return 1;
    }
    let mut best = pids[0];
    let mut i: usize = 1;
    while i < pids.len()
        invariant
            1 <= i <= pids.len(),
            pids@.contains(best),
            forall|k: int| 0 <= k < i ==> best <= pids@[k],
        decreases pids.len() - i,
    {
        if pids[i] < best {
            best = pids[i];
        }
        i = i + 1;
    }
    best
}


/// The words of a command line, as character sequences.
pub open spec fn word_views(cmd: Seq<String>) -> Seq<Seq<char>> {
    Seq::new(cmd.len(), |i: int| cmd[i]@)
}

/// The command line shown for a process: its words separated by spaces.
pub fn command_line(cmd: &Vec<String>) -> (r: String)
    ensures
        r@ == join_with(word_views(cmd@), ' '),
{
    let ghost words = word_views(cmd@);
    let mut line = String::new();
    let mut i: usize = 0;
    while i < cmd.len()
        invariant
            i <= cmd.len(),
            words == word_views(cmd@),
            line@ == join_with(words.take(i as int), ' '),
        decreases cmd.len() - i,
    {
        let ghost before = line@;
        proof {
            assert(words.take(i + 1).drop_last() =~= words.take(i as int));
            assert(words.take(i + 1).last() == cmd@[i as int]@);
        }
        if i > 0 {
            line.append(" ");
            proof {
                reveal_strlit(" ");
            }
        }
        line.append(cmd[i].as_str());
        proof {
            if i == 0 {
                assert(line@ =~= cmd@[0]@);
            } else {
                assert(line@ =~= before.push(' ') + cmd@[i as int]@);
            }
        }
        i = i + 1;
    }
    proof {
        assert(words.take(cmd.len() as int) =~= words);
    }
    line
}

// ---------------------------------------------------------------------------
// Keeping the rows of the tree up to date
// ---------------------------------------------------------------------------

/// What a process row becomes for the process read anew: its name, its icon
/// (the app's icon for a process of an app, else the icon its parent row
/// passed down), its command line, and the positions of its child rows whose
/// process is no longer a child of it.
pub struct ProcessRowUpdate {
    pub name: String,
    pub icon: String,
    pub command_line: String,
    pub remove: Vec<u32>,
}

/// The update of a process row (see `ProcessRowUpdate`); `children` are
/// the process ids of the process's children, `child_row_pids` those of the
/// row's child rows.
pub fn process_row_update(
    exe: &str,
    cmd: &Vec<String>,
    name: &str,
    app_icon: Option<&str>,
    inherited_icon: &str,
    child_row_pids: &Vec<Option<u32>>,
    children: &Vec<u32>,
) -> (r: ProcessRowUpdate)
    requires
        child_row_pids.len() <= u32::MAX,
    ensures
        r.name@ == pretty_name(exe@, first_of(cmd@), name@),
        r.icon@ == match app_icon {
            Some(i) => i@,
            None => inherited_icon@,
        },
        r.command_line@ == join_with(word_views(cmd@), ' '),
        is_removal_list(r.remove@, child_row_pids@, children@),
{
    let icon = match app_icon {
        Some(i) => String::from_str(i),
        None => String::from_str(inherited_icon),
    };
    ProcessRowUpdate {
        name: pretty_process_name(exe, cmd, name),
        icon,
        command_line: command_line(cmd),
        remove: rows_to_remove_by_pid(child_row_pids, children),
    }
}

/// The process ids to add as child rows, in order: each of `wanted` that no
/// row has yet (`row_pids`) and that was not added before.
pub open spec fn pids_to_add(row_pids: Seq<Option<u32>>, wanted: Seq<u32>) -> Seq<u32>
    decreases wanted.len(),
{
    if wanted.len() == 0 {
        Seq::empty()
    } else {
        let prev = pids_to_add(row_pids, wanted.drop_last());
        let p = wanted.last();
        if row_pids.contains(Some(p)) || prev.contains(p) {
            prev
        } else {
            prev.push(p)
        }
    }
}

fn rows_contain_pid(row_pids: &Vec<Option<u32>>, p: u32) -> (r: bool)
    ensures
        r == row_pids@.contains(Some(p)),
{
    let mut i: usize = 0;
    while i < row_pids.len()
        invariant
            i <= row_pids.len(),
            forall|j: int| 0 <= j < i ==> row_pids@[j] != Some(p),
        decreases row_pids.len() - i,
    {
        if let Some(q) = row_pids[i] {
            if q == p {
                assert(row_pids@[i as int] == Some(p));
                return true;
            }
        }
        i = i + 1;
    }
    false
}

/// The process ids to add as child rows of an app row (see `pids_to_add`).
pub fn children_to_add(row_pids: &Vec<Option<u32>>, wanted: &Vec<u32>) -> (r: Vec<u32>)
    ensures
        r@ == pids_to_add(row_pids@, wanted@),
{
    let mut r: Vec<u32> = Vec::new();
    let mut i: usize = 0;
    while i < wanted.len()
        invariant
            i <= wanted.len(),
            r@ == pids_to_add(row_pids@, wanted@.take(i as int)),
        decreases wanted.len() - i,
    {
        proof {
            assert(wanted@.take(i + 1).drop_last() =~= wanted@.take(i as int));
            assert(wanted@.take(i + 1).last() == wanted@[i as int]);
        }
        let p = wanted[i];
        if !rows_contain_pid(row_pids, p) && !vec_contains_u32(&r, p) {
            r.push(p);
        }
        i = i + 1;
    }
    proof {
        assert(wanted@.take(wanted.len() as int) =~= wanted@);
    }
    r
}

/// What an app row becomes for the app read anew: its icon, the positions
/// of its child rows that are not among its primary processes, and the
/// primary processes to add as child rows.
pub struct AppRowUpdate {
    pub icon: String,
    pub remove: Vec<u32>,
    pub add: Vec<u32>,
}

/// The update of an app row (see `AppRowUpdate`); `primary` are the app's
/// primary processes (see `primary_processes`).
pub fn app_row_update(icon: &Option<AppIcon>, child_row_pids: &Vec<Option<u32>>, primary: &Vec<u32>) -> (r:
    AppRowUpdate)
    requires
        child_row_pids.len() <= u32::MAX,
    ensures
        r.icon@ == match icon {
            Some(AppIcon::Path(p)) => p@,
            Some(AppIcon::Id(i)) => i@,
            _ => default_app_icon(),
        },
        is_removal_list(r.remove@, child_row_pids@, primary@),
        r.add@ == pids_to_add(child_row_pids@, primary@),
{
    AppRowUpdate {
        icon: String::from_str(app_icon_name(icon)),
        remove: rows_to_remove_by_pid(child_row_pids, primary),
        add: children_to_add(child_row_pids, primary),
    }
}

/// What a service row becomes for the service read anew: its icon, and the
/// positions of its child rows to take out: all but the row of the
/// service's main process, or all of them when it has none.
pub struct ServiceRowUpdate {
    pub icon: &'static str,
    pub remove: Vec<u32>,
}

/// The update of a service row (see `ServiceRowUpdate`).
pub fn service_row_update(
    running: bool,
    failed: bool,
    enabled: bool,
    pid: Option<u32>,
    child_row_pids: &Vec<Option<u32>>,
) -> (r: ServiceRowUpdate)
    requires
        child_row_pids.len() <= u32::MAX,
    ensures
        r.icon@ == service_icon_spec(running, failed, enabled),
        is_removal_list(
            r.remove@,
            child_row_pids@,
            match pid {
                Some(p) => seq![p],
                None => Seq::empty(),
            },
        ),
{
    let keep: Vec<u32> = match pid {
        Some(p) => vec![p],
        None => Vec::new(),
    };
    proof {
        assert(keep@ =~= match pid {
            Some(p) => seq![p],
            None => Seq::<u32>::empty(),
        });
    }
    ServiceRowUpdate {
        icon: get_service_icon(running, failed, enabled),
        remove: rows_to_remove_by_pid(child_row_pids, &keep),
    }
}

/// The positions of the rows of a list to take out, from the last to the
/// first: those whose id (`None`: a row of another kind) is not among `keys`.
pub open spec fn is_removal_list_by_id(r: Seq<u32>, row_ids: Seq<Option<Seq<char>>>, keys: Seq<Seq<char>>) -> bool {
    &&& r.len() <= row_ids.len()
    &&& forall|k: int| 0 <= k < r.len() ==> (#[trigger] r[k]) < row_ids.len()
    &&& forall|a: int, b: int| 0 <= a < b < r.len() ==> r[a] > r[b]
    &&& forall|i: int|
        #![trigger row_ids[i]]
        0 <= i < row_ids.len() ==> (r.contains(i as u32) <==> !(row_ids[i] matches Some(id)
            && keys.contains(id)))
}

pub open spec fn key_views(keys: Seq<String>) -> Seq<Seq<char>> {
    Seq::new(keys.len(), |i: int| keys[i]@)
}

pub open spec fn row_id_views(ids: Seq<Option<String>>) -> Seq<Option<Seq<char>>> {
    Seq::new(
        ids.len(),
        |i: int|
            match ids[i] {
                Some(s) => Some(s@),
                None => None,
            },
    )
}

fn keys_contain(keys: &Vec<String>, id: &String) -> (r: bool)
    ensures
        r == key_views(keys@).contains(id@),
{
    let target = chars_of(id.as_str());
    let mut i: usize = 0;
    while i < keys.len()
        invariant
            i <= keys.len(),
            target@ == id@,
            forall|j: int| 0 <= j < i ==> keys@[j]@ != id@,
        decreases keys.len() - i,
    {
        let cs = chars_of(keys[i].as_str());
        if same_chars(&cs, &target) {
            assert(key_views(keys@)[i as int] == id@);
            return true;
        }
        i = i + 1;
    }
    proof {
        if key_views(keys@).contains(id@) {
            let j = choose|j: int| 0 <= j < key_views(keys@).len() && key_views(keys@)[j] == id@;
            assert(keys@[j]@ == id@);
        }
    }
    false
}

/// The positions of the rows of a list of apps or services to take out,
/// from the last to the first: those whose id is not among the ids read.
pub fn rows_to_remove_by_id(row_ids: &Vec<Option<String>>, keys: &Vec<String>) -> (r: Vec<u32>)
    requires
        row_ids.len() <= u32::MAX,
    ensures
        is_removal_list_by_id(r@, row_id_views(row_ids@), key_views(keys@)),
{
    let ghost ids = row_id_views(row_ids@);
    let ghost ks = key_views(keys@);
    let mut r: Vec<u32> = Vec::new();
    let mut i: usize = row_ids.len();
    while i > 0
        invariant
            ids == row_id_views(row_ids@),
            ks == key_views(keys@),
            i <= row_ids.len() <= u32::MAX,
            r@.len() + i <= row_ids.len(),
            forall|k: int| 0 <= k < r@.len() ==> i <= (#[trigger] r@[k]) < row_ids.len(),
            forall|a: int, b: int| 0 <= a < b < r@.len() ==> r@[a] > r@[b],
            forall|q: int|
                #![trigger ids[q]]
                i <= q < row_ids.len() ==> (r@.contains(q as u32) <==> !(ids[q] matches Some(id)
                    && ks.contains(id))),
        decreases i,
    {
        i = i - 1;
        let ghost before = r@;
        let kept = match &row_ids[i] {
            Some(id) => keys_contain(keys, id),
            None => false,
        };
        assert(kept == (ids[i as int] matches Some(id) && ks.contains(id)));
        if !kept {
            r.push(i as u32);
        }
        proof {
            assert forall|q: int| #![trigger ids[q]] i <= q < row_ids.len() implies (r@.contains(q as u32) <==> !(
            ids[q] matches Some(id) && ks.contains(id))) by {
                if q > i {
                    if r@.contains(q as u32) {
                        let k = choose|k: int| 0 <= k < r@.len() && r@[k] == q as u32;
                        if k == before.len() {
                            assert(r@[k] == i as u32);
                        }
                        assert(before[k] == q as u32);
                    }
                    if before.contains(q as u32) {
                        let k = choose|k: int| 0 <= k < before.len() && before[k] == q as u32;
                        assert(r@[k] == q as u32);
                    }
                } else {
                    if !kept {
                        assert(r@[before.len() as int] == i as u32);
                    } else if r@.contains(q as u32) {
                        let k = choose|k: int| 0 <= k < r@.len() && r@[k] == q as u32;
                        assert(before[k] >= i + 1);
                    }
                }
            }
        }
    }
    r
}

/// Where the row for an entry read anew is: none (the entry is not in the
/// snapshot), an existing row at a position, or a new row appended.
#[derive(Clone, Copy, PartialEq, Eq, Structural, Debug)]
pub enum RowTarget {
    Skip,
    Existing(usize),
    Append,
}

/// The position of the first of `rows` equal to `x`.
pub open spec fn first_index<A>(rows: Seq<A>, x: A) -> Option<int>
    decreases rows.len(),
{
    if rows.len() == 0 {
        None
    } else {
        match first_index(rows.drop_last(), x) {
            Some(i) => Some(i),
            None => if rows.last() == x {
                Some(rows.len() - 1)
            } else {
                None
            },
        }
    }
}

/// `first_index` is the position of the first element equal to `x`, and
/// `None` when no element is.
pub proof fn lemma_first_index<A>(rows: Seq<A>, x: A)
    ensures
        match first_index(rows, x) {
            Some(i) => 0 <= i < rows.len() && rows[i] == x && forall|j: int| 0 <= j < i ==> rows[j] != x,
            None => forall|j: int| 0 <= j < rows.len() ==> rows[j] != x,
        },
    decreases rows.len(),
{
    if rows.len() > 0 {
        let init = rows.drop_last();
        lemma_first_index(init, x);
        assert forall|j: int| 0 <= j < init.len() implies init[j] == rows[j] by {}
        match first_index(init, x) {
            Some(i) => {
                assert(rows[i] == x);
            },
            None => {
                assert forall|j: int| 0 <= j < rows.len() - 1 implies rows[j] != x by {
                    assert(init[j] == rows[j]);
                }
            },
        }
    }
}

/// The rows of a list of process rows (by process id; `None`: a row of
/// another kind) and where each process of `wanted` goes, in turn: a
/// process missing from the snapshot is skipped; one whose process id a row
/// has goes to the first such row; any other to a new row at the end, which
/// later entries with the same process id then find.
pub open spec fn plan_rows(rows: Seq<Option<u32>>, wanted: Seq<u32>, map: Map<u32, ProcessInfo>) -> (Seq<RowTarget>, Seq<Option<u32>>)
    decreases wanted.len(),
{
    if wanted.len() == 0 {
        (Seq::empty(), rows)
    } else {
        let (t, r) = plan_rows(rows, wanted.drop_last(), map);
        let p = wanted.last();
        if !map.contains_key(p) {
            (t.push(RowTarget::Skip), r)
        } else {
            match first_index(r, Some(map[p].pid)) {
                Some(i) => (t.push(RowTarget::Existing(i as usize)), r),
                None => (t.push(RowTarget::Append), r.push(Some(map[p].pid))),
            }
        }
    }
}

fn find_pid(rows: &Vec<Option<u32>>, pid: u32) -> (r: Option<usize>)
    ensures
        match first_index(rows@, Some(pid)) {
            Some(i) => r == Some(i as usize),
            None => r is None,
        },
{
    proof {
        lemma_first_index(rows@, Some(pid));
    }
    let mut i: usize = 0;
    while i < rows.len()
        invariant
            i <= rows.len(),
            forall|j: int| 0 <= j < i ==> rows@[j] != Some(pid),
        decreases rows.len() - i,
    {
        if let Some(q) = rows[i] {
            if q == pid {
                assert(rows@[i as int] == Some(pid));
                proof {
                    lemma_first_index(rows@, Some(pid));
                    match first_index(rows@, Some(pid)) {
                        Some(k) => {
                            if k < i {
                                assert(rows@[k] != Some(pid));
                            }
                            if k > i {
                                assert(rows@[i as int] != Some(pid));
                            }
                        },
                        None => {
                            assert(rows@[i as int] != Some(pid));
                        },
                    }
                }
                return Some(i);
            }
        }
        i = i + 1;
    }
    None
}

/// Where the rows of the processes `wanted` are in a list of process rows
/// (see `plan_rows`); `row_pids` are the process ids of the list's rows.
pub fn process_row_targets(
    row_pids: &Vec<Option<u32>>,
    wanted: &Vec<u32>,
    process_map: &HashMap<u32, ProcessInfo>,
) -> (r: Vec<RowTarget>)
    ensures
        r@ == plan_rows(row_pids@, wanted@, process_map@).0,
{
    broadcast use vstd::std_specs::hash::group_hash_axioms;

    let mut rows: Vec<Option<u32>> = Vec::new();
    let mut k: usize = 0;
    while k < row_pids.len()
        invariant
            k <= row_pids.len(),
            rows@ == row_pids@.take(k as int),
        decreases row_pids.len() - k,
    {
        rows.push(row_pids[k]);
        k = k + 1;
        assert(rows@ =~= row_pids@.take(k as int));
    }
    assert(row_pids@.take(row_pids.len() as int) =~= row_pids@);
    let mut r: Vec<RowTarget> = Vec::new();
    let mut i: usize = 0;
    while i < wanted.len()
        invariant
            i <= wanted.len(),
            (r@, rows@) == plan_rows(row_pids@, wanted@.take(i as int), process_map@),
        decreases wanted.len() - i,
    {
        proof {
            assert(wanted@.take(i + 1).drop_last() =~= wanted@.take(i as int));
            assert(wanted@.take(i + 1).last() == wanted@[i as int]);
        }
        let p = wanted[i];
        match process_map.get(&p) {
            None => {
                r.push(RowTarget::Skip);
            },
            Some(process) => {
                let pid = process.pid;
                match find_pid(&rows, pid) {
                    Some(at) => {
                        r.push(RowTarget::Existing(at));
                    },
                    None => {
                        r.push(RowTarget::Append);
                        rows.push(Some(pid));
                    },
                }
            },
        }
        i = i + 1;
    }
    assert(wanted@.take(wanted.len() as int) =~= wanted@);
    r
}

/// The rows of a list of app or service rows (by id; `None`: a row of
/// another kind) and where each entry of `keys` goes, in turn: to the first
/// row with its id, or to a new row at the end, which later entries with the
/// same id then find.
pub open spec fn plan_id_rows(rows: Seq<Option<Seq<char>>>, keys: Seq<Seq<char>>) -> (Seq<RowTarget>, Seq<Option<Seq<char>>>)
    decreases keys.len(),
{
    if keys.len() == 0 {
        (Seq::empty(), rows)
    } else {
        let (t, r) = plan_id_rows(rows, keys.drop_last());
        let k = keys.last();
        match first_index(r, Some(k)) {
            Some(i) => (t.push(RowTarget::Existing(i as usize)), r),
            None => (t.push(RowTarget::Append), r.push(Some(k))),
        }
    }
}

/// The view of an optional character vector.
pub open spec fn chars_view(o: Option<Vec<char>>) -> Option<Seq<char>> {
    match o {
        Some(v) => Some(v@),
        None => None,
    }
}

pub open spec fn chars_views(rs: Seq<Option<Vec<char>>>) -> Seq<Option<Seq<char>>> {
    Seq::new(rs.len(), |i: int| chars_view(rs[i]))
}

fn find_id(rows: &Vec<Option<Vec<char>>>, id: &Vec<char>) -> (r: Option<usize>)
    ensures
        match first_index(chars_views(rows@), Some(id@)) {
            Some(i) => r == Some(i as usize),
            None => r is None,
        },
{
    let ghost views = chars_views(rows@);
    proof {
        lemma_first_index(views, Some(id@));
    }
    let mut i: usize = 0;
    while i < rows.len()
        invariant
            i <= rows.len(),
            views == chars_views(rows@),
            forall|j: int| 0 <= j < i ==> views[j] != Some(id@),
        decreases rows.len() - i,
    {
        match &rows[i] {
            Some(v) => {
                if same_chars(v, id) {
                    assert(views[i as int] == Some(id@));
                    proof {
                        lemma_first_index(views, Some(id@));
                        match first_index(views, Some(id@)) {
                            Some(k) => {
                                if k < i {
                                    assert(views[k] != Some(id@));
                                }
                                if k > i {
                                    assert(views[i as int] != Some(id@));
                                }
                            },
                            None => {
                                assert(views[i as int] != Some(id@));
                            },
                        }
                    }
                    return Some(i);
                }
            },
            None => {},
        }
        i = i + 1;
    }
    None
}

/// Where the rows of the entries `keys` (apps or services, by id) are in a
/// list (see `plan_id_rows`); `row_ids` are the ids of the list's rows.
pub fn id_row_targets(row_ids: &Vec<Option<String>>, keys: &Vec<String>) -> (r: Vec<RowTarget>)
    ensures
        r@ == plan_id_rows(row_id_views(row_ids@), key_views(keys@)).0,
{
    let mut rows: Vec<Option<Vec<char>>> = Vec::new();
    let mut k: usize = 0;
    while k < row_ids.len()
        invariant
            k <= row_ids.len(),
            rows@.len() == k,
            forall|j: int| 0 <= j < k ==> chars_view(#[trigger] rows@[j]) == row_id_views(row_ids@)[j],
        decreases row_ids.len() - k,
    {
        match &row_ids[k] {
            Some(id) => rows.push(Some(chars_of(id.as_str()))),
            None => rows.push(None),
        }
        k = k + 1;
    }
    assert(chars_views(rows@) =~= row_id_views(row_ids@));
    let mut r: Vec<RowTarget> = Vec::new();
    let mut i: usize = 0;
    while i < keys.len()
        invariant
            i <= keys.len(),
            (r@, chars_views(rows@)) == plan_id_rows(row_id_views(row_ids@), key_views(keys@).take(i as int)),
        decreases keys.len() - i,
    {
        proof {
            assert(key_views(keys@).take(i + 1).drop_last() =~= key_views(keys@).take(i as int));
            assert(key_views(keys@).take(i + 1).last() == keys@[i as int]@);
        }
        let id = chars_of(keys[i].as_str());
        match find_id(&rows, &id) {
            Some(at) => {
                r.push(RowTarget::Existing(at));
            },
            None => {
                r.push(RowTarget::Append);
                let ghost before = rows@;
                rows.push(Some(id));
                assert(chars_views(rows@) =~= chars_views(before).push(Some(keys@[i as int]@)));
            },
        }
        i = i + 1;
    }
    assert(key_views(keys@).take(keys.len() as int) =~= key_views(keys@));
    r
}

// ---------------------------------------------------------------------------
// The name cell
// ---------------------------------------------------------------------------

/// How the name cell of a row is laid out for what the row stands for.
#[derive(Clone, Copy, PartialEq, Eq, Structural, Debug)]
pub struct NameCellLayout {
    /// Whether the icon is shown.
    pub icon_visible: bool,
    /// The icon's size in pixels, when it is set.
    pub icon_pixel_size: Option<i32>,
    /// The icon's right margin, when it is set.
    pub icon_margin_end: Option<i32>,
    /// Whether the name is styled as a heading.
    pub heading: bool,
    /// The cell's left margin.
    pub margin_start: i32,
    /// The cell's top and bottom margins.
    pub margin_vertical: i32,
    /// Whether the row collapses once shown.
    pub collapse: bool,
    /// Whether the expander leaves room for an icon.
    pub indent_for_icon: bool,
}

/// The layout of a name cell: section headers are headings without an
/// icon; services, processes and apps show a 16, 16 and 24 pixel icon; app
/// and service rows start collapsed.
pub fn name_cell_layout(content_type: ContentType) -> (r: NameCellLayout)
    ensures
        r == match content_type {
            ContentType::SectionHeader => NameCellLayout {
                icon_visible: false,
                icon_pixel_size: None,
                icon_margin_end: None,
                heading: true,
                margin_start: 6,
                margin_vertical: 6,
                collapse: false,
                indent_for_icon: false,
            },
            ContentType::Service => NameCellLayout {
                icon_visible: true,
                icon_pixel_size: Some(16),
                icon_margin_end: Some(10),
                heading: false,
                margin_start: 0,
                margin_vertical: 3,
                collapse: true,
                indent_for_icon: true,
            },
            ContentType::Process => NameCellLayout {
                icon_visible: true,
                icon_pixel_size: Some(16),
                icon_margin_end: Some(10),
                heading: false,
                margin_start: 0,
                margin_vertical: 0,
                collapse: false,
                indent_for_icon: true,
            },
            ContentType::App => NameCellLayout {
                icon_visible: true,
                icon_pixel_size: Some(24),
                icon_margin_end: Some(10),
                heading: false,
                margin_start: 0,
                margin_vertical: 0,
                collapse: true,
                indent_for_icon: true,
            },
        },
{
    match content_type {
        ContentType::SectionHeader => NameCellLayout {
            icon_visible: false,
            icon_pixel_size: None,
            icon_margin_end: None,
            heading: true,
            margin_start: 6,
            margin_vertical: 6,
            collapse: false,
            indent_for_icon: false,
        },
        ContentType::Service => NameCellLayout {
            icon_visible: true,
            icon_pixel_size: Some(16),
            icon_margin_end: Some(10),
            heading: false,
            margin_start: 0,
            margin_vertical: 3,
            collapse: true,
            indent_for_icon: true,
        },
        ContentType::Process => NameCellLayout {
            icon_visible: true,
            icon_pixel_size: Some(16),
            icon_margin_end: Some(10),
            heading: false,
            margin_start: 0,
            margin_vertical: 0,
            collapse: false,
            indent_for_icon: true,
        },
        ContentType::App => NameCellLayout {
            icon_visible: true,
            icon_pixel_size: Some(24),
            icon_margin_end: Some(10),
            heading: false,
            margin_start: 0,
            margin_vertical: 0,
            collapse: true,
            indent_for_icon: true,
        },
    }
}

} // verus!
