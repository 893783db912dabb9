use vstd::prelude::*;

use textdistance::Algorithm;

use crate::process_tree::ContentType;
use crate::text::{chars_of, contains_chars, contains_seq, decimal, decimal_string, lowercase, to_lowercase};

verus! {

/// The Levenshtein distance between `a` and `b`: the least number of
/// single-character insertions, deletions and substitutions that turn one
/// into the other.
pub open spec fn edit_distance(a: Seq<char>, b: Seq<char>) -> nat
    decreases a.len() + b.len(),
{
    if a.len() == 0 {
        b.len()
    } else if b.len() == 0 {
        a.len()
    } else {
        let substitute = edit_distance(a.drop_last(), b.drop_last()) + if a.last() == b.last() {
            0nat
        } else {
            1nat
        };
        let delete = edit_distance(a.drop_last(), b) + 1;
        let insert = edit_distance(a, b.drop_last()) + 1;
        if substitute <= delete && substitute <= insert {
            substitute
        } else if delete <= insert {
            delete
        } else {
            insert
        }
    }
}

/// `textdistance::Levenshtein::default().for_str(a, b).val()`: the crate
/// documents this as the Levenshtein distance between the characters of `a`
/// and of `b` (unit costs for insertion, deletion and substitution).
#[verifier::external_body]
fn levenshtein(a: &str, b: &str) -> (r: usize)
    ensures
        r == edit_distance(a@, b@),
{
    textdistance::Levenshtein::default().for_str(a, b).val()
}

/// Whether the distance between `a` and `b`, divided by the longer length,
/// is at most 0.6 (two empty strings are at distance 0).
pub open spec fn similar(a: Seq<char>, b: Seq<char>) -> bool {
    let longest = if a.len() >= b.len() {
        a.len()
    } else {
        b.len()
    };
    5 * edit_distance(a, b) <= 3 * longest
}

/// Whether a (lowercased) search query selects an entry with the
/// (lowercased) name `name` and the process id text `pid`: either contains
/// the other, or the name is close to the query.
pub open spec fn query_matches(name: Seq<char>, pid: Seq<char>, query: Seq<char>) -> bool {
    ||| contains_seq(name, query)
    ||| (pid.len() > 0 && contains_seq(pid, query))
    ||| contains_seq(query, name)
    ||| (pid.len() > 0 && contains_seq(query, pid))
    ||| similar(name, query)
}

proof fn lemma_edit_distance_bound(a: Seq<char>, b: Seq<char>)
    ensures
        edit_distance(a, b) <= if a.len() >= b.len() {
            a.len()
        } else {
            b.len()
        },
    decreases a.len() + b.len(),
{
    if a.len() > 0 && b.len() > 0 {
        lemma_edit_distance_bound(a.drop_last(), b.drop_last());
    }
}

/// Whether a row of the process tree is shown for the search in the header
/// bar: always while searching is off, the query is empty or the row is a
/// section header; else when the query matches its lowercased name or its
/// process id.
pub fn process_row_matches_search(
    search_active: bool,
    query: &str,
    content_type: ContentType,
    name: &str,
    pid: u32,
) -> (r: bool)
    ensures
        r == (!search_active || query@.len() == 0 || content_type == ContentType::SectionHeader
            || query_matches(lowercase(name@), decimal(pid as nat), lowercase(query@))),
{
    if !search_active {
        return true;
    }
    if query.is_empty() {
        return true;
    }
    if content_type == ContentType::SectionHeader {
        return true;
    }
    let entry_name = to_lowercase(name);
    let pid_text = chars_of(decimal_string(pid as u64).as_str());
    let search_query = to_lowercase(query);
    similar_or_contained(&entry_name, &pid_text, &search_query)
}

/// `query_matches` on lowercased name and query.
pub fn similar_or_contained(name_lower: &String, pid: &Vec<char>, query_lower: &String) -> (r: bool)
    ensures
        r == query_matches(name_lower@, pid@, query_lower@),
{
    let name = chars_of(name_lower.as_str());
    let query = chars_of(query_lower.as_str());
    if contains_chars(&name, &query) {
        return true;
    }
    if pid.len() > 0 && contains_chars(pid, &query) {
        return true;
    }
    if contains_chars(&query, &name) {
        return true;
    }
    if pid.len() > 0 && contains_chars(&query, pid) {
        return true;
    }
    let distance = levenshtein(name_lower.as_str(), query_lower.as_str());
    let longest = if name.len() >= query.len() {
        name.len()
    } else {
        query.len()
    };
    proof {
        lemma_edit_distance_bound(name@, query@);
    }
    (5 * (distance as u128)) <= 3 * (longest as u128)
}

/// Whether a service of the services list is shown for the search in the
/// header bar: always while searching is off or the query is empty; else
/// when the query matches its lowercased name or its process id text (which
/// is empty when it has no process).
pub fn service_item_matches_search(search_active: bool, query: &str, name: &str, pid: &str) -> (r:
    bool)
    ensures
        r == (!search_active || query@.len() == 0 || query_matches(
            lowercase(name@),
            pid@,
            lowercase(query@),
        )),
{
    if !search_active {
        return true;
    }
    if query.is_empty() {
        return true;
    }
    let entry_name = to_lowercase(name);
    let pid_text = chars_of(pid);
    let search_query = to_lowercase(query);
    similar_or_contained(&entry_name, &pid_text, &search_query)
}

/// Whether a row of the process tree passes the service status filter
/// (`active`: the selected toggle, `None` without a toggle group): rows that
/// are not services always do; services by the toggle: 0 all, 1 running,
/// 2 failed, 3 stopped, 4 not enabled, anything else all.
pub fn process_row_passes_filter(
    active: Option<u32>,
    content_type: ContentType,
    running: bool,
    failed: bool,
    stopped: bool,
    enabled: bool,
) -> (r: bool)
    ensures
        r == match active {
            None => true,
            Some(a) => content_type != ContentType::Service || (if a == 1 {
                running
            } else if a == 2 {
                failed
            } else if a == 3 {
                stopped
            } else if a == 4 {
                !enabled
            } else {
                true
            }),
        },
{
    let Some(active) = active else {
        return true;
    };
    if content_type == ContentType::Service {
        return match active {
            0 => true,
            1 => running,
            2 => failed,
            3 => stopped,
            4 => !enabled && !enabled,
            _ => true,
        };
    }
    true
}

/// Whether an item of the services list passes the status filter (`active`:
/// the selected toggle, `None` when the page is gone): 0 all, 1 running,
/// 2 failed, 3 stopped (enabled, neither failed nor running), 4 disabled
/// (neither running, failed nor enabled), anything else all.
pub fn service_item_passes_filter(active: Option<u32>, running: bool, failed: bool, enabled: bool) -> (r:
    bool)
    ensures
        r == match active {
            None => true,
            Some(a) => if a == 1 {
                running
            } else if a == 2 {
                failed
            } else if a == 3 {
                enabled && !failed && !running
            } else if a == 4 {
                !running && !failed && !enabled
            } else {
                true
            },
        },
{
    let Some(active) = active else {
        return true;
    };
    match active {
        0 => true,
        1 => running,
        2 => failed,
        3 => enabled && !failed && !running,
        4 => !running && !failed && !enabled,
        _ => true,
    }
}

} // verus!
