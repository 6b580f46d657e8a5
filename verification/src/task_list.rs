use vstd::prelude::*;

use crate::app::{duration_text, format_duration};
use crate::db::TaskRow;
use crate::text::{trim, trimmed};
use crate::ui::chars_of;

verus! {

/// What `str::to_lowercase` makes of `s`.
pub uninterp spec fn lowercase(s: Seq<char>) -> Seq<char>;

/// Lower-cases `s` with `str::to_lowercase`. Its result, which follows the Unicode case
/// tables character by character (a capital sigma by its context), is named by
/// [`lowercase`] and not spelled out.
#[verifier::external_body]
fn to_lowercase(s: &str) -> (r: String)
    ensures
        r@ == lowercase(s@),
{
    s.to_lowercase()
}

/// `p` occurs in `s` starting at index `i`.
pub open spec fn occurs_at(s: Seq<char>, p: Seq<char>, i: int) -> bool {
    0 <= i && i + p.len() <= s.len() && s.subrange(i, i + p.len()) == p
}

/// `p` occurs somewhere in `s`, as `str::contains` finds it.
pub open spec fn contains_text(s: Seq<char>, p: Seq<char>) -> bool {
    exists|i: int| #[trigger] occurs_at(s, p, i)
}

/// A task named `name` matches the search key `key`: the key is empty or occurs in the
/// lower-cased name.
pub open spec fn name_matches(name: Seq<char>, key: Seq<char>) -> bool {
    key.len() == 0 || contains_text(lowercase(name), key)
}

/// The task is listed: archived tasks only when they are asked for.
pub open spec fn listed(t: TaskRow, show_archived: bool) -> bool {
    show_archived || !t.is_archived
}

/// Some child of the task `id` matches `key`.
pub open spec fn child_matches(tasks: Seq<TaskRow>, id: i64, key: Seq<char>) -> bool {
    exists|c: int|
        0 <= c < tasks.len() && #[trigger] tasks[c].parent_id == Some(id) && name_matches(tasks[c].name@, key)
}

/// Some child or grandchild of the task `id` matches `key`.
pub open spec fn family_matches(tasks: Seq<TaskRow>, id: i64, key: Seq<char>) -> bool {
    exists|c: int|
        0 <= c < tasks.len() && #[trigger] tasks[c].parent_id == Some(id) && (name_matches(tasks[c].name@, key)
            || child_matches(tasks, tasks[c].id, key))
}

/// The task at index `i` shows as a root of the task list for the search key `key`: it has no
/// parent, it is listed, and the key is empty or it, a child or a grandchild matches.
pub open spec fn root_shown(tasks: Seq<TaskRow>, i: int, show_archived: bool, key: Seq<char>) -> bool {
    &&& tasks[i].parent_id is None
    &&& listed(tasks[i], show_archived)
    &&& (key.len() == 0 || name_matches(tasks[i].name@, key) || family_matches(tasks, tasks[i].id, key))
}

/// The task at index `i` shows under the task `parent`: it is a listed child of it.
pub open spec fn child_shown(tasks: Seq<TaskRow>, i: int, parent: i64, show_archived: bool) -> bool {
    tasks[i].parent_id == Some(parent) && listed(tasks[i], show_archived)
}

/// `r` lists, in increasing order, exactly the indices below `n` that satisfy `pred`.
pub open spec fn lists_exactly(r: Seq<usize>, n: int, pred: spec_fn(int) -> bool) -> bool {
    &&& forall|k: int| 0 <= k < r.len() ==> r[k] < n && pred(#[trigger] r[k] as int)
    &&& forall|k1: int, k2: int| 0 <= k1 < k2 < r.len() ==> #[trigger] r[k1] < #[trigger] r[k2]
    &&& forall|i: int| 0 <= i < n && #[trigger] pred(i) ==> exists|k: int| 0 <= k < r.len() && r[k] == i
}

/// The key that the search box `query` filters by: trimmed, then lower-cased.
pub fn search_key(query: &str) -> (r: String)
    ensures
        r@ == lowercase(trimmed(query@)),
{
    to_lowercase(trim(query))
}

/// Whether `p` occurs in `s` at index `i`.
fn occurs_at_exec(s: &Vec<char>, p: &Vec<char>, i: usize) -> (r: bool)
    requires
        i + p.len() <= s.len(),
    ensures
        r == occurs_at(s@, p@, i as int),
{
    let mut k: usize = 0;
    while k < p.len()
        invariant
            i + p.len() <= s.len(),
            k <= p.len(),
            forall|j: int| 0 <= j < k ==> s@[i + j] == p@[j],
        decreases p.len() - k,
    {
        if s[i + k] != p[k] {
            assert(s@.subrange(i as int, i + p.len())[k as int] != p@[k as int]);
            return false;
        }
        k += 1;
    }
    assert(s@.subrange(i as int, i + p.len()) =~= p@);
    true
}

/// Whether `p` occurs in `s`.
fn contains_chars(s: &Vec<char>, p: &Vec<char>) -> (r: bool)
    ensures
        r == contains_text(s@, p@),
{
    if p.len() > s.len() {
        assert forall|i: int| !occurs_at(s@, p@, i) by {}
        return false;
    }
    if p.len() == 0 {
        assert(s@.subrange(0, 0) =~= p@);
        assert(occurs_at(s@, p@, 0));
        return true;
    }
    let mut i: usize = 0;
    while i <= s.len() - p.len()
        invariant
            1 <= p.len() <= s.len(),
            i <= s.len() - p.len() + 1,
            forall|j: int| 0 <= j < i ==> !#[trigger] occurs_at(s@, p@, j),
        decreases s.len() - p.len() + 1 - i,
    {
        if occurs_at_exec(s, p, i) {
            return true;
        }
        i += 1;
    }
    assert forall|j: int| !occurs_at(s@, p@, j) by {}
    false
}

/// Whether a task named `name` matches the search key `key`.
pub fn matches_key(name: &str, key: &str) -> (r: bool)
    ensures
        r == name_matches(name@, key@),
{
    if key.is_empty() {
        return true;
    }
    let lower = to_lowercase(name);
    let hay = chars_of(lower.as_str());
    let needle = chars_of(key);
    contains_chars(&hay, &needle)
}

/// Whether the task at index `c` is a child of the task `id`.
fn is_child_at(tasks: &Vec<TaskRow>, c: usize, id: i64) -> (r: bool)
    requires
        c < tasks.len(),
    ensures
        r == (tasks@[c as int].parent_id == Some(id)),
{
    match tasks[c].parent_id {
        Some(p) => p == id,
        None => false,
    }
}

/// Whether some child of the task `id` matches `key`.
fn child_has_match(tasks: &Vec<TaskRow>, id: i64, key: &str) -> (r: bool)
    ensures
        r == child_matches(tasks@, id, key@),
{
    let mut c: usize = 0;
    while c < tasks.len()
        invariant
            c <= tasks.len(),
            forall|j: int|
                0 <= j < c ==> !(#[trigger] tasks@[j].parent_id == Some(id) && name_matches(tasks@[j].name@, key@)),
        decreases tasks.len() - c,
    {
        if is_child_at(tasks, c, id) && matches_key(tasks[c].name.as_str(), key) {
            return true;
        }
        c += 1;
    }
    false
}

/// Whether some child or grandchild of the task `id` matches `key`.
fn family_has_match(tasks: &Vec<TaskRow>, id: i64, key: &str) -> (r: bool)
    ensures
        r == family_matches(tasks@, id, key@),
{
    let mut c: usize = 0;
    while c < tasks.len()
        invariant
            c <= tasks.len(),
            forall|j: int|
                0 <= j < c ==> !(#[trigger] tasks@[j].parent_id == Some(id) && (name_matches(tasks@[j].name@, key@)
                    || child_matches(tasks@, tasks@[j].id, key@))),
        decreases tasks.len() - c,
    {
        if is_child_at(tasks, c, id) {
            if matches_key(tasks[c].name.as_str(), key) || child_has_match(tasks, tasks[c].id, key) {
                return true;
            }
        }
        c += 1;
    }
    false
}

/// The indices, in order, of the tasks that show as roots of the task list: tasks without a
/// parent, listed, and matching the search key `key` themselves or through a child or a
/// grandchild.
pub fn visible_roots(tasks: &Vec<TaskRow>, show_archived: bool, key: &str) -> (r: Vec<usize>)
    ensures
        lists_exactly(r@, tasks@.len() as int, |i: int| root_shown(tasks@, i, show_archived, key@)),
{
    let ghost pred = |i: int| root_shown(tasks@, i, show_archived, key@);
    let mut r: Vec<usize> = Vec::new();
    let mut i: usize = 0;
    while i < tasks.len()
        invariant
            i <= tasks.len(),
            pred == (|i: int| root_shown(tasks@, i, show_archived, key@)),
            lists_exactly(r@, i as int, pred),
        decreases tasks.len() - i,
    {
        let t = &tasks[i];
        let shown = t.parent_id.is_none() && (show_archived || !t.is_archived) && (key.is_empty()
            || matches_key(t.name.as_str(), key) || family_has_match(tasks, t.id, key));
        assert(shown == pred(i as int));
        let ghost before = r@;
        if shown {
            r.push(i);
        }
        proof {
            assert forall|j: int| 0 <= j < i + 1 && #[trigger] pred(j) implies exists|k: int|
                0 <= k < r@.len() && r@[k] == j by {
                if j == i {
                    assert(r@[r@.len() - 1] == j);
                } else {
                    let k = choose|k: int| 0 <= k < before.len() && before[k] == j;
                    assert(r@[k] == j);
                }
            }
        }
        i += 1;
    }
    r
}

/// The indices, in order, of the listed children of the task `parent`.
pub fn visible_children(tasks: &Vec<TaskRow>, parent: i64, show_archived: bool) -> (r: Vec<usize>)
    ensures
        lists_exactly(r@, tasks@.len() as int, |i: int| child_shown(tasks@, i, parent, show_archived)),
{
    let ghost pred = |i: int| child_shown(tasks@, i, parent, show_archived);
    let mut r: Vec<usize> = Vec::new();
    let mut i: usize = 0;
    while i < tasks.len()
        invariant
            i <= tasks.len(),
            pred == (|i: int| child_shown(tasks@, i, parent, show_archived)),
            lists_exactly(r@, i as int, pred),
        decreases tasks.len() - i,
    {
        let shown = is_child_at(tasks, i, parent) && (show_archived || !tasks[i].is_archived);
        assert(shown == pred(i as int));
        let ghost before = r@;
        if shown {
            r.push(i);
        }
        proof {
            assert forall|j: int| 0 <= j < i + 1 && #[trigger] pred(j) implies exists|k: int|
                0 <= k < r@.len() && r@[k] == j by {
                if j == i {
                    assert(r@[r@.len() - 1] == j);
                } else {
                    let k = choose|k: int| 0 <= k < before.len() && before[k] == j;
                    assert(r@[k] == j);
                }
            }
        }
        i += 1;
    }
    r
}

/// The line that shows a task in the list: a play mark when it is being tracked, a folder
/// for a project or a clipboard otherwise, its name, marks for a task that is not billable
/// and for an archived one, and its total time in brackets (the seconds read as unsigned).
pub open spec fn label_text(name: Seq<char>, is_project: bool, is_payable: bool, is_archived: bool, is_active: bool, total_secs: i64) -> Seq<char> {
    (if is_active { "\u{25B6} "@ } else { Seq::<char>::empty() }) + (if is_project {
        "\u{1F4C1}"@
    } else {
        "\u{1F4CB}"@
    }) + seq![' '] + name + (if !is_payable { " \u{2697}"@ } else { Seq::<char>::empty() }) + (if is_archived {
        " \u{1F4E6}"@
    } else {
        Seq::<char>::empty()
    }) + "  ["@ + duration_text((total_secs as u64) as nat) + seq![']']
}

/// The line that shows `task` in the list, marked as tracked when `is_active`, with
/// `total_secs` seconds tracked on it.
pub fn task_label(task: &TaskRow, is_active: bool, total_secs: i64) -> (r: String)
    ensures
        r@ == label_text(task.name@, task.is_project, task.is_payable, task.is_archived, is_active, total_secs),
{
    proof {
        reveal_strlit("\u{25B6} ");
        reveal_strlit("\u{1F4C1}");
        reveal_strlit("\u{1F4CB}");
        reveal_strlit(" ");
        reveal_strlit(" \u{2697}");
        reveal_strlit(" \u{1F4E6}");
        reveal_strlit("  [");
        reveal_strlit("]");
    }
    let mut s = String::new();
    if is_active {
        s.append("\u{25B6} ");
    }
    if task.is_project {
        s.append("\u{1F4C1}");
    } else {
        s.append("\u{1F4CB}");
    }
    s.append(" ");
    s.append(task.name.as_str());
    if !task.is_payable {
        s.append(" \u{2697}");
    }
    if task.is_archived {
        s.append(" \u{1F4E6}");
    }
    s.append("  [");
    let secs = #[verifier::truncate] (total_secs as u64);
    let time = format_duration(secs);
    s.append(time.as_str());
    s.append("]");
    assert(s@ =~= label_text(task.name@, task.is_project, task.is_payable, task.is_archived, is_active, total_secs));
    s
}

} // verus!
