use vstd::prelude::*;

use crate::text::{trim, trimmed};

verus! {

/// A node of the task hierarchy.
#[derive(Debug, Clone)]
pub struct Task {
    pub id: i64,
    pub parent_id: Option<i64>,
    pub name: String,
    pub is_project: bool,
    pub is_payable: bool,
    pub is_archived: bool,
    pub total_duration_secs: u64,
}

/// The mathematical value of a [`Task`]: its name as a sequence of characters.
pub struct TaskView {
    pub id: i64,
    pub parent_id: Option<i64>,
    pub name: Seq<char>,
    pub is_project: bool,
    pub is_payable: bool,
    pub is_archived: bool,
    pub total_duration_secs: u64,
}

impl View for Task {
    type V = TaskView;

    open spec fn view(&self) -> TaskView {
        TaskView {
            id: self.id,
            parent_id: self.parent_id,
            name: self.name@,
            is_project: self.is_project,
            is_payable: self.is_payable,
            is_archived: self.is_archived,
            total_duration_secs: self.total_duration_secs,
        }
    }
}

/// Errors reported by the operations of [`TaskTree`].
#[derive(Debug, Clone, PartialEq, Eq, Structural)]
pub enum TreeError {
    NotFound(i64),
    CyclicParent,
    InvalidParent,
    DuplicateName,
}

/// The model of a [`TaskTree`]: its tasks in ascending order of id, and the id
/// that the next added task receives.
pub struct TreeModel {
    pub tasks: Seq<TaskView>,
    pub next_id: i64,
}

impl TreeModel {
    /// Some task has id `id`.
    pub open spec fn has(self, id: i64) -> bool {
        exists|i: int| 0 <= i < self.tasks.len() && #[trigger] self.tasks[i].id == id
    }

    /// The position of the task with id `id`.
    pub open spec fn index_of(self, id: i64) -> int {
        choose|i: int| 0 <= i < self.tasks.len() && #[trigger] self.tasks[i].id == id
    }

    /// The task with id `id` (meaningful when `self.has(id)`).
    pub open spec fn get(self, id: i64) -> TaskView {
        self.tasks[self.index_of(id)]
    }

    /// The parent link of `id`; `None` for a root or for an id that no task has.
    pub open spec fn parent_of(self, id: i64) -> Option<i64> {
        if self.has(id) {
            self.get(id).parent_id
        } else {
            None
        }
    }

    /// Ids strictly increase along the sequence, so no id occurs twice.
    pub open spec fn ids_ascending(self) -> bool {
        forall|i: int, j: int|
            0 <= i < j < self.tasks.len() ==> #[trigger] self.tasks[i].id < #[trigger] self.tasks[j].id
    }

    /// Every id, and every parent link, is below the next id to hand out.
    pub open spec fn below_next_id(self) -> bool {
        forall|i: int|
            0 <= i < self.tasks.len() ==> {
                &&& #[trigger] self.tasks[i].id < self.next_id
                &&& (self.tasks[i].parent_id matches Some(p) ==> p < self.next_id)
            }
    }

    /// `rank` strictly decreases along every parent link.
    pub open spec fn ranked_by(self, rank: spec_fn(i64) -> nat) -> bool {
        forall|id: i64| #[trigger]
            self.parent_of(id) is Some ==> rank(self.parent_of(id).unwrap()) < rank(id)
    }

    /// No chain of parent links returns to where it started.
    pub open spec fn acyclic(self) -> bool {
        exists|rank: spec_fn(i64) -> nat| self.ranked_by(rank)
    }

    /// The invariant that every operation of [`TaskTree`] keeps.
    pub open spec fn wf(self) -> bool {
        &&& self.ids_ascending()
        &&& self.below_next_id()
        &&& self.acyclic()
    }

    /// `target` is reached from `start` by following at most `n` parent links.
    pub open spec fn on_chain_within(self, start: i64, target: i64, n: nat) -> bool
        decreases n,
    {
        start == target || (n > 0 && self.parent_of(start) is Some && self.on_chain_within(
            self.parent_of(start).unwrap(),
            target,
            (n - 1) as nat,
        ))
    }

    /// `target` is `start` or one of its ancestors.
    pub open spec fn on_chain(self, start: i64, target: i64) -> bool {
        exists|n: nat| self.on_chain_within(start, target, n)
    }
}

/// A hierarchy of tasks, each with an optional parent.
#[derive(Debug)]
pub struct TaskTree {
    tasks: Vec<Task>,
    next_id: i64,
}

impl View for TaskTree {
    type V = TreeModel;

    closed spec fn view(&self) -> TreeModel {
        TreeModel { tasks: views(self.tasks@), next_id: self.next_id }
    }
}

/// In a tree with ascending ids, the task at position `i` is the one its id finds.
pub proof fn lemma_index_of(m: TreeModel, i: int)
    requires
        m.ids_ascending(),
        0 <= i < m.tasks.len(),
    ensures
        m.has(m.tasks[i].id),
        m.index_of(m.tasks[i].id) == i,
        m.get(m.tasks[i].id) == m.tasks[i],
{
    let id = m.tasks[i].id;
    assert(m.tasks[i].id == id);
    let j = m.index_of(id);
    if j < i {
        assert(m.tasks[j].id < m.tasks[i].id);
    } else if j > i {
        assert(m.tasks[i].id < m.tasks[j].id);
    }
}


/// One step of the ancestor walk: `target` is on the chain from `start` exactly when it is
/// `start` itself or on the chain from `start`'s parent.
pub proof fn lemma_on_chain_step(m: TreeModel, start: i64, target: i64)
    ensures
        m.on_chain(start, target) <==> (start == target || (m.parent_of(start) is Some
            && m.on_chain(m.parent_of(start).unwrap(), target))),
{
    if m.on_chain(start, target) && start != target {
        let n = choose|n: nat| m.on_chain_within(start, target, n);
        assert(m.on_chain_within(m.parent_of(start).unwrap(), target, (n - 1) as nat));
    }
    if start == target {
        assert(m.on_chain_within(start, target, 0));
    } else if m.parent_of(start) is Some && m.on_chain(m.parent_of(start).unwrap(), target) {
        let n = choose|n: nat| m.on_chain_within(m.parent_of(start).unwrap(), target, n);
        assert(m.on_chain_within(start, target, n + 1));
    }
}

/// The parent link of the task at position `i`.
pub proof fn lemma_parent_at(m: TreeModel, i: int)
    requires
        m.ids_ascending(),
        0 <= i < m.tasks.len(),
    ensures
        m.parent_of(m.tasks[i].id) == m.tasks[i].parent_id,
{
    lemma_index_of(m, i);
}


/// Extending a prefix by one element extends its filtered part by that element when it passes.
pub proof fn lemma_filter_take_step<A>(s: Seq<A>, pred: spec_fn(A) -> bool, i: int)
    requires
        0 <= i < s.len(),
    ensures
        s.take(i + 1).filter(pred) == (if pred(s[i]) {
            s.take(i).filter(pred).push(s[i])
        } else {
            s.take(i).filter(pred)
        }),
{
    reveal(Seq::filter);
    assert(s.take(i + 1).drop_last() =~= s.take(i));
}

/// Equality of two parent links.
pub fn same_link(a: Option<i64>, b: Option<i64>) -> (r: bool)
    ensures
        r == (a == b),
{
    match (a, b) {
        (Some(x), Some(y)) => x == y,
        (None, None) => true,
        _ => false,
    }
}

/// The views of a sequence of task references.
pub open spec fn ref_views(s: Seq<&Task>) -> Seq<TaskView> {
    s.map_values(|t: &Task| t@)
}

/// The ids of a sequence of tasks.
pub open spec fn ids_of(s: Seq<TaskView>) -> Seq<i64> {
    s.map_values(|t: TaskView| t.id)
}

/// The tasks whose parent link is `parent`, in the order of `s`.
pub open spec fn with_parent(s: Seq<TaskView>, parent: Option<i64>) -> Seq<TaskView> {
    s.filter(|t: TaskView| t.parent_id == parent)
}

impl TreeModel {

    /// The model after replacing the task with id `id` by `t`.
    pub open spec fn replace(self, id: i64, t: TaskView) -> TreeModel {
        TreeModel { tasks: self.tasks.update(self.index_of(id), t), next_id: self.next_id }
    }

    /// Outcome of an operation on the task `id` that fails when no task has that id.
    pub open spec fn found(self, id: i64) -> Result<(), TreeError> {
        if self.has(id) {
            Ok(())
        } else {
            Err(TreeError::NotFound(id))
        }
    }


    /// Total own duration of `root` and all of its descendants.
    pub open spec fn subtree_total(self, root: i64) -> nat {
        sum_totals(self.tasks.filter(|t: TaskView| self.on_chain(t.id, root)))
    }


    /// Some task other than `except` is named `name` under the parent link `parent`.
    pub open spec fn name_clash(self, name: Seq<char>, parent: Option<i64>, except: Option<i64>) -> bool {
        exists|i: int|
            0 <= i < self.tasks.len() && #[trigger] self.tasks[i].name == name
                && self.tasks[i].parent_id == parent && except != Some(self.tasks[i].id)
    }

    /// No two tasks under the same parent link share a name.
    pub open spec fn sibling_names_distinct(self) -> bool {
        forall|i: int, j: int|
            0 <= i < self.tasks.len() && 0 <= j < self.tasks.len() && i != j
                && #[trigger] self.tasks[i].parent_id == #[trigger] self.tasks[j].parent_id
                ==> self.tasks[i].name != self.tasks[j].name
    }

    /// Every parent link names a task of the tree, and every name is non-empty and has no
    /// surrounding white space.
    pub open spec fn tidy(self) -> bool {
        forall|i: int|
            0 <= i < self.tasks.len() ==> {
                &&& (#[trigger] self.tasks[i]).name.len() > 0
                &&& trimmed(self.tasks[i].name) == self.tasks[i].name
                &&& (self.tasks[i].parent_id matches Some(p) ==> self.has(p))
            }
    }

    /// What `add_task` answers for an already trimmed `name`.
    pub open spec fn add_outcome(self, parent_id: Option<i64>, name: Seq<char>) -> Result<i64, TreeError> {
        if name.len() == 0 {
            Err(TreeError::DuplicateName)
        } else if self.name_clash(name, parent_id, None) {
            Err(TreeError::DuplicateName)
        } else if parent_id is Some && !self.has(parent_id.unwrap()) {
            Err(TreeError::InvalidParent)
        } else if parent_id is Some && self.on_chain(parent_id.unwrap(), self.next_id) {
            Err(TreeError::CyclicParent)
        } else {
            Ok(self.next_id)
        }
    }

    /// The model after a successful `add_task`.
    pub open spec fn with_new_task(
        self,
        parent_id: Option<i64>,
        name: Seq<char>,
        is_project: bool,
        is_payable: bool,
    ) -> TreeModel {
        TreeModel {
            tasks: self.tasks.push(
                TaskView {
                    id: self.next_id,
                    parent_id,
                    name,
                    is_project,
                    is_payable,
                    is_archived: false,
                    total_duration_secs: 0,
                },
            ),
            next_id: (self.next_id + 1) as i64,
        }
    }

    /// What `rename_task` answers for an already trimmed `name`.
    pub open spec fn rename_outcome(self, id: i64, name: Seq<char>) -> Result<(), TreeError> {
        if name.len() == 0 {
            Err(TreeError::DuplicateName)
        } else if !self.has(id) {
            Err(TreeError::NotFound(id))
        } else if self.name_clash(name, self.get(id).parent_id, Some(id)) {
            Err(TreeError::DuplicateName)
        } else {
            Ok(())
        }
    }


    /// The model after removing `root` together with all of its descendants.
    pub open spec fn without_subtree(self, root: i64) -> TreeModel {
        TreeModel {
            tasks: self.tasks.filter(|t: TaskView| !self.on_chain(t.id, root)),
            next_id: self.next_id,
        }
    }

    /// `id` is a proper descendant of `root`: a different task whose ancestors include `root`.
    pub open spec fn is_descendant(self, id: i64, root: i64) -> bool {
        id != root && self.on_chain(id, root)
    }

    /// The ids of the proper descendants of `root`, in ascending order.
    pub open spec fn descendant_ids(self, root: i64) -> Seq<i64> {
        ids_of(self.tasks.filter(|t: TaskView| self.is_descendant(t.id, root)))
    }
}


/// Two models whose tasks carry the same ids and parent links at every position have the
/// same parent links, and the invariant carries over from one to the other.
pub proof fn lemma_same_links(m1: TreeModel, m2: TreeModel)
    requires
        m1.wf(),
        m1.tasks.len() == m2.tasks.len(),
        m1.next_id == m2.next_id,
        forall|i: int|
            0 <= i < m1.tasks.len() ==> #[trigger] m1.tasks[i].id == m2.tasks[i].id
                && m1.tasks[i].parent_id == m2.tasks[i].parent_id,
    ensures
        forall|id: i64| #[trigger] m2.has(id) == m1.has(id),
        forall|id: i64| #[trigger] m2.parent_of(id) == m1.parent_of(id),
        m2.wf(),
{
    assert forall|i: int, j: int| 0 <= i < j < m2.tasks.len() implies #[trigger] m2.tasks[i].id
        < #[trigger] m2.tasks[j].id by {
        assert(m1.tasks[i].id < m1.tasks[j].id);
    }
    assert forall|id: i64| #[trigger] m2.has(id) == m1.has(id) by {
        if m1.has(id) {
            let i = m1.index_of(id);
            assert(m2.tasks[i].id == id);
        }
        if m2.has(id) {
            let i = m2.index_of(id);
            assert(m1.tasks[i].id == id);
        }
    }
    assert forall|id: i64| #[trigger] m2.parent_of(id) == m1.parent_of(id) by {
        if m1.has(id) {
            let i = m1.index_of(id);
            lemma_index_of(m1, i);
            lemma_index_of(m2, i);
        }
    }
    assert forall|i: int| 0 <= i < m2.tasks.len() implies {
        &&& #[trigger] m2.tasks[i].id < m2.next_id
        &&& (m2.tasks[i].parent_id matches Some(p) ==> p < m2.next_id)
    } by {
        assert(m1.tasks[i].id < m1.next_id);
    }
    let rank = choose|rank: spec_fn(i64) -> nat| m1.ranked_by(rank);
    assert(m2.ranked_by(rank));
}


/// Total of the own durations of a sequence of tasks.
pub open spec fn sum_totals(s: Seq<TaskView>) -> nat
    decreases s.len(),
{
    if s.len() == 0 {
        0
    } else {
        sum_totals(s.drop_last()) + s.last().total_duration_secs as nat
    }
}

/// The filtered total of a prefix never exceeds the filtered total of the whole sequence.
pub proof fn lemma_sum_prefix_le(s: Seq<TaskView>, pred: spec_fn(TaskView) -> bool, i: int)
    requires
        0 <= i <= s.len(),
    ensures
        sum_totals(s.take(i).filter(pred)) <= sum_totals(s.filter(pred)),
    decreases s.len() - i,
{
    if i == s.len() {
        assert(s.take(i) =~= s);
    } else {
        lemma_filter_take_step(s, pred, i);
        lemma_sum_prefix_le(s, pred, i + 1);
        if pred(s[i]) {
            assert(s.take(i).filter(pred).push(s[i]).drop_last() =~= s.take(i).filter(pred));
        }
    }
}


/// Adding a task with a present parent (or none) keeps the invariant and the distinct
/// sibling names.
pub proof fn lemma_add_keeps_wf(
    m: TreeModel,
    parent_id: Option<i64>,
    name: Seq<char>,
    is_project: bool,
    is_payable: bool,
)
    requires
        m.wf(),
        m.next_id < i64::MAX,
        m.add_outcome(parent_id, name) is Ok,
    ensures
        m.with_new_task(parent_id, name, is_project, is_payable).wf(),
        m.sibling_names_distinct() ==> m.with_new_task(parent_id, name, is_project, is_payable).sibling_names_distinct(),
{
    let m2 = m.with_new_task(parent_id, name, is_project, is_payable);
    let n = m.tasks.len();
    let nid = m.next_id;
    assert(m2.tasks[n as int].id == nid);
    assert forall|i: int, j: int| 0 <= i < j < m2.tasks.len() implies #[trigger] m2.tasks[i].id
        < #[trigger] m2.tasks[j].id by {
        if j < n {
            assert(m.tasks[i].id < m.tasks[j].id);
        } else {
            assert(m.tasks[i].id < m.next_id);
        }
    }
    if let Some(p) = parent_id {
        let k = m.index_of(p);
        assert(m.tasks[k].id < m.next_id);
    }
    assert forall|i: int| 0 <= i < m2.tasks.len() implies {
        &&& #[trigger] m2.tasks[i].id < m2.next_id
        &&& (m2.tasks[i].parent_id matches Some(p) ==> p < m2.next_id)
    } by {
        if i < n {
            assert(m.tasks[i].id < m.next_id);
        }
    }
    // Every old id keeps its task; the new id has the new task.
    assert forall|id: i64| id != nid implies #[trigger] m2.has(id) == m.has(id) && (m.has(id) ==> m2.get(id) == m.get(id)) by {
        if m.has(id) {
            let i = m.index_of(id);
            lemma_index_of(m, i);
            assert(m2.tasks[i].id == id);
            lemma_index_of(m2, i);
        }
        if m2.has(id) {
            let i = m2.index_of(id);
            assert(i < n);
            assert(m.tasks[i].id == id);
        }
    }
    lemma_index_of(m2, n as int);
    let rank = choose|rank: spec_fn(i64) -> nat| m.ranked_by(rank);
    let rank2 = |x: i64|
        if x == nid {
            match parent_id {
                Some(p) => rank(p) + 1,
                None => 0,
            }
        } else {
            rank(x)
        };
    assert forall|id: i64| #[trigger] m2.parent_of(id) is Some implies rank2(m2.parent_of(id).unwrap()) < rank2(id) by {
        if id == nid {
            assert(m2.parent_of(id) == parent_id);
        } else {
            assert(m.parent_of(id) is Some);
            let q = m.parent_of(id).unwrap();
            let i = m.index_of(id);
            assert(m.tasks[i].id == id);
            assert(q < m.next_id);
            assert(rank(q) < rank(id));
        }
    }
    assert(m2.ranked_by(rank2));
    if m.sibling_names_distinct() {
        assert forall|i: int, j: int|
            0 <= i < m2.tasks.len() && 0 <= j < m2.tasks.len() && i != j
                && #[trigger] m2.tasks[i].parent_id == #[trigger] m2.tasks[j].parent_id
                implies m2.tasks[i].name != m2.tasks[j].name by {
            if i == n {
                if m2.tasks[i].name == m2.tasks[j].name {
                    assert(m.tasks[j].name == name);
                    assert(m.name_clash(name, parent_id, None));
                }
            } else if j == n {
                if m2.tasks[i].name == m2.tasks[j].name {
                    assert(m.tasks[i].name == name);
                    assert(m.name_clash(name, parent_id, None));
                }
            }
        }
    }
}


/// A model made of the tasks of a valid model that pass a filter, with the same next id, is
/// valid and keeps distinct sibling names.
pub proof fn lemma_filtered_keeps_wf(m: TreeModel, m2: TreeModel, pred: spec_fn(TaskView) -> bool)
    requires
        m.wf(),
        m2.next_id == m.next_id,
        m2.tasks == m.tasks.filter(pred),
    ensures
        m2.wf(),
        m.sibling_names_distinct() ==> m2.sibling_names_distinct(),
{
    crate::tree_laws::lemma_filter_ascending(m.tasks, pred);
    assert forall|q: int| 0 <= q < m2.tasks.len() implies m.tasks.contains(#[trigger] m2.tasks[q]) by {
        assert(m2.tasks.contains(m2.tasks[q]));
        m.tasks.lemma_filter_contains_rev(pred, m2.tasks[q]);
    }
    lemma_subset_keeps_wf(m, m2);
}

/// A model made of some of the tasks of a valid model, with ascending ids and the same
/// next id, is valid too.
pub proof fn lemma_subset_keeps_wf(m: TreeModel, m2: TreeModel)
    requires
        m.wf(),
        m2.ids_ascending(),
        m2.next_id == m.next_id,
        forall|q: int| 0 <= q < m2.tasks.len() ==> m.tasks.contains(#[trigger] m2.tasks[q]),
    ensures
        m2.wf(),
        m.sibling_names_distinct() ==> m2.sibling_names_distinct(),
{
    assert forall|q: int| 0 <= q < m2.tasks.len() implies {
        &&& #[trigger] m2.tasks[q].id < m2.next_id
        &&& (m2.tasks[q].parent_id matches Some(p) ==> p < m2.next_id)
    } by {
        let p = choose|p: int| 0 <= p < m.tasks.len() && m.tasks[p] == m2.tasks[q];
        assert(m.tasks[p].id < m.next_id);
    }
    assert forall|x: i64| #[trigger] m2.parent_of(x) is Some implies m.parent_of(x) == m2.parent_of(x) by {
        let i = m2.index_of(x);
        assert(m.tasks.contains(m2.tasks[i]));
        let p = choose|p: int| 0 <= p < m.tasks.len() && m.tasks[p] == m2.tasks[i];
        lemma_index_of(m, p);
        lemma_index_of(m2, i);
    }
    let rank = choose|rank: spec_fn(i64) -> nat| m.ranked_by(rank);
    assert forall|x: i64| #[trigger] m2.parent_of(x) is Some implies rank(m2.parent_of(x).unwrap()) < rank(x) by {
        assert(m.parent_of(x) == m2.parent_of(x));
    }
    assert(m2.ranked_by(rank));
    if m.sibling_names_distinct() {
        assert forall|a: int, b: int|
            0 <= a < m2.tasks.len() && 0 <= b < m2.tasks.len() && a != b
                && #[trigger] m2.tasks[a].parent_id == #[trigger] m2.tasks[b].parent_id
                implies m2.tasks[a].name != m2.tasks[b].name by {
            let pa = choose|p: int| 0 <= p < m.tasks.len() && m.tasks[p] == m2.tasks[a];
            let pb = choose|p: int| 0 <= p < m.tasks.len() && m.tasks[p] == m2.tasks[b];
            if a < b {
                assert(m2.tasks[a].id < m2.tasks[b].id);
            } else {
                assert(m2.tasks[b].id < m2.tasks[a].id);
            }
            assert(pa != pb);
        }
    }
}


/// A parent chain as `path_to_root` reports it: it starts at `start`, each entry is the
/// parent of the one before, and the last has no parent.
pub open spec fn is_root_path(m: TreeModel, start: i64, path: Seq<i64>) -> bool {
    &&& path.len() >= 1
    &&& path[0] == start
    &&& forall|k: int| 0 <= k < path.len() - 1 ==> m.parent_of(#[trigger] path[k]) == Some(path[k + 1])
    &&& m.parent_of(path.last()) is None
}

/// Making `child` a child of `parent` would close a loop exactly when `child` lies on the
/// path from `parent` to its root: `would_create_cycle(p, c) == path_to_root(p).contains(c)`.
pub proof fn law_cycle_iff_on_root_path(m: TreeModel, parent: i64, child: i64, path: Seq<i64>)
    requires
        is_root_path(m, parent, path),
    ensures
        m.on_chain(parent, child) <==> path.contains(child),
    decreases path.len(),
{
    lemma_on_chain_step(m, parent, child);
    if path.len() == 1 {
        if path.contains(child) {
            assert(path[0] == child);
        }
    } else {
        let rest = path.drop_first();
        assert forall|k: int| 0 <= k < rest.len() - 1 implies m.parent_of(#[trigger] rest[k]) == Some(rest[k + 1]) by {
            assert(m.parent_of(path[k + 1]) == Some(path[k + 2]));
        }
        assert(m.parent_of(path[0]) == Some(path[1]));
        law_cycle_iff_on_root_path(m, rest[0], child, rest);
        if path.contains(child) && child != parent {
            let k = choose|k: int| 0 <= k < path.len() && path[k] == child;
            assert(rest[k - 1] == child);
        }
        if rest.contains(child) {
            let k = choose|k: int| 0 <= k < rest.len() && rest[k] == child;
            assert(path[k + 1] == child);
        }
    }
}

/// `descendants(root)` lists exactly the other tasks whose path to the root passes `root`.
pub proof fn law_descendants_iff_on_root_path(m: TreeModel, root: i64, x: i64, path: Seq<i64>)
    requires
        m.wf(),
        is_root_path(m, x, path),
    ensures
        m.descendant_ids(root).contains(x) <==> (m.has(x) && x != root && path.contains(root)),
{
    law_cycle_iff_on_root_path(m, x, root, path);
    let pred = |t: TaskView| m.is_descendant(t.id, root);
    let f = m.tasks.filter(pred);
    broadcast use vstd::seq_lib::group_filter_ensures;
    if m.descendant_ids(root).contains(x) {
        let k = choose|k: int| 0 <= k < f.len() && ids_of(f)[k] == x;
        assert(pred(f[k]));
        assert(f.contains(f[k]));
        m.tasks.lemma_filter_contains_rev(pred, f[k]);
        let i = choose|i: int| 0 <= i < m.tasks.len() && m.tasks[i] == f[k];
        assert(m.tasks[i].id == x);
    }
    if m.has(x) && x != root && path.contains(root) {
        let i = m.index_of(x);
        assert(pred(m.tasks[i]));
        assert(f.contains(m.tasks[i]));
        let k = choose|k: int| 0 <= k < f.len() && f[k] == m.tasks[i];
        assert(ids_of(f)[k] == x);
    }
}

/// Archiving a task that was not archived and then unarchiving it gives back the tree.
pub proof fn law_archive_then_unarchive(m: TreeModel, id: i64)
    requires
        m.wf(),
        m.has(id),
        !m.get(id).is_archived,
    ensures
        ({
            let archived = m.replace(id, TaskView { is_archived: true, ..m.get(id) });
            archived.replace(id, TaskView { is_archived: false, ..archived.get(id) }) == m
        }),
{
    let i = m.index_of(id);
    lemma_index_of(m, i);
    let archived = m.replace(id, TaskView { is_archived: true, ..m.get(id) });
    lemma_same_links(m, archived);
    lemma_index_of(archived, i);
    assert(archived.replace(id, TaskView { is_archived: false, ..archived.get(id) }).tasks =~= m.tasks);
}

/// Replacing one task commutes with taking views.
proof fn lemma_update_view(s: Seq<Task>, i: int)
    requires
        0 <= i < s.len(),
    ensures
        forall|x: Task| #[trigger] views(s.update(i, x)) == views(s).update(i, x@),
{
    assert forall|x: Task| #[trigger] views(s.update(i, x)) == views(s).update(i, x@) by {
        assert(views(s.update(i, x)) =~= views(s).update(i, x@));
    }
}

/// The views of a sequence of tasks.
pub open spec fn views(s: Seq<Task>) -> Seq<TaskView> {
    s.map_values(|t: Task| t@)
}

impl TaskTree {
    /// Position of the task with id `id`, if there is one.
    fn find_index(&self, id: i64) -> (r: Option<usize>)
        requires
            self@.ids_ascending(),
        ensures
            r is None <==> !self@.has(id),
            r matches Some(i) ==> i < self@.tasks.len() && self@.index_of(id) == i
                && self@.tasks[i as int].id == id,
    {
        let mut i: usize = 0;
        while i < self.tasks.len()
            invariant
                i <= self.tasks.len(),
                self@.ids_ascending(),
                forall|k: int| 0 <= k < i ==> #[trigger] self@.tasks[k].id != id,
            decreases self.tasks.len() - i,
        {
            assert(self@.tasks[i as int] == self.tasks@[i as int]@);
            if self.tasks[i].id == id {
                proof {
                    lemma_index_of(self@, i as int);
                }
                return Some(i);
            }
            i += 1;
        }
        None
    }

    /// An empty tree whose first task will get id 1.
    pub fn new() -> (t: Self)
        ensures
            t@.tasks == Seq::<TaskView>::empty(),
            t@.next_id == 1,
            t@.wf(),
    {
        let t = TaskTree { tasks: Vec::new(), next_id: 1 };
        proof {
            let rank = |id: i64| 0nat;
            assert(t@.ranked_by(rank));
        }
        t
    }

    /// The task with id `id`, if any.
    pub fn get_task(&self, id: i64) -> (r: Option<&Task>)
        requires
            self@.wf(),
        ensures
            r is Some <==> self@.has(id),
            r matches Some(t) ==> t@ == self@.get(id),
    {
        match self.find_index(id) {
            Some(i) => Some(&self.tasks[i]),
            None => None,
        }
    }

    /// Mutable access to the task with id `id`, if any.
    pub fn get_task_mut(&mut self, id: i64) -> (r: Option<&mut Task>)
        requires
            old(self)@.wf(),
        ensures
            r is Some <==> old(self)@.has(id),
            r matches Some(t) ==> t@ == old(self)@.get(id) && final(self)@ == (TreeModel {
                tasks: old(self)@.tasks.update(old(self)@.index_of(id), final(t)@),
                next_id: old(self)@.next_id,
            }),
            r is None ==> final(self)@ == old(self)@,
    {
        match self.find_index(id) {
            Some(i) => {
                proof {
                    lemma_update_view(self.tasks@, i as int);
                }
                Some(&mut self.tasks[i])
            },
            None => None,
        }
    }


    /// Whether `child_id` is `parent_id` or one of its ancestors, that is, whether making
    /// `child_id` the parent's child would close a loop of parent links.
    pub fn would_create_cycle(&self, parent_id: i64, child_id: i64) -> (r: bool)
        requires
            self@.wf(),
        ensures
            r == self@.on_chain(parent_id, child_id),
    {
        let ghost rank = choose|rank: spec_fn(i64) -> nat| self@.ranked_by(rank);
        let mut current = parent_id;
        loop
            invariant
                self@.wf(),
                self@.ranked_by(rank),
                self@.on_chain(parent_id, child_id) == self@.on_chain(current, child_id),
            decreases rank(current),
        {
            proof {
                lemma_on_chain_step(self@, current, child_id);
            }
            if current == child_id {
                return true;
            }
            match self.find_index(current) {
                Some(i) => {
                    proof {
                        lemma_parent_at(self@, i as int);
                        assert(self@.tasks[i as int] == self.tasks@[i as int]@);
                    }
                    match self.tasks[i].parent_id {
                        Some(p) => {
                            proof {
                                assert(self@.parent_of(current) == Some(p));
                            }
                            current = p;
                        },
                        None => {
                            return false;
                        },
                    }
                },
                None => {
                    return false;
                },
            }
        }
    }

    /// The chain of ids from `task_id` up through its ancestors, ending at a task without
    /// parent or at an id that no task has.
    pub fn path_to_root(&self, task_id: i64) -> (path: Vec<i64>)
        requires
            self@.wf(),
        ensures
            path@.len() >= 1,
            path@[0] == task_id,
            forall|k: int| 0 <= k < path@.len() - 1 ==> self@.parent_of(#[trigger] path@[k]) == Some(path@[k + 1]),
            self@.parent_of(path@.last()) is None,
    {
        let ghost rank = choose|rank: spec_fn(i64) -> nat| self@.ranked_by(rank);
        let mut path: Vec<i64> = Vec::new();
        let mut current = task_id;
        path.push(current);
        loop
            invariant
                self@.wf(),
                self@.ranked_by(rank),
                path@.len() >= 1,
                path@[0] == task_id,
                path@.last() == current,
                forall|k: int| 0 <= k < path@.len() - 1 ==> self@.parent_of(#[trigger] path@[k]) == Some(path@[k + 1]),
            decreases rank(current),
        {
            match self.find_index(current) {
                Some(i) => {
                    proof {
                        lemma_parent_at(self@, i as int);
                        assert(self@.tasks[i as int] == self.tasks@[i as int]@);
                    }
                    match self.tasks[i].parent_id {
                        Some(p) => {
                            proof {
                                assert(self@.parent_of(current) == Some(p));
                            }
                            current = p;
                            path.push(current);
                        },
                        None => {
                            return path;
                        },
                    }
                },
                None => {
                    return path;
                },
            }
        }
    }


    /// The tasks whose parent link equals `parent`, in ascending order of id.
    fn tasks_with_parent(&self, parent: Option<i64>) -> (r: Vec<&Task>)
        ensures
            ref_views(r@) == with_parent(self@.tasks, parent),
    {
        let ghost pred = |t: TaskView| t.parent_id == parent;
        let mut r: Vec<&Task> = Vec::new();
        let mut i: usize = 0;
        while i < self.tasks.len()
            invariant
                i <= self.tasks.len(),
                ref_views(r@) == self@.tasks.take(i as int).filter(pred),
                pred == (|t: TaskView| t.parent_id == parent),
            decreases self.tasks.len() - i,
        {
            proof {
                lemma_filter_take_step(self@.tasks, pred, i as int);
                assert(self@.tasks[i as int] == self.tasks@[i as int]@);
            }
            let t = &self.tasks[i];
            let ghost before = r@;
            if same_link(t.parent_id, parent) {
                r.push(t);
                proof {
                    assert(pred(self@.tasks[i as int]));
                    assert(ref_views(r@) =~= ref_views(before).push(t@));
                }
            } else {
                assert(!pred(self@.tasks[i as int]));
            }
            i += 1;
        }
        proof {
            assert(self@.tasks.take(self@.tasks.len() as int) =~= self@.tasks);
        }
        r
    }

    /// The direct children of `parent_id`, in ascending order of id.
    pub fn children_of(&self, parent_id: i64) -> (r: Vec<&Task>)
        ensures
            ref_views(r@) == with_parent(self@.tasks, Some(parent_id)),
    {
        self.tasks_with_parent(Some(parent_id))
    }

    /// The tasks without parent, in ascending order of id.
    pub fn root_tasks(&self) -> (r: Vec<&Task>)
        ensures
            ref_views(r@) == with_parent(self@.tasks, None),
    {
        self.tasks_with_parent(None)
    }

    /// Every task, in ascending order of id.
    pub fn all_tasks(&self) -> (r: Vec<&Task>)
        ensures
            ref_views(r@) == self@.tasks,
    {
        let mut r: Vec<&Task> = Vec::new();
        let mut i: usize = 0;
        while i < self.tasks.len()
            invariant
                i <= self.tasks.len(),
                ref_views(r@) == self@.tasks.take(i as int),
            decreases self.tasks.len() - i,
        {
            let ghost before = r@;
            r.push(&self.tasks[i]);
            proof {
                assert(ref_views(r@) =~= ref_views(before).push(self.tasks@[i as int]@));
                assert(self@.tasks.take(i + 1) =~= self@.tasks.take(i as int).push(self@.tasks[i as int]));
            }
            i += 1;
        }
        proof {
            assert(self@.tasks.take(self@.tasks.len() as int) =~= self@.tasks);
        }
        r
    }

    /// The ids of all proper descendants of `task_id`, in ascending order.
    pub fn descendants(&self, task_id: i64) -> (r: Vec<i64>)
        requires
            self@.wf(),
        ensures
            r@ == self@.descendant_ids(task_id),
    {
        let ghost pred = |t: TaskView| self@.is_descendant(t.id, task_id);
        let mut r: Vec<i64> = Vec::new();
        let mut i: usize = 0;
        while i < self.tasks.len()
            invariant
                i <= self.tasks.len(),
                self@.wf(),
                r@ == ids_of(self@.tasks.take(i as int).filter(pred)),
                pred == (|t: TaskView| self@.is_descendant(t.id, task_id)),
            decreases self.tasks.len() - i,
        {
            proof {
                lemma_filter_take_step(self@.tasks, pred, i as int);
                assert(self@.tasks[i as int] == self.tasks@[i as int]@);
            }
            let id = self.tasks[i].id;
            let ghost before = self@.tasks.take(i as int).filter(pred);
            if id != task_id && self.would_create_cycle(id, task_id) {
                r.push(id);
                proof {
                    assert(pred(self@.tasks[i as int]));
                    assert(ids_of(before.push(self@.tasks[i as int])) =~= ids_of(before).push(id));
                }
            } else {
                assert(!pred(self@.tasks[i as int]));
            }
            i += 1;
        }
        proof {
            assert(self@.tasks.take(self@.tasks.len() as int) =~= self@.tasks);
        }
        r
    }


    /// Marks the task `id` as archived.
    pub fn archive_task(&mut self, id: i64) -> (r: Result<(), TreeError>)
        requires
            old(self)@.wf(),
        ensures
            r == old(self)@.found(id),
            r is Ok ==> final(self)@ == old(self)@.replace(
                id,
                TaskView { is_archived: true, ..old(self)@.get(id) },
            ),
            r is Err ==> final(self)@ == old(self)@,
            final(self)@.wf(),
    {
        self.set_archived(id, true)
    }

    /// Marks the task `id` as not archived.
    pub fn unarchive_task(&mut self, id: i64) -> (r: Result<(), TreeError>)
        requires
            old(self)@.wf(),
        ensures
            r == old(self)@.found(id),
            r is Ok ==> final(self)@ == old(self)@.replace(
                id,
                TaskView { is_archived: false, ..old(self)@.get(id) },
            ),
            r is Err ==> final(self)@ == old(self)@,
            final(self)@.wf(),
    {
        self.set_archived(id, false)
    }

    fn set_archived(&mut self, id: i64, archived: bool) -> (r: Result<(), TreeError>)
        requires
            old(self)@.wf(),
        ensures
            r == old(self)@.found(id),
            r is Ok ==> final(self)@ == old(self)@.replace(
                id,
                TaskView { is_archived: archived, ..old(self)@.get(id) },
            ),
            r is Err ==> final(self)@ == old(self)@,
            final(self)@.wf(),
    {
        match self.find_index(id) {
            Some(i) => {
                let ghost before = self@;
                self.tasks[i].is_archived = archived;
                proof {
                    assert(self@.tasks =~= before.tasks.update(
                        i as int,
                        TaskView { is_archived: archived, ..before.get(id) },
                    ));
                    lemma_same_links(before, self@);
                }
                Ok(())
            },
            None => Err(TreeError::NotFound(id)),
        }
    }

    /// Adds `additional_secs` to the time recorded on the task `task_id` itself.
    pub fn update_duration(&mut self, task_id: i64, additional_secs: u64) -> (r: Result<(), TreeError>)
        requires
            old(self)@.wf(),
            old(self)@.has(task_id) ==> old(self)@.get(task_id).total_duration_secs + additional_secs
                <= u64::MAX,
        ensures
            r == old(self)@.found(task_id),
            r is Ok ==> final(self)@ == old(self)@.replace(
                task_id,
                TaskView {
                    total_duration_secs: (old(self)@.get(task_id).total_duration_secs
                        + additional_secs) as u64,
                    ..old(self)@.get(task_id)
                },
            ),
            r is Err ==> final(self)@ == old(self)@,
            final(self)@.wf(),
    {
        match self.find_index(task_id) {
            Some(i) => {
                let ghost before = self@;
                proof {
                    assert(before.tasks[i as int] == self.tasks@[i as int]@);
                }
                self.tasks[i].total_duration_secs = self.tasks[i].total_duration_secs + additional_secs;
                proof {
                    assert(self@.tasks =~= before.tasks.update(
                        i as int,
                        TaskView {
                            total_duration_secs: (before.get(task_id).total_duration_secs
                                + additional_secs) as u64,
                            ..before.get(task_id)
                        },
                    ));
                    lemma_same_links(before, self@);
                }
                Ok(())
            },
            None => Err(TreeError::NotFound(task_id)),
        }
    }


    /// The time recorded on `task_id` and all of its descendants together.
    pub fn cumulative_duration(&self, task_id: i64) -> (r: Result<u64, TreeError>)
        requires
            self@.wf(),
            self@.has(task_id) ==> self@.subtree_total(task_id) <= u64::MAX,
        ensures
            !self@.has(task_id) ==> r == Err::<u64, TreeError>(TreeError::NotFound(task_id)),
            self@.has(task_id) ==> r == Ok::<u64, TreeError>(self@.subtree_total(task_id) as u64),
    {
        if self.find_index(task_id).is_none() {
            return Err(TreeError::NotFound(task_id));
        }
        let ghost pred = |t: TaskView| self@.on_chain(t.id, task_id);
        let mut total: u64 = 0;
        let mut i: usize = 0;
        while i < self.tasks.len()
            invariant
                i <= self.tasks.len(),
                self@.wf(),
                self@.subtree_total(task_id) <= u64::MAX,
                pred == (|t: TaskView| self@.on_chain(t.id, task_id)),
                total == sum_totals(self@.tasks.take(i as int).filter(pred)),
            decreases self.tasks.len() - i,
        {
            proof {
                lemma_filter_take_step(self@.tasks, pred, i as int);
                lemma_sum_prefix_le(self@.tasks, pred, i + 1);
                assert(self@.tasks[i as int] == self.tasks@[i as int]@);
            }
            let ghost before = self@.tasks.take(i as int).filter(pred);
            if self.would_create_cycle(self.tasks[i].id, task_id) {
                proof {
                    assert(before.push(self@.tasks[i as int]).drop_last() =~= before);
                }
                total = total + self.tasks[i].total_duration_secs;
            }
            i += 1;
        }
        proof {
            assert(self@.tasks.take(self@.tasks.len() as int) =~= self@.tasks);
        }
        Ok(total)
    }


    /// Whether a task other than `except` is named `name` under the parent link `parent`.
    fn has_name_clash(&self, name: &String, parent: Option<i64>, except: Option<i64>) -> (r: bool)
        ensures
            r == self@.name_clash(name@, parent, except),
    {
        let mut i: usize = 0;
        while i < self.tasks.len()
            invariant
                i <= self.tasks.len(),
                forall|k: int|
                    0 <= k < i ==> !(#[trigger] self@.tasks[k].name == name@ && self@.tasks[k].parent_id
                        == parent && except != Some(self@.tasks[k].id)),
            decreases self.tasks.len() - i,
        {
            proof {
                assert(self@.tasks[i as int] == self.tasks@[i as int]@);
            }
            let t = &self.tasks[i];
            if t.name == *name && same_link(t.parent_id, parent) && !same_link(except, Some(t.id)) {
                assert(self@.tasks[i as int].name == name@);
                return true;
            }
            i += 1;
        }
        false
    }

    /// Adds a task named `name` (without surrounding white space) under `parent_id`, or at the
    /// top when `parent_id` is `None`, and returns its id.
    pub fn add_task(&mut self, parent_id: Option<i64>, name: &str, is_project: bool, is_payable: bool) -> (r: Result<i64, TreeError>)
        requires
            old(self)@.wf(),
            old(self)@.next_id < i64::MAX,
        ensures
            r == old(self)@.add_outcome(parent_id, trimmed(name@)),
            r is Ok ==> final(self)@ == old(self)@.with_new_task(
                parent_id,
                trimmed(name@),
                is_project,
                is_payable,
            ),
            r is Err ==> final(self)@ == old(self)@,
            final(self)@.wf(),
            old(self)@.sibling_names_distinct() ==> final(self)@.sibling_names_distinct(),
    {
        let name = trim(name);
        if name.is_empty() {
            return Err(TreeError::DuplicateName);
        }
        let name: String = name.to_owned();
        if self.has_name_clash(&name, parent_id, None) {
            return Err(TreeError::DuplicateName);
        }
        if let Some(pid) = parent_id {
            if self.find_index(pid).is_none() {
                return Err(TreeError::InvalidParent);
            }
            if self.would_create_cycle(pid, self.next_id) {
                return Err(TreeError::CyclicParent);
            }
        }
        let ghost before = self@;
        let id = self.next_id;
        self.next_id = self.next_id + 1;
        let task = Task {
            id,
            parent_id,
            name,
            is_project,
            is_payable,
            is_archived: false,
            total_duration_secs: 0,
        };
        self.tasks.push(task);
        proof {
            assert(self@.tasks =~= before.with_new_task(parent_id, name@, is_project, is_payable).tasks);
            lemma_add_keeps_wf(before, parent_id, name@, is_project, is_payable);
        }
        Ok(id)
    }


    /// Renames the task `id` to `new_name` without surrounding white space.
    pub fn rename_task(&mut self, id: i64, new_name: &str) -> (r: Result<(), TreeError>)
        requires
            old(self)@.wf(),
        ensures
            r == old(self)@.rename_outcome(id, trimmed(new_name@)),
            r is Ok ==> final(self)@ == old(self)@.replace(
                id,
                TaskView { name: trimmed(new_name@), ..old(self)@.get(id) },
            ),
            r is Err ==> final(self)@ == old(self)@,
            final(self)@.wf(),
            old(self)@.sibling_names_distinct() ==> final(self)@.sibling_names_distinct(),
    {
        let new_name = trim(new_name);
        if new_name.is_empty() {
            return Err(TreeError::DuplicateName);
        }
        let i = match self.find_index(id) {
            Some(i) => i,
            None => {
                return Err(TreeError::NotFound(id));
            },
        };
        proof {
            assert(self@.tasks[i as int] == self.tasks@[i as int]@);
        }
        let parent = self.tasks[i].parent_id;
        let name: String = new_name.to_owned();
        if self.has_name_clash(&name, parent, Some(id)) {
            return Err(TreeError::DuplicateName);
        }
        let ghost before = self@;
        self.tasks[i].name = name;
        proof {
            assert(self@.tasks =~= before.tasks.update(
                i as int,
                TaskView { name: name@, ..before.get(id) },
            ));
            lemma_same_links(before, self@);
            if before.sibling_names_distinct() {
                let m2 = self@;
                assert forall|a: int, b: int|
                    0 <= a < m2.tasks.len() && 0 <= b < m2.tasks.len() && a != b
                        && #[trigger] m2.tasks[a].parent_id == #[trigger] m2.tasks[b].parent_id
                        implies m2.tasks[a].name != m2.tasks[b].name by {
                    if a == i && m2.tasks[a].name == m2.tasks[b].name {
                        assert(before.tasks[b].name == name@);
                        assert(before.tasks[b].id != id);
                        assert(before.name_clash(name@, parent, Some(id)));
                    } else if b == i && m2.tasks[a].name == m2.tasks[b].name {
                        assert(before.tasks[a].name == name@);
                        assert(before.tasks[a].id != id);
                        assert(before.name_clash(name@, parent, Some(id)));
                    }
                }
            }
        }
        Ok(())
    }

    /// Removes the task `id` together with all of its descendants.
    pub fn remove_task(&mut self, id: i64) -> (r: Result<(), TreeError>)
        requires
            old(self)@.wf(),
        ensures
            r == old(self)@.found(id),
            r is Ok ==> final(self)@ == old(self)@.without_subtree(id),
            r is Err ==> final(self)@ == old(self)@,
            final(self)@.wf(),
            old(self)@.sibling_names_distinct() ==> final(self)@.sibling_names_distinct(),
    {
        if self.find_index(id).is_none() {
            return Err(TreeError::NotFound(id));
        }
        let ghost before = self@;
        let ghost pred = |t: TaskView| !before.on_chain(t.id, id);
        let n = self.tasks.len();
        // Which tasks stay: those whose ancestors do not include `id`.
        let mut keep: Vec<bool> = Vec::new();
        let mut k: usize = 0;
        while k < n
            invariant
                k <= n,
                n == self.tasks.len(),
                self@ == before,
                before.wf(),
                keep@.len() == k,
                pred == (|t: TaskView| !before.on_chain(t.id, id)),
                forall|j: int| 0 <= j < k ==> keep@[j] == pred(#[trigger] before.tasks[j]),
            decreases n - k,
        {
            proof {
                assert(before.tasks[k as int] == self.tasks@[k as int]@);
            }
            let gone = self.would_create_cycle(self.tasks[k].id, id);
            keep.push(!gone);
            k += 1;
        }
        let mut old_tasks: Vec<Task> = Vec::new();
        std::mem::swap(&mut old_tasks, &mut self.tasks);
        let ghost orig = old_tasks@;
        let mut j: usize = 0;
        while j < n
            invariant
                j <= n,
                n == orig.len(),
                keep@.len() == n,
                views(orig) == before.tasks,
                old_tasks@ == orig.skip(j as int),
                self.next_id == before.next_id,
                before.wf(),
                pred == (|t: TaskView| !before.on_chain(t.id, id)),
                forall|q: int| 0 <= q < n ==> keep@[q] == pred(#[trigger] before.tasks[q]),
                views(self.tasks@) == before.tasks.take(j as int).filter(pred),
                forall|a: int, b: int|
                    0 <= a < b < self.tasks@.len() ==> #[trigger] self.tasks@[a].id < #[trigger] self.tasks@[b].id,
                forall|q: int|
                    0 <= q < self.tasks@.len() ==> exists|p: int|
                        0 <= p < j && #[trigger] self.tasks@[q]@ == #[trigger] before.tasks[p],
            decreases n - j,
        {
            proof {
                lemma_filter_take_step(before.tasks, pred, j as int);
                assert(orig.skip(j as int)[0] == orig[j as int]);
            }
            let t = old_tasks.remove(0);
            proof {
                assert(old_tasks@ =~= orig.skip(j + 1));
                assert(t@ == before.tasks[j as int]);
            }
            if keep[j] {
                let ghost prev = self.tasks@;
                proof {
                    assert forall|q: int| 0 <= q < prev.len() implies #[trigger] prev[q].id < t.id by {
                        let p = choose|p: int| 0 <= p < j && prev[q]@ == before.tasks[p];
                        assert(before.tasks[p].id < before.tasks[j as int].id);
                    }
                }
                self.tasks.push(t);
                proof {
                    assert(views(self.tasks@) =~= views(prev).push(t@));
                    assert forall|q: int| 0 <= q < self.tasks@.len() implies exists|p: int|
                        0 <= p < j + 1 && #[trigger] self.tasks@[q]@ == #[trigger] before.tasks[p] by {
                        if q < prev.len() {
                            assert(self.tasks@[q] == prev[q]);
                        } else {
                            assert(self.tasks@[q]@ == before.tasks[j as int]);
                        }
                    }
                }
            }
            j += 1;
        }
        proof {
            assert(before.tasks.take(n as int) =~= before.tasks);
            let m2 = self@;
            assert forall|q: int| 0 <= q < m2.tasks.len() implies before.tasks.contains(#[trigger] m2.tasks[q]) by {
                let p = choose|p: int| 0 <= p < n && self.tasks@[q]@ == before.tasks[p];
                assert(before.tasks[p] == m2.tasks[q]);
            }
            lemma_subset_keeps_wf(before, m2);
        }
        Ok(())
    }

    /// Number of tasks.
    pub fn len(&self) -> (r: usize)
        ensures
            r == self@.tasks.len(),
    {
        self.tasks.len()
    }

    /// Whether the tree holds no task.
    pub fn is_empty(&self) -> (r: bool)
        ensures
            r == (self@.tasks.len() == 0),
    {
        self.tasks.len() == 0
    }
}

impl Default for TaskTree {
    fn default() -> (t: Self)
        ensures
            t@.tasks == Seq::<TaskView>::empty(),
            t@.next_id == 1,
            t@.wf(),
    {
        Self::new()
    }
}

} // verus!
