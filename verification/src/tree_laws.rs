use vstd::prelude::*;

use crate::text::trimmed;
use crate::tree::{
    lemma_filter_take_step, lemma_index_of, lemma_on_chain_step, sum_totals, with_parent,
    TaskView, TreeError, TreeModel,
};

verus! {

broadcast use vstd::seq_lib::group_filter_ensures;

/// Filters by predicates that agree on every element give the same sequence.
proof fn lemma_filter_ext(s: Seq<TaskView>, p: spec_fn(TaskView) -> bool, q: spec_fn(TaskView) -> bool)
    requires
        forall|i: int| 0 <= i < s.len() ==> p(#[trigger] s[i]) == q(s[i]),
    ensures
        s.filter(p) == s.filter(q),
    decreases s.len(),
{
    reveal(Seq::filter);
    if s.len() > 0 {
        let r = s.drop_last();
        assert forall|i: int| 0 <= i < r.len() implies p(#[trigger] r[i]) == q(r[i]) by {
            assert(r[i] == s[i]);
        }
        lemma_filter_ext(r, p, q);
        assert(p(s[s.len() - 1]) == q(s[s.len() - 1]));
    }
}

/// The total over a filter by a disjunction of predicates that never hold together is the
/// sum of the totals over each.
proof fn lemma_sum_filter_or(s: Seq<TaskView>, p: spec_fn(TaskView) -> bool, q: spec_fn(TaskView) -> bool)
    requires
        forall|i: int| 0 <= i < s.len() ==> !(p(#[trigger] s[i]) && q(s[i])),
    ensures
        sum_totals(s.filter(|t: TaskView| p(t) || q(t))) == sum_totals(s.filter(p)) + sum_totals(
            s.filter(q),
        ),
    decreases s.len(),
{
    reveal(Seq::filter);
    let pq = |t: TaskView| p(t) || q(t);
    if s.len() > 0 {
        let r = s.drop_last();
        assert forall|i: int| 0 <= i < r.len() implies !(p(#[trigger] r[i]) && q(r[i])) by {
            assert(r[i] == s[i]);
        }
        lemma_sum_filter_or(r, p, q);
        let x = s.last();
        assert(!(p(s[s.len() - 1]) && q(s[s.len() - 1])));
        if p(x) {
            assert(r.filter(p).push(x).drop_last() =~= r.filter(p));
            assert(r.filter(pq).push(x).drop_last() =~= r.filter(pq));
        } else if q(x) {
            assert(r.filter(q).push(x).drop_last() =~= r.filter(q));
            assert(r.filter(pq).push(x).drop_last() =~= r.filter(pq));
        }
    }
}

/// With ascending ids, filtering by "has id `id`" leaves only the task with that id.
proof fn lemma_sum_filter_single(m: TreeModel, id: i64)
    requires
        m.ids_ascending(),
        m.has(id),
    ensures
        sum_totals(m.tasks.filter(|t: TaskView| t.id == id)) == m.get(id).total_duration_secs,
{
    let k = m.index_of(id);
    lemma_index_of(m, k);
    lemma_sum_single_prefix(m, id, k, m.tasks.len() as int);
    assert(m.tasks.take(m.tasks.len() as int) =~= m.tasks);
}

proof fn lemma_sum_single_prefix(m: TreeModel, id: i64, k: int, j: int)
    requires
        m.ids_ascending(),
        0 <= k < m.tasks.len(),
        m.tasks[k].id == id,
        0 <= j <= m.tasks.len(),
    ensures
        sum_totals(m.tasks.take(j).filter(|t: TaskView| t.id == id)) == (if k < j {
            m.tasks[k].total_duration_secs as nat
        } else {
            0
        }),
    decreases j,
{
    let p = |t: TaskView| t.id == id;
    if j == 0 {
        assert(m.tasks.take(0).filter(p) =~= Seq::<TaskView>::empty()) by {
            reveal(Seq::filter);
        }
    } else {
        lemma_sum_single_prefix(m, id, k, j - 1);
        lemma_filter_take_step(m.tasks, p, j - 1);
        if p(m.tasks[j - 1]) {
            if j - 1 != k {
                if j - 1 < k {
                    assert(m.tasks[j - 1].id < m.tasks[k].id);
                } else {
                    assert(m.tasks[k].id < m.tasks[j - 1].id);
                }
            }
            assert(m.tasks.take(j - 1).filter(p).push(m.tasks[j - 1]).drop_last() =~= m.tasks.take(j - 1).filter(p));
        }
    }
}

/// Following parent links is transitive.
pub proof fn lemma_on_chain_trans(m: TreeModel, a: i64, b: i64, c: i64)
    requires
        m.on_chain(a, b),
        m.on_chain(b, c),
    ensures
        m.on_chain(a, c),
{
    let n = choose|n: nat| m.on_chain_within(a, b, n);
    lemma_on_chain_trans_within(m, a, b, c, n);
}

proof fn lemma_on_chain_trans_within(m: TreeModel, a: i64, b: i64, c: i64, n: nat)
    requires
        m.on_chain_within(a, b, n),
        m.on_chain(b, c),
    ensures
        m.on_chain(a, c),
    decreases n,
{
    if a != b {
        let p = m.parent_of(a).unwrap();
        lemma_on_chain_trans_within(m, p, b, c, (n - 1) as nat);
        lemma_on_chain_step(m, a, c);
    }
}

/// A rank that decreases along parent links never increases along a chain.
pub proof fn lemma_chain_rank(m: TreeModel, rank: spec_fn(i64) -> nat, a: i64, b: i64)
    requires
        m.ranked_by(rank),
        m.on_chain(a, b),
    ensures
        rank(b) <= rank(a),
{
    let n = choose|n: nat| m.on_chain_within(a, b, n);
    lemma_chain_rank_within(m, rank, a, b, n);
}

proof fn lemma_chain_rank_within(m: TreeModel, rank: spec_fn(i64) -> nat, a: i64, b: i64, n: nat)
    requires
        m.ranked_by(rank),
        m.on_chain_within(a, b, n),
    ensures
        rank(b) <= rank(a),
    decreases n,
{
    if a != b {
        let p = m.parent_of(a).unwrap();
        assert(m.parent_of(a) is Some);
        lemma_chain_rank_within(m, rank, p, b, (n - 1) as nat);
    }
}

/// A chain from `a` to a different `b` passes a task whose parent is `b`.
proof fn lemma_chain_last_step(m: TreeModel, a: i64, b: i64, n: nat) -> (x: i64)
    requires
        m.on_chain_within(a, b, n),
        a != b,
    ensures
        m.on_chain(a, x),
        m.parent_of(x) == Some(b),
    decreases n,
{
    let p = m.parent_of(a).unwrap();
    assert(m.on_chain_within(a, a, 0));
    if p == b {
        a
    } else {
        let x = lemma_chain_last_step(m, p, b, (n - 1) as nat);
        lemma_on_chain_step(m, a, x);
        x
    }
}

/// Two targets reached from the same start lie on one chain.
proof fn lemma_chain_comparable(m: TreeModel, t: i64, c1: i64, c2: i64, n1: nat, n2: nat)
    requires
        m.on_chain_within(t, c1, n1),
        m.on_chain_within(t, c2, n2),
    ensures
        m.on_chain(c1, c2) || m.on_chain(c2, c1),
    decreases n1,
{
    if t == c1 {
        assert(m.on_chain(c1, c2));
    } else if t == c2 {
        assert(m.on_chain(c2, c1));
    } else {
        let p = m.parent_of(t).unwrap();
        lemma_chain_comparable(m, p, c1, c2, (n1 - 1) as nat, (n2 - 1) as nat);
    }
}

/// Total of the subtrees of the tasks `cs`.
pub open spec fn subtrees_total(m: TreeModel, cs: Seq<TaskView>) -> nat
    decreases cs.len(),
{
    if cs.len() == 0 {
        0
    } else {
        subtrees_total(m, cs.drop_last()) + m.subtree_total(cs.last().id)
    }
}

/// Filtering a sequence with ascending ids keeps the ids ascending.
pub(crate) proof fn lemma_filter_ascending(s: Seq<TaskView>, p: spec_fn(TaskView) -> bool)
    requires
        forall|i: int, j: int| 0 <= i < j < s.len() ==> #[trigger] s[i].id < #[trigger] s[j].id,
    ensures
        forall|i: int, j: int|
            0 <= i < j < s.filter(p).len() ==> #[trigger] s.filter(p)[i].id < #[trigger] s.filter(p)[j].id,
    decreases s.len(),
{
    reveal(Seq::filter);
    if s.len() > 0 {
        let r = s.drop_last();
        assert forall|i: int, j: int| 0 <= i < j < r.len() implies #[trigger] r[i].id < #[trigger] r[j].id by {
            assert(s[i].id < s[j].id);
        }
        lemma_filter_ascending(r, p);
        let x = s.last();
        if p(x) {
            let f = r.filter(p);
            assert forall|i: int| 0 <= i < f.len() implies #[trigger] f[i].id < x.id by {
                assert(f.contains(f[i]));
                r.lemma_filter_contains_rev(p, f[i]);
                let k = choose|k: int| 0 <= k < r.len() && r[k] == f[i];
                assert(s[k].id < s[s.len() - 1].id);
            }
        }
    }
}

/// `t` lies in the subtree of one of the first `j` tasks of `cs`.
pub open spec fn in_first_subtrees(m: TreeModel, cs: Seq<TaskView>, j: int, t: TaskView) -> bool {
    exists|k: int| 0 <= k < j && #[trigger] m.on_chain(t.id, cs[k].id)
}

/// The subtrees of distinct children of one task are apart, so their totals add up.
proof fn lemma_first_subtrees(m: TreeModel, rank: spec_fn(i64) -> nat, root: i64, cs: Seq<TaskView>, j: int)
    requires
        0 <= j <= cs.len(),
        m.wf(),
        m.ranked_by(rank),
        forall|k: int| 0 <= k < cs.len() ==> m.parent_of(#[trigger] cs[k].id) == Some(root),
        forall|a: int, b: int| 0 <= a < b < cs.len() ==> #[trigger] cs[a].id < #[trigger] cs[b].id,
    ensures
        sum_totals(m.tasks.filter(|t: TaskView| in_first_subtrees(m, cs, j, t))) == subtrees_total(m, cs.take(j)),
    decreases j,
{
    let below = |t: TaskView| in_first_subtrees(m, cs, j, t);
    if j == 0 {
        assert forall|i: int| 0 <= i < m.tasks.len() implies below(#[trigger] m.tasks[i]) == false by {}
        lemma_filter_ext(m.tasks, below, |t: TaskView| false);
        lemma_filter_none(m.tasks);
        assert(cs.take(0) =~= Seq::<TaskView>::empty());
    } else {
        let jj = j - 1;
        lemma_first_subtrees(m, rank, root, cs, jj);
        let before = |t: TaskView| in_first_subtrees(m, cs, jj, t);
        let cj = cs[jj].id;
        let pj = |t: TaskView| m.on_chain(t.id, cj);
        assert forall|i: int| 0 <= i < m.tasks.len() implies !(before(#[trigger] m.tasks[i]) && pj(m.tasks[i])) by {
            let t = m.tasks[i];
            if before(t) && pj(t) {
                let k = choose|k: int| 0 <= k < jj && #[trigger] m.on_chain(t.id, cs[k].id);
                let ck = cs[k].id;
                assert(ck < cj);
                let n1 = choose|n: nat| m.on_chain_within(t.id, ck, n);
                let n2 = choose|n: nat| m.on_chain_within(t.id, cj, n);
                lemma_chain_comparable(m, t.id, ck, cj, n1, n2);
                assert(m.parent_of(cj) == Some(root));
                assert(m.parent_of(ck) == Some(root));
                if m.on_chain(ck, cj) {
                    lemma_on_chain_step(m, ck, cj);
                    lemma_chain_rank(m, rank, root, cj);
                } else {
                    lemma_on_chain_step(m, cj, ck);
                    lemma_chain_rank(m, rank, root, ck);
                }
            }
        }
        lemma_sum_filter_or(m.tasks, before, pj);
        let both = |t: TaskView| before(t) || pj(t);
        assert forall|i: int| 0 <= i < m.tasks.len() implies below(#[trigger] m.tasks[i]) == both(m.tasks[i]) by {
            let t = m.tasks[i];
            if below(t) {
                let k = choose|k: int| 0 <= k < j && #[trigger] m.on_chain(t.id, cs[k].id);
                if k < jj {
                    assert(before(t));
                }
            }
            if before(t) {
                let k = choose|k: int| 0 <= k < jj && #[trigger] m.on_chain(t.id, cs[k].id);
                assert(m.on_chain(t.id, cs[k].id));
            }
            if pj(t) {
                assert(m.on_chain(t.id, cs[jj].id));
            }
        }
        lemma_filter_ext(m.tasks, below, both);
        assert(cs.take(j).drop_last() =~= cs.take(jj));
    }
}

/// Filtering by a predicate that never holds leaves nothing.
proof fn lemma_filter_none(s: Seq<TaskView>)
    ensures
        sum_totals(s.filter(|t: TaskView| false)) == 0,
    decreases s.len(),
{
    reveal(Seq::filter);
    if s.len() > 0 {
        lemma_filter_none(s.drop_last());
    }
}

/// The time on a task and all its descendants is its own time plus, for each child, the time
/// on that child and all of the child's descendants: `cumulative_duration(p)` equals the own
/// time of `p` plus the sum of `cumulative_duration(c)` over the children `c` of `p`.
pub proof fn law_cumulative_is_own_plus_children(m: TreeModel, root: i64)
    requires
        m.wf(),
        m.has(root),
    ensures
        m.subtree_total(root) == m.get(root).total_duration_secs + subtrees_total(
            m,
            with_parent(m.tasks, Some(root)),
        ),
{
    let rank = choose|rank: spec_fn(i64) -> nat| m.ranked_by(rank);
    let cs = with_parent(m.tasks, Some(root));
    let pr = |t: TaskView| t.parent_id == Some(root);
    assert(cs == m.tasks.filter(pr));
    lemma_filter_ascending(m.tasks, pr);
    // Every listed child is a task of `m` whose parent is `root`.
    assert forall|k: int| 0 <= k < cs.len() implies m.parent_of(#[trigger] cs[k].id) == Some(root) by {
        assert(cs.contains(cs[k]));
        m.tasks.lemma_filter_contains_rev(pr, cs[k]);
        let i = choose|i: int| 0 <= i < m.tasks.len() && m.tasks[i] == cs[k];
        lemma_index_of(m, i);
        assert(pr(cs[k]));
    }
    let in_root = |t: TaskView| m.on_chain(t.id, root);
    let is_root = |t: TaskView| t.id == root;
    let below = |t: TaskView| in_first_subtrees(m, cs, cs.len() as int, t);
    lemma_first_subtrees(m, rank, root, cs, cs.len() as int);
    assert(cs.take(cs.len() as int) =~= cs);
    // The subtree of `root` is `root` itself and the subtrees of its children, apart.
    assert forall|i: int| 0 <= i < m.tasks.len() implies !(is_root(#[trigger] m.tasks[i]) && below(m.tasks[i])) by {
        let t = m.tasks[i];
        if is_root(t) && below(t) {
            let k = choose|k: int| 0 <= k < cs.len() && #[trigger] m.on_chain(t.id, cs[k].id);
            lemma_chain_rank(m, rank, root, cs[k].id);
            assert(m.parent_of(cs[k].id) is Some);
        }
    }
    lemma_sum_filter_or(m.tasks, is_root, below);
    let split = |t: TaskView| is_root(t) || below(t);
    assert forall|i: int| 0 <= i < m.tasks.len() implies in_root(#[trigger] m.tasks[i]) == split(m.tasks[i]) by {
        let t = m.tasks[i];
        lemma_index_of(m, i);
        if in_root(t) && t.id != root {
            let n = choose|n: nat| m.on_chain_within(t.id, root, n);
            let x = lemma_chain_last_step(m, t.id, root, n);
            assert(m.parent_of(x) is Some);
            let ix = m.index_of(x);
            lemma_index_of(m, ix);
            assert(pr(m.tasks[ix]));
            m.tasks.lemma_filter_contains(pr, ix);
            assert(cs.contains(m.tasks[ix]));
            let k = choose|k: int| 0 <= k < cs.len() && cs[k] == m.tasks[ix];
            assert(m.on_chain(t.id, cs[k].id));
        }
        if is_root(t) {
            assert(m.on_chain_within(t.id, root, 0));
        }
        if below(t) {
            let k = choose|k: int| 0 <= k < cs.len() && #[trigger] m.on_chain(t.id, cs[k].id);
            lemma_on_chain_step(m, cs[k].id, root);
            assert(m.on_chain_within(root, root, 0));
            lemma_on_chain_trans(m, t.id, cs[k].id, root);
        }
    }
    lemma_filter_ext(m.tasks, in_root, split);
    lemma_sum_filter_single(m, root);
}


/// Filtering by a predicate that every element passes changes nothing.
proof fn lemma_filter_all(s: Seq<TaskView>, p: spec_fn(TaskView) -> bool)
    requires
        forall|i: int| 0 <= i < s.len() ==> p(#[trigger] s[i]),
    ensures
        s.filter(p) == s,
    decreases s.len(),
{
    reveal(Seq::filter);
    if s.len() > 0 {
        let r = s.drop_last();
        assert forall|i: int| 0 <= i < r.len() implies p(#[trigger] r[i]) by {
            assert(r[i] == s[i]);
        }
        lemma_filter_all(r, p);
        assert(p(s[s.len() - 1]));
        assert(r.push(s.last()) =~= s);
    }
}

/// Removing a task right after adding it gives back the tasks there were before: a
/// successful `add_task` followed by `remove_task` of the returned id.
pub proof fn law_remove_undoes_add(
    m: TreeModel,
    parent_id: Option<i64>,
    name: Seq<char>,
    is_project: bool,
    is_payable: bool,
)
    requires
        m.wf(),
        m.next_id < i64::MAX,
        m.add_outcome(parent_id, name) is Ok,
    ensures
        ({
            let added = m.with_new_task(parent_id, name, is_project, is_payable);
            &&& added.has(m.next_id)
            &&& added.without_subtree(m.next_id).tasks == m.tasks
        }),
{
    let added = m.with_new_task(parent_id, name, is_project, is_payable);
    let nid = m.next_id;
    let n = m.tasks.len();
    crate::tree::lemma_add_keeps_wf(m, parent_id, name, is_project, is_payable);
    assert(added.tasks[n as int].id == nid);
    let keep = |t: TaskView| !added.on_chain(t.id, nid);
    assert forall|i: int| 0 <= i < n implies keep(#[trigger] m.tasks[i]) by {
        assert(m.tasks[i].id < m.next_id);
        assert(added.tasks[i] == m.tasks[i]);
        assert(m.tasks[i].id < added.next_id);
        if added.on_chain(m.tasks[i].id, nid) {
            let k = choose|k: nat| added.on_chain_within(m.tasks[i].id, nid, k);
            lemma_chain_below_in_added(m, added, m.tasks[i].id, k, parent_id, name, is_project, is_payable);
        }
    }
    lemma_filter_all(m.tasks, keep);
    assert(added.on_chain_within(nid, nid, 0));
    assert(!keep(added.tasks[n as int]));
    reveal(Seq::filter);
    assert(added.tasks.drop_last() =~= m.tasks);
}

/// After adding a task, the chains of the older tasks still never reach the new id.
proof fn lemma_chain_below_in_added(
    m: TreeModel,
    added: TreeModel,
    x: i64,
    k: nat,
    parent_id: Option<i64>,
    name: Seq<char>,
    is_project: bool,
    is_payable: bool,
)
    requires
        m.wf(),
        added == m.with_new_task(parent_id, name, is_project, is_payable),
        added.ids_ascending(),
        x < m.next_id,
    ensures
        !added.on_chain_within(x, m.next_id, k),
    decreases k,
{
    let nid = m.next_id;
    let n = m.tasks.len();
    if k > 0 && added.parent_of(x) is Some {
        let i = added.index_of(x);
        lemma_index_of(added, i);
        if i == n {
            assert(added.tasks[i].id == nid);
        }
        assert(i < n);
        assert(added.tasks[i] == m.tasks[i]);
        assert(m.tasks[i].parent_id matches Some(q) ==> q < m.next_id);
        lemma_chain_below_in_added(m, added, added.parent_of(x).unwrap(), (k - 1) as nat, parent_id, name, is_project, is_payable);
    }
}

/// Renaming a task and then renaming it back to its former name is allowed and gives back
/// the tree, when sibling names are distinct as `add_task` and `rename_task` keep them.
pub proof fn law_rename_then_back(m: TreeModel, id: i64, name: Seq<char>)
    requires
        m.wf(),
        m.sibling_names_distinct(),
        m.rename_outcome(id, name) is Ok,
        m.get(id).name.len() > 0,
    ensures
        ({
            let former = m.get(id).name;
            let renamed = m.replace(id, TaskView { name: name, ..m.get(id) });
            &&& renamed.rename_outcome(id, former) is Ok
            &&& renamed.replace(id, TaskView { name: former, ..renamed.get(id) }) == m
        }),
{
    let i = m.index_of(id);
    let t = m.get(id);
    let former = t.name;
    let renamed = m.replace(id, TaskView { name: name, ..t });
    assert(m.tasks[i].id == id);
    assert(renamed.ids_ascending()) by {
        assert forall|a: int, b: int| 0 <= a < b < renamed.tasks.len() implies #[trigger] renamed.tasks[a].id
            < #[trigger] renamed.tasks[b].id by {
            assert(renamed.tasks[a].id == m.tasks[a].id);
            assert(renamed.tasks[b].id == m.tasks[b].id);
        }
    }
    lemma_index_of(renamed, i);
    assert(renamed.get(id) == TaskView { name: name, ..t });
    assert(!renamed.name_clash(former, t.parent_id, Some(id))) by {
        if renamed.name_clash(former, t.parent_id, Some(id)) {
            let j = choose|j: int|
                0 <= j < renamed.tasks.len() && #[trigger] renamed.tasks[j].name == former
                    && renamed.tasks[j].parent_id == t.parent_id && Some(id) != Some(renamed.tasks[j].id);
            assert(j != i);
            assert(renamed.tasks[j] == m.tasks[j]);
            assert(m.tasks[i].parent_id == m.tasks[j].parent_id);
        }
    }
    assert(renamed.replace(id, TaskView { name: former, ..renamed.get(id) }).tasks =~= m.tasks);
}

/// Models whose parent links agree link the same chains.
proof fn lemma_chain_same_links(m1: TreeModel, m2: TreeModel, a: i64, b: i64, n: nat)
    requires
        forall|id: i64| #[trigger] m2.parent_of(id) == m1.parent_of(id),
    ensures
        m2.on_chain_within(a, b, n) == m1.on_chain_within(a, b, n),
    decreases n,
{
    if n > 0 && m1.parent_of(a) is Some {
        lemma_chain_same_links(m1, m2, m1.parent_of(a).unwrap(), b, (n - 1) as nat);
    }
}

/// Replacing the task at position `k` by one that the filter treats alike changes the
/// filtered total of every prefix by the difference of their own durations.
proof fn lemma_sum_filter_update(s: Seq<TaskView>, p: spec_fn(TaskView) -> bool, k: int, x: TaskView, j: int)
    requires
        0 <= k < s.len(),
        p(x) == p(s[k]),
        0 <= j <= s.len(),
    ensures
        sum_totals(s.update(k, x).take(j).filter(p)) + (if k < j && p(s[k]) {
            s[k].total_duration_secs as int
        } else {
            0
        }) == sum_totals(s.take(j).filter(p)) + (if k < j && p(x) {
            x.total_duration_secs as int
        } else {
            0
        }),
    decreases j,
{
    let u = s.update(k, x);
    if j == 0 {
        assert(s.take(0).filter(p) =~= Seq::<TaskView>::empty()) by {
            reveal(Seq::filter);
        }
        assert(u.take(0).filter(p) =~= Seq::<TaskView>::empty()) by {
            reveal(Seq::filter);
        }
    } else {
        lemma_sum_filter_update(s, p, k, x, j - 1);
        lemma_filter_take_step(s, p, j - 1);
        lemma_filter_take_step(u, p, j - 1);
        let a = s.take(j - 1).filter(p);
        let b = u.take(j - 1).filter(p);
        if p(s[j - 1]) {
            assert(a.push(s[j - 1]).drop_last() =~= a);
        }
        if p(u[j - 1]) {
            assert(b.push(u[j - 1]).drop_last() =~= b);
        }
    }
}

/// Adding time to a task adds exactly that time to the cumulative duration of the task and
/// of each of its ancestors, and leaves every other cumulative duration as it was.
pub proof fn law_update_adds_to_ancestors(m: TreeModel, id: i64, add: u64, root: i64)
    requires
        m.wf(),
        m.has(id),
        m.get(id).total_duration_secs + add <= u64::MAX,
    ensures
        ({
            let updated = m.replace(
                id,
                TaskView { total_duration_secs: (m.get(id).total_duration_secs + add) as u64, ..m.get(id) },
            );
            updated.subtree_total(root) == m.subtree_total(root) + if m.on_chain(id, root) {
                add as nat
            } else {
                0
            }
        }),
{
    let k = m.index_of(id);
    let t = m.get(id);
    let x = TaskView { total_duration_secs: (t.total_duration_secs + add) as u64, ..t };
    let updated = m.replace(id, x);
    lemma_index_of(m, k);
    crate::tree::lemma_same_links(m, updated);
    let p = |v: TaskView| m.on_chain(v.id, root);
    let q = |v: TaskView| updated.on_chain(v.id, root);
    assert forall|v: TaskView| #[trigger] q(v) == p(v) by {
        if updated.on_chain(v.id, root) {
            let n = choose|n: nat| updated.on_chain_within(v.id, root, n);
            lemma_chain_same_links(m, updated, v.id, root, n);
        }
        if m.on_chain(v.id, root) {
            let n = choose|n: nat| m.on_chain_within(v.id, root, n);
            lemma_chain_same_links(m, updated, v.id, root, n);
        }
    }
    assert(q =~= p);
    lemma_sum_filter_update(m.tasks, p, k, x, m.tasks.len() as int);
    assert(m.tasks.take(m.tasks.len() as int) =~= m.tasks);
    assert(updated.tasks.take(m.tasks.len() as int) =~= updated.tasks);
}

/// The descendants of a task are listed in ascending order, so no id occurs twice; the task
/// itself is not among them; and a task without children has none.
pub proof fn law_descendants_shape(m: TreeModel, root: i64)
    requires
        m.wf(),
    ensures
        forall|i: int, j: int|
            0 <= i < j < m.descendant_ids(root).len() ==> #[trigger] m.descendant_ids(root)[i]
                < #[trigger] m.descendant_ids(root)[j],
        forall|i: int, j: int|
            0 <= i < m.descendant_ids(root).len() && 0 <= j < m.descendant_ids(root).len() && i != j
                ==> #[trigger] m.descendant_ids(root)[i] != #[trigger] m.descendant_ids(root)[j],
        !m.descendant_ids(root).contains(root),
        with_parent(m.tasks, Some(root)).len() == 0 ==> m.descendant_ids(root).len() == 0,
{
    let pred = |t: TaskView| m.is_descendant(t.id, root);
    let f = m.tasks.filter(pred);
    let d = m.descendant_ids(root);
    assert(d.len() == f.len());
    assert forall|k: int| 0 <= k < d.len() implies d[k] == #[trigger] f[k].id by {}
    lemma_filter_ascending(m.tasks, pred);
    assert forall|i: int, j: int| 0 <= i < j < d.len() implies #[trigger] d[i] < #[trigger] d[j] by {
        assert(d[i] == f[i].id && d[j] == f[j].id);
    }
    assert forall|i: int, j: int| 0 <= i < d.len() && 0 <= j < d.len() && i != j implies #[trigger] d[i]
        != #[trigger] d[j] by {
        assert(d[i] == f[i].id && d[j] == f[j].id);
        if i < j {
            assert(f[i].id < f[j].id);
        } else {
            assert(f[j].id < f[i].id);
        }
    }
    if d.contains(root) {
        let k = choose|k: int| 0 <= k < d.len() && d[k] == root;
        assert(d[k] == f[k].id);
        assert(pred(f[k]));
    }
    if d.len() > 0 {
        assert(d[0] == f[0].id);
        assert(pred(f[0]));
        let n = choose|n: nat| m.on_chain_within(f[0].id, root, n);
        let x = lemma_chain_last_step(m, f[0].id, root, n);
        let i = m.index_of(x);
        lemma_index_of(m, i);
        let cp = |t: TaskView| t.parent_id == Some(root);
        assert(cp(m.tasks[i]));
        m.tasks.lemma_filter_contains(cp, i);
        assert(with_parent(m.tasks, Some(root)).contains(m.tasks[i]));
    }
}

/// The cumulative duration of a task is its own time plus the own times of all its
/// descendants.
pub proof fn law_cumulative_is_own_plus_descendants(m: TreeModel, root: i64)
    requires
        m.wf(),
        m.has(root),
    ensures
        m.subtree_total(root) == m.get(root).total_duration_secs + sum_totals(
            m.tasks.filter(|t: TaskView| m.is_descendant(t.id, root)),
        ),
{
    let is_root = |t: TaskView| t.id == root;
    let desc = |t: TaskView| m.is_descendant(t.id, root);
    let either = |t: TaskView| is_root(t) || desc(t);
    let chain = |t: TaskView| m.on_chain(t.id, root);
    assert forall|i: int| 0 <= i < m.tasks.len() implies either(#[trigger] m.tasks[i]) == chain(m.tasks[i]) by {
        if m.tasks[i].id == root {
            assert(m.on_chain_within(root, root, 0));
        }
    }
    lemma_filter_ext(m.tasks, either, chain);
    lemma_sum_filter_or(m.tasks, is_root, desc);
    lemma_sum_filter_single(m, root);
    assert(m.tasks.filter(|t: TaskView| t.id == root) == m.tasks.filter(is_root));
}

/// No chain of parent links from a task reaches the id that the next added task gets.
proof fn lemma_chain_misses_next_id(m: TreeModel, a: i64, n: nat)
    requires
        m.wf(),
        a < m.next_id,
    ensures
        !m.on_chain_within(a, m.next_id, n),
    decreases n,
{
    if n > 0 && m.parent_of(a) is Some {
        let i = m.index_of(a);
        lemma_index_of(m, i);
        lemma_chain_misses_next_id(m, m.parent_of(a).unwrap(), (n - 1) as nat);
    }
}

/// In a well-formed tree adding a task is never refused as cyclic: it is refused exactly
/// for an empty name, for a sibling of the same name, or for a parent that does not exist.
pub proof fn law_add_never_cyclic(m: TreeModel, parent_id: Option<i64>, name: Seq<char>)
    requires
        m.wf(),
    ensures
        m.add_outcome(parent_id, name) != Err::<i64, TreeError>(TreeError::CyclicParent),
        m.add_outcome(parent_id, name) is Err <==> (name.len() == 0 || m.name_clash(name, parent_id, None)
            || (parent_id matches Some(p) && !m.has(p))),
{
    if let Some(p) = parent_id {
        if m.has(p) && m.on_chain(p, m.next_id) {
            let i = m.index_of(p);
            lemma_index_of(m, i);
            let n = choose|n: nat| m.on_chain_within(p, m.next_id, n);
            lemma_chain_misses_next_id(m, p, n);
        }
    }
}

/// A call that changes a [`crate::tree::TaskTree`], with the arguments it gets; names are
/// given as passed, before trimming.
pub enum TreeOp {
    Add { parent_id: Option<i64>, name: Seq<char>, is_project: bool, is_payable: bool },
    Remove { id: i64 },
    Rename { id: i64, name: Seq<char> },
    SetArchived { id: i64, archived: bool },
    AddTime { id: i64, secs: u64 },
}

/// Whether `op` is an addition that succeeds on `m`.
pub open spec fn adds_task(m: TreeModel, op: TreeOp) -> bool {
    match op {
        TreeOp::Add { parent_id, name, .. } => m.add_outcome(parent_id, trimmed(name)) is Ok,
        _ => false,
    }
}

/// The tree after `op`, as the contracts of `add_task`, `remove_task`, `rename_task`,
/// `archive_task`, `unarchive_task` and `update_duration` give it: a refused call leaves
/// the tree as it was.
pub open spec fn apply_op(m: TreeModel, op: TreeOp) -> TreeModel {
    match op {
        TreeOp::Add { parent_id, name, is_project, is_payable } => if m.add_outcome(parent_id, trimmed(name)) is Ok {
            m.with_new_task(parent_id, trimmed(name), is_project, is_payable)
        } else {
            m
        },
        TreeOp::Remove { id } => if m.has(id) {
            m.without_subtree(id)
        } else {
            m
        },
        TreeOp::Rename { id, name } => if m.rename_outcome(id, trimmed(name)) is Ok {
            m.replace(id, TaskView { name: trimmed(name), ..m.get(id) })
        } else {
            m
        },
        TreeOp::SetArchived { id, archived } => if m.has(id) {
            m.replace(id, TaskView { is_archived: archived, ..m.get(id) })
        } else {
            m
        },
        TreeOp::AddTime { id, secs } => if m.has(id) && m.get(id).total_duration_secs + secs <= u64::MAX {
            m.replace(id, TaskView { total_duration_secs: (m.get(id).total_duration_secs + secs) as u64, ..m.get(id) })
        } else {
            m
        },
    }
}

/// The tree that `TaskTree::new` gives.
pub open spec fn empty_tree() -> TreeModel {
    TreeModel { tasks: Seq::empty(), next_id: 1 }
}

/// The tree after the calls `ops`, made in order on a new tree.
pub open spec fn run_ops(ops: Seq<TreeOp>) -> TreeModel
    decreases ops.len(),
{
    if ops.len() == 0 {
        empty_tree()
    } else {
        apply_op(run_ops(ops.drop_last()), ops.last())
    }
}

/// How many of the calls `ops`, made in order on a new tree, are successful additions.
pub open spec fn successful_adds(ops: Seq<TreeOp>) -> nat
    decreases ops.len(),
{
    if ops.len() == 0 {
        0
    } else {
        successful_adds(ops.drop_last()) + if adds_task(run_ops(ops.drop_last()), ops.last()) {
            1nat
        } else {
            0nat
        }
    }
}

/// Replacing a task by one with the same id and parent, whose name is tidy and clashes with
/// no sibling, keeps the invariant, tidiness and distinct sibling names.
proof fn lemma_replace_keeps(m: TreeModel, id: i64, t: TaskView)
    requires
        m.wf(),
        m.tidy(),
        m.sibling_names_distinct(),
        m.has(id),
        t.id == id,
        t.parent_id == m.get(id).parent_id,
        t.name.len() > 0,
        trimmed(t.name) == t.name,
        t.name == m.get(id).name || !m.name_clash(t.name, t.parent_id, Some(id)),
    ensures
        m.replace(id, t).wf(),
        m.replace(id, t).tidy(),
        m.replace(id, t).sibling_names_distinct(),
        m.replace(id, t).next_id == m.next_id,
{
    let k = m.index_of(id);
    assert(m.tasks[k].id == id);
    lemma_index_of(m, k);
    let m2 = m.replace(id, t);
    crate::tree::lemma_same_links(m, m2);
    assert forall|i: int| 0 <= i < m2.tasks.len() implies {
        &&& (#[trigger] m2.tasks[i]).name.len() > 0
        &&& trimmed(m2.tasks[i].name) == m2.tasks[i].name
        &&& (m2.tasks[i].parent_id matches Some(p) ==> m2.has(p))
    } by {
        assert(m.tasks[i].name.len() > 0);
    }
    assert forall|i: int, j: int|
        0 <= i < m2.tasks.len() && 0 <= j < m2.tasks.len() && i != j && #[trigger] m2.tasks[i].parent_id
            == #[trigger] m2.tasks[j].parent_id implies m2.tasks[i].name != m2.tasks[j].name by {
        if i == k && t.name != m.get(id).name && m2.tasks[i].name == m2.tasks[j].name {
            assert(m.tasks[j].name == t.name);
            assert(m.tasks[j].id != id) by {
                if j < k {
                    assert(m.tasks[j].id < m.tasks[k].id);
                } else {
                    assert(m.tasks[k].id < m.tasks[j].id);
                }
            }
            assert(m.name_clash(t.name, t.parent_id, Some(id)));
        } else if j == k && t.name != m.get(id).name && m2.tasks[i].name == m2.tasks[j].name {
            assert(m.tasks[i].name == t.name);
            assert(m.tasks[i].id != id) by {
                if i < k {
                    assert(m.tasks[i].id < m.tasks[k].id);
                } else {
                    assert(m.tasks[k].id < m.tasks[i].id);
                }
            }
            assert(m.name_clash(t.name, t.parent_id, Some(id)));
        } else if i != k && j != k {
            assert(m.tasks[i].parent_id == m.tasks[j].parent_id);
        } else {
            assert(m.tasks[i].parent_id == m.tasks[j].parent_id);
        }
    }
}

/// Removing a task with its subtree keeps the invariant, tidiness and distinct sibling
/// names: no task that stays had its parent removed.
proof fn lemma_remove_keeps(m: TreeModel, id: i64, m2: TreeModel)
    requires
        m.wf(),
        m.tidy(),
        m.sibling_names_distinct(),
        m2 == m.without_subtree(id),
    ensures
        m2.wf(),
        m2.tidy(),
        m2.sibling_names_distinct(),
        m2.next_id == m.next_id,
{
    let pred = |t: TaskView| !m.on_chain(t.id, id);
    assert(m2.tasks == m.tasks.filter(pred));
    crate::tree::lemma_filtered_keeps_wf(m, m2, pred);
    assert forall|q: int| 0 <= q < m2.tasks.len() implies {
        &&& (#[trigger] m2.tasks[q]).name.len() > 0
        &&& trimmed(m2.tasks[q].name) == m2.tasks[q].name
        &&& (m2.tasks[q].parent_id matches Some(p) ==> m2.has(p))
    } by {
        assert(m2.tasks.contains(m2.tasks[q]));
        m.tasks.lemma_filter_contains_rev(pred, m2.tasks[q]);
        m.tasks.lemma_filter_pred(pred, q);
        let i = choose|p: int| 0 <= p < m.tasks.len() && m.tasks[p] == m2.tasks[q];
        assert(m.tasks[i].name.len() > 0);
        if let Some(p) = m2.tasks[q].parent_id {
            assert(pred(m2.tasks[q]));
            assert(m.has(p));
            let k = m.index_of(p);
            lemma_index_of(m, k);
            lemma_index_of(m, i);
            if m.on_chain(p, id) {
                lemma_on_chain_step(m, m.tasks[i].id, id);
            }
            assert(pred(m.tasks[k]));
            m.tasks.lemma_filter_contains(pred, k);
            let j = choose|j: int| 0 <= j < m2.tasks.len() && m2.tasks[j] == m.tasks[k];
            assert(m2.tasks[j].id == p);
        }
    }
}

/// Every call keeps the invariant, tidiness and distinct sibling names, and moves the next
/// id on by one exactly when it adds a task.
proof fn lemma_op_keeps(m: TreeModel, op: TreeOp)
    requires
        m.wf(),
        m.tidy(),
        m.sibling_names_distinct(),
        m.next_id < i64::MAX,
    ensures
        apply_op(m, op).wf(),
        apply_op(m, op).tidy(),
        apply_op(m, op).sibling_names_distinct(),
        apply_op(m, op).next_id == m.next_id + if adds_task(m, op) {
            1int
        } else {
            0int
        },
{
    match op {
        TreeOp::Add { parent_id, name, is_project, is_payable } => {
            let n = trimmed(name);
            if m.add_outcome(parent_id, n) is Ok {
                crate::tree::lemma_add_keeps_wf(m, parent_id, n, is_project, is_payable);
                crate::text::lemma_trimmed_idempotent(name);
                let m2 = m.with_new_task(parent_id, n, is_project, is_payable);
                let len = m.tasks.len();
                assert forall|i: int| 0 <= i < m2.tasks.len() implies {
                    &&& (#[trigger] m2.tasks[i]).name.len() > 0
                    &&& trimmed(m2.tasks[i].name) == m2.tasks[i].name
                    &&& (m2.tasks[i].parent_id matches Some(p) ==> m2.has(p))
                } by {
                    if i < len {
                        assert(m.tasks[i] == m2.tasks[i]);
                        assert(m.tasks[i].name.len() > 0);
                        if let Some(p) = m.tasks[i].parent_id {
                            let k = m.index_of(p);
                            assert(m2.tasks[k] == m.tasks[k]);
                        }
                    } else {
                        if let Some(p) = parent_id {
                            let k = m.index_of(p);
                            assert(m2.tasks[k] == m.tasks[k]);
                        }
                    }
                }
            }
        },
        TreeOp::Remove { id } => {
            if m.has(id) {
                lemma_remove_keeps(m, id, m.without_subtree(id));
            }
        },
        TreeOp::Rename { id, name } => {
            let n = trimmed(name);
            if m.rename_outcome(id, n) is Ok {
                crate::text::lemma_trimmed_idempotent(name);
                lemma_replace_keeps(m, id, TaskView { name: n, ..m.get(id) });
            }
        },
        TreeOp::SetArchived { id, archived } => {
            if m.has(id) {
                let k = m.index_of(id);
                assert(m.tasks[k].name.len() > 0);
                lemma_replace_keeps(m, id, TaskView { is_archived: archived, ..m.get(id) });
            }
        },
        TreeOp::AddTime { id, secs } => {
            if m.has(id) && m.get(id).total_duration_secs + secs <= u64::MAX {
                let k = m.index_of(id);
                assert(m.tasks[k].name.len() > 0);
                lemma_replace_keeps(
                    m,
                    id,
                    TaskView { total_duration_secs: (m.get(id).total_duration_secs + secs) as u64, ..m.get(id) },
                );
            }
        },
    }
}

/// Whatever calls are made on a new tree: its ids count the successful additions from 1, so
/// the next id, which the next successful addition returns, is one more than their number;
/// it keeps its invariant (no cycle, ids below the next one); every parent link names a
/// task of the tree; every name is non-empty and trimmed; and no two tasks under one parent
/// share a name.
pub proof fn law_reachable_trees(ops: Seq<TreeOp>)
    requires
        ops.len() < i64::MAX - 1,
    ensures
        run_ops(ops).next_id == 1 + successful_adds(ops),
        successful_adds(ops) <= ops.len(),
        forall|parent_id: Option<i64>, name: Seq<char>|
            #[trigger] run_ops(ops).add_outcome(parent_id, name) is Ok ==> run_ops(ops).add_outcome(parent_id, name)
                == Ok::<i64, TreeError>((1 + successful_adds(ops)) as i64),
        run_ops(ops).wf(),
        run_ops(ops).tidy(),
        run_ops(ops).sibling_names_distinct(),
    decreases ops.len(),
{
    if ops.len() == 0 {
        let rank = |id: i64| 0nat;
        assert(empty_tree().ranked_by(rank));
    } else {
        law_reachable_trees(ops.drop_last());
        lemma_op_keeps(run_ops(ops.drop_last()), ops.last());
    }
}

/// Ranks strictly fall along a root path: the entry `j` places further on ranks below
/// the entry `i`.
proof fn lemma_root_path_ranks(m: TreeModel, start: i64, path: Seq<i64>, rank: spec_fn(i64) -> nat, i: int, j: int)
    requires
        crate::tree::is_root_path(m, start, path),
        m.ranked_by(rank),
        0 <= i < j < path.len(),
    ensures
        rank(path[j]) < rank(path[i]),
    decreases j - i,
{
    assert(m.parent_of(path[j - 1]) == Some(path[j]));
    assert(m.parent_of(path[j - 1]) is Some);
    if j - 1 > i {
        lemma_root_path_ranks(m, start, path, rank, i, j - 1);
    }
}

/// A root path, as `path_to_root` reports it, never repeats an id.
pub proof fn law_root_path_distinct(m: TreeModel, start: i64, path: Seq<i64>)
    requires
        m.wf(),
        crate::tree::is_root_path(m, start, path),
    ensures
        forall|i: int, j: int| 0 <= i < j < path.len() ==> #[trigger] path[i] != #[trigger] path[j],
{
    let rank = choose|rank: spec_fn(i64) -> nat| m.ranked_by(rank);
    assert forall|i: int, j: int| 0 <= i < j < path.len() implies #[trigger] path[i] != #[trigger] path[j] by {
        lemma_root_path_ranks(m, start, path, rank, i, j);
    }
}

/// Removing a task leaves exactly the tasks other than it and its descendants, each
/// unchanged: a task stays if and only if its id is neither the removed id nor among
/// `descendant_ids` of it.
pub proof fn law_remove_leaves_all_but_descendants(m: TreeModel, id: i64)
    requires
        m.wf(),
    ensures
        forall|t: TaskView| #[trigger] m.without_subtree(id).tasks.contains(t) <==> (m.tasks.contains(t) && t.id != id
            && !m.descendant_ids(id).contains(t.id)),
{
    let keep = |t: TaskView| !m.on_chain(t.id, id);
    let desc = |t: TaskView| m.is_descendant(t.id, id);
    let f = m.tasks.filter(desc);
    let d = m.descendant_ids(id);
    assert(m.without_subtree(id).tasks == m.tasks.filter(keep));
    assert forall|t: TaskView| #[trigger] m.without_subtree(id).tasks.contains(t) <==> (m.tasks.contains(t) && t.id
        != id && !d.contains(t.id)) by {
        if m.tasks.contains(t) {
            let k = choose|k: int| 0 <= k < m.tasks.len() && m.tasks[k] == t;
            lemma_index_of(m, k);
            if t.id == id {
                assert(m.on_chain_within(t.id, id, 0));
            }
            if d.contains(t.id) {
                let q = choose|q: int| 0 <= q < d.len() && d[q] == t.id;
                assert(d[q] == f[q].id);
                m.tasks.lemma_filter_pred(desc, q);
            }
            if desc(t) {
                m.tasks.lemma_filter_contains(desc, k);
                let q = choose|q: int| 0 <= q < f.len() && f[q] == t;
                assert(d[q] == f[q].id);
            }
            if keep(t) {
                m.tasks.lemma_filter_contains(keep, k);
            }
        }
        if m.tasks.filter(keep).contains(t) {
            m.tasks.lemma_filter_contains_rev(keep, t);
            let q = choose|q: int| 0 <= q < m.tasks.filter(keep).len() && m.tasks.filter(keep)[q] == t;
            m.tasks.lemma_filter_pred(keep, q);
        }
    }
}

} // verus!
