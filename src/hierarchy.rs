use vstd::prelude::*;
use crate::models::{TaskView, TaskWithChildren};
use crate::store::{
    task_ids,
    DbService, count_true, is_child_of, lemma_count_true_bound, lemma_count_true_set,
    positions_sorted, sibling_le,
};
use crate::tree::{
    descendant_ids,
    task_ids_ok, tasks_wf,
    acyclic, in_subtree, lemma_below_some_child, lemma_child_parent_index,
    lemma_parent_not_below_child, lemma_siblings_disjoint, lemma_subtree_up, parent_index,
};

verus! {

/// The tasks of a hierarchy in pre-order: the task itself, then the hierarchy
/// of each child in turn.
pub open spec fn tree_nodes(t: TaskWithChildren) -> Seq<TaskView>
    decreases t,
{
    seq![t.task@] + forest_nodes(t.children@)
}

/// The tasks of a list of hierarchies, one after the other.
pub open spec fn forest_nodes(cs: Seq<TaskWithChildren>) -> Seq<TaskView>
    decreases cs,
{
    if cs.len() == 0 {
        Seq::empty()
    } else {
        forest_nodes(cs.drop_last()) + tree_nodes(cs.last())
    }
}

/// The tasks strictly below the top of a hierarchy.
pub open spec fn descendants(t: TaskWithChildren) -> Seq<TaskView> {
    forest_nodes(t.children@)
}

/// Each node's children point to it as their parent and come in sibling order,
/// at every level.
pub open spec fn tree_shape(t: TaskWithChildren) -> bool
    decreases t,
{
    &&& forall|m: int|
        0 <= m < t.children@.len() ==> (#[trigger] t.children@[m]).task@.parent_id == Some(
            t.task@.id,
        )
    &&& forall|a: int, b: int|
        0 <= a < b < t.children@.len() ==> sibling_le(t.children@[a].task@, t.children@[b].task@)
    &&& forall|m: int| 0 <= m < t.children@.len() ==> tree_shape(#[trigger] t.children@[m])
}

/// `v` is a task strictly below the task at `a`.
pub open spec fn is_descendant_task(ts: Seq<TaskView>, a: int, v: TaskView) -> bool {
    exists|y: int| in_subtree(ts, a, y) && y != a && v == ts[y]
}

/// `t` is the hierarchy of the task at `a`: it starts at that task, each
/// level is linked and in sibling order, no task appears twice below the top,
/// each task below the top is a descendant of it, no id appears twice in the
/// whole hierarchy, and, where the parent references form a forest, every
/// descendant appears.
pub open spec fn hierarchy_of(ts: Seq<TaskView>, a: int, t: TaskWithChildren) -> bool {
    &&& t.task@ == ts[a]
    &&& tree_shape(t)
    &&& descendants(t).no_duplicates()
    &&& forall|i: int|
        0 <= i < descendants(t).len() ==> is_descendant_task(ts, a, #[trigger] descendants(t)[i])
    &&& task_ids(tree_nodes(t)).no_duplicates()
    &&& acyclic(ts) ==> forall|y: int|
        in_subtree(ts, a, y) && y != a ==> descendants(t).contains(#[trigger] ts[y])
}

/// In a well-formed store, the tasks below the top of the hierarchy of the
/// task at `a` are exactly the tasks whose parent chain reaches it, each once,
/// whatever the depth: their ids are the descendant ids, with no repeats.
pub proof fn lemma_hierarchy_exact(ts: Seq<TaskView>, a: int, t: TaskWithChildren)
    requires
        tasks_wf(ts),
        0 <= a < ts.len(),
        hierarchy_of(ts, a, t),
    ensures
        forall|v: TaskView| descendants(t).contains(v) <==> is_descendant_task(ts, a, v),
        descendants(t).no_duplicates(),
        task_ids(descendants(t)).no_duplicates(),
        task_ids(descendants(t)).to_set() == descendant_ids(ts, a),
        descendants(t).len() == descendant_ids(ts, a).len(),
{
    let d = descendants(t);
    assert forall|v: TaskView| d.contains(v) <==> is_descendant_task(ts, a, v) by {
        if d.contains(v) {
            let i = choose|i: int| 0 <= i < d.len() && d[i] == v;
            assert(is_descendant_task(ts, a, d[i]));
        }
        if is_descendant_task(ts, a, v) {
            let y = choose|y: int| in_subtree(ts, a, y) && y != a && v == ts[y];
            assert(d.contains(ts[y]));
        }
    }
    let all = task_ids(tree_nodes(t));
    let ids = task_ids(d);
    assert(tree_nodes(t) == seq![t.task@] + d);
    assert forall|x: int, y: int| 0 <= x < ids.len() && 0 <= y < ids.len() && x != y implies ids[x] != ids[y] by {
        assert(ids[x] == all[x + 1] && ids[y] == all[y + 1]);
    }
    assert(ids.to_set() =~= descendant_ids(ts, a)) by {
        assert forall|id: Seq<char>| ids.to_set().contains(id) implies descendant_ids(ts, a).contains(id) by {
            let k = choose|k: int| 0 <= k < ids.len() && ids[k] == id;
            assert(is_descendant_task(ts, a, d[k]));
            let y = choose|y: int| in_subtree(ts, a, y) && y != a && d[k] == ts[y];
            assert(ts[y].id == id);
        }
        assert forall|id: Seq<char>| descendant_ids(ts, a).contains(id) implies ids.to_set().contains(id) by {
            let y = choose|y: int| in_subtree(ts, a, y) && y != a && ts[y].id == id;
            assert(is_descendant_task(ts, a, ts[y]));
            let k = choose|k: int| 0 <= k < d.len() && d[k] == ts[y];
            assert(ids[k] == id);
        }
    }
    ids.unique_seq_to_set();
}

/// Builds the hierarchy of the task at `a`.
pub fn hierarchy_at(store: &DbService, a: usize) -> (r: TaskWithChildren)
    requires
        task_ids_ok(store@.tasks),
        a < store@.tasks.len(),
    ensures
        hierarchy_of(store@.tasks, a as int, r),
{
    let n = store.task_count();
    let mut visited: Vec<bool> = Vec::new();
    let mut i: usize = 0;
    while i < n
        invariant
            i <= n,
            visited@.len() == i,
            forall|y: int| 0 <= y < i ==> !visited@[y],
        decreases n - i,
    {
        visited.push(false);
        i = i + 1;
    }
    visited.set(a, true);
    let ghost v0 = visited@;
    let ghost ts = store@.tasks;
    let (t, Ghost(idx)) = build(store, a, &mut visited);
    proof {
        assert(tree_nodes(t) == seq![t.task@] + descendants(t));
        assert(tree_nodes(t)[0] == t.task@);
        let d = descendants(t);
        assert(d =~= tree_nodes(t).drop_first());
        assert forall|i: int| 0 <= i < d.len() implies is_descendant_task(ts, a as int, #[trigger] d[i]) by {
            assert(d[i] == ts[idx[i + 1]]);
            assert(idx[i + 1] != idx[0]);
            assert(in_subtree(ts, a as int, idx[i + 1]));
        }
        assert forall|x: int, y: int| 0 <= x < d.len() && 0 <= y < d.len() && x != y implies d[x] != d[y] by {
            assert(d[x] == ts[idx[x + 1]] && d[y] == ts[idx[y + 1]]);
            assert(idx[x + 1] != idx[y + 1]);
            assert(in_subtree(ts, a as int, idx[x + 1]) && in_subtree(ts, a as int, idx[y + 1]));
        }
        assert forall|x: int, y: int|
            0 <= x < tree_nodes(t).len() && 0 <= y < tree_nodes(t).len() && x != y implies task_ids(
            tree_nodes(t),
        )[x] != task_ids(tree_nodes(t))[y] by {
            assert(tree_nodes(t)[x] == ts[idx[x]] && tree_nodes(t)[y] == ts[idx[y]]);
            assert(idx[x] != idx[y]);
            assert(in_subtree(ts, a as int, idx[x]) && in_subtree(ts, a as int, idx[y]));
        }
        if acyclic(ts) {
            assert(forest_pre(ts, a as int, v0));
            assert forall|y: int| in_subtree(ts, a as int, y) && y != a implies d.contains(#[trigger] ts[y]) by {
                assert(in_subtree(store@.tasks, a as int, y));
                assert(idx.contains(y));
                let k = choose|k: int| 0 <= k < idx.len() && idx[k] == y;
                assert(k != 0);
                assert(d[k - 1] == ts[y]);
            }
        }
    }
    t
}

/// The tasks at the given positions.
pub open spec fn nodes_of(ts: Seq<TaskView>, idx: Seq<int>) -> Seq<TaskView> {
    idx.map_values(|y: int| ts[y])
}

/// The store is a forest and nothing strictly below `x` is marked yet.
pub open spec fn forest_pre(ts: Seq<TaskView>, x: int, visited: Seq<bool>) -> bool {
    acyclic(ts) && forall|y: int| in_subtree(ts, x, y) && y != x ==> !visited[y]
}

/// `a` lies below one of the first `k` children listed.
pub open spec fn below_earlier_kid(ts: Seq<TaskView>, kids: Seq<usize>, k: int, a: int) -> bool {
    exists|k2: int| 0 <= k2 < k && in_subtree(ts, kids[k2] as int, a)
}

/// If every entry set in `a` is set in `b`, `b` counts at least as many.
pub proof fn lemma_count_true_mono(a: Seq<bool>, b: Seq<bool>)
    requires
        a.len() == b.len(),
        forall|i: int| 0 <= i < a.len() && a[i] ==> b[i],
    ensures
        count_true(a) <= count_true(b),
    decreases a.len(),
{
    if a.len() > 0 {
        lemma_count_true_mono(a.drop_last(), b.drop_last());
    }
}

/// In a forest, the next child to visit is unmarked, and so is everything
/// strictly below it.
proof fn lemma_child_fresh(
    ts: Seq<TaskView>,
    x: int,
    entry: Seq<bool>,
    acc: Seq<int>,
    kids: Seq<usize>,
    k: int,
)
    requires
        forest_pre(ts, x, entry),
        0 <= x < ts.len(),
        0 <= k < kids.len(),
        kids.no_duplicates(),
        forall|m: int| 0 <= m < kids.len() ==> kids[m] < ts.len(),
        forall|m: int| 0 <= m < kids.len() ==> parent_index(ts, #[trigger] kids[m] as int) == x,
        forall|i: int| 0 <= i < acc.len() ==> below_earlier_kid(ts, kids, k, #[trigger] acc[i]),
    ensures
        !entry[kids[k] as int] && !acc.contains(kids[k] as int),
        forall|y: int|
            in_subtree(ts, kids[k] as int, y) && y != kids[k] ==> !entry[y] && !acc.contains(y),
{
    let c = kids[k] as int;
    assert(parent_index(ts, kids[k] as int) == x);
    lemma_parent_not_below_child(ts, x, c);
    assert(crate::tree::ancestor(ts, c, 0) == c);
    lemma_subtree_up(ts, x, c, c);
    assert forall|y: int| in_subtree(ts, c, y) implies !acc.contains(y) && (y != x) by {
        if acc.contains(y) {
            let i = choose|i: int| 0 <= i < acc.len() && acc[i] == y;
            assert(below_earlier_kid(ts, kids, k, acc[i]));
            let k2 = choose|k2: int| 0 <= k2 < k && in_subtree(ts, kids[k2] as int, acc[i]);
            assert(parent_index(ts, kids[k2] as int) == x);
            lemma_siblings_disjoint(ts, x, kids[k2] as int, c, y);
            assert(kids[k2] == kids[k]);
        }
    }
    assert forall|y: int| in_subtree(ts, c, y) && y != c implies !entry[y] && !acc.contains(y) by {
        lemma_subtree_up(ts, x, c, y);
    }
}

/// Builds the hierarchy below the task at `x`, which the caller has marked.
/// A task is entered only while unmarked and is marked on entry, so the
/// recursion ends on any store, cyclic or not; the ghost result lists the
/// positions placed in the hierarchy, in pre-order.
fn build(store: &DbService, x: usize, visited: &mut Vec<bool>) -> (res: (TaskWithChildren, Ghost<Seq<int>>))
    requires
        task_ids_ok(store@.tasks),
        x < store@.tasks.len(),
        old(visited)@.len() == store@.tasks.len(),
        old(visited)@[x as int],
    ensures
        final(visited)@.len() == store@.tasks.len(),
        tree_nodes(res.0) == nodes_of(store@.tasks, res.1@),
        res.1@.len() >= 1,
        res.1@[0] == x,
        res.1@.no_duplicates(),
        forall|k: int| 0 <= k < res.1@.len() ==> in_subtree(store@.tasks, x as int, #[trigger] res.1@[k]),
        forall|k: int| 1 <= k < res.1@.len() ==> !old(visited)@[#[trigger] res.1@[k]],
        forall|y: int|
            0 <= y < store@.tasks.len() ==> final(visited)@[y] == (old(visited)@[y] || res.1@.contains(
                y,
            )),
        tree_shape(res.0),
        forest_pre(store@.tasks, x as int, old(visited)@) ==> forall|y: int|
            in_subtree(store@.tasks, x as int, y) ==> res.1@.contains(y),
    decreases store@.tasks.len() - count_true(old(visited)@),
{
    let ghost ts = store@.tasks;
    let ghost entry = visited@;
    let n = store.task_count();
    let t = store.task_at(x);
    let kids = store.child_positions(&t.id);
    proof {
        crate::store::lemma_count_true_bound(entry);
        assert forall|m: int| 0 <= m < kids@.len() implies parent_index(ts, #[trigger] kids@[m] as int) == x by {
            assert(kids@.contains(kids@[m]));
            lemma_child_parent_index(ts, x as int, kids@[m] as int);
        }
    }
    let mut children: Vec<TaskWithChildren> = Vec::new();
    let ghost mut acc: Seq<int> = Seq::empty();
    let ghost mut last: int = -1;
    let mut k: usize = 0;
    while k < kids.len()
        invariant
            ts == store@.tasks,
            task_ids_ok(store@.tasks),
            n == ts.len(),
            x < n,
            entry == old(visited)@,
            entry.len() == n,
            entry[x as int],
            t@ == ts[x as int],
            positions_sorted(ts, kids@),
            kids@.no_duplicates(),
            forall|m: int| 0 <= m < kids@.len() ==> kids@[m] < n,
            forall|j: int| 0 <= j < n ==> (kids@.contains(j as usize) <==> is_child_of(ts[j], t@.id)),
            forall|m: int| 0 <= m < kids@.len() ==> parent_index(ts, #[trigger] kids@[m] as int) == x,
            count_true(entry) <= n,
            k <= kids@.len(),
            visited@.len() == n,
            forall|y: int| 0 <= y < n ==> visited@[y] == (entry[y] || acc.contains(y)),
            forest_nodes(children@) == nodes_of(ts, acc),
            acc.no_duplicates(),
            forall|i: int|
                0 <= i < acc.len() ==> in_subtree(ts, x as int, #[trigger] acc[i]) && !entry[acc[i]]
                    && acc[i] != x,
            forall|i: int| 0 <= i < acc.len() ==> below_earlier_kid(ts, kids@, k as int, #[trigger] acc[i]),
            forall|m: int|
                0 <= m < children@.len() ==> (#[trigger] children@[m]).task@.parent_id == Some(
                    ts[x as int].id,
                ),
            forall|a: int, b: int|
                0 <= a < b < children@.len() ==> sibling_le(children@[a].task@, children@[b].task@),
            forall|m: int| 0 <= m < children@.len() ==> tree_shape(#[trigger] children@[m]),
            children@.len() > 0 ==> 0 <= last < k && children@.last().task@ == ts[kids@[last] as int],
            forest_pre(ts, x as int, entry) ==> forall|k2: int, y: int|
                0 <= k2 < k && in_subtree(ts, kids@[k2] as int, y) ==> acc.contains(y),
        decreases kids@.len() - k,
    {
        let c = kids[k];
        if !visited[c] {
            let ghost v0 = visited@;
            proof {
                lemma_count_true_mono(entry, v0);
                lemma_count_true_set(v0, c as int);
                lemma_count_true_bound(v0.update(c as int, true));
                if forest_pre(ts, x as int, entry) {
                    lemma_child_fresh(ts, x as int, entry, acc, kids@, k as int);
                }
            }
            visited.set(c, true);
            let ghost v1 = visited@;
            proof {
                assert(v1 == v0.update(c as int, true));
                assert(count_true(v1) == count_true(v0) + 1);
                assert(count_true(entry) <= count_true(v0));
                assert(count_true(v1) <= n);
                if forest_pre(ts, x as int, entry) {
                    assert forall|y: int| in_subtree(ts, c as int, y) && y != c implies !v1[y] by {
                        assert(!entry[y] && !acc.contains(y));
                        assert(!v0[y]);
                    }
                    assert(forest_pre(ts, c as int, v1));
                }
            }
            let (sub, Ghost(sidx)) = build(store, c, visited);
            let ghost v2 = visited@;
            let ghost prev_children = children@;
            let ghost prev_acc = acc;
            children.push(sub);
            proof {
                acc = acc + sidx;
                assert(children@.drop_last() == prev_children);
                assert(forest_nodes(children@) == forest_nodes(prev_children) + tree_nodes(sub));
                assert(nodes_of(ts, acc) =~= nodes_of(ts, prev_acc) + nodes_of(ts, sidx));
                assert(sub.task@ == tree_nodes(sub)[0]);
                assert(sub.task@ == ts[c as int]);
                assert(kids@.contains(c));
                assert forall|y: int| 0 <= y < n implies visited@[y] == (entry[y] || acc.contains(y)) by {
                    if sidx.contains(y) {
                        let i = choose|i: int| 0 <= i < sidx.len() && sidx[i] == y;
                        assert(acc[prev_acc.len() + i] == y);
                    }
                    if prev_acc.contains(y) {
                        let i = choose|i: int| 0 <= i < prev_acc.len() && prev_acc[i] == y;
                        assert(acc[i] == y);
                    }
                    if acc.contains(y) {
                        let i = choose|i: int| 0 <= i < acc.len() && acc[i] == y;
                        if i < prev_acc.len() {
                            assert(prev_acc[i] == y);
                        } else {
                            assert(sidx[i - prev_acc.len()] == y);
                        }
                    }
                    if y == c {
                        assert(sidx[0] == y);
                    }
                }
                assert forall|i: int|
                    0 <= i < acc.len() implies in_subtree(ts, x as int, #[trigger] acc[i]) && !entry[acc[i]]
                        && acc[i] != x && below_earlier_kid(ts, kids@, k + 1, acc[i]) by {
                    if i < prev_acc.len() {
                        assert(acc[i] == prev_acc[i]);
                        assert(below_earlier_kid(ts, kids@, k as int, prev_acc[i]));
                        let k2 = choose|k2: int|
                            0 <= k2 < k && in_subtree(ts, kids@[k2] as int, prev_acc[i]);
                        assert(0 <= k2 < k + 1 && in_subtree(ts, kids@[k2] as int, acc[i]));
                    } else {
                        let j = i - prev_acc.len();
                        assert(acc[i] == sidx[j]);
                        lemma_subtree_up(ts, x as int, c as int, sidx[j]);
                        assert(0 <= k < k + 1 && in_subtree(ts, kids@[k as int] as int, acc[i]));
                        if j > 0 {
                            assert(!v1[sidx[j]]);
                        }
                    }
                }
                assert forall|a: int, b: int| 0 <= a < acc.len() && 0 <= b < acc.len() && a != b implies acc[a] != acc[b] by {
                    if a < prev_acc.len() && b >= prev_acc.len() {
                        let j = b - prev_acc.len();
                        assert(v0[prev_acc[a]]);
                        if j > 0 {
                            assert(!v1[sidx[j]]);
                        }
                    } else if b < prev_acc.len() && a >= prev_acc.len() {
                        let j = a - prev_acc.len();
                        assert(v0[prev_acc[b]]);
                        if j > 0 {
                            assert(!v1[sidx[j]]);
                        }
                    } else if a >= prev_acc.len() && b >= prev_acc.len() {
                        assert(acc[a] == sidx[a - prev_acc.len()]);
                        assert(acc[b] == sidx[b - prev_acc.len()]);
                    }
                }
                assert forall|a: int, b: int| 0 <= a < b < children@.len() implies sibling_le(
                    children@[a].task@,
                    children@[b].task@,
                ) by {
                    if b == children@.len() - 1 && prev_children.len() > 0 {
                        assert(sibling_le(ts[kids@[last] as int], ts[kids@[k as int] as int]));
                        assert(children@[a] == prev_children[a]);
                        if a < prev_children.len() - 1 {
                            assert(sibling_le(prev_children[a].task@, prev_children.last().task@));
                        }
                    } else if b < children@.len() - 1 {
                        assert(children@[a] == prev_children[a] && children@[b] == prev_children[b]);
                    }
                }
                assert forall|m: int| 0 <= m < children@.len() implies (#[trigger] children@[m]).task@.parent_id
                    == Some(ts[x as int].id) && tree_shape(children@[m]) by {
                    if m < prev_children.len() {
                        assert(children@[m] == prev_children[m]);
                    }
                }
                if forest_pre(ts, x as int, entry) {
                    assert forall|k2: int, y: int|
                        0 <= k2 < k + 1 && in_subtree(ts, kids@[k2] as int, y) implies acc.contains(y) by {
                        if k2 < k {
                            let i = choose|i: int| 0 <= i < prev_acc.len() && prev_acc[i] == y;
                            assert(acc[i] == y);
                        } else {
                            assert(kids@[k2] == c);
                            assert(in_subtree(ts, c as int, y));
                            assert(sidx.contains(y));
                            let i = choose|i: int| 0 <= i < sidx.len() && sidx[i] == y;
                            assert(acc[prev_acc.len() + i] == y);
                        }
                    }
                }
                last = k as int;
            }
        } else {
            proof {
                if forest_pre(ts, x as int, entry) {
                    lemma_child_fresh(ts, x as int, entry, acc, kids@, k as int);
                }
                assert forall|i: int| 0 <= i < acc.len() implies below_earlier_kid(ts, kids@, k + 1, #[trigger] acc[i]) by {
                    assert(below_earlier_kid(ts, kids@, k as int, acc[i]));
                    let k2 = choose|k2: int| 0 <= k2 < k && in_subtree(ts, kids@[k2] as int, acc[i]);
                    assert(0 <= k2 < k + 1 && in_subtree(ts, kids@[k2] as int, acc[i]));
                }
            }
        }
        k = k + 1;
    }
    let node = TaskWithChildren { task: t.duplicate(), children: children };
    let ghost idx = seq![x as int] + acc;
    proof {
        assert(tree_nodes(node) == seq![node.task@] + forest_nodes(node.children@));
        assert(nodes_of(ts, idx) =~= seq![ts[x as int]] + nodes_of(ts, acc));
        assert(crate::tree::ancestor(ts, x as int, 0) == x);
        assert forall|k: int| 0 <= k < idx.len() implies in_subtree(ts, x as int, #[trigger] idx[k]) by {
            if k > 0 {
                assert(idx[k] == acc[k - 1]);
            }
        }
        assert forall|k: int| 1 <= k < idx.len() implies !entry[#[trigger] idx[k]] by {
            assert(idx[k] == acc[k - 1]);
        }
        assert forall|a: int, b: int| 0 <= a < idx.len() && 0 <= b < idx.len() && a != b implies idx[a] != idx[b] by {
            if a > 0 && b > 0 {
                assert(idx[a] == acc[a - 1] && idx[b] == acc[b - 1]);
            } else if a > 0 {
                assert(idx[a] == acc[a - 1]);
            } else {
                assert(idx[b] == acc[b - 1]);
            }
        }
        assert forall|y: int| 0 <= y < n implies visited@[y] == (entry[y] || idx.contains(y)) by {
            if acc.contains(y) {
                let i = choose|i: int| 0 <= i < acc.len() && acc[i] == y;
                assert(idx[i + 1] == y);
            }
            if idx.contains(y) && y != x {
                let i = choose|i: int| 0 <= i < idx.len() && idx[i] == y;
                assert(acc[i - 1] == y);
            }
        }
        if forest_pre(ts, x as int, entry) {
            assert forall|y: int| in_subtree(ts, x as int, y) implies idx.contains(y) by {
                if y == x {
                    assert(idx[0] == y);
                } else {
                    let c = lemma_below_some_child(ts, x as int, y);
                    let p = ts[c].parent_id->0;
                    assert(ts[crate::tree::index_of(ts, p)].id == p);
                    assert(is_child_of(ts[c], t@.id));
                    assert(kids@.contains(c as usize));
                    let k2 = choose|k2: int| 0 <= k2 < kids@.len() && kids@[k2] == c as usize;
                    let i = choose|i: int| 0 <= i < acc.len() && acc[i] == y;
                    assert(idx[i + 1] == y);
                }
            }
        }
    }
    (node, Ghost(idx))
}

} // verus!
