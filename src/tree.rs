use vstd::prelude::*;
use crate::models::TaskView;
use crate::store::task_ids;

verus! {

/// No two tasks share an id.
pub open spec fn task_ids_unique(ts: Seq<TaskView>) -> bool {
    forall|i: int, j: int| 0 <= i < ts.len() && 0 <= j < ts.len() && i != j ==> ts[i].id != ts[j].id
}

/// Some task has the given id.
pub open spec fn has_task(ts: Seq<TaskView>, id: Seq<char>) -> bool {
    exists|i: int| 0 <= i < ts.len() && ts[i].id == id
}

/// The position of the task with the given id, or -1 when there is none.
pub open spec fn index_of(ts: Seq<TaskView>, id: Seq<char>) -> int {
    if has_task(ts, id) {
        choose|i: int| 0 <= i < ts.len() && ts[i].id == id
    } else {
        -1
    }
}

/// The position of the parent of the task at `x`, or -1 for a root task or a
/// parent reference that does not resolve.
pub open spec fn parent_index(ts: Seq<TaskView>, x: int) -> int {
    match ts[x].parent_id {
        Some(p) => index_of(ts, p),
        None => -1,
    }
}

/// Every parent reference resolves to a task of the same project.
pub open spec fn parents_resolve(ts: Seq<TaskView>) -> bool {
    forall|x: int|
        0 <= x < ts.len() && (#[trigger] ts[x]).parent_id is Some ==> {
            let p = parent_index(ts, x);
            0 <= p < ts.len() && ts[p].project_id == ts[x].project_id
        }
}

/// Every task has a non-empty id.
pub open spec fn task_ids_nonempty(ts: Seq<TaskView>) -> bool {
    forall|i: int| 0 <= i < ts.len() ==> (#[trigger] ts[i]).id.len() > 0
}

/// The task table is well formed: ids are non-empty and unique, parent
/// references resolve within the project, and the parent references form a
/// forest.
pub open spec fn tasks_wf(ts: Seq<TaskView>) -> bool {
    task_ids_nonempty(ts) && task_ids_unique(ts) && parents_resolve(ts) && acyclic(ts)
}

/// Ids are non-empty and unique: what lookups by id need, whatever the parent
/// references are.
pub open spec fn task_ids_ok(ts: Seq<TaskView>) -> bool {
    task_ids_nonempty(ts) && task_ids_unique(ts)
}

/// In a well-formed table, a task that exists has a non-empty id.
pub proof fn lemma_found_id_nonempty(ts: Seq<TaskView>, id: Seq<char>)
    requires
        task_ids_nonempty(ts),
        has_task(ts, id),
    ensures
        id.len() > 0,
{
    let i = choose|i: int| 0 <= i < ts.len() && ts[i].id == id;
    assert(ts[i].id.len() > 0);
}

/// The position reached from `x` by following the parent reference `k` times
/// (-1 once the chain ends).
pub open spec fn ancestor(ts: Seq<TaskView>, x: int, k: nat) -> int
    decreases k,
{
    if k == 0 {
        x
    } else if 0 <= x < ts.len() {
        ancestor(ts, parent_index(ts, x), (k - 1) as nat)
    } else {
        -1
    }
}

/// The task at `x` is the task at `a` or one of its descendants: its parent
/// chain reaches `a`.
pub open spec fn in_subtree(ts: Seq<TaskView>, a: int, x: int) -> bool {
    0 <= a < ts.len() && 0 <= x < ts.len() && exists|k: nat| ancestor(ts, x, k) == a
}

/// No task is its own ancestor: the parent references form a forest.
pub open spec fn acyclic(ts: Seq<TaskView>) -> bool {
    forall|x: int, k: nat| 0 <= x < ts.len() && k >= 1 ==> #[trigger] ancestor(ts, x, k) != x
}

/// The tasks of positions `0..n` inside (`inside == true`) or outside the
/// subtree of `a`, in store order.
pub open spec fn split_prefix(ts: Seq<TaskView>, a: int, n: int, inside: bool) -> Seq<TaskView>
    decreases n,
{
    if n <= 0 {
        Seq::empty()
    } else {
        let r = split_prefix(ts, a, n - 1, inside);
        if in_subtree(ts, a, n - 1) == inside {
            r.push(ts[n - 1])
        } else {
            r
        }
    }
}

/// The task at `a` and all its descendants, in store order.
pub open spec fn subtree(ts: Seq<TaskView>, a: int) -> Seq<TaskView> {
    split_prefix(ts, a, ts.len() as int, true)
}

/// The tasks outside the subtree of `a`, in store order.
pub open spec fn outside_subtree(ts: Seq<TaskView>, a: int) -> Seq<TaskView> {
    split_prefix(ts, a, ts.len() as int, false)
}

/// Under unique ids, the task found by id is the one at that position.
pub proof fn lemma_index_of(ts: Seq<TaskView>, i: int)
    requires
        task_ids_unique(ts),
        0 <= i < ts.len(),
    ensures
        index_of(ts, ts[i].id) == i,
{
    assert(has_task(ts, ts[i].id));
}

/// Following the chain `i` steps and then `j` steps is following it `i + j` steps.
pub proof fn lemma_ancestor_add(ts: Seq<TaskView>, x: int, i: nat, j: nat)
    ensures
        ancestor(ts, x, i + j) == ancestor(ts, ancestor(ts, x, i), j),
    decreases i,
{
    if i == 0 {
    } else if 0 <= x < ts.len() {
        lemma_ancestor_add(ts, parent_index(ts, x), (i - 1) as nat, j);
        assert((i + j - 1) as nat == ((i - 1) as nat + j) as nat);
    } else {
        lemma_ancestor_end(ts, j);
        assert(ancestor(ts, x, i + j) == -1);
    }
}

/// A chain that has ended stays ended.
pub proof fn lemma_ancestor_end(ts: Seq<TaskView>, j: nat)
    ensures
        ancestor(ts, -1, j) == -1,
    decreases j,
{
}

/// One step up the chain is the parent.
pub proof fn lemma_ancestor_one(ts: Seq<TaskView>, x: int)
    requires
        0 <= x < ts.len(),
    ensures
        ancestor(ts, x, 1) == parent_index(ts, x),
{
    assert(ancestor(ts, parent_index(ts, x), 0) == parent_index(ts, x));
}

/// A task whose parent lies in the subtree of `a` lies in it too.
pub proof fn lemma_child_in_subtree(ts: Seq<TaskView>, a: int, x: int)
    requires
        0 <= x < ts.len(),
        in_subtree(ts, a, parent_index(ts, x)),
    ensures
        in_subtree(ts, a, x),
{
    let k = choose|k: nat| ancestor(ts, parent_index(ts, x), k) == a;
    assert(ancestor(ts, x, k + 1) == a);
}


/// `e` is the task at one of the first `n` positions, on the chosen side of the
/// subtree of `a`.
pub open spec fn drawn_from(ts: Seq<TaskView>, a: int, n: int, inside: bool, e: TaskView) -> bool {
    exists|i: int| 0 <= i < n && e == ts[i] && in_subtree(ts, a, i) == inside
}

/// What `split_prefix` keeps: tasks of the first `n` positions on the chosen
/// side, each once, and every one of them.
pub proof fn lemma_split_prefix(ts: Seq<TaskView>, a: int, n: int, inside: bool)
    requires
        0 <= n <= ts.len(),
    ensures
        forall|k: int|
            0 <= k < split_prefix(ts, a, n, inside).len() ==> drawn_from(
                ts,
                a,
                n,
                inside,
                #[trigger] split_prefix(ts, a, n, inside)[k],
            ),
        forall|i: int|
            0 <= i < n && in_subtree(ts, a, i) == inside ==> split_prefix(ts, a, n, inside).contains(
                #[trigger] ts[i],
            ),
        task_ids_unique(ts) ==> task_ids_unique(split_prefix(ts, a, n, inside)),
        split_prefix(ts, a, n, true).len() + split_prefix(ts, a, n, false).len() == n,
    decreases n,
{
    if n > 0 {
        lemma_split_prefix(ts, a, n - 1, inside);
        lemma_split_prefix(ts, a, n - 1, !inside);
        let r = split_prefix(ts, a, n - 1, inside);
        let r2 = split_prefix(ts, a, n, inside);
        assert forall|k: int| 0 <= k < r.len() implies drawn_from(ts, a, n, inside, r[k]) by {
            assert(drawn_from(ts, a, n - 1, inside, r[k]));
            let i = choose|i: int| 0 <= i < n - 1 && r[k] == ts[i] && in_subtree(ts, a, i) == inside;
            assert(0 <= i < n && r[k] == ts[i] && in_subtree(ts, a, i) == inside);
        }
        if in_subtree(ts, a, n - 1) == inside {
            assert(r2 == r.push(ts[n - 1]));
            assert forall|k: int| 0 <= k < r2.len() implies drawn_from(ts, a, n, inside, r2[k]) by {
                if k < r.len() {
                    assert(r2[k] == r[k]);
                } else {
                    assert(r2[k] == ts[n - 1]);
                    assert(0 <= n - 1 < n && r2[k] == ts[n - 1] && in_subtree(ts, a, n - 1) == inside);
                }
            }
            assert forall|i: int| 0 <= i < n && in_subtree(ts, a, i) == inside implies r2.contains(
                ts[i],
            ) by {
                if i < n - 1 {
                    let k = choose|k: int| 0 <= k < r.len() && r[k] == ts[i];
                    assert(r2[k] == ts[i]);
                } else {
                    assert(r2[r.len() as int] == ts[i]);
                }
            }
            if task_ids_unique(ts) {
                assert forall|x: int, y: int|
                    0 <= x < r2.len() && 0 <= y < r2.len() && x != y implies r2[x].id != r2[y].id by {
                    if x < r.len() && y < r.len() {
                        assert(r2[x] == r[x] && r2[y] == r[y]);
                    } else if x < r.len() {
                        assert(drawn_from(ts, a, n - 1, inside, r[x]));
                        assert(r2[x] == r[x]);
                    } else if y < r.len() {
                        assert(drawn_from(ts, a, n - 1, inside, r[y]));
                        assert(r2[y] == r[y]);
                    }
                }
            }
        } else {
            assert(r2 == r);
        }
    }
}

/// A list of tasks drawn from a well-formed table, with unique ids, that holds
/// the parent of each of its tasks, has every parent reference resolved.
pub proof fn lemma_parents_kept(ts: Seq<TaskView>, ns: Seq<TaskView>)
    requires
        tasks_wf(ts),
        task_ids_unique(ns),
        forall|k: int|
            0 <= k < ns.len() ==> exists|i: int|
                0 <= i < ts.len() && #[trigger] ns[k] == #[trigger] ts[i] && (ts[i].parent_id is Some ==> ns.contains(
                    ts[parent_index(ts, i)],
                )),
    ensures
        parents_resolve(ns),
{
    assert forall|x: int| 0 <= x < ns.len() && (#[trigger] ns[x]).parent_id is Some implies {
        let p = parent_index(ns, x);
        0 <= p < ns.len() && ns[p].project_id == ns[x].project_id
    } by {
        let i = choose|i: int|
            0 <= i < ts.len() && ns[x] == ts[i] && (ts[i].parent_id is Some ==> ns.contains(
                ts[parent_index(ts, i)],
            ));
        assert(ts[i].parent_id is Some);
        let pi = parent_index(ts, i);
        assert(0 <= pi < ts.len());
        let q = choose|q: int| 0 <= q < ns.len() && ns[q] == ts[pi];
        let pid = ns[x].parent_id->0;
        assert(ts[pi].id == pid) by {
            assert(has_task(ts, pid));
        }
        lemma_index_of(ns, q);
    }
}

/// The tasks outside a subtree form a well-formed table.
pub proof fn lemma_outside_wf(ts: Seq<TaskView>, a: int)
    requires
        tasks_wf(ts),
        0 <= a < ts.len(),
    ensures
        tasks_wf(outside_subtree(ts, a)),
{
    let ns = outside_subtree(ts, a);
    lemma_split_prefix(ts, a, ts.len() as int, false);
    assert forall|k: int| 0 <= k < ns.len() implies exists|i: int|
        0 <= i < ts.len() && #[trigger] ns[k] == #[trigger] ts[i] && (ts[i].parent_id is Some ==> ns.contains(
            ts[parent_index(ts, i)],
        )) by {
        assert(drawn_from(ts, a, ts.len() as int, false, ns[k]));
        let i = choose|i: int| 0 <= i < ts.len() && ns[k] == ts[i] && in_subtree(ts, a, i) == false;
        if ts[i].parent_id is Some {
            let p = parent_index(ts, i);
            assert(0 <= p < ts.len());
            if in_subtree(ts, a, p) {
                lemma_child_in_subtree(ts, a, i);
            }
        }
    }
    lemma_parents_kept(ts, ns);
    lemma_drawn_acyclic(ts, ns);
    assert forall|k: int| 0 <= k < ns.len() implies (#[trigger] ns[k]).id.len() > 0 by {
        assert(drawn_from(ts, a, ts.len() as int, false, ns[k]));
        let i = choose|i: int| 0 <= i < ts.len() && ns[k] == ts[i] && in_subtree(ts, a, i) == false;
        assert(ts[i].id.len() > 0);
    }
}

/// A list of tasks drawn from a forest, with unique ids and resolving parent
/// references, is a forest.
pub proof fn lemma_drawn_acyclic(ts: Seq<TaskView>, ns: Seq<TaskView>)
    requires
        tasks_wf(ts),
        task_ids_unique(ns),
        parents_resolve(ns),
        forall|k: int| 0 <= k < ns.len() ==> exists|i: int| 0 <= i < ts.len() && #[trigger] ns[k] == #[trigger] ts[i],
    ensures
        acyclic(ns),
{
    let f = |y: int| index_of(ts, ns[y].id);
    assert forall|y: int| 0 <= y < ns.len() implies {
        &&& 0 <= #[trigger] f(y) < ts.len()
        &&& (parent_index(ns, y) == -1 ==> parent_index(ts, f(y)) == -1)
        &&& (parent_index(ns, y) != -1 ==> 0 <= parent_index(ns, y) < ns.len() && f(parent_index(ns, y))
            == parent_index(ts, f(y)))
    } by {
        let i = choose|i: int| 0 <= i < ts.len() && ns[y] == ts[i];
        lemma_index_of(ts, i);
        assert(f(y) == i);
        crate::forest::lemma_parent_index_range(ns, y);
        if parent_index(ns, y) != -1 {
            let q = parent_index(ns, y);
            let pid = ns[y].parent_id->0;
            assert(ns[q].id == pid) by {
                assert(has_task(ns, pid));
            }
            assert(has_task(ts, pid)) by {
                assert(parents_resolve(ns));
                let k = choose|k: int| 0 <= k < ts.len() && ns[q] == ts[k];
                assert(ts[k].id == pid);
            }
        }
    }
    assert(crate::forest::embeds(ns, ts, ns.len() as int, f));
    assert forall|x: int, k: nat| 0 <= x < ns.len() && k >= 1 implies #[trigger] ancestor(ns, x, k) != x by {
        crate::forest::lemma_embed_acyclic(ns, ts, ns.len() as int, f, x, k);
    }
}

/// After a subtree is removed, none of its ids resolve and every other id does.
pub proof fn lemma_removed_ids(ts: Seq<TaskView>, a: int)
    requires
        task_ids_unique(ts),
        0 <= a < ts.len(),
    ensures
        forall|i: int|
            0 <= i < ts.len() ==> (has_task(outside_subtree(ts, a), #[trigger] ts[i].id) <==> !in_subtree(
                ts,
                a,
                i,
            )),
{
    let ns = outside_subtree(ts, a);
    lemma_split_prefix(ts, a, ts.len() as int, false);
    assert forall|i: int| 0 <= i < ts.len() implies (has_task(ns, #[trigger] ts[i].id) <==> !in_subtree(ts, a, i)) by {
        if has_task(ns, ts[i].id) {
            let k = choose|k: int| 0 <= k < ns.len() && ns[k].id == ts[i].id;
            assert(drawn_from(ts, a, ts.len() as int, false, ns[k]));
            let j = choose|j: int| 0 <= j < ts.len() && ns[k] == ts[j] && in_subtree(ts, a, j) == false;
            assert(i == j);
        }
        if !in_subtree(ts, a, i) {
            let k = choose|k: int| 0 <= k < ns.len() && ns[k] == ts[i];
            assert(ns[k].id == ts[i].id);
        }
    }
}

/// A task below a child of `x` lies below `x`.
pub proof fn lemma_subtree_up(ts: Seq<TaskView>, x: int, c: int, y: int)
    requires
        0 <= c < ts.len(),
        parent_index(ts, c) == x,
        0 <= x < ts.len(),
        in_subtree(ts, c, y),
    ensures
        in_subtree(ts, x, y),
{
    let k = choose|k: nat| ancestor(ts, y, k) == c;
    lemma_ancestor_add(ts, y, k, 1);
    lemma_ancestor_one(ts, c);
    assert(ancestor(ts, y, k + 1) == x);
}

/// In a forest, a task does not lie below its own child.
pub proof fn lemma_parent_not_below_child(ts: Seq<TaskView>, x: int, c: int)
    requires
        acyclic(ts),
        0 <= c < ts.len(),
        0 <= x < ts.len(),
        parent_index(ts, c) == x,
    ensures
        !in_subtree(ts, c, x),
        c != x,
{
    lemma_ancestor_one(ts, c);
    assert(ancestor(ts, c, 1) != c);
    if in_subtree(ts, c, x) {
        let k = choose|k: nat| ancestor(ts, x, k) == c;
        lemma_ancestor_add(ts, x, k, 1);
        assert(ancestor(ts, x, k + 1) == x);
    }
}

/// A task strictly below `x` lies below one of the children of `x`.
pub proof fn lemma_below_some_child(ts: Seq<TaskView>, x: int, y: int) -> (c: int)
    requires
        in_subtree(ts, x, y),
        y != x,
    ensures
        0 <= c < ts.len(),
        parent_index(ts, c) == x,
        in_subtree(ts, c, y),
{
    let k = choose|k: nat| ancestor(ts, y, k) == x;
    assert(k >= 1);
    let c = ancestor(ts, y, (k - 1) as nat);
    lemma_ancestor_add(ts, y, (k - 1) as nat, 1);
    assert(((k - 1) as nat + 1) as nat == k);
    if !(0 <= c < ts.len()) {
        assert(ancestor(ts, c, 1) == -1);
        assert(false);
    }
    lemma_ancestor_one(ts, c);
    assert(ancestor(ts, y, (k - 1) as nat) == c);
    c
}

/// In a forest, the subtrees of two children of one task do not meet.
pub proof fn lemma_siblings_disjoint(ts: Seq<TaskView>, x: int, c1: int, c2: int, y: int)
    requires
        acyclic(ts),
        0 <= x < ts.len(),
        0 <= c1 < ts.len(),
        0 <= c2 < ts.len(),
        parent_index(ts, c1) == x,
        parent_index(ts, c2) == x,
        in_subtree(ts, c1, y),
        in_subtree(ts, c2, y),
    ensures
        c1 == c2,
{
    let k1 = choose|k: nat| ancestor(ts, y, k) == c1;
    let k2 = choose|k: nat| ancestor(ts, y, k) == c2;
    if k1 <= k2 {
        lemma_siblings_ordered(ts, x, c1, c2, y, k1, k2);
    } else {
        lemma_siblings_ordered(ts, x, c2, c1, y, k2, k1);
    }
}

proof fn lemma_siblings_ordered(ts: Seq<TaskView>, x: int, c1: int, c2: int, y: int, k1: nat, k2: nat)
    requires
        acyclic(ts),
        0 <= x < ts.len(),
        0 <= c1 < ts.len(),
        0 <= c2 < ts.len(),
        parent_index(ts, c1) == x,
        parent_index(ts, c2) == x,
        ancestor(ts, y, k1) == c1,
        ancestor(ts, y, k2) == c2,
        k1 <= k2,
    ensures
        c1 == c2,
{
    let m = (k2 - k1) as nat;
    lemma_ancestor_add(ts, y, k1, m);
    assert((k1 + m) as nat == k2);
    if m > 0 {
        lemma_ancestor_add(ts, c1, m, 1);
        lemma_ancestor_one(ts, c2);
        lemma_ancestor_add(ts, c1, 1, m);
        lemma_ancestor_one(ts, c1);
        assert((m + 1) as nat == (1 + m) as nat);
        assert(ancestor(ts, x, m) == x);
    }
}

/// A child found by its parent reference has its parent at `x`.
pub proof fn lemma_child_parent_index(ts: Seq<TaskView>, x: int, c: int)
    requires
        task_ids_unique(ts),
        0 <= x < ts.len(),
        0 <= c < ts.len(),
        ts[c].parent_id == Some(ts[x].id),
    ensures
        parent_index(ts, c) == x,
{
    lemma_index_of(ts, x);
}

/// The ids of the task at `a` and of every task below it.
pub open spec fn subtree_ids(ts: Seq<TaskView>, a: int) -> Set<Seq<char>> {
    Set::new(|id: Seq<char>| exists|y: int| in_subtree(ts, a, y) && ts[y].id == id)
}

/// The ids of the descendants of the task at `a`.
pub open spec fn descendant_ids(ts: Seq<TaskView>, a: int) -> Set<Seq<char>> {
    Set::new(|id: Seq<char>| exists|y: int| in_subtree(ts, a, y) && y != a && ts[y].id == id)
}

/// Removing the subtree of a task with N descendants removes exactly N + 1
/// rows: the removed ids are the task's and its descendants', the rows left
/// are the others, and none of the removed ids resolves afterwards.
pub proof fn lemma_delete_counts(ts: Seq<TaskView>, a: int)
    requires
        tasks_wf(ts),
        0 <= a < ts.len(),
    ensures
        outside_subtree(ts, a).len() + subtree(ts, a).len() == ts.len(),
        subtree(ts, a).no_duplicates(),
        subtree(ts, a).contains(ts[a]),
        forall|x: int| 0 <= x < ts.len() ==> (subtree(ts, a).contains(#[trigger] ts[x]) <==> in_subtree(ts, a, x)),
        forall|x: int|
            0 <= x < ts.len() ==> (has_task(outside_subtree(ts, a), #[trigger] ts[x].id) <==> !in_subtree(
                ts,
                a,
                x,
            )),
        subtree_ids(ts, a) == descendant_ids(ts, a).insert(ts[a].id),
        !descendant_ids(ts, a).contains(ts[a].id),
        descendant_ids(ts, a).finite(),
        outside_subtree(ts, a).len() == ts.len() - (descendant_ids(ts, a).len() + 1),
        forall|id: Seq<char>|
            has_task(outside_subtree(ts, a), id) <==> has_task(ts, id) && !subtree_ids(ts, a).contains(id),
{
    let n = ts.len() as int;
    let sub = subtree(ts, a);
    lemma_split_prefix(ts, a, n, true);
    lemma_split_prefix(ts, a, n, false);
    lemma_removed_ids(ts, a);
    assert(ancestor(ts, a, 0) == a);
    assert forall|x: int| 0 <= x < ts.len() implies (sub.contains(#[trigger] ts[x]) <==> in_subtree(ts, a, x)) by {
        if sub.contains(ts[x]) {
            let k = choose|k: int| 0 <= k < sub.len() && sub[k] == ts[x];
            assert(drawn_from(ts, a, n, true, sub[k]));
            let i = choose|i: int| 0 <= i < n && sub[k] == ts[i] && in_subtree(ts, a, i) == true;
            assert(ts[i].id == ts[x].id);
        }
    }
    assert forall|i: int, j: int| 0 <= i < sub.len() && 0 <= j < sub.len() && i != j implies sub[i] != sub[j] by {
        assert(sub[i].id != sub[j].id);
    }
    let ids = task_ids(sub);
    assert forall|i: int, j: int| 0 <= i < ids.len() && 0 <= j < ids.len() && i != j implies ids[i] != ids[j] by {
        assert(sub[i].id != sub[j].id);
    }
    assert(ids.to_set() =~= subtree_ids(ts, a)) by {
        assert forall|id: Seq<char>| ids.to_set().contains(id) implies subtree_ids(ts, a).contains(id) by {
            let k = choose|k: int| 0 <= k < ids.len() && ids[k] == id;
            assert(drawn_from(ts, a, n, true, sub[k]));
            let y = choose|y: int| 0 <= y < n && sub[k] == ts[y] && in_subtree(ts, a, y) == true;
            assert(in_subtree(ts, a, y) && ts[y].id == id);
        }
        assert forall|id: Seq<char>| subtree_ids(ts, a).contains(id) implies ids.to_set().contains(id) by {
            let y = choose|y: int| in_subtree(ts, a, y) && ts[y].id == id;
            assert(sub.contains(ts[y]));
            let k = choose|k: int| 0 <= k < sub.len() && sub[k] == ts[y];
            assert(ids[k] == id);
        }
    }
    ids.unique_seq_to_set();
    assert(subtree_ids(ts, a) =~= descendant_ids(ts, a).insert(ts[a].id)) by {
        assert forall|id: Seq<char>| subtree_ids(ts, a).contains(id) implies descendant_ids(ts, a).insert(ts[a].id).contains(id) by {
            let y = choose|y: int| in_subtree(ts, a, y) && ts[y].id == id;
            if y != a {
                assert(descendant_ids(ts, a).contains(id));
            }
        }
        assert(subtree_ids(ts, a).contains(ts[a].id));
    }
    assert(!descendant_ids(ts, a).contains(ts[a].id)) by {
        if descendant_ids(ts, a).contains(ts[a].id) {
            let y = choose|y: int| in_subtree(ts, a, y) && y != a && ts[y].id == ts[a].id;
        }
    }
    assert(descendant_ids(ts, a).finite()) by {
        assert(descendant_ids(ts, a).subset_of(subtree_ids(ts, a)));
        vstd::set_lib::lemma_len_subset(descendant_ids(ts, a), subtree_ids(ts, a));
    }
    assert forall|id: Seq<char>| has_task(outside_subtree(ts, a), id) <==> has_task(ts, id) && !subtree_ids(ts, a).contains(id) by {
        if has_task(ts, id) {
            let x = choose|x: int| 0 <= x < ts.len() && ts[x].id == id;
            assert(has_task(outside_subtree(ts, a), ts[x].id) <==> !in_subtree(ts, a, x));
            if subtree_ids(ts, a).contains(id) {
                let y = choose|y: int| in_subtree(ts, a, y) && ts[y].id == id;
                assert(x == y);
            }
        }
        if has_task(outside_subtree(ts, a), id) {
            let k = choose|k: int| 0 <= k < outside_subtree(ts, a).len() && outside_subtree(ts, a)[k].id == id;
            assert(drawn_from(ts, a, n, false, outside_subtree(ts, a)[k]));
        }
    }
}

} // verus!
