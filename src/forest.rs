use vstd::prelude::*;
use crate::models::TaskView;
use crate::tree::{
    acyclic, ancestor, has_task, in_subtree, index_of, lemma_ancestor_add, lemma_ancestor_end,
    lemma_ancestor_one, parent_index,
};

verus! {

/// A parent position is -1 or a position of the table.
pub proof fn lemma_parent_index_range(ts: Seq<TaskView>, x: int)
    requires
        0 <= x < ts.len(),
    ensures
        parent_index(ts, x) == -1 || 0 <= parent_index(ts, x) < ts.len(),
{
    match ts[x].parent_id {
        Some(p) => {
            if has_task(ts, p) {
                let c = index_of(ts, p);
                assert(0 <= c < ts.len());
            }
        },
        None => {},
    }
}

/// `f` maps the first `m` positions of `ns` into `ts` so that parents map to
/// parents, and the parent of each of those positions is among them or -1.
pub open spec fn embeds(ns: Seq<TaskView>, ts: Seq<TaskView>, m: int, f: spec_fn(int) -> int) -> bool {
    &&& 0 <= m <= ns.len()
    &&& forall|y: int|
        0 <= y < m ==> {
            &&& 0 <= #[trigger] f(y) < ts.len()
            &&& (parent_index(ns, y) == -1 ==> parent_index(ts, f(y)) == -1)
            &&& (parent_index(ns, y) != -1 ==> 0 <= parent_index(ns, y) < m && f(parent_index(ns, y))
                == parent_index(ts, f(y)))
        }
}

/// Parent chains from embedded positions follow the chains they map to.
pub proof fn lemma_embed_chain(ns: Seq<TaskView>, ts: Seq<TaskView>, m: int, f: spec_fn(int) -> int, y: int, k: nat)
    requires
        embeds(ns, ts, m, f),
        0 <= y < m,
    ensures
        ancestor(ns, y, k) == -1 ==> ancestor(ts, f(y), k) == -1,
        ancestor(ns, y, k) != -1 ==> 0 <= ancestor(ns, y, k) < m && f(ancestor(ns, y, k)) == ancestor(
            ts,
            f(y),
            k,
        ),
    decreases k,
{
    if k > 0 {
        let p = parent_index(ns, y);
        assert(0 <= f(y) < ts.len());
        if p == -1 {
            lemma_ancestor_end(ns, (k - 1) as nat);
            lemma_ancestor_end(ts, (k - 1) as nat);
        } else {
            lemma_embed_chain(ns, ts, m, f, p, (k - 1) as nat);
        }
    }
}

/// An embedding into a forest comes from a forest, on the embedded positions.
pub proof fn lemma_embed_acyclic(ns: Seq<TaskView>, ts: Seq<TaskView>, m: int, f: spec_fn(int) -> int, y: int, k: nat)
    requires
        embeds(ns, ts, m, f),
        acyclic(ts),
        0 <= y < m,
        k >= 1,
    ensures
        ancestor(ns, y, k) != y,
{
    lemma_embed_chain(ns, ts, m, f, y, k);
    assert(0 <= f(y) < ts.len());
    assert(ancestor(ts, f(y), k) != f(y));
}

/// Chains after one parent reference is cleared either follow the old chains or
/// have ended.
proof fn lemma_cleared_chain(ts: Seq<TaskView>, ns: Seq<TaskView>, i: int, x: int, k: nat)
    requires
        ns.len() == ts.len(),
        0 <= i < ts.len(),
        parent_index(ns, i) == -1,
        forall|z: int| 0 <= z < ts.len() && z != i ==> parent_index(ns, z) == parent_index(ts, z),
    ensures
        ancestor(ns, x, k) == ancestor(ts, x, k) || ancestor(ns, x, k) == -1,
    decreases k,
{
    if k > 0 && 0 <= x < ts.len() {
        if x == i {
            lemma_ancestor_end(ns, (k - 1) as nat);
        } else {
            lemma_cleared_chain(ts, ns, i, parent_index(ts, x), (k - 1) as nat);
        }
    }
}

/// Clearing one parent reference keeps a forest a forest.
pub proof fn lemma_cleared_acyclic(ts: Seq<TaskView>, ns: Seq<TaskView>, i: int)
    requires
        acyclic(ts),
        ns.len() == ts.len(),
        0 <= i < ts.len(),
        parent_index(ns, i) == -1,
        forall|z: int| 0 <= z < ts.len() && z != i ==> parent_index(ns, z) == parent_index(ts, z),
    ensures
        acyclic(ns),
{
    assert forall|x: int, k: nat| 0 <= x < ns.len() && k >= 1 implies #[trigger] ancestor(ns, x, k) != x by {
        lemma_cleared_chain(ts, ns, i, x, k);
        assert(ancestor(ts, x, k) != x);
    }
}

/// Before a chain reaches the re-pointed task, it follows the old chain.
proof fn lemma_repointed_prefix(ts: Seq<TaskView>, ns: Seq<TaskView>, i: int, x: int, j: nat)
    requires
        ns.len() == ts.len(),
        0 <= i < ts.len(),
        forall|z: int| 0 <= z < ts.len() && z != i ==> parent_index(ns, z) == parent_index(ts, z),
        forall|z: int| 0 <= z < ts.len() ==> parent_index(ts, z) == -1 || 0 <= parent_index(ts, z) < ts.len(),
        forall|z: int| 0 <= z < ns.len() ==> parent_index(ns, z) == -1 || 0 <= parent_index(ns, z) < ns.len(),
        forall|m: nat| m < j ==> ancestor(ns, x, m) != i,
        -1 <= x < ts.len(),
    ensures
        ancestor(ns, x, j) == ancestor(ts, x, j),
        -1 <= ancestor(ts, x, j) < ts.len(),
    decreases j,
{
    if j > 0 {
        let j1 = (j - 1) as nat;
        lemma_repointed_prefix(ts, ns, i, x, j1);
        let a = ancestor(ts, x, j1);
        lemma_ancestor_add(ns, x, j1, 1);
        lemma_ancestor_add(ts, x, j1, 1);
        assert((j1 + 1) as nat == j);
        if a == -1 {
            lemma_ancestor_end(ns, 1);
            lemma_ancestor_end(ts, 1);
        } else {
            assert(ancestor(ns, x, j1) != i);
            lemma_ancestor_one(ns, a);
            lemma_ancestor_one(ts, a);
        }
    } else {
    }
}

/// Giving the task at `i` the parent at `p`, which lies outside its subtree,
/// keeps a forest a forest.
pub proof fn lemma_repointed_acyclic(ts: Seq<TaskView>, ns: Seq<TaskView>, i: int, p: int)
    requires
        acyclic(ts),
        ns.len() == ts.len(),
        0 <= i < ts.len(),
        0 <= p < ts.len(),
        !in_subtree(ts, i, p),
        parent_index(ns, i) == p,
        forall|z: int| 0 <= z < ts.len() && z != i ==> parent_index(ns, z) == parent_index(ts, z),
    ensures
        acyclic(ns),
{
    assert forall|z: int| 0 <= z < ts.len() implies parent_index(ts, z) == -1 || 0 <= parent_index(ts, z) < ts.len() by {
        lemma_parent_index_range(ts, z);
    }
    assert forall|z: int| 0 <= z < ns.len() implies parent_index(ns, z) == -1 || 0 <= parent_index(ns, z) < ns.len() by {
        lemma_parent_index_range(ns, z);
    }
    assert forall|m: nat| ancestor(ns, p, m) != i by {
        assert forall|m2: nat| m2 < m implies ancestor(ns, p, m2) != i by {
            lemma_no_return(ts, ns, i, p, m2);
        }
        lemma_repointed_prefix(ts, ns, i, p, m);
        assert(ancestor(ts, p, m) != i);
    }
    assert forall|x: int, k: nat| 0 <= x < ns.len() && k >= 1 implies #[trigger] ancestor(ns, x, k) != x by {
        if exists|m: nat| m < k && ancestor(ns, x, m) == i {
            let m = choose|m: nat| m < k && ancestor(ns, x, m) == i;
            let rest = (k - m - 1) as nat;
            lemma_ancestor_add(ns, x, m, 1);
            lemma_ancestor_one(ns, i);
            lemma_ancestor_add(ns, x, (m + 1) as nat, rest);
            assert(((m + 1) as nat + rest) as nat == k);
            if ancestor(ns, x, k) == x {
                lemma_ancestor_add(ns, p, rest, m);
                assert(ancestor(ns, p, (rest + m) as nat) == i);
            }
        } else {
            lemma_repointed_prefix(ts, ns, i, x, k);
            assert(ancestor(ts, x, k) != x);
        }
    }
}

/// The chain from `p` never reaches `i` when `p` lies outside the subtree of `i`.
proof fn lemma_no_return(ts: Seq<TaskView>, ns: Seq<TaskView>, i: int, p: int, m: nat)
    requires
        ns.len() == ts.len(),
        0 <= i < ts.len(),
        0 <= p < ts.len(),
        !in_subtree(ts, i, p),
        forall|z: int| 0 <= z < ts.len() && z != i ==> parent_index(ns, z) == parent_index(ts, z),
        forall|z: int| 0 <= z < ts.len() ==> parent_index(ts, z) == -1 || 0 <= parent_index(ts, z) < ts.len(),
        forall|z: int| 0 <= z < ns.len() ==> parent_index(ns, z) == -1 || 0 <= parent_index(ns, z) < ns.len(),
    ensures
        ancestor(ns, p, m) != i,
    decreases m,
{
    assert forall|m2: nat| m2 < m implies ancestor(ns, p, m2) != i by {
        lemma_no_return(ts, ns, i, p, m2);
    }
    lemma_repointed_prefix(ts, ns, i, p, m);
    assert(ancestor(ts, p, m) != i);
}

} // verus!
