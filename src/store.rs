use vstd::prelude::*;
use vstd::string::*;
use crate::error::{AppError, AppResult, ErrorKind, fails_with, not_found};
use crate::models::{
    Note, NoteView, Project, ProjectView, Task, TaskView, notes_view, projects_view, strs_view,
    tasks_view,
};
use crate::tree::{
    ancestor, in_subtree, index_of, parent_index, tasks_wf, task_ids_unique,
    has_task, lemma_index_of, lemma_child_in_subtree, lemma_outside_wf, split_prefix, subtree,
    outside_subtree,
};

verus! {

/// The tables of the store as plain values.
pub struct StoreTables {
    pub projects: Seq<ProjectView>,
    pub tasks: Seq<TaskView>,
    pub notes: Seq<NoteView>,
}

/// The store: the project, task and note tables, held in memory.
///
/// Every operation that takes `&mut DbService` runs to completion before any
/// other can observe the tables, so a cascade is never seen half done.
pub struct DbService {
    projects: Vec<Project>,
    tasks: Vec<Task>,
    notes: Vec<Note>,
}

impl View for DbService {
    type V = StoreTables;

    closed spec fn view(&self) -> StoreTables {
        StoreTables {
            projects: projects_view(self.projects@),
            tasks: tasks_view(self.tasks@),
            notes: notes_view(self.notes@),
        }
    }
}

/// No two projects share an id or a path.
pub open spec fn projects_wf(ps: Seq<ProjectView>) -> bool {
    forall|i: int, j: int|
        0 <= i < ps.len() && 0 <= j < ps.len() && i != j ==> ps[i].id != ps[j].id && ps[i].path
            != ps[j].path
}

/// Every note has a non-empty id, and no two notes share one.
pub open spec fn notes_wf(ns: Seq<NoteView>) -> bool {
    &&& forall|i: int| 0 <= i < ns.len() ==> (#[trigger] ns[i]).id.len() > 0
    &&& forall|i: int, j: int| 0 <= i < ns.len() && 0 <= j < ns.len() && i != j ==> ns[i].id != ns[j].id
}

/// The store is well formed.
pub open spec fn store_wf(s: StoreTables) -> bool {
    projects_wf(s.projects) && tasks_wf(s.tasks) && notes_wf(s.notes)
}

/// The number of `true` entries.
pub open spec fn count_true(s: Seq<bool>) -> nat
    decreases s.len(),
{
    if s.len() == 0 {
        0
    } else {
        count_true(s.drop_last()) + if s.last() { 1nat } else { 0nat }
    }
}

pub proof fn lemma_count_true_bound(s: Seq<bool>)
    ensures
        count_true(s) <= s.len(),
    decreases s.len(),
{
    if s.len() > 0 {
        lemma_count_true_bound(s.drop_last());
    }
}

pub proof fn lemma_count_true_set(s: Seq<bool>, i: int)
    requires
        0 <= i < s.len(),
        !s[i],
    ensures
        count_true(s.update(i, true)) == count_true(s) + 1,
    decreases s.len(),
{
    let t = s.update(i, true);
    if i == s.len() - 1 {
        assert(t.drop_last() =~= s.drop_last());
    } else {
        assert(t.drop_last() =~= s.drop_last().update(i, true));
        lemma_count_true_set(s.drop_last(), i);
    }
}

/// `parents[x]` is the position of the parent of the task at `x`, or the
/// number of tasks where there is none.
pub open spec fn parent_slot(ts: Seq<TaskView>, parents: Seq<usize>, x: int) -> bool {
    let p = parent_index(ts, x);
    &&& (parents[x] < ts.len() ==> parents[x] == p)
    &&& (parents[x] == ts.len() ==> p == -1)
    &&& parents[x] <= ts.len()
}

/// A table of parent positions for every task.
pub open spec fn parent_table(ts: Seq<TaskView>, parents: Seq<usize>) -> bool {
    parents.len() == ts.len() && forall|x: int| 0 <= x < ts.len() ==> #[trigger] parent_slot(ts, parents, x)
}

/// Whether two strings hold the same characters.
pub fn same_text(a: &String, b: &String) -> (r: bool)
    ensures
        r == (a@ == b@),
{
    *a == *b
}

impl DbService {
    /// The store is well formed.
    pub open spec fn wf(&self) -> bool {
        store_wf(self@)
    }

    /// An empty store.
    pub fn new() -> (r: DbService)
        ensures
            r.wf(),
            r@.projects.len() == 0,
            r@.tasks.len() == 0,
            r@.notes.len() == 0,
    {
        let r = DbService { projects: Vec::new(), tasks: Vec::new(), notes: Vec::new() };
        assert(r@.tasks =~= Seq::<TaskView>::empty());
        assert(r@.projects =~= Seq::<ProjectView>::empty());
        assert(r@.notes =~= Seq::<NoteView>::empty());
        r
    }

    /// The number of tasks in the store.
    pub fn task_count(&self) -> (r: usize)
        ensures
            r == self@.tasks.len(),
    {
        self.tasks.len()
    }

    /// The position of the task with the given id.
    pub fn find_task(&self, id: &String) -> (r: Option<usize>)
        requires
            task_ids_unique(self@.tasks),
        ensures
            match r {
                Some(i) => i < self@.tasks.len() && self@.tasks[i as int].id == id@ && i == index_of(
                    self@.tasks,
                    id@,
                ),
                None => !has_task(self@.tasks, id@) && index_of(self@.tasks, id@) == -1,
            },
    {
        let mut i: usize = 0;
        while i < self.tasks.len()
            invariant
                i <= self.tasks.len(),
                self@.tasks.len() == self.tasks@.len(),
                task_ids_unique(self@.tasks),
                forall|k: int| 0 <= k < i ==> self@.tasks[k].id != id@,
            decreases self.tasks.len() - i,
        {
            if same_text(&self.tasks[i].id, id) {
                proof {
                    lemma_index_of(self@.tasks, i as int);
                }
                return Some(i);
            }
            i = i + 1;
        }
        None
    }

    /// The task at a position.
    pub fn task_at(&self, i: usize) -> (r: &Task)
        requires
            i < self@.tasks.len(),
        ensures
            r@ == self@.tasks[i as int],
    {
        &self.tasks[i]
    }

    /// The position of the parent of every task; the number of tasks stands for
    /// "no parent".
    fn parent_positions(&self) -> (r: Vec<usize>)
        requires
            self.wf(),
        ensures
            r@.len() == self@.tasks.len(),
            parent_table(self@.tasks, r@),
    {
        let n = self.tasks.len();
        let mut r: Vec<usize> = Vec::new();
        let mut x: usize = 0;
        while x < n
            invariant
                x <= n,
                n == self.tasks@.len(),
                n == self@.tasks.len(),
                self.wf(),
                r@.len() == x,
                forall|y: int| 0 <= y < x ==> #[trigger] parent_slot(self@.tasks, r@, y),
            decreases n - x,
        {
            let pos = match &self.tasks[x].parent_id {
                Some(pid) => match self.find_task(pid) {
                    Some(p) => p,
                    None => n,
                },
                None => n,
            };
            let ghost prev = r@;
            r.push(pos);
            proof {
                assert forall|y: int| 0 <= y < x + 1 implies #[trigger] parent_slot(self@.tasks, r@, y) by {
                    if y < x {
                        assert(parent_slot(self@.tasks, prev, y));
                    }
                }
            }
            x = x + 1;
        }
        r
    }

    /// Marks the task at `a` and all its descendants.
    fn subtree_marks(&self, a: usize) -> (marks: Vec<bool>)
        requires
            self.wf(),
            a < self@.tasks.len(),
        ensures
            marks@.len() == self@.tasks.len(),
            forall|x: int| 0 <= x < marks@.len() ==> marks@[x] == in_subtree(self@.tasks, a as int, x),
    {
        let ghost ts = self@.tasks;
        let n = self.tasks.len();
        let parents = self.parent_positions();
        let mut marks: Vec<bool> = Vec::new();
        let mut i: usize = 0;
        while i < n
            invariant
                i <= n,
                marks@.len() == i,
                forall|y: int| 0 <= y < i ==> !marks@[y],
            decreases n - i,
        {
            marks.push(false);
            i = i + 1;
        }
        marks.set(a, true);
        proof {
            assert(ancestor(ts, a as int, 0) == a);
            lemma_count_true_bound(marks@);
        }
        loop
            invariant
                ts == self@.tasks,
                n == ts.len(),
                parents@.len() == n,
                parent_table(ts, parents@),
                marks@.len() == n,
                a < n,
                marks@[a as int],
                forall|x: int| 0 <= x < n && #[trigger] marks@[x] ==> in_subtree(ts, a as int, x),
                count_true(marks@) <= n,
            decreases n - count_true(marks@),
        {
            let ghost start = marks@;
            let mut changed = false;
            let mut x: usize = 0;
            while x < n
                invariant
                    ts == self@.tasks,
                    n == ts.len(),
                    parents@.len() == n,
                    parent_table(ts, parents@),
                    x <= n,
                    marks@.len() == n,
                    a < n,
                    marks@[a as int],
                    forall|y: int| 0 <= y < n && #[trigger] marks@[y] ==> in_subtree(ts, a as int, y),
                    count_true(marks@) <= n,
                    changed ==> count_true(marks@) > count_true(start),
                    !changed ==> marks@ == start,
                    !changed ==> forall|y: int|
                        0 <= y < x && parents@[y] < n && #[trigger] marks@[parents@[y] as int]
                            ==> marks@[y],
                decreases n - x,
            {
                let p = parents[x];
                if !marks[x] && p < n && marks[p] {
                    proof {
                        assert(parent_slot(ts, parents@, x as int));
                        lemma_child_in_subtree(ts, a as int, x as int);
                        lemma_count_true_set(marks@, x as int);
                        lemma_count_true_bound(marks@.update(x as int, true));
                    }
                    marks.set(x, true);
                    changed = true;
                }
                x = x + 1;
            }
            if !changed {
                proof {
                    assert forall|y: int| 0 <= y < n implies marks@[y] == in_subtree(ts, a as int, y) by {
                        if in_subtree(ts, a as int, y) {
                            let k = choose|k: nat| ancestor(ts, y, k) == a;
                            lemma_closed_marks(ts, parents@, marks@, a as int, y, k);
                        } else {
                            assert(!marks@[y]);
                        }
                    }
                }
                return marks;
            }
        }
    }
}

impl DbService {
    /// The position of the project with the given id.
    pub fn find_project(&self, id: &String) -> (r: Option<usize>)
        requires
            self.wf(),
        ensures
            match r {
                Some(i) => i < self@.projects.len() && self@.projects[i as int].id == id@ && i
                    == project_index(self@.projects, id@),
                None => !has_project_id(self@.projects, id@),
            },
    {
        let mut i: usize = 0;
        while i < self.projects.len()
            invariant
                i <= self.projects.len(),
                self@.projects.len() == self.projects@.len(),
                self.wf(),
                forall|k: int| 0 <= k < i ==> self@.projects[k].id != id@,
            decreases self.projects.len() - i,
        {
            if same_text(&self.projects[i].id, id) {
                proof {
                    assert(self@.projects[i as int].id == id@);
                    assert(has_project_id(self@.projects, id@));
                    let c = project_index(self@.projects, id@);
                    assert(self@.projects[c].id == id@);
                }
                return Some(i);
            }
            i = i + 1;
        }
        None
    }

    /// Whether some project has the given path.
    pub fn path_taken(&self, path: &String) -> (r: bool)
        ensures
            r == exists|i: int| 0 <= i < self@.projects.len() && self@.projects[i].path == path@,
    {
        let mut i: usize = 0;
        while i < self.projects.len()
            invariant
                i <= self.projects.len(),
                self@.projects.len() == self.projects@.len(),
                forall|k: int| 0 <= k < i ==> self@.projects[k].path != path@,
            decreases self.projects.len() - i,
        {
            if same_text(&self.projects[i].path, path) {
                assert(self@.projects[i as int].path == path@);
                return true;
            }
            i = i + 1;
        }
        false
    }

    /// The project at a position.
    pub fn project_at(&self, i: usize) -> (r: &Project)
        requires
            i < self@.projects.len(),
        ensures
            r@ == self@.projects[i as int],
    {
        &self.projects[i]
    }

    /// Adds a task row. Fails with InvalidInput on an empty id, Conflict when
    /// its id is taken, NotFound when
    /// its parent does not resolve, and InvalidInput when the parent belongs to
    /// another project.
    pub fn insert_task(&mut self, task: Task) -> (r: AppResult<()>)
        requires
            old(self).wf(),
        ensures
            final(self).wf(),
            r is Ok <==> insert_task_ok(old(self)@.tasks, task@),
            r is Ok ==> final(self)@ == (StoreTables { tasks: old(self)@.tasks.push(task@), ..old(self)@ }),
            r is Err ==> final(self)@ == old(self)@,
            has_task(old(self)@.tasks, task@.id) ==> fails_with(r, ErrorKind::Conflict),
            task@.id.len() == 0 ==> fails_with(r, ErrorKind::InvalidInput),
            task@.id.len() > 0 && !has_task(old(self)@.tasks, task@.id) && task@.parent_id is Some && !has_task(
                old(self)@.tasks,
                task@.parent_id->0,
            ) ==> not_found(r, "Task"@, task@.parent_id->0),
    {
        if task.id.as_str().is_empty() {
            return Err(AppError::InvalidInput(String::from_str("Task id cannot be empty")));
        }
        if self.find_task(&task.id).is_some() {
            return Err(AppError::Conflict(String::from_str("Task id already exists")));
        }
        if let Some(pid) = &task.parent_id {
            match self.find_task(pid) {
                None => {
                    return Err(AppError::NotFound("Task", pid.clone()));
                },
                Some(p) => {
                    if !same_text(&self.tasks[p].project_id, &task.project_id) {
                        return Err(
                            AppError::InvalidInput(
                                String::from_str("Parent task belongs to another project"),
                            ),
                        );
                    }
                },
            }
        }
        let ghost ts = self@.tasks;
        self.tasks.push(task);
        proof {
            let ns = self@.tasks;
            assert(ns =~= ts.push(task@));
            lemma_push_wf(ts, task@);
        }
        Ok(())
    }

    /// Replaces the task at a position by one with the same id and the same
    /// parent reference.
    pub(crate) fn set_task(&mut self, i: usize, t: Task)
        requires
            old(self).wf(),
            i < old(self)@.tasks.len(),
            t@.id == old(self)@.tasks[i as int].id,
            t@.project_id == old(self)@.tasks[i as int].project_id,
            t@.parent_id == old(self)@.tasks[i as int].parent_id,
        ensures
            final(self).wf(),
            final(self)@ == (StoreTables {
                tasks: old(self)@.tasks.update(i as int, t@),
                ..old(self)@
            }),
    {
        let ghost ts = self@.tasks;
        self.tasks.set(i, t);
        proof {
            assert(self@.tasks =~= ts.update(i as int, t@));
            lemma_update_same_links_wf(ts, i as int, t@);
        }
    }

    /// Gives the task at `i` the parent at `p`, which must not lie in its
    /// subtree.
    pub(crate) fn set_parent(&mut self, i: usize, p: usize)
        requires
            old(self).wf(),
            i < old(self)@.tasks.len(),
            p < old(self)@.tasks.len(),
            old(self)@.tasks[p as int].project_id == old(self)@.tasks[i as int].project_id,
            !in_subtree(old(self)@.tasks, i as int, p as int),
        ensures
            final(self).wf(),
            final(self)@ == (StoreTables {
                tasks: old(self)@.tasks.update(
                    i as int,
                    TaskView { parent_id: Some(old(self)@.tasks[p as int].id), ..old(self)@.tasks[i as int] },
                ),
                ..old(self)@
            }),
    {
        let ghost ts = self@.tasks;
        let pid = self.tasks[p].id.clone();
        let mut t = self.tasks[i].duplicate();
        t.parent_id = Some(pid);
        self.tasks.set(i, t);
        proof {
            let nt = TaskView { parent_id: Some(ts[p as int].id), ..ts[i as int] };
            assert(self@.tasks =~= ts.update(i as int, nt));
            lemma_reparent_wf(ts, i as int, p as int);
        }
    }

    /// Whether the task at `x` is the task at `a` or lies below it.
    pub fn is_in_subtree(&self, a: usize, x: usize) -> (r: bool)
        requires
            self.wf(),
            a < self@.tasks.len(),
            x < self@.tasks.len(),
        ensures
            r == in_subtree(self@.tasks, a as int, x as int),
    {
        let marks = self.subtree_marks(a);
        marks[x]
    }

    /// Makes the task at `i` a root task.
    pub(crate) fn clear_parent(&mut self, i: usize)
        requires
            old(self).wf(),
            i < old(self)@.tasks.len(),
        ensures
            final(self).wf(),
            final(self)@ == (StoreTables {
                tasks: old(self)@.tasks.update(i as int, TaskView { parent_id: None, ..old(self)@.tasks[i as int] }),
                ..old(self)@
            }),
    {
        let ghost ts = self@.tasks;
        let mut t = self.tasks[i].duplicate();
        t.parent_id = None;
        self.tasks.set(i, t);
        proof {
            let ns = self@.tasks;
            assert(ns =~= ts.update(i as int, TaskView { parent_id: None, ..ts[i as int] }));
            assert forall|x: int| 0 <= x < ns.len() && (#[trigger] ns[x]).parent_id is Some implies {
                let q = parent_index(ns, x);
                0 <= q < ns.len() && ns[q].project_id == ns[x].project_id
            } by {
                lemma_same_ids_index_of(ts, ns, ns[x].parent_id->0);
                assert(parent_index(ns, x) == parent_index(ts, x));
            }
            lemma_same_ids_index_of(ts, ns, ts[0].id);
            assert forall|z: int| 0 <= z < ts.len() && z != i implies parent_index(ns, z) == parent_index(ts, z) by {
                match ns[z].parent_id {
                    Some(pid) => {
                        lemma_same_ids_index_of(ts, ns, pid);
                    },
                    None => {},
                }
            }
            crate::forest::lemma_cleared_acyclic(ts, ns, i as int);
        }
    }

    /// Removes the task at `a` and every task below it, and gives back the ids
    /// that were removed, in store order.
    pub fn remove_subtree(&mut self, a: usize) -> (removed: Vec<String>)
        requires
            old(self).wf(),
            a < old(self)@.tasks.len(),
        ensures
            final(self).wf(),
            final(self)@ == (StoreTables { tasks: outside_subtree(old(self)@.tasks, a as int), ..old(self)@ }),
            strs_view(removed@) == task_ids(subtree(old(self)@.tasks, a as int)),
    {
        let ghost ts = self@.tasks;
        let n = self.tasks.len();
        let marks = self.subtree_marks(a);
        let mut kept: Vec<Task> = Vec::new();
        let mut removed: Vec<String> = Vec::new();
        let mut j: usize = 0;
        while j < n
            invariant
                ts == self@.tasks,
                n == ts.len(),
                j <= n,
                marks@.len() == n,
                forall|x: int| 0 <= x < n ==> marks@[x] == in_subtree(ts, a as int, x),
                tasks_view(kept@) == split_prefix(ts, a as int, j as int, false),
                strs_view(removed@) == task_ids(split_prefix(ts, a as int, j as int, true)),
            decreases n - j,
        {
            if marks[j] {
                let ghost prev = removed@;
                removed.push(self.tasks[j].id.clone());
                proof {
                    assert(strs_view(removed@) =~= strs_view(prev).push(ts[j as int].id));
                    assert(task_ids(split_prefix(ts, a as int, j + 1, true)) =~= task_ids(
                        split_prefix(ts, a as int, j as int, true),
                    ).push(ts[j as int].id));
                }
            } else {
                let ghost prev = kept@;
                kept.push(self.tasks[j].duplicate());
                proof {
                    assert(tasks_view(kept@) =~= tasks_view(prev).push(ts[j as int]));
                }
            }
            j = j + 1;
        }
        self.tasks = kept;
        proof {
            lemma_outside_wf(ts, a as int);
        }
        removed
    }
}

impl DbService {
    /// The positions of the tasks whose parent reference is `pid`, sorted by
    /// sibling order.
    pub fn child_positions(&self, pid: &String) -> (r: Vec<usize>)
        requires
            task_ids_unique(self@.tasks),
        ensures
            positions_sorted(self@.tasks, r@),
            r@.no_duplicates(),
            forall|k: int| 0 <= k < r@.len() ==> r@[k] < self@.tasks.len(),
            forall|j: int|
                0 <= j < self@.tasks.len() ==> (r@.contains(j as usize) <==> is_child_of(
                    self@.tasks[j],
                    pid@,
                )),
    {
        let ghost ts = self@.tasks;
        let n = self.tasks.len();
        let mut r: Vec<usize> = Vec::new();
        let mut j: usize = 0;
        while j < n
            invariant
                ts == self@.tasks,
                n == ts.len(),
                j <= n,
                positions_sorted(ts, r@),
                r@.no_duplicates(),
                forall|k: int| 0 <= k < r@.len() ==> r@[k] < j,
                forall|y: int| 0 <= y < j ==> (r@.contains(y as usize) <==> is_child_of(ts[y], pid@)),
            decreases n - j,
        {
            if self.tasks[j].parent_id.is_some() && same_text(
                self.tasks[j].parent_id.as_ref().unwrap(),
                pid,
            ) {
                let t = &self.tasks[j];
                let mut p: usize = 0;
                while p < r.len() && !sibling_gt_exec(&self.tasks[r[p]], t)
                    invariant
                        ts == self@.tasks,
                        n == ts.len(),
                        j < n,
                        t@ == ts[j as int],
                        p <= r@.len(),
                        forall|k: int| 0 <= k < r@.len() ==> r@[k] < j,
                        forall|k: int| 0 <= k < p ==> !sibling_gt(ts[r@[k] as int], ts[j as int]),
                    decreases r@.len() - p,
                {
                    p = p + 1;
                }
                let ghost prev = r@;
                r.insert(p, j);
                proof {
                    assert(r@ == prev.insert(p as int, j));
                    assert forall|a: int, b: int| 0 <= a < b < r@.len() implies sibling_le(
                        ts[r@[a] as int],
                        ts[r@[b] as int],
                    ) by {
                        if p < prev.len() {
                            assert(sibling_gt(ts[prev[p as int] as int], ts[j as int]));
                        }
                        if b < p {
                            assert(r@[a] == prev[a] && r@[b] == prev[b]);
                        } else if b == p {
                            assert(!sibling_gt(ts[prev[a] as int], ts[j as int]));
                        } else if a == p {
                            assert(r@[b] == prev[b - 1]);
                            if p < b - 1 {
                                assert(sibling_le(ts[prev[p as int] as int], ts[prev[b - 1] as int]));
                            }
                        } else if a < p {
                            assert(r@[a] == prev[a] && r@[b] == prev[b - 1]);
                        } else {
                            assert(r@[a] == prev[a - 1] && r@[b] == prev[b - 1]);
                        }
                    }
                    assert forall|y: int| 0 <= y < j + 1 implies (r@.contains(y as usize) <==> is_child_of(ts[y], pid@)) by {
                        if y < j && prev.contains(y as usize) {
                            let k = choose|k: int| 0 <= k < prev.len() && prev[k] == y as usize;
                            if k < p {
                                assert(r@[k] == prev[k]);
                            } else {
                                assert(r@[k + 1] == prev[k]);
                            }
                        }
                        if r@.contains(y as usize) && y < j {
                            let k = choose|k: int| 0 <= k < r@.len() && r@[k] == y as usize;
                            if k < p {
                                assert(prev[k] == y);
                            } else if k > p {
                                assert(prev[k - 1] == y);
                            }
                        }
                        if y == j {
                            assert(r@[p as int] == j);
                        }
                    }
                    assert forall|a: int, b: int| 0 <= a < r@.len() && 0 <= b < r@.len() && a != b implies r@[a] != r@[b] by {
                        if a != p && b != p {
                            let a2 = if a < p { a } else { a - 1 };
                            let b2 = if b < p { b } else { b - 1 };
                            assert(r@[a] == prev[a2] && r@[b] == prev[b2]);
                        } else if a == p {
                            let b2 = if b < p { b } else { b - 1 };
                            assert(r@[b] == prev[b2]);
                        } else {
                            let a2 = if a < p { a } else { a - 1 };
                            assert(r@[a] == prev[a2]);
                        }
                    }
                }
            } else {
                proof {
                    assert(!is_child_of(ts[j as int], pid@));
                }
            }
            j = j + 1;
        }
        r
    }
}

/// The task's parent reference is `pid`.
pub open spec fn is_child_of(t: TaskView, pid: Seq<char>) -> bool {
    t.parent_id == Some(pid)
}

/// Sibling order: by `order`, then by creation time.
pub open spec fn sibling_le(a: TaskView, b: TaskView) -> bool {
    a.order < b.order || (a.order == b.order && a.created_at <= b.created_at)
}

/// `a` comes strictly after `b` in sibling order.
pub open spec fn sibling_gt(a: TaskView, b: TaskView) -> bool {
    !sibling_le(a, b)
}

/// The tasks at these positions are in sibling order.
pub open spec fn positions_sorted(ts: Seq<TaskView>, ps: Seq<usize>) -> bool {
    forall|a: int, b: int| 0 <= a < b < ps.len() ==> sibling_le(ts[ps[a] as int], ts[ps[b] as int])
}

/// A list of tasks is in sibling order.
pub open spec fn tasks_sorted(ts: Seq<TaskView>) -> bool {
    forall|a: int, b: int| 0 <= a < b < ts.len() ==> sibling_le(ts[a], ts[b])
}

/// Whether `a` comes strictly after `b` in sibling order.
pub fn sibling_gt_exec(a: &Task, b: &Task) -> (r: bool)
    ensures
        r == sibling_gt(a@, b@),
{
    !(a.order < b.order || (a.order == b.order && a.created_at <= b.created_at))
}

impl DbService {
    /// Adds a project row. Fails with Conflict when its id or its path is
    /// taken.
    pub fn insert_project(&mut self, project: Project) -> (r: AppResult<()>)
        requires
            old(self).wf(),
        ensures
            final(self).wf(),
            r is Ok <==> !has_project_id(old(self)@.projects, project@.id) && !path_in_use(old(self)@.projects, project@.path),
            r is Ok ==> final(self)@ == (StoreTables { projects: old(self)@.projects.push(project@), ..old(self)@ }),
            r is Err ==> fails_with(r, ErrorKind::Conflict) && final(self)@ == old(self)@,
    {
        if self.find_project(&project.id).is_some() {
            return Err(AppError::Conflict(String::from_str("Project id already exists")));
        }
        if self.path_taken(&project.path) {
            return Err(AppError::Conflict(String::from_str("Project path already exists")));
        }
        let ghost ps = self@.projects;
        self.projects.push(project);
        proof {
            let ns = self@.projects;
            assert(ns =~= ps.push(project@));
            assert forall|i: int, j: int| 0 <= i < ns.len() && 0 <= j < ns.len() && i != j implies ns[i].id
                != ns[j].id && ns[i].path != ns[j].path by {
                if i < ps.len() {
                    assert(ns[i] == ps[i]);
                }
                if j < ps.len() {
                    assert(ns[j] == ps[j]);
                }
            }
        }
        Ok(())
    }

    /// Replaces the project at a position by one with the same id and path.
    pub(crate) fn set_project(&mut self, i: usize, p: Project)
        requires
            old(self).wf(),
            i < old(self)@.projects.len(),
            p@.id == old(self)@.projects[i as int].id,
            p@.path == old(self)@.projects[i as int].path,
        ensures
            final(self).wf(),
            final(self)@ == (StoreTables {
                projects: old(self)@.projects.update(i as int, p@),
                ..old(self)@
            }),
    {
        let ghost ps = self@.projects;
        self.projects.set(i, p);
        proof {
            assert(self@.projects =~= ps.update(i as int, p@));
        }
    }

    /// The number of projects in the store.
    pub fn project_count(&self) -> (r: usize)
        ensures
            r == self@.projects.len(),
    {
        self.projects.len()
    }

}

/// Some project has the given id.
pub open spec fn has_project_id(ps: Seq<ProjectView>, id: Seq<char>) -> bool {
    exists|i: int| 0 <= i < ps.len() && ps[i].id == id
}

/// The position of the project with the given id.
pub open spec fn project_index(ps: Seq<ProjectView>, id: Seq<char>) -> int {
    choose|i: int| 0 <= i < ps.len() && ps[i].id == id
}

impl DbService {
    /// The number of notes in the store.
    pub fn note_count(&self) -> (r: usize)
        ensures
            r == self@.notes.len(),
    {
        self.notes.len()
    }

    /// The note at a position.
    pub fn note_at(&self, i: usize) -> (r: &Note)
        requires
            i < self@.notes.len(),
        ensures
            r@ == self@.notes[i as int],
    {
        &self.notes[i]
    }

    /// The position of the note with the given id.
    pub fn find_note(&self, id: &String) -> (r: Option<usize>)
        requires
            self.wf(),
        ensures
            match r {
                Some(i) => i < self@.notes.len() && self@.notes[i as int].id == id@ && i == note_index(
                    self@.notes,
                    id@,
                ),
                None => !has_note(self@.notes, id@),
            },
    {
        let mut i: usize = 0;
        while i < self.notes.len()
            invariant
                i <= self.notes.len(),
                self@.notes.len() == self.notes@.len(),
                self.wf(),
                forall|k: int| 0 <= k < i ==> self@.notes[k].id != id@,
            decreases self.notes.len() - i,
        {
            if same_text(&self.notes[i].id, id) {
                proof {
                    assert(self@.notes[i as int].id == id@);
                    assert(has_note(self@.notes, id@));
                    let c = note_index(self@.notes, id@);
                    assert(self@.notes[c].id == id@);
                }
                return Some(i);
            }
            i = i + 1;
        }
        None
    }

    /// Adds a note row. Fails with InvalidInput on an empty id and with
    /// Conflict when its id is taken.
    pub fn insert_note(&mut self, note: Note) -> (r: AppResult<()>)
        requires
            old(self).wf(),
        ensures
            final(self).wf(),
            r is Ok <==> note@.id.len() > 0 && !has_note(old(self)@.notes, note@.id),
            r is Ok ==> final(self)@ == (StoreTables { notes: old(self)@.notes.push(note@), ..old(self)@ }),
            r is Err ==> final(self)@ == old(self)@,
            note@.id.len() == 0 ==> fails_with(r, ErrorKind::InvalidInput),
            has_note(old(self)@.notes, note@.id) ==> fails_with(r, ErrorKind::Conflict),
    {
        if note.id.as_str().is_empty() {
            return Err(AppError::InvalidInput(String::from_str("Note id cannot be empty")));
        }
        if self.find_note(&note.id).is_some() {
            return Err(AppError::Conflict(String::from_str("Note id already exists")));
        }
        let ghost ns0 = self@.notes;
        self.notes.push(note);
        proof {
            let ns = self@.notes;
            assert(ns =~= ns0.push(note@));
            assert forall|i: int, j: int| 0 <= i < ns.len() && 0 <= j < ns.len() && i != j implies ns[i].id
                != ns[j].id by {
                if i < ns0.len() {
                    assert(ns[i] == ns0[i]);
                }
                if j < ns0.len() {
                    assert(ns[j] == ns0[j]);
                }
            }
        }
        Ok(())
    }

    /// Replaces the note at a position by one with the same id.
    pub(crate) fn set_note(&mut self, i: usize, n: Note)
        requires
            old(self).wf(),
            i < old(self)@.notes.len(),
            n@.id == old(self)@.notes[i as int].id,
        ensures
            final(self).wf(),
            final(self)@ == (StoreTables { notes: old(self)@.notes.update(i as int, n@), ..old(self)@ }),
    {
        let ghost ns0 = self@.notes;
        self.notes.set(i, n);
        proof {
            assert(self@.notes =~= ns0.update(i as int, n@));
        }
    }

    /// Removes the note at a position.
    pub fn remove_note(&mut self, i: usize)
        requires
            old(self).wf(),
            i < old(self)@.notes.len(),
        ensures
            final(self).wf(),
            final(self)@ == (StoreTables { notes: old(self)@.notes.remove(i as int), ..old(self)@ }),
    {
        let ghost ns0 = self@.notes;
        self.notes.remove(i);
        proof {
            let ns = self@.notes;
            assert(ns =~= ns0.remove(i as int));
            assert forall|a: int, b: int| 0 <= a < ns.len() && 0 <= b < ns.len() && a != b implies ns[a].id
                != ns[b].id by {
                let a2 = if a < i { a } else { a + 1 };
                let b2 = if b < i { b } else { b + 1 };
                assert(ns[a] == ns0[a2] && ns[b] == ns0[b2]);
            }
        }
    }
}

impl DbService {
    /// Adds task rows read back from storage, in any order: a row is added once
    /// its parent is present, and rows that never can be (a duplicate id, a
    /// parent that does not resolve, a cycle) are handed back.
    pub fn load_tasks(&mut self, rows: Vec<Task>) -> (rejected: Vec<Task>)
        requires
            old(self).wf(),
        ensures
            final(self).wf(),
            final(self)@.projects == old(self)@.projects,
            final(self)@.notes == old(self)@.notes,
            old(self)@.tasks.len() <= final(self)@.tasks.len(),
            final(self)@.tasks.subrange(0, old(self)@.tasks.len() as int) == old(self)@.tasks,
            final(self)@.tasks.len() + rejected@.len() == old(self)@.tasks.len() + rows@.len(),
            forall|k: int| 0 <= k < rejected@.len() ==> !insert_task_ok(final(self)@.tasks, #[trigger] rejected@[k]@),
    {
        let ghost start = self@;
        let mut pending = rows;
        loop
            invariant
                start == old(self)@,
                self.wf(),
                self@.projects == start.projects,
                self@.notes == start.notes,
                start.tasks.len() <= self@.tasks.len(),
                self@.tasks.subrange(0, start.tasks.len() as int) == start.tasks,
                self@.tasks.len() + pending@.len() == start.tasks.len() + rows@.len(),
            decreases pending@.len(),
        {
            let mut next: Vec<Task> = Vec::new();
            let before = pending.len();
            let ghost tasks_before = self@.tasks;
            while pending.len() > 0
                invariant
                    start == old(self)@,
                    self.wf(),
                    self@.projects == start.projects,
                    self@.notes == start.notes,
                    tasks_before.len() <= self@.tasks.len(),
                    self@.tasks.subrange(0, tasks_before.len() as int) == tasks_before,
                    start.tasks.len() <= tasks_before.len(),
                    tasks_before.subrange(0, start.tasks.len() as int) == start.tasks,
                    self@.tasks.len() + pending@.len() + next@.len() == tasks_before.len() + before,
                    self@.tasks.len() == tasks_before.len() ==> forall|k: int|
                        0 <= k < next@.len() ==> !insert_task_ok(self@.tasks, #[trigger] next@[k]@),
                decreases pending@.len(),
            {
                let t = pending.pop().unwrap();
                let ghost ts0 = self@.tasks;
                let keep = t.duplicate();
                match self.insert_task(t) {
                    Ok(()) => {
                        assert(self@.tasks.subrange(0, tasks_before.len() as int) =~= ts0.subrange(
                            0,
                            tasks_before.len() as int,
                        ));
                    },
                    Err(_) => {
                        let ghost prev = next@;
                        next.push(keep);
                        assert forall|k: int| 0 <= k < next@.len() && self@.tasks.len() == tasks_before.len()
                            implies !insert_task_ok(self@.tasks, #[trigger] next@[k]@) by {
                            if k < prev.len() {
                                assert(next@[k] == prev[k]);
                            }
                        }
                    },
                }
            }
            assert(self@.tasks.subrange(0, start.tasks.len() as int) =~= tasks_before.subrange(
                0,
                start.tasks.len() as int,
            ));
            if next.len() == before {
                assert(self@.tasks =~= tasks_before);
                return next;
            }
            pending = next;
        }
    }
}

/// Some note has the given id.
pub open spec fn has_note(ns: Seq<NoteView>, id: Seq<char>) -> bool {
    exists|i: int| 0 <= i < ns.len() && ns[i].id == id
}

/// The position of the note with the given id.
pub open spec fn note_index(ns: Seq<NoteView>, id: Seq<char>) -> int {
    choose|i: int| 0 <= i < ns.len() && ns[i].id == id
}

/// The positions `0..keys.len()` ordered by key, largest first; equal keys
/// keep their order.
pub fn positions_by_key_desc(keys: &Vec<i64>) -> (r: Vec<usize>)
    ensures
        r@.len() == keys@.len(),
        r@.no_duplicates(),
        forall|k: int| 0 <= k < r@.len() ==> r@[k] < keys@.len(),
        forall|y: usize| y < keys@.len() ==> #[trigger] r@.contains(y),
        forall|a: int, b: int| 0 <= a < b < r@.len() ==> keys@[r@[a] as int] >= keys@[r@[b] as int],
{
    let n = keys.len();
    let mut r: Vec<usize> = Vec::new();
    let mut j: usize = 0;
    while j < n
        invariant
            n == keys@.len(),
            j <= n,
            r@.len() == j,
            r@.no_duplicates(),
            forall|k: int| 0 <= k < r@.len() ==> r@[k] < j,
            forall|y: usize| y < j ==> #[trigger] r@.contains(y),
            forall|a: int, b: int| 0 <= a < b < r@.len() ==> keys@[r@[a] as int] >= keys@[r@[b] as int],
        decreases n - j,
    {
        let key = keys[j];
        let mut p: usize = 0;
        while p < r.len() && keys[r[p]] >= key
            invariant
                n == keys@.len(),
                j < n,
                key == keys@[j as int],
                p <= r@.len(),
                forall|k: int| 0 <= k < r@.len() ==> r@[k] < j,
                forall|k: int| 0 <= k < p ==> keys@[r@[k] as int] >= key,
            decreases r@.len() - p,
        {
            p = p + 1;
        }
        let ghost prev = r@;
        assert(forall|y: usize| y < j ==> #[trigger] prev.contains(y));
        r.insert(p, j);
        proof {
            assert(r@ == prev.insert(p as int, j));
            assert forall|a: int, b: int| 0 <= a < b < r@.len() implies keys@[r@[a] as int] >= keys@[r@[b] as int] by {
                if p < prev.len() {
                    assert(keys@[prev[p as int] as int] < key);
                }
                if b < p {
                    assert(r@[a] == prev[a] && r@[b] == prev[b]);
                } else if b == p {
                    assert(r@[a] == prev[a]);
                } else if a == p {
                    assert(r@[b] == prev[b - 1]);
                    if p < b - 1 {
                        assert(keys@[prev[p as int] as int] >= keys@[prev[b - 1] as int]);
                    }
                } else if a < p {
                    assert(r@[a] == prev[a] && r@[b] == prev[b - 1]);
                } else {
                    assert(r@[a] == prev[a - 1] && r@[b] == prev[b - 1]);
                }
            }
            assert forall|a: int, b: int| 0 <= a < r@.len() && 0 <= b < r@.len() && a != b implies r@[a] != r@[b] by {
                if a != p && b != p {
                    let a2 = if a < p { a } else { a - 1 };
                    let b2 = if b < p { b } else { b - 1 };
                    assert(r@[a] == prev[a2] && r@[b] == prev[b2]);
                } else if a == p {
                    let b2 = if b < p { b } else { b - 1 };
                    assert(r@[b] == prev[b2]);
                } else {
                    let a2 = if a < p { a } else { a - 1 };
                    assert(r@[a] == prev[a2]);
                }
            }
            assert forall|y: usize| y < j + 1 implies #[trigger] r@.contains(y) by {
                if y < j {
                    assert(prev.contains(y));
                    let k = choose|k: int| 0 <= k < prev.len() && prev[k] == y;
                    if k < p {
                        assert(r@[k] == prev[k]);
                    } else {
                        assert(r@[k + 1] == prev[k]);
                    }
                } else {
                    assert(r@[p as int] == j);
                }
            }
            assert forall|k: int| 0 <= k < r@.len() implies r@[k] < j + 1 by {
                if k < p {
                    assert(r@[k] == prev[k]);
                } else if k > p {
                    assert(r@[k] == prev[k - 1]);
                }
            }
        }
        j = j + 1;
    }
    r
}

/// Some project has the given path.
pub open spec fn path_in_use(ps: Seq<ProjectView>, path: Seq<char>) -> bool {
    exists|i: int| 0 <= i < ps.len() && ps[i].path == path
}

/// The ids of a list of tasks.
pub open spec fn task_ids(ts: Seq<TaskView>) -> Seq<Seq<char>> {
    ts.map_values(|t: TaskView| t.id)
}

/// A task row can be added: its id is non-empty and new, and its parent, if any, resolves to
/// a task of the same project.
pub open spec fn insert_task_ok(ts: Seq<TaskView>, t: TaskView) -> bool {
    t.id.len() > 0 && !has_task(ts, t.id) && match t.parent_id {
        Some(p) => has_task(ts, p) && ts[index_of(ts, p)].project_id == t.project_id,
        None => true,
    }
}

proof fn lemma_push_wf(ts: Seq<TaskView>, t: TaskView)
    requires
        tasks_wf(ts),
        insert_task_ok(ts, t),
    ensures
        tasks_wf(ts.push(t)),
{
    let ns = ts.push(t);
    assert forall|i: int, j: int| 0 <= i < ns.len() && 0 <= j < ns.len() && i != j implies ns[i].id != ns[j].id by {
        if i == ts.len() {
            assert(ns[j] == ts[j]);
        } else if j == ts.len() {
            assert(ns[i] == ts[i]);
        } else {
            assert(ns[i] == ts[i] && ns[j] == ts[j]);
        }
    }
    assert forall|x: int| 0 <= x < ns.len() && (#[trigger] ns[x]).parent_id is Some implies {
        let p = parent_index(ns, x);
        0 <= p < ns.len() && ns[p].project_id == ns[x].project_id
    } by {
        let pid = ns[x].parent_id->0;
        let q = if x == ts.len() { index_of(ts, pid) } else { parent_index(ts, x) };
        if x < ts.len() {
            assert(ns[x] == ts[x]);
        }
        assert(0 <= q < ts.len());
        assert(has_task(ts, pid));
        assert(ns[q] == ts[q]);
        lemma_index_of(ns, q);
    }
    let n = ts.len() as int;
    let f = |y: int| y;
    assert forall|y: int| 0 <= y < n implies parent_index(ns, y) == parent_index(ts, y) by {
        assert(ns[y] == ts[y]);
        if ts[y].parent_id is Some {
            let q = parent_index(ts, y);
            assert(ns[q] == ts[q]);
            lemma_index_of(ts, q);
            lemma_index_of(ns, q);
        }
    }
    assert forall|y: int| 0 <= y < n implies {
        &&& 0 <= #[trigger] f(y) < ts.len()
        &&& (parent_index(ns, y) == -1 ==> parent_index(ts, f(y)) == -1)
        &&& (parent_index(ns, y) != -1 ==> 0 <= parent_index(ns, y) < n && f(parent_index(ns, y))
            == parent_index(ts, f(y)))
    } by {
        crate::forest::lemma_parent_index_range(ts, y);
    }
    assert(crate::forest::embeds(ns, ts, n, f));
    assert forall|x: int, k: nat| 0 <= x < ns.len() && k >= 1 implies #[trigger] ancestor(ns, x, k) != x by {
        if x < n {
            crate::forest::lemma_embed_acyclic(ns, ts, n, f, x, k);
        } else {
            let q = parent_index(ns, x);
            assert(ancestor(ns, x, k) == ancestor(ns, q, (k - 1) as nat));
            crate::forest::lemma_parent_index_range(ns, x);
            if q == -1 {
                crate::tree::lemma_ancestor_end(ns, (k - 1) as nat);
            } else {
                assert(0 <= q < n) by {
                    let pid = t.parent_id->0;
                    assert(has_task(ts, pid));
                    let c = index_of(ts, pid);
                    assert(ns[c] == ts[c]);
                    lemma_index_of(ns, c);
                }
                crate::forest::lemma_embed_chain(ns, ts, n, f, q, (k - 1) as nat);
            }
        }
    }
}

/// Positions found by id do not change when no id changes.
pub proof fn lemma_same_ids_index_of(ts: Seq<TaskView>, ns: Seq<TaskView>, id: Seq<char>)
    requires
        ts.len() == ns.len(),
        forall|k: int| 0 <= k < ts.len() ==> ts[k].id == ns[k].id,
        task_ids_unique(ts),
    ensures
        index_of(ns, id) == index_of(ts, id),
        task_ids_unique(ns),
{
    if has_task(ts, id) {
        let i = index_of(ts, id);
        lemma_index_of(ts, i);
        assert(ns[i].id == id);
        lemma_index_of(ns, i);
    } else {
        assert(!has_task(ns, id)) by {
            if has_task(ns, id) {
                let k = choose|k: int| 0 <= k < ns.len() && ns[k].id == id;
                assert(ts[k].id == id);
            }
        }
    }
}

proof fn lemma_update_same_links_wf(ts: Seq<TaskView>, i: int, t: TaskView)
    requires
        tasks_wf(ts),
        0 <= i < ts.len(),
        t.id == ts[i].id,
        t.project_id == ts[i].project_id,
        t.parent_id == ts[i].parent_id,
    ensures
        tasks_wf(ts.update(i, t)),
{
    let ns = ts.update(i, t);
    assert forall|x: int| 0 <= x < ns.len() && (#[trigger] ns[x]).parent_id is Some implies {
        let p = parent_index(ns, x);
        0 <= p < ns.len() && ns[p].project_id == ns[x].project_id
    } by {
        lemma_same_ids_index_of(ts, ns, ns[x].parent_id->0);
        assert(parent_index(ns, x) == parent_index(ts, x));
    }
    lemma_same_ids_index_of(ts, ns, t.id);
    let f = |y: int| y;
    assert forall|y: int| 0 <= y < ns.len() implies {
        &&& 0 <= #[trigger] f(y) < ts.len()
        &&& (parent_index(ns, y) == -1 ==> parent_index(ts, f(y)) == -1)
        &&& (parent_index(ns, y) != -1 ==> 0 <= parent_index(ns, y) < ns.len() && f(parent_index(ns, y))
            == parent_index(ts, f(y)))
    } by {
        crate::forest::lemma_parent_index_range(ts, y);
        match ns[y].parent_id {
            Some(pid) => {
                lemma_same_ids_index_of(ts, ns, pid);
            },
            None => {},
        }
    }
    assert(crate::forest::embeds(ns, ts, ns.len() as int, f));
    assert forall|x: int, k: nat| 0 <= x < ns.len() && k >= 1 implies #[trigger] ancestor(ns, x, k) != x by {
        crate::forest::lemma_embed_acyclic(ns, ts, ns.len() as int, f, x, k);
    }
}

proof fn lemma_reparent_wf(ts: Seq<TaskView>, i: int, p: int)
    requires
        tasks_wf(ts),
        0 <= i < ts.len(),
        0 <= p < ts.len(),
        ts[p].project_id == ts[i].project_id,
        !in_subtree(ts, i, p),
    ensures
        tasks_wf(ts.update(i, TaskView { parent_id: Some(ts[p].id), ..ts[i] })),
{
    let ns = ts.update(i, TaskView { parent_id: Some(ts[p].id), ..ts[i] });
    lemma_same_ids_index_of(ts, ns, ts[p].id);
    assert forall|x: int| 0 <= x < ns.len() && (#[trigger] ns[x]).parent_id is Some implies {
        let q = parent_index(ns, x);
        0 <= q < ns.len() && ns[q].project_id == ns[x].project_id
    } by {
        lemma_same_ids_index_of(ts, ns, ns[x].parent_id->0);
        if x == i {
            lemma_index_of(ts, p);
        } else {
            assert(parent_index(ns, x) == parent_index(ts, x));
        }
    }
    lemma_index_of(ts, p);
    assert forall|z: int| 0 <= z < ts.len() && z != i implies parent_index(ns, z) == parent_index(ts, z) by {
        match ns[z].parent_id {
            Some(pid) => {
                lemma_same_ids_index_of(ts, ns, pid);
            },
            None => {},
        }
    }
    crate::forest::lemma_repointed_acyclic(ts, ns, i, p);
}

/// Marks closed under "parent marked implies child marked" and holding `a`
/// hold every task whose chain reaches `a`.
proof fn lemma_closed_marks(ts: Seq<TaskView>, parents: Seq<usize>, marks: Seq<bool>, a: int, y: int, k: nat)
    requires
        parents.len() == ts.len(),
        marks.len() == ts.len(),
        0 <= a < ts.len(),
        marks[a],
        parent_table(ts, parents),
        forall|x: int|
            0 <= x < ts.len() && parents[x] < ts.len() && #[trigger] marks[parents[x] as int] ==> marks[x],
        0 <= y < ts.len(),
        ancestor(ts, y, k) == a,
    ensures
        marks[y],
    decreases k,
{
    if k == 0 {
    } else {
        let p = parent_index(ts, y);
        assert(parent_slot(ts, parents, y));
        if p == -1 {
            crate::tree::lemma_ancestor_end(ts, (k - 1) as nat);
        } else {
            assert(parents[y] < ts.len());
            lemma_closed_marks(ts, parents, marks, a, p, (k - 1) as nat);
        }
    }
}

} // verus!
