use vstd::prelude::*;
use vstd::string::*;
use crate::error::{AppError, AppResult, ErrorKind, fails_with, kind_of_is, not_found};
use crate::merge::{
    effective_now, is_valid_priority, is_valid_status, merge_task, merged_task, opt_valid,
    empty_task_update, text_eq, valid_priority, valid_status,
};
use crate::models::{
    CreateTaskDto, Task, TaskView, UpdateTaskDto, opt_str_view, opt_strs_view, strs_view, tasks_view,
};
use crate::hierarchy::{hierarchy_at, hierarchy_of};
use crate::models::TaskWithChildren;
use crate::provider::{new_id, now_timestamp};
use crate::store::{
    DbService, StoreTables, has_project_id, is_child_of, same_text, sibling_le, task_ids,
    tasks_sorted,
};
use crate::tree::{
    has_task, in_subtree, index_of, outside_subtree, subtree, task_ids_ok, tasks_wf,
};

verus! {

/// Task operations: the task tree manager.
pub struct TaskService;

/// A string holds a task status, or is absent.
pub open spec fn opt_status_ok(o: Option<String>) -> bool {
    opt_valid(o, |s: Seq<char>| valid_status(s))
}

/// A string holds a task priority, or is absent.
pub open spec fn opt_priority_ok(o: Option<String>) -> bool {
    opt_valid(o, |s: Seq<char>| valid_priority(s))
}

/// An order is absent or not negative.
pub open spec fn opt_order_ok(o: Option<i32>) -> bool {
    match o {
        Some(v) => v >= 0,
        None => true,
    }
}

/// The task that a creation request describes, with id `id`, created at `now`.
pub open spec fn new_task_view(data: CreateTaskDto, id: Seq<char>, now: i64) -> TaskView {
    let status = match data.status {
        Some(s) => s@,
        None => "todo"@,
    };
    TaskView {
        id: id,
        project_id: data.project_id@,
        parent_id: opt_str_view(data.parent_id),
        title: data.title@,
        description: opt_str_view(data.description),
        status: status,
        priority: match data.priority {
            Some(p) => p@,
            None => "medium"@,
        },
        due_date: data.due_date,
        completed_at: if status == "done"@ {
            Some(now)
        } else {
            None
        },
        created_at: now,
        updated_at: now,
        order: match data.order {
            Some(o) => o,
            None => 0,
        },
        tags: opt_strs_view(data.tags),
    }
}

/// Why a creation request fails whatever id it gets, if it does.
pub open spec fn create_task_failure(s: StoreTables, data: CreateTaskDto) -> Option<ErrorKind> {
    if data.title@.len() == 0 || data.project_id@.len() == 0 || !opt_status_ok(data.status)
        || !opt_priority_ok(data.priority) || !opt_order_ok(data.order) {
        Some(ErrorKind::InvalidInput)
    } else if !has_project_id(s.projects, data.project_id@) {
        Some(ErrorKind::NotFound)
    } else {
        match data.parent_id {
            Some(p) => if !has_task(s.tasks, p@) {
                Some(ErrorKind::NotFound)
            } else if s.tasks[index_of(s.tasks, p@)].project_id != data.project_id@ {
                Some(ErrorKind::InvalidInput)
            } else {
                None
            },
            None => None,
        }
    }
}

/// The NotFound error that a failed creation request gives: it names the
/// missing project, or else the missing parent task.
pub open spec fn create_task_not_found<T>(s: StoreTables, data: CreateTaskDto, r: AppResult<T>) -> bool {
    if !has_project_id(s.projects, data.project_id@) {
        not_found(r, "Project"@, data.project_id@)
    } else {
        not_found(r, "Task"@, data.parent_id->0@)
    }
}

/// The NotFound error that a failed move gives: it names the missing task, or
/// else the missing new parent.
pub open spec fn move_not_found<T>(ts: Seq<TaskView>, id: Seq<char>, new_parent: Option<Seq<char>>, r: AppResult<T>) -> bool {
    if !has_task(ts, id) {
        not_found(r, "Task"@, id)
    } else {
        not_found(r, "Task"@, new_parent->0)
    }
}

/// The tasks of a project, in store order.
pub open spec fn project_tasks(ts: Seq<TaskView>, project_id: Seq<char>) -> Seq<TaskView> {
    ts.filter(|t: TaskView| t.project_id == project_id)
}

/// The root tasks of a project, in store order.
pub open spec fn root_tasks(ts: Seq<TaskView>, project_id: Seq<char>) -> Seq<TaskView> {
    ts.filter(|t: TaskView| t.project_id == project_id && t.parent_id is None)
}

/// The tasks of a project with a status, in store order.
pub open spec fn status_tasks(ts: Seq<TaskView>, project_id: Seq<char>, status: Seq<char>) -> Seq<TaskView> {
    ts.filter(|t: TaskView| t.project_id == project_id && t.status == status)
}

/// `needle` occurs in `hay`.
pub open spec fn contains_text(hay: Seq<char>, needle: Seq<char>) -> bool {
    exists|i: int|
        0 <= i <= hay.len() - needle.len() && #[trigger] hay.subrange(i, i + needle.len()) == needle
}

/// The query occurs in the title or the description of the task.
pub open spec fn matches_query(t: TaskView, query: Seq<char>) -> bool {
    contains_text(t.title, query) || (t.description is Some && contains_text(t.description->0, query))
}

/// The tasks of a project that match a query, in store order.
pub open spec fn search_results(ts: Seq<TaskView>, project_id: Seq<char>, query: Seq<char>) -> Seq<TaskView> {
    ts.filter(|t: TaskView| t.project_id == project_id && matches_query(t, query))
}

/// Why giving the task at `i` the parent `new_parent` fails, if it does.
pub open spec fn reparent_failure(ts: Seq<TaskView>, i: int, new_parent: Option<Seq<char>>) -> Option<ErrorKind> {
    match new_parent {
        None => None,
        Some(p) => if !has_task(ts, p) {
            Some(ErrorKind::NotFound)
        } else if ts[index_of(ts, p)].project_id != ts[i].project_id {
            Some(ErrorKind::InvalidInput)
        } else if in_subtree(ts, i, index_of(ts, p)) {
            Some(ErrorKind::Conflict)
        } else {
            None
        },
    }
}

/// The tasks after the task at `i` is given the parent `new_parent`.
pub open spec fn reparented(ts: Seq<TaskView>, i: int, new_parent: Option<Seq<char>>) -> Seq<TaskView> {
    ts.update(i, TaskView { parent_id: new_parent, ..ts[i] })
}

/// Why a move of the task `id` under `new_parent` fails, if it does.
pub open spec fn move_failure(ts: Seq<TaskView>, id: Seq<char>, new_parent: Option<Seq<char>>) -> Option<ErrorKind> {
    if id.len() == 0 {
        Some(ErrorKind::InvalidInput)
    } else if !has_task(ts, id) {
        Some(ErrorKind::NotFound)
    } else {
        reparent_failure(ts, index_of(ts, id), new_parent)
    }
}

/// The tasks after the task `id` is given the parent `new_parent`.
pub open spec fn moved_tasks(ts: Seq<TaskView>, id: Seq<char>, new_parent: Option<Seq<char>>) -> Seq<TaskView> {
    reparented(ts, index_of(ts, id), new_parent)
}

/// Why an update of the task `id` fails, if it does.
pub open spec fn update_failure(ts: Seq<TaskView>, id: Seq<char>, dto: UpdateTaskDto) -> Option<ErrorKind> {
    if id.len() == 0 || !opt_status_ok(dto.status) || !opt_priority_ok(dto.priority)
        || !opt_order_ok(dto.order) {
        Some(ErrorKind::InvalidInput)
    } else {
        move_failure(ts, id, opt_str_view(dto.parent_id))
    }
}

/// The tasks after the task `id` is updated with the clock reading `clock`: a
/// parent in the update moves the task first, then the other fields merge.
pub open spec fn updated_tasks(ts: Seq<TaskView>, id: Seq<char>, dto: UpdateTaskDto, clock: i64) -> Seq<TaskView> {
    let i = index_of(ts, id);
    let moved = match dto.parent_id {
        Some(p) => moved_tasks(ts, id, Some(p@)),
        None => ts,
    };
    moved.update(i, merged_task(moved[i], dto, effective_now(clock, ts[i].updated_at)))
}

/// One more element of a prefix passes a filter or does not.
pub proof fn lemma_filter_step<A>(s: Seq<A>, pred: spec_fn(A) -> bool, j: int)
    requires
        0 <= j < s.len(),
    ensures
        s.take(j + 1).filter(pred) == if pred(s[j]) {
            s.take(j).filter(pred).push(s[j])
        } else {
            s.take(j).filter(pred)
        },
{
    reveal(Seq::filter);
    assert(s.take(j + 1).drop_last() =~= s.take(j));
}

/// Whether `needle` occurs in `hay`.
pub fn text_contains(hay: &str, needle: &str) -> (r: bool)
    ensures
        r == contains_text(hay@, needle@),
{
    let h = hay.unicode_len();
    let n = needle.unicode_len();
    if n > h {
        return false;
    }
    let mut i: usize = 0;
    while i <= h - n
        invariant
            h == hay@.len(),
            n == needle@.len(),
            n <= h,
            i <= h - n + 1,
            forall|k: int| 0 <= k < i ==> #[trigger] hay@.subrange(k, k + n) != needle@,
        decreases h - n + 1 - i,
    {
        let mut j: usize = 0;
        let mut same = true;
        while j < n
            invariant
                h == hay@.len(),
                n == needle@.len(),
                i + n <= h,
                j <= n,
                same == forall|m: int| 0 <= m < j ==> hay@[i + m] == needle@[m],
            decreases n - j,
        {
            if hay.get_char(i + j) != needle.get_char(j) {
                same = false;
            }
            j = j + 1;
        }
        if same {
            assert(hay@.subrange(i as int, i + n) =~= needle@);
            return true;
        }
        assert(hay@.subrange(i as int, i + n) != needle@) by {
            let m = choose|m: int| 0 <= m < n && hay@[i + m] != needle@[m];
            assert(hay@.subrange(i as int, i + n)[m] == hay@[i + m]);
        }
        i = i + 1;
    }
    false
}

/// Whether the query occurs in the title or the description of a task.
pub fn task_matches(t: &Task, query: &str) -> (r: bool)
    ensures
        r == matches_query(t@, query@),
{
    if text_contains(t.title.as_str(), query) {
        return true;
    }
    match &t.description {
        Some(d) => text_contains(d.as_str(), query),
        None => false,
    }
}

impl TaskService {
    /// Creates a task with the id `id` at time `now`.
    ///
    /// Fails with InvalidInput on an empty title or project id, an unknown
    /// status or priority, or a negative order; with NotFound when the project
    /// or the parent does not exist; with InvalidInput when the parent belongs
    /// to another project; with InvalidInput when `id` is empty; and with
    /// Conflict when `id` is taken.
    pub fn create_task_at(store: &mut DbService, data: CreateTaskDto, id: String, now: i64) -> (r: AppResult<Task>)
        requires
            old(store).wf(),
        ensures
            final(store).wf(),
            create_task_failure(old(store)@, data) == Some(ErrorKind::NotFound) ==> create_task_not_found(
                old(store)@,
                data,
                r,
            ),
            match create_task_failure(old(store)@, data) {
                Some(k) => fails_with(r, k) && final(store)@ == old(store)@,
                None => if id@.len() == 0 {
                    fails_with(r, ErrorKind::InvalidInput) && final(store)@ == old(store)@
                } else if has_task(old(store)@.tasks, id@) {
                    fails_with(r, ErrorKind::Conflict) && final(store)@ == old(store)@
                } else {
                    r is Ok && r->Ok_0@ == new_task_view(data, id@, now) && final(store)@ == (StoreTables {
                        tasks: old(store)@.tasks.push(new_task_view(data, id@, now)),
                        ..old(store)@
                    })
                },
            },
    {
        if data.title.as_str().is_empty() {
            return Err(AppError::InvalidInput(String::from_str("Task title cannot be empty")));
        }
        if data.project_id.as_str().is_empty() {
            return Err(AppError::InvalidInput(String::from_str("Project ID cannot be empty")));
        }
        if let Some(s) = &data.status {
            if !is_valid_status(s.as_str()) {
                return Err(AppError::InvalidInput(String::from_str("Invalid task status")));
            }
        }
        if let Some(p) = &data.priority {
            if !is_valid_priority(p.as_str()) {
                return Err(AppError::InvalidInput(String::from_str("Invalid task priority")));
            }
        }
        if let Some(o) = data.order {
            if o < 0 {
                return Err(AppError::InvalidInput(String::from_str("Task order cannot be negative")));
            }
        }
        if store.find_project(&data.project_id).is_none() {
            return Err(AppError::NotFound("Project", data.project_id));
        }
        if let Some(pid) = &data.parent_id {
            match store.find_task(pid) {
                None => {
                    return Err(AppError::NotFound("Task", pid.clone()));
                },
                Some(p) => {
                    if !same_text(&store.task_at(p).project_id, &data.project_id) {
                        return Err(
                            AppError::InvalidInput(
                                String::from_str("Parent task belongs to another project"),
                            ),
                        );
                    }
                },
            }
        }
        if id.as_str().is_empty() {
            return Err(AppError::InvalidInput(String::from_str("Task id cannot be empty")));
        }
        if store.find_task(&id).is_some() {
            return Err(AppError::Conflict(String::from_str("Task id already exists")));
        }
        let ghost d = data;
        let status = match data.status {
            Some(s) => s,
            None => String::from_str("todo"),
        };
        let completed_at = if text_eq(status.as_str(), "done") {
            Some(now)
        } else {
            None
        };
        let task = Task {
            id: id,
            project_id: data.project_id,
            parent_id: data.parent_id,
            title: data.title,
            description: data.description,
            status: status,
            priority: match data.priority {
                Some(p) => p,
                None => String::from_str("medium"),
            },
            due_date: data.due_date,
            completed_at: completed_at,
            created_at: now,
            updated_at: now,
            order: match data.order {
                Some(o) => o,
                None => 0,
            },
            tags: data.tags,
        };
        let out = task.duplicate();
        assert(task@ == new_task_view(d, task@.id, now));
        let res = store.insert_task(task);
        assert(res is Ok);
        Ok(out)
    }

    /// Creates a task with a fresh id, stamped with the current time.
    ///
    /// The errors of [`TaskService::create_task_at`] that do not depend on the
    /// id come exactly as there; a fresh id that is taken gives Conflict.
    pub fn create_task(store: &mut DbService, data: CreateTaskDto) -> (r: AppResult<Task>)
        requires
            old(store).wf(),
        ensures
            final(store).wf(),
            create_task_failure(old(store)@, data) == Some(ErrorKind::NotFound) ==> create_task_not_found(
                old(store)@,
                data,
                r,
            ),
            match create_task_failure(old(store)@, data) {
                Some(k) => fails_with(r, k) && final(store)@ == old(store)@,
                None => match r {
                    Ok(t) => t@.id.len() == 36 && t@ == new_task_view(data, t@.id, t@.created_at) && !has_task(
                        old(store)@.tasks,
                        t@.id,
                    ) && final(store)@ == (StoreTables {
                        tasks: old(store)@.tasks.push(t@),
                        ..old(store)@
                    }),
                    Err(e) => kind_of_is(e, ErrorKind::Conflict) && final(store)@ == old(store)@
                        && exists|i: int| 0 <= i < old(store)@.tasks.len() && old(store)@.tasks[i].id.len() == 36,
                },
            },
    {
        let id = new_id();
        let now = now_timestamp();
        Self::create_task_at(store, data, id, now)
    }

    /// The task with the given id.
    pub fn get_task(store: &DbService, id: String) -> (r: AppResult<Task>)
        requires
            store.wf(),
        ensures
            id@.len() == 0 ==> fails_with(r, ErrorKind::InvalidInput),
            id@.len() > 0 && !has_task(store@.tasks, id@) ==> not_found(r, "Task"@, id@),
            has_task(store@.tasks, id@) ==> r is Ok && r->Ok_0@ == store@.tasks[index_of(
                store@.tasks,
                id@,
            )],
    {
        if id.as_str().is_empty() {
            return Err(AppError::InvalidInput(String::from_str("Task ID cannot be empty")));
        }
        match store.get_task_by_id(&id) {
            Some(t) => Ok(t),
            None => Err(AppError::NotFound("Task", id)),
        }
    }

    /// All tasks of a project, in store order.
    pub fn list_tasks(store: &DbService, project_id: String) -> (r: AppResult<Vec<Task>>)
        requires
            store.wf(),
        ensures
            project_id@.len() == 0 ==> fails_with(r, ErrorKind::InvalidInput),
            project_id@.len() > 0 ==> r is Ok && tasks_view(r->Ok_0@) == project_tasks(
                store@.tasks,
                project_id@,
            ),
    {
        if project_id.as_str().is_empty() {
            return Err(AppError::InvalidInput(String::from_str("Project ID cannot be empty")));
        }
        Ok(store.get_tasks_by_project(&project_id))
    }

    /// The root tasks of a project, in store order.
    pub fn list_root_tasks(store: &DbService, project_id: String) -> (r: AppResult<Vec<Task>>)
        requires
            store.wf(),
        ensures
            project_id@.len() == 0 ==> fails_with(r, ErrorKind::InvalidInput),
            project_id@.len() > 0 ==> r is Ok && tasks_view(r->Ok_0@) == root_tasks(
                store@.tasks,
                project_id@,
            ),
    {
        if project_id.as_str().is_empty() {
            return Err(AppError::InvalidInput(String::from_str("Project ID cannot be empty")));
        }
        let ghost ts = store@.tasks;
        let n = store.task_count();
        let mut out: Vec<Task> = Vec::new();
        let mut j: usize = 0;
        while j < n
            invariant
                ts == store@.tasks,
                n == ts.len(),
                j <= n,
                tasks_view(out@) == root_tasks(ts.take(j as int), project_id@),
            decreases n - j,
        {
            let t = store.task_at(j);
            let ghost prev = out@;
            proof {
                lemma_filter_step(
                    ts,
                    |t: TaskView| t.project_id == project_id@ && t.parent_id is None,
                    j as int,
                );
            }
            if same_text(&t.project_id, &project_id) && t.parent_id.is_none() {
                out.push(t.duplicate());
                assert(tasks_view(out@) =~= tasks_view(prev).push(ts[j as int]));
            }
            j = j + 1;
        }
        assert(ts.take(n as int) =~= ts);
        Ok(out)
    }

    /// The tasks of a project with a given status, in store order. Fails with
    /// InvalidInput, before reading the store, on an empty project id or a
    /// status that is not todo, in_progress or done.
    pub fn list_tasks_by_status(store: &DbService, project_id: String, status: String) -> (r: AppResult<Vec<Task>>)
        requires
            store.wf(),
        ensures
            project_id@.len() == 0 || !valid_status(status@) ==> fails_with(r, ErrorKind::InvalidInput),
            project_id@.len() > 0 && valid_status(status@) ==> r is Ok && tasks_view(r->Ok_0@)
                == status_tasks(store@.tasks, project_id@, status@),
    {
        if project_id.as_str().is_empty() {
            return Err(AppError::InvalidInput(String::from_str("Project ID cannot be empty")));
        }
        if !is_valid_status(status.as_str()) {
            return Err(
                AppError::InvalidInput(
                    String::from_str("Invalid status. Must be one of: todo, in_progress, done"),
                ),
            );
        }
        let ghost ts = store@.tasks;
        let n = store.task_count();
        let mut out: Vec<Task> = Vec::new();
        let mut j: usize = 0;
        while j < n
            invariant
                ts == store@.tasks,
                n == ts.len(),
                j <= n,
                tasks_view(out@) == status_tasks(ts.take(j as int), project_id@, status@),
            decreases n - j,
        {
            let t = store.task_at(j);
            let ghost prev = out@;
            proof {
                lemma_filter_step(
                    ts,
                    |t: TaskView| t.project_id == project_id@ && t.status == status@,
                    j as int,
                );
            }
            if same_text(&t.project_id, &project_id) && same_text(&t.status, &status) {
                out.push(t.duplicate());
                assert(tasks_view(out@) =~= tasks_view(prev).push(ts[j as int]));
            }
            j = j + 1;
        }
        assert(ts.take(n as int) =~= ts);
        Ok(out)
    }

    /// The tasks of a project whose title or description holds the query, in
    /// store order.
    pub fn search_tasks(store: &DbService, project_id: String, query: String) -> (r: AppResult<Vec<Task>>)
        requires
            store.wf(),
        ensures
            project_id@.len() == 0 ==> fails_with(r, ErrorKind::InvalidInput),
            project_id@.len() > 0 ==> r is Ok && tasks_view(r->Ok_0@) == search_results(
                store@.tasks,
                project_id@,
                query@,
            ),
    {
        if project_id.as_str().is_empty() {
            return Err(AppError::InvalidInput(String::from_str("Project ID cannot be empty")));
        }
        let ghost ts = store@.tasks;
        let n = store.task_count();
        let mut out: Vec<Task> = Vec::new();
        let mut j: usize = 0;
        while j < n
            invariant
                ts == store@.tasks,
                n == ts.len(),
                j <= n,
                tasks_view(out@) == search_results(ts.take(j as int), project_id@, query@),
            decreases n - j,
        {
            let t = store.task_at(j);
            let ghost prev = out@;
            proof {
                lemma_filter_step(
                    ts,
                    |t: TaskView| t.project_id == project_id@ && matches_query(t, query@),
                    j as int,
                );
            }
            if same_text(&t.project_id, &project_id) && task_matches(t, query.as_str()) {
                out.push(t.duplicate());
                assert(tasks_view(out@) =~= tasks_view(prev).push(ts[j as int]));
            }
            j = j + 1;
        }
        assert(ts.take(n as int) =~= ts);
        Ok(out)
    }

    /// Deletes a task and every task below it, in one step, and gives back the
    /// removed ids.
    pub fn delete_task(store: &mut DbService, id: String) -> (r: AppResult<Vec<String>>)
        requires
            old(store).wf(),
        ensures
            final(store).wf(),
            id@.len() == 0 ==> fails_with(r, ErrorKind::InvalidInput) && final(store)@ == old(store)@,
            id@.len() > 0 && !has_task(old(store)@.tasks, id@) ==> not_found(r, "Task"@, id@)
                && final(store)@ == old(store)@,
            has_task(old(store)@.tasks, id@) ==> {
                let a = index_of(old(store)@.tasks, id@);
                &&& r is Ok
                &&& strs_view(r->Ok_0@) == task_ids(subtree(old(store)@.tasks, a))
                &&& final(store)@ == (StoreTables {
                    tasks: outside_subtree(old(store)@.tasks, a),
                    ..old(store)@
                })
            },
    {
        if id.as_str().is_empty() {
            return Err(AppError::InvalidInput(String::from_str("Task ID cannot be empty")));
        }
        store.delete_task(&id)
    }

    /// Sets the order of a task; siblings are not renumbered.
    pub fn reorder_task(store: &mut DbService, id: String, new_order: i32) -> (r: AppResult<Task>)
        requires
            old(store).wf(),
        ensures
            final(store).wf(),
            id@.len() == 0 || new_order < 0 ==> fails_with(r, ErrorKind::InvalidInput) && final(store)@
                == old(store)@,
            id@.len() > 0 && new_order >= 0 && !has_task(old(store)@.tasks, id@) ==> not_found(
                r,
                "Task"@,
                id@,
            ) && final(store)@ == old(store)@,
            new_order >= 0 && has_task(old(store)@.tasks, id@) ==> {
                let i = index_of(old(store)@.tasks, id@);
                let t = TaskView { order: new_order, ..old(store)@.tasks[i] };
                &&& r is Ok
                &&& r->Ok_0@ == t
                &&& final(store)@ == (StoreTables { tasks: old(store)@.tasks.update(i, t), ..old(store)@ })
            },
    {
        if id.as_str().is_empty() {
            return Err(AppError::InvalidInput(String::from_str("Task ID cannot be empty")));
        }
        if new_order < 0 {
            return Err(AppError::InvalidInput(String::from_str("Task order cannot be negative")));
        }
        match store.find_task(&id) {
            Some(i) => {
                let mut t = store.task_at(i).duplicate();
                t.order = new_order;
                let out = t.duplicate();
                store.set_task(i, t);
                Ok(out)
            },
            None => Err(AppError::NotFound("Task", id)),
        }
    }
    /// Gives the task at `i` the parent `new_parent` (none: makes it a root).
    fn reparent(store: &mut DbService, i: usize, new_parent: &Option<String>) -> (r: AppResult<()>)
        requires
            old(store).wf(),
            i < old(store)@.tasks.len(),
        ensures
            final(store).wf(),
            reparent_failure(old(store)@.tasks, i as int, opt_str_view(*new_parent)) == Some(ErrorKind::NotFound)
                ==> not_found(r, "Task"@, opt_str_view(*new_parent)->0),
            match reparent_failure(old(store)@.tasks, i as int, opt_str_view(*new_parent)) {
                Some(k) => fails_with(r, k) && final(store)@ == old(store)@,
                None => r is Ok && final(store)@ == (StoreTables {
                    tasks: reparented(old(store)@.tasks, i as int, opt_str_view(*new_parent)),
                    ..old(store)@
                }),
            },
    {
        let ghost ts = store@.tasks;
        proof {
            crate::tree::lemma_index_of(ts, i as int);
        }
        match new_parent {
            None => {
                store.clear_parent(i);
                Ok(())
            },
            Some(pid) => match store.find_task(pid) {
                None => Err(AppError::NotFound("Task", pid.clone())),
                Some(p) => {
                    if !same_text(&store.task_at(p).project_id, &store.task_at(i).project_id) {
                        return Err(
                            AppError::InvalidInput(
                                String::from_str("New parent belongs to another project"),
                            ),
                        );
                    }
                    if store.is_in_subtree(i, p) {
                        return Err(
                            AppError::Conflict(
                                String::from_str("Cannot move a task under its own descendant"),
                            ),
                        );
                    }
                    store.set_parent(i, p);
                    Ok(())
                },
            },
        }
    }

    /// Gives a task a new parent, or makes it a root task. Fails with NotFound
    /// when the task or the new parent does not exist, InvalidInput when the new
    /// parent belongs to another project, and Conflict when the new parent is
    /// the task itself or lies below it.
    pub fn move_task(store: &mut DbService, id: String, new_parent_id: Option<String>) -> (r: AppResult<Task>)
        requires
            old(store).wf(),
        ensures
            final(store).wf(),
            move_failure(old(store)@.tasks, id@, opt_str_view(new_parent_id)) == Some(ErrorKind::NotFound)
                ==> move_not_found(old(store)@.tasks, id@, opt_str_view(new_parent_id), r),
            match move_failure(old(store)@.tasks, id@, opt_str_view(new_parent_id)) {
                Some(k) => fails_with(r, k) && final(store)@ == old(store)@,
                None => {
                    let ns = moved_tasks(old(store)@.tasks, id@, opt_str_view(new_parent_id));
                    &&& r is Ok
                    &&& final(store)@ == (StoreTables { tasks: ns, ..old(store)@ })
                    &&& r->Ok_0@ == ns[index_of(old(store)@.tasks, id@)]
                },
            },
    {
        if id.as_str().is_empty() {
            return Err(AppError::InvalidInput(String::from_str("Task ID cannot be empty")));
        }
        match store.find_task(&id) {
            None => Err(AppError::NotFound("Task", id)),
            Some(i) => {
                match Self::reparent(store, i, &new_parent_id) {
                    Err(e) => Err(e),
                    Ok(()) => Ok(store.task_at(i).duplicate()),
                }
            },
        }
    }

    /// Applies a partial update with the clock reading `clock`. A parent in the
    /// update moves the task as [`TaskService::move_task`] does; the other
    /// fields merge as `merged_task` states, at the clock reading but never
    /// before the previous `updated_at`.
    pub fn update_task_at(store: &mut DbService, id: String, data: UpdateTaskDto, clock: i64) -> (r: AppResult<Task>)
        requires
            old(store).wf(),
        ensures
            final(store).wf(),
            update_failure(old(store)@.tasks, id@, data) == Some(ErrorKind::NotFound) ==> move_not_found(
                old(store)@.tasks,
                id@,
                opt_str_view(data.parent_id),
                r,
            ),
            match update_failure(old(store)@.tasks, id@, data) {
                Some(k) => fails_with(r, k) && final(store)@ == old(store)@,
                None => {
                    let ns = updated_tasks(old(store)@.tasks, id@, data, clock);
                    &&& r is Ok
                    &&& final(store)@ == (StoreTables { tasks: ns, ..old(store)@ })
                    &&& r->Ok_0@ == ns[index_of(old(store)@.tasks, id@)]
                },
            },
    {
        if id.as_str().is_empty() {
            return Err(AppError::InvalidInput(String::from_str("Task ID cannot be empty")));
        }
        if let Some(s) = &data.status {
            if !is_valid_status(s.as_str()) {
                return Err(AppError::InvalidInput(String::from_str("Invalid task status")));
            }
        }
        if let Some(p) = &data.priority {
            if !is_valid_priority(p.as_str()) {
                return Err(AppError::InvalidInput(String::from_str("Invalid task priority")));
            }
        }
        if let Some(o) = data.order {
            if o < 0 {
                return Err(AppError::InvalidInput(String::from_str("Task order cannot be negative")));
            }
        }
        let i = match store.find_task(&id) {
            None => {
                return Err(AppError::NotFound("Task", id));
            },
            Some(i) => i,
        };
        let ghost ts = store@.tasks;
        let previous = store.task_at(i).updated_at;
        if data.parent_id.is_some() {
            match Self::reparent(store, i, &data.parent_id) {
                Err(e) => {
                    return Err(e);
                },
                Ok(()) => {},
            }
        }
        let ghost moved = store@.tasks;
        let now = if clock < previous {
            previous
        } else {
            clock
        };
        let t = store.task_at(i).duplicate();
        let merged = merge_task(t, data, now);
        let out = merged.duplicate();
        store.set_task(i, merged);
        Ok(out)
    }

    /// Applies a partial update stamped with the current time; see
    /// [`TaskService::update_task_at`]. The time recorded is the returned
    /// task's `updated_at`.
    pub fn update_task(store: &mut DbService, id: String, data: UpdateTaskDto) -> (r: AppResult<Task>)
        requires
            old(store).wf(),
        ensures
            final(store).wf(),
            update_failure(old(store)@.tasks, id@, data) == Some(ErrorKind::NotFound) ==> move_not_found(
                old(store)@.tasks,
                id@,
                opt_str_view(data.parent_id),
                r,
            ),
            match update_failure(old(store)@.tasks, id@, data) {
                Some(k) => fails_with(r, k) && final(store)@ == old(store)@,
                None => {
                    &&& r is Ok
                    &&& final(store)@ == (StoreTables {
                        tasks: updated_tasks(old(store)@.tasks, id@, data, r->Ok_0@.updated_at),
                        ..old(store)@
                    })
                    &&& r->Ok_0@ == final(store)@.tasks[index_of(old(store)@.tasks, id@)]
                },
            },
    {
        let clock = now_timestamp();
        Self::update_task_at(store, id, data, clock)
    }
    /// The direct children of a task, in sibling order (by `order`, then by
    /// creation time). Each child appears once.
    pub fn list_subtasks(store: &DbService, parent_id: String) -> (r: AppResult<Vec<Task>>)
        requires
            store.wf(),
        ensures
            parent_id@.len() == 0 ==> fails_with(r, ErrorKind::InvalidInput),
            parent_id@.len() > 0 ==> {
                let v = tasks_view(r->Ok_0@);
                &&& r is Ok
                &&& tasks_sorted(v)
                &&& v.no_duplicates()
                &&& forall|t: TaskView|
                    v.contains(t) <==> store@.tasks.contains(t) && is_child_of(t, parent_id@)
            },
    {
        if parent_id.as_str().is_empty() {
            return Err(AppError::InvalidInput(String::from_str("Parent ID cannot be empty")));
        }
        let ghost ts = store@.tasks;
        let ps = store.child_positions(&parent_id);
        let n = store.task_count();
        let mut out: Vec<Task> = Vec::new();
        let mut k: usize = 0;
        while k < ps.len()
            invariant
                ts == store@.tasks,
                store.wf(),
                k <= ps@.len(),
                forall|m: int| 0 <= m < ps@.len() ==> ps@[m] < ts.len(),
                out@.len() == k,
                forall|m: int| 0 <= m < k ==> #[trigger] out@[m]@ == ts[ps@[m] as int],
            decreases ps@.len() - k,
        {
            out.push(store.task_at(ps[k]).duplicate());
            k = k + 1;
        }
        proof {
            let v = tasks_view(out@);
            assert forall|a: int, b: int| 0 <= a < b < v.len() implies sibling_le(v[a], v[b]) by {
                assert(v[a] == ts[ps@[a] as int] && v[b] == ts[ps@[b] as int]);
            }
            assert forall|a: int, b: int| 0 <= a < v.len() && 0 <= b < v.len() && a != b implies v[a] != v[b] by {
                assert(v[a] == ts[ps@[a] as int] && v[b] == ts[ps@[b] as int]);
                assert(ps@[a] != ps@[b]);
            }
            assert forall|t: TaskView| v.contains(t) <==> ts.contains(t) && is_child_of(t, parent_id@) by {
                if v.contains(t) {
                    let a = choose|a: int| 0 <= a < v.len() && v[a] == t;
                    assert(v[a] == ts[ps@[a] as int]);
                    assert(ps@.contains(ps@[a]));
                }
                if ts.contains(t) && is_child_of(t, parent_id@) {
                    let y = choose|y: int| 0 <= y < ts.len() && ts[y] == t;
                    assert(ps@.contains(y as usize));
                    let a = choose|a: int| 0 <= a < ps@.len() && ps@[a] == y as usize;
                    assert(ps@[a] as int == y);
                    assert(v[a] == ts[ps@[a] as int]);
                    assert(v[a] == t);
                }
            }
        }
        Ok(out)
    }
    /// The task with the given id and all its descendants, expanded to full
    /// depth, with each level in sibling order. The traversal marks what it
    /// has entered, so it ends on any store.
    pub fn get_task_hierarchy(store: &DbService, id: String) -> (r: AppResult<TaskWithChildren>)
        requires
            task_ids_ok(store@.tasks),
        ensures
            id@.len() == 0 ==> fails_with(r, ErrorKind::InvalidInput),
            id@.len() > 0 && !has_task(store@.tasks, id@) ==> not_found(r, "Task"@, id@),
            has_task(store@.tasks, id@) ==> r is Ok && hierarchy_of(
                store@.tasks,
                index_of(store@.tasks, id@),
                r->Ok_0,
            ),
    {
        if id.as_str().is_empty() {
            return Err(AppError::InvalidInput(String::from_str("Task ID cannot be empty")));
        }
        match store.find_task(&id) {
            Some(a) => Ok(hierarchy_at(store, a)),
            None => Err(AppError::NotFound("Task", id)),
        }
    }
}


/// Moving task `id` under task `p` of the same project fails with Conflict
/// exactly when `p` is `id` itself or lies below it; otherwise it succeeds and
/// the task's parent becomes `p`.
pub proof fn lemma_move_conflict(ts: Seq<TaskView>, id: Seq<char>, p: Seq<char>)
    requires
        tasks_wf(ts),
        id.len() > 0,
        has_task(ts, id),
        has_task(ts, p),
        ts[index_of(ts, p)].project_id == ts[index_of(ts, id)].project_id,
    ensures
        in_subtree(ts, index_of(ts, id), index_of(ts, p)) ==> move_failure(ts, id, Some(p)) == Some(
            ErrorKind::Conflict,
        ),
        !in_subtree(ts, index_of(ts, id), index_of(ts, p)) ==> move_failure(ts, id, Some(p)) is None
            && moved_tasks(ts, id, Some(p))[index_of(ts, id)].parent_id == Some(p),
{
}

/// Setting the status to done on a task that is not done sets `completed_at`
/// to the recorded update time, which is at or after the previous
/// `updated_at`; setting it back to todo afterwards clears `completed_at`.
pub proof fn lemma_done_then_todo(
    ts: Seq<TaskView>,
    id: Seq<char>,
    done: UpdateTaskDto,
    c1: i64,
    todo: UpdateTaskDto,
    c2: i64,
)
    requires
        tasks_wf(ts),
        has_task(ts, id),
        update_failure(ts, id, done) is None,
        done.status is Some && done.status->0@ == "done"@,
        ts[index_of(ts, id)].status != "done"@,
        todo.status is Some && todo.status->0@ == "todo"@,
    ensures
        ({
            let i = index_of(ts, id);
            let t1 = updated_tasks(ts, id, done, c1);
            let t2 = updated_tasks(t1, id, todo, c2);
            &&& t1[i].completed_at == Some(t1[i].updated_at)
            &&& t1[i].updated_at >= ts[i].updated_at
            &&& index_of(t1, id) == i
            &&& t2[i].completed_at is None
        }),
{
    let i = index_of(ts, id);
    let t1 = updated_tasks(ts, id, done, c1);
    assert(0 <= i < ts.len() && ts[i].id == id) by {
        crate::tree::lemma_index_of(ts, choose|k: int| 0 <= k < ts.len() && ts[k].id == id);
    }
    assert forall|k: int| 0 <= k < ts.len() implies ts[k].id == t1[k].id by {}
    crate::store::lemma_same_ids_index_of(ts, t1, id);
    reveal_strlit("done");
    reveal_strlit("todo");
    assert(t1[i].completed_at == Some(t1[i].updated_at));
    assert("todo"@[0] != "done"@[0]);
    assert("todo"@ != "done"@);
}

/// An update that sets no field leaves every field of the task as it was but
/// `updated_at`, and every other task as it was.
pub proof fn lemma_empty_update(ts: Seq<TaskView>, id: Seq<char>, dto: UpdateTaskDto, clock: i64)
    requires
        has_task(ts, id),
        empty_task_update(dto),
    ensures
        ({
            let i = index_of(ts, id);
            let ns = updated_tasks(ts, id, dto, clock);
            &&& ns.len() == ts.len()
            &&& ns[i] == (TaskView { updated_at: effective_now(clock, ts[i].updated_at), ..ts[i] })
            &&& forall|j: int| 0 <= j < ts.len() && j != i ==> ns[j] == ts[j]
        }),
{
    let i = index_of(ts, id);
    crate::merge::lemma_empty_update_keeps_fields(ts[i], dto, effective_now(clock, ts[i].updated_at));
}

} // verus!
