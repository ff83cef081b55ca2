use vstd::prelude::*;
use crate::models::{
    Project, ProjectView, Task, TaskView, UpdateProjectDto, UpdateTaskDto, opt_str_view,
    strs_view,
};

verus! {

/// One of the task statuses: todo, in_progress or done.
pub open spec fn valid_status(s: Seq<char>) -> bool {
    s == "todo"@ || s == "in_progress"@ || s == "done"@
}

/// One of the task priorities: low, medium or high.
pub open spec fn valid_priority(s: Seq<char>) -> bool {
    s == "low"@ || s == "medium"@ || s == "high"@
}

/// One of the project statuses: active or archived.
pub open spec fn valid_project_status(s: Seq<char>) -> bool {
    s == "active"@ || s == "archived"@
}

/// An optional value is absent or valid.
pub open spec fn opt_valid(o: Option<String>, valid: spec_fn(Seq<char>) -> bool) -> bool {
    match o {
        Some(s) => valid(s@),
        None => true,
    }
}

/// The time stamp that an update records: the clock, but never earlier than the
/// previous one, so that time stamps of a row never go backwards.
pub open spec fn effective_now(clock: i64, previous: i64) -> i64 {
    if clock < previous {
        previous
    } else {
        clock
    }
}

/// `completed_at` after an update that sets the status to `status` (if given).
pub open spec fn merged_completed_at(old: TaskView, status: Option<Seq<char>>, now: i64) -> Option<i64> {
    match status {
        None => old.completed_at,
        Some(s) => if s == "done"@ {
            if old.status == "done"@ && old.completed_at is Some {
                old.completed_at
            } else {
                Some(now)
            }
        } else {
            None
        },
    }
}

/// A task after a partial update at time `now`: each field that the update
/// holds replaces the stored one, each other field stays, `updated_at` becomes
/// `now`, and `completed_at` follows the status. The parent is not touched here.
pub open spec fn merged_task(old: TaskView, dto: UpdateTaskDto, now: i64) -> TaskView {
    TaskView {
        title: match dto.title {
            Some(t) => t@,
            None => old.title,
        },
        description: match dto.description {
            Some(d) => Some(d@),
            None => old.description,
        },
        status: match dto.status {
            Some(s) => s@,
            None => old.status,
        },
        priority: match dto.priority {
            Some(p) => p@,
            None => old.priority,
        },
        due_date: match dto.due_date {
            Some(d) => Some(d),
            None => old.due_date,
        },
        order: match dto.order {
            Some(o) => o,
            None => old.order,
        },
        tags: match dto.tags {
            Some(v) => Some(strs_view(v@)),
            None => old.tags,
        },
        completed_at: merged_completed_at(old, opt_str_view(dto.status), now),
        updated_at: now,
        ..old
    }
}

/// A project after a partial update at time `now`.
pub open spec fn merged_project(old: ProjectView, dto: UpdateProjectDto, now: i64) -> ProjectView {
    ProjectView {
        name: match dto.name {
            Some(n) => n@,
            None => old.name,
        },
        description: match dto.description {
            Some(d) => Some(d@),
            None => old.description,
        },
        status: match dto.status {
            Some(s) => s@,
            None => old.status,
        },
        tags: match dto.tags {
            Some(v) => Some(strs_view(v@)),
            None => old.tags,
        },
        last_modified_at: now,
        ..old
    }
}

/// An update that sets no field.
pub open spec fn empty_task_update(dto: UpdateTaskDto) -> bool {
    dto.title is None && dto.description is None && dto.status is None && dto.priority is None
        && dto.due_date is None && dto.parent_id is None && dto.order is None && dto.tags is None
}

/// Two strings hold the same characters.
pub fn text_eq(a: &str, b: &str) -> (r: bool)
    ensures
        r == (a@ == b@),
{
    a.to_owned() == b.to_owned()
}

/// Whether a string is a task status.
pub fn is_valid_status(s: &str) -> (r: bool)
    ensures
        r == valid_status(s@),
{
    text_eq(s, "todo") || text_eq(s, "in_progress") || text_eq(s, "done")
}

/// Whether a string is a task priority.
pub fn is_valid_priority(s: &str) -> (r: bool)
    ensures
        r == valid_priority(s@),
{
    text_eq(s, "low") || text_eq(s, "medium") || text_eq(s, "high")
}

/// Whether a string is a project status.
pub fn is_valid_project_status(s: &str) -> (r: bool)
    ensures
        r == valid_project_status(s@),
{
    text_eq(s, "active") || text_eq(s, "archived")
}

/// Applies a partial update to a task at time `now`.
pub fn merge_task(task: Task, dto: UpdateTaskDto, now: i64) -> (r: Task)
    ensures
        r@ == merged_task(task@, dto, now),
{
    let ghost old = task@;
    let ghost d = dto;
    let mut t = task;
    let completed_at = match &dto.status {
        Some(s) => if text_eq(s.as_str(), "done") {
            if text_eq(t.status.as_str(), "done") && t.completed_at.is_some() {
                t.completed_at
            } else {
                Some(now)
            }
        } else {
            None
        },
        None => t.completed_at,
    };
    if let Some(v) = dto.title {
        t.title = v;
    }
    if let Some(v) = dto.description {
        t.description = Some(v);
    }
    if let Some(v) = dto.status {
        t.status = v;
    }
    if let Some(v) = dto.priority {
        t.priority = v;
    }
    if let Some(v) = dto.due_date {
        t.due_date = Some(v);
    }
    if let Some(v) = dto.order {
        t.order = v;
    }
    if let Some(v) = dto.tags {
        t.tags = Some(v);
    }
    t.completed_at = completed_at;
    t.updated_at = now;
    proof {
        assert(t@ == merged_task(old, d, now));
    }
    t
}

/// Applies a partial update to a project at time `now`.
pub fn merge_project(project: Project, dto: UpdateProjectDto, now: i64) -> (r: Project)
    ensures
        r@ == merged_project(project@, dto, now),
{
    let mut p = project;
    if let Some(v) = dto.name {
        p.name = v;
    }
    if let Some(v) = dto.description {
        p.description = Some(v);
    }
    if let Some(v) = dto.status {
        p.status = v;
    }
    if let Some(v) = dto.tags {
        p.tags = Some(v);
    }
    p.last_modified_at = now;
    p
}

/// An update that sets no field changes nothing but `updated_at`.
pub proof fn lemma_empty_update_keeps_fields(old: TaskView, dto: UpdateTaskDto, now: i64)
    requires
        empty_task_update(dto),
    ensures
        merged_task(old, dto, now) == (TaskView { updated_at: now, ..old }),
{
}

} // verus!
