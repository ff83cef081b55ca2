use vstd::prelude::*;
use vstd::string::*;
use crate::error::{AppError, AppResult, ErrorKind, fails_with, not_found};
use crate::models::{
    Note, NoteView, Project, ProjectView, Task, TaskView, UpdateProjectDto, notes_view,
    projects_view, strs_view, tasks_view,
};
use crate::note_service::project_notes;
use crate::merge::merge_project;
use crate::project_service::{archived_projects, updated_projects};
use crate::store::{
    DbService, StoreTables, has_note, has_project_id, note_index, positions_by_key_desc,
    project_index, same_text, task_ids,
};
use crate::task_service::{lemma_filter_step, project_tasks};
use crate::tree::{has_task, index_of, outside_subtree, subtree};

verus! {

impl DbService {
    /// The task with the given id, if any.
    pub fn get_task_by_id(&self, id: &String) -> (r: Option<Task>)
        requires
            self.wf(),
        ensures
            match r {
                Some(t) => has_task(self@.tasks, id@) && t@ == self@.tasks[index_of(self@.tasks, id@)],
                None => !has_task(self@.tasks, id@),
            },
    {
        match self.find_task(id) {
            Some(i) => Some(self.task_at(i).duplicate()),
            None => None,
        }
    }

    /// The tasks of a project, in store order.
    pub fn get_tasks_by_project(&self, project_id: &String) -> (r: Vec<Task>)
        ensures
            tasks_view(r@) == project_tasks(self@.tasks, project_id@),
    {
        let ghost ts = self@.tasks;
        let n = self.task_count();
        let mut out: Vec<Task> = Vec::new();
        let mut j: usize = 0;
        while j < n
            invariant
                ts == self@.tasks,
                n == ts.len(),
                j <= n,
                tasks_view(out@) == project_tasks(ts.take(j as int), project_id@),
            decreases n - j,
        {
            let t = self.task_at(j);
            let ghost prev = out@;
            proof {
                lemma_filter_step(ts, |t: TaskView| t.project_id == project_id@, j as int);
            }
            if same_text(&t.project_id, project_id) {
                out.push(t.duplicate());
                assert(tasks_view(out@) =~= tasks_view(prev).push(ts[j as int]));
            }
            j = j + 1;
        }
        assert(ts.take(n as int) =~= ts);
        out
    }

    /// Deletes the task with the given id and every task below it, and gives
    /// back the removed ids; NotFound when there is no such task.
    pub fn delete_task(&mut self, id: &String) -> (r: AppResult<Vec<String>>)
        requires
            old(self).wf(),
        ensures
            final(self).wf(),
            !has_task(old(self)@.tasks, id@) ==> not_found(r, "Task"@, id@) && final(self)@
                == old(self)@,
            has_task(old(self)@.tasks, id@) ==> {
                let a = index_of(old(self)@.tasks, id@);
                &&& r is Ok
                &&& strs_view(r->Ok_0@) == task_ids(subtree(old(self)@.tasks, a))
                &&& final(self)@ == (StoreTables { tasks: outside_subtree(old(self)@.tasks, a), ..old(self)@ })
            },
    {
        match self.find_task(id) {
            Some(a) => Ok(self.remove_subtree(a)),
            None => Err(AppError::NotFound("Task", id.clone())),
        }
    }

    /// The project with the given id, if any.
    pub fn get_project_by_id(&self, id: &String) -> (r: Option<Project>)
        requires
            self.wf(),
        ensures
            match r {
                Some(p) => has_project_id(self@.projects, id@) && p@ == self@.projects[project_index(
                    self@.projects,
                    id@,
                )],
                None => !has_project_id(self@.projects, id@),
            },
    {
        match self.find_project(id) {
            Some(i) => Some(self.project_at(i).duplicate()),
            None => None,
        }
    }

    /// All projects, most recently modified first.
    pub fn get_all_projects(&self) -> (r: Vec<Project>)
        ensures
            projects_view(r@).len() == self@.projects.len(),
            forall|p: ProjectView| projects_view(r@).contains(p) <==> self@.projects.contains(p),
            forall|a: int, b: int| 0 <= a < b < r@.len() ==> r@[a].last_modified_at >= r@[b].last_modified_at,
    {
        let ghost ps = self@.projects;
        let n = self.project_count();
        let mut keys: Vec<i64> = Vec::new();
        let mut j: usize = 0;
        while j < n
            invariant
                ps == self@.projects,
                n == ps.len(),
                j <= n,
                keys@.len() == j,
                forall|k: int| 0 <= k < j ==> keys@[k] == ps[k].last_modified_at,
            decreases n - j,
        {
            keys.push(self.project_at(j).last_modified_at);
            j = j + 1;
        }
        let order = positions_by_key_desc(&keys);
        let mut out: Vec<Project> = Vec::new();
        let mut k: usize = 0;
        while k < order.len()
            invariant
                ps == self@.projects,
                n == ps.len(),
                order@.len() == n,
                keys@.len() == n,
                forall|m: int| 0 <= m < n ==> keys@[m] == ps[m].last_modified_at,
                forall|m: int| 0 <= m < n ==> order@[m] < n,
                k <= n,
                out@.len() == k,
                forall|m: int| 0 <= m < k ==> #[trigger] out@[m]@ == ps[order@[m] as int],
            decreases n - k,
        {
            out.push(self.project_at(order[k]).duplicate());
            k = k + 1;
        }
        proof {
            let v = projects_view(out@);
            assert forall|p: ProjectView| v.contains(p) <==> ps.contains(p) by {
                if v.contains(p) {
                    let a = choose|a: int| 0 <= a < v.len() && v[a] == p;
                    assert(v[a] == out@[a]@);
                }
                if ps.contains(p) {
                    let y = choose|y: int| 0 <= y < ps.len() && ps[y] == p;
                    assert(order@.contains(y as usize));
                    let a = choose|a: int| 0 <= a < order@.len() && order@[a] == y as usize;
                    assert(v[a] == out@[a]@);
                }
            }
            assert forall|a: int, b: int| 0 <= a < b < out@.len() implies out@[a].last_modified_at
                >= out@[b].last_modified_at by {
                assert(out@[a]@ == ps[order@[a] as int]);
                assert(out@[b]@ == ps[order@[b] as int]);
                assert(keys@[order@[a] as int] >= keys@[order@[b] as int]);
            }
        }
        out
    }

    /// The note with the given id, if any.
    pub fn get_note_by_id(&self, id: &String) -> (r: Option<Note>)
        requires
            self.wf(),
        ensures
            match r {
                Some(n) => has_note(self@.notes, id@) && n@ == self@.notes[note_index(self@.notes, id@)],
                None => !has_note(self@.notes, id@),
            },
    {
        match self.find_note(id) {
            Some(i) => Some(self.note_at(i).duplicate()),
            None => None,
        }
    }

    /// The notes of a project, in store order.
    pub fn get_notes_by_project(&self, project_id: &String) -> (r: Vec<Note>)
        ensures
            notes_view(r@) == project_notes(self@.notes, project_id@),
    {
        let ghost ns = self@.notes;
        let n = self.note_count();
        let mut out: Vec<Note> = Vec::new();
        let mut j: usize = 0;
        while j < n
            invariant
                ns == self@.notes,
                n == ns.len(),
                j <= n,
                notes_view(out@) == project_notes(ns.take(j as int), project_id@),
            decreases n - j,
        {
            let x = self.note_at(j);
            let ghost prev = out@;
            proof {
                lemma_filter_step(ns, |m: NoteView| m.project_id == project_id@, j as int);
            }
            if same_text(&x.project_id, project_id) {
                out.push(x.duplicate());
                assert(notes_view(out@) =~= notes_view(prev).push(ns[j as int]));
            }
            j = j + 1;
        }
        assert(ns.take(n as int) =~= ns);
        out
    }

    /// Deletes the note with the given id; NotFound when there is none.
    pub fn delete_note(&mut self, id: &String) -> (r: AppResult<()>)
        requires
            old(self).wf(),
        ensures
            final(self).wf(),
            !has_note(old(self)@.notes, id@) ==> not_found(r, "Note"@, id@) && final(self)@
                == old(self)@,
            has_note(old(self)@.notes, id@) ==> r is Ok && final(self)@ == (StoreTables {
                notes: old(self)@.notes.remove(note_index(old(self)@.notes, id@)),
                ..old(self)@
            }),
    {
        match self.find_note(id) {
            Some(i) => {
                self.remove_note(i);
                Ok(())
            },
            None => Err(AppError::NotFound("Note", id.clone())),
        }
    }
}

impl DbService {
    /// Applies a partial update to the project with the given id, with the
    /// clock reading `clock`; the modification time is always refreshed, never
    /// to before its previous value. NotFound when there is no such project.
    pub fn update_project(&mut self, id: &String, data: UpdateProjectDto, clock: i64) -> (r: AppResult<Project>)
        requires
            old(self).wf(),
        ensures
            final(self).wf(),
            !has_project_id(old(self)@.projects, id@) ==> not_found(r, "Project"@, id@)
                && final(self)@ == old(self)@,
            has_project_id(old(self)@.projects, id@) ==> {
                let ns = updated_projects(old(self)@.projects, id@, data, clock);
                &&& r is Ok
                &&& r->Ok_0@ == ns[project_index(old(self)@.projects, id@)]
                &&& final(self)@ == (StoreTables { projects: ns, ..old(self)@ })
            },
    {
        match self.find_project(id) {
            None => Err(AppError::NotFound("Project", id.clone())),
            Some(i) => {
                let p = self.project_at(i).duplicate();
                let now = if clock < p.last_modified_at {
                    p.last_modified_at
                } else {
                    clock
                };
                let merged = merge_project(p, data, now);
                let out = merged.duplicate();
                self.set_project(i, merged);
                Ok(out)
            },
        }
    }

    /// Archives the project with the given id, with the clock reading `clock`:
    /// its status becomes archived and its modification time is refreshed; the
    /// row stays. NotFound when there is no such project.
    pub fn delete_project(&mut self, id: &String, clock: i64) -> (r: AppResult<()>)
        requires
            old(self).wf(),
        ensures
            final(self).wf(),
            !has_project_id(old(self)@.projects, id@) ==> not_found(r, "Project"@, id@)
                && final(self)@ == old(self)@,
            has_project_id(old(self)@.projects, id@) ==> r is Ok && final(self)@ == (StoreTables {
                projects: archived_projects(old(self)@.projects, id@, clock),
                ..old(self)@
            }),
    {
        match self.find_project(id) {
            None => Err(AppError::NotFound("Project", id.clone())),
            Some(i) => {
                let mut p = self.project_at(i).duplicate();
                let now = if clock < p.last_modified_at {
                    p.last_modified_at
                } else {
                    clock
                };
                p.status = String::from_str("archived");
                p.last_modified_at = now;
                self.set_project(i, p);
                Ok(())
            },
        }
    }
}

} // verus!
