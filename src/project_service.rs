use vstd::prelude::*;
use vstd::string::*;
use crate::error::{AppError, AppResult, ErrorKind, fails_with, not_found};
use crate::merge::{effective_now, is_valid_project_status, merged_project, valid_project_status};
use crate::models::{
    CreateProjectDto, Project, ProjectView, UpdateProjectDto, opt_str_view, opt_strs_view,
    projects_view,
};
use crate::provider::{new_id, now_timestamp};
use crate::store::{DbService, StoreTables, has_project_id, path_in_use, project_index};

verus! {

/// Project operations: the project lifecycle manager.
///
/// Creating a project provisions its directory tree, repository and metadata
/// file outside this library; the decisions around that work are made here.
pub struct ProjectService;

/// The project that a creation request describes, with id `id`, created at `now`.
pub open spec fn new_project_view(data: CreateProjectDto, id: Seq<char>, now: i64) -> ProjectView {
    ProjectView {
        id: id,
        name: data.name@,
        path: data.path@,
        description: opt_str_view(data.description),
        status: "active"@,
        created_at: now,
        last_modified_at: now,
        tags: opt_strs_view(data.tags),
    }
}

/// Why a creation request is refused before any provisioning, if it is:
/// `path_exists` tells whether the path already exists on disk.
pub open spec fn create_project_failure(s: StoreTables, data: CreateProjectDto, path_exists: bool) -> Option<ErrorKind> {
    if data.name@.len() == 0 || data.path@.len() == 0 {
        Some(ErrorKind::InvalidInput)
    } else if path_exists || path_in_use(s.projects, data.path@) {
        Some(ErrorKind::Conflict)
    } else {
        None
    }
}

/// The projects after the project `id` is updated at the clock reading `clock`.
pub open spec fn updated_projects(ps: Seq<ProjectView>, id: Seq<char>, dto: UpdateProjectDto, clock: i64) -> Seq<ProjectView> {
    let i = project_index(ps, id);
    ps.update(i, merged_project(ps[i], dto, effective_now(clock, ps[i].last_modified_at)))
}

/// The projects after the project `id` is archived at the clock reading `clock`.
pub open spec fn archived_projects(ps: Seq<ProjectView>, id: Seq<char>, clock: i64) -> Seq<ProjectView> {
    let i = project_index(ps, id);
    ps.update(
        i,
        ProjectView {
            status: "archived"@,
            last_modified_at: effective_now(clock, ps[i].last_modified_at),
            ..ps[i]
        },
    )
}

impl ProjectService {
    /// Decides whether a project may be created, before any provisioning:
    /// InvalidInput on an empty name or path, Conflict when the path exists on
    /// disk (`path_exists`) or belongs to a project already.
    pub fn check_new_project(store: &DbService, data: &CreateProjectDto, path_exists: bool) -> (r: AppResult<()>)
        requires
            store.wf(),
        ensures
            match create_project_failure(store@, *data, path_exists) {
                Some(k) => fails_with(r, k),
                None => r is Ok,
            },
    {
        if data.name.as_str().is_empty() {
            return Err(AppError::InvalidInput(String::from_str("Project name cannot be empty")));
        }
        if data.path.as_str().is_empty() {
            return Err(AppError::InvalidInput(String::from_str("Project path cannot be empty")));
        }
        if path_exists || store.path_taken(&data.path) {
            return Err(AppError::Conflict(String::from_str("Project path already exists")));
        }
        Ok(())
    }

    /// Records a new project with id `id` at time `now`, once provisioning has
    /// run with the outcome `provisioning`. Nothing is recorded when the
    /// request is refused, when provisioning failed (its error is handed on),
    /// or when `id` is taken (Conflict).
    pub fn create_project_at(
        store: &mut DbService,
        data: CreateProjectDto,
        path_exists: bool,
        provisioning: AppResult<()>,
        id: String,
        now: i64,
    ) -> (r: AppResult<Project>)
        requires
            old(store).wf(),
        ensures
            final(store).wf(),
            match create_project_failure(old(store)@, data, path_exists) {
                Some(k) => fails_with(r, k) && final(store)@ == old(store)@,
                None => match provisioning {
                    Err(e) => r == Err::<Project, AppError>(e) && final(store)@ == old(store)@,
                    Ok(_) => if has_project_id(old(store)@.projects, id@) {
                        fails_with(r, ErrorKind::Conflict) && final(store)@ == old(store)@
                    } else {
                        &&& r is Ok
                        &&& r->Ok_0@ == new_project_view(data, id@, now)
                        &&& final(store)@ == (StoreTables {
                            projects: old(store)@.projects.push(new_project_view(data, id@, now)),
                            ..old(store)@
                        })
                    },
                },
            },
    {
        match Self::check_new_project(store, &data, path_exists) {
            Err(e) => {
                return Err(e);
            },
            Ok(()) => {},
        }
        match provisioning {
            Err(e) => {
                return Err(e);
            },
            Ok(()) => {},
        }
        if store.find_project(&id).is_some() {
            return Err(AppError::Conflict(String::from_str("Project id already exists")));
        }
        let project = Project {
            id: id,
            name: data.name,
            path: data.path,
            description: data.description,
            status: String::from_str("active"),
            created_at: now,
            last_modified_at: now,
            tags: data.tags,
        };
        let out = project.duplicate();
        let res = store.insert_project(project);
        assert(res is Ok);
        Ok(out)
    }

    /// Records a new project with a fresh id, stamped with the current time;
    /// see [`ProjectService::create_project_at`].
    pub fn create_project(store: &mut DbService, data: CreateProjectDto, path_exists: bool, provisioning: AppResult<()>) -> (r: AppResult<Project>)
        requires
            old(store).wf(),
        ensures
            final(store).wf(),
            match create_project_failure(old(store)@, data, path_exists) {
                Some(k) => fails_with(r, k) && final(store)@ == old(store)@,
                None => match provisioning {
                    Err(e) => r == Err::<Project, AppError>(e) && final(store)@ == old(store)@,
                    Ok(_) => match r {
                        Ok(p) => p@.id.len() == 36 && p@ == new_project_view(data, p@.id, p@.created_at) && !has_project_id(
                            old(store)@.projects,
                            p@.id,
                        ) && final(store)@ == (StoreTables {
                            projects: old(store)@.projects.push(p@),
                            ..old(store)@
                        }),
                        Err(e) => fails_with(r, ErrorKind::Conflict) && final(store)@ == old(store)@
                            && exists|i: int| 0 <= i < old(store)@.projects.len() && old(store)@.projects[i].id.len() == 36,
                    },
                },
            },
    {
        let id = new_id();
        let now = now_timestamp();
        Self::create_project_at(store, data, path_exists, provisioning, id, now)
    }

    /// All projects, most recently modified first.
    pub fn list_projects(store: &DbService) -> (r: AppResult<Vec<Project>>)
        requires
            store.wf(),
        ensures
            r is Ok,
            projects_view(r->Ok_0@).len() == store@.projects.len(),
            forall|p: ProjectView| projects_view(r->Ok_0@).contains(p) <==> store@.projects.contains(p),
            forall|a: int, b: int|
                0 <= a < b < r->Ok_0@.len() ==> r->Ok_0@[a].last_modified_at >= r->Ok_0@[b].last_modified_at,
    {
        Ok(store.get_all_projects())
    }

    /// The project with the given id.
    pub fn get_project(store: &DbService, id: String) -> (r: AppResult<Project>)
        requires
            store.wf(),
        ensures
            !has_project_id(store@.projects, id@) ==> not_found(r, "Project"@, id@),
            has_project_id(store@.projects, id@) ==> r is Ok && r->Ok_0@ == store@.projects[project_index(
                store@.projects,
                id@,
            )],
    {
        match store.get_project_by_id(&id) {
            Some(p) => Ok(p),
            None => Err(AppError::NotFound("Project", id)),
        }
    }

    /// Applies a partial update with the clock reading `clock`; the
    /// modification time is always refreshed, never to before its previous
    /// value. InvalidInput on a status other than active or archived; NotFound
    /// when the project does not exist.
    pub fn update_project_at(store: &mut DbService, id: String, data: UpdateProjectDto, clock: i64) -> (r: AppResult<Project>)
        requires
            old(store).wf(),
        ensures
            final(store).wf(),
            data.status is Some && !valid_project_status(data.status->0@) ==> fails_with(
                r,
                ErrorKind::InvalidInput,
            ) && final(store)@ == old(store)@,
            (data.status is None || valid_project_status(data.status->0@)) && !has_project_id(
                old(store)@.projects,
                id@,
            ) ==> not_found(r, "Project"@, id@) && final(store)@ == old(store)@,
            (data.status is None || valid_project_status(data.status->0@)) && has_project_id(
                old(store)@.projects,
                id@,
            ) ==> {
                let ns = updated_projects(old(store)@.projects, id@, data, clock);
                &&& r is Ok
                &&& r->Ok_0@ == ns[project_index(old(store)@.projects, id@)]
                &&& final(store)@ == (StoreTables { projects: ns, ..old(store)@ })
            },
    {
        if let Some(s) = &data.status {
            if !is_valid_project_status(s.as_str()) {
                return Err(AppError::InvalidInput(String::from_str("Invalid project status")));
            }
        }
        store.update_project(&id, data, clock)
    }

    /// Applies a partial update stamped with the current time; see
    /// [`ProjectService::update_project_at`].
    pub fn update_project(store: &mut DbService, id: String, data: UpdateProjectDto) -> (r: AppResult<Project>)
        requires
            old(store).wf(),
        ensures
            final(store).wf(),
            data.status is Some && !valid_project_status(data.status->0@) ==> fails_with(
                r,
                ErrorKind::InvalidInput,
            ) && final(store)@ == old(store)@,
            (data.status is None || valid_project_status(data.status->0@)) && !has_project_id(
                old(store)@.projects,
                id@,
            ) ==> not_found(r, "Project"@, id@) && final(store)@ == old(store)@,
            (data.status is None || valid_project_status(data.status->0@)) && has_project_id(
                old(store)@.projects,
                id@,
            ) ==> {
                &&& r is Ok
                &&& final(store)@ == (StoreTables {
                    projects: updated_projects(old(store)@.projects, id@, data, r->Ok_0@.last_modified_at),
                    ..old(store)@
                })
                &&& r->Ok_0@ == final(store)@.projects[project_index(old(store)@.projects, id@)]
            },
    {
        let clock = now_timestamp();
        Self::update_project_at(store, id, data, clock)
    }

    /// Archives a project with the clock reading `clock`: its status becomes
    /// archived and its modification time is refreshed; its row, tasks and
    /// notes stay. NotFound when the project does not exist.
    pub fn delete_project_at(store: &mut DbService, id: String, clock: i64) -> (r: AppResult<()>)
        requires
            old(store).wf(),
        ensures
            final(store).wf(),
            !has_project_id(old(store)@.projects, id@) ==> not_found(r, "Project"@, id@)
                && final(store)@ == old(store)@,
            has_project_id(old(store)@.projects, id@) ==> r is Ok && final(store)@ == (StoreTables {
                projects: archived_projects(old(store)@.projects, id@, clock),
                ..old(store)@
            }),
    {
        store.delete_project(&id, clock)
    }

    /// Archives a project at the current time; see
    /// [`ProjectService::delete_project_at`].
    pub fn delete_project(store: &mut DbService, id: String) -> (r: AppResult<()>)
        requires
            old(store).wf(),
        ensures
            final(store).wf(),
            !has_project_id(old(store)@.projects, id@) ==> not_found(r, "Project"@, id@)
                && final(store)@ == old(store)@,
            has_project_id(old(store)@.projects, id@) ==> r is Ok && exists|clock: i64|
                final(store)@ == (StoreTables {
                    projects: #[trigger] archived_projects(old(store)@.projects, id@, clock),
                    ..old(store)@
                }),
    {
        let clock = now_timestamp();
        Self::delete_project_at(store, id, clock)
    }
}

/// Creating a project at a path that already exists on disk fails with
/// Conflict and records no row.
pub proof fn lemma_existing_path_conflicts(s: StoreTables, data: CreateProjectDto)
    requires
        data.name@.len() > 0,
        data.path@.len() > 0,
    ensures
        create_project_failure(s, data, true) == Some(ErrorKind::Conflict),
{
}

} // verus!
