use vstd::prelude::*;

verus! {

/// Task data transfer object for creation.
pub struct CreateTaskDto {
    pub project_id: String,
    pub parent_id: Option<String>,
    pub title: String,
    pub description: Option<String>,
    /// todo, in_progress or done
    pub status: Option<String>,
    /// low, medium or high
    pub priority: Option<String>,
    pub due_date: Option<i64>,
    pub order: Option<i32>,
    pub tags: Option<Vec<String>>,
}

/// Task data transfer object for updates: only the fields that are present are applied.
pub struct UpdateTaskDto {
    pub title: Option<String>,
    pub description: Option<String>,
    pub status: Option<String>,
    pub priority: Option<String>,
    pub due_date: Option<i64>,
    pub parent_id: Option<String>,
    pub order: Option<i32>,
    pub tags: Option<Vec<String>>,
}

/// A task row.
pub struct Task {
    pub id: String,
    pub project_id: String,
    pub parent_id: Option<String>,
    pub title: String,
    pub description: Option<String>,
    pub status: String,
    pub priority: String,
    pub due_date: Option<i64>,
    pub completed_at: Option<i64>,
    pub created_at: i64,
    pub updated_at: i64,
    pub order: i32,
    pub tags: Option<Vec<String>>,
}

/// A task together with its direct children, each expanded to full depth.
pub struct TaskWithChildren {
    pub task: Task,
    pub children: Vec<TaskWithChildren>,
}

/// Project data transfer object for creation.
pub struct CreateProjectDto {
    pub name: String,
    pub path: String,
    pub description: Option<String>,
    pub tags: Option<Vec<String>>,
}

/// Project data transfer object for updates.
pub struct UpdateProjectDto {
    pub name: Option<String>,
    pub description: Option<String>,
    pub status: Option<String>,
    pub tags: Option<Vec<String>>,
}

/// A project row.
pub struct Project {
    pub id: String,
    pub name: String,
    pub path: String,
    pub description: Option<String>,
    pub status: String,
    pub created_at: i64,
    pub last_modified_at: i64,
    pub tags: Option<Vec<String>>,
}

/// Note data transfer object for creation.
pub struct CreateNoteDto {
    pub project_id: String,
    pub title: String,
    pub content: String,
    pub tags: Option<Vec<String>>,
    pub is_pinned: Option<bool>,
}

/// Note data transfer object for updates.
pub struct UpdateNoteDto {
    pub title: Option<String>,
    pub content: Option<String>,
    pub tags: Option<Vec<String>>,
    pub is_pinned: Option<bool>,
}

/// A note row.
pub struct Note {
    pub id: String,
    pub project_id: String,
    pub title: String,
    pub content: String,
    pub created_at: i64,
    pub updated_at: i64,
    pub tags: Option<Vec<String>>,
    pub is_pinned: bool,
}


/// The characters of an optional string.
pub open spec fn opt_str_view(o: Option<String>) -> Option<Seq<char>> {
    match o {
        Some(s) => Some(s@),
        None => None,
    }
}

/// The characters of each string of a list.
pub open spec fn strs_view(v: Seq<String>) -> Seq<Seq<char>> {
    v.map_values(|s: String| s@)
}

/// The characters of each string of an optional list.
pub open spec fn opt_strs_view(o: Option<Vec<String>>) -> Option<Seq<Seq<char>>> {
    match o {
        Some(v) => Some(strs_view(v@)),
        None => None,
    }
}

/// A task as plain values.
pub struct TaskView {
    pub id: Seq<char>,
    pub project_id: Seq<char>,
    pub parent_id: Option<Seq<char>>,
    pub title: Seq<char>,
    pub description: Option<Seq<char>>,
    pub status: Seq<char>,
    pub priority: Seq<char>,
    pub due_date: Option<i64>,
    pub completed_at: Option<i64>,
    pub created_at: i64,
    pub updated_at: i64,
    pub order: i32,
    pub tags: Option<Seq<Seq<char>>>,
}

impl View for Task {
    type V = TaskView;

    open spec fn view(&self) -> TaskView {
        TaskView {
            id: self.id@,
            project_id: self.project_id@,
            parent_id: opt_str_view(self.parent_id),
            title: self.title@,
            description: opt_str_view(self.description),
            status: self.status@,
            priority: self.priority@,
            due_date: self.due_date,
            completed_at: self.completed_at,
            created_at: self.created_at,
            updated_at: self.updated_at,
            order: self.order,
            tags: opt_strs_view(self.tags),
        }
    }
}

/// A project as plain values.
pub struct ProjectView {
    pub id: Seq<char>,
    pub name: Seq<char>,
    pub path: Seq<char>,
    pub description: Option<Seq<char>>,
    pub status: Seq<char>,
    pub created_at: i64,
    pub last_modified_at: i64,
    pub tags: Option<Seq<Seq<char>>>,
}

impl View for Project {
    type V = ProjectView;

    open spec fn view(&self) -> ProjectView {
        ProjectView {
            id: self.id@,
            name: self.name@,
            path: self.path@,
            description: opt_str_view(self.description),
            status: self.status@,
            created_at: self.created_at,
            last_modified_at: self.last_modified_at,
            tags: opt_strs_view(self.tags),
        }
    }
}

/// A note as plain values.
pub struct NoteView {
    pub id: Seq<char>,
    pub project_id: Seq<char>,
    pub title: Seq<char>,
    pub content: Seq<char>,
    pub created_at: i64,
    pub updated_at: i64,
    pub tags: Option<Seq<Seq<char>>>,
    pub is_pinned: bool,
}

impl View for Note {
    type V = NoteView;

    open spec fn view(&self) -> NoteView {
        NoteView {
            id: self.id@,
            project_id: self.project_id@,
            title: self.title@,
            content: self.content@,
            created_at: self.created_at,
            updated_at: self.updated_at,
            tags: opt_strs_view(self.tags),
            is_pinned: self.is_pinned,
        }
    }
}

/// The views of a list of tasks.
pub open spec fn tasks_view(v: Seq<Task>) -> Seq<TaskView> {
    v.map_values(|t: Task| t@)
}

/// The views of a list of projects.
pub open spec fn projects_view(v: Seq<Project>) -> Seq<ProjectView> {
    v.map_values(|p: Project| p@)
}

/// The views of a list of notes.
pub open spec fn notes_view(v: Seq<Note>) -> Seq<NoteView> {
    v.map_values(|n: Note| n@)
}

/// A clone of an optional string.
pub fn clone_opt_str(o: &Option<String>) -> (r: Option<String>)
    ensures
        opt_str_view(r) == opt_str_view(*o),
{
    match o {
        Some(s) => Some(s.clone()),
        None => None,
    }
}

/// A clone of a list of strings.
pub fn clone_strs(v: &Vec<String>) -> (r: Vec<String>)
    ensures
        strs_view(r@) == strs_view(v@),
{
    let mut r: Vec<String> = Vec::new();
    let mut i: usize = 0;
    while i < v.len()
        invariant
            i <= v.len(),
            r@.len() == i,
            forall|k: int| 0 <= k < i ==> #[trigger] r@[k]@ == v@[k]@,
        decreases v.len() - i,
    {
        r.push(v[i].clone());
        i = i + 1;
    }
    assert(strs_view(r@) =~= strs_view(v@));
    r
}

/// A clone of an optional list of strings.
pub fn clone_opt_strs(o: &Option<Vec<String>>) -> (r: Option<Vec<String>>)
    ensures
        opt_strs_view(r) == opt_strs_view(*o),
{
    match o {
        Some(v) => Some(clone_strs(v)),
        None => None,
    }
}

impl Task {
    /// A field-by-field clone.
    pub fn duplicate(&self) -> (r: Task)
        ensures
            r@ == self@,
    {
        Task {
            id: self.id.clone(),
            project_id: self.project_id.clone(),
            parent_id: clone_opt_str(&self.parent_id),
            title: self.title.clone(),
            description: clone_opt_str(&self.description),
            status: self.status.clone(),
            priority: self.priority.clone(),
            due_date: self.due_date,
            completed_at: self.completed_at,
            created_at: self.created_at,
            updated_at: self.updated_at,
            order: self.order,
            tags: clone_opt_strs(&self.tags),
        }
    }
}

impl Project {
    /// A field-by-field clone.
    pub fn duplicate(&self) -> (r: Project)
        ensures
            r@ == self@,
    {
        Project {
            id: self.id.clone(),
            name: self.name.clone(),
            path: self.path.clone(),
            description: clone_opt_str(&self.description),
            status: self.status.clone(),
            created_at: self.created_at,
            last_modified_at: self.last_modified_at,
            tags: clone_opt_strs(&self.tags),
        }
    }
}

impl Note {
    /// A field-by-field clone.
    pub fn duplicate(&self) -> (r: Note)
        ensures
            r@ == self@,
    {
        Note {
            id: self.id.clone(),
            project_id: self.project_id.clone(),
            title: self.title.clone(),
            content: self.content.clone(),
            created_at: self.created_at,
            updated_at: self.updated_at,
            tags: clone_opt_strs(&self.tags),
            is_pinned: self.is_pinned,
        }
    }
}

} // verus!
