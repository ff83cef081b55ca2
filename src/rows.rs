use vstd::prelude::*;
use crate::models::{
    Note, NoteView, Project, ProjectView, Task, TaskView, opt_str_view,
    opt_strs_view, strs_view,
};
use crate::store::DbService;

verus! {

/// The JSON text that stores a list of tags.
pub uninterp spec fn tags_json(tags: Seq<Seq<char>>) -> Seq<char>;

/// The tags that a stored JSON text holds, or none when the text is not a JSON
/// array of strings.
pub uninterp spec fn tags_from_json(text: Seq<char>) -> Option<Seq<Seq<char>>>;

/// Encodes tags for storage.
///
/// Relies on `serde_json::to_string` on a `Vec<String>`: the JSON array of the
/// strings, which depends on the strings alone; serialising strings does not fail.
#[verifier::external_body]
fn encode_tags(tags: &Vec<String>) -> (r: String)
    ensures
        r@ == tags_json(strs_view(tags@)),
{
    serde_json::to_string(tags).unwrap_or_default()
}

/// Decodes stored tags.
///
/// Relies on `serde_json::from_str::<Vec<String>>`: the strings of a JSON array
/// of strings, and an error (here: none) for any other text.
#[verifier::external_body]
fn decode_tags(text: &str) -> (r: Option<Vec<String>>)
    ensures
        opt_strs_view(r) == tags_from_json(text@),
{
    serde_json::from_str::<Vec<String>>(text).ok()
}

/// The stored form of optional tags.
pub open spec fn stored_tags(tags: Option<Seq<Seq<char>>>) -> Option<Seq<char>> {
    match tags {
        Some(t) => Some(tags_json(t)),
        None => None,
    }
}

/// The tags read back from their stored form; text that does not decode reads
/// as no tags.
pub open spec fn loaded_tags(text: Option<String>) -> Option<Seq<Seq<char>>> {
    match text {
        Some(s) => tags_from_json(s@),
        None => None,
    }
}

/// Encodes optional tags for storage: absence stays absence, and an empty list
/// is stored as a list.
pub fn tags_to_text(tags: &Option<Vec<String>>) -> (r: Option<String>)
    ensures
        opt_str_view(r) == stored_tags(opt_strs_view(*tags)),
{
    match tags {
        Some(t) => Some(encode_tags(t)),
        None => None,
    }
}

/// Decodes optional stored tags.
pub fn tags_from_text(text: &Option<String>) -> (r: Option<Vec<String>>)
    ensures
        opt_strs_view(r) == loaded_tags(*text),
{
    match text {
        Some(s) => decode_tags(s.as_str()),
        None => None,
    }
}

/// A task row as the store's table holds it: tags as JSON text.
pub struct TaskRow {
    pub id: String,
    pub project_id: String,
    pub parent_id: Option<String>,
    pub title: String,
    pub description: Option<String>,
    pub status: String,
    pub priority: String,
    pub due_date: Option<i64>,
    pub completed_at: Option<i64>,
    pub created_at: i64,
    pub updated_at: i64,
    pub order: i32,
    pub tags: Option<String>,
}

/// A project row as the store's table holds it: tags as JSON text.
pub struct ProjectRow {
    pub id: String,
    pub name: String,
    pub path: String,
    pub description: Option<String>,
    pub status: String,
    pub created_at: i64,
    pub last_modified_at: i64,
    pub tags: Option<String>,
}

/// A note row as the store's table holds it: tags as JSON text.
pub struct NoteRow {
    pub id: String,
    pub project_id: String,
    pub title: String,
    pub content: String,
    pub created_at: i64,
    pub updated_at: i64,
    pub tags: Option<String>,
    pub is_pinned: bool,
}

impl DbService {
    /// The stored form of a task.
    pub fn task_to_row(task: &Task) -> (r: TaskRow)
        ensures
            r.id@ == task@.id,
            r.project_id@ == task@.project_id,
            opt_str_view(r.parent_id) == task@.parent_id,
            r.title@ == task@.title,
            opt_str_view(r.description) == task@.description,
            r.status@ == task@.status,
            r.priority@ == task@.priority,
            r.due_date == task@.due_date,
            r.completed_at == task@.completed_at,
            r.created_at == task@.created_at,
            r.updated_at == task@.updated_at,
            r.order == task@.order,
            opt_str_view(r.tags) == stored_tags(task@.tags),
    {
        let t = task.duplicate();
        TaskRow {
            id: t.id,
            project_id: t.project_id,
            parent_id: t.parent_id,
            title: t.title,
            description: t.description,
            status: t.status,
            priority: t.priority,
            due_date: t.due_date,
            completed_at: t.completed_at,
            created_at: t.created_at,
            updated_at: t.updated_at,
            order: t.order,
            tags: tags_to_text(&task.tags),
        }
    }

    /// The task that a stored row holds.
    pub fn row_to_task(row: TaskRow) -> (r: Task)
        ensures
            r@ == (TaskView {
                id: row.id@,
                project_id: row.project_id@,
                parent_id: opt_str_view(row.parent_id),
                title: row.title@,
                description: opt_str_view(row.description),
                status: row.status@,
                priority: row.priority@,
                due_date: row.due_date,
                completed_at: row.completed_at,
                created_at: row.created_at,
                updated_at: row.updated_at,
                order: row.order,
                tags: loaded_tags(row.tags),
            }),
    {
        let tags = tags_from_text(&row.tags);
        Task {
            id: row.id,
            project_id: row.project_id,
            parent_id: row.parent_id,
            title: row.title,
            description: row.description,
            status: row.status,
            priority: row.priority,
            due_date: row.due_date,
            completed_at: row.completed_at,
            created_at: row.created_at,
            updated_at: row.updated_at,
            order: row.order,
            tags: tags,
        }
    }

    /// The stored form of a project.
    pub fn project_to_row(project: &Project) -> (r: ProjectRow)
        ensures
            r.id@ == project@.id,
            r.name@ == project@.name,
            r.path@ == project@.path,
            opt_str_view(r.description) == project@.description,
            r.status@ == project@.status,
            r.created_at == project@.created_at,
            r.last_modified_at == project@.last_modified_at,
            opt_str_view(r.tags) == stored_tags(project@.tags),
    {
        let p = project.duplicate();
        ProjectRow {
            id: p.id,
            name: p.name,
            path: p.path,
            description: p.description,
            status: p.status,
            created_at: p.created_at,
            last_modified_at: p.last_modified_at,
            tags: tags_to_text(&project.tags),
        }
    }

    /// The project that a stored row holds.
    pub fn row_to_project(row: ProjectRow) -> (r: Project)
        ensures
            r@ == (ProjectView {
                id: row.id@,
                name: row.name@,
                path: row.path@,
                description: opt_str_view(row.description),
                status: row.status@,
                created_at: row.created_at,
                last_modified_at: row.last_modified_at,
                tags: loaded_tags(row.tags),
            }),
    {
        let tags = tags_from_text(&row.tags);
        Project {
            id: row.id,
            name: row.name,
            path: row.path,
            description: row.description,
            status: row.status,
            created_at: row.created_at,
            last_modified_at: row.last_modified_at,
            tags: tags,
        }
    }

    /// The stored form of a note.
    pub fn note_to_row(note: &Note) -> (r: NoteRow)
        ensures
            r.id@ == note@.id,
            r.project_id@ == note@.project_id,
            r.title@ == note@.title,
            r.content@ == note@.content,
            r.created_at == note@.created_at,
            r.updated_at == note@.updated_at,
            opt_str_view(r.tags) == stored_tags(note@.tags),
            r.is_pinned == note@.is_pinned,
    {
        let n = note.duplicate();
        NoteRow {
            id: n.id,
            project_id: n.project_id,
            title: n.title,
            content: n.content,
            created_at: n.created_at,
            updated_at: n.updated_at,
            tags: tags_to_text(&note.tags),
            is_pinned: n.is_pinned,
        }
    }

    /// The note that a stored row holds.
    pub fn row_to_note(row: NoteRow) -> (r: Note)
        ensures
            r@ == (NoteView {
                id: row.id@,
                project_id: row.project_id@,
                title: row.title@,
                content: row.content@,
                created_at: row.created_at,
                updated_at: row.updated_at,
                tags: loaded_tags(row.tags),
                is_pinned: row.is_pinned,
            }),
    {
        let tags = tags_from_text(&row.tags);
        Note {
            id: row.id,
            project_id: row.project_id,
            title: row.title,
            content: row.content,
            created_at: row.created_at,
            updated_at: row.updated_at,
            tags: tags,
            is_pinned: row.is_pinned,
        }
    }
}

} // verus!
