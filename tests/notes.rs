use research_core::error::{AppError, ErrorKind};
use research_core::models::{CreateNoteDto, CreateProjectDto, UpdateNoteDto};
use research_core::note_service::NoteService;
use research_core::project_service::ProjectService;
use research_core::store::DbService;

fn kind<T>(r: Result<T, AppError>) -> ErrorKind {
    match r {
        Ok(_) => panic!("expected an error"),
        Err(e) => e.kind(),
    }
}

fn setup() -> (DbService, String) {
    let mut store = DbService::new();
    let dto = CreateProjectDto { name: "N".to_string(), path: "/tmp/notes".to_string(), description: None, tags: None };
    let p = ProjectService::create_project_at(&mut store, dto, false, Ok(()), "p".to_string(), 1).unwrap();
    (store, p.id)
}

fn note(project: &str, title: &str, content: &str, tags: Option<Vec<&str>>, pinned: Option<bool>) -> CreateNoteDto {
    CreateNoteDto {
        project_id: project.to_string(),
        title: title.to_string(),
        content: content.to_string(),
        tags: tags.map(|v| v.into_iter().map(|s| s.to_string()).collect()),
        is_pinned: pinned,
    }
}

#[test]
fn create_and_read_notes() {
    let (mut store, p) = setup();
    let n = NoteService::create_note_at(&mut store, note(&p, "First", "body", None, None), "n1".to_string(), 10).unwrap();
    assert!(!n.is_pinned);
    assert_eq!(n.created_at, 10);
    assert_eq!(NoteService::get_note(&store, "n1".to_string()).unwrap().title, "First");
    assert_eq!(kind(NoteService::get_note(&store, "n2".to_string())), ErrorKind::NotFound);
    assert_eq!(kind(NoteService::create_note(&mut store, note(&p, "", "x", None, None))), ErrorKind::InvalidInput);
    assert_eq!(kind(NoteService::create_note(&mut store, note("q", "T", "x", None, None))), ErrorKind::NotFound);
    assert_eq!(kind(NoteService::create_note_at(&mut store, note(&p, "T", "x", None, None), "n1".to_string(), 1)), ErrorKind::Conflict);
    let fresh = NoteService::create_note(&mut store, note(&p, "Second", "more", None, Some(true))).unwrap();
    assert_eq!(fresh.id.len(), 36);
    assert_eq!(NoteService::list_notes(&store, p.clone()).unwrap().len(), 2);
    assert_eq!(NoteService::list_pinned_notes(&store, p.clone()).unwrap().len(), 1);
}

#[test]
fn update_toggle_duplicate_delete() {
    let (mut store, p) = setup();
    NoteService::create_note_at(&mut store, note(&p, "A", "a", Some(vec!["x"]), None), "n1".to_string(), 10).unwrap();
    let upd = UpdateNoteDto { title: None, content: Some("changed".to_string()), tags: None, is_pinned: None };
    let n = NoteService::update_note_at(&mut store, "n1".to_string(), upd, 20).unwrap();
    assert_eq!(n.content, "changed");
    assert_eq!(n.title, "A");
    assert_eq!(n.tags, Some(vec!["x".to_string()]));
    assert_eq!(n.updated_at, 20);
    let t = NoteService::toggle_pin(&mut store, "n1".to_string()).unwrap();
    assert!(t.is_pinned);
    let d = NoteService::duplicate_note_at(&mut store, "n1".to_string(), Some("Copy".to_string()), "n2".to_string(), 30).unwrap();
    assert_eq!(d.title, "Copy");
    assert_eq!(d.content, "changed");
    assert_eq!(d.created_at, 30);
    let same = NoteService::duplicate_note(&mut store, "n1".to_string(), None).unwrap();
    assert_eq!(same.title, "A");
    assert_eq!(store.note_count(), 3);
    NoteService::delete_note(&mut store, "n1".to_string()).unwrap();
    assert_eq!(store.note_count(), 2);
    assert_eq!(kind(NoteService::delete_note(&mut store, "n1".to_string())), ErrorKind::NotFound);
}

#[test]
fn recent_notes_most_recent_first() {
    let (mut store, p) = setup();
    NoteService::create_note_at(&mut store, note(&p, "old", "", None, None), "a".to_string(), 10).unwrap();
    NoteService::create_note_at(&mut store, note(&p, "new", "", None, None), "b".to_string(), 30).unwrap();
    NoteService::create_note_at(&mut store, note(&p, "mid", "", None, None), "c".to_string(), 20).unwrap();
    let two: Vec<String> = NoteService::list_recent_notes(&store, p.clone(), 2).unwrap().into_iter().map(|n| n.title).collect();
    assert_eq!(two, vec!["new", "mid"]);
    assert_eq!(NoteService::list_recent_notes(&store, p.clone(), 10).unwrap().len(), 3);
    assert_eq!(kind(NoteService::list_recent_notes(&store, p.clone(), 0)), ErrorKind::InvalidInput);
}

#[test]
fn tags_and_search() {
    let (mut store, p) = setup();
    NoteService::create_note_at(&mut store, note(&p, "one", "alpha text", Some(vec!["x", "y"]), None), "a".to_string(), 1).unwrap();
    NoteService::create_note_at(&mut store, note(&p, "two", "beta", Some(vec!["y", "z"]), None), "b".to_string(), 2).unwrap();
    NoteService::create_note_at(&mut store, note(&p, "three", "gamma", None, None), "c".to_string(), 3).unwrap();
    let all = NoteService::get_all_tags(&store, p.clone()).unwrap();
    assert_eq!(all, vec!["x".to_string(), "y".to_string(), "z".to_string()]);
    let by = NoteService::list_notes_by_tags(&store, p.clone(), vec!["z".to_string()]).unwrap();
    assert_eq!(by.len(), 1);
    assert_eq!(by[0].id, "b");
    assert_eq!(NoteService::list_notes_by_tags(&store, p.clone(), vec!["y".to_string()]).unwrap().len(), 2);
    assert_eq!(kind(NoteService::list_notes_by_tags(&store, p.clone(), vec![])), ErrorKind::InvalidInput);
    assert_eq!(NoteService::search_notes(&store, p.clone(), "alpha".to_string()).unwrap().len(), 1);
    assert_eq!(NoteService::search_notes(&store, p.clone(), "t".to_string()).unwrap().len(), 3);
}
