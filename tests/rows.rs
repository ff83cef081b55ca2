use research_core::models::{CreateProjectDto, Task};
use research_core::project_service::ProjectService;
use research_core::rows::TaskRow;
use research_core::store::DbService;

fn task(tags: Option<Vec<String>>) -> Task {
    Task {
        id: "t".to_string(),
        project_id: "p".to_string(),
        parent_id: None,
        title: "T".to_string(),
        description: None,
        status: "todo".to_string(),
        priority: "low".to_string(),
        due_date: None,
        completed_at: None,
        created_at: 1,
        updated_at: 2,
        order: 0,
        tags,
    }
}

#[test]
fn tags_are_stored_as_json() {
    let row = DbService::task_to_row(&task(Some(vec!["a".to_string(), "b c".to_string()])));
    assert_eq!(row.tags, Some("[\"a\",\"b c\"]".to_string()));
    let empty = DbService::task_to_row(&task(Some(vec![])));
    assert_eq!(empty.tags, Some("[]".to_string()));
    let none = DbService::task_to_row(&task(None));
    assert_eq!(none.tags, None);
}

#[test]
fn stored_tags_read_back() {
    let row = DbService::task_to_row(&task(Some(vec!["x".to_string()])));
    let back = DbService::row_to_task(row);
    assert_eq!(back.tags, Some(vec!["x".to_string()]));
    let mut broken: TaskRow = DbService::task_to_row(&task(None));
    broken.tags = Some("not json".to_string());
    assert_eq!(DbService::row_to_task(broken).tags, None);
}

#[test]
fn loading_rows_in_any_order() {
    let mut store = DbService::new();
    let mut child = task(None);
    child.id = "child".to_string();
    child.parent_id = Some("root".to_string());
    let mut root = task(None);
    root.id = "root".to_string();
    let mut orphan = task(None);
    orphan.id = "orphan".to_string();
    orphan.parent_id = Some("missing".to_string());
    let rejected = store.load_tasks(vec![child, orphan, root]);
    assert_eq!(store.task_count(), 2);
    assert_eq!(rejected.len(), 1);
    assert_eq!(rejected[0].id, "orphan");
    assert!(store.get_task_by_id(&"child".to_string()).is_some());
}

#[test]
fn loading_rejects_cycles() {
    let mut store = DbService::new();
    let mut a = task(None);
    a.id = "a".to_string();
    a.parent_id = Some("b".to_string());
    let mut b = task(None);
    b.id = "b".to_string();
    b.parent_id = Some("a".to_string());
    let rejected = store.load_tasks(vec![a, b]);
    assert_eq!(store.task_count(), 0);
    assert_eq!(rejected.len(), 2);
}

#[test]
fn creation_is_stamped_with_the_clock() {
    let mut store = DbService::new();
    let dto = CreateProjectDto { name: "P".to_string(), path: "/tmp/clock".to_string(), description: None, tags: None };
    let p = ProjectService::create_project(&mut store, dto, false, Ok(())).unwrap();
    assert!(p.created_at > 1_600_000_000);
    assert_eq!(p.created_at, p.last_modified_at);
}
