use research_core::error::{AppError, ErrorKind};
use research_core::models::{CreateProjectDto, CreateTaskDto, Task, UpdateTaskDto};
use research_core::project_service::ProjectService;
use research_core::store::DbService;
use research_core::task_service::TaskService;

fn project(store: &mut DbService, path: &str) -> String {
    let dto = CreateProjectDto {
        name: "Research".to_string(),
        path: path.to_string(),
        description: None,
        tags: None,
    };
    ProjectService::create_project(store, dto, false, Ok(())).unwrap().id
}

fn task_dto(project_id: &str, parent: Option<&str>, title: &str, order: i32) -> CreateTaskDto {
    CreateTaskDto {
        project_id: project_id.to_string(),
        parent_id: parent.map(|p| p.to_string()),
        title: title.to_string(),
        description: None,
        status: None,
        priority: None,
        due_date: None,
        order: Some(order),
        tags: None,
    }
}

fn empty_update() -> UpdateTaskDto {
    UpdateTaskDto {
        title: None,
        description: None,
        status: None,
        priority: None,
        due_date: None,
        parent_id: None,
        order: None,
        tags: None,
    }
}

fn kind<T>(r: Result<T, AppError>) -> ErrorKind {
    match r {
        Ok(_) => panic!("expected an error"),
        Err(e) => e.kind(),
    }
}

#[test]
fn scenario_hierarchy_then_cascade_delete() {
    let mut store = DbService::new();
    let p = project(&mut store, "/tmp/r1");
    let a = TaskService::create_task(&mut store, task_dto(&p, None, "A", 0)).unwrap();
    let b = TaskService::create_task(&mut store, task_dto(&p, Some(&a.id), "B", 0)).unwrap();
    let c = TaskService::create_task(&mut store, task_dto(&p, Some(&a.id), "C", 1)).unwrap();
    let h = TaskService::get_task_hierarchy(&store, a.id.clone()).unwrap();
    assert_eq!(h.task.id, a.id);
    let kids: Vec<&str> = h.children.iter().map(|t| t.task.id.as_str()).collect();
    assert_eq!(kids, vec![b.id.as_str(), c.id.as_str()]);
    let removed = TaskService::delete_task(&mut store, a.id.clone()).unwrap();
    assert_eq!(removed.len(), 3);
    assert_eq!(kind(TaskService::get_task(&store, b.id.clone())), ErrorKind::NotFound);
    assert_eq!(kind(TaskService::get_task(&store, c.id.clone())), ErrorKind::NotFound);
    assert_eq!(kind(TaskService::get_task(&store, a.id.clone())), ErrorKind::NotFound);
}

#[test]
fn bogus_status_is_invalid_input() {
    let mut store = DbService::new();
    let p = project(&mut store, "/tmp/r2");
    TaskService::create_task(&mut store, task_dto(&p, None, "A", 0)).unwrap();
    let r = TaskService::list_tasks_by_status(&store, p.clone(), "bogus".to_string());
    assert_eq!(kind(r), ErrorKind::InvalidInput);
    assert_eq!(store.task_count(), 1);
    let ok = TaskService::list_tasks_by_status(&store, p, "todo".to_string()).unwrap();
    assert_eq!(ok.len(), 1);
}

#[test]
fn hierarchy_holds_every_descendant_once() {
    let mut store = DbService::new();
    let p = project(&mut store, "/tmp/deep");
    let a = TaskService::create_task(&mut store, task_dto(&p, None, "A", 0)).unwrap();
    let b = TaskService::create_task(&mut store, task_dto(&p, Some(&a.id), "B", 0)).unwrap();
    let c = TaskService::create_task(&mut store, task_dto(&p, Some(&b.id), "C", 0)).unwrap();
    let d = TaskService::create_task(&mut store, task_dto(&p, Some(&c.id), "D", 0)).unwrap();
    TaskService::create_task(&mut store, task_dto(&p, None, "other root", 0)).unwrap();
    let h = TaskService::get_task_hierarchy(&store, a.id.clone()).unwrap();
    assert_eq!(h.children.len(), 1);
    assert_eq!(h.children[0].task.id, b.id);
    assert_eq!(h.children[0].children[0].task.id, c.id);
    assert_eq!(h.children[0].children[0].children[0].task.id, d.id);
    assert!(h.children[0].children[0].children[0].children.is_empty());
    let leaf = TaskService::get_task_hierarchy(&store, d.id.clone()).unwrap();
    assert!(leaf.children.is_empty());
}

#[test]
fn delete_removes_descendants_only() {
    let mut store = DbService::new();
    let p = project(&mut store, "/tmp/del");
    let a = TaskService::create_task(&mut store, task_dto(&p, None, "A", 0)).unwrap();
    let b = TaskService::create_task(&mut store, task_dto(&p, Some(&a.id), "B", 0)).unwrap();
    let c = TaskService::create_task(&mut store, task_dto(&p, Some(&b.id), "C", 0)).unwrap();
    let other = TaskService::create_task(&mut store, task_dto(&p, None, "X", 0)).unwrap();
    let removed = TaskService::delete_task(&mut store, b.id.clone()).unwrap();
    assert_eq!(removed, vec![b.id.clone(), c.id.clone()]);
    assert_eq!(store.task_count(), 2);
    assert!(TaskService::get_task(&store, a.id.clone()).is_ok());
    assert!(TaskService::get_task(&store, other.id.clone()).is_ok());
    assert_eq!(kind(TaskService::delete_task(&mut store, b.id.clone())), ErrorKind::NotFound);
    assert_eq!(kind(TaskService::delete_task(&mut store, String::new())), ErrorKind::InvalidInput);
}

#[test]
fn move_under_descendant_conflicts() {
    let mut store = DbService::new();
    let p = project(&mut store, "/tmp/mv");
    let a = TaskService::create_task(&mut store, task_dto(&p, None, "A", 0)).unwrap();
    let b = TaskService::create_task(&mut store, task_dto(&p, Some(&a.id), "B", 0)).unwrap();
    let c = TaskService::create_task(&mut store, task_dto(&p, None, "C", 0)).unwrap();
    assert_eq!(kind(TaskService::move_task(&mut store, a.id.clone(), Some(b.id.clone()))), ErrorKind::Conflict);
    assert_eq!(kind(TaskService::move_task(&mut store, a.id.clone(), Some(a.id.clone()))), ErrorKind::Conflict);
    assert_eq!(TaskService::get_task(&store, a.id.clone()).unwrap().parent_id, None);
    let moved = TaskService::move_task(&mut store, c.id.clone(), Some(b.id.clone())).unwrap();
    assert_eq!(moved.parent_id, Some(b.id.clone()));
    let root = TaskService::move_task(&mut store, b.id.clone(), None).unwrap();
    assert_eq!(root.parent_id, None);
    assert_eq!(kind(TaskService::move_task(&mut store, c.id.clone(), Some("missing".to_string()))), ErrorKind::NotFound);
}

#[test]
fn move_across_projects_is_invalid() {
    let mut store = DbService::new();
    let p = project(&mut store, "/tmp/p1");
    let q = project(&mut store, "/tmp/p2");
    let a = TaskService::create_task(&mut store, task_dto(&p, None, "A", 0)).unwrap();
    let b = TaskService::create_task(&mut store, task_dto(&q, None, "B", 0)).unwrap();
    assert_eq!(kind(TaskService::move_task(&mut store, a.id.clone(), Some(b.id.clone()))), ErrorKind::InvalidInput);
    assert_eq!(kind(TaskService::create_task(&mut store, task_dto(&q, Some(&a.id), "C", 0))), ErrorKind::InvalidInput);
}

#[test]
fn done_sets_and_todo_clears_completed_at() {
    let mut store = DbService::new();
    let p = project(&mut store, "/tmp/done");
    let mut dto = task_dto(&p, None, "A", 0);
    dto.status = None;
    let a = TaskService::create_task_at(&mut store, dto, "task-a".to_string(), 100).unwrap();
    assert_eq!(a.completed_at, None);
    let mut done = empty_update();
    done.status = Some("done".to_string());
    let t1 = TaskService::update_task_at(&mut store, a.id.clone(), done, 90).unwrap();
    assert_eq!(t1.status, "done");
    assert_eq!(t1.completed_at, Some(100));
    assert_eq!(t1.updated_at, 100);
    let mut todo = empty_update();
    todo.status = Some("todo".to_string());
    let t2 = TaskService::update_task_at(&mut store, a.id.clone(), todo, 150).unwrap();
    assert_eq!(t2.completed_at, None);
    assert_eq!(t2.updated_at, 150);
    let mut done_now = empty_update();
    done_now.status = Some("done".to_string());
    let t3 = TaskService::update_task(&mut store, a.id.clone(), done_now).unwrap();
    assert!(t3.completed_at.unwrap() >= 150);
}

#[test]
fn empty_update_keeps_fields() {
    let mut store = DbService::new();
    let p = project(&mut store, "/tmp/keep");
    let mut dto = task_dto(&p, None, "Keep me", 3);
    dto.description = Some("details".to_string());
    dto.due_date = Some(500);
    dto.tags = Some(vec!["x".to_string()]);
    let a = TaskService::create_task_at(&mut store, dto, "k1".to_string(), 10).unwrap();
    let b = TaskService::update_task_at(&mut store, a.id.clone(), empty_update(), 20).unwrap();
    let expected = Task { updated_at: 20, ..a };
    assert_eq!(b.id, expected.id);
    assert_eq!(b.title, expected.title);
    assert_eq!(b.description, expected.description);
    assert_eq!(b.status, expected.status);
    assert_eq!(b.priority, expected.priority);
    assert_eq!(b.due_date, expected.due_date);
    assert_eq!(b.completed_at, expected.completed_at);
    assert_eq!(b.created_at, expected.created_at);
    assert_eq!(b.updated_at, 20);
    assert_eq!(b.order, expected.order);
    assert_eq!(b.tags, expected.tags);
    assert_eq!(b.parent_id, expected.parent_id);
}

#[test]
fn update_replaces_given_fields() {
    let mut store = DbService::new();
    let p = project(&mut store, "/tmp/upd");
    let a = TaskService::create_task_at(&mut store, task_dto(&p, None, "A", 0), "u1".to_string(), 10).unwrap();
    let mut upd = empty_update();
    upd.title = Some(String::new());
    upd.priority = Some("high".to_string());
    upd.tags = Some(vec![]);
    let b = TaskService::update_task_at(&mut store, a.id.clone(), upd, 5).unwrap();
    assert_eq!(b.title, "");
    assert_eq!(b.priority, "high");
    assert_eq!(b.tags, Some(vec![]));
    assert_eq!(b.updated_at, 10);
    let mut bad = empty_update();
    bad.priority = Some("urgent".to_string());
    assert_eq!(kind(TaskService::update_task_at(&mut store, a.id.clone(), bad, 11)), ErrorKind::InvalidInput);
    assert_eq!(kind(TaskService::update_task_at(&mut store, "nope".to_string(), empty_update(), 11)), ErrorKind::NotFound);
}

#[test]
fn create_defaults_and_validation() {
    let mut store = DbService::new();
    let p = project(&mut store, "/tmp/new");
    let t = TaskService::create_task_at(&mut store, task_dto(&p, None, "A", 0), "n1".to_string(), 42).unwrap();
    assert_eq!(t.status, "todo");
    assert_eq!(t.priority, "medium");
    assert_eq!(t.created_at, 42);
    assert_eq!(t.updated_at, 42);
    let mut no_order = task_dto(&p, None, "B", 0);
    no_order.order = None;
    no_order.status = Some("done".to_string());
    let d = TaskService::create_task_at(&mut store, no_order, "n2".to_string(), 43).unwrap();
    assert_eq!(d.order, 0);
    assert_eq!(d.completed_at, Some(43));
    assert_eq!(kind(TaskService::create_task_at(&mut store, task_dto(&p, None, "", 0), "n3".to_string(), 1)), ErrorKind::InvalidInput);
    assert_eq!(kind(TaskService::create_task_at(&mut store, task_dto("", None, "T", 0), "n3".to_string(), 1)), ErrorKind::InvalidInput);
    assert_eq!(kind(TaskService::create_task_at(&mut store, task_dto(&p, None, "T", -1), "n3".to_string(), 1)), ErrorKind::InvalidInput);
    assert_eq!(kind(TaskService::create_task_at(&mut store, task_dto("nope", None, "T", 0), "n3".to_string(), 1)), ErrorKind::NotFound);
    assert_eq!(kind(TaskService::create_task_at(&mut store, task_dto(&p, Some("ghost"), "T", 0), "n3".to_string(), 1)), ErrorKind::NotFound);
    assert_eq!(kind(TaskService::create_task_at(&mut store, task_dto(&p, None, "T", 0), "n1".to_string(), 1)), ErrorKind::Conflict);
    let mut bad = task_dto(&p, None, "T", 0);
    bad.status = Some("later".to_string());
    assert_eq!(kind(TaskService::create_task_at(&mut store, bad, "n3".to_string(), 1)), ErrorKind::InvalidInput);
    let fresh = TaskService::create_task(&mut store, task_dto(&p, None, "F", 0)).unwrap();
    assert_eq!(fresh.id.len(), 36);
    assert_eq!(store.task_count(), 3);
}

#[test]
fn subtasks_in_sibling_order() {
    let mut store = DbService::new();
    let p = project(&mut store, "/tmp/sib");
    let a = TaskService::create_task_at(&mut store, task_dto(&p, None, "A", 0), "a".to_string(), 1).unwrap();
    TaskService::create_task_at(&mut store, task_dto(&p, Some(&a.id), "late", 1), "s1".to_string(), 5).unwrap();
    TaskService::create_task_at(&mut store, task_dto(&p, Some(&a.id), "second", 0), "s2".to_string(), 4).unwrap();
    TaskService::create_task_at(&mut store, task_dto(&p, Some(&a.id), "first", 0), "s3".to_string(), 3).unwrap();
    let subs = TaskService::list_subtasks(&store, a.id.clone()).unwrap();
    let titles: Vec<&str> = subs.iter().map(|t| t.title.as_str()).collect();
    assert_eq!(titles, vec!["first", "second", "late"]);
    let h = TaskService::get_task_hierarchy(&store, a.id.clone()).unwrap();
    let ids: Vec<&str> = h.children.iter().map(|t| t.task.id.as_str()).collect();
    assert_eq!(ids, vec!["s3", "s2", "s1"]);
    assert_eq!(kind(TaskService::list_subtasks(&store, String::new())), ErrorKind::InvalidInput);
    TaskService::reorder_task(&mut store, "s1".to_string(), 0).unwrap();
    let again = TaskService::list_subtasks(&store, a.id.clone()).unwrap();
    assert_eq!(again[2].id, "s1");
    assert_eq!(kind(TaskService::reorder_task(&mut store, "s1".to_string(), -2)), ErrorKind::InvalidInput);
}

#[test]
fn listing_and_search_are_scoped_to_project() {
    let mut store = DbService::new();
    let p = project(&mut store, "/tmp/l1");
    let q = project(&mut store, "/tmp/l2");
    let a = TaskService::create_task(&mut store, task_dto(&p, None, "Write paper", 0)).unwrap();
    let mut with_desc = task_dto(&p, Some(&a.id), "Figures", 0);
    with_desc.description = Some("draw the paper plots".to_string());
    TaskService::create_task(&mut store, with_desc).unwrap();
    TaskService::create_task(&mut store, task_dto(&q, None, "paper draft", 0)).unwrap();
    assert_eq!(TaskService::list_tasks(&store, p.clone()).unwrap().len(), 2);
    assert_eq!(TaskService::list_root_tasks(&store, p.clone()).unwrap().len(), 1);
    assert_eq!(TaskService::search_tasks(&store, p.clone(), "paper".to_string()).unwrap().len(), 2);
    assert_eq!(TaskService::search_tasks(&store, p.clone(), "plots".to_string()).unwrap().len(), 1);
    assert_eq!(TaskService::search_tasks(&store, p.clone(), "nothing".to_string()).unwrap().len(), 0);
    assert_eq!(kind(TaskService::list_tasks(&store, String::new())), ErrorKind::InvalidInput);
    assert_eq!(kind(TaskService::get_task(&store, String::new())), ErrorKind::InvalidInput);
}

#[test]
fn update_with_parent_moves_the_task() {
    let mut store = DbService::new();
    let p = project(&mut store, "/tmp/upmove");
    let a = TaskService::create_task_at(&mut store, task_dto(&p, None, "A", 0), "a".to_string(), 1).unwrap();
    let b = TaskService::create_task_at(&mut store, task_dto(&p, Some(&a.id), "B", 0), "b".to_string(), 1).unwrap();
    let c = TaskService::create_task_at(&mut store, task_dto(&p, None, "C", 0), "c".to_string(), 1).unwrap();
    let mut cyc = empty_update();
    cyc.parent_id = Some(b.id.clone());
    cyc.title = Some("never".to_string());
    assert_eq!(kind(TaskService::update_task_at(&mut store, a.id.clone(), cyc, 5)), ErrorKind::Conflict);
    assert_eq!(TaskService::get_task(&store, a.id.clone()).unwrap().title, "A");
    let mut mv = empty_update();
    mv.parent_id = Some(b.id.clone());
    mv.title = Some("C moved".to_string());
    let moved = TaskService::update_task_at(&mut store, c.id.clone(), mv, 5).unwrap();
    assert_eq!(moved.parent_id, Some("b".to_string()));
    assert_eq!(moved.title, "C moved");
    let h = TaskService::get_task_hierarchy(&store, a.id.clone()).unwrap();
    assert_eq!(h.children[0].children[0].task.id, "c");
    let removed = TaskService::delete_task(&mut store, a.id.clone()).unwrap();
    assert_eq!(removed.len(), 3);
    assert_eq!(store.task_count(), 0);
}

#[test]
fn not_found_names_kind_and_id() {
    let mut store = DbService::new();
    let p = project(&mut store, "/tmp/nf");
    match TaskService::get_task(&store, "ghost".to_string()) {
        Err(AppError::NotFound(kind, id)) => {
            assert_eq!(kind, "Task");
            assert_eq!(id, "ghost");
        }
        _ => panic!("expected NotFound"),
    }
    match TaskService::create_task(&mut store, task_dto("nowhere", None, "T", 0)) {
        Err(AppError::NotFound(kind, id)) => {
            assert_eq!(kind, "Project");
            assert_eq!(id, "nowhere");
        }
        _ => panic!("expected NotFound"),
    }
    let a = TaskService::create_task(&mut store, task_dto(&p, None, "A", 0)).unwrap();
    match TaskService::move_task(&mut store, a.id.clone(), Some("lost".to_string())) {
        Err(AppError::NotFound(kind, id)) => {
            assert_eq!(kind, "Task");
            assert_eq!(id, "lost");
        }
        _ => panic!("expected NotFound"),
    }
    let mut bad = task_dto(&p, None, "T", 0);
    bad.status = None;
    assert_eq!(kind(TaskService::create_task_at(&mut store, bad, String::new(), 1)), ErrorKind::InvalidInput);
    let mut row = TaskService::get_task(&store, a.id.clone()).unwrap();
    row.id = String::new();
    assert_eq!(kind(store.insert_task(row)), ErrorKind::InvalidInput);
}
