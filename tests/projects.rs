use research_core::error::{AppError, ErrorKind};
use research_core::models::{CreateProjectDto, UpdateProjectDto};
use research_core::project_service::ProjectService;
use research_core::store::DbService;

fn dto(name: &str, path: &str) -> CreateProjectDto {
    CreateProjectDto { name: name.to_string(), path: path.to_string(), description: None, tags: None }
}

fn kind<T>(r: Result<T, AppError>) -> ErrorKind {
    match r {
        Ok(_) => panic!("expected an error"),
        Err(e) => e.kind(),
    }
}

#[test]
fn existing_path_on_disk_conflicts_and_records_nothing() {
    let mut store = DbService::new();
    let r = ProjectService::create_project(&mut store, dto("P", "/tmp/exists"), true, Ok(()));
    assert_eq!(kind(r), ErrorKind::Conflict);
    assert_eq!(store.project_count(), 0);
    assert_eq!(kind(ProjectService::check_new_project(&store, &dto("P", "/tmp/exists"), true)), ErrorKind::Conflict);
}

#[test]
fn path_of_a_project_is_unique() {
    let mut store = DbService::new();
    ProjectService::create_project_at(&mut store, dto("P", "/tmp/a"), false, Ok(()), "p1".to_string(), 1).unwrap();
    let r = ProjectService::create_project_at(&mut store, dto("Q", "/tmp/a"), false, Ok(()), "p2".to_string(), 2);
    assert_eq!(kind(r), ErrorKind::Conflict);
    let dup_id = ProjectService::create_project_at(&mut store, dto("Q", "/tmp/b"), false, Ok(()), "p1".to_string(), 2);
    assert_eq!(kind(dup_id), ErrorKind::Conflict);
    assert_eq!(store.project_count(), 1);
}

#[test]
fn failed_provisioning_records_nothing() {
    let mut store = DbService::new();
    let r = ProjectService::create_project(&mut store, dto("P", "/tmp/x"), false, Err(AppError::Git("init failed".to_string())));
    assert_eq!(kind(r), ErrorKind::Git);
    assert_eq!(store.project_count(), 0);
    assert_eq!(kind(ProjectService::create_project(&mut store, dto("", "/tmp/x"), false, Ok(()))), ErrorKind::InvalidInput);
    assert_eq!(kind(ProjectService::create_project(&mut store, dto("P", ""), false, Ok(()))), ErrorKind::InvalidInput);
}

#[test]
fn created_project_is_active() {
    let mut store = DbService::new();
    let p = ProjectService::create_project_at(&mut store, dto("P", "/tmp/c"), false, Ok(()), "p1".to_string(), 7).unwrap();
    assert_eq!(p.status, "active");
    assert_eq!(p.created_at, 7);
    assert_eq!(p.last_modified_at, 7);
    let got = ProjectService::get_project(&store, "p1".to_string()).unwrap();
    assert_eq!(got.path, "/tmp/c");
    assert_eq!(kind(ProjectService::get_project(&store, "p9".to_string())), ErrorKind::NotFound);
    let fresh = ProjectService::create_project(&mut store, dto("Q", "/tmp/d"), false, Ok(())).unwrap();
    assert_eq!(fresh.id.len(), 36);
}

#[test]
fn list_projects_most_recent_first() {
    let mut store = DbService::new();
    ProjectService::create_project_at(&mut store, dto("old", "/tmp/1"), false, Ok(()), "a".to_string(), 10).unwrap();
    ProjectService::create_project_at(&mut store, dto("new", "/tmp/2"), false, Ok(()), "b".to_string(), 30).unwrap();
    ProjectService::create_project_at(&mut store, dto("mid", "/tmp/3"), false, Ok(()), "c".to_string(), 20).unwrap();
    let names: Vec<String> = ProjectService::list_projects(&store).unwrap().into_iter().map(|p| p.name).collect();
    assert_eq!(names, vec!["new", "mid", "old"]);
}

#[test]
fn update_and_archive_project() {
    let mut store = DbService::new();
    ProjectService::create_project_at(&mut store, dto("P", "/tmp/u"), false, Ok(()), "p".to_string(), 10).unwrap();
    let upd = UpdateProjectDto { name: Some("Renamed".to_string()), description: None, status: None, tags: Some(vec!["t".to_string()]) };
    let p = ProjectService::update_project_at(&mut store, "p".to_string(), upd, 5).unwrap();
    assert_eq!(p.name, "Renamed");
    assert_eq!(p.path, "/tmp/u");
    assert_eq!(p.last_modified_at, 10);
    assert_eq!(p.tags, Some(vec!["t".to_string()]));
    let bad = UpdateProjectDto { name: None, description: None, status: Some("gone".to_string()), tags: None };
    assert_eq!(kind(ProjectService::update_project_at(&mut store, "p".to_string(), bad, 20)), ErrorKind::InvalidInput);
    ProjectService::delete_project_at(&mut store, "p".to_string(), 40).unwrap();
    let archived = ProjectService::get_project(&store, "p".to_string()).unwrap();
    assert_eq!(archived.status, "archived");
    assert_eq!(archived.last_modified_at, 40);
    assert_eq!(store.project_count(), 1);
    assert_eq!(kind(ProjectService::delete_project(&mut store, "q".to_string())), ErrorKind::NotFound);
}
