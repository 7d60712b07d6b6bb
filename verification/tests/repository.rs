use wsvc::fs::{Layout, RepoGuard, WsvcFsError};
use wsvc::model::Repository;

fn all() -> Layout {
    Layout { root: true, objects: true, trees: true, records: true, head: true }
}

fn nothing() -> Layout {
    Layout { root: false, objects: false, trees: false, records: false, head: false }
}

#[test]
fn new_creates_an_empty_repository_under_dot_wsvc() {
    let repo = Repository::new("/work/project", false, false).unwrap();
    assert_eq!(repo.path, "/work/project/.wsvc");
    assert!(repo.objects.is_empty());
    assert!(repo.trees.is_empty());
    assert!(repo.records.is_empty());
    assert_eq!(repo.head, "");
    assert!(repo.lock_file.is_none());
    assert!(repo.origin.is_none());
    assert!(!repo.lock.is_empty());
}

#[test]
fn new_bare_uses_the_path_itself() {
    let repo = Repository::new_in_session("/srv/repo", true, false, "first-session".to_string()).unwrap();
    assert_eq!(repo.path, "/srv/repo");
    assert_eq!(repo.lock, "first-session");
}

#[test]
fn new_fails_where_the_root_exists() {
    match Repository::new("/work/project", false, true) {
        Err(WsvcFsError::DirAlreadyExists(path)) => assert_eq!(path, "/work/project/.wsvc"),
        other => panic!("unexpected: {:?}", other),
    }
}

#[test]
fn two_sessions_get_different_ids() {
    let a = Repository::new("/p", true, false).unwrap();
    let b = Repository::new("/p", true, false).unwrap();
    assert_ne!(a.lock, b.lock);
}

#[test]
fn open_needs_all_four_parts() {
    assert!(Repository::open("/p", false, all()).is_ok());
    for i in 0..5 {
        let mut found = all();
        match i {
            0 => found.root = false,
            1 => found.objects = false,
            2 => found.trees = false,
            3 => found.records = false,
            _ => found.head = false,
        }
        match Repository::open("/p", false, found) {
            Err(WsvcFsError::UnknownPath(path)) => assert_eq!(path, "/p/.wsvc"),
            other => panic!("unexpected: {:?}", other),
        }
    }
}

#[test]
fn try_open_prefers_the_nested_repository() {
    let nested = Repository::try_open("/p", all(), all()).unwrap();
    assert_eq!(nested.path, "/p/.wsvc");
    let bare = Repository::try_open("/p", nothing(), all()).unwrap();
    assert_eq!(bare.path, "/p");
    match Repository::try_open("/p", nothing(), nothing()) {
        Err(WsvcFsError::UnknownPath(path)) => assert_eq!(path, "/p"),
        other => panic!("unexpected: {:?}", other),
    }
}

#[test]
fn directories_lie_under_the_root() {
    let repo = Repository::new_in_session("/r", true, false, "s".to_string()).unwrap();
    assert_eq!(repo.objects_dir(), "/r/objects");
    assert_eq!(repo.trees_dir(), "/r/trees");
    assert_eq!(repo.records_dir(), "/r/records");
    assert_eq!(repo.temp_dir(), "/r/temp");
}

#[test]
fn origin_is_written_and_read() {
    let mut repo = Repository::new("/r", true, false).unwrap();
    assert_eq!(repo.read_origin(), None);
    repo.write_origin("ws://host/repo".to_string());
    assert_eq!(repo.read_origin().as_deref(), Some("ws://host/repo"));
    wsvc::cli::remote::remote_set(&mut repo, "ws://other".to_string());
    assert_eq!(repo.origin.as_deref(), Some("ws://other"));
}

#[test]
fn lock_writes_and_unlock_removes_the_lock_file() {
    let mut repo = Repository::new_in_session("/r", true, false, "mine".to_string()).unwrap();
    assert!(repo.check_lock().is_ok());
    assert!(repo.lock().is_ok());
    assert_eq!(repo.lock_file.as_deref(), Some("mine"));
    assert!(repo.check_lock().is_ok());
    assert!(repo.unlock().is_ok());
    assert!(repo.lock_file.is_none());
    assert!(matches!(repo.unlock(), Err(WsvcFsError::Os(_))));
}

#[test]
fn a_second_session_is_locked_out() {
    let mut repo = Repository::new_in_session("/r", true, false, "first".to_string()).unwrap();
    let guard = RepoGuard::new(&mut repo).unwrap();
    assert_eq!(guard.session, "first");
    assert_eq!(repo.lock_file.as_deref(), Some("first"));
    // a second session works on the same repository
    repo.lock = "second".to_string();
    assert!(matches!(repo.check_lock(), Err(WsvcFsError::WorkspaceLocked)));
    assert!(matches!(RepoGuard::new(&mut repo), Err(WsvcFsError::WorkspaceLocked)));
    assert_eq!(repo.lock_file.as_deref(), Some("first"));
    // the first session may enter again, and gives the repository up
    repo.lock = "first".to_string();
    let again = RepoGuard::new(&mut repo).unwrap();
    again.release(&mut repo);
    assert!(repo.lock_file.is_none());
    repo.lock = "second".to_string();
    assert!(RepoGuard::new(&mut repo).is_ok());
    guard.release(&mut repo);
}
