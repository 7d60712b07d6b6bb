use wsvc::cli::checkout::{checkout_at, find_matching, select_record};
use wsvc::cli::commit::{commit, commit_at};
use wsvc::cli::config::{Commit, Config};
use wsvc::cli::logs::logs;
use wsvc::fs::workdir::{WorkDir, WorkFile};
use wsvc::fs::WsvcFsError;
use wsvc::model::{ObjectId, Record, Repository};
use wsvc::codec::ChunkFault;
use wsvc::server::WsvcServerError;
use wsvc::ErrorKind;
use wsvc::WsvcError;

fn file(name: &str, content: &[u8]) -> WorkFile {
    WorkFile { name: name.to_string(), content: content.to_vec() }
}

fn dir(name: &str, files: Vec<WorkFile>) -> WorkDir {
    WorkDir { name: name.to_string(), dirs: vec![], files }
}

fn repo() -> Repository {
    Repository::new_in_session("/d", false, false, "session".to_string()).unwrap()
}

fn record(hash: [u8; 32], date: i64) -> Record {
    Record { hash: ObjectId(hash), message: "m".to_string(), author: "a".to_string(), date, root: ObjectId([0; 32]) }
}

fn config(auto: Option<bool>, author: Option<&str>) -> Option<Config> {
    Some(Config {
        commit: Some(Commit { author: author.map(|s| s.to_string()), auto_record: auto }),
        auth: None,
    })
}

#[test]
fn commit_command_holds_the_repository_and_gives_it_up() {
    let mut repo = repo();
    let record = commit_at(&mut repo, &dir("d", vec![file("f", b"1")]), "/d", "msg", "me", 7).unwrap();
    assert_eq!(record.author, "me");
    assert_eq!(record.message, "msg");
    assert_eq!(record.date, 7);
    assert!(repo.lock_file.is_none());
    match commit_at(&mut repo, &dir("d", vec![file("f", b"1")]), "/d", "msg", "me", 8) {
        Err(WsvcError::FsError(WsvcFsError::NoChanges(fp))) => assert_eq!(fp, record.hash.to_hex()),
        other => panic!("unexpected: {:?}", other),
    }
    assert!(repo.lock_file.is_none());
    assert!(commit(&mut repo, &dir("d", vec![file("f", b"2")]), "/d", "msg", "me").is_ok());
}

#[test]
fn commit_command_refuses_the_repository_as_workspace() {
    let mut repo = repo();
    match commit_at(&mut repo, &dir("d", vec![]), "/d/.wsvc", "m", "a", 1) {
        Err(WsvcError::BadUsage(message)) => {
            assert_eq!(message, "workspace and repo path can not be the same")
        }
        other => panic!("unexpected: {:?}", other),
    }
    assert!(repo.lock_file.is_none());
    assert!(repo.records.is_empty());
}

#[test]
fn commit_command_is_locked_out_by_another_session() {
    let mut repo = repo();
    repo.lock_file = Some("other".to_string());
    assert!(matches!(
        commit_at(&mut repo, &dir("d", vec![]), "/d", "m", "a", 1),
        Err(WsvcError::FsError(WsvcFsError::WorkspaceLocked))
    ));
    assert_eq!(repo.lock_file.as_deref(), Some("other"));
    assert!(repo.trees.is_empty());
}

#[test]
fn a_prefix_selects_the_one_record_that_starts_with_it() {
    let mut repo = repo();
    let mut a = [0x11u8; 32];
    a[0] = 0xab;
    let mut b = [0x22u8; 32];
    b[0] = 0xac;
    repo.records = vec![record(a, 1), record(b, 2), record([0x33; 32], 3)];
    assert_eq!(select_record(&repo, &Some("ab".to_string())).unwrap().date, 1);
    assert_eq!(select_record(&repo, &Some("AC2".to_string())).unwrap().date, 2);
    assert_eq!(select_record(&repo, &Some("3".to_string())).unwrap().date, 3);
    assert_eq!(select_record(&repo, &Some(ObjectId(b).to_hex())).unwrap().date, 2);
    assert_eq!(select_record(&repo, &None).unwrap().date, 3);
    assert_eq!(find_matching(&repo, "a").len(), 2);
}

#[test]
fn an_ambiguous_prefix_is_bad_usage() {
    let mut repo = repo();
    let mut a = [0x11u8; 32];
    a[0] = 0xab;
    let mut b = [0x22u8; 32];
    b[0] = 0xac;
    repo.records = vec![record(a, 1), record(b, 2)];
    match select_record(&repo, &Some("A".to_string())) {
        Err(WsvcError::BadUsage(message)) => {
            assert_eq!(message, "more than one record found for hash a")
        }
        other => panic!("unexpected: {:?}", other),
    }
    match select_record(&repo, &Some("".to_string())) {
        Err(WsvcError::BadUsage(message)) => {
            assert_eq!(message, "more than one record found for hash ")
        }
        other => panic!("unexpected: {:?}", other),
    }
}

#[test]
fn a_prefix_without_a_record_is_bad_usage() {
    let mut repo = repo();
    repo.records = vec![record([0x11; 32], 1)];
    match select_record(&repo, &Some("Ff".to_string())) {
        Err(WsvcError::BadUsage(message)) => assert_eq!(message, "no record found for hash ff"),
        other => panic!("unexpected: {:?}", other),
    }
    let too_long = "1".repeat(65);
    assert!(matches!(select_record(&repo, &Some(too_long)), Err(WsvcError::BadUsage(_))));
    repo.records.clear();
    match select_record(&repo, &None) {
        Err(WsvcError::BadUsage(message)) => assert_eq!(message, "no record found"),
        other => panic!("unexpected: {:?}", other),
    }
}

#[test]
fn records_that_share_a_prefix_cannot_be_checked_out_by_it() {
    let mut repo = repo();
    let mut first_char: Vec<(char, ObjectId)> = Vec::new();
    let mut prefix = None;
    for i in 0..40 {
        let r = repo
            .commit_record_at(&dir("d", vec![file("f", format!("{}", i).as_bytes())]), "a", "m", i)
            .unwrap();
        let c = r.hash.to_hex().chars().next().unwrap();
        if first_char.iter().any(|(x, _)| *x == c) {
            prefix = Some(c.to_string());
            break;
        }
        first_char.push((c, r.hash));
    }
    let prefix = prefix.expect("seventeen records must share a first digit");
    let mut workspace = dir("d", vec![file("untouched", b"u")]);
    let before = format!("{:?}", workspace);
    let head = repo.head.clone();
    let records = repo.records.len();
    match checkout_at(&mut repo, &mut workspace, "/d", Some(prefix.clone()), config(Some(false), None), 99) {
        Err(WsvcError::BadUsage(message)) => {
            assert_eq!(message, format!("more than one record found for hash {}", prefix))
        }
        other => panic!("unexpected: {:?}", other),
    }
    assert_eq!(format!("{:?}", workspace), before);
    assert_eq!(repo.head, head);
    assert_eq!(repo.records.len(), records);
    assert!(repo.lock_file.is_none());
    assert!(find_matching(&repo, &prefix).len() >= 2);
}

#[test]
fn checkout_command_needs_the_backup_setting() {
    let mut repo = repo();
    repo.commit_record_at(&dir("d", vec![file("f", b"1")]), "a", "m", 1).unwrap();
    let mut workspace = dir("d", vec![]);
    for missing in [None, Some(Config::default()), config(None, Some("x"))] {
        match checkout_at(&mut repo, &mut workspace, "/d", None, missing, 5) {
            Err(WsvcError::NeedConfiguring(hint)) => {
                assert!(hint.starts_with("wsvc can't keep current workspace changes when you checkout to record.\n\ntips: "));
            }
            other => panic!("unexpected: {:?}", other),
        }
        assert!(repo.lock_file.is_none());
    }
    assert!(workspace.files.is_empty());
}

#[test]
fn checkout_command_takes_a_backup_where_asked() {
    let mut repo = repo();
    let first = repo.commit_record_at(&dir("d", vec![file("f", b"1")]), "a", "m", 1).unwrap();
    let mut workspace = dir("d", vec![file("f", b"changed")]);
    let report = checkout_at(
        &mut repo,
        &mut workspace,
        "/d",
        Some(first.hash.to_hex()),
        config(Some(true), Some("me")),
        50,
    )
    .unwrap();
    let backup = report.backup.unwrap();
    assert_eq!(backup.author, "me BACKUP");
    assert_eq!(backup.message, "auto backup by checkout");
    assert_eq!(backup.date, 50);
    assert_eq!(report.record.hash, first.hash);
    assert_eq!(workspace.files[0].content, b"1");
    assert_eq!(repo.records.len(), 2);
    assert_eq!(repo.head, first.hash.to_hex());
    assert!(repo.lock_file.is_none());

    // nothing to back up: the commit fails quietly and the latest record is checked out
    let report = checkout_at(&mut repo, &mut workspace, "/d", None, config(Some(true), None), 60).unwrap();
    assert!(report.backup.is_none());
    assert_eq!(report.record.hash, backup.hash);
    assert_eq!(workspace.files[0].content, b"changed");
}

#[test]
fn checkout_command_without_backup_and_default_author() {
    let mut repo = repo();
    let first = repo.commit_record_at(&dir("d", vec![file("f", b"1")]), "a", "m", 1).unwrap();
    let mut workspace = dir("d", vec![file("g", b"x")]);
    let report = checkout_at(&mut repo, &mut workspace, "/d", None, config(Some(false), None), 9).unwrap();
    assert!(report.backup.is_none());
    assert_eq!(report.record.hash, first.hash);
    assert_eq!(repo.records.len(), 1);
    let mut other = dir("d", vec![file("g", b"x")]);
    let report = wsvc::cli::checkout::checkout(&mut repo, &mut other, "/d", None, config(Some(true), None)).unwrap();
    assert_eq!(report.backup.unwrap().author, "DEFAULT BACKUP");
    match checkout_at(&mut repo, &mut other, "/d/.wsvc", None, config(Some(false), None), 9) {
        Err(WsvcError::BadUsage(message)) => {
            assert_eq!(message, "workspace and repo path can not be the same")
        }
        other => panic!("unexpected: {:?}", other),
    }
}

#[test]
fn checkout_latest_needs_a_record() {
    let mut repo = repo();
    let mut workspace = dir("d", vec![]);
    assert!(matches!(
        wsvc::cli::checkout::checkout_latest(&mut repo, &mut workspace),
        Err(WsvcError::EmptyRepoError)
    ));
    repo.commit_record_at(&dir("d", vec![file("f", b"1")]), "a", "m", 1).unwrap();
    repo.commit_record_at(&dir("d", vec![file("f", b"2")]), "a", "m", 2).unwrap();
    let record = wsvc::cli::checkout::checkout_latest(&mut repo, &mut workspace).unwrap();
    assert_eq!(record.date, 2);
    assert_eq!(workspace.files[0].content, b"2");
}

#[test]
fn logs_lists_newest_first_with_marks() {
    let mut repo = repo();
    repo.records = vec![
        record([1; 32], 10),
        record([2; 32], 30),
        record([3; 32], 20),
        record([4; 32], 30),
    ];
    repo.head = ObjectId([3; 32]).to_hex();
    let entries = logs(&repo, None, None).unwrap();
    let order: Vec<u8> = entries.iter().map(|e| e.record.hash.0[0]).collect();
    assert_eq!(order, vec![2, 4, 3, 1]);
    let heads: Vec<bool> = entries.iter().map(|e| e.is_head).collect();
    assert_eq!(heads, vec![false, false, true, false]);
    let latest: Vec<bool> = entries.iter().map(|e| e.is_latest).collect();
    assert_eq!(latest, vec![false, true, false, false]);
}

#[test]
fn logs_holds_each_snapshot_once() {
    let mut repo = repo();
    repo.records = vec![
        record([5; 32], 7),
        record([1; 32], 7),
        record([9; 32], -3),
        record([2; 32], 40),
        record([7; 32], 7),
    ];
    repo.head = ObjectId([9; 32]).to_hex();
    let entries = logs(&repo, None, None).unwrap();
    let mut listed: Vec<u8> = entries.iter().map(|e| e.record.hash.0[0]).collect();
    assert_eq!(listed.len(), 5);
    listed.sort();
    assert_eq!(listed, vec![1, 2, 5, 7, 9]);
    for entry in &entries {
        let given = repo.records.iter().find(|r| r.hash == entry.record.hash).unwrap();
        assert_eq!(format!("{:?}", given), format!("{:?}", entry.record));
    }
}

#[test]
fn logs_skips_and_limits() {
    let mut repo = repo();
    repo.records = (0..25u8).map(|i| record([i; 32], i as i64)).collect();
    let dates = |skip, limit| -> Vec<i64> {
        logs(&repo, skip, limit).unwrap().iter().map(|e| e.record.date).collect()
    };
    assert_eq!(dates(None, None), (15..25).rev().collect::<Vec<i64>>());
    assert_eq!(dates(Some(20), None), vec![4, 3, 2, 1, 0]);
    assert_eq!(dates(Some(2), Some(3)), vec![22, 21, 20]);
    assert_eq!(dates(Some(30), Some(3)), Vec::<i64>::new());
    assert_eq!(dates(None, Some(0)), Vec::<i64>::new());
    assert_eq!(dates(Some(1), Some(usize::MAX)).len(), 24);
}

#[test]
fn logs_fails_on_a_head_that_names_nothing() {
    let mut repo = repo();
    repo.head = ObjectId([9; 32]).to_hex();
    assert!(matches!(logs(&repo, None, None), Err(WsvcError::FsError(WsvcFsError::NotFound(_)))));
    assert!(wsvc::cli::logs::sorted_records(&repo).is_empty());
}

#[test]
fn a_clone_goes_into_the_last_segment_of_the_address() {
    let repo = wsvc::cli::transport::clone("/home/me", "ws://host/path/project".to_string(), None, false).unwrap();
    assert_eq!(repo.path, "/home/me/project/.wsvc");
    assert_eq!(repo.origin.as_deref(), Some("ws://host/path/project"));
    let named = wsvc::cli::transport::clone("/home/me", "ws://host/x".to_string(), Some("here".to_string()), false).unwrap();
    assert_eq!(named.path, "/home/me/here/.wsvc");
    assert!(matches!(
        wsvc::cli::transport::clone("/home/me", "ws://host/x".to_string(), None, true),
        Err(WsvcError::FsError(WsvcFsError::DirAlreadyExists(_)))
    ));
    assert_eq!(wsvc::text::after_last_slash("no-slash"), "no-slash");
    assert_eq!(wsvc::text::after_last_slash("ends/"), "");
    assert_eq!(wsvc::text::to_lower("AbC-09Zz é"), "abc-09zz é");
    assert!(wsvc::text::starts_with("abcdef", "abc"));
    assert!(!wsvc::text::starts_with("ab", "abc"));
}

#[test]
fn init_and_new_create_repositories() {
    let repo = wsvc::cli::create::init("/p", None, false).unwrap();
    assert_eq!(repo.path, "/p/.wsvc");
    let bare = wsvc::cli::create::init("/p", Some(true), false).unwrap();
    assert_eq!(bare.path, "/p");
    let named = wsvc::cli::create::new("/p", "proj", Some(false), false).unwrap();
    assert_eq!(named.path, "/p/proj/.wsvc");
    assert!(matches!(
        wsvc::cli::create::new("/p", "proj", None, true),
        Err(WsvcError::FsError(WsvcFsError::DirAlreadyExists(_)))
    ));
}

#[test]
fn every_error_has_one_of_ten_kinds() {
    assert_eq!(WsvcFsError::Os("x".to_string()).kind(), ErrorKind::Io);
    assert_eq!(WsvcFsError::NotFound("x".to_string()).kind(), ErrorKind::NotFound);
    assert_eq!(WsvcFsError::Corrupt("x".to_string()).kind(), ErrorKind::Corrupt);
    assert_eq!(WsvcFsError::DecompressFailed(ChunkFault::BrokenChunk).kind(), ErrorKind::Corrupt);
    assert_eq!(WsvcFsError::DecompressFailed(ChunkFault::ChunkTooLarge).kind(), ErrorKind::Io);
    assert_eq!(WsvcFsError::NoChanges("x".to_string()).kind(), ErrorKind::NoChange);
    assert_eq!(WsvcFsError::WorkspaceLocked.kind(), ErrorKind::Locked);
    assert_eq!(WsvcFsError::DirAlreadyExists("x".to_string()).kind(), ErrorKind::Exists);
    assert_eq!(WsvcError::BadUsage("x".to_string()).kind(), ErrorKind::BadUsage);
    assert_eq!(WsvcError::DataError("x".to_string()).kind(), ErrorKind::Protocol);
    assert_eq!(WsvcError::ChecksumMismatch("x".to_string()).kind(), ErrorKind::ChecksumMismatch);
    assert_eq!(WsvcError::EmptyRepoError.kind(), ErrorKind::EmptyRepo);
    assert_eq!(WsvcError::FsError(WsvcFsError::WorkspaceLocked).kind(), ErrorKind::Locked);
    assert_eq!(
        WsvcServerError::WsvcError(WsvcError::EmptyRepoError).kind(),
        ErrorKind::EmptyRepo
    );
    assert_eq!(WsvcServerError::DataError("x".to_string()).kind(), ErrorKind::Protocol);
}
