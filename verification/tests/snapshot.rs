use wsvc::codec::compress_blob;
use wsvc::digest::fingerprint;
use wsvc::fs::workdir::{WorkDir, WorkFile};
use wsvc::fs::WsvcFsError;
use wsvc::model::{Blob, ObjectId, Record, Repository, StoredBlob, Tree};

fn file(name: &str, content: &[u8]) -> WorkFile {
    WorkFile { name: name.to_string(), content: content.to_vec() }
}

fn dir(name: &str, dirs: Vec<WorkDir>, files: Vec<WorkFile>) -> WorkDir {
    WorkDir { name: name.to_string(), dirs, files }
}

fn repo() -> Repository {
    Repository::new_in_session("/d", false, false, "session".to_string()).unwrap()
}

fn hello() -> WorkDir {
    dir("d", vec![], vec![file("hello.txt", b"hi\n")])
}

fn names(d: &WorkDir) -> (Vec<String>, Vec<String>) {
    (
        d.dirs.iter().map(|x| x.name.clone()).collect(),
        d.files.iter().map(|x| x.name.clone()).collect(),
    )
}

#[test]
fn commit_of_a_single_file() {
    let mut repo = repo();
    let before = std::time::SystemTime::now()
        .duration_since(std::time::UNIX_EPOCH)
        .unwrap()
        .as_secs() as i64;
    let record = repo.commit_record(&hello(), "a", "m").unwrap();
    assert!((record.date - before).abs() <= 2);
    assert_eq!(record.author, "a");
    assert_eq!(record.message, "m");

    assert_eq!(repo.objects.len(), 1);
    assert_eq!(repo.objects[0].hash, fingerprint(b"hi\n"));
    assert_eq!(repo.objects[0].data, compress_blob(b"hi\n").unwrap());

    assert_eq!(repo.trees.len(), 1);
    let tree = &repo.trees[0];
    assert_eq!(tree.name, "d");
    assert!(tree.trees.is_empty());
    assert_eq!(tree.blobs.len(), 1);
    assert_eq!(tree.blobs[0].name, "hello.txt");
    assert_eq!(tree.blobs[0].hash, fingerprint(b"hi\n"));
    assert!(tree.is_sealed());

    assert_eq!(repo.records.len(), 1);
    assert_eq!(record.root, tree.hash);
    assert!(record.is_sealed());
    assert_eq!(repo.records[0].hash, record.hash);
    assert_eq!(repo.head, record.hash.to_hex());
}

#[test]
fn commit_without_changes_is_refused() {
    let mut repo = repo();
    let first = repo.commit_record_at(&hello(), "a", "m", 100).unwrap();
    match repo.commit_record_at(&hello(), "b", "again", 200) {
        Err(WsvcFsError::NoChanges(fp)) => assert_eq!(fp, first.hash.to_hex()),
        other => panic!("unexpected: {:?}", other),
    }
    assert_eq!(repo.records.len(), 1);
    assert_eq!(repo.trees.len(), 1);
    assert_eq!(repo.objects.len(), 1);
    assert_eq!(repo.head, first.hash.to_hex());
}

#[test]
fn a_second_commit_names_the_snapshot_of_the_first_whoever_commits() {
    let mut repo = repo();
    repo.commit_record_at(&dir("d", vec![], vec![file("other", b"x")]), "z", "before", 50).unwrap();
    let first = repo.commit_record_at(&hello(), "a", "m", 100).unwrap();
    for (author, message, date) in [("a", "m", 100), ("b", "", 0), ("", "later", i64::MAX)] {
        match repo.commit_record_at(&hello(), author, message, date) {
            Err(WsvcFsError::NoChanges(fp)) => {
                assert_eq!(fp, first.hash.to_hex());
                assert_eq!(fp.len(), 64);
            },
            other => panic!("unexpected: {:?}", other),
        }
    }
    assert_eq!(repo.records.len(), 2);
}

#[test]
fn an_older_snapshot_of_the_same_root_is_named_first() {
    // a snapshot whose root directory the store never had
    let root = repo().commit_record_at(&hello(), "a", "m", 1).unwrap().root;
    let orphan = Record {
        hash: ObjectId([9; 32]),
        message: "orphan".to_string(),
        author: "o".to_string(),
        date: 0,
        root,
    };
    let mut repo = repo();
    repo.store_record(&orphan);
    let first = repo.commit_record_at(&hello(), "a", "m", 100).unwrap();
    assert_ne!(first.hash, orphan.hash);
    match repo.commit_record_at(&hello(), "a", "m", 100) {
        Err(WsvcFsError::NoChanges(fp)) => assert_eq!(fp, orphan.hash.to_hex()),
        other => panic!("unexpected: {:?}", other),
    }
}

#[test]
fn commit_after_a_change_is_recorded() {
    let mut repo = repo();
    let first = repo.commit_record_at(&hello(), "a", "m", 100).unwrap();
    let changed = dir("d", vec![], vec![file("hello.txt", b"hi there\n")]);
    let second = repo.commit_record_at(&changed, "a", "m", 100).unwrap();
    assert_ne!(first.root, second.root);
    assert_ne!(first.hash, second.hash);
    assert_eq!(repo.records.len(), 2);
    assert_eq!(repo.objects.len(), 2);
    assert_eq!(repo.head, second.hash.to_hex());
}

#[test]
fn root_fingerprint_depends_on_the_workspace_alone() {
    let mut one = repo();
    let mut two = Repository::new_in_session("/elsewhere", true, false, "x".to_string()).unwrap();
    two.commit_record_at(&dir("d", vec![], vec![file("other", b"1")]), "z", "z", 5).unwrap();
    let workspace = dir(
        "d",
        vec![dir("src", vec![], vec![file("main.rs", b"fn main() {}")])],
        vec![file("hello.txt", b"hi\n"), file("b", b"")],
    );
    let a = one.commit_record_at(&workspace, "a", "m", 1).unwrap();
    let b = two.commit_record_at(&workspace, "b", "n", 2).unwrap();
    assert_eq!(a.root, b.root);
    assert_ne!(a.hash, b.hash);
}

#[test]
fn the_walk_order_is_part_of_the_fingerprint() {
    let mut one = repo();
    let mut two = repo();
    let a = one
        .commit_record_at(&dir("d", vec![], vec![file("a", b"1"), file("b", b"2")]), "a", "m", 1)
        .unwrap();
    let b = two
        .commit_record_at(&dir("d", vec![], vec![file("b", b"2"), file("a", b"1")]), "a", "m", 1)
        .unwrap();
    assert_ne!(a.root, b.root);
}

#[test]
fn the_repository_directory_is_passed_over() {
    let mut with = repo();
    let mut without = repo();
    let inner = dir(".wsvc", vec![], vec![file("HEAD", b"")]);
    let a = with
        .write_tree_recursively(&dir("d", vec![inner, dir("sub", vec![], vec![])], vec![file("f", b"x")]))
        .unwrap();
    let b = without
        .write_tree_recursively(&dir("d", vec![dir("sub", vec![], vec![])], vec![file("f", b"x")]))
        .unwrap();
    assert_eq!(a.0.hash, b.0.hash);
    assert_eq!(a.0.trees.len(), 1);
    assert!(a.1);
    assert_eq!(with.objects.len(), 1);
    assert_eq!(with.trees.len(), 2);
    // children are stored before their parent
    assert_eq!(with.trees[0].name, "sub");
    assert_eq!(with.trees[1].name, "d");
    assert_eq!(a.0.trees[0], with.trees[0].hash);
}

#[test]
fn writing_the_same_tree_again_is_not_new() {
    let mut repo = repo();
    let first = repo.write_tree_recursively(&hello()).unwrap();
    let again = repo.write_tree_recursively(&hello()).unwrap();
    assert!(first.1);
    assert!(!again.1);
    assert_eq!(first.0.hash, again.0.hash);
    assert_eq!(repo.trees.len(), 1);
}

#[test]
fn equal_files_are_stored_once() {
    let mut repo = repo();
    repo.write_tree_recursively(&dir("d", vec![], vec![file("a", b"same"), file("b", b"same")]))
        .unwrap();
    assert_eq!(repo.objects.len(), 1);
    assert_eq!(repo.trees[0].blobs.len(), 2);
    assert_eq!(repo.trees[0].blobs[0].hash, repo.trees[0].blobs[1].hash);
}

#[test]
fn store_blob_then_read_blob() {
    let mut repo = repo();
    let content: Vec<u8> = (0..50000u32).map(|i| (i % 256) as u8).collect();
    let blob = repo.store_blob("big.bin", &content).unwrap();
    assert_eq!(blob.name, "big.bin");
    assert_eq!(blob.hash, fingerprint(&content));
    assert!(repo.blob_exists(&blob.hash));
    assert!(!repo.blob_exists(&ObjectId::default()));
    assert_ne!(repo.objects[0].data, content);
    assert_eq!(repo.read_blob(&blob.hash).unwrap(), content);
    assert!(blob.checksum(&content));
    assert!(!blob.checksum(b"other"));
}

#[test]
fn read_blob_reports_missing_broken_and_corrupt_objects() {
    let mut repo = repo();
    let missing = fingerprint(b"not stored");
    match repo.read_blob(&missing) {
        Err(WsvcFsError::NotFound(fp)) => assert_eq!(fp, missing.to_hex()),
        other => panic!("unexpected: {:?}", other),
    }
    let key = fingerprint(b"right");
    repo.put_stored_blob(StoredBlob { hash: key, data: vec![1, 2, 3, 4] });
    assert!(matches!(repo.read_blob(&key), Err(WsvcFsError::DecompressFailed(_))));
    repo.put_stored_blob(StoredBlob { hash: key, data: compress_blob(b"wrong").unwrap() });
    assert_eq!(repo.objects.len(), 1);
    match repo.read_blob(&key) {
        Err(WsvcFsError::Corrupt(fp)) => assert_eq!(fp, key.to_hex()),
        other => panic!("unexpected: {:?}", other),
    }
}

#[test]
fn store_tree_seals_and_writes_once() {
    let mut repo = repo();
    let tree = Tree { name: "t".to_string(), hash: ObjectId([9; 32]), trees: vec![], blobs: vec![] };
    let (sealed, is_new) = repo.store_tree(tree.clone());
    assert!(is_new);
    assert_eq!(sealed.hash, tree.fingerprint());
    assert!(repo.tree_exists(&sealed.hash));
    let (_, again) = repo.store_tree(tree);
    assert!(!again);
    assert_eq!(repo.trees.len(), 1);
    assert_eq!(repo.read_tree(&sealed.hash).unwrap().name, "t");
    assert!(matches!(repo.read_tree(&ObjectId::default()), Err(WsvcFsError::NotFound(_))));
    assert_eq!(repo.get_blobs_of_tree(&sealed.hash).unwrap().len(), 0);
}

#[test]
fn store_record_overwrites_by_fingerprint() {
    let mut repo = repo();
    let record = Record {
        hash: ObjectId([1; 32]),
        message: "one".to_string(),
        author: "a".to_string(),
        date: 1,
        root: ObjectId([2; 32]),
    };
    repo.store_record(&record);
    repo.store_record(&Record { message: "two".to_string(), ..record.clone() });
    assert_eq!(repo.records.len(), 1);
    assert!(repo.record_exists(&record.hash));
    assert_eq!(repo.read_record(&record.hash).unwrap().message, "two");
    assert_eq!(repo.get_records().len(), 1);
    assert!(matches!(repo.read_record(&ObjectId([3; 32])), Err(WsvcFsError::NotFound(_))));
    let found = repo.find_record_for_tree(&ObjectId([2; 32])).unwrap();
    assert_eq!(found.hash, record.hash);
    assert!(repo.find_record_for_tree(&ObjectId([4; 32])).is_none());
}

#[test]
fn checkout_into_a_fresh_directory() {
    let mut repo = repo();
    let record = repo.commit_record_at(&hello(), "a", "m", 100).unwrap();
    let head = repo.head.clone();
    let mut fresh = dir("d2", vec![], vec![]);
    let out = repo.checkout_record(&record.hash, &mut fresh).unwrap();
    assert_eq!(out.hash, record.hash);
    assert_eq!(fresh.name, "d2");
    assert_eq!(names(&fresh), (vec![], vec!["hello.txt".to_string()]));
    assert_eq!(fresh.files[0].content, b"hi\n");
    assert_eq!(repo.head, head);
}

#[test]
fn checkout_removes_what_the_snapshot_does_not_have() {
    let mut repo = repo();
    let record = repo.commit_record_at(&hello(), "a", "m", 100).unwrap();
    let store = dir(".wsvc", vec![dir("objects", vec![], vec![])], vec![file("HEAD", b"x")]);
    let mut workspace = dir(
        "d",
        vec![dir("junk", vec![], vec![file("inside", b"1")]), store],
        vec![file("garbage.bin", b"\x00\x01"), file("hello.txt", b"hi\n")],
    );
    repo.checkout_record(&record.hash, &mut workspace).unwrap();
    assert_eq!(names(&workspace), (vec![".wsvc".to_string()], vec!["hello.txt".to_string()]));
    assert_eq!(workspace.files[0].content, b"hi\n");
    assert_eq!(workspace.dirs[0].files[0].name, "HEAD");
    assert_eq!(workspace.dirs[0].dirs[0].name, "objects");
}

#[test]
fn checkout_overwrites_changed_files_and_replaces_a_file_by_a_directory() {
    let mut repo = repo();
    let workspace = dir(
        "d",
        vec![dir("sub", vec![], vec![file("inner", b"in")])],
        vec![file("hello.txt", b"hi\n")],
    );
    let record = repo.commit_record_at(&workspace, "a", "m", 100).unwrap();
    let mut changed = dir("d", vec![], vec![file("hello.txt", b"changed"), file("sub", b"a file")]);
    repo.checkout_record(&record.hash, &mut changed).unwrap();
    assert_eq!(names(&changed), (vec!["sub".to_string()], vec!["hello.txt".to_string()]));
    assert_eq!(changed.files[0].content, b"hi\n");
    assert_eq!(changed.dirs[0].files[0].name, "inner");
    assert_eq!(changed.dirs[0].files[0].content, b"in");
}

#[test]
fn commit_then_checkout_gives_the_workspace_back() {
    let mut repo = repo();
    let workspace = dir(
        "d",
        vec![
            dir("a", vec![dir("deep", vec![], vec![file("x", b"1"), file("y", b"")])], vec![]),
            dir("b", vec![], vec![file("z", &vec![7u8; 40000])]),
        ],
        vec![file("top", b"t")],
    );
    let record = repo.commit_record_at(&workspace, "a", "m", 100).unwrap();
    let mut fresh = dir("d", vec![], vec![]);
    repo.checkout_record(&record.hash, &mut fresh).unwrap();
    assert_eq!(format!("{:?}", fresh), format!("{:?}", workspace));
}

#[test]
fn checkout_twice_is_checkout_once() {
    let mut repo = repo();
    let workspace = dir("d", vec![dir("s", vec![], vec![file("f", b"1")])], vec![file("g", b"2")]);
    let record = repo.commit_record_at(&workspace, "a", "m", 100).unwrap();
    let mut target = dir("t", vec![dir("extra", vec![], vec![])], vec![file("g", b"old")]);
    repo.checkout_record(&record.hash, &mut target).unwrap();
    let once = format!("{:?}", target);
    // with the store emptied of file contents a second checkout still succeeds: nothing is read
    repo.objects.clear();
    repo.checkout_record(&record.hash, &mut target).unwrap();
    assert_eq!(format!("{:?}", target), once);
}

#[test]
fn a_second_checkout_gives_the_same_snapshot_and_leaves_all_as_it_was() {
    let mut repo = repo();
    let workspace = dir(
        "d",
        vec![dir("s", vec![dir("t", vec![], vec![file("deep", b"3")])], vec![file("f", b"1")])],
        vec![file("g", b"2")],
    );
    let record = repo.commit_record_at(&workspace, "a", "m", 100).unwrap();
    repo.commit_record_at(&hello(), "a", "m", 200).unwrap();
    let mut target = dir("t", vec![dir(".wsvc", vec![], vec![file("HEAD", b"x")])], vec![]);
    let first = repo.checkout_record(&record.hash, &mut target).unwrap();
    let once = format!("{:?}", target);
    let store = format!("{:?}", repo);
    let second = repo.checkout_record(&record.hash, &mut target).unwrap();
    assert_eq!(format!("{:?}", first), format!("{:?}", second));
    assert_eq!(second.hash, record.hash);
    assert_eq!(format!("{:?}", target), once);
    assert_eq!(format!("{:?}", repo), store);
}

#[test]
fn checkout_sets_head_and_clears_the_working_area() {
    let mut repo = repo();
    let first = repo.commit_record_at(&hello(), "a", "m", 100).unwrap();
    let second = repo
        .commit_record_at(&dir("d", vec![], vec![file("hello.txt", b"two")]), "a", "m", 200)
        .unwrap();
    assert_eq!(repo.head, second.hash.to_hex());
    repo.temp.push(wsvc::model::TempFile { name: b"left".to_vec(), data: vec![1] });
    let mut workspace = dir("d", vec![], vec![]);
    repo.checkout_record(&first.hash, &mut workspace).unwrap();
    assert_eq!(repo.head, first.hash.to_hex());
    assert!(repo.temp.is_empty());
    assert_eq!(workspace.files[0].content, b"hi\n");
}

#[test]
fn a_failed_checkout_changes_nothing() {
    let mut repo = repo();
    let record = repo.commit_record_at(&hello(), "a", "m", 100).unwrap();
    repo.objects.clear();
    let mut workspace = dir("d", vec![], vec![file("keep", b"k")]);
    let head = repo.head.clone();
    match repo.checkout_record(&record.hash, &mut workspace) {
        Err(WsvcFsError::NotFound(fp)) => assert_eq!(fp, fingerprint(b"hi\n").to_hex()),
        other => panic!("unexpected: {:?}", other),
    }
    assert_eq!(names(&workspace), (vec![], vec!["keep".to_string()]));
    assert_eq!(repo.head, head);
    assert!(matches!(
        repo.checkout_record(&ObjectId::default(), &mut workspace),
        Err(WsvcFsError::NotFound(_))
    ));
}

#[test]
fn a_directory_in_the_way_of_a_file_is_an_error() {
    let mut repo = repo();
    let record = repo.commit_record_at(&hello(), "a", "m", 100).unwrap();
    let mut workspace = dir("d", vec![dir("hello.txt", vec![], vec![])], vec![]);
    match repo.checkout_record(&record.hash, &mut workspace) {
        Err(WsvcFsError::Os(name)) => assert_eq!(name, "hello.txt"),
        other => panic!("unexpected: {:?}", other),
    }
}

#[test]
fn a_chain_of_directories_that_never_ends_is_corrupt() {
    let mut repo = repo();
    let key = ObjectId([5; 32]);
    repo.trees.push(Tree { name: "loop".to_string(), hash: key, trees: vec![key], blobs: vec![] });
    let root = repo.read_tree(&key).unwrap();
    let mut workspace = dir("d", vec![], vec![]);
    match repo.checkout_tree(&root, &mut workspace) {
        Err(WsvcFsError::Corrupt(fp)) => assert_eq!(fp, key.to_hex()),
        other => panic!("unexpected: {:?}", other),
    }
    repo.records.push(Record {
        hash: ObjectId([6; 32]),
        message: String::new(),
        author: String::new(),
        date: 0,
        root: key,
    });
    assert!(matches!(
        repo.get_trees_of_record(&ObjectId([6; 32])),
        Err(WsvcFsError::Corrupt(_))
    ));
}

#[test]
fn checkout_blob_writes_one_file() {
    let mut repo = repo();
    let blob: Blob = repo.store_blob("n", b"content").unwrap();
    let mut workspace = dir("d", vec![], vec![file("other", b"o"), file("target", b"old")]);
    repo.checkout_blob(&blob.hash, &mut workspace, "target").unwrap();
    repo.checkout_blob(&blob.hash, &mut workspace, "new").unwrap();
    assert_eq!(names(&workspace).1, vec!["other", "target", "new"]);
    assert_eq!(workspace.files[1].content, b"content");
    assert_eq!(workspace.files[2].content, b"content");
    assert!(matches!(
        repo.checkout_blob(&ObjectId::default(), &mut workspace, "x"),
        Err(WsvcFsError::NotFound(_))
    ));
    assert_eq!(workspace.files.len(), 3);
}

#[test]
fn find_dir_and_find_file_give_the_first_position() {
    let d = dir("d", vec![dir("a", vec![], vec![]), dir("b", vec![], vec![])], vec![file("f", b"")]);
    assert_eq!(d.find_dir("b"), Some(1));
    assert_eq!(d.find_dir("f"), None);
    assert_eq!(d.find_file("f"), Some(0));
    assert_eq!(d.find_file("a"), None);
    let copy = d.clone();
    assert_eq!(format!("{:?}", copy), format!("{:?}", d));
    assert_eq!(WorkDir::new("x".to_string()).name, "x");
}

#[test]
fn a_deeply_nested_workspace_is_committed_and_restored() {
    let mut repo = repo();
    let mut workspace = dir("level0", vec![], vec![file("leaf", b"0")]);
    for i in 1..40 {
        workspace = dir(&format!("level{}", i), vec![workspace], vec![file("leaf", format!("{}", i).as_bytes())]);
    }
    assert!(wsvc::fs::commit::nests_within(&workspace, 39));
    assert!(!wsvc::fs::commit::nests_within(&workspace, 38));
    let record = repo.commit_record_at(&workspace, "a", "m", 1).unwrap();
    assert_eq!(repo.trees.len(), 40);
    let mut fresh = dir("level39", vec![], vec![]);
    repo.checkout_record(&record.hash, &mut fresh).unwrap();
    assert_eq!(format!("{:?}", fresh), format!("{:?}", workspace));
}

#[test]
fn the_repository_directory_does_not_count_as_a_level() {
    let inner = dir(".wsvc", vec![dir("objects", vec![dir("x", vec![], vec![])], vec![])], vec![]);
    let workspace = dir("d", vec![inner], vec![]);
    assert!(wsvc::fs::commit::nests_within(&workspace, 0));
    let plain = dir("d", vec![dir("a", vec![], vec![])], vec![]);
    assert!(!wsvc::fs::commit::nests_within(&plain, 0));
    assert!(wsvc::fs::commit::nests_within(&plain, 1));
}

#[test]
fn a_file_named_like_the_repository_is_passed_over() {
    let mut with = repo();
    let mut without = repo();
    let a = with
        .write_tree_recursively(&dir("d", vec![], vec![file(".wsvc", b"x"), file("f", b"1")]))
        .unwrap();
    let b = without.write_tree_recursively(&dir("d", vec![], vec![file("f", b"1")])).unwrap();
    assert_eq!(a.0.hash, b.0.hash);
    assert_eq!(a.0.blobs.len(), 1);
    assert_eq!(with.objects.len(), 1);
}

#[test]
fn a_stored_directory_may_not_name_the_repository_directory() {
    let mut repo = repo();
    let inner = Tree { name: ".wsvc".to_string(), hash: ObjectId([1; 32]), trees: vec![], blobs: vec![] };
    let (inner, _) = repo.store_tree(inner);
    let outer = Tree { name: "d".to_string(), hash: ObjectId([2; 32]), trees: vec![inner.hash], blobs: vec![] };
    let store = dir(".wsvc", vec![], vec![file("HEAD", b"h")]);
    let mut workspace = dir("d", vec![store], vec![]);
    match repo.checkout_tree(&outer, &mut workspace) {
        Err(WsvcFsError::InvalidFilename(name)) => assert_eq!(name, ".wsvc"),
        other => panic!("unexpected: {:?}", other),
    }
    assert_eq!(workspace.dirs[0].files[0].name, "HEAD");
    let blob = repo.store_blob(".wsvc", b"x").unwrap();
    let with_file = Tree { name: "d".to_string(), hash: ObjectId([3; 32]), trees: vec![], blobs: vec![blob] };
    assert!(matches!(
        repo.checkout_tree(&with_file, &mut workspace),
        Err(WsvcFsError::InvalidFilename(_))
    ));
}
