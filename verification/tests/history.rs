use wsvc::fs::history::hash_before;
use wsvc::fs::workdir::{WorkDir, WorkFile};
use wsvc::fs::WsvcFsError;
use wsvc::hex::HexError;
use wsvc::model::{ObjectId, Record, Repository};

fn repo() -> Repository {
    Repository::new_in_session("/d", false, false, "session".to_string()).unwrap()
}

fn record(hash: u8, date: i64) -> Record {
    Record {
        hash: ObjectId([hash; 32]),
        message: format!("m{}", hash),
        author: "a".to_string(),
        date,
        root: ObjectId([0xee; 32]),
    }
}

#[test]
fn latest_is_the_one_of_the_greatest_date() {
    let mut repo = repo();
    assert!(repo.get_latest_record().is_none());
    repo.records = vec![record(1, 10), record(2, 30), record(3, 20)];
    assert_eq!(repo.get_latest_record().unwrap().hash, ObjectId([2; 32]));
}

#[test]
fn ties_go_to_the_greater_fingerprint() {
    let mut repo = repo();
    repo.records = vec![record(5, 30), record(9, 30), record(7, 30), record(1, 10)];
    assert_eq!(repo.get_latest_record().unwrap().hash, ObjectId([9; 32]));
    repo.records.reverse();
    assert_eq!(repo.get_latest_record().unwrap().hash, ObjectId([9; 32]));
}

#[test]
fn byte_order_of_fingerprints() {
    let mut low = [1u8; 32];
    let mut high = [1u8; 32];
    low[31] = 1;
    high[31] = 2;
    assert!(hash_before(&ObjectId(low), &ObjectId(high)));
    assert!(!hash_before(&ObjectId(high), &ObjectId(low)));
    assert!(!hash_before(&ObjectId(low), &ObjectId(low)));
    low[0] = 9;
    assert!(hash_before(&ObjectId(high), &ObjectId(low)));
}

#[test]
fn head_record_follows_head() {
    let mut repo = repo();
    assert!(repo.get_head_record().unwrap().is_none());
    repo.records = vec![record(1, 10), record(2, 30)];
    repo.head = ObjectId([1; 32]).to_hex();
    assert_eq!(repo.get_head_record().unwrap().unwrap().date, 10);
    repo.head = ObjectId([1; 32]).to_hex().to_uppercase();
    assert_eq!(repo.get_head_record().unwrap().unwrap().date, 10);
    repo.head = ObjectId([4; 32]).to_hex();
    assert!(matches!(repo.get_head_record(), Err(WsvcFsError::NotFound(_))));
    repo.head = "xyz".to_string();
    assert!(matches!(
        repo.get_head_record(),
        Err(WsvcFsError::InvalidHexString(HexError::InvalidLen(3)))
    ));
    repo.head = "g".repeat(64);
    assert!(matches!(
        repo.get_head_record(),
        Err(WsvcFsError::InvalidHexString(HexError::InvalidByte(b'g')))
    ));
}

#[test]
fn trees_of_a_record_come_root_first() {
    let mut repo = repo();
    let workspace = WorkDir {
        name: "root".to_string(),
        dirs: vec![
            WorkDir {
                name: "a".to_string(),
                dirs: vec![WorkDir { name: "deep".to_string(), dirs: vec![], files: vec![] }],
                files: vec![],
            },
            WorkDir {
                name: "b".to_string(),
                dirs: vec![],
                files: vec![WorkFile { name: "f".to_string(), content: b"1".to_vec() }],
            },
        ],
        files: vec![],
    };
    let record = repo.commit_record_at(&workspace, "a", "m", 1).unwrap();
    let trees = repo.get_trees_of_record(&record.hash).unwrap();
    let names: Vec<&str> = trees.iter().map(|t| t.name.as_str()).collect();
    assert_eq!(names, vec!["root", "a", "deep", "b"]);
    assert!(matches!(
        repo.get_trees_of_record(&ObjectId::default()),
        Err(WsvcFsError::NotFound(_))
    ));
    let listed = repo.trees_of_records(&vec![record.clone(), record]).unwrap();
    assert_eq!(listed.len(), 8);
    let blobs = repo.blobs_of_trees(&trees).unwrap();
    assert_eq!(blobs.len(), 1);
    assert_eq!(blobs[0].name, "f");
}

#[test]
fn a_missing_directory_is_reported() {
    let mut repo = repo();
    let workspace = WorkDir {
        name: "root".to_string(),
        dirs: vec![WorkDir { name: "a".to_string(), dirs: vec![], files: vec![] }],
        files: vec![],
    };
    let record = repo.commit_record_at(&workspace, "a", "m", 1).unwrap();
    let child = repo.trees[0].hash;
    repo.trees.remove(0);
    match repo.get_trees_of_record(&record.hash) {
        Err(WsvcFsError::NotFound(fp)) => assert_eq!(fp, child.to_hex()),
        other => panic!("unexpected: {:?}", other),
    }
}
