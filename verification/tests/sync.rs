use wsvc::cli::transport::sync_impl;
use wsvc::codec::compress_blob;
use wsvc::digest::fingerprint;
use wsvc::fs::workdir::{WorkDir, WorkFile};
use wsvc::fs::WsvcFsError;
use wsvc::model::{Blob, ObjectId, Record, Repository, TempFile, Tree};
use wsvc::server::{sync_with, WsvcServerError};
use wsvc::sync::{
    blobs_new_in, blobs_marked, contains_id, record_ids, records_lacking_in, records_marked,
    tag_blobs, tag_records, tag_trees, trees_lacking_in, trees_marked, Phase, SyncMessage,
    SyncSession,
};
use wsvc::WsvcError;

fn file(name: &str, content: &[u8]) -> WorkFile {
    WorkFile { name: name.to_string(), content: content.to_vec() }
}

fn dir(name: &str, dirs: Vec<WorkDir>, files: Vec<WorkFile>) -> WorkDir {
    WorkDir { name: name.to_string(), dirs, files }
}

fn w1() -> WorkDir {
    dir("w", vec![dir("one", vec![], vec![file("a", b"first")])], vec![file("shared", b"same")])
}

fn w2() -> WorkDir {
    dir("w", vec![], vec![file("shared", b"same"), file("base", b"base")])
}

fn w3() -> WorkDir {
    dir("w", vec![dir("three", vec![], vec![file("c", &vec![3u8; 40000])])], vec![file("base", b"base")])
}

fn side(session: &str, commits: Vec<(WorkDir, i64)>) -> Repository {
    let mut repo = Repository::new_in_session("/r", true, false, session.to_string()).unwrap();
    for (workspace, date) in commits {
        repo.commit_record_at(&workspace, "a", "m", date).unwrap();
    }
    repo
}

fn sorted_hex<I: Iterator<Item = ObjectId>>(ids: I) -> Vec<String> {
    let mut out: Vec<String> = ids.map(|id| id.to_hex()).collect();
    out.sort();
    out.dedup();
    out
}

/// Runs a whole session and counts the files that cross the channel.
fn run(responder: &mut Repository, initiator: &mut Repository) -> Result<usize, String> {
    let mut client = wsvc::cli::transport::begin(initiator).map_err(|e| format!("{:?}", e))?;
    let (mut server, first) = wsvc::server::begin(responder).map_err(|e| format!("{:?}", e))?;
    let mut to_client = first;
    let mut files = 0;
    loop {
        let mut to_server = Vec::new();
        for message in to_client.drain(..) {
            if matches!(message, SyncMessage::File(_)) {
                files += 1;
            }
            to_server.extend(sync_impl(initiator, &mut client, message).map_err(|e| format!("{:?}", e))?);
        }
        for message in to_server.drain(..) {
            if matches!(message, SyncMessage::File(_)) {
                files += 1;
            }
            to_client.extend(sync_with(responder, &mut server, message).map_err(|e| format!("{:?}", e))?);
        }
        if to_client.is_empty() {
            break;
        }
    }
    assert_eq!(client.phase, Phase::Done);
    assert_eq!(server.phase, Phase::Done);
    Ok(files)
}

#[test]
fn sync_makes_both_stores_hold_the_same() {
    let mut a = side("sa", vec![(w1(), 1), (w2(), 2)]);
    let mut b = side("sb", vec![(w2(), 2), (w3(), 3)]);
    let head_a = a.head.clone();
    let head_b = b.head.clone();
    assert_eq!(a.records.len(), 2);
    assert_eq!(b.records.len(), 2);

    let files = run(&mut a, &mut b).unwrap();
    // "first" goes to the initiator and the 40000 bytes go to the responder;
    // "base" stays: the offered directory names it, but so does a directory
    // of the snapshot that both sides have.
    assert_eq!(files, 2);

    assert_eq!(a.records.len(), 3);
    assert_eq!(b.records.len(), 3);
    assert_eq!(
        sorted_hex(a.records.iter().map(|r| r.hash)),
        sorted_hex(b.records.iter().map(|r| r.hash))
    );
    assert_eq!(
        sorted_hex(a.trees.iter().map(|t| t.hash)),
        sorted_hex(b.trees.iter().map(|t| t.hash))
    );
    assert_eq!(
        sorted_hex(a.objects.iter().map(|o| o.hash)),
        sorted_hex(b.objects.iter().map(|o| o.hash))
    );
    assert_eq!(a.objects.len(), 4);
    assert_eq!(a.head, head_a);
    assert_eq!(b.head, head_b);
    assert!(a.lock_file.is_none());
    assert!(b.lock_file.is_none());
    assert!(a.temp.is_empty());
    assert!(b.temp.is_empty());

    // everything that a record reaches can be checked out on either side
    for record in a.get_records() {
        let mut out = dir("o", vec![], vec![]);
        b.checkout_record(&record.hash, &mut out).unwrap();
    }

    // a second synchronization has nothing to transfer
    assert_eq!(run(&mut a, &mut b).unwrap(), 0);
    assert_eq!(a.records.len(), 3);
    assert_eq!(b.objects.len(), 4);
}

#[test]
fn a_content_under_two_names_crosses_once() {
    let twice = dir(
        "w",
        vec![dir("sub", vec![], vec![file("again", b"dup")])],
        vec![file("x", b"dup"), file("y", b"dup"), file("z", b"other")],
    );
    // from the initiator to an empty responder
    let mut a = side("sa", vec![]);
    let mut b = side("sb", vec![(twice.clone(), 1)]);
    assert_eq!(b.objects.len(), 2);
    assert_eq!(run(&mut a, &mut b).unwrap(), 2);
    assert_eq!(a.objects.len(), 2);
    assert_eq!(a.trees.len(), 2);

    // from the responder to an empty initiator
    let mut c = side("sc", vec![(twice, 1)]);
    let mut d = side("sd", vec![]);
    assert_eq!(run(&mut c, &mut d).unwrap(), 2);
    assert_eq!(d.objects.len(), 2);
}

#[test]
fn nothing_is_offered_that_the_responder_holds() {
    // the responder's own snapshot, which the initiator lacks, names "base";
    // the responder lists its directory, so the initiator does not send it
    let mut a = side("sa", vec![(w2(), 2)]);
    let mut b = side("sb", vec![(w3(), 3)]);
    // "same" goes to the initiator, the 40000 bytes go to the responder
    assert_eq!(run(&mut a, &mut b).unwrap(), 2);
    assert_eq!(a.objects.len(), 3);
    assert_eq!(b.objects.len(), 3);
    assert_eq!(
        sorted_hex(a.objects.iter().map(|o| o.hash)),
        sorted_hex(b.objects.iter().map(|o| o.hash))
    );
}

#[test]
fn the_offer_leaves_out_what_shared_and_listed_directories_name() {
    let a = side("sa", vec![(w1(), 1), (w2(), 2)]);
    let b = side("sb", vec![(w2(), 2), (w3(), 3)]);
    // round by round, as the initiator `b` sees it
    let given_records = records_lacking_in(&b.records, &record_ids(&a.records));
    assert_eq!(given_records.len(), 1);
    let wanted_records = records_lacking_in(&a.records, &record_ids(&b.records));
    let listed_trees = a.trees_of_records(&wanted_records).unwrap();
    let (wanted_trees, given_trees) =
        wsvc::cli::transport::sync_trees(&b, &listed_trees, &given_records).unwrap();
    let listed_blobs = a.blobs_of_trees(&wanted_trees).unwrap();
    let (wanted, given) = wsvc::cli::transport::sync_blobs_meta(
        &b,
        &listed_blobs,
        &given_trees,
        &given_records,
        &listed_trees,
    )
    .unwrap();
    assert_eq!(wanted.len(), 1);
    assert_eq!(wanted[0].hash, fingerprint(b"first"));
    assert_eq!(given.len(), 1);
    assert_eq!(given[0].hash, fingerprint(&vec![3u8; 40000]));
}

#[test]
fn sync_into_an_empty_repository_brings_everything() {
    let mut a = side("sa", vec![(w1(), 1), (w3(), 3)]);
    let mut b = side("sb", vec![]);
    let files = run(&mut a, &mut b).unwrap();
    assert_eq!(files, a.objects.len());
    assert_eq!(b.records.len(), 2);
    assert_eq!(b.trees.len(), a.trees.len());
    assert_eq!(b.objects.len(), a.objects.len());
    // the sync command ends there: HEAD stays, and only the latest is reported
    let head = b.head.clone();
    let record = wsvc::cli::transport::sync(&mut b).unwrap();
    assert_eq!(record.date, 3);
    assert_eq!(b.head, head);
    assert_eq!(b.head, "");
    assert!(b.lock_file.is_none());
    // a clone goes on and checks the latest snapshot out
    let mut workspace = dir("w", vec![], vec![]);
    let record = wsvc::cli::checkout::checkout_latest(&mut b, &mut workspace).unwrap();
    assert_eq!(record.date, 3);
    assert_eq!(b.head, record.hash.to_hex());
    assert_eq!(workspace.dirs[0].name, "three");
    assert_eq!(workspace.dirs[0].files[0].content, vec![3u8; 40000]);
}

#[test]
fn the_sync_command_leaves_head_where_it_was() {
    let mut a = side("sa", vec![(w1(), 1), (w3(), 5)]);
    let mut b = side("sb", vec![(w2(), 2)]);
    let head = b.head.clone();
    run(&mut a, &mut b).unwrap();
    b.lock_file = Some("sb".to_string());
    let latest = wsvc::cli::transport::sync(&mut b).unwrap();
    assert_eq!(latest.date, 5);
    assert_eq!(b.head, head);
    assert_ne!(b.head, latest.hash.to_hex());
    assert!(b.lock_file.is_none());
}

#[test]
fn sync_of_an_empty_store_cannot_be_checked_out() {
    let mut a = side("sa", vec![]);
    let mut b = side("sb", vec![]);
    assert_eq!(run(&mut a, &mut b).unwrap(), 0);
    assert!(matches!(wsvc::cli::transport::sync(&mut b), Err(WsvcError::EmptyRepoError)));
}

#[test]
fn a_locked_repository_cannot_be_synchronized() {
    let mut a = side("sa", vec![(w1(), 1)]);
    a.lock_file = Some("someone else".to_string());
    assert!(matches!(
        wsvc::server::begin(&mut a),
        Err(WsvcServerError::WsvcError(WsvcError::FsError(WsvcFsError::WorkspaceLocked)))
    ));
    assert!(matches!(
        wsvc::cli::transport::begin(&mut a),
        Err(WsvcError::FsError(WsvcFsError::WorkspaceLocked))
    ));
    assert_eq!(a.lock_file.as_deref(), Some("someone else"));
}

#[test]
fn a_message_out_of_turn_ends_the_session() {
    let mut b = side("sb", vec![(w2(), 2)]);
    let mut client = wsvc::cli::transport::begin(&mut b).unwrap();
    assert!(b.lock_file.is_some());
    match sync_impl(&mut b, &mut client, SyncMessage::Trees(vec![])) {
        Err(WsvcError::DataError(message)) => assert_eq!(message, "unexpected packet"),
        other => panic!("unexpected: {:?}", other),
    }
    assert_eq!(client.phase, Phase::Done);
    assert!(b.lock_file.is_none());

    let mut a = side("sa", vec![(w1(), 1)]);
    let (mut server, _) = wsvc::server::begin(&mut a).unwrap();
    match sync_with(&mut a, &mut server, SyncMessage::Records(vec![])) {
        Err(WsvcServerError::DataError(message)) => assert_eq!(message, "unexpected packet"),
        other => panic!("unexpected: {:?}", other),
    }
    assert!(a.lock_file.is_none());
}

fn until_files(a: &mut Repository, b: &mut Repository) -> (SyncSession, Vec<SyncMessage>) {
    let mut client = wsvc::cli::transport::begin(b).unwrap();
    let (mut server, mut to_client) = wsvc::server::begin(a).unwrap();
    loop {
        let mut to_server = Vec::new();
        for message in to_client.drain(..) {
            to_server.extend(sync_impl(b, &mut client, message).unwrap());
        }
        for message in to_server.drain(..) {
            to_client.extend(sync_with(a, &mut server, message).unwrap());
        }
        if client.phase == Phase::Files {
            return (client, to_client);
        }
    }
}

#[test]
fn a_file_that_is_not_what_its_name_says_fails_the_session_and_leaves_the_store() {
    let mut a = side("sa", vec![(w1(), 1)]);
    let mut b = side("sb", vec![(w2(), 2)]);
    let objects_before = sorted_hex(b.objects.iter().map(|o| o.hash));
    let trees_before = b.trees.len();
    let (mut client, files) = until_files(&mut a, &mut b);
    assert_eq!(files.len(), 1);
    let wanted = fingerprint(b"first");
    let forged = TempFile {
        name: wanted.to_hex().into_bytes(),
        data: compress_blob(b"forged").unwrap(),
    };
    match sync_impl(&mut b, &mut client, SyncMessage::File(forged)) {
        Err(WsvcError::ChecksumMismatch(fp)) => assert_eq!(fp, wanted.to_hex()),
        other => panic!("unexpected: {:?}", other),
    }
    assert_eq!(sorted_hex(b.objects.iter().map(|o| o.hash)), objects_before);
    assert_eq!(b.trees.len(), trees_before);
    assert_eq!(b.records.len(), 1);
    assert_eq!(b.temp.len(), 1);
    assert!(b.lock_file.is_none());
}

#[test]
fn a_forged_file_is_reported_before_an_offered_content_that_is_missing() {
    let wanted = fingerprint(b"first");
    let offered = fingerprint(b"base");

    // the file that came is not what its name says, and an offered content is gone
    let mut a = side("sa", vec![(w1(), 1)]);
    let mut b = side("sb", vec![(w2(), 2)]);
    let (mut client, _) = until_files(&mut a, &mut b);
    assert_eq!(client.given_blobs.len(), 1);
    assert_eq!(client.given_blobs[0].hash, offered);
    b.objects.retain(|o| o.hash != offered);
    let forged = TempFile {
        name: wanted.to_hex().into_bytes(),
        data: compress_blob(b"forged").unwrap(),
    };
    match sync_impl(&mut b, &mut client, SyncMessage::File(forged)) {
        Err(WsvcError::ChecksumMismatch(fp)) => assert_eq!(fp, wanted.to_hex()),
        other => panic!("unexpected: {:?}", other),
    }
    assert_eq!(b.objects.len(), 1);
    assert_eq!(b.records.len(), 1);

    // the file that came is good, and an offered content is gone
    let mut a = side("sa", vec![(w1(), 1)]);
    let mut b = side("sb", vec![(w2(), 2)]);
    let (mut client, mut files) = until_files(&mut a, &mut b);
    b.objects.retain(|o| o.hash != offered);
    match sync_impl(&mut b, &mut client, files.remove(0)) {
        Err(WsvcError::FsError(WsvcFsError::NotFound(fp))) => assert_eq!(fp, offered.to_hex()),
        other => panic!("unexpected: {:?}", other),
    }
    assert_eq!(b.objects.len(), 1);
    assert_eq!(b.records.len(), 1);
    assert_eq!(b.trees.len(), 1);
}

#[test]
fn a_file_under_another_name_fails_the_session() {
    let mut a = side("sa", vec![(w1(), 1)]);
    let mut b = side("sb", vec![(w2(), 2)]);
    let (mut client, _) = until_files(&mut a, &mut b);
    let stray = TempFile {
        name: fingerprint(b"other").to_hex().into_bytes(),
        data: compress_blob(b"first").unwrap(),
    };
    match sync_impl(&mut b, &mut client, SyncMessage::File(stray)) {
        Err(WsvcError::DataError(message)) => {
            assert_eq!(message, format!("blob not synced: {}", fingerprint(b"first").to_hex()))
        }
        other => panic!("unexpected: {:?}", other),
    }
    assert_eq!(b.objects.len(), 2);
}

#[test]
fn a_file_whose_name_is_no_fingerprint_is_not_taken_in() {
    let upper = fingerprint(b"first").to_hex().to_uppercase().into_bytes();
    let names: Vec<Vec<u8>> = vec![
        b"stray".to_vec(),
        b"../../HEAD".to_vec(),
        b"/etc/passwd".to_vec(),
        Vec::new(),
        upper,
        vec![b'a'; 63],
        vec![b'a'; 65],
    ];
    for name in names {
        // on the initiator's side
        let mut a = side("sa", vec![(w1(), 1)]);
        let mut b = side("sb", vec![(w2(), 2)]);
        let (mut client, _) = until_files(&mut a, &mut b);
        let file = TempFile { name: name.clone(), data: compress_blob(b"first").unwrap() };
        match sync_impl(&mut b, &mut client, SyncMessage::File(file)) {
            Err(WsvcError::DataError(message)) => assert_eq!(message, "invalid file name"),
            other => panic!("unexpected: {:?}", other),
        }
        assert!(b.temp.is_empty());
        assert_eq!(b.objects.len(), 2);
        assert!(b.lock_file.is_none());

        // on the responder's side
        let mut c = side("sc", vec![]);
        let mut d = side("sd", vec![(w2(), 2)]);
        let mut client = wsvc::cli::transport::begin(&mut d).unwrap();
        let (mut server, mut to_client) = wsvc::server::begin(&mut c).unwrap();
        while server.phase != Phase::Files {
            let mut to_server = Vec::new();
            for message in to_client.drain(..) {
                to_server.extend(sync_impl(&mut d, &mut client, message).unwrap());
            }
            for message in to_server.drain(..) {
                if matches!(message, SyncMessage::File(_)) {
                    continue;
                }
                to_client.extend(sync_with(&mut c, &mut server, message).unwrap());
            }
        }
        let file = TempFile { name, data: compress_blob(b"same").unwrap() };
        match sync_with(&mut c, &mut server, SyncMessage::File(file)) {
            Err(WsvcServerError::DataError(message)) => assert_eq!(message, "invalid file name"),
            other => panic!("unexpected: {:?}", other),
        }
        assert!(c.temp.is_empty());
        assert!(c.objects.is_empty());
        assert!(c.lock_file.is_none());
    }
}

#[test]
fn finish_sync_checks_before_it_stores() {
    let mut repo = side("s", vec![]);
    let good = Blob { name: "g".to_string(), hash: fingerprint(b"good") };
    let bad = Blob { name: "b".to_string(), hash: fingerprint(b"bad") };
    repo.receive_file(TempFile { name: good.hash.to_hex().into_bytes(), data: compress_blob(b"good").unwrap() });
    repo.receive_file(TempFile { name: bad.hash.to_hex().into_bytes(), data: vec![9, 9] });
    let tree = Tree { name: "t".to_string(), hash: ObjectId([1; 32]), trees: vec![], blobs: vec![] };
    let record = Record {
        hash: ObjectId([2; 32]),
        message: String::new(),
        author: String::new(),
        date: 0,
        root: ObjectId([1; 32]),
    };
    assert!(matches!(
        repo.finish_sync(&vec![good.clone(), bad], &vec![tree.clone()], &vec![record.clone()]),
        Err(WsvcError::ChecksumMismatch(_))
    ));
    assert!(repo.objects.is_empty());
    assert!(repo.trees.is_empty());
    assert!(repo.records.is_empty());
    assert_eq!(repo.temp.len(), 2);
    repo.finish_sync(&vec![good.clone()], &vec![tree], &vec![record]).unwrap();
    assert_eq!(repo.objects.len(), 1);
    assert_eq!(repo.read_blob(&good.hash).unwrap(), b"good");
    assert_eq!(repo.trees.len(), 1);
    assert_eq!(repo.records.len(), 1);
    assert!(repo.temp.is_empty());
}

#[test]
fn receive_file_overwrites_by_name() {
    let mut repo = side("s", vec![]);
    repo.receive_file(TempFile { name: b"n".to_vec(), data: vec![1] });
    repo.receive_file(TempFile { name: b"m".to_vec(), data: vec![2] });
    repo.receive_file(TempFile { name: b"n".to_vec(), data: vec![3] });
    assert_eq!(repo.temp.len(), 2);
    assert_eq!(repo.temp[0].data, vec![3]);
}

#[test]
fn outgoing_files_are_the_stored_forms_under_hex_names() {
    let mut repo = side("s", vec![]);
    let blob = repo.store_blob("x", b"payload").unwrap();
    let files = repo.outgoing_files(&vec![blob.clone()]).unwrap();
    assert_eq!(files.len(), 1);
    assert_eq!(files[0].name, blob.hash.to_hex().into_bytes());
    assert_eq!(files[0].data, compress_blob(b"payload").unwrap());
    let missing = Blob { name: "y".to_string(), hash: ObjectId([1; 32]) };
    assert!(matches!(repo.outgoing_files(&vec![blob, missing]), Err(WsvcFsError::NotFound(_))));
}

fn record(hash: u8) -> Record {
    Record {
        hash: ObjectId([hash; 32]),
        message: format!("m{}", hash),
        author: "a".to_string(),
        date: hash as i64,
        root: ObjectId([0; 32]),
    }
}

#[test]
fn the_difference_of_record_lists_is_by_fingerprint() {
    let server = vec![record(1), record(2), record(3)];
    let local = vec![record(3), record(4)];
    let wanted = records_lacking_in(&server, &record_ids(&local));
    let given = records_lacking_in(&local, &record_ids(&server));
    assert_eq!(wanted.iter().map(|r| r.date).collect::<Vec<_>>(), vec![1, 2]);
    assert_eq!(given.iter().map(|r| r.date).collect::<Vec<_>>(), vec![4]);
    assert!(contains_id(&record_ids(&server), &ObjectId([2; 32])));
    assert!(!contains_id(&record_ids(&server), &ObjectId([4; 32])));
    let repo = {
        let mut r = side("s", vec![]);
        r.records = local;
        r
    };
    let (w, g) = wsvc::cli::transport::sync_records(&repo, &server);
    assert_eq!(w.len(), 2);
    assert_eq!(g.len(), 1);
}

#[test]
fn marks_are_one_for_wanted_and_two_for_offered() {
    let marked = tag_records(&vec![record(1), record(2)], &vec![record(3)]);
    assert_eq!(marked.iter().map(|m| m.state).collect::<Vec<_>>(), vec![1, 1, 2]);
    assert_eq!(marked[2].record.date, 3);
    assert_eq!(records_marked(&marked, 1).len(), 2);
    assert_eq!(records_marked(&marked, 2)[0].date, 3);
    assert_eq!(records_marked(&marked, 0).len(), 0);
    let (wanted, given) = wsvc::server::sync_records(&marked);
    assert_eq!(wanted.len(), 2);
    assert_eq!(given.len(), 1);

    let tree = |n: u8| Tree { name: format!("t{}", n), hash: ObjectId([n; 32]), trees: vec![], blobs: vec![] };
    let trees = tag_trees(&vec![tree(1)], &vec![tree(2), tree(3)]);
    assert_eq!(trees.iter().map(|m| m.state).collect::<Vec<_>>(), vec![1, 2, 2]);
    assert_eq!(trees_marked(&trees, 2).len(), 2);
    assert_eq!(trees_lacking_in(&vec![tree(1), tree(2)], &vec![ObjectId([2; 32])]).len(), 1);

    let blob = |n: u8| Blob { name: format!("b{}", n), hash: ObjectId([n; 32]) };
    let blobs = tag_blobs(&vec![], &vec![blob(7)]);
    assert_eq!(blobs.len(), 1);
    assert_eq!(blobs[0].state, 2);
    assert_eq!(blobs_marked(&blobs, 1).len(), 0);
    assert_eq!(blobs_new_in(&vec![blob(1), blob(2)], &vec![]).len(), 2);
}
