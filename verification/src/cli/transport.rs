//! The initiator's side of a synchronization: it compares what the
//! responder lists with its own store, answers each round with what it wants
//! and what it offers, takes in the files it wanted, and hands out the files
//! it offered.

use vstd::prelude::*;
use crate::exchange::{
    blobs_of_trees, first_fault, outgoing, reached_trees, trees_of_records, with_received,
    with_temp,
};
use crate::fs::store::{blob_keys, record_keys, tree_keys};
use crate::fs::{released, RepoGuard, WsvcFsErrorView};
use crate::model::{
    Blob, BlobView, Record, RecordView, Repository, RepositoryView, TempFile, Tree, TreeView,
};
use crate::packet::{is_blob_name, is_fingerprint_name};
use crate::sync::{
    blobs_new, blobs_new_in, blobs_tagged, entry_keys, file_messages_of, files_as_messages,
    id_views, named_blob_ids, named_blobs, record_ids, records_lacking, records_lacking_in,
    records_tagged, stored_ids, tag_blobs, tag_records, tag_trees, tree_ids, trees_lacking,
    trees_lacking_in, trees_tagged, Phase, SyncMessage, SyncMessageView, SyncSession,
    SyncSessionView,
};
use crate::{WsvcError, WsvcErrorView};

verus! {

/// The snapshots that the initiator wants: those of the responder that it
/// does not have.
pub open spec fn wanted_records(repo: RepositoryView, server: Seq<RecordView>) -> Seq<RecordView> {
    records_lacking(server, record_keys(repo.records))
}

/// The snapshots that the initiator offers: its own that the responder does
/// not have.
pub open spec fn given_records(repo: RepositoryView, server: Seq<RecordView>) -> Seq<RecordView> {
    records_lacking(repo.records, record_keys(server))
}

/// The directories that the initiator wants: those listed that it does not have.
pub open spec fn wanted_trees(repo: RepositoryView, server: Seq<TreeView>) -> Seq<TreeView> {
    trees_lacking(server, tree_keys(repo.trees))
}

/// The directories that the initiator offers: those that its offered
/// snapshots reach and that are not listed.
pub open spec fn given_trees(repo: RepositoryView, server: Seq<TreeView>, given: Seq<RecordView>)
    -> Result<Seq<TreeView>, WsvcFsErrorView> {
    match trees_of_records(repo, given) {
        Err(e) => Err(e),
        Ok(local) => Ok(trees_lacking(local, tree_keys(server))),
    }
}

/// The file contents that the initiator wants: those listed that it does
/// not have, each once.
pub open spec fn wanted_blobs(repo: RepositoryView, server: Seq<BlobView>) -> Seq<BlobView> {
    blobs_new(server, blob_keys(repo.objects))
}

/// The snapshots that both sides have: the initiator's own that it does not
/// offer.
pub open spec fn shared_records(repo: RepositoryView, given: Seq<RecordView>) -> Seq<RecordView> {
    records_lacking(repo.records, record_keys(given))
}

/// The file contents that the responder holds, as far as the initiator can
/// tell: those named by the directories that the shared snapshots reach in
/// the initiator's own store, and those named by the directories that the
/// responder has listed.
pub open spec fn held_by_responder(
    repo: RepositoryView,
    given: Seq<RecordView>,
    listed: Seq<TreeView>,
) -> Seq<Seq<u8>> {
    entry_keys(named_blobs(reached_trees(repo, shared_records(repo, given)))) + entry_keys(
        named_blobs(listed),
    )
}

/// The file contents that the initiator offers: those named by its offered
/// directories that the responder does not hold, each once.
pub open spec fn given_blobs(
    repo: RepositoryView,
    given_trees: Seq<TreeView>,
    given_records: Seq<RecordView>,
    listed: Seq<TreeView>,
) -> Result<Seq<BlobView>, WsvcFsErrorView> {
    match blobs_of_trees(repo, given_trees) {
        Err(e) => Err(e),
        Ok(local) => Ok(blobs_new(local, held_by_responder(repo, given_records, listed))),
    }
}

/// What a step of a side leads to: what it sends, or the error that ends
/// the session, and the session and the repository afterwards.
pub struct StepView {
    pub reply: Result<Seq<SyncMessageView>, WsvcErrorView>,
    pub session: SyncSessionView,
    pub repo: RepositoryView,
}

/// A step that fails: the session is over and the repository is given up.
/// The store is as it was.
pub open spec fn failed(repo: RepositoryView, session: SyncSessionView, e: WsvcErrorView)
    -> StepView {
    StepView {
        reply: Err(e),
        session: SyncSessionView { phase: Phase::Done, ..session },
        repo: released(repo),
    }
}

/// The end of the initiator's session: the files that came are checked
/// first, so that one that is not what its name says fails the session as
/// such; then the offered files go out, and the files that came are stored,
/// after them the wanted directories and the wanted snapshots.
pub open spec fn initiator_end(
    repo: RepositoryView,
    session: SyncSessionView,
    first: Seq<SyncMessageView>,
) -> StepView {
    match first_fault(repo, session.wanted_blobs) {
        Some(e) => failed(repo, session, e),
        None => match outgoing(repo, session.given_blobs) {
            Err(e) => failed(repo, session, WsvcErrorView::FsError(e)),
            Ok(files) => StepView {
                reply: Ok(first + file_messages_of(files)),
                session: SyncSessionView { phase: Phase::Done, ..session },
                repo: released(
                    with_received(
                        repo,
                        session.wanted_blobs,
                        session.wanted_trees,
                        session.wanted_records,
                    ),
                ),
            },
        },
    }
}

/// What the initiator does with a message of the responder. A file is taken
/// into the working area only under the hexadecimal form of a fingerprint:
/// one of another name ends the session, and is not kept.
pub open spec fn initiator_step(
    repo: RepositoryView,
    session: SyncSessionView,
    message: SyncMessageView,
) -> StepView {
    match (session.phase, message) {
        (Phase::Records, SyncMessageView::Records(server)) => {
            let wanted = wanted_records(repo, server);
            let given = given_records(repo, server);
            StepView {
                reply: Ok(
                    seq![
                        SyncMessageView::RecordDiff(
                            records_tagged(wanted, 1) + records_tagged(given, 2),
                        ),
                    ],
                ),
                session: SyncSessionView {
                    phase: Phase::Trees,
                    wanted_records: wanted,
                    given_records: given,
                    ..session
                },
                repo,
            }
        },
        (Phase::Trees, SyncMessageView::Trees(server)) => {
            match given_trees(repo, server, session.given_records) {
                Err(e) => failed(repo, session, WsvcErrorView::FsError(e)),
                Ok(given) => {
                    let wanted = wanted_trees(repo, server);
                    StepView {
                        reply: Ok(
                            seq![
                                SyncMessageView::TreeDiff(
                                    trees_tagged(wanted, 1) + trees_tagged(given, 2),
                                ),
                            ],
                        ),
                        session: SyncSessionView {
                            phase: Phase::Blobs,
                            listed_trees: server,
                            wanted_trees: wanted,
                            given_trees: given,
                            ..session
                        },
                        repo,
                    }
                },
            }
        },
        (Phase::Blobs, SyncMessageView::Blobs(server)) => {
            match given_blobs(
                repo,
                session.given_trees,
                session.given_records,
                session.listed_trees,
            ) {
                Err(e) => failed(repo, session, WsvcErrorView::FsError(e)),
                Ok(given) => {
                    let wanted = wanted_blobs(repo, server);
                    let answer = seq![
                        SyncMessageView::BlobDiff(blobs_tagged(wanted, 1) + blobs_tagged(given, 2)),
                    ];
                    let next = SyncSessionView {
                        phase: Phase::Files,
                        wanted_blobs: wanted,
                        given_blobs: given,
                        files_left: wanted.len() as usize,
                        ..session
                    };
                    if wanted.len() == 0 {
                        initiator_end(repo, next, answer)
                    } else {
                        StepView { reply: Ok(answer), session: next, repo }
                    }
                },
            }
        },
        (Phase::Files, SyncMessageView::File(file)) => {
            let holding = RepositoryView { temp: with_temp(repo.temp, file), ..repo };
            if !is_blob_name(file.name) {
                failed(repo, session, WsvcErrorView::DataError("invalid file name"@))
            } else if session.files_left > 1 {
                StepView {
                    reply: Ok(Seq::empty()),
                    session: SyncSessionView {
                        files_left: (session.files_left - 1) as usize,
                        ..session
                    },
                    repo: holding,
                }
            } else {
                initiator_end(holding, session, Seq::empty())
            }
        },
        _ => failed(repo, session, WsvcErrorView::DataError("unexpected packet"@)),
    }
}

/// The result `r`, the session and the repository are what a step led to.
pub open spec fn step_matches(
    step: StepView,
    r: Result<Vec<SyncMessage>, WsvcError>,
    session: SyncSessionView,
    repo: RepositoryView,
) -> bool {
    &&& session == step.session
    &&& repo == step.repo
    &&& match r {
        Ok(messages) => step.reply == Ok::<Seq<SyncMessageView>, WsvcErrorView>(
            messages.deep_view(),
        ),
        Err(e) => step.reply == Err::<Seq<SyncMessageView>, WsvcErrorView>(e@),
    }
}

/// First round: which snapshots the initiator wants and which it offers,
/// given the responder's.
pub fn sync_records(repo: &Repository, server_records: &Vec<Record>) -> (r: (
    Vec<Record>,
    Vec<Record>,
))
    ensures
        r.0.deep_view() == wanted_records(repo@, server_records.deep_view()),
        r.1.deep_view() == given_records(repo@, server_records.deep_view()),
{
    let local_ids = record_ids(&repo.records);
    let server_ids = record_ids(server_records);
    let wanted = records_lacking_in(server_records, &local_ids);
    let given = records_lacking_in(&repo.records, &server_ids);
    (wanted, given)
}

/// Second round: which directories the initiator wants and which it
/// offers, given those that the responder lists and the snapshots offered.
pub fn sync_trees(repo: &Repository, server_trees: &Vec<Tree>, given_records: &Vec<Record>) -> (r:
    Result<(Vec<Tree>, Vec<Tree>), WsvcError>)
    ensures
        match r {
            Ok((wanted, given)) => {
                &&& wanted.deep_view() == wanted_trees(repo@, server_trees.deep_view())
                &&& given_trees(repo@, server_trees.deep_view(), given_records.deep_view()) == Ok::<
                    Seq<TreeView>,
                    WsvcFsErrorView,
                >(given.deep_view())
            },
            Err(e) => exists|fault: WsvcFsErrorView|
                e@ == WsvcErrorView::FsError(fault) && given_trees(
                    repo@,
                    server_trees.deep_view(),
                    given_records.deep_view(),
                ) == Err::<Seq<TreeView>, WsvcFsErrorView>(fault),
        },
{
    let local = match repo.trees_of_records(given_records) {
        Ok(local) => local,
        Err(e) => {
            return Err(WsvcError::FsError(e));
        },
    };
    let local_ids = tree_ids(&repo.trees);
    let server_ids = tree_ids(server_trees);
    let wanted = trees_lacking_in(server_trees, &local_ids);
    let given = trees_lacking_in(&local, &server_ids);
    Ok((wanted, given))
}

/// Third round: which file contents the initiator wants and which it
/// offers. Wanted are the listed entries that it does not have. Offered are
/// the contents of the offered directories that the responder does not hold:
/// it holds what the directories name that it has listed, and what the
/// snapshots reach that both sides have. Each content is named once.
pub fn sync_blobs_meta(
    repo: &Repository,
    server_blobs: &Vec<Blob>,
    given_trees: &Vec<Tree>,
    given_records: &Vec<Record>,
    listed_trees: &Vec<Tree>,
) -> (r: Result<(Vec<Blob>, Vec<Blob>), WsvcError>)
    ensures
        match r {
            Ok((wanted, given)) => {
                &&& wanted.deep_view() == wanted_blobs(repo@, server_blobs.deep_view())
                &&& given_blobs(
                    repo@,
                    given_trees.deep_view(),
                    given_records.deep_view(),
                    listed_trees.deep_view(),
                ) == Ok::<Seq<BlobView>, WsvcFsErrorView>(given.deep_view())
            },
            Err(e) => exists|fault: WsvcFsErrorView|
                e@ == WsvcErrorView::FsError(fault) && given_blobs(
                    repo@,
                    given_trees.deep_view(),
                    given_records.deep_view(),
                    listed_trees.deep_view(),
                ) == Err::<Seq<BlobView>, WsvcFsErrorView>(fault),
        },
{
    let local = match repo.blobs_of_trees(given_trees) {
        Ok(local) => local,
        Err(e) => {
            return Err(WsvcError::FsError(e));
        },
    };
    let shared = records_lacking_in(&repo.records, &record_ids(given_records));
    let shared_trees = repo.reached_trees(&shared);
    let mut held = named_blob_ids(&shared_trees);
    let listed = named_blob_ids(listed_trees);
    let ghost first = id_views(held@);
    let mut i: usize = 0;
    while i < listed.len()
        invariant
            i <= listed@.len(),
            id_views(held@) == first + id_views(listed@).take(i as int),
        decreases listed@.len() - i,
    {
        let ghost so_far = id_views(held@);
        held.push(listed[i]);
        assert(id_views(held@) =~= so_far.push(listed@[i as int]@));
        assert(id_views(listed@).take(i + 1) =~= id_views(listed@).take(i as int).push(
            listed@[i as int]@,
        ));
        assert(id_views(held@) =~= first + id_views(listed@).take(i + 1));
        i += 1;
    }
    assert(id_views(listed@).take(i as int) =~= id_views(listed@));
    let local_ids = stored_ids(&repo.objects);
    let wanted = blobs_new_in(server_blobs, &local_ids);
    let given = blobs_new_in(&local, &held);
    Ok((wanted, given))
}

/// Fourth round, once every wanted file has come: the files that came are
/// checked, the offered files are made ready, and the files that came are
/// stored, then the wanted directories and snapshots. A file that has not
/// come or is not what its name says is reported before an offered content
/// that the store lacks. On an error the repository is left as it was.
pub fn sync_blobs(repo: &mut Repository, session: &SyncSession) -> (r: Result<
    Vec<TempFile>,
    WsvcError,
>)
    ensures
        match r {
            Ok(files) => {
                &&& outgoing(old(repo)@, session@.given_blobs) == Ok::<
                    Seq<crate::model::TempFileView>,
                    WsvcFsErrorView,
                >(files.deep_view())
                &&& first_fault(old(repo)@, session@.wanted_blobs) is None
                &&& final(repo)@ == with_received(
                    old(repo)@,
                    session@.wanted_blobs,
                    session@.wanted_trees,
                    session@.wanted_records,
                )
            },
            Err(e) => {
                &&& final(repo)@ == old(repo)@
                &&& match first_fault(old(repo)@, session@.wanted_blobs) {
                    Some(fault) => e@ == fault,
                    None => exists|fault: WsvcFsErrorView|
                        e@ == WsvcErrorView::FsError(fault) && outgoing(
                            old(repo)@,
                            session@.given_blobs,
                        ) == Err::<Seq<crate::model::TempFileView>, WsvcFsErrorView>(fault),
                }
            },
        },
{
    match repo.outgoing_files(&session.given_blobs) {
        Ok(files) => match repo.finish_sync(
            &session.wanted_blobs,
            &session.wanted_trees,
            &session.wanted_records,
        ) {
            Ok(_) => Ok(files),
            Err(e) => Err(e),
        },
        Err(fault) => match repo.check_received(&session.wanted_blobs) {
            Ok(_) => Err(WsvcError::FsError(fault)),
            Err(e) => Err(e),
        },
    }
}

/// Starts the initiator's side: the repository is taken for the session.
/// Fails where another session holds it.
pub fn begin(repo: &mut Repository) -> (r: Result<SyncSession, WsvcError>)
    ensures
        match r {
            Ok(session) => {
                &&& old(repo).may_lock()
                &&& session@ == crate::sync::fresh_session()
                &&& final(repo)@ == crate::fs::acquired(old(repo)@)
            },
            Err(e) => {
                &&& !old(repo).may_lock()
                &&& e@ == WsvcErrorView::FsError(WsvcFsErrorView::WorkspaceLocked)
                &&& final(repo)@ == old(repo)@
            },
        },
{
    match RepoGuard::new(repo) {
        Ok(_) => Ok(SyncSession::new()),
        Err(e) => Err(WsvcError::FsError(e)),
    }
}

fn fail(repo: &mut Repository, session: &mut SyncSession, e: WsvcError) -> (r: Result<
    Vec<SyncMessage>,
    WsvcError,
>)
    ensures
        step_matches(failed(old(repo)@, old(session)@, e@), r, final(session)@, final(repo)@),
{
    session.phase = Phase::Done;
    repo.lock_file = None;
    Err(e)
}

fn end(repo: &mut Repository, session: &mut SyncSession, first: Vec<SyncMessage>) -> (r: Result<
    Vec<SyncMessage>,
    WsvcError,
>)
    ensures
        step_matches(
            initiator_end(old(repo)@, old(session)@, first.deep_view()),
            r,
            final(session)@,
            final(repo)@,
        ),
{
    match sync_blobs(repo, session) {
        Ok(files) => {
            let ghost sent = files.deep_view();
            let mut reply = first;
            let mut tail = files_as_messages(files);
            let ghost head = reply.deep_view();
            let ghost rest = tail.deep_view();
            reply.append(&mut tail);
            assert(reply.deep_view() =~= head + rest);
            session.phase = Phase::Done;
            repo.lock_file = None;
            Ok(reply)
        },
        Err(e) => fail(repo, session, e),
    }
}

/// Takes a message of the responder and says what to send back. An error
/// ends the session. When the session has ended, well or not, the
/// repository is given up.
pub fn sync_impl(repo: &mut Repository, session: &mut SyncSession, message: SyncMessage) -> (r:
    Result<Vec<SyncMessage>, WsvcError>)
    ensures
        step_matches(
            initiator_step(old(repo)@, old(session)@, message@),
            r,
            final(session)@,
            final(repo)@,
        ),
{
    match (session.phase, message) {
        (Phase::Records, SyncMessage::Records(server)) => {
            let (wanted, given) = sync_records(repo, &server);
            let answer = tag_records(&wanted, &given);
            session.wanted_records = wanted;
            session.given_records = given;
            session.phase = Phase::Trees;
            let mut reply: Vec<SyncMessage> = Vec::new();
            reply.push(SyncMessage::RecordDiff(answer));
            assert(reply.deep_view() =~= seq![reply@[0]@]);
            Ok(reply)
        },
        (Phase::Trees, SyncMessage::Trees(server)) => {
            match sync_trees(repo, &server, &session.given_records) {
                Ok((wanted, given)) => {
                    let answer = tag_trees(&wanted, &given);
                    session.listed_trees = server;
                    session.wanted_trees = wanted;
                    session.given_trees = given;
                    session.phase = Phase::Blobs;
                    let mut reply: Vec<SyncMessage> = Vec::new();
                    reply.push(SyncMessage::TreeDiff(answer));
                    assert(reply.deep_view() =~= seq![reply@[0]@]);
                    Ok(reply)
                },
                Err(e) => fail(repo, session, e),
            }
        },
        (Phase::Blobs, SyncMessage::Blobs(server)) => {
            match sync_blobs_meta(
                repo,
                &server,
                &session.given_trees,
                &session.given_records,
                &session.listed_trees,
            ) {
                Ok((wanted, given)) => {
                    let answer = tag_blobs(&wanted, &given);
                    let count = wanted.len();
                    session.wanted_blobs = wanted;
                    session.given_blobs = given;
                    session.files_left = count;
                    session.phase = Phase::Files;
                    let mut reply: Vec<SyncMessage> = Vec::new();
                    reply.push(SyncMessage::BlobDiff(answer));
                    assert(reply.deep_view() =~= seq![reply@[0]@]);
                    if count == 0 {
                        end(repo, session, reply)
                    } else {
                        Ok(reply)
                    }
                },
                Err(e) => fail(repo, session, e),
            }
        },
        (Phase::Files, SyncMessage::File(file)) => {
            if !is_fingerprint_name(file.name.as_slice()) {
                return fail(repo, session, WsvcError::DataError("invalid file name".to_owned()));
            }
            repo.receive_file(file);
            if session.files_left > 1 {
                session.files_left = session.files_left - 1;
                let reply: Vec<SyncMessage> = Vec::new();
                assert(reply.deep_view() =~= Seq::empty());
                Ok(reply)
            } else {
                let first: Vec<SyncMessage> = Vec::new();
                assert(first.deep_view() =~= Seq::empty());
                end(repo, session, first)
            }
        },
        _ => fail(repo, session, WsvcError::DataError("unexpected packet".to_owned())),
    }
}

/// A step that fails leaves the store as it was: no file content, no
/// directory and no snapshot is added, removed or changed. Whatever came
/// over the channel lies in the working area only.
pub proof fn lemma_failed_step_keeps_store(
    repo: RepositoryView,
    session: SyncSessionView,
    message: SyncMessageView,
)
    requires
        initiator_step(repo, session, message).reply is Err,
    ensures
        initiator_step(repo, session, message).repo.objects == repo.objects,
        initiator_step(repo, session, message).repo.trees == repo.trees,
        initiator_step(repo, session, message).repo.records == repo.records,
        initiator_step(repo, session, message).repo.head == repo.head,
        initiator_step(repo, session, message).repo.lock_file is None,
{
}

/// The directory that a clone goes into: the one named, or else what
/// follows the last `/` of the address.
pub open spec fn clone_target(url: Seq<char>, dir: Option<Seq<char>>) -> Seq<char> {
    match dir {
        Some(d) => d,
        None => crate::text::last_segment(url),
    }
}

/// Starts a clone of the repository at `url`: a repository is created in
/// the directory for it under `pwd`, with `url` as its peer. `root_exists`
/// says whether the root of that repository is there already. The
/// synchronization and the checkout of the latest snapshot follow.
pub fn clone(pwd: &str, url: String, dir: Option<String>, root_exists: bool) -> (r: Result<
    Repository,
    WsvcError,
>)
    ensures
        match r {
            Ok(repo) => !root_exists && repo@ == (RepositoryView {
                origin: Some(url@),
                ..crate::fs::empty_repository(
                    crate::fs::root_of(
                        pwd@ + "/"@ + clone_target(url@, dir.deep_view()),
                        false,
                    ),
                    repo@.lock,
                )
            }),
            Err(e) => root_exists && e@ == WsvcErrorView::FsError(
                WsvcFsErrorView::DirAlreadyExists(
                    crate::fs::root_of(
                        pwd@ + "/"@ + clone_target(url@, dir.deep_view()),
                        false,
                    ),
                ),
            ),
        },
{
    let target = match dir {
        Some(d) => d,
        None => crate::text::after_last_slash(url.as_str()),
    };
    let path = crate::text::join3(pwd, "/", target.as_str());
    match Repository::new(path.as_str(), false, root_exists) {
        Ok(repo) => {
            let mut repo = repo;
            repo.write_origin(url);
            Ok(repo)
        },
        Err(e) => Err(WsvcError::FsError(e)),
    }
}

/// Ends the `sync` command once the exchange is over: the repository is
/// given up, and the latest snapshot is reported. `HEAD` stays as it is, and
/// no workspace is touched: only a clone checks out what it has fetched.
///
/// Fails where the store holds no snapshot after the exchange.
pub fn sync(repo: &mut Repository) -> (r: Result<Record, WsvcError>)
    ensures
        final(repo)@ == released(old(repo)@),
        final(repo)@.head == old(repo)@.head,
        match r {
            Ok(record) => crate::fs::history::latest_record(old(repo)@.records) == Some(record@),
            Err(e) => old(repo)@.records.len() == 0 && e@ == WsvcErrorView::EmptyRepoError,
        },
{
    repo.lock_file = None;
    match repo.get_latest_record() {
        Some(record) => Ok(record),
        None => Err(WsvcError::EmptyRepoError),
    }
}

} // verus!
