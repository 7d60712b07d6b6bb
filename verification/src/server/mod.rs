//! The responder's side of a synchronization: it lists what it has, reads
//! what the initiator wants and offers, hands out the files wanted, and
//! takes in the files offered.

use vstd::prelude::*;
use crate::exchange::{
    blobs_of_trees, first_fault, outgoing, trees_of_records, with_received, with_temp,
};
use crate::fs::{released, RepoGuard, WsvcFsErrorView};
use crate::model::{Blob, Record, Repository, RepositoryView, Tree};
use crate::packet::{is_blob_name, is_fingerprint_name};
use crate::sync::{
    blobs_in_state, blobs_marked, file_messages_of, files_as_messages, records_in_state,
    records_marked, trees_in_state, trees_marked, BlobWithState, Phase, RecordWithState,
    SyncMessage, SyncMessageView, SyncSession, SyncSessionView, TreeWithState, STATE_WANTED,
    STATE_WILL_GIVE,
};
use crate::{WsvcError, WsvcErrorView};

verus! {

/// Errors of the responder.
#[derive(Debug)]
pub enum WsvcServerError {
    /// The engine failed.
    WsvcError(WsvcError),
    /// A message could not be read or written as JSON.
    SerializationError(String),
    /// The channel failed.
    NetworkError(String),
    /// A message of the initiator breaks the protocol.
    DataError(String),
}

/// What a [`WsvcServerError`] holds, with texts as character sequences.
pub enum WsvcServerErrorView {
    WsvcError(WsvcErrorView),
    SerializationError(Seq<char>),
    NetworkError(Seq<char>),
    DataError(Seq<char>),
}

impl View for WsvcServerError {
    type V = WsvcServerErrorView;

    open spec fn view(&self) -> WsvcServerErrorView {
        match self {
            WsvcServerError::WsvcError(e) => WsvcServerErrorView::WsvcError(e@),
            WsvcServerError::SerializationError(m) => WsvcServerErrorView::SerializationError(m@),
            WsvcServerError::NetworkError(m) => WsvcServerErrorView::NetworkError(m@),
            WsvcServerError::DataError(m) => WsvcServerErrorView::DataError(m@),
        }
    }
}

/// What a step of the responder leads to: what it sends, or the error that
/// ends the session, and the session and the repository afterwards.
pub struct ServerStepView {
    pub reply: Result<Seq<SyncMessageView>, WsvcServerErrorView>,
    pub session: SyncSessionView,
    pub repo: RepositoryView,
}

/// A step that fails: the session is over and the repository is given up.
/// The store is as it was.
pub open spec fn server_failed(
    repo: RepositoryView,
    session: SyncSessionView,
    e: WsvcServerErrorView,
) -> ServerStepView {
    ServerStepView {
        reply: Err(e),
        session: SyncSessionView { phase: Phase::Done, ..session },
        repo: released(repo),
    }
}

/// An error of the store, as the responder reports it.
pub open spec fn store_error(e: WsvcFsErrorView) -> WsvcServerErrorView {
    WsvcServerErrorView::WsvcError(WsvcErrorView::FsError(e))
}

/// The end of the responder's session: the files that came are checked and
/// stored, then the offered directories, then the offered snapshots.
pub open spec fn responder_end(
    repo: RepositoryView,
    session: SyncSessionView,
    reply: Seq<SyncMessageView>,
) -> ServerStepView {
    match first_fault(repo, session.given_blobs) {
        Some(e) => server_failed(repo, session, WsvcServerErrorView::WsvcError(e)),
        None => ServerStepView {
            reply: Ok(reply),
            session: SyncSessionView { phase: Phase::Done, ..session },
            repo: released(
                with_received(
                    repo,
                    session.given_blobs,
                    session.given_trees,
                    session.given_records,
                ),
            ),
        },
    }
}

/// What the responder does with a message of the initiator. A file is taken
/// into the working area only under the hexadecimal form of a fingerprint:
/// one of another name ends the session, and is not kept.
pub open spec fn responder_step(
    repo: RepositoryView,
    session: SyncSessionView,
    message: SyncMessageView,
) -> ServerStepView {
    match (session.phase, message) {
        (Phase::Records, SyncMessageView::RecordDiff(marked)) => {
            let wanted = records_in_state(marked, 1);
            let given = records_in_state(marked, 2);
            match trees_of_records(repo, wanted) {
                Err(e) => server_failed(repo, session, store_error(e)),
                Ok(trees) => ServerStepView {
                    reply: Ok(seq![SyncMessageView::Trees(trees)]),
                    session: SyncSessionView {
                        phase: Phase::Trees,
                        wanted_records: wanted,
                        given_records: given,
                        listed_trees: trees,
                        ..session
                    },
                    repo,
                },
            }
        },
        (Phase::Trees, SyncMessageView::TreeDiff(marked)) => {
            let wanted = trees_in_state(marked, 1);
            let given = trees_in_state(marked, 2);
            match blobs_of_trees(repo, wanted) {
                Err(e) => server_failed(repo, session, store_error(e)),
                Ok(blobs) => ServerStepView {
                    reply: Ok(seq![SyncMessageView::Blobs(blobs)]),
                    session: SyncSessionView {
                        phase: Phase::Blobs,
                        wanted_trees: wanted,
                        given_trees: given,
                        ..session
                    },
                    repo,
                },
            }
        },
        (Phase::Blobs, SyncMessageView::BlobDiff(marked)) => {
            let wanted = blobs_in_state(marked, 1);
            let given = blobs_in_state(marked, 2);
            match outgoing(repo, wanted) {
                Err(e) => server_failed(repo, session, store_error(e)),
                Ok(files) => {
                    let next = SyncSessionView {
                        phase: Phase::Files,
                        wanted_blobs: wanted,
                        given_blobs: given,
                        files_left: given.len() as usize,
                        ..session
                    };
                    if given.len() == 0 {
                        responder_end(repo, next, file_messages_of(files))
                    } else {
                        ServerStepView {
                            reply: Ok(file_messages_of(files)),
                            session: next,
                            repo,
                        }
                    }
                },
            }
        },
        (Phase::Files, SyncMessageView::File(file)) => {
            let holding = RepositoryView { temp: with_temp(repo.temp, file), ..repo };
            if !is_blob_name(file.name) {
                server_failed(
                    repo,
                    session,
                    WsvcServerErrorView::DataError("invalid file name"@),
                )
            } else if session.files_left > 1 {
                ServerStepView {
                    reply: Ok(Seq::empty()),
                    session: SyncSessionView {
                        files_left: (session.files_left - 1) as usize,
                        ..session
                    },
                    repo: holding,
                }
            } else {
                responder_end(holding, session, Seq::empty())
            }
        },
        _ => server_failed(
            repo,
            session,
            WsvcServerErrorView::DataError("unexpected packet"@),
        ),
    }
}

/// The result `r`, the session and the repository are what a step led to.
pub open spec fn server_step_matches(
    step: ServerStepView,
    r: Result<Vec<SyncMessage>, WsvcServerError>,
    session: SyncSessionView,
    repo: RepositoryView,
) -> bool {
    &&& session == step.session
    &&& repo == step.repo
    &&& match r {
        Ok(messages) => step.reply == Ok::<Seq<SyncMessageView>, WsvcServerErrorView>(
            messages.deep_view(),
        ),
        Err(e) => step.reply == Err::<Seq<SyncMessageView>, WsvcServerErrorView>(e@),
    }
}

/// First round: the snapshots that the responder lists, and what the
/// initiator's answer says: the snapshots wanted and those offered.
pub fn sync_records(marked: &Vec<RecordWithState>) -> (r: (Vec<Record>, Vec<Record>))
    ensures
        r.0.deep_view() == records_in_state(marked.deep_view(), 1),
        r.1.deep_view() == records_in_state(marked.deep_view(), 2),
{
    (records_marked(marked, STATE_WANTED), records_marked(marked, STATE_WILL_GIVE))
}

/// Second round: what the initiator's answer says of the directories.
pub fn sync_trees(marked: &Vec<TreeWithState>) -> (r: (Vec<Tree>, Vec<Tree>))
    ensures
        r.0.deep_view() == trees_in_state(marked.deep_view(), 1),
        r.1.deep_view() == trees_in_state(marked.deep_view(), 2),
{
    (trees_marked(marked, STATE_WANTED), trees_marked(marked, STATE_WILL_GIVE))
}

/// Third round: what the initiator's answer says of the file contents.
pub fn sync_blobs_meta(marked: &Vec<BlobWithState>) -> (r: (Vec<Blob>, Vec<Blob>))
    ensures
        r.0.deep_view() == blobs_in_state(marked.deep_view(), 1),
        r.1.deep_view() == blobs_in_state(marked.deep_view(), 2),
{
    (blobs_marked(marked, STATE_WANTED), blobs_marked(marked, STATE_WILL_GIVE))
}

/// Fourth round, once every offered file has come: the files are checked
/// and stored, then the offered directories and snapshots. On an error the
/// repository is left as it was.
pub fn sync_blobs(repo: &mut Repository, session: &SyncSession) -> (r: Result<(), WsvcError>)
    ensures
        match r {
            Ok(_) => {
                &&& first_fault(old(repo)@, session@.given_blobs) is None
                &&& final(repo)@ == with_received(
                    old(repo)@,
                    session@.given_blobs,
                    session@.given_trees,
                    session@.given_records,
                )
            },
            Err(e) => {
                &&& first_fault(old(repo)@, session@.given_blobs) == Some(e@)
                &&& final(repo)@ == old(repo)@
            },
        },
{
    repo.finish_sync(&session.given_blobs, &session.given_trees, &session.given_records)
}

/// Starts the responder's side: the repository is taken for the session,
/// and its snapshots are listed for the initiator. Fails where another
/// session holds the repository.
pub fn begin(repo: &mut Repository) -> (r: Result<(SyncSession, Vec<SyncMessage>), WsvcServerError>)
    ensures
        match r {
            Ok((session, messages)) => {
                &&& old(repo).may_lock()
                &&& session@ == crate::sync::fresh_session()
                &&& messages.deep_view() == seq![SyncMessageView::Records(old(repo)@.records)]
                &&& final(repo)@ == crate::fs::acquired(old(repo)@)
            },
            Err(e) => {
                &&& !old(repo).may_lock()
                &&& e@ == store_error(WsvcFsErrorView::WorkspaceLocked)
                &&& final(repo)@ == old(repo)@
            },
        },
{
    match RepoGuard::new(repo) {
        Ok(_) => {
            let mut messages: Vec<SyncMessage> = Vec::new();
            messages.push(SyncMessage::Records(repo.get_records()));
            assert(messages.deep_view() =~= seq![messages@[0]@]);
            Ok((SyncSession::new(), messages))
        },
        Err(e) => Err(WsvcServerError::WsvcError(WsvcError::FsError(e))),
    }
}

fn fail(repo: &mut Repository, session: &mut SyncSession, e: WsvcServerError) -> (r: Result<
    Vec<SyncMessage>,
    WsvcServerError,
>)
    ensures
        server_step_matches(
            server_failed(old(repo)@, old(session)@, e@),
            r,
            final(session)@,
            final(repo)@,
        ),
{
    session.phase = Phase::Done;
    repo.lock_file = None;
    Err(e)
}

fn end(repo: &mut Repository, session: &mut SyncSession, reply: Vec<SyncMessage>) -> (r: Result<
    Vec<SyncMessage>,
    WsvcServerError,
>)
    ensures
        server_step_matches(
            responder_end(old(repo)@, old(session)@, reply.deep_view()),
            r,
            final(session)@,
            final(repo)@,
        ),
{
    match sync_blobs(repo, session) {
        Ok(_) => {
            session.phase = Phase::Done;
            repo.lock_file = None;
            Ok(reply)
        },
        Err(e) => fail(repo, session, WsvcServerError::WsvcError(e)),
    }
}

/// Takes a message of the initiator and says what to send back. An error
/// ends the session. When the session has ended, well or not, the
/// repository is given up.
pub fn sync_with(repo: &mut Repository, session: &mut SyncSession, message: SyncMessage) -> (r:
    Result<Vec<SyncMessage>, WsvcServerError>)
    ensures
        server_step_matches(
            responder_step(old(repo)@, old(session)@, message@),
            r,
            final(session)@,
            final(repo)@,
        ),
{
    match (session.phase, message) {
        (Phase::Records, SyncMessage::RecordDiff(marked)) => {
            let (wanted, given) = sync_records(&marked);
            match repo.trees_of_records(&wanted) {
                Ok(trees) => {
                    session.wanted_records = wanted;
                    session.given_records = given;
                    session.listed_trees = crate::model::clone_trees(&trees);
                    session.phase = Phase::Trees;
                    let mut reply: Vec<SyncMessage> = Vec::new();
                    reply.push(SyncMessage::Trees(trees));
                    assert(reply.deep_view() =~= seq![reply@[0]@]);
                    Ok(reply)
                },
                Err(e) => fail(repo, session, WsvcServerError::WsvcError(WsvcError::FsError(e))),
            }
        },
        (Phase::Trees, SyncMessage::TreeDiff(marked)) => {
            let (wanted, given) = sync_trees(&marked);
            match repo.blobs_of_trees(&wanted) {
                Ok(blobs) => {
                    session.wanted_trees = wanted;
                    session.given_trees = given;
                    session.phase = Phase::Blobs;
                    let mut reply: Vec<SyncMessage> = Vec::new();
                    reply.push(SyncMessage::Blobs(blobs));
                    assert(reply.deep_view() =~= seq![reply@[0]@]);
                    Ok(reply)
                },
                Err(e) => fail(repo, session, WsvcServerError::WsvcError(WsvcError::FsError(e))),
            }
        },
        (Phase::Blobs, SyncMessage::BlobDiff(marked)) => {
            let (wanted, given) = sync_blobs_meta(&marked);
            match repo.outgoing_files(&wanted) {
                Ok(files) => {
                    let reply = files_as_messages(files);
                    let count = given.len();
                    session.wanted_blobs = wanted;
                    session.given_blobs = given;
                    session.files_left = count;
                    session.phase = Phase::Files;
                    if count == 0 {
                        end(repo, session, reply)
                    } else {
                        Ok(reply)
                    }
                },
                Err(e) => fail(repo, session, WsvcServerError::WsvcError(WsvcError::FsError(e))),
            }
        },
        (Phase::Files, SyncMessage::File(file)) => {
            if !is_fingerprint_name(file.name.as_slice()) {
                return fail(
                    repo,
                    session,
                    WsvcServerError::DataError("invalid file name".to_owned()),
                );
            }
            repo.receive_file(file);
            let reply: Vec<SyncMessage> = Vec::new();
            assert(reply.deep_view() =~= Seq::empty());
            if session.files_left > 1 {
                session.files_left = session.files_left - 1;
                Ok(reply)
            } else {
                end(repo, session, reply)
            }
        },
        _ => fail(repo, session, WsvcServerError::DataError("unexpected packet".to_owned())),
    }
}

/// A step that fails leaves the store as it was: no file content, no
/// directory and no snapshot is added, removed or changed. Whatever came
/// over the channel lies in the working area only.
pub proof fn lemma_failed_step_keeps_store(
    repo: RepositoryView,
    session: SyncSessionView,
    message: SyncMessageView,
)
    requires
        responder_step(repo, session, message).reply is Err,
    ensures
        responder_step(repo, session, message).repo.objects == repo.objects,
        responder_step(repo, session, message).repo.trees == repo.trees,
        responder_step(repo, session, message).repo.records == repo.records,
        responder_step(repo, session, message).repo.head == repo.head,
        responder_step(repo, session, message).repo.lock_file is None,
{
}

} // verus!
