//! The `commit` command: a snapshot of the workspace, taken while the
//! repository is held.

use vstd::prelude::*;
use crate::fs::commit::{commit_outcome, unix_now};
use crate::fs::workdir::{DirView, WorkDir};
use crate::fs::{acquired, free_for_session, released, RepoGuard, WsvcFsErrorView};
use crate::model::{Record, RecordView, Repository, RepositoryView};
use crate::text::str_eq;
use crate::{WsvcError, WsvcErrorView};

verus! {

/// What the `commit` command leads to: the new snapshot or the error, and
/// the repository afterwards.
///
/// Where another session holds the repository, nothing happens. Else the
/// repository is taken, and given up again whatever follows. A workspace
/// that is the repository's own directory is bad usage. Otherwise the
/// outcome is that of the commit.
pub open spec fn command_outcome(
    repo: RepositoryView,
    workspace: DirView,
    workspace_path: Seq<char>,
    message: Seq<char>,
    author: Seq<char>,
    date: int,
) -> (Result<RecordView, WsvcErrorView>, RepositoryView) {
    if !free_for_session(repo) {
        (Err(WsvcErrorView::FsError(WsvcFsErrorView::WorkspaceLocked)), repo)
    } else if repo.path == workspace_path {
        (
            Err(WsvcErrorView::BadUsage("workspace and repo path can not be the same"@)),
            released(repo),
        )
    } else {
        let done = commit_outcome(acquired(repo), workspace, author, message, date);
        (
            match done.0 {
                Ok(record) => Ok(record),
                Err(e) => Err(WsvcErrorView::FsError(e)),
            },
            released(done.1),
        )
    }
}

/// The result `r` and the state `after` are what the command led to.
pub open spec fn command_matches(
    outcome: (Result<RecordView, WsvcErrorView>, RepositoryView),
    r: Result<Record, WsvcError>,
    after: RepositoryView,
) -> bool {
    &&& after == outcome.1
    &&& match r {
        Ok(record) => outcome.0 == Ok::<RecordView, WsvcErrorView>(record@),
        Err(e) => outcome.0 == Err::<RecordView, WsvcErrorView>(e@),
    }
}

/// Takes a snapshot of the workspace at `workspace_path`, dated with the
/// current time. The outcome is that of [`commit_at`] for some date.
pub fn commit(
    repo: &mut Repository,
    workspace: &WorkDir,
    workspace_path: &str,
    message: &str,
    author: &str,
) -> (r: Result<Record, WsvcError>)
    ensures
        exists|date: i64|
            command_matches(
                command_outcome(
                    old(repo)@,
                    workspace@,
                    workspace_path@,
                    message@,
                    author@,
                    date as int,
                ),
                r,
                final(repo)@,
            ),
{
    let date = unix_now();
    let r = commit_at(repo, workspace, workspace_path, message, author, date);
    assert(command_matches(
        command_outcome(old(repo)@, workspace@, workspace_path@, message@, author@, date as int),
        r,
        repo@,
    ));
    r
}

/// Takes a snapshot of the workspace at `workspace_path`, dated `date`,
/// while holding the repository. The lock file is gone afterwards on every
/// path on which the repository was taken.
pub fn commit_at(
    repo: &mut Repository,
    workspace: &WorkDir,
    workspace_path: &str,
    message: &str,
    author: &str,
    date: i64,
) -> (r: Result<Record, WsvcError>)
    ensures
        command_matches(
            command_outcome(
                old(repo)@,
                workspace@,
                workspace_path@,
                message@,
                author@,
                date as int,
            ),
            r,
            final(repo)@,
        ),
{
    let guard = match RepoGuard::new(repo) {
        Ok(guard) => guard,
        Err(e) => {
            return Err(WsvcError::FsError(e));
        },
    };
    if str_eq(repo.path.as_str(), workspace_path) {
        guard.release(repo);
        return Err(
            WsvcError::BadUsage("workspace and repo path can not be the same".to_owned()),
        );
    }
    let r = repo.commit_record_at(workspace, author, message, date);
    guard.release(repo);
    match r {
        Ok(record) => Ok(record),
        Err(e) => Err(WsvcError::FsError(e)),
    }
}

} // verus!
