//! The `checkout` command: which snapshot is meant, the backup before it,
//! and the checkout itself, all while the repository is held.

use vstd::prelude::*;
use crate::cli::config::{Config, ConfigView};
use crate::fs::checkout::checkout_outcome;
use crate::fs::commit::{commit_outcome, unix_now};
use crate::fs::history::latest_record;
use crate::fs::workdir::{DirView, WorkDir};
use crate::fs::{acquired, free_for_session, released, RepoGuard, WsvcFsErrorView};
use crate::hex::hex_string;
use crate::model::{Record, RecordView, Repository, RepositoryView};
use crate::text::{join2, lowered, starts, starts_with, str_eq, to_lower};
use crate::{WsvcError, WsvcErrorView};

verus! {

/// Those of `records` whose hexadecimal fingerprint starts with `prefix`, in order.
pub open spec fn matching_records(records: Seq<RecordView>, prefix: Seq<char>) -> Seq<RecordView>
    decreases records.len(),
{
    if records.len() == 0 {
        Seq::empty()
    } else if starts(hex_string(records.last().hash), prefix) {
        matching_records(records.drop_last(), prefix).push(records.last())
    } else {
        matching_records(records.drop_last(), prefix)
    }
}

/// The snapshot that a prefix means, read without regard to case: the one
/// stored snapshot whose fingerprint starts with it. None and several are
/// bad usage.
pub open spec fn record_by_prefix(records: Seq<RecordView>, prefix: Seq<char>) -> Result<
    RecordView,
    WsvcErrorView,
> {
    let found = matching_records(records, lowered(prefix));
    if found.len() == 0 {
        Err(WsvcErrorView::BadUsage("no record found for hash "@ + lowered(prefix)))
    } else if found.len() > 1 {
        Err(WsvcErrorView::BadUsage("more than one record found for hash "@ + lowered(prefix)))
    } else {
        Ok(found[0])
    }
}

/// The snapshot that the command means: the one that the prefix names, or
/// the latest where no prefix is given. A repository without snapshots is bad
/// usage.
pub open spec fn selected_record(records: Seq<RecordView>, hash: Option<Seq<char>>) -> Result<
    RecordView,
    WsvcErrorView,
> {
    match hash {
        Some(prefix) => record_by_prefix(records, prefix),
        None => match latest_record(records) {
            Some(record) => Ok(record),
            None => Err(WsvcErrorView::BadUsage("no record found"@)),
        },
    }
}

/// The hint given where the user has not said whether a checkout may take a
/// backup first.
pub open spec fn backup_hint() -> Seq<char> {
    "wsvc can't keep current workspace changes when you checkout to record.\n\ntips: you must `wsvc config set commit.auto_record [true/false]` to determine whether auto commit changes when checkout, if it set to false, unsaved changes will be abandoned."@
}

/// Whether the configuration asks for a backup before a checkout, if it says.
pub open spec fn auto_record(config: Option<ConfigView>) -> Option<bool> {
    match config {
        Some(c) => match c.commit {
            Some(commit) => commit.auto_record,
            None => None,
        },
        None => None,
    }
}

/// The author under which a backup is taken.
pub open spec fn backup_author(config: Option<ConfigView>) -> Seq<char> {
    match config {
        Some(c) => match c.commit {
            Some(commit) => match commit.author {
                Some(author) => author + " BACKUP"@,
                None => "DEFAULT BACKUP"@,
            },
            None => "DEFAULT BACKUP"@,
        },
        None => "DEFAULT BACKUP"@,
    }
}

/// The repository after the backup that a checkout takes first, if it takes one.
pub open spec fn after_backup(
    repo: RepositoryView,
    workspace: DirView,
    config: Option<ConfigView>,
    date: int,
) -> RepositoryView {
    if auto_record(config) == Some(true) {
        commit_outcome(
            repo,
            workspace,
            backup_author(config),
            "auto backup by checkout"@,
            date,
        ).1
    } else {
        repo
    }
}

/// The snapshot that the backup of a checkout wrote, if it wrote one.
pub open spec fn backup_record(
    repo: RepositoryView,
    workspace: DirView,
    config: Option<ConfigView>,
    date: int,
) -> Option<RecordView> {
    if auto_record(config) == Some(true) {
        match commit_outcome(
            repo,
            workspace,
            backup_author(config),
            "auto backup by checkout"@,
            date,
        ).0 {
            Ok(record) => Some(record),
            Err(_) => None,
        }
    } else {
        None
    }
}

/// What a checkout reports: the backup that was taken first, if one was,
/// and the snapshot that was checked out.
#[derive(Debug)]
pub struct CheckoutReport {
    pub backup: Option<Record>,
    pub record: Record,
}

/// The snapshot that the command means.
///
/// With a prefix, the one stored snapshot whose hexadecimal fingerprint
/// starts with it, without regard to case; none or several are bad usage.
/// Without a prefix, the latest snapshot; none is bad usage.
pub fn select_record(repo: &Repository, hash: &Option<String>) -> (r: Result<Record, WsvcError>)
    ensures
        match r {
            Ok(record) => selected_record(repo@.records, hash.deep_view()) == Ok::<
                RecordView,
                WsvcErrorView,
            >(record@),
            Err(e) => selected_record(repo@.records, hash.deep_view()) == Err::<
                RecordView,
                WsvcErrorView,
            >(e@),
        },
{
    match hash {
        None => match repo.get_latest_record() {
            Some(record) => Ok(record),
            None => Err(WsvcError::BadUsage("no record found".to_owned())),
        },
        Some(prefix) => {
            let low = to_lower(prefix.as_str());
            let found = find_matching(repo, low.as_str());
            if found.len() == 0 {
                Err(WsvcError::BadUsage(join2("no record found for hash ", low.as_str())))
            } else if found.len() > 1 {
                Err(
                    WsvcError::BadUsage(
                        join2("more than one record found for hash ", low.as_str()),
                    ),
                )
            } else {
                Ok(found[0].clone())
            }
        },
    }
}

/// The stored snapshots whose hexadecimal fingerprint starts with `prefix`.
pub fn find_matching(repo: &Repository, prefix: &str) -> (found: Vec<Record>)
    ensures
        found.deep_view() == matching_records(repo@.records, prefix@),
{
    let ghost all = repo@.records;
    let mut found: Vec<Record> = Vec::new();
    let mut i: usize = 0;
    assert(all.take(0) =~= Seq::empty());
    assert(found.deep_view() =~= Seq::empty());
    while i < repo.records.len()
        invariant
            i <= repo.records@.len(),
            all == repo.records.deep_view(),
            found.deep_view() == matching_records(all.take(i as int), prefix@),
        decreases repo.records@.len() - i,
    {
        let ghost before = found.deep_view();
        assert(all.take(i + 1).drop_last() =~= all.take(i as int));
        assert(all.take(i + 1).last() == repo.records@[i as int]@);
        let hex = repo.records[i].hash.to_hex();
        if starts_with(hex.as_str(), prefix) {
            found.push(repo.records[i].clone());
            assert(found.deep_view() =~= before.push(repo.records@[i as int]@));
        }
        i += 1;
    }
    assert(all.take(i as int) =~= all);
    found
}

/// What selecting a snapshot and checking it out leads to: the snapshot,
/// the workspace and the repository afterwards, or the error.
pub open spec fn restore_outcome(
    repo: RepositoryView,
    workspace: DirView,
    hash: Option<Seq<char>>,
) -> Result<(RecordView, DirView, RepositoryView), WsvcErrorView> {
    match selected_record(repo.records, hash) {
        Err(e) => Err(e),
        Ok(record) => match checkout_outcome(repo, record.hash, workspace) {
            Err(e) => Err(WsvcErrorView::FsError(e)),
            Ok(done) => Ok(done),
        },
    }
}

/// What the command reports, the workspace and the repository afterwards.
pub struct CommandView {
    pub report: Result<(Option<RecordView>, RecordView), WsvcErrorView>,
    pub workspace: DirView,
    pub repo: RepositoryView,
}

/// What the `checkout` command leads to, where a backup is dated `date`.
pub open spec fn command_outcome(
    repo: RepositoryView,
    workspace: DirView,
    workspace_path: Seq<char>,
    hash: Option<Seq<char>>,
    config: Option<ConfigView>,
    date: int,
) -> CommandView {
    if !free_for_session(repo) {
        CommandView {
            report: Err(WsvcErrorView::FsError(WsvcFsErrorView::WorkspaceLocked)),
            workspace,
            repo,
        }
    } else if repo.path == workspace_path {
        CommandView {
            report: Err(
                WsvcErrorView::BadUsage("workspace and repo path can not be the same"@),
            ),
            workspace,
            repo: released(repo),
        }
    } else if auto_record(config) is None {
        CommandView {
            report: Err(WsvcErrorView::NeedConfiguring(backup_hint())),
            workspace,
            repo: released(repo),
        }
    } else {
        let saved = after_backup(acquired(repo), workspace, config, date);
        match restore_outcome(saved, workspace, hash) {
            Err(e) => CommandView { report: Err(e), workspace, repo: released(saved) },
            Ok(done) => CommandView {
                report: Ok((backup_record(acquired(repo), workspace, config, date), done.0)),
                workspace: done.1,
                repo: released(done.2),
            },
        }
    }
}

/// The result `r`, the workspace and the repository are what the command led to.
pub open spec fn command_matches(
    outcome: CommandView,
    r: Result<CheckoutReport, WsvcError>,
    after: RepositoryView,
    restored: DirView,
) -> bool {
    &&& after == outcome.repo
    &&& restored == outcome.workspace
    &&& match r {
        Ok(report) => outcome.report == Ok::<(Option<RecordView>, RecordView), WsvcErrorView>(
            (report.backup.deep_view(), report.record@),
        ),
        Err(e) => outcome.report == Err::<(Option<RecordView>, RecordView), WsvcErrorView>(e@),
    }
}

/// Checks out the snapshot that `hash` means into the workspace at
/// `workspace_path`, taking a backup first where the configuration asks for
/// one. The backup is dated with the current time: the outcome is that of
/// [`checkout_at`] for some date.
pub fn checkout(
    repo: &mut Repository,
    workspace: &mut WorkDir,
    workspace_path: &str,
    hash: Option<String>,
    config: Option<Config>,
) -> (r: Result<CheckoutReport, WsvcError>)
    ensures
        exists|date: i64|
            command_matches(
                command_outcome(
                    old(repo)@,
                    old(workspace)@,
                    workspace_path@,
                    hash.deep_view(),
                    config.deep_view(),
                    date as int,
                ),
                r,
                final(repo)@,
                final(workspace)@,
            ),
{
    let date = unix_now();
    let r = checkout_at(repo, workspace, workspace_path, hash, config, date);
    assert(command_matches(
        command_outcome(
            old(repo)@,
            old(workspace)@,
            workspace_path@,
            hash.deep_view(),
            config.deep_view(),
            date as int,
        ),
        r,
        repo@,
        workspace@,
    ));
    r
}

/// Checks out the snapshot that `hash` means into the workspace at
/// `workspace_path`, while holding the repository.
///
/// Where another session holds the repository, nothing happens. A
/// workspace that is the repository's own directory is bad usage. The
/// configuration must say whether a backup is to be taken first; where it
/// asks for one, the workspace is committed under the configured author with
/// ` BACKUP` added, dated `date`, and a failure of that commit is passed
/// over. Then the snapshot is selected as [`select_record`] says and checked
/// out. On an error the workspace is as it was. The lock file is gone
/// afterwards on every path on which the repository was taken.
pub fn checkout_at(
    repo: &mut Repository,
    workspace: &mut WorkDir,
    workspace_path: &str,
    hash: Option<String>,
    config: Option<Config>,
    date: i64,
) -> (r: Result<CheckoutReport, WsvcError>)
    ensures
        command_matches(
            command_outcome(
                old(repo)@,
                old(workspace)@,
                workspace_path@,
                hash.deep_view(),
                config.deep_view(),
                date as int,
            ),
            r,
            final(repo)@,
            final(workspace)@,
        ),
{
    let guard = match RepoGuard::new(repo) {
        Ok(guard) => guard,
        Err(e) => {
            return Err(WsvcError::FsError(e));
        },
    };
    if str_eq(repo.path.as_str(), workspace_path) {
        guard.release(repo);
        return Err(
            WsvcError::BadUsage("workspace and repo path can not be the same".to_owned()),
        );
    }
    let wanted = match backup_setting(&config) {
        Some(wanted) => wanted,
        None => {
            guard.release(repo);
            return Err(
                WsvcError::NeedConfiguring(
                    "wsvc can't keep current workspace changes when you checkout to record.\n\ntips: you must `wsvc config set commit.auto_record [true/false]` to determine whether auto commit changes when checkout, if it set to false, unsaved changes will be abandoned.".to_owned(),
                ),
            );
        },
    };
    let backup = take_backup(repo, workspace, &config, wanted, date);
    let r = restore_selected(repo, workspace, &hash);
    guard.release(repo);
    match r {
        Ok(record) => Ok(CheckoutReport { backup, record }),
        Err(e) => Err(e),
    }
}

fn backup_setting(config: &Option<Config>) -> (wanted: Option<bool>)
    ensures
        wanted == auto_record(config.deep_view()),
{
    match config {
        Some(c) => match &c.commit {
            Some(commit) => commit.auto_record,
            None => None,
        },
        None => None,
    }
}

fn backup_name(config: &Option<Config>) -> (author: String)
    ensures
        author@ == backup_author(config.deep_view()),
{
    match config {
        Some(c) => match &c.commit {
            Some(commit) => match &commit.author {
                Some(author) => join2(author.as_str(), " BACKUP"),
                None => "DEFAULT BACKUP".to_owned(),
            },
            None => "DEFAULT BACKUP".to_owned(),
        },
        None => "DEFAULT BACKUP".to_owned(),
    }
}

fn take_backup(
    repo: &mut Repository,
    workspace: &WorkDir,
    config: &Option<Config>,
    wanted: bool,
    date: i64,
) -> (backup: Option<Record>)
    requires
        auto_record(config.deep_view()) == Some(wanted),
    ensures
        final(repo)@ == after_backup(old(repo)@, workspace@, config.deep_view(), date as int),
        backup.deep_view() == backup_record(
            old(repo)@,
            workspace@,
            config.deep_view(),
            date as int,
        ),
{
    if wanted {
        let author = backup_name(config);
        match repo.commit_record_at(workspace, author.as_str(), "auto backup by checkout", date) {
            Ok(record) => Some(record),
            Err(_) => None,
        }
    } else {
        None
    }
}

fn restore_selected(repo: &mut Repository, workspace: &mut WorkDir, hash: &Option<String>) -> (r:
    Result<Record, WsvcError>)
    ensures
        match r {
            Ok(record) => restore_outcome(old(repo)@, old(workspace)@, hash.deep_view()) == Ok::<
                (RecordView, DirView, RepositoryView),
                WsvcErrorView,
            >((record@, final(workspace)@, final(repo)@)),
            Err(e) => {
                &&& restore_outcome(old(repo)@, old(workspace)@, hash.deep_view()) == Err::<
                    (RecordView, DirView, RepositoryView),
                    WsvcErrorView,
                >(e@)
                &&& final(repo)@ == old(repo)@
                &&& final(workspace)@ == old(workspace)@
            },
        },
{
    let record = match select_record(repo, hash) {
        Ok(record) => record,
        Err(e) => {
            return Err(e);
        },
    };
    match repo.checkout_record(&record.hash, workspace) {
        Ok(done) => Ok(done),
        Err(e) => Err(WsvcError::FsError(e)),
    }
}

/// Checks out the latest snapshot, as a clone does at its end. Fails where
/// no snapshot is stored. On an error the workspace
/// and the repository are as they were.
pub fn checkout_latest(repo: &mut Repository, workspace: &mut WorkDir) -> (r: Result<
    Record,
    WsvcError,
>)
    ensures
        match r {
            Ok(record) => latest_record(old(repo)@.records) is Some && checkout_outcome(
                old(repo)@,
                latest_record(old(repo)@.records)->Some_0.hash,
                old(workspace)@,
            ) == Ok::<(RecordView, DirView, RepositoryView), WsvcFsErrorView>(
                (record@, final(workspace)@, final(repo)@),
            ),
            Err(e) => {
                &&& final(repo)@ == old(repo)@
                &&& final(workspace)@ == old(workspace)@
                &&& match latest_record(old(repo)@.records) {
                    None => e@ == WsvcErrorView::EmptyRepoError,
                    Some(latest) => checkout_outcome(old(repo)@, latest.hash, old(workspace)@)
                        matches Err(fault) && e@ == WsvcErrorView::FsError(fault),
                }
            },
        },
{
    let latest = match repo.get_latest_record() {
        Some(latest) => latest,
        None => {
            return Err(WsvcError::EmptyRepoError);
        },
    };
    match repo.checkout_record(&latest.hash, workspace) {
        Ok(record) => Ok(record),
        Err(e) => Err(WsvcError::FsError(e)),
    }
}

} // verus!
