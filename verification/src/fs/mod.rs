//! The repository on disk, as the engine sees it: its layout, its
//! single-writer lock, its object store, and the snapshot procedures.

use vstd::prelude::*;
use crate::codec::ChunkFault;
use crate::hex::HexError;
use crate::model::{Repository, RepositoryView};
use crate::text::{clone_text, join2};

pub mod checkout;
pub mod checkout_laws;
pub mod commit;
pub mod history;
pub mod laws;
pub mod round_trip;
pub mod store;
pub mod workdir;

verus! {

/// Errors of the repository and its store.
#[derive(Debug)]
pub enum WsvcFsError {
    /// The file system refused an operation.
    Os(String),
    /// Stored content cannot be written or read back.
    DecompressFailed(ChunkFault),
    /// There is no repository at this path.
    UnknownPath(String),
    /// A text is not the hexadecimal form of a fingerprint.
    InvalidHexString(HexError),
    /// A stored object cannot be read or written as JSON.
    SerializationFailed(String),
    /// A name that cannot stand in a directory.
    InvalidFilename(String),
    /// Bytes that are no valid text.
    InvalidOsString(String),
    /// There is a directory already where the repository would go.
    DirAlreadyExists(String),
    /// The workspace is as an existing snapshot has it: that snapshot's fingerprint.
    NoChanges(String),
    /// Another session holds the repository.
    WorkspaceLocked,
    /// No object is stored under this fingerprint, given in hexadecimal.
    NotFound(String),
    /// The object stored under this fingerprint, given in hexadecimal, has another one.
    Corrupt(String),
}

/// What a [`WsvcFsError`] holds, with texts as character sequences.
pub enum WsvcFsErrorView {
    Os(Seq<char>),
    DecompressFailed(ChunkFault),
    UnknownPath(Seq<char>),
    InvalidHexString(HexError),
    SerializationFailed(Seq<char>),
    InvalidFilename(Seq<char>),
    InvalidOsString(Seq<char>),
    DirAlreadyExists(Seq<char>),
    NoChanges(Seq<char>),
    WorkspaceLocked,
    NotFound(Seq<char>),
    Corrupt(Seq<char>),
}

impl View for WsvcFsError {
    type V = WsvcFsErrorView;

    open spec fn view(&self) -> WsvcFsErrorView {
        match self {
            WsvcFsError::Os(m) => WsvcFsErrorView::Os(m@),
            WsvcFsError::DecompressFailed(f) => WsvcFsErrorView::DecompressFailed(*f),
            WsvcFsError::UnknownPath(m) => WsvcFsErrorView::UnknownPath(m@),
            WsvcFsError::InvalidHexString(e) => WsvcFsErrorView::InvalidHexString(*e),
            WsvcFsError::SerializationFailed(m) => WsvcFsErrorView::SerializationFailed(m@),
            WsvcFsError::InvalidFilename(m) => WsvcFsErrorView::InvalidFilename(m@),
            WsvcFsError::InvalidOsString(m) => WsvcFsErrorView::InvalidOsString(m@),
            WsvcFsError::DirAlreadyExists(m) => WsvcFsErrorView::DirAlreadyExists(m@),
            WsvcFsError::NoChanges(m) => WsvcFsErrorView::NoChanges(m@),
            WsvcFsError::WorkspaceLocked => WsvcFsErrorView::WorkspaceLocked,
            WsvcFsError::NotFound(m) => WsvcFsErrorView::NotFound(m@),
            WsvcFsError::Corrupt(m) => WsvcFsErrorView::Corrupt(m@),
        }
    }
}

/// Which parts of a repository were found under a root.
#[derive(Clone, Copy, Debug, PartialEq, Eq, Structural)]
pub struct Layout {
    /// The root itself exists.
    pub root: bool,
    /// `objects/` exists.
    pub objects: bool,
    /// `trees/` exists.
    pub trees: bool,
    /// `records/` exists.
    pub records: bool,
    /// `HEAD` exists.
    pub head: bool,
}

impl Layout {
    /// All four parts of a repository are there.
    pub open spec fn complete(self) -> bool {
        self.root && self.objects && self.trees && self.records && self.head
    }
}

/// The root of the repository for `path`: the path itself for a bare
/// repository, and its `.wsvc` entry otherwise.
pub open spec fn root_of(path: Seq<char>, is_bare: bool) -> Seq<char> {
    if is_bare {
        path
    } else {
        path + "/.wsvc"@
    }
}

/// An empty repository at `root`, worked on by `session`.
pub open spec fn empty_repository(root: Seq<char>, session: Seq<char>) -> RepositoryView {
    RepositoryView {
        path: root,
        lock: session,
        objects: Seq::empty(),
        trees: Seq::empty(),
        records: Seq::empty(),
        head: Seq::empty(),
        lock_file: None,
        origin: None,
        temp: Seq::empty(),
    }
}

/// `nanoid::format` with the crate's default generator, its URL-safe
/// alphabet and 21 characters: a fresh random identifier. Nothing is claimed
/// of the result.
#[verifier::external_body]
fn fresh_session_id() -> (id: String) {
    nanoid::format(nanoid::rngs::default, &nanoid::alphabet::SAFE, 21)
}

fn root_path(path: &str, is_bare: bool) -> (root: String)
    ensures
        root@ == root_of(path@, is_bare),
{
    if is_bare {
        path.to_owned()
    } else {
        join2(path, "/.wsvc")
    }
}

fn blank(root: String, session: String) -> (repo: Repository)
    ensures
        repo@ == empty_repository(root@, session@),
{
    let repo = Repository {
        path: root,
        lock: session,
        objects: Vec::new(),
        trees: Vec::new(),
        records: Vec::new(),
        head: String::new(),
        lock_file: None,
        origin: None,
        temp: Vec::new(),
    };
    assert(repo.objects.deep_view() =~= Seq::empty());
    assert(repo.trees.deep_view() =~= Seq::empty());
    assert(repo.records.deep_view() =~= Seq::empty());
    assert(repo.temp.deep_view() =~= Seq::empty());
    repo
}

impl Repository {
    /// Creates a repository for `path` under a fresh session.
    ///
    /// `root_exists` says whether the chosen root is there already; if so the
    /// call fails with [`WsvcFsError::DirAlreadyExists`] and the root. Else
    /// the result is an empty repository at that root.
    pub fn new(path: &str, is_bare: bool, root_exists: bool) -> (r: Result<Repository, WsvcFsError>)
        ensures
            match r {
                Ok(repo) => !root_exists && repo@ == empty_repository(
                    root_of(path@, is_bare),
                    repo@.lock,
                ),
                Err(e) => root_exists && e@ == WsvcFsErrorView::DirAlreadyExists(
                    root_of(path@, is_bare),
                ),
            },
    {
        Self::new_in_session(path, is_bare, root_exists, fresh_session_id())
    }

    /// Creates a repository for `path` under the given session.
    pub fn new_in_session(path: &str, is_bare: bool, root_exists: bool, session: String) -> (r:
        Result<Repository, WsvcFsError>)
        ensures
            match r {
                Ok(repo) => !root_exists && repo@ == empty_repository(
                    root_of(path@, is_bare),
                    session@,
                ),
                Err(e) => root_exists && e@ == WsvcFsErrorView::DirAlreadyExists(
                    root_of(path@, is_bare),
                ),
            },
    {
        let root = root_path(path, is_bare);
        if root_exists {
            Err(WsvcFsError::DirAlreadyExists(root))
        } else {
            Ok(blank(root, session))
        }
    }

    /// Opens the repository for `path` under a fresh session.
    ///
    /// `found` says which parts lie under the chosen root. The call succeeds
    /// exactly when all of them are there, and else fails with
    /// [`WsvcFsError::UnknownPath`] and the root. The result holds no objects
    /// yet: the caller fills it with what it reads.
    pub fn open(path: &str, is_bare: bool, found: Layout) -> (r: Result<Repository, WsvcFsError>)
        ensures
            match r {
                Ok(repo) => found.complete() && repo@ == empty_repository(
                    root_of(path@, is_bare),
                    repo@.lock,
                ),
                Err(e) => !found.complete() && e@ == WsvcFsErrorView::UnknownPath(
                    root_of(path@, is_bare),
                ),
            },
    {
        Self::open_in_session(path, is_bare, found, fresh_session_id())
    }

    /// Opens the repository for `path` under the given session.
    pub fn open_in_session(path: &str, is_bare: bool, found: Layout, session: String) -> (r: Result<
        Repository,
        WsvcFsError,
    >)
        ensures
            match r {
                Ok(repo) => found.complete() && repo@ == empty_repository(
                    root_of(path@, is_bare),
                    session@,
                ),
                Err(e) => !found.complete() && e@ == WsvcFsErrorView::UnknownPath(
                    root_of(path@, is_bare),
                ),
            },
    {
        let root = root_path(path, is_bare);
        if found.root && found.objects && found.trees && found.records && found.head {
            Ok(blank(root, session))
        } else {
            Err(WsvcFsError::UnknownPath(root))
        }
    }

    /// Opens the repository for `path`, guessing its kind: first as a
    /// workspace with a `.wsvc` entry, then as a bare repository.
    ///
    /// `nested` says what lies under `path/.wsvc`, `bare` what lies under
    /// `path` itself.
    pub fn try_open(path: &str, nested: Layout, bare: Layout) -> (r: Result<Repository, WsvcFsError>)
        ensures
            match r {
                Ok(repo) => {
                    &&& nested.complete() || bare.complete()
                    &&& repo@ == empty_repository(
                        root_of(path@, !nested.complete()),
                        repo@.lock,
                    )
                },
                Err(e) => !nested.complete() && !bare.complete() && e@
                    == WsvcFsErrorView::UnknownPath(path@),
            },
    {
        match Self::open(path, false, nested) {
            Ok(repo) => Ok(repo),
            Err(_) => Self::open(path, true, bare),
        }
    }

    /// The session may take the repository: no lock file is there, or the
    /// one that is there names this session.
    pub open spec fn may_lock(self) -> bool {
        free_for_session(self@)
    }

    /// Checks that no other session holds the repository.
    pub fn check_lock(&self) -> (r: Result<(), WsvcFsError>)
        ensures
            match r {
                Ok(_) => self.may_lock(),
                Err(e) => !self.may_lock() && e@ == WsvcFsErrorView::WorkspaceLocked,
            },
    {
        match &self.lock_file {
            None => Ok(()),
            Some(holder) => {
                if *holder == self.lock {
                    Ok(())
                } else {
                    Err(WsvcFsError::WorkspaceLocked)
                }
            },
        }
    }

    /// Writes the lock file for this session.
    pub fn lock(&mut self) -> (r: Result<(), WsvcFsError>)
        ensures
            r is Ok,
            final(self)@ == (RepositoryView { lock_file: Some(old(self)@.lock), ..old(self)@ }),
    {
        self.lock_file = Some(self.lock.clone());
        Ok(())
    }

    /// Removes the lock file. Fails where there is none to remove.
    pub fn unlock(&mut self) -> (r: Result<(), WsvcFsError>)
        ensures
            final(self)@ == (RepositoryView { lock_file: None, ..old(self)@ }),
            match r {
                Ok(_) => old(self).lock_file is Some,
                Err(e) => old(self).lock_file is None && e@ == WsvcFsErrorView::Os(
                    "LOCK: no such file"@,
                ),
            },
    {
        match &self.lock_file {
            Some(_) => {
                self.lock_file = None;
                Ok(())
            },
            None => Err(WsvcFsError::Os("LOCK: no such file".to_owned())),
        }
    }

    /// The working area of the repository.
    pub fn temp_dir(&self) -> (dir: String)
        ensures
            dir@ == self.path@ + "/temp"@,
    {
        join2(self.path.as_str(), "/temp")
    }

    /// Where the file contents are stored.
    pub fn objects_dir(&self) -> (dir: String)
        ensures
            dir@ == self.path@ + "/objects"@,
    {
        join2(self.path.as_str(), "/objects")
    }

    /// Where the directories are stored.
    pub fn trees_dir(&self) -> (dir: String)
        ensures
            dir@ == self.path@ + "/trees"@,
    {
        join2(self.path.as_str(), "/trees")
    }

    /// Where the snapshots are stored.
    pub fn records_dir(&self) -> (dir: String)
        ensures
            dir@ == self.path@ + "/records"@,
    {
        join2(self.path.as_str(), "/records")
    }

    /// The peer that the repository is synchronized with, if one is set.
    pub fn read_origin(&self) -> (origin: Option<String>)
        ensures
            origin.deep_view() == self@.origin,
    {
        clone_text(&self.origin)
    }

    /// Sets the peer that the repository is synchronized with.
    pub fn write_origin(&mut self, url: String)
        ensures
            final(self)@ == (RepositoryView { origin: Some(url@), ..old(self)@ }),
    {
        self.origin = Some(url);
    }
}

/// The hold of a session on a repository.
#[derive(Debug)]
pub struct RepoGuard {
    /// The session that holds the repository.
    pub session: String,
}

/// The repository once its session has taken it: the lock file names the session.
pub open spec fn acquired(before: RepositoryView) -> RepositoryView {
    RepositoryView { lock_file: Some(before.lock), ..before }
}

/// The session of the repository may take it: no lock file is there, or
/// the one that is there names this session.
pub open spec fn free_for_session(repo: RepositoryView) -> bool {
    match repo.lock_file {
        None => true,
        Some(holder) => holder == repo.lock,
    }
}

/// The repository with its lock file removed.
pub open spec fn released(repo: RepositoryView) -> RepositoryView {
    RepositoryView { lock_file: None, ..repo }
}

impl RepoGuard {
    /// Takes the repository for its session. Succeeds where no lock file is
    /// there or the one that is there names this session; the lock file then
    /// names this session. Fails with [`WsvcFsError::WorkspaceLocked`] where
    /// another session holds the repository, which is left as it is.
    pub fn new(repo: &mut Repository) -> (r: Result<RepoGuard, WsvcFsError>)
        ensures
            match r {
                Ok(guard) => {
                    &&& old(repo).may_lock()
                    &&& guard.session@ == old(repo)@.lock
                    &&& final(repo)@ == acquired(old(repo)@)
                },
                Err(e) => {
                    &&& !old(repo).may_lock()
                    &&& e@ == WsvcFsErrorView::WorkspaceLocked
                    &&& final(repo)@ == old(repo)@
                },
            },
    {
        match repo.check_lock() {
            Ok(_) => {},
            Err(e) => {
                return Err(e);
            },
        }
        let _ = repo.lock();
        Ok(RepoGuard { session: repo.lock.clone() })
    }

    /// Gives the repository up: the lock file is removed.
    pub fn release(self, repo: &mut Repository)
        ensures
            final(repo)@ == (RepositoryView { lock_file: None, ..old(repo)@ }),
    {
        let _ = repo.unlock();
    }
}

/// Once a session has taken the repository, an attempt by any other session
/// finds it locked, while the session itself may enter again.
pub proof fn lemma_lock_excludes(free: RepositoryView, other_session: Seq<char>)
    requires
        free_for_session(free),
        other_session != free.lock,
    ensures
        !free_for_session(RepositoryView { lock: other_session, ..acquired(free) }),
        free_for_session(acquired(free)),
{
}

} // verus!
