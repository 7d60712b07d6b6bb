//! Restoring a snapshot: a workspace is made to hold exactly what a stored
//! directory says, apart from the repository's own `.wsvc` directory.

use vstd::prelude::*;
use crate::digest::{blake3_digest, has_fingerprint};
use crate::fs::workdir::{
    dir_names, empty_dir, file_names, is_store_name, DirView, FileView, WorkDir, WorkFile,
};
use crate::fs::{WsvcFsError, WsvcFsErrorView};
use crate::hex::hex_string;
use crate::lookup::{has_key, index_of, lemma_first_at};
use crate::model::{
    Blob, BlobView, ObjectId, Record, RecordView, Repository, RepositoryView, Tree, TreeView,
};
use crate::text::str_eq;

verus! {

/// The subdirectory of `dir` that a stored directory named `name` is
/// restored into: the first one of that name, or an empty one.
pub open spec fn old_subdir(dir: DirView, name: Seq<char>) -> DirView {
    if has_key(dir_names(dir.dirs), name) {
        dir.dirs[index_of(dir_names(dir.dirs), name)]
    } else {
        empty_dir(name)
    }
}

/// The file of `dir` named by `blob` holds what `blob` says.
pub open spec fn file_is_current(dir: DirView, blob: BlobView) -> bool {
    has_key(file_names(dir.files), blob.name) && blake3_digest(
        dir.files[index_of(file_names(dir.files), blob.name)].content,
    ) == blob.hash
}

/// The file that `blob` stands for after a checkout into `dir`. A file of
/// that name with the right content stays; any other is replaced by the
/// stored content. A subdirectory of that name is in the way, and no file
/// may be named like the repository directory.
pub open spec fn restored_file(repo: RepositoryView, dir: DirView, blob: BlobView) -> Result<
    FileView,
    WsvcFsErrorView,
> {
    if is_store_name(blob.name) {
        Err(WsvcFsErrorView::InvalidFilename(blob.name))
    } else if has_key(dir_names(dir.dirs), blob.name) {
        Err(WsvcFsErrorView::Os(blob.name))
    } else if file_is_current(dir, blob) {
        Ok(dir.files[index_of(file_names(dir.files), blob.name)])
    } else {
        match repo.blob_content(blob.hash) {
            Ok(content) => Ok(FileView { name: blob.name, content }),
            Err(e) => Err(e),
        }
    }
}

/// The files that the first `n` of `blobs` stand for after a checkout.
pub open spec fn restored_files(repo: RepositoryView, dir: DirView, blobs: Seq<BlobView>, n: nat)
    -> Result<Seq<FileView>, WsvcFsErrorView>
    decreases n,
{
    if n == 0 || n > blobs.len() {
        Ok(Seq::empty())
    } else {
        match restored_files(repo, dir, blobs, (n - 1) as nat) {
            Err(e) => Err(e),
            Ok(before) => match restored_file(repo, dir, blobs[n - 1]) {
                Err(e) => Err(e),
                Ok(file) => Ok(before.push(file)),
            },
        }
    }
}

/// Those of the first `n` of `dirs` that hold a repository: the
/// directories that a checkout leaves alone, and never enters.
pub open spec fn store_dirs(dirs: Seq<DirView>, n: nat) -> Seq<DirView>
    decreases n,
{
    if n == 0 || n > dirs.len() {
        Seq::empty()
    } else if is_store_name(dirs[n - 1].name) {
        store_dirs(dirs, (n - 1) as nat).push(dirs[n - 1])
    } else {
        store_dirs(dirs, (n - 1) as nat)
    }
}

/// What `dir` holds after the stored directory `tree` was checked out into
/// it, or the first error met.
///
/// The subdirectories come first, in the order of `tree`, each restored from
/// the subdirectory of that name or from nothing; then the repository
/// directories of `dir`, as they are. The files are those of `tree`, in
/// order. Everything else is gone. A stored directory that names an entry
/// like the repository directory is refused. `depth` bounds how far the
/// stored directories are followed: a chain that is longer is corrupt.
pub open spec fn restored(repo: RepositoryView, tree: TreeView, dir: DirView, depth: nat) -> Result<
    DirView,
    WsvcFsErrorView,
>
    decreases depth, 1nat, 0nat,
{
    match restored_dirs(repo, tree.trees, dir, tree.trees.len(), depth) {
        Err(e) => Err(e),
        Ok(dirs) => match restored_files(repo, dir, tree.blobs, tree.blobs.len()) {
            Err(e) => Err(e),
            Ok(files) => Ok(
                DirView {
                    name: dir.name,
                    dirs: dirs + store_dirs(dir.dirs, dir.dirs.len()),
                    files,
                },
            ),
        },
    }
}

/// The subdirectories that the first `n` of `hashes` stand for after a checkout.
pub open spec fn restored_dirs(
    repo: RepositoryView,
    hashes: Seq<Seq<u8>>,
    dir: DirView,
    n: nat,
    depth: nat,
) -> Result<Seq<DirView>, WsvcFsErrorView>
    decreases depth, 0nat, n,
{
    if n == 0 || n > hashes.len() {
        Ok(Seq::empty())
    } else {
        match restored_dirs(repo, hashes, dir, (n - 1) as nat, depth) {
            Err(e) => Err(e),
            Ok(before) => {
                let hash = hashes[n - 1];
                if !repo.has_tree(hash) {
                    Err(WsvcFsErrorView::NotFound(hex_string(hash)))
                } else if depth == 0 {
                    Err(WsvcFsErrorView::Corrupt(hex_string(hash)))
                } else if is_store_name(repo.tree(hash).name) {
                    Err(WsvcFsErrorView::InvalidFilename(repo.tree(hash).name))
                } else {
                    let child = repo.tree(hash);
                    match restored(repo, child, old_subdir(dir, child.name), (depth - 1) as nat) {
                        Err(e) => Err(e),
                        Ok(sub) => Ok(before.push(sub)),
                    }
                }
            },
        }
    }
}

/// What checking out the snapshot under `fp` leads to: the workspace and the
/// repository afterwards, or the error. `HEAD` then names the snapshot, and
/// the working area is empty.
pub open spec fn checkout_outcome(repo: RepositoryView, fp: Seq<u8>, workspace: DirView) -> Result<
    (RecordView, DirView, RepositoryView),
    WsvcFsErrorView,
> {
    if !repo.has_record(fp) {
        Err(WsvcFsErrorView::NotFound(hex_string(fp)))
    } else if !repo.has_tree(repo.record(fp).root) {
        Err(WsvcFsErrorView::NotFound(hex_string(repo.record(fp).root)))
    } else {
        match restored(repo, repo.tree(repo.record(fp).root), workspace, repo.trees.len()) {
            Err(e) => Err(e),
            Ok(dir) => Ok(
                (
                    repo.record(fp),
                    dir,
                    RepositoryView { head: hex_string(fp), temp: Seq::empty(), ..repo },
                ),
            ),
        }
    }
}

impl Blob {
    /// Whether `content` has the fingerprint that the entry names.
    pub fn checksum(&self, content: &[u8]) -> (matches: bool)
        ensures
            matches == (blake3_digest(content@) == self@.hash),
    {
        has_fingerprint(content, &self.hash)
    }
}

impl Repository {
    fn restore_file(&self, dir: &WorkDir, blob: &Blob) -> (r: Result<WorkFile, WsvcFsError>)
        ensures
            match r {
                Ok(file) => restored_file(self@, dir@, blob@) == Ok::<FileView, WsvcFsErrorView>(
                    file@,
                ),
                Err(e) => restored_file(self@, dir@, blob@) == Err::<FileView, WsvcFsErrorView>(e@),
            },
    {
        proof {
            dir.lemma_view();
        }
        if str_eq(blob.name.as_str(), ".wsvc") {
            return Err(WsvcFsError::InvalidFilename(blob.name.clone()));
        }
        if dir.find_dir(blob.name.as_str()).is_some() {
            return Err(WsvcFsError::Os(blob.name.clone()));
        }
        match dir.find_file(blob.name.as_str()) {
            Some(i) => {
                proof {
                    lemma_first_at(file_names(dir@.files), blob@.name, i as int);
                }
                if blob.checksum(dir.files[i].content.as_slice()) {
                    return Ok(dir.files[i].clone());
                }
            },
            None => {},
        }
        match self.read_blob(&blob.hash) {
            Ok(content) => Ok(WorkFile { name: blob.name.clone(), content }),
            Err(e) => Err(e),
        }
    }

    fn restore(&self, tree: &Tree, dir: &WorkDir, depth: usize) -> (r: Result<WorkDir, WsvcFsError>)
        ensures
            match r {
                Ok(out) => restored(self@, tree@, dir@, depth as nat) == Ok::<
                    DirView,
                    WsvcFsErrorView,
                >(out@),
                Err(e) => restored(self@, tree@, dir@, depth as nat) == Err::<
                    DirView,
                    WsvcFsErrorView,
                >(e@),
            },
        decreases depth,
    {
        proof {
            dir.lemma_view();
        }
        let ghost hashes = tree@.trees;
        let mut dirs: Vec<WorkDir> = Vec::new();
        let ghost mut dir_views: Seq<DirView> = Seq::empty();
        let mut j: usize = 0;
        while j < tree.trees.len()
            invariant
                j <= tree.trees@.len(),
                hashes == tree@.trees,
                hashes.len() == tree.trees@.len(),
                dirs@.len() == dir_views.len(),
                forall|k: int| 0 <= k < dirs@.len() ==> dirs@[k]@ == #[trigger] dir_views[k],
                restored_dirs(self@, hashes, dir@, j as nat, depth as nat) == Ok::<
                    Seq<DirView>,
                    WsvcFsErrorView,
                >(dir_views),
            decreases tree.trees@.len() - j,
        {
            let hash = &tree.trees[j];
            assert(hash@ == hashes[j as int]);
            let child = match self.read_tree(hash) {
                Ok(child) => child,
                Err(e) => {
                    proof {
                        lemma_dirs_fail(self@, hashes, dir@, (j + 1) as nat, hashes.len(), depth as nat);
                    }
                    return Err(e);
                },
            };
            if depth == 0 {
                proof {
                    lemma_dirs_fail(self@, hashes, dir@, (j + 1) as nat, hashes.len(), depth as nat);
                }
                return Err(WsvcFsError::Corrupt(hash.to_hex()));
            }
            if str_eq(child.name.as_str(), ".wsvc") {
                proof {
                    lemma_dirs_fail(self@, hashes, dir@, (j + 1) as nat, hashes.len(), depth as nat);
                }
                return Err(WsvcFsError::InvalidFilename(child.name.clone()));
            }
            let restored_sub = match dir.find_dir(child.name.as_str()) {
                Some(i) => {
                    proof {
                        lemma_first_at(dir_names(dir@.dirs), child@.name, i as int);
                    }
                    self.restore(&child, &dir.dirs[i], depth - 1)
                },
                None => {
                    let fresh = WorkDir::new(child.name.clone());
                    self.restore(&child, &fresh, depth - 1)
                },
            };
            let sub = match restored_sub {
                Ok(sub) => sub,
                Err(e) => {
                    proof {
                        lemma_dirs_fail(self@, hashes, dir@, (j + 1) as nat, hashes.len(), depth as nat);
                    }
                    return Err(e);
                },
            };
            proof {
                dir_views = dir_views.push(sub@);
            }
            dirs.push(sub);
            j += 1;
        }
        let ghost blobs = tree@.blobs;
        let mut files: Vec<WorkFile> = Vec::new();
        let mut k: usize = 0;
        assert(files.deep_view() =~= Seq::empty());
        while k < tree.blobs.len()
            invariant
                k <= tree.blobs@.len(),
                blobs == tree@.blobs,
                blobs.len() == tree.blobs@.len(),
                restored_dirs(self@, tree@.trees, dir@, tree@.trees.len(), depth as nat) is Ok,
                restored_files(self@, dir@, blobs, k as nat) == Ok::<
                    Seq<FileView>,
                    WsvcFsErrorView,
                >(files.deep_view()),
            decreases tree.blobs@.len() - k,
        {
            let blob = &tree.blobs[k];
            assert(blob@ == blobs[k as int]);
            let ghost before = files.deep_view();
            let file = match self.restore_file(dir, blob) {
                Ok(file) => file,
                Err(e) => {
                    proof {
                        assert(restored_files(self@, dir@, blobs, (k + 1) as nat) == Err::<
                            Seq<FileView>,
                            WsvcFsErrorView,
                        >(e@));
                        lemma_files_fail(self@, dir@, blobs, (k + 1) as nat, blobs.len());
                    }
                    return Err(e);
                },
            };
            let ghost view = file@;
            files.push(file);
            assert(files.deep_view() =~= before.push(view));
            k += 1;
        }
        let ghost placed = dirs@.len();
        let mut m: usize = 0;
        while m < dir.dirs.len()
            invariant
                m <= dir.dirs@.len(),
                placed == dir_views.len(),
                dir@.dirs.len() == dir.dirs@.len(),
                forall|i: int| 0 <= i < dir.dirs@.len() ==> #[trigger] dir@.dirs[i] == dir.dirs@[i]@,
                dirs@.len() == placed + store_dirs(dir@.dirs, m as nat).len(),
                forall|i: int| 0 <= i < placed ==> dirs@[i]@ == #[trigger] dir_views[i],
                forall|i: int|
                    placed <= i < dirs@.len() ==> dirs@[i]@ == #[trigger] store_dirs(
                        dir@.dirs,
                        m as nat,
                    )[i - placed],
            decreases dir.dirs@.len() - m,
        {
            proof {
                dir.dirs@[m as int].lemma_view();
            }
            if str_eq(dir.dirs[m].name.as_str(), ".wsvc") {
                dirs.push(dir.dirs[m].clone());
            }
            m += 1;
        }
        let out = WorkDir { name: dir.name.clone(), dirs, files };
        proof {
            out.lemma_view();
            let kept = store_dirs(dir@.dirs, dir@.dirs.len());
            assert(out@.dirs =~= dir_views + kept) by {
                assert forall|i: int| 0 <= i < out@.dirs.len() implies out@.dirs[i] == (dir_views
                    + kept)[i] by {
                    if i < placed {
                        assert(out@.dirs[i] == dir_views[i]);
                    } else {
                        assert(out@.dirs[i] == kept[i - placed]);
                    }
                }
            }
            assert(out@.files =~= files.deep_view());
        }
        Ok(out)
    }

    /// Makes the workspace hold what the stored directory `tree` says: each
    /// subdirectory and file that it names, with the stored content, and
    /// nothing else but the repository's own directory.
    ///
    /// On an error the workspace is left as it was.
    pub fn checkout_tree(&self, tree: &Tree, workspace: &mut WorkDir) -> (r: Result<
        (),
        WsvcFsError,
    >)
        ensures
            match r {
                Ok(_) => restored(self@, tree@, old(workspace)@, self@.trees.len()) == Ok::<
                    DirView,
                    WsvcFsErrorView,
                >(final(workspace)@),
                Err(e) => {
                    &&& restored(self@, tree@, old(workspace)@, self@.trees.len()) == Err::<
                        DirView,
                        WsvcFsErrorView,
                    >(e@)
                    &&& final(workspace)@ == old(workspace)@
                },
            },
    {
        let depth = self.trees.len();
        assert(self@.trees.len() == self.trees@.len());
        match self.restore(tree, workspace, depth) {
            Ok(out) => {
                *workspace = out;
                Ok(())
            },
            Err(e) => Err(e),
        }
    }

    /// Checks out the snapshot stored under `record_hash`: the workspace is
    /// made to hold what the snapshot's root directory says, `HEAD` is set to
    /// the snapshot, and the working area is cleared.
    ///
    /// On an error the workspace and the repository are left as they were.
    pub fn checkout_record(&mut self, record_hash: &ObjectId, workspace: &mut WorkDir) -> (r:
        Result<Record, WsvcFsError>)
        ensures
            match r {
                Ok(record) => checkout_outcome(old(self)@, record_hash@, old(workspace)@) == Ok::<
                    (RecordView, DirView, RepositoryView),
                    WsvcFsErrorView,
                >((record@, final(workspace)@, final(self)@)),
                Err(e) => {
                    &&& checkout_outcome(old(self)@, record_hash@, old(workspace)@) == Err::<
                        (RecordView, DirView, RepositoryView),
                        WsvcFsErrorView,
                    >(e@)
                    &&& final(workspace)@ == old(workspace)@
                    &&& final(self)@ == old(self)@
                },
            },
    {
        let record = match self.read_record(record_hash) {
            Ok(record) => record,
            Err(e) => {
                return Err(e);
            },
        };
        let root = match self.read_tree(&record.root) {
            Ok(root) => root,
            Err(e) => {
                return Err(e);
            },
        };
        match self.checkout_tree(&root, workspace) {
            Ok(_) => {},
            Err(e) => {
                return Err(e);
            },
        }
        self.head = record_hash.to_hex();
        self.temp = Vec::new();
        assert(self.temp.deep_view() =~= Seq::empty());
        Ok(record)
    }
}

/// Once restoring some subdirectories has failed, restoring more of them
/// fails in the same way.
proof fn lemma_dirs_fail(
    repo: RepositoryView,
    hashes: Seq<Seq<u8>>,
    dir: DirView,
    n: nat,
    m: nat,
    depth: nat,
)
    requires
        n <= m <= hashes.len(),
        restored_dirs(repo, hashes, dir, n, depth) is Err,
    ensures
        restored_dirs(repo, hashes, dir, m, depth) == restored_dirs(repo, hashes, dir, n, depth),
    decreases m,
{
    if n < m {
        lemma_dirs_fail(repo, hashes, dir, n, (m - 1) as nat, depth);
    }
}

/// Once restoring some files has failed, restoring more of them fails in
/// the same way.
proof fn lemma_files_fail(
    repo: RepositoryView,
    dir: DirView,
    blobs: Seq<BlobView>,
    n: nat,
    m: nat,
)
    requires
        n <= m <= blobs.len(),
        restored_files(repo, dir, blobs, n) is Err,
    ensures
        restored_files(repo, dir, blobs, m) == restored_files(repo, dir, blobs, n),
    decreases m,
{
    if n < m {
        lemma_files_fail(repo, dir, blobs, n, (m - 1) as nat);
    }
}

} // verus!
