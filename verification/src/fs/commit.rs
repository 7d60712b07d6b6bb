//! Taking a snapshot: the workspace is walked, every file and directory is
//! stored under its fingerprint, and a record of the root is written.

use vstd::prelude::*;
use crate::bytes::copy_range;
use crate::codec::{compress_blob, encoded_blob, encoding_fault, ChunkFault};
use crate::digest::{blake3_digest, fingerprint};
use crate::fs::store::{put_blob, put_record, put_tree, sealed_record, sealed_tree, tree_keys};
use crate::lookup::{first_at, has_key, index_of, lemma_first_at};
use crate::fs::round_trip::{dirs_within, within};
use crate::fs::workdir::{is_store_name, kept_files, walked_files, DirView, FileView, WorkDir};
use crate::fs::{WsvcFsError, WsvcFsErrorView};
use crate::hex::hex_string;
use crate::model::{
    zero_fingerprint, Blob, BlobView, ObjectId, Record, RecordView, Repository, RepositoryView,
    StoredBlob, StoredBlobView, Tree, TreeView,
};
use crate::text::str_eq;

verus! {

/// The entry that names a file in its directory.
pub open spec fn file_blob(file: FileView) -> BlobView {
    BlobView { name: file.name, hash: blake3_digest(file.content) }
}

/// A file's content as it is stored.
pub open spec fn file_stored(file: FileView) -> StoredBlobView {
    StoredBlobView { hash: blake3_digest(file.content), data: encoded_blob(file.content) }
}

/// The entries of the files of a directory, in order.
pub open spec fn file_blobs(files: Seq<FileView>) -> Seq<BlobView> {
    Seq::new(files.len(), |i: int| file_blob(files[i]))
}

/// The stored forms of the files of a directory, in order.
pub open spec fn files_stored(files: Seq<FileView>) -> Seq<StoredBlobView> {
    Seq::new(files.len(), |i: int| file_stored(files[i]))
}

/// Why some of `files` cannot be stored, if one cannot: the fault of the
/// first file that has one.
pub open spec fn files_fault(files: Seq<FileView>) -> Option<ChunkFault>
    decreases files.len(),
{
    if files.len() == 0 {
        None
    } else {
        match files_fault(files.drop_last()) {
            Some(fault) => Some(fault),
            None => encoding_fault(files.last().content),
        }
    }
}

/// What a snapshot of a directory consists of.
pub struct Staging {
    /// The directory object, with its fingerprint.
    pub tree: TreeView,
    /// The stored forms of all files at and below the directory.
    pub blobs: Seq<StoredBlobView>,
    /// The directory objects at and below the directory, each after
    /// those below it; the directory itself is the last.
    pub trees: Seq<TreeView>,
    /// Why some file at or below the directory cannot be stored, if one
    /// cannot: the fault of the first such file of the walk.
    pub fault: Option<ChunkFault>,
}

/// What the snapshots of some subdirectories consist of.
pub struct ChildStaging {
    /// The fingerprints of the subdirectories, in order.
    pub hashes: Seq<Seq<u8>>,
    /// The stored forms of all files below them.
    pub blobs: Seq<StoredBlobView>,
    /// The directory objects at and below them.
    pub trees: Seq<TreeView>,
    /// Why some file below them cannot be stored, if one cannot.
    pub fault: Option<ChunkFault>,
}

/// The snapshot of a directory: its own files first, then its subdirectories
/// in order, each with all that lies below it, then the directory object.
/// An entry named `.wsvc`, file or directory, is passed over.
pub open spec fn staging(dir: DirView) -> Staging
    decreases dir, 1nat,
{
    let below = child_staging(dir.dirs, dir.dirs.len());
    let tree = sealed_tree(
        TreeView {
            name: dir.name,
            hash: zero_fingerprint(),
            trees: below.hashes,
            blobs: file_blobs(walked_files(dir)),
        },
    );
    Staging {
        tree,
        blobs: files_stored(walked_files(dir)) + below.blobs,
        trees: below.trees.push(tree),
        fault: match files_fault(walked_files(dir)) {
            Some(fault) => Some(fault),
            None => below.fault,
        },
    }
}

/// The snapshots of the first `n` of `dirs`.
pub open spec fn child_staging(dirs: Seq<DirView>, n: nat) -> ChildStaging
    decreases dirs, 0nat, n,
{
    if n == 0 || n > dirs.len() {
        ChildStaging {
            hashes: Seq::empty(),
            blobs: Seq::empty(),
            trees: Seq::empty(),
            fault: None,
        }
    } else {
        let before = child_staging(dirs, (n - 1) as nat);
        if is_store_name(dirs[n - 1].name) {
            before
        } else {
            let child = staging(dirs[n - 1]);
            ChildStaging {
                hashes: before.hashes.push(child.tree.hash),
                blobs: before.blobs + child.blobs,
                trees: before.trees + child.trees,
                fault: match before.fault {
                    Some(fault) => Some(fault),
                    None => child.fault,
                },
            }
        }
    }
}

/// The fingerprint of the root directory of a workspace. It is a function of
/// what the workspace holds: of names, contents and order, and nothing else.
pub open spec fn root_fingerprint(workspace: DirView) -> Seq<u8> {
    staging(workspace).tree.hash
}

/// `objects` after each of `entries` was written in turn.
pub open spec fn put_blobs(objects: Seq<StoredBlobView>, entries: Seq<StoredBlobView>) -> Seq<
    StoredBlobView,
>
    decreases entries.len(),
{
    if entries.len() == 0 {
        objects
    } else {
        put_blob(put_blobs(objects, entries.drop_last()), entries.last())
    }
}

/// `trees` after each of `entries` was written in turn, unless present.
pub open spec fn put_trees(trees: Seq<TreeView>, entries: Seq<TreeView>) -> Seq<TreeView>
    decreases entries.len(),
{
    if entries.len() == 0 {
        trees
    } else {
        put_tree(put_trees(trees, entries.drop_last()), entries.last())
    }
}

/// The repository after the files and directories of a workspace were stored.
pub open spec fn with_snapshot(repo: RepositoryView, workspace: DirView) -> RepositoryView {
    RepositoryView {
        objects: put_blobs(repo.objects, staging(workspace).blobs),
        trees: put_trees(repo.trees, staging(workspace).trees),
        ..repo
    }
}

/// Storing the workspace writes its root directory: no directory was stored
/// under the root's fingerprint when its turn came.
pub open spec fn root_is_new(repo: RepositoryView, workspace: DirView) -> bool {
    !has_key(
        tree_keys(put_trees(repo.trees, staging(workspace).trees.drop_last())),
        root_fingerprint(workspace),
    )
}

/// The root fingerprints of the snapshots, in order.
pub open spec fn record_roots(records: Seq<RecordView>) -> Seq<Seq<u8>> {
    Seq::new(records.len(), |i: int| records[i].root)
}

/// The snapshot that a commit writes.
pub open spec fn new_record(
    workspace: DirView,
    author: Seq<char>,
    message: Seq<char>,
    date: int,
) -> RecordView {
    sealed_record(
        RecordView {
            hash: zero_fingerprint(),
            message,
            author,
            date,
            root: root_fingerprint(workspace),
        },
    )
}

/// A commit has nothing to record: the root directory was stored already,
/// and some snapshot has it as its root.
pub open spec fn nothing_changed(repo: RepositoryView, workspace: DirView) -> bool {
    !root_is_new(repo, workspace) && has_key(
        record_roots(repo.records),
        root_fingerprint(workspace),
    )
}

/// The first snapshot of the repository that has the workspace's root as its root.
pub open spec fn unchanged_record(repo: RepositoryView, workspace: DirView) -> RecordView {
    repo.records[index_of(record_roots(repo.records), root_fingerprint(workspace))]
}

/// The store, once the workspace is written into it, holds at least as many
/// directories as the workspace nests levels. It always does unless two
/// different directories meet under one fingerprint; a snapshot of which it
/// did not hold could not be checked out again.
pub open spec fn can_be_restored(repo: RepositoryView, workspace: DirView) -> bool {
    within(workspace, with_snapshot(repo, workspace).trees.len())
}

/// What a commit leads to: the new snapshot and the repository with it, or
/// the error and the repository as the failed attempt leaves it.
pub open spec fn commit_outcome(
    repo: RepositoryView,
    workspace: DirView,
    author: Seq<char>,
    message: Seq<char>,
    date: int,
) -> (Result<RecordView, WsvcFsErrorView>, RepositoryView) {
    if staging(workspace).fault is Some {
        (Err(WsvcFsErrorView::DecompressFailed(staging(workspace).fault->Some_0)), repo)
    } else if nothing_changed(repo, workspace) {
        (
            Err(WsvcFsErrorView::NoChanges(hex_string(unchanged_record(repo, workspace).hash))),
            with_snapshot(repo, workspace),
        )
    } else if !can_be_restored(repo, workspace) {
        (
            Err(WsvcFsErrorView::Corrupt(hex_string(root_fingerprint(workspace)))),
            with_snapshot(repo, workspace),
        )
    } else {
        let record = new_record(workspace, author, message, date);
        let stored = with_snapshot(repo, workspace);
        (
            Ok(record),
            RepositoryView {
                records: put_record(stored.records, record),
                head: hex_string(record.hash),
                ..stored
            },
        )
    }
}

/// `chrono::Utc::now` and `DateTime::timestamp`: the seconds since the epoch
/// at the moment of the call. Nothing is claimed of the result.
#[verifier::external_body]
pub(crate) fn unix_now() -> (seconds: i64) {
    chrono::Utc::now().timestamp()
}

fn stage_dir(dir: &WorkDir, blobs: &mut Vec<StoredBlob>, trees: &mut Vec<Tree>) -> (r: Result<
    Tree,
    ChunkFault,
>)
    ensures
        match r {
            Ok(tree) => {
                &&& staging(dir@).fault is None
                &&& tree@ == staging(dir@).tree
                &&& final(blobs).deep_view() == old(blobs).deep_view() + staging(dir@).blobs
                &&& final(trees).deep_view() == old(trees).deep_view() + staging(dir@).trees
            },
            Err(fault) => staging(dir@).fault == Some(fault),
        },
    decreases dir,
{
    proof {
        dir.lemma_view();
    }
    let ghost blobs0 = blobs.deep_view();
    let ghost trees0 = trees.deep_view();
    let ghost files = dir@.files;
    let mut entries: Vec<Blob> = Vec::new();
    let mut i: usize = 0;
    assert(blobs.deep_view() =~= blobs0 + files_stored(kept_files(files, 0)));
    assert(entries.deep_view() =~= file_blobs(kept_files(files, 0)));
    while i < dir.files.len()
        invariant
            i <= dir.files@.len(),
            files == dir@.files,
            files.len() == dir.files@.len(),
            forall|k: int| 0 <= k < dir.files@.len() ==> #[trigger] files[k] == dir.files@[k]@,
            blobs.deep_view() == blobs0 + files_stored(kept_files(files, i as nat)),
            entries.deep_view() == file_blobs(kept_files(files, i as nat)),
            files_fault(kept_files(files, i as nat)) is None,
        decreases dir.files@.len() - i,
    {
        let file = &dir.files[i];
        assert(file@ == files[i as int]);
        if !str_eq(file.name.as_str(), ".wsvc") {
            let ghost kept = kept_files(files, i as nat);
            let data = match compress_blob(file.content.as_slice()) {
                Ok(data) => data,
                Err(fault) => {
                    proof {
                        let now = kept_files(files, (i + 1) as nat);
                        assert(now == kept.push(files[i as int]));
                        assert(now.drop_last() =~= kept);
                        assert(files_fault(now) == Some(fault));
                        lemma_files_fault_stays(files, (i + 1) as nat, files.len());
                    }
                    return Err(fault);
                },
            };
            let hash = fingerprint(file.content.as_slice());
            let ghost before_blobs = blobs.deep_view();
            let ghost before_entries = entries.deep_view();
            let stored = StoredBlob { hash, data };
            let entry = Blob { name: file.name.clone(), hash };
            assert(stored@ == file_stored(files[i as int]));
            assert(entry@ == file_blob(files[i as int]));
            blobs.push(stored);
            entries.push(entry);
            proof {
                let now = kept.push(files[i as int]);
                assert(blobs.deep_view() =~= before_blobs.push(file_stored(files[i as int])));
                assert(entries.deep_view() =~= before_entries.push(file_blob(files[i as int])));
                assert(files_stored(now) =~= files_stored(kept).push(file_stored(files[i as int])));
                assert(file_blobs(now) =~= file_blobs(kept).push(file_blob(files[i as int])));
                assert(blobs.deep_view() =~= blobs0 + files_stored(now));
                assert(now.drop_last() =~= kept);
                assert(files_fault(now) is None);
            }
        }
        i += 1;
    }
    let ghost walked = walked_files(dir@);
    let ghost dirs = dir@.dirs;
    let mut hashes: Vec<ObjectId> = Vec::new();
    let mut j: usize = 0;
    assert(blobs.deep_view() =~= blobs0 + files_stored(walked) + child_staging(dirs, 0).blobs);
    assert(trees.deep_view() =~= trees0 + child_staging(dirs, 0).trees);
    assert(hashes.deep_view() =~= child_staging(dirs, 0).hashes);
    while j < dir.dirs.len()
        invariant
            j <= dir.dirs@.len(),
            dirs == dir@.dirs,
            dirs.len() == dir.dirs@.len(),
            forall|k: int| 0 <= k < dir.dirs@.len() ==> #[trigger] dirs[k] == dir.dirs@[k]@,
            child_staging(dirs, j as nat).fault is None,
            files_fault(walked) is None,
            walked == walked_files(dir@),
            hashes.deep_view() == child_staging(dirs, j as nat).hashes,
            blobs.deep_view() == blobs0 + files_stored(walked) + child_staging(dirs, j as nat).blobs,
            trees.deep_view() == trees0 + child_staging(dirs, j as nat).trees,
        decreases dir.dirs@.len() - j,
    {
        let child = &dir.dirs[j];
        assert(child@ == dirs[j as int]);
        proof {
            child.lemma_view();
        }
        if !str_eq(child.name.as_str(), ".wsvc") {
            let ghost before_hashes = hashes.deep_view();
            let ghost before_blobs = blobs.deep_view();
            let ghost before_trees = trees.deep_view();
            let ghost prior = child_staging(dirs, j as nat);
            let sub = match stage_dir(child, blobs, trees) {
                Ok(sub) => sub,
                Err(fault) => {
                    assert(child_staging(dirs, (j + 1) as nat).fault == Some(fault));
                    proof {
                        lemma_child_fault_stays(dirs, (j + 1) as nat, dirs.len());
                    }
                    return Err(fault);
                },
            };
            hashes.push(sub.hash);
            assert(hashes.deep_view() =~= before_hashes.push(sub.hash@));
            assert(blobs.deep_view() =~= blobs0 + files_stored(walked) + (prior.blobs + staging(
                dirs[j as int],
            ).blobs));
            assert(trees.deep_view() =~= trees0 + (prior.trees + staging(dirs[j as int]).trees));
        }
        j += 1;
    }
    let tree = Tree { name: dir.name.clone(), hash: ObjectId::default(), trees: hashes, blobs: entries };
    let hash = tree.fingerprint();
    let sealed = Tree { name: tree.name, hash, trees: tree.trees, blobs: tree.blobs };
    let copy = sealed.clone();
    let ghost before_trees = trees.deep_view();
    trees.push(sealed);
    proof {
        let below = child_staging(dirs, dirs.len());
        assert(copy@ == staging(dir@).tree);
        assert(trees.deep_view() =~= before_trees.push(copy@));
        assert(trees.deep_view() =~= trees0 + below.trees.push(copy@));
        assert(blobs.deep_view() =~= blobs0 + (files_stored(walked) + below.blobs));
    }
    Ok(copy)
}

/// The first fault among some files is the first fault among more of them.
proof fn lemma_files_fault_stays(files: Seq<FileView>, n: nat, m: nat)
    requires
        n <= m <= files.len(),
        files_fault(kept_files(files, n)) is Some,
    ensures
        files_fault(kept_files(files, m)) == files_fault(kept_files(files, n)),
    decreases m,
{
    if n < m {
        lemma_files_fault_stays(files, n, (m - 1) as nat);
        let before = kept_files(files, (m - 1) as nat);
        let now = kept_files(files, m);
        if !is_store_name(files[m - 1].name) {
            assert(now.drop_last() =~= before);
        }
    }
}

/// The first fault below some subdirectories is the first fault below more
/// of them.
proof fn lemma_child_fault_stays(dirs: Seq<DirView>, n: nat, m: nat)
    requires
        n <= m <= dirs.len(),
        child_staging(dirs, n).fault is Some,
    ensures
        child_staging(dirs, m).fault == child_staging(dirs, n).fault,
    decreases m,
{
    if n < m {
        lemma_child_fault_stays(dirs, n, (m - 1) as nat);
    }
}

/// Whether the directory nests at most `depth` levels of subdirectories,
/// the repository directories not counted.
pub fn nests_within(dir: &WorkDir, depth: usize) -> (r: bool)
    ensures
        r == within(dir@, depth as nat),
    decreases dir,
{
    proof {
        dir.lemma_view();
    }
    let ghost dirs = dir@.dirs;
    let mut j: usize = 0;
    while j < dir.dirs.len()
        invariant
            j <= dir.dirs@.len(),
            dirs == dir@.dirs,
            dirs.len() == dir.dirs@.len(),
            forall|k: int| 0 <= k < dir.dirs@.len() ==> #[trigger] dirs[k] == dir.dirs@[k]@,
            dirs_within(dirs, j as nat, depth as nat),
        decreases dir.dirs@.len() - j,
    {
        let child = &dir.dirs[j];
        assert(child@ == dirs[j as int]);
        proof {
            child.lemma_view();
        }
        if !str_eq(child.name.as_str(), ".wsvc") {
            if depth == 0 || !nests_within(child, depth - 1) {
                proof {
                    assert(!dirs_within(dirs, (j + 1) as nat, depth as nat));
                    lemma_not_within(dirs, (j + 1) as nat, dirs.len(), depth as nat);
                }
                return false;
            }
        }
        j += 1;
    }
    true
}

/// Subdirectories that nest too deep stay so when more are added.
proof fn lemma_not_within(dirs: Seq<DirView>, n: nat, m: nat, depth: nat)
    requires
        n <= m <= dirs.len(),
        !dirs_within(dirs, n, depth),
    ensures
        !dirs_within(dirs, m, depth),
    decreases m,
{
    if n < m {
        lemma_not_within(dirs, n, (m - 1) as nat, depth);
    }
}

fn find_root(records: &Vec<Record>, root: &ObjectId) -> (r: Option<usize>)
    ensures
        match r {
            Some(i) => first_at(record_roots(records.deep_view()), root@, i as int),
            None => !has_key(record_roots(records.deep_view()), root@),
        },
{
    let mut i: usize = 0;
    while i < records.len()
        invariant
            i <= records@.len(),
            forall|j: int| 0 <= j < i ==> record_roots(records.deep_view())[j] != root@,
        decreases records@.len() - i,
    {
        if records[i].root == *root {
            return Some(i);
        }
        i += 1;
    }
    None
}

impl Repository {
    /// Stores what `entry` holds under its fingerprint, over whatever is there.
    pub fn put_stored_blob(&mut self, entry: StoredBlob)
        ensures
            final(self)@ == (RepositoryView {
                objects: put_blob(old(self)@.objects, entry@),
                ..old(self)@
            }),
    {
        let ghost before = self.objects.deep_view();
        let ghost keys = crate::fs::store::blob_keys(before);
        let mut i: usize = 0;
        while i < self.objects.len()
            invariant
                i <= self.objects@.len(),
                self.objects.deep_view() == before,
                *self == *old(self),
                forall|j: int| 0 <= j < i ==> keys[j] != entry@.hash,
                keys == crate::fs::store::blob_keys(before),
            decreases self.objects@.len() - i,
        {
            if self.objects[i].hash == entry.hash {
                proof {
                    lemma_first_at(keys, entry@.hash, i as int);
                }
                self.objects[i] = entry;
                assert(self.objects.deep_view() =~= before.update(i as int, entry@));
                return ;
            }
            i += 1;
        }
        self.objects.push(entry);
        assert(self.objects.deep_view() =~= before.push(entry@));
    }

    /// Stores a directory under the fingerprint in its `hash` field unless
    /// one is stored there already. Returns whether it was written.
    pub fn put_sealed_tree(&mut self, tree: Tree) -> (written: bool)
        ensures
            written == !old(self)@.has_tree(tree@.hash),
            final(self)@ == (RepositoryView {
                trees: put_tree(old(self)@.trees, tree@),
                ..old(self)@
            }),
    {
        if self.tree_exists(&tree.hash) {
            false
        } else {
            let ghost before = self.trees.deep_view();
            let ghost view = tree@;
            self.trees.push(tree);
            assert(self.trees.deep_view() =~= before.push(view));
            true
        }
    }

    /// Stores every file and every directory of the workspace, the
    /// directories after what lies below them. Returns the root directory with
    /// its fingerprint, and whether it was written.
    ///
    /// Fails, and leaves the store as it is, exactly when some file cannot be
    /// stored.
    pub fn write_tree_recursively(&mut self, workspace: &WorkDir) -> (r: Result<
        (Tree, bool),
        WsvcFsError,
    >)
        ensures
            match r {
                Ok((tree, is_new)) => {
                    &&& staging(workspace@).fault is None
                    &&& tree@ == staging(workspace@).tree
                    &&& is_new == root_is_new(old(self)@, workspace@)
                    &&& final(self)@ == with_snapshot(old(self)@, workspace@)
                },
                Err(e) => {
                    &&& staging(workspace@).fault matches Some(fault) && e@
                        == WsvcFsErrorView::DecompressFailed(fault)
                    &&& final(self)@ == old(self)@
                },
            },
    {
        let mut blobs: Vec<StoredBlob> = Vec::new();
        let mut trees: Vec<Tree> = Vec::new();
        assert(blobs.deep_view() =~= Seq::empty());
        assert(trees.deep_view() =~= Seq::empty());
        let root = match stage_dir(workspace, &mut blobs, &mut trees) {
            Ok(root) => root,
            Err(fault) => {
                return Err(WsvcFsError::DecompressFailed(fault));
            },
        };
        let ghost staged = staging(workspace@);
        assert(blobs.deep_view() =~= staged.blobs);
        assert(trees.deep_view() =~= staged.trees);
        let ghost start = self@;
        let mut i: usize = 0;
        assert(staged.blobs.take(0) =~= Seq::empty());
        while i < blobs.len()
            invariant
                i <= blobs@.len(),
                blobs.deep_view() == staged.blobs,
                self@ == (RepositoryView {
                    objects: put_blobs(start.objects, staged.blobs.take(i as int)),
                    ..start
                }),
            decreases blobs@.len() - i,
        {
            let entry = StoredBlob {
                hash: blobs[i].hash,
                data: copy_range(blobs[i].data.as_slice(), 0, blobs[i].data.len()),
            };
            assert(entry@.data =~= blobs@[i as int]@.data);
            assert(entry@ == staged.blobs[i as int]);
            self.put_stored_blob(entry);
            assert(staged.blobs.take(i + 1).drop_last() =~= staged.blobs.take(i as int));
            i += 1;
        }
        assert(staged.blobs.take(i as int) =~= staged.blobs);
        let ghost middle = self@;
        let mut j: usize = 0;
        let mut is_new = false;
        assert(staged.trees.take(0) =~= Seq::empty());
        while j < trees.len()
            invariant
                j <= trees@.len(),
                trees.deep_view() == staged.trees,
                staged.trees.len() > 0,
                self@ == (RepositoryView {
                    trees: put_trees(start.trees, staged.trees.take(j as int)),
                    ..middle
                }),
                j == trees@.len() ==> is_new == !has_key(
                    tree_keys(put_trees(start.trees, staged.trees.drop_last())),
                    staged.trees.last().hash,
                ),
            decreases trees@.len() - j,
        {
            let tree = trees[j].clone();
            assert(tree@ == staged.trees[j as int]);
            assert(staged.trees.take(j + 1).drop_last() =~= staged.trees.take(j as int));
            if j + 1 == trees.len() {
                assert(staged.trees.take(j as int) =~= staged.trees.drop_last());
            }
            is_new = self.put_sealed_tree(tree);
            j += 1;
        }
        assert(staged.trees.take(j as int) =~= staged.trees);
        Ok((root, is_new))
    }

    /// The first stored snapshot whose root directory has the fingerprint
    /// `tree_id`, if there is one.
    pub fn find_record_for_tree(&self, tree_id: &ObjectId) -> (r: Option<Record>)
        ensures
            match r {
                Some(record) => {
                    &&& has_key(record_roots(self@.records), tree_id@)
                    &&& record@ == self@.records[index_of(record_roots(self@.records), tree_id@)]
                },
                None => !has_key(record_roots(self@.records), tree_id@),
            },
    {
        match find_root(&self.records, tree_id) {
            Some(i) => {
                proof {
                    lemma_first_at(record_roots(self.records.deep_view()), tree_id@, i as int);
                }
                Some(self.records[i].clone())
            },
            None => None,
        }
    }

    /// Takes a snapshot of the workspace, dated with the current time.
    ///
    /// The outcome is that of [`Repository::commit_record_at`] for some date.
    pub fn commit_record(&mut self, workspace: &WorkDir, author: &str, message: &str) -> (r: Result<
        Record,
        WsvcFsError,
    >)
        ensures
            exists|date: i64|
                commit_matches(
                    old(self)@,
                    workspace@,
                    author@,
                    message@,
                    date as int,
                    r,
                    final(self)@,
                ),
    {
        let date = unix_now();
        let r = self.commit_record_at(workspace, author, message, date);
        assert(commit_matches(old(self)@, workspace@, author@, message@, date as int, r, self@));
        r
    }

    /// Takes a snapshot of the workspace, dated `date`.
    ///
    /// The files and directories of the workspace are stored first. If the
    /// root directory was stored already and some snapshot has it as its
    /// root, the commit fails with [`WsvcFsError::NoChanges`] and the
    /// fingerprint of the first such snapshot. Otherwise a snapshot with the
    /// given author, message and date is stored, and `HEAD` is set to it.
    /// If some file cannot be stored, nothing is written at all. A workspace
    /// that nests deeper than the store then holds directories is refused as
    /// corrupt: two of its directories share a fingerprint.
    pub fn commit_record_at(
        &mut self,
        workspace: &WorkDir,
        author: &str,
        message: &str,
        date: i64,
    ) -> (r: Result<Record, WsvcFsError>)
        ensures
            commit_matches(
                old(self)@,
                workspace@,
                author@,
                message@,
                date as int,
                r,
                final(self)@,
            ),
    {
        let (tree, is_new) = match self.write_tree_recursively(workspace) {
            Ok(done) => done,
            Err(e) => {
                return Err(e);
            },
        };
        if !is_new {
            match self.find_record_for_tree(&tree.hash) {
                Some(record) => {
                    return Err(WsvcFsError::NoChanges(record.hash.to_hex()));
                },
                None => {},
            }
        }
        if !nests_within(workspace, self.trees.len()) {
            return Err(WsvcFsError::Corrupt(tree.hash.to_hex()));
        }
        let draft = Record {
            hash: ObjectId::default(),
            message: message.to_owned(),
            author: author.to_owned(),
            date,
            root: tree.hash,
        };
        let hash = draft.fingerprint();
        let record = Record {
            hash,
            message: draft.message,
            author: draft.author,
            date: draft.date,
            root: draft.root,
        };
        self.store_record(&record);
        self.head = hash.to_hex();
        Ok(record)
    }
}

/// The result `r` and the state `after` are what a commit leads to.
pub open spec fn commit_matches(
    before: RepositoryView,
    workspace: DirView,
    author: Seq<char>,
    message: Seq<char>,
    date: int,
    r: Result<Record, WsvcFsError>,
    after: RepositoryView,
) -> bool {
    let outcome = commit_outcome(before, workspace, author, message, date);
    &&& after == outcome.1
    &&& match r {
        Ok(record) => outcome.0 == Ok::<RecordView, WsvcFsErrorView>(record@),
        Err(e) => outcome.0 == Err::<RecordView, WsvcFsErrorView>(e@),
    }
}

} // verus!
