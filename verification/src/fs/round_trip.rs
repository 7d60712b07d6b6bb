//! A checkout gives back what a commit took: the workspace without the
//! repository's own directory.

use vstd::prelude::*;
use crate::codec::{decoded_blob, encoded_blob, lemma_decode_encoded};
use crate::digest::blake3_digest;
use crate::fs::checkout::{
    checkout_outcome, old_subdir, restored, restored_dirs, restored_file, restored_files,
    store_dirs,
};
use crate::fs::commit::{
    child_staging, commit_outcome, file_blob, file_blobs, file_stored, files_fault, files_stored,
    new_record, put_blobs, put_trees, staging, with_snapshot,
};
use crate::fs::store::{blob_keys, put_blob, put_record, record_keys, tree_keys};
use crate::fs::workdir::{
    dir_names, empty_dir, file_names, is_store_name, walked_files, DirView, FileView,
};
use crate::fs::WsvcFsErrorView;
use crate::hex::hex_string;
use crate::lookup::{first_at, has_key, index_of, lemma_first_at, lemma_has_key};
use crate::model::{RecordView, RepositoryView, StoredBlobView, TreeView};

verus! {

/// The first `n` of `dirs` without the repository directories, each
/// without the repository directories below it.
pub open spec fn stripped_dirs(dirs: Seq<DirView>, n: nat) -> Seq<DirView>
    decreases dirs, 0nat, n,
{
    if n == 0 || n > dirs.len() {
        Seq::empty()
    } else if is_store_name(dirs[n - 1].name) {
        stripped_dirs(dirs, (n - 1) as nat)
    } else {
        stripped_dirs(dirs, (n - 1) as nat).push(stripped(dirs[n - 1]))
    }
}

/// A directory without the entries named like the repository directory,
/// at and below it: what a snapshot of it keeps.
pub open spec fn stripped(dir: DirView) -> DirView
    decreases dir, 1nat,
{
    DirView {
        name: dir.name,
        dirs: stripped_dirs(dir.dirs, dir.dirs.len()),
        files: walked_files(dir),
    }
}

/// The first `n` of `dirs` nest at most `depth` levels deep below them.
pub open spec fn dirs_within(dirs: Seq<DirView>, n: nat, depth: nat) -> bool
    decreases dirs, 0nat, n,
{
    if n == 0 || n > dirs.len() {
        true
    } else {
        &&& dirs_within(dirs, (n - 1) as nat, depth)
        &&& is_store_name(dirs[n - 1].name) || (depth > 0 && within(
            dirs[n - 1],
            (depth - 1) as nat,
        ))
    }
}

/// The directory nests at most `depth` levels of subdirectories, the
/// repository directories not counted.
pub open spec fn within(dir: DirView, depth: nat) -> bool
    decreases dir, 1nat,
{
    dirs_within(dir.dirs, dir.dirs.len(), depth)
}

/// The store holds the first `n` of `dirs` as snapshots.
pub open spec fn holds_dirs(repo: RepositoryView, dirs: Seq<DirView>, n: nat) -> bool
    decreases dirs, 0nat, n,
{
    if n == 0 || n > dirs.len() {
        true
    } else {
        &&& holds_dirs(repo, dirs, (n - 1) as nat)
        &&& is_store_name(dirs[n - 1].name) || holds(repo, dirs[n - 1])
    }
}

/// The store holds the snapshot of the directory: under the fingerprint of
/// the directory, and of each directory below it, the directory object of its
/// snapshot; and under the fingerprint of each file, content that reads back
/// as the file's content.
pub open spec fn holds(repo: RepositoryView, dir: DirView) -> bool
    decreases dir, 1nat,
{
    &&& repo.has_tree(staging(dir).tree.hash)
    &&& repo.tree(staging(dir).tree.hash) == staging(dir).tree
    &&& forall|i: int|
        0 <= i < walked_files(dir).len() ==> repo.blob_content(
            blake3_digest(#[trigger] walked_files(dir)[i].content),
        ) == Ok::<Seq<u8>, WsvcFsErrorView>(walked_files(dir)[i].content)
    &&& holds_dirs(repo, dir.dirs, dir.dirs.len())
}

/// Restoring subdirectories looks at the fingerprints up to the last one
/// restored, and at no other.
proof fn lemma_dirs_prefix(
    repo: RepositoryView,
    short: Seq<Seq<u8>>,
    long: Seq<Seq<u8>>,
    dir: DirView,
    n: nat,
    depth: nat,
)
    requires
        n <= short.len(),
        short.len() <= long.len(),
        forall|i: int| 0 <= i < short.len() ==> short[i] == long[i],
    ensures
        restored_dirs(repo, short, dir, n, depth) == restored_dirs(repo, long, dir, n, depth),
    decreases n,
{
    if n > 0 {
        lemma_dirs_prefix(repo, short, long, dir, (n - 1) as nat, depth);
    }
}

/// No file that a snapshot takes is named like the repository directory.
proof fn lemma_kept_names(files: Seq<FileView>, n: nat, i: int)
    requires
        n <= files.len(),
        0 <= i < crate::fs::workdir::kept_files(files, n).len(),
    ensures
        !is_store_name(crate::fs::workdir::kept_files(files, n)[i].name),
    decreases n,
{
    if n > 0 {
        let before = crate::fs::workdir::kept_files(files, (n - 1) as nat);
        if i < before.len() {
            lemma_kept_names(files, (n - 1) as nat, i);
        }
    }
}

/// Into an empty directory, the files of a snapshot are restored as they were.
proof fn lemma_files_back(repo: RepositoryView, dir: DirView, name: Seq<char>, n: nat)
    requires
        holds(repo, dir),
        n <= walked_files(dir).len(),
    ensures
        restored_files(repo, empty_dir(name), file_blobs(walked_files(dir)), n) == Ok::<
            Seq<FileView>,
            WsvcFsErrorView,
        >(walked_files(dir).take(n as int)),
    decreases n,
{
    let target = empty_dir(name);
    let files = walked_files(dir);
    if n > 0 {
        lemma_files_back(repo, dir, name, (n - 1) as nat);
        let file = files[n - 1];
        let blob = file_blobs(files)[n - 1];
        assert(blob == file_blob(file));
        lemma_kept_names(dir.files, dir.files.len(), n - 1);
        assert(!has_key(dir_names(target.dirs), blob.name));
        assert(!has_key(file_names(target.files), blob.name));
        assert(repo.blob_content(blake3_digest(file.content)) == Ok::<Seq<u8>, WsvcFsErrorView>(
            file.content,
        ));
        assert(restored_file(repo, target, blob) == Ok::<FileView, WsvcFsErrorView>(file));
        assert(files.take(n as int) =~= files.take(n - 1).push(file));
    } else {
        assert(files.take(0) =~= Seq::<FileView>::empty());
    }
}

/// Into an empty directory, the subdirectories of a snapshot are restored
/// as they were, without the repository directories.
proof fn lemma_dirs_back(
    repo: RepositoryView,
    dirs: Seq<DirView>,
    name: Seq<char>,
    n: nat,
    depth: nat,
)
    requires
        n <= dirs.len(),
        holds_dirs(repo, dirs, n),
        dirs_within(dirs, n, depth),
    ensures
        restored_dirs(
            repo,
            child_staging(dirs, n).hashes,
            empty_dir(name),
            child_staging(dirs, n).hashes.len(),
            depth,
        ) == Ok::<Seq<DirView>, WsvcFsErrorView>(stripped_dirs(dirs, n)),
    decreases dirs, 0nat, n,
{
    let target = empty_dir(name);
    if n > 0 {
        lemma_dirs_back(repo, dirs, name, (n - 1) as nat, depth);
        let before = child_staging(dirs, (n - 1) as nat).hashes;
        let child = dirs[n - 1];
        if !is_store_name(child.name) {
            let hash = staging(child).tree.hash;
            let now = child_staging(dirs, n).hashes;
            assert(now == before.push(hash));
            lemma_dirs_prefix(repo, before, now, target, before.len(), depth);
            assert(holds(repo, child));
            assert(depth > 0 && within(child, (depth - 1) as nat));
            lemma_back(repo, child, child.name, (depth - 1) as nat);
            assert(repo.has_tree(hash));
            assert(repo.tree(hash) == staging(child).tree);
            assert(staging(child).tree.name == child.name);
            assert(repo.tree(hash).name == child.name);
            assert(!has_key(dir_names(target.dirs), child.name));
            assert(old_subdir(target, child.name) == empty_dir(child.name));
            assert(now[now.len() - 1] == hash);
            assert(restored(
                repo,
                repo.tree(hash),
                old_subdir(target, repo.tree(hash).name),
                (depth - 1) as nat,
            ) == Ok::<DirView, WsvcFsErrorView>(stripped(child)));
            assert(restored_dirs(repo, now, target, (now.len() - 1) as nat, depth) == Ok::<
                Seq<DirView>,
                WsvcFsErrorView,
            >(stripped_dirs(dirs, (n - 1) as nat)));
        }
    }
}

/// Checking out the snapshot of a directory into an empty directory gives
/// the directory back, without the repository directories.
proof fn lemma_back(repo: RepositoryView, dir: DirView, name: Seq<char>, depth: nat)
    requires
        holds(repo, dir),
        within(dir, depth),
    ensures
        restored(repo, staging(dir).tree, empty_dir(name), depth) == Ok::<
            DirView,
            WsvcFsErrorView,
        >(DirView { name, ..stripped(dir) }),
    decreases dir, 1nat, 0nat,
{
    let tree = staging(dir).tree;
    let target = empty_dir(name);
    lemma_dirs_back(repo, dir.dirs, name, dir.dirs.len(), depth);
    lemma_files_back(repo, dir, name, walked_files(dir).len());
    assert(walked_files(dir).take(walked_files(dir).len() as int) =~= walked_files(dir));
    let dirs = stripped_dirs(dir.dirs, dir.dirs.len());
    assert(store_dirs(target.dirs, 0) =~= Seq::<DirView>::empty());
    assert(dirs + Seq::<DirView>::empty() =~= dirs);
}

/// A snapshot that the store holds comes back from a checkout: checking
/// out the snapshot of a workspace into an empty directory yields the
/// workspace as it was, name for name and byte for byte, without the
/// repository's own directory.
///
/// The store must hold what the commit wrote, which it does unless two
/// different objects have one fingerprint, and it must hold at least as many
/// directories as the workspace nests levels.
pub proof fn lemma_checkout_gives_the_workspace_back(
    repo: RepositoryView,
    workspace: DirView,
    record: RecordView,
    name: Seq<char>,
)
    requires
        holds(repo, workspace),
        within(workspace, repo.trees.len()),
        repo.has_record(record.hash),
        repo.record(record.hash) == record,
        record.root == staging(workspace).tree.hash,
    ensures
        checkout_outcome(repo, record.hash, empty_dir(name)) == Ok::<
            (RecordView, DirView, RepositoryView),
            WsvcFsErrorView,
        >(
            (
                record,
                DirView { name, ..stripped(workspace) },
                RepositoryView { head: hex_string(record.hash), temp: Seq::empty(), ..repo },
            ),
        ),
{
    lemma_back(repo, workspace, name, repo.trees.len());
}

/// Each of `entries` is what the store gives under its fingerprint.
pub open spec fn objects_hold(objects: Seq<StoredBlobView>, entries: Seq<StoredBlobView>) -> bool {
    forall|i: int|
        0 <= i < entries.len() ==> has_key(blob_keys(objects), (#[trigger] entries[i]).hash)
            && objects[index_of(blob_keys(objects), entries[i].hash)].data == entries[i].data
}

/// Each of `entries` is what the store gives under its fingerprint.
pub open spec fn trees_hold(trees: Seq<TreeView>, entries: Seq<TreeView>) -> bool {
    forall|i: int|
        0 <= i < entries.len() ==> has_key(tree_keys(trees), (#[trigger] entries[i]).hash)
            && trees[index_of(tree_keys(trees), entries[i].hash)] == entries[i]
}

/// No two of `entries` have one fingerprint and different stored forms.
pub open spec fn blobs_agree(entries: Seq<StoredBlobView>) -> bool {
    forall|i: int, j: int|
        0 <= i < entries.len() && 0 <= j < entries.len() && (#[trigger] entries[i]).hash == (
        #[trigger] entries[j]).hash ==> entries[i].data == entries[j].data
}

/// No two directories among `stored` and `staged` have one fingerprint and
/// differ, at least one of them being among `staged`.
pub open spec fn trees_agree(stored: Seq<TreeView>, staged: Seq<TreeView>) -> bool {
    &&& forall|i: int, j: int|
        0 <= i < staged.len() && 0 <= j < staged.len() && (#[trigger] staged[i]).hash == (
        #[trigger] staged[j]).hash ==> staged[i] == staged[j]
    &&& forall|i: int, j: int|
        0 <= i < stored.len() && 0 <= j < staged.len() && (#[trigger] stored[i]).hash == (
        #[trigger] staged[j]).hash ==> stored[i] == staged[j]
}

/// The first `n` of `dirs` have only files whose stored form reads back as
/// their content.
pub open spec fn dirs_read_back(dirs: Seq<DirView>, n: nat) -> bool
    decreases dirs, 0nat, n,
{
    if n == 0 || n > dirs.len() {
        true
    } else {
        &&& dirs_read_back(dirs, (n - 1) as nat)
        &&& is_store_name(dirs[n - 1].name) || reads_back(dirs[n - 1])
    }
}

/// Each of `files` has a stored form that reads back as its content.
pub open spec fn files_read_back(files: Seq<FileView>) -> bool {
    forall|i: int|
        0 <= i < files.len() ==> decoded_blob(encoded_blob(#[trigger] files[i].content)) == Ok::<
            Seq<u8>,
            crate::codec::ChunkFault,
        >(files[i].content)
}

/// Every file that a snapshot of the directory takes has a stored form that
/// reads back as its content: what a commit has seen of each file it stored.
pub open spec fn reads_back(dir: DirView) -> bool
    decreases dir, 1nat,
{
    &&& files_read_back(walked_files(dir))
    &&& dirs_read_back(dir.dirs, dir.dirs.len())
}

/// Files without a fault read back as they are.
proof fn lemma_files_read_back(files: Seq<FileView>)
    requires
        files_fault(files) is None,
    ensures
        files_read_back(files),
    decreases files.len(),
{
    if files.len() > 0 {
        lemma_files_read_back(files.drop_last());
        lemma_decode_encoded(files.last().content);
        assert forall|i: int| 0 <= i < files.len() implies decoded_blob(
            encoded_blob(#[trigger] files[i].content),
        ) == Ok::<Seq<u8>, crate::codec::ChunkFault>(files[i].content) by {
            if i < files.len() - 1 {
                assert(files.drop_last()[i] == files[i]);
            }
        }
    }
}

/// Subdirectories whose snapshots have no fault have only files that read back.
proof fn lemma_dirs_stored_read_back(dirs: Seq<DirView>, n: nat)
    requires
        n <= dirs.len(),
        child_staging(dirs, n).fault is None,
    ensures
        dirs_read_back(dirs, n),
    decreases dirs, 0nat, n,
{
    if n > 0 {
        lemma_dirs_stored_read_back(dirs, (n - 1) as nat);
        if !is_store_name(dirs[n - 1].name) {
            lemma_stored_reads_back(dirs[n - 1]);
        }
    }
}

/// A directory whose snapshot has no fault has only files that read back:
/// what can be stored can be read again.
pub proof fn lemma_stored_reads_back(dir: DirView)
    requires
        staging(dir).fault is None,
    ensures
        reads_back(dir),
    decreases dir, 1nat, 0nat,
{
    lemma_files_read_back(walked_files(dir));
    lemma_dirs_stored_read_back(dir.dirs, dir.dirs.len());
}

/// What a store gives under a fingerprint after a file content was written.
pub proof fn lemma_put_blob_lookup(objects: Seq<StoredBlobView>, entry: StoredBlobView, key: Seq<u8>)
    ensures
        has_key(blob_keys(put_blob(objects, entry)), entry.hash),
        put_blob(objects, entry)[index_of(blob_keys(put_blob(objects, entry)), entry.hash)]
            == entry,
        key != entry.hash ==> has_key(blob_keys(put_blob(objects, entry)), key) == has_key(
            blob_keys(objects),
            key,
        ),
        key != entry.hash && has_key(blob_keys(objects), key) ==> put_blob(
            objects,
            entry,
        )[index_of(blob_keys(put_blob(objects, entry)), key)] == objects[index_of(
            blob_keys(objects),
            key,
        )],
{
    let keys = blob_keys(objects);
    let after = put_blob(objects, entry);
    let after_keys = blob_keys(after);
    if has_key(keys, entry.hash) {
        lemma_has_key(keys, entry.hash);
        let i = index_of(keys, entry.hash);
        assert(after_keys =~= keys);
        if has_key(keys, key) {
            lemma_has_key(keys, key);
        }
    } else {
        assert(after_keys =~= keys.push(entry.hash));
        assert(first_at(after_keys, entry.hash, keys.len() as int));
        lemma_first_at(after_keys, entry.hash, keys.len() as int);
        crate::lookup::lemma_has_key_push(keys, entry.hash, key);
        if key != entry.hash && has_key(keys, key) {
            lemma_has_key(keys, key);
            let j = index_of(keys, key);
            assert(first_at(after_keys, key, j));
            lemma_first_at(after_keys, key, j);
        }
    }
}

/// After file contents that agree were written, the store gives each of
/// them under its fingerprint.
pub proof fn lemma_put_blobs_hold(objects: Seq<StoredBlobView>, entries: Seq<StoredBlobView>)
    requires
        blobs_agree(entries),
    ensures
        objects_hold(put_blobs(objects, entries), entries),
    decreases entries.len(),
{
    if entries.len() > 0 {
        let front = entries.drop_last();
        let last = entries.last();
        assert(blobs_agree(front)) by {
            assert forall|i: int, j: int|
                0 <= i < front.len() && 0 <= j < front.len() && (#[trigger] front[i]).hash == (
                #[trigger] front[j]).hash implies front[i].data == front[j].data by {
                assert(front[i] == entries[i] && front[j] == entries[j]);
            }
        }
        lemma_put_blobs_hold(objects, front);
        let before = put_blobs(objects, front);
        let after = put_blobs(objects, entries);
        assert forall|i: int| 0 <= i < entries.len() implies has_key(
            blob_keys(after),
            (#[trigger] entries[i]).hash,
        ) && after[index_of(blob_keys(after), entries[i].hash)].data == entries[i].data by {
            lemma_put_blob_lookup(before, last, entries[i].hash);
            if entries[i].hash == last.hash {
                assert(entries[entries.len() - 1] == last);
            } else {
                assert(front[i] == entries[i]);
            }
        }
    }
}

/// Every directory of a store after directories were written was in the
/// store before or is one of those written.
pub proof fn lemma_put_trees_origin(trees: Seq<TreeView>, entries: Seq<TreeView>, k: int)
    requires
        0 <= k < put_trees(trees, entries).len(),
    ensures
        (exists|i: int| 0 <= i < trees.len() && trees[i] == put_trees(trees, entries)[k]) || (
        exists|j: int| 0 <= j < entries.len() && entries[j] == put_trees(trees, entries)[k]),
    decreases entries.len(),
{
    if entries.len() == 0 {
        assert(trees[k] == put_trees(trees, entries)[k]);
    } else {
        let front = entries.drop_last();
        let before = put_trees(trees, front);
        let after = put_trees(trees, entries);
        if k < before.len() {
            assert(after[k] == before[k]);
            lemma_put_trees_origin(trees, front, k);
            if exists|j: int| 0 <= j < front.len() && front[j] == before[k] {
                let j = choose|j: int| 0 <= j < front.len() && front[j] == before[k];
                assert(entries[j] == after[k]);
            }
        } else {
            assert(entries[entries.len() - 1] == after[k]);
        }
    }
}

/// After directories that agree, with each other and with the store, were
/// written, the store gives each of them under its fingerprint.
pub proof fn lemma_put_trees_hold(trees: Seq<TreeView>, entries: Seq<TreeView>)
    requires
        trees_agree(trees, entries),
    ensures
        trees_hold(put_trees(trees, entries), entries),
    decreases entries.len(),
{
    if entries.len() > 0 {
        let front = entries.drop_last();
        let last = entries.last();
        assert(trees_agree(trees, front)) by {
            assert forall|i: int, j: int|
                0 <= i < front.len() && 0 <= j < front.len() && (#[trigger] front[i]).hash == (
                #[trigger] front[j]).hash implies front[i] == front[j] by {
                assert(front[i] == entries[i] && front[j] == entries[j]);
            }
            assert forall|i: int, j: int|
                0 <= i < trees.len() && 0 <= j < front.len() && (#[trigger] trees[i]).hash == (
                #[trigger] front[j]).hash implies trees[i] == front[j] by {
                assert(front[j] == entries[j]);
            }
        }
        lemma_put_trees_hold(trees, front);
        let before = put_trees(trees, front);
        let after = put_trees(trees, entries);
        let keys = tree_keys(before);
        assert(entries[entries.len() - 1] == last);
        if has_key(keys, last.hash) {
            // The directory under the fingerprint was in the store or was
            // written before, and either way it is the same directory.
            lemma_has_key(keys, last.hash);
            let at = index_of(keys, last.hash);
            lemma_put_trees_origin(trees, front, at);
            assert(before[at].hash == last.hash);
            if exists|j: int| 0 <= j < front.len() && front[j] == before[at] {
                let j = choose|j: int| 0 <= j < front.len() && front[j] == before[at];
                assert(entries[j] == before[at]);
            } else {
                let i = choose|i: int| 0 <= i < trees.len() && trees[i] == before[at];
                assert(trees[i].hash == entries[entries.len() - 1].hash);
            }
            assert(before[at] == last);
            assert forall|i: int| 0 <= i < entries.len() implies has_key(
                tree_keys(after),
                (#[trigger] entries[i]).hash,
            ) && after[index_of(tree_keys(after), entries[i].hash)] == entries[i] by {
                if i < front.len() {
                    assert(front[i] == entries[i]);
                }
            }
        } else {
            let after_keys = tree_keys(after);
            assert(after_keys =~= keys.push(last.hash));
            assert(first_at(after_keys, last.hash, keys.len() as int));
            lemma_first_at(after_keys, last.hash, keys.len() as int);
            assert forall|i: int| 0 <= i < entries.len() implies has_key(
                tree_keys(after),
                (#[trigger] entries[i]).hash,
            ) && after[index_of(tree_keys(after), entries[i].hash)] == entries[i] by {
                if i < front.len() {
                    assert(front[i] == entries[i]);
                    lemma_has_key(keys, front[i].hash);
                    let j = index_of(keys, front[i].hash);
                    assert(first_at(after_keys, front[i].hash, j));
                    lemma_first_at(after_keys, front[i].hash, j);
                }
            }
        }
    }
}

/// What holds of a joined list holds of its two parts.
proof fn lemma_objects_hold_split(
    objects: Seq<StoredBlobView>,
    a: Seq<StoredBlobView>,
    b: Seq<StoredBlobView>,
)
    requires
        objects_hold(objects, a + b),
    ensures
        objects_hold(objects, a),
        objects_hold(objects, b),
{
    assert forall|i: int| 0 <= i < a.len() implies has_key(
        blob_keys(objects),
        (#[trigger] a[i]).hash,
    ) && objects[index_of(blob_keys(objects), a[i].hash)].data == a[i].data by {
        assert((a + b)[i] == a[i]);
    }
    assert forall|i: int| 0 <= i < b.len() implies has_key(
        blob_keys(objects),
        (#[trigger] b[i]).hash,
    ) && objects[index_of(blob_keys(objects), b[i].hash)].data == b[i].data by {
        assert((a + b)[a.len() + i] == b[i]);
    }
}

/// What holds of a joined list holds of its two parts.
proof fn lemma_trees_hold_split(trees: Seq<TreeView>, a: Seq<TreeView>, b: Seq<TreeView>)
    requires
        trees_hold(trees, a + b),
    ensures
        trees_hold(trees, a),
        trees_hold(trees, b),
{
    assert forall|i: int| 0 <= i < a.len() implies has_key(tree_keys(trees), (#[trigger] a[i]).hash)
        && trees[index_of(tree_keys(trees), a[i].hash)] == a[i] by {
        assert((a + b)[i] == a[i]);
    }
    assert forall|i: int| 0 <= i < b.len() implies has_key(tree_keys(trees), (#[trigger] b[i]).hash)
        && trees[index_of(tree_keys(trees), b[i].hash)] == b[i] by {
        assert((a + b)[a.len() + i] == b[i]);
    }
}

/// A store that gives what the snapshots of some subdirectories consist of
/// holds those snapshots.
proof fn lemma_holds_dirs(repo: RepositoryView, dirs: Seq<DirView>, n: nat)
    requires
        n <= dirs.len(),
        objects_hold(repo.objects, child_staging(dirs, n).blobs),
        trees_hold(repo.trees, child_staging(dirs, n).trees),
        dirs_read_back(dirs, n),
    ensures
        holds_dirs(repo, dirs, n),
    decreases dirs, 0nat, n,
{
    if n > 0 {
        let before = child_staging(dirs, (n - 1) as nat);
        let child = dirs[n - 1];
        if is_store_name(child.name) {
            lemma_holds_dirs(repo, dirs, (n - 1) as nat);
        } else {
            lemma_objects_hold_split(repo.objects, before.blobs, staging(child).blobs);
            lemma_trees_hold_split(repo.trees, before.trees, staging(child).trees);
            lemma_holds_dirs(repo, dirs, (n - 1) as nat);
            lemma_holds(repo, child);
        }
    }
}

/// A store that gives what the snapshot of a directory consists of holds
/// that snapshot.
proof fn lemma_holds(repo: RepositoryView, dir: DirView)
    requires
        objects_hold(repo.objects, staging(dir).blobs),
        trees_hold(repo.trees, staging(dir).trees),
        reads_back(dir),
    ensures
        holds(repo, dir),
    decreases dir, 1nat, 0nat,
{
    let below = child_staging(dir.dirs, dir.dirs.len());
    let staged = staging(dir);
    let files = walked_files(dir);
    lemma_objects_hold_split(repo.objects, files_stored(files), below.blobs);
    assert(staged.trees == below.trees.push(staged.tree));
    assert(below.trees.push(staged.tree) =~= below.trees + seq![staged.tree]);
    lemma_trees_hold_split(repo.trees, below.trees, seq![staged.tree]);
    assert(seq![staged.tree][0] == staged.tree);
    lemma_holds_dirs(repo, dir.dirs, dir.dirs.len());
    assert forall|i: int| 0 <= i < files.len() implies repo.blob_content(
        blake3_digest(#[trigger] files[i].content),
    ) == Ok::<Seq<u8>, WsvcFsErrorView>(files[i].content) by {
        let entry = files_stored(files)[i];
        assert(entry == file_stored(files[i]));
    }
}

/// What a store gives under a fingerprint after a snapshot was written.
pub proof fn lemma_put_record_lookup(records: Seq<RecordView>, record: RecordView)
    ensures
        has_key(record_keys(put_record(records, record)), record.hash),
        put_record(records, record)[index_of(
            record_keys(put_record(records, record)),
            record.hash,
        )] == record,
{
    let keys = record_keys(records);
    let after = put_record(records, record);
    let after_keys = record_keys(after);
    if has_key(keys, record.hash) {
        lemma_has_key(keys, record.hash);
        assert(after_keys =~= keys);
    } else {
        assert(after_keys =~= keys.push(record.hash));
        assert(first_at(after_keys, record.hash, keys.len() as int));
        lemma_first_at(after_keys, record.hash, keys.len() as int);
    }
}

/// A commit followed by a checkout of the new snapshot into an empty
/// directory gives the workspace back, name for name and byte for byte,
/// without the repository's own directory.
///
/// This holds where no two different objects meet under one fingerprint:
/// the files of the workspace agree, and its directories agree with each
/// other and with those of the store.
pub proof fn lemma_commit_then_checkout(
    repo: RepositoryView,
    workspace: DirView,
    author: Seq<char>,
    message: Seq<char>,
    date: int,
    name: Seq<char>,
)
    requires
        commit_outcome(repo, workspace, author, message, date).0 is Ok,
        blobs_agree(staging(workspace).blobs),
        trees_agree(repo.trees, staging(workspace).trees),
    ensures
        ({
            let record = new_record(workspace, author, message, date);
            let after = commit_outcome(repo, workspace, author, message, date).1;
            checkout_outcome(after, record.hash, empty_dir(name)) == Ok::<
                (RecordView, DirView, RepositoryView),
                WsvcFsErrorView,
            >((record, DirView { name, ..stripped(workspace) }, RepositoryView {
                temp: Seq::empty(),
                ..after
            }))
        }),
{
    let record = new_record(workspace, author, message, date);
    let stored = with_snapshot(repo, workspace);
    let after = commit_outcome(repo, workspace, author, message, date).1;
    lemma_stored_reads_back(workspace);
    lemma_put_blobs_hold(repo.objects, staging(workspace).blobs);
    lemma_put_trees_hold(repo.trees, staging(workspace).trees);
    assert(after.objects == stored.objects);
    assert(after.trees == stored.trees);
    lemma_holds(after, workspace);
    lemma_put_record_lookup(stored.records, record);
    lemma_checkout_gives_the_workspace_back(after, workspace, record, name);
    assert(after.head == hex_string(record.hash));
}

} // verus!
