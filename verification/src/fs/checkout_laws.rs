//! What holds of a checkout, whatever the repository and the workspace are.

use vstd::prelude::*;
use crate::digest::blake3_digest;
use crate::fs::checkout::{
    checkout_outcome, file_is_current, old_subdir, restored, restored_dirs, restored_file,
    restored_files, store_dirs,
};
use crate::fs::workdir::{dir_names, file_names, is_store_name, DirView, FileView};
use crate::fs::WsvcFsErrorView;
use crate::lookup::{
    distinct,
    first_at,
    has_key,
    lemma_distinct_index,
    lemma_first_at,
    lemma_has_key,
};
use crate::hex::hex_string;
use crate::model::{BlobView, RecordView, RepositoryView, TreeView};

verus! {

/// The files of a successful checkout are the files of the stored
/// directory, one for one.
pub proof fn lemma_restored_files(
    repo: RepositoryView,
    dir: DirView,
    blobs: Seq<BlobView>,
    n: nat,
)
    requires
        n <= blobs.len(),
        restored_files(repo, dir, blobs, n) is Ok,
    ensures
        restored_files(repo, dir, blobs, n)->Ok_0.len() == n,
        forall|i: int|
            0 <= i < n ==> restored_file(repo, dir, #[trigger] blobs[i]) == Ok::<
                FileView,
                WsvcFsErrorView,
            >(restored_files(repo, dir, blobs, n)->Ok_0[i]),
    decreases n,
{
    if n > 0 {
        lemma_restored_files(repo, dir, blobs, (n - 1) as nat);
    }
}

/// The subdirectories of a successful checkout are those of the stored
/// directory, one for one, each restored in its turn.
pub proof fn lemma_restored_dirs(
    repo: RepositoryView,
    hashes: Seq<Seq<u8>>,
    dir: DirView,
    n: nat,
    depth: nat,
)
    requires
        n <= hashes.len(),
        restored_dirs(repo, hashes, dir, n, depth) is Ok,
    ensures
        restored_dirs(repo, hashes, dir, n, depth)->Ok_0.len() == n,
        n > 0 ==> depth > 0,
        forall|i: int|
            0 <= i < n ==> {
                &&& repo.has_tree(#[trigger] hashes[i])
                &&& !is_store_name(repo.tree(hashes[i]).name)
                &&& restored(
                    repo,
                    repo.tree(hashes[i]),
                    old_subdir(dir, repo.tree(hashes[i]).name),
                    (depth - 1) as nat,
                ) == Ok::<DirView, WsvcFsErrorView>(
                    restored_dirs(repo, hashes, dir, n, depth)->Ok_0[i],
                )
            },
    decreases n,
{
    if n > 0 {
        lemma_restored_dirs(repo, hashes, dir, (n - 1) as nat, depth);
    }
}

/// A restored directory keeps the name of the directory it was restored into.
pub proof fn lemma_restored_name(repo: RepositoryView, tree: TreeView, dir: DirView, depth: nat)
    requires
        restored(repo, tree, dir, depth) is Ok,
    ensures
        restored(repo, tree, dir, depth)->Ok_0.name == dir.name,
{
}

/// The directories that a checkout leaves alone hold a repository, and were
/// in the workspace before.
pub proof fn lemma_store_dirs(dirs: Seq<DirView>, n: nat)
    requires
        n <= dirs.len(),
    ensures
        forall|i: int|
            0 <= i < store_dirs(dirs, n).len() ==> {
                &&& is_store_name((#[trigger] store_dirs(dirs, n)[i]).name)
                &&& exists|k: int| 0 <= k < n && dirs[k] == store_dirs(dirs, n)[i]
            },
    decreases n,
{
    if n > 0 {
        lemma_store_dirs(dirs, (n - 1) as nat);
        let before = store_dirs(dirs, (n - 1) as nat);
        let now = store_dirs(dirs, n);
        assert forall|i: int| 0 <= i < now.len() implies {
            &&& is_store_name((#[trigger] now[i]).name)
            &&& exists|k: int| 0 <= k < n && dirs[k] == now[i]
        } by {
            if i < before.len() {
                let k = choose|k: int| 0 <= k < n - 1 && dirs[k] == before[i];
                assert(dirs[k] == now[i]);
            } else {
                assert(dirs[n - 1] == now[i]);
            }
        }
    }
}

/// Every repository directory among the first `n` is among those left alone.
pub proof fn lemma_store_dirs_stay(dirs: Seq<DirView>, n: nat, k: int)
    requires
        n <= dirs.len(),
        0 <= k < n,
        is_store_name(dirs[k].name),
    ensures
        exists|i: int| 0 <= i < store_dirs(dirs, n).len() && store_dirs(dirs, n)[i] == dirs[k],
    decreases n,
{
    let now = store_dirs(dirs, n);
    if k == n - 1 {
        assert(now[now.len() - 1] == dirs[k]);
    } else {
        lemma_store_dirs_stay(dirs, (n - 1) as nat, k);
        let before = store_dirs(dirs, (n - 1) as nat);
        let i = choose|i: int| 0 <= i < before.len() && before[i] == dirs[k];
        assert(now[i] == dirs[k]);
    }
}

/// After a checkout the workspace holds what the stored directory says and
/// nothing else: its files are exactly the files that the directory names,
/// each with content of the fingerprint named; its subdirectories are those
/// that the directory names, each restored in turn; and whatever follows
/// them is a repository directory that was there before. Every other file
/// and directory is gone, and every repository directory is still there, as
/// it was.
pub proof fn lemma_checkout_is_destructive(
    repo: RepositoryView,
    tree: TreeView,
    dir: DirView,
    depth: nat,
)
    requires
        restored(repo, tree, dir, depth) is Ok,
    ensures
        ({
            let out = restored(repo, tree, dir, depth)->Ok_0;
            &&& out.name == dir.name
            &&& out.files.len() == tree.blobs.len()
            &&& forall|i: int|
                0 <= i < tree.blobs.len() ==> {
                    &&& (#[trigger] out.files[i]).name == tree.blobs[i].name
                    &&& blake3_digest(out.files[i].content) == tree.blobs[i].hash
                }
            &&& out.dirs.len() >= tree.trees.len()
            &&& forall|i: int|
                0 <= i < tree.trees.len() ==> {
                    &&& repo.has_tree(#[trigger] tree.trees[i])
                    &&& out.dirs[i].name == repo.tree(tree.trees[i]).name
                    &&& restored(
                        repo,
                        repo.tree(tree.trees[i]),
                        old_subdir(dir, repo.tree(tree.trees[i]).name),
                        (depth - 1) as nat,
                    ) == Ok::<DirView, WsvcFsErrorView>(out.dirs[i])
                }
            &&& forall|i: int|
                tree.trees.len() <= i < out.dirs.len() ==> {
                    &&& is_store_name((#[trigger] out.dirs[i]).name)
                    &&& exists|k: int| 0 <= k < dir.dirs.len() && dir.dirs[k] == out.dirs[i]
                }
            &&& forall|k: int|
                0 <= k < dir.dirs.len() && is_store_name((#[trigger] dir.dirs[k]).name)
                    ==> exists|i: int|
                    tree.trees.len() <= i < out.dirs.len() && out.dirs[i] == dir.dirs[k]
        }),
{
    let out = restored(repo, tree, dir, depth)->Ok_0;
    let dirs = restored_dirs(repo, tree.trees, dir, tree.trees.len(), depth)->Ok_0;
    let files = restored_files(repo, dir, tree.blobs, tree.blobs.len())->Ok_0;
    let kept = store_dirs(dir.dirs, dir.dirs.len());
    lemma_restored_dirs(repo, tree.trees, dir, tree.trees.len(), depth);
    lemma_restored_files(repo, dir, tree.blobs, tree.blobs.len());
    lemma_store_dirs(dir.dirs, dir.dirs.len());
    assert(out.dirs == dirs + kept);
    assert forall|i: int| 0 <= i < tree.blobs.len() implies {
        &&& (#[trigger] out.files[i]).name == tree.blobs[i].name
        &&& blake3_digest(out.files[i].content) == tree.blobs[i].hash
    } by {
        let blob = tree.blobs[i];
        assert(restored_file(repo, dir, blob) == Ok::<FileView, WsvcFsErrorView>(files[i]));
        if file_is_current(dir, blob) {
            lemma_has_key(file_names(dir.files), blob.name);
        }
    }
    assert forall|i: int| 0 <= i < tree.trees.len() implies {
        &&& repo.has_tree(#[trigger] tree.trees[i])
        &&& out.dirs[i].name == repo.tree(tree.trees[i]).name
        &&& restored(
            repo,
            repo.tree(tree.trees[i]),
            old_subdir(dir, repo.tree(tree.trees[i]).name),
            (depth - 1) as nat,
        ) == Ok::<DirView, WsvcFsErrorView>(out.dirs[i])
    } by {
        let child = repo.tree(tree.trees[i]);
        assert(out.dirs[i] == dirs[i]);
        if has_key(dir_names(dir.dirs), child.name) {
            lemma_has_key(dir_names(dir.dirs), child.name);
        }
        lemma_restored_name(repo, child, old_subdir(dir, child.name), (depth - 1) as nat);
    }
    assert forall|i: int| tree.trees.len() <= i < out.dirs.len() implies {
        &&& is_store_name((#[trigger] out.dirs[i]).name)
        &&& exists|k: int| 0 <= k < dir.dirs.len() && dir.dirs[k] == out.dirs[i]
    } by {
        assert(out.dirs[i] == kept[i - tree.trees.len()]);
    }
    assert forall|k: int|
        0 <= k < dir.dirs.len() && is_store_name((#[trigger] dir.dirs[k]).name) implies exists|
        i: int,
    | tree.trees.len() <= i < out.dirs.len() && out.dirs[i] == dir.dirs[k] by {
        lemma_store_dirs_stay(dir.dirs, dir.dirs.len(), k);
        let j = choose|j: int| 0 <= j < kept.len() && kept[j] == dir.dirs[k];
        assert(out.dirs[tree.trees.len() + j] == dir.dirs[k]);
    }
}

/// The names of the stored directories under `hashes`, in order.
pub open spec fn child_names(repo: RepositoryView, hashes: Seq<Seq<u8>>) -> Seq<Seq<char>> {
    Seq::new(hashes.len(), |i: int| repo.tree(hashes[i]).name)
}

/// The names of some file entries, in order.
pub open spec fn blob_names(blobs: Seq<BlobView>) -> Seq<Seq<char>> {
    Seq::new(blobs.len(), |i: int| blobs[i].name)
}

/// The stored directory names each of its entries once, and so does every
/// stored directory below it, down to `depth` levels: what holds of any
/// directory that was ever read from a disk.
pub open spec fn well_named(repo: RepositoryView, tree: TreeView, depth: nat) -> bool
    decreases depth,
{
    &&& distinct(child_names(repo, tree.trees))
    &&& distinct(blob_names(tree.blobs))
    &&& forall|i: int, j: int|
        0 <= i < tree.blobs.len() && 0 <= j < tree.trees.len() ==> (#[trigger] blob_names(
            tree.blobs,
        )[i]) != #[trigger] child_names(repo, tree.trees)[j]
    &&& depth > 0 ==> forall|i: int|
        0 <= i < tree.trees.len() ==> well_named(
            repo,
            repo.tree(#[trigger] tree.trees[i]),
            (depth - 1) as nat,
        )
}

/// Of directories of which the first are no repository directories and the
/// rest are, a checkout leaves the rest alone.
proof fn lemma_store_dirs_concat(first: Seq<DirView>, rest: Seq<DirView>, n: nat)
    requires
        n <= first.len() + rest.len(),
        forall|i: int| 0 <= i < first.len() ==> !is_store_name(#[trigger] first[i].name),
        forall|i: int| 0 <= i < rest.len() ==> is_store_name(#[trigger] rest[i].name),
    ensures
        store_dirs(first + rest, n) == if n <= first.len() {
            Seq::<DirView>::empty()
        } else {
            rest.take(n - first.len())
        },
    decreases n,
{
    let all = first + rest;
    if n > 0 {
        lemma_store_dirs_concat(first, rest, (n - 1) as nat);
        if n <= first.len() {
            assert(all[n - 1] == first[n - 1]);
        } else {
            assert(all[n - 1] == rest[n - 1 - first.len()]);
            assert(rest.take(n - first.len()) =~= rest.take(n - 1 - first.len()).push(
                rest[n - 1 - first.len()],
            ));
        }
    } else {
        assert(rest.take(0) =~= Seq::<DirView>::empty());
    }
}

/// A checkout into a workspace that a checkout of the same directory has
/// just produced changes nothing: every file is found with the content it
/// should have, so none is written, and the workspace comes out as it went in.
///
/// This holds of stored directories that name each entry once.
pub proof fn lemma_checkout_is_idempotent(
    repo: RepositoryView,
    tree: TreeView,
    dir: DirView,
    depth: nat,
)
    requires
        restored(repo, tree, dir, depth) is Ok,
        well_named(repo, tree, depth),
    ensures
        ({
            let out = restored(repo, tree, dir, depth)->Ok_0;
            &&& restored(repo, tree, out, depth) == Ok::<DirView, WsvcFsErrorView>(out)
            &&& forall|i: int|
                0 <= i < tree.blobs.len() ==> file_is_current(out, #[trigger] tree.blobs[i])
        }),
    decreases depth, 1nat, 0nat,
{
    let out = restored(repo, tree, dir, depth)->Ok_0;
    let dirs = restored_dirs(repo, tree.trees, dir, tree.trees.len(), depth)->Ok_0;
    let files = restored_files(repo, dir, tree.blobs, tree.blobs.len())->Ok_0;
    let kept = store_dirs(dir.dirs, dir.dirs.len());
    lemma_checkout_is_destructive(repo, tree, dir, depth);
    lemma_restored_dirs(repo, tree.trees, dir, tree.trees.len(), depth);
    lemma_restored_files(repo, dir, tree.blobs, tree.blobs.len());
    lemma_store_dirs(dir.dirs, dir.dirs.len());
    assert(out.dirs == dirs + kept);
    assert(out.files == files);
    lemma_dirs_again(repo, tree, dir, depth, tree.trees.len());
    lemma_files_again(repo, tree, dir, depth, tree.blobs.len());
    assert(dirs.take(dirs.len() as int) =~= dirs);
    assert(files.take(files.len() as int) =~= files);
    // The repository directories that were left alone are left alone again.
    assert forall|i: int| 0 <= i < dirs.len() implies !is_store_name(
        #[trigger] dirs[i].name,
    ) by {
        assert(out.dirs[i] == dirs[i]);
        assert(repo.has_tree(tree.trees[i]));
    }
    lemma_store_dirs_concat(dirs, kept, (dirs.len() + kept.len()) as nat);
    assert(kept.take(kept.len() as int) =~= kept);
    assert(store_dirs(out.dirs, out.dirs.len()) == kept);
    assert forall|i: int| 0 <= i < tree.blobs.len() implies file_is_current(
        out,
        #[trigger] tree.blobs[i],
    ) by {
        lemma_file_again(repo, tree, dir, depth, i);
    }
}

/// In the workspace that a checkout produced, each file of the stored
/// directory is found, with the content it should have.
proof fn lemma_file_again(repo: RepositoryView, tree: TreeView, dir: DirView, depth: nat, i: int)
    requires
        restored(repo, tree, dir, depth) is Ok,
        well_named(repo, tree, depth),
        0 <= i < tree.blobs.len(),
    ensures
        ({
            let out = restored(repo, tree, dir, depth)->Ok_0;
            &&& file_is_current(out, tree.blobs[i])
            &&& restored_file(repo, out, tree.blobs[i]) == Ok::<FileView, WsvcFsErrorView>(
                out.files[i],
            )
        }),
{
    let out = restored(repo, tree, dir, depth)->Ok_0;
    let dirs = restored_dirs(repo, tree.trees, dir, tree.trees.len(), depth)->Ok_0;
    let files = restored_files(repo, dir, tree.blobs, tree.blobs.len())->Ok_0;
    let kept = store_dirs(dir.dirs, dir.dirs.len());
    let blob = tree.blobs[i];
    lemma_checkout_is_destructive(repo, tree, dir, depth);
    lemma_restored_files(repo, dir, tree.blobs, tree.blobs.len());
    lemma_store_dirs(dir.dirs, dir.dirs.len());
    assert(out.dirs == dirs + kept);
    // No directory is in the way.
    assert(restored_file(repo, dir, blob) is Ok);
    assert(!has_key(dir_names(dir.dirs), blob.name));
    assert forall|k: int| 0 <= k < out.dirs.len() implies dir_names(out.dirs)[k] != blob.name by {
        if k < tree.trees.len() {
            assert(out.dirs[k].name == child_names(repo, tree.trees)[k]);
            assert(blob_names(tree.blobs)[i] == blob.name);
        } else {
            let w = choose|w: int| 0 <= w < dir.dirs.len() && dir.dirs[w] == out.dirs[k];
            assert(dir_names(dir.dirs)[w] == out.dirs[k].name);
        }
    }
    assert(!has_key(dir_names(out.dirs), blob.name));
    // The file is where the stored directory has it.
    let names = file_names(out.files);
    assert(names =~= blob_names(tree.blobs)) by {
        assert forall|k: int| 0 <= k < names.len() implies names[k] == blob_names(tree.blobs)[k] by {
            assert(out.files[k].name == tree.blobs[k].name);
        }
    }
    lemma_distinct_index(names, i);
    assert(names[i] == blob.name);
}

/// In the workspace that a checkout produced, the files of the stored
/// directory are restored to what they are.
proof fn lemma_files_again(repo: RepositoryView, tree: TreeView, dir: DirView, depth: nat, n: nat)
    requires
        restored(repo, tree, dir, depth) is Ok,
        well_named(repo, tree, depth),
        n <= tree.blobs.len(),
    ensures
        ({
            let out = restored(repo, tree, dir, depth)->Ok_0;
            restored_files(repo, out, tree.blobs, n) == Ok::<Seq<FileView>, WsvcFsErrorView>(
                out.files.take(n as int),
            )
        }),
    decreases n,
{
    let out = restored(repo, tree, dir, depth)->Ok_0;
    lemma_checkout_is_destructive(repo, tree, dir, depth);
    if n > 0 {
        lemma_files_again(repo, tree, dir, depth, (n - 1) as nat);
        lemma_file_again(repo, tree, dir, depth, n - 1);
        assert(out.files.take(n as int) =~= out.files.take(n - 1).push(out.files[n - 1]));
    } else {
        assert(out.files.take(0) =~= Seq::<FileView>::empty());
    }
}

/// In the workspace that a checkout produced, the subdirectories of the
/// stored directory are restored to what they are.
proof fn lemma_dirs_again(repo: RepositoryView, tree: TreeView, dir: DirView, depth: nat, n: nat)
    requires
        restored(repo, tree, dir, depth) is Ok,
        well_named(repo, tree, depth),
        n <= tree.trees.len(),
    ensures
        ({
            let out = restored(repo, tree, dir, depth)->Ok_0;
            let dirs = restored_dirs(repo, tree.trees, dir, tree.trees.len(), depth)->Ok_0;
            restored_dirs(repo, tree.trees, out, n, depth) == Ok::<Seq<DirView>, WsvcFsErrorView>(
                dirs.take(n as int),
            )
        }),
    decreases depth, 0nat, n,
{
    let out = restored(repo, tree, dir, depth)->Ok_0;
    let dirs = restored_dirs(repo, tree.trees, dir, tree.trees.len(), depth)->Ok_0;
    lemma_checkout_is_destructive(repo, tree, dir, depth);
    lemma_restored_dirs(repo, tree.trees, dir, tree.trees.len(), depth);
    if n > 0 {
        lemma_dirs_again(repo, tree, dir, depth, (n - 1) as nat);
        let i = n - 1;
        let hash = tree.trees[i];
        let child = repo.tree(hash);
        let before = old_subdir(dir, child.name);
        assert(restored(repo, child, before, (depth - 1) as nat) == Ok::<DirView, WsvcFsErrorView>(
            dirs[i],
        ));
        // The subdirectory is found where the stored directory has it.
        let names = dir_names(out.dirs);
        assert(out.dirs[i] == dirs[i]);
        assert(first_at(names, child.name, i)) by {
            assert(names[i] == child.name);
            assert forall|j: int| 0 <= j < i implies names[j] != child.name by {
                assert(names[j] == child_names(repo, tree.trees)[j]);
                assert(child_names(repo, tree.trees)[i] == child.name);
            }
        }
        lemma_first_at(names, child.name, i);
        assert(old_subdir(out, child.name) == dirs[i]);
        lemma_checkout_is_idempotent(repo, child, before, (depth - 1) as nat);
        assert(dirs.take(n as int) =~= dirs.take(n - 1).push(dirs[i]));
    } else {
        assert(dirs.take(0) =~= Seq::<DirView>::empty());
    }
}

/// What a checkout restores depends on the stored directories and file
/// contents alone: two repositories that hold the same of both restore the
/// same.
pub proof fn lemma_restored_by_store(
    a: RepositoryView,
    b: RepositoryView,
    tree: TreeView,
    dir: DirView,
    depth: nat,
)
    requires
        a.trees == b.trees,
        a.objects == b.objects,
    ensures
        restored(a, tree, dir, depth) == restored(b, tree, dir, depth),
    decreases depth, 1nat, 0nat,
{
    lemma_restored_dirs_by_store(a, b, tree.trees, dir, tree.trees.len(), depth);
    lemma_restored_files_by_store(a, b, dir, tree.blobs, tree.blobs.len());
}

proof fn lemma_restored_dirs_by_store(
    a: RepositoryView,
    b: RepositoryView,
    hashes: Seq<Seq<u8>>,
    dir: DirView,
    n: nat,
    depth: nat,
)
    requires
        a.trees == b.trees,
        a.objects == b.objects,
    ensures
        restored_dirs(a, hashes, dir, n, depth) == restored_dirs(b, hashes, dir, n, depth),
    decreases depth, 0nat, n,
{
    if n > 0 && n <= hashes.len() {
        lemma_restored_dirs_by_store(a, b, hashes, dir, (n - 1) as nat, depth);
        let hash = hashes[n - 1];
        if depth > 0 {
            let child = a.tree(hash);
            lemma_restored_by_store(
                a,
                b,
                child,
                old_subdir(dir, child.name),
                (depth - 1) as nat,
            );
        }
    }
}

proof fn lemma_restored_files_by_store(
    a: RepositoryView,
    b: RepositoryView,
    dir: DirView,
    blobs: Seq<BlobView>,
    n: nat,
)
    requires
        a.objects == b.objects,
    ensures
        restored_files(a, dir, blobs, n) == restored_files(b, dir, blobs, n),
    decreases n,
{
    if n > 0 && n <= blobs.len() {
        lemma_restored_files_by_store(a, b, dir, blobs, (n - 1) as nat);
    }
}

/// Checking out a snapshot a second time, with nothing changed in between,
/// succeeds with the same snapshot and leaves the workspace and the
/// repository as the first checkout left them: every file is found with the
/// content it should have, so none is written, and nothing is created or
/// removed.
///
/// This holds of stored directories that name each entry once.
pub proof fn lemma_second_checkout_changes_nothing(
    repo: RepositoryView,
    fp: Seq<u8>,
    workspace: DirView,
)
    requires
        checkout_outcome(repo, fp, workspace) is Ok,
        well_named(repo, repo.tree(repo.record(fp).root), repo.trees.len()),
    ensures
        ({
            let first = checkout_outcome(repo, fp, workspace)->Ok_0;
            &&& checkout_outcome(first.2, fp, first.1) == Ok::<
                (RecordView, DirView, RepositoryView),
                WsvcFsErrorView,
            >(first)
            &&& forall|i: int|
                0 <= i < repo.tree(repo.record(fp).root).blobs.len() ==> file_is_current(
                    first.1,
                    #[trigger] repo.tree(repo.record(fp).root).blobs[i],
                )
        }),
{
    let first = checkout_outcome(repo, fp, workspace)->Ok_0;
    let root = repo.tree(repo.record(fp).root);
    lemma_checkout_is_idempotent(repo, root, workspace, repo.trees.len());
    lemma_restored_by_store(first.2, repo, root, first.1, repo.trees.len());
    assert(first.2 == (RepositoryView { head: hex_string(fp), temp: Seq::empty(), ..first.2 }));
}

} // verus!
