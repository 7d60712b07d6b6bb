//! What holds of the store and of commits, whatever the repository and the
//! workspace are.

use vstd::prelude::*;
use crate::fs::commit::{
    commit_outcome, new_record, nothing_changed, put_blobs, put_trees, record_roots, root_fingerprint,
    root_is_new, staging, unchanged_record, with_snapshot,
};
use crate::fs::store::{blob_keys, put_blob, put_record, put_tree, record_keys, tree_keys};
use crate::lookup::{first_at, has_key, index_of, lemma_first_at, lemma_has_key, lemma_has_key_push};
use crate::fs::workdir::DirView;
use crate::fs::WsvcFsErrorView;
use crate::hex::hex_string;
use crate::model::{RecordView, RepositoryView, StoredBlobView, TreeView};

verus! {

/// Writing a file content keeps every fingerprint of the store where it
/// is, and adds the content's own at the end where it was missing.
pub proof fn lemma_put_blob_keys(objects: Seq<StoredBlobView>, entry: StoredBlobView)
    ensures
        blob_keys(put_blob(objects, entry)) == if has_key(blob_keys(objects), entry.hash) {
            blob_keys(objects)
        } else {
            blob_keys(objects).push(entry.hash)
        },
        has_key(blob_keys(put_blob(objects, entry)), entry.hash),
{
    let keys = blob_keys(objects);
    let after = blob_keys(put_blob(objects, entry));
    if has_key(keys, entry.hash) {
        lemma_has_key(keys, entry.hash);
        let i = index_of(keys, entry.hash);
        assert(after =~= keys);
        assert(after[i] == entry.hash);
    } else {
        assert(after =~= keys.push(entry.hash));
        assert(after[keys.len() as int] == entry.hash);
    }
}

/// Writing a directory keeps every fingerprint of the store where it is, and
/// adds the directory's own at the end where it was missing.
pub proof fn lemma_put_tree_keys(trees: Seq<TreeView>, tree: TreeView)
    ensures
        tree_keys(put_tree(trees, tree)) == if has_key(tree_keys(trees), tree.hash) {
            tree_keys(trees)
        } else {
            tree_keys(trees).push(tree.hash)
        },
        has_key(tree_keys(put_tree(trees, tree)), tree.hash),
{
    let keys = tree_keys(trees);
    let after = tree_keys(put_tree(trees, tree));
    if !has_key(keys, tree.hash) {
        assert(after =~= keys.push(tree.hash));
        assert(after[keys.len() as int] == tree.hash);
    }
}

/// After a list of directories was written, the store holds a directory
/// under each of their fingerprints, and under every fingerprint it held.
pub proof fn lemma_put_trees_keys(trees: Seq<TreeView>, entries: Seq<TreeView>, key: Seq<u8>)
    ensures
        has_key(tree_keys(put_trees(trees, entries)), key) == (has_key(tree_keys(trees), key)
            || has_key(tree_keys(entries), key)),
    decreases entries.len(),
{
    if entries.len() == 0 {
        assert(!has_key(tree_keys(entries), key));
    } else {
        let before = put_trees(trees, entries.drop_last());
        lemma_put_trees_keys(trees, entries.drop_last(), key);
        lemma_put_tree_keys(before, entries.last());
        lemma_has_key_push(tree_keys(before), entries.last().hash, key);
        assert(tree_keys(entries) =~= tree_keys(entries.drop_last()).push(entries.last().hash));
        lemma_has_key_push(tree_keys(entries.drop_last()), entries.last().hash, key);
    }
}

/// After a list of file contents was written, the store holds a content
/// under each of their fingerprints, and under every fingerprint it held.
pub proof fn lemma_put_blobs_keys(
    objects: Seq<StoredBlobView>,
    entries: Seq<StoredBlobView>,
    key: Seq<u8>,
)
    ensures
        has_key(blob_keys(put_blobs(objects, entries)), key) == (has_key(blob_keys(objects), key)
            || has_key(blob_keys(entries), key)),
    decreases entries.len(),
{
    if entries.len() == 0 {
        assert(!has_key(blob_keys(entries), key));
    } else {
        let before = put_blobs(objects, entries.drop_last());
        lemma_put_blobs_keys(objects, entries.drop_last(), key);
        lemma_put_blob_keys(before, entries.last());
        lemma_has_key_push(blob_keys(before), entries.last().hash, key);
        assert(blob_keys(entries) =~= blob_keys(entries.drop_last()).push(entries.last().hash));
        lemma_has_key_push(blob_keys(entries.drop_last()), entries.last().hash, key);
    }
}

/// Writing directories that are all stored already changes nothing.
pub proof fn lemma_put_trees_present(trees: Seq<TreeView>, entries: Seq<TreeView>)
    requires
        forall|i: int| 0 <= i < entries.len() ==> has_key(tree_keys(trees), #[trigger] entries[i].hash),
    ensures
        put_trees(trees, entries) == trees,
    decreases entries.len(),
{
    if entries.len() > 0 {
        assert forall|i: int| 0 <= i < entries.drop_last().len() implies has_key(
            tree_keys(trees),
            #[trigger] entries.drop_last()[i].hash,
        ) by {
            assert(entries.drop_last()[i] == entries[i]);
        }
        lemma_put_trees_present(trees, entries.drop_last());
        assert(has_key(tree_keys(trees), entries[entries.len() - 1].hash));
    }
}

/// Writing file contents whose fingerprints are all in the store leaves
/// the fingerprints of the store as they are.
pub proof fn lemma_put_blobs_present(objects: Seq<StoredBlobView>, entries: Seq<StoredBlobView>)
    requires
        forall|i: int|
            0 <= i < entries.len() ==> has_key(blob_keys(objects), #[trigger] entries[i].hash),
    ensures
        blob_keys(put_blobs(objects, entries)) == blob_keys(objects),
    decreases entries.len(),
{
    if entries.len() > 0 {
        assert forall|i: int| 0 <= i < entries.drop_last().len() implies has_key(
            blob_keys(objects),
            #[trigger] entries.drop_last()[i].hash,
        ) by {
            assert(entries.drop_last()[i] == entries[i]);
        }
        lemma_put_blobs_present(objects, entries.drop_last());
        assert(has_key(blob_keys(objects), entries[entries.len() - 1].hash));
        lemma_put_blob_keys(put_blobs(objects, entries.drop_last()), entries.last());
    }
}

/// A snapshot that was written is found by its root.
pub proof fn lemma_put_record_root(records: Seq<RecordView>, record: RecordView)
    ensures
        has_key(record_roots(put_record(records, record)), record.root),
        has_key(record_keys(put_record(records, record)), record.hash),
{
    let after = put_record(records, record);
    if has_key(record_keys(records), record.hash) {
        lemma_has_key(record_keys(records), record.hash);
        let i = index_of(record_keys(records), record.hash);
        assert(after[i] == record);
        assert(record_roots(after)[i] == record.root);
        assert(record_keys(after)[i] == record.hash);
    } else {
        let i = records.len() as int;
        assert(after[i] == record);
        assert(record_roots(after)[i] == record.root);
        assert(record_keys(after)[i] == record.hash);
    }
}

/// The fingerprint of the root directory depends on the workspace alone: two
/// commits of workspaces that hold the same, in the same order, into any two
/// repositories, give the same root.
pub proof fn lemma_root_is_deterministic(
    first: RepositoryView,
    second: RepositoryView,
    workspace: DirView,
    author1: Seq<char>,
    message1: Seq<char>,
    date1: int,
    author2: Seq<char>,
    message2: Seq<char>,
    date2: int,
)
    requires
        commit_outcome(first, workspace, author1, message1, date1).0 is Ok,
        commit_outcome(second, workspace, author2, message2, date2).0 is Ok,
    ensures
        commit_outcome(first, workspace, author1, message1, date1).0->Ok_0.root
            == commit_outcome(second, workspace, author2, message2, date2).0->Ok_0.root,
        commit_outcome(first, workspace, author1, message1, date1).0->Ok_0.root
            == root_fingerprint(workspace),
{
}

/// Committing a workspace a second time, with nothing changed in between,
/// fails as a commit without changes. The error names a stored snapshot of
/// that very root. No snapshot is added, `HEAD` stays, the directories of the
/// store stay as they are, and no file content appears under a new
/// fingerprint.
pub proof fn lemma_second_commit_has_no_changes(
    repo: RepositoryView,
    workspace: DirView,
    author1: Seq<char>,
    message1: Seq<char>,
    date1: int,
    author2: Seq<char>,
    message2: Seq<char>,
    date2: int,
)
    requires
        commit_outcome(repo, workspace, author1, message1, date1).0 is Ok,
    ensures
        ({
            let after = commit_outcome(repo, workspace, author1, message1, date1).1;
            let again = commit_outcome(after, workspace, author2, message2, date2);
            let named = unchanged_record(after, workspace);
            &&& again.0 == Err::<RecordView, WsvcFsErrorView>(
                WsvcFsErrorView::NoChanges(hex_string(named.hash)),
            )
            &&& named.root == root_fingerprint(workspace)
            &&& has_key(record_keys(after.records), named.hash)
            &&& again.1.records == after.records
            &&& again.1.head == after.head
            &&& again.1.trees == after.trees
            &&& blob_keys(again.1.objects) == blob_keys(after.objects)
        }),
{
    let staged = staging(workspace);
    let record = new_record(workspace, author1, message1, date1);
    let stored = with_snapshot(repo, workspace);
    let after = commit_outcome(repo, workspace, author1, message1, date1).1;
    let root = root_fingerprint(workspace);
    assert(after.trees == stored.trees);
    assert(after.objects == stored.objects);
    // The root and everything below it is in the store.
    assert forall|i: int| 0 <= i < staged.trees.len() implies has_key(
        tree_keys(after.trees),
        #[trigger] staged.trees[i].hash,
    ) by {
        assert(tree_keys(staged.trees)[i] == staged.trees[i].hash);
        lemma_put_trees_keys(repo.trees, staged.trees, staged.trees[i].hash);
    }
    assert forall|i: int| 0 <= i < staged.blobs.len() implies has_key(
        blob_keys(after.objects),
        #[trigger] staged.blobs[i].hash,
    ) by {
        assert(blob_keys(staged.blobs)[i] == staged.blobs[i].hash);
        lemma_put_blobs_keys(repo.objects, staged.blobs, staged.blobs[i].hash);
    }
    lemma_put_trees_present(after.trees, staged.trees);
    lemma_put_blobs_present(after.objects, staged.blobs);
    // So the root is not written again.
    assert(staged.trees.last().hash == root);
    assert(has_key(tree_keys(after.trees), staged.trees[staged.trees.len() - 1].hash));
    lemma_put_trees_keys(after.trees, staged.trees.drop_last(), root);
    assert(!root_is_new(after, workspace));
    // And a snapshot of that root is there.
    lemma_put_record_root(stored.records, record);
    assert(has_key(record_roots(after.records), root));
    assert(nothing_changed(after, workspace));
    lemma_has_key(record_roots(after.records), root);
    let i = index_of(record_roots(after.records), root);
    assert(record_roots(after.records)[i] == after.records[i].root);
    assert(record_keys(after.records)[i] == after.records[i].hash);
}

/// Every snapshot's root directory is in the store.
pub open spec fn roots_stored(repo: RepositoryView) -> bool {
    forall|i: int|
        0 <= i < repo.records.len() ==> has_key(
            tree_keys(repo.trees),
            (#[trigger] repo.records[i]).root,
        )
}

/// Committing a workspace a second time, with nothing changed in between,
/// fails as a commit without changes, and the error names the snapshot that
/// the first commit wrote, whoever commits and whenever.
///
/// This holds of a repository in which every snapshot's root directory is
/// stored. In another one an older snapshot may have the same root, and then
/// the error names that one.
pub proof fn lemma_second_commit_names_the_first(
    repo: RepositoryView,
    workspace: DirView,
    author1: Seq<char>,
    message1: Seq<char>,
    date1: int,
    author2: Seq<char>,
    message2: Seq<char>,
    date2: int,
)
    requires
        commit_outcome(repo, workspace, author1, message1, date1).0 is Ok,
        roots_stored(repo),
    ensures
        ({
            let first = commit_outcome(repo, workspace, author1, message1, date1);
            commit_outcome(first.1, workspace, author2, message2, date2).0 == Err::<
                RecordView,
                WsvcFsErrorView,
            >(WsvcFsErrorView::NoChanges(hex_string(first.0->Ok_0.hash)))
        }),
{
    let staged = staging(workspace);
    let record = new_record(workspace, author1, message1, date1);
    let after = commit_outcome(repo, workspace, author1, message1, date1).1;
    let root = root_fingerprint(workspace);
    lemma_second_commit_has_no_changes(
        repo,
        workspace,
        author1,
        message1,
        date1,
        author2,
        message2,
        date2,
    );
    // No snapshot had this root before.
    if has_key(record_roots(repo.records), root) {
        let i = choose|i: int|
            0 <= i < record_roots(repo.records).len() && record_roots(repo.records)[i] == root;
        assert(repo.records[i].root == root);
        lemma_put_trees_keys(repo.trees, staged.trees.drop_last(), root);
        assert(nothing_changed(repo, workspace));
    }
    // So the first of that root is the one just written.
    let keys = record_keys(repo.records);
    let roots = record_roots(after.records);
    let k = if has_key(keys, record.hash) {
        index_of(keys, record.hash)
    } else {
        repo.records.len() as int
    };
    if has_key(keys, record.hash) {
        lemma_has_key(keys, record.hash);
    }
    assert(after.records[k] == record);
    assert forall|j: int| 0 <= j < k implies roots[j] != root by {
        assert(after.records[j] == repo.records[j]);
        assert(record_roots(repo.records)[j] == repo.records[j].root);
    }
    assert(first_at(roots, root, k));
    lemma_first_at(roots, root, k);
}

} // verus!
