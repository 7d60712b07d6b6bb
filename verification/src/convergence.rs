//! What a whole synchronization does to two stores, and what then holds
//! of them.

use vstd::prelude::*;
use crate::cli::transport::{
    given_blobs, given_records, given_trees, held_by_responder, initiator_step, shared_records,
    wanted_blobs, wanted_records, wanted_trees, StepView,
};
use crate::exchange::{
    blobs_of_trees, first_fault, lemma_blob_file_name, outgoing, put_records, reached_trees,
    received_entries, trees_of_records, with_received, with_temp,
};
use crate::fs::history::{reachable, reachable_below, trees_of_record};
use crate::fs::laws::{lemma_put_blobs_keys, lemma_put_trees_keys};
use crate::fs::released;
use crate::fs::commit::{put_blobs, put_trees};
use crate::fs::store::{blob_keys, put_blob, put_record, put_tree, record_keys, tree_keys};
use crate::lookup::{
    has_key, index_of, lemma_has_key, lemma_has_key_joined, lemma_has_key_push,
};
use crate::model::{
    BlobView, RecordView, Repository, RepositoryView, StoredBlobView, TempFileView, TreeView,
};
use crate::packet::is_blob_name;
use crate::server::{responder_step, ServerStepView};
use crate::sync::{
    blobs_new, blobs_tagged, entry_keys, named_blobs, file_messages_of, fresh_session, lemma_blobs_marks,
    lemma_records_marks, lemma_trees_marks, records_lacking, records_tagged, trees_lacking,
    trees_tagged, Phase, SyncMessageView, SyncSessionView,
};

verus! {

/// The working area after the files of `files` came in, in order.
pub open spec fn temp_after(temp: Seq<TempFileView>, files: Seq<TempFileView>) -> Seq<TempFileView>
    decreases files.len(),
{
    if files.len() == 0 {
        temp
    } else {
        with_temp(temp_after(temp, files.drop_last()), files.last())
    }
}

/// What a synchronization settles and leaves behind.
pub struct Exchange {
    /// The snapshots that go to the initiator.
    pub wanted_records: Seq<RecordView>,
    /// The snapshots that go to the responder.
    pub given_records: Seq<RecordView>,
    /// The directories that the responder lists.
    pub listed_trees: Seq<TreeView>,
    /// The directories that go to the initiator.
    pub wanted_trees: Seq<TreeView>,
    /// The directories that go to the responder.
    pub given_trees: Seq<TreeView>,
    /// The file entries that the responder lists.
    pub listed_blobs: Seq<BlobView>,
    /// The file contents that go to the initiator.
    pub wanted_blobs: Seq<BlobView>,
    /// The file contents that go to the responder.
    pub given_blobs: Seq<BlobView>,
    /// The responder's repository afterwards.
    pub responder: RepositoryView,
    /// The initiator's repository afterwards.
    pub initiator: RepositoryView,
}

/// A synchronization that ends well, round by round: what the two sides
/// settle, and their repositories afterwards. `None` where a round fails.
pub open spec fn exchange(responder: RepositoryView, initiator: RepositoryView) -> Option<Exchange> {
    let wanted_r = wanted_records(initiator, responder.records);
    let given_r = given_records(initiator, responder.records);
    match trees_of_records(responder, wanted_r) {
        Err(_) => None,
        Ok(listed_t) => match given_trees(initiator, listed_t, given_r) {
            Err(_) => None,
            Ok(given_t) => {
                let wanted_t = wanted_trees(initiator, listed_t);
                match blobs_of_trees(responder, wanted_t) {
                    Err(_) => None,
                    Ok(listed_b) => match given_blobs(initiator, given_t, given_r, listed_t) {
                        Err(_) => None,
                        Ok(given_b) => {
                            let wanted_b = wanted_blobs(initiator, listed_b);
                            match (outgoing(responder, wanted_b), outgoing(initiator, given_b)) {
                                (Ok(to_initiator), Ok(to_responder)) => {
                                    let holding_i = RepositoryView {
                                        temp: temp_after(initiator.temp, to_initiator),
                                        ..initiator
                                    };
                                    let holding_r = RepositoryView {
                                        temp: temp_after(responder.temp, to_responder),
                                        ..responder
                                    };
                                    if first_fault(holding_i, wanted_b) is None && first_fault(
                                        holding_r,
                                        given_b,
                                    ) is None {
                                        Some(
                                            Exchange {
                                                wanted_records: wanted_r,
                                                given_records: given_r,
                                                listed_trees: listed_t,
                                                wanted_trees: wanted_t,
                                                given_trees: given_t,
                                                listed_blobs: listed_b,
                                                wanted_blobs: wanted_b,
                                                given_blobs: given_b,
                                                responder: with_received(
                                                    holding_r,
                                                    given_b,
                                                    given_t,
                                                    given_r,
                                                ),
                                                initiator: with_received(
                                                    holding_i,
                                                    wanted_b,
                                                    wanted_t,
                                                    wanted_r,
                                                ),
                                            },
                                        )
                                    } else {
                                        None
                                    }
                                },
                                _ => None,
                            }
                        },
                    },
                }
            },
        },
    }
}

/// After snapshots were written, the store holds a snapshot under each of
/// their fingerprints, and under every fingerprint it held.
pub proof fn lemma_put_records_keys(records: Seq<RecordView>, entries: Seq<RecordView>, key: Seq<u8>)
    ensures
        has_key(record_keys(put_records(records, entries)), key) == (has_key(
            record_keys(records),
            key,
        ) || has_key(record_keys(entries), key)),
    decreases entries.len(),
{
    if entries.len() == 0 {
        assert(!has_key(record_keys(entries), key));
    } else {
        let before = put_records(records, entries.drop_last());
        let last = entries.last();
        lemma_put_records_keys(records, entries.drop_last(), key);
        let keys = record_keys(before);
        let after = record_keys(put_record(before, last));
        if has_key(keys, last.hash) {
            lemma_has_key(keys, last.hash);
            assert(after =~= keys);
        } else {
            assert(after =~= keys.push(last.hash));
            lemma_has_key_push(keys, last.hash, key);
        }
        assert(record_keys(entries) =~= record_keys(entries.drop_last()).push(last.hash));
        lemma_has_key_push(record_keys(entries.drop_last()), last.hash, key);
    }
}

/// The files that came for some entries are stored under the entries' fingerprints.
pub proof fn lemma_received_keys(repo: RepositoryView, blobs: Seq<BlobView>)
    ensures
        blob_keys(received_entries(repo, blobs)) == entry_keys(blobs),
{
    assert(blob_keys(received_entries(repo, blobs)) =~= entry_keys(blobs));
}

/// What is lacking is what is listed and not had.
pub proof fn lemma_records_lacking_keys(items: Seq<RecordView>, have: Seq<Seq<u8>>, key: Seq<u8>)
    ensures
        has_key(record_keys(records_lacking(items, have)), key) == (has_key(record_keys(items), key) && !has_key(
            have,
            key,
        )),
    decreases items.len(),
{
    if items.len() == 0 {
        assert(!has_key(record_keys(items), key));
        assert(!has_key(record_keys(records_lacking(items, have)), key));
    } else {
        let front = items.drop_last();
        let last = items.last();
        lemma_records_lacking_keys(front, have, key);
        assert(record_keys(items) =~= record_keys(front).push(last.hash));
        lemma_has_key_push(record_keys(front), last.hash, key);
        if !has_key(have, last.hash) {
            assert(record_keys(records_lacking(items, have)) =~= record_keys(records_lacking(front, have)).push(
                last.hash,
            ));
            lemma_has_key_push(record_keys(records_lacking(front, have)), last.hash, key);
        }
    }
}

/// What is lacking is what is listed and not had.
pub proof fn lemma_trees_lacking_keys(items: Seq<TreeView>, have: Seq<Seq<u8>>, key: Seq<u8>)
    ensures
        has_key(tree_keys(trees_lacking(items, have)), key) == (has_key(tree_keys(items), key) && !has_key(
            have,
            key,
        )),
    decreases items.len(),
{
    if items.len() == 0 {
        assert(!has_key(tree_keys(items), key));
        assert(!has_key(tree_keys(trees_lacking(items, have)), key));
    } else {
        let front = items.drop_last();
        let last = items.last();
        lemma_trees_lacking_keys(front, have, key);
        assert(tree_keys(items) =~= tree_keys(front).push(last.hash));
        lemma_has_key_push(tree_keys(front), last.hash, key);
        if !has_key(have, last.hash) {
            assert(tree_keys(trees_lacking(items, have)) =~= tree_keys(trees_lacking(front, have)).push(
                last.hash,
            ));
            lemma_has_key_push(tree_keys(trees_lacking(front, have)), last.hash, key);
        }
    }
}

/// After a synchronization both sides hold the same snapshots: a snapshot
/// is stored under a fingerprint on one side exactly when one is on the
/// other, and that is exactly when one of the two sides had one before.
pub proof fn lemma_records_converge(responder: RepositoryView, initiator: RepositoryView, key: Seq<u8>)
    requires
        exchange(responder, initiator) is Some,
    ensures
        ({
            let done = exchange(responder, initiator)->Some_0;
            &&& done.responder.has_record(key) == done.initiator.has_record(key)
            &&& done.responder.has_record(key) == (responder.has_record(key)
                || initiator.has_record(key))
        }),
{
    let done = exchange(responder, initiator)->Some_0;
    lemma_put_records_keys(responder.records, done.given_records, key);
    lemma_put_records_keys(initiator.records, done.wanted_records, key);
    lemma_records_lacking_keys(responder.records, record_keys(initiator.records), key);
    lemma_records_lacking_keys(initiator.records, record_keys(responder.records), key);
}

/// A key is among the keys of a joined list exactly when it is among
/// those of one of the parts.
pub proof fn lemma_tree_keys_joined(a: Seq<TreeView>, b: Seq<TreeView>, key: Seq<u8>)
    ensures
        has_key(tree_keys(a + b), key) == (has_key(tree_keys(a), key) || has_key(
            tree_keys(b),
            key,
        )),
{
    let all = tree_keys(a + b);
    if has_key(tree_keys(a), key) {
        let i = choose|i: int| 0 <= i < tree_keys(a).len() && tree_keys(a)[i] == key;
        assert(all[i] == key);
    }
    if has_key(tree_keys(b), key) {
        let i = choose|i: int| 0 <= i < tree_keys(b).len() && tree_keys(b)[i] == key;
        assert(all[a.len() + i] == key);
    }
    if has_key(all, key) {
        let i = choose|i: int| 0 <= i < all.len() && all[i] == key;
        if i < a.len() {
            assert(tree_keys(a)[i] == key);
        } else {
            assert(tree_keys(b)[i - a.len()] == key);
        }
    }
}

/// A key is among the keys of a joined list exactly when it is among
/// those of one of the parts.
pub proof fn lemma_entry_keys_joined(a: Seq<BlobView>, b: Seq<BlobView>, key: Seq<u8>)
    ensures
        has_key(entry_keys(a + b), key) == (has_key(entry_keys(a), key) || has_key(
            entry_keys(b),
            key,
        )),
{
    let all = entry_keys(a + b);
    if has_key(entry_keys(a), key) {
        let i = choose|i: int| 0 <= i < entry_keys(a).len() && entry_keys(a)[i] == key;
        assert(all[i] == key);
    }
    if has_key(entry_keys(b), key) {
        let i = choose|i: int| 0 <= i < entry_keys(b).len() && entry_keys(b)[i] == key;
        assert(all[a.len() + i] == key);
    }
    if has_key(all, key) {
        let i = choose|i: int| 0 <= i < all.len() && all[i] == key;
        if i < a.len() {
            assert(entry_keys(a)[i] == key);
        } else {
            assert(entry_keys(b)[i - a.len()] == key);
        }
    }
}

/// The directory that the store gives under a fingerprint has that fingerprint.
pub proof fn lemma_tree_key(repo: RepositoryView, hash: Seq<u8>)
    requires
        repo.has_tree(hash),
    ensures
        repo.tree(hash).hash == hash,
{
    lemma_has_key(tree_keys(repo.trees), hash);
    let i = index_of(tree_keys(repo.trees), hash);
    assert(tree_keys(repo.trees)[i] == repo.trees[i].hash);
}

/// Every directory that a stored directory reaches is stored.
pub proof fn lemma_reachable_stored(repo: RepositoryView, hash: Seq<u8>, depth: nat, key: Seq<u8>)
    requires
        reachable(repo, hash, depth) is Ok,
        has_key(tree_keys(reachable(repo, hash, depth)->Ok_0), key),
    ensures
        repo.has_tree(key),
    decreases depth, 1nat, 0nat,
{
    let tree = repo.tree(hash);
    let below = reachable_below(repo, tree.trees, tree.trees.len(), depth)->Ok_0;
    lemma_tree_keys_joined(seq![tree], below, key);
    if has_key(tree_keys(seq![tree]), key) {
        let i = choose|i: int|
            0 <= i < tree_keys(seq![tree]).len() && tree_keys(seq![tree])[i] == key;
        lemma_tree_key(repo, hash);
        assert(seq![tree][i] == tree);
    } else {
        lemma_below_stored(repo, tree.trees, tree.trees.len(), depth, key);
    }
}

/// Every directory that some stored directories reach is stored.
pub proof fn lemma_below_stored(
    repo: RepositoryView,
    hashes: Seq<Seq<u8>>,
    n: nat,
    depth: nat,
    key: Seq<u8>,
)
    requires
        n <= hashes.len(),
        reachable_below(repo, hashes, n, depth) is Ok,
        has_key(tree_keys(reachable_below(repo, hashes, n, depth)->Ok_0), key),
    ensures
        repo.has_tree(key),
    decreases depth, 0nat, n,
{
    if n == 0 {
        let list = reachable_below(repo, hashes, n, depth)->Ok_0;
        let i = choose|i: int| 0 <= i < tree_keys(list).len() && tree_keys(list)[i] == key;
        assert(false);
    } else {
        let before = reachable_below(repo, hashes, (n - 1) as nat, depth)->Ok_0;
        let sub = reachable(repo, hashes[n - 1], (depth - 1) as nat)->Ok_0;
        lemma_tree_keys_joined(before, sub, key);
        if has_key(tree_keys(before), key) {
            lemma_below_stored(repo, hashes, (n - 1) as nat, depth, key);
        } else {
            lemma_reachable_stored(repo, hashes[n - 1], (depth - 1) as nat, key);
        }
    }
}

/// A snapshot of `records` reaches the directory `key`.
pub open spec fn reached_by(repo: RepositoryView, records: Seq<RecordView>, key: Seq<u8>, i: int)
    -> bool {
    &&& 0 <= i < records.len()
    &&& trees_of_record(repo, records[i].hash) is Ok
    &&& has_key(tree_keys(trees_of_record(repo, records[i].hash)->Ok_0), key)
}

/// The directories listed for some snapshots are those that one of the
/// snapshots reaches.
pub proof fn lemma_listed_trees(repo: RepositoryView, records: Seq<RecordView>, key: Seq<u8>)
    requires
        trees_of_records(repo, records) is Ok,
    ensures
        has_key(tree_keys(trees_of_records(repo, records)->Ok_0), key) == exists|i: int|
            reached_by(repo, records, key, i),
        forall|i: int|
            0 <= i < records.len() ==> trees_of_record(repo, (#[trigger] records[i]).hash) is Ok,
    decreases records.len(),
{
    let all = trees_of_records(repo, records)->Ok_0;
    if records.len() == 0 {
        if has_key(tree_keys(all), key) {
            let i = choose|i: int| 0 <= i < tree_keys(all).len() && tree_keys(all)[i] == key;
            assert(false);
        }
    } else {
        let front = records.drop_last();
        let before = trees_of_records(repo, front)->Ok_0;
        let last = trees_of_record(repo, records.last().hash)->Ok_0;
        lemma_listed_trees(repo, front, key);
        lemma_tree_keys_joined(before, last, key);
        assert forall|i: int| 0 <= i < records.len() implies trees_of_record(
            repo,
            (#[trigger] records[i]).hash,
        ) is Ok by {
            if i < front.len() {
                assert(front[i] == records[i]);
            }
        }
        if has_key(tree_keys(all), key) {
            if has_key(tree_keys(before), key) {
                let i = choose|i: int| reached_by(repo, front, key, i);
                assert(front[i] == records[i]);
                assert(reached_by(repo, records, key, i));
            } else {
                assert(reached_by(repo, records, key, records.len() - 1));
            }
        }
        if exists|i: int| reached_by(repo, records, key, i) {
            let i = choose|i: int| reached_by(repo, records, key, i);
            if i < front.len() {
                assert(front[i] == records[i]);
                assert(reached_by(repo, front, key, i));
            }
        }
    }
}

/// The directories listed for some snapshots are stored.
pub proof fn lemma_listed_trees_stored(repo: RepositoryView, records: Seq<RecordView>, key: Seq<u8>)
    requires
        trees_of_records(repo, records) is Ok,
        has_key(tree_keys(trees_of_records(repo, records)->Ok_0), key),
    ensures
        repo.has_tree(key),
{
    lemma_listed_trees(repo, records, key);
    let i = choose|i: int| reached_by(repo, records, key, i);
    let fp = records[i].hash;
    lemma_reachable_stored(repo, repo.record(fp).root, repo.trees.len(), key);
}

/// Every directory of the store is reached by one of its snapshots.
pub open spec fn trees_rooted(repo: RepositoryView) -> bool {
    forall|key: Seq<u8>| #[trigger]
        repo.has_tree(key) ==> exists|i: int| reached_by(repo, repo.records, key, i)
}

/// A snapshot that both stores have reaches the same directories in both.
pub open spec fn snapshots_agree(a: RepositoryView, b: RepositoryView) -> bool {
    forall|fp: Seq<u8>|
        #![trigger a.has_record(fp), b.has_record(fp)]
        a.has_record(fp) && b.has_record(fp) ==> {
            &&& trees_of_record(a, fp) is Ok
            &&& trees_of_record(b, fp) is Ok
            &&& forall|key: Seq<u8>|
                has_key(tree_keys(trees_of_record(a, fp)->Ok_0), key) == has_key(
                    tree_keys(trees_of_record(b, fp)->Ok_0),
                    key,
                )
        }
}

/// A directory that one side has is, after a synchronization, on the other
/// side too: it was there, or it was listed and wanted.
proof fn lemma_tree_arrives(
    from: RepositoryView,
    to: RepositoryView,
    sent: Seq<RecordView>,
    key: Seq<u8>,
)
    requires
        trees_rooted(from),
        snapshots_agree(from, to),
        sent == records_lacking(from.records, record_keys(to.records)),
        trees_of_records(from, sent) is Ok,
        from.has_tree(key),
    ensures
        to.has_tree(key) || has_key(tree_keys(trees_of_records(from, sent)->Ok_0), key),
{
    let i = choose|i: int| reached_by(from, from.records, key, i);
    let record = from.records[i];
    let fp = record.hash;
    assert(record_keys(from.records)[i] == fp);
    assert(from.has_record(fp));
    if to.has_record(fp) {
        lemma_reachable_stored(to, to.record(fp).root, to.trees.len(), key);
    } else {
        lemma_records_lacking_keys(from.records, record_keys(to.records), fp);
        let j = choose|j: int| 0 <= j < record_keys(sent).len() && record_keys(sent)[j] == fp;
        assert(sent[j].hash == fp);
        assert(reached_by(from, sent, key, j)) by {
            lemma_listed_trees(from, sent, key);
        }
        lemma_listed_trees(from, sent, key);
    }
}

/// After a synchronization both sides hold the same directories: a
/// directory is stored under a fingerprint on one side exactly when one is
/// on the other, and that is exactly when one of the two sides had one before.
///
/// This holds of stores in which every directory is reached by a snapshot,
/// and which agree on what the snapshots reach that both have.
pub proof fn lemma_trees_converge(responder: RepositoryView, initiator: RepositoryView, key: Seq<u8>)
    requires
        exchange(responder, initiator) is Some,
        trees_rooted(responder),
        trees_rooted(initiator),
        snapshots_agree(responder, initiator),
        snapshots_agree(initiator, responder),
    ensures
        ({
            let done = exchange(responder, initiator)->Some_0;
            &&& done.responder.has_tree(key) == done.initiator.has_tree(key)
            &&& done.responder.has_tree(key) == (responder.has_tree(key) || initiator.has_tree(
                key,
            ))
        }),
{
    let done = exchange(responder, initiator)->Some_0;
    let local = trees_of_records(initiator, done.given_records)->Ok_0;
    lemma_put_trees_keys(responder.trees, done.given_trees, key);
    lemma_put_trees_keys(initiator.trees, done.wanted_trees, key);
    lemma_trees_lacking_keys(done.listed_trees, tree_keys(initiator.trees), key);
    lemma_trees_lacking_keys(local, tree_keys(done.listed_trees), key);
    if has_key(tree_keys(done.listed_trees), key) {
        lemma_listed_trees_stored(responder, done.wanted_records, key);
    }
    if has_key(tree_keys(local), key) {
        lemma_listed_trees_stored(initiator, done.given_records, key);
    }
    if responder.has_tree(key) {
        lemma_tree_arrives(responder, initiator, done.wanted_records, key);
    }
    if initiator.has_tree(key) {
        lemma_tree_arrives(initiator, responder, done.given_records, key);
    }
}

/// The directory stored under `tree` names the file content `key`.
pub open spec fn names_blob(repo: RepositoryView, tree: Seq<u8>, key: Seq<u8>) -> bool {
    repo.has_tree(tree) && has_key(entry_keys(repo.tree(tree).blobs), key)
}

/// Every file content of the store is named by one of its directories.
pub open spec fn blobs_rooted(repo: RepositoryView) -> bool {
    forall|key: Seq<u8>| #[trigger]
        repo.has_blob(key) ==> exists|tree: Seq<u8>| names_blob(repo, tree, key)
}

/// Every file content that a directory of the store names is stored.
pub open spec fn blobs_closed(repo: RepositoryView) -> bool {
    forall|tree: Seq<u8>, key: Seq<u8>| #[trigger]
        names_blob(repo, tree, key) ==> repo.has_blob(key)
}

/// A directory that both stores have names the same files in both.
pub open spec fn trees_agree_between(a: RepositoryView, b: RepositoryView) -> bool {
    forall|tree: Seq<u8>|
        #![trigger a.has_tree(tree), b.has_tree(tree)]
        a.has_tree(tree) && b.has_tree(tree) ==> a.tree(tree).blobs == b.tree(tree).blobs
}

/// One of `trees` names the file content `key`.
pub open spec fn named_by(repo: RepositoryView, trees: Seq<TreeView>, key: Seq<u8>, i: int) -> bool {
    0 <= i < trees.len() && names_blob(repo, trees[i].hash, key)
}

/// The file entries listed for some directories are those that one of the
/// directories names.
pub proof fn lemma_listed_blobs(repo: RepositoryView, trees: Seq<TreeView>, key: Seq<u8>)
    requires
        blobs_of_trees(repo, trees) is Ok,
    ensures
        has_key(entry_keys(blobs_of_trees(repo, trees)->Ok_0), key) == exists|i: int|
            named_by(repo, trees, key, i),
    decreases trees.len(),
{
    let all = blobs_of_trees(repo, trees)->Ok_0;
    if trees.len() == 0 {
        if has_key(entry_keys(all), key) {
            let i = choose|i: int| 0 <= i < entry_keys(all).len() && entry_keys(all)[i] == key;
            assert(false);
        }
    } else {
        let front = trees.drop_last();
        let before = blobs_of_trees(repo, front)->Ok_0;
        let last = repo.tree(trees.last().hash).blobs;
        lemma_listed_blobs(repo, front, key);
        lemma_entry_keys_joined(before, last, key);
        if has_key(entry_keys(all), key) {
            if has_key(entry_keys(before), key) {
                let i = choose|i: int| named_by(repo, front, key, i);
                assert(front[i] == trees[i]);
                assert(named_by(repo, trees, key, i));
            } else {
                assert(named_by(repo, trees, key, trees.len() - 1));
            }
        }
        if exists|i: int| named_by(repo, trees, key, i) {
            let i = choose|i: int| named_by(repo, trees, key, i);
            if i < front.len() {
                assert(front[i] == trees[i]);
                assert(named_by(repo, front, key, i));
            }
        }
    }
}

/// A file content that one side has is, after a synchronization, on the
/// other side too: it was there, or it was listed.
proof fn lemma_blob_arrives(
    from: RepositoryView,
    to: RepositoryView,
    sent: Seq<TreeView>,
    key: Seq<u8>,
)
    requires
        blobs_rooted(from),
        blobs_closed(to),
        trees_agree_between(from, to),
        blobs_of_trees(from, sent) is Ok,
        forall|tree: Seq<u8>|
            from.has_tree(tree) && !to.has_tree(tree) ==> #[trigger] has_key(tree_keys(sent), tree),
        from.has_blob(key),
    ensures
        to.has_blob(key) || has_key(entry_keys(blobs_of_trees(from, sent)->Ok_0), key),
{
    let tree = choose|tree: Seq<u8>| names_blob(from, tree, key);
    if to.has_tree(tree) {
        assert(names_blob(to, tree, key));
    } else {
        assert(has_key(tree_keys(sent), tree));
        let j = choose|j: int| 0 <= j < tree_keys(sent).len() && tree_keys(sent)[j] == tree;
        assert(sent[j].hash == tree);
        assert(named_by(from, sent, key, j));
        lemma_listed_blobs(from, sent, key);
    }
}

/// The two stores are such that a synchronization makes them hold the
/// same: on each side every directory is reached by a snapshot, every file
/// content is named by a directory, and every named file content is stored;
/// and the sides agree on what they both have.
pub open spec fn fit_to_converge(responder: RepositoryView, initiator: RepositoryView) -> bool {
    &&& trees_rooted(responder)
    &&& trees_rooted(initiator)
    &&& snapshots_agree(responder, initiator)
    &&& snapshots_agree(initiator, responder)
    &&& blobs_rooted(responder)
    &&& blobs_rooted(initiator)
    &&& blobs_closed(responder)
    &&& blobs_closed(initiator)
    &&& trees_agree_between(responder, initiator)
    &&& trees_agree_between(initiator, responder)
}

/// What the responder lists of file entries, it has.
proof fn lemma_listed_blobs_stored(repo: RepositoryView, trees: Seq<TreeView>, key: Seq<u8>)
    requires
        blobs_closed(repo),
        blobs_of_trees(repo, trees) is Ok,
        has_key(entry_keys(blobs_of_trees(repo, trees)->Ok_0), key),
    ensures
        repo.has_blob(key),
{
    lemma_listed_blobs(repo, trees, key);
    let i = choose|i: int| named_by(repo, trees, key, i);
    assert(names_blob(repo, trees[i].hash, key));
}

/// The directories that go to the initiator include every directory that
/// only the responder has, and those that go to the responder include every
/// directory that only the initiator has.
proof fn lemma_missing_trees_are_sent(responder: RepositoryView, initiator: RepositoryView)
    requires
        exchange(responder, initiator) is Some,
        fit_to_converge(responder, initiator),
    ensures
        ({
            let done = exchange(responder, initiator)->Some_0;
            &&& forall|tree: Seq<u8>|
                responder.has_tree(tree) && !initiator.has_tree(tree) ==> #[trigger] has_key(
                    tree_keys(done.wanted_trees),
                    tree,
                )
            &&& forall|tree: Seq<u8>|
                initiator.has_tree(tree) && !responder.has_tree(tree) ==> #[trigger] has_key(
                    tree_keys(done.given_trees),
                    tree,
                )
        }),
{
    let done = exchange(responder, initiator)->Some_0;
    let local = trees_of_records(initiator, done.given_records)->Ok_0;
    assert forall|tree: Seq<u8>|
        responder.has_tree(tree) && !initiator.has_tree(tree) implies #[trigger] has_key(
        tree_keys(done.wanted_trees),
        tree,
    ) by {
        lemma_tree_arrives(responder, initiator, done.wanted_records, tree);
        lemma_trees_lacking_keys(done.listed_trees, tree_keys(initiator.trees), tree);
    }
    assert forall|tree: Seq<u8>|
        initiator.has_tree(tree) && !responder.has_tree(tree) implies #[trigger] has_key(
        tree_keys(done.given_trees),
        tree,
    ) by {
        lemma_tree_arrives(initiator, responder, done.given_records, tree);
        lemma_trees_lacking_keys(local, tree_keys(done.listed_trees), tree);
        if has_key(tree_keys(done.listed_trees), tree) {
            lemma_listed_trees_stored(responder, done.wanted_records, tree);
        }
    }
}

/// What is new is what is listed and not had.
pub proof fn lemma_blobs_new_keys(items: Seq<BlobView>, have: Seq<Seq<u8>>, key: Seq<u8>)
    ensures
        has_key(entry_keys(blobs_new(items, have)), key) == (has_key(entry_keys(items), key)
            && !has_key(have, key)),
    decreases items.len(),
{
    if items.len() == 0 {
        assert(!has_key(entry_keys(items), key));
        assert(!has_key(entry_keys(blobs_new(items, have)), key));
    } else {
        let front = items.drop_last();
        let last = items.last();
        let before = blobs_new(front, have);
        lemma_blobs_new_keys(front, have, key);
        lemma_blobs_new_keys(front, have, last.hash);
        assert(entry_keys(items) =~= entry_keys(front).push(last.hash));
        lemma_has_key_push(entry_keys(front), last.hash, key);
        if !has_key(have, last.hash) && !has_key(entry_keys(before), last.hash) {
            assert(entry_keys(before.push(last)) =~= entry_keys(before).push(last.hash));
            lemma_has_key_push(entry_keys(before), last.hash, key);
        }
    }
}

/// What is new names each file content once.
pub proof fn lemma_blobs_new_once(items: Seq<BlobView>, have: Seq<Seq<u8>>)
    ensures
        crate::lookup::distinct(entry_keys(blobs_new(items, have))),
    decreases items.len(),
{
    if items.len() > 0 {
        let front = items.drop_last();
        let last = items.last();
        let before = blobs_new(front, have);
        lemma_blobs_new_once(front, have);
        if !has_key(have, last.hash) && !has_key(entry_keys(before), last.hash) {
            let now = entry_keys(before.push(last));
            assert(now =~= entry_keys(before).push(last.hash));
            assert forall|i: int, j: int| 0 <= i < j < now.len() implies now[i] != now[j] by {
                if j == now.len() - 1 {
                    assert(entry_keys(before)[i] == now[i]);
                } else {
                    assert(entry_keys(before)[i] == now[i]);
                    assert(entry_keys(before)[j] == now[j]);
                }
            }
        }
    }
}

/// One of `trees` names the file content `key` in its own list of files.
pub open spec fn lists_blob(trees: Seq<TreeView>, key: Seq<u8>, i: int) -> bool {
    0 <= i < trees.len() && has_key(entry_keys(trees[i].blobs), key)
}

/// The file entries that directories name are those that one of them names.
pub proof fn lemma_named_blobs(trees: Seq<TreeView>, key: Seq<u8>)
    ensures
        has_key(entry_keys(named_blobs(trees)), key) == exists|i: int| lists_blob(trees, key, i),
    decreases trees.len(),
{
    if trees.len() == 0 {
        if has_key(entry_keys(named_blobs(trees)), key) {
            let i = choose|i: int|
                0 <= i < entry_keys(named_blobs(trees)).len() && entry_keys(named_blobs(trees))[i]
                    == key;
            assert(false);
        }
    } else {
        let front = trees.drop_last();
        lemma_named_blobs(front, key);
        lemma_entry_keys_joined(named_blobs(front), trees.last().blobs, key);
        if has_key(entry_keys(named_blobs(trees)), key) {
            if has_key(entry_keys(named_blobs(front)), key) {
                let i = choose|i: int| lists_blob(front, key, i);
                assert(front[i] == trees[i]);
                assert(lists_blob(trees, key, i));
            } else {
                assert(lists_blob(trees, key, trees.len() - 1));
            }
        }
        if exists|i: int| lists_blob(trees, key, i) {
            let i = choose|i: int| lists_blob(trees, key, i);
            if i < front.len() {
                assert(front[i] == trees[i]);
                assert(lists_blob(front, key, i));
            }
        }
    }
}

/// Every directory of the list is the one that the store gives under its
/// fingerprint.
pub open spec fn faithful(repo: RepositoryView, list: Seq<TreeView>) -> bool {
    forall|i: int|
        0 <= i < list.len() ==> repo.has_tree((#[trigger] list[i]).hash) && list[i] == repo.tree(
            list[i].hash,
        )
}

/// Two faithful lists joined are faithful.
proof fn lemma_faithful_joined(repo: RepositoryView, a: Seq<TreeView>, b: Seq<TreeView>)
    requires
        faithful(repo, a),
        faithful(repo, b),
    ensures
        faithful(repo, a + b),
{
    assert forall|i: int| 0 <= i < (a + b).len() implies repo.has_tree(
        (#[trigger] (a + b)[i]).hash,
    ) && (a + b)[i] == repo.tree((a + b)[i].hash) by {
        if i < a.len() {
            assert((a + b)[i] == a[i]);
        } else {
            assert((a + b)[i] == b[i - a.len()]);
        }
    }
}

/// What a stored directory reaches is listed as the store has it.
pub proof fn lemma_reachable_faithful(repo: RepositoryView, hash: Seq<u8>, depth: nat)
    requires
        reachable(repo, hash, depth) is Ok,
    ensures
        faithful(repo, reachable(repo, hash, depth)->Ok_0),
    decreases depth, 1nat, 0nat,
{
    let tree = repo.tree(hash);
    let below = reachable_below(repo, tree.trees, tree.trees.len(), depth)->Ok_0;
    lemma_tree_key(repo, hash);
    lemma_below_faithful(repo, tree.trees, tree.trees.len(), depth);
    assert(faithful(repo, seq![tree])) by {
        assert forall|i: int| 0 <= i < seq![tree].len() implies repo.has_tree(
            (#[trigger] seq![tree][i]).hash,
        ) && seq![tree][i] == repo.tree(seq![tree][i].hash) by {
            assert(seq![tree][i] == tree);
        }
    }
    lemma_faithful_joined(repo, seq![tree], below);
}

/// What some stored directories reach is listed as the store has it.
pub proof fn lemma_below_faithful(repo: RepositoryView, hashes: Seq<Seq<u8>>, n: nat, depth: nat)
    requires
        n <= hashes.len(),
        reachable_below(repo, hashes, n, depth) is Ok,
    ensures
        faithful(repo, reachable_below(repo, hashes, n, depth)->Ok_0),
    decreases depth, 0nat, n,
{
    if n > 0 {
        let before = reachable_below(repo, hashes, (n - 1) as nat, depth)->Ok_0;
        let sub = reachable(repo, hashes[n - 1], (depth - 1) as nat)->Ok_0;
        lemma_below_faithful(repo, hashes, (n - 1) as nat, depth);
        lemma_reachable_faithful(repo, hashes[n - 1], (depth - 1) as nat);
        lemma_faithful_joined(repo, before, sub);
    }
}

/// The directories listed for some snapshots are listed as the store has them.
pub proof fn lemma_listed_faithful(repo: RepositoryView, records: Seq<RecordView>)
    requires
        trees_of_records(repo, records) is Ok,
    ensures
        faithful(repo, trees_of_records(repo, records)->Ok_0),
    decreases records.len(),
{
    if records.len() > 0 {
        let front = records.drop_last();
        lemma_listed_faithful(repo, front);
        lemma_reachable_faithful(repo, repo.record(records.last().hash).root, repo.trees.len());
        lemma_faithful_joined(
            repo,
            trees_of_records(repo, front)->Ok_0,
            trees_of_record(repo, records.last().hash)->Ok_0,
        );
    }
}

/// The directories that some snapshots reach, as far as the store can tell,
/// are listed as the store has them; each is reached by one of the snapshots,
/// and what a snapshot reaches is among them.
pub proof fn lemma_reached_trees(repo: RepositoryView, records: Seq<RecordView>, key: Seq<u8>)
    ensures
        faithful(repo, reached_trees(repo, records)),
        has_key(tree_keys(reached_trees(repo, records)), key) == exists|i: int|
            reached_by(repo, records, key, i),
    decreases records.len(),
{
    let all = reached_trees(repo, records);
    if records.len() == 0 {
        if has_key(tree_keys(all), key) {
            let i = choose|i: int| 0 <= i < tree_keys(all).len() && tree_keys(all)[i] == key;
            assert(false);
        }
    } else {
        let front = records.drop_last();
        let before = reached_trees(repo, front);
        let last = match trees_of_record(repo, records.last().hash) {
            Ok(trees) => trees,
            Err(_) => Seq::empty(),
        };
        lemma_reached_trees(repo, front, key);
        if trees_of_record(repo, records.last().hash) is Ok {
            lemma_reachable_faithful(
                repo,
                repo.record(records.last().hash).root,
                repo.trees.len(),
            );
        }
        lemma_faithful_joined(repo, before, last);
        lemma_tree_keys_joined(before, last, key);
        if has_key(tree_keys(all), key) {
            if has_key(tree_keys(before), key) {
                let i = choose|i: int| reached_by(repo, front, key, i);
                assert(front[i] == records[i]);
                assert(reached_by(repo, records, key, i));
            } else {
                if !(trees_of_record(repo, records.last().hash) is Ok) {
                    let i = choose|i: int| 0 <= i < tree_keys(last).len() && tree_keys(last)[i] == key;
                    assert(false);
                }
                assert(reached_by(repo, records, key, records.len() - 1));
            }
        }
        if exists|i: int| reached_by(repo, records, key, i) {
            let i = choose|i: int| reached_by(repo, records, key, i);
            if i < front.len() {
                assert(front[i] == records[i]);
                assert(reached_by(repo, front, key, i));
            }
        }
    }
}

/// In a faithful list, the directory under a fingerprint is listed as the
/// store has it.
proof fn lemma_faithful_lists(repo: RepositoryView, list: Seq<TreeView>, tree: Seq<u8>, key: Seq<u8>)
    requires
        faithful(repo, list),
        has_key(tree_keys(list), tree),
        has_key(entry_keys(repo.tree(tree).blobs), key),
    ensures
        has_key(entry_keys(named_blobs(list)), key),
{
    let i = choose|i: int| 0 <= i < tree_keys(list).len() && tree_keys(list)[i] == tree;
    assert(list[i].hash == tree);
    assert(lists_blob(list, key, i));
    lemma_named_blobs(list, key);
}

/// A snapshot is shared exactly when both sides have it.
proof fn lemma_shared_records(responder: RepositoryView, initiator: RepositoryView, key: Seq<u8>)
    ensures
        has_key(
            record_keys(
                shared_records(initiator, given_records(initiator, responder.records)),
            ),
            key,
        ) == (initiator.has_record(key) && responder.has_record(key)),
{
    let given = given_records(initiator, responder.records);
    lemma_records_lacking_keys(initiator.records, record_keys(given), key);
    lemma_records_lacking_keys(initiator.records, record_keys(responder.records), key);
}

/// What the listed directories name, the responder has.
proof fn lemma_listed_names_stored(
    responder: RepositoryView,
    records: Seq<RecordView>,
    key: Seq<u8>,
)
    requires
        blobs_closed(responder),
        trees_of_records(responder, records) is Ok,
        has_key(entry_keys(named_blobs(trees_of_records(responder, records)->Ok_0)), key),
    ensures
        responder.has_blob(key),
{
    let listed = trees_of_records(responder, records)->Ok_0;
    lemma_named_blobs(listed, key);
    lemma_listed_faithful(responder, records);
    let i = choose|i: int| lists_blob(listed, key, i);
    assert(names_blob(responder, listed[i].hash, key));
}

/// What the shared snapshots reach on the initiator's side and name, the
/// responder has.
proof fn lemma_shared_names_stored(
    responder: RepositoryView,
    initiator: RepositoryView,
    key: Seq<u8>,
)
    requires
        blobs_closed(responder),
        snapshots_agree(initiator, responder),
        trees_agree_between(initiator, responder),
        has_key(
            entry_keys(
                named_blobs(
                    reached_trees(
                        initiator,
                        shared_records(initiator, given_records(initiator, responder.records)),
                    ),
                ),
            ),
            key,
        ),
    ensures
        responder.has_blob(key),
{
    let shared = shared_records(initiator, given_records(initiator, responder.records));
    let reached = reached_trees(initiator, shared);
    lemma_named_blobs(reached, key);
    let i = choose|i: int| lists_blob(reached, key, i);
    let tree = reached[i].hash;
    lemma_reached_trees(initiator, shared, tree);
    assert(tree_keys(reached)[i] == tree);
    let j = choose|j: int| reached_by(initiator, shared, tree, j);
    let fp = shared[j].hash;
    assert(record_keys(shared)[j] == fp);
    lemma_shared_records(responder, initiator, fp);
    assert(initiator.has_record(fp) && responder.has_record(fp));
    lemma_reachable_stored(responder, responder.record(fp).root, responder.trees.len(), tree);
    assert(initiator.has_tree(tree) && responder.has_tree(tree));
    assert(names_blob(responder, tree, key));
}

/// What the responder has is named by a directory that a shared snapshot
/// reaches on the initiator's side, or by one that the responder lists.
proof fn lemma_stored_is_named(responder: RepositoryView, initiator: RepositoryView, key: Seq<u8>)
    requires
        blobs_rooted(responder),
        trees_rooted(responder),
        snapshots_agree(responder, initiator),
        trees_agree_between(responder, initiator),
        trees_of_records(responder, wanted_records(initiator, responder.records)) is Ok,
        responder.has_blob(key),
    ensures
        has_key(
            entry_keys(
                named_blobs(
                    reached_trees(
                        initiator,
                        shared_records(initiator, given_records(initiator, responder.records)),
                    ),
                ),
            ),
            key,
        ) || has_key(
            entry_keys(
                named_blobs(
                    trees_of_records(
                        responder,
                        wanted_records(initiator, responder.records),
                    )->Ok_0,
                ),
            ),
            key,
        ),
{
    let shared = shared_records(initiator, given_records(initiator, responder.records));
    let reached = reached_trees(initiator, shared);
    let wanted = wanted_records(initiator, responder.records);
    let listed = trees_of_records(responder, wanted)->Ok_0;
    let tree = choose|tree: Seq<u8>| names_blob(responder, tree, key);
    let i = choose|i: int| reached_by(responder, responder.records, tree, i);
    let fp = responder.records[i].hash;
    assert(record_keys(responder.records)[i] == fp);
    assert(responder.has_record(fp));
    if initiator.has_record(fp) {
        lemma_shared_records(responder, initiator, fp);
        let j = choose|j: int| 0 <= j < record_keys(shared).len() && record_keys(shared)[j] == fp;
        assert(shared[j].hash == fp);
        assert(reached_by(initiator, shared, tree, j));
        lemma_reached_trees(initiator, shared, tree);
        lemma_reachable_stored(initiator, initiator.record(fp).root, initiator.trees.len(), tree);
        assert(responder.has_tree(tree) && initiator.has_tree(tree));
        lemma_faithful_lists(initiator, reached, tree, key);
    } else {
        lemma_records_lacking_keys(responder.records, record_keys(initiator.records), fp);
        let j = choose|j: int| 0 <= j < record_keys(wanted).len() && record_keys(wanted)[j] == fp;
        assert(wanted[j].hash == fp);
        assert(reached_by(responder, wanted, tree, j));
        lemma_listed_trees(responder, wanted, tree);
        lemma_listed_faithful(responder, wanted);
        lemma_faithful_lists(responder, listed, tree, key);
    }
}

/// What the initiator takes the responder to hold is what the responder
/// holds: the file contents that its listed directories name, and those that
/// the shared snapshots reach.
///
/// This holds of stores that are fit to converge.
pub proof fn lemma_held_by_responder(
    responder: RepositoryView,
    initiator: RepositoryView,
    key: Seq<u8>,
)
    requires
        exchange(responder, initiator) is Some,
        fit_to_converge(responder, initiator),
    ensures
        ({
            let done = exchange(responder, initiator)->Some_0;
            has_key(held_by_responder(initiator, done.given_records, done.listed_trees), key)
                == responder.has_blob(key)
        }),
{
    let wanted = wanted_records(initiator, responder.records);
    let given = given_records(initiator, responder.records);
    let listed = trees_of_records(responder, wanted)->Ok_0;
    let reached = reached_trees(initiator, shared_records(initiator, given));
    lemma_has_key_joined(entry_keys(named_blobs(reached)), entry_keys(named_blobs(listed)), key);
    if has_key(entry_keys(named_blobs(listed)), key) {
        lemma_listed_names_stored(responder, wanted, key);
    }
    if has_key(entry_keys(named_blobs(reached)), key) {
        lemma_shared_names_stored(responder, initiator, key);
    }
    if responder.has_blob(key) {
        lemma_stored_is_named(responder, initiator, key);
    }
}

/// After a synchronization both sides hold the same file contents: a
/// content is stored under a fingerprint on one side exactly when one is on
/// the other, and that is exactly when one of the two sides had one before.
///
/// This holds of stores that are fit to converge.
pub proof fn lemma_blobs_converge(responder: RepositoryView, initiator: RepositoryView, key: Seq<u8>)
    requires
        exchange(responder, initiator) is Some,
        fit_to_converge(responder, initiator),
    ensures
        ({
            let done = exchange(responder, initiator)->Some_0;
            &&& done.responder.has_blob(key) == done.initiator.has_blob(key)
            &&& done.responder.has_blob(key) == (responder.has_blob(key) || initiator.has_blob(
                key,
            ))
        }),
{
    let done = exchange(responder, initiator)->Some_0;
    let to_initiator = outgoing(responder, done.wanted_blobs)->Ok_0;
    let to_responder = outgoing(initiator, done.given_blobs)->Ok_0;
    let holding_i = RepositoryView {
        temp: temp_after(initiator.temp, to_initiator),
        ..initiator
    };
    let holding_r = RepositoryView {
        temp: temp_after(responder.temp, to_responder),
        ..responder
    };
    lemma_received_keys(holding_r, done.given_blobs);
    lemma_received_keys(holding_i, done.wanted_blobs);
    lemma_put_blobs_keys(responder.objects, received_entries(holding_r, done.given_blobs), key);
    lemma_put_blobs_keys(initiator.objects, received_entries(holding_i, done.wanted_blobs), key);
    lemma_transfers_are_needed(responder, initiator, key);
}

/// The file contents that go to the initiator are exactly those that the
/// responder has and the initiator lacks, and those that go to the responder
/// are exactly those that the initiator has and the responder lacks: none is
/// sent for nothing, none is missed, and each goes once.
///
/// This holds of stores that are fit to converge.
pub proof fn lemma_transfers_are_needed(
    responder: RepositoryView,
    initiator: RepositoryView,
    key: Seq<u8>,
)
    requires
        exchange(responder, initiator) is Some,
        fit_to_converge(responder, initiator),
    ensures
        ({
            let done = exchange(responder, initiator)->Some_0;
            &&& has_key(entry_keys(done.wanted_blobs), key) == (responder.has_blob(key)
                && !initiator.has_blob(key))
            &&& has_key(entry_keys(done.given_blobs), key) == (initiator.has_blob(key)
                && !responder.has_blob(key))
            &&& crate::lookup::distinct(entry_keys(done.wanted_blobs))
            &&& crate::lookup::distinct(entry_keys(done.given_blobs))
        }),
{
    let done = exchange(responder, initiator)->Some_0;
    let local = blobs_of_trees(initiator, done.given_trees)->Ok_0;
    let held = held_by_responder(initiator, done.given_records, done.listed_trees);
    lemma_blobs_new_keys(done.listed_blobs, blob_keys(initiator.objects), key);
    lemma_blobs_new_keys(local, held, key);
    lemma_blobs_new_once(done.listed_blobs, blob_keys(initiator.objects));
    lemma_blobs_new_once(local, held);
    lemma_held_by_responder(responder, initiator, key);
    lemma_missing_trees_are_sent(responder, initiator);
    if has_key(entry_keys(done.listed_blobs), key) {
        lemma_listed_blobs_stored(responder, done.wanted_trees, key);
    }
    if has_key(entry_keys(local), key) {
        lemma_listed_blobs_stored(initiator, done.given_trees, key);
    }
    if responder.has_blob(key) {
        lemma_blob_arrives(responder, initiator, done.wanted_trees, key);
    }
    if initiator.has_blob(key) {
        lemma_blob_arrives(initiator, responder, done.given_trees, key);
    }
}

/// Writing snapshots that the store has none of keeps what it held, in place.
proof fn lemma_put_records_grow(records: Seq<RecordView>, entries: Seq<RecordView>)
    requires
        forall|i: int|
            0 <= i < entries.len() ==> !has_key(record_keys(records), (#[trigger] entries[i]).hash),
    ensures
        records.is_prefix_of(put_records(records, entries)),
    decreases entries.len(),
{
    if entries.len() > 0 {
        let front = entries.drop_last();
        let last = entries.last();
        let before = put_records(records, front);
        assert forall|i: int| 0 <= i < front.len() implies !has_key(
            record_keys(records),
            (#[trigger] front[i]).hash,
        ) by {
            assert(front[i] == entries[i]);
        }
        lemma_put_records_grow(records, front);
        assert(!has_key(record_keys(records), entries[entries.len() - 1].hash));
        if has_key(record_keys(before), last.hash) {
            lemma_has_key(record_keys(before), last.hash);
            let k = index_of(record_keys(before), last.hash);
            if k < records.len() {
                assert(before[k] == records[k]);
                assert(record_keys(records)[k] == last.hash);
            }
        }
        assert(records =~= put_record(before, last).subrange(0, records.len() as int));
    } else {
        assert(records =~= records.subrange(0, records.len() as int));
    }
}

/// Writing directories keeps what the store held, in place.
proof fn lemma_put_trees_grow(trees: Seq<TreeView>, entries: Seq<TreeView>)
    ensures
        trees.is_prefix_of(put_trees(trees, entries)),
    decreases entries.len(),
{
    if entries.len() > 0 {
        let before = put_trees(trees, entries.drop_last());
        lemma_put_trees_grow(trees, entries.drop_last());
        assert(trees =~= put_tree(before, entries.last()).subrange(0, trees.len() as int));
    } else {
        assert(trees =~= trees.subrange(0, trees.len() as int));
    }
}

/// Writing file contents that the store has none of keeps what it held, in
/// place.
proof fn lemma_put_blobs_grow(objects: Seq<StoredBlobView>, entries: Seq<StoredBlobView>)
    requires
        forall|i: int|
            0 <= i < entries.len() ==> !has_key(blob_keys(objects), (#[trigger] entries[i]).hash),
    ensures
        objects.is_prefix_of(put_blobs(objects, entries)),
    decreases entries.len(),
{
    if entries.len() > 0 {
        let front = entries.drop_last();
        let last = entries.last();
        let before = put_blobs(objects, front);
        assert forall|i: int| 0 <= i < front.len() implies !has_key(
            blob_keys(objects),
            (#[trigger] front[i]).hash,
        ) by {
            assert(front[i] == entries[i]);
        }
        lemma_put_blobs_grow(objects, front);
        assert(!has_key(blob_keys(objects), entries[entries.len() - 1].hash));
        if has_key(blob_keys(before), last.hash) {
            lemma_has_key(blob_keys(before), last.hash);
            let k = index_of(blob_keys(before), last.hash);
            if k < objects.len() {
                assert(before[k] == objects[k]);
                assert(blob_keys(objects)[k] == last.hash);
            }
        }
        assert(objects =~= put_blob(before, last).subrange(0, objects.len() as int));
    } else {
        assert(objects =~= objects.subrange(0, objects.len() as int));
    }
}

/// A synchronization removes and alters nothing: on either side, the
/// snapshots and the directories that the store held are still there
/// afterwards, in place and as they were, with what came in behind them; and
/// so are the file contents of the initiator.
pub proof fn lemma_stores_only_grow(responder: RepositoryView, initiator: RepositoryView)
    requires
        exchange(responder, initiator) is Some,
    ensures
        ({
            let done = exchange(responder, initiator)->Some_0;
            &&& responder.records.is_prefix_of(done.responder.records)
            &&& initiator.records.is_prefix_of(done.initiator.records)
            &&& responder.trees.is_prefix_of(done.responder.trees)
            &&& initiator.trees.is_prefix_of(done.initiator.trees)
            &&& initiator.objects.is_prefix_of(done.initiator.objects)
        }),
{
    let done = exchange(responder, initiator)->Some_0;
    let to_initiator = outgoing(responder, done.wanted_blobs)->Ok_0;
    let holding_i = RepositoryView {
        temp: temp_after(initiator.temp, to_initiator),
        ..initiator
    };
    assert forall|i: int| 0 <= i < done.wanted_records.len() implies !has_key(
        record_keys(initiator.records),
        (#[trigger] done.wanted_records[i]).hash,
    ) by {
        let key = done.wanted_records[i].hash;
        assert(record_keys(done.wanted_records)[i] == key);
        lemma_records_lacking_keys(responder.records, record_keys(initiator.records), key);
    }
    assert forall|i: int| 0 <= i < done.given_records.len() implies !has_key(
        record_keys(responder.records),
        (#[trigger] done.given_records[i]).hash,
    ) by {
        let key = done.given_records[i].hash;
        assert(record_keys(done.given_records)[i] == key);
        lemma_records_lacking_keys(initiator.records, record_keys(responder.records), key);
    }
    lemma_put_records_grow(initiator.records, done.wanted_records);
    lemma_put_records_grow(responder.records, done.given_records);
    lemma_put_trees_grow(initiator.trees, done.wanted_trees);
    lemma_put_trees_grow(responder.trees, done.given_trees);
    let came = received_entries(holding_i, done.wanted_blobs);
    assert forall|i: int| 0 <= i < came.len() implies !has_key(
        blob_keys(initiator.objects),
        (#[trigger] came[i]).hash,
    ) by {
        let key = came[i].hash;
        assert(entry_keys(done.wanted_blobs)[i] == key);
        lemma_blobs_new_keys(done.listed_blobs, blob_keys(initiator.objects), key);
    }
    lemma_put_blobs_grow(initiator.objects, came);
}

/// A synchronization removes and alters no file content of the responder:
/// what its store held is still there afterwards, in place and as it was,
/// with what came in behind it.
///
/// This holds of stores that are fit to converge.
pub proof fn lemma_responder_contents_stay(responder: RepositoryView, initiator: RepositoryView)
    requires
        exchange(responder, initiator) is Some,
        fit_to_converge(responder, initiator),
    ensures
        responder.objects.is_prefix_of(exchange(responder, initiator)->Some_0.responder.objects),
{
    let done = exchange(responder, initiator)->Some_0;
    let to_responder = outgoing(initiator, done.given_blobs)->Ok_0;
    let holding_r = RepositoryView {
        temp: temp_after(responder.temp, to_responder),
        ..responder
    };
    let came = received_entries(holding_r, done.given_blobs);
    assert forall|i: int| 0 <= i < came.len() implies !has_key(
        blob_keys(responder.objects),
        (#[trigger] came[i]).hash,
    ) by {
        let key = came[i].hash;
        assert(entry_keys(done.given_blobs)[i] == key);
        lemma_transfers_are_needed(responder, initiator, key);
    }
    lemma_put_blobs_grow(responder.objects, came);
}

/// A synchronization leaves `HEAD` as it is on both sides.
pub proof fn lemma_head_stays(responder: RepositoryView, initiator: RepositoryView)
    requires
        exchange(responder, initiator) is Some,
    ensures
        exchange(responder, initiator)->Some_0.responder.head == responder.head,
        exchange(responder, initiator)->Some_0.initiator.head == initiator.head,
{
}

/// The answer of the initiator in the first round.
pub open spec fn record_answer(done: Exchange) -> SyncMessageView {
    SyncMessageView::RecordDiff(
        records_tagged(done.wanted_records, 1) + records_tagged(done.given_records, 2),
    )
}

/// The answer of the initiator in the second round.
pub open spec fn tree_answer(done: Exchange) -> SyncMessageView {
    SyncMessageView::TreeDiff(
        trees_tagged(done.wanted_trees, 1) + trees_tagged(done.given_trees, 2),
    )
}

/// The answer of the initiator in the third round.
pub open spec fn blob_answer(done: Exchange) -> SyncMessageView {
    SyncMessageView::BlobDiff(
        blobs_tagged(done.wanted_blobs, 1) + blobs_tagged(done.given_blobs, 2),
    )
}

/// The two sides, run against each other, settle what [`exchange`] says.
/// In each of the first three rounds the initiator answers the responder's
/// list with what it wants and what it gives, the responder reads from the
/// answer exactly those two lists, and replies with the next list. After the
/// third round both sessions hold the same six lists.
pub proof fn lemma_rounds_agree(responder: RepositoryView, initiator: RepositoryView)
    requires
        exchange(responder, initiator) is Some,
    ensures
        ({
            let done = exchange(responder, initiator)->Some_0;
            let i1 = initiator_step(
                initiator,
                fresh_session(),
                SyncMessageView::Records(responder.records),
            );
            let r1 = responder_step(responder, fresh_session(), record_answer(done));
            let i2 = initiator_step(
                initiator,
                i1.session,
                SyncMessageView::Trees(done.listed_trees),
            );
            let r2 = responder_step(responder, r1.session, tree_answer(done));
            let i3 = initiator_step(
                initiator,
                i2.session,
                SyncMessageView::Blobs(done.listed_blobs),
            );
            let r3 = responder_step(responder, r2.session, blob_answer(done));
            &&& i1.reply == Ok::<Seq<SyncMessageView>, crate::WsvcErrorView>(
                seq![record_answer(done)],
            )
            &&& r1.reply == Ok::<Seq<SyncMessageView>, crate::server::WsvcServerErrorView>(
                seq![SyncMessageView::Trees(done.listed_trees)],
            )
            &&& i2.reply == Ok::<Seq<SyncMessageView>, crate::WsvcErrorView>(
                seq![tree_answer(done)],
            )
            &&& r2.reply == Ok::<Seq<SyncMessageView>, crate::server::WsvcServerErrorView>(
                seq![SyncMessageView::Blobs(done.listed_blobs)],
            )
            &&& i3.session.wanted_records == done.wanted_records
            &&& i3.session.given_records == done.given_records
            &&& i3.session.wanted_trees == done.wanted_trees
            &&& i3.session.given_trees == done.given_trees
            &&& i3.session.wanted_blobs == done.wanted_blobs
            &&& i3.session.given_blobs == done.given_blobs
            &&& r3.session.wanted_records == done.wanted_records
            &&& r3.session.given_records == done.given_records
            &&& r3.session.wanted_trees == done.wanted_trees
            &&& r3.session.given_trees == done.given_trees
            &&& r3.session.wanted_blobs == done.wanted_blobs
            &&& r3.session.given_blobs == done.given_blobs
        }),
{
    let done = exchange(responder, initiator)->Some_0;
    lemma_records_marks(done.wanted_records, done.given_records);
    lemma_trees_marks(done.wanted_trees, done.given_trees);
    lemma_blobs_marks(done.wanted_blobs, done.given_blobs);
}

/// What the initiator's last step leads to when `files` come in, in order.
pub open spec fn initiator_run(
    repo: RepositoryView,
    session: SyncSessionView,
    files: Seq<TempFileView>,
) -> StepView
    decreases files.len(),
{
    if files.len() == 0 {
        StepView { reply: Ok(Seq::empty()), session, repo }
    } else {
        let before = initiator_run(repo, session, files.drop_last());
        initiator_step(before.repo, before.session, SyncMessageView::File(files.last()))
    }
}

/// What the responder's last step leads to when `files` come in, in order.
pub open spec fn responder_run(
    repo: RepositoryView,
    session: SyncSessionView,
    files: Seq<TempFileView>,
) -> ServerStepView
    decreases files.len(),
{
    if files.len() == 0 {
        ServerStepView { reply: Ok(Seq::empty()), session, repo }
    } else {
        let before = responder_run(repo, session, files.drop_last());
        responder_step(before.repo, before.session, SyncMessageView::File(files.last()))
    }
}

/// As many files go out as there are entries to send.
pub proof fn lemma_outgoing_len(repo: RepositoryView, blobs: Seq<BlobView>)
    requires
        outgoing(repo, blobs) is Ok,
    ensures
        outgoing(repo, blobs)->Ok_0.len() == blobs.len(),
    decreases blobs.len(),
{
    if blobs.len() > 0 {
        lemma_outgoing_len(repo, blobs.drop_last());
    }
}

/// What goes out does not depend on what lies in the working area.
pub proof fn lemma_outgoing_ignores_temp(
    repo: RepositoryView,
    temp: Seq<TempFileView>,
    blobs: Seq<BlobView>,
)
    ensures
        outgoing(RepositoryView { temp, ..repo }, blobs) == outgoing(repo, blobs),
    decreases blobs.len(),
{
    if blobs.len() > 0 {
        lemma_outgoing_ignores_temp(repo, temp, blobs.drop_last());
    }
}

/// Every file content is stored under a fingerprint of 32 bytes, as in
/// every repository.
pub open spec fn sized(repo: RepositoryView) -> bool {
    forall|i: int| 0 <= i < repo.objects.len() ==> (#[trigger] repo.objects[i]).hash.len() == 32
}

/// What a repository holds, it holds under fingerprints of 32 bytes.
pub proof fn lemma_repository_is_sized(repo: Repository)
    ensures
        sized(repo@),
{
    broadcast use vstd::array::group_array_axioms;

    assert forall|i: int| 0 <= i < repo@.objects.len() implies (#[trigger] repo@.objects[i]).hash.len()
        == 32 by {
        assert(repo@.objects[i] == repo.objects@[i]@);
    }
}

/// The files that go out travel under names that the other side takes.
pub proof fn lemma_outgoing_names(repo: RepositoryView, blobs: Seq<BlobView>)
    requires
        outgoing(repo, blobs) is Ok,
        sized(repo),
    ensures
        forall|i: int|
            0 <= i < outgoing(repo, blobs)->Ok_0.len() ==> is_blob_name(
                #[trigger] outgoing(repo, blobs)->Ok_0[i].name,
            ),
    decreases blobs.len(),
{
    if blobs.len() > 0 {
        let key = blobs.last().hash;
        lemma_outgoing_names(repo, blobs.drop_last());
        lemma_has_key(blob_keys(repo.objects), key);
        let k = index_of(blob_keys(repo.objects), key);
        assert(repo.objects[k].hash == key);
        lemma_blob_file_name(key);
    }
}

/// While files come in and more are expected, the initiator keeps them in
/// the working area and says nothing.
proof fn lemma_initiator_holds(
    repo: RepositoryView,
    session: SyncSessionView,
    files: Seq<TempFileView>,
)
    requires
        session.phase == Phase::Files,
        files.len() < session.files_left,
        forall|i: int| 0 <= i < files.len() ==> is_blob_name(#[trigger] files[i].name),
    ensures
        initiator_run(repo, session, files) == (StepView {
            reply: Ok(Seq::empty()),
            session: SyncSessionView {
                files_left: (session.files_left - files.len()) as usize,
                ..session
            },
            repo: RepositoryView { temp: temp_after(repo.temp, files), ..repo },
        }),
    decreases files.len(),
{
    if files.len() > 0 {
        assert forall|i: int| 0 <= i < files.drop_last().len() implies is_blob_name(
            #[trigger] files.drop_last()[i].name,
        ) by {
            assert(files.drop_last()[i] == files[i]);
        }
        lemma_initiator_holds(repo, session, files.drop_last());
        assert(is_blob_name(files[files.len() - 1].name));
    }
}

/// While files come in and more are expected, the responder keeps them in
/// the working area and says nothing.
proof fn lemma_responder_holds(
    repo: RepositoryView,
    session: SyncSessionView,
    files: Seq<TempFileView>,
)
    requires
        session.phase == Phase::Files,
        files.len() < session.files_left,
        forall|i: int| 0 <= i < files.len() ==> is_blob_name(#[trigger] files[i].name),
    ensures
        responder_run(repo, session, files) == (ServerStepView {
            reply: Ok(Seq::empty()),
            session: SyncSessionView {
                files_left: (session.files_left - files.len()) as usize,
                ..session
            },
            repo: RepositoryView { temp: temp_after(repo.temp, files), ..repo },
        }),
    decreases files.len(),
{
    if files.len() > 0 {
        assert forall|i: int| 0 <= i < files.drop_last().len() implies is_blob_name(
            #[trigger] files.drop_last()[i].name,
        ) by {
            assert(files.drop_last()[i] == files[i]);
        }
        lemma_responder_holds(repo, session, files.drop_last());
        assert(is_blob_name(files[files.len() - 1].name));
    }
}

/// The two sides, run against each other to the end, leave the
/// repositories that [`exchange`] says, each given up by its session: the
/// responder sends the wanted files with its last list or after it, the
/// initiator takes them in and ends, sending the files it gives, and the
/// responder takes those in and ends. The lists of files are of a length
/// that a machine can count, and the stores hold what they hold under
/// fingerprints of 32 bytes.
pub proof fn lemma_sessions_end_as_exchanged(responder: RepositoryView, initiator: RepositoryView)
    requires
        exchange(responder, initiator) is Some,
        exchange(responder, initiator)->Some_0.wanted_blobs.len() <= usize::MAX,
        exchange(responder, initiator)->Some_0.given_blobs.len() <= usize::MAX,
        sized(responder),
        sized(initiator),
    ensures
        ({
            let done = exchange(responder, initiator)->Some_0;
            let to_initiator = outgoing(responder, done.wanted_blobs)->Ok_0;
            let to_responder = outgoing(initiator, done.given_blobs)->Ok_0;
            let i1 = initiator_step(
                initiator,
                fresh_session(),
                SyncMessageView::Records(responder.records),
            );
            let r1 = responder_step(responder, fresh_session(), record_answer(done));
            let i2 = initiator_step(
                initiator,
                i1.session,
                SyncMessageView::Trees(done.listed_trees),
            );
            let r2 = responder_step(responder, r1.session, tree_answer(done));
            let i3 = initiator_step(
                initiator,
                i2.session,
                SyncMessageView::Blobs(done.listed_blobs),
            );
            let r3 = responder_step(responder, r2.session, blob_answer(done));
            let i4 = if done.wanted_blobs.len() == 0 {
                i3
            } else {
                initiator_run(i3.repo, i3.session, to_initiator)
            };
            let r4 = if done.given_blobs.len() == 0 {
                r3
            } else {
                responder_run(r3.repo, r3.session, to_responder)
            };
            &&& r3.reply is Ok
            &&& r3.reply->Ok_0 == file_messages_of(to_initiator)
            &&& i4.reply is Ok
            &&& i4.reply->Ok_0 == (if done.wanted_blobs.len() == 0 {
                seq![blob_answer(done)]
            } else {
                Seq::<SyncMessageView>::empty()
            }) + file_messages_of(to_responder)
            &&& r4.reply is Ok
            &&& i4.session.phase == Phase::Done
            &&& r4.session.phase == Phase::Done
            &&& i4.repo == released(done.initiator)
            &&& r4.repo == released(done.responder)
        }),
{
    let done = exchange(responder, initiator)->Some_0;
    let to_initiator = outgoing(responder, done.wanted_blobs)->Ok_0;
    let to_responder = outgoing(initiator, done.given_blobs)->Ok_0;
    lemma_rounds_agree(responder, initiator);
    lemma_outgoing_len(responder, done.wanted_blobs);
    lemma_outgoing_len(initiator, done.given_blobs);
    lemma_outgoing_names(responder, done.wanted_blobs);
    lemma_outgoing_names(initiator, done.given_blobs);
    let i1 = initiator_step(
        initiator,
        fresh_session(),
        SyncMessageView::Records(responder.records),
    );
    let r1 = responder_step(responder, fresh_session(), record_answer(done));
    let i2 = initiator_step(initiator, i1.session, SyncMessageView::Trees(done.listed_trees));
    let r2 = responder_step(responder, r1.session, tree_answer(done));
    let i3 = initiator_step(initiator, i2.session, SyncMessageView::Blobs(done.listed_blobs));
    let r3 = responder_step(responder, r2.session, blob_answer(done));
    assert(temp_after(initiator.temp, Seq::<TempFileView>::empty()) == initiator.temp);
    assert(temp_after(responder.temp, Seq::<TempFileView>::empty()) == responder.temp);
    if done.wanted_blobs.len() == 0 {
        assert(to_initiator =~= Seq::<TempFileView>::empty());
    } else {
        let front = to_initiator.drop_last();
        assert forall|i: int| 0 <= i < front.len() implies is_blob_name(
            #[trigger] front[i].name,
        ) by {
            assert(front[i] == to_initiator[i]);
        }
        assert(is_blob_name(to_initiator[to_initiator.len() - 1].name));
        lemma_initiator_holds(i3.repo, i3.session, front);
        let holding = RepositoryView { temp: temp_after(initiator.temp, to_initiator), ..initiator };
        lemma_outgoing_ignores_temp(initiator, holding.temp, done.given_blobs);
        assert(holding == RepositoryView { temp: holding.temp, ..initiator });
        assert(Seq::<SyncMessageView>::empty() + file_messages_of(to_responder)
            =~= file_messages_of(to_responder));
    }
    if done.given_blobs.len() == 0 {
        assert(to_responder =~= Seq::<TempFileView>::empty());
    } else {
        let front = to_responder.drop_last();
        assert forall|i: int| 0 <= i < front.len() implies is_blob_name(
            #[trigger] front[i].name,
        ) by {
            assert(front[i] == to_responder[i]);
        }
        assert(is_blob_name(to_responder[to_responder.len() - 1].name));
        lemma_responder_holds(r3.repo, r3.session, front);
    }
}

/// Where the initiator stands when its session, run against the
/// responder's, has taken in the last message.
pub open spec fn initiator_after(responder: RepositoryView, initiator: RepositoryView) -> StepView {
    let done = exchange(responder, initiator)->Some_0;
    let i1 = initiator_step(
        initiator,
        fresh_session(),
        SyncMessageView::Records(responder.records),
    );
    let i2 = initiator_step(initiator, i1.session, SyncMessageView::Trees(done.listed_trees));
    let i3 = initiator_step(initiator, i2.session, SyncMessageView::Blobs(done.listed_blobs));
    if done.wanted_blobs.len() == 0 {
        i3
    } else {
        initiator_run(i3.repo, i3.session, outgoing(responder, done.wanted_blobs)->Ok_0)
    }
}

/// Where the responder stands when its session, run against the
/// initiator's, has taken in the last message.
pub open spec fn responder_after(responder: RepositoryView, initiator: RepositoryView)
    -> ServerStepView {
    let done = exchange(responder, initiator)->Some_0;
    let r1 = responder_step(responder, fresh_session(), record_answer(done));
    let r2 = responder_step(responder, r1.session, tree_answer(done));
    let r3 = responder_step(responder, r2.session, blob_answer(done));
    if done.given_blobs.len() == 0 {
        r3
    } else {
        responder_run(r3.repo, r3.session, outgoing(initiator, done.given_blobs)->Ok_0)
    }
}

/// A whole synchronization, step by step on both sides, ends well on both
/// and leaves the two stores holding the same: a snapshot, a directory or a
/// file content is stored under a fingerprint on one side exactly when one is
/// on the other, and that is exactly when one of the two sides had one
/// before. What a store held is still there, in place and as it was. `HEAD`
/// is on each side what it was, and neither repository is held any longer.
///
/// This holds of stores that are fit to converge and hold what they hold
/// under fingerprints of 32 bytes, and of lists of files of a length that a
/// machine can count.
pub proof fn lemma_sync_converges(responder: RepositoryView, initiator: RepositoryView, key: Seq<u8>)
    requires
        exchange(responder, initiator) is Some,
        fit_to_converge(responder, initiator),
        exchange(responder, initiator)->Some_0.wanted_blobs.len() <= usize::MAX,
        exchange(responder, initiator)->Some_0.given_blobs.len() <= usize::MAX,
        sized(responder),
        sized(initiator),
    ensures
        ({
            let there = responder_after(responder, initiator);
            let here = initiator_after(responder, initiator);
            &&& there.reply is Ok
            &&& here.reply is Ok
            &&& there.session.phase == Phase::Done
            &&& here.session.phase == Phase::Done
            &&& there.repo.has_record(key) == here.repo.has_record(key)
            &&& there.repo.has_tree(key) == here.repo.has_tree(key)
            &&& there.repo.has_blob(key) == here.repo.has_blob(key)
            &&& here.repo.has_record(key) == (responder.has_record(key) || initiator.has_record(
                key,
            ))
            &&& here.repo.has_tree(key) == (responder.has_tree(key) || initiator.has_tree(key))
            &&& here.repo.has_blob(key) == (responder.has_blob(key) || initiator.has_blob(key))
            &&& responder.records.is_prefix_of(there.repo.records)
            &&& responder.trees.is_prefix_of(there.repo.trees)
            &&& responder.objects.is_prefix_of(there.repo.objects)
            &&& initiator.records.is_prefix_of(here.repo.records)
            &&& initiator.trees.is_prefix_of(here.repo.trees)
            &&& initiator.objects.is_prefix_of(here.repo.objects)
            &&& there.repo.head == responder.head
            &&& here.repo.head == initiator.head
            &&& there.repo.lock_file is None
            &&& here.repo.lock_file is None
            &&& there.repo.temp.len() == 0
            &&& here.repo.temp.len() == 0
        }),
{
    lemma_sessions_end_as_exchanged(responder, initiator);
    lemma_records_converge(responder, initiator, key);
    lemma_trees_converge(responder, initiator, key);
    lemma_blobs_converge(responder, initiator, key);
    lemma_stores_only_grow(responder, initiator);
    lemma_responder_contents_stay(responder, initiator);
    lemma_head_stays(responder, initiator);
}

/// Of snapshots that are all had, none is lacking.
pub proof fn lemma_nothing_lacking(items: Seq<RecordView>, have: Seq<Seq<u8>>)
    requires
        forall|i: int| 0 <= i < items.len() ==> has_key(have, (#[trigger] items[i]).hash),
    ensures
        records_lacking(items, have) == Seq::<RecordView>::empty(),
    decreases items.len(),
{
    if items.len() > 0 {
        assert forall|i: int| 0 <= i < items.drop_last().len() implies has_key(
            have,
            (#[trigger] items.drop_last()[i]).hash,
        ) by {
            assert(items.drop_last()[i] == items[i]);
        }
        lemma_nothing_lacking(items.drop_last(), have);
        assert(has_key(have, items[items.len() - 1].hash));
    }
}

/// A second synchronization, right after one that ended well, has nothing
/// to transfer: no snapshot, no directory and no file content is wanted or
/// given.
pub proof fn lemma_second_sync_transfers_nothing(
    responder: RepositoryView,
    initiator: RepositoryView,
)
    requires
        exchange(responder, initiator) is Some,
    ensures
        ({
            let done = exchange(responder, initiator)->Some_0;
            let again = exchange(done.responder, done.initiator);
            &&& again is Some
            &&& again->Some_0.wanted_records.len() == 0
            &&& again->Some_0.given_records.len() == 0
            &&& again->Some_0.wanted_trees.len() == 0
            &&& again->Some_0.given_trees.len() == 0
            &&& again->Some_0.wanted_blobs.len() == 0
            &&& again->Some_0.given_blobs.len() == 0
            &&& again->Some_0.responder.objects == done.responder.objects
            &&& again->Some_0.initiator.objects == done.initiator.objects
        }),
{
    let done = exchange(responder, initiator)->Some_0;
    let a = done.responder;
    let b = done.initiator;
    assert forall|i: int| 0 <= i < a.records.len() implies has_key(
        record_keys(b.records),
        (#[trigger] a.records[i]).hash,
    ) by {
        let key = a.records[i].hash;
        assert(record_keys(a.records)[i] == key);
        lemma_records_converge(responder, initiator, key);
    }
    assert forall|i: int| 0 <= i < b.records.len() implies has_key(
        record_keys(a.records),
        (#[trigger] b.records[i]).hash,
    ) by {
        let key = b.records[i].hash;
        assert(record_keys(b.records)[i] == key);
        lemma_records_converge(responder, initiator, key);
    }
    lemma_nothing_lacking(a.records, record_keys(b.records));
    lemma_nothing_lacking(b.records, record_keys(a.records));
    let none_r = Seq::<RecordView>::empty();
    let none_t = Seq::<TreeView>::empty();
    let none_b = Seq::<BlobView>::empty();
    assert(trees_of_records(a, none_r) == Ok::<Seq<TreeView>, crate::fs::WsvcFsErrorView>(none_t));
    assert(trees_of_records(b, none_r) == Ok::<Seq<TreeView>, crate::fs::WsvcFsErrorView>(none_t));
    assert(trees_lacking(none_t, tree_keys(b.trees)) == none_t);
    assert(trees_lacking(none_t, tree_keys(none_t)) == none_t);
    assert(blobs_of_trees(a, none_t) == Ok::<Seq<BlobView>, crate::fs::WsvcFsErrorView>(none_b));
    assert(blobs_of_trees(b, none_t) == Ok::<Seq<BlobView>, crate::fs::WsvcFsErrorView>(none_b));
    assert(blobs_new(none_b, blob_keys(b.objects)) == none_b);
    assert(blobs_new(
        none_b,
        held_by_responder(
            b,
            given_records(b, a.records),
            Seq::<TreeView>::empty(),
        ),
    ) == none_b);
    assert(outgoing(a, none_b) == Ok::<Seq<TempFileView>, crate::fs::WsvcFsErrorView>(
        Seq::<TempFileView>::empty(),
    ));
    assert(outgoing(b, none_b) == Ok::<Seq<TempFileView>, crate::fs::WsvcFsErrorView>(
        Seq::<TempFileView>::empty(),
    ));
    assert(temp_after(a.temp, Seq::<TempFileView>::empty()) == a.temp);
    assert(temp_after(b.temp, Seq::<TempFileView>::empty()) == b.temp);
    assert(received_entries(a, none_b) =~= Seq::empty());
    assert(received_entries(b, none_b) =~= Seq::empty());
}

} // verus!
