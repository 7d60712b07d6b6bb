//! The object store: three kinds of objects, each found by its fingerprint.

use vstd::prelude::*;
use crate::codec::{
    compress_blob, decoded_blob, decompress_blob, encodable, encoded_blob, encoding_fault,
};
use crate::digest::{blake3_digest, fingerprint};
use crate::fs::{WsvcFsError, WsvcFsErrorView};
use crate::lookup::{first_at, has_key, index_of, lemma_first_at};
use crate::hex::hex_string;
use crate::json::{record_fingerprint, tree_fingerprint};
use crate::model::{
    Blob, BlobView, ObjectId, Record, RecordView, Repository, RepositoryView, StoredBlob,
    StoredBlobView, Tree, TreeView,
};

verus! {

/// The fingerprints under which the file contents are stored.
pub open spec fn blob_keys(objects: Seq<StoredBlobView>) -> Seq<Seq<u8>> {
    Seq::new(objects.len(), |i: int| objects[i].hash)
}

/// The fingerprints under which the directories are stored.
pub open spec fn tree_keys(trees: Seq<TreeView>) -> Seq<Seq<u8>> {
    Seq::new(trees.len(), |i: int| trees[i].hash)
}

/// The fingerprints under which the snapshots are stored.
pub open spec fn record_keys(records: Seq<RecordView>) -> Seq<Seq<u8>> {
    Seq::new(records.len(), |i: int| records[i].hash)
}

/// `objects` with `entry` written under its fingerprint: over the first
/// entry of that fingerprint, or at the end where there is none.
pub open spec fn put_blob(objects: Seq<StoredBlobView>, entry: StoredBlobView) -> Seq<
    StoredBlobView,
> {
    if has_key(blob_keys(objects), entry.hash) {
        objects.update(index_of(blob_keys(objects), entry.hash), entry)
    } else {
        objects.push(entry)
    }
}

/// `trees` with `tree` written under its fingerprint unless one is there.
pub open spec fn put_tree(trees: Seq<TreeView>, tree: TreeView) -> Seq<TreeView> {
    if has_key(tree_keys(trees), tree.hash) {
        trees
    } else {
        trees.push(tree)
    }
}

/// `records` with `record` written under its fingerprint: over the first
/// entry of that fingerprint, or at the end where there is none.
pub open spec fn put_record(records: Seq<RecordView>, record: RecordView) -> Seq<RecordView> {
    if has_key(record_keys(records), record.hash) {
        records.update(index_of(record_keys(records), record.hash), record)
    } else {
        records.push(record)
    }
}

/// A directory with its `hash` field set to its fingerprint.
pub open spec fn sealed_tree(tree: TreeView) -> TreeView {
    TreeView { hash: tree_fingerprint(tree), ..tree }
}

/// A snapshot with its `hash` field set to its fingerprint.
pub open spec fn sealed_record(record: RecordView) -> RecordView {
    RecordView { hash: record_fingerprint(record), ..record }
}

impl RepositoryView {
    /// A file content is stored under `fp`.
    pub open spec fn has_blob(self, fp: Seq<u8>) -> bool {
        has_key(blob_keys(self.objects), fp)
    }

    /// The stored form of the file content under `fp`.
    pub open spec fn blob_data(self, fp: Seq<u8>) -> Seq<u8> {
        self.objects[index_of(blob_keys(self.objects), fp)].data
    }

    /// A directory is stored under `fp`.
    pub open spec fn has_tree(self, fp: Seq<u8>) -> bool {
        has_key(tree_keys(self.trees), fp)
    }

    /// The directory stored under `fp`.
    pub open spec fn tree(self, fp: Seq<u8>) -> TreeView {
        self.trees[index_of(tree_keys(self.trees), fp)]
    }

    /// A snapshot is stored under `fp`.
    pub open spec fn has_record(self, fp: Seq<u8>) -> bool {
        has_key(record_keys(self.records), fp)
    }

    /// The snapshot stored under `fp`.
    pub open spec fn record(self, fp: Seq<u8>) -> RecordView {
        self.records[index_of(record_keys(self.records), fp)]
    }

    /// What reading the file content under `fp` gives: the content, or why
    /// there is none to give. An absent object is not found; a stored form
    /// that does not decode is reported with its fault; content that does not
    /// have the fingerprint it is stored under is corrupt.
    pub open spec fn blob_content(self, fp: Seq<u8>) -> Result<Seq<u8>, WsvcFsErrorView> {
        if !self.has_blob(fp) {
            Err(WsvcFsErrorView::NotFound(hex_string(fp)))
        } else {
            match decoded_blob(self.blob_data(fp)) {
                Err(fault) => Err(WsvcFsErrorView::DecompressFailed(fault)),
                Ok(content) => if blake3_digest(content) == fp {
                    Ok(content)
                } else {
                    Err(WsvcFsErrorView::Corrupt(hex_string(fp)))
                },
            }
        }
    }
}

fn find_blob(objects: &Vec<StoredBlob>, key: &ObjectId) -> (r: Option<usize>)
    ensures
        match r {
            Some(i) => first_at(blob_keys(objects.deep_view()), key@, i as int),
            None => !has_key(blob_keys(objects.deep_view()), key@),
        },
{
    let mut i: usize = 0;
    while i < objects.len()
        invariant
            i <= objects@.len(),
            forall|j: int| 0 <= j < i ==> blob_keys(objects.deep_view())[j] != key@,
        decreases objects@.len() - i,
    {
        if objects[i].hash == *key {
            return Some(i);
        }
        i += 1;
    }
    None
}

fn find_tree(trees: &Vec<Tree>, key: &ObjectId) -> (r: Option<usize>)
    ensures
        match r {
            Some(i) => first_at(tree_keys(trees.deep_view()), key@, i as int),
            None => !has_key(tree_keys(trees.deep_view()), key@),
        },
{
    let mut i: usize = 0;
    while i < trees.len()
        invariant
            i <= trees@.len(),
            forall|j: int| 0 <= j < i ==> tree_keys(trees.deep_view())[j] != key@,
        decreases trees@.len() - i,
    {
        if trees[i].hash == *key {
            return Some(i);
        }
        i += 1;
    }
    None
}

fn find_record(records: &Vec<Record>, key: &ObjectId) -> (r: Option<usize>)
    ensures
        match r {
            Some(i) => first_at(record_keys(records.deep_view()), key@, i as int),
            None => !has_key(record_keys(records.deep_view()), key@),
        },
{
    let mut i: usize = 0;
    while i < records.len()
        invariant
            i <= records@.len(),
            forall|j: int| 0 <= j < i ==> record_keys(records.deep_view())[j] != key@,
        decreases records@.len() - i,
    {
        if records[i].hash == *key {
            return Some(i);
        }
        i += 1;
    }
    None
}

impl Repository {
    /// Whether a file content is stored under `hash`.
    pub fn blob_exists(&self, hash: &ObjectId) -> (exists: bool)
        ensures
            exists == self@.has_blob(hash@),
    {
        find_blob(&self.objects, hash).is_some()
    }

    /// Whether a directory is stored under `hash`.
    pub fn tree_exists(&self, hash: &ObjectId) -> (exists: bool)
        ensures
            exists == self@.has_tree(hash@),
    {
        find_tree(&self.trees, hash).is_some()
    }

    /// Whether a snapshot is stored under `hash`.
    pub fn record_exists(&self, hash: &ObjectId) -> (exists: bool)
        ensures
            exists == self@.has_record(hash@),
    {
        find_record(&self.records, hash).is_some()
    }

    /// Stores file content under its fingerprint, in compressed form, and
    /// returns the entry that names it `name`. Content already stored under
    /// that fingerprint is overwritten.
    ///
    /// Fails, and leaves the store as it is, exactly when the content
    /// cannot be stored, with the fault of its first chunk that has one.
    pub fn store_blob(&mut self, name: &str, content: &[u8]) -> (r: Result<Blob, WsvcFsError>)
        ensures
            match r {
                Ok(blob) => {
                    &&& encodable(content@)
                    &&& blob@ == (BlobView { name: name@, hash: blake3_digest(content@) })
                    &&& final(self)@ == (RepositoryView {
                        objects: put_blob(
                            old(self)@.objects,
                            StoredBlobView {
                                hash: blake3_digest(content@),
                                data: encoded_blob(content@),
                            },
                        ),
                        ..old(self)@
                    })
                },
                Err(e) => {
                    &&& encoding_fault(content@) matches Some(fault) && e@
                        == WsvcFsErrorView::DecompressFailed(fault)
                    &&& final(self)@ == old(self)@
                },
            },
    {
        let data = match compress_blob(content) {
            Ok(data) => data,
            Err(fault) => {
                return Err(WsvcFsError::DecompressFailed(fault));
            },
        };
        let hash = fingerprint(content);
        let entry = StoredBlob { hash, data };
        let ghost before = self.objects.deep_view();
        match find_blob(&self.objects, &hash) {
            Some(i) => {
                proof {
                    lemma_first_at(blob_keys(before), hash@, i as int);
                }
                self.objects[i] = entry;
                assert(self.objects.deep_view() =~= before.update(i as int, entry@));
            },
            None => {
                self.objects.push(entry);
                assert(self.objects.deep_view() =~= before.push(entry@));
            },
        }
        Ok(Blob { name: name.to_owned(), hash })
    }

    /// Reads the file content stored under `hash`.
    pub fn read_blob(&self, hash: &ObjectId) -> (r: Result<Vec<u8>, WsvcFsError>)
        ensures
            match r {
                Ok(content) => self@.blob_content(hash@) == Ok::<Seq<u8>, WsvcFsErrorView>(
                    content@,
                ),
                Err(e) => self@.blob_content(hash@) == Err::<Seq<u8>, WsvcFsErrorView>(e@),
            },
    {
        let i = match find_blob(&self.objects, hash) {
            Some(i) => i,
            None => {
                return Err(WsvcFsError::NotFound(hash.to_hex()));
            },
        };
        proof {
            lemma_first_at(blob_keys(self.objects.deep_view()), hash@, i as int);
        }
        let content = match decompress_blob(self.objects[i].data.as_slice()) {
            Ok(content) => content,
            Err(fault) => {
                return Err(WsvcFsError::DecompressFailed(fault));
            },
        };
        let actual = fingerprint(content.as_slice());
        if actual == *hash {
            Ok(content)
        } else {
            Err(WsvcFsError::Corrupt(hash.to_hex()))
        }
    }

    /// Stores a directory under its fingerprint unless one is stored there
    /// already. Returns the directory with its `hash` field set, and whether
    /// it was written.
    pub fn store_tree(&mut self, tree: Tree) -> (r: (Tree, bool))
        ensures
            r.0@ == sealed_tree(tree@),
            r.1 == !old(self)@.has_tree(tree_fingerprint(tree@)),
            final(self)@ == (RepositoryView {
                trees: put_tree(old(self)@.trees, sealed_tree(tree@)),
                ..old(self)@
            }),
    {
        let hash = tree.fingerprint();
        let sealed = Tree { name: tree.name, hash, trees: tree.trees, blobs: tree.blobs };
        let ghost before = self.trees.deep_view();
        match find_tree(&self.trees, &hash) {
            Some(i) => {
                proof {
                    lemma_first_at(tree_keys(before), hash@, i as int);
                }
                (sealed, false)
            },
            None => {
                let copy = sealed.clone();
                self.trees.push(sealed);
                assert(self.trees.deep_view() =~= before.push(copy@));
                (copy, true)
            },
        }
    }

    /// Reads the directory stored under `tree_hash`.
    pub fn read_tree(&self, tree_hash: &ObjectId) -> (r: Result<Tree, WsvcFsError>)
        ensures
            match r {
                Ok(tree) => self@.has_tree(tree_hash@) && tree@ == self@.tree(tree_hash@),
                Err(e) => !self@.has_tree(tree_hash@) && e@ == WsvcFsErrorView::NotFound(
                    hex_string(tree_hash@),
                ),
            },
    {
        match find_tree(&self.trees, tree_hash) {
            Some(i) => {
                proof {
                    lemma_first_at(tree_keys(self.trees.deep_view()), tree_hash@, i as int);
                }
                Ok(self.trees[i].clone())
            },
            None => Err(WsvcFsError::NotFound(tree_hash.to_hex())),
        }
    }

    /// Stores a snapshot under the fingerprint in its `hash` field, over
    /// whatever is stored there.
    pub fn store_record(&mut self, record: &Record)
        ensures
            final(self)@ == (RepositoryView {
                records: put_record(old(self)@.records, record@),
                ..old(self)@
            }),
    {
        let ghost before = self.records.deep_view();
        let copy = record.clone();
        match find_record(&self.records, &record.hash) {
            Some(i) => {
                proof {
                    lemma_first_at(record_keys(before), record.hash@, i as int);
                }
                self.records[i] = copy;
                assert(self.records.deep_view() =~= before.update(i as int, record@));
            },
            None => {
                self.records.push(copy);
                assert(self.records.deep_view() =~= before.push(record@));
            },
        }
    }

    /// Reads the snapshot stored under `record_hash`.
    pub fn read_record(&self, record_hash: &ObjectId) -> (r: Result<Record, WsvcFsError>)
        ensures
            match r {
                Ok(record) => self@.has_record(record_hash@) && record@ == self@.record(
                    record_hash@,
                ),
                Err(e) => !self@.has_record(record_hash@) && e@ == WsvcFsErrorView::NotFound(
                    hex_string(record_hash@),
                ),
            },
    {
        match find_record(&self.records, record_hash) {
            Some(i) => {
                proof {
                    lemma_first_at(record_keys(self.records.deep_view()), record_hash@, i as int);
                }
                Ok(self.records[i].clone())
            },
            None => Err(WsvcFsError::NotFound(record_hash.to_hex())),
        }
    }

    /// All stored snapshots, in the order of the store.
    pub fn get_records(&self) -> (records: Vec<Record>)
        ensures
            records.deep_view() == self@.records,
    {
        let mut records: Vec<Record> = Vec::new();
        let mut i: usize = 0;
        while i < self.records.len()
            invariant
                i <= self.records@.len(),
                records@.len() == i,
                forall|k: int| 0 <= k < i ==> records@[k]@ == self.records@[k]@,
            decreases self.records@.len() - i,
        {
            records.push(self.records[i].clone());
            i += 1;
        }
        assert(records.deep_view() =~= self.records.deep_view());
        records
    }

    /// The file entries of the directory stored under `tree_hash`.
    pub fn get_blobs_of_tree(&self, tree_hash: &ObjectId) -> (r: Result<Vec<Blob>, WsvcFsError>)
        ensures
            match r {
                Ok(blobs) => self@.has_tree(tree_hash@) && blobs.deep_view() == self@.tree(
                    tree_hash@,
                ).blobs,
                Err(e) => !self@.has_tree(tree_hash@) && e@ == WsvcFsErrorView::NotFound(
                    hex_string(tree_hash@),
                ),
            },
    {
        match self.read_tree(tree_hash) {
            Ok(tree) => Ok(tree.blobs),
            Err(e) => Err(e),
        }
    }
}

} // verus!
