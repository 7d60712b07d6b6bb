//! Fingerprints and the three kinds of stored objects.

use vstd::prelude::*;

verus! {

/// Number of bytes in a fingerprint.
pub const FINGERPRINT_LEN: usize = 32;

/// Number of characters in the hexadecimal form of a fingerprint.
pub const HEX_LEN: usize = 64;

/// A 256-bit fingerprint: the identity of a stored object.
#[derive(Clone, Copy, Debug)]
pub struct ObjectId(pub [u8; 32]);

impl View for ObjectId {
    type V = Seq<u8>;

    open spec fn view(&self) -> Seq<u8> {
        self.0@
    }
}

/// The all-zero fingerprint, which stands in the `hash` field of an object
/// while its own fingerprint is computed.
pub open spec fn zero_fingerprint() -> Seq<u8> {
    Seq::new(32, |i: int| 0u8)
}

impl ObjectId {
    /// The bytes of the fingerprint.
    pub fn as_bytes(&self) -> (bytes: &[u8; 32])
        ensures
            bytes@ == self@,
    {
        &self.0
    }

    /// Builds a fingerprint from its 32 bytes.
    pub fn from_bytes(bytes: [u8; 32]) -> (id: ObjectId)
        ensures
            id@ == bytes@,
    {
        ObjectId(bytes)
    }
}

impl Default for ObjectId {
    fn default() -> (id: ObjectId)
        ensures
            id@ == zero_fingerprint(),
    {
        broadcast use vstd::array::group_array_axioms;
        let id = ObjectId([0u8; 32]);
        assert(id@ =~= zero_fingerprint());
        id
    }
}

impl PartialEq for ObjectId {
    fn eq(&self, other: &ObjectId) -> (equal: bool) {
        broadcast use vstd::array::group_array_axioms;
        let mut i: usize = 0;
        while i < 32
            invariant
                i <= 32,
                forall|k: int| 0 <= k < i ==> self.0@[k] == other.0@[k],
            decreases 32 - i,
        {
            if self.0[i] != other.0[i] {
                return false;
            }
            i += 1;
        }
        assert(self.0@ =~= other.0@);
        true
    }
}

impl Eq for ObjectId {

}

impl vstd::std_specs::cmp::PartialEqSpecImpl for ObjectId {
    open spec fn obeys_eq_spec() -> bool {
        true
    }

    open spec fn eq_spec(&self, other: &ObjectId) -> bool {
        self@ == other@
    }
}

/// Two fingerprints with the same bytes are the same value.
pub proof fn lemma_object_id_ext(a: ObjectId, b: ObjectId)
    requires
        a@ == b@,
    ensures
        a == b,
{
    broadcast use vstd::array::group_array_axioms;
    assert(a.0 =~= b.0);
}

impl DeepView for ObjectId {
    type V = Seq<u8>;

    open spec fn deep_view(&self) -> Seq<u8> {
        self@
    }
}

/// A file of a directory: its name and the fingerprint of its content.
#[derive(Debug)]
pub struct Blob {
    pub name: String,
    pub hash: ObjectId,
}

/// A directory: its name, its own fingerprint, the fingerprints of its
/// subdirectories and its files, each list in the order of the directory walk.
#[derive(Debug)]
pub struct Tree {
    pub name: String,
    pub hash: ObjectId,
    pub trees: Vec<ObjectId>,
    pub blobs: Vec<Blob>,
}

/// A snapshot: who took it, when, with what message, and the fingerprint of
/// the root directory. `date` counts the seconds since the epoch, in UTC.
#[derive(Debug)]
pub struct Record {
    pub hash: ObjectId,
    pub message: String,
    pub author: String,
    pub date: i64,
    pub root: ObjectId,
}

/// What a [`Blob`] holds.
pub struct BlobView {
    pub name: Seq<char>,
    pub hash: Seq<u8>,
}

/// What a [`Tree`] holds.
pub struct TreeView {
    pub name: Seq<char>,
    pub hash: Seq<u8>,
    pub trees: Seq<Seq<u8>>,
    pub blobs: Seq<BlobView>,
}

/// What a [`Record`] holds.
pub struct RecordView {
    pub hash: Seq<u8>,
    pub message: Seq<char>,
    pub author: Seq<char>,
    pub date: int,
    pub root: Seq<u8>,
}

impl DeepView for Blob {
    type V = BlobView;

    open spec fn deep_view(&self) -> BlobView {
        BlobView { name: self.name@, hash: self.hash@ }
    }
}

impl View for Blob {
    type V = BlobView;

    open spec fn view(&self) -> BlobView {
        self.deep_view()
    }
}

impl DeepView for Tree {
    type V = TreeView;

    open spec fn deep_view(&self) -> TreeView {
        TreeView {
            name: self.name@,
            hash: self.hash@,
            trees: self.trees.deep_view(),
            blobs: self.blobs.deep_view(),
        }
    }
}

impl View for Tree {
    type V = TreeView;

    open spec fn view(&self) -> TreeView {
        self.deep_view()
    }
}

impl DeepView for Record {
    type V = RecordView;

    open spec fn deep_view(&self) -> RecordView {
        RecordView {
            hash: self.hash@,
            message: self.message@,
            author: self.author@,
            date: self.date as int,
            root: self.root@,
        }
    }
}

impl View for Record {
    type V = RecordView;

    open spec fn view(&self) -> RecordView {
        self.deep_view()
    }
}

impl Clone for Blob {
    fn clone(&self) -> (copy: Blob)
        ensures
            copy@ == self@,
    {
        Blob { name: self.name.clone(), hash: self.hash }
    }
}

/// A copy of a list of fingerprints.
pub fn clone_ids(ids: &Vec<ObjectId>) -> (copy: Vec<ObjectId>)
    ensures
        copy.deep_view() == ids.deep_view(),
        copy@ == ids@,
{
    let mut copy: Vec<ObjectId> = Vec::new();
    let mut i: usize = 0;
    while i < ids.len()
        invariant
            i <= ids@.len(),
            copy@ == ids@.take(i as int),
        decreases ids@.len() - i,
    {
        copy.push(ids[i]);
        assert(copy@ =~= ids@.take(i + 1));
        i += 1;
    }
    assert(ids@.take(i as int) =~= ids@);
    copy
}

/// A copy of a list of files.
pub fn clone_blobs(blobs: &Vec<Blob>) -> (copy: Vec<Blob>)
    ensures
        copy.deep_view() == blobs.deep_view(),
{
    let mut copy: Vec<Blob> = Vec::new();
    let mut i: usize = 0;
    while i < blobs.len()
        invariant
            i <= blobs@.len(),
            copy@.len() == i,
            forall|k: int| 0 <= k < i ==> copy@[k]@ == blobs@[k]@,
        decreases blobs@.len() - i,
    {
        copy.push(blobs[i].clone());
        i += 1;
    }
    assert(copy.deep_view() =~= blobs.deep_view());
    copy
}

impl Clone for Tree {
    fn clone(&self) -> (copy: Tree)
        ensures
            copy@ == self@,
    {
        Tree {
            name: self.name.clone(),
            hash: self.hash,
            trees: clone_ids(&self.trees),
            blobs: clone_blobs(&self.blobs),
        }
    }
}

/// A copy of a list of directories.
pub fn clone_trees(trees: &Vec<Tree>) -> (copy: Vec<Tree>)
    ensures
        copy.deep_view() == trees.deep_view(),
{
    let mut copy: Vec<Tree> = Vec::new();
    let mut i: usize = 0;
    while i < trees.len()
        invariant
            i <= trees@.len(),
            copy@.len() == i,
            forall|k: int| 0 <= k < i ==> copy@[k]@ == trees@[k]@,
        decreases trees@.len() - i,
    {
        copy.push(trees[i].clone());
        i += 1;
    }
    assert(copy.deep_view() =~= trees.deep_view());
    copy
}

impl Clone for Record {
    fn clone(&self) -> (copy: Record)
        ensures
            copy@ == self@,
    {
        Record {
            hash: self.hash,
            message: self.message.clone(),
            author: self.author.clone(),
            date: self.date,
            root: self.root,
        }
    }
}

/// A stored file content: its fingerprint and its compressed form.
#[derive(Debug)]
pub struct StoredBlob {
    pub hash: ObjectId,
    pub data: Vec<u8>,
}

/// A file in the working area of a repository: received, not yet part of
/// the store. The name is held as the bytes that came over the channel.
#[derive(Debug)]
pub struct TempFile {
    pub name: Vec<u8>,
    pub data: Vec<u8>,
}

/// What a [`StoredBlob`] holds.
pub struct StoredBlobView {
    pub hash: Seq<u8>,
    pub data: Seq<u8>,
}

/// What a [`TempFile`] holds.
pub struct TempFileView {
    pub name: Seq<u8>,
    pub data: Seq<u8>,
}

impl DeepView for StoredBlob {
    type V = StoredBlobView;

    open spec fn deep_view(&self) -> StoredBlobView {
        StoredBlobView { hash: self.hash@, data: self.data@ }
    }
}

impl View for StoredBlob {
    type V = StoredBlobView;

    open spec fn view(&self) -> StoredBlobView {
        self.deep_view()
    }
}

impl DeepView for TempFile {
    type V = TempFileView;

    open spec fn deep_view(&self) -> TempFileView {
        TempFileView { name: self.name@, data: self.data@ }
    }
}

impl View for TempFile {
    type V = TempFileView;

    open spec fn view(&self) -> TempFileView {
        self.deep_view()
    }
}

/// A repository, held in memory: where it lives, the session that works on
/// it, and what lies under its root.
///
/// `objects`, `trees` and `records` are the three kinds of stored objects,
/// each found by its fingerprint; where a fingerprint occurs twice the first
/// entry counts. `head` is empty or the hexadecimal fingerprint of the current
/// snapshot. `lock_file` is present while a session holds the repository and
/// then names that session. `temp` is the working area.
#[derive(Debug)]
pub struct Repository {
    pub path: String,
    pub lock: String,
    pub objects: Vec<StoredBlob>,
    pub trees: Vec<Tree>,
    pub records: Vec<Record>,
    pub head: String,
    pub lock_file: Option<String>,
    pub origin: Option<String>,
    pub temp: Vec<TempFile>,
}

/// What a [`Repository`] holds.
pub struct RepositoryView {
    pub path: Seq<char>,
    pub lock: Seq<char>,
    pub objects: Seq<StoredBlobView>,
    pub trees: Seq<TreeView>,
    pub records: Seq<RecordView>,
    pub head: Seq<char>,
    pub lock_file: Option<Seq<char>>,
    pub origin: Option<Seq<char>>,
    pub temp: Seq<TempFileView>,
}

impl DeepView for Repository {
    type V = RepositoryView;

    open spec fn deep_view(&self) -> RepositoryView {
        RepositoryView {
            path: self.path@,
            lock: self.lock@,
            objects: self.objects.deep_view(),
            trees: self.trees.deep_view(),
            records: self.records.deep_view(),
            head: self.head@,
            lock_file: self.lock_file.deep_view(),
            origin: self.origin.deep_view(),
            temp: self.temp.deep_view(),
        }
    }
}

impl View for Repository {
    type V = RepositoryView;

    open spec fn view(&self) -> RepositoryView {
        self.deep_view()
    }
}

} // verus!
