//! Looking through the stored snapshots: the current one, the latest one,
//! and the directories that one reaches.

use vstd::prelude::*;
use vstd::string::StringSliceAdditionalSpecFns;
use vstd::utf8::encode_utf8;
use crate::fs::workdir::{file_names, DirView, FileView, WorkDir, WorkFile};
use crate::fs::{WsvcFsError, WsvcFsErrorView};
use crate::hex::{hex_string, parsed_fingerprint};
use crate::lookup::{has_key, index_of, lemma_first_at};
use crate::model::{
    ObjectId, Record, RecordView, Repository, RepositoryView, Tree, TreeView,
};

verus! {

/// `a` and `b` agree before `k`, and there `a` ends while `b` goes on, or
/// `a` has the smaller byte.
pub open spec fn parts_at(a: Seq<u8>, b: Seq<u8>, k: int) -> bool {
    &&& 0 <= k <= a.len()
    &&& k <= b.len()
    &&& forall|j: int| 0 <= j < k ==> a[j] == b[j]
    &&& (k == a.len() && k < b.len()) || (k < a.len() && k < b.len() && a[k] < b[k])
}

/// `a` comes before `b` in the order of byte strings: at the first place
/// where they differ, `a` has the smaller byte, or `a` ends there.
#[verifier::opaque]
pub open spec fn bytes_before(a: Seq<u8>, b: Seq<u8>) -> bool {
    exists|k: int| parts_at(a, b, k)
}

/// `a` is a later snapshot than `b`: it has the greater date, or the same
/// date and the greater fingerprint.
pub open spec fn later(a: RecordView, b: RecordView) -> bool {
    a.date > b.date || (a.date == b.date && bytes_before(b.hash, a.hash))
}

/// Two snapshots of the same date and fingerprint.
pub open spec fn same_rank(a: RecordView, b: RecordView) -> bool {
    a.date == b.date && a.hash == b.hash
}

/// The snapshot at `i` is the latest of `records`: none is later, and it is
/// the first of its date and fingerprint.
pub open spec fn latest_at(records: Seq<RecordView>, i: int) -> bool {
    &&& 0 <= i < records.len()
    &&& forall|j: int| 0 <= j < records.len() ==> !later(#[trigger] records[j], records[i])
    &&& forall|j: int| 0 <= j < i ==> !same_rank(#[trigger] records[j], records[i])
}

/// The latest of `records`, if there is any.
pub open spec fn latest_record(records: Seq<RecordView>) -> Option<RecordView> {
    if records.len() == 0 {
        None
    } else {
        Some(records[choose|i: int| latest_at(records, i)])
    }
}

/// What `HEAD` names: nothing where it is empty, else the snapshot stored
/// under the fingerprint that it spells.
pub open spec fn head_record(repo: RepositoryView) -> Result<Option<RecordView>, WsvcFsErrorView> {
    if repo.head.len() == 0 {
        Ok(None)
    } else {
        match parsed_fingerprint(encode_utf8(repo.head)) {
            Err(e) => Err(WsvcFsErrorView::InvalidHexString(e)),
            Ok(fp) => if repo.has_record(fp) {
                Ok(Some(repo.record(fp)))
            } else {
                Err(WsvcFsErrorView::NotFound(hex_string(fp)))
            },
        }
    }
}

/// The stored directory under `hash` and all that it reaches, each
/// directory before those below it, subdirectories in order. A directory
/// that several reach is listed each time. `depth` bounds how far the
/// directories are followed: a chain that is longer is corrupt.
pub open spec fn reachable(repo: RepositoryView, hash: Seq<u8>, depth: nat) -> Result<
    Seq<TreeView>,
    WsvcFsErrorView,
>
    decreases depth, 1nat, 0nat,
{
    if !repo.has_tree(hash) {
        Err(WsvcFsErrorView::NotFound(hex_string(hash)))
    } else {
        let tree = repo.tree(hash);
        match reachable_below(repo, tree.trees, tree.trees.len(), depth) {
            Err(e) => Err(e),
            Ok(below) => Ok(seq![tree] + below),
        }
    }
}

/// What the first `n` of `hashes` reach, in order.
pub open spec fn reachable_below(repo: RepositoryView, hashes: Seq<Seq<u8>>, n: nat, depth: nat)
    -> Result<Seq<TreeView>, WsvcFsErrorView>
    decreases depth, 0nat, n,
{
    if n == 0 || n > hashes.len() {
        Ok(Seq::empty())
    } else {
        match reachable_below(repo, hashes, (n - 1) as nat, depth) {
            Err(e) => Err(e),
            Ok(before) => {
                let hash = hashes[n - 1];
                if !repo.has_tree(hash) {
                    Err(WsvcFsErrorView::NotFound(hex_string(hash)))
                } else if depth == 0 {
                    Err(WsvcFsErrorView::Corrupt(hex_string(hash)))
                } else {
                    match reachable(repo, hash, (depth - 1) as nat) {
                        Err(e) => Err(e),
                        Ok(sub) => Ok(before + sub),
                    }
                }
            },
        }
    }
}

/// The directories that the snapshot under `fp` reaches.
pub open spec fn trees_of_record(repo: RepositoryView, fp: Seq<u8>) -> Result<
    Seq<TreeView>,
    WsvcFsErrorView,
> {
    if !repo.has_record(fp) {
        Err(WsvcFsErrorView::NotFound(hex_string(fp)))
    } else {
        reachable(repo, repo.record(fp).root, repo.trees.len())
    }
}

/// `dir` with `file` written under its name: over the first file of that
/// name, or at the end where there is none.
pub open spec fn with_file(dir: DirView, file: FileView) -> DirView {
    if has_key(file_names(dir.files), file.name) {
        DirView {
            files: dir.files.update(index_of(file_names(dir.files), file.name), file),
            ..dir
        }
    } else {
        DirView { files: dir.files.push(file), ..dir }
    }
}

/// Whether `a` comes before `b` in the order of byte strings.
pub fn hash_before(a: &ObjectId, b: &ObjectId) -> (before: bool)
    ensures
        before == bytes_before(a@, b@),
{
    broadcast use vstd::array::group_array_axioms;
    reveal(bytes_before);
    let mut i: usize = 0;
    while i < 32
        invariant
            i <= 32,
            a@.len() == 32,
            b@.len() == 32,
            forall|j: int| 0 <= j < i ==> a@[j] == b@[j],
        decreases 32 - i,
    {
        reveal(bytes_before);
        if a.0[i] < b.0[i] {
            assert(parts_at(a@, b@, i as int));
            return true;
        }
        if a.0[i] > b.0[i] {
            assert(!bytes_before(a@, b@)) by {
                if bytes_before(a@, b@) {
                    let k = choose|k: int| parts_at(a@, b@, k);
                    if k > i {
                        assert(a@[i as int] == b@[i as int]);
                    }
                }
            }
            return false;
        }
        i += 1;
    }
    assert(!bytes_before(a@, b@)) by {
        reveal(bytes_before);
        if bytes_before(a@, b@) {
            let k = choose|k: int| parts_at(a@, b@, k);
            assert(k < 32);
            assert(a@[k] == b@[k]);
        }
    }
    false
}

fn is_later(a: &Record, b: &Record) -> (r: bool)
    ensures
        r == later(a@, b@),
{
    a.date > b.date || (a.date == b.date && hash_before(&b.hash, &a.hash))
}

impl Repository {
    /// The latest snapshot: the one of the greatest date, and among those of
    /// that date the one of the greatest fingerprint. `None` where no
    /// snapshot is stored.
    pub fn get_latest_record(&self) -> (r: Option<Record>)
        ensures
            r.deep_view() == latest_record(self@.records),
            match r {
                None => self@.records.len() == 0,
                Some(record) => exists|i: int|
                    latest_at(self@.records, i) && self@.records[i] == record@,
            },
    {
        if self.records.len() == 0 {
            return None;
        }
        let ghost records = self@.records;
        let mut best: usize = 0;
        let mut i: usize = 1;
        proof {
            lemma_not_later_than_itself(records[0]);
        }
        while i < self.records.len()
            invariant
                1 <= i <= self.records@.len(),
                best < i,
                records == self@.records,
                records.len() == self.records@.len(),
                forall|k: int| 0 <= k < self.records@.len() ==> #[trigger] records[k] == self.records@[k]@,
                forall|j: int| 0 <= j < i ==> !later(#[trigger] records[j], records[best as int]),
                forall|j: int|
                    0 <= j < best ==> !same_rank(#[trigger] records[j], records[best as int]),
            decreases self.records@.len() - i,
        {
            if is_later(&self.records[i], &self.records[best]) {
                proof {
                    let new = records[i as int];
                    let old = records[best as int];
                    assert forall|j: int| 0 <= j < i + 1 implies !later(
                        #[trigger] records[j],
                        new,
                    ) by {
                        if j < i {
                            lemma_later_order(records[j], old, new);
                        } else {
                            lemma_not_later_than_itself(new);
                        }
                    }
                    assert forall|j: int| 0 <= j < i implies !same_rank(
                        #[trigger] records[j],
                        new,
                    ) by {
                        assert(!later(records[j], old));
                    }
                }
                best = i;
            }
            i += 1;
        }
        assert(latest_at(records, best as int));
        proof {
            lemma_latest_unique(records, best as int);
        }
        Some(self.records[best].clone())
    }

    /// The snapshot that `HEAD` names, if it names one.
    pub fn get_head_record(&self) -> (r: Result<Option<Record>, WsvcFsError>)
        ensures
            match r {
                Ok(record) => head_record(self@) == Ok::<Option<RecordView>, WsvcFsErrorView>(
                    record.deep_view(),
                ),
                Err(e) => head_record(self@) == Err::<Option<RecordView>, WsvcFsErrorView>(e@),
            },
    {
        if self.head.as_str().is_empty() {
            return Ok(None);
        }
        let id = match ObjectId::from_hex(self.head.as_str()) {
            Ok(id) => id,
            Err(e) => {
                return Err(WsvcFsError::InvalidHexString(e));
            },
        };
        match self.read_record(&id) {
            Ok(record) => Ok(Some(record)),
            Err(e) => Err(e),
        }
    }

    fn collect(&self, hash: &ObjectId, depth: usize, out: &mut Vec<Tree>) -> (r: Result<
        (),
        WsvcFsError,
    >)
        ensures
            match r {
                Ok(_) => reachable(self@, hash@, depth as nat) is Ok && final(out).deep_view()
                    == old(out).deep_view() + reachable(self@, hash@, depth as nat)->Ok_0,
                Err(e) => reachable(self@, hash@, depth as nat) == Err::<
                    Seq<TreeView>,
                    WsvcFsErrorView,
                >(e@),
            },
        decreases depth,
    {
        let tree = match self.read_tree(hash) {
            Ok(tree) => tree,
            Err(e) => {
                return Err(e);
            },
        };
        let ghost start = out.deep_view();
        let ghost hashes = tree@.trees;
        let copy = tree.clone();
        out.push(copy);
        assert(out.deep_view() =~= start + seq![tree@] + reachable_below(
            self@,
            hashes,
            0,
            depth as nat,
        )->Ok_0);
        let mut i: usize = 0;
        while i < tree.trees.len()
            invariant
                i <= tree.trees@.len(),
                hashes == tree@.trees,
                hashes.len() == tree.trees@.len(),
                reachable_below(self@, hashes, i as nat, depth as nat) is Ok,
                out.deep_view() == start + seq![tree@] + reachable_below(
                    self@,
                    hashes,
                    i as nat,
                    depth as nat,
                )->Ok_0,
                self@.has_tree(hash@),
                tree@ == self@.tree(hash@),
            decreases tree.trees@.len() - i,
        {
            let child = &tree.trees[i];
            assert(child@ == hashes[i as int]);
            if !self.tree_exists(child) {
                proof {
                    assert(reachable_below(self@, hashes, (i + 1) as nat, depth as nat) is Err);
                    lemma_below_fail(self@, hashes, (i + 1) as nat, hashes.len(), depth as nat);
                }
                return Err(WsvcFsError::NotFound(child.to_hex()));
            }
            if depth == 0 {
                proof {
                    assert(reachable_below(self@, hashes, (i + 1) as nat, depth as nat) is Err);
                    lemma_below_fail(self@, hashes, (i + 1) as nat, hashes.len(), depth as nat);
                }
                return Err(WsvcFsError::Corrupt(child.to_hex()));
            }
            let ghost before = out.deep_view();
            let ghost prior = reachable_below(self@, hashes, i as nat, depth as nat)->Ok_0;
            match self.collect(child, depth - 1, out) {
                Ok(_) => {
                    proof {
                        let sub = reachable(self@, child@, (depth - 1) as nat)->Ok_0;
                        assert(out.deep_view() =~= start + seq![tree@] + (prior + sub));
                    }
                },
                Err(e) => {
                    proof {
                        assert(reachable_below(self@, hashes, (i + 1) as nat, depth as nat) is Err);
                        lemma_below_fail(self@, hashes, (i + 1) as nat, hashes.len(), depth as nat);
                    }
                    return Err(e);
                },
            }
            i += 1;
        }
        proof {
            let below = reachable_below(self@, hashes, hashes.len(), depth as nat)->Ok_0;
            assert(out.deep_view() =~= start + (seq![tree@] + below));
        }
        Ok(())
    }

    /// The directories that the snapshot stored under `record_hash` reaches:
    /// its root first, every directory before those below it.
    pub fn get_trees_of_record(&self, record_hash: &ObjectId) -> (r: Result<Vec<Tree>, WsvcFsError>)
        ensures
            match r {
                Ok(trees) => trees_of_record(self@, record_hash@) == Ok::<
                    Seq<TreeView>,
                    WsvcFsErrorView,
                >(trees.deep_view()),
                Err(e) => trees_of_record(self@, record_hash@) == Err::<
                    Seq<TreeView>,
                    WsvcFsErrorView,
                >(e@),
            },
    {
        let record = match self.read_record(record_hash) {
            Ok(record) => record,
            Err(e) => {
                return Err(e);
            },
        };
        let mut out: Vec<Tree> = Vec::new();
        assert(out.deep_view() =~= Seq::empty());
        assert(self@.trees.len() == self.trees@.len());
        match self.collect(&record.root, self.trees.len(), &mut out) {
            Ok(_) => {
                assert(out.deep_view() =~= reachable(
                    self@,
                    record@.root,
                    self@.trees.len(),
                )->Ok_0);
                Ok(out)
            },
            Err(e) => Err(e),
        }
    }

    /// Writes the file content stored under `blob_hash` into the workspace,
    /// as the file `name`: over the first file of that name, or as a new
    /// file. On an error the workspace is left as it was.
    pub fn checkout_blob(&self, blob_hash: &ObjectId, workspace: &mut WorkDir, name: &str) -> (r:
        Result<(), WsvcFsError>)
        ensures
            match r {
                Ok(_) => self@.blob_content(blob_hash@) is Ok && final(workspace)@ == with_file(
                    old(workspace)@,
                    FileView { name: name@, content: self@.blob_content(blob_hash@)->Ok_0 },
                ),
                Err(e) => self@.blob_content(blob_hash@) == Err::<Seq<u8>, WsvcFsErrorView>(e@)
                    && final(workspace)@ == old(workspace)@,
            },
    {
        let content = match self.read_blob(blob_hash) {
            Ok(content) => content,
            Err(e) => {
                return Err(e);
            },
        };
        proof {
            workspace.lemma_view();
        }
        let ghost before = workspace@;
        let file = WorkFile { name: name.to_owned(), content };
        let ghost view = file@;
        match workspace.find_file(name) {
            Some(i) => {
                proof {
                    lemma_first_at(file_names(before.files), name@, i as int);
                }
                workspace.files[i] = file;
                proof {
                    workspace.lemma_view();
                    assert(workspace@.files =~= before.files.update(i as int, view));
                    assert(workspace@.dirs =~= before.dirs);
                }
            },
            None => {
                workspace.files.push(file);
                proof {
                    workspace.lemma_view();
                    assert(workspace@.files =~= before.files.push(view));
                    assert(workspace@.dirs =~= before.dirs);
                }
            },
        }
        Ok(())
    }
}

/// The order of snapshots by date and fingerprint is a strict order: what
/// is later than the best so far is later than all that the best was not
/// earlier than.
proof fn lemma_later_order(x: RecordView, best: RecordView, new: RecordView)
    requires
        later(new, best),
        !later(x, best),
    ensures
        !later(x, new),
{
    if later(x, new) {
        if x.date == new.date && new.date == best.date {
            lemma_bytes_before_chain(best.hash, new.hash, x.hash);
        }
    }
}

/// No snapshot is later than itself.
proof fn lemma_not_later_than_itself(x: RecordView)
    ensures
        !later(x, x),
{
    reveal(bytes_before);
}

/// The order of byte strings is transitive.
pub proof fn lemma_bytes_before_chain(a: Seq<u8>, b: Seq<u8>, c: Seq<u8>)
    requires
        bytes_before(a, b),
        bytes_before(b, c),
    ensures
        bytes_before(a, c),
{
    reveal(bytes_before);
    let k1 = choose|k: int| parts_at(a, b, k);
    let k2 = choose|k: int| parts_at(b, c, k);
    let k = if k1 <= k2 {
        k1
    } else {
        k2
    };
    assert(parts_at(a, c, k)) by {
        if k1 < k2 {
            assert(b[k1] == c[k1]);
        } else if k2 < k1 {
            assert(a[k2] == b[k2]);
        }
        assert forall|j: int| 0 <= j < k implies a[j] == c[j] by {
            assert(a[j] == b[j]);
            assert(b[j] == c[j]);
        }
    }
}

/// Of two byte strings one comes before the other, unless they are the same.
pub proof fn lemma_bytes_before_total(a: Seq<u8>, b: Seq<u8>)
    ensures
        a == b || bytes_before(a, b) || bytes_before(b, a),
{
    lemma_first_difference(a, b, 0);
}

proof fn lemma_first_difference(a: Seq<u8>, b: Seq<u8>, k: int)
    requires
        0 <= k <= a.len(),
        k <= b.len(),
        forall|j: int| 0 <= j < k ==> a[j] == b[j],
    ensures
        a == b || bytes_before(a, b) || bytes_before(b, a),
    decreases a.len() - k,
{
    reveal(bytes_before);
    if k == a.len() && k == b.len() {
        assert(a =~= b);
    } else if k == a.len() {
        assert(parts_at(a, b, k));
    } else if k == b.len() {
        assert(parts_at(b, a, k));
    } else if a[k] < b[k] {
        assert(parts_at(a, b, k));
    } else if b[k] < a[k] {
        assert(parts_at(b, a, k));
    } else {
        lemma_first_difference(a, b, k + 1);
    }
}

/// Of two snapshots one is later than the other, unless they have the same
/// date and fingerprint.
pub proof fn lemma_later_total(a: RecordView, b: RecordView)
    ensures
        later(a, b) || later(b, a) || same_rank(a, b),
{
    lemma_bytes_before_total(a.hash, b.hash);
}

/// There is one latest snapshot, and [`latest_record`] names it.
pub proof fn lemma_latest_unique(records: Seq<RecordView>, i: int)
    requires
        latest_at(records, i),
    ensures
        latest_record(records) == Some(records[i]),
{
    let j = choose|j: int| latest_at(records, j);
    assert(latest_at(records, j));
    lemma_later_total(records[i], records[j]);
    if i < j {
        assert(!same_rank(records[i], records[j]));
    }
    if j < i {
        assert(!same_rank(records[j], records[i]));
    }
}

/// Once following some directories has failed, following more of them
/// fails in the same way.
proof fn lemma_below_fail(repo: RepositoryView, hashes: Seq<Seq<u8>>, n: nat, m: nat, depth: nat)
    requires
        n <= m <= hashes.len(),
        reachable_below(repo, hashes, n, depth) is Err,
    ensures
        reachable_below(repo, hashes, m, depth) == reachable_below(repo, hashes, n, depth),
    decreases m,
{
    if n < m {
        lemma_below_fail(repo, hashes, n, (m - 1) as nat, depth);
    }
}

} // verus!
