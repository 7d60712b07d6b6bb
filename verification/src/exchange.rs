//! What a synchronization does to a store: listing what snapshots and
//! directories reach, taking in received files, checking them, and making
//! them part of the store.

use vstd::prelude::*;
use vstd::string::StringSliceAdditionalSpecFns;
use vstd::utf8::encode_utf8;
use crate::bytes::{bytes_eq, copy_range};
use crate::codec::{decoded_blob, decompress_blob};
use crate::digest::{blake3_digest, has_fingerprint};
use crate::fs::commit::{put_blobs, put_trees};
use crate::fs::history::trees_of_record;
use crate::fs::store::{blob_keys, put_record};
use crate::fs::{WsvcFsError, WsvcFsErrorView};
use crate::hex::hex_string;
use crate::lookup::{first_at, has_key, index_of, lemma_first_at};
use crate::packet::is_blob_name;
use crate::model::{
    Blob,
    BlobView,
    Record,
    RecordView,
    Repository,
    RepositoryView,
    StoredBlob,
    StoredBlobView,
    TempFile,
    TempFileView,
    Tree,
    TreeView,
};
use crate::text::join2;
use crate::{WsvcError, WsvcErrorView};

verus! {

/// The directories that the given snapshots reach, snapshot by snapshot.
pub open spec fn trees_of_records(repo: RepositoryView, records: Seq<RecordView>) -> Result<
    Seq<TreeView>,
    WsvcFsErrorView,
>
    decreases records.len(),
{
    if records.len() == 0 {
        Ok(Seq::empty())
    } else {
        match trees_of_records(repo, records.drop_last()) {
            Err(e) => Err(e),
            Ok(before) => match trees_of_record(repo, records.last().hash) {
                Err(e) => Err(e),
                Ok(trees) => Ok(before + trees),
            },
        }
    }
}

/// The directories that the given snapshots reach as far as the store can
/// tell, snapshot by snapshot: a snapshot whose directories cannot all be
/// followed adds none.
pub open spec fn reached_trees(repo: RepositoryView, records: Seq<RecordView>) -> Seq<TreeView>
    decreases records.len(),
{
    if records.len() == 0 {
        Seq::empty()
    } else {
        reached_trees(repo, records.drop_last()) + match trees_of_record(
            repo,
            records.last().hash,
        ) {
            Ok(trees) => trees,
            Err(_) => Seq::empty(),
        }
    }
}

/// The file entries of the given directories as the store has them,
/// directory by directory.
pub open spec fn blobs_of_trees(repo: RepositoryView, trees: Seq<TreeView>) -> Result<
    Seq<BlobView>,
    WsvcFsErrorView,
>
    decreases trees.len(),
{
    if trees.len() == 0 {
        Ok(Seq::empty())
    } else {
        match blobs_of_trees(repo, trees.drop_last()) {
            Err(e) => Err(e),
            Ok(before) => if repo.has_tree(trees.last().hash) {
                Ok(before + repo.tree(trees.last().hash).blobs)
            } else {
                Err(WsvcFsErrorView::NotFound(hex_string(trees.last().hash)))
            },
        }
    }
}

/// The name under which the file content of a fingerprint travels and
/// lies on disk: its hexadecimal form, as bytes.
pub open spec fn blob_file_name(fp: Seq<u8>) -> Seq<u8> {
    encode_utf8(hex_string(fp))
}

/// The name under which the file content of a fingerprint travels is one
/// that a receiver takes.
pub proof fn lemma_blob_file_name(fp: Seq<u8>)
    requires
        fp.len() == 32,
    ensures
        is_blob_name(blob_file_name(fp)),
{
    let chars = hex_string(fp);
    crate::hex::lemma_hex_round_trip(fp);
    vstd::utf8::is_ascii_chars_encode_utf8(chars);
    let text = encode_utf8(chars);
    assert forall|i: int| 0 <= i < text.len() implies (48 <= #[trigger] text[i] <= 57) || (97
        <= text[i] <= 102) by {
        assert(text[i] == chars[i] as u8);
    }
}

/// The names of the files in the working area, in order.
pub open spec fn temp_names(temp: Seq<TempFileView>) -> Seq<Seq<u8>> {
    Seq::new(temp.len(), |i: int| temp[i].name)
}

/// The file of the working area that came for the fingerprint `fp`.
pub open spec fn temp_data(repo: RepositoryView, fp: Seq<u8>) -> Seq<u8> {
    repo.temp[index_of(temp_names(repo.temp), blob_file_name(fp))].data
}

/// The working area with `file` written under its name: over the first
/// file of that name, or at the end where there is none.
pub open spec fn with_temp(temp: Seq<TempFileView>, file: TempFileView) -> Seq<TempFileView> {
    if has_key(temp_names(temp), file.name) {
        temp.update(index_of(temp_names(temp), file.name), file)
    } else {
        temp.push(file)
    }
}

/// Why the file that came for `blob` cannot become part of the store, if
/// it cannot: none came under its name, or what came does not decode to
/// content of its fingerprint.
pub open spec fn received_fault(repo: RepositoryView, blob: BlobView) -> Option<WsvcErrorView> {
    if !has_key(temp_names(repo.temp), blob_file_name(blob.hash)) {
        Some(WsvcErrorView::DataError("blob not synced: "@ + hex_string(blob.hash)))
    } else {
        match decoded_blob(temp_data(repo, blob.hash)) {
            Err(_) => Some(WsvcErrorView::ChecksumMismatch(hex_string(blob.hash))),
            Ok(content) => if blake3_digest(content) == blob.hash {
                None
            } else {
                Some(WsvcErrorView::ChecksumMismatch(hex_string(blob.hash)))
            },
        }
    }
}

/// The first reason why some of `blobs` cannot become part of the store.
pub open spec fn first_fault(repo: RepositoryView, blobs: Seq<BlobView>) -> Option<WsvcErrorView>
    decreases blobs.len(),
{
    if blobs.len() == 0 {
        None
    } else {
        match first_fault(repo, blobs.drop_last()) {
            Some(e) => Some(e),
            None => received_fault(repo, blobs.last()),
        }
    }
}

/// The files of the working area that came for `blobs`, as entries of the store.
pub open spec fn received_entries(repo: RepositoryView, blobs: Seq<BlobView>) -> Seq<
    StoredBlobView,
> {
    Seq::new(
        blobs.len(),
        |i: int| StoredBlobView { hash: blobs[i].hash, data: temp_data(repo, blobs[i].hash) },
    )
}

/// The files that carry the stored content of `blobs` to the peer, or the
/// first of them that the store lacks.
pub open spec fn outgoing(repo: RepositoryView, blobs: Seq<BlobView>) -> Result<
    Seq<TempFileView>,
    WsvcFsErrorView,
>
    decreases blobs.len(),
{
    if blobs.len() == 0 {
        Ok(Seq::empty())
    } else {
        match outgoing(repo, blobs.drop_last()) {
            Err(e) => Err(e),
            Ok(before) => if repo.has_blob(blobs.last().hash) {
                Ok(
                    before.push(
                        TempFileView {
                            name: blob_file_name(blobs.last().hash),
                            data: repo.blob_data(blobs.last().hash),
                        },
                    ),
                )
            } else {
                Err(WsvcFsErrorView::NotFound(hex_string(blobs.last().hash)))
            },
        }
    }
}

/// `records` after each of `entries` was written in turn.
pub open spec fn put_records(records: Seq<RecordView>, entries: Seq<RecordView>) -> Seq<RecordView>
    decreases entries.len(),
{
    if entries.len() == 0 {
        records
    } else {
        put_record(put_records(records, entries.drop_last()), entries.last())
    }
}

/// The repository after a synchronization has ended well on this side: the
/// received files are stored, then the received directories, then the
/// received snapshots, and the working area is empty.
pub open spec fn with_received(
    repo: RepositoryView,
    blobs: Seq<BlobView>,
    trees: Seq<TreeView>,
    records: Seq<RecordView>,
) -> RepositoryView {
    RepositoryView {
        objects: put_blobs(repo.objects, received_entries(repo, blobs)),
        trees: put_trees(repo.trees, trees),
        records: put_records(repo.records, records),
        temp: Seq::empty(),
        ..repo
    }
}

fn find_temp(temp: &Vec<TempFile>, name: &[u8]) -> (r: Option<usize>)
    ensures
        match r {
            Some(i) => first_at(temp_names(temp.deep_view()), name@, i as int),
            None => !has_key(temp_names(temp.deep_view()), name@),
        },
{
    let mut i: usize = 0;
    while i < temp.len()
        invariant
            i <= temp@.len(),
            forall|j: int| 0 <= j < i ==> temp_names(temp.deep_view())[j] != name@,
        decreases temp@.len() - i,
    {
        if bytes_eq(temp[i].name.as_slice(), name) {
            return Some(i);
        }
        i += 1;
    }
    None
}

impl Repository {
    /// The directories that the given snapshots reach, snapshot by snapshot.
    pub fn trees_of_records(&self, records: &Vec<Record>) -> (r: Result<Vec<Tree>, WsvcFsError>)
        ensures
            match r {
                Ok(trees) => trees_of_records(self@, records.deep_view()) == Ok::<
                    Seq<TreeView>,
                    WsvcFsErrorView,
                >(trees.deep_view()),
                Err(e) => trees_of_records(self@, records.deep_view()) == Err::<
                    Seq<TreeView>,
                    WsvcFsErrorView,
                >(e@),
            },
    {
        let ghost all = records.deep_view();
        let mut out: Vec<Tree> = Vec::new();
        let mut i: usize = 0;
        assert(all.take(0) =~= Seq::empty());
        assert(out.deep_view() =~= Seq::empty());
        while i < records.len()
            invariant
                i <= records@.len(),
                all == records.deep_view(),
                trees_of_records(self@, all.take(i as int)) == Ok::<
                    Seq<TreeView>,
                    WsvcFsErrorView,
                >(out.deep_view()),
            decreases records@.len() - i,
        {
            assert(all.take(i + 1).drop_last() =~= all.take(i as int));
            assert(all.take(i + 1).last() == records@[i as int]@);
            let ghost before = out.deep_view();
            let trees = match self.get_trees_of_record(&records[i].hash) {
                Ok(trees) => trees,
                Err(e) => {
                    proof {
                        lemma_trees_fail(self@, all, i + 1);
                    }
                    return Err(e);
                },
            };
            let mut j: usize = 0;
            while j < trees.len()
                invariant
                    j <= trees@.len(),
                    out.deep_view() == before + trees.deep_view().take(j as int),
                decreases trees@.len() - j,
            {
                let ghost so_far = out.deep_view();
                out.push(trees[j].clone());
                assert(out.deep_view() =~= so_far.push(trees@[j as int]@));
                assert(trees.deep_view().take(j + 1) =~= trees.deep_view().take(j as int).push(
                    trees@[j as int]@,
                ));
                assert(out.deep_view() =~= before + trees.deep_view().take(j + 1));
                j += 1;
            }
            assert(trees.deep_view().take(j as int) =~= trees.deep_view());
            i += 1;
        }
        assert(all.take(i as int) =~= all);
        Ok(out)
    }

    /// The directories that the given snapshots reach as far as the store
    /// can tell: a snapshot whose directories cannot all be followed adds none.
    pub fn reached_trees(&self, records: &Vec<Record>) -> (out: Vec<Tree>)
        ensures
            out.deep_view() == reached_trees(self@, records.deep_view()),
    {
        let ghost all = records.deep_view();
        let mut out: Vec<Tree> = Vec::new();
        let mut i: usize = 0;
        assert(all.take(0) =~= Seq::empty());
        assert(out.deep_view() =~= Seq::empty());
        while i < records.len()
            invariant
                i <= records@.len(),
                all == records.deep_view(),
                out.deep_view() == reached_trees(self@, all.take(i as int)),
            decreases records@.len() - i,
        {
            assert(all.take(i + 1).drop_last() =~= all.take(i as int));
            assert(all.take(i + 1).last() == records@[i as int]@);
            let ghost before = out.deep_view();
            match self.get_trees_of_record(&records[i].hash) {
                Ok(trees) => {
                    let mut j: usize = 0;
                    while j < trees.len()
                        invariant
                            j <= trees@.len(),
                            out.deep_view() == before + trees.deep_view().take(j as int),
                        decreases trees@.len() - j,
                    {
                        let ghost so_far = out.deep_view();
                        out.push(trees[j].clone());
                        assert(out.deep_view() =~= so_far.push(trees@[j as int]@));
                        assert(trees.deep_view().take(j + 1) =~= trees.deep_view().take(
                            j as int,
                        ).push(trees@[j as int]@));
                        assert(out.deep_view() =~= before + trees.deep_view().take(j + 1));
                        j += 1;
                    }
                    assert(trees.deep_view().take(j as int) =~= trees.deep_view());
                },
                Err(_) => {
                    assert(out.deep_view() =~= before + Seq::<TreeView>::empty());
                },
            }
            i += 1;
        }
        assert(all.take(i as int) =~= all);
        out
    }

    /// The file entries of the given directories as the store has them,
    /// directory by directory.
    pub fn blobs_of_trees(&self, trees: &Vec<Tree>) -> (r: Result<Vec<Blob>, WsvcFsError>)
        ensures
            match r {
                Ok(blobs) => blobs_of_trees(self@, trees.deep_view()) == Ok::<
                    Seq<BlobView>,
                    WsvcFsErrorView,
                >(blobs.deep_view()),
                Err(e) => blobs_of_trees(self@, trees.deep_view()) == Err::<
                    Seq<BlobView>,
                    WsvcFsErrorView,
                >(e@),
            },
    {
        let ghost all = trees.deep_view();
        let mut out: Vec<Blob> = Vec::new();
        let mut i: usize = 0;
        assert(all.take(0) =~= Seq::empty());
        assert(out.deep_view() =~= Seq::empty());
        while i < trees.len()
            invariant
                i <= trees@.len(),
                all == trees.deep_view(),
                blobs_of_trees(self@, all.take(i as int)) == Ok::<Seq<BlobView>, WsvcFsErrorView>(
                    out.deep_view(),
                ),
            decreases trees@.len() - i,
        {
            assert(all.take(i + 1).drop_last() =~= all.take(i as int));
            assert(all.take(i + 1).last() == trees@[i as int]@);
            let ghost before = out.deep_view();
            let blobs = match self.get_blobs_of_tree(&trees[i].hash) {
                Ok(blobs) => blobs,
                Err(e) => {
                    proof {
                        lemma_blobs_fail(self@, all, i + 1);
                    }
                    return Err(e);
                },
            };
            let mut j: usize = 0;
            while j < blobs.len()
                invariant
                    j <= blobs@.len(),
                    out.deep_view() == before + blobs.deep_view().take(j as int),
                decreases blobs@.len() - j,
            {
                let ghost so_far = out.deep_view();
                out.push(blobs[j].clone());
                assert(out.deep_view() =~= so_far.push(blobs@[j as int]@));
                assert(blobs.deep_view().take(j + 1) =~= blobs.deep_view().take(j as int).push(
                    blobs@[j as int]@,
                ));
                assert(out.deep_view() =~= before + blobs.deep_view().take(j + 1));
                j += 1;
            }
            assert(blobs.deep_view().take(j as int) =~= blobs.deep_view());
            i += 1;
        }
        assert(all.take(i as int) =~= all);
        Ok(out)
    }

    /// Puts a received file into the working area, over a file of the same name.
    pub fn receive_file(&mut self, file: TempFile)
        ensures
            final(self)@ == (RepositoryView {
                temp: with_temp(old(self)@.temp, file@),
                ..old(self)@
            }),
    {
        let ghost before = self.temp.deep_view();
        let ghost view = file@;
        match find_temp(&self.temp, file.name.as_slice()) {
            Some(i) => {
                proof {
                    lemma_first_at(temp_names(before), view.name, i as int);
                }
                self.temp[i] = file;
                assert(self.temp.deep_view() =~= before.update(i as int, view));
            },
            None => {
                self.temp.push(file);
                assert(self.temp.deep_view() =~= before.push(view));
            },
        }
    }

    fn check_one(&self, blob: &Blob) -> (r: Result<StoredBlob, WsvcError>)
        ensures
            match r {
                Ok(entry) => received_fault(self@, blob@) is None && entry@ == (StoredBlobView {
                    hash: blob@.hash,
                    data: temp_data(self@, blob@.hash),
                }),
                Err(e) => received_fault(self@, blob@) == Some(e@),
            },
    {
        let hex = blob.hash.to_hex();
        let i = match find_temp(&self.temp, hex.as_str().as_bytes()) {
            Some(i) => i,
            None => {
                return Err(WsvcError::DataError(join2("blob not synced: ", hex.as_str())));
            },
        };
        proof {
            lemma_first_at(temp_names(self@.temp), blob_file_name(blob@.hash), i as int);
        }
        let file = &self.temp[i];
        match decompress_blob(file.data.as_slice()) {
            Err(_) => Err(WsvcError::ChecksumMismatch(hex)),
            Ok(content) => {
                if has_fingerprint(content.as_slice(), &blob.hash) {
                    let data = copy_range(file.data.as_slice(), 0, file.data.len());
                    assert(data@ =~= file.data@);
                    Ok(StoredBlob { hash: blob.hash, data })
                } else {
                    Err(WsvcError::ChecksumMismatch(hex))
                }
            },
        }
    }

    /// The files that carry the stored content of `blobs` to the peer.
    pub fn outgoing_files(&self, blobs: &Vec<Blob>) -> (r: Result<Vec<TempFile>, WsvcFsError>)
        ensures
            match r {
                Ok(files) => outgoing(self@, blobs.deep_view()) == Ok::<
                    Seq<TempFileView>,
                    WsvcFsErrorView,
                >(files.deep_view()),
                Err(e) => outgoing(self@, blobs.deep_view()) == Err::<
                    Seq<TempFileView>,
                    WsvcFsErrorView,
                >(e@),
            },
    {
        let ghost all = blobs.deep_view();
        let mut out: Vec<TempFile> = Vec::new();
        let mut i: usize = 0;
        assert(all.take(0) =~= Seq::empty());
        assert(out.deep_view() =~= Seq::empty());
        while i < blobs.len()
            invariant
                i <= blobs@.len(),
                all == blobs.deep_view(),
                outgoing(self@, all.take(i as int)) == Ok::<Seq<TempFileView>, WsvcFsErrorView>(
                    out.deep_view(),
                ),
            decreases blobs@.len() - i,
        {
            assert(all.take(i + 1).drop_last() =~= all.take(i as int));
            assert(all.take(i + 1).last() == blobs@[i as int]@);
            let ghost before = out.deep_view();
            let hash = &blobs[i].hash;
            let mut at: Option<usize> = None;
            let mut k: usize = 0;
            while k < self.objects.len() && at.is_none()
                invariant
                    k <= self.objects@.len(),
                    forall|j: int|
                        0 <= j < k && at is None ==> blob_keys(self@.objects)[j] != hash@,
                    at matches Some(found) ==> first_at(
                        blob_keys(self@.objects),
                        hash@,
                        found as int,
                    ),
                decreases self.objects@.len() - k + if at is None {
                    1nat
                } else {
                    0nat
                },
            {
                if self.objects[k].hash == *hash {
                    at = Some(k);
                } else {
                    k += 1;
                }
            }
            let found = match at {
                Some(found) => found,
                None => {
                    proof {
                        lemma_outgoing_fail(self@, all, i + 1);
                    }
                    return Err(WsvcFsError::NotFound(hash.to_hex()));
                },
            };
            proof {
                lemma_first_at(blob_keys(self@.objects), hash@, found as int);
            }
            let entry = &self.objects[found];
            let name_text = hash.to_hex();
            let name_bytes = name_text.as_str().as_bytes();
            let name = copy_range(name_bytes, 0, name_bytes.len());
            assert(name@ =~= blob_file_name(hash@));
            let data = copy_range(entry.data.as_slice(), 0, entry.data.len());
            assert(data@ =~= entry.data@);
            out.push(TempFile { name, data });
            assert(out.deep_view() =~= before.push(
                TempFileView { name: blob_file_name(hash@), data: self@.blob_data(hash@) },
            ));
            i += 1;
        }
        assert(all.take(i as int) =~= all);
        Ok(out)
    }

    /// Checks the files that came for `blobs`: each must lie in the working
    /// area under its name, with content of its fingerprint. Reports the
    /// first that does not.
    pub fn check_received(&self, blobs: &Vec<Blob>) -> (r: Result<(), WsvcError>)
        ensures
            match r {
                Ok(_) => first_fault(self@, blobs.deep_view()) is None,
                Err(e) => first_fault(self@, blobs.deep_view()) == Some(e@),
            },
    {
        let ghost wanted = blobs.deep_view();
        let mut i: usize = 0;
        assert(wanted.take(0) =~= Seq::empty());
        while i < blobs.len()
            invariant
                i <= blobs@.len(),
                wanted == blobs.deep_view(),
                first_fault(self@, wanted.take(i as int)) is None,
            decreases blobs@.len() - i,
        {
            assert(wanted.take(i + 1).drop_last() =~= wanted.take(i as int));
            assert(wanted.take(i + 1).last() == blobs@[i as int]@);
            match self.check_one(&blobs[i]) {
                Ok(_) => {},
                Err(e) => {
                    proof {
                        lemma_fault_stays(self@, wanted, i + 1);
                    }
                    return Err(e);
                },
            }
            i += 1;
        }
        assert(wanted.take(i as int) =~= wanted);
        Ok(())
    }

    /// Ends a synchronization on this side. Each of `blobs` must have come
    /// into the working area under its name, with content of its
    /// fingerprint. Then the received files become part of the store, after
    /// them the directories `trees`, after those the snapshots `records`,
    /// and the working area is cleared.
    ///
    /// Where a file has not come or is not what its name says, the call
    /// fails and the repository is left as it was: nothing of the session
    /// reaches the store.
    pub fn finish_sync(&mut self, blobs: &Vec<Blob>, trees: &Vec<Tree>, records: &Vec<Record>) -> (r:
        Result<(), WsvcError>)
        ensures
            match r {
                Ok(_) => {
                    &&& first_fault(old(self)@, blobs.deep_view()) is None
                    &&& final(self)@ == with_received(
                        old(self)@,
                        blobs.deep_view(),
                        trees.deep_view(),
                        records.deep_view(),
                    )
                },
                Err(e) => {
                    &&& first_fault(old(self)@, blobs.deep_view()) == Some(e@)
                    &&& final(self)@ == old(self)@
                },
            },
    {
        let ghost start = self@;
        let ghost wanted = blobs.deep_view();
        let ghost entries = received_entries(start, wanted);
        let mut checked: Vec<StoredBlob> = Vec::new();
        let mut i: usize = 0;
        assert(wanted.take(0) =~= Seq::empty());
        while i < blobs.len()
            invariant
                i <= blobs@.len(),
                self@ == start,
                wanted == blobs.deep_view(),
                entries == received_entries(start, wanted),
                first_fault(start, wanted.take(i as int)) is None,
                checked@.len() == i,
                forall|k: int| 0 <= k < i ==> checked@[k]@ == entries[k],
            decreases blobs@.len() - i,
        {
            assert(wanted.take(i + 1).drop_last() =~= wanted.take(i as int));
            assert(wanted.take(i + 1).last() == blobs@[i as int]@);
            match self.check_one(&blobs[i]) {
                Ok(entry) => {
                    checked.push(entry);
                },
                Err(e) => {
                    proof {
                        lemma_fault_stays(start, wanted, i + 1);
                    }
                    return Err(e);
                },
            }
            i += 1;
        }
        assert(wanted.take(i as int) =~= wanted);
        assert(checked.deep_view() =~= entries);
        let mut j: usize = 0;
        assert(entries.take(0) =~= Seq::empty());
        while j < checked.len()
            invariant
                j <= checked@.len(),
                checked.deep_view() == entries,
                self@ == (RepositoryView {
                    objects: put_blobs(start.objects, entries.take(j as int)),
                    ..start
                }),
            decreases checked@.len() - j,
        {
            let entry = StoredBlob {
                hash: checked[j].hash,
                data: copy_range(checked[j].data.as_slice(), 0, checked[j].data.len()),
            };
            assert(entry@.data =~= checked@[j as int]@.data);
            assert(entries.take(j + 1).drop_last() =~= entries.take(j as int));
            self.put_stored_blob(entry);
            j += 1;
        }
        assert(entries.take(j as int) =~= entries);
        let ghost with_blobs = self@;
        let ghost new_trees = trees.deep_view();
        let mut k: usize = 0;
        assert(new_trees.take(0) =~= Seq::empty());
        while k < trees.len()
            invariant
                k <= trees@.len(),
                new_trees == trees.deep_view(),
                self@ == (RepositoryView {
                    trees: put_trees(start.trees, new_trees.take(k as int)),
                    ..with_blobs
                }),
            decreases trees@.len() - k,
        {
            assert(new_trees.take(k + 1).drop_last() =~= new_trees.take(k as int));
            let _ = self.put_sealed_tree(trees[k].clone());
            k += 1;
        }
        assert(new_trees.take(k as int) =~= new_trees);
        let ghost with_trees = self@;
        let ghost new_records = records.deep_view();
        let mut m: usize = 0;
        assert(new_records.take(0) =~= Seq::empty());
        while m < records.len()
            invariant
                m <= records@.len(),
                new_records == records.deep_view(),
                self@ == (RepositoryView {
                    records: put_records(start.records, new_records.take(m as int)),
                    ..with_trees
                }),
            decreases records@.len() - m,
        {
            assert(new_records.take(m + 1).drop_last() =~= new_records.take(m as int));
            self.store_record(&records[m]);
            m += 1;
        }
        assert(new_records.take(m as int) =~= new_records);
        self.temp = Vec::new();
        assert(self.temp.deep_view() =~= Seq::empty());
        Ok(())
    }
}

/// Once listing the directories of some snapshots has failed, listing
/// those of more snapshots fails in the same way.
proof fn lemma_trees_fail(repo: RepositoryView, records: Seq<RecordView>, n: int)
    requires
        0 <= n <= records.len(),
        trees_of_records(repo, records.take(n)) is Err,
    ensures
        trees_of_records(repo, records) == trees_of_records(repo, records.take(n)),
    decreases records.len(),
{
    if n < records.len() {
        assert(records.drop_last().take(n) =~= records.take(n));
        lemma_trees_fail(repo, records.drop_last(), n);
    } else {
        assert(records.take(n) =~= records);
    }
}

/// Once listing the files of some directories has failed, listing those of
/// more directories fails in the same way.
proof fn lemma_blobs_fail(repo: RepositoryView, trees: Seq<TreeView>, n: int)
    requires
        0 <= n <= trees.len(),
        blobs_of_trees(repo, trees.take(n)) is Err,
    ensures
        blobs_of_trees(repo, trees) == blobs_of_trees(repo, trees.take(n)),
    decreases trees.len(),
{
    if n < trees.len() {
        assert(trees.drop_last().take(n) =~= trees.take(n));
        lemma_blobs_fail(repo, trees.drop_last(), n);
    } else {
        assert(trees.take(n) =~= trees);
    }
}

/// Once some file to send is missing, the list cannot be sent.
proof fn lemma_outgoing_fail(repo: RepositoryView, blobs: Seq<BlobView>, n: int)
    requires
        0 <= n <= blobs.len(),
        outgoing(repo, blobs.take(n)) is Err,
    ensures
        outgoing(repo, blobs) == outgoing(repo, blobs.take(n)),
    decreases blobs.len(),
{
    if n < blobs.len() {
        assert(blobs.drop_last().take(n) =~= blobs.take(n));
        lemma_outgoing_fail(repo, blobs.drop_last(), n);
    } else {
        assert(blobs.take(n) =~= blobs);
    }
}

/// The first fault among some received files is the first fault among more
/// of them.
proof fn lemma_fault_stays(repo: RepositoryView, blobs: Seq<BlobView>, n: int)
    requires
        0 <= n <= blobs.len(),
        first_fault(repo, blobs.take(n)) is Some,
    ensures
        first_fault(repo, blobs) == first_fault(repo, blobs.take(n)),
    decreases blobs.len(),
{
    if n < blobs.len() {
        assert(blobs.drop_last().take(n) =~= blobs.take(n));
        lemma_fault_stays(repo, blobs.drop_last(), n);
    } else {
        assert(blobs.take(n) =~= blobs);
    }
}

} // verus!
