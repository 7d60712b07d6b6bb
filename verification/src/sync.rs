//! What both sides of a synchronization compute: which objects one side
//! lacks, how a list of them is marked as wanted or offered, and how the
//! marks are read back.

use vstd::prelude::*;
use crate::lookup::has_key;
use crate::model::{
    Blob, BlobView, ObjectId, Record, RecordView, StoredBlob, TempFile, TempFileView, Tree, TreeView,
};

verus! {

/// The mark of an object that the initiator wants.
pub const STATE_WANTED: i32 = 1;

/// The mark of an object that the initiator will give.
pub const STATE_WILL_GIVE: i32 = 2;

/// A snapshot with its mark: 1 for wanted, 2 for offered.
#[derive(Debug)]
pub struct RecordWithState {
    pub record: Record,
    pub state: i32,
}

/// A directory with its mark: 1 for wanted, 2 for offered.
#[derive(Debug)]
pub struct TreeWithState {
    pub tree: Tree,
    pub state: i32,
}

/// A file entry with its mark: 1 for wanted, 2 for offered.
#[derive(Debug)]
pub struct BlobWithState {
    pub blob: Blob,
    pub state: i32,
}

/// The fingerprints that some file entries name, in order.
pub open spec fn entry_keys(blobs: Seq<BlobView>) -> Seq<Seq<u8>> {
    Seq::new(blobs.len(), |i: int| blobs[i].hash)
}

/// The fingerprints of a list, as byte strings.
pub open spec fn id_views(ids: Seq<ObjectId>) -> Seq<Seq<u8>> {
    Seq::new(ids.len(), |i: int| ids[i]@)
}

/// Whether `key` is among `have`.
pub fn contains_id(have: &Vec<ObjectId>, key: &ObjectId) -> (found: bool)
    ensures
        found == has_key(id_views(have@), key@),
{
    let mut i: usize = 0;
    while i < have.len()
        invariant
            i <= have@.len(),
            forall|j: int| 0 <= j < i ==> id_views(have@)[j] != key@,
        decreases have@.len() - i,
    {
        if have[i] == *key {
            assert(id_views(have@)[i as int] == key@);
            return true;
        }
        i += 1;
    }
    false
}

/// What a [`RecordWithState`] holds.
pub struct RecordWithStateView {
    pub record: RecordView,
    pub state: int,
}

impl DeepView for RecordWithState {
    type V = RecordWithStateView;

    open spec fn deep_view(&self) -> RecordWithStateView {
        RecordWithStateView { record: self.record@, state: self.state as int }
    }
}

impl View for RecordWithState {
    type V = RecordWithStateView;

    open spec fn view(&self) -> RecordWithStateView {
        self.deep_view()
    }
}

/// Those of `items` whose fingerprint is not among `have`, in order.
pub open spec fn records_lacking(items: Seq<RecordView>, have: Seq<Seq<u8>>) -> Seq<RecordView>
    decreases items.len(),
{
    if items.len() == 0 {
        Seq::empty()
    } else if has_key(have, items.last().hash) {
        records_lacking(items.drop_last(), have)
    } else {
        records_lacking(items.drop_last(), have).push(items.last())
    }
}

/// `items`, each with the mark `state`.
pub open spec fn records_tagged(items: Seq<RecordView>, state: int) -> Seq<RecordWithStateView> {
    Seq::new(items.len(), |i: int| RecordWithStateView { record: items[i], state })
}

/// Those of `marked` that carry the mark `state`, in order.
pub open spec fn records_in_state(marked: Seq<RecordWithStateView>, state: int) -> Seq<RecordView>
    decreases marked.len(),
{
    if marked.len() == 0 {
        Seq::empty()
    } else if marked.last().state == state {
        records_in_state(marked.drop_last(), state).push(marked.last().record)
    } else {
        records_in_state(marked.drop_last(), state)
    }
}

/// The fingerprints of `items`, in order.
pub fn record_ids(items: &Vec<Record>) -> (ids: Vec<ObjectId>)
    ensures
        id_views(ids@) == crate::fs::store::record_keys(items.deep_view()),
{
    let mut ids: Vec<ObjectId> = Vec::new();
    let mut i: usize = 0;
    while i < items.len()
        invariant
            i <= items@.len(),
            ids@.len() == i,
            forall|k: int| 0 <= k < i ==> ids@[k]@ == items@[k]@.hash,
        decreases items@.len() - i,
    {
        ids.push(items[i].hash);
        i += 1;
    }
    assert(id_views(ids@) =~= crate::fs::store::record_keys(items.deep_view()));
    ids
}

/// Copies of those of `items` whose fingerprint is not among `have`.
pub fn records_lacking_in(items: &Vec<Record>, have: &Vec<ObjectId>) -> (out: Vec<Record>)
    ensures
        out.deep_view() == records_lacking(items.deep_view(), id_views(have@)),
{
    let ghost all = items.deep_view();
    let mut out: Vec<Record> = Vec::new();
    let mut i: usize = 0;
    assert(all.take(0) =~= Seq::empty());
    assert(out.deep_view() =~= Seq::empty());
    while i < items.len()
        invariant
            i <= items@.len(),
            all == items.deep_view(),
            out.deep_view() == records_lacking(all.take(i as int), id_views(have@)),
        decreases items@.len() - i,
    {
        let ghost before = out.deep_view();
        assert(all.take(i + 1).drop_last() =~= all.take(i as int));
        assert(all.take(i + 1).last() == items@[i as int]@);
        if !contains_id(have, &items[i].hash) {
            out.push(items[i].clone());
            assert(out.deep_view() =~= before.push(items@[i as int]@));
        }
        i += 1;
    }
    assert(all.take(i as int) =~= all);
    out
}

/// The answer of a round: the wanted objects with mark 1, then the offered
/// ones with mark 2.
pub fn tag_records(wanted: &Vec<Record>, will_give: &Vec<Record>) -> (out: Vec<RecordWithState>)
    ensures
        out.deep_view() == records_tagged(wanted.deep_view(), 1) + records_tagged(
            will_give.deep_view(),
            2,
        ),
{
    let mut out: Vec<RecordWithState> = Vec::new();
    let mut i: usize = 0;
    while i < wanted.len()
        invariant
            i <= wanted@.len(),
            out@.len() == i,
            forall|k: int| 0 <= k < i ==> out@[k]@ == records_tagged(wanted.deep_view(), 1)[k],
        decreases wanted@.len() - i,
    {
        out.push(RecordWithState { record: wanted[i].clone(), state: STATE_WANTED });
        i += 1;
    }
    let mut j: usize = 0;
    while j < will_give.len()
        invariant
            j <= will_give@.len(),
            out@.len() == wanted@.len() + j,
            forall|k: int|
                0 <= k < wanted@.len() ==> out@[k]@ == records_tagged(wanted.deep_view(), 1)[k],
            forall|k: int|
                0 <= k < j ==> out@[wanted@.len() + k]@ == records_tagged(will_give.deep_view(), 2)[k],
        decreases will_give@.len() - j,
    {
        out.push(RecordWithState { record: will_give[j].clone(), state: STATE_WILL_GIVE });
        j += 1;
    }
    assert(out.deep_view() =~= records_tagged(wanted.deep_view(), 1) + records_tagged(
        will_give.deep_view(),
        2,
    )) by {
        let joined = records_tagged(wanted.deep_view(), 1) + records_tagged(will_give.deep_view(), 2);
        assert forall|k: int| 0 <= k < out@.len() implies out.deep_view()[k] == joined[k] by {
            if k >= wanted@.len() {
                assert(out@[wanted@.len() + (k - wanted@.len())]@ == records_tagged(
                    will_give.deep_view(),
                    2,
                )[k - wanted@.len()]);
            }
        }
    }
    out
}

/// Copies of those of `marked` that carry the mark `state`.
pub fn records_marked(marked: &Vec<RecordWithState>, state: i32) -> (out: Vec<Record>)
    ensures
        out.deep_view() == records_in_state(marked.deep_view(), state as int),
{
    let ghost all = marked.deep_view();
    let mut out: Vec<Record> = Vec::new();
    let mut i: usize = 0;
    assert(all.take(0) =~= Seq::empty());
    assert(out.deep_view() =~= Seq::empty());
    while i < marked.len()
        invariant
            i <= marked@.len(),
            all == marked.deep_view(),
            out.deep_view() == records_in_state(all.take(i as int), state as int),
        decreases marked@.len() - i,
    {
        let ghost before = out.deep_view();
        assert(all.take(i + 1).drop_last() =~= all.take(i as int));
        assert(all.take(i + 1).last() == marked@[i as int]@);
        if marked[i].state == state {
            out.push(marked[i].record.clone());
            assert(out.deep_view() =~= before.push(marked@[i as int]@.record));
        }
        i += 1;
    }
    assert(all.take(i as int) =~= all);
    out
}

/// Reading the marks of a round's answer gives back the two lists that it
/// was made of: what is marked as wanted is what was wanted, and what is
/// marked as offered is what was offered.
pub proof fn lemma_records_marks(wanted: Seq<RecordView>, will_give: Seq<RecordView>)
    ensures
        records_in_state(records_tagged(wanted, 1) + records_tagged(will_give, 2), 1) == wanted,
        records_in_state(records_tagged(wanted, 1) + records_tagged(will_give, 2), 2) == will_give,
    decreases will_give.len(), wanted.len(),
{
    let all = records_tagged(wanted, 1) + records_tagged(will_give, 2);
    if will_give.len() > 0 {
        lemma_records_marks(wanted, will_give.drop_last());
        assert(all.drop_last() =~= records_tagged(wanted, 1) + records_tagged(will_give.drop_last(), 2));
        assert(all.last() == RecordWithStateView { record: will_give.last(), state: 2 });
        assert(will_give.drop_last().push(will_give.last()) =~= will_give);
    } else if wanted.len() > 0 {
        lemma_records_marks(wanted.drop_last(), will_give);
        assert(all.drop_last() =~= records_tagged(wanted.drop_last(), 1) + records_tagged(will_give, 2));
        assert(all.last() == RecordWithStateView { record: wanted.last(), state: 1 });
        assert(wanted.drop_last().push(wanted.last()) =~= wanted);
    } else {
        assert(all =~= Seq::empty());
        assert(wanted =~= Seq::empty());
        assert(will_give =~= Seq::empty());
    }
}

/// What a [`TreeWithState`] holds.
pub struct TreeWithStateView {
    pub tree: TreeView,
    pub state: int,
}

impl DeepView for TreeWithState {
    type V = TreeWithStateView;

    open spec fn deep_view(&self) -> TreeWithStateView {
        TreeWithStateView { tree: self.tree@, state: self.state as int }
    }
}

impl View for TreeWithState {
    type V = TreeWithStateView;

    open spec fn view(&self) -> TreeWithStateView {
        self.deep_view()
    }
}

/// Those of `items` whose fingerprint is not among `have`, in order.
pub open spec fn trees_lacking(items: Seq<TreeView>, have: Seq<Seq<u8>>) -> Seq<TreeView>
    decreases items.len(),
{
    if items.len() == 0 {
        Seq::empty()
    } else if has_key(have, items.last().hash) {
        trees_lacking(items.drop_last(), have)
    } else {
        trees_lacking(items.drop_last(), have).push(items.last())
    }
}

/// `items`, each with the mark `state`.
pub open spec fn trees_tagged(items: Seq<TreeView>, state: int) -> Seq<TreeWithStateView> {
    Seq::new(items.len(), |i: int| TreeWithStateView { tree: items[i], state })
}

/// Those of `marked` that carry the mark `state`, in order.
pub open spec fn trees_in_state(marked: Seq<TreeWithStateView>, state: int) -> Seq<TreeView>
    decreases marked.len(),
{
    if marked.len() == 0 {
        Seq::empty()
    } else if marked.last().state == state {
        trees_in_state(marked.drop_last(), state).push(marked.last().tree)
    } else {
        trees_in_state(marked.drop_last(), state)
    }
}

/// The fingerprints of `items`, in order.
pub fn tree_ids(items: &Vec<Tree>) -> (ids: Vec<ObjectId>)
    ensures
        id_views(ids@) == crate::fs::store::tree_keys(items.deep_view()),
{
    let mut ids: Vec<ObjectId> = Vec::new();
    let mut i: usize = 0;
    while i < items.len()
        invariant
            i <= items@.len(),
            ids@.len() == i,
            forall|k: int| 0 <= k < i ==> ids@[k]@ == items@[k]@.hash,
        decreases items@.len() - i,
    {
        ids.push(items[i].hash);
        i += 1;
    }
    assert(id_views(ids@) =~= crate::fs::store::tree_keys(items.deep_view()));
    ids
}

/// Copies of those of `items` whose fingerprint is not among `have`.
pub fn trees_lacking_in(items: &Vec<Tree>, have: &Vec<ObjectId>) -> (out: Vec<Tree>)
    ensures
        out.deep_view() == trees_lacking(items.deep_view(), id_views(have@)),
{
    let ghost all = items.deep_view();
    let mut out: Vec<Tree> = Vec::new();
    let mut i: usize = 0;
    assert(all.take(0) =~= Seq::empty());
    assert(out.deep_view() =~= Seq::empty());
    while i < items.len()
        invariant
            i <= items@.len(),
            all == items.deep_view(),
            out.deep_view() == trees_lacking(all.take(i as int), id_views(have@)),
        decreases items@.len() - i,
    {
        let ghost before = out.deep_view();
        assert(all.take(i + 1).drop_last() =~= all.take(i as int));
        assert(all.take(i + 1).last() == items@[i as int]@);
        if !contains_id(have, &items[i].hash) {
            out.push(items[i].clone());
            assert(out.deep_view() =~= before.push(items@[i as int]@));
        }
        i += 1;
    }
    assert(all.take(i as int) =~= all);
    out
}

/// The answer of a round: the wanted objects with mark 1, then the offered
/// ones with mark 2.
pub fn tag_trees(wanted: &Vec<Tree>, will_give: &Vec<Tree>) -> (out: Vec<TreeWithState>)
    ensures
        out.deep_view() == trees_tagged(wanted.deep_view(), 1) + trees_tagged(
            will_give.deep_view(),
            2,
        ),
{
    let mut out: Vec<TreeWithState> = Vec::new();
    let mut i: usize = 0;
    while i < wanted.len()
        invariant
            i <= wanted@.len(),
            out@.len() == i,
            forall|k: int| 0 <= k < i ==> out@[k]@ == trees_tagged(wanted.deep_view(), 1)[k],
        decreases wanted@.len() - i,
    {
        out.push(TreeWithState { tree: wanted[i].clone(), state: STATE_WANTED });
        i += 1;
    }
    let mut j: usize = 0;
    while j < will_give.len()
        invariant
            j <= will_give@.len(),
            out@.len() == wanted@.len() + j,
            forall|k: int|
                0 <= k < wanted@.len() ==> out@[k]@ == trees_tagged(wanted.deep_view(), 1)[k],
            forall|k: int|
                0 <= k < j ==> out@[wanted@.len() + k]@ == trees_tagged(will_give.deep_view(), 2)[k],
        decreases will_give@.len() - j,
    {
        out.push(TreeWithState { tree: will_give[j].clone(), state: STATE_WILL_GIVE });
        j += 1;
    }
    assert(out.deep_view() =~= trees_tagged(wanted.deep_view(), 1) + trees_tagged(
        will_give.deep_view(),
        2,
    )) by {
        let joined = trees_tagged(wanted.deep_view(), 1) + trees_tagged(will_give.deep_view(), 2);
        assert forall|k: int| 0 <= k < out@.len() implies out.deep_view()[k] == joined[k] by {
            if k >= wanted@.len() {
                assert(out@[wanted@.len() + (k - wanted@.len())]@ == trees_tagged(
                    will_give.deep_view(),
                    2,
                )[k - wanted@.len()]);
            }
        }
    }
    out
}

/// Copies of those of `marked` that carry the mark `state`.
pub fn trees_marked(marked: &Vec<TreeWithState>, state: i32) -> (out: Vec<Tree>)
    ensures
        out.deep_view() == trees_in_state(marked.deep_view(), state as int),
{
    let ghost all = marked.deep_view();
    let mut out: Vec<Tree> = Vec::new();
    let mut i: usize = 0;
    assert(all.take(0) =~= Seq::empty());
    assert(out.deep_view() =~= Seq::empty());
    while i < marked.len()
        invariant
            i <= marked@.len(),
            all == marked.deep_view(),
            out.deep_view() == trees_in_state(all.take(i as int), state as int),
        decreases marked@.len() - i,
    {
        let ghost before = out.deep_view();
        assert(all.take(i + 1).drop_last() =~= all.take(i as int));
        assert(all.take(i + 1).last() == marked@[i as int]@);
        if marked[i].state == state {
            out.push(marked[i].tree.clone());
            assert(out.deep_view() =~= before.push(marked@[i as int]@.tree));
        }
        i += 1;
    }
    assert(all.take(i as int) =~= all);
    out
}

/// Reading the marks of a round's answer gives back the two lists that it
/// was made of: what is marked as wanted is what was wanted, and what is
/// marked as offered is what was offered.
pub proof fn lemma_trees_marks(wanted: Seq<TreeView>, will_give: Seq<TreeView>)
    ensures
        trees_in_state(trees_tagged(wanted, 1) + trees_tagged(will_give, 2), 1) == wanted,
        trees_in_state(trees_tagged(wanted, 1) + trees_tagged(will_give, 2), 2) == will_give,
    decreases will_give.len(), wanted.len(),
{
    let all = trees_tagged(wanted, 1) + trees_tagged(will_give, 2);
    if will_give.len() > 0 {
        lemma_trees_marks(wanted, will_give.drop_last());
        assert(all.drop_last() =~= trees_tagged(wanted, 1) + trees_tagged(will_give.drop_last(), 2));
        assert(all.last() == TreeWithStateView { tree: will_give.last(), state: 2 });
        assert(will_give.drop_last().push(will_give.last()) =~= will_give);
    } else if wanted.len() > 0 {
        lemma_trees_marks(wanted.drop_last(), will_give);
        assert(all.drop_last() =~= trees_tagged(wanted.drop_last(), 1) + trees_tagged(will_give, 2));
        assert(all.last() == TreeWithStateView { tree: wanted.last(), state: 1 });
        assert(wanted.drop_last().push(wanted.last()) =~= wanted);
    } else {
        assert(all =~= Seq::empty());
        assert(wanted =~= Seq::empty());
        assert(will_give =~= Seq::empty());
    }
}

/// What a [`BlobWithState`] holds.
pub struct BlobWithStateView {
    pub blob: BlobView,
    pub state: int,
}

impl DeepView for BlobWithState {
    type V = BlobWithStateView;

    open spec fn deep_view(&self) -> BlobWithStateView {
        BlobWithStateView { blob: self.blob@, state: self.state as int }
    }
}

impl View for BlobWithState {
    type V = BlobWithStateView;

    open spec fn view(&self) -> BlobWithStateView {
        self.deep_view()
    }
}

/// `items`, each with the mark `state`.
pub open spec fn blobs_tagged(items: Seq<BlobView>, state: int) -> Seq<BlobWithStateView> {
    Seq::new(items.len(), |i: int| BlobWithStateView { blob: items[i], state })
}

/// Those of `marked` that carry the mark `state`, in order.
pub open spec fn blobs_in_state(marked: Seq<BlobWithStateView>, state: int) -> Seq<BlobView>
    decreases marked.len(),
{
    if marked.len() == 0 {
        Seq::empty()
    } else if marked.last().state == state {
        blobs_in_state(marked.drop_last(), state).push(marked.last().blob)
    } else {
        blobs_in_state(marked.drop_last(), state)
    }
}

/// The answer of a round: the wanted objects with mark 1, then the offered
/// ones with mark 2.
pub fn tag_blobs(wanted: &Vec<Blob>, will_give: &Vec<Blob>) -> (out: Vec<BlobWithState>)
    ensures
        out.deep_view() == blobs_tagged(wanted.deep_view(), 1) + blobs_tagged(
            will_give.deep_view(),
            2,
        ),
{
    let mut out: Vec<BlobWithState> = Vec::new();
    let mut i: usize = 0;
    while i < wanted.len()
        invariant
            i <= wanted@.len(),
            out@.len() == i,
            forall|k: int| 0 <= k < i ==> out@[k]@ == blobs_tagged(wanted.deep_view(), 1)[k],
        decreases wanted@.len() - i,
    {
        out.push(BlobWithState { blob: wanted[i].clone(), state: STATE_WANTED });
        i += 1;
    }
    let mut j: usize = 0;
    while j < will_give.len()
        invariant
            j <= will_give@.len(),
            out@.len() == wanted@.len() + j,
            forall|k: int|
                0 <= k < wanted@.len() ==> out@[k]@ == blobs_tagged(wanted.deep_view(), 1)[k],
            forall|k: int|
                0 <= k < j ==> out@[wanted@.len() + k]@ == blobs_tagged(will_give.deep_view(), 2)[k],
        decreases will_give@.len() - j,
    {
        out.push(BlobWithState { blob: will_give[j].clone(), state: STATE_WILL_GIVE });
        j += 1;
    }
    assert(out.deep_view() =~= blobs_tagged(wanted.deep_view(), 1) + blobs_tagged(
        will_give.deep_view(),
        2,
    )) by {
        let joined = blobs_tagged(wanted.deep_view(), 1) + blobs_tagged(will_give.deep_view(), 2);
        assert forall|k: int| 0 <= k < out@.len() implies out.deep_view()[k] == joined[k] by {
            if k >= wanted@.len() {
                assert(out@[wanted@.len() + (k - wanted@.len())]@ == blobs_tagged(
                    will_give.deep_view(),
                    2,
                )[k - wanted@.len()]);
            }
        }
    }
    out
}

/// Copies of those of `marked` that carry the mark `state`.
pub fn blobs_marked(marked: &Vec<BlobWithState>, state: i32) -> (out: Vec<Blob>)
    ensures
        out.deep_view() == blobs_in_state(marked.deep_view(), state as int),
{
    let ghost all = marked.deep_view();
    let mut out: Vec<Blob> = Vec::new();
    let mut i: usize = 0;
    assert(all.take(0) =~= Seq::empty());
    assert(out.deep_view() =~= Seq::empty());
    while i < marked.len()
        invariant
            i <= marked@.len(),
            all == marked.deep_view(),
            out.deep_view() == blobs_in_state(all.take(i as int), state as int),
        decreases marked@.len() - i,
    {
        let ghost before = out.deep_view();
        assert(all.take(i + 1).drop_last() =~= all.take(i as int));
        assert(all.take(i + 1).last() == marked@[i as int]@);
        if marked[i].state == state {
            out.push(marked[i].blob.clone());
            assert(out.deep_view() =~= before.push(marked@[i as int]@.blob));
        }
        i += 1;
    }
    assert(all.take(i as int) =~= all);
    out
}

/// Reading the marks of a round's answer gives back the two lists that it
/// was made of: what is marked as wanted is what was wanted, and what is
/// marked as offered is what was offered.
pub proof fn lemma_blobs_marks(wanted: Seq<BlobView>, will_give: Seq<BlobView>)
    ensures
        blobs_in_state(blobs_tagged(wanted, 1) + blobs_tagged(will_give, 2), 1) == wanted,
        blobs_in_state(blobs_tagged(wanted, 1) + blobs_tagged(will_give, 2), 2) == will_give,
    decreases will_give.len(), wanted.len(),
{
    let all = blobs_tagged(wanted, 1) + blobs_tagged(will_give, 2);
    if will_give.len() > 0 {
        lemma_blobs_marks(wanted, will_give.drop_last());
        assert(all.drop_last() =~= blobs_tagged(wanted, 1) + blobs_tagged(will_give.drop_last(), 2));
        assert(all.last() == BlobWithStateView { blob: will_give.last(), state: 2 });
        assert(will_give.drop_last().push(will_give.last()) =~= will_give);
    } else if wanted.len() > 0 {
        lemma_blobs_marks(wanted.drop_last(), will_give);
        assert(all.drop_last() =~= blobs_tagged(wanted.drop_last(), 1) + blobs_tagged(will_give, 2));
        assert(all.last() == BlobWithStateView { blob: wanted.last(), state: 1 });
        assert(wanted.drop_last().push(wanted.last()) =~= wanted);
    } else {
        assert(all =~= Seq::empty());
        assert(wanted =~= Seq::empty());
        assert(will_give =~= Seq::empty());
    }
}

/// The fingerprints under which `objects` are stored, in order.
pub fn stored_ids(objects: &Vec<StoredBlob>) -> (ids: Vec<ObjectId>)
    ensures
        id_views(ids@) == crate::fs::store::blob_keys(objects.deep_view()),
{
    let mut ids: Vec<ObjectId> = Vec::new();
    let mut i: usize = 0;
    while i < objects.len()
        invariant
            i <= objects@.len(),
            ids@.len() == i,
            forall|k: int| 0 <= k < i ==> ids@[k]@ == objects@[k]@.hash,
        decreases objects@.len() - i,
    {
        ids.push(objects[i].hash);
        i += 1;
    }
    assert(id_views(ids@) =~= crate::fs::store::blob_keys(objects.deep_view()));
    ids
}

/// Which round of a synchronization comes next.
#[derive(Clone, Copy, Debug, PartialEq, Eq, Structural)]
pub enum Phase {
    /// The snapshots are to be compared.
    Records,
    /// The directories are to be compared.
    Trees,
    /// The file entries are to be compared.
    Blobs,
    /// File contents are on their way to this side.
    Files,
    /// The synchronization has ended.
    Done,
}

/// What is exchanged in a synchronization, apart from its framing.
#[derive(Debug)]
pub enum SyncMessage {
    /// The responder's snapshots.
    Records(Vec<Record>),
    /// The initiator's answer: the snapshots it wants and those it offers.
    RecordDiff(Vec<RecordWithState>),
    /// The directories that the wanted snapshots reach.
    Trees(Vec<Tree>),
    /// The initiator's answer: the directories it wants and those it offers.
    TreeDiff(Vec<TreeWithState>),
    /// The file entries of the wanted directories.
    Blobs(Vec<Blob>),
    /// The initiator's answer: the file contents it wants and those it offers.
    BlobDiff(Vec<BlobWithState>),
    /// One file content, in its stored form, under its name.
    File(TempFile),
}

/// What a [`SyncMessage`] holds.
pub enum SyncMessageView {
    Records(Seq<RecordView>),
    RecordDiff(Seq<RecordWithStateView>),
    Trees(Seq<TreeView>),
    TreeDiff(Seq<TreeWithStateView>),
    Blobs(Seq<BlobView>),
    BlobDiff(Seq<BlobWithStateView>),
    File(TempFileView),
}

impl DeepView for SyncMessage {
    type V = SyncMessageView;

    open spec fn deep_view(&self) -> SyncMessageView {
        match self {
            SyncMessage::Records(list) => SyncMessageView::Records(list.deep_view()),
            SyncMessage::RecordDiff(list) => SyncMessageView::RecordDiff(list.deep_view()),
            SyncMessage::Trees(list) => SyncMessageView::Trees(list.deep_view()),
            SyncMessage::TreeDiff(list) => SyncMessageView::TreeDiff(list.deep_view()),
            SyncMessage::Blobs(list) => SyncMessageView::Blobs(list.deep_view()),
            SyncMessage::BlobDiff(list) => SyncMessageView::BlobDiff(list.deep_view()),
            SyncMessage::File(file) => SyncMessageView::File(file@),
        }
    }
}

impl View for SyncMessage {
    type V = SyncMessageView;

    open spec fn view(&self) -> SyncMessageView {
        self.deep_view()
    }
}

/// The files of `files`, each as a message.
pub open spec fn file_messages_of(files: Seq<TempFileView>) -> Seq<SyncMessageView> {
    Seq::new(files.len(), |i: int| SyncMessageView::File(files[i]))
}

/// One side of a synchronization under way: the round that comes next and
/// what the rounds so far have settled. "Wanted" and "given" are meant as the
/// initiator means them, on either side.
#[derive(Debug)]
pub struct SyncSession {
    pub phase: Phase,
    pub wanted_records: Vec<Record>,
    pub given_records: Vec<Record>,
    /// The directories that the responder has listed.
    pub listed_trees: Vec<Tree>,
    pub wanted_trees: Vec<Tree>,
    pub given_trees: Vec<Tree>,
    pub wanted_blobs: Vec<Blob>,
    pub given_blobs: Vec<Blob>,
    /// Number of files still to come to this side.
    pub files_left: usize,
}

/// What a [`SyncSession`] holds.
pub struct SyncSessionView {
    pub phase: Phase,
    pub wanted_records: Seq<RecordView>,
    pub given_records: Seq<RecordView>,
    pub listed_trees: Seq<TreeView>,
    pub wanted_trees: Seq<TreeView>,
    pub given_trees: Seq<TreeView>,
    pub wanted_blobs: Seq<BlobView>,
    pub given_blobs: Seq<BlobView>,
    pub files_left: usize,
}

impl View for SyncSession {
    type V = SyncSessionView;

    open spec fn view(&self) -> SyncSessionView {
        SyncSessionView {
            phase: self.phase,
            wanted_records: self.wanted_records.deep_view(),
            given_records: self.given_records.deep_view(),
            listed_trees: self.listed_trees.deep_view(),
            wanted_trees: self.wanted_trees.deep_view(),
            given_trees: self.given_trees.deep_view(),
            wanted_blobs: self.wanted_blobs.deep_view(),
            given_blobs: self.given_blobs.deep_view(),
            files_left: self.files_left,
        }
    }
}

/// A session before its first round.
pub open spec fn fresh_session() -> SyncSessionView {
    SyncSessionView {
        phase: Phase::Records,
        wanted_records: Seq::empty(),
        given_records: Seq::empty(),
        listed_trees: Seq::empty(),
        wanted_trees: Seq::empty(),
        given_trees: Seq::empty(),
        wanted_blobs: Seq::empty(),
        given_blobs: Seq::empty(),
        files_left: 0,
    }
}

impl SyncSession {
    /// A session before its first round.
    pub fn new() -> (session: SyncSession)
        ensures
            session@ == fresh_session(),
    {
        let session = SyncSession {
            phase: Phase::Records,
            wanted_records: Vec::new(),
            given_records: Vec::new(),
            listed_trees: Vec::new(),
            wanted_trees: Vec::new(),
            given_trees: Vec::new(),
            wanted_blobs: Vec::new(),
            given_blobs: Vec::new(),
            files_left: 0,
        };
        assert(session@.wanted_records =~= Seq::empty());
        assert(session@.given_records =~= Seq::empty());
        assert(session@.listed_trees =~= Seq::empty());
        assert(session@.wanted_trees =~= Seq::empty());
        assert(session@.given_trees =~= Seq::empty());
        assert(session@.wanted_blobs =~= Seq::empty());
        assert(session@.given_blobs =~= Seq::empty());
        session
    }
}

/// The files of `files`, each as a message.
pub fn files_as_messages(files: Vec<TempFile>) -> (out: Vec<SyncMessage>)
    ensures
        out.deep_view() == file_messages_of(files.deep_view()),
{
    let ghost all = files.deep_view();
    let mut files = files;
    let mut out: Vec<SyncMessage> = Vec::new();
    let mut rest: Vec<TempFile> = Vec::new();
    // Take the files from the back, then put them in order.
    while files.len() > 0
        invariant
            files@.len() + rest@.len() == all.len(),
            forall|k: int| 0 <= k < files@.len() ==> files@[k]@ == all[k],
            forall|k: int| 0 <= k < rest@.len() ==> rest@[k]@ == all[all.len() - 1 - k],
        decreases files@.len(),
    {
        let file = files.pop().unwrap();
        rest.push(file);
    }
    while rest.len() > 0
        invariant
            out@.len() + rest@.len() == all.len(),
            forall|k: int| 0 <= k < rest@.len() ==> rest@[k]@ == all[all.len() - 1 - k],
            forall|k: int| 0 <= k < out@.len() ==> out@[k]@ == SyncMessageView::File(all[k]),
        decreases rest@.len(),
    {
        let file = rest.pop().unwrap();
        out.push(SyncMessage::File(file));
    }
    assert(out.deep_view() =~= file_messages_of(all));
    out
}

/// Those of `items` whose fingerprint is not among `have`, each fingerprint
/// once: where several entries name one content, the first stands for it.
pub open spec fn blobs_new(items: Seq<BlobView>, have: Seq<Seq<u8>>) -> Seq<BlobView>
    decreases items.len(),
{
    if items.len() == 0 {
        Seq::empty()
    } else {
        let before = blobs_new(items.drop_last(), have);
        if has_key(have, items.last().hash) || has_key(entry_keys(before), items.last().hash) {
            before
        } else {
            before.push(items.last())
        }
    }
}

/// The file entries that the given directories name, directory by directory.
pub open spec fn named_blobs(trees: Seq<TreeView>) -> Seq<BlobView>
    decreases trees.len(),
{
    if trees.len() == 0 {
        Seq::empty()
    } else {
        named_blobs(trees.drop_last()) + trees.last().blobs
    }
}

/// Copies of those of `items` whose fingerprint is not among `have`, each
/// fingerprint once.
pub fn blobs_new_in(items: &Vec<Blob>, have: &Vec<ObjectId>) -> (out: Vec<Blob>)
    ensures
        out.deep_view() == blobs_new(items.deep_view(), id_views(have@)),
{
    let ghost all = items.deep_view();
    let mut out: Vec<Blob> = Vec::new();
    let mut seen: Vec<ObjectId> = Vec::new();
    let mut i: usize = 0;
    assert(all.take(0) =~= Seq::empty());
    assert(out.deep_view() =~= Seq::empty());
    assert(id_views(seen@) =~= entry_keys(out.deep_view()));
    while i < items.len()
        invariant
            i <= items@.len(),
            all == items.deep_view(),
            out.deep_view() == blobs_new(all.take(i as int), id_views(have@)),
            id_views(seen@) == entry_keys(out.deep_view()),
        decreases items@.len() - i,
    {
        let ghost before = out.deep_view();
        assert(all.take(i + 1).drop_last() =~= all.take(i as int));
        assert(all.take(i + 1).last() == items@[i as int]@);
        if !contains_id(have, &items[i].hash) && !contains_id(&seen, &items[i].hash) {
            let ghost ids = id_views(seen@);
            out.push(items[i].clone());
            seen.push(items[i].hash);
            assert(out.deep_view() =~= before.push(items@[i as int]@));
            assert(id_views(seen@) =~= ids.push(items@[i as int]@.hash));
            assert(entry_keys(out.deep_view()) =~= entry_keys(before).push(items@[i as int]@.hash));
        }
        i += 1;
    }
    assert(all.take(i as int) =~= all);
    out
}

/// The fingerprints of the file entries that the given directories name.
pub fn named_blob_ids(trees: &Vec<Tree>) -> (ids: Vec<ObjectId>)
    ensures
        id_views(ids@) == entry_keys(named_blobs(trees.deep_view())),
{
    let ghost all = trees.deep_view();
    let mut ids: Vec<ObjectId> = Vec::new();
    let mut i: usize = 0;
    assert(all.take(0) =~= Seq::empty());
    assert(id_views(ids@) =~= entry_keys(named_blobs(all.take(0))));
    while i < trees.len()
        invariant
            i <= trees@.len(),
            all == trees.deep_view(),
            id_views(ids@) == entry_keys(named_blobs(all.take(i as int))),
        decreases trees@.len() - i,
    {
        assert(all.take(i + 1).drop_last() =~= all.take(i as int));
        assert(all.take(i + 1).last() == trees@[i as int]@);
        let ghost start = id_views(ids@);
        let ghost blobs = trees@[i as int]@.blobs;
        let tree = &trees[i];
        let mut j: usize = 0;
        while j < tree.blobs.len()
            invariant
                j <= tree.blobs@.len(),
                blobs == tree@.blobs,
                blobs.len() == tree.blobs@.len(),
                id_views(ids@) == start + entry_keys(blobs.take(j as int)),
            decreases tree.blobs@.len() - j,
        {
            let ghost so_far = id_views(ids@);
            ids.push(tree.blobs[j].hash);
            assert(id_views(ids@) =~= so_far.push(blobs[j as int].hash));
            assert(entry_keys(blobs.take(j + 1)) =~= entry_keys(blobs.take(j as int)).push(
                blobs[j as int].hash,
            ));
            assert(id_views(ids@) =~= start + entry_keys(blobs.take(j + 1)));
            j += 1;
        }
        assert(blobs.take(j as int) =~= blobs);
        assert(entry_keys(named_blobs(all.take(i as int)) + blobs) =~= entry_keys(
            named_blobs(all.take(i as int)),
        ) + entry_keys(blobs));
        i += 1;
    }
    assert(all.take(i as int) =~= all);
    ids
}

} // verus!
