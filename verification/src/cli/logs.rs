//! The `logs` command: the stored snapshots, newest first, a page at a time.

use vstd::prelude::*;
use crate::fs::history::{head_record, latest_record};

use crate::model::{Record, RecordView, Repository, RepositoryView};
use crate::{WsvcError, WsvcErrorView};

verus! {

/// Number of snapshots on a page where the user names none.
pub const DEFAULT_LIMIT: usize = 10;

/// One line of the listing: a snapshot, and whether it is the current and
/// the latest one.
#[derive(Debug)]
pub struct LogEntry {
    pub record: Record,
    pub is_head: bool,
    pub is_latest: bool,
}

/// What a [`LogEntry`] holds.
pub struct LogEntryView {
    pub record: RecordView,
    pub is_head: bool,
    pub is_latest: bool,
}

impl DeepView for LogEntry {
    type V = LogEntryView;

    open spec fn deep_view(&self) -> LogEntryView {
        LogEntryView { record: self.record@, is_head: self.is_head, is_latest: self.is_latest }
    }
}

impl View for LogEntry {
    type V = LogEntryView;

    open spec fn view(&self) -> LogEntryView {
        self.deep_view()
    }
}

/// `sorted` with `record` put behind the last snapshot that is not older.
pub open spec fn inserted(sorted: Seq<RecordView>, record: RecordView) -> Seq<RecordView>
    decreases sorted.len(),
{
    if sorted.len() == 0 {
        seq![record]
    } else if sorted.last().date >= record.date {
        sorted.push(record)
    } else {
        inserted(sorted.drop_last(), record).push(sorted.last())
    }
}

/// The snapshots by date, newest first; snapshots of one date keep their order.
pub open spec fn by_date(records: Seq<RecordView>) -> Seq<RecordView>
    decreases records.len(),
{
    if records.len() == 0 {
        Seq::empty()
    } else {
        inserted(by_date(records.drop_last()), records.last())
    }
}

/// Where a page starts and ends in a listing of `len` lines.
pub open spec fn page_bounds(len: int, skip: int, limit: int) -> (int, int) {
    let from = if skip < len {
        skip
    } else {
        len
    };
    let to = if from + limit < len {
        from + limit
    } else {
        len
    };
    (from, to)
}

/// The line for a snapshot.
pub open spec fn entry_for(
    record: RecordView,
    head: Option<RecordView>,
    latest: Option<RecordView>,
) -> LogEntryView {
    LogEntryView {
        record,
        is_head: head matches Some(h) && h.hash == record.hash,
        is_latest: latest matches Some(l) && l.hash == record.hash,
    }
}

/// The page of the listing: the snapshots newest first, `skip` of them
/// passed over, at most `limit` of them shown.
pub open spec fn listing(repo: RepositoryView, head: Option<RecordView>, skip: int, limit: int)
    -> Seq<LogEntryView> {
    let sorted = by_date(repo.records);
    let bounds = page_bounds(sorted.len() as int, skip, limit);
    Seq::new(
        (bounds.1 - bounds.0) as nat,
        |i: int| entry_for(sorted[bounds.0 + i], head, latest_record(repo.records)),
    )
}

/// Inserting keeps the number of snapshots, up by one.
pub proof fn lemma_inserted_len(sorted: Seq<RecordView>, record: RecordView)
    ensures
        inserted(sorted, record).len() == sorted.len() + 1,
    decreases sorted.len(),
{
    if sorted.len() > 0 && sorted.last().date < record.date {
        lemma_inserted_len(sorted.drop_last(), record);
    }
}

/// The listing by date has every snapshot, once.
pub proof fn lemma_by_date_len(records: Seq<RecordView>)
    ensures
        by_date(records).len() == records.len(),
    decreases records.len(),
{
    if records.len() > 0 {
        lemma_by_date_len(records.drop_last());
        lemma_inserted_len(by_date(records.drop_last()), records.last());
    }
}

/// Inserting adds the snapshot, once, and keeps every other as often as it
/// was there.
pub proof fn lemma_inserted_holds(sorted: Seq<RecordView>, record: RecordView)
    ensures
        inserted(sorted, record).to_multiset() == sorted.to_multiset().insert(record),
    decreases sorted.len(),
{
    if sorted.len() == 0 {
        assert(sorted =~= Seq::<RecordView>::empty());
        assert(seq![record] =~= sorted.push(record));
        vstd::seq_lib::to_multiset_build(sorted, record);
    } else if sorted.last().date >= record.date {
        vstd::seq_lib::to_multiset_build(sorted, record);
    } else {
        let front = sorted.drop_last();
        lemma_inserted_holds(front, record);
        vstd::seq_lib::to_multiset_build(inserted(front, record), sorted.last());
        vstd::seq_lib::to_multiset_build(front, sorted.last());
        assert(front.push(sorted.last()) =~= sorted);
        assert(front.to_multiset().insert(record).insert(sorted.last()) =~= front.to_multiset().insert(
            sorted.last(),
        ).insert(record));
    }
}

/// The listing by date holds exactly the given snapshots, each as often as
/// it was given: it is the same snapshots in another order.
pub proof fn lemma_by_date_holds(records: Seq<RecordView>)
    ensures
        by_date(records).to_multiset() == records.to_multiset(),
    decreases records.len(),
{
    if records.len() == 0 {
        assert(records =~= Seq::<RecordView>::empty());
    } else {
        let front = records.drop_last();
        lemma_by_date_holds(front);
        lemma_inserted_holds(by_date(front), records.last());
        vstd::seq_lib::to_multiset_build(front, records.last());
        assert(front.push(records.last()) =~= records);
    }
}

/// No snapshot of the sequence is older than the one behind it.
pub open spec fn newest_first(records: Seq<RecordView>) -> bool {
    forall|i: int, j: int| 0 <= i < j < records.len() ==> records[i].date >= records[j].date
}

/// Inserting into a listing that is newest first gives one that is newest first.
pub proof fn lemma_inserted_order(sorted: Seq<RecordView>, record: RecordView)
    requires
        newest_first(sorted),
    ensures
        newest_first(inserted(sorted, record)),
        forall|k: int|
            0 <= k < inserted(sorted, record).len() ==> inserted(sorted, record)[k] == record
                || exists|m: int| 0 <= m < sorted.len() && sorted[m] == #[trigger] inserted(
                    sorted,
                    record,
                )[k],
    decreases sorted.len(),
{
    let out = inserted(sorted, record);
    if sorted.len() == 0 {
    } else if sorted.last().date >= record.date {
        assert forall|k: int| 0 <= k < out.len() implies out[k] == record || exists|m: int|
            0 <= m < sorted.len() && sorted[m] == #[trigger] out[k] by {
            if k < sorted.len() {
                assert(sorted[k] == out[k]);
            }
        }
    } else {
        let front = sorted.drop_last();
        assert(newest_first(front)) by {
            assert forall|i: int, j: int| 0 <= i < j < front.len() implies front[i].date
                >= front[j].date by {
                assert(front[i] == sorted[i] && front[j] == sorted[j]);
            }
        }
        lemma_inserted_order(front, record);
        lemma_inserted_len(front, record);
        let inner = inserted(front, record);
        assert forall|k: int| 0 <= k < out.len() implies out[k] == record || exists|m: int|
            0 <= m < sorted.len() && sorted[m] == #[trigger] out[k] by {
            if k < inner.len() {
                assert(out[k] == inner[k]);
                if inner[k] != record {
                    let m = choose|m: int| 0 <= m < front.len() && front[m] == inner[k];
                    assert(sorted[m] == out[k]);
                }
            } else {
                assert(sorted[sorted.len() - 1] == out[k]);
            }
        }
        assert forall|i: int, j: int| 0 <= i < j < out.len() implies out[i].date
            >= out[j].date by {
            if j < inner.len() {
                assert(out[i] == inner[i] && out[j] == inner[j]);
            } else {
                assert(out[i] == inner[i]);
                if inner[i] != record {
                    let m = choose|m: int| 0 <= m < front.len() && front[m] == inner[i];
                    assert(sorted[m].date >= sorted[sorted.len() - 1].date);
                }
            }
        }
    }
}

/// The listing by date is newest first.
pub proof fn lemma_by_date_order(records: Seq<RecordView>)
    ensures
        newest_first(by_date(records)),
    decreases records.len(),
{
    if records.len() > 0 {
        lemma_by_date_order(records.drop_last());
        lemma_inserted_order(by_date(records.drop_last()), records.last());
    }
}

fn insert_by_date(sorted: &mut Vec<Record>, record: Record)
    ensures
        final(sorted).deep_view() == inserted(old(sorted).deep_view(), record@),
{
    let ghost start = sorted.deep_view();
    let ghost view = record@;
    let mut at: usize = sorted.len();
    assert(start.take(at as int) =~= start);
    while at > 0 && sorted[at - 1].date < record.date
        invariant
            at <= sorted@.len(),
            sorted.deep_view() == start,
            view == record@,
            inserted(start, view) == inserted(start.take(at as int), view) + start.skip(at as int),
        decreases at,
    {
        let ghost front = start.take(at as int);
        assert(front.len() == at);
        assert(front.last() == sorted@[at - 1]@);
        assert(front.last().date < view.date);
        assert(front.drop_last() =~= start.take(at - 1));
        assert(inserted(front, view) == inserted(front.drop_last(), view).push(front.last()));
        assert(inserted(front, view) == inserted(start.take(at - 1), view).push(front.last()));
        assert(inserted(start.take(at - 1), view).push(front.last()) + start.skip(at as int)
            =~= inserted(start.take(at - 1), view) + start.skip(at - 1));
        at -= 1;
    }
    proof {
        let front = start.take(at as int);
        if at > 0 {
            assert(front.last() == sorted@[at - 1]@);
        }
        assert(inserted(front, view) =~= front.push(view));
        assert(front.push(view) + start.skip(at as int) =~= start.insert(at as int, view));
    }
    sorted.insert(at, record);
    assert(sorted.deep_view() =~= start.insert(at as int, view));
}

/// The stored snapshots by date, newest first.
pub fn sorted_records(repo: &Repository) -> (sorted: Vec<Record>)
    ensures
        sorted.deep_view() == by_date(repo@.records),
{
    let ghost all = repo@.records;
    let mut sorted: Vec<Record> = Vec::new();
    let mut i: usize = 0;
    assert(all.take(0) =~= Seq::empty());
    assert(sorted.deep_view() =~= Seq::empty());
    while i < repo.records.len()
        invariant
            i <= repo.records@.len(),
            all == repo.records.deep_view(),
            sorted.deep_view() == by_date(all.take(i as int)),
        decreases repo.records@.len() - i,
    {
        assert(all.take(i + 1).drop_last() =~= all.take(i as int));
        assert(all.take(i + 1).last() == repo.records@[i as int]@);
        insert_by_date(&mut sorted, repo.records[i].clone());
        i += 1;
    }
    assert(all.take(i as int) =~= all);
    sorted
}

/// The page of the listing that the command shows: the snapshots newest
/// first, the first `skip` passed over (none where it is not given), at most
/// `limit` shown (ten where it is not given), each marked where it is the
/// current or the latest snapshot.
///
/// Fails where `HEAD` does not name a stored snapshot.
pub fn logs(repo: &Repository, skip: Option<usize>, limit: Option<usize>) -> (r: Result<
    Vec<LogEntry>,
    WsvcError,
>)
    ensures
        match r {
            Ok(entries) => head_record(repo@) matches Ok(head) && entries.deep_view() == listing(
                repo@,
                head,
                match skip {
                    Some(n) => n as int,
                    None => 0,
                },
                match limit {
                    Some(n) => n as int,
                    None => DEFAULT_LIMIT as int,
                },
            ),
            Err(e) => head_record(repo@) matches Err(fault) && e@ == WsvcErrorView::FsError(fault),
        },
{
    let skip = match skip {
        Some(n) => n,
        None => 0,
    };
    let limit = match limit {
        Some(n) => n,
        None => DEFAULT_LIMIT,
    };
    let head = match repo.get_head_record() {
        Ok(head) => head,
        Err(e) => {
            return Err(WsvcError::FsError(e));
        },
    };
    let latest = repo.get_latest_record();
    let sorted = sorted_records(repo);
    let len = sorted.len();
    let from = if skip < len {
        skip
    } else {
        len
    };
    let to = if limit < len - from {
        from + limit
    } else {
        len
    };
    let mut entries: Vec<LogEntry> = Vec::new();
    let mut i: usize = from;
    while i < to
        invariant
            from <= i <= to <= sorted@.len(),
            entries@.len() == i - from,
            forall|k: int|
                0 <= k < i - from ==> entries@[k]@ == entry_for(
                    sorted@[from + k]@,
                    head.deep_view(),
                    latest.deep_view(),
                ),
        decreases to - i,
    {
        let record = sorted[i].clone();
        let is_head = match &head {
            Some(h) => h.hash == record.hash,
            None => false,
        };
        let is_latest = match &latest {
            Some(l) => l.hash == record.hash,
            None => false,
        };
        entries.push(LogEntry { record, is_head, is_latest });
        i += 1;
    }
    assert(entries.deep_view() =~= listing(
        repo@,
        head.deep_view(),
        skip as int,
        limit as int,
    ));
    Ok(entries)
}

} // verus!
