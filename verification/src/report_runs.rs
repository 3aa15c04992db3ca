//! Runs of reports: what a table holds after a succession of reports of new
//! splits, each warmer than the ones before.

use crate::clock::backdated;
use crate::fd_cache::lemma_drop_key;
use crate::fd_cache::OpenFile;
use crate::laws::lemma_empty_table;
use crate::model::Queue;
use crate::model::SplitView;
use crate::model::StatusView;
use crate::model::TableView;
use crate::model::MAX_NUM_CANDIDATES;
use crate::model_lemmas::lemma_drop_candidate;
use crate::model_lemmas::lemma_insert_wf;
use crate::model_lemmas::lemma_queue_insert;
use crate::queue::is_min_of;
use crate::queue::key_le;
use crate::queue::lemma_min_unique;
use crate::queue::QueueKey;
use vstd::prelude::*;

verus! {

/// A run of reports: the ids reported, and for each report the place given,
/// the time shown and the downloads found abandoned.
pub struct ReportRun {
    pub ids: Seq<u128>,
    pub storage_uris: Seq<Seq<char>>,
    pub nows: Seq<u64>,
    pub deads: Seq<Set<u128>>,
}

impl ReportRun {
    /// The run has what every report needs, each id is greater than the
    /// ones before, and the clock does not go back.
    pub open spec fn ascending(self) -> bool {
        &&& self.storage_uris.len() == self.ids.len()
        &&& self.nows.len() == self.ids.len()
        &&& self.deads.len() == self.ids.len()
        &&& forall|i: int, j: int| 0 <= i < j < self.ids.len() ==> self.ids[i] < self.ids[j]
        &&& forall|i: int, j: int| 0 <= i < j < self.nows.len() ==> self.nows[i] <= self.nows[j]
    }

    /// The record that the `j`-th report makes of its split.
    pub open spec fn record(self, j: int) -> SplitView {
        SplitView {
            last_accessed: backdated(self.nows[j]),
            status: StatusView::Candidate { storage_uri: self.storage_uris[j] },
        }
    }

    /// The key of the `j`-th reported split.
    pub open spec fn key(self, j: int) -> QueueKey {
        (backdated(self.nows[j]), self.ids[j])
    }

    /// The table after the first `count` reports of the run.
    pub open spec fn table_after(self, start: TableView, count: nat) -> TableView
        decreases count,
    {
        if count == 0 {
            start
        } else {
            self.table_after(start, (count - 1) as nat).report(
                self.ids[count - 1],
                self.storage_uris[count - 1],
                self.nows[count - 1],
                self.deads[count - 1],
            )
        }
    }

    /// The first report whose split is still a candidate after `count`
    /// reports: the queue holds the last `MAX_NUM_CANDIDATES` of them.
    pub open spec fn first_kept(count: nat) -> int {
        if count <= MAX_NUM_CANDIDATES {
            0
        } else {
            count - MAX_NUM_CANDIDATES
        }
    }

    /// What the table holds after `count` reports: the splits of the last
    /// `MAX_NUM_CANDIDATES` reports, as candidates with the records that
    /// their reports made, and nothing else.
    pub open spec fn holds_last_reports(self, table: TableView, count: nat) -> bool {
        &&& table.wf()
        &&& table.open_files == Seq::<OpenFile>::empty()
        &&& table.candidates().len() == count - Self::first_kept(count)
        &&& forall|j: int|
            Self::first_kept(count) <= j < count ==> table.splits.contains_key(
                #[trigger] self.ids[j],
            ) && table.splits[self.ids[j]] == self.record(j)
        &&& forall|id: u128| #[trigger]
            table.splits.contains_key(id) ==> exists|j: int|
                Self::first_kept(count) <= j < count && self.ids[j] == id
    }
}

/// After any number of reports of new splits to a table without splits,
/// each id greater than the ones before, the candidates are the splits most
/// recently reported, `MAX_NUM_CANDIDATES` of them at most, and every split
/// reported earlier is unknown to the table.
pub proof fn lemma_run_of_reports(run: ReportRun, start: TableView, count: nat)
    requires
        run.ascending(),
        count <= run.ids.len(),
        start.splits == Map::<u128, SplitView>::empty(),
        start.open_files == Seq::<OpenFile>::empty(),
    ensures
        run.holds_last_reports(run.table_after(start, count), count),
        forall|j: int|
            0 <= j < ReportRun::first_kept(count) ==> !run.table_after(
                start,
                count,
            ).splits.contains_key(#[trigger] run.ids[j]),
    decreases count,
{
    let table = run.table_after(start, count);
    if count == 0 {
        lemma_empty_table(start);
    } else {
        let k = count - 1;
        let prev = run.table_after(start, k as nat);
        lemma_run_of_reports(run, start, k as nat);
        lemma_report_after_run(run, prev, k);
    }
    assert forall|j: int| 0 <= j < ReportRun::first_kept(count) implies !table.splits.contains_key(
        #[trigger] run.ids[j],
    ) by {
        if table.splits.contains_key(run.ids[j]) {
            let i = choose|i: int|
                ReportRun::first_kept(count) <= i < count && run.ids[i] == run.ids[j];
            assert(run.ids[j] < run.ids[i]);
        }
    }
}

/// One more report after a run: the newcomer enters, and takes the place
/// of the split reported first among those kept where the queue is full.
pub proof fn lemma_report_after_run(run: ReportRun, prev: TableView, k: int)
    requires
        run.ascending(),
        0 <= k < run.ids.len(),
        run.holds_last_reports(prev, k as nat),
    ensures
        run.holds_last_reports(
            prev.report(run.ids[k], run.storage_uris[k], run.nows[k], run.deads[k]),
            (k + 1) as nat,
        ),
{
    let id = run.ids[k];
    let info = run.record(k);
    let after = prev.report(id, run.storage_uris[k], run.nows[k], run.deads[k]);
    let first = ReportRun::first_kept(k as nat);
    let first_after = ReportRun::first_kept((k + 1) as nat);
    // The newcomer is not known: every split of the table was reported before.
    assert(!prev.splits.contains_key(id)) by {
        if prev.splits.contains_key(id) {
            let j = choose|j: int| first <= j < k && run.ids[j] == id;
            assert(run.ids[j] < run.ids[k]);
        }
    }
    assert(prev.splits.remove(id) =~= prev.splits);
    lemma_drop_key(prev.open_files, id);
    assert(prev.without(id) == prev);
    // No split is in download: nothing is collected.
    assert forall|key: QueueKey| !prev.downloading().contains(key) by {
        if prev.splits.contains_key(key.1) {
            let j = choose|j: int| first <= j < k && run.ids[j] == key.1;
            assert(prev.splits[run.ids[j]] == run.record(j));
        }
    }
    assert(prev.downloading() =~= Set::empty());
    assert(prev.collected(info.status, run.deads[k]) == prev);
    assert(after == prev.admitted(id, info));
    let incoming: QueueKey = (info.last_accessed, id);
    if k < MAX_NUM_CANDIDATES {
        assert(prev.admits(incoming));
        assert(prev.truncated(incoming) == prev);
        lemma_insert_wf(prev, id, info);
        lemma_queue_insert(prev, id, info, Queue::Candidates);
        assert(after.splits == prev.splits.insert(id, info));
        assert forall|j: int| first_after <= j < k + 1 implies after.splits.contains_key(
            #[trigger] run.ids[j],
        ) && after.splits[run.ids[j]] == run.record(j) by {
            if j < k {
                assert(run.ids[j] < run.ids[k]);
            }
        }
        assert forall|other: u128| #[trigger] after.splits.contains_key(other) implies exists|
            j: int,
        | first_after <= j < k + 1 && run.ids[j] == other by {
            if other == id {
                assert(run.ids[k] == other);
            } else {
                let j = choose|j: int| first <= j < k && run.ids[j] == other;
                assert(first_after <= j < k + 1 && run.ids[j] == other);
            }
        }
    } else {
        // The queue is full, and the split reported first among those kept
        // is the coldest.
        let oldest = run.key(first);
        assert(prev.splits[run.ids[first]] == run.record(first));
        assert forall|o: QueueKey| prev.candidates().contains(o) implies key_le(oldest, o) by {
            let j = choose|j: int| first <= j < k && run.ids[j] == o.1;
            assert(prev.splits[run.ids[j]] == run.record(j));
            if j > first {
                assert(run.ids[first] < run.ids[j]);
                assert(run.nows[first] <= run.nows[j]);
            }
        }
        assert(is_min_of(oldest, prev.candidates()));
        lemma_min_unique(oldest, prev.coldest(Queue::Candidates), prev.candidates());
        assert(run.ids[first] < run.ids[k]);
        assert(run.nows[first] <= run.nows[k]);
        assert(prev.admits(incoming));
        let dropped = prev.dropped(oldest.1);
        assert(prev.truncated(incoming) == dropped);
        lemma_drop_candidate(prev, oldest.1);
        lemma_insert_wf(dropped, id, info);
        lemma_queue_insert(dropped, id, info, Queue::Candidates);
        assert(after.splits == dropped.splits.insert(id, info));
        assert forall|j: int| first_after <= j < k + 1 implies after.splits.contains_key(
            #[trigger] run.ids[j],
        ) && after.splits[run.ids[j]] == run.record(j) by {
            if j < k {
                assert(run.ids[j] < run.ids[k]);
                assert(run.ids[first] < run.ids[j]);
                assert(prev.splits.contains_key(run.ids[j]));
            }
        }
        assert forall|other: u128| #[trigger] after.splits.contains_key(other) implies exists|
            j: int,
        | first_after <= j < k + 1 && run.ids[j] == other by {
            if other == id {
                assert(run.ids[k] == other);
            } else {
                assert(prev.splits.contains_key(other));
                let j = choose|j: int| first <= j < k && run.ids[j] == other;
                assert(j != first);
                assert(first_after <= j < k + 1 && run.ids[j] == other);
            }
        }
    }
}

} // verus!
