//! Facts about the model that the table's proofs lean on.

use crate::fd_cache::drop_key;
use crate::fd_cache::has_key;
use crate::fd_cache::lemma_drop_key;
use crate::fd_cache::promoted;
use crate::fd_cache::stored;
use crate::fd_cache::FD_CACHE_CAPACITY;
use crate::model::total_bytes;
use crate::model::Queue;
use crate::model::SplitView;
use crate::model::TableView;
use crate::queue::QueueKey;
use vstd::prelude::*;

verus! {

/// The total counts each split once: taking one out lowers the total by
/// what that split holds on disk.
pub proof fn lemma_total_bytes_remove(splits: Map<u128, SplitView>, id: u128)
    requires
        splits.dom().finite(),
        splits.contains_key(id),
    ensures
        total_bytes(splits) == splits[id].status.disk_bytes() + total_bytes(splits.remove(id)),
    decreases splits.dom().len(),
{
    let first = splits.dom().choose();
    if first != id {
        let rest = splits.remove(first);
        lemma_total_bytes_remove(rest, id);
        lemma_total_bytes_remove(splits.remove(id), first);
        assert(rest.remove(id) =~= splits.remove(id).remove(first));
    }
}

/// Entering a split that was not there raises the total by what it holds on disk.
pub proof fn lemma_total_bytes_insert(splits: Map<u128, SplitView>, id: u128, info: SplitView)
    requires
        splits.dom().finite(),
        !splits.contains_key(id),
    ensures
        total_bytes(splits.insert(id, info)) == total_bytes(splits) + info.status.disk_bytes(),
{
    lemma_total_bytes_remove(splits.insert(id, info), id);
    assert(splits.insert(id, info).remove(id) =~= splits);
}

/// Taking a split out of the index takes its key out of its queue and
/// leaves the other queues as they are.
pub proof fn lemma_queue_remove(table: TableView, id: u128, q: Queue)
    requires
        table.splits.contains_key(id),
    ensures
        ({
            let after = TableView { splits: table.splits.remove(id), ..table };
            let key: QueueKey = (table.splits[id].last_accessed, id);
            after.queue(q) == if table.splits[id].status.queue() == q {
                table.queue(q).remove(key)
            } else {
                table.queue(q)
            }
        }),
{
    let after = TableView { splits: table.splits.remove(id), ..table };
    let key: QueueKey = (table.splits[id].last_accessed, id);
    if table.splits[id].status.queue() == q {
        assert(after.queue(q) =~= table.queue(q).remove(key));
    } else {
        assert(after.queue(q) =~= table.queue(q));
    }
}

/// Entering a split that was not there adds its key to its queue and
/// leaves the other queues as they are.
pub proof fn lemma_queue_insert(table: TableView, id: u128, info: SplitView, q: Queue)
    requires
        !table.splits.contains_key(id),
    ensures
        ({
            let after = TableView { splits: table.splits.insert(id, info), ..table };
            let key: QueueKey = (info.last_accessed, id);
            &&& !table.queue(q).contains(key)
            &&& after.queue(q) == if info.status.queue() == q {
                table.queue(q).insert(key)
            } else {
                table.queue(q)
            }
        }),
{
    let after = TableView { splits: table.splits.insert(id, info), ..table };
    let key: QueueKey = (info.last_accessed, id);
    if info.status.queue() == q {
        assert(after.queue(q) =~= table.queue(q).insert(key));
    } else {
        assert(after.queue(q) =~= table.queue(q));
    }
}

/// Taking a split out of a well-formed table leaves a well-formed table.
pub proof fn lemma_without_wf(table: TableView, id: u128)
    requires
        table.wf(),
    ensures
        table.without(id).wf(),
        table.without(id).on_disk_bytes() <= table.on_disk_bytes(),
        table.splits.contains_key(id) ==> table.on_disk_bytes() == table.without(id).on_disk_bytes()
            + table.splits[id].status.disk_bytes(),
        !table.splits.contains_key(id) ==> table.without(id).splits == table.splits,
{
    let after = table.without(id);
    lemma_drop_key(table.open_files, id);
    assert forall|i: int| 0 <= i < after.open_files.len() implies after.holds_file(#[trigger] after.open_files[i]) by {
        let e = after.open_files[i];
        assert(table.open_files.contains(e));
        let j = choose|j: int| 0 <= j < table.open_files.len() && table.open_files[j] == e;
        assert(table.holds_file(table.open_files[j]));
        assert(!has_key(after.open_files, id));
    }
    if table.splits.contains_key(id) {
        let plain = TableView { splits: table.splits.remove(id), ..table };
        lemma_queue_remove(table, id, Queue::Candidates);
        lemma_queue_remove(table, id, Queue::Downloading);
        lemma_queue_remove(table, id, Queue::OnDisk);
        lemma_total_bytes_remove(table.splits, id);
        assert(after.queue(Queue::Candidates) == plain.queue(Queue::Candidates));
        assert(after.queue(Queue::Downloading) == plain.queue(Queue::Downloading));
        assert(after.queue(Queue::OnDisk) == plain.queue(Queue::OnDisk));
    } else {
        assert(table.splits.remove(id) =~= table.splits);
    }
}

/// Dropping a download from a well-formed table leaves a well-formed table
/// that holds the same bytes and the same candidates.
pub proof fn lemma_drop_download(table: TableView, id: u128)
    requires
        table.wf(),
        table.has_status(id, Queue::Downloading),
    ensures
        ({
            let after = TableView { splits: table.splits.remove(id), ..table };
            &&& after.wf()
            &&& after.on_disk_bytes() == table.on_disk_bytes()
            &&& after.candidates() == table.candidates()
            &&& after.on_disk() == table.on_disk()
            &&& after.downloading().len() < table.downloading().len()
        }),
{
    lemma_queue_remove(table, id, Queue::Candidates);
    lemma_queue_remove(table, id, Queue::Downloading);
    lemma_queue_remove(table, id, Queue::OnDisk);
    lemma_total_bytes_remove(table.splits, id);
}

/// Entering a split that was not there, into a well-formed table with room
/// for it, leaves a well-formed table.
pub proof fn lemma_insert_wf(table: TableView, id: u128, info: SplitView)
    requires
        table.wf(),
        !table.splits.contains_key(id),
        table.on_disk_bytes() + info.status.disk_bytes() <= u64::MAX,
        info.status is Candidate ==> table.candidates().len() < crate::model::MAX_NUM_CANDIDATES,
    ensures
        (TableView { splits: table.splits.insert(id, info), ..table }).wf(),
{
    lemma_queue_insert(table, id, info, Queue::Candidates);
    lemma_queue_insert(table, id, info, Queue::Downloading);
    lemma_queue_insert(table, id, info, Queue::OnDisk);
    lemma_total_bytes_insert(table.splits, id, info);
}

/// Dropping a candidate from a well-formed table leaves a well-formed table
/// with one candidate fewer and the same bytes.
pub proof fn lemma_drop_candidate(table: TableView, id: u128)
    requires
        table.wf(),
        table.has_status(id, Queue::Candidates),
    ensures
        ({
            let after = TableView { splits: table.splits.remove(id), ..table };
            &&& after.wf()
            &&& after.on_disk_bytes() == table.on_disk_bytes()
            &&& after.candidates().len() == table.candidates().len() - 1
        }),
{
    lemma_queue_remove(table, id, Queue::Candidates);
    lemma_queue_remove(table, id, Queue::Downloading);
    lemma_queue_remove(table, id, Queue::OnDisk);
    lemma_total_bytes_remove(table.splits, id);
}

/// A part of the index holds no more bytes than the whole.
pub proof fn lemma_total_bytes_submap(part: Map<u128, SplitView>, whole: Map<u128, SplitView>)
    requires
        whole.dom().finite(),
        part.submap_of(whole),
    ensures
        part.dom().finite(),
        total_bytes(part) <= total_bytes(whole),
    decreases whole.dom().len(),
{
    vstd::set_lib::lemma_len_subset(part.dom(), whole.dom());
    if whole.dom().len() > 0 {
        let id = whole.dom().choose();
        lemma_total_bytes_submap(part.remove(id), whole.remove(id));
        if part.contains_key(id) {
            lemma_total_bytes_remove(part, id);
        } else {
            assert(part.remove(id) =~= part);
        }
    } else {
        assert(part.dom() =~= Set::empty());
    }
}

/// Taking an on-disk split out of the index leaves the candidates and the
/// downloads as they are, and one on-disk split fewer.
pub proof fn lemma_drop_on_disk(table: TableView, id: u128)
    requires
        table.splits.dom().finite(),
        table.on_disk().finite(),
        table.has_status(id, Queue::OnDisk),
    ensures
        table.dropped(id).candidates() == table.candidates(),
        table.dropped(id).downloading() == table.downloading(),
        table.dropped(id).on_disk() == table.on_disk().remove(
            (table.splits[id].last_accessed, id),
        ),
        table.dropped(id).splits.dom().len() < table.splits.dom().len(),
{
    lemma_queue_remove(table, id, Queue::Candidates);
    lemma_queue_remove(table, id, Queue::Downloading);
    lemma_queue_remove(table, id, Queue::OnDisk);
}

/// Using a remembered file again leaves a well-formed table.
pub proof fn lemma_promoted_wf(table: TableView, id: u128)
    requires
        table.wf(),
    ensures
        (TableView { open_files: promoted(table.open_files, id), ..table }).wf(),
{
    let after = TableView { open_files: promoted(table.open_files, id), ..table };
    lemma_drop_key(table.open_files, id);
    if has_key(table.open_files, id) {
        let dropped = drop_key(table.open_files, id);
        let i = choose|i: int|
            0 <= i < table.open_files.len() && (#[trigger] table.open_files[i]).0 == id;
        assert(table.holds_file(table.open_files[i]));
        assert forall|k: int| 0 <= k < after.open_files.len() implies after.holds_file(#[trigger] after.open_files[k]) by {
            if k > 0 {
                let e = dropped[k - 1];
                assert(after.open_files[k] == e);
                assert(table.open_files.contains(e));
                let j = choose|j: int| 0 <= j < table.open_files.len() && table.open_files[j] == e;
                assert(table.holds_file(table.open_files[j]));
            }
        }
    }
}

/// Remembering the file of an on-disk split leaves a well-formed table.
pub proof fn lemma_stored_wf(table: TableView, id: u128, num_bytes: u64)
    requires
        table.wf(),
        table.holds_file((id, num_bytes)),
    ensures
        (TableView {
            open_files: stored(table.open_files, FD_CACHE_CAPACITY as nat, id, num_bytes),
            ..table
        }).wf(),
{
    let entries = table.open_files;
    let after = TableView {
        open_files: stored(entries, FD_CACHE_CAPACITY as nat, id, num_bytes),
        ..table
    };
    lemma_drop_key(entries, id);
    let rest = after.open_files.subrange(1, after.open_files.len() as int);
    assert forall|k: int| 0 <= k < after.open_files.len() implies after.holds_file(#[trigger] after.open_files[k]) by {
        if k > 0 {
            let e = after.open_files[k];
            if has_key(entries, id) {
                assert(e == drop_key(entries, id)[k - 1]);
                assert(entries.contains(e));
            } else if entries.len() == FD_CACHE_CAPACITY {
                assert(e == entries.drop_last()[k - 1]);
                assert(e == entries[k - 1]);
            } else {
                assert(e == entries[k - 1]);
            }
            let j = choose|j: int| 0 <= j < entries.len() && entries[j] == e;
            assert(table.holds_file(entries[j]));
        }
    }
}

} // verus!
