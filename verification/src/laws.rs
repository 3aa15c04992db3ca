//! What holds of every table, stated over the model and proved.

use crate::model::FdDecision;
use crate::model::MutationView;
use crate::model::Queue;
use crate::model::SplitView;
use crate::model::StatusView;
use crate::model::TableView;
use crate::model::MAX_NUM_CANDIDATES;
use crate::model_lemmas::lemma_drop_candidate;
use crate::model_lemmas::lemma_insert_wf;
use crate::model_lemmas::lemma_queue_insert;
use crate::model_lemmas::lemma_queue_remove;
use crate::model_lemmas::lemma_without_wf;
use crate::queue::is_max_of;
use crate::queue::is_min_of;
use crate::queue::key_le;
use crate::queue::key_lt;
use crate::queue::QueueKey;
use crate::split_table::SplitTable;
use vstd::prelude::*;

verus! {

/// Each split of the status index is listed in exactly one of the three
/// queues, under the key made of its own date and id, and under no other key.
pub proof fn lemma_exactly_one_queue(table: SplitTable, id: u128)
    requires
        table.wf(),
        table@.splits.contains_key(id),
    ensures
        ({
            let key: QueueKey = (table@.splits[id].last_accessed, id);
            let as_candidate = table.candidate_queue().contains(key);
            let as_download = table.downloading_queue().contains(key);
            let as_file = table.on_disk_queue().contains(key);
            &&& as_candidate || as_download || as_file
            &&& !(as_candidate && as_download)
            &&& !(as_candidate && as_file)
            &&& !(as_download && as_file)
            &&& forall|other: QueueKey|
                other.1 == id && (table.candidate_queue().contains(other)
                    || table.downloading_queue().contains(other) || table.on_disk_queue().contains(
                    other,
                )) ==> other == key
        }),
{
}

/// The queues list no split that the status index does not hold.
pub proof fn lemma_queues_list_known_splits(table: SplitTable, key: QueueKey)
    requires
        table.wf(),
        table.candidate_queue().contains(key) || table.downloading_queue().contains(key)
            || table.on_disk_queue().contains(key),
    ensures
        table@.splits.contains_key(key.1),
        table@.splits[key.1].last_accessed == key.0,
{
}

/// The byte counter equals the sum of the sizes of the on-disk splits: it
/// is zero for a table with no on-disk split, and each on-disk split adds its
/// size once.
pub proof fn lemma_bytes_accounting(table: SplitTable, id: u128)
    requires
        table.wf(),
    ensures
        table.byte_counter() == table@.on_disk_bytes(),
        table@.on_disk().is_empty() ==> table.byte_counter() == 0,
        table@.splits.contains_key(id) ==> table.byte_counter() == table@.dropped(
            id,
        ).on_disk_bytes() + table@.splits[id].status.disk_bytes(),
{
    if table@.splits.contains_key(id) {
        crate::model_lemmas::lemma_total_bytes_remove(table@.splits, id);
    }
    if table@.on_disk().is_empty() {
        assert forall|other: u128| table@.splits.contains_key(other) implies !(
        #[trigger] table@.splits[other].status is OnDisk) by {
            let key: QueueKey = (table@.splits[other].last_accessed, other);
            assert(!table@.on_disk().contains(key));
        }
        lemma_no_file_no_bytes(table@.splits);
    }
}

/// An index without on-disk splits holds no bytes.
pub proof fn lemma_no_file_no_bytes(splits: Map<u128, SplitView>)
    requires
        splits.dom().finite(),
        forall|id: u128| splits.contains_key(id) ==> !(#[trigger] splits[id].status is OnDisk),
    ensures
        crate::model::total_bytes(splits) == 0,
    decreases splits.dom().len(),
{
    if splits.dom().len() > 0 {
        let id = splits.dom().choose();
        lemma_no_file_no_bytes(splits.remove(id));
    }
}

/// Every file that the table remembers as open belongs to a split on
/// disk and is remembered with the size of that split, and the table
/// remembers `FD_CACHE_CAPACITY` files at most.
pub proof fn lemma_open_files_are_on_disk(table: SplitTable, id: u128)
    requires
        table.wf(),
        crate::fd_cache::has_key(table@.open_files, id),
    ensures
        table@.has_status(id, Queue::OnDisk),
        crate::fd_cache::value_of(table@.open_files, id) == table@.splits[id].status.size_on_disk(),
        table@.open_files.len() <= crate::fd_cache::FD_CACHE_CAPACITY,
{
    let i = choose|i: int|
        0 <= i < table@.open_files.len() && (#[trigger] table@.open_files[i]).0 == id;
    assert(table@.holds_file(table@.open_files[i]));
}

/// The candidate queue never holds more than `MAX_NUM_CANDIDATES` keys.
pub proof fn lemma_candidates_capped(table: SplitTable)
    requires
        table.wf(),
    ensures
        table.candidate_queue().len() <= MAX_NUM_CANDIDATES,
{
}

/// A finite queue that is not empty has a greatest key.
pub proof fn lemma_has_max(queue: Set<QueueKey>)
    requires
        queue.finite(),
        !queue.is_empty(),
    ensures
        exists|k: QueueKey| is_max_of(k, queue),
    decreases queue.len(),
{
    let first = queue.choose();
    let rest = queue.remove(first);
    if rest.is_empty() {
        assert forall|o: QueueKey| queue.contains(o) implies key_le(o, first) by {
            if o != first {
                assert(rest.contains(o));
            }
        }
        assert(is_max_of(first, queue));
    } else {
        lemma_has_max(rest);
        let best = choose|k: QueueKey| is_max_of(k, rest);
        if key_le(best, first) {
            assert forall|o: QueueKey| queue.contains(o) implies key_le(o, first) by {
                if o != first {
                    assert(rest.contains(o));
                    assert(key_le(o, best));
                }
            }
            assert(is_max_of(first, queue));
        } else {
            assert forall|o: QueueKey| queue.contains(o) implies key_le(o, best) by {
                if o != first {
                    assert(rest.contains(o));
                }
            }
            assert(is_max_of(best, queue));
        }
    }
}

/// A finite queue that is not empty has a least key.
pub proof fn lemma_has_min(queue: Set<QueueKey>)
    requires
        queue.finite(),
        !queue.is_empty(),
    ensures
        exists|k: QueueKey| is_min_of(k, queue),
    decreases queue.len(),
{
    let first = queue.choose();
    let rest = queue.remove(first);
    if rest.is_empty() {
        assert forall|o: QueueKey| queue.contains(o) implies key_le(first, o) by {
            if o != first {
                assert(rest.contains(o));
            }
        }
        assert(is_min_of(first, queue));
    } else {
        lemma_has_min(rest);
        let least = choose|k: QueueKey| is_min_of(k, rest);
        if key_le(first, least) {
            assert forall|o: QueueKey| queue.contains(o) implies key_le(first, o) by {
                if o != first {
                    assert(rest.contains(o));
                    assert(key_le(least, o));
                }
            }
            assert(is_min_of(first, queue));
        } else {
            assert forall|o: QueueKey| queue.contains(o) implies key_le(least, o) by {
                if o != first {
                    assert(rest.contains(o));
                }
            }
            assert(is_min_of(least, queue));
        }
    }
}

/// A download that has started is no candidate any more: `start_download`
/// on a candidate leaves it in the downloading queue, so that a second
/// `start_download` finds no candidate and hands out nothing.
pub proof fn lemma_start_download_once(table: TableView, id: u128, dead: Set<u128>)
    requires
        table.wf(),
        table.has_status(id, Queue::Candidates),
    ensures
        table.start_download(id, dead).has_status(id, Queue::Downloading),
        !table.start_download(id, dead).has_status(id, Queue::Candidates),
{
}

/// `start_download` makes no split a candidate.
pub proof fn lemma_start_download_makes_no_candidate(
    table: TableView,
    started: u128,
    dead: Set<u128>,
    id: u128,
)
    requires
        !table.has_status(id, Queue::Candidates),
    ensures
        !table.start_download(started, dead).has_status(id, Queue::Candidates),
{
}

/// Remembering an open file, or learning that a file could not be opened,
/// makes no split a candidate.
pub proof fn lemma_fd_events_make_no_candidate(table: TableView, event: u128, size: u64, id: u128)
    requires
        !table.has_status(id, Queue::Candidates),
    ensures
        !table.fd_opened(event, size).has_status(id, Queue::Candidates),
        !table.fd_open_failed(event).has_status(id, Queue::Candidates),
{
}

/// A download that is not abandoned stays a download when its split is
/// reported or touched, under the date that the mutation gives it.
pub proof fn lemma_running_download_stays(
    table: TableView,
    id: u128,
    mutation: MutationView,
    dead: Set<u128>,
)
    requires
        table.wf(),
        table.has_status(id, Queue::Downloading),
        !dead.contains(id),
        !(mutation is ChangeStatus),
    ensures
        table.mutate(id, mutation, dead).has_status(id, Queue::Downloading),
{
    lemma_mutate(table, id, mutation, dead);
}

/// The evictions take on-disk splits out of the index, those that
/// `evictions` lists and no other, and change no record that stays.
pub proof fn lemma_evicted_is_part(table: TableView, bound: Option<u64>)
    requires
        table.splits.dom().finite(),
    ensures
        table.evicted(bound).splits.submap_of(table.splits),
        table.evicted(bound).splits.dom().finite(),
        table.evicted(bound).limits == table.limits,
        table.evicted(bound).open_files == table.open_files,
        table.evicted(bound).candidates() == table.candidates(),
        table.evicted(bound).downloading() == table.downloading(),
        table.evicted(bound).on_disk().subset_of(table.on_disk()),
        forall|id: u128|
            table.splits.contains_key(id) ==> (table.evicted(bound).splits.contains_key(id)
                <==> !table.evictions(bound).contains(id)),
    decreases table.splits.dom().len(),
{
    if table.is_out_of_limits() && table.may_evict(bound) {
        let coldest = table.coldest(Queue::OnDisk);
        let rest = table.dropped(coldest.1);
        lemma_queue_remove(table, coldest.1, Queue::Candidates);
        lemma_queue_remove(table, coldest.1, Queue::Downloading);
        lemma_queue_remove(table, coldest.1, Queue::OnDisk);
        lemma_evicted_is_part(rest, bound);
        let evictions = table.evictions(bound);
        assert(table.evicted(bound) == rest.evicted(bound));
        assert(evictions == seq![coldest.1] + rest.evictions(bound));
        assert forall|id: u128| table.splits.contains_key(id) implies (table.evicted(
            bound,
        ).splits.contains_key(id) <==> !evictions.contains(id)) by {
            if id == coldest.1 {
                assert(evictions[0] == id);
            } else {
                if rest.evictions(bound).contains(id) {
                    let k = choose|k: int|
                        0 <= k < rest.evictions(bound).len() && rest.evictions(bound)[k] == id;
                    assert(evictions[k + 1] == id);
                }
                if evictions.contains(id) {
                    let k = choose|k: int| 0 <= k < evictions.len() && evictions[k] == id;
                    assert(rest.evictions(bound)[k - 1] == id);
                }
            }
        }
    } else {
        assert(table.evicted(bound) == table);
        assert(table.evictions(bound) == Seq::<u128>::empty());
    }
}

/// Making room leaves a well-formed table.
pub proof fn lemma_make_room_wf(table: TableView, bound: Option<u64>)
    requires
        table.wf(),
    ensures
        table.make_room(bound).wf(),
        table.make_room(bound).limits == table.limits,
        table.make_room(bound).splits.submap_of(table.splits),
        table.make_room(bound).candidates() == table.candidates(),
        table.make_room(bound).downloading() == table.downloading(),
        table.can_make_room(bound) ==> !table.make_room(bound).is_out_of_limits(),
{
    if table.can_make_room(bound) {
        let after = table.make_room(bound);
        let evicted = table.evicted(bound);
        lemma_evicted_is_part(table, bound);
        vstd::set_lib::lemma_len_subset(evicted.on_disk(), table.on_disk());
        crate::model_lemmas::lemma_total_bytes_submap(evicted.splits, table.splits);
        crate::fd_cache::lemma_drop_keys(table.open_files, table.evictions(bound));
        assert(after.candidates() == evicted.candidates());
        assert(after.downloading() == evicted.downloading());
        assert(after.on_disk() == evicted.on_disk());
        assert forall|k: int| 0 <= k < after.open_files.len() implies after.holds_file(#[trigger] after.open_files[k]) by {
            let e = after.open_files[k];
            assert(table.open_files.contains(e));
            let j = choose|j: int| 0 <= j < table.open_files.len() && table.open_files[j] == e;
            assert(table.holds_file(table.open_files[j]));
        }
    }
}

/// `make_room_for_split_if_necessary` makes no split a candidate.
pub proof fn lemma_make_room_makes_no_candidate(table: TableView, bound: Option<u64>, id: u128)
    requires
        table.wf(),
        !table.has_status(id, Queue::Candidates),
    ensures
        !table.make_room(bound).has_status(id, Queue::Candidates),
{
    lemma_evicted_is_part(table, bound);
    let after = table.evicted(bound);
    if after.splits.contains_key(id) {
        assert(table.splits.contains_key(id) && after.splits[id] == table.splits[id]);
    }
}

/// `find_download_opportunity` makes no split a candidate.
pub proof fn lemma_find_download_opportunity_makes_no_candidate(
    table: TableView,
    dead: Set<u128>,
    id: u128,
)
    requires
        table.wf(),
        !table.has_status(id, Queue::Candidates),
    ensures
        !table.find_download_opportunity(dead).has_status(id, Queue::Candidates),
{
    if table.has_opportunity() {
        let best = table.warmest(Queue::Candidates);
        lemma_make_room_makes_no_candidate(table, Some(best.0), id);
        lemma_start_download_makes_no_candidate(table.make_room(Some(best.0)), best.1, dead, id);
    }
}

/// The candidate that `find_download_opportunity` picks over the others has
/// the strictly greatest key of them all.
pub proof fn lemma_opportunity_is_warmest(table: TableView, other: QueueKey)
    requires
        table.wf(),
        table.has_opportunity(),
        table.candidates().contains(other),
        other.1 != table.opportunity().split_to_download,
    ensures
        ({
            let picked = table.opportunity().split_to_download;
            &&& table.has_status(picked, Queue::Candidates)
            &&& key_lt(other, (table.splits[picked].last_accessed, picked))
        }),
{
    lemma_has_max(table.candidates());
}

/// A candidate that enters a full queue displaces a candidate with a
/// strictly smaller key, the smallest of the queue; and a candidate that is
/// turned away has a key strictly smaller than every candidate in the queue.
pub proof fn lemma_admitted_over_colder(table: TableView, id: u128, info: SplitView, kept: QueueKey)
    requires
        table.wf(),
        !table.splits.contains_key(id),
        info.status is Candidate,
        table.candidates().len() >= MAX_NUM_CANDIDATES,
        table.admitted(id, info).candidates().contains(kept),
    ensures
        ({
            let entering: QueueKey = (info.last_accessed, id);
            let worst = table.coldest(Queue::Candidates);
            &&& table.candidates().contains(worst)
            &&& if table.admitted(id, info).has_status(id, Queue::Candidates) {
                &&& !table.admitted(id, info).candidates().contains(worst)
                &&& key_lt(worst, kept)
            } else {
                &&& table.admitted(id, info) == table
                &&& key_lt(entering, kept)
            }
        }),
{
    assert(!table.candidates().is_empty()) by {
        if table.candidates().is_empty() {
            assert(table.candidates().len() == 0);
        }
    }
    lemma_has_min(table.candidates());
    let worst = table.coldest(Queue::Candidates);
    let entering: QueueKey = (info.last_accessed, id);
    if !key_lt(entering, worst) {
        let dropped = table.dropped(worst.1);
        lemma_queue_remove(table, worst.1, Queue::Candidates);
        lemma_queue_insert(dropped, id, info, Queue::Candidates);
    }
}

/// No split is evicted that was accessed after the bound: every eviction
/// is of an on-disk split last accessed at the bound or before.
pub proof fn lemma_evictions_not_warmer(table: TableView, bound: u64, i: int)
    requires
        table.splits.dom().finite(),
        0 <= i < table.evictions(Some(bound)).len(),
    ensures
        table.has_status(table.evictions(Some(bound))[i], Queue::OnDisk),
        table.splits[table.evictions(Some(bound))[i]].last_accessed <= bound,
    decreases table.splits.dom().len(),
{
    if table.is_out_of_limits() && table.may_evict(Some(bound)) {
        let coldest = table.coldest(Queue::OnDisk);
        if i > 0 {
            lemma_evictions_not_warmer(table.dropped(coldest.1), bound, i - 1);
        }
    }
}

/// No split that `find_download_opportunity` has the caller delete was
/// accessed after the split that it has the caller download.
pub proof fn lemma_no_warmer_eviction(table: TableView, i: int)
    requires
        table.wf(),
        table.has_opportunity(),
        0 <= i < table.opportunity().splits_to_delete.len(),
    ensures
        ({
            let found = table.opportunity();
            &&& table.has_status(found.split_to_download, Queue::Candidates)
            &&& table.has_status(found.splits_to_delete[i], Queue::OnDisk)
            &&& table.splits[found.splits_to_delete[i]].last_accessed
                <= table.splits[found.split_to_download].last_accessed
        }),
{
    lemma_has_max(table.candidates());
    let best = table.warmest(Queue::Candidates);
    lemma_evictions_not_warmer(table, best.0, i);
}

/// The collection of abandoned downloads takes nothing but downloads found
/// abandoned, and those only where the downloading queue has outgrown its
/// margin; what stays is unchanged.
pub proof fn lemma_collected(table: TableView, incoming: StatusView, dead: Set<u128>)
    requires
        table.wf(),
    ensures
        ({
            let after = table.collected(incoming, dead);
            let newcomers: nat = if incoming is Downloading {
                1
            } else {
                0
            };
            &&& after.wf()
            &&& after.splits.submap_of(table.splits)
            &&& after.open_files == table.open_files
            &&& after.candidates() == table.candidates()
            &&& after.on_disk() == table.on_disk()
            &&& after.on_disk_bytes() == table.on_disk_bytes()
            &&& after.downloading().subset_of(table.downloading())
            &&& forall|id: u128|
                table.splits.contains_key(id) && !after.splits.contains_key(id)
                    ==> table.splits[id].status is Downloading && dead.contains(id)
            &&& table.downloading().len() + newcomers <= table.limits.num_concurrent_downloads
                + crate::model::DOWNLOADING_GC_MARGIN ==> after == table
        }),
{
    let after = table.collected(incoming, dead);
    if after != table {
        let gone = table.abandoned(dead);
        vstd::set_lib::lemma_len_subset(gone, table.splits.dom());
        lemma_remove_downloads(table, gone);
    }
}

/// Taking downloads out of the index changes neither the candidates nor
/// the on-disk splits nor the bytes on disk.
pub proof fn lemma_remove_downloads(table: TableView, gone: Set<u128>)
    requires
        table.wf(),
        gone.finite(),
        forall|id: u128| gone.contains(id) ==> table.has_status(id, Queue::Downloading),
    ensures
        ({
            let after = TableView { splits: table.splits.remove_keys(gone), ..table };
            &&& after.wf()
            &&& after.candidates() == table.candidates()
            &&& after.on_disk() == table.on_disk()
            &&& after.on_disk_bytes() == table.on_disk_bytes()
            &&& after.downloading().subset_of(table.downloading())
        }),
    decreases gone.len(),
{
    let after = TableView { splits: table.splits.remove_keys(gone), ..table };
    if gone.len() == 0 {
        assert(gone =~= Set::empty());
        assert(table.splits.remove_keys(gone) =~= table.splits);
    } else {
        let id = gone.choose();
        let rest = gone.remove(id);
        let middle = TableView { splits: table.splits.remove(id), ..table };
        crate::model_lemmas::lemma_drop_download(table, id);
        lemma_queue_remove(table, id, Queue::Downloading);
        lemma_remove_downloads(middle, rest);
        assert(middle.splits.remove_keys(rest) =~= table.splits.remove_keys(gone));
    }
}

/// What an insertion does. The newcomer is entered with its record, unless
/// it is a candidate for a full queue and colder than all of it. Every other
/// split stays as it is or leaves: a download may leave that was found
/// abandoned, and one candidate may leave for a candidate that enters a full
/// queue. The table stays well-formed.
pub proof fn lemma_with(table: TableView, id: u128, info: SplitView, dead: Set<u128>)
    requires
        table.wf(),
        !table.splits.contains_key(id),
        table.on_disk_bytes() + info.status.disk_bytes() <= u64::MAX,
    ensures
        ({
            let after = table.with(id, info, dead);
            &&& after.wf()
            &&& after.open_files == table.open_files
            &&& after.limits == table.limits
            &&& after.splits.contains_key(id) ==> after.splits[id] == info
            &&& !(info.status is Candidate) || table.candidates().len() < MAX_NUM_CANDIDATES
                ==> after.splits.contains_key(id)
            &&& after.splits.contains_key(id) ==> after.on_disk_bytes() == table.on_disk_bytes()
                + info.status.disk_bytes()
            &&& !after.splits.contains_key(id) ==> after.on_disk_bytes() == table.on_disk_bytes()
            &&& forall|other: u128|
                other != id && after.splits.contains_key(other) ==> table.splits.contains_key(
                    other,
                ) && after.splits[other] == table.splits[other]
            &&& forall|other: u128|
                table.splits.contains_key(other) && !after.splits.contains_key(other) ==> {
                    ||| table.splits[other].status is Downloading && dead.contains(other)
                    ||| table.splits[other].status is Candidate && info.status is Candidate
                        && table.candidates().len() >= MAX_NUM_CANDIDATES
                }
        }),
{
    let collected = table.collected(info.status, dead);
    lemma_collected(table, info.status, dead);
    let after = collected.admitted(id, info);
    if info.status is Candidate && collected.candidates().len() >= MAX_NUM_CANDIDATES {
        assert(!collected.candidates().is_empty()) by {
            if collected.candidates().is_empty() {
                assert(collected.candidates().len() == 0);
            }
        }
        lemma_has_min(collected.candidates());
        let worst = collected.coldest(Queue::Candidates);
        if collected.admits((info.last_accessed, id)) {
            lemma_drop_candidate(collected, worst.1);
            lemma_insert_wf(collected.dropped(worst.1), id, info);
            crate::model_lemmas::lemma_total_bytes_insert(
                collected.dropped(worst.1).splits,
                id,
                info,
            );
        }
    } else {
        lemma_insert_wf(collected, id, info);
        crate::model_lemmas::lemma_total_bytes_insert(collected.splits, id, info);
    }
}

/// What a mutation does. The split takes the record that the mutation
/// makes of it, unless that record is a candidate for a full queue and colder
/// than all of it, in which case the split is gone. Every other split stays
/// as it is or leaves, as `lemma_with` says. The table stays well-formed.
pub proof fn lemma_mutate(table: TableView, id: u128, mutation: MutationView, dead: Set<u128>)
    requires
        table.wf(),
        mutation matches MutationView::ChangeStatus { status, .. } ==> table.without(
            id,
        ).on_disk_bytes() + status.disk_bytes() <= u64::MAX,
    ensures
        ({
            let after = table.mutate(id, mutation, dead);
            let info = mutation.made(table.taken(id, dead));
            &&& after.wf()
            &&& after.limits == table.limits
            &&& after.open_files == crate::fd_cache::drop_key(table.open_files, id)
            &&& after.splits.contains_key(id) ==> after.splits[id] == info
            &&& !(info.status is Candidate) || table.without(id).candidates().len()
                < MAX_NUM_CANDIDATES ==> after.splits.contains_key(id)
            &&& after.on_disk_bytes() == table.without(id).on_disk_bytes() + if after.splits.contains_key(
                id,
            ) {
                info.status.disk_bytes()
            } else {
                0
            }
            &&& forall|other: u128|
                other != id && after.splits.contains_key(other) ==> table.splits.contains_key(
                    other,
                ) && after.splits[other] == table.splits[other]
            &&& forall|other: u128|
                other != id && table.splits.contains_key(other) && !after.splits.contains_key(
                    other,
                ) ==> {
                    ||| table.splits[other].status is Downloading && dead.contains(other)
                    ||| table.splits[other].status is Candidate && info.status is Candidate
                        && table.without(id).candidates().len() >= MAX_NUM_CANDIDATES
                }
        }),
{
    lemma_without_wf(table, id);
    lemma_with(table.without(id), id, mutation.made(table.taken(id, dead)), dead);
}

/// A table without splits has empty queues and holds no bytes.
pub proof fn lemma_empty_table(table: TableView)
    requires
        table.splits == Map::<u128, SplitView>::empty(),
    ensures
        table.candidates() == Set::<QueueKey>::empty(),
        table.downloading() == Set::<QueueKey>::empty(),
        table.on_disk() == Set::<QueueKey>::empty(),
        table.on_disk_bytes() == 0,
        !table.is_out_of_limits(),
{
    assert(table.candidates() =~= Set::empty());
    assert(table.downloading() =~= Set::empty());
    assert(table.on_disk() =~= Set::empty());
}

/// After `find_download_opportunity` has found an opportunity, the bytes
/// on disk are within their limit, and the splits on disk and in download
/// exceed theirs by one at most, the download just started: unless nothing
/// is on disk, which counts as within limits.
pub proof fn lemma_opportunity_respects_limits(table: TableView, dead: Set<u128>)
    requires
        table.wf(),
        table.has_opportunity(),
    ensures
        ({
            let after = table.find_download_opportunity(dead);
            after.on_disk().is_empty() || (after.on_disk_bytes() <= after.limits.max_num_bytes
                && after.on_disk().len() + after.downloading().len()
                <= after.limits.max_num_splits + 1)
        }),
{
    lemma_has_max(table.candidates());
    let best = table.warmest(Queue::Candidates);
    let roomy = table.make_room(Some(best.0));
    lemma_make_room_wf(table, Some(best.0));
    assert(roomy.candidates().contains(best));
    let after = roomy.start_download(best.1, dead);
    let started = SplitView { last_accessed: best.0, status: StatusView::Downloading };
    lemma_without_wf(roomy, best.1);
    let bare = roomy.without(best.1);
    lemma_with(bare, best.1, started, dead);
    lemma_queue_remove(roomy, best.1, Queue::Downloading);
    lemma_queue_remove(roomy, best.1, Queue::OnDisk);
    assert(bare.downloading() == roomy.downloading());
    assert(bare.on_disk() == roomy.on_disk());
    assert(after.on_disk() =~= roomy.on_disk()) by {
        assert forall|key: QueueKey| roomy.on_disk().contains(key) implies after.on_disk().contains(
            key,
        ) by {
            assert(bare.splits.contains_key(key.1));
        }
    }
    assert(after.downloading().subset_of(roomy.downloading().insert(best)));
    vstd::set_lib::lemma_len_subset(after.downloading(), roomy.downloading().insert(best));
}

/// `start_download` leaves a well-formed table.
pub proof fn lemma_start_download_wf(table: TableView, id: u128, dead: Set<u128>)
    requires
        table.wf(),
    ensures
        table.start_download(id, dead).wf(),
{
    if table.has_status(id, Queue::Candidates) {
        lemma_without_wf(table, id);
        lemma_with(
            table.without(id),
            id,
            SplitView {
                last_accessed: table.splits[id].last_accessed,
                status: StatusView::Downloading,
            },
            dead,
        );
    }
}

/// Every operation leaves a well-formed table: whatever the clock shows
/// and whichever downloads are found abandoned, each split is listed in the
/// queue of its status, the byte count fits, the candidates are capped and
/// the remembered files belong to splits on disk.
pub proof fn lemma_operations_keep_wf(
    table: TableView,
    id: u128,
    storage_uri: Seq<char>,
    num_bytes: u64,
    bound: Option<u64>,
    now: u64,
    dead: Set<u128>,
)
    requires
        table.wf(),
    ensures
        table.report(id, storage_uri, now, dead).wf(),
        table.touch(id, storage_uri, now, dead).wf(),
        table.without(id).on_disk_bytes() + num_bytes <= u64::MAX ==> table.register_as_downloaded(
            id,
            num_bytes,
            now,
            dead,
        ).wf(),
        table.start_download(id, dead).wf(),
        table.make_room(bound).wf(),
        table.find_download_opportunity(dead).wf(),
        table.try_get_or_open_fd(id, storage_uri, now, dead).wf(),
        table.fd_opened(id, num_bytes).wf(),
        table.fd_open_failed(id).wf(),
{
    lemma_mutate(table, id, MutationView::Report { storage_uri, now }, dead);
    lemma_mutate(table, id, MutationView::Touch { storage_uri, now }, dead);
    if table.without(id).on_disk_bytes() + num_bytes <= u64::MAX {
        lemma_mutate(
            table,
            id,
            MutationView::ChangeStatus { status: StatusView::OnDisk { num_bytes }, now },
            dead,
        );
    }
    lemma_start_download_wf(table, id, dead);
    lemma_make_room_wf(table, bound);
    if table.has_opportunity() {
        let best = table.warmest(Queue::Candidates);
        lemma_make_room_wf(table, Some(best.0));
        lemma_start_download_wf(table.make_room(Some(best.0)), best.1, dead);
    }
    crate::model_lemmas::lemma_promoted_wf(table, id);
    if table.holds_file((id, num_bytes)) {
        crate::model_lemmas::lemma_stored_wf(table, id, num_bytes);
    }
    lemma_without_wf(table, id);
}

/// The size that `try_get_or_open_fd` hands out is the size of the split:
/// on a hit the file was remembered with that size, and on a miss the size is
/// read from the index. Either way the split is on disk with that size once
/// the request is served.
pub proof fn lemma_fd_decision_gives_split_size(
    table: TableView,
    id: u128,
    storage_uri: Seq<char>,
    now: u64,
    dead: Set<u128>,
)
    requires
        table.wf(),
    ensures
        ({
            let after = table.try_get_or_open_fd(id, storage_uri, now, dead);
            match table.fd_decision(id, storage_uri, now, dead) {
                FdDecision::Cached { num_bytes } => table.holds_file((id, num_bytes))
                    && after.holds_file((id, num_bytes)) && after.splits == table.splits,
                FdDecision::Open { num_bytes } => after.holds_file((id, num_bytes))
                    && after.splits[id].last_accessed == now,
                FdDecision::Absent => !after.has_status(id, Queue::OnDisk),
            }
        }),
{
    if crate::fd_cache::has_key(table.open_files, id) {
        let i = choose|i: int|
            0 <= i < table.open_files.len() && (#[trigger] table.open_files[i]).0 == id;
        assert(table.holds_file(table.open_files[i]));
    } else {
        lemma_mutate(table, id, MutationView::Touch { storage_uri, now }, dead);
    }
}

/// `register_as_downloaded` keeps the byte count in step: the count is
/// what it was, less the size that the split had on disk, plus the size that
/// it has now.
pub proof fn lemma_register_as_downloaded_bytes(
    table: TableView,
    id: u128,
    num_bytes: u64,
    now: u64,
    dead: Set<u128>,
)
    requires
        table.wf(),
        table.without(id).on_disk_bytes() + num_bytes <= u64::MAX,
    ensures
        ({
            let after = table.register_as_downloaded(id, num_bytes, now, dead);
            let before: nat = if table.splits.contains_key(id) {
                table.splits[id].status.disk_bytes()
            } else {
                0
            };
            &&& after.wf()
            &&& after.holds_file((id, num_bytes))
            &&& after.on_disk_bytes() == table.on_disk_bytes() - before + num_bytes
        }),
{
    lemma_without_wf(table, id);
    lemma_mutate(
        table,
        id,
        MutationView::ChangeStatus { status: StatusView::OnDisk { num_bytes }, now },
        dead,
    );
}

/// Taking a split out of the table lowers the byte count by the size that
/// the split had on disk, and changes nothing else in the index.
pub proof fn lemma_without_bytes(table: TableView, id: u128)
    requires
        table.wf(),
    ensures
        ({
            let before: nat = if table.splits.contains_key(id) {
                table.splits[id].status.disk_bytes()
            } else {
                0
            };
            &&& table.without(id).wf()
            &&& table.without(id).on_disk_bytes() == table.on_disk_bytes() - before
            &&& table.without(id).splits == table.splits.remove(id)
        }),
{
    lemma_without_wf(table, id);
}

/// Making room in the candidate queue takes the coldest candidate out of a
/// full queue and nothing else: what stays are the greatest keys, the disk
/// and the downloads are as they were, and the queue has room afterwards
/// where the newcomer may enter.
pub proof fn lemma_truncated(table: TableView, incoming: QueueKey, kept: QueueKey)
    requires
        table.wf(),
        table.truncated(incoming).candidates().contains(kept),
    ensures
        ({
            let after = table.truncated(incoming);
            let worst = table.coldest(Queue::Candidates);
            &&& after.wf()
            &&& after.on_disk() == table.on_disk()
            &&& after.downloading() == table.downloading()
            &&& after.on_disk_bytes() == table.on_disk_bytes()
            &&& table.admits(incoming) ==> after.candidates().len() < MAX_NUM_CANDIDATES
            &&& table.candidates().contains(kept)
            &&& after != table ==> {
                &&& table.candidates().len() == MAX_NUM_CANDIDATES
                &&& after.candidates() == table.candidates().remove(worst)
                &&& !after.splits.contains_key(worst.1)
                &&& key_lt(worst, kept)
            }
        }),
{
    if table.candidates().len() >= MAX_NUM_CANDIDATES && table.admits(incoming) {
        assert(!table.candidates().is_empty()) by {
            if table.candidates().is_empty() {
                assert(table.candidates().len() == 0);
            }
        }
        lemma_has_min(table.candidates());
        let worst = table.coldest(Queue::Candidates);
        lemma_drop_candidate(table, worst.1);
        lemma_queue_remove(table, worst.1, Queue::Candidates);
        lemma_queue_remove(table, worst.1, Queue::Downloading);
        lemma_queue_remove(table, worst.1, Queue::OnDisk);
    }
}

/// A file that was remembered is found again: after `fd_opened` for a
/// split on disk, the next request for the split is served from the
/// remembered files, with the split's size, and changes nothing in the index.
pub proof fn lemma_opened_file_is_cached(
    table: TableView,
    id: u128,
    num_bytes: u64,
    storage_uri: Seq<char>,
    now: u64,
    dead: Set<u128>,
)
    requires
        table.wf(),
        table.holds_file((id, num_bytes)),
    ensures
        ({
            let opened = table.fd_opened(id, num_bytes);
            &&& opened.wf()
            &&& opened.splits == table.splits
            &&& opened.fd_decision(id, storage_uri, now, dead) == (FdDecision::Cached { num_bytes })
            &&& opened.try_get_or_open_fd(id, storage_uri, now, dead).splits == table.splits
        }),
{
    let opened = table.fd_opened(id, num_bytes);
    crate::model_lemmas::lemma_stored_wf(table, id, num_bytes);
    assert(opened.open_files[0] == (id, num_bytes));
    assert(crate::fd_cache::has_key(opened.open_files, id));
    let i = choose|i: int|
        0 <= i < opened.open_files.len() && (#[trigger] opened.open_files[i]).0 == id;
    assert(opened.holds_file(opened.open_files[i]));
}

} // verus!
