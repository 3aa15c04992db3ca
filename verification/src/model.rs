//! The table as a mathematical value: a map from split ids to what is known
//! of each split, the remembered open files, and the limits. Every operation
//! of the table is stated here as a function from one such value to the next.
//!
//! Two things lie outside the table's control and appear as parameters: the
//! reading of the clock (`now`) and the set of downloads whose tokens were
//! found dropped (`dead`).

use crate::clock::backdated;
use crate::fd_cache::drop_key;
use crate::fd_cache::drop_keys;
use crate::fd_cache::has_key;
use crate::fd_cache::promoted;
use crate::fd_cache::stored;
use crate::fd_cache::value_of;
use crate::fd_cache::OpenFile;
use crate::fd_cache::FD_CACHE_CAPACITY;
use crate::queue::is_max_of;
use crate::queue::is_min_of;
use crate::queue::key_lt;
use crate::queue::QueueKey;
use vstd::prelude::*;

verus! {

/// Maximum number of candidate splits to track.
pub const MAX_NUM_CANDIDATES: usize = 1_000;

/// How far the downloading queue may outgrow the configured number of
/// concurrent downloads before abandoned downloads are looked for.
pub const DOWNLOADING_GC_MARGIN: u64 = 10;

/// The limits of the cache.
#[derive(Clone, Copy, Debug, PartialEq, Eq, Structural)]
pub struct SplitCacheLimits {
    /// Bound on the bytes held on disk.
    pub max_num_bytes: u64,
    /// Bound on the splits on disk and in download, together.
    pub max_num_splits: u32,
    /// Expected number of downloads in flight.
    pub num_concurrent_downloads: u32,
}

/// The three queues. Each split is listed in the one that its status names.
pub enum Queue {
    /// Splits known to exist upstream.
    Candidates,
    /// Splits in download.
    Downloading,
    /// Splits present in the cache directory.
    OnDisk,
}

/// What a status says, without its liveness token.
pub enum StatusView {
    Candidate { storage_uri: Seq<char> },
    Downloading,
    OnDisk { num_bytes: u64 },
}

impl StatusView {
    /// The queue that lists splits of this status.
    pub open spec fn queue(self) -> Queue {
        match self {
            StatusView::Candidate { .. } => Queue::Candidates,
            StatusView::Downloading => Queue::Downloading,
            StatusView::OnDisk { .. } => Queue::OnDisk,
        }
    }

    /// The size of the file of a split of this status, if it has one.
    pub open spec fn size_on_disk(self) -> Option<u64> {
        match self {
            StatusView::OnDisk { num_bytes } => Some(num_bytes),
            _ => None,
        }
    }

    /// The bytes a split of this status holds on disk.
    pub open spec fn disk_bytes(self) -> nat {
        match self {
            StatusView::OnDisk { num_bytes } => num_bytes as nat,
            _ => 0,
        }
    }
}

/// What the table knows of one split.
pub struct SplitView {
    /// When the split was last accessed, in microseconds since the table's origin.
    pub last_accessed: u64,
    /// Where the split stands.
    pub status: StatusView,
}

/// The sum of the sizes of the on-disk splits of `splits`.
pub open spec fn total_bytes(splits: Map<u128, SplitView>) -> nat
    decreases splits.dom().len(),
{
    if splits.dom().finite() && splits.dom().len() > 0 {
        let id = splits.dom().choose();
        splits[id].status.disk_bytes() + total_bytes(splits.remove(id))
    } else {
        0
    }
}

/// What can be done to the record of one split.
pub enum MutationView {
    /// The split was reported at `now`.
    Report { storage_uri: Seq<char>, now: u64 },
    /// The split was accessed at `now`.
    Touch { storage_uri: Seq<char>, now: u64 },
    /// The split takes `status`; where it is not known, it is dated `now`.
    ChangeStatus { status: StatusView, now: u64 },
}

impl MutationView {
    /// The record that the mutation makes of what was taken out of the table.
    pub open spec fn made(self, taken: Option<SplitView>) -> SplitView {
        match self {
            MutationView::Report { storage_uri, now } => match taken {
                Some(info) => info,
                None => SplitView {
                    last_accessed: backdated(now),
                    status: StatusView::Candidate { storage_uri },
                },
            },
            MutationView::Touch { storage_uri, now } => match taken {
                Some(info) => SplitView { last_accessed: now, status: info.status },
                None => SplitView {
                    last_accessed: now,
                    status: StatusView::Candidate { storage_uri },
                },
            },
            MutationView::ChangeStatus { status, now } => match taken {
                Some(info) => SplitView { last_accessed: info.last_accessed, status },
                None => SplitView { last_accessed: now, status },
            },
        }
    }
}

/// What `find_download_opportunity` hands out.
pub struct OpportunityView {
    /// The splits evicted, in the order in which they went.
    pub splits_to_delete: Seq<u128>,
    /// The candidate whose download starts.
    pub split_to_download: u128,
}

/// What `try_get_or_open_fd` decides about a split's file.
#[derive(Clone, Copy, Debug, PartialEq, Eq, Structural)]
pub enum FdDecision {
    /// The file is open and remembered; `num_bytes` is the size recorded
    /// when it was opened.
    Cached { num_bytes: u64 },
    /// The split is on disk with `num_bytes` bytes and its file is to be opened.
    Open { num_bytes: u64 },
    /// The split is not on disk.
    Absent,
}

/// The table.
pub struct TableView {
    /// The status index.
    pub splits: Map<u128, SplitView>,
    /// The remembered open files, the most recently used first.
    pub open_files: Seq<OpenFile>,
    /// The limits that the table was made with.
    pub limits: SplitCacheLimits,
}

impl TableView {
    /// The table with no split, as it is before the startup acknowledgment.
    pub open spec fn empty(limits: SplitCacheLimits) -> TableView {
        TableView { splits: Map::empty(), open_files: Seq::empty(), limits }
    }

    /// The table at startup: the files found in the cache directory are on
    /// disk, and dated as the coldest a split can be.
    pub open spec fn started(limits: SplitCacheLimits, existing: Map<u128, u64>) -> TableView {
        TableView {
            splits: Map::new(
                |id: u128| existing.contains_key(id),
                |id: u128|
                    SplitView {
                        last_accessed: 0,
                        status: StatusView::OnDisk { num_bytes: existing[id] },
                    },
            ),
            open_files: Seq::empty(),
            limits,
        }
    }

    /// The queue `q`: the keys of the splits whose status belongs there.
    pub open spec fn queue(self, q: Queue) -> Set<QueueKey> {
        Set::new(
            |k: QueueKey|
                self.splits.contains_key(k.1) && self.splits[k.1].last_accessed == k.0
                    && self.splits[k.1].status.queue() == q,
        )
    }

    /// The candidate queue.
    pub open spec fn candidates(self) -> Set<QueueKey> {
        self.queue(Queue::Candidates)
    }

    /// The downloading queue.
    pub open spec fn downloading(self) -> Set<QueueKey> {
        self.queue(Queue::Downloading)
    }

    /// The on-disk queue.
    pub open spec fn on_disk(self) -> Set<QueueKey> {
        self.queue(Queue::OnDisk)
    }

    /// The bytes held on disk.
    pub open spec fn on_disk_bytes(self) -> nat {
        total_bytes(self.splits)
    }

    /// `id` is known with a status of queue `q`.
    pub open spec fn has_status(self, id: u128, q: Queue) -> bool {
        self.splits.contains_key(id) && self.splits[id].status.queue() == q
    }

    /// `decision` tells the truth about `id`: a size handed out, for a file
    /// remembered or to be opened, is the size of the split on disk, and a
    /// split without a file is not on disk.
    pub open spec fn bears_out(self, id: u128, decision: FdDecision) -> bool {
        match decision {
            FdDecision::Cached { num_bytes } => self.holds_file((id, num_bytes)),
            FdDecision::Open { num_bytes } => self.holds_file((id, num_bytes)),
            FdDecision::Absent => !self.has_status(id, Queue::OnDisk),
        }
    }

    /// The bytes that `id` holds on disk: none where it is unknown.
    pub open spec fn held_by(self, id: u128) -> nat {
        if self.splits.contains_key(id) {
            self.splits[id].status.disk_bytes()
        } else {
            0
        }
    }

    /// `file` is the file of a split on disk, remembered with the split's size.
    pub open spec fn holds_file(self, file: OpenFile) -> bool {
        self.splits.contains_key(file.0) && self.splits[file.0].status == (StatusView::OnDisk {
            num_bytes: file.1,
        })
    }

    /// The cache holds more than its limits allow. An empty disk is within
    /// limits whatever is in download.
    pub open spec fn is_out_of_limits(self) -> bool {
        &&& !self.on_disk().is_empty()
        &&& {
            ||| self.on_disk().len() + self.downloading().len() > self.limits.max_num_splits
            ||| self.on_disk_bytes() > self.limits.max_num_bytes
        }
    }

    /// What holds of the table between operations.
    pub open spec fn wf(self) -> bool {
        &&& self.splits.dom().finite()
        &&& self.candidates().finite()
        &&& self.downloading().finite()
        &&& self.on_disk().finite()
        &&& self.candidates().len() <= MAX_NUM_CANDIDATES
        &&& self.on_disk_bytes() <= u64::MAX
        &&& self.open_files.len() <= FD_CACHE_CAPACITY
        &&& forall|i: int|
            0 <= i < self.open_files.len() ==> self.holds_file(#[trigger] self.open_files[i])
    }

    /// The least key of queue `q`, where it has one.
    pub open spec fn coldest(self, q: Queue) -> QueueKey {
        choose|k: QueueKey| is_min_of(k, self.queue(q))
    }

    /// The greatest key of queue `q`, where it has one.
    pub open spec fn warmest(self, q: Queue) -> QueueKey {
        choose|k: QueueKey| is_max_of(k, self.queue(q))
    }

    // ----- the two primitives -----

    /// The table without `id`: gone from the index, and its open file forgotten.
    pub open spec fn without(self, id: u128) -> TableView {
        TableView {
            splits: self.splits.remove(id),
            open_files: drop_key(self.open_files, id),
            ..self
        }
    }

    /// What removing `id` hands back: the split's record, unless the split is
    /// unknown or is a download found abandoned.
    pub open spec fn taken(self, id: u128, dead: Set<u128>) -> Option<SplitView> {
        if !self.splits.contains_key(id) {
            None
        } else if self.splits[id].status is Downloading && dead.contains(id) {
            None
        } else {
            Some(self.splits[id])
        }
    }

    /// The downloads of `dead` that the table lists.
    pub open spec fn abandoned(self, dead: Set<u128>) -> Set<u128> {
        Set::new(|id: u128| dead.contains(id) && self.has_status(id, Queue::Downloading))
    }

    /// The table after the collection of abandoned downloads that precedes
    /// the insertion of a split of status `incoming`: where the downloading
    /// queue, the newcomer counted, exceeds the configured number of
    /// concurrent downloads by more than the margin, the abandoned downloads go.
    pub open spec fn collected(self, incoming: StatusView, dead: Set<u128>) -> TableView {
        let newcomers: nat = if incoming is Downloading {
            1
        } else {
            0
        };
        if self.downloading().len() + newcomers > self.limits.num_concurrent_downloads
            + DOWNLOADING_GC_MARGIN {
            TableView { splits: self.splits.remove_keys(self.abandoned(dead)), ..self }
        } else {
            self
        }
    }

    /// Whether a candidate with key `incoming` may enter: not when the
    /// candidate queue is full and the newcomer is colder than all of it.
    pub open spec fn admits(self, incoming: QueueKey) -> bool {
        self.candidates().len() < MAX_NUM_CANDIDATES || !key_lt(
            incoming,
            self.coldest(Queue::Candidates),
        )
    }

    /// The table after room is made for a candidate with key `incoming`: the
    /// coldest candidate of a full queue goes, if the newcomer may enter.
    pub open spec fn truncated(self, incoming: QueueKey) -> TableView {
        if self.candidates().len() >= MAX_NUM_CANDIDATES && self.admits(incoming) {
            self.dropped(self.coldest(Queue::Candidates).1)
        } else {
            self
        }
    }

    /// The table after `id`, unknown so far, is entered with `info`. A
    /// candidate that would be the coldest of more than `MAX_NUM_CANDIDATES`
    /// is not entered; otherwise a candidate entering a full queue displaces
    /// the coldest one.
    pub open spec fn admitted(self, id: u128, info: SplitView) -> TableView {
        let incoming: QueueKey = (info.last_accessed, id);
        if !(info.status is Candidate) {
            TableView { splits: self.splits.insert(id, info), ..self }
        } else if self.admits(incoming) {
            TableView { splits: self.truncated(incoming).splits.insert(id, info), ..self }
        } else {
            self
        }
    }

    /// The insertion of a split: collection of abandoned downloads, then admission.
    pub open spec fn with(self, id: u128, info: SplitView, dead: Set<u128>) -> TableView {
        self.collected(info.status, dead).admitted(id, info)
    }

    /// Every mutation of one split: the split is taken out, `info` is
    /// inserted in its place.
    pub open spec fn mutated(self, id: u128, info: SplitView, dead: Set<u128>) -> TableView {
        self.without(id).with(id, info, dead)
    }

    /// The table after `mutation` is applied to `id`.
    pub open spec fn mutate(self, id: u128, mutation: MutationView, dead: Set<u128>) -> TableView {
        self.mutated(id, mutation.made(self.taken(id, dead)), dead)
    }

    // ----- the operations -----

    /// `report`: a split not known becomes a candidate dated before `now`; a
    /// known one keeps its record.
    pub open spec fn report(self, id: u128, storage_uri: Seq<char>, now: u64, dead: Set<u128>)
        -> TableView {
        self.mutate(id, MutationView::Report { storage_uri, now }, dead)
    }

    /// `touch`: the split is dated `now`; one not known becomes a candidate.
    pub open spec fn touch(self, id: u128, storage_uri: Seq<char>, now: u64, dead: Set<u128>)
        -> TableView {
        self.mutate(id, MutationView::Touch { storage_uri, now }, dead)
    }

    /// The status that `touch` returns: the one the split has once touched.
    pub open spec fn touched_status(
        self,
        id: u128,
        storage_uri: Seq<char>,
        now: u64,
        dead: Set<u128>,
    ) -> StatusView {
        (MutationView::Touch { storage_uri, now }).made(self.taken(id, dead)).status
    }

    /// `register_as_downloaded`: the split is on disk with `num_bytes`,
    /// whatever it was; one not known is dated `now`.
    pub open spec fn register_as_downloaded(
        self,
        id: u128,
        num_bytes: u64,
        now: u64,
        dead: Set<u128>,
    ) -> TableView {
        self.mutate(
            id,
            MutationView::ChangeStatus { status: StatusView::OnDisk { num_bytes }, now },
            dead,
        )
    }

    /// `start_download` on a candidate: it moves to the downloading queue
    /// under the date it had.
    pub open spec fn start_download(self, id: u128, dead: Set<u128>) -> TableView {
        if self.has_status(id, Queue::Candidates) {
            self.mutated(
                id,
                SplitView {
                    last_accessed: self.splits[id].last_accessed,
                    status: StatusView::Downloading,
                },
                dead,
            )
        } else {
            self
        }
    }

    /// Whether the coldest on-disk split may go for a candidate last accessed
    /// at `bound`: not when it is the warmer of the two.
    pub open spec fn may_evict(self, bound: Option<u64>) -> bool {
        let coldest = self.coldest(Queue::OnDisk);
        &&& self.on_disk().contains(coldest)
        &&& match bound {
            Some(date) => coldest.0 <= date,
            None => true,
        }
    }

    /// The table with `id` gone from the index and nothing else changed.
    pub open spec fn dropped(self, id: u128) -> TableView {
        TableView { splits: self.splits.remove(id), ..self }
    }

    /// The ids that `make_room_for_split_if_necessary` takes off the disk,
    /// in the order in which they go: the coldest first, for as long as the
    /// cache is out of limits and the coldest may go.
    pub open spec fn evictions(self, bound: Option<u64>) -> Seq<u128>
        decreases self.splits.dom().len(),
    {
        if self.splits.dom().finite() && self.is_out_of_limits() && self.may_evict(bound) {
            let coldest = self.coldest(Queue::OnDisk);
            seq![coldest.1] + self.dropped(coldest.1).evictions(bound)
        } else {
            Seq::empty()
        }
    }

    /// The table once the `evictions` have left the index.
    pub open spec fn evicted(self, bound: Option<u64>) -> TableView
        decreases self.splits.dom().len(),
    {
        if self.splits.dom().finite() && self.is_out_of_limits() && self.may_evict(bound) {
            self.dropped(self.coldest(Queue::OnDisk).1).evicted(bound)
        } else {
            self
        }
    }

    /// Whether room can be made: the evictions bring the cache within limits.
    pub open spec fn can_make_room(self, bound: Option<u64>) -> bool {
        !self.evicted(bound).is_out_of_limits()
    }

    /// `make_room_for_split_if_necessary`: where the evictions bring the
    /// cache within limits they are made, and the open files of the evicted
    /// splits are forgotten; where they do not, nothing changes.
    pub open spec fn make_room(self, bound: Option<u64>) -> TableView {
        if self.can_make_room(bound) {
            TableView {
                open_files: drop_keys(self.open_files, self.evictions(bound)),
                ..self.evicted(bound)
            }
        } else {
            self
        }
    }

    /// Whether `find_download_opportunity` finds one: there is a candidate,
    /// and room can be made for the warmest without evicting a warmer split.
    pub open spec fn has_opportunity(self) -> bool {
        &&& !self.candidates().is_empty()
        &&& self.can_make_room(Some(self.warmest(Queue::Candidates).0))
    }

    /// The opportunity that `find_download_opportunity` finds.
    pub open spec fn opportunity(self) -> OpportunityView {
        let best = self.warmest(Queue::Candidates);
        OpportunityView {
            splits_to_delete: self.evictions(Some(best.0)),
            split_to_download: best.1,
        }
    }

    /// `find_download_opportunity`: room is made for the warmest candidate,
    /// whose download starts; without an opportunity nothing changes.
    pub open spec fn find_download_opportunity(self, dead: Set<u128>) -> TableView {
        if self.has_opportunity() {
            let best = self.warmest(Queue::Candidates);
            self.make_room(Some(best.0)).start_download(best.1, dead)
        } else {
            self
        }
    }

    /// What `try_get_or_open_fd` decides: a remembered file is used again; a
    /// split on disk is to be opened; any other split has no file.
    pub open spec fn fd_decision(self, id: u128, storage_uri: Seq<char>, now: u64, dead: Set<u128>)
        -> FdDecision {
        match value_of(self.open_files, id) {
            Some(num_bytes) => FdDecision::Cached { num_bytes },
            None => match self.touched_status(id, storage_uri, now, dead).size_on_disk() {
                Some(num_bytes) => FdDecision::Open { num_bytes },
                None => FdDecision::Absent,
            },
        }
    }

    /// `try_get_or_open_fd`: a hit refreshes the file's place among the
    /// remembered files; a miss touches the split.
    pub open spec fn try_get_or_open_fd(
        self,
        id: u128,
        storage_uri: Seq<char>,
        now: u64,
        dead: Set<u128>,
    ) -> TableView {
        if has_key(self.open_files, id) {
            TableView { open_files: promoted(self.open_files, id), ..self }
        } else {
            self.touch(id, storage_uri, now, dead)
        }
    }

    /// `fd_opened`: the file opened for a split that is on disk with
    /// `num_bytes` bytes is remembered.
    pub open spec fn fd_opened(self, id: u128, num_bytes: u64) -> TableView {
        if self.holds_file((id, num_bytes)) {
            TableView {
                open_files: stored(self.open_files, FD_CACHE_CAPACITY as nat, id, num_bytes),
                ..self
            }
        } else {
            self
        }
    }

    /// `fd_open_failed`: a split listed on disk whose file cannot be opened
    /// leaves the table.
    pub open spec fn fd_open_failed(self, id: u128) -> TableView {
        if self.has_status(id, Queue::OnDisk) {
            self.without(id)
        } else {
            self
        }
    }
}

} // verus!
