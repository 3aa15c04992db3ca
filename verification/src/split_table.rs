//! The split table: the status index, the three queues and the cache of open
//! files, with the operations that keep them in step.

use crate::clock::backdate;
use crate::clock::backdated_origin;
use crate::clock::compute_timestamp;
use crate::clock::LastAccessDate;
use crate::fd_cache::drop_keys;
use crate::fd_cache::lemma_drop_keys;
use crate::fd_cache::has_key;
use crate::fd_cache::lru_entries;
use crate::fd_cache::lru_get;
use crate::fd_cache::lru_limit;
use crate::fd_cache::lru_contains;
use crate::fd_cache::lru_new;
use crate::fd_cache::lru_pop;
use crate::fd_cache::lru_put;
use crate::fd_cache::OpenFile;
use crate::fd_cache::FD_CACHE_CAPACITY;
use crate::liveness::is_abandoned;
use crate::liveness::is_listed;
use crate::liveness::share_token;
use crate::model::FdDecision;
use crate::model::MutationView;
use crate::model::Queue;
use crate::model::SplitCacheLimits;
use crate::model::StatusView;
use crate::model::TableView;
use crate::model::DOWNLOADING_GC_MARGIN;
use crate::model::MAX_NUM_CANDIDATES;
use crate::model_lemmas::lemma_drop_candidate;
use crate::model_lemmas::lemma_drop_download;
use crate::model_lemmas::lemma_drop_on_disk;
use crate::model_lemmas::lemma_total_bytes_submap;
use crate::model_lemmas::lemma_insert_wf;
use crate::model_lemmas::lemma_promoted_wf;
use crate::model_lemmas::lemma_stored_wf;
use crate::model_lemmas::lemma_queue_insert;
use crate::model_lemmas::lemma_queue_remove;
use crate::model_lemmas::lemma_total_bytes_insert;
use crate::model_lemmas::lemma_total_bytes_remove;
use crate::model_lemmas::lemma_without_wf;
use crate::queue::key_less;
use crate::queue::lemma_max_unique;
use crate::queue::lemma_min_unique;
use crate::queue::first_key;
use crate::queue::is_max_of;
use crate::queue::last_key;
use crate::queue::QueueKey;
use crate::status::CandidateSplit;
use crate::status::DownloadOpportunity;
use crate::status::Mutation;
use crate::status::SplitInfo;
use crate::status::SplitKey;
use crate::status::Status;
use lru::LruCache;
use std::collections::BTreeMap;
use std::collections::BTreeSet;
use std::collections::HashMap;
use std::sync::Arc;
use std::time::Instant;
use vstd::prelude::*;
use vstd::std_specs::iter::IteratorSpec;

verus! {

/// The split table keeps track of the splits a searcher knows about, whether
/// they have been downloaded or not.
pub struct SplitTable {
    on_disk_splits: BTreeSet<QueueKey>,
    downloading_splits: BTreeSet<QueueKey>,
    candidate_splits: BTreeSet<QueueKey>,
    split_to_status: HashMap<u128, SplitInfo>,
    origin_time: Instant,
    limits: SplitCacheLimits,
    on_disk_bytes: u64,
    fd_cache: LruCache<u128, u64>,
}

impl View for SplitTable {
    type V = TableView;

    closed spec fn view(&self) -> TableView {
        TableView {
            splits: Map::new(
                |id: u128| self.split_to_status@.contains_key(id),
                |id: u128| self.split_to_status@[id]@,
            ),
            open_files: lru_entries(self.fd_cache),
            limits: self.limits,
        }
    }
}

impl SplitTable {
    /// What the candidate queue holds.
    pub closed spec fn candidate_queue(&self) -> Set<QueueKey> {
        self.candidate_splits@
    }

    /// What the downloading queue holds.
    pub closed spec fn downloading_queue(&self) -> Set<QueueKey> {
        self.downloading_splits@
    }

    /// What the on-disk queue holds.
    pub closed spec fn on_disk_queue(&self) -> Set<QueueKey> {
        self.on_disk_splits@
    }

    /// The running count of the bytes on disk.
    pub closed spec fn byte_counter(&self) -> u64 {
        self.on_disk_bytes
    }

    /// The instant from which the table counts its timestamps.
    pub closed spec fn origin(&self) -> Instant {
        self.origin_time
    }

    /// Each record is filed under the id that it names, and the cache of open
    /// files was made for `FD_CACHE_CAPACITY` entries.
    pub closed spec fn records_filed(&self) -> bool {
        &&& forall|id: u128| #[trigger]
            self.split_to_status@.contains_key(id) ==> self.split_to_status@[id].filed()
                && self.split_to_status@[id].split_key.split_ulid == id
        &&& lru_limit(self.fd_cache) == FD_CACHE_CAPACITY
    }

    /// The queues and the counter say what the index says: each queue holds
    /// the keys of the splits of its status, and the counter is the sum of
    /// the on-disk sizes.
    pub open spec fn consistent(&self) -> bool {
        &&& self.records_filed()
        &&& self@.splits.dom().finite()
        &&& self.candidate_queue().finite()
        &&& self.downloading_queue().finite()
        &&& self.on_disk_queue().finite()
        &&& self.candidate_queue() == self@.candidates()
        &&& self.downloading_queue() == self@.downloading()
        &&& self.on_disk_queue() == self@.on_disk()
        &&& self.byte_counter() == self@.on_disk_bytes()
    }

    /// The table's invariant.
    pub open spec fn wf(&self) -> bool {
        &&& self.consistent()
        &&& self@.wf()
    }

    /// Takes `id` out of the index and out of its queue.
    fn detach(&mut self, id: u128) -> (taken: Option<SplitInfo>)
        requires
            old(self).consistent(),
        ensures
            final(self).consistent(),
            final(self)@ == (TableView { splits: old(self)@.splits.remove(id), ..old(self)@ }),
            final(self).origin() == old(self).origin(),
            match taken {
                Some(info) => old(self)@.splits.contains_key(id) && info@ == old(self)@.splits[id]
                    && info.split_key.split_ulid == id && info.filed(),
                None => !old(self)@.splits.contains_key(id),
            },
    {
        broadcast use vstd::std_specs::hash::group_hash_axioms;

        let ghost before = self@;
        let taken = self.split_to_status.remove(&id);
        assert(self@.splits =~= before.splits.remove(id));
        match taken {
            None => {
                assert(self@.splits =~= before.splits);
                None
            },
            Some(info) => {
                let key = info.split_key.queue_key();
                proof {
                    lemma_queue_remove(before, id, Queue::Candidates);
                    lemma_queue_remove(before, id, Queue::Downloading);
                    lemma_queue_remove(before, id, Queue::OnDisk);
                    lemma_total_bytes_remove(before.splits, id);
                }
                match info.status {
                    Status::Candidate(_) => {
                        self.candidate_splits.remove(&key);
                    },
                    Status::Downloading { .. } => {
                        self.downloading_splits.remove(&key);
                    },
                    Status::OnDisk { num_bytes } => {
                        self.on_disk_bytes = self.on_disk_bytes - num_bytes;
                        self.on_disk_splits.remove(&key);
                    },
                }
                Some(info)
            },
        }
    }

    /// Enters a record for a split that the index does not hold.
    fn attach(&mut self, info: SplitInfo)
        requires
            old(self).consistent(),
            info.filed(),
            !old(self)@.splits.contains_key(info.split_key.split_ulid),
            old(self)@.on_disk_bytes() + info@.status.disk_bytes() <= u64::MAX,
        ensures
            final(self).consistent(),
            final(self)@ == (TableView {
                splits: old(self)@.splits.insert(info.split_key.split_ulid, info@),
                ..old(self)@
            }),
            final(self).origin() == old(self).origin(),
    {
        broadcast use vstd::std_specs::hash::group_hash_axioms;

        let ghost before = self@;
        let ghost id = info.split_key.split_ulid;
        let ghost view = info@;
        let key = info.split_key.queue_key();
        proof {
            lemma_queue_insert(before, id, view, Queue::Candidates);
            lemma_queue_insert(before, id, view, Queue::Downloading);
            lemma_queue_insert(before, id, view, Queue::OnDisk);
            lemma_total_bytes_insert(before.splits, id, view);
        }
        match &info.status {
            Status::Candidate(_) => {
                self.candidate_splits.insert(key);
            },
            Status::Downloading { .. } => {
                self.downloading_splits.insert(key);
            },
            Status::OnDisk { num_bytes } => {
                self.on_disk_bytes = self.on_disk_bytes + *num_bytes;
                self.on_disk_splits.insert(key);
            },
        }
        self.split_to_status.insert(info.split_key.split_ulid, info);
        assert(self@.splits =~= before.splits.insert(id, view));
    }

    /// Takes `id` out of the table: out of the index and its queue, and out
    /// of the cache of open files. Hands back the record, unless the split was
    /// not known or is a download that `abandoned` lists.
    pub fn remove(&mut self, id: u128, abandoned: &Vec<u128>) -> (taken: Option<SplitInfo>)
        requires
            old(self).wf(),
        ensures
            final(self).wf(),
            final(self)@ == old(self)@.without(id),
            final(self).origin() == old(self).origin(),
            match taken {
                Some(info) => old(self)@.taken(id, abandoned@.to_set()) == Some(info@)
                    && info.split_key.split_ulid == id && info.filed(),
                None => old(self)@.taken(id, abandoned@.to_set()) is None,
            },
            final(self)@.on_disk_bytes() == old(self)@.on_disk_bytes() - old(self)@.held_by(id),
    {
        proof {
            lemma_without_wf(self@, id);
        }
        lru_pop(&mut self.fd_cache, id);
        match self.detach(id) {
            Some(info) => {
                if let Status::Downloading { .. } = &info.status {
                    if is_listed(abandoned, id) {
                        return None;
                    }
                }
                Some(info)
            },
            None => None,
        }
    }

    /// The downloads found abandoned that an operation on `split_ulid` can
    /// meet: the split itself where it is a download, and every download
    /// where one more would take the downloading queue past its margin. Which
    /// downloads are abandoned lies with the holders of their tokens; those
    /// listed are downloads of the table.
    pub fn observe_abandoned(&self, split_ulid: u128) -> (abandoned: Vec<u128>)
        requires
            self.wf(),
        ensures
            forall|i: int|
                0 <= i < abandoned.len() ==> self@.has_status(
                    #[trigger] abandoned[i],
                    Queue::Downloading,
                ),
    {
        broadcast use vstd::std_specs::hash::group_hash_axioms;

        let mut abandoned: Vec<u128> = Vec::new();
        let num_downloading: usize = self.downloading_splits.len();
        if num_downloading as u128 + 1 > self.limits.num_concurrent_downloads as u128
            + DOWNLOADING_GC_MARGIN as u128 {
            for key in it: self.downloading_splits.iter()
                invariant
                    forall|i: int|
                        0 <= i < abandoned.len() ==> self@.has_status(
                            #[trigger] abandoned[i],
                            Queue::Downloading,
                        ),
            {
                if let Some(info) = self.split_to_status.get(&key.1) {
                    if let Status::Downloading { alive_token } = &info.status {
                        if is_abandoned(alive_token) {
                            abandoned.push(key.1);
                        }
                    }
                }
            }
        } else if let Some(info) = self.split_to_status.get(&split_ulid) {
            if let Status::Downloading { alive_token } = &info.status {
                if is_abandoned(alive_token) {
                    abandoned.push(split_ulid);
                }
            }
        }
        abandoned
    }

    /// Drops the downloads that `abandoned` lists before a split of status
    /// `incoming` is inserted, where the downloading queue, the newcomer
    /// counted, has outgrown the configured number of concurrent downloads by
    /// more than the margin.
    fn gc_downloading_splits_if_necessary(&mut self, incoming: &Status, abandoned: &Vec<u128>)
        requires
            old(self).wf(),
        ensures
            final(self).wf(),
            final(self)@ == old(self)@.collected(incoming@, abandoned@.to_set()),
            final(self)@.on_disk_bytes() == old(self)@.on_disk_bytes(),
            final(self)@.candidates() == old(self)@.candidates(),
            final(self).origin() == old(self).origin(),
            forall|id: u128| #[trigger]
                final(self)@.splits.contains_key(id) ==> old(self)@.splits.contains_key(id),
    {
        broadcast use vstd::std_specs::hash::group_hash_axioms;

        let newcomers: u128 = match incoming {
            Status::Downloading { .. } => 1,
            _ => 0,
        };
        let num_downloading: usize = self.downloading_splits.len();
        if num_downloading as u128 + newcomers <= self.limits.num_concurrent_downloads as u128
            + DOWNLOADING_GC_MARGIN as u128 {
            return ;
        }
        let ghost before = self@;
        let ghost mut removed: Set<u128> = Set::empty();
        assert(before.splits.remove_keys(removed) =~= before.splits);
        let mut i: usize = 0;
        while i < abandoned.len()
            invariant
                0 <= i <= abandoned.len(),
                self.wf(),
                self.origin() == old(self).origin(),
                self@ == (TableView { splits: before.splits.remove_keys(removed), ..before }),
                self@.on_disk_bytes() == before.on_disk_bytes(),
                self@.candidates() == before.candidates(),
                forall|id: u128|
                    removed.contains(id) <==> before.has_status(id, Queue::Downloading)
                        && exists|j: int| 0 <= j < i && #[trigger] abandoned[j] == id,
            decreases abandoned.len() - i,
        {
            let id = abandoned[i];
            let ghost current = self@;
            let ghost removed_before = removed;
            let is_download = match self.split_to_status.get(&id) {
                Some(info) => match &info.status {
                    Status::Downloading { .. } => true,
                    _ => false,
                },
                None => false,
            };
            if is_download {
                proof {
                    lemma_drop_download(current, id);
                    assert(current.splits.remove(id) =~= before.splits.remove_keys(
                        removed.insert(id),
                    ));
                    removed = removed.insert(id);
                }
                self.detach(id);
            }
            proof {
                assert forall|other: u128|
                    removed.contains(other) <==> before.has_status(other, Queue::Downloading)
                        && exists|j: int| 0 <= j < i + 1 && #[trigger] abandoned[j] == other by {
                    if removed_before.contains(other) {
                        let j = choose|j: int| 0 <= j < i && #[trigger] abandoned[j] == other;
                        assert(0 <= j < i + 1 && abandoned[j] == other);
                    }
                    if other == id && before.has_status(id, Queue::Downloading) {
                        assert(abandoned[i as int] == id);
                        if !is_download {
                            assert(!current.splits.contains_key(id));
                            assert(removed_before.contains(id));
                        }
                    }
                    if before.has_status(other, Queue::Downloading) && exists|j: int|
                        0 <= j < i + 1 && #[trigger] abandoned[j] == other {
                        let j = choose|j: int| 0 <= j < i + 1 && #[trigger] abandoned[j] == other;
                        if j < i {
                            assert(removed_before.contains(other));
                        }
                    }
                }
            }
            i = i + 1;
        }
        proof {
            assert forall|id: u128| removed.contains(id) <==> before.abandoned(
                abandoned@.to_set(),
            ).contains(id) by {
                if abandoned@.contains(id) {
                    let j = choose|j: int| 0 <= j < abandoned@.len() && abandoned@[j] == id;
                    assert(abandoned[j] == id);
                }
                if removed.contains(id) {
                    let j = choose|j: int| 0 <= j < i && #[trigger] abandoned[j] == id;
                    assert(abandoned@[j] == id);
                }
            }
            assert(removed =~= before.abandoned(abandoned@.to_set()));
        }
    }

    /// Makes sure that the candidate queue has room for a candidate with key
    /// `incoming`, which the table does not hold: from a full queue the coldest
    /// candidate goes, unless the newcomer is colder still. Returns whether the
    /// newcomer may enter.
    pub fn truncate_candidate_list(&mut self, incoming: QueueKey) -> (admitted: bool)
        requires
            old(self).wf(),
            !old(self)@.splits.contains_key(incoming.1),
        ensures
            final(self).wf(),
            final(self).origin() == old(self).origin(),
            admitted == old(self)@.admits(incoming),
            final(self)@ == old(self)@.truncated(incoming),
            final(self)@.on_disk_bytes() == old(self)@.on_disk_bytes(),
            admitted ==> final(self)@.candidates().len() < MAX_NUM_CANDIDATES,
            !final(self)@.splits.contains_key(incoming.1),
    {
        if self.candidate_splits.len() < MAX_NUM_CANDIDATES {
            return true;
        }
        match first_key(&self.candidate_splits) {
            Some(worst_candidate) => {
                proof {
                    lemma_min_unique(
                        worst_candidate,
                        self@.coldest(Queue::Candidates),
                        self@.candidates(),
                    );
                    lemma_drop_candidate(self@, worst_candidate.1);
                }
                if key_less(incoming, worst_candidate) {
                    return false;
                }
                self.detach(worst_candidate.1);
                true
            },
            None => {
                assert(self.candidate_splits@ =~= Set::empty());
                true
            },
        }
    }

    /// Inserts the record of a split that the table does not hold: the
    /// downloads that `abandoned` lists are collected first; a candidate then
    /// enters only if the candidate queue has room for it. The table must not
    /// hold the split, and the bytes on disk must leave room for its size.
    pub fn insert(&mut self, info: SplitInfo, abandoned: &Vec<u128>)
        requires
            old(self).wf(),
            info.filed(),
            !old(self)@.splits.contains_key(info.split_key.split_ulid),
            old(self)@.on_disk_bytes() + info@.status.disk_bytes() <= u64::MAX,
        ensures
            final(self).wf(),
            final(self)@ == old(self)@.with(info.split_key.split_ulid, info@, abandoned@.to_set()),
            final(self).origin() == old(self).origin(),
            !(info.status is Candidate) || old(self)@.candidates().len() < MAX_NUM_CANDIDATES
                ==> final(self)@.splits.contains_key(info.split_key.split_ulid),
            final(self)@.splits.contains_key(info.split_key.split_ulid) ==> {
                &&& final(self)@.splits[info.split_key.split_ulid] == info@
                &&& final(self)@.on_disk_bytes() == old(self)@.on_disk_bytes()
                    + info@.status.disk_bytes()
            },
    {
        proof {
            crate::laws::lemma_with(
                self@,
                info.split_key.split_ulid,
                info@,
                abandoned@.to_set(),
            );
        }
        self.gc_downloading_splits_if_necessary(&info.status, abandoned);
        if let Status::Candidate(_) = &info.status {
            if !self.truncate_candidate_list(info.split_key.queue_key()) {
                return ;
            }
        }
        proof {
            lemma_insert_wf(self@, info.split_key.split_ulid, info@);
        }
        self.attach(info);
    }

    /// Mutates the record of one split. The split is taken out of the table,
    /// the mutation makes a record of what was taken, and that record is
    /// inserted; so the queues follow the index whatever the mutation. The
    /// downloads that `abandoned` lists count as abandoned. Returns the status
    /// of the record that was made.
    pub fn mutate_split(&mut self, id: u128, mutation: Mutation, abandoned: &Vec<u128>) -> (status:
        Status)
        requires
            old(self).wf(),
            mutation matches Mutation::ChangeStatus { status, .. } ==> {
                &&& old(self)@.without(id).on_disk_bytes() + status@.disk_bytes() <= u64::MAX
                &&& status matches Status::Candidate(candidate) ==> candidate.split_ulid == id
            },
        ensures
            final(self).wf(),
            final(self).origin() == old(self).origin(),
            status matches Status::Candidate(candidate) ==> candidate.split_ulid == id,
            final(self)@ == old(self)@.mutate(id, mutation@, abandoned@.to_set()),
            status@ == mutation@.made(old(self)@.taken(id, abandoned@.to_set())).status,
    {
        let ghost before = self@;
        proof {
            lemma_without_wf(before, id);
        }
        let taken = self.remove(id, abandoned);
        let new_split = match mutation {
            Mutation::Report { storage_uri, now } => match taken {
                Some(split_info) => split_info,
                None => SplitInfo {
                    split_key: SplitKey { last_accessed: backdate(now), split_ulid: id },
                    status: Status::Candidate(
                        CandidateSplit {
                            storage_uri,
                            split_ulid: id,
                            living_token: Arc::new(()),
                        },
                    ),
                },
            },
            Mutation::Touch { storage_uri, now } => match taken {
                Some(split_info) => SplitInfo {
                    split_key: SplitKey { last_accessed: now, split_ulid: id },
                    status: split_info.status,
                },
                None => SplitInfo {
                    split_key: SplitKey { last_accessed: now, split_ulid: id },
                    status: Status::Candidate(
                        CandidateSplit {
                            storage_uri,
                            split_ulid: id,
                            living_token: Arc::new(()),
                        },
                    ),
                },
            },
            Mutation::ChangeStatus { status, now } => match taken {
                Some(split_info) => SplitInfo { split_key: split_info.split_key, status },
                None => SplitInfo {
                    split_key: SplitKey { last_accessed: now, split_ulid: id },
                    status,
                },
            },
        };
        let new_status = new_split.status.clone();
        self.insert(new_split, abandoned);
        new_status
    }

    /// Announces a split at time `now`, with the downloads that `abandoned`
    /// lists counted as abandoned. A split that the table does not know
    /// becomes a candidate, dated the newly-reported offset before `now`; a
    /// split that it knows is left with its record.
    pub fn report_with(
        &mut self,
        split_ulid: u128,
        storage_uri: String,
        now: LastAccessDate,
        abandoned: &Vec<u128>,
    )
        requires
            old(self).wf(),
        ensures
            final(self).wf(),
            final(self).origin() == old(self).origin(),
            final(self)@ == old(self)@.report(split_ulid, storage_uri@, now, abandoned@.to_set()),
    {
        let _ = self.mutate_split(split_ulid, Mutation::Report { storage_uri, now }, abandoned);
    }

    /// Announces a split at time `now`; the downloads found abandoned count
    /// as such.
    pub fn report_at(&mut self, split_ulid: u128, storage_uri: String, now: LastAccessDate)
        requires
            old(self).wf(),
        ensures
            final(self).wf(),
            final(self).origin() == old(self).origin(),
            exists|dead: Set<u128>|
                #![trigger old(self)@.report(split_ulid, storage_uri@, now, dead)]
                final(self)@ == old(self)@.report(split_ulid, storage_uri@, now, dead),
    {
        let abandoned = self.observe_abandoned(split_ulid);
        let ghost uri = storage_uri@;
        self.report_with(split_ulid, storage_uri, now, &abandoned);
        assert(self@ == old(self)@.report(split_ulid, uri, now, abandoned@.to_set()));
    }

    /// Announces a split, at the time the table's clock shows.
    pub fn report(&mut self, split_ulid: u128, storage_uri: String)
        requires
            old(self).wf(),
        ensures
            final(self).wf(),
            final(self).origin() == old(self).origin(),
            exists|now: u64, dead: Set<u128>|
                #![trigger old(self)@.report(split_ulid, storage_uri@, now, dead)]
                final(self)@ == old(self)@.report(split_ulid, storage_uri@, now, dead),
    {
        let now = compute_timestamp(self.origin_time);
        let abandoned = self.observe_abandoned(split_ulid);
        let ghost uri = storage_uri@;
        self.report_with(split_ulid, storage_uri, now, &abandoned);
        assert(self@ == old(self)@.report(split_ulid, uri, now, abandoned@.to_set()));
    }

    /// Records an access to a split at time `now`, with the downloads that
    /// `abandoned` lists counted as abandoned: the split is dated `now`, and
    /// becomes a candidate where the table did not know it. Returns the status
    /// that the split has after that.
    pub fn touch_with(
        &mut self,
        split_ulid: u128,
        storage_uri: &String,
        now: LastAccessDate,
        abandoned: &Vec<u128>,
    ) -> (status: Status)
        requires
            old(self).wf(),
        ensures
            final(self).wf(),
            final(self).origin() == old(self).origin(),
            status matches Status::Candidate(candidate) ==> candidate.split_ulid == split_ulid,
            final(self)@ == old(self)@.touch(split_ulid, storage_uri@, now, abandoned@.to_set()),
            status@ == old(self)@.touched_status(
                split_ulid,
                storage_uri@,
                now,
                abandoned@.to_set(),
            ),
    {
        self.mutate_split(
            split_ulid,
            Mutation::Touch { storage_uri: storage_uri.clone(), now },
            abandoned,
        )
    }

    /// Records an access to a split at time `now`; the downloads found
    /// abandoned count as such.
    pub fn touch_at(&mut self, split_ulid: u128, storage_uri: &String, now: LastAccessDate) -> (status:
        Status)
        requires
            old(self).wf(),
        ensures
            final(self).wf(),
            final(self).origin() == old(self).origin(),
            status matches Status::Candidate(candidate) ==> candidate.split_ulid == split_ulid,
            exists|dead: Set<u128>|
                #![trigger old(self)@.touch(split_ulid, storage_uri@, now, dead)]
                {
                    &&& final(self)@ == old(self)@.touch(split_ulid, storage_uri@, now, dead)
                    &&& status@ == old(self)@.touched_status(split_ulid, storage_uri@, now, dead)
                },
    {
        let abandoned = self.observe_abandoned(split_ulid);
        let status = self.touch_with(split_ulid, storage_uri, now, &abandoned);
        assert(self@ == old(self)@.touch(split_ulid, storage_uri@, now, abandoned@.to_set()));
        status
    }

    /// Records an access to a split, at the time the table's clock shows.
    pub fn touch(&mut self, split_ulid: u128, storage_uri: &String) -> (status: Status)
        requires
            old(self).wf(),
        ensures
            final(self).wf(),
            final(self).origin() == old(self).origin(),
            status matches Status::Candidate(candidate) ==> candidate.split_ulid == split_ulid,
            exists|now: u64, dead: Set<u128>|
                #![trigger old(self)@.touch(split_ulid, storage_uri@, now, dead)]
                {
                    &&& final(self)@ == old(self)@.touch(split_ulid, storage_uri@, now, dead)
                    &&& status@ == old(self)@.touched_status(split_ulid, storage_uri@, now, dead)
                },
    {
        let now = compute_timestamp(self.origin_time);
        let abandoned = self.observe_abandoned(split_ulid);
        let status = self.touch_with(split_ulid, storage_uri, now, &abandoned);
        assert(self@ == old(self)@.touch(split_ulid, storage_uri@, now, abandoned@.to_set()));
        status
    }

    /// Whether the split is on disk, and its size if it is, with the
    /// downloads that `abandoned` lists counted as abandoned. The question
    /// counts as an access at time `now`.
    pub fn is_on_disk_with(
        &mut self,
        split_ulid: u128,
        storage_uri: &String,
        now: LastAccessDate,
        abandoned: &Vec<u128>,
    ) -> (size: Option<u64>)
        requires
            old(self).wf(),
        ensures
            final(self).wf(),
            final(self).origin() == old(self).origin(),
            final(self)@ == old(self)@.touch(split_ulid, storage_uri@, now, abandoned@.to_set()),
            size == old(self)@.touched_status(
                split_ulid,
                storage_uri@,
                now,
                abandoned@.to_set(),
            ).size_on_disk(),
    {
        let status = self.touch_with(split_ulid, storage_uri, now, abandoned);
        if let Status::OnDisk { num_bytes } = status {
            Some(num_bytes)
        } else {
            None
        }
    }

    /// Whether the split is on disk, and its size if it is. The question
    /// counts as an access at time `now`; the downloads found abandoned count
    /// as such.
    pub fn is_on_disk_at(&mut self, split_ulid: u128, storage_uri: &String, now: LastAccessDate) -> (size:
        Option<u64>)
        requires
            old(self).wf(),
        ensures
            final(self).wf(),
            final(self).origin() == old(self).origin(),
            exists|dead: Set<u128>|
                #![trigger old(self)@.touch(split_ulid, storage_uri@, now, dead)]
                {
                    &&& final(self)@ == old(self)@.touch(split_ulid, storage_uri@, now, dead)
                    &&& size == old(self)@.touched_status(
                        split_ulid,
                        storage_uri@,
                        now,
                        dead,
                    ).size_on_disk()
                },
    {
        let abandoned = self.observe_abandoned(split_ulid);
        let size = self.is_on_disk_with(split_ulid, storage_uri, now, &abandoned);
        assert(self@ == old(self)@.touch(split_ulid, storage_uri@, now, abandoned@.to_set()));
        size
    }

    /// Whether the split is on disk, and its size if it is. The question
    /// counts as an access at the time the table's clock shows.
    pub fn is_on_disk(&mut self, split_ulid: u128, storage_uri: &String) -> (size: Option<u64>)
        requires
            old(self).wf(),
        ensures
            final(self).wf(),
            final(self).origin() == old(self).origin(),
            exists|now: u64, dead: Set<u128>|
                #![trigger old(self)@.touch(split_ulid, storage_uri@, now, dead)]
                {
                    &&& final(self)@ == old(self)@.touch(split_ulid, storage_uri@, now, dead)
                    &&& size == old(self)@.touched_status(
                        split_ulid,
                        storage_uri@,
                        now,
                        dead,
                    ).size_on_disk()
                },
    {
        let now = compute_timestamp(self.origin_time);
        let abandoned = self.observe_abandoned(split_ulid);
        let size = self.is_on_disk_with(split_ulid, storage_uri, now, &abandoned);
        assert(self@ == old(self)@.touch(split_ulid, storage_uri@, now, abandoned@.to_set()));
        size
    }

    /// Gives the split the status `status`, whatever it had; a split not
    /// known is dated `now`. The downloads that `abandoned` lists count as
    /// abandoned.
    fn change_split_status(
        &mut self,
        split_ulid: u128,
        status: Status,
        now: LastAccessDate,
        abandoned: &Vec<u128>,
    )
        requires
            old(self).wf(),
            old(self)@.without(split_ulid).on_disk_bytes() + status@.disk_bytes() <= u64::MAX,
            status matches Status::Candidate(candidate) ==> candidate.split_ulid == split_ulid,
        ensures
            final(self).wf(),
            final(self).origin() == old(self).origin(),
            final(self)@ == old(self)@.mutate(
                split_ulid,
                MutationView::ChangeStatus { status: status@, now },
                abandoned@.to_set(),
            ),
    {
        let _ = self.mutate_split(split_ulid, Mutation::ChangeStatus { status, now }, abandoned);
    }

    /// Records at time `now` that the split is on disk with `num_bytes`
    /// bytes, whatever its status was, with the downloads that `abandoned`
    /// lists counted as abandoned. The bytes on disk, the split's own set
    /// aside, must leave room for `num_bytes` in a `u64`.
    pub fn register_as_downloaded_with(
        &mut self,
        split_ulid: u128,
        num_bytes: u64,
        now: LastAccessDate,
        abandoned: &Vec<u128>,
    )
        requires
            old(self).wf(),
            old(self)@.without(split_ulid).on_disk_bytes() + num_bytes <= u64::MAX,
        ensures
            final(self).wf(),
            final(self).origin() == old(self).origin(),
            final(self)@ == old(self)@.register_as_downloaded(
                split_ulid,
                num_bytes,
                now,
                abandoned@.to_set(),
            ),
            final(self)@.holds_file((split_ulid, num_bytes)),
            final(self)@.on_disk_bytes() == old(self)@.on_disk_bytes() - old(self)@.held_by(
                split_ulid,
            ) + num_bytes,
    {
        proof {
            crate::laws::lemma_register_as_downloaded_bytes(
                self@,
                split_ulid,
                num_bytes,
                now,
                abandoned@.to_set(),
            );
        }
        self.change_split_status(split_ulid, Status::OnDisk { num_bytes }, now, abandoned);
    }

    /// Records at time `now` that the split is on disk with `num_bytes`
    /// bytes, whatever its status was; the downloads found abandoned count as
    /// such. The bytes on disk, the split's own set aside, must leave room
    /// for `num_bytes` in a `u64`.
    pub fn register_as_downloaded_at(&mut self, split_ulid: u128, num_bytes: u64, now: LastAccessDate)
        requires
            old(self).wf(),
            old(self)@.without(split_ulid).on_disk_bytes() + num_bytes <= u64::MAX,
        ensures
            final(self).wf(),
            final(self).origin() == old(self).origin(),
            exists|dead: Set<u128>|
                #![trigger old(self)@.register_as_downloaded(split_ulid, num_bytes, now, dead)]
                final(self)@ == old(self)@.register_as_downloaded(split_ulid, num_bytes, now, dead),
            final(self)@.holds_file((split_ulid, num_bytes)),
            final(self)@.on_disk_bytes() == old(self)@.on_disk_bytes() - old(self)@.held_by(
                split_ulid,
            ) + num_bytes,
    {
        let abandoned = self.observe_abandoned(split_ulid);
        self.register_as_downloaded_with(split_ulid, num_bytes, now, &abandoned);
        assert(self@ == old(self)@.register_as_downloaded(
            split_ulid,
            num_bytes,
            now,
            abandoned@.to_set(),
        ));
    }

    /// Records that the split is on disk with `num_bytes` bytes, at the time
    /// the table's clock shows.
    pub fn register_as_downloaded(&mut self, split_ulid: u128, num_bytes: u64)
        requires
            old(self).wf(),
            old(self)@.without(split_ulid).on_disk_bytes() + num_bytes <= u64::MAX,
        ensures
            final(self).wf(),
            final(self).origin() == old(self).origin(),
            exists|now: u64, dead: Set<u128>|
                #![trigger old(self)@.register_as_downloaded(split_ulid, num_bytes, now, dead)]
                final(self)@ == old(self)@.register_as_downloaded(split_ulid, num_bytes, now, dead),
            final(self)@.holds_file((split_ulid, num_bytes)),
            final(self)@.on_disk_bytes() == old(self)@.on_disk_bytes() - old(self)@.held_by(
                split_ulid,
            ) + num_bytes,
    {
        let now = compute_timestamp(self.origin_time);
        let abandoned = self.observe_abandoned(split_ulid);
        self.register_as_downloaded_with(split_ulid, num_bytes, now, &abandoned);
        assert(self@ == old(self)@.register_as_downloaded(
            split_ulid,
            num_bytes,
            now,
            abandoned@.to_set(),
        ));
    }

    /// Moves a candidate to the downloading queue and hands out the
    /// candidate, token included, with the downloads that `abandoned` lists
    /// counted as abandoned. A split that is no candidate stays as it is.
    pub fn start_download_with(&mut self, split_ulid: u128, abandoned: &Vec<u128>) -> (candidate:
        Option<CandidateSplit>)
        requires
            old(self).wf(),
        ensures
            final(self).wf(),
            final(self).origin() == old(self).origin(),
            final(self)@ == old(self)@.start_download(split_ulid, abandoned@.to_set()),
            match candidate {
                Some(split) => {
                    &&& old(self)@.has_status(split_ulid, Queue::Candidates)
                    &&& split.split_ulid == split_ulid
                    &&& old(self)@.splits[split_ulid].status == (StatusView::Candidate {
                        storage_uri: split.storage_uri@,
                    })
                },
                None => !old(self)@.has_status(split_ulid, Queue::Candidates),
            },
    {
        broadcast use vstd::std_specs::hash::group_hash_axioms;

        let is_candidate = match self.split_to_status.get(&split_ulid) {
            Some(split_info) => match &split_info.status {
                Status::Candidate(_) => true,
                _ => false,
            },
            None => false,
        };
        if !is_candidate {
            return None;
        }
        proof {
            lemma_without_wf(self@, split_ulid);
        }
        match self.remove(split_ulid, abandoned) {
            Some(SplitInfo { split_key, status: Status::Candidate(candidate_split) }) => {
                let alive_token = share_token(&candidate_split.living_token);
                self.insert(
                    SplitInfo { split_key, status: Status::Downloading { alive_token } },
                    abandoned,
                );
                Some(candidate_split)
            },
            _ => {
                assert(false);
                None
            },
        }
    }

    /// Moves a candidate to the downloading queue and hands out the
    /// candidate, token included. The download itself is up to the caller;
    /// dropping the token abandons it. A split that is no candidate stays as
    /// it is.
    pub fn start_download(&mut self, split_ulid: u128) -> (candidate: Option<CandidateSplit>)
        requires
            old(self).wf(),
        ensures
            final(self).wf(),
            final(self).origin() == old(self).origin(),
            match candidate {
                Some(split) => {
                    &&& old(self)@.has_status(split_ulid, Queue::Candidates)
                    &&& split.split_ulid == split_ulid
                    &&& old(self)@.splits[split_ulid].status == (StatusView::Candidate {
                        storage_uri: split.storage_uri@,
                    })
                    &&& exists|dead: Set<u128>|
                        final(self)@ == #[trigger] old(self)@.start_download(split_ulid, dead)
                },
                None => !old(self)@.has_status(split_ulid, Queue::Candidates) && final(self)@
                    == old(self)@,
            },
    {
        let abandoned = self.observe_abandoned(split_ulid);
        let candidate = self.start_download_with(split_ulid, &abandoned);
        assert(self@ == old(self)@.start_download(split_ulid, abandoned@.to_set()));
        candidate
    }

    /// The candidate to download first: the warmest.
    pub fn best_candidate(&self) -> (best: Option<SplitKey>)
        requires
            self.wf(),
        ensures
            match best {
                Some(key) => is_max_of(key.entry(), self@.candidates()) && key.entry()
                    == self@.warmest(Queue::Candidates),
                None => self@.candidates().is_empty(),
            },
    {
        match last_key(&self.candidate_splits) {
            Some(key) => {
                proof {
                    lemma_max_unique(key, self@.warmest(Queue::Candidates), self@.candidates());
                }
                Some(SplitKey { last_accessed: key.0, split_ulid: key.1 })
            },
            None => {
                assert(self@.candidates() =~= Set::empty());
                None
            },
        }
    }

    /// Whether the cache holds more than its limits allow.
    pub fn is_out_of_limits(&self) -> (out: bool)
        requires
            self.consistent(),
        ensures
            out == self@.is_out_of_limits(),
    {
        if self.on_disk_splits.is_empty() {
            return false;
        }
        let num_on_disk: usize = self.on_disk_splits.len();
        let num_downloading: usize = self.downloading_splits.len();
        if num_on_disk as u128 + num_downloading as u128 > self.limits.max_num_splits as u128 {
            return true;
        }
        self.on_disk_bytes > self.limits.max_num_bytes
    }

    /// The bytes held on disk.
    pub fn num_bytes(&self) -> (bytes: u64)
        requires
            self.wf(),
        ensures
            bytes == self@.on_disk_bytes(),
    {
        self.on_disk_bytes
    }

    /// Evicts on-disk splits, the coldest first, until the cache is within
    /// its limits, and returns the evicted ids in that order; their files are
    /// for the caller to delete. A split accessed after `bound` is never
    /// evicted. Where that leaves the cache out of limits, nothing is evicted
    /// and `None` is returned.
    pub fn make_room_for_split_if_necessary(&mut self, bound: Option<LastAccessDate>) -> (evicted:
        Option<Vec<u128>>)
        requires
            old(self).wf(),
        ensures
            final(self).wf(),
            final(self).origin() == old(self).origin(),
            final(self)@ == old(self)@.make_room(bound),
            final(self)@.candidates() == old(self)@.candidates(),
            final(self)@.splits.submap_of(old(self)@.splits),
            match evicted {
                Some(ids) => old(self)@.can_make_room(bound) && ids@ == old(self)@.evictions(bound),
                None => !old(self)@.can_make_room(bound),
            },
    {
        let ghost before = self@;
        let mut split_infos: Vec<SplitInfo> = Vec::new();
        let mut evicted_ids: Vec<u128> = Vec::new();
        assert(evicted_ids@ + self@.evictions(bound) =~= before.evictions(bound));
        loop
            invariant
                before.wf(),
                self.consistent(),
                self.origin() == old(self).origin(),
                self@.limits == before.limits,
                self@.open_files == before.open_files,
                before.evictions(bound) == evicted_ids@ + self@.evictions(bound),
                before.evicted(bound) == self@.evicted(bound),
                self@.candidates() == before.candidates(),
                split_infos.len() == evicted_ids.len(),
                evicted_ids@.no_duplicates(),
                self@.splits.submap_of(before.splits),
                forall|id: u128|
                    #![trigger before.splits.contains_key(id)]
                    #![trigger evicted_ids@.contains(id)]
                    before.splits.contains_key(id) ==> (self@.splits.contains_key(id)
                        <==> !evicted_ids@.contains(id)),
                forall|j: int|
                    0 <= j < split_infos.len() ==> {
                        &&& (#[trigger] split_infos[j]).split_key.split_ulid == evicted_ids[j]
                        &&& split_infos[j].filed()
                        &&& before.splits.contains_key(evicted_ids[j])
                        &&& before.splits[evicted_ids[j]] == split_infos[j]@
                    },
            ensures
                !(self@.is_out_of_limits() && self@.may_evict(bound)),
            decreases self@.splits.dom().len(),
        {
            if !self.is_out_of_limits() {
                break;
            }
            match first_key(&self.on_disk_splits) {
                Some(first) => {
                    proof {
                        lemma_min_unique(first, self@.coldest(Queue::OnDisk), self@.on_disk());
                    }
                    if let Some(last_access_date) = bound {
                        if first.0 > last_access_date {
                            break;
                        }
                    }
                    let ghost current = self@;
                    let ghost ids_before = evicted_ids@;
                    proof {
                        assert(before.splits.contains_key(first.1));
                        assert(!ids_before.contains(first.1));
                        lemma_drop_on_disk(current, first.1);
                        assert(current.evictions(bound) == seq![first.1] + current.dropped(
                            first.1,
                        ).evictions(bound));
                        assert(current.evicted(bound) == current.dropped(first.1).evicted(bound));
                    }
                    match self.detach(first.1) {
                        Some(split_info) => {
                            split_infos.push(split_info);
                            evicted_ids.push(first.1);
                        },
                        None => {
                            assert(false);
                        },
                    }
                    assert(self@ == current.dropped(first.1));
                    assert(evicted_ids@ + self@.evictions(bound) =~= before.evictions(bound));
                    assert(evicted_ids@ == ids_before.push(first.1));
                    assert forall|id: u128| evicted_ids@.contains(id) implies ids_before.contains(
                        id,
                    ) || id == first.1 by {
                        let k = choose|k: int| 0 <= k < evicted_ids@.len() && evicted_ids@[k] == id;
                        if k < ids_before.len() {
                            assert(ids_before[k] == id);
                        }
                    }
                    assert forall|id: u128|
                        ids_before.contains(id) || id == first.1 implies evicted_ids@.contains(
                        id,
                    ) by {
                        if id == first.1 {
                            assert(evicted_ids@[ids_before.len() as int] == id);
                        } else {
                            let k = choose|k: int| 0 <= k < ids_before.len() && ids_before[k] == id;
                            assert(evicted_ids@[k] == id);
                        }
                    }
                },
                None => {
                    assert(self@.on_disk() =~= Set::empty());
                    break;
                },
            }
        }
        if self.is_out_of_limits() {
            // Still out of limits: the evictions are not worth making. The
            // splits go back in.
            while split_infos.len() > 0
                invariant
                    before.wf(),
                    self.consistent(),
                    self.origin() == old(self).origin(),
                    self@.limits == before.limits,
                    self@.open_files == before.open_files,
                    split_infos.len() == evicted_ids.len(),
                    evicted_ids@.no_duplicates(),
                    self@.splits.submap_of(before.splits),
                    forall|id: u128|
                        #![trigger before.splits.contains_key(id)]
                        #![trigger evicted_ids@.contains(id)]
                        before.splits.contains_key(id) ==> (self@.splits.contains_key(id)
                            <==> !evicted_ids@.contains(id)),
                    forall|j: int|
                        0 <= j < split_infos.len() ==> {
                            &&& (#[trigger] split_infos[j]).split_key.split_ulid == evicted_ids[j]
                            &&& split_infos[j].filed()
                            &&& before.splits.contains_key(evicted_ids[j])
                            &&& before.splits[evicted_ids[j]] == split_infos[j]@
                        },
                decreases split_infos.len(),
            {
                let ghost last = split_infos.len() - 1;
                let ghost id = evicted_ids[last];
                let ghost ids_before = evicted_ids@;
                let ghost record = split_infos[last];
                assert(record.split_key.split_ulid == id && record.filed()
                    && before.splits.contains_key(id) && before.splits[id] == record@);
                let popped = split_infos.pop();
                evicted_ids.pop();
                assert(evicted_ids@ == ids_before.drop_last());
                assert(ids_before.contains(id));
                assert(!evicted_ids@.contains(id)) by {
                    if evicted_ids@.contains(id) {
                        let k = choose|k: int| 0 <= k < evicted_ids@.len() && evicted_ids@[k] == id;
                        assert(ids_before[k] == ids_before[last]);
                    }
                }
                assert forall|other: u128| evicted_ids@.contains(other) implies ids_before.contains(
                    other,
                ) by {
                    let k = choose|k: int| 0 <= k < evicted_ids@.len() && evicted_ids@[k] == other;
                    assert(ids_before[k] == other);
                }
                assert forall|other: u128|
                    ids_before.contains(other) && other != id implies evicted_ids@.contains(
                    other,
                ) by {
                    let k = choose|k: int| 0 <= k < ids_before.len() && ids_before[k] == other;
                    assert(evicted_ids@[k] == other);
                }
                match popped {
                    Some(split_info) => {
                        proof {
                            assert(split_info == record);
                            let restored = self@.splits.insert(id, split_info@);
                            assert(restored.submap_of(before.splits));
                            lemma_total_bytes_insert(self@.splits, id, split_info@);
                            lemma_total_bytes_submap(restored, before.splits);
                        }
                        self.attach(split_info);
                    },
                    None => {
                        assert(false);
                    },
                }
            }
            assert forall|id: u128| before.splits.contains_key(id) implies #[trigger]
                self@.splits.contains_key(id) by {
                assert(!evicted_ids@.contains(id));
            }
            assert(self@.splits =~= before.splits);
            None
        } else {
            let ghost emptied = self@;
            let mut i: usize = 0;
            assert(evicted_ids@.take(0) =~= Seq::empty());
            while i < evicted_ids.len()
                invariant
                    0 <= i <= evicted_ids.len(),
                    self.consistent(),
                    self.origin() == old(self).origin(),
                    self@.limits == emptied.limits,
                    self@.splits == emptied.splits,
                    self@.open_files == drop_keys(before.open_files, evicted_ids@.take(i as int)),
                decreases evicted_ids.len() - i,
            {
                lru_pop(&mut self.fd_cache, evicted_ids[i]);
                assert(evicted_ids@.take(i + 1).drop_last() =~= evicted_ids@.take(i as int));
                i = i + 1;
            }
            proof {
                assert(evicted_ids@.take(i as int) =~= evicted_ids@);
                assert(evicted_ids@ =~= before.evictions(bound));
                lemma_drop_keys(before.open_files, evicted_ids@);
                assert forall|k: int| 0 <= k < self@.open_files.len() implies self@.holds_file(#[trigger] self@.open_files[k]) by {
                    let e = self@.open_files[k];
                    assert(before.open_files.contains(e));
                    let j = choose|j: int|
                        0 <= j < before.open_files.len() && before.open_files[j] == e;
                    assert(before.holds_file(before.open_files[j]));
                }
            }
            Some(evicted_ids)
        }
    }

    /// Picks the warmest candidate, makes room for it without evicting a
    /// split accessed after it, and starts its download, with the downloads
    /// that `abandoned` lists counted as abandoned. Returns the candidate and
    /// the ids of the evicted splits, whose files are for the caller to delete;
    /// `None`, with the table unchanged, where there is no candidate or no
    /// such room.
    pub fn find_download_opportunity_with(&mut self, abandoned: &Vec<u128>) -> (opportunity: Option<
        DownloadOpportunity,
    >)
        requires
            old(self).wf(),
        ensures
            final(self).wf(),
            final(self).origin() == old(self).origin(),
            final(self)@ == old(self)@.find_download_opportunity(abandoned@.to_set()),
            match opportunity {
                Some(found) => {
                    &&& old(self)@.has_opportunity()
                    &&& found@ == old(self)@.opportunity()
                    &&& old(self)@.splits[found.split_to_download.split_ulid].status
                        == (StatusView::Candidate {
                        storage_uri: found.split_to_download.storage_uri@,
                    })
                },
                None => !old(self)@.has_opportunity(),
            },
    {
        let best_candidate_split_key = match self.best_candidate() {
            Some(key) => key,
            None => {
                return None;
            },
        };
        let splits_to_delete = match self.make_room_for_split_if_necessary(
            Some(best_candidate_split_key.last_accessed),
        ) {
            Some(ids) => ids,
            None => {
                return None;
            },
        };
        let ghost roomy = self@;
        assert(roomy.candidates().contains(best_candidate_split_key.entry()));
        assert(old(self)@.candidates().contains(best_candidate_split_key.entry()));
        match self.start_download_with(best_candidate_split_key.split_ulid, abandoned) {
            Some(split_to_download) => Some(
                DownloadOpportunity { splits_to_delete, split_to_download },
            ),
            None => {
                assert(false);
                None
            },
        }
    }

    /// Picks the warmest candidate, makes room for it without evicting a
    /// split accessed after it, and starts its download. Returns the
    /// candidate and the ids of the evicted splits, whose files are for the
    /// caller to delete; `None`, with the table unchanged, where there is no
    /// candidate or no such room.
    pub fn find_download_opportunity(&mut self) -> (opportunity: Option<DownloadOpportunity>)
        requires
            old(self).wf(),
        ensures
            final(self).wf(),
            final(self).origin() == old(self).origin(),
            match opportunity {
                Some(found) => {
                    &&& old(self)@.has_opportunity()
                    &&& found@ == old(self)@.opportunity()
                    &&& old(self)@.splits[found.split_to_download.split_ulid].status
                        == (StatusView::Candidate {
                        storage_uri: found.split_to_download.storage_uri@,
                    })
                    &&& exists|dead: Set<u128>|
                        final(self)@ == #[trigger] old(self)@.find_download_opportunity(dead)
                },
                None => !old(self)@.has_opportunity() && final(self)@ == old(self)@,
            },
    {
        let best_candidate_split_key = match self.best_candidate() {
            Some(key) => key,
            None => {
                return None;
            },
        };
        let abandoned = self.observe_abandoned(best_candidate_split_key.split_ulid);
        let opportunity = self.find_download_opportunity_with(&abandoned);
        assert(self@ == old(self)@.find_download_opportunity(abandoned@.to_set()));
        opportunity
    }

    /// A table with the given limits, in which the files found in the cache
    /// directory, `existing_filepaths`, are on disk. Their sizes together must
    /// fit a `u64`.
    pub fn with_limits_and_existing_splits(
        limits: SplitCacheLimits,
        existing_filepaths: BTreeMap<u128, u64>,
    ) -> (table: SplitTable)
        requires
            TableView::started(limits, existing_filepaths@).on_disk_bytes() <= u64::MAX,
        ensures
            table.wf(),
            table@ == TableView::started(limits, existing_filepaths@),
    {
        broadcast use vstd::std_specs::hash::group_hash_axioms;

        let origin_time = backdated_origin();
        let mut split_table = SplitTable {
            on_disk_splits: BTreeSet::new(),
            candidate_splits: BTreeSet::new(),
            downloading_splits: BTreeSet::new(),
            split_to_status: HashMap::new(),
            origin_time,
            limits,
            on_disk_bytes: 0u64,
            fd_cache: lru_new(FD_CACHE_CAPACITY),
        };
        proof {
            let fresh = split_table@;
            assert(fresh.splits =~= Map::empty());
            assert(fresh.candidates() =~= Set::empty());
            assert(fresh.downloading() =~= Set::empty());
            assert(fresh.on_disk() =~= Set::empty());
            assert(fresh == TableView::empty(limits));
        }
        split_table.acknowledge_on_disk_splits(existing_filepaths);
        split_table
    }

    /// Enters the files found at startup as on-disk splits, dated as the
    /// coldest a split can be.
    fn acknowledge_on_disk_splits(&mut self, existing_filepaths: BTreeMap<u128, u64>)
        requires
            old(self).wf(),
            old(self)@ == TableView::empty(old(self)@.limits),
            TableView::started(old(self)@.limits, existing_filepaths@).on_disk_bytes() <= u64::MAX,
        ensures
            final(self).wf(),
            final(self).origin() == old(self).origin(),
            final(self)@ == TableView::started(old(self)@.limits, existing_filepaths@),
    {
        let ghost limits = self@.limits;
        let ghost target = TableView::started(limits, existing_filepaths@);
        let ghost files = existing_filepaths@;
        let ghost items = vstd::std_specs::btree::spec_btree_map_iter(&existing_filepaths).remaining();
        let ghost mut done: int = 0;
        let none_abandoned: Vec<u128> = Vec::new();
        assert(target.splits.dom() =~= files.dom());
        for entry in it: existing_filepaths.iter()
            invariant
                files == existing_filepaths@,
                target == TableView::started(limits, files),
                target.splits.dom().finite(),
                target.on_disk_bytes() <= u64::MAX,
                it.seq() == items,
                done == it.index(),
                items.no_duplicates(),
                forall|j: int|
                    #![trigger items[j]]
                    0 <= j < items.len() ==> files.contains_key(*items[j].0) && files[*items[j].0]
                        == *items[j].1,
                forall|id: u128| #[trigger]
                    files.contains_key(id) ==> items.contains((&id, &files[id])),
                self.wf(),
                self.origin() == old(self).origin(),
                self@.limits == limits,
                self@.open_files == Seq::<OpenFile>::empty(),
                self@.splits.submap_of(target.splits),
                forall|id: u128|
                    #![trigger self@.splits.contains_key(id)]
                    self@.splits.contains_key(id) <==> exists|j: int|
                        0 <= j < done && *(#[trigger] items[j]).0 == id,
        {
            let (split_ulid, num_bytes) = entry;
            let split_info = SplitInfo {
                split_key: SplitKey { last_accessed: 0, split_ulid: *split_ulid },
                status: Status::OnDisk { num_bytes: *num_bytes },
            };
            let ghost before = self@;
            proof {
                assert(items[done] == entry);
                if before.splits.contains_key(*split_ulid) {
                    let j = choose|j: int| 0 <= j < done && *(#[trigger] items[j]).0 == *split_ulid;
                    assert(items[j] == items[done]);
                }
                let entered = before.splits.insert(*split_ulid, split_info@);
                assert(target.splits[*split_ulid] == split_info@);
                assert(entered.submap_of(target.splits));
                lemma_total_bytes_insert(before.splits, *split_ulid, split_info@);
                lemma_total_bytes_submap(entered, target.splits);
                assert forall|key: QueueKey| !before.downloading().contains(key) by {
                    if before.splits.contains_key(key.1) {
                        assert(target.splits.contains_key(key.1));
                        assert(before.splits[key.1] == target.splits[key.1]);
                    }
                }
                assert(before.downloading() =~= Set::empty());
            }
            self.insert(split_info, &none_abandoned);
            proof {
                done = done + 1;
            }
        }
        proof {
            assert(done == items.len());
            assert forall|id: u128| target.splits.contains_key(id) implies #[trigger]
                self@.splits.contains_key(id) by {
                assert(items.contains((&id, &files[id])));
                let j = choose|j: int| 0 <= j < items.len() && items[j] == (&id, &files[id]);
                assert(*items[j].0 == id);
            }
            assert(self@.splits =~= target.splits);
        }
    }

    /// Decides at time `now` how a reader gets the file of a split, with the
    /// downloads that `abandoned` lists counted as abandoned. A file that the
    /// table remembers as open is used again, and becomes the most recently
    /// used. Otherwise the request counts as an access to the split: a split
    /// on disk is to be opened, and any other has no file.
    pub fn try_get_or_open_fd_with(
        &mut self,
        split_ulid: u128,
        storage_uri: &String,
        now: LastAccessDate,
        abandoned: &Vec<u128>,
    ) -> (decision: FdDecision)
        requires
            old(self).wf(),
        ensures
            final(self).wf(),
            final(self).origin() == old(self).origin(),
            final(self)@ == old(self)@.try_get_or_open_fd(
                split_ulid,
                storage_uri@,
                now,
                abandoned@.to_set(),
            ),
            decision == old(self)@.fd_decision(split_ulid, storage_uri@, now, abandoned@.to_set()),
            final(self)@.bears_out(split_ulid, decision),
    {
        proof {
            lemma_promoted_wf(self@, split_ulid);
            crate::laws::lemma_fd_decision_gives_split_size(
                self@,
                split_ulid,
                storage_uri@,
                now,
                abandoned@.to_set(),
            );
        }
        if let Some(num_bytes) = lru_get(&mut self.fd_cache, split_ulid) {
            return FdDecision::Cached { num_bytes };
        }
        assert(self@ == old(self)@);
        match self.is_on_disk_with(split_ulid, storage_uri, now, abandoned) {
            Some(num_bytes) => FdDecision::Open { num_bytes },
            None => FdDecision::Absent,
        }
    }

    /// Decides at time `now` how a reader gets the file of a split; the
    /// downloads found abandoned count as such.
    pub fn try_get_or_open_fd_at(
        &mut self,
        split_ulid: u128,
        storage_uri: &String,
        now: LastAccessDate,
    ) -> (decision: FdDecision)
        requires
            old(self).wf(),
        ensures
            final(self).wf(),
            final(self).origin() == old(self).origin(),
            exists|dead: Set<u128>|
                #![trigger old(self)@.try_get_or_open_fd(split_ulid, storage_uri@, now, dead)]
                {
                    &&& final(self)@ == old(self)@.try_get_or_open_fd(
                        split_ulid,
                        storage_uri@,
                        now,
                        dead,
                    )
                    &&& decision == old(self)@.fd_decision(split_ulid, storage_uri@, now, dead)
                },
            final(self)@.bears_out(split_ulid, decision),
    {
        let abandoned = self.observe_abandoned(split_ulid);
        let decision = self.try_get_or_open_fd_with(split_ulid, storage_uri, now, &abandoned);
        assert(self@ == old(self)@.try_get_or_open_fd(
            split_ulid,
            storage_uri@,
            now,
            abandoned@.to_set(),
        ));
        decision
    }

    /// Decides how a reader gets the file of a split, at the time the
    /// table's clock shows.
    pub fn try_get_or_open_fd(&mut self, split_ulid: u128, storage_uri: &String) -> (decision:
        FdDecision)
        requires
            old(self).wf(),
        ensures
            final(self).wf(),
            final(self).origin() == old(self).origin(),
            exists|now: u64, dead: Set<u128>|
                #![trigger old(self)@.try_get_or_open_fd(split_ulid, storage_uri@, now, dead)]
                {
                    &&& final(self)@ == old(self)@.try_get_or_open_fd(
                        split_ulid,
                        storage_uri@,
                        now,
                        dead,
                    )
                    &&& decision == old(self)@.fd_decision(split_ulid, storage_uri@, now, dead)
                },
            final(self)@.bears_out(split_ulid, decision),
    {
        let now = compute_timestamp(self.origin_time);
        let abandoned = self.observe_abandoned(split_ulid);
        let decision = self.try_get_or_open_fd_with(split_ulid, storage_uri, now, &abandoned);
        assert(self@ == old(self)@.try_get_or_open_fd(
            split_ulid,
            storage_uri@,
            now,
            abandoned@.to_set(),
        ));
        decision
    }

    /// Remembers that the file of a split was opened, with the size recorded
    /// for it. Only the file of a split that is still on disk with that size
    /// is remembered; returns whether it was.
    pub fn fd_opened(&mut self, split_ulid: u128, num_bytes: u64) -> (remembered: bool)
        requires
            old(self).wf(),
        ensures
            final(self).wf(),
            final(self).origin() == old(self).origin(),
            final(self)@ == old(self)@.fd_opened(split_ulid, num_bytes),
            remembered == old(self)@.holds_file((split_ulid, num_bytes)),
    {
        broadcast use vstd::std_specs::hash::group_hash_axioms;

        let on_disk = match self.split_to_status.get(&split_ulid) {
            Some(split_info) => match &split_info.status {
                Status::OnDisk { num_bytes: recorded } => *recorded == num_bytes,
                _ => false,
            },
            None => false,
        };
        if on_disk {
            proof {
                lemma_stored_wf(self@, split_ulid, num_bytes);
            }
            lru_put(&mut self.fd_cache, split_ulid, num_bytes);
        }
        on_disk
    }

    /// Records that the file of a split could not be opened: a split listed
    /// on disk leaves the table, since its file is not where it should be.
    pub fn fd_open_failed(&mut self, split_ulid: u128)
        requires
            old(self).wf(),
        ensures
            final(self).wf(),
            final(self).origin() == old(self).origin(),
            final(self)@ == old(self)@.fd_open_failed(split_ulid),
    {
        broadcast use vstd::std_specs::hash::group_hash_axioms;

        let on_disk = match self.split_to_status.get(&split_ulid) {
            Some(split_info) => match &split_info.status {
                Status::OnDisk { .. } => true,
                _ => false,
            },
            None => false,
        };
        if on_disk {
            let none_abandoned: Vec<u128> = Vec::new();
            let _ = self.remove(split_ulid, &none_abandoned);
        }
    }

    /// Whether the table remembers an open file for the split.
    pub fn has_open_fd(&self, split_ulid: u128) -> (open: bool)
        requires
            self.wf(),
        ensures
            open == has_key(self@.open_files, split_ulid),
    {
        lru_contains(&self.fd_cache, split_ulid)
    }

    /// The limits that the table was made with.
    pub fn limits(&self) -> (limits: SplitCacheLimits)
        ensures
            limits == self@.limits,
    {
        self.limits
    }

    /// How many candidates the table lists.
    pub fn num_candidates(&self) -> (count: usize)
        requires
            self.wf(),
        ensures
            count == self@.candidates().len(),
            count <= MAX_NUM_CANDIDATES,
    {
        self.candidate_splits.len()
    }

    /// How many downloads the table lists.
    pub fn num_downloading(&self) -> (count: usize)
        requires
            self.wf(),
        ensures
            count == self@.downloading().len(),
    {
        self.downloading_splits.len()
    }

    /// How many on-disk splits the table lists.
    pub fn num_on_disk(&self) -> (count: usize)
        requires
            self.wf(),
        ensures
            count == self@.on_disk().len(),
    {
        self.on_disk_splits.len()
    }

    /// The key under which a split is listed, if the table knows the split.
    pub fn split_key(&self, split_ulid: u128) -> (key: Option<SplitKey>)
        requires
            self.wf(),
        ensures
            match key {
                Some(key) => self@.splits.contains_key(split_ulid) && key.split_ulid == split_ulid
                    && key.last_accessed == self@.splits[split_ulid].last_accessed,
                None => !self@.splits.contains_key(split_ulid),
            },
    {
        broadcast use vstd::std_specs::hash::group_hash_axioms;

        match self.split_to_status.get(&split_ulid) {
            Some(split_info) => Some(split_info.split_key),
            None => None,
        }
    }

    /// A copy of the status of a split, if the table knows the split. The
    /// copy of a candidate shares the candidate's token: a download of the
    /// split counts as running for as long as the copy is held.
    pub fn status(&self, split_ulid: u128) -> (status: Option<Status>)
        requires
            self.wf(),
        ensures
            match status {
                Some(status) => self@.splits.contains_key(split_ulid) && status@
                    == self@.splits[split_ulid].status,
                None => !self@.splits.contains_key(split_ulid),
            },
    {
        broadcast use vstd::std_specs::hash::group_hash_axioms;

        match self.split_to_status.get(&split_ulid) {
            Some(split_info) => Some(split_info.status.clone()),
            None => None,
        }
    }
}

} // verus!
