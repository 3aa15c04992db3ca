//! The records of the status index: a split's key, its status, and what the
//! table hands out about it.

use crate::clock::LastAccessDate;
use crate::liveness::share_token;
use crate::model::MutationView;
use crate::model::OpportunityView;
use crate::model::SplitView;
use crate::model::StatusView;
use crate::queue::key_lt;
use crate::queue::QueueKey;
use std::cmp::Ordering;
use std::sync::Arc;
use vstd::prelude::*;
use vstd::std_specs::cmp::PartialEqSpecImpl;
use vstd::std_specs::cmp::PartialOrdSpecImpl;

verus! {

/// The sort key of a split: its last access, and its id to tell apart splits
/// accessed at the same time.
#[derive(Clone, Copy, Debug, PartialEq, Eq, Ord, Hash, Structural)]
pub struct SplitKey {
    pub last_accessed: LastAccessDate,
    pub split_ulid: u128,
}

impl SplitKey {
    /// The key as the queues hold it.
    pub open spec fn entry(self) -> QueueKey {
        (self.last_accessed, self.split_ulid)
    }

    /// The key as the queues hold it.
    pub fn queue_key(&self) -> (key: QueueKey)
        ensures
            key == self.entry(),
    {
        (self.last_accessed, self.split_ulid)
    }
}

impl PartialOrd for SplitKey {
    fn partial_cmp(&self, other: &SplitKey) -> (order: Option<Ordering>) {
        if self.last_accessed < other.last_accessed {
            Some(Ordering::Less)
        } else if self.last_accessed > other.last_accessed {
            Some(Ordering::Greater)
        } else if self.split_ulid < other.split_ulid {
            Some(Ordering::Less)
        } else if self.split_ulid > other.split_ulid {
            Some(Ordering::Greater)
        } else {
            Some(Ordering::Equal)
        }
    }
}

impl PartialOrdSpecImpl for SplitKey {
    open spec fn obeys_partial_cmp_spec() -> bool {
        true
    }

    open spec fn partial_cmp_spec(&self, other: &SplitKey) -> Option<Ordering> {
        if key_lt(self.entry(), other.entry()) {
            Some(Ordering::Less)
        } else if key_lt(other.entry(), self.entry()) {
            Some(Ordering::Greater)
        } else {
            Some(Ordering::Equal)
        }
    }
}

/// A split that could be downloaded.
#[derive(Debug)]
pub struct CandidateSplit {
    pub storage_uri: String,
    pub split_ulid: u128,
    pub living_token: Arc<()>,
}

impl Clone for CandidateSplit {
    /// A copy of the candidate, with a share of its token.
    fn clone(&self) -> (copy: CandidateSplit)
        ensures
            copy.storage_uri@ == self.storage_uri@,
            copy.split_ulid == self.split_ulid,
    {
        CandidateSplit {
            storage_uri: self.storage_uri.clone(),
            split_ulid: self.split_ulid,
            living_token: share_token(&self.living_token),
        }
    }
}

impl PartialEq for CandidateSplit {
    fn eq(&self, other: &CandidateSplit) -> (equal: bool) {
        self.storage_uri == other.storage_uri && self.split_ulid == other.split_ulid
    }
}

impl PartialEqSpecImpl for CandidateSplit {
    open spec fn obeys_eq_spec() -> bool {
        true
    }

    open spec fn eq_spec(&self, other: &CandidateSplit) -> bool {
        self.storage_uri@ == other.storage_uri@ && self.split_ulid == other.split_ulid
    }
}

impl Eq for CandidateSplit {

}

/// Where a split stands.
#[derive(Debug)]
pub enum Status {
    /// Known to exist upstream.
    Candidate(CandidateSplit),
    /// Being downloaded; `alive_token` is the table's share of the token that
    /// went out with the candidate.
    Downloading { alive_token: Arc<()> },
    /// Present in the cache directory.
    OnDisk { num_bytes: u64 },
}

impl View for Status {
    type V = StatusView;

    open spec fn view(&self) -> StatusView {
        match self {
            Status::Candidate(candidate) => StatusView::Candidate {
                storage_uri: candidate.storage_uri@,
            },
            Status::Downloading { .. } => StatusView::Downloading,
            Status::OnDisk { num_bytes } => StatusView::OnDisk { num_bytes: *num_bytes },
        }
    }
}

impl Clone for Status {
    /// A copy of the status. The copy of a download carries a token of its
    /// own: holding the copy does not keep the download alive.
    fn clone(&self) -> (copy: Status)
        ensures
            copy@ == self@,
            match (self, copy) {
                (Status::Candidate(mine), Status::Candidate(theirs)) => mine.split_ulid
                    == theirs.split_ulid,
                _ => true,
            },
    {
        match self {
            Status::Candidate(candidate) => Status::Candidate(candidate.clone()),
            Status::Downloading { .. } => Status::Downloading { alive_token: Arc::new(()) },
            Status::OnDisk { num_bytes } => Status::OnDisk { num_bytes: *num_bytes },
        }
    }
}

impl PartialEq for Status {
    fn eq(&self, other: &Status) -> (equal: bool) {
        match (self, other) {
            (Status::Candidate(candidate_split), Status::Candidate(other_candidate_split)) => {
                candidate_split == other_candidate_split
            },
            (Status::Downloading { .. }, Status::Downloading { .. }) => true,
            (Status::OnDisk { num_bytes }, Status::OnDisk { num_bytes: other_num_bytes }) => {
                *num_bytes == *other_num_bytes
            },
            _ => false,
        }
    }
}

impl PartialEqSpecImpl for Status {
    open spec fn obeys_eq_spec() -> bool {
        true
    }

    /// Two statuses are equal when they are of the same kind and say the
    /// same: candidates of one split at one place, downloads whatever their
    /// tokens, files of one size.
    open spec fn eq_spec(&self, other: &Status) -> bool {
        match (self, other) {
            (Status::Candidate(mine), Status::Candidate(theirs)) => mine.storage_uri@
                == theirs.storage_uri@ && mine.split_ulid == theirs.split_ulid,
            (Status::Downloading { .. }, Status::Downloading { .. }) => true,
            (Status::OnDisk { num_bytes }, Status::OnDisk { num_bytes: other_num_bytes }) => num_bytes
                == other_num_bytes,
            _ => false,
        }
    }
}

/// One record of the status index.
#[derive(Debug)]
pub struct SplitInfo {
    pub split_key: SplitKey,
    pub status: Status,
}

impl View for SplitInfo {
    type V = SplitView;

    open spec fn view(&self) -> SplitView {
        SplitView { last_accessed: self.split_key.last_accessed, status: self.status@ }
    }
}

impl SplitInfo {
    /// A candidate's record names the split that its key names.
    pub open spec fn filed(&self) -> bool {
        self.status matches Status::Candidate(candidate) ==> candidate.split_ulid
            == self.split_key.split_ulid
    }
}

/// What can be done to the record of one split.
pub enum Mutation {
    /// The split was reported at `now`.
    Report { storage_uri: String, now: LastAccessDate },
    /// The split was accessed at `now`.
    Touch { storage_uri: String, now: LastAccessDate },
    /// The split takes `status`; where it is not known, it is dated `now`.
    ChangeStatus { status: Status, now: LastAccessDate },
}

impl View for Mutation {
    type V = MutationView;

    open spec fn view(&self) -> MutationView {
        match self {
            Mutation::Report { storage_uri, now } => MutationView::Report {
                storage_uri: storage_uri@,
                now: *now,
            },
            Mutation::Touch { storage_uri, now } => MutationView::Touch {
                storage_uri: storage_uri@,
                now: *now,
            },
            Mutation::ChangeStatus { status, now } => MutationView::ChangeStatus {
                status: status@,
                now: *now,
            },
        }
    }
}

/// A download to start, and the files to delete for it.
#[derive(Debug)]
pub struct DownloadOpportunity {
    /// Splits that have left the table; their files are still to be deleted.
    pub splits_to_delete: Vec<u128>,
    pub split_to_download: CandidateSplit,
}

impl View for DownloadOpportunity {
    type V = OpportunityView;

    open spec fn view(&self) -> OpportunityView {
        OpportunityView {
            splits_to_delete: self.splits_to_delete@,
            split_to_download: self.split_to_download.split_ulid,
        }
    }
}

} // verus!
