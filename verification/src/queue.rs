//! The three queues: ordered sets of split keys, a key being the pair of a
//! last-access date and a split id.

use std::collections::BTreeSet;
use vstd::prelude::*;

verus! {

/// A queue entry: last-access date first, split id second.
pub type QueueKey = (u64, u128);

/// The order of queue entries: by date, and by id where the dates agree.
pub open spec fn key_lt(a: QueueKey, b: QueueKey) -> bool {
    a.0 < b.0 || (a.0 == b.0 && a.1 < b.1)
}

/// `key_lt` or equal.
pub open spec fn key_le(a: QueueKey, b: QueueKey) -> bool {
    a == b || key_lt(a, b)
}

/// `k` is the least entry of `s`.
pub open spec fn is_min_of(k: QueueKey, s: Set<QueueKey>) -> bool {
    s.contains(k) && forall|o: QueueKey| s.contains(o) ==> key_le(k, o)
}

/// `k` is the greatest entry of `s`.
pub open spec fn is_max_of(k: QueueKey, s: Set<QueueKey>) -> bool {
    s.contains(k) && forall|o: QueueKey| s.contains(o) ==> key_le(o, k)
}

/// `BTreeSet::first` on a queue: the least entry under the order of pairs,
/// which compares the dates and then the ids; `None` exactly on the empty queue.
#[verifier::external_body]
pub(crate) fn first_key(queue: &BTreeSet<QueueKey>) -> (first: Option<QueueKey>)
    ensures
        match first {
            Some(k) => is_min_of(k, queue@),
            None => forall|o: QueueKey| !queue@.contains(o),
        },
{
    queue.first().copied()
}

/// `BTreeSet::last` on a queue: the greatest entry under the order of pairs,
/// which compares the dates and then the ids; `None` exactly on the empty queue.
#[verifier::external_body]
pub(crate) fn last_key(queue: &BTreeSet<QueueKey>) -> (last: Option<QueueKey>)
    ensures
        match last {
            Some(k) => is_max_of(k, queue@),
            None => forall|o: QueueKey| !queue@.contains(o),
        },
{
    queue.last().copied()
}

/// A set has at most one least entry.
pub proof fn lemma_min_unique(a: QueueKey, b: QueueKey, s: Set<QueueKey>)
    requires
        is_min_of(a, s),
        is_min_of(b, s),
    ensures
        a == b,
{
}

/// A set has at most one greatest entry.
pub proof fn lemma_max_unique(a: QueueKey, b: QueueKey, s: Set<QueueKey>)
    requires
        is_max_of(a, s),
        is_max_of(b, s),
    ensures
        a == b,
{
}

/// Compares two queue entries: by date, and by id where the dates agree.
pub fn key_less(a: QueueKey, b: QueueKey) -> (less: bool)
    ensures
        less == key_lt(a, b),
{
    a.0 < b.0 || (a.0 == b.0 && a.1 < b.1)
}

} // verus!
