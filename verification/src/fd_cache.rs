//! The cache of open split files: a bounded least-recently-used map from a
//! split id to the size of the file that was opened for it.

use lru::LruCache;
use std::num::NonZeroUsize;
use vstd::prelude::*;

verus! {

/// How many open files the cache remembers.
pub const FD_CACHE_CAPACITY: usize = 100;

/// How many files may be open at once, remembered or not.
pub const FD_PERMITS: usize = 200;

/// One remembered file: the split's id and the size recorded when it was opened.
pub type OpenFile = (u128, u64);

/// `lru::LruCache`, carried as an opaque value; what it holds is named by
/// `lru_entries` and `lru_limit`.
#[verifier::external_type_specification]
#[verifier::external_body]
#[verifier::reject_recursive_types(K)]
#[verifier::reject_recursive_types(V)]
#[verifier::reject_recursive_types(S)]
pub struct ExLruCache<K, V, S>(LruCache<K, V, S>);

/// `lru::DefaultHasher`, the hasher of a cache made by `LruCache::new`,
/// carried as an opaque value.
#[verifier::external_type_specification]
#[verifier::external_body]
pub struct ExLruHasher(lru::DefaultHasher);

/// What the cache holds, the most recently used entry first.
pub uninterp spec fn lru_entries(cache: LruCache<u128, u64>) -> Seq<OpenFile>;

/// The number of entries the cache was made to hold.
pub uninterp spec fn lru_limit(cache: LruCache<u128, u64>) -> nat;

/// Some entry of `entries` is for `id`.
pub open spec fn has_key(entries: Seq<OpenFile>, id: u128) -> bool {
    exists|i: int| 0 <= i < entries.len() && (#[trigger] entries[i]).0 == id
}

/// The size remembered for `id`, if any.
pub open spec fn value_of(entries: Seq<OpenFile>, id: u128) -> Option<u64> {
    if has_key(entries, id) {
        let i = choose|i: int| 0 <= i < entries.len() && (#[trigger] entries[i]).0 == id;
        Some(entries[i].1)
    } else {
        None
    }
}

/// `entries` without the one for `id`.
pub open spec fn drop_key(entries: Seq<OpenFile>, id: u128) -> Seq<OpenFile> {
    entries.filter(|e: OpenFile| e.0 != id)
}

/// `entries` without those for `ids`, dropped one after another.
pub open spec fn drop_keys(entries: Seq<OpenFile>, ids: Seq<u128>) -> Seq<OpenFile>
    decreases ids.len(),
{
    if ids.len() == 0 {
        entries
    } else {
        drop_key(drop_keys(entries, ids.drop_last()), ids.last())
    }
}

/// `entries` after a lookup of `id`: a hit moves to the front.
pub open spec fn promoted(entries: Seq<OpenFile>, id: u128) -> Seq<OpenFile> {
    match value_of(entries, id) {
        Some(size) => seq![(id, size)] + drop_key(entries, id),
        None => entries,
    }
}

/// `entries` after `(id, size)` is put into a cache of `limit` entries: the new
/// entry comes first; it replaces an entry for the same id, and otherwise
/// pushes the least recently used entry out of a full cache.
pub open spec fn stored(entries: Seq<OpenFile>, limit: nat, id: u128, size: u64) -> Seq<OpenFile> {
    if has_key(entries, id) {
        seq![(id, size)] + drop_key(entries, id)
    } else if entries.len() == limit {
        seq![(id, size)] + entries.drop_last()
    } else {
        seq![(id, size)] + entries
    }
}

/// What is left when an entry is dropped: entries that were there, none of
/// them for `id`, and fewer than before where `id` had one.
pub proof fn lemma_drop_key(entries: Seq<OpenFile>, id: u128)
    ensures
        drop_key(entries, id).len() <= entries.len(),
        has_key(entries, id) ==> drop_key(entries, id).len() < entries.len(),
        !has_key(entries, id) ==> drop_key(entries, id) == entries,
        !has_key(drop_key(entries, id), id),
        forall|i: int|
            0 <= i < drop_key(entries, id).len() ==> entries.contains(
                #[trigger] drop_key(entries, id)[i],
            ),
    decreases entries.len(),
{
    reveal(Seq::filter);
    let keep = |e: OpenFile| e.0 != id;
    let dropped = drop_key(entries, id);
    if entries.len() > 0 {
        let front = entries.drop_last();
        let sub = drop_key(front, id);
        lemma_drop_key(front, id);
        assert(dropped == if keep(entries.last()) {
            sub.push(entries.last())
        } else {
            sub
        });
        assert forall|i: int| 0 <= i < dropped.len() implies entries.contains(
            #[trigger] dropped[i],
        ) by {
            if i < sub.len() {
                assert(front.contains(sub[i]));
                let j = choose|j: int| 0 <= j < front.len() && front[j] == sub[i];
                assert(entries[j] == dropped[i]);
            } else {
                assert(entries[entries.len() - 1] == dropped[i]);
            }
        }
        if has_key(entries, id) {
            let j = choose|j: int| 0 <= j < entries.len() && (#[trigger] entries[j]).0 == id;
            if j < front.len() {
                assert(front[j].0 == id);
            }
        }
        if !has_key(entries, id) {
            assert(entries[entries.len() - 1].0 != id);
            assert forall|j: int| 0 <= j < front.len() implies (#[trigger] front[j]).0 != id by {
                assert(entries[j].0 != id);
            }
            assert(dropped =~= entries);
        }
        if has_key(dropped, id) {
            let j = choose|j: int| 0 <= j < dropped.len() && (#[trigger] dropped[j]).0 == id;
            if j < sub.len() {
                assert(sub[j].0 == id);
            }
        }
    }
}

/// What is left when several entries are dropped: entries that were there,
/// none of them for one of `ids`.
pub proof fn lemma_drop_keys(entries: Seq<OpenFile>, ids: Seq<u128>)
    ensures
        drop_keys(entries, ids).len() <= entries.len(),
        forall|i: int|
            0 <= i < drop_keys(entries, ids).len() ==> entries.contains(
                #[trigger] drop_keys(entries, ids)[i],
            ) && !ids.contains(drop_keys(entries, ids)[i].0),
    decreases ids.len(),
{
    if ids.len() > 0 {
        let front = drop_keys(entries, ids.drop_last());
        let dropped = drop_keys(entries, ids);
        lemma_drop_keys(entries, ids.drop_last());
        lemma_drop_key(front, ids.last());
        assert forall|i: int| 0 <= i < dropped.len() implies entries.contains(
            #[trigger] dropped[i],
        ) && !ids.contains(dropped[i].0) by {
            let e = dropped[i];
            assert(front.contains(e));
            let j = choose|j: int| 0 <= j < front.len() && front[j] == e;
            assert(entries.contains(front[j]) && !ids.drop_last().contains(front[j].0));
            if ids.contains(e.0) {
                let k = choose|k: int| 0 <= k < ids.len() && ids[k] == e.0;
                if k < ids.len() - 1 {
                    assert(ids.drop_last()[k] == e.0);
                } else {
                    assert(has_key(dropped, ids.last()));
                }
            }
        }
    }
}

/// `LruCache::new`: an empty cache that holds at most `capacity` entries.
#[verifier::external_body]
pub(crate) fn lru_new(capacity: usize) -> (cache: LruCache<u128, u64>)
    requires
        capacity > 0,
    ensures
        lru_entries(cache) == Seq::<OpenFile>::empty(),
        lru_limit(cache) == capacity,
{
    LruCache::new(NonZeroUsize::new(capacity).unwrap())
}

/// `LruCache::get`: the value stored for the key, which becomes the most
/// recently used entry; a miss changes nothing.
#[verifier::external_body]
pub(crate) fn lru_get(cache: &mut LruCache<u128, u64>, id: u128) -> (size: Option<u64>)
    ensures
        size == value_of(lru_entries(*old(cache)), id),
        lru_entries(*final(cache)) == promoted(lru_entries(*old(cache)), id),
        lru_limit(*final(cache)) == lru_limit(*old(cache)),
{
    cache.get(&id).copied()
}

/// `LruCache::put`: stores the pair as the most recently used entry and
/// returns the value it replaces; a new key put into a full cache evicts the
/// least recently used entry.
#[verifier::external_body]
pub(crate) fn lru_put(cache: &mut LruCache<u128, u64>, id: u128, size: u64) -> (replaced: Option<u64>)
    ensures
        replaced == value_of(lru_entries(*old(cache)), id),
        lru_entries(*final(cache)) == stored(
            lru_entries(*old(cache)),
            lru_limit(*old(cache)),
            id,
            size,
        ),
        lru_limit(*final(cache)) == lru_limit(*old(cache)),
{
    cache.put(id, size)
}

/// `LruCache::pop`: removes the key's entry and returns its value; the other
/// entries keep their order.
#[verifier::external_body]
pub(crate) fn lru_pop(cache: &mut LruCache<u128, u64>, id: u128) -> (size: Option<u64>)
    ensures
        size == value_of(lru_entries(*old(cache)), id),
        lru_entries(*final(cache)) == drop_key(lru_entries(*old(cache)), id),
        lru_limit(*final(cache)) == lru_limit(*old(cache)),
{
    cache.pop(&id)
}

/// `LruCache::contains`: whether the key has an entry; the order of use is
/// left as it is.
#[verifier::external_body]
pub(crate) fn lru_contains(cache: &LruCache<u128, u64>, id: u128) -> (found: bool)
    ensures
        found == has_key(lru_entries(*cache), id),
{
    cache.contains(&id)
}

} // verus!
