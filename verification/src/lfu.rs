//! The `lfu_cache` crate's `LfuCache`, as this library uses it: keys are the
//! 128-bit item keys, values carry nothing. The collection is used for its
//! eviction order alone.
//!
//! The contents of a cache are modelled as its eviction queue: a sequence of
//! `(key, access count)` pairs, the entry that would be evicted next first.
//! Entries stand in ascending order of access count; among entries with the
//! same count, the one that reached that count most recently stands first.
use lfu_cache::LfuCache;
use vstd::prelude::*;

use crate::queue::{promoted, queue_has, queue_wf};

verus! {

#[verifier::external_type_specification]
#[verifier::external_body]
#[verifier::reject_recursive_types(K)]
#[verifier::reject_recursive_types(V)]
pub struct ExLfuCache<K: core::hash::Hash + Eq, V>(LfuCache<K, V>);

/// The eviction queue of a cache: `(key, access count)` pairs, the next entry
/// to be evicted first.
pub uninterp spec fn lfu_queue(cache: LfuCache<u128, ()>) -> Seq<(u128, usize)>;

/// The capacity that a cache was made with; `0` stands for "unbounded".
pub uninterp spec fn lfu_capacity(cache: LfuCache<u128, ()>) -> usize;

/// The largest capacity that this library hands to `LfuCache::with_capacity`.
pub open spec fn capacity_limit() -> usize {
    (isize::MAX as usize) / 64
}

/// `LfuCache::with_capacity`: an empty cache that evicts once it holds
/// `capacity` entries; `0` makes it unbounded.
///
/// The capacity is bounded so that the reservation of the underlying hash
/// table cannot overflow; whether the allocation itself succeeds depends on
/// the machine and is not stated.
#[verifier::external_body]
pub(crate) fn lfu_with_capacity(capacity: usize) -> (cache: LfuCache<u128, ()>)
    requires
        capacity <= capacity_limit(),
    ensures
        lfu_queue(cache) == Seq::<(u128, usize)>::empty(),
        lfu_capacity(cache) == capacity,
{
    LfuCache::with_capacity(capacity)
}

/// `LfuCache::len`: the number of entries.
#[verifier::external_body]
pub(crate) fn lfu_len(cache: &LfuCache<u128, ()>) -> (n: usize)
    ensures
        n == lfu_queue(*cache).len(),
{
    cache.len()
}

/// `LfuCache::get`: an access to `key`. When the key is present its access
/// count grows by one and it moves up the queue (see `promoted`); otherwise
/// nothing changes. The count is an unchecked `usize` sum in the crate, so
/// the key's count must be below `usize::MAX`.
#[verifier::external_body]
pub(crate) fn lfu_get(cache: &mut LfuCache<u128, ()>, key: u128) -> (found: Option<()>)
    requires
        queue_wf(lfu_queue(*old(cache))),
        forall|i: int|
            0 <= i < lfu_queue(*old(cache)).len() && #[trigger] lfu_queue(*old(cache))[i].0 == key
                ==> lfu_queue(*old(cache))[i].1 < usize::MAX,
    ensures
        found is Some <==> queue_has(lfu_queue(*old(cache)), key),
        !queue_has(lfu_queue(*old(cache)), key) ==> lfu_queue(*final(cache)) == lfu_queue(
            *old(cache),
        ),
        forall|i: int|
            0 <= i < lfu_queue(*old(cache)).len() && #[trigger] lfu_queue(*old(cache))[i].0 == key
                ==> lfu_queue(*final(cache)) == promoted(lfu_queue(*old(cache)), i),
        lfu_capacity(*final(cache)) == lfu_capacity(*old(cache)),
{
    cache.get(&key).copied()
}

/// `LfuCache::insert` of a key that is not present. If the cache is bounded
/// and already holds `capacity` entries, the first entry of the queue is
/// evicted and `Some(())` comes back; the new key then enters the queue at
/// its front with an access count of zero.
#[verifier::external_body]
pub(crate) fn lfu_insert(cache: &mut LfuCache<u128, ()>, key: u128) -> (evicted: Option<()>)
    requires
        !queue_has(lfu_queue(*old(cache)), key),
    ensures
        ({
            let q = lfu_queue(*old(cache));
            let cap = lfu_capacity(*old(cache));
            if cap > 0 && cap <= q.len() {
                &&& evicted is Some
                &&& lfu_queue(*final(cache)) == seq![(key, 0usize)] + q.drop_first()
            } else {
                &&& evicted is None
                &&& lfu_queue(*final(cache)) == seq![(key, 0usize)] + q
            }
        }),
        lfu_capacity(*final(cache)) == lfu_capacity(*old(cache)),
{
    cache.insert(key, ())
}

/// `LfuCache::remove`: the entry for `key` leaves the queue, the others keep
/// their order and counts.
#[verifier::external_body]
pub(crate) fn lfu_remove(cache: &mut LfuCache<u128, ()>, key: u128) -> (removed: Option<()>)
    requires
        queue_wf(lfu_queue(*old(cache))),
    ensures
        removed is Some <==> queue_has(lfu_queue(*old(cache)), key),
        !queue_has(lfu_queue(*old(cache)), key) ==> lfu_queue(*final(cache)) == lfu_queue(
            *old(cache),
        ),
        forall|i: int|
            0 <= i < lfu_queue(*old(cache)).len() && #[trigger] lfu_queue(*old(cache))[i].0 == key
                ==> lfu_queue(*final(cache)) == lfu_queue(*old(cache)).remove(i),
        lfu_capacity(*final(cache)) == lfu_capacity(*old(cache)),
{
    cache.remove(&key)
}

/// `LfuCache::peek_lfu_key`: the key at the front of the queue, without an
/// access.
#[verifier::external_body]
pub(crate) fn lfu_peek_lfu_key(cache: &LfuCache<u128, ()>) -> (key: Option<u128>)
    ensures
        lfu_queue(*cache).len() == 0 ==> key is None,
        lfu_queue(*cache).len() > 0 ==> key == Some(lfu_queue(*cache)[0].0),
{
    cache.peek_lfu_key().copied()
}

/// `LfuCache::keys`: every key once, in no stated order.
#[verifier::external_body]
pub(crate) fn lfu_keys(cache: &LfuCache<u128, ()>) -> (keys: Vec<u128>)
    requires
        queue_wf(lfu_queue(*cache)),
    ensures
        keys@.len() == lfu_queue(*cache).len(),
        keys@.no_duplicates(),
        forall|k: u128| keys@.contains(k) <==> queue_has(lfu_queue(*cache), k),
{
    cache.keys().copied().collect()
}

/// `LfuCache::frequencies`: the access counts that occur in the queue, each
/// once, in ascending order.
#[verifier::external_body]
pub(crate) fn lfu_frequencies(cache: &LfuCache<u128, ()>) -> (counts: Vec<usize>)
    requires
        queue_wf(lfu_queue(*cache)),
    ensures
        forall|i: int, j: int| 0 <= i < j < counts@.len() ==> counts@[i] < counts@[j],
        forall|i: int|
            0 <= i < lfu_queue(*cache).len() ==> counts@.contains(#[trigger] lfu_queue(*cache)[i].1),
        forall|j: int|
            0 <= j < counts@.len() ==> exists|i: int|
                0 <= i < lfu_queue(*cache).len() && #[trigger] lfu_queue(*cache)[i].1
                    == #[trigger] counts@[j],
{
    cache.frequencies()
}

/// `LfuCache::clear`: every entry leaves; the capacity stays.
#[verifier::external_body]
pub(crate) fn lfu_clear(cache: &mut LfuCache<u128, ()>)
    ensures
        lfu_queue(*final(cache)) == Seq::<(u128, usize)>::empty(),
        lfu_capacity(*final(cache)) == lfu_capacity(*old(cache)),
{
    let _drained = cache.clear();
}

} // verus!
