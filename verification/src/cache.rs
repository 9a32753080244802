//! The cache: which items are loaded, how often each was accessed, and
//! which of them carry changes that are not on disk yet.
use std::collections::hash_map::Entry;
use std::collections::HashMap;
use std::sync::Arc;

use lfu_cache::LfuCache;
use vstd::prelude::*;

use crate::error::Error;
use crate::key::{join_path, joined, key_filename, key_to_filename};
use crate::lfu::{
    capacity_limit, lfu_capacity, lfu_clear, lfu_frequencies, lfu_get, lfu_insert, lfu_keys,
    lfu_len, lfu_peek_lfu_key, lfu_queue, lfu_remove, lfu_with_capacity,
};
use crate::queue::{
    lemma_promoted, lemma_pushed_front, lemma_queue_index, lemma_removed, promoted, queue_count,
    queue_has, queue_index, queue_wf,
};

verus! {

broadcast use vstd::std_specs::hash::group_hash_axioms;

/// The state of a cache as its contracts speak of it.
pub struct CacheView<T> {
    /// The backing directory.
    pub directory: Seq<char>,
    /// The number of items the cache holds before it evicts; `0` for none.
    pub capacity: usize,
    /// The loaded keys in eviction order, with their access counts.
    pub queue: Seq<(u128, usize)>,
    /// The loaded items, each with whether it holds changes not yet on disk.
    pub entries: Map<u128, (T, bool)>,
}

impl<T> CacheView<T> {
    /// The queue and the items agree, and a bounded cache holds no more than
    /// its capacity.
    pub open spec fn wf(self) -> bool {
        &&& queue_wf(self.queue)
        &&& forall|k: u128| #[trigger] self.entries.contains_key(k) <==> queue_has(self.queue, k)
        &&& self.capacity > 0 ==> self.queue.len() <= self.capacity
    }

    pub open spec fn is_loaded(self, k: u128) -> bool {
        self.entries.contains_key(k)
    }

    pub open spec fn is_dirty(self, k: u128) -> bool {
        self.entries[k].1
    }

    /// The number of accesses to a loaded key since it was loaded.
    pub open spec fn access_count(self, k: u128) -> usize {
        queue_count(self.queue, k)
    }

    /// Whether one more access to `k` can be counted.
    pub open spec fn can_count_access(self, k: u128) -> bool {
        self.is_loaded(k) ==> self.access_count(k) < usize::MAX
    }

    /// Whether inserting a new key evicts one.
    pub open spec fn is_full(self) -> bool {
        self.capacity > 0 && self.queue.len() >= self.capacity
    }

    /// The key that the next eviction removes.
    pub open spec fn next_to_evict(self) -> u128 {
        self.queue[0].0
    }

    /// The path of the file that holds the item with key `k`.
    pub open spec fn path_for(self, k: u128) -> Seq<char> {
        joined(self.directory, key_filename(k))
    }

    /// The cache after an access to loaded key `k`.
    pub open spec fn accessed(self, k: u128) -> Self {
        CacheView { queue: promoted(self.queue, queue_index(self.queue, k)), ..self }
    }

    /// The cache after the item of loaded key `k` was replaced by `item` and
    /// marked as changed.
    pub open spec fn written(self, k: u128, item: T) -> Self {
        CacheView { entries: self.entries.insert(k, (item, true)), ..self }
    }

    /// The cache after inserting key `k` that was not loaded: when full, the
    /// next key to evict leaves first; the new key enters with no accesses.
    pub open spec fn inserted(self, k: u128, item: T, dirty: bool) -> Self {
        let (queue, entries) = if self.is_full() {
            (self.queue.drop_first(), self.entries.remove(self.next_to_evict()))
        } else {
            (self.queue, self.entries)
        };
        CacheView {
            queue: seq![(k, 0usize)] + queue,
            entries: entries.insert(k, (item, dirty)),
            ..self
        }
    }

    /// The cache after key `k` left it.
    pub open spec fn removed(self, k: u128) -> Self {
        CacheView {
            queue: if self.is_loaded(k) {
                self.queue.remove(queue_index(self.queue, k))
            } else {
                self.queue
            },
            entries: self.entries.remove(k),
            ..self
        }
    }

    /// The cache after every item left it.
    pub open spec fn cleared(self) -> Self {
        CacheView { queue: Seq::empty(), entries: Map::empty(), ..self }
    }

    /// Whether `job` writes the item of loaded key `k` to its file.
    pub open spec fn flushes(self, job: FlushJob<T>, k: u128) -> bool {
        &&& job.key == k
        &&& job.path@ == self.path_for(k)
        &&& *job.item == self.entries[k].0
    }

    /// Whether `job` is what inserting a new key asks to be written: the
    /// evicted item when one is evicted and it holds changes, else nothing.
    pub open spec fn eviction_flush(self, job: Option<FlushJob<T>>) -> bool {
        if self.is_full() && self.is_dirty(self.next_to_evict()) {
            job matches Some(j) && self.flushes(j, self.next_to_evict())
        } else {
            job is None
        }
    }
}

impl<T> CacheView<T> {
    /// An access keeps the cache well formed and its items as they were; the
    /// accessed key's count grows by one, the others' stay.
    pub proof fn lemma_accessed(self, k: u128)
        requires
            self.wf(),
            self.is_loaded(k),
            self.access_count(k) < usize::MAX,
        ensures
            self.accessed(k).wf(),
            self.accessed(k).entries == self.entries,
            self.accessed(k).queue.len() == self.queue.len(),
            self.accessed(k).access_count(k) == self.access_count(k) + 1,
            forall|x: u128|
                self.is_loaded(x) && x != k ==> self.accessed(k).access_count(x)
                    == self.access_count(x),
    {
        lemma_queue_index(self.queue, k);
        lemma_promoted(self.queue, queue_index(self.queue, k));
    }

    /// Inserting a key that is not loaded keeps the cache well formed.
    pub proof fn lemma_inserted(self, k: u128)
        requires
            self.wf(),
            !self.is_loaded(k),
        ensures
            forall|item: T, dirty: bool| #[trigger] self.inserted(k, item, dirty).wf(),
            self.is_full() ==> self.is_loaded(self.next_to_evict()),
    {
        if self.is_full() {
            lemma_removed(self.queue, 0);
            assert(self.queue.remove(0) =~= self.queue.drop_first());
            assert(queue_has(self.queue, self.queue[0].0));
            lemma_pushed_front(self.queue.drop_first(), k);
        } else {
            lemma_pushed_front(self.queue, k);
        }
    }

    /// Removing a key keeps the cache well formed.
    pub proof fn lemma_removed(self, k: u128)
        requires
            self.wf(),
        ensures
            self.removed(k).wf(),
    {
        if self.is_loaded(k) {
            lemma_queue_index(self.queue, k);
            lemma_removed(self.queue, queue_index(self.queue, k));
        }
    }
}

/// Replacing one entry of a map and then transforming every value gives the
/// transformed map with that one entry replaced.
pub broadcast proof fn lemma_map_values_insert<K, V, W>(
    m: Map<K, V>,
    k: K,
    v: V,
    f: spec_fn(V) -> W,
)
    ensures
        #[trigger] m.insert(k, v).map_values(f) == m.map_values(f).insert(k, f(v)),
{
    assert(m.insert(k, v).map_values(f) =~= m.map_values(f).insert(k, f(v)));
}

/// Putting back the value that a key already has leaves a map as it was.
pub broadcast proof fn lemma_map_insert_same<K, V>(m: Map<K, V>, k: K, v: V)
    requires
        m.contains_key(k),
        m[k] == v,
    ensures
        #[trigger] m.insert(k, v) == m,
{
    assert(m.insert(k, v) =~= m);
}

/// An item to be written to a file.
#[derive(Debug)]
pub struct FlushJob<T> {
    /// The key of the item.
    pub key: u128,
    /// The path of the file to write.
    pub path: String,
    /// The item.
    pub item: Arc<T>,
}

/// An item held in memory, with whether it carries changes not yet on disk.
#[derive(Debug)]
struct Slot<T> {
    item: Arc<T>,
    dirty: bool,
}

/// A LFU (least frequently used) cache layered on top a file system, where
/// files can be accessed using their unique keys.
///
/// Files can be loaded from disk and stored in cache. When evicted from
/// cache, an item is to be flushed to disk if it is new or was changed.
#[derive(Debug)]
pub struct FileBackedLfuCache<T> {
    /// The storage directory for this cache.
    directory: String,
    /// The eviction order of the loaded keys.
    cache: LfuCache<u128, ()>,
    /// The loaded items.
    items: HashMap<u128, Slot<T>>,
}

impl<T> View for FileBackedLfuCache<T> {
    type V = CacheView<T>;

    closed spec fn view(&self) -> CacheView<T> {
        CacheView {
            directory: self.directory@,
            capacity: lfu_capacity(self.cache),
            queue: lfu_queue(self.cache),
            entries: self.items@.map_values(|s: Slot<T>| (*s.item, s.dirty)),
        }
    }
}

/// `Arc::clone`: another `Arc` to the same value.
#[verifier::external_body]
fn share<T>(arc: &Arc<T>) -> (r: Arc<T>)
    ensures
        *r == **arc,
{
    Arc::clone(arc)
}

/// `Arc::get_mut`: a mutable reference to the shared value when no other
/// `Arc` to it exists. Whether another exists is not stated.
#[verifier::external_body]
fn arc_get_mut<T>(arc: &mut Arc<T>) -> (r: Option<&mut T>)
    ensures
        match r {
            Some(m) => *m == **old(arc) && **final(arc) == *final(m),
            None => *final(arc) == *old(arc),
        },
{
    Arc::get_mut(arc)
}

impl<T> FileBackedLfuCache<T> {
    pub open spec fn wf(self) -> bool {
        self@.wf()
    }

    proof fn lemma_view_entries(self, k: u128)
        ensures
            self@.entries.contains_key(k) == self.items@.contains_key(k),
            self.items@.contains_key(k) ==> self@.entries[k] == (
                *self.items@[k].item,
                self.items@[k].dirty,
            ),
    {
    }

    /// Initialises a cache of the given size with `path` as its backing
    /// directory. A size of `0` makes the cache unbounded.
    ///
    /// `path_is_dir` tells whether `path` resolves to a directory; if it does
    /// not, the cache refuses it.
    pub fn init<E>(path: String, path_is_dir: bool, size: usize) -> (r: Result<Self, Error<u128, E>>)
        requires
            size <= capacity_limit(),
        ensures
            path_is_dir ==> (r matches Ok(c) && c.wf() && c@ == CacheView::<T> {
                directory: path@,
                capacity: size,
                queue: Seq::empty(),
                entries: Map::empty(),
            }),
            !path_is_dir ==> (r matches Err(Error::Init(p)) && p@ == path@),
    {
        if !path_is_dir {
            return Err(Error::Init(path));
        }
        let cache = lfu_with_capacity(size);
        let items: HashMap<u128, Slot<T>> = HashMap::new();
        let c = FileBackedLfuCache { directory: path, cache, items };
        assert(c@.entries =~= Map::empty());
        Ok(c)
    }

    /// Whether `init` accepts `size`: sizes beyond this bound would overflow
    /// the reservation of the underlying table.
    pub fn size_is_supported(size: usize) -> (b: bool)
        ensures
            b == (size <= capacity_limit()),
    {
        size <= (isize::MAX as usize) / 64
    }

    /// The number of items loaded in cache.
    pub fn loaded_count(&self) -> (n: usize)
        ensures
            n == self@.queue.len(),
    {
        lfu_len(&self.cache)
    }

    /// The backing directory of this cache on disk.
    pub fn get_backing_directory(&self) -> (dir: &str)
        ensures
            dir@ == self@.directory,
    {
        self.directory.as_str()
    }

    /// The file path in the backing directory for a key, whether or not an
    /// item with this key exists.
    pub fn get_path_for(&self, key: u128) -> (p: String)
        ensures
            p@ == self@.path_for(key),
            p@ == joined(self@.directory, key_filename(key)),
    {
        let name = key_to_filename(key);
        join_path(self.directory.as_str(), name.as_str())
    }

    /// Whether an item with this key is loaded in cache.
    pub fn has_loaded_key(&self, key: u128) -> (b: bool)
        ensures
            b == self@.is_loaded(key),
    {
        self.items.contains_key(&key)
    }

    /// Whether an item with this key exists, in cache or on disk;
    /// `flushed` tells whether its file exists in the backing directory.
    pub fn has_key(&self, key: u128, flushed: bool) -> (b: bool)
        ensures
            b == (self@.is_loaded(key) || flushed),
    {
        self.has_loaded_key(key) || flushed
    }

    /// Gets an item from cache, if present, and counts an access to it.
    pub fn get<E>(&mut self, key: u128) -> (r: Result<Arc<T>, Error<u128, E>>)
        requires
            old(self).wf(),
            old(self)@.can_count_access(key),
        ensures
            final(self).wf(),
            old(self)@.is_loaded(key) ==> (r matches Ok(item) && *item == old(self)@.entries[key].0
                && final(self)@ == old(self)@.accessed(key)),
            !old(self)@.is_loaded(key) ==> (r == Err::<Arc<T>, Error<u128, E>>(
                Error::NotInCache(key),
            ) && final(self)@ == old(self)@),
    {
        let ghost v = self@;
        proof {
            if v.is_loaded(key) {
                v.lemma_accessed(key);
                lemma_queue_index(v.queue, key);
            }
        }
        let found = lfu_get(&mut self.cache, key);
        proof {
            if v.is_loaded(key) {
                assert(self@.queue == v.accessed(key).queue);
            }
        }
        match found {
            Some(()) => match self.items.get(&key) {
                Some(slot) => {
                    proof {
                        self.lemma_view_entries(key);
                    }
                    Ok(share(&slot.item))
                },
                None => {
                    proof {
                        self.lemma_view_entries(key);
                    }
                    Err(Error::NotInCache(key))
                },
            },
            None => Err(Error::NotInCache(key)),
        }
    }

    /// Gets a mutable reference to an item in cache and counts an access to
    /// it; the item then counts as changed.
    ///
    /// If other `Arc`s point to the item, the reference is refused with
    /// `Immutable`, as it is not safe to mutate a shared value; the access
    /// is counted all the same.
    pub fn get_mut<E>(&mut self, key: u128) -> (r: Result<&mut T, Error<u128, E>>)
        requires
            old(self).wf(),
            old(self)@.can_count_access(key),
        ensures
            final(self).wf(),
            !old(self)@.is_loaded(key) ==> (r matches Err(Error::NotInCache(k)) && k == key
                && final(self)@ == old(self)@),
            old(self)@.is_loaded(key) ==> match r {
                Ok(item) => *item == old(self)@.entries[key].0 && final(self)@ == old(
                    self,
                )@.accessed(key).written(key, *final(item)),
                Err(e) => e == Error::<u128, E>::Immutable(key) && final(self)@ == old(
                    self,
                )@.accessed(key),
            },
    {
        let ghost v = self@;
        proof {
            if v.is_loaded(key) {
                v.lemma_accessed(key);
                lemma_queue_index(v.queue, key);
            }
        }
        broadcast use lemma_map_values_insert, lemma_map_insert_same;

        let found = lfu_get(&mut self.cache, key);
        proof {
            if v.is_loaded(key) {
                assert(self@.queue == v.accessed(key).queue);
            }
            self.lemma_view_entries(key);
        }
        if found.is_none() {
            return Err(Error::NotInCache(key));
        }
        match self.items.entry(key) {
            Entry::Occupied(occupied) => {
                let slot = occupied.into_mut();
                match arc_get_mut(&mut slot.item) {
                    Some(item) => {
                        slot.dirty = true;
                        Ok(item)
                    },
                    None => Err(Error::Immutable(key)),
                }
            },
            Entry::Vacant(_) => Err(Error::NotInCache(key)),
        }
    }

    /// Inserts an item under a key that is not loaded, evicting the next key
    /// to evict when the cache is full; returns the write that the eviction
    /// calls for.
    fn insert_entry(&mut self, key: u128, item: Arc<T>, dirty: bool) -> (job: Option<FlushJob<T>>)
        requires
            old(self).wf(),
            !old(self)@.is_loaded(key),
        ensures
            final(self).wf(),
            final(self)@ == old(self)@.inserted(key, *item, dirty),
            old(self)@.eviction_flush(job),
            ({
                let v = old(self)@;
                let out = v.queue[0].0;
                if v.capacity > 0 && v.queue.len() >= v.capacity && v.entries[out].1 {
                    job matches Some(j) && j.key == out && *j.item == v.entries[out].0 && j.path@
                        == joined(v.directory, key_filename(out))
                } else {
                    job is None
                }
            }),
    {
        let ghost v = self@;
        proof {
            v.lemma_inserted(key);
            if v.is_full() {
                self.lemma_view_entries(v.next_to_evict());
            }
        }
        let flush_key = lfu_peek_lfu_key(&self.cache);
        let evicted = lfu_insert(&mut self.cache, key);
        let mut job: Option<FlushJob<T>> = None;
        if evicted.is_some() {
            match flush_key {
                Some(k) => {
                    let removed = self.items.remove(&k);
                    match removed {
                        Some(slot) => {
                            if slot.dirty {
                                let path = self.get_path_for(k);
                                job = Some(FlushJob { key: k, path, item: slot.item });
                            }
                        },
                        None => {},
                    }
                },
                None => {},
            }
        }
        self.items.insert(key, Slot { item, dirty });
        proof {
            let e = if v.is_full() {
                v.entries.remove(v.next_to_evict())
            } else {
                v.entries
            };
            assert(self@.entries =~= e.insert(key, (*item, dirty)));
            assert(self@ == v.inserted(key, *item, dirty));
            assert(v.inserted(key, *item, dirty).wf());
        }
        job
    }

    /// Inserts an item that was just loaded from disk under a key that is
    /// not loaded. The item counts as unchanged, and no access is counted:
    /// the caller's next step, `get_mut`, counts it.
    ///
    /// When the cache is full, the least frequently used item is evicted;
    /// if it holds changes, the write of it to its file comes back.
    pub fn insert_and_handle_eviction(&mut self, key: u128, item: Arc<T>) -> (job: Option<
        FlushJob<T>,
    >)
        requires
            old(self).wf(),
            !old(self)@.is_loaded(key),
        ensures
            final(self).wf(),
            final(self)@ == old(self)@.inserted(key, *item, false),
            old(self)@.eviction_flush(job),
    {
        self.insert_entry(key, item, false)
    }

    /// Inserts an item under a key that is not loaded, as `insert_entry`
    /// does, and counts one access to it.
    fn insert_and_count(&mut self, key: u128, item: Arc<T>, dirty: bool) -> (job: Option<
        FlushJob<T>,
    >)
        requires
            old(self).wf(),
            !old(self)@.is_loaded(key),
        ensures
            final(self).wf(),
            final(self)@ == old(self)@.inserted(key, *item, dirty).accessed(key),
            old(self)@.eviction_flush(job),
    {
        let ghost v = self@;
        proof {
            v.lemma_inserted(key);
        }
        let job = self.insert_entry(key, item, dirty);
        let ghost mid = self@;
        proof {
            assert(mid.queue[0].0 == key);
            lemma_queue_index(mid.queue, key);
            mid.lemma_accessed(key);
        }
        let _found = lfu_get(&mut self.cache, key);
        proof {
            assert(self@.queue == mid.accessed(key).queue);
        }
        job
    }

    /// Inserts an item that was just loaded from disk under a key that is
    /// not loaded, counts one access to it, and hands back the item with the
    /// write that an eviction calls for. The item counts as unchanged.
    pub fn insert_loaded_and_get(&mut self, key: u128, item: T) -> (r: (Arc<T>, Option<
        FlushJob<T>,
    >))
        requires
            old(self).wf(),
            !old(self)@.is_loaded(key),
        ensures
            final(self).wf(),
            *r.0 == item,
            final(self)@ == old(self)@.inserted(key, item, false).accessed(key),
            old(self)@.eviction_flush(r.1),
    {
        let item = Arc::new(item);
        let shared = share(&item);
        let job = self.insert_and_count(key, item, false);
        (shared, job)
    }

    /// Pushes a new item into cache under `key`, which is not loaded, and
    /// counts one access to it. The item counts as changed, so it is written
    /// to disk when evicted or flushed.
    pub fn push_with_key(&mut self, key: u128, item: T) -> (job: Option<FlushJob<T>>)
        requires
            old(self).wf(),
            !old(self)@.is_loaded(key),
        ensures
            final(self).wf(),
            final(self)@ == old(self)@.inserted(key, item, true).accessed(key),
            old(self)@.eviction_flush(job),
    {
        self.insert_and_count(key, Arc::new(item), true)
    }

    /// Pushes a new item into cache under `key`, a newly drawn key, counts
    /// one access to it, and returns the write that an eviction calls for.
    /// The item counts as changed.
    ///
    /// Should `key` already be loaded, nothing changes and the item comes
    /// back as the error.
    pub fn push(&mut self, key: u128, item: T) -> (r: Result<Option<FlushJob<T>>, T>)
        requires
            old(self).wf(),
        ensures
            final(self).wf(),
            r is Ok <==> !old(self)@.is_loaded(key),
            r matches Ok(job) ==> final(self)@ == old(self)@.inserted(key, item, true).accessed(
                key,
            ) && old(
                self,
            )@.eviction_flush(job),
            r matches Err(back) ==> back == item && final(self)@ == old(self)@,
    {
        if self.has_loaded_key(key) {
            return Err(item);
        }
        Ok(self.push_with_key(key, item))
    }

    /// The path from which to load the item with this key: `NotFound` when
    /// its file does not exist, as `file_exists` tells.
    pub fn path_to_load<E>(&self, key: u128, file_exists: bool) -> (r: Result<String, Error<u128, E>>)
        ensures
            file_exists ==> (r matches Ok(p) && p@ == self@.path_for(key)),
            !file_exists ==> r == Err::<String, Error<u128, E>>(Error::NotFound(key)),
    {
        if !file_exists {
            return Err(Error::NotFound(key));
        }
        Ok(self.get_path_for(key))
    }

    /// The write of an item straight to the backing directory, without the
    /// cache, under `key`, a newly drawn key.
    pub fn direct_flush(&self, key: u128, item: T) -> (job: FlushJob<T>)
        ensures
            job.key == key,
            job.path@ == self@.path_for(key),
            *job.item == item,
    {
        let path = self.get_path_for(key);
        FlushJob { key, path, item: Arc::new(item) }
    }

    /// The write of an item in cache to its file: none when the item holds no
    /// changes. Neither counts an access nor evicts.
    pub fn flush<E>(&self, key: u128) -> (r: Result<Option<FlushJob<T>>, Error<u128, E>>)
        requires
            self.wf(),
        ensures
            !self@.is_loaded(key) ==> (r matches Err(Error::NotInCache(k)) && k == key),
            self@.is_loaded(key) && self@.is_dirty(key) ==> (r matches Ok(Some(job))
                && self@.flushes(job, key)),
            self@.is_loaded(key) && !self@.is_dirty(key) ==> (r matches Ok(None)),
    {
        proof {
            self.lemma_view_entries(key);
        }
        match self.items.get(&key) {
            None => Err(Error::NotInCache(key)),
            Some(slot) => {
                if slot.dirty {
                    let path = self.get_path_for(key);
                    Ok(Some(FlushJob { key, path, item: share(&slot.item) }))
                } else {
                    Ok(None)
                }
            },
        }
    }

    /// The writes of every item in cache that holds changes, each once, in no
    /// stated order. Neither counts an access nor evicts.
    pub fn flush_all(&self) -> (jobs: Vec<FlushJob<T>>)
        requires
            self.wf(),
        ensures
            forall|i: int|
                0 <= i < jobs@.len() ==> self@.is_loaded(#[trigger] jobs@[i].key) && self@.is_dirty(
                    jobs@[i].key,
                ) && self@.flushes(jobs@[i], jobs@[i].key),
            forall|i: int, j: int|
                0 <= i < j < jobs@.len() ==> #[trigger] jobs@[i].key != #[trigger] jobs@[j].key,
            forall|k: u128|
                self@.is_loaded(k) && self@.is_dirty(k) ==> exists|i: int|
                    0 <= i < jobs@.len() && #[trigger] jobs@[i].key == k,
    {
        let keys = lfu_keys(&self.cache);
        let mut jobs: Vec<FlushJob<T>> = Vec::new();
        let mut i: usize = 0;
        while i < keys.len()
            invariant
                self.wf(),
                keys@.no_duplicates(),
                forall|k: u128| keys@.contains(k) <==> queue_has(self@.queue, k),
                0 <= i <= keys@.len(),
                forall|m: int|
                    0 <= m < jobs@.len() ==> self@.is_loaded(#[trigger] jobs@[m].key)
                        && self@.is_dirty(jobs@[m].key) && self@.flushes(jobs@[m], jobs@[m].key)
                        && keys@.subrange(0, i as int).contains(jobs@[m].key),
                forall|m: int, n: int|
                    0 <= m < n < jobs@.len() ==> #[trigger] jobs@[m].key != #[trigger] jobs@[n].key,
                forall|t: int|
                    0 <= t < i && self@.is_dirty(#[trigger] keys@[t]) ==> exists|m: int|
                        0 <= m < jobs@.len() && #[trigger] jobs@[m].key == keys@[t],
            decreases keys@.len() - i,
        {
            let k = keys[i];
            let ghost before = jobs@;
            proof {
                assert(keys@.contains(k));
                self.lemma_view_entries(k);
                assert forall|m: int| 0 <= m < jobs@.len() implies #[trigger] jobs@[m].key != k by {
                    let t = choose|t: int| 0 <= t < i && keys@.subrange(0, i as int)[t] == jobs@[m].key;
                    assert(keys@[t] == jobs@[m].key);
                }
            }
            match self.items.get(&k) {
                Some(slot) => {
                    if slot.dirty {
                        let path = self.get_path_for(k);
                        jobs.push(FlushJob { key: k, path, item: share(&slot.item) });
                        proof {
                            let last = jobs@.len() - 1;
                            assert(jobs@[last].key == k);
                        }
                    }
                },
                None => {},
            }
            proof {
                assert forall|m: int|
                    0 <= m < jobs@.len() implies keys@.subrange(0, i + 1).contains(
                    #[trigger] jobs@[m].key,
                ) by {
                    if m < jobs@.len() - 1 || !(jobs@[m].key == k) {
                        let t = choose|t: int|
                            0 <= t < i && keys@.subrange(0, i as int)[t] == jobs@[m].key;
                        assert(keys@.subrange(0, i + 1)[t] == jobs@[m].key);
                    } else {
                        assert(keys@.subrange(0, i + 1)[i as int] == k);
                    }
                }
                assert forall|t: int|
                    0 <= t < i + 1 && self@.is_dirty(#[trigger] keys@[t]) implies exists|m: int|
                    0 <= m < jobs@.len() && #[trigger] jobs@[m].key == keys@[t] by {
                    if t == i {
                        assert(jobs@[jobs@.len() - 1].key == k);
                    } else {
                        let m = choose|m: int| 0 <= m < before.len() && #[trigger] before[m].key == keys@[t];
                        assert(jobs@[m] == before[m]);
                    }
                }
            }
            i = i + 1;
        }
        proof {
            assert forall|k: u128| self@.is_loaded(k) && self@.is_dirty(k) implies exists|m: int|
                0 <= m < jobs@.len() && #[trigger] jobs@[m].key == k by {
                assert(keys@.contains(k));
                let t = choose|t: int| 0 <= t < keys@.len() && keys@[t] == k;
                assert(self@.is_dirty(keys@[t]));
            }
        }
        jobs
    }

    /// Evicts every item from cache, provided that `flushed`, the outcome of
    /// the flush that was to come first, is `Ok`; hands that outcome back.
    pub fn clear_cache<E>(&mut self, flushed: Result<(), Vec<Error<u128, E>>>) -> (r: Result<
        (),
        Vec<Error<u128, E>>,
    >)
        requires
            old(self).wf(),
        ensures
            final(self).wf(),
            r == flushed,
            flushed is Ok ==> final(self)@ == old(self)@.cleared(),
            flushed is Err ==> final(self)@ == old(self)@,
    {
        if flushed.is_ok() {
            lfu_clear(&mut self.cache);
            self.items.clear();
            proof {
                assert(self@.entries =~= Map::empty());
            }
        }
        flushed
    }

    /// Deletes an item from cache and asks for its file to be deleted when
    /// `on_disk` tells that it exists; `NotFound` when the item is neither
    /// loaded nor on disk.
    pub fn delete<E>(&mut self, key: u128, on_disk: bool) -> (r: Result<Option<String>, Error<u128, E>>)
        requires
            old(self).wf(),
        ensures
            final(self).wf(),
            !old(self)@.is_loaded(key) && !on_disk ==> (r matches Err(Error::NotFound(k)) && k
                == key && final(self)@ == old(self)@),
            old(self)@.is_loaded(key) || on_disk ==> final(self)@ == old(self)@.removed(key),
            on_disk ==> (r matches Ok(Some(p)) && p@ == old(self)@.path_for(key)),
            old(self)@.is_loaded(key) && !on_disk ==> r matches Ok(None),
            forall|x: u128|
                old(self)@.is_loaded(x) && x != key ==> {
                    &&& final(self)@.is_loaded(x)
                    &&& final(self)@.access_count(x) == old(self)@.access_count(x)
                    &&& final(self)@.entries[x] == old(self)@.entries[x]
                },
    {
        let ghost v = self@;
        proof {
            v.lemma_removed(key);
            if v.is_loaded(key) {
                lemma_queue_index(v.queue, key);
            }
        }
        if !self.has_key(key, on_disk) {
            return Err(Error::NotFound(key));
        }
        lfu_remove(&mut self.cache, key);
        self.items.remove(&key);
        proof {
            assert(self@.entries =~= v.entries.remove(key));
        }
        if on_disk {
            Ok(Some(self.get_path_for(key)))
        } else {
            Ok(None)
        }
    }

    /// Whether one more access to each loaded item can be counted.
    pub fn access_counts_below_limit(&self) -> (b: bool)
        requires
            self.wf(),
        ensures
            b == forall|k: u128| self@.can_count_access(k),
    {
        let counts = lfu_frequencies(&self.cache);
        let n = counts.len();
        let b = n == 0 || counts[n - 1] < usize::MAX;
        proof {
            let q = self@.queue;
            if b {
                assert forall|k: u128| self@.can_count_access(k) by {
                    if self@.is_loaded(k) {
                        lemma_queue_index(q, k);
                        let i = queue_index(q, k);
                        assert(counts@.contains(q[i].1));
                        let j = choose|j: int| 0 <= j < counts@.len() && counts@[j] == q[i].1;
                        if j < n - 1 {
                            assert(counts@[j] < counts@[n - 1]);
                        }
                    }
                }
            } else {
                let i = choose|i: int| 0 <= i < q.len() && q[i].1 == counts@[n - 1];
                assert(queue_has(q, q[i].0));
                lemma_queue_index(q, q[i].0);
                assert(!self@.can_count_access(q[i].0));
            }
        }
        b
    }
}

} // verus!
