//! What holds of the cache across its operations.
use vstd::prelude::*;

use crate::cache::{CacheView, FlushJob};
use crate::key::{hex_char, joined, key_filename, law_distinct_keys_have_distinct_files, nibble};
use crate::queue::{lemma_queue_index, lemma_removed, queue_has, queue_index};

verus! {

/// Every operation keeps the cache well formed: the eviction queue and the
/// loaded items agree, and a bounded cache never holds more items than its
/// capacity.
pub proof fn law_operations_keep_cache_well_formed<T>(v: CacheView<T>, k: u128, item: T, dirty: bool)
    requires
        v.wf(),
    ensures
        v.is_loaded(k) && v.access_count(k) < usize::MAX ==> v.accessed(k).wf(),
        v.is_loaded(k) ==> v.written(k, item).wf(),
        !v.is_loaded(k) ==> v.inserted(k, item, dirty).wf(),
        v.removed(k).wf(),
        v.cleared().wf(),
        v.capacity > 0 ==> v.queue.len() <= v.capacity,
{
    if v.is_loaded(k) && v.access_count(k) < usize::MAX {
        v.lemma_accessed(k);
    }
    if !v.is_loaded(k) {
        v.lemma_inserted(k);
    }
    v.lemma_removed(k);
}

/// Until the cache is full, inserting an item evicts nothing and asks for no
/// write: every item that was loaded stays loaded as it was.
pub proof fn law_no_eviction_until_full<T>(v: CacheView<T>, k: u128, item: T, dirty: bool)
    requires
        v.wf(),
        !v.is_loaded(k),
        !v.is_full(),
    ensures
        v.inserted(k, item, dirty).entries == v.entries.insert(k, (item, dirty)),
        v.inserted(k, item, dirty).queue.len() == v.queue.len() + 1,
        v.eviction_flush(None),
{
}

/// When the cache is full, inserting an item evicts the least frequently used
/// one: the evicted key has the smallest access count of all loaded keys,
/// leaves the cache, and every other item stays.
pub proof fn law_evicts_least_frequently_used<T>(v: CacheView<T>, k: u128, item: T, dirty: bool)
    requires
        v.wf(),
        !v.is_loaded(k),
        v.is_full(),
    ensures
        v.is_loaded(v.next_to_evict()),
        forall|x: u128| v.is_loaded(x) ==> v.access_count(v.next_to_evict()) <= v.access_count(x),
        !v.inserted(k, item, dirty).is_loaded(v.next_to_evict()),
        forall|x: u128|
            v.is_loaded(x) && x != v.next_to_evict() ==> v.inserted(k, item, dirty).entries[x]
                == v.entries[x],
        v.inserted(k, item, dirty).queue.len() == v.queue.len(),
{
    v.lemma_inserted(k);
    assert forall|x: u128| v.is_loaded(x) implies v.access_count(v.next_to_evict())
        <= v.access_count(x) by {
        lemma_queue_index(v.queue, x);
        lemma_queue_index(v.queue, v.next_to_evict());
        assert(v.queue[0].1 <= v.queue[queue_index(v.queue, x)].1);
    }
}

/// An inserted item is what the cache then holds under its key, and an
/// access leaves every item as it was: a read after a push gives back what
/// was pushed. A newly inserted entry has no accesses and, among the least
/// used, is the most recently added, so it is the next to be evicted; a push
/// or a load through `get_or_load` then counts one access to it.
pub proof fn law_read_after_insert<T>(v: CacheView<T>, k: u128, item: T, dirty: bool)
    requires
        v.wf(),
        !v.is_loaded(k),
    ensures
        v.inserted(k, item, dirty).is_loaded(k),
        v.inserted(k, item, dirty).entries[k] == (item, dirty),
        v.inserted(k, item, dirty).access_count(k) == 0,
        v.inserted(k, item, dirty).next_to_evict() == k,
        v.inserted(k, item, dirty).accessed(k).entries == v.inserted(k, item, dirty).entries,
        v.inserted(k, item, dirty).accessed(k).access_count(k) == 1,
        v.inserted(k, item, dirty).accessed(k).wf(),
{
    v.lemma_inserted(k);
    let n = v.inserted(k, item, dirty);
    assert(n.queue[0].0 == k);
    lemma_queue_index(n.queue, k);
    n.lemma_accessed(k);
}

/// A write through a mutable reference is what the cache then holds under
/// the key, and the item counts as changed, so that it is flushed.
pub proof fn law_read_after_write<T>(v: CacheView<T>, k: u128, item: T)
    requires
        v.wf(),
        v.is_loaded(k),
    ensures
        v.written(k, item).entries[k] == (item, true),
        v.written(k, item).is_dirty(k),
        forall|x: u128| x != k ==> v.written(k, item).entries.contains_key(x) == v.entries.contains_key(x),
        forall|x: u128| x != k && v.is_loaded(x) ==> v.written(k, item).entries[x] == v.entries[x],
{
}

/// Only new or changed items are written back: an item loaded from disk holds
/// no changes, an access does not change that, and an eviction asks for a
/// write only of an item that holds changes.
pub proof fn law_only_changed_items_are_flushed<T>(v: CacheView<T>, k: u128, item: T, x: u128)
    requires
        v.wf(),
        !v.is_loaded(k),
    ensures
        !v.inserted(k, item, false).is_dirty(k),
        v.inserted(k, item, true).is_dirty(k),
        v.is_loaded(x) && v.access_count(x) < usize::MAX ==> v.accessed(x).is_dirty(x) == v.is_dirty(x),
        v.is_full() && !v.is_dirty(v.next_to_evict()) ==> v.eviction_flush(None),
{
    if v.is_loaded(x) && v.access_count(x) < usize::MAX {
        v.lemma_accessed(x);
    }
}

/// A change is not lost by eviction: when the changed item is the one to be
/// evicted, the eviction asks for the changed item to be written to its
/// file.
pub proof fn law_eviction_keeps_changes<T>(v: CacheView<T>, k: u128, item: T, job: FlushJob<T>)
    requires
        v.wf(),
        v.is_loaded(k),
        v.written(k, item).is_full(),
        v.written(k, item).next_to_evict() == k,
        v.written(k, item).eviction_flush(Some(job)),
    ensures
        job.key == k,
        *job.item == item,
        job.path@ == v.path_for(k),
{
}

/// Deleting a key unloads it and leaves every other item as it was.
pub proof fn law_delete_unloads_only_its_key<T>(v: CacheView<T>, k: u128)
    requires
        v.wf(),
    ensures
        !v.removed(k).is_loaded(k),
        forall|x: u128| x != k ==> v.removed(k).is_loaded(x) == v.is_loaded(x),
        forall|x: u128| x != k && v.is_loaded(x) ==> v.removed(k).entries[x] == v.entries[x],
        v.removed(k).wf(),
{
    v.lemma_removed(k);
}

/// Clearing leaves nothing loaded and keeps the directory and capacity.
pub proof fn law_clear_unloads_everything<T>(v: CacheView<T>, k: u128)
    ensures
        !v.cleared().is_loaded(k),
        v.cleared().queue.len() == 0,
        v.cleared().directory == v.directory,
        v.cleared().capacity == v.capacity,
{
}

/// The backing directory is fixed when the cache is made: no operation
/// changes it, and with it the path of every key's file stays the same.
pub proof fn law_directory_never_changes<T>(v: CacheView<T>, k: u128, item: T, dirty: bool, x: u128)
    ensures
        v.accessed(k).directory == v.directory,
        v.written(k, item).directory == v.directory,
        v.inserted(k, item, dirty).directory == v.directory,
        v.removed(k).directory == v.directory,
        v.cleared().directory == v.directory,
        v.accessed(k).path_for(x) == v.path_for(x),
        v.written(k, item).path_for(x) == v.path_for(x),
        v.inserted(k, item, dirty).path_for(x) == v.path_for(x),
        v.removed(k).path_for(x) == v.path_for(x),
        v.cleared().path_for(x) == v.path_for(x),
{
}

/// What an insertion into the cache asks to be written: when the cache is
/// full and the item it evicts (the first in eviction order) holds changes,
/// the write of exactly that item to its file in the backing directory,
/// whatever the item's access count; otherwise nothing.
pub proof fn law_eviction_writes_back_changed_item<T>(v: CacheView<T>, job: Option<FlushJob<T>>)
    requires
        v.wf(),
        v.eviction_flush(job),
    ensures
        v.capacity > 0 && v.queue.len() >= v.capacity && v.entries[v.queue[0].0].1 ==> (job matches Some(j)
            && j.key == v.queue[0].0 && *j.item == v.entries[v.queue[0].0].0 && j.path@ == joined(
            v.directory,
            key_filename(v.queue[0].0),
        )),
        !(v.capacity > 0 && v.queue.len() >= v.capacity) ==> job is None,
        v.capacity > 0 && v.queue.len() >= v.capacity && !v.entries[v.queue[0].0].1 ==> job is None,
{
}

/// The file of a key lies in the backing directory: the path is the
/// directory, then a `/` unless the directory is empty or already ends in
/// one, then the key's 36-character name, its 32 hexadecimal digits (most
/// significant first) grouped 8-4-4-4-12 by hyphens.
pub proof fn law_path_is_in_backing_directory<T>(v: CacheView<T>, k: u128)
    ensures
        ({
            let d = v.directory;
            let p = v.path_for(k);
            let sep: int = if d.len() > 0 && d.last() != '/' { 1 } else { 0 };
            &&& p.len() == d.len() + sep + 36
            &&& p.subrange(0, d.len() as int) == d
            &&& sep == 1 ==> p[d.len() as int] == '/'
            &&& p.subrange(d.len() + sep, p.len() as int) == key_filename(k)
        }),
        key_filename(k).len() == 36,
        key_filename(k)[8] == '-' && key_filename(k)[13] == '-' && key_filename(k)[18] == '-'
            && key_filename(k)[23] == '-',
        forall|n: int|
            0 <= n < 8 ==> #[trigger] key_filename(k)[n] == hex_char(nibble(k, n) as int),
        forall|n: int|
            8 <= n < 12 ==> #[trigger] key_filename(k)[n + 1] == hex_char(nibble(k, n) as int),
        forall|n: int|
            12 <= n < 16 ==> #[trigger] key_filename(k)[n + 2] == hex_char(nibble(k, n) as int),
        forall|n: int|
            16 <= n < 20 ==> #[trigger] key_filename(k)[n + 3] == hex_char(nibble(k, n) as int),
        forall|n: int|
            20 <= n < 32 ==> #[trigger] key_filename(k)[n + 4] == hex_char(nibble(k, n) as int),
{
    let d = v.directory;
    let p = v.path_for(k);
    let sep: int = if d.len() > 0 && d.last() != '/' { 1 } else { 0 };
    assert(p.subrange(0, d.len() as int) =~= d);
    assert(p.subrange(d.len() + sep, p.len() as int) =~= key_filename(k));
}

/// Deleting a key touches no other entry: every other loaded key stays
/// loaded with its item, its changed mark and its access count, and the
/// eviction order of the other keys is kept.
pub proof fn law_delete_keeps_other_entries<T>(v: CacheView<T>, k: u128)
    requires
        v.wf(),
    ensures
        forall|x: u128|
            v.is_loaded(x) && x != k ==> #[trigger] v.removed(k).is_loaded(x) && v.removed(k).entries[x]
                == v.entries[x] && v.removed(k).access_count(x) == v.access_count(x),
        v.removed(k).queue.len() == if v.is_loaded(k) { v.queue.len() - 1 } else { v.queue.len() as int },
        forall|a: int, b: int|
            0 <= a < b < v.removed(k).queue.len() ==> queue_index(
                v.queue,
                #[trigger] v.removed(k).queue[a].0,
            ) < queue_index(v.queue, #[trigger] v.removed(k).queue[b].0),
{
    let r = v.removed(k).queue;
    if v.is_loaded(k) {
        lemma_queue_index(v.queue, k);
        let i = queue_index(v.queue, k);
        lemma_removed(v.queue, i);
        assert forall|a: int, b: int| 0 <= a < b < r.len() implies queue_index(
            v.queue,
            #[trigger] r[a].0,
        ) < queue_index(v.queue, #[trigger] r[b].0) by {
            let a2 = if a < i { a } else { a + 1 };
            let b2 = if b < i { b } else { b + 1 };
            assert(v.queue[a2] == r[a] && v.queue[b2] == r[b]);
            assert(queue_has(v.queue, r[a].0) && queue_has(v.queue, r[b].0));
            lemma_queue_index(v.queue, r[a].0);
            lemma_queue_index(v.queue, r[b].0);
        }
    } else {
        assert forall|a: int, b: int| 0 <= a < b < r.len() implies queue_index(
            v.queue,
            #[trigger] r[a].0,
        ) < queue_index(v.queue, #[trigger] r[b].0) by {
            assert(queue_has(v.queue, r[a].0) && queue_has(v.queue, r[b].0));
            lemma_queue_index(v.queue, r[a].0);
            lemma_queue_index(v.queue, r[b].0);
        }
    }
}

/// Distinct keys have distinct files in the backing directory.
pub proof fn law_distinct_keys_have_distinct_paths<T>(v: CacheView<T>, k1: u128, k2: u128)
    requires
        k1 != k2,
    ensures
        v.path_for(k1) != v.path_for(k2),
{
    law_distinct_keys_have_distinct_files(k1, k2);
    let n1 = key_filename(k1);
    let n2 = key_filename(k2);
    let p1 = v.path_for(k1);
    let p2 = v.path_for(k2);
    if p1 == p2 {
        assert(n1.len() == 36 && n2.len() == 36);
        let off = p1.len() - 36;
        assert(p1.subrange(off, p1.len() as int) =~= n1);
        assert(p2.subrange(off, p2.len() as int) =~= n2);
    }
}

} // verus!
