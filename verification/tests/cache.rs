use std::collections::HashSet;
use std::sync::Arc;

use file_lfu::{collect_flush_errors, Error, FileBackedLfuCache, FlushJob};
use uuid::Uuid;

/// A test item: the lines of a file.
#[derive(Debug, Clone, PartialEq, Eq)]
struct AllLines(Vec<String>);

impl AllLines {
    fn new(tag: &str) -> Self {
        AllLines((0..10).map(|i| format!("{tag}{i}")).collect())
    }
}

type Cache = FileBackedLfuCache<AllLines>;
type CacheError = Error<u128, String>;

const KEY0: u128 = 0x215a316d_4b3e_4bc3_9acb_2a3f992045d3;
const KEY1: u128 = 0xb6174a01_334d_4924_ad4c_e044d7228560;

fn empty_cache(capacity: usize) -> Cache {
    let cache = FileBackedLfuCache::init::<String>("/data/cache".to_string(), true, capacity);
    let cache = cache.unwrap();
    assert_eq!(cache.loaded_count(), 0);
    cache
}

/// A cache whose directory holds the files of `KEY0` and `KEY1`, with both
/// loaded as `get_or_load` loads them.
fn filled_cache() -> Cache {
    let mut cache = empty_cache(2);
    for (key, tag) in [(KEY0, "zero"), (KEY1, "one")] {
        let path = cache.path_to_load::<String>(key, true).unwrap();
        assert_eq!(path, cache.get_path_for(key));
        let (item, job) = cache.insert_loaded_and_get(key, AllLines::new(tag));
        assert_eq!(*item, AllLines::new(tag));
        assert!(job.is_none());
    }
    assert_eq!(cache.loaded_count(), 2);
    cache
}

/// Pushes an item under a newly drawn key, as a caller does.
fn push_new(cache: &mut Cache, item: AllLines) -> (u128, Option<FlushJob<AllLines>>) {
    let key = Uuid::new_v4().as_u128();
    let job = cache.push(key, item).ok().unwrap();
    (key, job)
}

fn job_key(job: &Option<FlushJob<AllLines>>) -> Option<u128> {
    job.as_ref().map(|j| j.key)
}

#[test]
fn can_load_when_not_full() {
    let mut cache = empty_cache(3);
    for key in [KEY0, KEY1] {
        let job = cache.insert_and_handle_eviction(key, Arc::new(AllLines::new("x")));
        assert!(job.is_none());
    }
    assert_eq!(cache.loaded_count(), 2);
}

#[test]
fn can_load_when_full() {
    let mut cache = empty_cache(1);
    for key in [KEY0, KEY1] {
        let job = cache.insert_and_handle_eviction(key, Arc::new(AllLines::new("x")));
        // items loaded from disk hold no changes, so an eviction writes nothing
        assert!(job.is_none());
        assert_eq!(cache.loaded_count(), 1);
        assert!(cache.has_loaded_key(key));
    }
    assert!(!cache.has_loaded_key(KEY0));
}

#[test]
fn can_get() {
    let mut cache = filled_cache();
    assert_eq!(*cache.get::<String>(KEY0).unwrap(), AllLines::new("zero"));
    assert_eq!(*cache.get::<String>(KEY1).unwrap(), AllLines::new("one"));
}

#[test]
fn can_reject_random_key() {
    let cache = empty_cache(3);
    let key = Uuid::new_v4().as_u128();
    let res = cache.path_to_load::<String>(key, false);
    assert!(matches!(res, Err(Error::NotFound(k)) if k == key));
}

#[test]
fn can_reject_key_not_in_cache() {
    let mut cache = empty_cache(3);
    assert_eq!(cache.get::<String>(KEY0).unwrap_err(), Error::NotInCache(KEY0));
    assert!(matches!(cache.get_mut::<String>(KEY0), Err(Error::NotInCache(k)) if k == KEY0));
    assert!(matches!(cache.flush::<String>(KEY0), Err(Error::NotInCache(k)) if k == KEY0));
}

#[test]
fn can_load_mut_when_not_full() {
    let mut cache = empty_cache(3);
    for key in [KEY0, KEY1] {
        cache.insert_and_handle_eviction(key, Arc::new(AllLines::new("x")));
        assert!(cache.get_mut::<String>(key).is_ok());
    }
    assert_eq!(cache.loaded_count(), 2);
}

#[test]
fn can_load_mut_when_full() {
    let mut cache = empty_cache(1);
    let first = cache.insert_and_handle_eviction(KEY0, Arc::new(AllLines::new("a")));
    assert!(first.is_none());
    assert!(cache.get_mut::<String>(KEY0).is_ok());
    // the first item now holds changes, so evicting it asks for a write
    let second = cache.insert_and_handle_eviction(KEY1, Arc::new(AllLines::new("b")));
    assert_eq!(job_key(&second), Some(KEY0));
    assert!(cache.get_mut::<String>(KEY1).is_ok());
    assert_eq!(cache.loaded_count(), 1);
    assert!(cache.has_loaded_key(KEY1));
}

#[test]
fn can_get_mut() {
    let mut cache = filled_cache();
    for key in [KEY0, KEY1] {
        assert!(cache.get_mut::<String>(key).is_ok());
    }
}

#[test]
fn can_reject_get_mut_when_shared() {
    let mut cache = filled_cache();
    let shared_item = cache.get::<String>(KEY0).unwrap();
    let shared_res = cache.get_mut::<String>(KEY0);
    assert!(matches!(shared_res, Err(Error::Immutable(k)) if k == KEY0));
    assert!(cache.get_mut::<String>(KEY1).is_ok());
    drop(shared_item);
    // a refused reference marks nothing as changed
    assert!(cache.flush::<String>(KEY0).unwrap().is_none());
    assert!(cache.get_mut::<String>(KEY0).is_ok());
}

#[test]
fn can_mutate() {
    let mut cache = empty_cache(3);
    let original = AllLines::new("original");
    let (key, job) = push_new(&mut cache, original.clone());
    assert!(job.is_none());
    assert_eq!(*cache.get::<String>(key).unwrap(), original);

    let new = AllLines::new("new");
    *cache.get_mut::<String>(key).unwrap() = new.clone();
    assert_eq!(*cache.get::<String>(key).unwrap(), new);
}

#[test]
fn can_push_without_flush() {
    let mut cache = empty_cache(3);
    let (key, job) = push_new(&mut cache, AllLines::new("x"));
    assert!(job.is_none());
    assert_eq!(cache.loaded_count(), 1);
    assert!(cache.has_loaded_key(key));
}

#[test]
fn pushed_keys_are_distinct() {
    let mut cache = empty_cache(0);
    let mut keys = HashSet::new();
    for i in 0..50 {
        let (key, job) = push_new(&mut cache, AllLines::new(&i.to_string()));
        assert!(job.is_none());
        assert!(keys.insert(key));
    }
    assert_eq!(cache.loaded_count(), 50);
}

#[test]
fn can_direct_flush() {
    let cache = empty_cache(3);
    let item = AllLines::new("direct");
    let job = cache.direct_flush(KEY0, item.clone());
    assert_eq!(job.key, KEY0);
    assert_eq!(job.path, cache.get_path_for(job.key));
    assert_eq!(*job.item, item);
    assert_eq!(cache.loaded_count(), 0);
    assert!(!cache.has_loaded_key(job.key));
}

#[test]
fn can_evict_lfu() {
    let mut cache = filled_cache();
    let (extra_access, should_evict) = (KEY0, KEY1);
    cache.get::<String>(extra_access).unwrap();
    let (new, job) = push_new(&mut cache, AllLines::new("new"));
    // the evicted item was loaded from disk and never changed
    assert!(job.is_none());
    assert_eq!(cache.loaded_count(), 2);
    assert!(cache.has_loaded_key(extra_access));
    assert!(!cache.has_loaded_key(should_evict));
    assert!(cache.has_loaded_key(new));
}

#[test]
fn evicts_most_recent_among_equally_used() {
    let mut cache = empty_cache(2);
    cache.push_with_key(KEY0, AllLines::new("a"));
    cache.push_with_key(KEY1, AllLines::new("b"));
    // both have no accesses; the one added last goes first
    let job = cache.push_with_key(7, AllLines::new("c"));
    assert_eq!(job_key(&job), Some(KEY1));
    assert!(cache.has_loaded_key(KEY0));
    assert!(!cache.has_loaded_key(KEY1));
    assert!(cache.has_loaded_key(7));
}

#[test]
fn will_flush_lfu_when_mutated() {
    let mut cache = filled_cache();
    let (extra_access, should_evict) = (KEY0, KEY1);
    let _mut_ref = cache.get_mut::<String>(should_evict).unwrap();
    for _ in 0..10 {
        cache.get::<String>(extra_access).unwrap();
    }
    let (_new, job) = push_new(&mut cache, AllLines::new("new"));
    assert!(!cache.has_loaded_key(should_evict));
    let job = job.unwrap();
    assert_eq!(job.key, should_evict);
    assert_eq!(job.path, cache.get_path_for(should_evict));
    assert_eq!(*job.item, AllLines::new("one"));
}

#[test]
fn wont_flush_lfu_when_not_mutated() {
    let mut cache = filled_cache();
    let (extra_access, should_evict) = (KEY0, KEY1);
    for _ in 0..10 {
        cache.get::<String>(extra_access).unwrap();
    }
    let (_new, job) = push_new(&mut cache, AllLines::new("new"));
    assert!(!cache.has_loaded_key(should_evict));
    assert!(job.is_none());
}

#[test]
fn can_manual_flush() {
    let mut cache = empty_cache(3);
    let (key, _) = push_new(&mut cache, AllLines::new("x"));
    let job = cache.flush::<String>(key).unwrap().unwrap();
    assert_eq!(job.key, key);
    assert_eq!(job.path, cache.get_path_for(key));
    assert_eq!(*job.item, AllLines::new("x"));
    assert!(cache.has_loaded_key(key));
}

#[test]
fn can_manual_flush_all() {
    let mut cache = empty_cache(3);
    let mut keys = vec![];
    for i in 0..3 {
        let (key, job) = push_new(&mut cache, AllLines::new(&i.to_string()));
        assert!(job.is_none());
        keys.push(key);
    }
    let jobs = cache.flush_all();
    assert_eq!(jobs.len(), 3);
    let flushed: HashSet<u128> = jobs.iter().map(|j| j.key).collect();
    assert_eq!(flushed, keys.iter().copied().collect());
    for job in jobs.iter() {
        assert_eq!(job.path, cache.get_path_for(job.key));
    }
    for k in keys.iter() {
        assert!(cache.has_loaded_key(*k));
    }
}

#[test]
fn manual_flush_only_flushes_mutated() {
    let mut cache = filled_cache();
    let (to_mutate, no_mutate) = (KEY0, KEY1);
    let _mut_ref = cache.get_mut::<String>(to_mutate).unwrap();
    assert_eq!(cache.flush::<String>(to_mutate).unwrap().map(|j| j.key), Some(to_mutate));
    assert!(cache.flush::<String>(no_mutate).unwrap().is_none());
}

#[test]
fn manual_flush_all_only_flushes_mutated() {
    let mut cache = filled_cache();
    let (to_mutate, _no_mutate) = (KEY0, KEY1);
    let _mut_ref = cache.get_mut::<String>(to_mutate).unwrap();
    let jobs = cache.flush_all();
    assert_eq!(jobs.len(), 1);
    assert_eq!(jobs[0].key, to_mutate);
}

#[test]
fn mutation_persists_after_lfu_flush() {
    let mut cache = filled_cache();
    let (to_mutate, extra_access) = (KEY0, KEY1);
    let mutate_new = AllLines::new("mutated");
    *cache.get_mut::<String>(to_mutate).unwrap() = mutate_new.clone();
    cache.get::<String>(extra_access).unwrap();
    cache.get::<String>(extra_access).unwrap();
    let (_new, job) = push_new(&mut cache, AllLines::new("new"));
    assert!(!cache.has_loaded_key(to_mutate));
    let job = job.unwrap();
    assert_eq!(job.key, to_mutate);
    assert_eq!(*job.item, mutate_new);
}

#[test]
fn mutation_persists_after_manual_flush() {
    let mut cache = filled_cache();
    let to_mutate = KEY0;
    let mutate_new = AllLines::new("mutated");
    *cache.get_mut::<String>(to_mutate).unwrap() = mutate_new.clone();
    let jobs = cache.flush_all();
    assert_eq!(jobs.len(), 1);
    assert_eq!(*jobs[0].item, mutate_new);
    let outcomes: Vec<Result<(), String>> = jobs.iter().map(|_| Ok(())).collect();
    let flushed = collect_flush_errors::<u128, String>(outcomes);
    assert!(cache.clear_cache(flushed).is_ok());
    assert_eq!(cache.loaded_count(), 0);
}

#[test]
fn can_delete() {
    let mut cache = filled_cache();
    let (to_delete, should_stay) = (KEY0, KEY1);
    let res = cache.delete::<String>(to_delete, true).unwrap();
    assert_eq!(res, Some(cache.get_path_for(to_delete)));
    assert!(!cache.has_key(to_delete, false));
    assert!(cache.has_key(should_stay, true));
    assert!(cache.has_loaded_key(should_stay));
    assert_eq!(cache.loaded_count(), 1);
}

#[test]
fn can_delete_loaded_but_unflushed() {
    let mut cache = empty_cache(3);
    let (key, _) = push_new(&mut cache, AllLines::new("x"));
    assert_eq!(cache.delete::<String>(key, false), Ok(None));
    assert!(!cache.has_loaded_key(key));
}

#[test]
fn delete_rejects_unknown_key() {
    let mut cache = filled_cache();
    let res = cache.delete::<String>(42, false);
    assert_eq!(res, Err(Error::NotFound(42)));
    assert_eq!(cache.loaded_count(), 2);
}

#[test]
fn can_clear() {
    for with_flush in [true, false] {
        let mut cache = empty_cache(3);
        let (key, _) = push_new(&mut cache, AllLines::new("x"));
        assert_eq!(cache.loaded_count(), 1);
        let jobs = if with_flush { cache.flush_all() } else { vec![] };
        assert_eq!(jobs.len(), if with_flush { 1 } else { 0 });
        if with_flush {
            assert_eq!(jobs[0].key, key);
        }
        let outcomes: Vec<Result<(), String>> = jobs.iter().map(|_| Ok(())).collect();
        let res = cache.clear_cache(collect_flush_errors::<u128, String>(outcomes));
        assert!(res.is_ok());
        assert_eq!(cache.loaded_count(), 0);
        assert!(!cache.has_loaded_key(key));
    }
}

#[test]
fn clear_is_skipped_when_flush_failed() {
    let mut cache = filled_cache();
    let failed: Result<(), Vec<CacheError>> = Err(vec![Error::FileOp("disk full".to_string())]);
    let res = cache.clear_cache(failed.clone());
    assert_eq!(res, failed);
    assert_eq!(cache.loaded_count(), 2);
}

#[test]
fn init_rejects_non_directory() {
    let res = FileBackedLfuCache::<AllLines>::init::<String>("/no/such/dir".to_string(), false, 3);
    assert!(matches!(res, Err(Error::Init(p)) if p == "/no/such/dir"));
}

#[test]
fn size_zero_is_unbounded() {
    let mut cache = empty_cache(0);
    for i in 0..100u128 {
        assert!(cache.push_with_key(i, AllLines::new("x")).is_none());
    }
    assert_eq!(cache.loaded_count(), 100);
}

#[test]
fn backing_directory_is_kept() {
    let cache = empty_cache(3);
    assert_eq!(cache.get_backing_directory(), "/data/cache");
}

#[test]
fn access_counts_fit() {
    let mut cache = filled_cache();
    for _ in 0..5 {
        cache.get::<String>(KEY0).unwrap();
    }
    assert!(cache.access_counts_below_limit());
}

#[test]
fn access_protects_from_eviction() {
    let mut cache = empty_cache(2);
    cache.push_with_key(KEY1, AllLines::new("b"));
    cache.push_with_key(KEY0, AllLines::new("a"));
    // without accesses KEY0, the most recently added, would go first
    cache.get::<String>(KEY0).unwrap();
    let job = cache.push_with_key(7, AllLines::new("c"));
    assert_eq!(job_key(&job), Some(KEY1));
    assert!(cache.has_loaded_key(KEY0));
    assert!(!cache.has_loaded_key(KEY1));
}

#[test]
fn least_accessed_goes_first() {
    let mut cache = empty_cache(3);
    cache.push_with_key(1, AllLines::new("a"));
    cache.push_with_key(2, AllLines::new("b"));
    cache.push_with_key(3, AllLines::new("c"));
    for _ in 0..3 {
        cache.get::<String>(1).unwrap();
    }
    cache.get::<String>(3).unwrap();
    cache.get::<String>(3).unwrap();
    cache.get::<String>(2).unwrap();
    assert_eq!(job_key(&cache.push_with_key(4, AllLines::new("d"))), Some(2));
    assert_eq!(job_key(&cache.push_with_key(5, AllLines::new("e"))), Some(4));
    assert!(cache.has_loaded_key(1) && cache.has_loaded_key(3) && cache.has_loaded_key(5));
}

#[test]
fn push_refuses_loaded_key() {
    let mut cache = filled_cache();
    let res = cache.push(KEY0, AllLines::new("again"));
    assert_eq!(res.err(), Some(AllLines::new("again")));
    assert_eq!(*cache.get::<String>(KEY0).unwrap(), AllLines::new("zero"));
    assert_eq!(cache.loaded_count(), 2);
    // a key that is not loaded is always taken
    let job = cache.push(5, AllLines::new("five")).ok().unwrap();
    // KEY1 has the fewest accesses and holds no changes: evicted, not written
    assert!(job.is_none());
    assert!(cache.has_loaded_key(5));
    assert!(!cache.has_loaded_key(KEY1));
}

#[test]
fn loading_through_get_or_load_counts_an_access() {
    let mut cache = empty_cache(2);
    // loaded for `get_or_load_mut`: the following `get_mut` counts the access
    assert!(cache.insert_and_handle_eviction(KEY0, Arc::new(AllLines::new("a"))).is_none());
    // loaded for `get_or_load`: the access is counted with the insertion
    let (_item, job) = cache.insert_loaded_and_get(KEY1, AllLines::new("b"));
    assert!(job.is_none());
    // KEY0 has no access, KEY1 one: KEY0 goes first
    let job = cache.push_with_key(7, AllLines::new("c"));
    assert!(job.is_none());
    assert!(!cache.has_loaded_key(KEY0));
    assert!(cache.has_loaded_key(KEY1));
}

#[test]
fn pushed_item_counts_an_access() {
    let mut cache = empty_cache(2);
    cache.insert_and_handle_eviction(KEY0, Arc::new(AllLines::new("a")));
    cache.push_with_key(KEY1, AllLines::new("b"));
    // the pushed item has one access, the loaded one none
    let job = cache.push_with_key(7, AllLines::new("c"));
    assert!(job.is_none());
    assert!(!cache.has_loaded_key(KEY0));
    assert!(cache.has_loaded_key(KEY1));
}
