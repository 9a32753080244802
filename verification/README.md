# file_lfu

A least-frequently-used cache layered on a directory: items are loaded from
files on demand, kept in memory up to a capacity, and written back to their
files when evicted or flushed, provided they are new or were changed.

## Layout

- `src/` — the verified core (Verus).
  - `cache.rs`: `FileBackedLfuCache`, its abstract state `CacheView`, and the
    operations. Operations that need the disk take what was read from it as
    arguments and hand back what must be written (`FlushJob`) or deleted.
  - `queue.rs`: the eviction queue (keys in eviction order with their access
    counts) and its lemmas.
  - `lfu.rs`: the contracts under which the `lfu_cache` crate is used.
  - `key.rs`: keys, their file names (hyphenated hexadecimal, as UUIDs are
    written) and paths in the backing directory.
  - `error.rs`: `Error` and the gathering of flush errors.
  - `laws.rs`: properties of the cache across operations.
- `app/` — the asynchronous front end: the `AsyncFileRepr` trait that items
  implement, `Uuid` keys, and the disk operations that the core asks for.
- `tests/` — tests of the core.

## Limits

- Keys are 128-bit values (UUIDs in the front end); the cache does not take
  key types of the user's own.
- The backing directory is kept as text, so the front end refuses a
  directory whose path is not valid UTF-8.
- A new or changed item stays marked as changed after `flush` or `flush_all`
  (they take `&self`), so a later flush or eviction writes it again.
