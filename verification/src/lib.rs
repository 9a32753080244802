//! A least-frequently-used cache layered on a directory.
//!
//! The verified core keeps track of which items are loaded in memory, how
//! often each was accessed, which of them carry changes not yet written to
//! disk, and which file in the backing directory belongs to which key. Reading
//! and writing the files is left to the caller: each operation that needs the
//! disk hands back what has to be read, written or deleted, and takes the
//! outcome as an argument.
pub mod lfu;
pub mod queue;
pub mod error;
pub mod key;
pub mod cache;
pub mod laws;

pub use cache::{CacheView, FileBackedLfuCache, FlushJob};
pub use error::{collect_flush_errors, Error};
pub use key::Key;
