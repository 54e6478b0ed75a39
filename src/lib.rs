//! An in-memory key/value store split into shards, with time-to-live
//! expiry and checksummed snapshots.
//!
//! - `entry`: a stored value with its time-to-live and creation time.
//! - `shard`: one partition, a mapping from key to entry, with eviction.
//! - `snapshot`: the snapshot file format and its integrity check.
//! - `files`: where each shard's snapshot lives.
//! - `store`: routing of keys to shards, and the store's operations.

pub mod entry;
pub mod error;
pub mod files;
pub mod shard;
pub mod snapshot;
pub mod store;

pub use entry::{ShardEntry, NO_TTL};
pub use error::StoreError;
pub use files::{shard_file_name, shard_path};
pub use shard::Shard;
pub use snapshot::{checksum_text, frame_snapshot, open_snapshot, split_snapshot};
pub use store::{shard_index, KVStore};
