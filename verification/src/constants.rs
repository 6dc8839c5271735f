//! Constants that shape the behaviour of the network.
use vstd::prelude::*;

verus! {

/// Size of a key in bytes and the number of entries a k-bucket holds.
pub const K: usize = 20;

/// Parallelism of lookups; also the shard replication factor.
pub const ALPHA: usize = 3;

/// Maximum size of a file stored in the network, in MiB.
pub const MAX_FILE_SIZE_MB: usize = 4096;

/// Size of the data part of a single chunk, in KiB (chunks are padded up to it).
pub const CHUNK_DATA_SIZE_KB: usize = 1024;

/// Maximum number of shards stored on a single node.
pub const MAX_SHARDS_STORED: usize = 1024;

/// Maximum amount of chunk data stored on a single node, in MiB.
pub const MAX_DATA_STORED_MB: usize = 4096;

/// Seconds after which a node republishes the chunks it keeps.
pub const DEFAULT_CHUNK_REUPLOAD_INTERVAL_S: u64 = 3600;

/// Seconds of inactivity after which a chunk expires.
pub const DEFAULT_CHUNK_EXPIRE_TIME_S: u64 = 86400;

/// Timeout of a single lookup request, in milliseconds.
pub const LOOKUP_TIMEOUT_MILLISECONDS: u64 = 2500;

/// Timeout of a plain request, in milliseconds.
pub const BASIC_REQUEST_TIMEOUT_MILLISECONDS: u64 = 1000;

/// Timeout of a TCP transfer, in milliseconds.
pub const TCP_TIMEOUT_MILLISECONDS: u64 = 5000;

/// Number of worker tasks that handle incoming requests.
pub const RECEIVE_WORKER_TASK_COUNT: u32 = 4;

} // verus!
