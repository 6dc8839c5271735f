//! Chunks kept for other nodes, with who uploaded them.
use vstd::prelude::*;
use std::collections::HashMap;
use crate::clock::Timestamp;
use crate::kademlia::key::Key;
use crate::networking::node_info::NodeInfo;

verus! {

/// When a chunk was saved, its republish period and who uploaded it.
pub struct FileInfo {
    pub time: Timestamp,
    pub ttl: u16,
    pub uploader: NodeInfo,
}

/// Chunk records by key.
pub struct StorageTable {
    pub storage: HashMap<Key, FileInfo>,
}

impl StorageTable {
    /// An empty table.
    pub fn new() -> (t: StorageTable)
        ensures
            t.storage@ == Map::<Key, FileInfo>::empty(),
    {
        StorageTable { storage: HashMap::new() }
    }
}

} // verus!
