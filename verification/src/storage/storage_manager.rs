//! A storage directory with its table of chunk records.
use vstd::prelude::*;
use crate::kademlia::key::Key;
use crate::storage::storage_table::{FileInfo, StorageTable};

verus! {

/// A storage directory and the records of what it holds.
pub struct StorageManager {
    storage_path: String,
    storage_table: StorageTable,
}

impl StorageManager {
    /// A manager for `storage_path` with no records.
    pub fn new(storage_path: String) -> (m: StorageManager)
        ensures
            m.spec_storage_path() == storage_path@,
            m.spec_records() == Map::<Key, FileInfo>::empty(),
    {
        StorageManager { storage_path, storage_table: StorageTable::new() }
    }

    /// The storage directory.
    pub closed spec fn spec_storage_path(&self) -> Seq<char> {
        self.storage_path@
    }

    /// The chunk records.
    pub closed spec fn spec_records(&self) -> Map<Key, FileInfo> {
        self.storage_table.storage@
    }
}

} // verus!
