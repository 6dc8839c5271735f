//! Bookkeeping of stored chunks, pending chunk transfers and uploaded files.
pub mod data_transfers_table;
pub mod shard_storage_manager;
pub mod file_manager;
pub mod file_info;
pub mod storage_table;
pub mod storage_manager;
