use p2p::clock::NANOS_PER_SECOND;
use p2p::constants::{DEFAULT_CHUNK_EXPIRE_TIME_S, DEFAULT_CHUNK_REUPLOAD_INTERVAL_S, MAX_SHARDS_STORED};
use p2p::kademlia::key::Key;
use p2p::networking::node_info::{IpAddress, NodeAddress, NodeInfo};
use p2p::sharding::common::ENCRYPTED_CHUNK_SIZE_B;
use p2p::sharding::sharding::CHUNK_SIZE_KB_LARGE;
use p2p::storage::data_transfers_table::{DataTransfer, DataTransfersTable};
use p2p::storage::file_manager::FileManager;
use p2p::storage::shard_storage_manager::{ShardStorageManager, StorageError, StoredChunkInfo};

const T0: u64 = 1_700_000_000 * NANOS_PER_SECOND;

fn sender() -> NodeInfo {
    NodeInfo::new(Key::new_random(), NodeAddress::new(IpAddress::localhost_v4(), 8080))
}

/// Stores a chunk received on `port` as the node does: check, stop awaiting, record.
fn store_for_port(manager: &mut ShardStorageManager, data_len: usize, port: u16, now: u64) -> Result<Key, StorageError> {
    let hash = manager.check_chunk_for_known_peer(data_len, port)?;
    manager.end_data_transfer(port);
    manager.record_owned_chunk(hash, data_len, now);
    Ok(hash)
}

#[test]
fn test_save_for_port() {
    let mut manager = ShardStorageManager::new("/tmp/storage".to_string());
    let hash = Key::new_random();
    let port = 8080;
    manager.add_active_tcp_connection(port, sender(), hash);
    let result = store_for_port(&mut manager, CHUNK_SIZE_KB_LARGE, port, T0);
    assert!(result.is_ok());
    assert_eq!(manager.chunk_path(&hash), format!("/tmp/storage/{}", hash.to_hex_string()));
    assert!(manager.get_data_transfers_table().get(port).is_none());
}

#[test]
fn test_remove_dead_chunks() {
    let mut manager = ShardStorageManager::new("/tmp/storage".to_string());
    let hash = Key::new_random();
    let port = 8080;
    manager.add_active_tcp_connection(port, sender(), hash);
    store_for_port(&mut manager, CHUNK_SIZE_KB_LARGE, port, T0).expect("Failed to save chunk");
    let now = T0 + (DEFAULT_CHUNK_EXPIRE_TIME_S + 1) * NANOS_PER_SECOND;
    let dead = manager.get_dead_chunks(now);
    assert_eq!(dead, vec![hash]);
    manager.forget_chunks(&dead);
    assert!(!manager.is_chunk_already_stored(&hash));
}

#[test]
fn test_get_chunks_for_reupload() {
    let mut manager = ShardStorageManager::new("/tmp/storage".to_string());
    let hash = Key::new_random();
    let port = 8080;
    manager.add_active_tcp_connection(port, sender(), hash);
    store_for_port(&mut manager, CHUNK_SIZE_KB_LARGE, port, T0).expect("Failed to save chunk");
    let now = T0 + (DEFAULT_CHUNK_REUPLOAD_INTERVAL_S + 1) * NANOS_PER_SECOND;
    let chunks_for_reupload = manager.get_chunks_for_reupload(now).expect("Failed to get chunks for reupload");
    assert_eq!(chunks_for_reupload.len(), 1);
    assert_eq!(chunks_for_reupload[0], hash);
}

#[test]
fn test_is_chunk_already_stored() {
    let mut manager = ShardStorageManager::new("/tmp/storage".to_string());
    let hash = Key::new_random();
    let port = 8080;
    manager.add_active_tcp_connection(port, sender(), hash);
    store_for_port(&mut manager, CHUNK_SIZE_KB_LARGE, port, T0).expect("Failed to save chunk");
    assert!(manager.is_chunk_already_stored(&hash));
}

#[test]
fn storage_refusals() {
    let mut manager = ShardStorageManager::new("store/".to_string());
    assert_eq!(manager.check_chunk_for_known_peer(10, 1), Err(StorageError::TransferNotFound));
    manager.add_active_tcp_connection(1, sender(), Key::new_random());
    assert_eq!(
        manager.check_chunk_for_known_peer(ENCRYPTED_CHUNK_SIZE_B + 1, 1),
        Err(StorageError::InvalidChunkSize)
    );
    assert!(manager.check_chunk_for_known_peer(ENCRYPTED_CHUNK_SIZE_B, 1).is_ok());
    let h = Key::new_random();
    assert_eq!(manager.update_chunk_upload_time(&h, T0), Err(StorageError::ChunkNotFound));
    assert_eq!(manager.chunk_path(&h), format!("store/{}", h.to_hex_string()));
    for i in 0..MAX_SHARDS_STORED {
        let mut b = [0u8; 20];
        b[0] = (i / 256) as u8;
        b[1] = (i % 256) as u8;
        manager.record_owned_chunk(Key::from_bytes(b), 10, T0);
    }
    assert_eq!(manager.check_chunk_for_known_peer(10, 1), Err(StorageError::TooManyShards));
}

#[test]
fn storage_refresh_and_reupload_times() {
    let mut manager = ShardStorageManager::new(String::new());
    let a = Key::new_random();
    let b = Key::new_random();
    manager.record_owned_chunk(a, 10, T0);
    manager.record_owned_chunk(b, 10, T0 + 100 * NANOS_PER_SECOND);
    let at = T0 + DEFAULT_CHUNK_REUPLOAD_INTERVAL_S * NANOS_PER_SECOND;
    assert_eq!(manager.get_chunks_for_reupload(at).unwrap(), vec![a]);
    assert_eq!(manager.update_chunk_upload_time(&a, at), Ok(()));
    assert!(manager.get_chunks_for_reupload(at).unwrap().is_empty());
    assert_eq!(manager.chunk_path(&a), a.to_hex_string());
    let mut keys = manager.get_owned_chunk_keys();
    keys.sort();
    let mut expected = vec![a, b];
    expected.sort();
    assert_eq!(keys, expected);
    assert!(manager.is_stored_before(at));
    assert!(!manager.is_stored_before(T0));
}

#[test]
fn storage_chunks_closer_to_other_node() {
    let mut manager = ShardStorageManager::new(String::new());
    let me = Key::from_bytes([0u8; 20]);
    let other = Key::from_bytes([0xffu8; 20]);
    let near_other = Key::from_bytes([0xf0u8; 20]);
    let near_me = Key::from_bytes([0x0fu8; 20]);
    manager.record_owned_chunk(near_other, 10, T0);
    manager.record_owned_chunk(near_me, 10, T0);
    assert_eq!(manager.get_chunks_closer_to_node_than_to_me(&me, &other), vec![near_other]);
}

#[test]
fn stored_chunk_info_update_time() {
    let mut info = StoredChunkInfo { time_stored_at: 5, size_bytes: 7 };
    info.update_time(42);
    assert_eq!(info.time_stored_at, 42);
}

#[test]
fn data_transfers_table_add_get_remove() {
    let mut t = DataTransfersTable::new();
    let s = sender();
    let h = Key::new_random();
    assert_eq!(t.add(7, s, h), None);
    assert_eq!(t.get(7), Some(&DataTransfer { sender: s, chunk_hash: h }));
    let h2 = Key::new_random();
    assert_eq!(t.add(7, s, h2), Some(DataTransfer { sender: s, chunk_hash: h }));
    assert_eq!(t.remove(7), Some(DataTransfer { sender: s, chunk_hash: h2 }));
    assert_eq!(t.remove(7), None);
}

#[test]
fn test_add_file_uploaded_entry() {
    let mut file_manager = FileManager::new();
    let file_path = "test_file.txt";
    file_manager.add_file_uploaded_entry(file_path, T0);
    assert!(file_manager.contains_file(file_path));
}

#[test]
fn test_get_files_for_reupload() {
    let mut file_manager = FileManager::new_with_reupload_interval(0);
    let file_path = "test_file.txt";
    file_manager.add_file_uploaded_entry(file_path, T0);
    let files_for_reupload = file_manager.get_files_for_reupload(T0);
    assert!(files_for_reupload.contains(&file_path.to_string()));
}

#[test]
fn test_no_files_for_reupload_within_interval() {
    let mut file_manager = FileManager::new_with_reupload_interval(10);
    let file_path = "test_file.txt";
    file_manager.add_file_uploaded_entry(file_path, T0);
    let files_for_reupload = file_manager.get_files_for_reupload(T0 + 2 * NANOS_PER_SECOND);
    assert!(!files_for_reupload.contains(&file_path.to_string()));
}

#[test]
fn file_manager_reupload_refreshes_time() {
    let mut fm = FileManager::new_with_reupload_interval(10);
    fm.add_file_uploaded_entry("a", T0);
    fm.add_file_uploaded_entry("b", T0 + 5 * NANOS_PER_SECOND);
    assert_eq!(fm.get_files_for_reupload(T0 + 10 * NANOS_PER_SECOND), vec!["a".to_string()]);
    fm.add_file_uploaded_entry("a", T0 + 10 * NANOS_PER_SECOND);
    assert!(fm.get_files_for_reupload(T0 + 12 * NANOS_PER_SECOND).is_empty());
    assert!(fm.is_uploaded_before(T0 + 10 * NANOS_PER_SECOND));
}

#[test]
fn announced_chunk_accepted_until_transfer_ends() {
    let mut manager = ShardStorageManager::new("store/".to_string());
    let hash = Key::new_random();
    manager.add_active_tcp_connection(9000, sender(), hash);
    assert_eq!(manager.check_chunk_for_known_peer(1024, 9000), Ok(hash));
    assert_eq!(manager.check_chunk_for_known_peer(1024, 9001), Err(StorageError::TransferNotFound));
    manager.end_data_transfer(9000);
    assert_eq!(manager.check_chunk_for_known_peer(1024, 9000), Err(StorageError::TransferNotFound));
}

#[test]
fn files_returned_for_reupload_are_taken_out() {
    let mut fm = FileManager::new_with_reupload_interval(10);
    fm.add_file_uploaded_entry("a", T0);
    fm.add_file_uploaded_entry("b", T0 + 5 * NANOS_PER_SECOND);
    assert_eq!(fm.get_files_for_reupload(T0 + 10 * NANOS_PER_SECOND), vec!["a".to_string()]);
    assert!(!fm.contains_file("a"));
    assert!(fm.contains_file("b"));
    assert!(fm.get_files_for_reupload(T0 + 10 * NANOS_PER_SECOND).is_empty());
}

#[test]
fn storage_counts_bytes_and_refuses_when_full() {
    let mut manager = ShardStorageManager::new("store/".to_string());
    let hash = Key::new_random();
    manager.add_active_tcp_connection(1, sender(), hash);
    assert_eq!(manager.check_chunk_for_known_peer(ENCRYPTED_CHUNK_SIZE_B, 1), Ok(hash));
    manager.record_owned_chunk(hash, ENCRYPTED_CHUNK_SIZE_B, T0);
    assert_eq!(manager.get_stored_bytes(), ENCRYPTED_CHUNK_SIZE_B as u64);
    manager.record_owned_chunk(hash, 100, T0);
    assert_eq!(manager.get_stored_bytes(), 100);
    let gib: usize = 1024 * 1024 * 1024;
    for (i, size) in [gib, gib, gib, gib - 110].into_iter().enumerate() {
        let mut b = [0u8; 20];
        b[0] = i as u8 + 1;
        manager.record_owned_chunk(Key::from_bytes(b), size, T0);
    }
    assert_eq!(manager.get_stored_bytes(), 4 * gib as u64 - 10);
    assert_eq!(manager.check_chunk_for_known_peer(11, 1), Err(StorageError::StorageFull));
    assert_eq!(manager.check_chunk_for_known_peer(10, 1), Ok(hash));
    manager.forget_chunks(&vec![hash]);
    assert_eq!(manager.check_chunk_for_known_peer(ENCRYPTED_CHUNK_SIZE_B, 1), Err(StorageError::StorageFull));
}
