use p2p::constants::K;
use p2p::kademlia::key::Key;
use p2p::sharding::common::{Chunk, ShardingError, ENCRYPTED_CHUNK_SIZE_B};
use p2p::sharding::downloader::{join_file_path, FileDownloader};
use p2p::sharding::sharding::{get_file_from_chunks, process_file_for_upload, ChunkBytes, CHUNK_SIZE_KB_SMALL};
use p2p::sharding::uploader::{FileUploader, PADDED_CHUNK_SIZE_B};
use rand::Rng;

fn random_bytes(n: usize) -> Vec<u8> {
    let mut rng = rand::rng();
    (0..n).map(|_| rng.random()).collect()
}

#[test]
fn test_file_uploader_new() {
    let uploader = FileUploader::new("test_file".to_string(), 1024);
    assert!(uploader.is_ok(), "FileUploader::new failed with error: {:?}", uploader.err().map(|_| ()));
}

#[test]
fn test_file_uploader_file_too_big() {
    let max_file_size_mb = 1;
    let uploader = FileUploader::new_with_max_file_size("test_file".to_string(), max_file_size_mb * 1024 * 1024 + 1, max_file_size_mb);
    assert!(matches!(uploader, Err(ShardingError::FileTooBig)), "Expected ShardingError::FileTooBig");
}

#[test]
fn test_file_uploader_get_next_chunk() {
    let file_size = 1024;
    let mut uploader = FileUploader::new("test_file".to_string(), file_size).unwrap();
    let chunk = uploader.get_next_chunk_encrypt(random_bytes(file_size)).unwrap();
    assert!(chunk.is_some(), "Expected Some(chunk), got None");
    assert_eq!(chunk.unwrap().data.len(), ENCRYPTED_CHUNK_SIZE_B, "Chunk length mismatch");
    let chunk = uploader.get_next_chunk_encrypt(Vec::new()).unwrap();
    assert!(chunk.is_none(), "Expected None");
}

#[test]
fn test_file_uploader_get_metadata() {
    let mut uploader = FileUploader::new("test_file".to_string(), 1024).unwrap();
    let chunk = uploader.get_next_chunk_encrypt(random_bytes(1024)).unwrap();
    assert!(chunk.is_some(), "Expected Some(chunk), got None");
    let metadata = uploader.get_metadata(true);
    assert!(metadata.is_ok(), "Error: get_metadata failed");
}

#[test]
fn test_file_uploader_get_metadata_fail() {
    let uploader = FileUploader::new("test_file".to_string(), 1024).unwrap();
    let metadata = uploader.get_metadata(false);
    assert!(metadata.is_err(), "Expected get_metadata to fail cause file was not read completely");
}

#[test]
fn test_file_downloader_new() {
    let mut uploader = FileUploader::new("test_file".to_string(), 1024).unwrap();
    uploader.get_next_chunk_encrypt(random_bytes(1024)).unwrap();
    let metadata = uploader.get_metadata(true).unwrap();
    let downloader = FileDownloader::new(metadata, &"/tmp/out".to_string());
    assert_eq!(downloader.get_output_file_path(), "/tmp/out/test_file");
}

#[test]
fn test_file_downloader_store_next_chunk() {
    let data = random_bytes(1024);
    let mut uploader = FileUploader::new("test_file".to_string(), 1024).unwrap();
    let chunk = uploader.get_next_chunk_encrypt(data.clone()).unwrap().unwrap();
    let metadata = uploader.get_metadata(true).unwrap();
    let mut downloader = FileDownloader::new(metadata, &"/tmp/out".to_string());
    let result = downloader.store_next_chunk_decrypt(chunk);
    assert!(result.is_ok(), "FileDownloader::store_next_chunk failed with error: {:?}", result.as_ref().err());
    assert_eq!(result.unwrap(), data);
    assert!(downloader.is_complete());
}

#[test]
fn test_file_downloader_store_unwanted_chunk() {
    let mut uploader = FileUploader::new("test_file".to_string(), 1024).unwrap();
    let chunk = uploader.get_next_chunk_encrypt(random_bytes(1024)).unwrap().unwrap();
    let metadata = uploader.get_metadata(true).unwrap();
    let mut downloader = FileDownloader::new(metadata, &"/tmp/out".to_string());
    let first = downloader.store_next_chunk_decrypt(chunk.clone());
    assert!(first.is_ok());
    let result = downloader.store_next_chunk_decrypt(chunk);
    assert!(matches!(result, Err(ShardingError::UnwantedChunk)), "Expected ShardingError::UnwantedChunk");
}

#[test]
fn sharding_file_roundtrip_over_many_chunks() {
    let file = random_bytes(PADDED_CHUNK_SIZE_B * 2 + 77);
    let mut uploader = FileUploader::new("f".to_string(), file.len()).unwrap();
    let mut chunks = Vec::new();
    for piece in file.chunks(PADDED_CHUNK_SIZE_B) {
        chunks.push(uploader.get_next_chunk_encrypt(piece.to_vec()).unwrap().unwrap());
    }
    assert!(uploader.get_next_chunk_encrypt(Vec::new()).unwrap().is_none());
    let md = uploader.get_metadata(true).unwrap();
    assert_eq!(md.chunks_metadata.len(), 3);
    let mut downloader = FileDownloader::new(md, &String::new());
    assert_eq!(downloader.get_output_file_path(), "f");
    let mut out = Vec::new();
    for c in chunks {
        out.extend(downloader.store_next_chunk_decrypt(c).unwrap());
    }
    assert_eq!(out, file);
}

#[test]
fn sharding_downloader_errors() {
    let mut uploader = FileUploader::new("f".to_string(), 10).unwrap();
    let chunk = uploader.get_next_chunk_encrypt(vec![1; 10]).unwrap().unwrap();
    let md = uploader.get_metadata(true).unwrap();
    let mut d = FileDownloader::new(md.clone(), &"dir/".to_string());
    assert_eq!(d.get_output_file_path(), "dir/f");
    let empty = Chunk { data: Vec::new(), hash: chunk.hash };
    assert!(matches!(d.store_next_chunk_decrypt(empty), Err(ShardingError::EmptyChunk)));
    let mut bad = chunk.clone();
    bad.data[0] ^= 1;
    assert!(matches!(d.store_next_chunk_decrypt(bad), Err(ShardingError::DecryptionFailed)));
    let wrong_hash = Chunk { data: chunk.data.clone(), hash: Key::from_bytes([7; K]) };
    assert!(matches!(d.store_next_chunk_decrypt(wrong_hash), Err(ShardingError::ChunkHashMismatch)));
    assert!(matches!(d.try_store_next_chunk_decrypt(chunk), Some(Ok(v)) if v == vec![1; 10]));
}

#[test]
fn sharding_plain_split_and_join() {
    let file = random_bytes(CHUNK_SIZE_KB_SMALL * 1024 * 2 + 5);
    let processed = process_file_for_upload(&file).ok().unwrap();
    let chunks = processed.get_chunks();
    assert_eq!(chunks.len(), 3);
    assert_eq!(chunks[2].get_data().len(), 5);
    assert_eq!(chunks[0].get_hash(), Key::from_input(&file[..CHUNK_SIZE_KB_SMALL * 1024]));
    let again: Vec<ChunkBytes> = chunks.iter().map(|c| ChunkBytes::new(c.get_data().clone(), c.get_hash())).collect();
    let joined = get_file_from_chunks(again).ok().unwrap();
    assert_eq!(joined.get_bytes(), &file);
    assert_eq!(join_file_path(&"a".to_string(), &"b".to_string()), "a/b");
}

#[test]
fn file_handles_are_hex_of_the_metadata_bytes() {
    assert_eq!(p2p::sharding::common::file_handle_text(&[0xab, 0x01, 0xff]), "ab01ff");
    assert_eq!(p2p::sharding::common::file_handle_bytes("AB01ff"), Ok(vec![0xab, 0x01, 0xff]));
    assert_eq!(
        p2p::sharding::common::file_handle_bytes("abc"),
        Err(p2p::kademlia::key::HexError::OddLength)
    );
    assert_eq!(
        p2p::sharding::common::file_handle_bytes("zz"),
        Err(p2p::kademlia::key::HexError::InvalidHexCharacter { c: 'z', index: 0 })
    );
}
