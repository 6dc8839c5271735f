//! Chunks and the metadata needed to fetch and decrypt them.
use vstd::prelude::*;
use crate::constants::CHUNK_DATA_SIZE_KB;
use crate::kademlia::key::{decode_hex_bytes, hex_decode, HexError, Key};
use crate::text::{encode_hex, hex_encode};
use vstd::string::StringSliceAdditionalSpecFns;
use crate::sharding::encryption::{EncryptionError, AES_GCM_AUTH_TAG_SIZE_B};

verus! {

/// Size of a `u32` in bytes.
pub const U32_SIZE_B: usize = 4;

/// Size of an encrypted chunk: the padded data, its unpadded length and the tag.
pub const ENCRYPTED_CHUNK_SIZE_B: usize = CHUNK_DATA_SIZE_KB * 1024 + U32_SIZE_B + AES_GCM_AUTH_TAG_SIZE_B;

/// Why cutting a file into chunks or putting it back together failed.
#[derive(Debug, Clone, PartialEq, Eq)]
pub enum ShardingError {
    /// Reading or writing a file failed.
    Io(String),
    /// The file is too big to be uploaded to the network.
    FileTooBig,
    /// The file was not read completely.
    MetadataNotFilled,
    /// A chunk could not be encrypted.
    EncryptionFailed,
    /// A chunk could not be decrypted.
    DecryptionFailed,
    /// No chunk is expected any more.
    UnwantedChunk,
    /// The chunk's key is not the one the metadata lists.
    ChunkHashMismatch,
    /// The chunk is empty.
    EmptyChunk,
    /// Encryption failed.
    EncryptionError(EncryptionError),
}

/// An encrypted (or plain) chunk: its bytes and the key of its padded plain data.
#[derive(Debug, Clone, PartialEq, Eq)]
pub struct Chunk {
    pub data: Vec<u8>,
    pub hash: Key,
}

/// What is needed to fetch and decrypt one chunk.
#[derive(Debug, Clone, PartialEq, Eq)]
pub struct ChunkMetadata {
    /// Key of the padded plain data of the chunk.
    pub hash: Key,
    /// The 12-byte nonce the chunk was encrypted with.
    pub nonce: Vec<u8>,
}

/// What is needed to download a file: its name, its key and its chunks in order.
#[derive(Debug, Clone, PartialEq, Eq)]
pub struct FileMetadata {
    pub name: String,
    pub encryption_key: Vec<u8>,
    pub chunks_metadata: Vec<ChunkMetadata>,
}

/// The chunks of a file as (key, nonce) pairs.
pub open spec fn chunk_entries(c: Seq<ChunkMetadata>) -> Seq<(Key, Seq<u8>)> {
    c.map_values(|m: ChunkMetadata| (m.hash, m.nonce@))
}

/// The encoded file metadata a file handle stands for: the handle read as
/// hexadecimal.
pub fn file_handle_bytes(handle: &str) -> (r: Result<Vec<u8>, HexError>)
    ensures
        match r {
            Ok(v) => hex_decode(handle.spec_bytes()) == Ok::<Seq<u8>, HexError>(v@),
            Err(e) => hex_decode(handle.spec_bytes()) == Err::<Seq<u8>, HexError>(e),
        },
{
    decode_hex_bytes(handle.as_bytes())
}

/// The file handle of encoded file metadata: its bytes in lowercase hexadecimal.
pub fn file_handle_text(bytes: &[u8]) -> (s: String)
    ensures
        s@ == hex_encode(bytes@),
{
    encode_hex(bytes)
}

} // verus!
