//! Putting a file back together from its encrypted chunks, in order. The
//! caller fetches the chunks and writes the plain data this returns.
use vstd::prelude::*;
use vstd::string::StrSliceExecFns;
use crate::kademlia::key::Key;
use crate::sharding::common::{chunk_entries, Chunk, FileMetadata, ShardingError};
use crate::sharding::encryption::{aes256gcm_decrypt, decrypt_payload, AES_GCM_KEY_SIZE_B, AES_GCM_NONCE_SIZE_B};
use crate::sharding::uploader::PADDED_CHUNK_SIZE_B;
use crate::storage::shard_storage_manager::join_path;

verus! {

/// The number encoded by 4 bytes, least significant first.
pub open spec fn u32_from_le(b: Seq<u8>) -> nat {
    (b[0] + 256 * b[1] + 65536 * b[2] + 16777216 * b[3]) as nat
}

/// The plain data of a decrypted chunk: its padded data cut to the length
/// recorded after it (when that length is shorter).
pub open spec fn unpadded(p: Seq<u8>) -> Seq<u8> {
    let len = u32_from_le(p.subrange(PADDED_CHUNK_SIZE_B as int, PADDED_CHUNK_SIZE_B + 4));
    if len < PADDED_CHUNK_SIZE_B {
        p.take(len as int)
    } else {
        p.take(PADDED_CHUNK_SIZE_B as int)
    }
}

/// The length recorded after the padding reads back as the length written.
proof fn lemma_u32_le_roundtrip(n: u32)
    ensures
        u32_from_le(crate::sharding::uploader::u32_le(n)) == n,
{
    let b = crate::sharding::uploader::u32_le(n);
    assert(b[0] == n % 256);
    assert(b[1] == (n / 256) % 256);
    assert(b[2] == (n / 65536) % 256);
    assert(b[3] == n / 16777216);
    assert(n % 256 + 256 * ((n / 256) % 256) + 65536 * ((n / 65536) % 256) + 16777216 * (n / 16777216) == n)
        by (nonlinear_arith);
}

/// A chunk made by `FileUploader::get_next_chunk_encrypt` from a piece of the
/// file, handed to a downloader at the position its metadata was recorded at,
/// gives the piece back.
pub proof fn law_chunk_roundtrip(md: FileMetadata, index: int, data: Seq<u8>, padding: Seq<u8>, chunk: Chunk)
    requires
        0 < data.len() <= PADDED_CHUNK_SIZE_B,
        padding.len() == PADDED_CHUNK_SIZE_B - data.len(),
        0 <= index < md.chunks_metadata@.len(),
        md.chunks_metadata@[index].hash == chunk.hash,
        chunk.data@.len() > 0,
        aes256gcm_decrypt(md.encryption_key@, md.chunks_metadata@[index].nonce@, chunk.data@)
            == Some(crate::sharding::uploader::chunk_plaintext(data, padding)),
    ensures
        next_chunk_outcome(md, index, chunk) == Some(Ok::<Seq<u8>, ShardingError>(data)),
{
    let p = crate::sharding::uploader::chunk_plaintext(data, padding);
    let n = data.len() as u32;
    assert(p.subrange(PADDED_CHUNK_SIZE_B as int, PADDED_CHUNK_SIZE_B + 4) =~= crate::sharding::uploader::u32_le(n));
    lemma_u32_le_roundtrip(n);
    assert(p.take(data.len() as int) =~= data);
}

/// Writes a file back from its chunks, which must come in the order of the metadata.
pub struct FileDownloader {
    file_metadata: FileMetadata,
    chunk_index: usize,
    output_file_path: String,
}

/// What happens to the next chunk given to a downloader at `index` of the file
/// described by `md`: `None` where the chunk would decrypt to a length other
/// than that of a chunk, else the plain data or the reason it is refused.
pub open spec fn next_chunk_outcome(md: FileMetadata, index: int, chunk: Chunk) -> Option<Result<Seq<u8>, ShardingError>> {
    let cms = md.chunks_metadata@;
    if chunk.data@.len() == 0 {
        Some(Err(ShardingError::EmptyChunk))
    } else if index >= cms.len() {
        Some(Err(ShardingError::UnwantedChunk))
    } else {
        match aes256gcm_decrypt(md.encryption_key@, cms[index].nonce@, chunk.data@) {
            None => Some(Err(ShardingError::DecryptionFailed)),
            Some(p) => if p.len() != PADDED_CHUNK_SIZE_B + 4 {
                None
            } else if chunk.hash != cms[index].hash {
                Some(Err(ShardingError::ChunkHashMismatch))
            } else {
                Some(Ok(unpadded(p)))
            },
        }
    }
}

impl FileDownloader {
    /// The key and every nonce have the sizes AES-GCM takes.
    pub closed spec fn wf(&self) -> bool {
        &&& self.file_metadata.encryption_key@.len() == AES_GCM_KEY_SIZE_B
        &&& forall|i: int| 0 <= i < self.file_metadata.chunks_metadata@.len()
            ==> (#[trigger] self.file_metadata.chunks_metadata@[i]).nonce@.len() == AES_GCM_NONCE_SIZE_B
    }

    /// The metadata of the file.
    pub closed spec fn metadata(&self) -> FileMetadata {
        self.file_metadata
    }

    /// How many chunks were written.
    pub closed spec fn index(&self) -> nat {
        self.chunk_index as nat
    }

    /// Where the file is written.
    pub closed spec fn output_path(&self) -> Seq<char> {
        self.output_file_path@
    }

    /// A downloader for the file described by `file_metadata`, to be written
    /// under `output_dir` with its own name.
    pub fn new(file_metadata: FileMetadata, output_dir: &String) -> (d: FileDownloader)
        requires
            file_metadata.encryption_key@.len() == AES_GCM_KEY_SIZE_B,
            forall|i: int| 0 <= i < file_metadata.chunks_metadata@.len()
                ==> (#[trigger] file_metadata.chunks_metadata@[i]).nonce@.len() == AES_GCM_NONCE_SIZE_B,
        ensures
            d.wf(),
            d.metadata() == file_metadata,
            d.index() == 0,
            d.output_path() == join_path(output_dir@, file_metadata.name@),
    {
        let output_file_path = join_file_path(output_dir, &file_metadata.name);
        FileDownloader { file_metadata, chunk_index: 0, output_file_path }
    }

    /// Where the file is written.
    pub fn get_output_file_path(&self) -> (p: &String)
        ensures
            p@ == self.output_path(),
    {
        &self.output_file_path
    }

    /// Whether every chunk of the file was written.
    pub fn is_complete(&self) -> (b: bool)
        ensures
            b == (self.index() >= self.metadata().chunks_metadata@.len()),
    {
        self.chunk_index >= self.file_metadata.chunks_metadata.len()
    }

    /// Carries out `next_chunk_outcome`; the index moves on when the chunk is taken.
    fn decode_next_chunk(&mut self, chunk: Chunk) -> (r: Option<Result<Vec<u8>, ShardingError>>)
        requires
            old(self).wf(),
        ensures
            final(self).wf(),
            final(self).metadata() == old(self).metadata(),
            final(self).output_path() == old(self).output_path(),
            match next_chunk_outcome(old(self).metadata(), old(self).index() as int, chunk) {
                Some(Ok(p)) => (r matches Some(Ok(v)) && v@ == p) && final(self).index() == old(self).index() + 1,
                Some(Err(e)) => r == Some(Err::<Vec<u8>, ShardingError>(e)) && final(self).index() == old(self).index(),
                None => r is None && final(self).index() == old(self).index(),
            },
    {
        if chunk.data.len() == 0 {
            return Some(Err(ShardingError::EmptyChunk));
        }
        if self.chunk_index >= self.file_metadata.chunks_metadata.len() {
            return Some(Err(ShardingError::UnwantedChunk));
        }
        let i = self.chunk_index;
        let decrypted = decrypt_payload(
            &chunk.data,
            self.file_metadata.encryption_key.as_slice(),
            self.file_metadata.chunks_metadata[i].nonce.as_slice(),
        );
        let mut bytes = match decrypted {
            Ok(b) => b,
            Err(_) => {
                return Some(Err(ShardingError::DecryptionFailed));
            },
        };
        if bytes.len() != PADDED_CHUNK_SIZE_B + 4 {
            return None;
        }
        let p = PADDED_CHUNK_SIZE_B;
        let unpadded_size: u32 = (bytes[p] as u32) + 256 * (bytes[p + 1] as u32) + 65536 * (bytes[p + 2] as u32)
            + 16777216 * (bytes[p + 3] as u32);
        assert(unpadded_size == u32_from_le(bytes@.subrange(p as int, p + 4)));
        bytes.truncate(p);
        if chunk.hash != self.file_metadata.chunks_metadata[i].hash {
            return Some(Err(ShardingError::ChunkHashMismatch));
        }
        if (unpadded_size as usize) < bytes.len() {
            bytes.truncate(unpadded_size as usize);
        }
        self.chunk_index = self.chunk_index + 1;
        Some(Ok(bytes))
    }

    /// Decrypts the next chunk and returns its plain data to be written; the next
    /// chunk is then expected. Refused when the chunk is empty, when no chunk is
    /// expected any more, when it does not decrypt, or when its key is not the
    /// one the metadata lists.
    pub fn store_next_chunk_decrypt(&mut self, chunk: Chunk) -> (r: Result<Vec<u8>, ShardingError>)
        requires
            old(self).wf(),
            next_chunk_outcome(old(self).metadata(), old(self).index() as int, chunk) is Some,
        ensures
            final(self).wf(),
            final(self).metadata() == old(self).metadata(),
            final(self).output_path() == old(self).output_path(),
            match next_chunk_outcome(old(self).metadata(), old(self).index() as int, chunk) {
                Some(Ok(p)) => (r matches Ok(v) && v@ == p) && final(self).index() == old(self).index() + 1,
                Some(Err(e)) => r == Err::<Vec<u8>, ShardingError>(e) && final(self).index() == old(self).index(),
                None => false,
            },
    {
        match self.decode_next_chunk(chunk) {
            Some(r) => r,
            None => Err(ShardingError::DecryptionFailed),
        }
    }

    /// As `store_next_chunk_decrypt`, for any chunk: gives nothing, and changes
    /// nothing, when the chunk would decrypt to a length other than a chunk's.
    pub fn try_store_next_chunk_decrypt(&mut self, chunk: Chunk) -> (r: Option<Result<Vec<u8>, ShardingError>>)
        requires
            old(self).wf(),
        ensures
            final(self).wf(),
            final(self).metadata() == old(self).metadata(),
            final(self).output_path() == old(self).output_path(),
            match next_chunk_outcome(old(self).metadata(), old(self).index() as int, chunk) {
                Some(Ok(p)) => (r matches Some(Ok(v)) && v@ == p) && final(self).index() == old(self).index() + 1,
                Some(Err(e)) => r == Some(Err::<Vec<u8>, ShardingError>(e)) && final(self).index() == old(self).index(),
                None => r is None && final(self).index() == old(self).index(),
            },
    {
        self.decode_next_chunk(chunk)
    }
}

/// `name` joined under the directory `dir`.
pub fn join_file_path(dir: &String, name: &String) -> (p: String)
    ensures
        p@ == join_path(dir@, name@),
{
    let n: usize = dir.as_str().unicode_len();
    if n == 0 {
        return name.clone();
    }
    let mut p = dir.clone();
    let last = dir.as_str().get_char(n - 1);
    if last != '/' {
        p.push('/');
    }
    p.push_str(name.as_str());
    p
}

} // verus!
