//! Reading a file out as encrypted chunks. The caller reads the file; each
//! piece it read is padded, keyed, encrypted and recorded here.
use vstd::prelude::*;
use crate::constants::{CHUNK_DATA_SIZE_KB, K, MAX_FILE_SIZE_MB};
use crate::kademlia::key::{sha1_digest, Key};
use crate::sharding::common::{chunk_entries, Chunk, ChunkMetadata, FileMetadata, ShardingError, ENCRYPTED_CHUNK_SIZE_B};
use crate::sharding::encryption::{aes256gcm_decrypt, encrypt_payload, generate_key, AES_GCM_KEY_SIZE_B, AES_GCM_NONCE_SIZE_B};

verus! {

/// Size of the padded plain data of a chunk.
pub const PADDED_CHUNK_SIZE_B: usize = CHUNK_DATA_SIZE_KB * 1024;

/// The 4 bytes of `n`, least significant first.
pub open spec fn u32_le(n: u32) -> Seq<u8> {
    seq![(n % 256) as u8, ((n / 256) % 256) as u8, ((n / 65536) % 256) as u8, (n / 16777216) as u8]
}

/// Returns `n` random bytes from the thread-local generator of `rand`.
/// Nothing is stated of the bytes: they are random.
#[verifier::external_body]
fn random_bytes(n: usize) -> (v: Vec<u8>)
    ensures
        v@.len() == n,
{
    let mut v = vec![0u8; n];
    rand::Rng::fill(&mut rand::rng(), &mut v[..]);
    v
}

/// The plain content of a chunk: `data` padded with `padding`, then the length
/// of `data` as 4 little-endian bytes.
pub open spec fn chunk_plaintext(data: Seq<u8>, padding: Seq<u8>) -> Seq<u8> {
    data + padding + u32_le(data.len() as u32)
}

/// Cuts a file into encrypted chunks and collects what is needed to get it back.
pub struct FileUploader {
    file_metadata: FileMetadata,
    encryption_key: Vec<u8>,
}

impl FileUploader {
    /// The key is an AES-256 key, the metadata carries it, and every chunk was
    /// encrypted under a nonce of the AES-GCM size.
    pub closed spec fn wf(&self) -> bool {
        &&& self.encryption_key@.len() == AES_GCM_KEY_SIZE_B
        &&& self.file_metadata.encryption_key@ == self.encryption_key@
        &&& forall|i: int| 0 <= i < self.file_metadata.chunks_metadata@.len()
            ==> (#[trigger] self.file_metadata.chunks_metadata@[i]).nonce@.len() == AES_GCM_NONCE_SIZE_B
    }

    /// A well-formed uploader's key is an AES-256 key.
    pub proof fn lemma_wf(&self)
        requires
            self.wf(),
        ensures
            self.key().len() == AES_GCM_KEY_SIZE_B,
            forall|i: int| 0 <= i < self.chunks().len() ==> (#[trigger] self.chunks()[i]).1.len() == AES_GCM_NONCE_SIZE_B,
    {
    }

    /// The name of the file.
    pub closed spec fn name(&self) -> Seq<char> {
        self.file_metadata.name@
    }

    /// The key the chunks are encrypted with.
    pub closed spec fn key(&self) -> Seq<u8> {
        self.encryption_key@
    }

    /// The chunks produced so far, as (key, nonce) pairs.
    pub closed spec fn chunks(&self) -> Seq<(Key, Seq<u8>)> {
        chunk_entries(self.file_metadata.chunks_metadata@)
    }

    /// An uploader for the file `file_name` of `file_size` bytes with a fresh
    /// random key; refused when the file is larger than `max_file_size_mb` MiB.
    pub fn new_with_max_file_size(file_name: String, file_size: usize, max_file_size_mb: usize) -> (r: Result<FileUploader, ShardingError>)
        ensures
            file_size > max_file_size_mb * 1024 * 1024 ==> r == Err::<FileUploader, ShardingError>(ShardingError::FileTooBig),
            file_size <= max_file_size_mb * 1024 * 1024 ==> (r matches Ok(u) && u.wf() && u.name() == file_name@
                && u.key().len() == AES_GCM_KEY_SIZE_B && u.chunks().len() == 0),
    {
        if (file_size as u128) > (max_file_size_mb as u128) * 1024 * 1024 {
            return Err(ShardingError::FileTooBig);
        }
        let encryption_key = generate_key();
        let file_metadata = FileMetadata {
            name: file_name,
            encryption_key: encryption_key.clone(),
            chunks_metadata: Vec::new(),
        };
        let u = FileUploader { file_metadata, encryption_key };
        assert(u.chunks() =~= Seq::<(Key, Seq<u8>)>::empty());
        Ok(u)
    }

    /// An uploader for a file of at most `MAX_FILE_SIZE_MB` MiB.
    pub fn new(file_name: String, file_size: usize) -> (r: Result<FileUploader, ShardingError>)
        ensures
            file_size > MAX_FILE_SIZE_MB * 1024 * 1024 ==> r == Err::<FileUploader, ShardingError>(ShardingError::FileTooBig),
            file_size <= MAX_FILE_SIZE_MB * 1024 * 1024 ==> (r matches Ok(u) && u.wf() && u.name() == file_name@
                && u.key().len() == AES_GCM_KEY_SIZE_B && u.chunks().len() == 0),
    {
        FileUploader::new_with_max_file_size(file_name, file_size, MAX_FILE_SIZE_MB)
    }

    /// Turns the next piece of the file, `data` (what one read of at most
    /// `PADDED_CHUNK_SIZE_B` bytes gave), into an encrypted chunk. Nothing is
    /// left when the read gave nothing. Otherwise the piece is padded with random
    /// bytes to `PADDED_CHUNK_SIZE_B`, keyed by the digest of the padded data,
    /// followed by its length, encrypted under a fresh nonce, and recorded.
    pub fn get_next_chunk_encrypt(&mut self, data: Vec<u8>) -> (r: Result<Option<Chunk>, ShardingError>)
        requires
            old(self).wf(),
            data@.len() <= PADDED_CHUNK_SIZE_B,
        ensures
            final(self).wf(),
            final(self).name() == old(self).name(),
            final(self).key() == old(self).key(),
            data@.len() == 0 ==> r == Ok::<Option<Chunk>, ShardingError>(None) && final(self).chunks() == old(self).chunks(),
            data@.len() > 0 ==> (r matches Ok(Some(chunk)) && {
                &&& final(self).chunks().len() == old(self).chunks().len() + 1
                &&& final(self).chunks().drop_last() == old(self).chunks()
                &&& final(self).chunks().last().0 == chunk.hash
                &&& final(self).chunks().last().1.len() == AES_GCM_NONCE_SIZE_B
                &&& chunk.data@.len() == ENCRYPTED_CHUNK_SIZE_B
                &&& exists|padding: Seq<u8>| {
                    &&& #[trigger] padding.len() == PADDED_CHUNK_SIZE_B - data@.len()
                    &&& chunk.hash@ == sha1_digest(data@ + padding).take(K as int)
                    &&& aes256gcm_decrypt(old(self).key(), final(self).chunks().last().1, chunk.data@)
                        == Some(chunk_plaintext(data@, padding))
                }
            }),
    {
        let bytes_read: usize = data.len();
        if bytes_read == 0 {
            return Ok(None);
        }
        let mut buffer = data;
        let padding = random_bytes(PADDED_CHUNK_SIZE_B - bytes_read);
        let mut i: usize = 0;
        while i < padding.len()
            invariant
                i <= padding@.len(),
                padding@.len() == PADDED_CHUNK_SIZE_B - bytes_read,
                buffer@ == data@ + padding@.take(i as int),
            decreases padding@.len() - i,
        {
            buffer.push(padding[i]);
            i += 1;
            assert(buffer@ =~= data@ + padding@.take(i as int));
        }
        assert(padding@.take(i as int) =~= padding@);
        let chunk_hash = Key::from_input(buffer.as_slice());
        let n: u32 = bytes_read as u32;
        buffer.push((n % 256) as u8);
        buffer.push(((n / 256) % 256) as u8);
        buffer.push(((n / 65536) % 256) as u8);
        buffer.push((n / 16777216) as u8);
        assert(buffer@ =~= chunk_plaintext(data@, padding@));
        match encrypt_payload(buffer.as_slice(), self.encryption_key.as_slice()) {
            Ok((nonce, encrypted)) => {
                let ghost before = self.file_metadata.chunks_metadata@;
                self.file_metadata.chunks_metadata.push(ChunkMetadata { hash: chunk_hash, nonce });
                proof {
                    assert(chunk_entries(self.file_metadata.chunks_metadata@).drop_last() =~= chunk_entries(before));
                }
                Ok(Some(Chunk { data: encrypted, hash: chunk_hash }))
            },
            Err(e) => Err(ShardingError::EncryptionError(e)),
        }
    }

    /// The metadata of the file once it was read to its end (`fully_read`);
    /// refused before.
    pub fn get_metadata(self, fully_read: bool) -> (r: Result<FileMetadata, ShardingError>)
        requires
            self.wf(),
        ensures
            !fully_read ==> r == Err::<FileMetadata, ShardingError>(ShardingError::MetadataNotFilled),
            fully_read ==> (r matches Ok(m) && m.name@ == self.name() && m.encryption_key@ == self.key()
                && m.encryption_key@.len() == AES_GCM_KEY_SIZE_B && chunk_entries(m.chunks_metadata@) == self.chunks()
                && forall|i: int| 0 <= i < m.chunks_metadata@.len()
                    ==> (#[trigger] m.chunks_metadata@[i]).nonce@.len() == AES_GCM_NONCE_SIZE_B),
    {
        if fully_read {
            Ok(self.file_metadata)
        } else {
            Err(ShardingError::MetadataNotFilled)
        }
    }
}

} // verus!
