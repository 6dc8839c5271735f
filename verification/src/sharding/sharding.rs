//! Plain (unencrypted) chunking of a whole file held in memory, and joining
//! chunks back into the file.
use vstd::prelude::*;
use crate::constants::K;
use crate::kademlia::key::{sha1_digest, Key};

verus! {

/// Size of a chunk of a small file, in KiB.
pub const CHUNK_SIZE_KB_SMALL: usize = 512;

/// Size of a chunk of a large file, in KiB.
pub const CHUNK_SIZE_KB_LARGE: usize = 1024;

/// Largest file that may be chunked, in MiB.
pub const MAX_FILE_SIZE_MB: usize = 4096;

/// Files above this size, in MiB, are cut into large chunks.
pub const LARGE_FILE_THRESHOLD_MB: usize = 1024;

/// Why a file could not be chunked.
#[derive(Debug, Clone, PartialEq, Eq)]
pub enum ShardingError {
    /// Reading the file failed.
    Io(String),
    /// The file is too big to be uploaded to the network.
    FileTooBig,
}

/// A plain chunk and the key of its data.
#[derive(Debug, Clone, PartialEq, Eq)]
pub struct ChunkBytes {
    data: Vec<u8>,
    hash: Key,
}

impl ChunkBytes {
    /// A chunk with the given data and key.
    pub fn new(data: Vec<u8>, hash: Key) -> (c: ChunkBytes)
        ensures
            c.spec_data() == data@,
            c.spec_hash() == hash,
    {
        ChunkBytes { data, hash }
    }

    /// The data of the chunk.
    pub closed spec fn spec_data(&self) -> Seq<u8> {
        self.data@
    }

    /// The key of the chunk.
    pub closed spec fn spec_hash(&self) -> Key {
        self.hash
    }

    /// The data of the chunk.
    pub fn get_data(&self) -> (d: &Vec<u8>)
        ensures
            d@ == self.spec_data(),
    {
        &self.data
    }

    /// The key of the chunk.
    pub fn get_hash(&self) -> (h: Key)
        ensures
            h == self.spec_hash(),
    {
        self.hash
    }
}

/// A file cut into plain chunks.
pub struct FileProcessed {
    chunks: Vec<ChunkBytes>,
}

impl FileProcessed {
    /// The chunks, in file order.
    pub closed spec fn spec_chunks(&self) -> Seq<ChunkBytes> {
        self.chunks@
    }

    /// The chunks, in file order.
    pub fn get_chunks(&self) -> (c: &Vec<ChunkBytes>)
        ensures
            c@ == self.spec_chunks(),
    {
        &self.chunks
    }
}

/// The bytes of a whole file.
pub struct FileBytes {
    bytes: Vec<u8>,
}

impl FileBytes {
    /// The bytes.
    pub closed spec fn spec_bytes(&self) -> Seq<u8> {
        self.bytes@
    }

    /// The bytes.
    pub fn get_bytes(&self) -> (b: &Vec<u8>)
        ensures
            b@ == self.spec_bytes(),
    {
        &self.bytes
    }
}

/// What is known of a chunk to fetch it: its key and size.
pub struct ChunkMetadata {
    hash: Key,
    size: usize,
}

/// What is known of a file to fetch it: its name, size, key and chunk keys.
pub struct FileMetadata {
    name: String,
    size: usize,
    hash: Key,
    chunk_hashes: Vec<Key>,
}

/// The data of the chunks, concatenated in order.
pub open spec fn concat_chunks(chunks: Seq<ChunkBytes>) -> Seq<u8>
    decreases chunks.len(),
{
    if chunks.len() == 0 {
        Seq::empty()
    } else {
        concat_chunks(chunks.drop_last()) + chunks.last().spec_data()
    }
}

/// Joins the chunks, in order, into the bytes of the file.
pub fn get_file_from_chunks(chunks: Vec<ChunkBytes>) -> (r: Result<FileBytes, ShardingError>)
    ensures
        r matches Ok(f) && f.spec_bytes() == concat_chunks(chunks@),
{
    let mut file_bytes: Vec<u8> = Vec::new();
    let n: usize = chunks.len();
    for i in 0..n
        invariant
            n == chunks@.len(),
            file_bytes@ == concat_chunks(chunks@.take(i as int)),
    {
        let data = chunks[i].get_data();
        let m: usize = data.len();
        let ghost start = file_bytes@;
        for j in 0..m
            invariant
                m == data@.len(),
                file_bytes@ == start + data@.take(j as int),
        {
            file_bytes.push(data[j]);
            assert(file_bytes@ =~= start + data@.take(j + 1));
        }
        assert(data@.take(m as int) =~= data@);
        assert(chunks@.take(i + 1).drop_last() =~= chunks@.take(i as int));
    }
    assert(chunks@.take(n as int) =~= chunks@);
    Ok(FileBytes { bytes: file_bytes })
}

/// Joining the chunks a file was cut into gives the file back.
pub proof fn law_split_then_join(bytes: Seq<u8>, size: int, chunks: Seq<ChunkBytes>)
    requires
        size > 0,
        cut_in_chunks(bytes, size, chunks),
    ensures
        concat_chunks(chunks) == bytes,
{
    lemma_concat_prefix(bytes, size, chunks, chunks.len() as int);
    assert(chunks.take(chunks.len() as int) =~= chunks);
    if chunks.len() > 0 {
        let k = chunks.len() - 1;
        assert(k == (bytes.len() - 1) / size);
        assert(k * size <= bytes.len() - 1) by (nonlinear_arith)
            requires
                k == (bytes.len() - 1) / size,
                size > 0,
                bytes.len() > 0,
        ;
        assert((k + 1) * size >= bytes.len()) by (nonlinear_arith)
            requires
                k == (bytes.len() - 1) / size,
                size > 0,
                bytes.len() > 0,
        ;
        assert(bytes.subrange(0, bytes.len() as int) =~= bytes);
    } else {
        assert(bytes.len() == 0);
        assert(bytes =~= Seq::<u8>::empty());
    }
}

proof fn lemma_concat_prefix(bytes: Seq<u8>, size: int, chunks: Seq<ChunkBytes>, m: int)
    requires
        size > 0,
        cut_in_chunks(bytes, size, chunks),
        0 <= m <= chunks.len(),
    ensures
        m > 0 ==> concat_chunks(chunks.take(m)) == bytes.subrange(0, if m * size < bytes.len() { m * size } else { bytes.len() as int }),
        m == 0 ==> concat_chunks(chunks.take(m)) == Seq::<u8>::empty(),
    decreases m,
{
    if m > 0 {
        lemma_concat_prefix(bytes, size, chunks, m - 1);
        assert(chunks.take(m).drop_last() =~= chunks.take(m - 1));
        assert(chunks.take(m).last() == chunks[m - 1]);
        let lo = (m - 1) * size;
        assert(m * size == lo + size) by (nonlinear_arith)
            requires
                lo == (m - 1) * size,
        ;
        assert(lo < bytes.len()) by (nonlinear_arith)
            requires
                m - 1 < (bytes.len() - 1) / size + 1,
                lo == (m - 1) * size,
                size > 0,
                bytes.len() > 0,
        ;
        let hi = if m * size < bytes.len() { m * size } else { bytes.len() as int };
        if m > 1 {
            assert((m - 1) * size < bytes.len());
            assert(bytes.subrange(0, lo) + bytes.subrange(lo, hi) =~= bytes.subrange(0, hi));
        } else {
            assert(bytes.subrange(0, hi) =~= Seq::<u8>::empty() + bytes.subrange(lo, hi));
        }
    } else {
        assert(chunks.take(0) =~= Seq::<ChunkBytes>::empty());
    }
}

/// The size of the chunks a file of `file_size` bytes is cut into.
pub open spec fn chunk_size_for(file_size: int) -> int {
    if file_size > LARGE_FILE_THRESHOLD_MB * 1024 * 1024 {
        CHUNK_SIZE_KB_LARGE * 1024
    } else {
        CHUNK_SIZE_KB_SMALL * 1024
    }
}

/// `bytes` cut in order into pieces of `size` (the last may be shorter), each
/// keyed by the first `K` bytes of its SHA-1 digest.
pub open spec fn cut_in_chunks(bytes: Seq<u8>, size: int, chunks: Seq<ChunkBytes>) -> bool {
    &&& chunks.len() == (if bytes.len() == 0 { 0 } else { (bytes.len() - 1) / size + 1 })
    &&& forall|i: int| 0 <= i < chunks.len() ==> {
        let lo = i * size;
        let hi = if (i + 1) * size < bytes.len() { (i + 1) * size } else { bytes.len() as int };
        &&& (#[trigger] chunks[i]).spec_data() == bytes.subrange(lo, hi)
        &&& chunks[i].spec_hash()@ == sha1_digest(bytes.subrange(lo, hi)).take(K as int)
    }
}

/// Cuts the bytes of a file into plain chunks (large ones for files above
/// `LARGE_FILE_THRESHOLD_MB` MiB); refused for files above `MAX_FILE_SIZE_MB` MiB.
pub fn process_file_for_upload(file: &Vec<u8>) -> (r: Result<FileProcessed, ShardingError>)
    ensures
        file@.len() > MAX_FILE_SIZE_MB * 1024 * 1024 ==> r == Err::<FileProcessed, ShardingError>(ShardingError::FileTooBig),
        file@.len() <= MAX_FILE_SIZE_MB * 1024 * 1024 ==> (r matches Ok(p)
            && cut_in_chunks(file@, chunk_size_for(file@.len() as int), p.spec_chunks())),
{
    let file_size: usize = file.len();
    if (file_size as u64) > (MAX_FILE_SIZE_MB as u64) * 1024 * 1024 {
        return Err(ShardingError::FileTooBig);
    }
    let chunks = split_file_in_chunks(file);
    Ok(FileProcessed { chunks })
}

/// Cuts `file` into chunks of the size its length calls for.
fn split_file_in_chunks(file: &Vec<u8>) -> (chunks: Vec<ChunkBytes>)
    requires
        file@.len() <= MAX_FILE_SIZE_MB * 1024 * 1024,
    ensures
        cut_in_chunks(file@, chunk_size_for(file@.len() as int), chunks@),
{
    let n: usize = file.len();
    let size: usize = if (n as u64) > (LARGE_FILE_THRESHOLD_MB as u64) * 1024 * 1024 {
        CHUNK_SIZE_KB_LARGE * 1024
    } else {
        CHUNK_SIZE_KB_SMALL * 1024
    };
    let ghost gsize = size as int;
    let mut chunks: Vec<ChunkBytes> = Vec::new();
    let mut start: usize = 0;
    while start < n
        invariant
            n == file@.len(),
            n <= MAX_FILE_SIZE_MB * 1024 * 1024,
            gsize == size,
            size == chunk_size_for(n as int),
            start <= n,
            start == chunks@.len() * size || start == n,
            start < n ==> start == chunks@.len() * size,
            start == n && n > 0 ==> chunks@.len() == (n - 1) / gsize + 1,
            start == 0 ==> chunks@.len() == 0,
            forall|i: int| 0 <= i < chunks@.len() ==> {
                let lo = i * gsize;
                let hi = if (i + 1) * gsize < n { (i + 1) * gsize } else { n as int };
                &&& (#[trigger] chunks@[i]).spec_data() == file@.subrange(lo, hi)
                &&& chunks@[i].spec_hash()@ == sha1_digest(file@.subrange(lo, hi)).take(K as int)
            },
        decreases n - start,
    {
        let end: usize = if n - start > size { start + size } else { n };
        let mut data: Vec<u8> = Vec::new();
        let mut j: usize = start;
        while j < end
            invariant
                start <= j <= end <= n,
                n == file@.len(),
                data@ == file@.subrange(start as int, j as int),
            decreases end - j,
        {
            data.push(file[j]);
            j += 1;
            assert(data@ =~= file@.subrange(start as int, j as int));
        }
        let hash = Key::from_input(data.as_slice());
        let ghost k = chunks@.len() as int;
        proof {
            assert(start == k * gsize);
            assert((k + 1) * gsize == k * gsize + gsize) by (nonlinear_arith);
            if (k + 1) * gsize < n {
                assert(end == (k + 1) * gsize);
            } else {
                assert(end == n);
            }
            if end == n {
                assert((n - 1) / gsize == k) by (nonlinear_arith)
                    requires
                        k * gsize < n,
                        n <= (k + 1) * gsize,
                        gsize > 0,
                        n > 0,
                ;
            }
        }
        chunks.push(ChunkBytes::new(data, hash));
        start = end;
    }
    chunks
}

} // verus!
