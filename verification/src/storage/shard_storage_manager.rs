//! The chunks a node keeps for others: which chunks, since when, and which
//! transfers it awaits. Reading and writing the chunk files is left to the
//! caller; this keeps the bookkeeping and the decisions.
use vstd::prelude::*;
use crate::clock::{elapsed_secs, Timestamp, NANOS_PER_SECOND};
use crate::constants::{
    DEFAULT_CHUNK_EXPIRE_TIME_S, DEFAULT_CHUNK_REUPLOAD_INTERVAL_S, MAX_DATA_STORED_MB, MAX_SHARDS_STORED,
};
use crate::sharding::common::ENCRYPTED_CHUNK_SIZE_B;
use crate::kademlia::key::{closer, Key};
use crate::networking::node_info::NodeInfo;
use crate::storage::data_transfers_table::{DataTransfer, DataTransfersTable};
use crate::text::hex_encode;
use vstd::string::StrSliceExecFns;

verus! {

/// When a chunk was stored or last refreshed, and how many bytes it holds.
#[derive(Debug, Clone, Copy, PartialEq, Eq)]
pub struct StoredChunkInfo {
    pub time_stored_at: Timestamp,
    pub size_bytes: u64,
}

impl StoredChunkInfo {
    /// Sets the time the chunk was stored at.
    pub fn update_time(&mut self, time: Timestamp)
        ensures
            final(self).time_stored_at == time,
            final(self).size_bytes == old(self).size_bytes,
    {
        self.time_stored_at = time;
    }
}

/// Why a chunk operation was refused.
#[derive(Debug, Clone, Copy, PartialEq, Eq)]
pub enum StorageError {
    /// No transfer is expected on the port.
    TransferNotFound,
    /// The node already keeps `MAX_SHARDS_STORED` chunks.
    TooManyShards,
    /// The chunk is larger than a chunk may be.
    InvalidChunkSize,
    /// The space set aside for chunks would be exceeded.
    StorageFull,
    /// The chunk is not kept here.
    ChunkNotFound,
}

/// `name` joined under the directory `root`, as `Path::join` joins a relative name.
pub open spec fn join_path(root: Seq<char>, name: Seq<char>) -> Seq<char> {
    if root.len() == 0 {
        name
    } else if root.last() == '/' {
        root + name
    } else {
        root + seq!['/'] + name
    }
}

/// Some entry of `s` is for the chunk `k`.
pub open spec fn has_chunk(s: Seq<(Key, StoredChunkInfo)>, k: Key) -> bool {
    exists|i: int| 0 <= i < s.len() && #[trigger] s[i].0 == k
}

/// The position of the entry for `k` (meaningful when there is one).
pub open spec fn chunk_index(s: Seq<(Key, StoredChunkInfo)>, k: Key) -> int {
    choose|i: int| 0 <= i < s.len() && s[i].0 == k
}

/// No chunk has two entries.
pub open spec fn unique_chunks(s: Seq<(Key, StoredChunkInfo)>) -> bool {
    forall|i: int, j: int| 0 <= i < s.len() && 0 <= j < s.len() && i != j ==> #[trigger] s[i].0 != #[trigger] s[j].0
}

/// The chunks of `s` with their times.
pub open spec fn chunk_map(s: Seq<(Key, StoredChunkInfo)>) -> Map<Key, Timestamp> {
    Map::new(|k: Key| has_chunk(s, k), |k: Key| s[chunk_index(s, k)].1.time_stored_at)
}

/// The chunk kept since `t` is at least `interval` whole seconds old at `now`.
pub open spec fn aged(t: Timestamp, now: Timestamp, interval: u64) -> bool {
    elapsed_secs(t, now) >= interval
}

/// `v` lists, once each, exactly the keys of `m` that satisfy `p`.
pub open spec fn lists_exactly(v: Seq<Key>, m: Map<Key, Timestamp>, p: spec_fn(Key) -> bool) -> bool {
    &&& v.no_duplicates()
    &&& forall|k: Key| v.contains(k) <==> (m.contains_key(k) && p(k))
}

/// Pushing `x` onto `v` adds exactly `x`, and keeps `v` free of duplicates
/// when `x` was not in it.
pub proof fn lemma_push_contains<A>(v: Seq<A>, x: A)
    ensures
        forall|y: A| #[trigger] v.push(x).contains(y) <==> (v.contains(y) || y == x),
        v.no_duplicates() && !v.contains(x) ==> v.push(x).no_duplicates(),
{
    let w = v.push(x);
    assert forall|y: A| #[trigger] w.contains(y) <==> (v.contains(y) || y == x) by {
        if v.contains(y) {
            let j = choose|j: int| 0 <= j < v.len() && v[j] == y;
            assert(w[j] == y);
        }
        if y == x {
            assert(w[v.len() as int] == y);
        }
        if w.contains(y) {
            let j = choose|j: int| 0 <= j < w.len() && w[j] == y;
            if j < v.len() {
                assert(v[j] == y);
            }
        }
    }
    if v.no_duplicates() && !v.contains(x) {
        assert forall|a: int, b: int| 0 <= a < w.len() && 0 <= b < w.len() && a != b implies w[a] != w[b] by {
            if a < v.len() && b < v.len() {
            } else if a < v.len() {
                assert(v.contains(v[a]));
            } else {
                assert(v.contains(v[b]));
            }
        }
    }
}

proof fn lemma_chunk_index(s: Seq<(Key, StoredChunkInfo)>, i: int)
    requires
        unique_chunks(s),
        0 <= i < s.len(),
    ensures
        has_chunk(s, s[i].0),
        chunk_index(s, s[i].0) == i,
{
    assert(s[i].0 == s[i].0);
}

proof fn lemma_map_push(s: Seq<(Key, StoredChunkInfo)>, k: Key, info: StoredChunkInfo)
    requires
        unique_chunks(s),
        !has_chunk(s, k),
    ensures
        unique_chunks(s.push((k, info))),
        chunk_map(s.push((k, info))) == chunk_map(s).insert(k, info.time_stored_at),
        s.push((k, info)).len() == s.len() + 1,
{
    let t = s.push((k, info));
    assert forall|i: int, j: int| 0 <= i < t.len() && 0 <= j < t.len() && i != j implies #[trigger] t[i].0 != #[trigger] t[j].0 by {
        if i < s.len() && j < s.len() {
            assert(s[i] == t[i] && s[j] == t[j]);
        } else if i < s.len() {
            assert(s[i].0 != k);
        } else {
            assert(s[j].0 != k);
        }
    }
    assert forall|x: Key| #[trigger] has_chunk(t, x) == (has_chunk(s, x) || x == k) by {
        if has_chunk(s, x) {
            let i = choose|i: int| 0 <= i < s.len() && s[i].0 == x;
            assert(t[i].0 == x);
        }
        if x == k {
            assert(t[s.len() as int].0 == x);
        }
        if has_chunk(t, x) && x != k {
            let i = choose|i: int| 0 <= i < t.len() && t[i].0 == x;
            assert(i < s.len());
            assert(s[i].0 == x);
        }
    }
    assert forall|x: Key| has_chunk(t, x) implies t[chunk_index(t, x)].1.time_stored_at
        == chunk_map(s).insert(k, info.time_stored_at)[x] by {
        if x == k {
            lemma_chunk_index(t, s.len() as int);
        } else {
            let i = chunk_index(s, x);
            lemma_chunk_index(t, i);
            assert(t[i] == s[i]);
        }
    }
    assert(chunk_map(t) =~= chunk_map(s).insert(k, info.time_stored_at));
}

/// Bytes of storage set aside for chunks.
pub open spec fn storage_capacity_bytes() -> nat {
    (MAX_DATA_STORED_MB * 1024 * 1024) as nat
}

/// The bytes held by the chunks of `s`.
pub open spec fn bytes_of(s: Seq<(Key, StoredChunkInfo)>) -> nat
    decreases s.len(),
{
    if s.len() == 0 {
        0
    } else {
        bytes_of(s.drop_last()) + s.last().1.size_bytes as nat
    }
}

proof fn lemma_bytes_prefix(s: Seq<(Key, StoredChunkInfo)>, i: int)
    requires
        0 <= i < s.len(),
    ensures
        bytes_of(s.take(i + 1)) <= bytes_of(s),
    decreases s.len(),
{
    if i + 1 < s.len() {
        assert(s.drop_last().take(i + 1) =~= s.take(i + 1));
        lemma_bytes_prefix(s.drop_last(), i);
    } else {
        assert(s.take(i + 1) =~= s);
    }
}

proof fn lemma_bytes_update(s: Seq<(Key, StoredChunkInfo)>, i: int, e: (Key, StoredChunkInfo))
    requires
        0 <= i < s.len(),
    ensures
        bytes_of(s.update(i, e)) == bytes_of(s) - s[i].1.size_bytes + e.1.size_bytes,
        s[i].1.size_bytes <= bytes_of(s),
    decreases s.len(),
{
    let t = s.update(i, e);
    if i < s.len() - 1 {
        assert(t.drop_last() =~= s.drop_last().update(i, e));
        lemma_bytes_update(s.drop_last(), i, e);
    } else {
        assert(t.drop_last() =~= s.drop_last());
    }
}

proof fn lemma_map_update(s: Seq<(Key, StoredChunkInfo)>, i: int, info: StoredChunkInfo)
    requires
        unique_chunks(s),
        0 <= i < s.len(),
    ensures
        unique_chunks(s.update(i, (s[i].0, info))),
        chunk_map(s.update(i, (s[i].0, info))) == chunk_map(s).insert(s[i].0, info.time_stored_at),
{
    let k = s[i].0;
    let t = s.update(i, (k, info));
    assert forall|a: int, b: int| 0 <= a < t.len() && 0 <= b < t.len() && a != b implies #[trigger] t[a].0 != #[trigger] t[b].0 by {
        assert(t[a].0 == s[a].0 && t[b].0 == s[b].0);
    }
    assert forall|x: Key| #[trigger] has_chunk(t, x) == has_chunk(s, x) by {
        if has_chunk(s, x) {
            let j = choose|j: int| 0 <= j < s.len() && s[j].0 == x;
            assert(t[j].0 == x);
        }
        if has_chunk(t, x) {
            let j = choose|j: int| 0 <= j < t.len() && t[j].0 == x;
            assert(s[j].0 == x);
        }
    }
    lemma_chunk_index(s, i);
    assert forall|x: Key| has_chunk(t, x) implies t[chunk_index(t, x)].1.time_stored_at
        == chunk_map(s).insert(k, info.time_stored_at)[x] by {
        let j = chunk_index(s, x);
        lemma_chunk_index(t, j);
        lemma_chunk_index(s, j);
    }
    assert(chunk_map(t) =~= chunk_map(s).insert(k, info.time_stored_at));
}

/// A chunk recorded as kept is then reported as kept, with the time it was
/// recorded at.
pub proof fn law_recorded_chunk_is_stored(before: Map<Key, Timestamp>, after: Map<Key, Timestamp>, hash: Key, now: Timestamp)
    requires
        after == before.insert(hash, now),
    ensures
        after.contains_key(hash),
        after[hash] == now,
        forall|k: Key| k != hash ==> (after.contains_key(k) == before.contains_key(k)),
{
}

/// Forgetting the chunks listed as expired at `now` leaves no expired chunk and
/// keeps every other chunk with its time.
pub proof fn law_dead_chunks_forgotten(before: Map<Key, Timestamp>, dead: Seq<Key>, after: Map<Key, Timestamp>, now: Timestamp, expire: u64)
    requires
        lists_exactly(dead, before, |k: Key| aged(before[k], now, expire)),
        after == before.remove_keys(dead.to_set()),
    ensures
        forall|k: Key| #[trigger] after.contains_key(k) ==> !aged(after[k], now, expire),
        forall|k: Key| before.contains_key(k) && !aged(before[k], now, expire) ==> #[trigger] after.contains_key(k)
            && after[k] == before[k],
{
    assert forall|k: Key| #[trigger] after.contains_key(k) implies !aged(after[k], now, expire) by {
        assert(!dead.to_set().contains(k));
        assert(!dead.contains(k));
    }
    assert forall|k: Key| before.contains_key(k) && !aged(before[k], now, expire) implies #[trigger] after.contains_key(k)
        && after[k] == before[k] by {
        assert(!dead.contains(k));
        assert(!dead.to_set().contains(k));
    }
}

/// The chunks a node keeps for other nodes, the transfers it awaits, and the
/// limits it applies.
pub struct ShardStorageManager {
    storage_root_path: String,
    owned_chunks: Vec<(Key, StoredChunkInfo)>,
    data_transfers_table: DataTransfersTable,
    total_stored_bytes: u64,
    reupload_interval_s: u64,
    expire_time_s: u64,
}

impl ShardStorageManager {
    /// No chunk is kept twice, and the stored amount fits the space set aside.
    pub closed spec fn wf(&self) -> bool {
        &&& unique_chunks(self.owned_chunks@)
        &&& self.total_stored_bytes == bytes_of(self.owned_chunks@)
        &&& self.total_stored_bytes <= storage_capacity_bytes()
    }

    /// The chunks kept, each with the time it was stored or last refreshed.
    pub closed spec fn chunks(&self) -> Map<Key, Timestamp> {
        chunk_map(self.owned_chunks@)
    }

    /// How many chunks are kept.
    pub closed spec fn num_chunks(&self) -> nat {
        self.owned_chunks@.len()
    }

    /// The transfers awaited, by port.
    pub closed spec fn transfers(&self) -> Map<u16, DataTransfer> {
        self.data_transfers_table@
    }

    /// The directory the chunk files live in.
    pub closed spec fn root_path(&self) -> Seq<char> {
        self.storage_root_path@
    }

    /// Bytes held by the kept chunks.
    pub closed spec fn stored_bytes(&self) -> nat {
        self.total_stored_bytes as nat
    }

    /// The bytes held by the kept chunk `hash` (0 when it is not kept).
    pub closed spec fn chunk_bytes(&self, hash: Key) -> nat {
        if has_chunk(self.owned_chunks@, hash) {
            self.owned_chunks@[chunk_index(self.owned_chunks@, hash)].1.size_bytes as nat
        } else {
            0
        }
    }

    /// Seconds after which a kept chunk is republished.
    pub closed spec fn reupload_interval(&self) -> u64 {
        self.reupload_interval_s
    }

    /// Seconds after which a kept chunk expires.
    pub closed spec fn expire_time(&self) -> u64 {
        self.expire_time_s
    }

    /// No kept chunk was stored after `now`.
    pub open spec fn stored_before(&self, now: Timestamp) -> bool {
        forall|k: Key| self.chunks().contains_key(k) ==> #[trigger] self.chunks()[k] <= now
    }

    /// Facts that well-formedness gives callers.
    pub proof fn lemma_wf(&self)
        requires
            self.wf(),
        ensures
            self.chunks().dom().finite(),
            self.chunks().dom().len() == self.num_chunks(),
            self.stored_bytes() <= storage_capacity_bytes(),
    {
        let s = self.owned_chunks@;
        lemma_map_dom_len(s);
    }

    /// A manager that keeps nothing yet, with chunk files under `storage_root_path`
    /// and the default republish and expiry times.
    pub fn new(storage_root_path: String) -> (m: ShardStorageManager)
        ensures
            m.wf(),
            m.chunks() == Map::<Key, Timestamp>::empty(),
            m.num_chunks() == 0,
            m.transfers() == Map::<u16, DataTransfer>::empty(),
            m.root_path() == storage_root_path@,
            m.stored_bytes() == 0,
            m.reupload_interval() == DEFAULT_CHUNK_REUPLOAD_INTERVAL_S,
            m.expire_time() == DEFAULT_CHUNK_EXPIRE_TIME_S,
    {
        let m = ShardStorageManager {
            storage_root_path,
            owned_chunks: Vec::new(),
            data_transfers_table: DataTransfersTable::new(),
            total_stored_bytes: 0,
            reupload_interval_s: DEFAULT_CHUNK_REUPLOAD_INTERVAL_S,
            expire_time_s: DEFAULT_CHUNK_EXPIRE_TIME_S,
        };
        assert(m.chunks() =~= Map::<Key, Timestamp>::empty());
        m
    }

    /// The directory the chunk files live in.
    pub fn get_storage_root_path(&self) -> (p: &String)
        ensures
            p@ == self.root_path(),
    {
        &self.storage_root_path
    }

    /// The path of the file that holds the chunk `hash`: its key in hexadecimal,
    /// under the storage directory.
    pub fn chunk_path(&self, hash: &Key) -> (p: String)
        ensures
            p@ == join_path(self.root_path(), hex_encode(hash@)),
    {
        let mut p = self.storage_root_path.clone();
        let n: usize = p.as_str().unicode_len();
        let name = hash.to_hex_string();
        if n == 0 {
            return name;
        }
        let last = p.as_str().get_char(n - 1);
        if last != '/' {
            p.push('/');
        }
        p.push_str(&name);
        p
    }

    /// The answer to a chunk of `chunk_size` bytes arriving on `port`: refused
    /// when no transfer is expected on the port, when `MAX_SHARDS_STORED` chunks
    /// are kept, when the chunk is larger than a large chunk, or when it does not
    /// fit the space left; else the key of the chunk expected there.
    pub open spec fn chunk_check(&self, chunk_size: nat, port: u16) -> Result<Key, StorageError> {
        if !self.transfers().contains_key(port) {
            Err(StorageError::TransferNotFound)
        } else if self.num_chunks() >= MAX_SHARDS_STORED {
            Err(StorageError::TooManyShards)
        } else if chunk_size > ENCRYPTED_CHUNK_SIZE_B {
            Err(StorageError::InvalidChunkSize)
        } else if self.stored_bytes() + chunk_size > storage_capacity_bytes() {
            Err(StorageError::StorageFull)
        } else {
            Ok(self.transfers()[port].chunk_hash)
        }
    }

    /// Checks whether the chunk announced for `port` may be stored, `chunk_size`
    /// bytes long, and gives its key. Refused when no transfer is expected on the
    /// port, when `MAX_SHARDS_STORED` chunks are kept, when the chunk is larger
    /// than a large chunk, or when it does not fit the space left.
    pub fn check_chunk_for_known_peer(&self, chunk_size: usize, port: u16) -> (r: Result<Key, StorageError>)
        requires
            self.wf(),
        ensures
            r == self.chunk_check(chunk_size as nat, port),
    {
        match self.data_transfers_table.get(port) {
            Some(data_transfer) => {
                if self.owned_chunks.len() >= MAX_SHARDS_STORED {
                    return Err(StorageError::TooManyShards);
                }
                if chunk_size > ENCRYPTED_CHUNK_SIZE_B {
                    return Err(StorageError::InvalidChunkSize);
                }
                let capacity: u64 = (MAX_DATA_STORED_MB as u64) * 1024 * 1024;
                if self.total_stored_bytes + (chunk_size as u64) > capacity {
                    return Err(StorageError::StorageFull);
                }
                Ok(data_transfer.chunk_hash)
            },
            None => Err(StorageError::TransferNotFound),
        }
    }

    /// Stops awaiting the transfer on `port` and returns it.
    pub fn end_data_transfer(&mut self, port: u16) -> (r: Option<DataTransfer>)
        requires
            old(self).wf(),
        ensures
            final(self).wf(),
            final(self).transfers() == old(self).transfers().remove(port),
            r == (if old(self).transfers().contains_key(port) {
                Some(old(self).transfers()[port])
            } else {
                None::<DataTransfer>
            }),
            final(self).chunks() == old(self).chunks(),
            final(self).num_chunks() == old(self).num_chunks(),
            final(self).root_path() == old(self).root_path(),
            final(self).stored_bytes() == old(self).stored_bytes(),
            final(self).reupload_interval() == old(self).reupload_interval(),
            final(self).expire_time() == old(self).expire_time(),
    {
        self.data_transfers_table.remove(port)
    }

    /// Records that the chunk `hash`, `chunk_size` bytes long, is kept as of
    /// `now` (its time and size are refreshed if it was kept already); the bytes
    /// counted as stored change accordingly.
    pub fn record_owned_chunk(&mut self, hash: Key, chunk_size: usize, now: Timestamp)
        requires
            old(self).wf(),
            old(self).stored_bytes() + chunk_size <= storage_capacity_bytes(),
        ensures
            final(self).wf(),
            final(self).chunks() == old(self).chunks().insert(hash, now),
            final(self).num_chunks() == old(self).num_chunks() + (if old(self).chunks().contains_key(hash) { 0int } else { 1int }),
            final(self).stored_bytes() == old(self).stored_bytes() - old(self).chunk_bytes(hash) + chunk_size,
            final(self).chunk_bytes(hash) == chunk_size,
            final(self).transfers() == old(self).transfers(),
            final(self).root_path() == old(self).root_path(),
            final(self).reupload_interval() == old(self).reupload_interval(),
            final(self).expire_time() == old(self).expire_time(),
    {
        let info = StoredChunkInfo { time_stored_at: now, size_bytes: chunk_size as u64 };
        match self.find_chunk(&hash) {
            Some(i) => {
                let old_size = self.owned_chunks[i].1.size_bytes;
                proof {
                    lemma_map_update(self.owned_chunks@, i as int, info);
                    lemma_bytes_update(self.owned_chunks@, i as int, (hash, info));
                    lemma_chunk_index(self.owned_chunks@, i as int);
                }
                self.owned_chunks.set(i, (hash, info));
                self.total_stored_bytes = self.total_stored_bytes - old_size + chunk_size as u64;
                proof {
                    lemma_chunk_index(self.owned_chunks@, i as int);
                }
            },
            None => {
                proof {
                    lemma_map_push(self.owned_chunks@, hash, info);
                    assert(self.owned_chunks@.push((hash, info)).drop_last() == self.owned_chunks@);
                }
                self.owned_chunks.push((hash, info));
                self.total_stored_bytes = self.total_stored_bytes + chunk_size as u64;
                proof {
                    lemma_chunk_index(self.owned_chunks@, self.owned_chunks@.len() - 1);
                }
            },
        }
    }

    /// The position of the entry for `hash`.
    fn find_chunk(&self, hash: &Key) -> (r: Option<usize>)
        requires
            self.wf(),
        ensures
            match r {
                Some(i) => i < self.owned_chunks@.len() && self.owned_chunks@[i as int].0 == *hash
                    && self.chunks().contains_key(*hash),
                None => !has_chunk(self.owned_chunks@, *hash) && !self.chunks().contains_key(*hash),
            },
    {
        let n: usize = self.owned_chunks.len();
        for i in 0..n
            invariant
                n == self.owned_chunks@.len(),
                self.wf(),
                forall|j: int| 0 <= j < i ==> self.owned_chunks@[j].0 != *hash,
        {
            if self.owned_chunks[i].0 == *hash {
                proof {
                    lemma_chunk_index(self.owned_chunks@, i as int);
                }
                return Some(i);
            }
        }
        None
    }

    /// Whether the chunk `hash` is kept.
    pub fn is_chunk_already_stored(&self, hash: &Key) -> (b: bool)
        requires
            self.wf(),
        ensures
            b == self.chunks().contains_key(*hash),
    {
        self.find_chunk(hash).is_some()
    }

    /// Awaits the chunk `chunk_hash` from `sender` on `port`; returns the transfer
    /// this replaces, if one was awaited on the port.
    pub fn add_active_tcp_connection(&mut self, port: u16, sender: NodeInfo, chunk_hash: Key) -> (r: Option<DataTransfer>)
        requires
            old(self).wf(),
        ensures
            final(self).wf(),
            final(self).transfers() == old(self).transfers().insert(port, DataTransfer { sender, chunk_hash }),
            r == (if old(self).transfers().contains_key(port) {
                Some(old(self).transfers()[port])
            } else {
                None::<DataTransfer>
            }),
            final(self).chunks() == old(self).chunks(),
            final(self).num_chunks() == old(self).num_chunks(),
            final(self).root_path() == old(self).root_path(),
            final(self).stored_bytes() == old(self).stored_bytes(),
            final(self).reupload_interval() == old(self).reupload_interval(),
            final(self).expire_time() == old(self).expire_time(),
    {
        self.data_transfers_table.add(port, sender, chunk_hash)
    }

    /// The bytes held by the kept chunks.
    pub fn get_stored_bytes(&self) -> (b: u64)
        ensures
            b == self.stored_bytes(),
    {
        self.total_stored_bytes
    }

    /// The transfers awaited.
    pub fn get_data_transfers_table(&self) -> (t: &DataTransfersTable)
        ensures
            t@ == self.transfers(),
    {
        &self.data_transfers_table
    }

    /// Refreshes the time of the chunk `hash` to `now`; refused when it is not kept.
    pub fn update_chunk_upload_time(&mut self, hash: &Key, now: Timestamp) -> (r: Result<(), StorageError>)
        requires
            old(self).wf(),
        ensures
            final(self).wf(),
            old(self).chunks().contains_key(*hash) ==> r is Ok && final(self).chunks() == old(self).chunks().insert(*hash, now),
            !old(self).chunks().contains_key(*hash) ==> r == Err::<(), StorageError>(StorageError::ChunkNotFound)
                && final(self).chunks() == old(self).chunks(),
            final(self).num_chunks() == old(self).num_chunks(),
            final(self).transfers() == old(self).transfers(),
            final(self).root_path() == old(self).root_path(),
            final(self).stored_bytes() == old(self).stored_bytes(),
            final(self).reupload_interval() == old(self).reupload_interval(),
            final(self).expire_time() == old(self).expire_time(),
    {
        match self.find_chunk(hash) {
            Some(i) => {
                let mut info = self.owned_chunks[i].1;
                info.update_time(now);
                proof {
                    lemma_map_update(self.owned_chunks@, i as int, info);
                    lemma_bytes_update(self.owned_chunks@, i as int, (*hash, info));
                }
                self.owned_chunks.set(i, (*hash, info));
                Ok(())
            },
            None => Err(StorageError::ChunkNotFound),
        }
    }

    /// Whether no kept chunk was stored after `now`.
    pub fn is_stored_before(&self, now: Timestamp) -> (b: bool)
        requires
            self.wf(),
        ensures
            b == self.stored_before(now),
    {
        let n: usize = self.owned_chunks.len();
        for i in 0..n
            invariant
                n == self.owned_chunks@.len(),
                self.wf(),
                forall|j: int| 0 <= j < i ==> self.owned_chunks@[j].1.time_stored_at <= now,
        {
            if self.owned_chunks[i].1.time_stored_at > now {
                proof {
                    lemma_chunk_index(self.owned_chunks@, i as int);
                    assert(self.chunks()[self.owned_chunks@[i as int].0] > now);
                }
                return false;
            }
        }
        proof {
            assert forall|k: Key| self.chunks().contains_key(k) implies #[trigger] self.chunks()[k] <= now by {
                let j = chunk_index(self.owned_chunks@, k);
            }
        }
        true
    }

    /// The kept chunks whose key satisfies the age test against `interval` at `now`.
    fn chunks_aged(&self, now: Timestamp, interval: u64) -> (v: Vec<Key>)
        requires
            self.wf(),
            self.stored_before(now),
        ensures
            lists_exactly(v@, self.chunks(), |k: Key| aged(self.chunks()[k], now, interval)),
    {
        let mut v: Vec<Key> = Vec::new();
        let n: usize = self.owned_chunks.len();
        let ghost s = self.owned_chunks@;
        for i in 0..n
            invariant
                n == s.len(),
                s == self.owned_chunks@,
                self.wf(),
                unique_chunks(s),
                self.stored_before(now),
                v@.no_duplicates(),
                forall|k: Key| v@.contains(k) <==> exists|j: int| 0 <= j < i && #[trigger] s[j].0 == k
                    && aged(s[j].1.time_stored_at, now, interval),
        {
            let (hash, info) = self.owned_chunks[i];
            proof {
                lemma_chunk_index(s, i as int);
                assert(self.chunks()[hash] == info.time_stored_at);
            }
            let elapsed: u64 = (now - info.time_stored_at) / NANOS_PER_SECOND;
            let ghost before = v@;
            if elapsed >= interval {
                proof {
                    assert(!v@.contains(hash)) by {
                        if v@.contains(hash) {
                            let j = choose|j: int| 0 <= j < i && #[trigger] s[j].0 == hash && aged(s[j].1.time_stored_at, now, interval);
                        }
                    }
                    lemma_push_contains(v@, hash);
                }
                v.push(hash);
            }
            proof {
                assert forall|k: Key| v@.contains(k) <==> exists|j: int| 0 <= j < i + 1 && #[trigger] s[j].0 == k
                    && aged(s[j].1.time_stored_at, now, interval) by {
                    assert(before.contains(k) <==> exists|j: int| 0 <= j < i && #[trigger] s[j].0 == k
                        && aged(s[j].1.time_stored_at, now, interval));
                    if k == hash && aged(info.time_stored_at, now, interval) {
                        assert(s[i as int].0 == k);
                    }
                    if exists|j: int| 0 <= j < i + 1 && #[trigger] s[j].0 == k && aged(s[j].1.time_stored_at, now, interval) {
                        let j = choose|j: int| 0 <= j < i + 1 && #[trigger] s[j].0 == k && aged(s[j].1.time_stored_at, now, interval);
                        if j < i {
                            assert(exists|j: int| 0 <= j < i && #[trigger] s[j].0 == k && aged(s[j].1.time_stored_at, now, interval));
                        }
                    }
                }
            }
        }
        proof {
            assert forall|k: Key| v@.contains(k) <==> (self.chunks().contains_key(k) && aged(self.chunks()[k], now, interval)) by {
                if self.chunks().contains_key(k) {
                    let j = chunk_index(s, k);
                    lemma_chunk_index(s, j);
                }
                if v@.contains(k) {
                    let j = choose|j: int| 0 <= j < n && #[trigger] s[j].0 == k && aged(s[j].1.time_stored_at, now, interval);
                    lemma_chunk_index(s, j);
                }
            }
        }
        v
    }

    /// The kept chunks due for republishing at `now`: stored at least the
    /// republish interval ago.
    pub fn get_chunks_for_reupload(&self, now: Timestamp) -> (r: Result<Vec<Key>, StorageError>)
        requires
            self.wf(),
            self.stored_before(now),
        ensures
            r matches Ok(v) && lists_exactly(v@, self.chunks(), |k: Key| aged(self.chunks()[k], now, self.reupload_interval())),
    {
        Ok(self.chunks_aged(now, self.reupload_interval_s))
    }

    /// The kept chunks expired at `now`: stored at least the expiry time ago.
    /// Their files are to be deleted, then the chunks forgotten with `forget_chunks`.
    pub fn get_dead_chunks(&self, now: Timestamp) -> (v: Vec<Key>)
        requires
            self.wf(),
            self.stored_before(now),
        ensures
            lists_exactly(v@, self.chunks(), |k: Key| aged(self.chunks()[k], now, self.expire_time())),
    {
        self.chunks_aged(now, self.expire_time_s)
    }

    /// Forgets the given chunks.
    pub fn forget_chunks(&mut self, dead: &Vec<Key>)
        requires
            old(self).wf(),
        ensures
            final(self).wf(),
            final(self).chunks() == old(self).chunks().remove_keys(dead@.to_set()),
            final(self).stored_bytes() <= old(self).stored_bytes(),
            forall|k: Key| #[trigger] final(self).chunks().contains_key(k) ==> final(self).chunk_bytes(k) == old(self).chunk_bytes(k),
            final(self).transfers() == old(self).transfers(),
            final(self).root_path() == old(self).root_path(),
            final(self).reupload_interval() == old(self).reupload_interval(),
            final(self).expire_time() == old(self).expire_time(),
    {
        let ghost s = self.owned_chunks@;
        let mut kept: Vec<(Key, StoredChunkInfo)> = Vec::new();
        let mut kept_bytes: u64 = 0;
        let n: usize = self.owned_chunks.len();
        for i in 0..n
            invariant
                n == s.len(),
                s == self.owned_chunks@,
                self.total_stored_bytes == bytes_of(s),
                self.total_stored_bytes <= storage_capacity_bytes(),
                kept_bytes == bytes_of(kept@),
                kept_bytes <= bytes_of(s.take(i as int)),
                unique_chunks(s),
                unique_chunks(kept@),
                forall|k: Key| #[trigger] has_chunk(kept@, k) <==> (exists|j: int| 0 <= j < i && #[trigger] s[j].0 == k)
                    && !dead@.contains(k),
                forall|j: int| 0 <= j < kept@.len() ==> #[trigger] s.contains(kept@[j]),
        {
            let entry = self.owned_chunks[i];
            let ghost before = kept@;
            if !contains_key(dead, &entry.0) {
                proof {
                    assert(!has_chunk(kept@, entry.0)) by {
                        if has_chunk(kept@, entry.0) {
                            let j = choose|j: int| 0 <= j < i && #[trigger] s[j].0 == entry.0;
                        }
                    }
                    lemma_map_push(kept@, entry.0, entry.1);
                    assert(kept@.push(entry).drop_last() == kept@);
                    assert(s.take(i + 1).drop_last() =~= s.take(i as int));
                    lemma_bytes_prefix(s, i as int);
                }
                kept.push(entry);
                kept_bytes = kept_bytes + entry.1.size_bytes;
            }
            proof {
                assert(s.take(i + 1).drop_last() =~= s.take(i as int));
                assert(s.take(i + 1).last() == s[i as int]);
            }
            proof {
                let dead_now = dead@.contains(entry.0);
                assert(s[i as int] == entry);
                if !dead_now {
                    assert(kept@ == before.push(entry));
                    assert forall|k: Key| has_chunk(kept@, k) == (has_chunk(before, k) || k == entry.0) by {
                        if has_chunk(kept@, k) {
                            let j = choose|j: int| 0 <= j < kept@.len() && kept@[j].0 == k;
                            if j < before.len() {
                                assert(before[j] == kept@[j]);
                            }
                        }
                        if has_chunk(before, k) {
                            let j = choose|j: int| 0 <= j < before.len() && before[j].0 == k;
                            assert(kept@[j] == before[j]);
                        }
                        if k == entry.0 {
                            assert(kept@[before.len() as int].0 == k);
                        }
                    }
                } else {
                    assert(kept@ == before);
                }
                assert forall|k: Key| #[trigger] has_chunk(kept@, k) <==> (exists|j: int| 0 <= j < i + 1 && #[trigger] s[j].0 == k)
                    && !dead@.contains(k) by {
                    assert(has_chunk(before, k) <==> (exists|j: int| 0 <= j < i && #[trigger] s[j].0 == k)
                        && !dead@.contains(k));
                    if exists|j: int| 0 <= j < i + 1 && #[trigger] s[j].0 == k {
                        let j = choose|j: int| 0 <= j < i + 1 && #[trigger] s[j].0 == k;
                        if j < i {
                            assert(exists|j: int| 0 <= j < i && #[trigger] s[j].0 == k);
                        } else {
                            assert(k == entry.0);
                        }
                    }
                    if exists|j: int| 0 <= j < i && #[trigger] s[j].0 == k {
                        let j = choose|j: int| 0 <= j < i && #[trigger] s[j].0 == k;
                        assert(0 <= j < i + 1 && s[j].0 == k);
                    }
                    if k == entry.0 {
                        assert(0 <= i < i + 1 && s[i as int].0 == k);
                    }
                }
            }
        }
        proof {
            let m = chunk_map(s).remove_keys(dead@.to_set());
            assert forall|k: Key| #[trigger] has_chunk(kept@, k) == m.contains_key(k) by {
                if has_chunk(s, k) {
                    let j = choose|j: int| 0 <= j < s.len() && s[j].0 == k;
                    assert(exists|j: int| 0 <= j < n && #[trigger] s[j].0 == k);
                }
            }
            assert forall|k: Key| has_chunk(kept@, k) implies kept@[chunk_index(kept@, k)].1.time_stored_at == m[k] by {
                let j = chunk_index(kept@, k);
                assert(s.contains(kept@[j]));
                let p = choose|p: int| 0 <= p < s.len() && s[p] == kept@[j];
                lemma_chunk_index(s, p);
            }
            assert(chunk_map(kept@) =~= m);
            assert(s.take(n as int) =~= s);
            assert forall|k: Key| has_chunk(kept@, k) implies kept@[chunk_index(kept@, k)].1.size_bytes
                == s[chunk_index(s, k)].1.size_bytes by {
                let j = chunk_index(kept@, k);
                assert(s.contains(kept@[j]));
                let p = choose|p: int| 0 <= p < s.len() && s[p] == kept@[j];
                lemma_chunk_index(s, p);
            }
        }
        self.owned_chunks = kept;
        self.total_stored_bytes = kept_bytes;
    }

    /// The kept chunks whose key is closer to `other_node_id` than to `my_id`:
    /// those the other node should rather keep.
    pub fn get_chunks_closer_to_node_than_to_me(&self, my_id: &Key, other_node_id: &Key) -> (v: Vec<Key>)
        requires
            self.wf(),
        ensures
            lists_exactly(v@, self.chunks(), |k: Key| closer(*other_node_id, *my_id, k)),
    {
        let ghost s = self.owned_chunks@;
        let mut v: Vec<Key> = Vec::new();
        let n: usize = self.owned_chunks.len();
        for i in 0..n
            invariant
                n == s.len(),
                s == self.owned_chunks@,
                self.wf(),
                unique_chunks(s),
                v@.no_duplicates(),
                forall|k: Key| v@.contains(k) <==> exists|j: int| 0 <= j < i && #[trigger] s[j].0 == k
                    && closer(*other_node_id, *my_id, k),
        {
            let hash = self.owned_chunks[i].0;
            let ghost before = v@;
            if other_node_id.is_closer(my_id, &hash) {
                proof {
                    assert(!v@.contains(hash)) by {
                        if v@.contains(hash) {
                            let j = choose|j: int| 0 <= j < i && #[trigger] s[j].0 == hash && closer(*other_node_id, *my_id, hash);
                        }
                    }
                    lemma_push_contains(v@, hash);
                }
                v.push(hash);
            }
            proof {
                assert forall|k: Key| v@.contains(k) <==> exists|j: int| 0 <= j < i + 1 && #[trigger] s[j].0 == k
                    && closer(*other_node_id, *my_id, k) by {
                    assert(before.contains(k) <==> exists|j: int| 0 <= j < i && #[trigger] s[j].0 == k
                        && closer(*other_node_id, *my_id, k));
                    if k == hash && closer(*other_node_id, *my_id, k) {
                        assert(s[i as int].0 == k);
                    }
                    if exists|j: int| 0 <= j < i + 1 && #[trigger] s[j].0 == k && closer(*other_node_id, *my_id, k) {
                        let j = choose|j: int| 0 <= j < i + 1 && #[trigger] s[j].0 == k && closer(*other_node_id, *my_id, k);
                        if j < i {
                            assert(exists|j: int| 0 <= j < i && #[trigger] s[j].0 == k && closer(*other_node_id, *my_id, k));
                        }
                    }
                }
            }
        }
        proof {
            assert forall|k: Key| v@.contains(k) <==> (self.chunks().contains_key(k) && closer(*other_node_id, *my_id, k)) by {
                if self.chunks().contains_key(k) {
                    let j = chunk_index(s, k);
                    lemma_chunk_index(s, j);
                }
            }
        }
        v
    }

    /// The keys of all kept chunks.
    pub fn get_owned_chunk_keys(&self) -> (v: Vec<Key>)
        requires
            self.wf(),
        ensures
            lists_exactly(v@, self.chunks(), |k: Key| true),
    {
        let ghost s = self.owned_chunks@;
        let mut v: Vec<Key> = Vec::new();
        let n: usize = self.owned_chunks.len();
        for i in 0..n
            invariant
                n == s.len(),
                s == self.owned_chunks@,
                self.wf(),
                v@ == s.take(i as int).map_values(|e: (Key, StoredChunkInfo)| e.0),
        {
            v.push(self.owned_chunks[i].0);
            assert(v@ =~= s.take(i + 1).map_values(|e: (Key, StoredChunkInfo)| e.0));
        }
        proof {
            assert(s.take(n as int) =~= s);
            let w = s.map_values(|e: (Key, StoredChunkInfo)| e.0);
            assert forall|a: int, b: int| 0 <= a < w.len() && 0 <= b < w.len() && a != b implies w[a] != w[b] by {
                assert(w[a] == s[a].0 && w[b] == s[b].0);
            }
            assert forall|k: Key| w.contains(k) <==> self.chunks().contains_key(k) by {
                if w.contains(k) {
                    let j = choose|j: int| 0 <= j < w.len() && w[j] == k;
                    assert(s[j].0 == k);
                }
                if has_chunk(s, k) {
                    let j = choose|j: int| 0 <= j < s.len() && s[j].0 == k;
                    assert(w[j] == k);
                }
            }
        }
        v
    }
}

/// Whether `k` occurs in `v`.
fn contains_key(v: &Vec<Key>, k: &Key) -> (b: bool)
    ensures
        b == v@.contains(*k),
{
    let n: usize = v.len();
    for i in 0..n
        invariant
            n == v@.len(),
            forall|j: int| 0 <= j < i ==> v@[j] != *k,
    {
        if v[i] == *k {
            return true;
        }
    }
    false
}

proof fn lemma_map_dom_len(s: Seq<(Key, StoredChunkInfo)>)
    requires
        unique_chunks(s),
    ensures
        chunk_map(s).dom().finite(),
        chunk_map(s).dom().len() == s.len(),
    decreases s.len(),
{
    if s.len() == 0 {
        assert(chunk_map(s).dom() =~= Set::<Key>::empty());
    } else {
        let p = s.drop_last();
        let last = s.last();
        assert forall|i: int, j: int| 0 <= i < p.len() && 0 <= j < p.len() && i != j implies #[trigger] p[i].0 != #[trigger] p[j].0 by {
            assert(p[i] == s[i] && p[j] == s[j]);
        }
        assert(!has_chunk(p, last.0)) by {
            if has_chunk(p, last.0) {
                let i = choose|i: int| 0 <= i < p.len() && p[i].0 == last.0;
                assert(s[i].0 == s[s.len() - 1].0);
            }
        }
        lemma_map_dom_len(p);
        lemma_map_push(p, last.0, last.1);
        assert(p.push(last) =~= s);
    }
}

/// A chunk announced on a port is accepted from that port while there is room
/// for it; once the transfer on that port has ended, a chunk arriving there is
/// refused as unknown.
pub proof fn law_announced_chunk_accepted_until_transfer_ends(
    before: ShardStorageManager,
    announced: ShardStorageManager,
    ended: ShardStorageManager,
    port: u16,
    sender: NodeInfo,
    hash: Key,
    size: nat,
)
    requires
        announced.transfers() == before.transfers().insert(port, DataTransfer { sender, chunk_hash: hash }),
        announced.num_chunks() == before.num_chunks(),
        announced.stored_bytes() == before.stored_bytes(),
        ended.transfers() == announced.transfers().remove(port),
        before.num_chunks() < MAX_SHARDS_STORED,
        size <= ENCRYPTED_CHUNK_SIZE_B,
        before.stored_bytes() + size <= storage_capacity_bytes(),
    ensures
        announced.chunk_check(size, port) == Ok::<Key, StorageError>(hash),
        ended.chunk_check(size, port) == Err::<Key, StorageError>(StorageError::TransferNotFound),
{
}

/// The storage limits: at most `MAX_SHARDS_STORED` chunks, holding at most
/// `MAX_DATA_STORED_MB` MiB.
pub open spec fn within_limits(m: ShardStorageManager) -> bool {
    &&& m.num_chunks() <= MAX_SHARDS_STORED
    &&& m.stored_bytes() <= storage_capacity_bytes()
}

/// What storing an accepted chunk does to the manager (`record_owned_chunk`
/// after `check_chunk_for_known_peer` gave `Ok(hash)` for `size` bytes).
pub open spec fn accepted_store(before: ShardStorageManager, after: ShardStorageManager, size: nat, port: u16, hash: Key, now: Timestamp) -> bool {
    &&& before.chunk_check(size, port) == Ok::<Key, StorageError>(hash)
    &&& after.chunks() == before.chunks().insert(hash, now)
    &&& after.num_chunks() == before.num_chunks() + (if before.chunks().contains_key(hash) { 0int } else { 1int })
    &&& after.stored_bytes() == before.stored_bytes() - before.chunk_bytes(hash) + size
}

/// Storing a chunk that `check_chunk_for_known_peer` accepted keeps the storage
/// within its limits, and the chunk is at most an encrypted chunk long.
pub proof fn law_accepted_store_stays_within_limits(
    before: ShardStorageManager,
    after: ShardStorageManager,
    size: nat,
    port: u16,
    hash: Key,
    now: Timestamp,
)
    requires
        accepted_store(before, after, size, port, hash, now),
    ensures
        within_limits(after),
        size <= ENCRYPTED_CHUNK_SIZE_B,
{
}

/// Over any sequence of accepted stores from a manager within its limits (an
/// empty one, say), the manager stays within its limits at every step: never
/// more than `MAX_SHARDS_STORED` chunks, never more than `MAX_DATA_STORED_MB`
/// MiB of chunk data.
pub proof fn law_store_sequence_stays_within_limits(
    ms: Seq<ShardStorageManager>,
    sizes: Seq<nat>,
    ports: Seq<u16>,
    hashes: Seq<Key>,
    times: Seq<Timestamp>,
)
    requires
        ms.len() == sizes.len() + 1,
        ports.len() == sizes.len(),
        hashes.len() == sizes.len(),
        times.len() == sizes.len(),
        within_limits(ms[0]),
        forall|i: int| 0 <= i < sizes.len() ==> #[trigger] accepted_store(ms[i], ms[i + 1], sizes[i], ports[i], hashes[i], times[i]),
    ensures
        forall|i: int| 0 <= i < ms.len() ==> #[trigger] within_limits(ms[i]),
{
    assert forall|i: int| 0 <= i < ms.len() implies #[trigger] within_limits(ms[i]) by {
        if i > 0 {
            let j = i - 1;
            assert(accepted_store(ms[j], ms[j + 1], sizes[j], ports[j], hashes[j], times[j]));
            law_accepted_store_stays_within_limits(ms[j], ms[j + 1], sizes[j], ports[j], hashes[j], times[j]);
        }
    }
}

} // verus!
