//! The routing table: one k-bucket per possible length of the common prefix
//! between this node's key and a contact's key.
use vstd::prelude::*;
use crate::constants::{ALPHA, K};
use crate::kademlia::key::{closer, key_distance, leading_zero_bits, lemma_distance_injective, Key};
use crate::networking::node_info::{contains_id, index_of_id, lemma_remove_id, remove_id, unique_ids, NodeInfo};
use crate::routing::kbucket::{AddStep, KBucket, KBucketError, PingOutcome};

verus! {

broadcast use {vstd::seq_lib::group_seq_properties, crate::kademlia::key::lemma_key_len};

/// Why a routing-table operation failed.
#[derive(Debug, Clone, Copy, PartialEq, Eq)]
pub enum RoutingTableError {
    /// All k-buckets are empty.
    Empty,
    /// No k-bucket exists for the given key.
    BucketNotFoundForId { id: Key },
    /// No k-bucket was found.
    BucketNotFound,
    /// The k-bucket refused the operation.
    KBucketFailedError(KBucketError),
}

/// Number of k-buckets: one per bit of a key.
pub open spec fn num_buckets() -> int {
    8 * K
}

/// The bucket in which `own` keeps a contact with key `other`: the closer the
/// keys (the more leading zero bits their distance has), the lower the index.
pub open spec fn bucket_index(own: Key, other: Key) -> int {
    num_buckets() - 1 - leading_zero_bits(key_distance(own, other))
}

/// The entries of `s` are sorted strictly by distance to `target`, closest first.
pub open spec fn sorted_by_distance(s: Seq<NodeInfo>, target: Key) -> bool {
    forall|i: int, j: int| 0 <= i < j < s.len() ==> closer(#[trigger] s[i].id, #[trigger] s[j].id, target)
}

/// `res` lists, closest first, the `n` entries of `pool` closest to `target`
/// (all of `pool` if it has fewer): every entry of `pool` left out is farther
/// than every entry kept.
pub open spec fn is_n_closest(res: Seq<NodeInfo>, pool: Seq<NodeInfo>, n: nat, target: Key) -> bool {
    &&& sorted_by_distance(res, target)
    &&& forall|i: int| 0 <= i < res.len() ==> pool.contains(#[trigger] res[i])
    &&& res.len() <= n
    &&& res.len() < n ==> forall|x: NodeInfo| pool.contains(x) ==> #[trigger] res.contains(x)
    &&& forall|x: NodeInfo|
        #![trigger pool.contains(x), res.contains(x)]
        pool.contains(x) && !res.contains(x) ==> forall|i: int|
            0 <= i < res.len() ==> closer(#[trigger] res[i].id, x.id, target)
}

/// Inserts `x` into `top`, the `n` entries of `pool` closest to `target`, so that
/// it becomes the `n` entries of `pool` plus `x` closest to `target`.
fn insert_bounded(top: &mut Vec<NodeInfo>, x: NodeInfo, target: &Key, n: usize, Ghost(pool): Ghost<Seq<NodeInfo>>)
    requires
        is_n_closest(old(top)@, pool, n as nat, *target),
        !contains_id(pool, x.id),
    ensures
        is_n_closest(final(top)@, pool.push(x), n as nat, *target),
{
    let ghost old_top = top@;
    let len: usize = top.len();
    proof {
        assert forall|i: int| 0 <= i < len implies (#[trigger] old_top[i]).id != x.id by {
            assert(pool.contains(old_top[i]));
            let k = choose|k: int| 0 <= k < pool.len() && pool[k] == old_top[i];
            assert(pool[k].id == old_top[i].id);
        }
    }
    let mut p: usize = 0;
    while p < len && top[p].id.is_closer(&x.id, target)
        invariant
            p <= len,
            len == top@.len(),
            top@ == old_top,
            forall|i: int| 0 <= i < p ==> closer(#[trigger] old_top[i].id, x.id, *target),
        decreases len - p,
    {
        p += 1;
    }
    proof {
        if p < len {
            let dx = key_distance(x.id, *target);
            let dp = key_distance(old_top[p as int].id, *target);
            crate::kademlia::key::lemma_lex_lt_total(dx, dp);
            lemma_distance_injective(x.id, old_top[p as int].id, *target);
            assert(closer(x.id, old_top[p as int].id, *target));
        }
        assert forall|k: int| p <= k < len implies closer(x.id, #[trigger] old_top[k].id, *target) by {
            if k > p {
                assert(closer(old_top[p as int].id, old_top[k].id, *target));
                crate::kademlia::key::lemma_lex_lt_transitive(
                    key_distance(x.id, *target),
                    key_distance(old_top[p as int].id, *target),
                    key_distance(old_top[k].id, *target),
                );
            }
        }
    }
    if p < n {
        top.insert(p, x);
        let ghost inserted = top@;
        proof {
            assert(inserted == old_top.insert(p as int, x));
            assert forall|i: int, j: int| 0 <= i < j < inserted.len() implies closer(#[trigger] inserted[i].id, #[trigger] inserted[j].id, *target) by {
                if j < p {
                    assert(inserted[i] == old_top[i] && inserted[j] == old_top[j]);
                } else if j == p {
                    assert(inserted[i] == old_top[i]);
                } else if i < p {
                    assert(inserted[i] == old_top[i] && inserted[j] == old_top[j - 1]);
                    assert(closer(old_top[i].id, x.id, *target));
                    assert(closer(x.id, old_top[j - 1].id, *target));
                    crate::kademlia::key::lemma_lex_lt_transitive(
                        key_distance(old_top[i].id, *target),
                        key_distance(x.id, *target),
                        key_distance(old_top[j - 1].id, *target),
                    );
                } else if i == p {
                    assert(inserted[j] == old_top[j - 1]);
                } else {
                    assert(inserted[i] == old_top[i - 1] && inserted[j] == old_top[j - 1]);
                }
            }
            assert forall|i: int| 0 <= i < inserted.len() implies pool.push(x).contains(#[trigger] inserted[i]) by {
                if i < p {
                    assert(inserted[i] == old_top[i]);
                    assert(pool.contains(old_top[i]));
                } else if i == p {
                    assert(pool.push(x)[pool.len() as int] == x);
                } else {
                    assert(inserted[i] == old_top[i - 1]);
                    assert(pool.contains(old_top[i - 1]));
                }
                let k = choose|k: int| 0 <= k < pool.push(x).len() && pool.push(x)[k] == inserted[i];
            }
            assert forall|z: NodeInfo| #[trigger] old_top.contains(z) implies inserted.contains(z) by {
                let k = choose|k: int| 0 <= k < old_top.len() && old_top[k] == z;
                if k < p {
                    assert(inserted[k] == z);
                } else {
                    assert(inserted[k + 1] == z);
                }
            }
            assert(inserted[p as int] == x);
        }
        if top.len() > n {
            let y = top.pop();
            proof {
                let fin = top@;
                assert(len == n);
                assert(y == Some(old_top[len - 1]));
                let yv = old_top[len - 1];
                assert(fin =~= inserted.take(n as int));
                assert forall|i: int| 0 <= i < fin.len() implies closer(#[trigger] fin[i].id, yv.id, *target) by {
                    assert(inserted[n as int] == yv);
                    assert(closer(inserted[i].id, inserted[n as int].id, *target));
                }
                assert forall|z: NodeInfo|
                    #![trigger pool.push(x).contains(z), fin.contains(z)]
                    pool.push(x).contains(z) && !fin.contains(z) implies forall|i: int|
                        0 <= i < fin.len() ==> closer(#[trigger] fin[i].id, z.id, *target) by {
                    assert(fin.contains(x)) by {
                        assert(fin[p as int] == x);
                    }
                    if z != yv {
                        assert(pool.contains(z)) by {
                            let k = choose|k: int| 0 <= k < pool.push(x).len() && pool.push(x)[k] == z;
                            assert(k < pool.len());
                            assert(pool[k] == z);
                        }
                        if old_top.contains(z) {
                            let k = choose|k: int| 0 <= k < old_top.len() && old_top[k] == z;
                            if k < len - 1 {
                                if k < p {
                                    assert(fin[k] == z);
                                } else {
                                    assert(fin[k + 1] == z);
                                }
                            }
                            assert(z == yv);
                        }
                        assert forall|i: int| 0 <= i < fin.len() implies closer(#[trigger] fin[i].id, z.id, *target) by {
                            assert(closer(old_top[len - 1].id, z.id, *target));
                            assert(closer(fin[i].id, yv.id, *target));
                            crate::kademlia::key::lemma_lex_lt_transitive(
                                key_distance(fin[i].id, *target),
                                key_distance(yv.id, *target),
                                key_distance(z.id, *target),
                            );
                        }
                    }
                }
                assert forall|i: int| 0 <= i < fin.len() implies pool.push(x).contains(#[trigger] fin[i]) by {
                    assert(fin[i] == inserted[i]);
                }
            }
        } else {
            proof {
                assert(len < n);
                assert forall|z: NodeInfo| pool.push(x).contains(z) implies #[trigger] inserted.contains(z) by {
                    if z != x {
                        let k = choose|k: int| 0 <= k < pool.push(x).len() && pool.push(x)[k] == z;
                        assert(k < pool.len());
                        assert(pool[k] == z);
                        assert(pool.contains(z));
                        assert(old_top.contains(z));
                    }
                }
            }
        }
    } else {
        proof {
            assert(p == len && len == n);
            assert forall|z: NodeInfo|
                #![trigger pool.push(x).contains(z), old_top.contains(z)]
                pool.push(x).contains(z) && !old_top.contains(z) implies forall|i: int|
                    0 <= i < old_top.len() ==> closer(#[trigger] old_top[i].id, z.id, *target) by {
                if z != x {
                    let k = choose|k: int| 0 <= k < pool.push(x).len() && pool.push(x)[k] == z;
                    assert(k < pool.len());
                    assert(pool[k] == z);
                    assert(pool.contains(z));
                }
            }
            assert forall|i: int| 0 <= i < old_top.len() implies pool.push(x).contains(#[trigger] old_top[i]) by {
                assert(pool.contains(old_top[i]));
                let k = choose|k: int| 0 <= k < pool.len() && pool[k] == old_top[i];
                assert(pool.push(x)[k] == old_top[i]);
            }
        }
    }
}

/// A node's routing table: its key and `8 * K` k-buckets.
pub struct RoutingTable {
    id: Key,
    buckets: Vec<KBucket>,
}

impl View for RoutingTable {
    type V = Seq<Seq<NodeInfo>>;

    closed spec fn view(&self) -> Seq<Seq<NodeInfo>> {
        Seq::new(self.buckets@.len(), |i: int| self.buckets@[i]@)
    }
}

impl RoutingTable {
    /// Number of k-buckets: one per bit of a key.
    pub const NUM_BUCKETS: usize = K * 8;

    /// The key of the node that owns the table.
    pub closed spec fn spec_id(&self) -> Key {
        self.id
    }

    /// There are `8 * K` well-formed buckets, and each contact sits in the bucket
    /// that its distance from this node selects (so it is not this node).
    pub closed spec fn wf(&self) -> bool {
        &&& self.buckets@.len() == num_buckets()
        &&& forall|i: int| 0 <= i < num_buckets() ==> (#[trigger] self.buckets@[i]).wf()
        &&& forall|i: int, x: NodeInfo|
            0 <= i < num_buckets() && #[trigger] self.buckets@[i]@.contains(x)
                ==> x.id != self.id && bucket_index(self.id, x.id) == i
    }

    /// Facts that well-formedness gives callers.
    pub proof fn lemma_wf(&self)
        requires
            self.wf(),
        ensures
            self@.len() == num_buckets(),
            forall|i: int| 0 <= i < num_buckets() ==> (#[trigger] self@[i]).len() <= K && unique_ids(self@[i]),
            forall|i: int, x: NodeInfo|
                0 <= i < num_buckets() && #[trigger] self@[i].contains(x) ==> x.id != self.spec_id()
                    && bucket_index(self.spec_id(), x.id) == i,
    {
        assert forall|i: int| 0 <= i < num_buckets() implies (#[trigger] self@[i]).len() <= K && unique_ids(self@[i]) by {
            self.buckets@[i].lemma_wf();
        }
    }

    /// An empty table for the node with key `id`.
    pub fn new(id: Key) -> (rt: RoutingTable)
        ensures
            rt.wf(),
            rt.spec_id() == id,
            rt@ == Seq::new(num_buckets() as nat, |i: int| Seq::<NodeInfo>::empty()),
    {
        let mut buckets: Vec<KBucket> = Vec::with_capacity(Self::NUM_BUCKETS);
        for i in 0..Self::NUM_BUCKETS
            invariant
                buckets@.len() == i,
                forall|j: int| 0 <= j < i ==> (#[trigger] buckets@[j]).wf() && buckets@[j]@ == Seq::<NodeInfo>::empty(),
        {
            buckets.push(KBucket::new());
        }
        let rt = RoutingTable { id, buckets };
        assert(rt@ =~= Seq::new(num_buckets() as nat, |i: int| Seq::<NodeInfo>::empty()));
        rt
    }

    /// The key of the node that owns the table.
    pub fn get_id(&self) -> (id: Key)
        ensures
            id == self.spec_id(),
    {
        self.id
    }

    /// The k-buckets, lowest index (closest contacts) first.
    pub fn get_buckets(&self) -> (b: &Vec<KBucket>)
        requires
            self.wf(),
        ensures
            b@.len() == num_buckets(),
            forall|i: int| 0 <= i < num_buckets() ==> (#[trigger] b@[i])@ == self@[i],
    {
        &self.buckets
    }

    /// The bucket index of `key`: `8 * K - 1` minus the leading zero bits of its
    /// distance from this node.
    fn get_bucket_index(&self, key: &Key) -> (i: usize)
        requires
            self.wf(),
            *key != self.spec_id(),
        ensures
            i == bucket_index(self.spec_id(), *key),
            0 <= i < num_buckets(),
    {
        proof {
            lemma_leading_zero_bits_of_distinct(self.id, *key);
        }
        Self::NUM_BUCKETS - 1 - self.id.leading_zeros(key)
    }

    /// Starts storing a contact in its bucket (see `KBucket::add_nodeinfo`). When
    /// the bucket is full, its least recently seen contact is returned to be
    /// pinged; finish with `finish_store_nodeinfo`.
    pub fn store_nodeinfo(&mut self, node_info: NodeInfo) -> (r: Result<AddStep, RoutingTableError>)
        requires
            old(self).wf(),
            node_info.id != old(self).spec_id(),
        ensures
            final(self).wf(),
            final(self).spec_id() == old(self).spec_id(),
            ({
                let b = bucket_index(old(self).spec_id(), node_info.id);
                let rest = remove_id(old(self)@[b], node_info.id);
                &&& final(self)@.len() == old(self)@.len()
                &&& forall|i: int| 0 <= i < num_buckets() && i != b ==> #[trigger] final(self)@[i] == old(self)@[i]
                &&& if rest.len() < K {
                    &&& r == Ok::<AddStep, RoutingTableError>(AddStep::Added)
                    &&& final(self)@[b] == rest.push(node_info)
                } else {
                    &&& r == Ok::<AddStep, RoutingTableError>(AddStep::PingHead(rest[0]))
                    &&& final(self)@[b] == rest.drop_first()
                }
            }),
    {
        let b = self.get_bucket_index(&node_info.id);
        if b >= self.buckets.len() {
            return Err(RoutingTableError::BucketNotFoundForId { id: node_info.id });
        }
        let mut bucket = self.buckets.remove(b);
        let step = bucket.add_nodeinfo(node_info);
        proof {
            old(self).lemma_wf();
            lemma_remove_id(old(self)@[b as int], node_info.id);
            let rest = remove_id(old(self)@[b as int], node_info.id);
            assert forall|x: NodeInfo| (#[trigger] bucket@.contains(x)) implies x.id != self.id
                && bucket_index(self.id, x.id) == b by {
                if x.id != node_info.id {
                    if rest.len() >= K {
                        assert(rest.contains(x));
                    }
                    assert(old(self).buckets@[b as int]@.contains(x));
                }
            }
        }
        self.buckets.insert(b, bucket);
        proof {
            assert forall|i: int| 0 <= i < num_buckets() && i != b implies #[trigger] self@[i] == old(self)@[i] by {
                assert(self.buckets@[i] == old(self).buckets@[i]);
            }
            assert forall|i: int, x: NodeInfo|
                0 <= i < num_buckets() && #[trigger] self.buckets@[i]@.contains(x)
                implies x.id != self.id && bucket_index(self.id, x.id) == i by {
                if i != b {
                    assert(self.buckets@[i] == old(self).buckets@[i]);
                }
            }
        }
        Ok(step)
    }

    /// Finishes storing `node_info` once `head`, taken out of the same full
    /// bucket by `store_nodeinfo`, was pinged (see `KBucket::finish_add_nodeinfo`).
    pub fn finish_store_nodeinfo(&mut self, node_info: NodeInfo, head: NodeInfo, outcome: PingOutcome) -> (r: Result<(), RoutingTableError>)
        requires
            old(self).wf(),
            node_info.id != old(self).spec_id(),
            head.id != old(self).spec_id(),
            bucket_index(old(self).spec_id(), head.id) == bucket_index(old(self).spec_id(), node_info.id),
            old(self)@[bucket_index(old(self).spec_id(), node_info.id)].len() < K,
            !contains_id(old(self)@[bucket_index(old(self).spec_id(), node_info.id)], node_info.id),
            !contains_id(old(self)@[bucket_index(old(self).spec_id(), node_info.id)], head.id),
        ensures
            final(self).wf(),
            final(self).spec_id() == old(self).spec_id(),
            ({
                let b = bucket_index(old(self).spec_id(), node_info.id);
                &&& final(self)@.len() == old(self)@.len()
                &&& forall|i: int| 0 <= i < num_buckets() && i != b ==> #[trigger] final(self)@[i] == old(self)@[i]
                &&& match outcome {
                    PingOutcome::Responded => r == Ok::<(), RoutingTableError>(()) && final(self)@[b] == old(self)@[b].push(head),
                    PingOutcome::TimedOut | PingOutcome::BadResponse => r == Ok::<(), RoutingTableError>(())
                        && final(self)@[b] == old(self)@[b].push(node_info),
                    PingOutcome::Failed => r == Err::<(), RoutingTableError>(
                        RoutingTableError::KBucketFailedError(KBucketError::FailedToAdd),
                    ) && final(self)@[b] == old(self)@[b],
                }
            }),
    {
        let b = self.get_bucket_index(&node_info.id);
        let mut bucket = self.buckets.remove(b);
        let res = bucket.finish_add_nodeinfo(node_info, head, outcome);
        self.buckets.insert(b, bucket);
        proof {
            assert forall|i: int| 0 <= i < num_buckets() && i != b implies #[trigger] self@[i] == old(self)@[i] by {
                assert(self.buckets@[i] == old(self).buckets@[i]);
            }
            assert forall|i: int, x: NodeInfo|
                0 <= i < num_buckets() && #[trigger] self.buckets@[i]@.contains(x)
                implies x.id != self.id && bucket_index(self.id, x.id) == i by {
                if i != b {
                    assert(self.buckets@[i] == old(self).buckets@[i]);
                } else if x != head && x != node_info {
                    assert(old(self).buckets@[i]@.contains(x));
                }
            }
        }
        match res {
            Ok(()) => Ok(()),
            Err(e) => Err(RoutingTableError::KBucketFailedError(e)),
        }
    }

    /// The contact with key `key`, found in the bucket its distance selects.
    pub fn get_nodeinfo(&self, key: &Key) -> (r: Option<&NodeInfo>)
        requires
            self.wf(),
            *key != self.spec_id(),
        ensures
            match r {
                Some(n) => lookup_in_table(self@, self.spec_id(), *key) == Some(*n),
                None => lookup_in_table(self@, self.spec_id(), *key) is None,
            },
    {
        let b = self.get_bucket_index(key);
        if b < self.buckets.len() {
            let r = self.buckets[b].get_nodeinfo(key);
            r
        } else {
            None
        }
    }

    /// The contacts of the `ALPHA` nodes closest to `key` (see `get_n_closest`).
    pub fn get_alpha_closest(&self, key: &Key) -> (r: Result<Vec<NodeInfo>, RoutingTableError>)
        requires
            self.wf(),
        ensures
            n_closest_result(self@, self.spec_id(), *key, ALPHA as nat, r),
    {
        self.get_n_closest(key, ALPHA)
    }

    /// The contacts of the `K` nodes closest to `key` (see `get_n_closest`).
    pub fn get_k_closest(&self, key: &Key) -> (r: Result<Vec<NodeInfo>, RoutingTableError>)
        requires
            self.wf(),
        ensures
            n_closest_result(self@, self.spec_id(), *key, K as nat, r),
    {
        self.get_n_closest(key, K)
    }

    /// The `n` contacts of the table closest to `key` (all of them when it holds
    /// fewer), closest first; `Empty` when the table holds no contact.
    pub fn get_n_closest(&self, key: &Key, n: usize) -> (r: Result<Vec<NodeInfo>, RoutingTableError>)
        requires
            self.wf(),
        ensures
            n_closest_result(self@, self.spec_id(), *key, n as nat, r),
    {
        let ghost bs = self@;
        proof {
            self.lemma_wf();
        }
        let nb: usize = self.buckets.len();
        let lo: usize = 0;
        let hi: usize = nb;
        let mut top: Vec<NodeInfo> = Vec::new();
        let mut seen: usize = 0;
        let mut i: usize = lo;
        assert(bs.subrange(lo as int, lo as int) =~= Seq::<Seq<NodeInfo>>::empty());
        while i < hi
            invariant
                lo <= i <= hi <= nb,
                nb == self.buckets@.len(),
                nb == num_buckets(),
                bs == self@,
                self.wf(),
                forall|i: int| 0 <= i < num_buckets() ==> (#[trigger] bs[i]).len() <= K && unique_ids(bs[i]),
                forall|i: int, x: NodeInfo|
                    0 <= i < num_buckets() && #[trigger] bs[i].contains(x) ==> x.id != self.spec_id()
                        && bucket_index(self.spec_id(), x.id) == i,
                is_n_closest(top@, bs.subrange(lo as int, i as int).flatten(), n as nat, *key),
                seen == bs.subrange(lo as int, i as int).flatten().len(),
                seen <= K * (i - lo),
                forall|y: NodeInfo| #[trigger] bs.subrange(lo as int, i as int).flatten().contains(y)
                    ==> bucket_index(self.spec_id(), y.id) < i,
            decreases hi - i,
        {
            let nodes = self.buckets[i].get_nodeinfos();
            let m: usize = nodes.len();
            let ghost before = bs.subrange(lo as int, i as int).flatten();
            assert(bs[i as int].len() <= K && unique_ids(bs[i as int]));
            proof {
                assert forall|y: NodeInfo| #[trigger] (before + nodes@.take(0)).contains(y)
                    implies bucket_index(self.spec_id(), y.id) < i || nodes@.take(0).contains(y) by {
                    lemma_concat_contains(before, nodes@.take(0), y);
                    assert(nodes@.take(0).len() == 0);
                    assert(before.contains(y));
                }
            }
            let mut j: usize = 0;
            while j < m
                invariant
                    j <= m,
                    m == nodes@.len(),
                    nodes@ == bs[i as int],
                    m <= K,
                    unique_ids(bs[i as int]),
                    forall|x: NodeInfo| #[trigger] bs[i as int].contains(x) ==> bucket_index(self.spec_id(), x.id) == i,
                    is_n_closest(top@, before + nodes@.take(j as int), n as nat, *key),
                    seen == before.len() + j,
                    before.len() <= K * (i - lo),
                    forall|y: NodeInfo| #[trigger] (before + nodes@.take(j as int)).contains(y)
                        ==> bucket_index(self.spec_id(), y.id) < i || nodes@.take(j as int).contains(y),
                decreases m - j,
            {
                let x = nodes[j];
                let ghost pool = before + nodes@.take(j as int);
                proof {
                    assert(bs[i as int].contains(x)) by {
                        assert(bs[i as int][j as int] == x);
                    }
                    assert(bucket_index(self.spec_id(), x.id) == i);
                    if contains_id(pool, x.id) {
                        let k = choose|k: int| 0 <= k < pool.len() && #[trigger] pool[k].id == x.id;
                        let y = pool[k];
                        assert(pool.contains(y));
                        assert((before + nodes@.take(j as int)).contains(y));
                        assert(bucket_index(self.spec_id(), y.id) < i || nodes@.take(j as int).contains(y));
                        assert(bucket_index(self.spec_id(), y.id) == i);
                        let q = choose|q: int| 0 <= q < j && nodes@.take(j as int)[q] == y;
                        assert(nodes@[q] == y);
                        assert(nodes@[q].id == nodes@[j as int].id);
                        assert(false);
                    }
                }
                insert_bounded(&mut top, x, key, n, Ghost(pool));
                seen += 1;
                proof {
                    assert(pool.push(x) =~= before + nodes@.take(j + 1));
                    assert forall|y: NodeInfo| #[trigger] (before + nodes@.take(j + 1)).contains(y)
                        implies bucket_index(self.spec_id(), y.id) < i || nodes@.take(j + 1).contains(y) by {
                        assert(pool.push(x).contains(y));
                        let k = choose|k: int| 0 <= k < pool.push(x).len() && pool.push(x)[k] == y;
                        if k < pool.len() {
                            assert(pool[k] == y);
                            assert(pool.contains(y));
                            assert((before + nodes@.take(j as int)).contains(y));
                            if nodes@.take(j as int).contains(y) {
                                let q = choose|q: int| 0 <= q < j && nodes@.take(j as int)[q] == y;
                                assert(nodes@.take(j + 1)[q] == y);
                                assert(nodes@.take(j + 1).contains(y));
                            }
                        } else {
                            assert(y == x);
                            assert(nodes@.take(j + 1)[j as int] == y);
                            assert(nodes@.take(j + 1).contains(y));
                        }
                    }
                }
                j += 1;
            }
            proof {
                assert(nodes@.take(m as int) =~= nodes@);
                bs.subrange(lo as int, i as int).lemma_flatten_push(bs[i as int]);
                assert(bs.subrange(lo as int, i as int).push(bs[i as int]) =~= bs.subrange(lo as int, i + 1));
                assert(bs.subrange(lo as int, i + 1).flatten() =~= before + nodes@);
                assert forall|y: NodeInfo| #[trigger] bs.subrange(lo as int, i + 1).flatten().contains(y)
                    implies bucket_index(self.spec_id(), y.id) < i + 1 by {
                    assert((before + nodes@).contains(y));
                    assert((before + nodes@.take(m as int)).contains(y));
                    lemma_concat_contains(before, nodes@, y);
                    if nodes@.contains(y) {
                        assert(bs[i as int].contains(y));
                    } else {
                        assert(before.contains(y));
                        assert(bs.subrange(lo as int, i as int).flatten().contains(y));
                    }
                }
            }
            i += 1;
        }
        assert(bs.subrange(0, nb as int) =~= bs);
        if seen == 0 {
            return Err(RoutingTableError::Empty);
        }
        Ok(top)
    }

    /// All contacts, bucket by bucket from the lowest index.
    pub fn get_all_nodeinfos(&self) -> (v: Vec<NodeInfo>)
        requires
            self.wf(),
        ensures
            v@ == self@.flatten(),
    {
        let mut all: Vec<NodeInfo> = Vec::new();
        let nb: usize = self.buckets.len();
        for i in 0..nb
            invariant
                nb == self.buckets@.len(),
                all@ == self@.subrange(0, i as int).flatten(),
        {
            let nodes = self.buckets[i].get_nodeinfos();
            let m: usize = nodes.len();
            let ghost before = all@;
            for j in 0..m
                invariant
                    m == nodes@.len(),
                    all@ == before + nodes@.take(j as int),
            {
                all.push(nodes[j]);
                assert(all@ =~= before + nodes@.take(j + 1));
            }
            proof {
                assert(nodes@.take(m as int) =~= nodes@);
                self@.subrange(0, i as int).lemma_flatten_push(self@[i as int]);
                assert(self@.subrange(0, i as int).push(self@[i as int]) =~= self@.subrange(0, i + 1));
            }
        }
        assert(self@.subrange(0, nb as int) =~= self@);
        all
    }
}

/// A contact stored without a ping (its bucket had room) is then found by
/// its key, with the address it was stored with.
pub proof fn law_stored_contact_found(before: RoutingTable, after: RoutingTable, n: NodeInfo)
    requires
        before.wf(),
        after.wf(),
        after.spec_id() == before.spec_id(),
        n.id != before.spec_id(),
        after@.len() == before@.len(),
        after@[bucket_index(before.spec_id(), n.id)] == remove_id(before@[bucket_index(before.spec_id(), n.id)], n.id).push(n),
    ensures
        lookup_in_table(after@, after.spec_id(), n.id) == Some(n),
{
    let own = before.spec_id();
    let b = bucket_index(own, n.id);
    lemma_leading_zero_bits_of_distinct(own, n.id);
    after.lemma_wf();
    let s = after@[b];
    assert(s[s.len() - 1] == n);
    assert(contains_id(s, n.id));
    let j = index_of_id(s, n.id);
    assert(unique_ids(s));
    if j != s.len() - 1 {
        assert(s[j].id == s[s.len() - 1].id);
    }
}

/// A contact stored after the ping of the full bucket's head went unanswered
/// is found by its key; when the head answered, the head is found and the new
/// contact is not.
pub proof fn law_ping_decides_who_stays(before: RoutingTable, after: RoutingTable, n: NodeInfo, head: NodeInfo, answered: bool)
    requires
        before.wf(),
        after.wf(),
        after.spec_id() == before.spec_id(),
        n.id != before.spec_id(),
        head.id != n.id,
        bucket_index(before.spec_id(), head.id) == bucket_index(before.spec_id(), n.id),
        !contains_id(before@[bucket_index(before.spec_id(), n.id)], n.id),
        after@.len() == before@.len(),
        after@[bucket_index(before.spec_id(), n.id)] == before@[bucket_index(before.spec_id(), n.id)].push(
            if answered { head } else { n },
        ),
    ensures
        answered ==> lookup_in_table(after@, after.spec_id(), head.id) == Some(head)
            && lookup_in_table(after@, after.spec_id(), n.id) is None,
        !answered ==> lookup_in_table(after@, after.spec_id(), n.id) == Some(n),
{
    let own = before.spec_id();
    let b = bucket_index(own, n.id);
    lemma_leading_zero_bits_of_distinct(own, n.id);
    after.lemma_wf();
    let s = after@[b];
    let x = if answered { head } else { n };
    assert(s[s.len() - 1] == x);
    assert(contains_id(s, x.id));
    let j = index_of_id(s, x.id);
    if j != s.len() - 1 {
        assert(s[j].id == s[s.len() - 1].id);
    }
    if answered {
        let old_b = before@[b];
        if contains_id(s, n.id) {
            let i = choose|i: int| 0 <= i < s.len() && s[i].id == n.id;
            if i < old_b.len() {
                assert(old_b[i] == s[i]);
            }
        }
    }
}

/// Buckets that each hold distinct contacts, every one in the bucket its
/// distance selects (counted from `off`), flatten to distinct contacts.
proof fn lemma_flatten_no_duplicates(bs: Seq<Seq<NodeInfo>>, own: Key, off: int)
    requires
        forall|i: int| 0 <= i < bs.len() ==> unique_ids(#[trigger] bs[i]),
        forall|i: int, x: NodeInfo| 0 <= i < bs.len() && #[trigger] bs[i].contains(x) ==> bucket_index(own, x.id) == i + off,
    ensures
        bs.flatten().no_duplicates(),
        forall|x: NodeInfo| #[trigger] bs.flatten().contains(x) ==> bucket_index(own, x.id) >= off,
    decreases bs.len(),
{
    if bs.len() > 0 {
        let rest = bs.drop_first();
        assert forall|i: int, x: NodeInfo| 0 <= i < rest.len() && #[trigger] rest[i].contains(x)
            implies bucket_index(own, x.id) == i + (off + 1) by {
            assert(rest[i] == bs[i + 1]);
        }
        assert forall|i: int| 0 <= i < rest.len() implies unique_ids(#[trigger] rest[i]) by {
            assert(rest[i] == bs[i + 1]);
        }
        lemma_flatten_no_duplicates(rest, own, off + 1);
        let a = bs[0];
        let b = rest.flatten();
        assert(a.no_duplicates()) by {
            assert(unique_ids(bs[0]));
            assert forall|i: int, j: int| 0 <= i < a.len() && 0 <= j < a.len() && i != j implies a[i] != a[j] by {
                assert(a[i].id != a[j].id);
            }
        }
        assert forall|i: int, j: int| 0 <= i < a.len() && 0 <= j < b.len() implies a[i] != b[j] by {
            assert(bs[0].contains(a[i]));
            assert(b.contains(b[j]));
        }
        vstd::seq_lib::lemma_no_dup_in_concat(a, b);
        assert forall|x: NodeInfo| #[trigger] bs.flatten().contains(x) implies bucket_index(own, x.id) >= off by {
            lemma_concat_contains(a, b, x);
            if a.contains(x) {
                assert(bs[0].contains(x));
            }
        }
    }
}

/// `get_n_closest` gives exactly the `min(n, all)` contacts of the table
/// closest to the key, where `all` is the number of contacts stored: distinct,
/// in strictly increasing distance, each closer than every contact left out;
/// `Empty` exactly when the table holds no contact.
pub proof fn law_n_closest_exact(rt: RoutingTable, key: Key, n: nat, r: Result<Vec<NodeInfo>, RoutingTableError>)
    requires
        rt.wf(),
        n_closest_result(rt@, rt.spec_id(), key, n, r),
    ensures
        (r == Err::<Vec<NodeInfo>, RoutingTableError>(RoutingTableError::Empty)) <==> rt@.flatten().len() == 0,
        r matches Ok(v) ==> {
            &&& v@.len() == (if n < rt@.flatten().len() { n } else { rt@.flatten().len() })
            &&& v@.no_duplicates()
            &&& sorted_by_distance(v@, key)
            &&& forall|i: int| 0 <= i < v@.len() ==> rt@.flatten().contains(#[trigger] v@[i])
            &&& forall|u: NodeInfo, i: int|
                #![trigger rt@.flatten().contains(u), v@[i]]
                rt@.flatten().contains(u) && !v@.contains(u) && 0 <= i < v@.len() ==> closer(v@[i].id, u.id, key)
        },
{
    let bs = rt@;
    rt.lemma_wf();
    let flat = bs.flatten();
    lemma_flatten_no_duplicates(bs, rt.spec_id(), 0);
    if let Ok(v) = r {
        let res = v@;
        assert(is_n_closest(res, flat, n, key));
        assert(res.no_duplicates()) by {
            assert forall|i: int, j: int| 0 <= i < res.len() && 0 <= j < res.len() && i != j implies res[i] != res[j] by {
                if i < j {
                    assert(closer(res[i].id, res[j].id, key));
                } else {
                    assert(closer(res[j].id, res[i].id, key));
                }
                crate::kademlia::key::lemma_lex_lt_asymmetric(
                    crate::kademlia::key::key_distance(res[i].id, key),
                    crate::kademlia::key::key_distance(res[j].id, key),
                );
            }
        }
        flat.unique_seq_to_set();
        res.unique_seq_to_set();
        assert(res.to_set().subset_of(flat.to_set()));
        vstd::set_lib::lemma_len_subset(res.to_set(), flat.to_set());
        if res.len() < n {
            assert(flat.to_set().subset_of(res.to_set()));
            vstd::set_lib::lemma_len_subset(flat.to_set(), res.to_set());
        }
        assert forall|u: NodeInfo, i: int|
            #![trigger flat.contains(u), res[i]]
            flat.contains(u) && !res.contains(u) && 0 <= i < res.len() implies closer(res[i].id, u.id, key) by {
            assert(flat.contains(u) && !res.contains(u));
        }
    }
}

/// What `get_n_closest` returns on a table with buckets `bs` owned by `own`:
/// `Empty` when no bucket holds a contact, else the `n` contacts of all buckets
/// closest to `key`.
pub open spec fn n_closest_result(
    bs: Seq<Seq<NodeInfo>>,
    own: Key,
    key: Key,
    n: nat,
    r: Result<Vec<NodeInfo>, RoutingTableError>,
) -> bool {
    let pool = bs.flatten();
    if pool.len() == 0 {
        r == Err::<Vec<NodeInfo>, RoutingTableError>(RoutingTableError::Empty)
    } else {
        r matches Ok(v) && is_n_closest(v@, pool, n, key)
    }
}

/// What a lookup of `key` in a table with buckets `bs`, owned by `own`, finds:
/// the entry with that key in the bucket the key's distance selects.
pub open spec fn lookup_in_table(bs: Seq<Seq<NodeInfo>>, own: Key, key: Key) -> Option<NodeInfo> {
    let b = bucket_index(own, key);
    if contains_id(bs[b], key) {
        Some(bs[b][index_of_id(bs[b], key)])
    } else {
        None
    }
}

/// An element of a concatenation comes from one of its parts, and conversely.
pub proof fn lemma_concat_contains<A>(a: Seq<A>, t: Seq<A>, y: A)
    ensures
        (a + t).contains(y) <==> (a.contains(y) || t.contains(y)),
{
    if (a + t).contains(y) {
        let k = choose|k: int| 0 <= k < (a + t).len() && (a + t)[k] == y;
        if k < a.len() {
            assert(a[k] == y);
        } else {
            assert(t[k - a.len()] == y);
        }
    }
    if a.contains(y) {
        let k = choose|k: int| 0 <= k < a.len() && a[k] == y;
        assert((a + t)[k] == y);
    }
    if t.contains(y) {
        let k = choose|k: int| 0 <= k < t.len() && t[k] == y;
        assert((a + t)[a.len() + k] == y);
    }
}

/// A distance with `8 * K` leading zero bits is the distance of a key to itself.
pub proof fn lemma_leading_zero_bits_of_distinct(own: Key, other: Key)
    requires
        other != own,
    ensures
        leading_zero_bits(key_distance(own, other)) < num_buckets(),
{
    let d = key_distance(own, other);
    lemma_zero_bits_all_zero(d);
    if leading_zero_bits(d) >= num_buckets() {
        assert forall|i: int| 0 <= i < K implies own@[i] == other@[i] by {
            let x = own@[i];
            let y = other@[i];
            assert(d[i] == x ^ y);
            assert((x ^ y) == 0 ==> x == y) by (bit_vector);
        }
        assert(own@ =~= other@);
        crate::kademlia::key::lemma_key_view_injective(own, other);
    }
}

proof fn lemma_zero_bits_all_zero(d: Seq<u8>)
    ensures
        leading_zero_bits(d) <= 8 * d.len(),
        leading_zero_bits(d) >= 8 * d.len() ==> forall|i: int| 0 <= i < d.len() ==> d[i] == 0,
    decreases d.len(),
{
    if d.len() > 0 {
        vstd::std_specs::bits::axiom_u8_leading_zeros(d[0]);
        lemma_zero_bits_all_zero(d.drop_first());
        if leading_zero_bits(d) >= 8 * d.len() {
            assert forall|i: int| 0 <= i < d.len() implies d[i] == 0 by {
                if i > 0 {
                    assert(d.drop_first()[i - 1] == d[i]);
                }
            }
        }
    }
}

} // verus!
