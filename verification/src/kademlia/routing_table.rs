//! A plain routing table: buckets chosen by the first byte of a key.
use vstd::prelude::*;
use crate::kademlia::kbucket::{first_with_key, has_key, KBucket};
use crate::kademlia::key::Key;
use crate::networking::node_info::NodeAddress;

verus! {

/// The bucket of `key` among `n` buckets: its first byte modulo `n`.
pub open spec fn simple_bucket_index(key: Key, n: nat) -> int {
    (key@[0] as nat % n) as int
}

/// Buckets of equal size; a contact lives in the bucket its first key byte selects.
pub struct RoutingTable {
    buckets: Vec<KBucket>,
    bucket_size: usize,
}

impl View for RoutingTable {
    type V = Seq<Seq<(Key, NodeAddress)>>;

    closed spec fn view(&self) -> Seq<Seq<(Key, NodeAddress)>> {
        Seq::new(self.buckets@.len(), |i: int| self.buckets@[i]@)
    }
}

impl RoutingTable {
    /// At least one bucket, each of `bucket_size` capacity.
    pub closed spec fn wf(&self) -> bool {
        &&& self.buckets@.len() > 0
        &&& forall|i: int| 0 <= i < self.buckets@.len() ==> (#[trigger] self.buckets@[i]).spec_capacity() == self.bucket_size
    }

    /// The capacity of each bucket.
    pub closed spec fn spec_bucket_size(&self) -> nat {
        self.bucket_size as nat
    }

    /// `num_buckets` empty buckets of `bucket_size` contacts each.
    pub fn new(bucket_size: usize, num_buckets: usize) -> (rt: RoutingTable)
        requires
            num_buckets > 0,
        ensures
            rt.wf(),
            rt.spec_bucket_size() == bucket_size,
            rt@ == Seq::new(num_buckets as nat, |i: int| Seq::<(Key, NodeAddress)>::empty()),
    {
        let mut buckets: Vec<KBucket> = Vec::with_capacity(num_buckets);
        for i in 0..num_buckets
            invariant
                buckets@.len() == i,
                forall|j: int| 0 <= j < i ==> (#[trigger] buckets@[j]).spec_capacity() == bucket_size
                    && buckets@[j]@ == Seq::<(Key, NodeAddress)>::empty(),
        {
            buckets.push(KBucket::new(bucket_size));
        }
        let rt = RoutingTable { buckets, bucket_size };
        assert(rt@ =~= Seq::new(num_buckets as nat, |i: int| Seq::<(Key, NodeAddress)>::empty()));
        rt
    }

    fn get_bucket_index(&self, key: &Key) -> (i: usize)
        requires
            self.wf(),
        ensures
            i == simple_bucket_index(*key, self@.len()),
            i < self@.len(),
    {
        let b = key.to_bytes();
        proof {
            crate::kademlia::key::lemma_key_len(*key);
        }
        (b[0] as usize) % self.buckets.len()
    }

    /// Adds the contact to its bucket unless that bucket is full; tells whether it did.
    pub fn add_node(&mut self, key: Key, addr: NodeAddress) -> (added: bool)
        requires
            old(self).wf(),
        ensures
            final(self).wf(),
            final(self).spec_bucket_size() == old(self).spec_bucket_size(),
            ({
                let b = simple_bucket_index(key, old(self)@.len());
                &&& added == (old(self)@[b].len() < old(self).spec_bucket_size())
                &&& final(self)@ == (if added { old(self)@.update(b, old(self)@[b].push((key, addr))) } else { old(self)@ })
            }),
    {
        let i = self.get_bucket_index(&key);
        let mut bucket = self.buckets.remove(i);
        let added = bucket.add_node(key, addr);
        self.buckets.insert(i, bucket);
        proof {
            let b = i as int;
            if added {
                assert(self@ =~= old(self)@.update(b, old(self)@[b].push((key, addr))));
            } else {
                assert(self@ =~= old(self)@);
            }
            assert forall|j: int| 0 <= j < self.buckets@.len() implies (#[trigger] self.buckets@[j]).spec_capacity() == self.bucket_size by {
                if j != b {
                    assert(self.buckets@[j] == old(self).buckets@[j]);
                }
            }
        }
        added
    }

    /// Removes the first contact with key `key` from its bucket; tells whether there was one.
    pub fn remove_node(&mut self, key: &Key) -> (removed: bool)
        requires
            old(self).wf(),
        ensures
            final(self).wf(),
            final(self).spec_bucket_size() == old(self).spec_bucket_size(),
            ({
                let b = simple_bucket_index(*key, old(self)@.len());
                &&& removed == has_key(old(self)@[b], *key)
                &&& final(self)@ == (if removed {
                    old(self)@.update(b, old(self)@[b].remove(first_with_key(old(self)@[b], *key)))
                } else {
                    old(self)@
                })
            }),
    {
        let i = self.get_bucket_index(key);
        let mut bucket = self.buckets.remove(i);
        let removed = bucket.remove_node(key);
        self.buckets.insert(i, bucket);
        proof {
            let b = i as int;
            if removed {
                assert(self@ =~= old(self)@.update(b, old(self)@[b].remove(first_with_key(old(self)@[b], *key))));
            } else {
                assert(self@ =~= old(self)@);
            }
            assert forall|j: int| 0 <= j < self.buckets@.len() implies (#[trigger] self.buckets@[j]).spec_capacity() == self.bucket_size by {
                if j != b {
                    assert(self.buckets@[j] == old(self).buckets@[j]);
                }
            }
        }
        removed
    }

    /// The first contact with key `key` in its bucket.
    pub fn find_node(&self, key: &Key) -> (r: Option<(Key, NodeAddress)>)
        requires
            self.wf(),
        ensures
            ({
                let bucket = self@[simple_bucket_index(*key, self@.len())];
                r == (if has_key(bucket, *key) { Some(bucket[first_with_key(bucket, *key)]) } else { None })
            }),
    {
        let i = self.get_bucket_index(key);
        match self.buckets[i].find_node(key) {
            Some(c) => Some(*c),
            None => None,
        }
    }

    /// All contacts, bucket by bucket.
    pub fn get_all_nodes(&self) -> (v: Vec<(Key, NodeAddress)>)
        ensures
            v@ == self@.flatten(),
    {
        let mut all: Vec<(Key, NodeAddress)> = Vec::new();
        let nb: usize = self.buckets.len();
        for i in 0..nb
            invariant
                nb == self.buckets@.len(),
                all@ == self@.subrange(0, i as int).flatten(),
        {
            let nodes = self.buckets[i].get_nodes();
            let m: usize = nodes.len();
            let ghost start = all@;
            for j in 0..m
                invariant
                    m == nodes@.len(),
                    all@ == start + nodes@.take(j as int),
            {
                all.push(nodes[j]);
                assert(all@ =~= start + nodes@.take(j + 1));
            }
            proof {
                assert(nodes@.take(m as int) =~= nodes@);
                self@.subrange(0, i as int).lemma_flatten_push(self@[i as int]);
                assert(self@.subrange(0, i as int).push(self@[i as int]) =~= self@.subrange(0, i + 1));
            }
        }
        assert(self@.subrange(0, nb as int) =~= self@);
        all
    }
}

} // verus!
