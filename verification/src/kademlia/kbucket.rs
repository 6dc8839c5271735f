//! A plain bounded bucket of (key, address) contacts, first come first kept.
use vstd::prelude::*;
use crate::kademlia::key::Key;
use crate::networking::node_info::NodeAddress;

verus! {

/// Some contact of `s` has key `key`.
pub open spec fn has_key(s: Seq<(Key, NodeAddress)>, key: Key) -> bool {
    exists|i: int| 0 <= i < s.len() && #[trigger] s[i].0 == key
}

/// The position of the first contact of `s` with key `key` (meaningful when
/// there is one).
pub open spec fn first_with_key(s: Seq<(Key, NodeAddress)>, key: Key) -> int {
    choose|i: int| 0 <= i < s.len() && s[i].0 == key && forall|j: int| 0 <= j < i ==> s[j].0 != key
}

/// At most `capacity` contacts, in the order they were added.
#[derive(Debug, Clone)]
pub struct KBucket {
    nodes: Vec<(Key, NodeAddress)>,
    capacity: usize,
}

impl View for KBucket {
    type V = Seq<(Key, NodeAddress)>;

    closed spec fn view(&self) -> Seq<(Key, NodeAddress)> {
        self.nodes@
    }
}

impl KBucket {
    /// How many contacts the bucket keeps at most.
    pub closed spec fn spec_capacity(&self) -> nat {
        self.capacity as nat
    }

    /// An empty bucket for `capacity` contacts.
    pub fn new(capacity: usize) -> (b: KBucket)
        ensures
            b@ == Seq::<(Key, NodeAddress)>::empty(),
            b.spec_capacity() == capacity,
    {
        KBucket { nodes: Vec::with_capacity(capacity), capacity }
    }

    /// Appends the contact unless the bucket is full; tells whether it did.
    pub fn add_node(&mut self, key: Key, addr: NodeAddress) -> (added: bool)
        ensures
            final(self).spec_capacity() == old(self).spec_capacity(),
            added == (old(self)@.len() < old(self).spec_capacity()),
            added ==> final(self)@ == old(self)@.push((key, addr)),
            !added ==> final(self)@ == old(self)@,
    {
        if self.nodes.len() < self.capacity {
            self.nodes.push((key, addr));
            true
        } else {
            false
        }
    }

    /// The position of the first contact with key `key`.
    fn position(&self, key: &Key) -> (r: Option<usize>)
        ensures
            match r {
                Some(i) => i < self@.len() && self@[i as int].0 == *key
                    && forall|j: int| 0 <= j < i ==> self@[j].0 != *key,
                None => !has_key(self@, *key),
            },
    {
        let n: usize = self.nodes.len();
        for i in 0..n
            invariant
                n == self.nodes@.len(),
                forall|j: int| 0 <= j < i ==> self.nodes@[j].0 != *key,
        {
            if self.nodes[i].0 == *key {
                return Some(i);
            }
        }
        None
    }

    /// Removes the first contact with key `key`; tells whether there was one.
    pub fn remove_node(&mut self, key: &Key) -> (removed: bool)
        ensures
            final(self).spec_capacity() == old(self).spec_capacity(),
            removed == has_key(old(self)@, *key),
            removed ==> final(self)@ == old(self)@.remove(first_with_key(old(self)@, *key)),
            !removed ==> final(self)@ == old(self)@,
    {
        match self.position(key) {
            Some(i) => {
                proof {
                    let s = old(self)@;
                    let f = first_with_key(s, *key);
                    assert(0 <= i < s.len() && s[i as int].0 == *key && forall|j: int| 0 <= j < i ==> s[j].0 != *key);
                    if f != i {
                        if f < i {
                            assert(s[f].0 != *key);
                        } else {
                            assert(s[i as int].0 != *key);
                        }
                    }
                }
                self.nodes.remove(i);
                true
            },
            None => false,
        }
    }

    /// The first contact with key `key`.
    pub fn find_node(&self, key: &Key) -> (r: Option<&(Key, NodeAddress)>)
        ensures
            match r {
                Some(c) => has_key(self@, *key) && *c == self@[first_with_key(self@, *key)],
                None => !has_key(self@, *key),
            },
    {
        match self.position(key) {
            Some(i) => {
                proof {
                    let s = self@;
                    let f = first_with_key(s, *key);
                    assert(0 <= i < s.len() && s[i as int].0 == *key && forall|j: int| 0 <= j < i ==> s[j].0 != *key);
                    if f != i {
                        if f < i {
                            assert(s[f].0 != *key);
                        } else {
                            assert(s[i as int].0 != *key);
                        }
                    }
                }
                Some(&self.nodes[i])
            },
            None => None,
        }
    }

    /// The contacts, in the order they were added.
    pub fn get_nodes(&self) -> (v: &Vec<(Key, NodeAddress)>)
        ensures
            v@ == self@,
    {
        &self.nodes
    }
}

} // verus!
