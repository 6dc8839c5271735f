//! Contacts: a node's key with the address it listens on.
use vstd::prelude::*;
use vstd::std_specs::cmp::PartialEqSpecImpl;
use crate::kademlia::key::Key;

verus! {

/// An IP address: IPv4 as its 32-bit big-endian value, IPv6 as its 128-bit value.
#[derive(Debug, Clone, Copy, PartialEq, Eq, Hash, Structural)]
pub enum IpAddress {
    V4(u32),
    V6(u128),
}

impl IpAddress {
    /// The IPv4 address `a.b.c.d`.
    pub fn v4(a: u8, b: u8, c: u8, d: u8) -> (ip: IpAddress)
        ensures
            ip == IpAddress::V4((a * 0x1000000 + b * 0x10000 + c * 0x100 + d) as u32),
    {
        IpAddress::V4((a as u32) * 0x1000000 + (b as u32) * 0x10000 + (c as u32) * 0x100 + d as u32)
    }

    /// The IPv4 loopback address `127.0.0.1`.
    pub fn localhost_v4() -> (ip: IpAddress)
        ensures
            ip == IpAddress::V4(0x7f000001),
    {
        IpAddress::V4(0x7f000001)
    }
}

/// A socket address: an IP address and a port.
#[derive(Debug, Clone, Copy, PartialEq, Eq, Hash, Structural)]
pub struct NodeAddress {
    pub ip: IpAddress,
    pub port: u16,
}

impl NodeAddress {
    /// The address with the given IP and port.
    pub fn new(ip: IpAddress, port: u16) -> (a: NodeAddress)
        ensures
            a.ip == ip,
            a.port == port,
    {
        NodeAddress { ip, port }
    }
}

/// A contact for a node in the network: its key and its address.
#[derive(Debug, Clone, Copy, Eq)]
pub struct NodeInfo {
    pub id: Key,
    pub address: NodeAddress,
}

impl PartialEq for NodeInfo {
    fn eq(&self, other: &Self) -> (r: bool) {
        self.id == other.id && self.address == other.address
    }
}

impl PartialEqSpecImpl for NodeInfo {
    open spec fn obeys_eq_spec() -> bool {
        true
    }

    open spec fn eq_spec(&self, other: &Self) -> bool {
        *self == *other
    }
}

impl NodeInfo {
    /// The contact with the given key and address.
    pub fn new(id: Key, address: NodeAddress) -> (n: NodeInfo)
        ensures
            n.id == id,
            n.address == address,
    {
        NodeInfo { id, address }
    }

    /// The key of the node.
    pub fn get_id(&self) -> (id: Key)
        ensures
            id == self.id,
    {
        self.id
    }

    /// The address of the node.
    pub fn get_address(&self) -> (a: NodeAddress)
        ensures
            a == self.address,
    {
        self.address
    }
}

/// Some entry of `s` has key `id`.
pub open spec fn contains_id(s: Seq<NodeInfo>, id: Key) -> bool {
    exists|i: int| 0 <= i < s.len() && #[trigger] s[i].id == id
}

/// No two entries of `s` share a key.
pub open spec fn unique_ids(s: Seq<NodeInfo>) -> bool {
    forall|i: int, j: int| 0 <= i < s.len() && 0 <= j < s.len() && i != j ==> #[trigger] s[i].id != #[trigger] s[j].id
}

/// The position of an entry of `s` with key `id` (meaningful when one exists).
pub open spec fn index_of_id(s: Seq<NodeInfo>, id: Key) -> int {
    choose|i: int| 0 <= i < s.len() && s[i].id == id
}

/// `s` without its entry with key `id`, if it has one.
pub open spec fn remove_id(s: Seq<NodeInfo>, id: Key) -> Seq<NodeInfo> {
    if contains_id(s, id) {
        s.remove(index_of_id(s, id))
    } else {
        s
    }
}

/// Removing an entry keeps keys unique and removes exactly that key.
pub proof fn lemma_remove_id(s: Seq<NodeInfo>, id: Key)
    requires
        unique_ids(s),
    ensures
        unique_ids(remove_id(s, id)),
        !contains_id(remove_id(s, id), id),
        forall|k: Key| k != id ==> (contains_id(remove_id(s, id), k) <==> contains_id(s, k)),
        forall|x: NodeInfo| x.id != id ==> (remove_id(s, id).contains(x) <==> s.contains(x)),
        contains_id(s, id) ==> remove_id(s, id).len() == s.len() - 1,
        !contains_id(s, id) ==> remove_id(s, id) == s,
{
    if contains_id(s, id) {
        let p = index_of_id(s, id);
        let r = s.remove(p);
        assert forall|i: int| 0 <= i < r.len() implies r[i].id != id by {
            if i < p {
                assert(r[i] == s[i]);
            } else {
                assert(r[i] == s[i + 1]);
            }
        }
        assert forall|k: Key| k != id implies (contains_id(r, k) <==> contains_id(s, k)) by {
            if contains_id(s, k) {
                let j = choose|j: int| 0 <= j < s.len() && s[j].id == k;
                if j < p {
                    assert(r[j].id == k);
                } else {
                    assert(j != p);
                    assert(r[j - 1].id == k);
                }
            }
            if contains_id(r, k) {
                let j = choose|j: int| 0 <= j < r.len() && r[j].id == k;
                if j < p {
                    assert(s[j].id == k);
                } else {
                    assert(s[j + 1].id == k);
                }
            }
        }
        assert forall|x: NodeInfo| x.id != id implies (r.contains(x) <==> s.contains(x)) by {
            if s.contains(x) {
                let j = choose|j: int| 0 <= j < s.len() && s[j] == x;
                if j < p {
                    assert(r[j] == x);
                } else {
                    assert(j != p);
                    assert(r[j - 1] == x);
                }
            }
            if r.contains(x) {
                let j = choose|j: int| 0 <= j < r.len() && r[j] == x;
                if j < p {
                    assert(s[j] == x);
                } else {
                    assert(s[j + 1] == x);
                }
            }
        }
    }
}

} // verus!
