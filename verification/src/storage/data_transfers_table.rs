//! Chunk transfers over TCP that a node has agreed to receive, by local port.
use vstd::prelude::*;
use std::collections::HashMap;
use crate::kademlia::key::Key;
use crate::networking::node_info::NodeInfo;

verus! {

broadcast use vstd::std_specs::hash::group_hash_axioms;

/// A transfer expected on a port: who sends and which chunk.
#[derive(Debug, Clone, Copy, PartialEq, Eq)]
pub struct DataTransfer {
    pub sender: NodeInfo,
    pub chunk_hash: Key,
}

/// The transfers this node expects, by the port it listens on.
pub struct DataTransfersTable {
    transfers: HashMap<u16, DataTransfer>,
}

impl View for DataTransfersTable {
    type V = Map<u16, DataTransfer>;

    closed spec fn view(&self) -> Map<u16, DataTransfer> {
        self.transfers@
    }
}

impl Default for DataTransfersTable {
    fn default() -> (t: Self)
        ensures
            t@ == Map::<u16, DataTransfer>::empty(),
    {
        Self::new()
    }
}

impl DataTransfersTable {
    /// An empty table.
    pub fn new() -> (t: DataTransfersTable)
        ensures
            t@ == Map::<u16, DataTransfer>::empty(),
    {
        DataTransfersTable { transfers: HashMap::new() }
    }

    /// Records that `sender` will send the chunk `chunk_hash` on `port`; returns
    /// the transfer this replaces, if one was recorded for the port.
    pub fn add(&mut self, port: u16, sender: NodeInfo, chunk_hash: Key) -> (r: Option<DataTransfer>)
        ensures
            final(self)@ == old(self)@.insert(port, DataTransfer { sender, chunk_hash }),
            r == (if old(self)@.contains_key(port) { Some(old(self)@[port]) } else { None::<DataTransfer> }),
    {
        self.transfers.insert(port, DataTransfer { sender, chunk_hash })
    }

    /// The transfer expected on `port`.
    pub fn get(&self, port: u16) -> (r: Option<&DataTransfer>)
        ensures
            r == (if self@.contains_key(port) { Some(&self@[port]) } else { None::<&DataTransfer> }),
    {
        self.transfers.get(&port)
    }

    /// Forgets the transfer expected on `port` and returns it.
    pub fn remove(&mut self, port: u16) -> (r: Option<DataTransfer>)
        ensures
            final(self)@ == old(self)@.remove(port),
            r == (if old(self)@.contains_key(port) { Some(old(self)@[port]) } else { None::<DataTransfer> }),
    {
        self.transfers.remove(&port)
    }
}

} // verus!
