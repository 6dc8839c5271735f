//! What a node keeps between runs to relaunch as itself.
use vstd::prelude::*;
use crate::config::Config;
use crate::kademlia::key::Key;
use crate::networking::node_info::NodeInfo;

verus! {

/// A node's key, whether it joined without a beacon, its configuration and the
/// contacts of its routing table.
#[derive(Debug, Clone)]
pub struct Cache {
    pub key: Key,
    pub skip_join: bool,
    pub config: Config,
    pub routing_table_nodes: Option<Vec<NodeInfo>>,
}

} // verus!
