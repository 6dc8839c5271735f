//! K-buckets and the routing table of a node.
pub mod kbucket;
pub mod routing_table;
