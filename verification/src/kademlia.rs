//! Node identifiers, lookups, request handling and node-level decisions.
pub mod key;
pub mod lookup;
pub mod lookup_laws;
pub mod request_handler;
pub mod node;
pub mod kbucket;
pub mod routing_table;
