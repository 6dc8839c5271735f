//! A peer-to-peer file store built on a Kademlia overlay: node identifiers,
//! k-bucket routing, iterative lookups, chunk sharding and storage bookkeeping.
pub mod constants;
pub mod kademlia;
pub mod text;
pub mod cache;
pub mod cli;
pub mod clock;
pub mod config;
pub mod networking;
pub mod routing;
pub mod sharding;
pub mod storage;
pub mod utils;
