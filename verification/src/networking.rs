//! Contacts, messages and bookkeeping of pending requests.
pub mod node_info;
pub mod messages;
pub mod request_map;
