//! Files cut into chunks: encryption of chunks, reading a file out as
//! encrypted chunks, and writing it back from them.
pub mod encryption;
pub mod common;
pub mod uploader;
pub mod downloader;
pub mod sharding;
