//! A file with a time to live.
use vstd::prelude::*;
use crate::clock::{now, Timestamp};

verus! {

/// A file path, when it was recorded and how long it lives.
pub struct FileInfo {
    filepath: String,
    time: Timestamp,
    ttl: u64,
}

impl FileInfo {
    /// The file at `filepath`, recorded now, living `ttl` nanoseconds.
    pub fn new(filepath: String, ttl: u64) -> (f: FileInfo)
        ensures
            f.spec_filepath() == filepath@,
            f.spec_ttl() == ttl,
    {
        FileInfo { filepath, time: now(), ttl }
    }

    /// The path of the file.
    pub closed spec fn spec_filepath(&self) -> Seq<char> {
        self.filepath@
    }

    /// How long the file lives, in nanoseconds.
    pub closed spec fn spec_ttl(&self) -> u64 {
        self.ttl
    }

    /// When the file was recorded.
    pub closed spec fn spec_time(&self) -> Timestamp {
        self.time
    }
}

} // verus!
