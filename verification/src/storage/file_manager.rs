//! The files this node uploaded, so that they can be uploaded again once their
//! republish interval has passed.
use vstd::prelude::*;
use crate::clock::{elapsed_secs, Timestamp, NANOS_PER_SECOND};
use crate::storage::shard_storage_manager::lemma_push_contains;

verus! {

/// Seconds after which an uploaded file is uploaded again.
pub const DEFAULT_FILE_REUPLOAD_INTERVAL_S: u64 = 86400;

/// When a file was last uploaded.
#[derive(Debug, Clone, Copy, PartialEq, Eq)]
pub struct StoredFileInfo {
    pub time_uploaded: Timestamp,
}

/// The texts of the given strings.
pub open spec fn paths(v: Seq<String>) -> Seq<Seq<char>> {
    v.map_values(|s: String| s@)
}

/// Some entry of `s` is for the path `p`.
pub open spec fn has_file(s: Seq<(String, StoredFileInfo)>, p: Seq<char>) -> bool {
    exists|i: int| 0 <= i < s.len() && #[trigger] s[i].0@ == p
}

/// The position of the entry for `p` (meaningful when there is one).
pub open spec fn file_index(s: Seq<(String, StoredFileInfo)>, p: Seq<char>) -> int {
    choose|i: int| 0 <= i < s.len() && s[i].0@ == p
}

/// No path has two entries.
pub open spec fn unique_files(s: Seq<(String, StoredFileInfo)>) -> bool {
    forall|i: int, j: int| 0 <= i < s.len() && 0 <= j < s.len() && i != j ==> #[trigger] s[i].0@ != #[trigger] s[j].0@
}

/// The uploaded files with their upload times.
pub open spec fn file_map(s: Seq<(String, StoredFileInfo)>) -> Map<Seq<char>, Timestamp> {
    Map::new(|p: Seq<char>| has_file(s, p), |p: Seq<char>| s[file_index(s, p)].1.time_uploaded)
}

proof fn lemma_file_index(s: Seq<(String, StoredFileInfo)>, i: int)
    requires
        unique_files(s),
        0 <= i < s.len(),
    ensures
        has_file(s, s[i].0@),
        file_index(s, s[i].0@) == i,
{
    assert(s[i].0@ == s[i].0@);
}

proof fn lemma_file_push(s: Seq<(String, StoredFileInfo)>, f: String, info: StoredFileInfo)
    requires
        unique_files(s),
        !has_file(s, f@),
    ensures
        unique_files(s.push((f, info))),
        file_map(s.push((f, info))) == file_map(s).insert(f@, info.time_uploaded),
{
    let t = s.push((f, info));
    assert forall|i: int, j: int| 0 <= i < t.len() && 0 <= j < t.len() && i != j implies #[trigger] t[i].0@ != #[trigger] t[j].0@ by {
        if i < s.len() && j < s.len() {
            assert(s[i] == t[i] && s[j] == t[j]);
        } else if i < s.len() {
            assert(s[i].0@ != f@);
        } else {
            assert(s[j].0@ != f@);
        }
    }
    assert forall|x: Seq<char>| #[trigger] has_file(t, x) == (has_file(s, x) || x == f@) by {
        if has_file(s, x) {
            let i = choose|i: int| 0 <= i < s.len() && s[i].0@ == x;
            assert(t[i].0@ == x);
        }
        if x == f@ {
            assert(t[s.len() as int].0@ == x);
        }
        if has_file(t, x) && x != f@ {
            let i = choose|i: int| 0 <= i < t.len() && t[i].0@ == x;
            assert(s[i].0@ == x);
        }
    }
    assert forall|x: Seq<char>| has_file(t, x) implies t[file_index(t, x)].1.time_uploaded
        == file_map(s).insert(f@, info.time_uploaded)[x] by {
        if x == f@ {
            lemma_file_index(t, s.len() as int);
        } else {
            let i = file_index(s, x);
            lemma_file_index(t, i);
            assert(t[i] == s[i]);
        }
    }
    assert(file_map(t) =~= file_map(s).insert(f@, info.time_uploaded));
}

proof fn lemma_file_update(s: Seq<(String, StoredFileInfo)>, i: int, info: StoredFileInfo)
    requires
        unique_files(s),
        0 <= i < s.len(),
    ensures
        unique_files(s.update(i, (s[i].0, info))),
        file_map(s.update(i, (s[i].0, info))) == file_map(s).insert(s[i].0@, info.time_uploaded),
{
    let f = s[i].0;
    let t = s.update(i, (f, info));
    assert forall|a: int, b: int| 0 <= a < t.len() && 0 <= b < t.len() && a != b implies #[trigger] t[a].0@ != #[trigger] t[b].0@ by {
        assert(t[a].0 == s[a].0 && t[b].0 == s[b].0);
    }
    assert forall|x: Seq<char>| #[trigger] has_file(t, x) == has_file(s, x) by {
        if has_file(s, x) {
            let j = choose|j: int| 0 <= j < s.len() && s[j].0@ == x;
            assert(t[j].0@ == x);
        }
        if has_file(t, x) {
            let j = choose|j: int| 0 <= j < t.len() && t[j].0@ == x;
            assert(s[j].0@ == x);
        }
    }
    lemma_file_index(s, i);
    assert forall|x: Seq<char>| has_file(t, x) implies t[file_index(t, x)].1.time_uploaded
        == file_map(s).insert(f@, info.time_uploaded)[x] by {
        let j = file_index(s, x);
        lemma_file_index(t, j);
        lemma_file_index(s, j);
    }
    assert(file_map(t) =~= file_map(s).insert(f@, info.time_uploaded));
}

/// The files this node uploaded and when.
pub struct FileManager {
    uploaded_files: Vec<(String, StoredFileInfo)>,
    reupload_interval_s: u64,
}

impl Default for FileManager {
    fn default() -> (m: Self)
        ensures
            m.wf(),
            m.files() == Map::<Seq<char>, Timestamp>::empty(),
            m.reupload_interval() == DEFAULT_FILE_REUPLOAD_INTERVAL_S,
    {
        Self::new()
    }
}

impl FileManager {
    /// No path has two entries.
    pub closed spec fn wf(&self) -> bool {
        unique_files(self.uploaded_files@)
    }

    /// The uploaded files, by path, with the time of their last upload.
    pub closed spec fn files(&self) -> Map<Seq<char>, Timestamp> {
        file_map(self.uploaded_files@)
    }

    /// Seconds after which an uploaded file is due again.
    pub closed spec fn reupload_interval(&self) -> u64 {
        self.reupload_interval_s
    }

    /// No file was uploaded after `now`.
    pub open spec fn uploaded_before(&self, now: Timestamp) -> bool {
        forall|p: Seq<char>| self.files().contains_key(p) ==> #[trigger] self.files()[p] <= now
    }

    /// A manager with no file, whose files are due again after `reupload_interval_s` seconds.
    pub fn new_with_reupload_interval(reupload_interval_s: u64) -> (m: FileManager)
        ensures
            m.wf(),
            m.files() == Map::<Seq<char>, Timestamp>::empty(),
            m.reupload_interval() == reupload_interval_s,
    {
        let m = FileManager { uploaded_files: Vec::new(), reupload_interval_s };
        assert(m.files() =~= Map::<Seq<char>, Timestamp>::empty());
        m
    }

    /// A manager with no file and the default republish interval.
    pub fn new() -> (m: FileManager)
        ensures
            m.wf(),
            m.files() == Map::<Seq<char>, Timestamp>::empty(),
            m.reupload_interval() == DEFAULT_FILE_REUPLOAD_INTERVAL_S,
    {
        FileManager::new_with_reupload_interval(DEFAULT_FILE_REUPLOAD_INTERVAL_S)
    }

    fn find_file(&self, path: &String) -> (r: Option<usize>)
        requires
            self.wf(),
        ensures
            match r {
                Some(i) => i < self.uploaded_files@.len() && self.uploaded_files@[i as int].0@ == path@,
                None => !has_file(self.uploaded_files@, path@),
            },
    {
        let n: usize = self.uploaded_files.len();
        for i in 0..n
            invariant
                n == self.uploaded_files@.len(),
                forall|j: int| 0 <= j < i ==> self.uploaded_files@[j].0@ != path@,
        {
            if self.uploaded_files[i].0 == *path {
                return Some(i);
            }
        }
        None
    }

    /// Records that the file at `full_file_path` was uploaded at `now`.
    pub fn add_file_uploaded_entry(&mut self, full_file_path: &str, now: Timestamp)
        requires
            old(self).wf(),
        ensures
            final(self).wf(),
            final(self).files() == old(self).files().insert(full_file_path@, now),
            final(self).reupload_interval() == old(self).reupload_interval(),
    {
        let path = full_file_path.to_owned();
        let info = StoredFileInfo { time_uploaded: now };
        match self.find_file(&path) {
            Some(i) => {
                proof {
                    lemma_file_update(self.uploaded_files@, i as int, info);
                }
                let name = self.uploaded_files[i].0.clone();
                proof {
                    assert(self.uploaded_files@.update(i as int, (name, info)) == self.uploaded_files@.update(
                        i as int, (self.uploaded_files@[i as int].0, info)) || name@ == path@);
                }
                self.uploaded_files.set(i, (path, info));
                proof {
                    assert forall|a: int, b: int| 0 <= a < self.uploaded_files@.len() && 0 <= b < self.uploaded_files@.len()
                        && a != b implies #[trigger] self.uploaded_files@[a].0@ != #[trigger] self.uploaded_files@[b].0@ by {
                        if a != i && b != i {
                            assert(self.uploaded_files@[a] == old(self).uploaded_files@[a]);
                            assert(self.uploaded_files@[b] == old(self).uploaded_files@[b]);
                        } else if a == i {
                            assert(old(self).uploaded_files@[a].0@ == path@);
                            assert(self.uploaded_files@[b] == old(self).uploaded_files@[b]);
                        } else {
                            assert(old(self).uploaded_files@[b].0@ == path@);
                            assert(self.uploaded_files@[a] == old(self).uploaded_files@[a]);
                        }
                    }
                    let u = old(self).uploaded_files@.update(i as int, (old(self).uploaded_files@[i as int].0, info));
                    assert forall|x: Seq<char>| #[trigger] has_file(self.uploaded_files@, x) == has_file(u, x) by {
                        if has_file(u, x) {
                            let j = choose|j: int| 0 <= j < u.len() && u[j].0@ == x;
                            assert(self.uploaded_files@[j].0@ == x);
                        }
                        if has_file(self.uploaded_files@, x) {
                            let j = choose|j: int| 0 <= j < u.len() && self.uploaded_files@[j].0@ == x;
                            assert(u[j].0@ == x);
                        }
                    }
                    assert forall|x: Seq<char>| has_file(self.uploaded_files@, x) implies
                        self.uploaded_files@[file_index(self.uploaded_files@, x)].1 == u[file_index(u, x)].1 by {
                        let j = file_index(u, x);
                        lemma_file_index(u, j);
                        lemma_file_index(self.uploaded_files@, j);
                    }
                    assert(file_map(self.uploaded_files@) =~= file_map(u));
                }
            },
            None => {
                proof {
                    lemma_file_push(self.uploaded_files@, path, info);
                }
                self.uploaded_files.push((path, info));
            },
        }
    }

    /// Whether the file at `full_file_path` is recorded as uploaded.
    pub fn contains_file(&self, full_file_path: &str) -> (b: bool)
        requires
            self.wf(),
        ensures
            b == self.files().contains_key(full_file_path@),
    {
        let path = full_file_path.to_owned();
        self.find_file(&path).is_some()
    }

    /// Whether no file was uploaded after `now`.
    pub fn is_uploaded_before(&self, now: Timestamp) -> (b: bool)
        requires
            self.wf(),
        ensures
            b == self.uploaded_before(now),
    {
        let n: usize = self.uploaded_files.len();
        for i in 0..n
            invariant
                n == self.uploaded_files@.len(),
                self.wf(),
                forall|j: int| 0 <= j < i ==> self.uploaded_files@[j].1.time_uploaded <= now,
        {
            if self.uploaded_files[i].1.time_uploaded > now {
                proof {
                    lemma_file_index(self.uploaded_files@, i as int);
                    assert(self.files()[self.uploaded_files@[i as int].0@] > now);
                }
                return false;
            }
        }
        true
    }

    /// The paths of the files due for upload again at `now` (uploaded at least
    /// the republish interval ago), each once; they are taken out of the
    /// manager, so that only a new upload records them again.
    pub fn get_files_for_reupload(&mut self, now: Timestamp) -> (v: Vec<String>)
        requires
            old(self).wf(),
            old(self).uploaded_before(now),
        ensures
            final(self).wf(),
            final(self).reupload_interval() == old(self).reupload_interval(),
            paths(v@).no_duplicates(),
            forall|p: Seq<char>| paths(v@).contains(p) <==> (old(self).files().contains_key(p)
                && elapsed_secs(old(self).files()[p], now) >= old(self).reupload_interval()),
            final(self).files() == old(self).files().remove_keys(paths(v@).to_set()),
    {
        let ghost s = self.uploaded_files@;
        let interval = self.reupload_interval_s;
        let mut v: Vec<String> = Vec::new();
        let mut kept: Vec<(String, StoredFileInfo)> = Vec::new();
        let ghost mut idx: Seq<int> = Seq::empty();
        let n: usize = self.uploaded_files.len();
        for i in 0..n
            invariant
                n == s.len(),
                s == self.uploaded_files@,
                s == old(self).uploaded_files@,
                interval == old(self).reupload_interval_s,
                unique_files(s),
                old(self).uploaded_before(now),
                old(self).wf(),
                paths(v@).no_duplicates(),
                forall|p: Seq<char>| paths(v@).contains(p) <==> exists|j: int| 0 <= j < i
                    && #[trigger] s[j].0@ == p && elapsed_secs(s[j].1.time_uploaded, now) >= interval,
                idx.len() == kept@.len(),
                forall|k: int| 0 <= k < idx.len() ==> 0 <= #[trigger] idx[k] < i && kept@[k].0@ == s[idx[k]].0@
                    && kept@[k].1 == s[idx[k]].1 && elapsed_secs(s[idx[k]].1.time_uploaded, now) < interval,
                forall|k: int, l: int| 0 <= k < l < idx.len() ==> #[trigger] idx[k] < #[trigger] idx[l],
                forall|j: int| 0 <= j < i && elapsed_secs(s[j].1.time_uploaded, now) < interval
                    ==> exists|k: int| 0 <= k < idx.len() && #[trigger] idx[k] == j,
        {
            let time = self.uploaded_files[i].1.time_uploaded;
            proof {
                lemma_file_index(s, i as int);
                assert(old(self).files()[s[i as int].0@] == time);
            }
            let ghost before = paths(v@);
            let ghost name = s[i as int].0@;
            if (now - time) / NANOS_PER_SECOND >= interval {
                let f = self.uploaded_files[i].0.clone();
                proof {
                    assert(!before.contains(name)) by {
                        if before.contains(name) {
                            let j = choose|j: int| 0 <= j < i && #[trigger] s[j].0@ == name
                                && elapsed_secs(s[j].1.time_uploaded, now) >= interval;
                        }
                    }
                    lemma_push_contains(before, name);
                }
                v.push(f);
                assert(paths(v@) =~= before.push(name));
            } else {
                let kept_name = self.uploaded_files[i].0.clone();
                let kept_info = self.uploaded_files[i].1;
                kept.push((kept_name, kept_info));
                proof {
                    let old_idx = idx;
                    idx = idx.push(i as int);
                    assert forall|j: int| 0 <= j < i + 1 && elapsed_secs(s[j].1.time_uploaded, now) < interval
                        implies exists|k: int| 0 <= k < idx.len() && #[trigger] idx[k] == j by {
                        if j == i {
                            assert(idx[idx.len() - 1] == j);
                        } else {
                            let k = choose|k: int| 0 <= k < old_idx.len() && #[trigger] old_idx[k] == j;
                            assert(idx[k] == old_idx[k]);
                        }
                    }
                }
            }
            proof {
                assert forall|p: Seq<char>| paths(v@).contains(p) <==> exists|j: int| 0 <= j < i + 1
                    && #[trigger] s[j].0@ == p && elapsed_secs(s[j].1.time_uploaded, now) >= interval by {
                    assert(before.contains(p) <==> exists|j: int| 0 <= j < i
                        && #[trigger] s[j].0@ == p && elapsed_secs(s[j].1.time_uploaded, now) >= interval);
                    if exists|j: int| 0 <= j < i + 1 && #[trigger] s[j].0@ == p && elapsed_secs(s[j].1.time_uploaded, now) >= interval {
                        let j = choose|j: int| 0 <= j < i + 1 && #[trigger] s[j].0@ == p
                            && elapsed_secs(s[j].1.time_uploaded, now) >= interval;
                        if j < i {
                            assert(exists|j: int| 0 <= j < i && #[trigger] s[j].0@ == p
                                && elapsed_secs(s[j].1.time_uploaded, now) >= interval);
                        }
                    }
                    if p == name && elapsed_secs(time, now) >= interval {
                        assert(s[i as int].0@ == p);
                    }
                }
            }
        }
        let ghost old_files = old(self).files();
        proof {
            let t = kept@;
            assert forall|a: int, b: int| 0 <= a < t.len() && 0 <= b < t.len() && a != b
                implies #[trigger] t[a].0@ != #[trigger] t[b].0@ by {
                if a < b {
                    assert(idx[a] < idx[b]);
                } else {
                    assert(idx[b] < idx[a]);
                }
            }
            let removed = paths(v@).to_set();
            assert forall|p: Seq<char>| #[trigger] paths(v@).contains(p) <==> (old_files.contains_key(p)
                && elapsed_secs(old_files[p], now) >= interval) by {
                if old_files.contains_key(p) {
                    let j = file_index(s, p);
                    lemma_file_index(s, j);
                }
                if paths(v@).contains(p) {
                    let j = choose|j: int| 0 <= j < n && #[trigger] s[j].0@ == p
                        && elapsed_secs(s[j].1.time_uploaded, now) >= interval;
                    lemma_file_index(s, j);
                }
            }
            assert forall|p: Seq<char>| #[trigger] has_file(t, p) <==> (old_files.contains_key(p) && !removed.contains(p)) by {
                if has_file(t, p) {
                    let k = choose|k: int| 0 <= k < t.len() && #[trigger] t[k].0@ == p;
                    assert(0 <= idx[k] < n);
                    lemma_file_index(s, idx[k]);
                }
                if old_files.contains_key(p) && !removed.contains(p) {
                    let j = file_index(s, p);
                    lemma_file_index(s, j);
                    assert(!paths(v@).contains(p));
                    let k = choose|k: int| 0 <= k < idx.len() && #[trigger] idx[k] == j;
                    assert(t[k].0@ == p);
                }
            }
            assert forall|p: Seq<char>| has_file(t, p) implies
                t[file_index(t, p)].1.time_uploaded == old_files[p] by {
                let k = file_index(t, p);
                lemma_file_index(t, k);
                assert(0 <= idx[k] < n);
                lemma_file_index(s, idx[k]);
            }
            assert(file_map(t) =~= old_files.remove_keys(removed));
        }
        self.uploaded_files = kept;
        v
    }
}

} // verus!
