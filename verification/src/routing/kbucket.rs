//! A k-bucket: at most `K` contacts, least recently seen at the head.
use vstd::prelude::*;
use crate::clock::{now, Timestamp};
use crate::constants::K;
use crate::kademlia::key::Key;
use crate::networking::node_info::{contains_id, index_of_id, lemma_remove_id, remove_id, unique_ids, NodeInfo};

verus! {

/// Why a contact could not be added to a k-bucket.
#[derive(Debug, Clone, Copy, PartialEq, Eq, Structural)]
pub enum KBucketError {
    /// The bucket is full (the variant that does not ping).
    NotEnoughSpace,
    /// Pinging the least recently seen contact failed for a reason other than
    /// a missing or bad reply.
    FailedToAdd,
}

/// How the ping of the least recently seen contact of a full bucket ended.
#[derive(Debug, Clone, Copy, PartialEq, Eq, Structural)]
pub enum PingOutcome {
    /// The contact replied.
    Responded,
    /// No reply came in time.
    TimedOut,
    /// The reply channel closed without a reply.
    BadResponse,
    /// The ping could not be made at all.
    Failed,
}

/// The first step of adding a contact.
#[derive(Debug, Clone, Copy, PartialEq, Eq)]
pub enum AddStep {
    /// The contact was appended as most recently seen.
    Added,
    /// The bucket is full: its head was taken out and must be pinged; finish
    /// with `finish_add_nodeinfo`.
    PingHead(NodeInfo),
}

/// Keeps contacts whose distance from this node has a given number of leading
/// zero bits. Contacts are ordered from least recently seen (head) to most
/// recently seen (tail).
#[derive(Debug, Clone)]
pub struct KBucket {
    nodes: Vec<NodeInfo>,
    capacity: usize,
    last_lookup_at: Timestamp,
}

impl View for KBucket {
    type V = Seq<NodeInfo>;

    closed spec fn view(&self) -> Seq<NodeInfo> {
        self.nodes@
    }
}

impl KBucket {
    /// The bucket holds at most `K` contacts with distinct keys.
    pub closed spec fn wf(&self) -> bool {
        &&& self.capacity == K
        &&& self.nodes@.len() <= K
        &&& unique_ids(self.nodes@)
    }

    /// Facts that well-formedness gives callers.
    pub proof fn lemma_wf(&self)
        requires
            self.wf(),
        ensures
            self@.len() <= K,
            unique_ids(self@),
    {
    }

    /// An empty bucket whose last lookup is now.
    pub fn new() -> (b: KBucket)
        ensures
            b.wf(),
            b@ == Seq::<NodeInfo>::empty(),
    {
        KBucket { nodes: Vec::with_capacity(K), capacity: K, last_lookup_at: now() }
    }

    /// Records that a lookup for this bucket happened now.
    pub fn set_last_lookup_now(&mut self)
        requires
            old(self).wf(),
        ensures
            final(self).wf(),
            final(self)@ == old(self)@,
    {
        self.last_lookup_at = now();
    }

    /// When the last lookup for this bucket happened.
    pub fn get_last_lookup(&self) -> (t: Timestamp)
        ensures
            t == self.spec_last_lookup(),
    {
        self.last_lookup_at
    }

    /// When the last lookup for this bucket happened.
    pub closed spec fn spec_last_lookup(&self) -> Timestamp {
        self.last_lookup_at
    }

    /// Starts adding `node_info_new`: an entry with the same key is removed, then
    /// the contact is appended as most recently seen if there is room. If the
    /// bucket is full, its least recently seen contact is taken out and returned
    /// to be pinged.
    pub fn add_nodeinfo(&mut self, node_info_new: NodeInfo) -> (step: AddStep)
        requires
            old(self).wf(),
        ensures
            final(self).wf(),
            ({
                let rest = remove_id(old(self)@, node_info_new.id);
                if rest.len() < K {
                    &&& step == AddStep::Added
                    &&& final(self)@ == rest.push(node_info_new)
                } else {
                    &&& step == AddStep::PingHead(rest[0])
                    &&& final(self)@ == rest.drop_first()
                }
            }),
    {
        self.remove_nodeinfo(&node_info_new.id);
        if self.nodes.len() < self.capacity {
            proof {
                lemma_remove_id(old(self)@, node_info_new.id);
                assert(unique_ids(self.nodes@.push(node_info_new)));
            }
            self.nodes.push(node_info_new);
            return AddStep::Added;
        }
        let head = self.nodes.remove(0);
        proof {
            assert(unique_ids(self.nodes@)) by {
                assert forall|i: int, j: int|
                    0 <= i < self.nodes@.len() && 0 <= j < self.nodes@.len() && i != j
                    implies #[trigger] self.nodes@[i].id != #[trigger] self.nodes@[j].id by {
                    let prev = remove_id(old(self)@, node_info_new.id);
                    assert(self.nodes@[i] == prev[i + 1]);
                    assert(self.nodes@[j] == prev[j + 1]);
                }
            }
        }
        AddStep::PingHead(head)
    }

    /// Finishes adding `node_info_new` after `head`, the least recently seen
    /// contact, was pinged: a reply keeps `head` (now most recently seen), a
    /// missing or bad reply lets `node_info_new` in, and a failed ping drops both
    /// and reports `FailedToAdd`.
    pub fn finish_add_nodeinfo(&mut self, node_info_new: NodeInfo, head: NodeInfo, outcome: PingOutcome) -> (r: Result<(), KBucketError>)
        requires
            old(self).wf(),
            old(self)@.len() < K,
            !contains_id(old(self)@, node_info_new.id),
            !contains_id(old(self)@, head.id),
        ensures
            final(self).wf(),
            match outcome {
                PingOutcome::Responded => r == Ok::<(), KBucketError>(()) && final(self)@ == old(self)@.push(head),
                PingOutcome::TimedOut | PingOutcome::BadResponse => r == Ok::<(), KBucketError>(())
                    && final(self)@ == old(self)@.push(node_info_new),
                PingOutcome::Failed => r == Err::<(), KBucketError>(KBucketError::FailedToAdd)
                    && final(self)@ == old(self)@,
            },
    {
        match outcome {
            PingOutcome::Responded => {
                proof {
                    assert(unique_ids(self.nodes@.push(head)));
                }
                self.nodes.push(head);
                Ok(())
            },
            PingOutcome::TimedOut | PingOutcome::BadResponse => {
                proof {
                    assert(unique_ids(self.nodes@.push(node_info_new)));
                }
                self.nodes.push(node_info_new);
                Ok(())
            },
            PingOutcome::Failed => Err(KBucketError::FailedToAdd),
        }
    }

    /// Adds a contact without pinging: like `add_nodeinfo`, but a full bucket
    /// refuses the new contact with `NotEnoughSpace` and stays unchanged.
    pub fn add_nodeinfo_limited(&mut self, node_info: NodeInfo) -> (r: Result<(), KBucketError>)
        requires
            old(self).wf(),
        ensures
            final(self).wf(),
            ({
                let rest = remove_id(old(self)@, node_info.id);
                if rest.len() < K {
                    &&& r == Ok::<(), KBucketError>(())
                    &&& final(self)@ == rest.push(node_info)
                } else {
                    &&& r == Err::<(), KBucketError>(KBucketError::NotEnoughSpace)
                    &&& final(self)@ == old(self)@
                }
            }),
    {
        proof {
            lemma_remove_id(old(self)@, node_info.id);
        }
        self.remove_nodeinfo(&node_info.id);
        if self.nodes.len() < self.capacity {
            proof {
                assert(unique_ids(self.nodes@.push(node_info)));
            }
            self.nodes.push(node_info);
            return Ok(());
        }
        Err(KBucketError::NotEnoughSpace)
    }

    /// Removes and returns the contact with key `key`, if there is one.
    pub fn remove_nodeinfo(&mut self, key: &Key) -> (r: Option<NodeInfo>)
        requires
            old(self).wf(),
        ensures
            final(self).wf(),
            final(self)@ == remove_id(old(self)@, *key),
            contains_id(old(self)@, *key) ==> r == Some(old(self)@[index_of_id(old(self)@, *key)]),
            !contains_id(old(self)@, *key) ==> r is None,
            r matches Some(n) ==> n.id == *key,
    {
        proof {
            lemma_remove_id(old(self)@, *key);
        }
        let n: usize = self.nodes.len();
        let mut i: usize = 0;
        while i < n
            invariant
                n == self.nodes@.len(),
                self.nodes@ == old(self)@,
                self.wf(),
                i <= n,
                forall|j: int| 0 <= j < i ==> self.nodes@[j].id != *key,
            decreases n - i,
        {
            if self.nodes[i].id == *key {
                let ghost p = index_of_id(old(self)@, *key);
                proof {
                    assert(contains_id(old(self)@, *key));
                    assert(p == i);
                }
                let removed = self.nodes.remove(i);
                return Some(removed);
            }
            i += 1;
        }
        proof {
            assert(!contains_id(old(self)@, *key));
        }
        None
    }

    /// The contact with key `key`, if there is one.
    pub fn get_nodeinfo(&self, key: &Key) -> (r: Option<&NodeInfo>)
        requires
            self.wf(),
        ensures
            contains_id(self@, *key) ==> r == Some(&self@[index_of_id(self@, *key)]),
            !contains_id(self@, *key) ==> r is None,
    {
        let n: usize = self.nodes.len();
        let mut i: usize = 0;
        while i < n
            invariant
                n == self.nodes@.len(),
                self.wf(),
                i <= n,
                forall|j: int| 0 <= j < i ==> self.nodes@[j].id != *key,
            decreases n - i,
        {
            if self.nodes[i].id == *key {
                proof {
                    assert(contains_id(self@, *key));
                    assert(index_of_id(self@, *key) == i);
                }
                return Some(&self.nodes[i]);
            }
            i += 1;
        }
        None
    }

    /// All contacts, least recently seen first.
    pub fn get_nodeinfos(&self) -> (v: &Vec<NodeInfo>)
        ensures
            v@ == self@,
    {
        &self.nodes
    }
}

} // verus!
