//! Bookkeeping of an iterative Kademlia lookup: the candidates found so far,
//! sorted by distance to the target, and which of them were queried and
//! answered.
use vstd::prelude::*;
use vstd::std_specs::cmp::PartialEqSpecImpl;
use crate::constants::{ALPHA, K};
use crate::kademlia::key::{closer, Key};
use crate::networking::node_info::{contains_id, NodeInfo};

verus! {

broadcast use vstd::seq_lib::group_seq_properties;

/// The status of a lookup round.
#[derive(Debug, Clone, Copy, PartialEq, Eq, Structural)]
pub enum LookupRoundStatus {
    Fail,
    ImprovedNodes,
    FoundValue,
}

/// A candidate of a lookup: its contact, whether a request was sent to it and
/// whether it answered.
#[derive(Debug, Clone, Copy)]
pub struct LookupNodeInfo {
    pub node_info: NodeInfo,
    pub queried: bool,
    pub responded: bool,
}

impl PartialEq for LookupNodeInfo {
    fn eq(&self, other: &Self) -> (r: bool) {
        self.node_info == other.node_info
    }
}

impl PartialEqSpecImpl for LookupNodeInfo {
    open spec fn obeys_eq_spec() -> bool {
        true
    }

    open spec fn eq_spec(&self, other: &Self) -> bool {
        self.node_info == other.node_info
    }
}

/// A fresh candidate: neither queried nor answered.
pub open spec fn fresh(node_info: NodeInfo) -> LookupNodeInfo {
    LookupNodeInfo { node_info, queried: false, responded: false }
}

/// The candidate was queried and did not answer.
pub open spec fn failed(n: LookupNodeInfo) -> bool {
    n.queried && !n.responded
}

impl LookupNodeInfo {
    /// A fresh candidate for a recently discovered contact.
    pub fn new(node_info: NodeInfo) -> (n: LookupNodeInfo)
        ensures
            n == fresh(node_info),
    {
        LookupNodeInfo { node_info, queried: false, responded: false }
    }

    /// Whether the candidate was queried and did not answer.
    pub fn has_failed_to_respond(&self) -> (b: bool)
        ensures
            b == failed(*self),
    {
        self.queried && !self.responded
    }
}

/// What a successful lookup answer carried.
#[derive(Debug, Clone, Copy, PartialEq, Eq, Structural)]
pub enum LookupSuccessType {
    /// The resolver stores the value.
    Value,
    /// The resolver sent the closest contacts it knows.
    Nodes,
}

/// The answer of one resolver in a lookup round.
#[derive(Debug, Clone)]
pub struct LookupResponse {
    pub resolver: NodeInfo,
    pub success: bool,
    pub success_type: Option<LookupSuccessType>,
    pub k_closest: Vec<NodeInfo>,
}

impl LookupResponse {
    /// A successful answer with the resolver's closest contacts.
    pub fn new_nodes_successful(resolver: NodeInfo, k_closest: Vec<NodeInfo>) -> (r: LookupResponse)
        ensures
            r.resolver == resolver,
            r.success,
            r.success_type == Some(LookupSuccessType::Nodes),
            r.k_closest@ == k_closest@,
    {
        LookupResponse { resolver, success: true, success_type: Some(LookupSuccessType::Nodes), k_closest }
    }

    /// A successful answer: the resolver stores the value.
    pub fn new_value_successful(resolver: NodeInfo) -> (r: LookupResponse)
        ensures
            r.resolver == resolver,
            r.success,
            r.success_type == Some(LookupSuccessType::Value),
            r.k_closest@.len() == 0,
    {
        LookupResponse { resolver, success: true, success_type: Some(LookupSuccessType::Value), k_closest: Vec::new() }
    }

    /// A failed answer (no reply, or an unusable one).
    pub fn new_failed(resolver: NodeInfo) -> (r: LookupResponse)
        ensures
            r.resolver == resolver,
            !r.success,
            r.success_type is None,
            r.k_closest@.len() == 0,
    {
        LookupResponse { resolver, success: false, success_type: None, k_closest: Vec::new() }
    }

    /// The resolver that gave this answer.
    pub fn get_resolver(&self) -> (n: NodeInfo)
        ensures
            n == self.resolver,
    {
        self.resolver
    }

    /// The closest contacts the resolver sent.
    pub fn get_k_closest(&self) -> (v: Vec<NodeInfo>)
        ensures
            v@ == self.k_closest@,
    {
        let mut v: Vec<NodeInfo> = Vec::new();
        let n: usize = self.k_closest.len();
        for i in 0..n
            invariant
                n == self.k_closest@.len(),
                v@ == self.k_closest@.take(i as int),
        {
            v.push(self.k_closest[i]);
            assert(v@ =~= self.k_closest@.take(i + 1));
        }
        assert(self.k_closest@.take(n as int) =~= self.k_closest@);
        v
    }

    /// What the successful answer carried, if it succeeded.
    pub fn get_success_type(&self) -> (t: Option<LookupSuccessType>)
        ensures
            t == self.success_type,
    {
        self.success_type
    }
}

/// `x` may stand before `y` in a buffer sorted by distance to `target`.
pub open spec fn not_farther(x: LookupNodeInfo, y: LookupNodeInfo, target: Key) -> bool {
    !closer(y.node_info.id, x.node_info.id, target)
}

/// The entries of `s` are in order of non-decreasing distance to `target`.
pub open spec fn sorted_lookup(s: Seq<LookupNodeInfo>, target: Key) -> bool {
    forall|i: int, j: int| 0 <= i < j < s.len() ==> not_farther(#[trigger] s[i], #[trigger] s[j], target)
}

/// Inserts `x` into `s` after every entry not farther from `target` than `x`.
pub open spec fn insert_sorted(s: Seq<LookupNodeInfo>, x: LookupNodeInfo, target: Key) -> Seq<LookupNodeInfo>
    decreases s.len(),
{
    if s.len() == 0 {
        seq![x]
    } else if closer(x.node_info.id, s[0].node_info.id, target) {
        seq![x] + s
    } else {
        seq![s[0]] + insert_sorted(s.drop_first(), x, target)
    }
}

/// The stable sort of `s` by distance to `target`: its entries inserted in order.
pub open spec fn sort_by_distance(s: Seq<LookupNodeInfo>, target: Key) -> Seq<LookupNodeInfo>
    decreases s.len(),
{
    if s.len() == 0 {
        s
    } else {
        insert_sorted(sort_by_distance(s.drop_last(), target), s.last(), target)
    }
}

/// `s` with every entry of key `id` marked as queried.
pub open spec fn mark_queried(s: Seq<LookupNodeInfo>, id: Key) -> Seq<LookupNodeInfo> {
    Seq::new(s.len(), |i: int| if s[i].node_info.id == id { LookupNodeInfo { queried: true, ..s[i] } } else { s[i] })
}

/// `s` with every entry of key `id` marked as answered.
pub open spec fn mark_responded(s: Seq<LookupNodeInfo>, id: Key) -> Seq<LookupNodeInfo> {
    Seq::new(s.len(), |i: int| if s[i].node_info.id == id { LookupNodeInfo { responded: true, ..s[i] } } else { s[i] })
}

/// `s`, or its first `n` entries if it is longer.
pub open spec fn take_at_most<A>(s: Seq<A>, n: nat) -> Seq<A> {
    if s.len() <= n {
        s
    } else {
        s.take(n as int)
    }
}

/// The contacts of the entries of `s` that did not fail to answer, in order.
pub open spec fn not_failed_infos(s: Seq<LookupNodeInfo>) -> Seq<NodeInfo>
    decreases s.len(),
{
    if s.len() == 0 {
        Seq::empty()
    } else if failed(s.last()) {
        not_failed_infos(s.drop_last())
    } else {
        not_failed_infos(s.drop_last()).push(s.last().node_info)
    }
}

/// The contacts of the entries of `s` not queried yet, in order.
pub open spec fn unqueried_infos(s: Seq<LookupNodeInfo>) -> Seq<NodeInfo>
    decreases s.len(),
{
    if s.len() == 0 {
        Seq::empty()
    } else if s.last().queried {
        unqueried_infos(s.drop_last())
    } else {
        unqueried_infos(s.drop_last()).push(s.last().node_info)
    }
}

/// The contacts of the entries of `s` that were queried and answered, in order.
pub open spec fn responsive_infos(s: Seq<LookupNodeInfo>) -> Seq<NodeInfo>
    decreases s.len(),
{
    if s.len() == 0 {
        Seq::empty()
    } else if s.last().queried && s.last().responded {
        responsive_infos(s.drop_last()).push(s.last().node_info)
    } else {
        responsive_infos(s.drop_last())
    }
}

/// The result of a lookup in state `s`: at most `K` closest contacts that did
/// not fail to answer.
pub open spec fn resulting(s: Seq<LookupNodeInfo>) -> Seq<NodeInfo> {
    take_at_most(not_failed_infos(s), K as nat)
}

/// Some entry of `s` has contact `x`.
pub open spec fn contains_info(s: Seq<LookupNodeInfo>, x: NodeInfo) -> bool {
    exists|i: int| 0 <= i < s.len() && #[trigger] s[i].node_info == x
}

/// Appends, in order, the contacts of `nodes` that are neither in the buffer yet
/// nor the node doing the lookup.
pub open spec fn merge_nodes(s: Seq<LookupNodeInfo>, nodes: Seq<NodeInfo>, this_node: NodeInfo) -> Seq<LookupNodeInfo>
    decreases nodes.len(),
{
    if nodes.len() == 0 {
        s
    } else {
        let s1 = merge_nodes(s, nodes.drop_last(), this_node);
        let x = nodes.last();
        if contains_info(s1, x) || x == this_node {
            s1
        } else {
            s1.push(fresh(x))
        }
    }
}

/// The answer reports that the resolver stores the value.
pub open spec fn is_value_answer(r: LookupResponse) -> bool {
    r.success_type == Some(LookupSuccessType::Value)
}

/// The effect of one answer: a failed answer (or a value where contacts were
/// asked for) marks the resolver as queried; otherwise the contacts it sent are
/// merged in and the resolver is marked as answered.
pub open spec fn apply_response(s: Seq<LookupNodeInfo>, r: LookupResponse, for_value: bool, this_node: NodeInfo) -> Seq<LookupNodeInfo> {
    if !r.success || (!for_value && is_value_answer(r)) {
        mark_queried(s, r.resolver.id)
    } else {
        mark_responded(merge_nodes(s, r.k_closest@, this_node), r.resolver.id)
    }
}

/// The effect of the answers `rs`, in order.
pub open spec fn apply_responses(s: Seq<LookupNodeInfo>, rs: Seq<LookupResponse>, for_value: bool, this_node: NodeInfo) -> Seq<LookupNodeInfo>
    decreases rs.len(),
{
    if rs.len() == 0 {
        s
    } else {
        apply_response(apply_responses(s, rs.drop_last(), for_value, this_node), rs.last(), for_value, this_node)
    }
}

/// Position `i` holds the first answer of `rs` that reports the value.
pub open spec fn first_value_answer_at(rs: Seq<LookupResponse>, i: int) -> bool {
    &&& 0 <= i < rs.len()
    &&& is_value_answer(rs[i])
    &&& forall|j: int| 0 <= j < i ==> !is_value_answer(#[trigger] rs[j])
}

/// The candidates after recording the answers `rs` of a round (see
/// `LookupBuffer::record_lookup_round_responses`).
pub open spec fn recorded(s: Seq<LookupNodeInfo>, rs: Seq<LookupResponse>, for_value: bool, this_node: NodeInfo, target: Key) -> Seq<LookupNodeInfo> {
    if for_value && exists|i: int| 0 <= i < rs.len() && is_value_answer(#[trigger] rs[i]) {
        sort_by_distance(apply_responses(s, rs.take(choose|i: int| first_value_answer_at(rs, i)), for_value, this_node), target)
    } else {
        sort_by_distance(apply_responses(s, rs, for_value, this_node), target)
    }
}

/// Whether recording the answers `rs` of a round counts as progress: a value
/// was found, or the result of the lookup changed.
pub open spec fn record_improves(s: Seq<LookupNodeInfo>, rs: Seq<LookupResponse>, for_value: bool, this_node: NodeInfo, target: Key) -> bool {
    if for_value && exists|i: int| 0 <= i < rs.len() && is_value_answer(#[trigger] rs[i]) {
        true
    } else {
        resulting(s) != resulting(recorded(s, rs, for_value, this_node, target))
    }
}

/// Finds the target's closest nodes (or a value) iteratively: keeps the
/// candidates found so far, sorted by XOR distance to the target, without
/// duplicates and without the node doing the lookup.
pub struct LookupBuffer {
    nodes: Vec<LookupNodeInfo>,
    target: Key,
    this_node: NodeInfo,
}

impl View for LookupBuffer {
    type V = Seq<LookupNodeInfo>;

    closed spec fn view(&self) -> Seq<LookupNodeInfo> {
        self.nodes@
    }
}


/// `s` with every entry whose key is among `cs` marked as queried.
pub open spec fn mark_queried_all(s: Seq<LookupNodeInfo>, cs: Seq<NodeInfo>) -> Seq<LookupNodeInfo> {
    Seq::new(
        s.len(),
        |i: int| if contains_id(cs, s[i].node_info.id) { LookupNodeInfo { queried: true, ..s[i] } } else { s[i] },
    )
}

/// The first position at which `x` is strictly closer to `target` than the entry
/// of `s`, or the length of `s`.
pub open spec fn insert_position(s: Seq<LookupNodeInfo>, x: LookupNodeInfo, target: Key, p: int) -> bool {
    &&& 0 <= p <= s.len()
    &&& forall|i: int| 0 <= i < p ==> !closer(x.node_info.id, #[trigger] s[i].node_info.id, target)
    &&& p < s.len() ==> closer(x.node_info.id, s[p].node_info.id, target)
}

/// Sorted insertion puts `x` at its insertion position.
pub proof fn lemma_insert_sorted_at(s: Seq<LookupNodeInfo>, x: LookupNodeInfo, target: Key, p: int)
    requires
        insert_position(s, x, target, p),
    ensures
        insert_sorted(s, x, target) == s.insert(p, x),
    decreases s.len(),
{
    if s.len() == 0 {
        assert(seq![x] =~= s.insert(p, x));
    } else if closer(x.node_info.id, s[0].node_info.id, target) {
        if p > 0 {
            assert(!closer(x.node_info.id, s[0].node_info.id, target));
        }
        assert(seq![x] + s =~= s.insert(0, x));
    } else {
        assert(p > 0);
        let t = s.drop_first();
        assert(insert_position(t, x, target, p - 1)) by {
            assert forall|i: int| 0 <= i < p - 1 implies !closer(x.node_info.id, #[trigger] t[i].node_info.id, target) by {
                assert(t[i] == s[i + 1]);
            }
        }
        lemma_insert_sorted_at(t, x, target, p - 1);
        assert(seq![s[0]] + t.insert(p - 1, x) =~= s.insert(p, x));
    }
}

/// Sorted insertion into a sorted sequence keeps it sorted.
pub proof fn lemma_insert_sorted_sorted(s: Seq<LookupNodeInfo>, x: LookupNodeInfo, target: Key, p: int)
    requires
        sorted_lookup(s, target),
        insert_position(s, x, target, p),
    ensures
        sorted_lookup(s.insert(p, x), target),
{
    let r = s.insert(p, x);
    let tx = crate::kademlia::key::key_distance(x.node_info.id, target);
    assert forall|i: int, j: int| 0 <= i < j < r.len() implies not_farther(#[trigger] r[i], #[trigger] r[j], target) by {
        if j < p {
            assert(r[i] == s[i] && r[j] == s[j]);
        } else if j == p {
            assert(r[i] == s[i]);
            assert(!closer(x.node_info.id, s[i].node_info.id, target));
        } else if i == p {
            assert(r[j] == s[j - 1]);
            let dp = crate::kademlia::key::key_distance(s[p].node_info.id, target);
            let dj = crate::kademlia::key::key_distance(s[j - 1].node_info.id, target);
            assert(closer(x.node_info.id, s[p].node_info.id, target));
            if closer(s[j - 1].node_info.id, x.node_info.id, target) {
                crate::kademlia::key::lemma_lex_lt_transitive(dj, tx, dp);
                if j - 1 > p {
                    assert(not_farther(s[p], s[j - 1], target));
                } else {
                    crate::kademlia::key::lemma_lex_lt_asymmetric(dp, dp);
                }
            }
        } else if i < p {
            assert(r[i] == s[i] && r[j] == s[j - 1]);
        } else {
            assert(r[i] == s[i - 1] && r[j] == s[j - 1]);
        }
    }
}

/// A stably sorted sequence is sorted.
pub proof fn lemma_sort_by_distance_sorted(s: Seq<LookupNodeInfo>, target: Key)
    ensures
        sorted_lookup(sort_by_distance(s, target), target),
        sort_by_distance(s, target).len() == s.len(),
    decreases s.len(),
{
    if s.len() > 0 {
        let t = sort_by_distance(s.drop_last(), target);
        lemma_sort_by_distance_sorted(s.drop_last(), target);
        let p = insert_position_of(t, s.last(), target);
        lemma_insert_position_of(t, s.last(), target);
        lemma_insert_sorted_at(t, s.last(), target, p);
        lemma_insert_sorted_sorted(t, s.last(), target, p);
    }
}

/// The insertion position of `x` in `s`.
pub open spec fn insert_position_of(s: Seq<LookupNodeInfo>, x: LookupNodeInfo, target: Key) -> int
    decreases s.len(),
{
    if s.len() == 0 {
        0
    } else if closer(x.node_info.id, s[0].node_info.id, target) {
        0
    } else {
        1 + insert_position_of(s.drop_first(), x, target)
    }
}

/// `insert_position_of` is an insertion position.
pub proof fn lemma_insert_position_of(s: Seq<LookupNodeInfo>, x: LookupNodeInfo, target: Key)
    ensures
        insert_position(s, x, target, insert_position_of(s, x, target)),
    decreases s.len(),
{
    if s.len() > 0 && !closer(x.node_info.id, s[0].node_info.id, target) {
        let t = s.drop_first();
        lemma_insert_position_of(t, x, target);
        let q = insert_position_of(t, x, target);
        assert forall|i: int| 0 <= i < q + 1 implies !closer(x.node_info.id, #[trigger] s[i].node_info.id, target) by {
            if i > 0 {
                assert(s[i] == t[i - 1]);
            }
        }
        if q + 1 < s.len() {
            assert(s[q + 1] == t[q]);
        }
    }
}

/// Whether two vectors of contacts are equal.
fn vec_nodes_equal(a: &Vec<NodeInfo>, b: &Vec<NodeInfo>) -> (r: bool)
    ensures
        r == (a@ == b@),
{
    if a.len() != b.len() {
        return false;
    }
    let n: usize = a.len();
    for i in 0..n
        invariant
            n == a@.len(),
            n == b@.len(),
            forall|j: int| 0 <= j < i ==> a@[j] == b@[j],
    {
        if a[i] != b[i] {
            return false;
        }
    }
    assert(a@ =~= b@);
    true
}


/// No two candidates of `s` have the same contact.
pub open spec fn unique_infos(s: Seq<LookupNodeInfo>) -> bool {
    forall|i: int, j: int| 0 <= i < s.len() && 0 <= j < s.len() && i != j ==> #[trigger] s[i].node_info != #[trigger] s[j].node_info
}

proof fn lemma_insert_contains(s: Seq<LookupNodeInfo>, p: int, x: LookupNodeInfo, y: NodeInfo)
    requires
        0 <= p <= s.len(),
    ensures
        contains_info(s.insert(p, x), y) <==> (contains_info(s, y) || x.node_info == y),
{
    let r = s.insert(p, x);
    if contains_info(r, y) {
        let k = choose|k: int| 0 <= k < r.len() && #[trigger] r[k].node_info == y;
        if k < p {
            assert(s[k].node_info == y);
        } else if k > p {
            assert(s[k - 1].node_info == y);
        }
    }
    if contains_info(s, y) {
        let k = choose|k: int| 0 <= k < s.len() && #[trigger] s[k].node_info == y;
        if k < p {
            assert(r[k].node_info == y);
        } else {
            assert(r[k + 1].node_info == y);
        }
    }
    if x.node_info == y {
        assert(r[p].node_info == y);
    }
}

/// Sorting keeps exactly the contacts of the buffer, and keeps them unique.
pub proof fn lemma_sort_keeps_contacts(s: Seq<LookupNodeInfo>, target: Key)
    ensures
        forall|y: NodeInfo| contains_info(sort_by_distance(s, target), y) <==> contains_info(s, y),
        unique_infos(s) ==> unique_infos(sort_by_distance(s, target)),
    decreases s.len(),
{
    if s.len() > 0 {
        let d = s.drop_last();
        let x = s.last();
        let t = sort_by_distance(d, target);
        lemma_sort_keeps_contacts(d, target);
        lemma_sort_by_distance_sorted(d, target);
        let p = insert_position_of(t, x, target);
        lemma_insert_position_of(t, x, target);
        lemma_insert_sorted_at(t, x, target, p);
        assert forall|y: NodeInfo| contains_info(sort_by_distance(s, target), y) <==> contains_info(s, y) by {
            lemma_insert_contains(t, p, x, y);
            if contains_info(s, y) {
                let k = choose|k: int| 0 <= k < s.len() && #[trigger] s[k].node_info == y;
                if k < d.len() {
                    assert(d[k].node_info == y);
                }
            }
            if contains_info(d, y) {
                let k = choose|k: int| 0 <= k < d.len() && #[trigger] d[k].node_info == y;
                assert(s[k].node_info == y);
            }
            if x.node_info == y {
                assert(s[s.len() - 1].node_info == y);
            }
        }
        if unique_infos(s) {
            assert(unique_infos(d)) by {
                assert forall|i: int, j: int| 0 <= i < d.len() && 0 <= j < d.len() && i != j implies #[trigger] d[i].node_info != #[trigger] d[j].node_info by {
                    assert(s[i] == d[i] && s[j] == d[j]);
                }
            }
            assert(!contains_info(d, x.node_info)) by {
                if contains_info(d, x.node_info) {
                    let k = choose|k: int| 0 <= k < d.len() && #[trigger] d[k].node_info == x.node_info;
                    assert(s[k].node_info == s[s.len() - 1].node_info);
                }
            }
            let r = t.insert(p, x);
            assert forall|i: int, j: int| 0 <= i < r.len() && 0 <= j < r.len() && i != j implies #[trigger] r[i].node_info != #[trigger] r[j].node_info by {
                if i == p || j == p {
                    let o = if i == p { j } else { i };
                    let k = if o < p { o } else { o - 1 };
                    assert(r[o] == t[k]);
                    assert(contains_info(t, t[k].node_info));
                } else {
                    let ki = if i < p { i } else { i - 1 };
                    let kj = if j < p { j } else { j - 1 };
                    assert(r[i] == t[ki] && r[j] == t[kj]);
                }
            }
        }
    }
}

pub proof fn lemma_marks_keep_contacts(s: Seq<LookupNodeInfo>, id: Key)
    ensures
        forall|y: NodeInfo| contains_info(mark_queried(s, id), y) <==> contains_info(s, y),
        forall|y: NodeInfo| contains_info(mark_responded(s, id), y) <==> contains_info(s, y),
        unique_infos(s) ==> unique_infos(mark_queried(s, id)) && unique_infos(mark_responded(s, id)),
{
    assert forall|y: NodeInfo| contains_info(mark_queried(s, id), y) <==> contains_info(s, y) by {
        if contains_info(s, y) {
            let k = choose|k: int| 0 <= k < s.len() && #[trigger] s[k].node_info == y;
            assert(mark_queried(s, id)[k].node_info == y);
        }
        if contains_info(mark_queried(s, id), y) {
            let k = choose|k: int| 0 <= k < s.len() && #[trigger] mark_queried(s, id)[k].node_info == y;
            assert(s[k].node_info == y);
        }
    }
    assert forall|y: NodeInfo| contains_info(mark_responded(s, id), y) <==> contains_info(s, y) by {
        if contains_info(s, y) {
            let k = choose|k: int| 0 <= k < s.len() && #[trigger] s[k].node_info == y;
            assert(mark_responded(s, id)[k].node_info == y);
        }
        if contains_info(mark_responded(s, id), y) {
            let k = choose|k: int| 0 <= k < s.len() && #[trigger] mark_responded(s, id)[k].node_info == y;
            assert(s[k].node_info == y);
        }
    }
}

pub proof fn lemma_merge_nodes(s: Seq<LookupNodeInfo>, nodes: Seq<NodeInfo>, this_node: NodeInfo)
    ensures
        !contains_info(s, this_node) ==> !contains_info(merge_nodes(s, nodes, this_node), this_node),
        unique_infos(s) ==> unique_infos(merge_nodes(s, nodes, this_node)),
        forall|y: NodeInfo| contains_info(s, y) ==> contains_info(merge_nodes(s, nodes, this_node), y),
    decreases nodes.len(),
{
    if nodes.len() > 0 {
        let s1 = merge_nodes(s, nodes.drop_last(), this_node);
        lemma_merge_nodes(s, nodes.drop_last(), this_node);
        let x = nodes.last();
        if !(contains_info(s1, x) || x == this_node) {
            let r = s1.push(fresh(x));
            assert forall|y: NodeInfo| contains_info(s1, y) implies contains_info(r, y) by {
                let k = choose|k: int| 0 <= k < s1.len() && #[trigger] s1[k].node_info == y;
                assert(r[k].node_info == y);
            }
            if !contains_info(s1, this_node) {
                if contains_info(r, this_node) {
                    let k = choose|k: int| 0 <= k < r.len() && #[trigger] r[k].node_info == this_node;
                    if k < s1.len() {
                        assert(s1[k].node_info == this_node);
                    }
                }
            }
            if unique_infos(s1) {
                assert forall|i: int, j: int| 0 <= i < r.len() && 0 <= j < r.len() && i != j implies #[trigger] r[i].node_info != #[trigger] r[j].node_info by {
                    if i == s1.len() {
                        assert(r[j] == s1[j]);
                    } else if j == s1.len() {
                        assert(r[i] == s1[i]);
                    } else {
                        assert(r[i] == s1[i] && r[j] == s1[j]);
                    }
                }
            }
        }
    }
}

/// Applying answers never adds the node doing the lookup, never duplicates a
/// contact, and never drops one.
proof fn lemma_apply_keeps_clean(s: Seq<LookupNodeInfo>, rs: Seq<LookupResponse>, for_value: bool, this_node: NodeInfo)
    requires
        !contains_info(s, this_node),
        unique_infos(s),
    ensures
        !contains_info(apply_responses(s, rs, for_value, this_node), this_node),
        unique_infos(apply_responses(s, rs, for_value, this_node)),
        forall|y: NodeInfo| contains_info(s, y) ==> contains_info(apply_responses(s, rs, for_value, this_node), y),
    decreases rs.len(),
{
    if rs.len() > 0 {
        lemma_apply_keeps_clean(s, rs.drop_last(), for_value, this_node);
        let s1 = apply_responses(s, rs.drop_last(), for_value, this_node);
        let r = rs.last();
        if !r.success || (!for_value && is_value_answer(r)) {
            lemma_marks_keep_contacts(s1, r.resolver.id);
        } else {
            lemma_merge_nodes(s1, r.k_closest@, this_node);
            lemma_marks_keep_contacts(merge_nodes(s1, r.k_closest@, this_node), r.resolver.id);
        }
    }
}

/// Every round keeps the candidates clean: after recording any answers, with or
/// without a value found, the candidates are sorted by distance to the target,
/// hold no contact twice, do not hold the node doing the lookup, and still hold
/// every earlier candidate.
pub proof fn law_record_keeps_candidates_clean(
    s: Seq<LookupNodeInfo>,
    rs: Seq<LookupResponse>,
    for_value: bool,
    this_node: NodeInfo,
    target: Key,
)
    requires
        !contains_info(s, this_node),
        unique_infos(s),
    ensures
        sorted_lookup(recorded(s, rs, for_value, this_node, target), target),
        unique_infos(recorded(s, rs, for_value, this_node, target)),
        !contains_info(recorded(s, rs, for_value, this_node, target), this_node),
        forall|y: NodeInfo| contains_info(s, y) ==> contains_info(recorded(s, rs, for_value, this_node, target), y),
{
    let applied = if for_value && exists|i: int| 0 <= i < rs.len() && is_value_answer(#[trigger] rs[i]) {
        rs.take(choose|i: int| first_value_answer_at(rs, i))
    } else {
        rs
    };
    lemma_apply_keeps_clean(s, applied, for_value, this_node);
    let t = apply_responses(s, applied, for_value, this_node);
    assert(recorded(s, rs, for_value, this_node, target) == sort_by_distance(t, target));
    lemma_sort_keeps_contacts(t, target);
    lemma_sort_by_distance_sorted(t, target);
}

/// A new buffer is sorted by distance to the target.
pub proof fn law_buffer_sorted(s: Seq<LookupNodeInfo>, target: Key)
    ensures
        sorted_lookup(sort_by_distance(s, target), target),
{
    lemma_sort_by_distance_sorted(s, target);
}

impl LookupBuffer {
    /// The key the lookup is for.
    pub closed spec fn spec_target(&self) -> Key {
        self.target
    }

    /// The node doing the lookup.
    pub closed spec fn spec_this_node(&self) -> NodeInfo {
        self.this_node
    }

    /// A buffer for a lookup of `target` by `this_node`, seeded with the
    /// contacts of `initial_nodes` (fresh, each once, without `this_node`),
    /// stably sorted by distance to `target`.
    pub fn new(target: Key, initial_nodes: Vec<NodeInfo>, this_node: NodeInfo) -> (b: LookupBuffer)
        ensures
            b.spec_target() == target,
            b.spec_this_node() == this_node,
            b@ == sort_by_distance(merge_nodes(Seq::empty(), initial_nodes@, this_node), target),
    {
        let mut result_buffer = LookupBuffer { nodes: Vec::new(), target, this_node };
        let n: usize = initial_nodes.len();
        for t in 0..n
            invariant
                n == initial_nodes@.len(),
                result_buffer.target == target,
                result_buffer.this_node == this_node,
                result_buffer@ == merge_nodes(Seq::empty(), initial_nodes@.take(t as int), this_node),
        {
            let node = initial_nodes[t];
            proof {
                assert(initial_nodes@.take(t + 1).drop_last() =~= initial_nodes@.take(t as int));
                assert(initial_nodes@.take(t + 1).last() == node);
            }
            if !result_buffer.contains_candidate(&node) && result_buffer.this_node != node {
                result_buffer.nodes.push(LookupNodeInfo::new(node));
            }
        }
        assert(initial_nodes@.take(n as int) =~= initial_nodes@);
        result_buffer.sort();
        result_buffer
    }

    /// The candidates, in buffer order.
    pub fn get_nodes(&self) -> (v: &Vec<LookupNodeInfo>)
        ensures
            v@ == self@,
    {
        &self.nodes
    }

    /// At most `K` closest candidates that did not fail to answer: the result of
    /// the lookup in its current state.
    pub fn get_resulting_vector(&self) -> (v: Vec<NodeInfo>)
        ensures
            v@ == resulting(self@),
    {
        let mut v: Vec<NodeInfo> = Vec::new();
        let n: usize = self.nodes.len();
        for i in 0..n
            invariant
                n == self.nodes@.len(),
                v@ == take_at_most(not_failed_infos(self.nodes@.take(i as int)), K as nat),
        {
            let node = self.nodes[i];
            proof {
                assert(self.nodes@.take(i + 1).drop_last() =~= self.nodes@.take(i as int));
            }
            if !node.has_failed_to_respond() && v.len() < K {
                v.push(node.node_info);
            }
            proof {
                let prev = not_failed_infos(self.nodes@.take(i as int));
                let next = not_failed_infos(self.nodes@.take(i + 1));
                if !failed(node) {
                    assert(next == prev.push(node.node_info));
                    if prev.len() < K {
                        assert(v@ =~= take_at_most(next, K as nat));
                    } else {
                        assert(take_at_most(next, K as nat) =~= take_at_most(prev, K as nat));
                    }
                }
            }
        }
        assert(self.nodes@.take(n as int) =~= self.nodes@);
        v
    }

    /// The candidates among the `K` first that were not queried yet; meant for
    /// the last round of a lookup.
    pub fn get_unqueried_resulting_nodes(&self) -> (v: Vec<NodeInfo>)
        ensures
            v@ == unqueried_infos(take_at_most(self@, K as nat)),
    {
        let mut v: Vec<NodeInfo> = Vec::new();
        let n: usize = if self.nodes.len() < K { self.nodes.len() } else { K };
        let ghost top = take_at_most(self@, K as nat);
        for i in 0..n
            invariant
                n == top.len(),
                top == take_at_most(self.nodes@, K as nat),
                v@ == unqueried_infos(top.take(i as int)),
        {
            let node = self.nodes[i];
            proof {
                assert(top[i as int] == node);
                assert(top.take(i + 1).drop_last() =~= top.take(i as int));
            }
            if !node.queried {
                v.push(node.node_info);
            }
        }
        assert(top.take(n as int) =~= top);
        v
    }

    /// The first `ALPHA` candidates not queried yet, which are then marked as
    /// queried: the resolvers of the next round.
    pub fn get_alpha_unqueried_nodes(&mut self) -> (v: Vec<NodeInfo>)
        ensures
            v@ == take_at_most(unqueried_infos(old(self)@), ALPHA as nat),
            final(self)@ == mark_queried_all(old(self)@, v@),
            final(self).spec_target() == old(self).spec_target(),
            final(self).spec_this_node() == old(self).spec_this_node(),
    {
        let mut candidates: Vec<NodeInfo> = Vec::new();
        let n: usize = self.nodes.len();
        for i in 0..n
            invariant
                n == self.nodes@.len(),
                self.nodes@ == old(self)@,
                candidates@ == take_at_most(unqueried_infos(self.nodes@.take(i as int)), ALPHA as nat),
        {
            let node = self.nodes[i];
            proof {
                assert(self.nodes@.take(i + 1).drop_last() =~= self.nodes@.take(i as int));
            }
            if !node.queried && candidates.len() < ALPHA {
                candidates.push(node.node_info);
            }
            proof {
                let prev = unqueried_infos(self.nodes@.take(i as int));
                let next = unqueried_infos(self.nodes@.take(i + 1));
                if !node.queried {
                    assert(next == prev.push(node.node_info));
                    if prev.len() < ALPHA {
                        assert(candidates@ =~= take_at_most(next, ALPHA as nat));
                    } else {
                        assert(take_at_most(next, ALPHA as nat) =~= take_at_most(prev, ALPHA as nat));
                    }
                }
            }
        }
        assert(self.nodes@.take(n as int) =~= self.nodes@);
        let m: usize = candidates.len();
        for c in 0..m
            invariant
                m == candidates@.len(),
                self.nodes@ == mark_queried_all(old(self)@, candidates@.take(c as int)),
                self.target == old(self).target,
                self.this_node == old(self).this_node,
        {
            self.mark_node_as_queried(candidates[c].id);
            proof {
                let cs = candidates@.take(c + 1);
                assert forall|i: int| 0 <= i < old(self)@.len() implies
                    contains_id(cs, #[trigger] old(self)@[i].node_info.id)
                        == (contains_id(candidates@.take(c as int), old(self)@[i].node_info.id)
                            || candidates@[c as int].id == old(self)@[i].node_info.id) by {
                    let id = old(self)@[i].node_info.id;
                    if contains_id(cs, id) {
                        let k = choose|k: int| 0 <= k < cs.len() && #[trigger] cs[k].id == id;
                        if k < c {
                            assert(candidates@.take(c as int)[k].id == id);
                        }
                    }
                    if contains_id(candidates@.take(c as int), id) {
                        let k = choose|k: int| 0 <= k < c && #[trigger] candidates@.take(c as int)[k].id == id;
                        assert(cs[k].id == id);
                    }
                    if candidates@[c as int].id == id {
                        assert(cs[c as int].id == id);
                    }
                }
                assert(self.nodes@ =~= mark_queried_all(old(self)@, cs));
            }
        }
        assert(candidates@.take(m as int) =~= candidates@);
        candidates
    }

    /// The candidates that were queried and answered, in buffer order.
    pub fn get_responsive_nodes(&self) -> (v: Vec<NodeInfo>)
        ensures
            v@ == responsive_infos(self@),
    {
        let mut v: Vec<NodeInfo> = Vec::new();
        let n: usize = self.nodes.len();
        for i in 0..n
            invariant
                n == self.nodes@.len(),
                v@ == responsive_infos(self.nodes@.take(i as int)),
        {
            let node = self.nodes[i];
            proof {
                assert(self.nodes@.take(i + 1).drop_last() =~= self.nodes@.take(i as int));
            }
            if node.queried && node.responded {
                v.push(node.node_info);
            }
        }
        assert(self.nodes@.take(n as int) =~= self.nodes@);
        v
    }


    /// Whether some candidate has contact `x`.
    fn contains_candidate(&self, x: &NodeInfo) -> (b: bool)
        ensures
            b == contains_info(self@, *x),
    {
        let n: usize = self.nodes.len();
        for i in 0..n
            invariant
                n == self.nodes@.len(),
                forall|j: int| 0 <= j < i ==> self.nodes@[j].node_info != *x,
        {
            if self.nodes[i].node_info == *x {
                return true;
            }
        }
        false
    }

    /// Records the answers of one lookup round. Failed answers (and, in a node
    /// lookup, value answers) mark their resolver as queried, the contacts of the
    /// other answers are merged in and their resolvers marked as answered; the
    /// buffer is then sorted. In a value lookup an answer reporting the value ends
    /// the recording (the buffer is sorted all the same) and gives `true`;
    /// otherwise the result is whether the lookup's result changed.
    pub fn record_lookup_round_responses(&mut self, responses: Vec<LookupResponse>, for_value: bool) -> (improved: bool)
        ensures
            final(self).spec_target() == old(self).spec_target(),
            final(self).spec_this_node() == old(self).spec_this_node(),
            final(self)@ == recorded(old(self)@, responses@, for_value, old(self).spec_this_node(), old(self).spec_target()),
            improved == record_improves(old(self)@, responses@, for_value, old(self).spec_this_node(), old(self).spec_target()),
            if for_value && exists|i: int| 0 <= i < responses@.len() && is_value_answer(#[trigger] responses@[i]) {
                let i = choose|i: int| first_value_answer_at(responses@, i);
                &&& improved
                &&& first_value_answer_at(responses@, i)
                &&& final(self)@ == sort_by_distance(
                    apply_responses(old(self)@, responses@.take(i), for_value, old(self).spec_this_node()),
                    old(self).spec_target(),
                )
            } else {
                &&& final(self)@ == sort_by_distance(
                    apply_responses(old(self)@, responses@, for_value, old(self).spec_this_node()),
                    old(self).spec_target(),
                )
                &&& improved == (resulting(old(self)@) != resulting(final(self)@))
            },
    {
        let previous = self.get_resulting_vector();
        let n: usize = responses.len();
        let ghost this_node = self.this_node;
        let mut idx: usize = 0;
        while idx < n
            invariant
                idx <= n,
                n == responses@.len(),
                self.target == old(self).target,
                self.this_node == this_node,
                this_node == old(self).this_node,
                previous@ == resulting(old(self)@),
                self@ == apply_responses(old(self)@, responses@.take(idx as int), for_value, this_node),
                for_value ==> forall|j: int| 0 <= j < idx ==> !is_value_answer(#[trigger] responses@[j]),
            decreases n - idx,
        {
            let response = &responses[idx];
            proof {
                assert(responses@.take(idx + 1).drop_last() =~= responses@.take(idx as int));
                assert(responses@.take(idx + 1).last() == *response);
            }
            let is_value = match response.success_type {
                Some(LookupSuccessType::Value) => true,
                _ => false,
            };
            if for_value && is_value {
                proof {
                    assert(first_value_answer_at(responses@, idx as int));
                    let i = choose|i: int| first_value_answer_at(responses@, i);
                    if i < idx {
                        assert(!is_value_answer(responses@[i]));
                    }
                    if i > idx {
                        assert(!is_value_answer(responses@[idx as int]));
                    }
                    assert(i == idx);
                }
                self.sort();
                return true;
            }
            if !response.success || (!for_value && is_value) {
                self.mark_node_as_queried(response.resolver.id);
            } else {
                let ghost before = self@;
                let m: usize = response.k_closest.len();
                for t in 0..m
                    invariant
                        m == response.k_closest@.len(),
                        self.target == old(self).target,
                        self.this_node == this_node,
                        self@ == merge_nodes(before, response.k_closest@.take(t as int), this_node),
                {
                    let node = response.k_closest[t];
                    proof {
                        assert(response.k_closest@.take(t + 1).drop_last() =~= response.k_closest@.take(t as int));
                        assert(response.k_closest@.take(t + 1).last() == node);
                    }
                    if !self.contains_candidate(&node) && self.this_node != node {
                        self.nodes.push(LookupNodeInfo::new(node));
                    }
                }
                proof {
                    assert(response.k_closest@.take(m as int) =~= response.k_closest@);
                }
                self.mark_node_as_responded(response.resolver.id);
            }
            idx += 1;
        }
        proof {
            assert(responses@.take(n as int) =~= responses@);
            if for_value {
                assert(!exists|i: int| 0 <= i < responses@.len() && is_value_answer(#[trigger] responses@[i]));
            }
        }
        self.sort();
        let current = self.get_resulting_vector();
        let same = vec_nodes_equal(&previous, &current);
        !same
    }

    /// Sorts the candidates stably by XOR distance to the target.
    fn sort(&mut self)
        ensures
            final(self)@ == sort_by_distance(old(self)@, old(self).spec_target()),
            final(self).spec_target() == old(self).spec_target(),
            final(self).spec_this_node() == old(self).spec_this_node(),
    {
        let mut sorted: Vec<LookupNodeInfo> = Vec::new();
        let n: usize = self.nodes.len();
        for i in 0..n
            invariant
                n == self.nodes@.len(),
                self.nodes@ == old(self)@,
                self.target == old(self).target,
                sorted@ == sort_by_distance(self.nodes@.take(i as int), self.target),
        {
            let x = self.nodes[i];
            let len: usize = sorted.len();
            let mut p: usize = 0;
            while p < len && !x.node_info.id.is_closer(&sorted[p].node_info.id, &self.target)
                invariant
                    p <= len,
                    len == sorted@.len(),
                    forall|j: int| 0 <= j < p ==> !closer(x.node_info.id, #[trigger] sorted@[j].node_info.id, self.target),
                decreases len - p,
            {
                p += 1;
            }
            proof {
                lemma_insert_sorted_at(sorted@, x, self.target, p as int);
                assert(self.nodes@.take(i + 1).drop_last() =~= self.nodes@.take(i as int));
                assert(self.nodes@.take(i + 1).last() == x);
            }
            sorted.insert(p, x);
        }
        assert(self.nodes@.take(n as int) =~= self.nodes@);
        self.nodes = sorted;
    }

    /// Marks every candidate with key `node_id` as queried.
    pub fn mark_node_as_queried(&mut self, node_id: Key)
        ensures
            final(self)@ == mark_queried(old(self)@, node_id),
            final(self).spec_target() == old(self).spec_target(),
            final(self).spec_this_node() == old(self).spec_this_node(),
    {
        let n: usize = self.nodes.len();
        for i in 0..n
            invariant
                n == self.nodes@.len(),
                self.target == old(self).target,
                self.this_node == old(self).this_node,
                self.nodes@.len() == old(self)@.len(),
                forall|j: int| 0 <= j < i ==> #[trigger] self.nodes@[j] == mark_queried(old(self)@, node_id)[j],
                forall|j: int| i <= j < n ==> #[trigger] self.nodes@[j] == old(self)@[j],
        {
            if self.nodes[i].node_info.id == node_id {
                let mut e = self.nodes[i];
                e.queried = true;
                self.nodes.set(i, e);
            }
        }
        assert(self.nodes@ =~= mark_queried(old(self)@, node_id));
    }

    /// Marks every candidate with key `node_id` as answered.
    pub fn mark_node_as_responded(&mut self, node_id: Key)
        ensures
            final(self)@ == mark_responded(old(self)@, node_id),
            final(self).spec_target() == old(self).spec_target(),
            final(self).spec_this_node() == old(self).spec_this_node(),
    {
        let n: usize = self.nodes.len();
        for i in 0..n
            invariant
                n == self.nodes@.len(),
                self.target == old(self).target,
                self.this_node == old(self).this_node,
                self.nodes@.len() == old(self)@.len(),
                forall|j: int| 0 <= j < i ==> #[trigger] self.nodes@[j] == mark_responded(old(self)@, node_id)[j],
                forall|j: int| i <= j < n ==> #[trigger] self.nodes@[j] == old(self)@[j],
        {
            if self.nodes[i].node_info.id == node_id {
                let mut e = self.nodes[i];
                e.responded = true;
                self.nodes.set(i, e);
            }
        }
        assert(self.nodes@ =~= mark_responded(old(self)@, node_id));
    }
}

} // verus!
