//! The decisions a node makes while it talks to the network: how iterative
//! lookups proceed round by round, how replies are read, and which nodes keep
//! a chunk. The caller sends the requests and awaits the replies; each
//! function here takes what came back and says what to do next.
use vstd::prelude::*;
use vstd::multiset::Multiset;
use crate::constants::{ALPHA, K};
use crate::kademlia::key::{closer, Key};
use crate::kademlia::lookup::{
    is_value_answer, mark_queried_all, recorded, record_improves, resulting, responsive_infos, take_at_most,
    unqueried_infos, LookupBuffer, LookupNodeInfo, LookupResponse, LookupSuccessType,
};
use crate::networking::messages::{Request, RequestType, Response, ResponseType};
use crate::networking::node_info::{NodeAddress, NodeInfo};
use crate::routing::kbucket::AddStep;
use crate::routing::routing_table::{
    bucket_index, law_stored_contact_found, lookup_in_table, n_closest_result, num_buckets, RoutingTable, RoutingTableError,
};
use crate::networking::node_info::remove_id;

verus! {

broadcast use vstd::seq_lib::group_seq_properties, vstd::seq_lib::group_to_multiset_ensures;

/// Why a node-level operation failed.
#[derive(Debug, Clone, Copy, PartialEq, Eq)]
pub enum NodeError {
    /// The reply channel closed without a reply.
    BadResponse,
    /// No reply came in time.
    ResponseTimeout,
    /// The request could not be sent.
    UnableToSend,
    /// The node to ping is not in the routing table.
    PingMissingNode,
    /// The routing table failed.
    RoutingTableFailed(RoutingTableError),
    /// The routing table offered no node to start a lookup with.
    NoInitialResolvers,
    /// The beacon node sent no contact to join through.
    JoinFailed,
    /// No node stores the chunk.
    StorerNotFound,
    /// No node agreed to keep the chunk.
    NoResponsiveNodes,
    /// More than `ALPHA` nodes were asked for a port.
    TooManyNodes,
    /// No node offered a port for the chunk.
    NoPortsOffered,
    /// The chunk reached no node.
    ChunkNotSent,
}

/// The stage of an iterative lookup.
#[derive(Debug, Clone, Copy, PartialEq, Eq, Structural)]
pub enum LookupPhase {
    /// Rounds of at most `ALPHA` queries to the closest candidates not queried yet.
    Rounds,
    /// One last round to the closest `K` candidates not queried yet.
    LastRound,
    /// The lookup is over.
    Done,
}

/// What the caller of a lookup is to do next.
#[derive(Debug, Clone)]
pub enum LookupAction {
    /// Query these resolvers in parallel and hand their answers to `on_responses`.
    Query(Vec<NodeInfo>),
    /// The lookup is over.
    Finished,
}

/// The state of a lookup, as the contracts speak of it.
pub struct LookupModel {
    pub candidates: Seq<LookupNodeInfo>,
    pub phase: LookupPhase,
    pub last_found: Option<NodeInfo>,
    pub storer: Option<NodeInfo>,
}

/// The action as a value: the resolvers to query, or none when the lookup is over.
pub open spec fn action_view(a: LookupAction) -> Option<Seq<NodeInfo>> {
    match a {
        LookupAction::Query(v) => Some(v@),
        LookupAction::Finished => None,
    }
}

/// The resolver of the first answer in `rs` that reports the value.
pub open spec fn first_value_resolver(rs: Seq<LookupResponse>) -> Option<NodeInfo> {
    if exists|i: int| 0 <= i < rs.len() && is_value_answer(#[trigger] rs[i]) {
        Some(rs[choose|i: int| crate::kademlia::lookup::first_value_answer_at(rs, i)].resolver)
    } else {
        None
    }
}

/// After the rounds: a node lookup queries the closest `K` candidates not
/// queried yet once more; a value lookup (which found no storer in the rounds)
/// queries those candidates once more, or stops without a storer when there are
/// none.
pub open spec fn finish_rounds(m: LookupModel, for_value: bool) -> (LookupModel, Option<Seq<NodeInfo>>) {
    let rest = unqueried_infos(take_at_most(m.candidates, K as nat));
    if !for_value {
        (LookupModel { phase: LookupPhase::LastRound, ..m }, Some(rest))
    } else if rest.len() == 0 {
        (LookupModel { phase: LookupPhase::Done, storer: None, ..m }, None)
    } else {
        (LookupModel { phase: LookupPhase::LastRound, ..m }, Some(rest))
    }
}

/// The next round: the first `ALPHA` candidates not queried yet are marked as
/// queried and queried; when there are none the rounds are over.
pub open spec fn next_round(m: LookupModel, for_value: bool) -> (LookupModel, Option<Seq<NodeInfo>>) {
    let resolvers = take_at_most(unqueried_infos(m.candidates), ALPHA as nat);
    let m1 = LookupModel { candidates: mark_queried_all(m.candidates, resolvers), ..m };
    if resolvers.len() > 0 {
        (LookupModel { phase: LookupPhase::Rounds, ..m1 }, Some(resolvers))
    } else {
        finish_rounds(m1, for_value)
    }
}

/// A lookup of `target` by `this_node` that starts from the contacts of
/// `initial` (each once, without `this_node`).
pub open spec fn lookup_start(initial: Seq<NodeInfo>, this_node: NodeInfo, target: Key, for_value: bool) -> (LookupModel, Option<Seq<NodeInfo>>) {
    next_round(
        LookupModel {
            candidates: crate::kademlia::lookup::sort_by_distance(
                crate::kademlia::lookup::merge_nodes(Seq::empty(), initial, this_node),
                target,
            ),
            phase: LookupPhase::Rounds,
            last_found: None,
            storer: None,
        },
        for_value,
    )
}

/// The answers of a round move the lookup on. In the rounds they are recorded;
/// in a value lookup an answer reporting the value ends the lookup with its
/// resolver as the storer; otherwise progress (a changed result) leads to the
/// next round, else the rounds end. The answers of the last round are recorded by a node lookup,
/// and searched for the value by a value lookup; the lookup is then over.
pub open spec fn lookup_step(m: LookupModel, answers: Seq<LookupResponse>, for_value: bool, this_node: NodeInfo, target: Key) -> (LookupModel, Option<Seq<NodeInfo>>) {
    match m.phase {
        LookupPhase::Rounds => {
            let m1 = LookupModel {
                candidates: recorded(m.candidates, answers, for_value, this_node, target),
                last_found: first_value_resolver(answers),
                ..m
            };
            if for_value && m1.last_found is Some {
                (LookupModel { phase: LookupPhase::Done, storer: m1.last_found, ..m1 }, None)
            } else if record_improves(m.candidates, answers, for_value, this_node, target) {
                next_round(m1, for_value)
            } else {
                finish_rounds(m1, for_value)
            }
        },
        LookupPhase::LastRound => {
            if !for_value {
                (LookupModel {
                    candidates: recorded(m.candidates, answers, for_value, this_node, target),
                    phase: LookupPhase::Done,
                    ..m
                }, None)
            } else {
                (LookupModel { phase: LookupPhase::Done, storer: first_value_resolver(answers), ..m }, None)
            }
        },
        LookupPhase::Done => (m, None),
    }
}

/// The candidates of a lookup are sorted by distance to the target, hold no
/// contact twice, and do not hold the node doing the lookup.
pub open spec fn clean_candidates(s: Seq<LookupNodeInfo>, this_node: NodeInfo, target: Key) -> bool {
    &&& crate::kademlia::lookup::sorted_lookup(s, target)
    &&& crate::kademlia::lookup::unique_infos(s)
    &&& !crate::kademlia::lookup::contains_info(s, this_node)
}

/// Marking candidates as queried keeps them clean.
proof fn lemma_mark_queried_all_clean(s: Seq<LookupNodeInfo>, cs: Seq<NodeInfo>, this_node: NodeInfo, target: Key)
    requires
        clean_candidates(s, this_node, target),
    ensures
        clean_candidates(mark_queried_all(s, cs), this_node, target),
{
    let t = mark_queried_all(s, cs);
    assert forall|i: int| 0 <= i < t.len() implies #[trigger] t[i].node_info == s[i].node_info by {}
    assert forall|i: int, j: int| 0 <= i < j < t.len() implies crate::kademlia::lookup::not_farther(#[trigger] t[i], #[trigger] t[j], target) by {
        assert(crate::kademlia::lookup::not_farther(s[i], s[j], target));
    }
    assert forall|i: int, j: int| 0 <= i < t.len() && 0 <= j < t.len() && i != j
        implies #[trigger] t[i].node_info != #[trigger] t[j].node_info by {
        assert(s[i].node_info != s[j].node_info);
    }
    if crate::kademlia::lookup::contains_info(t, this_node) {
        let i = choose|i: int| 0 <= i < t.len() && #[trigger] t[i].node_info == this_node;
        assert(s[i].node_info == this_node);
    }
}

/// Every step of a lookup keeps its candidates clean: started from contacts
/// that are distinct and do not include the node doing the lookup, the
/// candidates stay sorted by distance to the target, duplicate-free and without
/// that node, whatever answers come back in whatever rounds.
pub proof fn law_lookup_keeps_candidates_clean(
    m: LookupModel,
    answers: Seq<LookupResponse>,
    for_value: bool,
    this_node: NodeInfo,
    target: Key,
)
    requires
        clean_candidates(m.candidates, this_node, target),
    ensures
        clean_candidates(lookup_step(m, answers, for_value, this_node, target).0.candidates, this_node, target),
{
    crate::kademlia::lookup::law_record_keeps_candidates_clean(m.candidates, answers, for_value, this_node, target);
    let r = recorded(m.candidates, answers, for_value, this_node, target);
    let resolvers = take_at_most(unqueried_infos(r), ALPHA as nat);
    lemma_mark_queried_all_clean(r, resolvers, this_node, target);
    let resolvers0 = take_at_most(unqueried_infos(m.candidates), ALPHA as nat);
    lemma_mark_queried_all_clean(m.candidates, resolvers0, this_node, target);
}

/// A lookup starts with clean candidates, whatever its initial contacts:
/// repeats and the node doing the lookup are dropped.
pub proof fn law_lookup_starts_clean(initial: Seq<NodeInfo>, this_node: NodeInfo, target: Key, for_value: bool)
    ensures
        clean_candidates(lookup_start(initial, this_node, target, for_value).0.candidates, this_node, target),
{
    let f = crate::kademlia::lookup::merge_nodes(Seq::empty(), initial, this_node);
    crate::kademlia::lookup::lemma_merge_nodes(Seq::empty(), initial, this_node);
    let s = crate::kademlia::lookup::sort_by_distance(f, target);
    crate::kademlia::lookup::lemma_sort_keeps_contacts(f, target);
    crate::kademlia::lookup::lemma_sort_by_distance_sorted(f, target);
    let resolvers = take_at_most(unqueried_infos(s), ALPHA as nat);
    lemma_mark_queried_all_clean(s, resolvers, this_node, target);
}

/// An iterative lookup of the nodes closest to a key (or of a node that stores
/// the value with that key), driven by the answers its caller collects.
pub struct NodeLookup {
    buffer: LookupBuffer,
    for_value: bool,
    phase: LookupPhase,
    last_found: Option<NodeInfo>,
    storer: Option<NodeInfo>,
}

impl NodeLookup {
    /// The state of the lookup.
    pub closed spec fn model(&self) -> LookupModel {
        LookupModel {
            candidates: self.buffer@,
            phase: self.phase,
            last_found: self.last_found,
            storer: self.storer,
        }
    }

    /// The key looked up.
    pub closed spec fn target(&self) -> Key {
        self.buffer.spec_target()
    }

    /// The node doing the lookup.
    pub closed spec fn this_node(&self) -> NodeInfo {
        self.buffer.spec_this_node()
    }

    /// Whether a value (rather than nodes) is looked up.
    pub closed spec fn for_value(&self) -> bool {
        self.for_value
    }

    /// Carries out `next_round`.
    fn advance(&mut self) -> (a: LookupAction)
        ensures
            final(self).target() == old(self).target(),
            final(self).this_node() == old(self).this_node(),
            final(self).for_value() == old(self).for_value(),
            (final(self).model(), action_view(a)) == next_round(old(self).model(), old(self).for_value()),
    {
        let resolvers = self.buffer.get_alpha_unqueried_nodes();
        if resolvers.len() > 0 {
            self.phase = LookupPhase::Rounds;
            LookupAction::Query(resolvers)
        } else {
            self.end_rounds()
        }
    }

    /// Carries out `finish_rounds`.
    fn end_rounds(&mut self) -> (a: LookupAction)
        ensures
            final(self).target() == old(self).target(),
            final(self).this_node() == old(self).this_node(),
            final(self).for_value() == old(self).for_value(),
            (final(self).model(), action_view(a)) == finish_rounds(old(self).model(), old(self).for_value()),
    {
        if !self.for_value {
            let rest = self.buffer.get_unqueried_resulting_nodes();
            self.phase = LookupPhase::LastRound;
            return LookupAction::Query(rest);
        }
        let rest = self.buffer.get_unqueried_resulting_nodes();
        if rest.len() == 0 {
            self.phase = LookupPhase::Done;
            self.storer = None;
            LookupAction::Finished
        } else {
            self.phase = LookupPhase::LastRound;
            LookupAction::Query(rest)
        }
    }

    /// Starts a lookup of `target` by `this_node` from the `initial` contacts and
    /// gives the first resolvers to query.
    pub fn start(target: Key, initial: Vec<NodeInfo>, this_node: NodeInfo, for_value: bool) -> (r: (NodeLookup, LookupAction))
        ensures
            r.0.target() == target,
            r.0.this_node() == this_node,
            r.0.for_value() == for_value,
            (r.0.model(), action_view(r.1)) == lookup_start(initial@, this_node, target, for_value),
    {
        let buffer = LookupBuffer::new(target, initial, this_node);
        let mut lookup = NodeLookup {
            buffer,
            for_value,
            phase: LookupPhase::Rounds,
            last_found: None,
            storer: None,
        };
        let a = lookup.advance();
        (lookup, a)
    }

    /// Hands the answers of the queried resolvers to the lookup and gives what
    /// to do next.
    pub fn on_responses(&mut self, answers: Vec<LookupResponse>) -> (a: LookupAction)
        ensures
            final(self).target() == old(self).target(),
            final(self).this_node() == old(self).this_node(),
            final(self).for_value() == old(self).for_value(),
            (final(self).model(), action_view(a)) == lookup_step(
                old(self).model(),
                answers@,
                old(self).for_value(),
                old(self).this_node(),
                old(self).target(),
            ),
    {
        match self.phase {
            LookupPhase::Rounds => {
                self.last_found = find_value_resolver(&answers);
                let improved = self.buffer.record_lookup_round_responses(answers, self.for_value);
                if self.for_value && self.last_found.is_some() {
                    self.phase = LookupPhase::Done;
                    self.storer = self.last_found;
                    LookupAction::Finished
                } else if improved {
                    self.advance()
                } else {
                    self.end_rounds()
                }
            },
            LookupPhase::LastRound => {
                if !self.for_value {
                    let _ = self.buffer.record_lookup_round_responses(answers, false);
                } else {
                    self.storer = find_value_resolver(&answers);
                }
                self.phase = LookupPhase::Done;
                LookupAction::Finished
            },
            LookupPhase::Done => LookupAction::Finished,
        }
    }

    /// Whether the lookup is over.
    pub fn is_finished(&self) -> (b: bool)
        ensures
            b == (self.model().phase == LookupPhase::Done),
    {
        self.phase == LookupPhase::Done
    }

    /// The node found to store the value, if any.
    pub fn get_storer(&self) -> (s: Option<NodeInfo>)
        ensures
            s == self.model().storer,
    {
        self.storer
    }

    /// The candidates that were queried and answered.
    pub fn get_responsive_nodes(&self) -> (v: Vec<NodeInfo>)
        ensures
            v@ == responsive_infos(self.model().candidates),
    {
        self.buffer.get_responsive_nodes()
    }

    /// The result of the lookup: at most `K` closest candidates that did not fail.
    pub fn get_resulting_vector(&self) -> (v: Vec<NodeInfo>)
        ensures
            v@ == resulting(self.model().candidates),
    {
        self.buffer.get_resulting_vector()
    }
}

/// The resolver of the first answer that reports the value.
fn find_value_resolver(answers: &Vec<LookupResponse>) -> (r: Option<NodeInfo>)
    ensures
        r == first_value_resolver(answers@),
{
    let n: usize = answers.len();
    for i in 0..n
        invariant
            n == answers@.len(),
            forall|j: int| 0 <= j < i ==> !is_value_answer(#[trigger] answers@[j]),
    {
        if answers[i].success_type == Some(LookupSuccessType::Value) {
            proof {
                assert(crate::kademlia::lookup::first_value_answer_at(answers@, i as int));
                let k = choose|k: int| crate::kademlia::lookup::first_value_answer_at(answers@, k);
                if k < i {
                    assert(!is_value_answer(answers@[k]));
                } else if k > i {
                    assert(!is_value_answer(answers@[i as int]));
                }
            }
            return Some(answers[i].resolver);
        }
    }
    None
}

/// The request of a lookup round to `resolver`: `FindValue` in a value lookup,
/// else `FindNode`.
pub fn lookup_request(this_node: &NodeInfo, target: Key, resolver: NodeInfo, for_value: bool) -> (r: Request)
    ensures
        r.request_type == (if for_value {
            RequestType::FindValue { chunk_id: target }
        } else {
            RequestType::FindNode { node_id: target }
        }),
        r.sender == *this_node,
        r.receiver == resolver,
{
    let request_type = if for_value {
        RequestType::FindValue { chunk_id: target }
    } else {
        RequestType::FindNode { node_id: target }
    };
    Request::new(request_type, *this_node, resolver)
}

/// Reads the reply of `resolver` in a lookup round: contacts are a success; the
/// value is a success in a value lookup and a failure otherwise; anything else,
/// or no reply, is a failure.
pub fn lookup_response_from_reply(resolver: NodeInfo, reply: Option<Response>, for_value: bool) -> (r: LookupResponse)
    ensures
        r.resolver == resolver,
        match reply {
            Some(resp) => match resp.response_type {
                ResponseType::Nodes { nodes } => r.success && r.success_type == Some(LookupSuccessType::Nodes)
                    && r.k_closest@ == nodes@,
                ResponseType::HasValue { .. } => if for_value {
                    r.success && r.success_type == Some(LookupSuccessType::Value) && r.k_closest@.len() == 0
                } else {
                    !r.success && r.success_type is None && r.k_closest@.len() == 0
                },
                _ => !r.success && r.success_type is None && r.k_closest@.len() == 0,
            },
            None => !r.success && r.success_type is None && r.k_closest@.len() == 0,
        },
{
    match reply {
        Some(resp) => match resp.response_type {
            ResponseType::Nodes { nodes } => LookupResponse::new_nodes_successful(resolver, nodes),
            ResponseType::HasValue { .. } => {
                if for_value {
                    LookupResponse::new_value_successful(resolver)
                } else {
                    LookupResponse::new_failed(resolver)
                }
            },
            _ => LookupResponse::new_failed(resolver),
        },
        None => LookupResponse::new_failed(resolver),
    }
}

/// The reply to a `Store` request says the node is ready for the chunk
/// (`StoreOK`); any other reply, or none, does not.
pub fn store_reply_accepted(reply: Option<Response>) -> (r: Option<Response>)
    ensures
        r == (match reply {
            Some(resp) => if resp.response_type == ResponseType::StoreOK { Some(resp) } else { None },
            None => None,
        }),
{
    match reply {
        Some(resp) => match resp.response_type {
            ResponseType::StoreOK => Some(resp),
            _ => None,
        },
        None => None,
    }
}

/// The reply to a `GetPort` request offers a port (`PortOK`); any other reply,
/// or none, does not.
pub fn port_reply_accepted(reply: Option<Response>) -> (r: Option<Response>)
    ensures
        r == (match reply {
            Some(resp) => if resp.response_type is PortOK { Some(resp) } else { None },
            None => None,
        }),
{
    match reply {
        Some(resp) => match resp.response_type {
            ResponseType::PortOK { .. } => Some(resp),
            _ => None,
        },
        None => None,
    }
}

/// The responses are ordered by the distance of their sender to `target`,
/// closest first (equal distances in any order).
pub open spec fn sorted_by_sender(s: Seq<Response>, target: Key) -> bool {
    forall|i: int, j: int| 0 <= i < j < s.len() ==> !closer(#[trigger] s[j].sender.id, #[trigger] s[i].sender.id, target)
}

/// Inserting `x` after the entries it is not closer than, and before those not
/// closer than it, keeps responses sorted by sender distance.
proof fn lemma_insert_sorted_response(before: Seq<Response>, x: Response, p: int, t: Key)
    requires
        sorted_by_sender(before, t),
        0 <= p <= before.len(),
        forall|j: int| 0 <= j < p ==> !closer(x.sender.id, #[trigger] before[j].sender.id, t),
        forall|j: int| p <= j < before.len() ==> !closer(#[trigger] before[j].sender.id, x.sender.id, t),
    ensures
        sorted_by_sender(before.insert(p, x), t),
{
    let out = before.insert(p, x);
    assert forall|i: int, j: int| 0 <= i < j < out.len() implies !closer(#[trigger] out[j].sender.id, #[trigger] out[i].sender.id, t) by {
        if j < p {
            assert(out[i] == before[i] && out[j] == before[j]);
        } else if j == p {
            assert(out[i] == before[i]);
        } else if i == p {
            assert(out[j] == before[j - 1]);
        } else if i < p {
            assert(out[i] == before[i] && out[j] == before[j - 1]);
        } else {
            assert(out[i] == before[i - 1] && out[j] == before[j - 1]);
        }
    }
}

/// Of the nodes ready to keep a chunk, the `ALPHA` whose keys are closest to
/// the chunk's key, closest first; refused when none is ready.
pub fn select_alpha_closest_responses(responses: Vec<Response>, chunk_id: &Key) -> (r: Result<Vec<Response>, NodeError>)
    ensures
        responses@.len() == 0 ==> r == Err::<Vec<Response>, NodeError>(NodeError::NoResponsiveNodes),
        responses@.len() > 0 ==> (r matches Ok(v) && exists|p: Seq<Response>| #[trigger] p.to_multiset()
            == responses@.to_multiset() && sorted_by_sender(p, *chunk_id) && v@ == take_at_most(p, ALPHA as nat)),
{
    if responses.len() == 0 {
        return Err(NodeError::NoResponsiveNodes);
    }
    let mut out: Vec<Response> = Vec::new();
    let mut rest = responses;
    let ghost input = rest@;
    while rest.len() > 0
        invariant
            out@.to_multiset().add(rest@.to_multiset()) == input.to_multiset(),
            sorted_by_sender(out@, *chunk_id),
        decreases rest@.len(),
    {
        let ghost rest_before = rest@;
        let ghost out_before = out@;
        let x = rest.remove(0);
        let n: usize = out.len();
        let mut p: usize = 0;
        while p < n && !x.sender.id.is_closer(&out[p].sender.id, chunk_id)
            invariant
                n == out@.len(),
                p <= n,
                forall|j: int| 0 <= j < p ==> !closer(x.sender.id, #[trigger] out@[j].sender.id, *chunk_id),
            decreases n - p,
        {
            p += 1;
        }
        let ghost before = out@;
        proof {
            assert forall|j: int| p <= j < n implies !closer(#[trigger] before[j].sender.id, x.sender.id, *chunk_id) by {
                if closer(before[j].sender.id, x.sender.id, *chunk_id) {
                    crate::kademlia::key::lemma_lex_lt_transitive(
                        crate::kademlia::key::key_distance(before[j].sender.id, *chunk_id),
                        crate::kademlia::key::key_distance(x.sender.id, *chunk_id),
                        crate::kademlia::key::key_distance(before[p as int].sender.id, *chunk_id),
                    );
                    if j > p {
                        assert(!closer(before[j].sender.id, before[p as int].sender.id, *chunk_id));
                    } else {
                        crate::kademlia::key::lemma_lex_lt_asymmetric(
                            crate::kademlia::key::key_distance(x.sender.id, *chunk_id),
                            crate::kademlia::key::key_distance(before[j].sender.id, *chunk_id),
                        );
                    }
                }
            }
        }
        out.insert(p, x);
        proof {
            assert(rest_before.to_multiset().count(x) > 0);
            assert(out@.to_multiset().add(rest@.to_multiset()) =~= out_before.to_multiset().add(rest_before.to_multiset()));
            lemma_insert_sorted_response(before, x, p as int, *chunk_id);
        }
    }
    let ghost sorted = out@;
    proof {
        assert(rest@.to_multiset() =~= Multiset::empty());
        assert(out@.to_multiset() =~= input.to_multiset());
    }
    if out.len() > ALPHA {
        out.truncate(ALPHA);
    }
    Ok(out)
}

/// The nodes to ask for a port: at least one, at most `ALPHA`.
pub fn check_port_request_targets(nodes: &Vec<Response>) -> (r: Result<(), NodeError>)
    ensures
        r == (if nodes@.len() == 0 {
            Err::<(), NodeError>(NodeError::NoResponsiveNodes)
        } else if nodes@.len() > ALPHA {
            Err(NodeError::TooManyNodes)
        } else {
            Ok(())
        }),
{
    if nodes.len() == 0 {
        Err(NodeError::NoResponsiveNodes)
    } else if nodes.len() > ALPHA {
        Err(NodeError::TooManyNodes)
    } else {
        Ok(())
    }
}

/// The replies that are present, in order.
pub open spec fn present<A>(s: Seq<Option<A>>) -> Seq<A>
    decreases s.len(),
{
    if s.len() == 0 {
        Seq::empty()
    } else {
        match s.last() {
            Some(x) => present(s.drop_last()).push(x),
            None => present(s.drop_last()),
        }
    }
}

/// The nodes that offered a port, in order; refused when none did.
pub fn collect_port_replies(replies: Vec<Option<Response>>) -> (r: Result<Vec<Response>, NodeError>)
    ensures
        present(replies@).len() == 0 ==> r == Err::<Vec<Response>, NodeError>(NodeError::NoPortsOffered),
        present(replies@).len() > 0 ==> (r matches Ok(v) && v@ == present(replies@)),
{
    let mut v: Vec<Response> = Vec::new();
    let mut rest = replies;
    let ghost all = rest@;
    let mut i: usize = 0;
    let total: usize = rest.len();
    while rest.len() > 0
        invariant
            total == all.len(),
            i + rest@.len() == all.len(),
            rest@ == all.skip(i as int),
            v@ == present(all.take(i as int)),
        decreases rest@.len(),
    {
        let x = rest.remove(0);
        assert(all.take(i + 1).drop_last() =~= all.take(i as int));
        assert(rest@ =~= all.skip(i + 1));
        match x {
            Some(resp) => v.push(resp),
            None => {},
        }
        i += 1;
    }
    assert(all.take(i as int) =~= all);
    if v.len() == 0 {
        Err(NodeError::NoPortsOffered)
    } else {
        Ok(v)
    }
}

/// A chunk upload succeeds when the chunk reached at least one node.
pub fn chunk_upload_outcome(sent: &Vec<bool>) -> (r: Result<(), NodeError>)
    ensures
        r == (if sent@.contains(true) { Ok::<(), NodeError>(()) } else { Err(NodeError::ChunkNotSent) }),
{
    let n: usize = sent.len();
    for i in 0..n
        invariant
            n == sent@.len(),
            forall|j: int| 0 <= j < i ==> !sent@[j],
    {
        if sent[i] {
            return Ok(());
        }
    }
    Err(NodeError::ChunkNotSent)
}

/// Where to send a chunk over TCP: the port offered in a `PortOK` reply, on the
/// IP address of the node that offered it; none for any other reply.
pub fn tcp_destination(response: &Response) -> (r: Option<NodeAddress>)
    ensures
        r == (match response.response_type {
            ResponseType::PortOK { port } => Some(NodeAddress { ip: response.sender.address.ip, port }),
            _ => None,
        }),
{
    match response.response_type {
        ResponseType::PortOK { port } => Some(NodeAddress::new(response.sender.address.ip, port)),
        _ => None,
    }
}

/// The keys split, in order, into batches of `ALPHA` (the last may be shorter).
pub fn chunk_key_batches(keys: &Vec<Key>) -> (r: Vec<Vec<Key>>)
    ensures
        r@.map_values(|b: Vec<Key>| b@).flatten() == keys@,
        forall|i: int| 0 <= i < r@.len() ==> 0 < (#[trigger] r@[i])@.len() <= ALPHA,
        forall|i: int| 0 <= i < r@.len() - 1 ==> (#[trigger] r@[i])@.len() == ALPHA,
{
    let mut r: Vec<Vec<Key>> = Vec::new();
    let n: usize = keys.len();
    let mut start: usize = 0;
    while start < n
        invariant
            n == keys@.len(),
            start <= n,
            r@.map_values(|b: Vec<Key>| b@).flatten() == keys@.take(start as int),
            forall|i: int| 0 <= i < r@.len() ==> 0 < (#[trigger] r@[i])@.len() <= ALPHA,
            forall|i: int| 0 <= i < r@.len() && (i < r@.len() - 1 || start < n) ==> (#[trigger] r@[i])@.len() == ALPHA,
        decreases n - start,
    {
        let end: usize = if n - start > ALPHA { start + ALPHA } else { n };
        let mut batch: Vec<Key> = Vec::new();
        let mut j: usize = start;
        while j < end
            invariant
                start <= j <= end <= n,
                n == keys@.len(),
                batch@ == keys@.subrange(start as int, j as int),
            decreases end - j,
        {
            batch.push(keys[j]);
            j += 1;
            assert(batch@ =~= keys@.subrange(start as int, j as int));
        }
        let ghost prev = r@.map_values(|b: Vec<Key>| b@);
        r.push(batch);
        proof {
            assert(r@.map_values(|b: Vec<Key>| b@) =~= prev.push(keys@.subrange(start as int, end as int)));
            prev.lemma_flatten_push(keys@.subrange(start as int, end as int));
            assert(keys@.take(start as int) + keys@.subrange(start as int, end as int) =~= keys@.take(end as int));
        }
        start = end;
    }
    assert(keys@.take(n as int) =~= keys@);
    r
}

/// `s` without the entries equal to `x`, in order.
pub open spec fn without<A>(s: Seq<A>, x: A) -> Seq<A>
    decreases s.len(),
{
    if s.len() == 0 {
        Seq::empty()
    } else if s.last() == x {
        without(s.drop_last(), x)
    } else {
        without(s.drop_last(), x).push(s.last())
    }
}

/// The contacts a joining node starts its lookup from: those the beacon sent,
/// without the joining node itself; refused when the beacon sent none.
pub fn join_initial_contacts(answer: &LookupResponse, this_node: &NodeInfo) -> (r: Result<Vec<NodeInfo>, NodeError>)
    ensures
        answer.k_closest@.len() == 0 ==> r == Err::<Vec<NodeInfo>, NodeError>(NodeError::JoinFailed),
        answer.k_closest@.len() > 0 ==> (r matches Ok(v) && v@ == without(answer.k_closest@, *this_node)),
{
    let k = answer.get_k_closest();
    if k.len() == 0 {
        return Err(NodeError::JoinFailed);
    }
    let mut v: Vec<NodeInfo> = Vec::new();
    let n: usize = k.len();
    for i in 0..n
        invariant
            n == k@.len(),
            v@ == without(k@.take(i as int), *this_node),
    {
        assert(k@.take(i + 1).drop_last() =~= k@.take(i as int));
        if k[i] != *this_node {
            v.push(k[i]);
        }
    }
    assert(k@.take(n as int) =~= k@);
    Ok(v)
}

/// The `Ping` request to the node with key `node_id`, addressed as the routing
/// table knows it; refused when the table does not know it.
pub fn ping_request(routing_table: &RoutingTable, this_node: &NodeInfo, node_id: &Key) -> (r: Result<Request, NodeError>)
    requires
        routing_table.wf(),
        routing_table.spec_id() == this_node.id,
        *node_id != this_node.id,
    ensures
        match lookup_in_table(routing_table@, this_node.id, *node_id) {
            Some(info) => r matches Ok(req) && req.request_type == RequestType::Ping && req.sender == *this_node
                && req.receiver == info,
            None => r == Err::<Request, NodeError>(NodeError::PingMissingNode),
        },
{
    match routing_table.get_nodeinfo(node_id) {
        Some(info) => Ok(Request::new(RequestType::Ping, *this_node, *info)),
        None => Err(NodeError::PingMissingNode),
    }
}

/// The resolvers a lookup of `target` starts from: the `ALPHA` contacts of the
/// routing table closest to it (see `get_alpha_closest`).
pub fn initial_resolvers(routing_table: &RoutingTable, target: &Key) -> (r: Result<Vec<NodeInfo>, NodeError>)
    requires
        routing_table.wf(),
    ensures
        match r {
            Ok(v) => v@.len() > 0 && n_closest_result(routing_table@, routing_table.spec_id(), *target, ALPHA as nat,
                Ok::<Vec<NodeInfo>, RoutingTableError>(v)),
            Err(e) => e == NodeError::RoutingTableFailed(RoutingTableError::Empty) && n_closest_result(
                routing_table@, routing_table.spec_id(), *target, ALPHA as nat,
                Err::<Vec<NodeInfo>, RoutingTableError>(RoutingTableError::Empty)),
        },
{
    match routing_table.get_alpha_closest(target) {
        Ok(v) => {
            if v.len() == 0 {
                proof {
                    let pool = routing_table@.flatten();
                    assert(pool.len() > 0);
                    assert(pool.contains(pool[0]));
                    assert(v@.contains(pool[0]));
                }
                return Err(NodeError::NoInitialResolvers);
            }
            Ok(v)
        },
        Err(e) => Err(NodeError::RoutingTableFailed(e)),
    }
}

/// What the caller is to do while the contacts that answered a lookup are
/// stored in the routing table.
#[derive(Debug, Clone, Copy)]
pub enum StoreStep {
    /// The contact was stored (its bucket had room).
    Stored(NodeInfo),
    /// The contact's bucket is full: ping `head` and finish with
    /// `RoutingTable::finish_store_nodeinfo(contact, head, outcome)`.
    PingHead { contact: NodeInfo, head: NodeInfo },
    /// The contact is this node itself, which the table never holds.
    Skipped(NodeInfo),
    /// Every contact was handed to the table.
    Done,
}

/// The contacts still to be stored in the routing table, in order.
pub struct ContactsToStore {
    contacts: Vec<NodeInfo>,
    next: usize,
}

impl ContactsToStore {
    /// The position of the next contact lies within the contacts.
    pub closed spec fn wf(&self) -> bool {
        self.next <= self.contacts@.len()
    }

    /// The contacts not handed to the table yet.
    pub closed spec fn remaining(&self) -> Seq<NodeInfo> {
        self.contacts@.skip(self.next as int)
    }

    /// Every contact of `contacts` is still to be stored.
    pub fn new(contacts: Vec<NodeInfo>) -> (c: ContactsToStore)
        ensures
            c.wf(),
            c.remaining() == contacts@,
    {
        let c = ContactsToStore { contacts, next: 0 };
        assert(c.contacts@.skip(0) =~= c.contacts@);
        c
    }

    /// Hands the next contact to the routing table (see
    /// `RoutingTable::store_nodeinfo`) and says what is left to do for it. A
    /// contact stored this way is then found in the table by its key.
    pub fn store_next(&mut self, routing_table: &mut RoutingTable) -> (s: StoreStep)
        requires
            old(self).wf(),
            old(routing_table).wf(),
        ensures
            final(self).wf(),
            final(routing_table).wf(),
            final(routing_table).spec_id() == old(routing_table).spec_id(),
            old(self).remaining().len() == 0 ==> s is Done && final(self).remaining() == old(self).remaining()
                && final(routing_table)@ == old(routing_table)@,
            old(self).remaining().len() > 0 ==> {
                let c = old(self).remaining()[0];
                let own = old(routing_table).spec_id();
                let b = bucket_index(own, c.id);
                let rest = remove_id(old(routing_table)@[b], c.id);
                &&& final(self).remaining() == old(self).remaining().drop_first()
                &&& if c.id == own {
                    s == StoreStep::Skipped(c) && final(routing_table)@ == old(routing_table)@
                } else {
                    &&& final(routing_table)@.len() == old(routing_table)@.len()
                    &&& forall|i: int| 0 <= i < num_buckets() && i != b ==> #[trigger] final(routing_table)@[i] == old(routing_table)@[i]
                    &&& if rest.len() < K {
                        &&& s == StoreStep::Stored(c)
                        &&& final(routing_table)@[b] == rest.push(c)
                        &&& lookup_in_table(final(routing_table)@, own, c.id) == Some(c)
                    } else {
                        &&& s == (StoreStep::PingHead { contact: c, head: rest[0] })
                        &&& final(routing_table)@[b] == rest.drop_first()
                    }
                }
            },
    {
        if self.next >= self.contacts.len() {
            return StoreStep::Done;
        }
        let c = self.contacts[self.next];
        proof {
            assert(old(self).remaining()[0] == c);
        }
        self.next = self.next + 1;
        proof {
            assert(self.remaining() =~= old(self).remaining().drop_first());
        }
        if c.id == routing_table.get_id() {
            return StoreStep::Skipped(c);
        }
        let ghost before = *routing_table;
        match routing_table.store_nodeinfo(c) {
            Ok(AddStep::Added) => {
                proof {
                    law_stored_contact_found(before, *routing_table, c);
                }
                StoreStep::Stored(c)
            },
            Ok(AddStep::PingHead(head)) => StoreStep::PingHead { contact: c, head },
            Err(_) => StoreStep::Done,
        }
    }
}

} // verus!
