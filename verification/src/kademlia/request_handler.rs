//! How a node answers the requests it receives. The functions here decide; the
//! caller sends the responses, opens the listeners and moves the data.
use vstd::prelude::*;
use crate::clock::Timestamp;
use crate::constants::K;
use crate::kademlia::key::Key;
use crate::networking::messages::{Request, RequestType, Response, ResponseType};
use crate::networking::node_info::{remove_id, NodeAddress, NodeInfo};
use crate::routing::kbucket::AddStep;
use crate::routing::routing_table::{bucket_index, n_closest_result, num_buckets, RoutingTable, RoutingTableError};
use crate::storage::shard_storage_manager::ShardStorageManager;

verus! {

/// What the caller is to do about a received request.
#[derive(Debug, Clone)]
pub enum RequestAction {
    /// The request is addressed to another node: it is dropped.
    Ignore,
    /// Send this response to the sender.
    Respond(Response),
    /// No answer can be given (the routing table had no contact to offer).
    NoResponse,
    /// Open a TCP listener for the chunk, then finish with `handle_get_port_opened`.
    OpenPort { chunk_id: Key },
    /// Send the kept chunk over TCP to this address of the sender.
    SendChunk { chunk_id: Key, address: NodeAddress },
}

/// The response to `request` with the given type, from `this_node_info`.
pub open spec fn reply(this_node_info: NodeInfo, request: Request, t: ResponseType) -> Response {
    Response { response_type: t, sender: this_node_info, receiver: request.sender, request_id: request.request_id }
}

/// `a` answers `request` with the `K` contacts of `rt` closest to `target` (see
/// `get_k_closest`), or gives no answer when the table has none to offer.
pub open spec fn nodes_answer(a: RequestAction, this_node_info: NodeInfo, request: Request, rt: Seq<Seq<NodeInfo>>, target: Key) -> bool {
    match a {
        RequestAction::Respond(resp) => {
            &&& resp.sender == this_node_info
            &&& resp.receiver == request.sender
            &&& resp.request_id == request.request_id
            &&& match resp.response_type {
                ResponseType::Nodes { nodes } => n_closest_result(rt, this_node_info.id, target, K as nat,
                    Ok::<Vec<NodeInfo>, RoutingTableError>(nodes)),
                _ => false,
            }
        },
        RequestAction::NoResponse => n_closest_result(rt, this_node_info.id, target, K as nat,
            Err::<Vec<NodeInfo>, RoutingTableError>(RoutingTableError::Empty)),
        _ => false,
    }
}

/// The request is addressed to this node.
pub fn is_for_node(this_node_info: &NodeInfo, request: &Request) -> (b: bool)
    ensures
        b == (request.receiver.id == this_node_info.id),
{
    request.receiver.id == this_node_info.id
}

/// Stores the sender of a request in the routing table (see
/// `RoutingTable::store_nodeinfo`; a full bucket asks for a ping of its head).
pub fn record_possible_neighbour(routing_table: &mut RoutingTable, node: &NodeInfo) -> (r: Result<AddStep, RoutingTableError>)
    requires
        old(routing_table).wf(),
        node.id != old(routing_table).spec_id(),
    ensures
        final(routing_table).wf(),
        final(routing_table).spec_id() == old(routing_table).spec_id(),
        ({
            let b = bucket_index(old(routing_table).spec_id(), node.id);
            let rest = remove_id(old(routing_table)@[b], node.id);
            &&& final(routing_table)@.len() == old(routing_table)@.len()
            &&& forall|i: int| 0 <= i < num_buckets() && i != b ==> #[trigger] final(routing_table)@[i] == old(routing_table)@[i]
            &&& if rest.len() < K {
                &&& r == Ok::<AddStep, RoutingTableError>(AddStep::Added)
                &&& final(routing_table)@[b] == rest.push(*node)
            } else {
                &&& r == Ok::<AddStep, RoutingTableError>(AddStep::PingHead(rest[0]))
                &&& final(routing_table)@[b] == rest.drop_first()
            }
        }),
{
    routing_table.store_nodeinfo(*node)
}

/// The `K` closest contacts to `target` as an answer to `request`.
fn answer_with_nodes(this_node_info: &NodeInfo, request: &Request, target: &Key, routing_table: &RoutingTable) -> (a: RequestAction)
    requires
        routing_table.wf(),
        routing_table.spec_id() == this_node_info.id,
    ensures
        nodes_answer(a, *this_node_info, *request, routing_table@, *target),
{
    match routing_table.get_k_closest(target) {
        Ok(nodes) => {
            match ResponseType::new_nodes(nodes) {
                Ok(t) => RequestAction::Respond(Response::new(t, *this_node_info, request.sender, request.request_id)),
                Err(_) => RequestAction::NoResponse,
            }
        },
        Err(_) => RequestAction::NoResponse,
    }
}

/// Decides the answer to a received request. A request for another node is
/// ignored. `Ping` is answered `Pong`; `FindNode` with the `K` closest contacts;
/// `FindValue` with `HasValue` when the chunk is kept, else as `FindNode`;
/// `Store` with `StoreChunkUpdated` when the chunk is kept (its time is then
/// refreshed to `now`), else `StoreOK`; `GetPort` asks for a listener to be
/// opened; `GetValue` asks for the chunk to be sent to the given port of the
/// sender.
pub fn handle_received_request(
    this_node_info: &NodeInfo,
    request: &Request,
    routing_table: &RoutingTable,
    storage: &mut ShardStorageManager,
    now: Timestamp,
) -> (a: RequestAction)
    requires
        routing_table.wf(),
        routing_table.spec_id() == this_node_info.id,
        old(storage).wf(),
    ensures
        final(storage).wf(),
        final(storage).transfers() == old(storage).transfers(),
        final(storage).num_chunks() == old(storage).num_chunks(),
        request.receiver.id != this_node_info.id ==> a is Ignore && final(storage).chunks() == old(storage).chunks(),
        request.receiver.id == this_node_info.id ==> match request.request_type {
            RequestType::Ping => a == RequestAction::Respond(reply(*this_node_info, *request, ResponseType::Pong))
                && final(storage).chunks() == old(storage).chunks(),
            RequestType::FindNode { node_id } => nodes_answer(a, *this_node_info, *request, routing_table@, node_id)
                && final(storage).chunks() == old(storage).chunks(),
            RequestType::FindValue { chunk_id } => final(storage).chunks() == old(storage).chunks() && if old(storage).chunks().contains_key(chunk_id) {
                a == RequestAction::Respond(reply(*this_node_info, *request, ResponseType::HasValue { chunk_id }))
            } else {
                nodes_answer(a, *this_node_info, *request, routing_table@, chunk_id)
            },
            RequestType::Store { chunk_id } => if old(storage).chunks().contains_key(chunk_id) {
                &&& a == RequestAction::Respond(reply(*this_node_info, *request, ResponseType::StoreChunkUpdated))
                &&& final(storage).chunks() == old(storage).chunks().insert(chunk_id, now)
            } else {
                &&& a == RequestAction::Respond(reply(*this_node_info, *request, ResponseType::StoreOK))
                &&& final(storage).chunks() == old(storage).chunks()
            },
            RequestType::GetPort { chunk_id } => a == (RequestAction::OpenPort { chunk_id })
                && final(storage).chunks() == old(storage).chunks(),
            RequestType::GetValue { chunk_id, port } => a == (RequestAction::SendChunk {
                chunk_id,
                address: NodeAddress { ip: request.sender.address.ip, port },
            }) && final(storage).chunks() == old(storage).chunks(),
        },
{
    if !is_for_node(this_node_info, request) {
        return RequestAction::Ignore;
    }
    match request.request_type {
        RequestType::Ping => {
            RequestAction::Respond(Response::new(ResponseType::Pong, *this_node_info, request.sender, request.request_id))
        },
        RequestType::FindNode { node_id } => answer_with_nodes(this_node_info, request, &node_id, routing_table),
        RequestType::FindValue { chunk_id } => {
            if storage.is_chunk_already_stored(&chunk_id) {
                RequestAction::Respond(Response::new(
                    ResponseType::HasValue { chunk_id },
                    *this_node_info,
                    request.sender,
                    request.request_id,
                ))
            } else {
                answer_with_nodes(this_node_info, request, &chunk_id, routing_table)
            }
        },
        RequestType::Store { chunk_id } => {
            if storage.is_chunk_already_stored(&chunk_id) {
                let _ = storage.update_chunk_upload_time(&chunk_id, now);
                RequestAction::Respond(Response::new(
                    ResponseType::StoreChunkUpdated,
                    *this_node_info,
                    request.sender,
                    request.request_id,
                ))
            } else {
                RequestAction::Respond(Response::new(ResponseType::StoreOK, *this_node_info, request.sender, request.request_id))
            }
        },
        RequestType::GetPort { chunk_id } => RequestAction::OpenPort { chunk_id },
        RequestType::GetValue { chunk_id, port } => RequestAction::SendChunk {
            chunk_id,
            address: NodeAddress::new(request.sender.address.ip, port),
        },
    }
}

/// Finishes a `GetPort` request once a listener was opened on `port`: the
/// transfer of `chunk_id` from the sender is awaited on the port and `PortOK`
/// is the answer. When a transfer was already awaited on that port it is
/// replaced and no answer is given.
pub fn handle_get_port_opened(
    this_node_info: &NodeInfo,
    request: &Request,
    storage: &mut ShardStorageManager,
    chunk_id: Key,
    port: u16,
) -> (r: Option<Response>)
    requires
        old(storage).wf(),
    ensures
        final(storage).wf(),
        final(storage).transfers() == old(storage).transfers().insert(
            port,
            crate::storage::data_transfers_table::DataTransfer { sender: request.sender, chunk_hash: chunk_id },
        ),
        final(storage).chunks() == old(storage).chunks(),
        old(storage).transfers().contains_key(port) ==> r is None,
        !old(storage).transfers().contains_key(port) ==> r == Some(reply(*this_node_info, *request, ResponseType::PortOK { port })),
{
    match storage.add_active_tcp_connection(port, request.sender, chunk_id) {
        Some(_) => None,
        None => Some(Response::new(ResponseType::PortOK { port }, *this_node_info, request.sender, request.request_id)),
    }
}

} // verus!
