//! Messages exchanged between nodes: requests, responses and their text form.
use vstd::prelude::*;
use vstd::arithmetic::power::pow;
use crate::constants::K;
use crate::kademlia::key::Key;
use crate::networking::node_info::NodeInfo;
use crate::text::{decimal, hex_encode, push_decimal};

verus! {

/// Serialized size of a socket address.
pub const SOCKET_ADDRESS_SIZE: usize = 32;

/// A contact is a key (`K` bytes) and a socket address.
pub const MAX_NODEINFO_SERIALIZED_SIZE: usize = K + SOCKET_ADDRESS_SIZE;

/// Room for the rest of a message.
pub const OVERHEAD_SIZE: usize = 128;

/// Largest serialized message: a response that carries `K` contacts.
pub const MAX_MESSAGE_SIZE: usize = OVERHEAD_SIZE + K * MAX_NODEINFO_SERIALIZED_SIZE;

/// Pairs a response with its request: the 128-bit value of a UUID.
pub type RequestId = u128;

/// What a request asks of its receiver.
#[derive(Debug, Clone, Copy, PartialEq, Eq)]
pub enum RequestType {
    /// Whether the receiver answers at all.
    Ping,
    /// The receiver's contacts closest to `node_id`.
    FindNode { node_id: Key },
    /// The chunk `chunk_id` if the receiver keeps it, else its closest contacts.
    FindValue { chunk_id: Key },
    /// Whether the receiver is ready to keep the chunk `chunk_id`.
    Store { chunk_id: Key },
    /// A port on which the receiver accepts the chunk `chunk_id` over TCP.
    GetPort { chunk_id: Key },
    /// Send the chunk `chunk_id` over TCP to `port` of the sender.
    GetValue { chunk_id: Key, port: u16 },
}

/// What a response answers.
#[derive(Debug, Clone, PartialEq, Eq)]
pub enum ResponseType {
    /// Answer to `Ping`.
    Pong,
    /// Answer to `FindNode` (and to `FindValue` without the chunk): at most `K` contacts.
    Nodes { nodes: Vec<NodeInfo> },
    /// Answer to `Store` when the chunk is already kept: its time was refreshed.
    StoreChunkUpdated,
    /// Answer to `Store` when the chunk is not kept yet.
    StoreOK,
    /// Answer to `GetPort`.
    PortOK { port: u16 },
    /// Answer to `FindValue` when the chunk is kept.
    HasValue { chunk_id: Key },
}

/// Why a message could not be built.
#[derive(Debug, Clone, Copy, PartialEq, Eq)]
pub enum MessageError {
    /// A `Nodes` response may carry at most `K` contacts.
    TooManyNodes { count: usize },
}

impl ResponseType {
    /// A `Nodes` response with the given contacts; refused for more than `K` of them.
    pub fn new_nodes(nodes: Vec<NodeInfo>) -> (r: Result<ResponseType, MessageError>)
        ensures
            nodes.len() <= K ==> (r matches Ok(ResponseType::Nodes { nodes: v }) && v@ == nodes@),
            nodes.len() > K ==> r == Err::<ResponseType, MessageError>(MessageError::TooManyNodes { count: nodes.len() }),
    {
        if nodes.len() > K {
            Err(MessageError::TooManyNodes { count: nodes.len() })
        } else {
            Ok(ResponseType::Nodes { nodes })
        }
    }
}

/// A request message.
#[derive(Debug, Clone)]
pub struct Request {
    pub request_type: RequestType,
    pub sender: NodeInfo,
    pub receiver: NodeInfo,
    pub request_id: RequestId,
}

/// Draws a fresh random (version 4) UUID with `uuid::Uuid::new_v4` and returns
/// its 128-bit value. Nothing is stated of the value: it is random.
#[verifier::external_body]
fn new_request_id() -> (id: RequestId) {
    uuid::Uuid::new_v4().as_u128()
}

impl Request {
    /// A request with a fresh random id.
    pub fn new(request_type: RequestType, sender: NodeInfo, receiver: NodeInfo) -> (r: Request)
        ensures
            r.request_type == request_type,
            r.sender == sender,
            r.receiver == receiver,
    {
        Request { request_type, sender, receiver, request_id: new_request_id() }
    }

    /// The request would go to its own sender (such a request is not sent).
    pub fn is_to_self(&self) -> (b: bool)
        ensures
            b == (self.receiver == self.sender),
    {
        self.receiver == self.sender
    }
}

/// A response message.
#[derive(Debug, Clone, PartialEq, Eq)]
pub struct Response {
    pub response_type: ResponseType,
    pub sender: NodeInfo,
    pub receiver: NodeInfo,
    pub request_id: RequestId,
}

impl Response {
    /// A response with the given parts.
    pub fn new(response_type: ResponseType, sender: NodeInfo, receiver: NodeInfo, request_id: RequestId) -> (r: Response)
        ensures
            r == (Response { response_type, sender, receiver, request_id }),
    {
        Response { response_type, sender, receiver, request_id }
    }
}

/// The 16 bytes of a 128-bit value, most significant first.
pub open spec fn be_bytes_u128(v: u128) -> Seq<u8> {
    Seq::new(16, |i: int| ((v as int / pow(256, (15 - i) as nat)) % 256) as u8)
}

/// Hex digits grouped 8-4-4-4-12 with hyphens.
pub open spec fn hyphenate(h: Seq<char>) -> Seq<char> {
    h.subrange(0, 8) + seq!['-'] + h.subrange(8, 12) + seq!['-'] + h.subrange(12, 16) + seq!['-']
        + h.subrange(16, 20) + seq!['-'] + h.subrange(20, 32)
}

/// The text of a UUID: the lowercase hexadecimal digits of its bytes, most
/// significant first, grouped 8-4-4-4-12 with hyphens.
pub open spec fn uuid_text(id: RequestId) -> Seq<char> {
    hyphenate(hex_encode(be_bytes_u128(id)))
}

/// Formats `uuid::Uuid::from_u128(id)` with `to_string`: by the uuid
/// documentation, the hyphenated lowercase form of the id's bytes, most
/// significant first.
#[verifier::external_body]
fn uuid_string(id: RequestId) -> (s: String)
    ensures
        s@ == uuid_text(id),
{
    uuid::Uuid::from_u128(id).to_string()
}

/// Text of a request type, e.g. `FindNode(<hex key>)`.
pub open spec fn request_type_text(t: RequestType) -> Seq<char> {
    match t {
        RequestType::Ping => "Ping"@,
        RequestType::FindNode { node_id } => "FindNode("@ + hex_encode(node_id@) + ")"@,
        RequestType::FindValue { chunk_id } => "FindValue("@ + hex_encode(chunk_id@) + ")"@,
        RequestType::Store { chunk_id } => "Store("@ + hex_encode(chunk_id@) + ")"@,
        RequestType::GetPort { chunk_id } => "GetPort("@ + hex_encode(chunk_id@) + ")"@,
        RequestType::GetValue { chunk_id, port } => "GetValue("@ + hex_encode(chunk_id@) + ", "@
            + decimal(port as nat) + ")"@,
    }
}

/// Text of a response type, e.g. `Nodes(<count>)`.
pub open spec fn response_type_text(t: ResponseType) -> Seq<char> {
    match t {
        ResponseType::Pong => "Pong"@,
        ResponseType::Nodes { nodes } => "Nodes("@ + decimal(nodes.len() as nat) + ")"@,
        ResponseType::StoreChunkUpdated => "StoreChunkUpdated"@,
        ResponseType::StoreOK => "StoreOK"@,
        ResponseType::PortOK { port } => "PortOK("@ + decimal(port as nat) + ")"@,
        ResponseType::HasValue { chunk_id } => "HasValue("@ + hex_encode(chunk_id@) + ")"@,
    }
}

/// Text of a message: `<type> [<id>] <sender key> -> <receiver key>`.
pub open spec fn message_text(type_text: Seq<char>, id: RequestId, sender: Key, receiver: Key) -> Seq<char> {
    type_text + " ["@ + uuid_text(id) + "] "@ + hex_encode(sender@) + " -> "@ + hex_encode(receiver@)
}

impl RequestType {
    /// The text of the request type.
    pub fn to_display_string(&self) -> (s: String)
        ensures
            s@ == request_type_text(*self),
    {
        match self {
            RequestType::Ping => "Ping".to_owned(),
            RequestType::FindNode { node_id } => key_in_parens("FindNode(", node_id),
            RequestType::FindValue { chunk_id } => key_in_parens("FindValue(", chunk_id),
            RequestType::Store { chunk_id } => key_in_parens("Store(", chunk_id),
            RequestType::GetPort { chunk_id } => key_in_parens("GetPort(", chunk_id),
            RequestType::GetValue { chunk_id, port } => {
                let mut s = "GetValue(".to_owned();
                s.push_str(&chunk_id.to_hex_string());
                s.push_str(", ");
                push_decimal(&mut s, *port as u64);
                s.push_str(")");
                s
            },
        }
    }
}

/// `prefix`, the key in hexadecimal, then `)`.
fn key_in_parens(prefix: &str, key: &Key) -> (s: String)
    ensures
        s@ == prefix@ + hex_encode(key@) + ")"@,
{
    let mut s = prefix.to_owned();
    s.push_str(&key.to_hex_string());
    s.push_str(")");
    s
}

impl ResponseType {
    /// The text of the response type.
    pub fn to_display_string(&self) -> (s: String)
        ensures
            s@ == response_type_text(*self),
    {
        match self {
            ResponseType::Pong => "Pong".to_owned(),
            ResponseType::Nodes { nodes } => {
                let mut s = "Nodes(".to_owned();
                push_decimal(&mut s, nodes.len() as u64);
                s.push_str(")");
                s
            },
            ResponseType::StoreChunkUpdated => "StoreChunkUpdated".to_owned(),
            ResponseType::StoreOK => "StoreOK".to_owned(),
            ResponseType::PortOK { port } => {
                let mut s = "PortOK(".to_owned();
                push_decimal(&mut s, *port as u64);
                s.push_str(")");
                s
            },
            ResponseType::HasValue { chunk_id } => key_in_parens("HasValue(", chunk_id),
        }
    }
}

/// `type_text [id] sender -> receiver`.
fn message_string(type_text: String, id: RequestId, sender: &Key, receiver: &Key) -> (s: String)
    ensures
        s@ == message_text(type_text@, id, *sender, *receiver),
{
    let mut s = type_text;
    s.push_str(" [");
    s.push_str(&uuid_string(id));
    s.push_str("] ");
    s.push_str(&sender.to_hex_string());
    s.push_str(" -> ");
    s.push_str(&receiver.to_hex_string());
    s
}

impl Request {
    /// The text of the request.
    pub fn to_display_string(&self) -> (s: String)
        ensures
            s@ == message_text(request_type_text(self.request_type), self.request_id, self.sender.id, self.receiver.id),
    {
        message_string(self.request_type.to_display_string(), self.request_id, &self.sender.id, &self.receiver.id)
    }
}

impl Response {
    /// The text of the response.
    pub fn to_display_string(&self) -> (s: String)
        ensures
            s@ == message_text(response_type_text(self.response_type), self.request_id, self.sender.id, self.receiver.id),
    {
        message_string(self.response_type.to_display_string(), self.request_id, &self.sender.id, &self.receiver.id)
    }
}

} // verus!
