use p2p::constants::K;
use p2p::kademlia::key::Key;
use p2p::networking::messages::{
    MessageError, Request, RequestType, Response, ResponseType, MAX_MESSAGE_SIZE, MAX_NODEINFO_SERIALIZED_SIZE,
    OVERHEAD_SIZE,
};
use p2p::networking::node_info::{IpAddress, NodeAddress, NodeInfo};

fn dummy_node_info(port: u16) -> NodeInfo {
    NodeInfo::new(Key::new_random(), NodeAddress::new(IpAddress::localhost_v4(), port))
}

#[test]
fn test_request_new_and_display() {
    let sender = dummy_node_info(1000);
    let receiver = dummy_node_info(2000);
    let request = Request::new(RequestType::Ping, sender, receiver);
    let display_str = request.to_display_string();
    assert!(display_str.contains("Ping"));
    assert!(display_str.contains(&sender.id.to_hex_string()));
    assert!(display_str.contains(&receiver.id.to_hex_string()));
}

#[test]
fn test_new_nodes_builder() {
    let mut nodes = Vec::with_capacity(K);
    for i in 0..K {
        nodes.push(dummy_node_info(7000 + i as u16));
    }
    assert!(ResponseType::new_nodes(nodes).is_ok());
    let mut nodes_exceed = Vec::with_capacity(K + 1);
    for i in 0..(K + 1) {
        nodes_exceed.push(dummy_node_info(8000 + i as u16));
    }
    let result_err = ResponseType::new_nodes(nodes_exceed);
    assert_eq!(result_err, Err(MessageError::TooManyNodes { count: K + 1 }));
}

#[test]
fn test_display_request_type() {
    let key = Key::new_random();
    assert!(RequestType::Ping.to_display_string().contains("Ping"));
    assert!(RequestType::FindNode { node_id: key }.to_display_string().contains("FindNode"));
    assert!(RequestType::FindValue { chunk_id: key }.to_display_string().contains("FindValue"));
    assert!(RequestType::Store { chunk_id: key }.to_display_string().contains("Store("));
    assert!(RequestType::GetPort { chunk_id: key }.to_display_string().contains("GetPort("));
    assert!(RequestType::GetValue { chunk_id: key, port: 1234 }.to_display_string().contains("GetValue"));
}

#[test]
fn test_display_response_type() {
    let key = Key::new_random();
    assert!(ResponseType::Pong.to_display_string().contains("Pong"));
    let nodes = ResponseType::Nodes { nodes: vec![dummy_node_info(9000), dummy_node_info(9001)] };
    assert!(nodes.to_display_string().contains("Nodes("));
    assert!(ResponseType::StoreChunkUpdated.to_display_string().contains("StoreChunkUpdated"));
    assert!(ResponseType::StoreOK.to_display_string().contains("StoreOK"));
    assert!(ResponseType::PortOK { port: 4321 }.to_display_string().contains("PortOK"));
    assert!(ResponseType::HasValue { chunk_id: key }.to_display_string().contains("HasValue"));
}

#[test]
fn test_max_message_size() {
    let expected = OVERHEAD_SIZE + K * MAX_NODEINFO_SERIALIZED_SIZE;
    assert_eq!(MAX_MESSAGE_SIZE, expected);
    assert_eq!(MAX_NODEINFO_SERIALIZED_SIZE, K + 32);
}

#[test]
fn message_texts_are_exact() {
    let key = Key::from_bytes([0xab; K]);
    let hex = "ab".repeat(K);
    assert_eq!(
        RequestType::GetValue { chunk_id: key, port: 1234 }.to_display_string(),
        format!("GetValue({}, 1234)", hex)
    );
    let nodes = ResponseType::Nodes { nodes: vec![dummy_node_info(1); 12] };
    assert_eq!(nodes.to_display_string(), "Nodes(12)");
    assert_eq!(ResponseType::PortOK { port: 0 }.to_display_string(), "PortOK(0)");
    let a = NodeInfo::new(Key::from_bytes([1; K]), NodeAddress::new(IpAddress::localhost_v4(), 1));
    let b = NodeInfo::new(Key::from_bytes([2; K]), NodeAddress::new(IpAddress::localhost_v4(), 2));
    let resp = Response::new(ResponseType::Pong, a, b, 0xa1a2a3a4b1b2c1c2d1d2d3d4d5d6d7d8);
    assert_eq!(
        resp.to_display_string(),
        format!("Pong [a1a2a3a4-b1b2-c1c2-d1d2-d3d4d5d6d7d8] {} -> {}", "01".repeat(K), "02".repeat(K))
    );
}

#[test]
fn requests_get_fresh_ids() {
    let a = dummy_node_info(1);
    let b = dummy_node_info(2);
    let r1 = Request::new(RequestType::Ping, a, b);
    let r2 = Request::new(RequestType::Ping, a, b);
    assert_ne!(r1.request_id, r2.request_id);
    assert_eq!(r1.sender, a);
    assert_eq!(r1.receiver, b);
}
