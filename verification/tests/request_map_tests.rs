use p2p::kademlia::key::Key;
use p2p::networking::messages::{Response, ResponseType};
use p2p::networking::node_info::{IpAddress, NodeAddress, NodeInfo};
use p2p::networking::request_map::RequestMap;
use tokio::sync::oneshot;

fn node(port: u16) -> NodeInfo {
    NodeInfo::new(Key::new_random(), NodeAddress::new(IpAddress::localhost_v4(), port))
}

fn fresh_id() -> u128 {
    uuid::Uuid::new_v4().as_u128()
}

#[test]
fn test_add_and_contains_request() {
    let mut request_map = RequestMap::new();
    let (tx, _rx) = oneshot::channel::<Response>();
    let request_id = fresh_id();
    request_map.add_request(request_id, tx);
    assert!(request_map.contains_request(&request_id));
}

#[test]
fn test_take_request() {
    let mut request_map = RequestMap::new();
    let (tx, mut rx) = oneshot::channel();
    let request_id = fresh_id();
    request_map.add_request(request_id, tx);
    let sender_opt = request_map.take_request(&request_id);
    assert!(sender_opt.is_some());
    assert!(!request_map.contains_request(&request_id));
    let response = Response::new(ResponseType::Pong, node(9001), node(9000), request_id);
    if let Some(sender) = sender_opt {
        let send_result = sender.send(response.clone());
        assert!(send_result.is_ok());
    }
    let received = rx.try_recv().expect("Expected to receive a response");
    assert_eq!(received, response);
}

#[test]
fn test_remove_request() {
    let mut request_map = RequestMap::new();
    let (tx, _rx) = oneshot::channel::<Response>();
    let request_id = fresh_id();
    request_map.add_request(request_id, tx);
    assert!(request_map.contains_request(&request_id));
    request_map.remove_request(&request_id);
    assert!(!request_map.contains_request(&request_id));
}

#[test]
fn test_handle_response_known() {
    let mut request_map = RequestMap::new();
    let (tx, mut rx) = oneshot::channel();
    let request_id = fresh_id();
    request_map.add_request(request_id, tx);
    let response = Response::new(ResponseType::Pong, node(8081), node(8080), request_id);
    if let Some(sender) = request_map.handle_response(response.request_id) {
        assert!(sender.send(response.clone()).is_ok());
    }
    let received = rx.try_recv().expect("Expected to receive a response");
    assert_eq!(received, response);
    assert!(!request_map.contains_request(&request_id));
}

#[test]
fn test_handle_response_unknown() {
    let mut request_map: RequestMap<oneshot::Sender<Response>> = RequestMap::new();
    let request_id = fresh_id();
    let response = Response::new(ResponseType::Pong, node(9003), node(9002), request_id);
    assert!(request_map.handle_response(response.request_id).is_none());
    assert!(!request_map.contains_request(&request_id));
}

#[test]
fn test_handle_response_sender_dropped() {
    let mut request_map = RequestMap::new();
    let (tx, rx) = oneshot::channel::<Response>();
    let request_id = fresh_id();
    request_map.add_request(request_id, tx);
    drop(rx);
    let response = Response::new(ResponseType::Pong, node(9005), node(9004), request_id);
    if let Some(sender) = request_map.handle_response(response.request_id) {
        assert!(sender.send(response).is_err());
    }
    assert!(!request_map.contains_request(&request_id));
}

#[test]
fn response_reaches_its_request_once() {
    let mut request_map: RequestMap<&str> = RequestMap::new();
    request_map.add_request(7, "first");
    request_map.add_request(8, "other");
    assert_eq!(request_map.handle_response(7), Some("first"));
    assert_eq!(request_map.handle_response(7), None);
    assert!(request_map.contains_request(&8));
}
