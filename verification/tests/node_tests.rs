use p2p::clock::NANOS_PER_SECOND;
use p2p::constants::{ALPHA, K};
use p2p::kademlia::key::Key;
use p2p::kademlia::lookup::{LookupResponse, LookupSuccessType};
use p2p::kademlia::node::{
    check_port_request_targets, chunk_key_batches, chunk_upload_outcome, collect_port_replies, initial_resolvers,
    join_initial_contacts, lookup_request, lookup_response_from_reply, ping_request, port_reply_accepted,
    select_alpha_closest_responses, store_reply_accepted, tcp_destination, ContactsToStore, LookupAction, NodeError, NodeLookup,
    StoreStep,
};
use p2p::kademlia::request_handler::{handle_get_port_opened, handle_received_request, RequestAction};
use p2p::networking::messages::{Request, RequestType, Response, ResponseType};
use p2p::networking::node_info::{IpAddress, NodeAddress, NodeInfo};
use p2p::routing::routing_table::{RoutingTable, RoutingTableError};
use p2p::storage::shard_storage_manager::ShardStorageManager;

fn node(seed: &str, port: u16) -> NodeInfo {
    NodeInfo::new(Key::from_input(seed.as_bytes()), NodeAddress::new(IpAddress::localhost_v4(), port))
}

fn reply(t: ResponseType, from: NodeInfo, to: NodeInfo) -> Response {
    Response::new(t, from, to, 1)
}

#[test]
fn node_lookup_runs_rounds_until_no_progress() {
    let me = node("me", 1);
    let target = Key::from_input(b"target");
    let initial = vec![node("a", 2), node("b", 3)];
    let (mut lookup, action) = NodeLookup::start(target, initial.clone(), me, false);
    let first = match action {
        LookupAction::Query(v) => v,
        LookupAction::Finished => panic!("expected a query"),
    };
    assert_eq!(first.len(), 2);
    let c = node("c", 4);
    let answers: Vec<LookupResponse> = first
        .iter()
        .map(|r| LookupResponse::new_nodes_successful(*r, vec![c, me]))
        .collect();
    let action = lookup.on_responses(answers);
    let second = match action {
        LookupAction::Query(v) => v,
        LookupAction::Finished => panic!("expected a query"),
    };
    assert_eq!(second, vec![c]);
    let action = lookup.on_responses(vec![LookupResponse::new_failed(c)]);
    match action {
        LookupAction::Query(v) => assert!(v.is_empty()),
        LookupAction::Finished => panic!("expected the last round"),
    }
    assert!(matches!(lookup.on_responses(Vec::new()), LookupAction::Finished));
    assert!(lookup.is_finished());
    let result = lookup.get_resulting_vector();
    assert_eq!(result.len(), 2);
    assert!(!result.contains(&me));
    assert!(!result.contains(&c));
    assert_eq!(lookup.get_responsive_nodes().len(), 2);
}

#[test]
fn value_lookup_finds_storer() {
    let me = node("me", 1);
    let target = Key::from_input(b"chunk");
    let a = node("a", 2);
    let (mut lookup, action) = NodeLookup::start(target, vec![a], me, true);
    assert!(matches!(action, LookupAction::Query(ref v) if v == &vec![a]));
    let action = lookup.on_responses(vec![LookupResponse::new_value_successful(a)]);
    assert!(matches!(action, LookupAction::Finished));
    assert_eq!(lookup.get_storer(), Some(a));
}

#[test]
fn value_lookup_keeps_storer_while_other_nodes_remain() {
    let me = node("me", 1);
    let target = Key::from_input(b"chunk");
    let (a, b, c, d) = (node("a", 2), node("b", 3), node("c", 4), node("d", 5));
    let (mut lookup, action) = NodeLookup::start(target, vec![a, b, c, d], me, true);
    let first = match action {
        LookupAction::Query(v) => v,
        LookupAction::Finished => panic!("expected a query"),
    };
    assert_eq!(first.len(), ALPHA);
    let storer = first[1];
    let answers: Vec<LookupResponse> = first
        .iter()
        .map(|r| if *r == storer { LookupResponse::new_value_successful(*r) } else { LookupResponse::new_failed(*r) })
        .collect();
    assert!(matches!(lookup.on_responses(answers), LookupAction::Finished));
    assert!(lookup.is_finished());
    assert_eq!(lookup.get_storer(), Some(storer));
}

#[test]
fn value_lookup_without_storer_ends_empty() {
    let me = node("me", 1);
    let target = Key::from_input(b"chunk");
    let a = node("a", 2);
    let (mut lookup, _) = NodeLookup::start(target, vec![a], me, true);
    let action = lookup.on_responses(vec![LookupResponse::new_failed(a)]);
    assert!(matches!(action, LookupAction::Finished));
    assert_eq!(lookup.get_storer(), None);
}

#[test]
fn reading_lookup_replies() {
    let me = node("me", 1);
    let r = node("r", 2);
    let k = Key::from_input(b"k");
    let q = lookup_request(&me, k, r, true);
    assert_eq!(q.request_type, RequestType::FindValue { chunk_id: k });
    assert_eq!(lookup_request(&me, k, r, false).request_type, RequestType::FindNode { node_id: k });
    let nodes = vec![node("x", 3)];
    let ok = lookup_response_from_reply(r, Some(reply(ResponseType::Nodes { nodes: nodes.clone() }, r, me)), false);
    assert!(ok.success && ok.success_type == Some(LookupSuccessType::Nodes) && ok.k_closest == nodes);
    let val = lookup_response_from_reply(r, Some(reply(ResponseType::HasValue { chunk_id: k }, r, me)), true);
    assert_eq!(val.success_type, Some(LookupSuccessType::Value));
    let not_val = lookup_response_from_reply(r, Some(reply(ResponseType::HasValue { chunk_id: k }, r, me)), false);
    assert!(!not_val.success);
    assert!(!lookup_response_from_reply(r, None, true).success);
    assert!(!lookup_response_from_reply(r, Some(reply(ResponseType::Pong, r, me)), true).success);
}

#[test]
fn upload_reply_checks() {
    let me = node("me", 1);
    let r = node("r", 2);
    assert!(store_reply_accepted(Some(reply(ResponseType::StoreOK, r, me))).is_some());
    assert!(store_reply_accepted(Some(reply(ResponseType::StoreChunkUpdated, r, me))).is_none());
    assert!(store_reply_accepted(None).is_none());
    let port = reply(ResponseType::PortOK { port: 5555 }, r, me);
    assert!(port_reply_accepted(Some(port.clone())).is_some());
    assert!(port_reply_accepted(Some(reply(ResponseType::StoreOK, r, me))).is_none());
    assert_eq!(tcp_destination(&port), Some(NodeAddress::new(IpAddress::localhost_v4(), 5555)));
    assert_eq!(tcp_destination(&reply(ResponseType::Pong, r, me)), None);
    assert_eq!(chunk_upload_outcome(&vec![false, true]), Ok(()));
    assert_eq!(chunk_upload_outcome(&vec![false, false]), Err(NodeError::ChunkNotSent));
    assert_eq!(check_port_request_targets(&vec![]), Err(NodeError::NoResponsiveNodes));
    assert_eq!(check_port_request_targets(&vec![port.clone(); ALPHA + 1]), Err(NodeError::TooManyNodes));
    assert_eq!(check_port_request_targets(&vec![port.clone(); ALPHA]), Ok(()));
    assert_eq!(collect_port_replies(vec![None, None]), Err(NodeError::NoPortsOffered));
    assert_eq!(collect_port_replies(vec![None, Some(port.clone())]), Ok(vec![port]));
}

#[test]
fn selecting_closest_storers() {
    let me = node("me", 1);
    let chunk = Key::from_bytes([0u8; K]);
    let mut responses = Vec::new();
    for i in 0..5u8 {
        let mut b = [0u8; K];
        b[0] = 5 - i;
        let s = NodeInfo::new(Key::from_bytes(b), NodeAddress::new(IpAddress::localhost_v4(), i as u16));
        responses.push(reply(ResponseType::StoreOK, s, me));
    }
    let chosen = select_alpha_closest_responses(responses, &chunk).unwrap();
    let firsts: Vec<u8> = chosen.iter().map(|r| r.sender.id.to_bytes()[0]).collect();
    assert_eq!(firsts, vec![1, 2, 3]);
    assert_eq!(select_alpha_closest_responses(vec![], &chunk), Err(NodeError::NoResponsiveNodes));
}

#[test]
fn batches_and_join_contacts() {
    let keys: Vec<Key> = (0..7u8).map(|i| Key::from_bytes([i; K])).collect();
    let batches = chunk_key_batches(&keys);
    assert_eq!(batches.iter().map(|b| b.len()).collect::<Vec<_>>(), vec![3, 3, 1]);
    assert_eq!(batches.concat(), keys);
    let me = node("me", 1);
    let b = node("beacon", 2);
    let answer = LookupResponse::new_nodes_successful(b, vec![me, b]);
    assert_eq!(join_initial_contacts(&answer, &me), Ok(vec![b]));
    assert_eq!(join_initial_contacts(&LookupResponse::new_failed(b), &me), Err(NodeError::JoinFailed));
}

#[test]
fn ping_and_initial_resolvers_from_table() {
    let me = node("me", 1);
    let mut rt = RoutingTable::new(me.id);
    let other = node("other", 2);
    assert_eq!(ping_request(&rt, &me, &other.id).map(|r| r.receiver), Err(NodeError::PingMissingNode));
    assert_eq!(
        initial_resolvers(&rt, &other.id),
        Err(NodeError::RoutingTableFailed(RoutingTableError::Empty))
    );
    rt.store_nodeinfo(other).unwrap();
    let ping = ping_request(&rt, &me, &other.id).unwrap();
    assert_eq!(ping.request_type, RequestType::Ping);
    assert_eq!(ping.receiver, other);
    assert_eq!(initial_resolvers(&rt, &Key::from_input(b"t")), Ok(vec![other]));
}

#[test]
fn request_handling_answers() {
    let me = node("me", 1);
    let peer = node("peer", 2);
    let mut rt = RoutingTable::new(me.id);
    rt.store_nodeinfo(peer).unwrap();
    let mut storage = ShardStorageManager::new(String::new());
    let now = 100 * NANOS_PER_SECOND;
    let chunk = Key::from_input(b"chunk");

    let ping = Request::new(RequestType::Ping, peer, me);
    match handle_received_request(&me, &ping, &rt, &mut storage, now) {
        RequestAction::Respond(r) => {
            assert_eq!(r.response_type, ResponseType::Pong);
            assert_eq!(r.receiver, peer);
            assert_eq!(r.sender, me);
            assert_eq!(r.request_id, ping.request_id);
        }
        _ => panic!("expected Pong"),
    }
    let wrong = Request::new(RequestType::Ping, peer, peer);
    assert!(matches!(handle_received_request(&me, &wrong, &rt, &mut storage, now), RequestAction::Ignore));

    let find = Request::new(RequestType::FindNode { node_id: chunk }, peer, me);
    match handle_received_request(&me, &find, &rt, &mut storage, now) {
        RequestAction::Respond(r) => assert_eq!(r.response_type, ResponseType::Nodes { nodes: vec![peer] }),
        _ => panic!("expected Nodes"),
    }
    let store = Request::new(RequestType::Store { chunk_id: chunk }, peer, me);
    match handle_received_request(&me, &store, &rt, &mut storage, now) {
        RequestAction::Respond(r) => assert_eq!(r.response_type, ResponseType::StoreOK),
        _ => panic!("expected StoreOK"),
    }
    let get_port = Request::new(RequestType::GetPort { chunk_id: chunk }, peer, me);
    assert!(matches!(handle_received_request(&me, &get_port, &rt, &mut storage, now), RequestAction::OpenPort { chunk_id } if chunk_id == chunk));
    let answer = handle_get_port_opened(&me, &get_port, &mut storage, chunk, 4000).unwrap();
    assert_eq!(answer.response_type, ResponseType::PortOK { port: 4000 });
    assert!(handle_get_port_opened(&me, &get_port, &mut storage, chunk, 4000).is_none());

    storage.record_owned_chunk(chunk, 10, now);
    match handle_received_request(&me, &store, &rt, &mut storage, now + NANOS_PER_SECOND) {
        RequestAction::Respond(r) => assert_eq!(r.response_type, ResponseType::StoreChunkUpdated),
        _ => panic!("expected StoreChunkUpdated"),
    }
    let find_value = Request::new(RequestType::FindValue { chunk_id: chunk }, peer, me);
    match handle_received_request(&me, &find_value, &rt, &mut storage, now) {
        RequestAction::Respond(r) => assert_eq!(r.response_type, ResponseType::HasValue { chunk_id: chunk }),
        _ => panic!("expected HasValue"),
    }
    let get_value = Request::new(RequestType::GetValue { chunk_id: chunk, port: 777 }, peer, me);
    assert!(matches!(
        handle_received_request(&me, &get_value, &rt, &mut storage, now),
        RequestAction::SendChunk { chunk_id, address } if chunk_id == chunk && address == NodeAddress::new(peer.address.ip, 777)
    ));
}

#[test]
fn unix_paths() {
    assert_eq!(p2p::utils::testing::to_unix_path("a\\b\\c.txt".to_string()), "a/b/c.txt");
    assert_eq!(p2p::utils::testing::to_unix_path("plain/x".to_string()), "plain/x");
}

#[test]
fn repeated_join_contact_is_returned_once() {
    let me = node("me", 1);
    let x = node("x", 2);
    let (mut lookup, action) = NodeLookup::start(me.id, vec![x, x], me, false);
    assert!(matches!(action, LookupAction::Query(ref v) if v == &vec![x]));
    let action = lookup.on_responses(vec![LookupResponse::new_nodes_successful(x, vec![])]);
    if let LookupAction::Query(v) = action {
        let answers = v.iter().map(|r| LookupResponse::new_nodes_successful(*r, vec![])).collect();
        lookup.on_responses(answers);
    }
    assert_eq!(lookup.get_resulting_vector(), vec![x]);
}

#[test]
fn answering_contacts_are_stored_one_by_one() {
    let me = node("me", 1);
    let mut rt = RoutingTable::new(me.id);
    let (a, b) = (node("a", 2), node("b", 3));
    let mut pending = ContactsToStore::new(vec![a, me, b]);
    assert!(matches!(pending.store_next(&mut rt), StoreStep::Stored(x) if x == a));
    assert!(matches!(pending.store_next(&mut rt), StoreStep::Skipped(x) if x == me));
    assert!(matches!(pending.store_next(&mut rt), StoreStep::Stored(x) if x == b));
    assert!(matches!(pending.store_next(&mut rt), StoreStep::Done));
    assert_eq!(rt.get_nodeinfo(&a.id), Some(&a));
    assert_eq!(rt.get_nodeinfo(&b.id), Some(&b));
}

#[test]
fn find_node_for_own_key_is_answered() {
    let me = node("me", 1);
    let peer = node("peer", 2);
    let mut rt = RoutingTable::new(me.id);
    assert!(rt.store_nodeinfo(peer).is_ok());
    let mut storage = ShardStorageManager::new("store/".to_string());
    let request = Request::new(RequestType::FindNode { node_id: me.id }, peer, me);
    match handle_received_request(&me, &request, &rt, &mut storage, 0) {
        RequestAction::Respond(r) => assert!(matches!(r.response_type, ResponseType::Nodes { nodes } if nodes == vec![peer])),
        _ => panic!("expected an answer with contacts"),
    }
}
