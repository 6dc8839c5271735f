use p2p::constants::ALPHA;
use p2p::kademlia::key::Key;
use p2p::kademlia::lookup::{LookupBuffer, LookupNodeInfo, LookupResponse};
use p2p::networking::node_info::{IpAddress, NodeAddress, NodeInfo};

fn make_node_info(id_seed: &str, port: u16) -> NodeInfo {
    let key = Key::from_input(id_seed.as_bytes());
    NodeInfo::new(key, NodeAddress::new(IpAddress::localhost_v4(), port))
}

fn get_this_node_mock() -> NodeInfo {
    make_node_info("this_node", 0)
}

#[test]
fn test_lookup_node_info_equality() {
    let node_a = make_node_info("same", 8000);
    let node_b = make_node_info("same", 8000);
    let lookup_a = LookupNodeInfo::new(node_a);
    let lookup_b = LookupNodeInfo::new(node_b);
    assert!(lookup_a == lookup_b);
    let node_c = make_node_info("diff", 8001);
    let lookup_c = LookupNodeInfo::new(node_c);
    assert!(lookup_a != lookup_c);
}

#[test]
fn test_lookup_response_successful() {
    let resolver = make_node_info("resolver", 7000);
    let neighbors = vec![make_node_info("n1", 7001), make_node_info("n2", 7002)];
    let resp = LookupResponse::new_nodes_successful(resolver, neighbors.clone());
    assert!(resp.success);
    assert_eq!(resp.get_resolver(), resolver);
    assert_eq!(resp.get_k_closest(), neighbors);
}

#[test]
fn test_lookup_response_failure() {
    let resolver = make_node_info("fail", 7003);
    let resp = LookupResponse::new_failed(resolver);
    assert!(!resp.success);
    assert_eq!(resp.get_resolver(), resolver);
    assert!(resp.get_k_closest().is_empty());
}

#[test]
fn test_lookup_buffer_creation_and_sorting() {
    let target = Key::from_input(b"target");
    let initial_nodes = vec![
        make_node_info("node_a", 8001),
        make_node_info("node_b", 8002),
        make_node_info("node_c", 8003),
    ];
    let buffer = LookupBuffer::new(target, initial_nodes, get_this_node_mock());
    assert_eq!(buffer.get_nodes().len(), 3);
    let nodes = buffer.get_nodes();
    for w in nodes.windows(2) {
        assert!(!w[1].node_info.id.is_closer(&w[0].node_info.id, &target));
    }
}

#[test]
fn test_lookup_buffer_get_resulting_vector() {
    let target = Key::from_input(b"resvec");
    let mut buffer = LookupBuffer::new(
        target,
        vec![
            make_node_info("x", 8004),
            make_node_info("y", 8005),
            make_node_info("z", 8006),
            make_node_info("w", 8007),
        ],
        get_this_node_mock(),
    );
    let failing_key = buffer.get_nodes()[2].node_info.id;
    buffer.mark_node_as_queried(failing_key);
    let result = buffer.get_resulting_vector();
    assert_eq!(result.len(), 3);
    assert!(!result.iter().any(|n| n.id == failing_key));
}

#[test]
fn test_record_lookup_round_responses() {
    let target = Key::from_input(b"lookup_record");
    let mut buffer = LookupBuffer::new(
        target,
        vec![make_node_info("r1", 9001), make_node_info("r2", 9002)],
        get_this_node_mock(),
    );
    let old_vec = buffer.get_resulting_vector();
    let resp_success = LookupResponse::new_nodes_successful(
        make_node_info("r1", 9001),
        vec![make_node_info("new_1", 9003), make_node_info("new_2", 9004)],
    );
    let resp_fail = LookupResponse::new_failed(make_node_info("r2", 9002));
    let changed = buffer.record_lookup_round_responses(vec![resp_success, resp_fail], false);
    assert!(changed);
    let new_vec = buffer.get_resulting_vector();
    assert_ne!(old_vec, new_vec);
    assert!(buffer.get_nodes().iter().any(|lni| lni.node_info.id == Key::from_input(b"new_1")));
    assert!(buffer.get_nodes().iter().any(|lni| lni.node_info.id == Key::from_input(b"new_2")));
}

#[test]
fn test_get_alpha_unqueried_nodes() {
    let target = Key::from_input(b"alpha");
    let mut buffer = LookupBuffer::new(
        target,
        vec![
            make_node_info("alpha_1", 8081),
            make_node_info("alpha_2", 8082),
            make_node_info("alpha_3", 8083),
            make_node_info("alpha_4", 8084),
        ],
        get_this_node_mock(),
    );
    let alpha_nodes = buffer.get_alpha_unqueried_nodes();
    assert_eq!(alpha_nodes.len(), ALPHA);
    for node in alpha_nodes {
        let found = buffer.get_nodes().iter().find(|n| n.node_info.id == node.id).unwrap();
        assert!(found.queried);
    }
}

#[test]
fn test_get_unqueried_resulting_nodes() {
    let target = Key::from_input(b"unqueried");
    let mut buffer = LookupBuffer::new(
        target,
        vec![
            make_node_info("u1", 8101),
            make_node_info("u2", 8102),
            make_node_info("u3", 8103),
            make_node_info("u4", 8104),
        ],
        get_this_node_mock(),
    );
    let first = buffer.get_nodes()[0].node_info.id;
    let second = buffer.get_nodes()[1].node_info.id;
    buffer.mark_node_as_queried(first);
    buffer.mark_node_as_queried(second);
    let unqueried = buffer.get_unqueried_resulting_nodes();
    assert_eq!(unqueried.len(), 2);
}

#[test]
fn test_cant_add_this_node_to_nodes() {
    let target = Key::from_input(b"this_node");
    let this_node = get_this_node_mock();
    let resolver = make_node_info("resolver", 7000);
    let mut buffer = LookupBuffer::new(target, vec![resolver], this_node);
    let lr = LookupResponse::new_nodes_successful(resolver, vec![this_node]);
    buffer.record_lookup_round_responses(vec![lr], false);
    let resulting_nodes = buffer.get_resulting_vector();
    assert!(!resulting_nodes.contains(&this_node));
}

#[test]
fn lookup_value_answer_stops_recording() {
    let target = Key::from_input(b"value");
    let a = make_node_info("a", 1);
    let b = make_node_info("b", 2);
    let mut buffer = LookupBuffer::new(target, vec![a, b], get_this_node_mock());
    let before: Vec<bool> = buffer.get_nodes().iter().map(|n| n.queried).collect();
    let improved = buffer.record_lookup_round_responses(
        vec![LookupResponse::new_value_successful(a), LookupResponse::new_failed(b)],
        true,
    );
    assert!(improved);
    let after: Vec<bool> = buffer.get_nodes().iter().map(|n| n.queried).collect();
    assert_eq!(before, after);
}

#[test]
fn lookup_duplicates_are_not_added() {
    let target = Key::from_input(b"dups");
    let a = make_node_info("a", 1);
    let n = make_node_info("n", 2);
    let mut buffer = LookupBuffer::new(target, vec![a], get_this_node_mock());
    assert_eq!(buffer.get_alpha_unqueried_nodes(), vec![a]);
    buffer.record_lookup_round_responses(vec![LookupResponse::new_nodes_successful(a, vec![n, n, a])], false);
    assert_eq!(buffer.get_nodes().len(), 2);
    assert_eq!(buffer.get_responsive_nodes(), vec![a]);
}

#[test]
fn value_round_leaves_buffer_sorted() {
    let target = Key::from_input(b"target");
    let a = make_node_info("a", 1);
    let mut buffer = LookupBuffer::new(target, vec![a], get_this_node_mock());
    let contacts: Vec<NodeInfo> = (0..8).map(|i| make_node_info(&format!("c{}", i), 100 + i)).collect();
    let storer = make_node_info("storer", 2);
    let improved = buffer.record_lookup_round_responses(
        vec![LookupResponse::new_nodes_successful(a, contacts), LookupResponse::new_value_successful(storer)],
        true,
    );
    assert!(improved);
    let nodes = buffer.get_nodes();
    assert_eq!(nodes.len(), 9);
    for w in nodes.windows(2) {
        assert!(w[0].node_info.id.distance(&target) <= w[1].node_info.id.distance(&target));
    }
}

#[test]
fn new_buffer_drops_repeats_and_this_node() {
    let target = Key::from_input(b"target");
    let x = make_node_info("x", 1);
    let y = make_node_info("y", 2);
    let buffer = LookupBuffer::new(target, vec![x, y, x, get_this_node_mock(), y], get_this_node_mock());
    let nodes = buffer.get_nodes();
    assert_eq!(nodes.len(), 2);
    assert!(nodes.iter().any(|n| n.node_info == x));
    assert!(nodes.iter().any(|n| n.node_info == y));
    assert!(!nodes.iter().any(|n| n.node_info == get_this_node_mock()));
}
