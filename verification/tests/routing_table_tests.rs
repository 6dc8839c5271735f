use p2p::constants::K;
use p2p::kademlia::key::Key;
use p2p::networking::node_info::{IpAddress, NodeAddress, NodeInfo};
use p2p::routing::kbucket::AddStep;
use p2p::routing::routing_table::{RoutingTable, RoutingTableError};

fn local(id: Key, port: u16) -> NodeInfo {
    NodeInfo::new(id, NodeAddress::new(IpAddress::localhost_v4(), port))
}

fn n_closest_slow(rt: &RoutingTable, key: &Key, n: usize) -> Result<Vec<NodeInfo>, RoutingTableError> {
    let mut all_nodes = rt.get_all_nodeinfos();
    if all_nodes.is_empty() {
        return Err(RoutingTableError::Empty);
    }
    all_nodes.sort_by_key(|node| node.get_id().distance(key));
    Ok(all_nodes.into_iter().take(n).collect())
}

/// A random key that shares exactly `lz` leading bits with `own`.
fn key_sharing_bits(own: &Key, lz: usize) -> Key {
    let own_bytes = own.to_bytes();
    let mut bytes = Key::new_random().to_bytes();
    for bit in 0..lz {
        let (byte, off) = (bit / 8, 7 - bit % 8);
        let mask = 1u8 << off;
        bytes[byte] = (bytes[byte] & !mask) | (own_bytes[byte] & mask);
    }
    if lz < 8 * K {
        let (byte, off) = (lz / 8, 7 - lz % 8);
        let mask = 1u8 << off;
        bytes[byte] = (bytes[byte] & !mask) | (!own_bytes[byte] & mask);
    }
    let mut arr = [0u8; K];
    arr.copy_from_slice(&bytes);
    Key::from_bytes(arr)
}

fn get_n_closest_fuzz(n: usize, nodes_per_bucket: usize) -> bool {
    let id = Key::new_random();
    let mut rt = RoutingTable::new(id);
    assert!(nodes_per_bucket <= K);
    for lz in 0..(8 * K) {
        for _ in 0..nodes_per_bucket {
            let key = key_sharing_bits(&id, lz);
            assert_eq!(id.leading_zeros(&key), lz);
            assert!(rt.store_nodeinfo(local(key, 8080)).is_ok());
        }
    }
    let key_to_find = Key::new_random();
    let got_slow = n_closest_slow(&rt, &key_to_find, n).unwrap();
    let got_fast = rt.get_n_closest(&key_to_find, n).unwrap();
    got_slow == got_fast
}

#[test]
fn test_initialize() {
    let id = Key::new_random();
    let routing_table = RoutingTable::new(id);
    assert_eq!(routing_table.get_buckets().len(), RoutingTable::NUM_BUCKETS);
}

#[test]
fn test_get_nodeinfo_success() {
    let id = Key::from_input(b"local_node");
    let mut routing_table = RoutingTable::new(id);
    let remote_id = Key::from_input(b"remote_node");
    let node_info = NodeInfo::new(remote_id, NodeAddress::new(IpAddress::v4(192, 168, 1, 1), 8080));
    assert!(routing_table.store_nodeinfo(node_info).is_ok());
    let result = routing_table.get_nodeinfo(&remote_id);
    assert!(result.is_some());
    assert_eq!(result.unwrap(), &node_info);
}

#[test]
fn test_get_nodeinfo_failure() {
    let id = Key::from_input(b"local_node");
    let routing_table = RoutingTable::new(id);
    let remote_id = Key::from_input(b"remote_node");
    let result = routing_table.get_nodeinfo(&remote_id);
    assert!(result.is_none());
}

#[test]
fn test_get_n_closest_slow() {
    let id = Key::new_random();
    let mut routing_table = RoutingTable::new(id);
    let node1 = local(Key::new_random(), 8080);
    let node2 = local(Key::new_random(), 8081);
    let node3 = local(Key::new_random(), 8082);
    routing_table.store_nodeinfo(node1).unwrap();
    routing_table.store_nodeinfo(node2).unwrap();
    routing_table.store_nodeinfo(node3).unwrap();
    let num_fetch = 3;
    let closest_nodes = n_closest_slow(&routing_table, &node1.get_id(), num_fetch).unwrap();
    assert_eq!(closest_nodes.len(), num_fetch);
    assert!(closest_nodes.contains(&node1));
    assert!(closest_nodes.contains(&node2));
    assert!(closest_nodes.contains(&node3));
}

#[test]
fn test_get_n_closest_success() {
    let id = Key::new_random();
    let mut routing_table = RoutingTable::new(id);
    let node1 = local(Key::new_random(), 8080);
    let node2 = local(Key::new_random(), 8081);
    let node3 = local(Key::new_random(), 8082);
    routing_table.store_nodeinfo(node1).unwrap();
    routing_table.store_nodeinfo(node2).unwrap();
    routing_table.store_nodeinfo(node3).unwrap();
    let num_fetch = 3;
    let closest_nodes = routing_table.get_n_closest(&node1.get_id(), num_fetch).unwrap();
    assert_eq!(closest_nodes.len(), num_fetch);
    assert!(closest_nodes.contains(&node1));
    assert!(closest_nodes.contains(&node2));
    assert!(closest_nodes.contains(&node3));
}

#[test]
fn test_get_n_closest_empty() {
    let id = Key::new_random();
    let routing_table = RoutingTable::new(id);
    let node_id = Key::new_random();
    let result = routing_table.get_n_closest(&node_id, 2);
    assert!(result.is_err());
    assert_eq!(result.unwrap_err(), RoutingTableError::Empty);
}

#[test]
fn test_get_n_closest_advanced() {
    let id = Key::new_random();
    let mut routing_table = RoutingTable::new(id);
    let mut key = [0u8; 20];
    key[0] = 0b00000000;
    key[1] = 0b00000001;
    let node1 = local(Key::from_bytes(key), 8080);
    key[0] = 0b00000000;
    key[1] = 0b00000010;
    let node2 = local(Key::from_bytes(key), 8081);
    key[0] = 0b00000000;
    key[1] = 0b00000011;
    let node3 = local(Key::from_bytes(key), 8082);
    key[0] = 0b00000001;
    key[1] = 0b00000000;
    let node4 = local(Key::from_bytes(key), 8083);
    routing_table.store_nodeinfo(node1).unwrap();
    routing_table.store_nodeinfo(node2).unwrap();
    routing_table.store_nodeinfo(node3).unwrap();
    routing_table.store_nodeinfo(node4).unwrap();
    key[0] = 0b00000000;
    key[1] = 0b00000001;
    let lookup_key = Key::from_bytes(key);
    let num_fetch = 3;
    let closest_nodes = routing_table.get_n_closest(&lookup_key, num_fetch).unwrap();
    assert_eq!(closest_nodes.len(), num_fetch);
    assert!(closest_nodes.contains(&node1));
    assert!(closest_nodes.contains(&node2));
    assert!(closest_nodes.contains(&node3));
}

#[test]
fn test_get_n_closest_fuzz() {
    let num_tries = 1000;
    for _ in 0..num_tries {
        assert!(get_n_closest_fuzz(3, 5));
    }
}

#[test]
fn test_routing_table_initialization() {
    let id = Key::new_random();
    let routing_table = RoutingTable::new(id);
    assert_eq!(routing_table.get_buckets().len(), RoutingTable::NUM_BUCKETS);
}

#[test]
fn test_store_nodeinfo_success() {
    let id = Key::from_input(b"local_node");
    let mut routing_table = RoutingTable::new(id);
    let remote_id = Key::from_input(b"remote_node");
    let node_info = NodeInfo::new(remote_id, NodeAddress::new(IpAddress::v4(192, 168, 1, 1), 8080));
    let result = routing_table.store_nodeinfo(node_info);
    assert_eq!(result, Ok(AddStep::Added));
    assert_eq!(routing_table.get_nodeinfo(&remote_id), Some(&node_info));
}

#[test]
fn routing_table_results_are_sorted_and_bounded() {
    let id = Key::new_random();
    let mut rt = RoutingTable::new(id);
    for i in 0..200u16 {
        let _ = rt.store_nodeinfo(local(Key::new_random(), i));
    }
    let target = Key::new_random();
    let v = rt.get_k_closest(&target).unwrap();
    assert!(v.len() <= K);
    for w in v.windows(2) {
        assert!(w[0].id.is_closer(&w[1].id, &target));
    }
    let a = rt.get_alpha_closest(&target).unwrap();
    assert!(a.len() <= p2p::constants::ALPHA);
    assert_eq!(&a[..], &v[..a.len()]);
}

#[test]
fn routing_table_full_bucket_asks_for_ping() {
    let id = Key::from_bytes([0u8; K]);
    let mut rt = RoutingTable::new(id);
    let mut first = None;
    for i in 0..K {
        let mut b = [0u8; K];
        b[0] = 0x80;
        b[K - 1] = i as u8;
        let n = local(Key::from_bytes(b), 1);
        if first.is_none() {
            first = Some(n);
        }
        assert_eq!(rt.store_nodeinfo(n), Ok(AddStep::Added));
    }
    let mut b = [0u8; K];
    b[0] = 0x80;
    b[K - 1] = 0xff;
    let newcomer = local(Key::from_bytes(b), 2);
    assert_eq!(rt.store_nodeinfo(newcomer), Ok(AddStep::PingHead(first.unwrap())));
    assert_eq!(
        rt.finish_store_nodeinfo(newcomer, first.unwrap(), p2p::routing::kbucket::PingOutcome::TimedOut),
        Ok(())
    );
    assert_eq!(rt.get_nodeinfo(&newcomer.id), Some(&newcomer));
    assert!(rt.get_nodeinfo(&first.unwrap().id).is_none());
}

fn key_with_first_byte(first: u8) -> Key {
    let mut bytes = [0u8; K];
    bytes[0] = first;
    Key::from_bytes(bytes)
}

#[test]
fn own_bucket_with_enough_contacts_gives_closest_of_table() {
    let own = key_with_first_byte(0x00);
    let mut rt = RoutingTable::new(own);
    for (first, port) in [(0x81u8, 1u16), (0x90, 2), (0xC0, 3), (0x40, 4), (0x01, 5)] {
        assert_eq!(rt.store_nodeinfo(local(key_with_first_byte(first), port)), Ok(AddStep::Added));
    }
    let target = key_with_first_byte(0x80);
    let got = rt.get_n_closest(&target, 2).unwrap();
    assert_eq!(got, vec![local(key_with_first_byte(0x81), 1), local(key_with_first_byte(0x90), 2)]);
    assert_eq!(got, n_closest_slow(&rt, &target, 2).unwrap());
}

#[test]
fn n_closest_reaches_beyond_the_scanned_buckets() {
    let own = key_with_first_byte(0x00);
    let mut rt = RoutingTable::new(own);
    for (first, port) in [(0x40u8, 1u16), (0x20, 2), (0x01, 3)] {
        assert_eq!(rt.store_nodeinfo(local(key_with_first_byte(first), port)), Ok(AddStep::Added));
    }
    let target = key_with_first_byte(0xA0);
    let got = rt.get_n_closest(&target, 1).unwrap();
    assert_eq!(got, vec![local(key_with_first_byte(0x20), 2)]);
    assert_eq!(got, n_closest_slow(&rt, &target, 1).unwrap());
    assert_eq!(rt.get_n_closest(&target, 5).unwrap(), n_closest_slow(&rt, &target, 5).unwrap());
}
