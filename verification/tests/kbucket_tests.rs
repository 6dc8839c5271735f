use p2p::constants::K;
use p2p::kademlia::key::Key;
use p2p::networking::node_info::{IpAddress, NodeAddress, NodeInfo};
use p2p::routing::kbucket::{AddStep, KBucket, KBucketError, PingOutcome};
use rand::Rng;

fn create_local_node() -> NodeInfo {
    let id = Key::new_random();
    let port = rand::rng().random_range(1024..65535);
    NodeInfo::new(id, NodeAddress::new(IpAddress::localhost_v4(), port))
}

#[test]
fn test_add_node() {
    let mut kbucket = KBucket::new();
    let node = create_local_node();
    assert!(kbucket.add_nodeinfo_limited(node).is_ok());
    assert_eq!(kbucket.get_nodeinfos().len(), 1);
    assert_eq!(kbucket.get_nodeinfos().last().unwrap(), &node);
}

#[test]
fn test_remove_node() {
    let mut kbucket = KBucket::new();
    let node = create_local_node();
    assert!(kbucket.add_nodeinfo_limited(node).is_ok());
    assert_eq!(kbucket.get_nodeinfos().len(), 1);
    assert!(kbucket.remove_nodeinfo(&node.id).is_some());
    assert_eq!(kbucket.get_nodeinfos().len(), 0);
}

#[test]
fn test_find_node() {
    let mut kbucket = KBucket::new();
    let node = create_local_node();
    assert!(kbucket.add_nodeinfo_limited(node).is_ok());
    let found_node = kbucket.get_nodeinfo(&node.id);
    assert!(found_node.is_some());
    assert_eq!(found_node.unwrap(), &node);
}

#[test]
fn test_kbucket_capacity() {
    let mut kbucket = KBucket::new();
    for _ in 0..K {
        let node = create_local_node();
        assert!(kbucket.add_nodeinfo_limited(node).is_ok());
    }
    assert_eq!(kbucket.get_nodeinfos().len(), K);
}

#[test]
fn test_add_node_existing() {
    let mut kbucket = KBucket::new();
    let node1 = create_local_node();
    let mut node2 = node1;
    node2.address.port = rand::rng().random_range(1024..65535);
    assert_eq!(&node1.id, &node2.id);
    assert!(kbucket.add_nodeinfo_limited(node1).is_ok());
    assert!(kbucket.add_nodeinfo_limited(node2).is_ok());
    assert_eq!(kbucket.get_nodeinfos().len(), 1);
    assert_eq!(kbucket.get_nodeinfos().last().unwrap(), &node2);
}

#[test]
fn test_add_node_full_capacity() {
    let mut kbucket = KBucket::new();
    for _ in 0..K {
        let node = create_local_node();
        assert!(kbucket.add_nodeinfo_limited(node).is_ok());
    }
    let new_node = create_local_node();
    assert_eq!(kbucket.add_nodeinfo_limited(new_node), Err(KBucketError::NotEnoughSpace));
    assert_eq!(kbucket.get_nodeinfos().len(), K);
}

#[test]
fn kbucket_full_bucket_pings_head() {
    let mut kbucket = KBucket::new();
    let nodes: Vec<NodeInfo> = (0..K).map(|_| create_local_node()).collect();
    for n in &nodes {
        assert_eq!(kbucket.add_nodeinfo(*n), AddStep::Added);
    }
    let newcomer = create_local_node();
    let step = kbucket.add_nodeinfo(newcomer);
    assert_eq!(step, AddStep::PingHead(nodes[0]));
    assert_eq!(kbucket.get_nodeinfos().len(), K - 1);

    let mut answered = kbucket.clone();
    assert_eq!(answered.finish_add_nodeinfo(newcomer, nodes[0], PingOutcome::Responded), Ok(()));
    assert_eq!(answered.get_nodeinfos().last().unwrap(), &nodes[0]);
    assert!(answered.get_nodeinfo(&newcomer.id).is_none());

    let mut silent = kbucket.clone();
    assert_eq!(silent.finish_add_nodeinfo(newcomer, nodes[0], PingOutcome::TimedOut), Ok(()));
    assert_eq!(silent.get_nodeinfos().last().unwrap(), &newcomer);
    assert!(silent.get_nodeinfo(&nodes[0].id).is_none());

    let mut failed = kbucket.clone();
    assert_eq!(
        failed.finish_add_nodeinfo(newcomer, nodes[0], PingOutcome::Failed),
        Err(KBucketError::FailedToAdd)
    );
    assert_eq!(failed.get_nodeinfos().len(), K - 1);
}

#[test]
fn kbucket_readding_moves_to_tail() {
    let mut kbucket = KBucket::new();
    let a = create_local_node();
    let b = create_local_node();
    kbucket.add_nodeinfo(a);
    kbucket.add_nodeinfo(b);
    kbucket.add_nodeinfo(a);
    assert_eq!(kbucket.get_nodeinfos(), &vec![b, a]);
}
