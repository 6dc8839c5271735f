use p2p::config::{Config, ConfigError, InterfaceAddress, IpAddressType, StoragePathAction};
use p2p::kademlia::key::Key;
use p2p::networking::node_info::{IpAddress, NodeAddress};

fn config(t: IpAddressType) -> Config {
    Config {
        beacon_node_address: Some(NodeAddress::new(IpAddress::localhost_v4(), 3032)),
        beacon_node_key: Some(Key::new_random()),
        node_port: Some(3032),
        ip_address_type: t,
        cache_file_path: Some("/tmp/does_not_matter".to_string()),
        storage_path: "/tmp/does_not_matter".to_string(),
    }
}

#[test]
fn test_resolve_ip_address_loopback() {
    let config = config(IpAddressType::Loopback);
    let ip = config.resolve_ip_address(None, &vec![]).unwrap();
    assert_eq!(ip, IpAddress::v4(127, 0, 0, 1));
}

#[test]
fn config_local_address_skips_loopback_and_ipv6() {
    let c = config(IpAddressType::Local);
    let ifaces = vec![
        InterfaceAddress { ip: IpAddress::v4(127, 0, 0, 1), is_loopback: true },
        InterfaceAddress { ip: IpAddress::V6(1), is_loopback: false },
        InterfaceAddress { ip: IpAddress::v4(192, 168, 0, 7), is_loopback: false },
        InterfaceAddress { ip: IpAddress::v4(10, 0, 0, 1), is_loopback: false },
    ];
    assert_eq!(c.resolve_ip_address(None, &ifaces), Ok(IpAddress::v4(192, 168, 0, 7)));
    assert_eq!(c.resolve_ip_address(None, &ifaces[..2].to_vec()), Err(ConfigError::LocalIpUnavailable));
    let p = config(IpAddressType::Public);
    assert_eq!(p.resolve_ip_address(None, &ifaces), Err(ConfigError::PublicIpUnavailable));
    assert_eq!(p.resolve_ip_address(Some(IpAddress::v4(8, 8, 8, 8)), &ifaces), Ok(IpAddress::v4(8, 8, 8, 8)));
}

#[test]
fn config_port_override_and_beacon_checks() {
    let c = config(IpAddressType::Loopback).finish_parse(false, Some(9999)).unwrap();
    assert_eq!(c.node_port, Some(9999));
    let mut d = config(IpAddressType::Loopback);
    d.node_port = None;
    assert_eq!(d.clone().finish_parse(true, None).unwrap().node_port, Some(0));
    let mut e = config(IpAddressType::Loopback);
    e.beacon_node_address = None;
    assert_eq!(e.clone().finish_parse(false, None), Err(ConfigError::BeaconAddressMissing));
    assert!(e.finish_parse(true, None).is_ok());
    let mut f = config(IpAddressType::Loopback);
    f.beacon_node_key = None;
    assert_eq!(f.finish_parse(false, None), Err(ConfigError::BeaconKeyMissing));
}

#[test]
fn config_names_and_path_checks() {
    assert_eq!(IpAddressType::from_name("public"), Ok(IpAddressType::Public));
    assert_eq!(IpAddressType::from_name("local"), Ok(IpAddressType::Local));
    assert_eq!(IpAddressType::from_name("loopback"), Ok(IpAddressType::Loopback));
    assert_eq!(IpAddressType::from_name("Loopback"), Err(ConfigError::InvalidIpAddressType));
    assert_eq!(IpAddressType::Local.to_display_string(), "local");
    assert_eq!(Config::validate_storage_path(false, false), Ok(StoragePathAction::Create));
    assert_eq!(Config::validate_storage_path(true, false), Err(ConfigError::StoragePathNotADirectory));
    assert_eq!(Config::validate_storage_path(true, true), Ok(StoragePathAction::Use));
    assert_eq!(Config::validate_cache_file_path(false, false), Err(ConfigError::CacheFileMissing));
    assert_eq!(Config::validate_cache_file_path(true, false), Err(ConfigError::CachePathNotAFile));
    assert_eq!(Config::validate_cache_file_path(true, true), Ok(()));
}
