//! A node's configuration: the rules that complete and check it once it was
//! read, and the choice of the address the node announces. Reading the file
//! and asking the network interfaces are left to the caller.
use vstd::prelude::*;
use vstd::string::StrSliceExecFns;
use crate::kademlia::key::Key;
use crate::networking::node_info::{IpAddress, NodeAddress};

verus! {

/// Which IP address a node announces.
#[derive(Debug, Clone, Copy, PartialEq, Eq, Structural)]
pub enum IpAddressType {
    /// The address the outside world sees.
    Public,
    /// The first IPv4 address of a non-loopback interface.
    Local,
    /// `127.0.0.1`.
    Loopback,
}

/// Why a configuration was refused.
#[derive(Debug, Clone, Copy, PartialEq, Eq)]
pub enum ConfigError {
    /// The IP address type is not `public`, `local` or `loopback`.
    InvalidIpAddressType,
    /// A node that joins needs the address of the beacon node.
    BeaconAddressMissing,
    /// A node that joins needs the key of the beacon node.
    BeaconKeyMissing,
    /// The storage path exists and is not a directory.
    StoragePathNotADirectory,
    /// The cache path exists and is not a file.
    CachePathNotAFile,
    /// The cache file does not exist.
    CacheFileMissing,
    /// The public address could not be found.
    PublicIpUnavailable,
    /// No non-loopback interface has an IPv4 address.
    LocalIpUnavailable,
}

/// The name of an IP address type in a configuration file.
pub open spec fn ip_type_name(t: IpAddressType) -> Seq<char> {
    match t {
        IpAddressType::Public => "public"@,
        IpAddressType::Local => "local"@,
        IpAddressType::Loopback => "loopback"@,
    }
}

/// Whether two strings have the same characters.
fn same_text(a: &str, b: &str) -> (r: bool)
    ensures
        r == (a@ == b@),
{
    let n: usize = a.unicode_len();
    if n != b.unicode_len() {
        return false;
    }
    for i in 0..n
        invariant
            n == a@.len(),
            n == b@.len(),
            forall|j: int| 0 <= j < i ==> a@[j] == b@[j],
    {
        if a.get_char(i) != b.get_char(i) {
            return false;
        }
    }
    assert(a@ =~= b@);
    true
}

impl IpAddressType {
    /// The type named `name` in a configuration file.
    pub fn from_name(name: &str) -> (r: Result<IpAddressType, ConfigError>)
        ensures
            r == (if name@ == "public"@ {
                Ok::<IpAddressType, ConfigError>(IpAddressType::Public)
            } else if name@ == "local"@ {
                Ok(IpAddressType::Local)
            } else if name@ == "loopback"@ {
                Ok(IpAddressType::Loopback)
            } else {
                Err(ConfigError::InvalidIpAddressType)
            }),
    {
        if same_text(name, "public") {
            Ok(IpAddressType::Public)
        } else if same_text(name, "local") {
            Ok(IpAddressType::Local)
        } else if same_text(name, "loopback") {
            Ok(IpAddressType::Loopback)
        } else {
            Err(ConfigError::InvalidIpAddressType)
        }
    }

    /// The name of the type in a configuration file.
    pub fn to_display_string(&self) -> (s: String)
        ensures
            s@ == ip_type_name(*self),
    {
        match self {
            IpAddressType::Public => "public".to_owned(),
            IpAddressType::Local => "local".to_owned(),
            IpAddressType::Loopback => "loopback".to_owned(),
        }
    }
}

/// An address of a network interface.
#[derive(Debug, Clone, Copy, PartialEq, Eq)]
pub struct InterfaceAddress {
    pub ip: IpAddress,
    pub is_loopback: bool,
}

/// What to do about the storage path once it was checked.
#[derive(Debug, Clone, Copy, PartialEq, Eq, Structural)]
pub enum StoragePathAction {
    /// The directory exists.
    Use,
    /// The directory is to be created.
    Create,
}

/// A node's configuration.
#[derive(Debug, Clone, PartialEq, Eq)]
pub struct Config {
    pub beacon_node_address: Option<NodeAddress>,
    pub beacon_node_key: Option<Key>,
    /// Taken over by the port given on the command line, if any.
    pub node_port: Option<u16>,
    pub ip_address_type: IpAddressType,
    pub cache_file_path: Option<String>,
    pub storage_path: String,
}

/// The first interface address that is IPv4 and not loopback.
pub open spec fn first_local_ipv4(ifaces: Seq<InterfaceAddress>) -> Option<IpAddress>
    decreases ifaces.len(),
{
    if ifaces.len() == 0 {
        None
    } else if !ifaces[0].is_loopback && ifaces[0].ip is V4 {
        Some(ifaces[0].ip)
    } else {
        first_local_ipv4(ifaces.drop_first())
    }
}

impl Config {
    /// Completes a configuration read from a file: a node that joins (not
    /// `skip_join`) must know the beacon's address and key; the port given on
    /// the command line replaces the file's; with no port at all, port 0 lets
    /// the system pick one.
    pub fn finish_parse(self, skip_join: bool, port_arg: Option<u16>) -> (r: Result<Config, ConfigError>)
        ensures
            !skip_join && self.beacon_node_address is None ==> r == Err::<Config, ConfigError>(ConfigError::BeaconAddressMissing),
            !skip_join && self.beacon_node_address is Some && self.beacon_node_key is None
                ==> r == Err::<Config, ConfigError>(ConfigError::BeaconKeyMissing),
            skip_join || (self.beacon_node_address is Some && self.beacon_node_key is Some) ==> (r matches Ok(c)
                && c.beacon_node_address == self.beacon_node_address
                && c.beacon_node_key == self.beacon_node_key
                && c.ip_address_type == self.ip_address_type
                && c.cache_file_path == self.cache_file_path
                && c.storage_path == self.storage_path
                && c.node_port == Some(match port_arg {
                    Some(p) => p,
                    None => match self.node_port {
                        Some(p) => p,
                        None => 0u16,
                    },
                })),
    {
        if !skip_join {
            if self.beacon_node_address.is_none() {
                return Err(ConfigError::BeaconAddressMissing);
            }
            if self.beacon_node_key.is_none() {
                return Err(ConfigError::BeaconKeyMissing);
            }
        }
        let mut config = self;
        if let Some(port) = port_arg {
            config.node_port = Some(port);
        }
        if config.node_port.is_none() {
            config.node_port = Some(0);
        }
        Ok(config)
    }

    /// Checks the storage path: a missing directory is to be created; a path
    /// that exists and is not a directory is refused.
    pub fn validate_storage_path(exists: bool, is_dir: bool) -> (r: Result<StoragePathAction, ConfigError>)
        ensures
            r == (if !exists {
                Ok::<StoragePathAction, ConfigError>(StoragePathAction::Create)
            } else if !is_dir {
                Err(ConfigError::StoragePathNotADirectory)
            } else {
                Ok(StoragePathAction::Use)
            }),
    {
        if !exists {
            Ok(StoragePathAction::Create)
        } else if !is_dir {
            Err(ConfigError::StoragePathNotADirectory)
        } else {
            Ok(StoragePathAction::Use)
        }
    }

    /// Checks the cache path: it must exist and be a file.
    pub fn validate_cache_file_path(exists: bool, is_file: bool) -> (r: Result<(), ConfigError>)
        ensures
            r == (if !exists {
                Err::<(), ConfigError>(ConfigError::CacheFileMissing)
            } else if !is_file {
                Err(ConfigError::CachePathNotAFile)
            } else {
                Ok(())
            }),
    {
        if exists {
            if is_file {
                Ok(())
            } else {
                Err(ConfigError::CachePathNotAFile)
            }
        } else {
            Err(ConfigError::CacheFileMissing)
        }
    }

    /// The address the node announces: the public address when asked for
    /// (`public_ip`, as found by the caller), the first IPv4 address of a
    /// non-loopback interface when a local one is asked for, or `127.0.0.1`.
    pub fn resolve_ip_address(&self, public_ip: Option<IpAddress>, interfaces: &Vec<InterfaceAddress>) -> (r: Result<IpAddress, ConfigError>)
        ensures
            r == match self.ip_address_type {
                IpAddressType::Public => match public_ip {
                    Some(ip) => Ok::<IpAddress, ConfigError>(ip),
                    None => Err(ConfigError::PublicIpUnavailable),
                },
                IpAddressType::Local => match first_local_ipv4(interfaces@) {
                    Some(ip) => Ok::<IpAddress, ConfigError>(ip),
                    None => Err(ConfigError::LocalIpUnavailable),
                },
                IpAddressType::Loopback => Ok::<IpAddress, ConfigError>(IpAddress::V4(0x7f000001)),
            },
    {
        match self.ip_address_type {
            IpAddressType::Public => match public_ip {
                Some(ip) => Ok(ip),
                None => Err(ConfigError::PublicIpUnavailable),
            },
            IpAddressType::Local => {
                let n: usize = interfaces.len();
                assert(interfaces@.skip(0) =~= interfaces@);
                for i in 0..n
                    invariant
                        n == interfaces@.len(),
                        self.ip_address_type == IpAddressType::Local,
                        first_local_ipv4(interfaces@) == first_local_ipv4(interfaces@.skip(i as int)),
                {
                    let iface = interfaces[i];
                    proof {
                        assert(interfaces@.skip(i as int)[0] == iface);
                        assert(interfaces@.skip(i as int).drop_first() =~= interfaces@.skip(i + 1));
                    }
                    let is_v4 = match iface.ip {
                        IpAddress::V4(_) => true,
                        IpAddress::V6(_) => false,
                    };
                    if !iface.is_loopback && is_v4 {
                        return Ok(iface.ip);
                    }
                }
                assert(interfaces@.skip(n as int).len() == 0);
                Err(ConfigError::LocalIpUnavailable)
            },
            IpAddressType::Loopback => Ok(IpAddress::localhost_v4()),
        }
    }
}

} // verus!
