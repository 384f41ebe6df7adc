use vstd::prelude::*;

verus! {

/// A socket address as plain values: an IPv4 or IPv6 address and a port.
#[derive(Debug, Clone, Copy, PartialEq, Eq, Structural)]
pub enum SocketAddress {
    V4 { octets: u32, port: u16 },
    V6 { segments: u128, port: u16 },
}

/// One AS of the topology section.
#[derive(Debug, Clone)]
pub struct AsConfig {
    /// ISD-AS identifier, e.g. `1-11`.
    pub isd_as: String,
    pub is_core: bool,
}

/// The topology section: the ASes and the links between them.
#[derive(Debug, Clone)]
pub struct TopologyConfig {
    pub ases: Vec<AsConfig>,
    /// Link texts, each `<isd-as>:<isd-as>`.
    pub links: Vec<String>,
}

/// One data plane of an access point.
#[derive(Debug, Clone)]
pub struct DataPlaneConfig {
    /// The AS this data plane serves.
    pub isd_as: String,
    /// The LAN address this data plane listens on.
    pub listening_addr: Option<SocketAddress>,
    /// The (virtual) network prefixes it may hand out to clients.
    pub address_range: Vec<String>,
}

/// An access point: a control plane and its data planes.
#[derive(Debug, Clone)]
pub struct SnapConfig {
    /// The control plane's listening address.
    pub listening_addr: Option<SocketAddress>,
    pub data_planes: Vec<DataPlaneConfig>,
}

/// A host-facing API serving some isolation domains.
#[derive(Debug, Clone)]
pub struct EndhostApiConfig {
    pub isds: Vec<String>,
    pub listening_addr: Option<SocketAddress>,
}

/// How a router is addressed; two layouts of the router section exist.
#[derive(Debug, Clone)]
pub enum RouterAddressing {
    /// Local prefixes, and the next hop of each interface.
    Explicit { local_addresses: Vec<String>, next_hops: Vec<(String, SocketAddress)> },
    /// Excluded data-plane prefixes, and the address of each access-point interface.
    SnapInterfaces {
        snap_data_plane_excludes: Vec<String>,
        snap_data_plane_interfaces: Vec<(String, SocketAddress)>,
    },
}

/// A router of one AS.
#[derive(Debug, Clone)]
pub struct RouterConfig {
    pub isd_as: String,
    pub interfaces: Vec<u16>,
    pub listening_addr: Option<SocketAddress>,
    pub addressing: RouterAddressing,
}

/// A whole network description.
#[derive(Debug, Clone)]
pub struct NetworkConfig {
    pub topology: TopologyConfig,
    pub snaps: Vec<SnapConfig>,
    pub endhost_apis: Vec<EndhostApiConfig>,
    pub routers: Vec<RouterConfig>,
    pub management_listen_addr: SocketAddress,
}

} // verus!
