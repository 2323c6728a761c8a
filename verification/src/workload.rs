//! Workloads: the addressable endpoints of the mesh, and the keys they are
//! found by.

use crate::identity::{Identity, IdentityView};
use crate::ip::{ip_of_octets, IpAddr, SocketAddr};
use crate::outside::bytes_view;
use crate::table::{Key, Record};
use bytes::Bytes;
use std::ops::Deref;
use vstd::prelude::*;

verus! {

/// How traffic reaches a workload.
#[derive(Debug, Clone, Copy, PartialEq, Eq, Hash, Structural)]
pub enum Protocol {
    TCP,
    HBONE,
}

impl Default for Protocol {
    fn default() -> (r: Self)
        ensures
            r == Protocol::TCP,
    {
        Protocol::TCP
    }
}

/// Whether a workload takes part in load balancing.
#[derive(Debug, Clone, Copy, PartialEq, Eq, Hash, Structural)]
pub enum HealthStatus {
    Healthy,
    Unhealthy,
}

impl Default for HealthStatus {
    fn default() -> (r: Self)
        ensures
            r == HealthStatus::Healthy,
    {
        HealthStatus::Healthy
    }
}

/// The views of a list of strings.
pub open spec fn strings_view(v: Seq<String>) -> Seq<Seq<char>> {
    Seq::new(v.len(), |i: int| v[i]@)
}

/// Copies a list of strings.
pub fn duplicate_strings(v: &Vec<String>) -> (r: Vec<String>)
    ensures
        strings_view(r@) == strings_view(v@),
{
    let mut r: Vec<String> = Vec::new();
    let mut i: usize = 0;
    while i < v.len()
        invariant
            i <= v@.len(),
            r@.len() == i,
            forall|j: int| 0 <= j < i ==> r@[j]@ == v@[j]@,
        decreases v@.len() - i,
    {
        r.push(v[i].clone());
        i += 1;
    }
    assert(strings_view(r@) =~= strings_view(v@));
    r
}

/// Copies a list of addresses.
pub fn duplicate_ips(v: &Vec<IpAddr>) -> (r: Vec<IpAddr>)
    ensures
        r@ == v@,
{
    let mut r: Vec<IpAddr> = Vec::new();
    let mut i: usize = 0;
    while i < v.len()
        invariant
            i <= v@.len(),
            r@.len() == i,
            forall|j: int| 0 <= j < i ==> r@[j] == v@[j],
        decreases v@.len() - i,
    {
        r.push(v[i]);
        i += 1;
    }
    assert(r@ =~= v@);
    r
}

/// An address within a named network. Addresses are unique only within
/// their network.
#[derive(Debug, Clone, PartialEq, Eq, Hash)]
pub struct NetworkAddress {
    pub network: String,
    pub address: IpAddr,
}

/// What a `NetworkAddress` stands for.
pub struct NetworkAddressView {
    pub network: Seq<char>,
    pub address: IpAddr,
}

impl View for NetworkAddress {
    type V = NetworkAddressView;

    open spec fn view(&self) -> NetworkAddressView {
        NetworkAddressView { network: self.network@, address: self.address }
    }
}

impl Record for NetworkAddress {
    fn duplicate(&self) -> (r: Self) {
        NetworkAddress { network: self.network.clone(), address: self.address }
    }
}

impl Key for NetworkAddress {
    fn same(&self, other: &Self) -> (r: bool) {
        self.network == other.network && self.address == other.address
    }
}

/// The address `vip` on the network named `network`.
pub fn network_addr(network: &str, vip: IpAddr) -> (r: NetworkAddress)
    ensures
        r@ == (NetworkAddressView { network: network@, address: vip }),
{
    NetworkAddress { network: network.to_owned(), address: vip }
}

/// A hostname within a namespace: the second key of a service.
#[derive(Debug, Clone, PartialEq, Eq, Hash)]
pub struct NamespacedHostname {
    pub namespace: String,
    pub hostname: String,
}

/// What a `NamespacedHostname` stands for.
pub struct NamespacedHostnameView {
    pub namespace: Seq<char>,
    pub hostname: Seq<char>,
}

impl View for NamespacedHostname {
    type V = NamespacedHostnameView;

    open spec fn view(&self) -> NamespacedHostnameView {
        NamespacedHostnameView { namespace: self.namespace@, hostname: self.hostname@ }
    }
}

impl Record for NamespacedHostname {
    fn duplicate(&self) -> (r: Self) {
        NamespacedHostname { namespace: self.namespace.clone(), hostname: self.hostname.clone() }
    }
}

impl Key for NamespacedHostname {
    fn same(&self, other: &Self) -> (r: bool) {
        self.namespace == other.namespace && self.hostname == other.hostname
    }
}

/// The view of an optional service key.
pub open spec fn host_opt(o: Option<NamespacedHostname>) -> Option<NamespacedHostnameView> {
    match o {
        Some(h) => Some(h@),
        None => None,
    }
}

/// Where a gateway is: at a resolved address, or behind a name.
#[derive(Debug, Clone, PartialEq, Eq, Hash)]
pub enum Destination {
    Address(NetworkAddress),
    Hostname(NamespacedHostname),
}

/// What a `Destination` stands for.
pub enum DestinationView {
    Address(NetworkAddressView),
    Hostname(NamespacedHostnameView),
}

impl View for Destination {
    type V = DestinationView;

    open spec fn view(&self) -> DestinationView {
        match self {
            Destination::Address(a) => DestinationView::Address(a@),
            Destination::Hostname(h) => DestinationView::Hostname(h@),
        }
    }
}

/// A gateway that mediates traffic for a workload, with the port it
/// listens on.
#[derive(Debug, Clone, PartialEq, Eq, Hash)]
pub struct GatewayAddress {
    pub destination: Destination,
    pub port: u16,
}

/// What a `GatewayAddress` stands for.
pub struct GatewayAddressView {
    pub destination: DestinationView,
    pub port: u16,
}

impl View for GatewayAddress {
    type V = GatewayAddressView;

    open spec fn view(&self) -> GatewayAddressView {
        GatewayAddressView { destination: self.destination@, port: self.port }
    }
}

impl Record for GatewayAddress {
    fn duplicate(&self) -> (r: Self) {
        let destination = match &self.destination {
            Destination::Address(a) => Destination::Address(a.duplicate()),
            Destination::Hostname(h) => Destination::Hostname(h.duplicate()),
        };
        GatewayAddress { destination, port: self.port }
    }
}

/// The view of an optional gateway.
pub open spec fn gateway_opt(o: Option<GatewayAddress>) -> Option<GatewayAddressView> {
    match o {
        Some(g) => Some(g@),
        None => None,
    }
}

fn duplicate_gateway(o: &Option<GatewayAddress>) -> (r: Option<GatewayAddress>)
    ensures
        gateway_opt(r) == gateway_opt(*o),
{
    match o {
        Some(g) => Some(g.duplicate()),
        None => None,
    }
}

/// A waypoint could not be resolved.
#[derive(Debug, PartialEq, Eq)]
pub enum WaypointError {
    FindWaypointError(String),
    UnsupportedFeature(String),
}

/// A discovery payload could not be read as a workload.
#[derive(Debug, PartialEq, Eq)]
pub enum WorkloadError {
    /// The text is not an IP address.
    AddressParse(String),
    /// The run of bytes is neither four nor sixteen bytes long; the
    /// number is its length.
    ByteAddressParse(usize),
    /// The prefix length does not fit the address family.
    PrefixParse(u8),
    /// The number names no variant of the enumeration.
    EnumParse(String),
    /// A gateway was given without a destination.
    MissingGatewayAddress,
}

/// What a `WorkloadError` stands for.
pub enum WorkloadErrorView {
    AddressParse(Seq<char>),
    ByteAddressParse(usize),
    PrefixParse(u8),
    EnumParse(Seq<char>),
    MissingGatewayAddress,
}

impl View for WorkloadError {
    type V = WorkloadErrorView;

    open spec fn view(&self) -> WorkloadErrorView {
        match self {
            WorkloadError::AddressParse(s) => WorkloadErrorView::AddressParse(s@),
            WorkloadError::ByteAddressParse(n) => WorkloadErrorView::ByteAddressParse(*n),
            WorkloadError::PrefixParse(n) => WorkloadErrorView::PrefixParse(*n),
            WorkloadError::EnumParse(s) => WorkloadErrorView::EnumParse(s@),
            WorkloadError::MissingGatewayAddress => WorkloadErrorView::MissingGatewayAddress,
        }
    }
}

/// A single addressable endpoint of the mesh: a pod or a machine.
#[derive(Debug, Clone, PartialEq, Eq, Hash)]
pub struct Workload {
    pub workload_ips: Vec<IpAddr>,
    pub waypoint: Option<GatewayAddress>,
    pub network_gateway: Option<GatewayAddress>,
    pub gateway_address: Option<SocketAddr>,
    pub protocol: Protocol,
    pub uid: String,
    pub name: String,
    pub namespace: String,
    pub trust_domain: String,
    pub service_account: String,
    pub network: String,
    pub workload_name: String,
    pub workload_type: String,
    pub canonical_name: String,
    pub canonical_revision: String,
    pub node: String,
    pub native_tunnel: bool,
    pub authorization_policies: Vec<String>,
    pub status: HealthStatus,
    pub cluster_id: String,
}

/// What a `Workload` stands for.
pub struct WorkloadView {
    pub workload_ips: Seq<IpAddr>,
    pub waypoint: Option<GatewayAddressView>,
    pub network_gateway: Option<GatewayAddressView>,
    pub gateway_address: Option<SocketAddr>,
    pub protocol: Protocol,
    pub uid: Seq<char>,
    pub name: Seq<char>,
    pub namespace: Seq<char>,
    pub trust_domain: Seq<char>,
    pub service_account: Seq<char>,
    pub network: Seq<char>,
    pub workload_name: Seq<char>,
    pub workload_type: Seq<char>,
    pub canonical_name: Seq<char>,
    pub canonical_revision: Seq<char>,
    pub node: Seq<char>,
    pub native_tunnel: bool,
    pub authorization_policies: Seq<Seq<char>>,
    pub status: HealthStatus,
    pub cluster_id: Seq<char>,
}

impl View for Workload {
    type V = WorkloadView;

    open spec fn view(&self) -> WorkloadView {
        WorkloadView {
            workload_ips: self.workload_ips@,
            waypoint: gateway_opt(self.waypoint),
            network_gateway: gateway_opt(self.network_gateway),
            gateway_address: self.gateway_address,
            protocol: self.protocol,
            uid: self.uid@,
            name: self.name@,
            namespace: self.namespace@,
            trust_domain: self.trust_domain@,
            service_account: self.service_account@,
            network: self.network@,
            workload_name: self.workload_name@,
            workload_type: self.workload_type@,
            canonical_name: self.canonical_name@,
            canonical_revision: self.canonical_revision@,
            node: self.node@,
            native_tunnel: self.native_tunnel,
            authorization_policies: strings_view(self.authorization_policies@),
            status: self.status,
            cluster_id: self.cluster_id@,
        }
    }
}

impl Record for Workload {
    fn duplicate(&self) -> (r: Self) {
        Workload {
            workload_ips: duplicate_ips(&self.workload_ips),
            waypoint: duplicate_gateway(&self.waypoint),
            network_gateway: duplicate_gateway(&self.network_gateway),
            gateway_address: self.gateway_address,
            protocol: self.protocol,
            uid: self.uid.clone(),
            name: self.name.clone(),
            namespace: self.namespace.clone(),
            trust_domain: self.trust_domain.clone(),
            service_account: self.service_account.clone(),
            network: self.network.clone(),
            workload_name: self.workload_name.clone(),
            workload_type: self.workload_type.clone(),
            canonical_name: self.canonical_name.clone(),
            canonical_revision: self.canonical_revision.clone(),
            node: self.node.clone(),
            native_tunnel: self.native_tunnel,
            authorization_policies: duplicate_strings(&self.authorization_policies),
            status: self.status,
            cluster_id: self.cluster_id.clone(),
        }
    }
}

impl WorkloadView {
    /// The identity that the workload presents and is issued a certificate for.
    pub open spec fn identity(self) -> IdentityView {
        IdentityView {
            trust_domain: self.trust_domain,
            namespace: self.namespace,
            service_account: self.service_account,
        }
    }

    /// The network-qualified address at position `i` of the workload's addresses.
    pub open spec fn address(self, i: int) -> NetworkAddressView {
        NetworkAddressView { network: self.network, address: self.workload_ips[i] }
    }

    /// Whether `a` is one of the workload's network-qualified addresses.
    pub open spec fn has_address(self, a: NetworkAddressView) -> bool {
        a.network == self.network && self.workload_ips.contains(a.address)
    }

    /// The address of the workload's waypoint, where it names one by address.
    pub open spec fn waypoint_ip(self) -> Result<Option<IpAddr>, ()> {
        match self.waypoint {
            None => Ok(None),
            Some(g) => match g.destination {
                DestinationView::Address(a) => Ok(Some(a.address)),
                DestinationView::Hostname(_) => Err(()),
            },
        }
    }
}

impl Workload {
    /// The identity that the workload presents and is issued a certificate for.
    pub fn identity(&self) -> (r: Identity)
        ensures
            r@ == self@.identity(),
    {
        Identity::Spiffe {
            trust_domain: self.trust_domain.clone(),
            namespace: self.namespace.clone(),
            service_account: self.service_account.clone(),
        }
    }

    /// The IP address of the workload's waypoint: none where it has no
    /// waypoint, and an error where the waypoint is named by hostname,
    /// which cannot be resolved.
    pub fn waypoint_svc_ip_address(&self) -> (r: Result<Option<IpAddr>, WaypointError>)
        ensures
            match self@.waypoint_ip() {
                Ok(ip) => r == Ok::<Option<IpAddr>, WaypointError>(ip),
                Err(_) => r matches Err(WaypointError::UnsupportedFeature(m)) && m@
                    == "hostname lookup not supported yet"@,
            },
    {
        match &self.waypoint {
            Some(gw_address) => match &gw_address.destination {
                Destination::Hostname(_) => Err(
                    WaypointError::UnsupportedFeature(
                        "hostname lookup not supported yet".to_owned(),
                    ),
                ),
                Destination::Address(ip) => Ok(Some(ip.address)),
            },
            None => Ok(None),
        }
    }
}

/// What `byte_to_ip` makes of a run of bytes.
pub open spec fn ip_of_bytes(o: Seq<u8>) -> Result<IpAddr, WorkloadError> {
    match ip_of_octets(o) {
        Some(ip) => Ok(ip),
        None => Err(WorkloadError::ByteAddressParse(o.len() as usize)),
    }
}

/// Reads an IP address from the bytes of a discovery message: four bytes
/// are an IPv4 address, sixteen an IPv6 address. Any other length is
/// refused, and the error carries that length.
pub fn byte_to_ip(b: &Bytes) -> (r: Result<IpAddr, WorkloadError>)
    ensures
        r == ip_of_bytes(bytes_view(*b)),
{
    match IpAddr::from_octets(b.deref()) {
        Some(ip) => Ok(ip),
        None => Err(WorkloadError::ByteAddressParse(b.len())),
    }
}

} // verus!
