//! The messages of the discovery channel, as they arrive: addresses as
//! bytes, enumerations as numbers, ports as 32-bit numbers.

use crate::outside::bytes_view;
use crate::table::{Record, Table};
use bytes::Bytes;
use vstd::prelude::*;

verus! {

/// How a workload wants to be reached.
#[derive(Debug, Clone, Copy, PartialEq, Eq, Hash, Structural)]
pub enum TunnelProtocol {
    /// No tunnel: the workload is reached over plain TCP.
    Plain,
    Hbone,
}

impl TunnelProtocol {
    /// The protocol that a number on the wire names: 0 for none, 1 for
    /// the tunnel. No other number names one.
    pub open spec fn of(v: i32) -> Option<TunnelProtocol> {
        if v == 0 {
            Some(TunnelProtocol::Plain)
        } else if v == 1 {
            Some(TunnelProtocol::Hbone)
        } else {
            None
        }
    }

    /// The protocol that a number on the wire names.
    pub fn from_i32(v: i32) -> (r: Option<TunnelProtocol>)
        ensures
            r == Self::of(v),
    {
        if v == 0 {
            Some(TunnelProtocol::Plain)
        } else if v == 1 {
            Some(TunnelProtocol::Hbone)
        } else {
            None
        }
    }
}

/// The health of a workload.
#[derive(Debug, Clone, Copy, PartialEq, Eq, Hash, Structural)]
pub enum WorkloadStatus {
    Healthy,
    Unhealthy,
}

impl WorkloadStatus {
    /// The status that a number on the wire names: 0 for healthy, 1 for
    /// unhealthy. No other number names one.
    pub open spec fn of(v: i32) -> Option<WorkloadStatus> {
        if v == 0 {
            Some(WorkloadStatus::Healthy)
        } else if v == 1 {
            Some(WorkloadStatus::Unhealthy)
        } else {
            None
        }
    }

    /// The status that a number on the wire names.
    pub fn from_i32(v: i32) -> (r: Option<WorkloadStatus>)
        ensures
            r == Self::of(v),
    {
        if v == 0 {
            Some(WorkloadStatus::Healthy)
        } else if v == 1 {
            Some(WorkloadStatus::Unhealthy)
        } else {
            None
        }
    }

    /// The number that names the status on the wire.
    pub fn number(self) -> (r: i32)
        ensures
            Self::of(r) == Some(self),
    {
        match self {
            WorkloadStatus::Healthy => 0,
            WorkloadStatus::Unhealthy => 1,
        }
    }
}

/// What kind of thing runs a workload.
#[derive(Debug, Clone, Copy, PartialEq, Eq, Hash, Structural)]
pub enum WorkloadType {
    Deployment,
    Cronjob,
    Pod,
    Job,
}

impl WorkloadType {
    /// The kind that a number on the wire names; a number that names
    /// none is read as a deployment.
    pub open spec fn of(v: i32) -> WorkloadType {
        if v == 1 {
            WorkloadType::Cronjob
        } else if v == 2 {
            WorkloadType::Pod
        } else if v == 3 {
            WorkloadType::Job
        } else {
            WorkloadType::Deployment
        }
    }

    /// The kind that a number on the wire names.
    pub fn from_i32(v: i32) -> (r: WorkloadType)
        ensures
            r == Self::of(v),
    {
        if v == 1 {
            WorkloadType::Cronjob
        } else if v == 2 {
            WorkloadType::Pod
        } else if v == 3 {
            WorkloadType::Job
        } else {
            WorkloadType::Deployment
        }
    }

    /// The name of the kind, in lower case.
    pub open spec fn name(self) -> Seq<char> {
        match self {
            WorkloadType::Deployment => "deployment"@,
            WorkloadType::Cronjob => "cronjob"@,
            WorkloadType::Pod => "pod"@,
            WorkloadType::Job => "job"@,
        }
    }

    /// The name of the kind, in lower case.
    pub fn lowercase_name(self) -> (r: String)
        ensures
            r@ == self.name(),
    {
        match self {
            WorkloadType::Deployment => "deployment".to_owned(),
            WorkloadType::Cronjob => "cronjob".to_owned(),
            WorkloadType::Pod => "pod".to_owned(),
            WorkloadType::Job => "job".to_owned(),
        }
    }
}

/// One mapping from a service port to a port of the workload.
#[derive(Debug, Clone, Copy, PartialEq, Eq, Hash, Structural)]
pub struct XdsPort {
    pub service_port: u32,
    pub target_port: u32,
}

/// The port mappings of one virtual address of a workload.
#[derive(Debug, Clone, PartialEq, Eq, Hash)]
pub struct PortList {
    pub ports: Vec<XdsPort>,
}

impl View for PortList {
    type V = Seq<XdsPort>;

    open spec fn view(&self) -> Seq<XdsPort> {
        self.ports@
    }
}

impl Record for PortList {
    fn duplicate(&self) -> (r: Self) {
        let mut ports: Vec<XdsPort> = Vec::new();
        let mut i: usize = 0;
        while i < self.ports.len()
            invariant
                i <= self.ports@.len(),
                ports@ == self.ports@.take(i as int),
            decreases self.ports@.len() - i,
        {
            ports.push(self.ports[i]);
            assert(self.ports@.take(i + 1) =~= self.ports@.take(i as int).push(
                self.ports@[i as int],
            ));
            i += 1;
        }
        assert(self.ports@.take(self.ports@.len() as int) =~= self.ports@);
        PortList { ports }
    }
}

/// The port map that a list of mappings stands for: each mapping binds
/// its service port, cut to 16 bits, to its target port, cut to 16 bits;
/// a later mapping of a port replaces an earlier one.
pub open spec fn port_map(ports: Seq<XdsPort>) -> Map<u16, u16>
    decreases ports.len(),
{
    if ports.len() == 0 {
        Map::empty()
    } else {
        port_map(ports.drop_last()).insert(
            ports.last().service_port as u16,
            ports.last().target_port as u16,
        )
    }
}

/// The port map that a list of mappings stands for.
pub fn ports_of(ports: &Vec<XdsPort>) -> (r: Table<u16, u16>)
    ensures
        r@ == port_map(ports@),
{
    let mut r: Table<u16, u16> = Table::new();
    let n = ports.len();
    let mut i: usize = 0;
    proof {
        assert(ports@.take(0) =~= Seq::<XdsPort>::empty());
    }
    while i < n
        invariant
            i <= n,
            n == ports@.len(),
            r@ == port_map(ports@.take(i as int)),
        decreases n - i,
    {
        let p = ports[i];
        proof {
            assert(ports@.take(i + 1).drop_last() =~= ports@.take(i as int));
            assert(ports@.take(i + 1).last() == p);
        }
        r.insert(
            #[verifier::truncate]
            (p.service_port as u16),
            #[verifier::truncate]
            (p.target_port as u16),
        );
        i += 1;
    }
    proof {
        assert(ports@.take(n as int) =~= ports@);
    }
    r
}

impl PortList {
    /// The mappings of a port map as a list, one for each bound port.
    pub fn from_ports(map: &Table<u16, u16>) -> (r: PortList)
        ensures
            port_map(r@) == map@,
            r@.len() == map@.len(),
    {
        let n = map.len();
        let mut ports: Vec<XdsPort> = Vec::new();
        let mut i: usize = 0;
        proof {
            assert(map@.restrict(map.keys().take(0).to_set()) =~= Map::<u16, u16>::empty());
        }
        while i < n
            invariant
                i <= n,
                n == map.keys().len(),
                crate::table::lists(map.keys(), map@),
                ports@.len() == i,
                port_map(ports@) == map@.restrict(map.keys().take(i as int).to_set()),
            decreases n - i,
        {
            let k = *map.key_at(i);
            let v = *map.value_at(i);
            let ghost before = ports@;
            ports.push(XdsPort { service_port: k as u32, target_port: v as u32 });
            proof {
                assert(ports@.drop_last() =~= before);
                assert((k as u32) as u16 == k);
                assert((v as u32) as u16 == v);
                crate::table::lemma_take_step(map.keys(), i as int);
                assert(port_map(ports@) =~= map@.restrict(map.keys().take(i + 1).to_set()));
            }
            i += 1;
        }
        proof {
            crate::table::lemma_take_ends(map.keys());
            assert(map@.restrict(map.keys().to_set()) =~= map@);
        }
        PortList { ports }
    }
}

/// An address with the name of its network.
#[derive(Debug, Clone, PartialEq, Eq, Hash)]
pub struct XdsNetworkAddress {
    pub network: String,
    pub address: Vec<u8>,
}

/// A hostname with its namespace.
#[derive(Debug, Clone, PartialEq, Eq, Hash)]
pub struct XdsNamespacedHostname {
    pub namespace: String,
    pub hostname: String,
}

/// Where a gateway is.
#[derive(Debug, Clone, PartialEq, Eq, Hash)]
pub enum XdsDestination {
    Address(XdsNetworkAddress),
    Hostname(XdsNamespacedHostname),
}

/// A gateway of a workload. On the wire the destination may be missing.
#[derive(Debug, Clone, PartialEq, Eq, Hash)]
pub struct XdsGatewayAddress {
    pub destination: Option<XdsDestination>,
    pub port: u32,
}

/// A workload as discovery describes it.
#[derive(Debug, Clone, PartialEq, Eq)]
pub struct XdsWorkload {
    pub uid: String,
    pub name: String,
    pub namespace: String,
    pub addresses: Vec<Bytes>,
    pub network: String,
    pub tunnel_protocol: i32,
    pub trust_domain: String,
    pub service_account: String,
    pub waypoint: Option<XdsGatewayAddress>,
    pub network_gateway: Option<XdsGatewayAddress>,
    pub node: String,
    pub canonical_name: String,
    pub canonical_revision: String,
    pub workload_type: i32,
    pub workload_name: String,
    pub native_tunnel: bool,
    /// From a virtual address, written `address` or `network/address`, to
    /// the ports that the workload serves behind it.
    pub virtual_ips: Table<String, PortList>,
    pub authorization_policies: Vec<String>,
    pub status: i32,
    pub cluster_id: String,
}

impl Default for XdsWorkload {
    /// The workload with every field empty or zero.
    fn default() -> (r: Self)
        ensures
            r.uid@.len() == 0,
            r.name@.len() == 0,
            r.namespace@.len() == 0,
            r.addresses@.len() == 0,
            r.network@.len() == 0,
            r.tunnel_protocol == 0,
            r.trust_domain@.len() == 0,
            r.service_account@.len() == 0,
            r.waypoint is None,
            r.network_gateway is None,
            r.node@.len() == 0,
            r.canonical_name@.len() == 0,
            r.canonical_revision@.len() == 0,
            r.workload_type == 0,
            r.workload_name@.len() == 0,
            !r.native_tunnel,
            r.virtual_ips@ == Map::<Seq<char>, Seq<XdsPort>>::empty(),
            r.authorization_policies@.len() == 0,
            r.status == 0,
            r.cluster_id@.len() == 0,
    {
        XdsWorkload {
            uid: String::new(),
            name: String::new(),
            namespace: String::new(),
            addresses: Vec::new(),
            network: String::new(),
            tunnel_protocol: 0,
            trust_domain: String::new(),
            service_account: String::new(),
            waypoint: None,
            network_gateway: None,
            node: String::new(),
            canonical_name: String::new(),
            canonical_revision: String::new(),
            workload_type: 0,
            workload_name: String::new(),
            native_tunnel: false,
            virtual_ips: Table::new(),
            authorization_policies: Vec::new(),
            status: 0,
            cluster_id: String::new(),
        }
    }
}

/// The bytes of each buffer of a list.
pub open spec fn buffers_view(v: Seq<Bytes>) -> Seq<Seq<u8>> {
    Seq::new(v.len(), |i: int| bytes_view(v[i]))
}

/// A service as discovery describes it.
#[derive(Debug, Clone, PartialEq, Eq, Hash)]
pub struct XdsService {
    pub name: String,
    pub namespace: String,
    pub hostname: String,
    pub addresses: Vec<XdsNetworkAddress>,
    pub ports: Vec<XdsPort>,
    pub subject_alt_names: Vec<String>,
}

/// What an address message carries.
#[derive(Debug, Clone, PartialEq, Eq)]
pub enum XdsType {
    Workload(XdsWorkload),
    Service(XdsService),
}

/// An address message: a workload or a service. On the wire the content
/// may be missing.
#[derive(Debug, Clone, PartialEq, Eq)]
pub struct XdsAddress {
    pub address_type: Option<XdsType>,
}

/// A named resource of an update.
#[derive(Debug, Clone, PartialEq, Eq)]
pub struct XdsResource<T> {
    pub name: String,
    pub resource: T,
}

/// One item of an update: a resource that arrived or changed, or the
/// name of one that went away.
#[derive(Debug, Clone, PartialEq, Eq)]
pub enum XdsUpdate<T> {
    Update(XdsResource<T>),
    Remove(String),
}

/// A test on a string, as discovery describes it.
#[derive(Debug, Clone, PartialEq, Eq, Hash)]
pub enum XdsMatchType {
    Exact(String),
    Prefix(String),
    Suffix(String),
    Presence,
}

/// A test on a string. On the wire the kind of test may be missing.
#[derive(Debug, Clone, PartialEq, Eq, Hash)]
pub struct XdsStringMatch {
    pub match_type: Option<XdsMatchType>,
}

/// A range of addresses: an address and the length of the prefix.
#[derive(Debug, Clone, PartialEq, Eq, Hash)]
pub struct XdsIpNet {
    pub address: Vec<u8>,
    pub length: u32,
}

/// One alternative of a clause of a rule.
#[derive(Debug, Clone, PartialEq, Eq, Hash)]
pub struct XdsMatch {
    pub namespaces: Vec<XdsStringMatch>,
    pub not_namespaces: Vec<XdsStringMatch>,
    pub principals: Vec<XdsStringMatch>,
    pub not_principals: Vec<XdsStringMatch>,
    pub source_ips: Vec<XdsIpNet>,
    pub not_source_ips: Vec<XdsIpNet>,
    pub destination_ips: Vec<XdsIpNet>,
    pub not_destination_ips: Vec<XdsIpNet>,
    pub destination_ports: Vec<u32>,
    pub not_destination_ports: Vec<u32>,
}

/// A clause of a rule: alternatives.
#[derive(Debug, Clone, PartialEq, Eq, Hash)]
pub struct XdsClause {
    pub matches: Vec<XdsMatch>,
}

/// A rule of a policy: clauses.
#[derive(Debug, Clone, PartialEq, Eq, Hash)]
pub struct XdsRule {
    pub clauses: Vec<XdsClause>,
}

/// A policy as discovery describes it. The scope is 0 for the whole mesh,
/// 1 for the namespace, 2 for the workloads that name the policy; the
/// action is 0 to allow and 1 to deny.
#[derive(Debug, Clone, PartialEq, Eq, Hash)]
pub struct XdsAuthorization {
    pub name: String,
    pub namespace: String,
    pub scope: i32,
    pub action: i32,
    pub rules: Vec<XdsRule>,
}

} // verus!
