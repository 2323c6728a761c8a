//! From the messages of the discovery channel to the records of the store.
//!
//! A message is refused where it names no variant of an enumeration, where
//! an address is not four or sixteen bytes long, or where a gateway has no
//! destination. The first fault found decides the error.

use crate::discovery::{
    buffers_view, port_map, ports_of, TunnelProtocol, WorkloadStatus, WorkloadType, XdsDestination,
    XdsGatewayAddress, XdsNetworkAddress, XdsService, XdsWorkload,
};
use crate::ip::{ip_of_octets, IpAddr};
use crate::outside::bytes_view;
use crate::service::{Service, ServiceView};
use crate::table::{key_views, Table};
use crate::workload::{
    byte_to_ip, duplicate_strings, strings_view, Destination, DestinationView, GatewayAddress,
    GatewayAddressView, HealthStatus, NamespacedHostname, NamespacedHostnameView, NetworkAddress,
    NetworkAddressView, Protocol, Workload, WorkloadError, WorkloadErrorView, WorkloadView,
};
use bytes::Bytes;
use vstd::prelude::*;

verus! {

/// The error for a number that names no variant.
pub open spec fn unknown_type() -> WorkloadErrorView {
    WorkloadErrorView::EnumParse("unknown type"@)
}

fn unknown_type_error() -> (e: WorkloadError)
    ensures
        e@ == unknown_type(),
{
    WorkloadError::EnumParse("unknown type".to_owned())
}

/// The protocol that the protocol of a message stands for.
pub open spec fn protocol_of(value: Option<TunnelProtocol>) -> Result<Protocol, WorkloadErrorView> {
    match value {
        Some(TunnelProtocol::Hbone) => Ok(Protocol::HBONE),
        Some(TunnelProtocol::Plain) => Ok(Protocol::TCP),
        None => Err(unknown_type()),
    }
}

/// The health that the status of a message stands for.
pub open spec fn health_of(value: Option<WorkloadStatus>) -> Result<
    HealthStatus,
    WorkloadErrorView,
> {
    match value {
        Some(WorkloadStatus::Healthy) => Ok(HealthStatus::Healthy),
        Some(WorkloadStatus::Unhealthy) => Ok(HealthStatus::Unhealthy),
        None => Err(unknown_type()),
    }
}

/// The view of a protocol or an error.
pub open spec fn protocol_result(r: Result<Protocol, WorkloadError>) -> Result<
    Protocol,
    WorkloadErrorView,
> {
    match r {
        Ok(p) => Ok(p),
        Err(e) => Err(e@),
    }
}

/// The view of a health status or an error.
pub open spec fn health_result(r: Result<HealthStatus, WorkloadError>) -> Result<
    HealthStatus,
    WorkloadErrorView,
> {
    match r {
        Ok(p) => Ok(p),
        Err(e) => Err(e@),
    }
}

impl Protocol {
    /// Reads the protocol of a message; none where the number on the
    /// wire named no protocol.
    pub fn try_from(value: Option<TunnelProtocol>) -> (r: Result<Protocol, WorkloadError>)
        ensures
            protocol_result(r) == protocol_of(value),
    {
        match value {
            Some(TunnelProtocol::Hbone) => Ok(Protocol::HBONE),
            Some(TunnelProtocol::Plain) => Ok(Protocol::TCP),
            None => Err(unknown_type_error()),
        }
    }
}

impl HealthStatus {
    /// Reads the status of a message; none where the number on the wire
    /// named no status.
    pub fn try_from(value: Option<WorkloadStatus>) -> (r: Result<HealthStatus, WorkloadError>)
        ensures
            health_result(r) == health_of(value),
    {
        match value {
            Some(WorkloadStatus::Healthy) => Ok(HealthStatus::Healthy),
            Some(WorkloadStatus::Unhealthy) => Ok(HealthStatus::Unhealthy),
            None => Err(unknown_type_error()),
        }
    }
}

/// The address that a run of bytes stands for.
pub open spec fn address_of(o: Seq<u8>) -> Result<IpAddr, WorkloadErrorView> {
    match ip_of_octets(o) {
        Some(ip) => Ok(ip),
        None => Err(WorkloadErrorView::ByteAddressParse(o.len() as usize)),
    }
}

/// The addresses that a list of runs of bytes stands for; the error of
/// the first run that is no address.
pub open spec fn addresses_of(a: Seq<Seq<u8>>) -> Result<Seq<IpAddr>, WorkloadErrorView>
    decreases a.len(),
{
    if a.len() == 0 {
        Ok(Seq::empty())
    } else {
        match addresses_of(a.drop_last()) {
            Err(e) => Err(e),
            Ok(ips) => match address_of(a.last()) {
                Err(e) => Err(e),
                Ok(ip) => Ok(ips.push(ip)),
            },
        }
    }
}

/// The address with its network that a message names.
pub open spec fn network_address_of(a: XdsNetworkAddress) -> Result<
    NetworkAddressView,
    WorkloadErrorView,
> {
    match address_of(a.address@) {
        Ok(ip) => Ok(NetworkAddressView { network: a.network@, address: ip }),
        Err(e) => Err(e),
    }
}

/// The gateway that a message names.
pub open spec fn gateway_of(g: XdsGatewayAddress) -> Result<GatewayAddressView, WorkloadErrorView> {
    match g.destination {
        Some(XdsDestination::Address(a)) => match network_address_of(a) {
            Ok(na) => Ok(
                GatewayAddressView { destination: DestinationView::Address(na), port: g.port as u16 },
            ),
            Err(e) => Err(e),
        },
        Some(XdsDestination::Hostname(h)) => Ok(
            GatewayAddressView {
                destination: DestinationView::Hostname(
                    NamespacedHostnameView { namespace: h.namespace@, hostname: h.hostname@ },
                ),
                port: g.port as u16,
            },
        ),
        None => Err(WorkloadErrorView::MissingGatewayAddress),
    }
}

/// The gateway that a message names, if it names one.
pub open spec fn gateway_opt_of(o: Option<XdsGatewayAddress>) -> Result<
    Option<GatewayAddressView>,
    WorkloadErrorView,
> {
    match o {
        None => Ok(None),
        Some(g) => match gateway_of(g) {
            Ok(v) => Ok(Some(v)),
            Err(e) => Err(e),
        },
    }
}

/// `s`, or `d` where `s` is empty.
pub open spec fn or_default(s: Seq<char>, d: Seq<char>) -> Seq<char> {
    if s.len() == 0 {
        d
    } else {
        s
    }
}

/// The workload that a message describes. An empty trust domain reads
/// `cluster.local`, an empty service account `default`, an empty cluster
/// `Kubernetes`. The message is refused for a fault in its waypoint, its
/// network gateway, its addresses, its protocol or its status; the first
/// of these that has a fault decides the error.
pub open spec fn workload_of(x: XdsWorkload) -> Result<WorkloadView, WorkloadErrorView> {
    match gateway_opt_of(x.waypoint) {
        Err(e) => Err(e),
        Ok(waypoint) => match gateway_opt_of(x.network_gateway) {
            Err(e) => Err(e),
            Ok(network_gateway) => match addresses_of(buffers_view(x.addresses@)) {
                Err(e) => Err(e),
                Ok(workload_ips) => match protocol_of(TunnelProtocol::of(x.tunnel_protocol)) {
                    Err(e) => Err(e),
                    Ok(protocol) => match health_of(WorkloadStatus::of(x.status)) {
                        Err(e) => Err(e),
                        Ok(status) => Ok(
                            WorkloadView {
                                workload_ips,
                                waypoint,
                                network_gateway,
                                gateway_address: None,
                                protocol,
                                uid: x.uid@,
                                name: x.name@,
                                namespace: x.namespace@,
                                trust_domain: or_default(x.trust_domain@, "cluster.local"@),
                                service_account: or_default(x.service_account@, "default"@),
                                network: x.network@,
                                workload_name: x.workload_name@,
                                workload_type: WorkloadType::of(x.workload_type).name(),
                                canonical_name: x.canonical_name@,
                                canonical_revision: x.canonical_revision@,
                                node: x.node@,
                                native_tunnel: x.native_tunnel,
                                authorization_policies: strings_view(x.authorization_policies@),
                                status,
                                cluster_id: or_default(x.cluster_id@, "Kubernetes"@),
                            },
                        ),
                    },
                },
            },
        },
    }
}

/// The view of a gateway or an error.
pub open spec fn gateway_result(r: Result<GatewayAddress, WorkloadError>) -> Result<
    GatewayAddressView,
    WorkloadErrorView,
> {
    match r {
        Ok(g) => Ok(g@),
        Err(e) => Err(e@),
    }
}

/// The view of a workload or an error.
pub open spec fn workload_result(r: Result<Workload, WorkloadError>) -> Result<
    WorkloadView,
    WorkloadErrorView,
> {
    match r {
        Ok(w) => Ok(w@),
        Err(e) => Err(e@),
    }
}

/// The view of a service or an error.
pub open spec fn service_result(r: Result<Service, WorkloadError>) -> Result<
    ServiceView,
    WorkloadErrorView,
> {
    match r {
        Ok(s) => Ok(s@),
        Err(e) => Err(e@),
    }
}

fn read_address(o: &Vec<u8>) -> (r: Result<IpAddr, WorkloadError>)
    ensures
        match r {
            Ok(ip) => address_of(o@) == Ok::<IpAddr, WorkloadErrorView>(ip),
            Err(e) => address_of(o@) == Err::<IpAddr, WorkloadErrorView>(e@),
        },
{
    byte_to_ip(&Bytes::copy_from_slice(o.as_slice()))
}

fn or_default_string(s: &String, d: &str) -> (r: String)
    ensures
        r@ == or_default(s@, d@),
{
    if s.as_str().unicode_len() == 0 {
        d.to_owned()
    } else {
        s.clone()
    }
}

impl GatewayAddress {
    /// Reads the gateway of a message.
    pub fn try_from(value: &XdsGatewayAddress) -> (r: Result<GatewayAddress, WorkloadError>)
        ensures
            gateway_result(r) == gateway_of(*value),
    {
        match &value.destination {
            Some(XdsDestination::Address(addr)) => {
                match read_address(&addr.address) {
                    Ok(ip) => Ok(
                        GatewayAddress {
                            destination: Destination::Address(
                                NetworkAddress { network: addr.network.clone(), address: ip },
                            ),
                            port: #[verifier::truncate]
                            (value.port as u16),
                        },
                    ),
                    Err(e) => Err(e),
                }
            },
            Some(XdsDestination::Hostname(hn)) => Ok(
                GatewayAddress {
                    destination: Destination::Hostname(
                        NamespacedHostname {
                            namespace: hn.namespace.clone(),
                            hostname: hn.hostname.clone(),
                        },
                    ),
                    port: #[verifier::truncate]
                    (value.port as u16),
                },
            ),
            None => Err(WorkloadError::MissingGatewayAddress),
        }
    }
}

fn read_gateway(o: &Option<XdsGatewayAddress>) -> (r: Result<Option<GatewayAddress>, WorkloadError>)
    ensures
        match r {
            Ok(g) => gateway_opt_of(*o) == Ok::<Option<GatewayAddressView>, WorkloadErrorView>(
                crate::workload::gateway_opt(g),
            ),
            Err(e) => gateway_opt_of(*o) == Err::<Option<GatewayAddressView>, WorkloadErrorView>(
                e@,
            ),
        },
{
    match o {
        Some(w) => match GatewayAddress::try_from(w) {
            Ok(g) => Ok(Some(g)),
            Err(e) => Err(e),
        },
        None => Ok(None),
    }
}

impl Workload {
    /// Reads the workload that a message describes.
    pub fn try_from(resource: &XdsWorkload) -> (r: Result<Workload, WorkloadError>)
        ensures
            workload_result(r) == workload_of(*resource),
    {
        let wp = match read_gateway(&resource.waypoint) {
            Ok(g) => g,
            Err(e) => {
                return Err(e);
            },
        };
        let network_gw = match read_gateway(&resource.network_gateway) {
            Ok(g) => g,
            Err(e) => {
                return Err(e);
            },
        };
        let ghost bufs = buffers_view(resource.addresses@);
        let n = resource.addresses.len();
        let mut addresses: Vec<IpAddr> = Vec::new();
        let mut i: usize = 0;
        proof {
            assert(bufs.take(0) =~= Seq::<Seq<u8>>::empty());
        }
        while i < n
            invariant
                i <= n,
                n == resource.addresses@.len(),
                bufs == buffers_view(resource.addresses@),
                gateway_opt_of(resource.waypoint) is Ok,
                gateway_opt_of(resource.network_gateway) is Ok,
                addresses_of(bufs.take(i as int)) == Ok::<Seq<IpAddr>, WorkloadErrorView>(
                    addresses@,
                ),
            decreases n - i,
        {
            proof {
                assert(bufs.take(i + 1).drop_last() =~= bufs.take(i as int));
                assert(bufs.take(i + 1).last() == bytes_view(resource.addresses@[i as int]));
            }
            match byte_to_ip(&resource.addresses[i]) {
                Ok(ip) => {
                    addresses.push(ip);
                },
                Err(e) => {
                    proof {
                        assert(address_of(bufs.take(i + 1).last()) == Err::<
                            IpAddr,
                            WorkloadErrorView,
                        >(e@));
                        assert(addresses_of(bufs.take(i + 1)) == Err::<
                            Seq<IpAddr>,
                            WorkloadErrorView,
                        >(e@));
                        lemma_addresses_fail(bufs, i + 1);
                    }
                    return Err(e);
                },
            }
            i += 1;
        }
        proof {
            assert(bufs.take(n as int) =~= bufs);
        }
        let workload_type = WorkloadType::from_i32(resource.workload_type).lowercase_name();
        let protocol = match Protocol::try_from(TunnelProtocol::from_i32(resource.tunnel_protocol)) {
            Ok(p) => p,
            Err(e) => {
                return Err(e);
            },
        };
        let status = match HealthStatus::try_from(WorkloadStatus::from_i32(resource.status)) {
            Ok(s) => s,
            Err(e) => {
                return Err(e);
            },
        };
        Ok(
            Workload {
                workload_ips: addresses,
                waypoint: wp,
                network_gateway: network_gw,
                gateway_address: None,
                protocol,
                uid: resource.uid.clone(),
                name: resource.name.clone(),
                namespace: resource.namespace.clone(),
                trust_domain: or_default_string(&resource.trust_domain, "cluster.local"),
                service_account: or_default_string(&resource.service_account, "default"),
                network: resource.network.clone(),
                workload_name: resource.workload_name.clone(),
                workload_type,
                canonical_name: resource.canonical_name.clone(),
                canonical_revision: resource.canonical_revision.clone(),
                node: resource.node.clone(),
                native_tunnel: resource.native_tunnel,
                authorization_policies: duplicate_strings(&resource.authorization_policies),
                status,
                cluster_id: or_default_string(&resource.cluster_id, "Kubernetes"),
            },
        )
    }
}

/// A fault among the first `i` runs is a fault of the whole list, and the
/// same one.
pub proof fn lemma_addresses_fail(a: Seq<Seq<u8>>, i: int)
    requires
        0 <= i <= a.len(),
        addresses_of(a.take(i)) is Err,
    ensures
        addresses_of(a) == addresses_of(a.take(i)),
    decreases a.len() - i,
{
    if i < a.len() {
        assert(a.take(i + 1).drop_last() =~= a.take(i));
        lemma_addresses_fail(a, i + 1);
    } else {
        assert(a.take(i) =~= a);
    }
}

/// The addresses with their networks that a list of messages names; the
/// error of the first that is no address.
pub open spec fn network_addresses_of(a: Seq<XdsNetworkAddress>) -> Result<
    Seq<NetworkAddressView>,
    WorkloadErrorView,
>
    decreases a.len(),
{
    if a.len() == 0 {
        Ok(Seq::empty())
    } else {
        match network_addresses_of(a.drop_last()) {
            Err(e) => Err(e),
            Ok(front) => match network_address_of(a.last()) {
                Err(e) => Err(e),
                Ok(na) => Ok(front.push(na)),
            },
        }
    }
}

/// A fault among the first `i` addresses is a fault of the whole list,
/// and the same one.
pub proof fn lemma_network_addresses_fail(a: Seq<XdsNetworkAddress>, i: int)
    requires
        0 <= i <= a.len(),
        network_addresses_of(a.take(i)) is Err,
    ensures
        network_addresses_of(a) == network_addresses_of(a.take(i)),
    decreases a.len() - i,
{
    if i < a.len() {
        assert(a.take(i + 1).drop_last() =~= a.take(i));
        lemma_network_addresses_fail(a, i + 1);
    } else {
        assert(a.take(i) =~= a);
    }
}

/// The service that a message describes, without endpoints.
pub open spec fn service_of(x: XdsService) -> Result<ServiceView, WorkloadErrorView> {
    match network_addresses_of(x.addresses@) {
        Err(e) => Err(e),
        Ok(vips) => Ok(
            ServiceView {
                name: x.name@,
                namespace: x.namespace@,
                hostname: x.hostname@,
                vips,
                ports: port_map(x.ports@),
                endpoints: Map::empty(),
                subject_alt_names: strings_view(x.subject_alt_names@),
            },
        ),
    }
}

impl Service {
    /// Reads the service that a message describes. It has no endpoints yet.
    pub fn try_from(s: &XdsService) -> (r: Result<Service, WorkloadError>)
        ensures
            service_result(r) == service_of(*s),
    {
        let n = s.addresses.len();
        let mut vips: Vec<NetworkAddress> = Vec::new();
        let mut i: usize = 0;
        proof {
            assert(s.addresses@.take(0) =~= Seq::<XdsNetworkAddress>::empty());
            assert(key_views(vips@) =~= Seq::<NetworkAddressView>::empty());
        }
        while i < n
            invariant
                i <= n,
                n == s.addresses@.len(),
                network_addresses_of(s.addresses@.take(i as int)) == Ok::<
                    Seq<NetworkAddressView>,
                    WorkloadErrorView,
                >(key_views(vips@)),
            decreases n - i,
        {
            let addr = &s.addresses[i];
            proof {
                assert(s.addresses@.take(i + 1).drop_last() =~= s.addresses@.take(i as int));
                assert(s.addresses@.take(i + 1).last() == *addr);
            }
            match read_address(&addr.address) {
                Ok(ip) => {
                    let ghost before = key_views(vips@);
                    let na = NetworkAddress { network: addr.network.clone(), address: ip };
                    vips.push(na);
                    proof {
                        assert(key_views(vips@) =~= before.push(na@));
                    }
                },
                Err(e) => {
                    proof {
                        lemma_network_addresses_fail(s.addresses@, i + 1);
                    }
                    return Err(e);
                },
            }
            i += 1;
        }
        proof {
            assert(s.addresses@.take(n as int) =~= s.addresses@);
        }
        Ok(
            Service {
                name: s.name.clone(),
                namespace: s.namespace.clone(),
                hostname: s.hostname.clone(),
                vips,
                ports: ports_of(&s.ports),
                endpoints: Table::new(),
                subject_alt_names: duplicate_strings(&s.subject_alt_names),
            },
        )
    }
}

} // verus!
