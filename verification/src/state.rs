//! The mesh state as a whole: workloads, policies and services, and the
//! questions that the data path asks of them.

use crate::ip::{IpAddr, SocketAddr};
use crate::outside::random_below;
use crate::rbac::{AuthorizationView, Connection, ConnectionView, RbacAction};
use crate::service::{Service, ServiceStore, ServiceStoreView, ServiceView};
use crate::store::{policies_view, WorkloadStore, WorkloadStoreView};
use crate::table::Record;
use crate::workload::{
    network_addr, NetworkAddress, NetworkAddressView, Protocol, Workload, WorkloadView,
};
use vstd::prelude::*;

verus! {

/// What an address resolves to.
#[derive(Debug)]
pub enum Address {
    Workload(Box<Workload>),
    Service(Box<Service>),
}

/// What an `Address` stands for.
pub enum AddressView {
    Workload(WorkloadView),
    Service(ServiceView),
}

impl View for Address {
    type V = AddressView;

    open spec fn view(&self) -> AddressView {
        match self {
            Address::Workload(w) => AddressView::Workload(w@),
            Address::Service(s) => AddressView::Service(s@),
        }
    }
}

/// The view of an optional resolution.
pub open spec fn address_opt(o: Option<Address>) -> Option<AddressView> {
    match o {
        Some(a) => Some(a@),
        None => None,
    }
}

/// The view of an optional workload.
pub open spec fn workload_opt(o: Option<Workload>) -> Option<WorkloadView> {
    match o {
        Some(w) => Some(w@),
        None => None,
    }
}

/// Where to send traffic for a destination: the workload, with the
/// address to connect to filled in, and the port on the workload.
#[derive(Debug, Clone, PartialEq, Eq)]
pub struct Upstream {
    pub workload: Workload,
    pub port: u16,
}

/// What an `Upstream` stands for.
pub struct UpstreamView {
    pub workload: WorkloadView,
    pub port: u16,
}

impl View for Upstream {
    type V = UpstreamView;

    open spec fn view(&self) -> UpstreamView {
        UpstreamView { workload: self.workload@, port: self.port }
    }
}

/// The view of an optional upstream.
pub open spec fn upstream_opt(o: Option<Upstream>) -> Option<UpstreamView> {
    match o {
        Some(u) => Some(u@),
        None => None,
    }
}

/// The upstream for workload `w` reached at `ip`, port `port`. Where the
/// workload names no address to connect to, that address is `ip`, with
/// the tunnel port `hbone_port` for a tunnelled workload and `port` for a
/// plain one.
pub open spec fn upstream_of(w: WorkloadView, ip: IpAddr, port: u16, hbone_port: u16) -> UpstreamView {
    UpstreamView {
        workload: WorkloadView {
            gateway_address: if w.gateway_address is Some {
                w.gateway_address
            } else {
                Some(
                    SocketAddr {
                        ip,
                        port: if w.protocol == Protocol::HBONE {
                            hbone_port
                        } else {
                            port
                        },
                    },
                )
            },
            ..w
        },
        port,
    }
}

/// The state of the mesh as this proxy knows it.
#[derive(Debug)]
pub struct ProxyState {
    pub workloads: WorkloadStore,
    pub services: ServiceStore,
}

/// What a `ProxyState` stands for.
pub struct ProxyStateView {
    pub workloads: WorkloadStoreView,
    pub services: ServiceStoreView,
}

impl View for ProxyState {
    type V = ProxyStateView;

    open spec fn view(&self) -> ProxyStateView {
        ProxyStateView { workloads: self.workloads@, services: self.services@ }
    }
}

impl ProxyStateView {
    /// The state in which nothing is known.
    pub open spec fn empty() -> Self {
        ProxyStateView { workloads: WorkloadStoreView::empty(), services: ServiceStoreView::empty() }
    }

    /// The workload that owns the address, if one does.
    pub open spec fn workload_at(self, a: NetworkAddressView) -> Option<WorkloadView> {
        if self.workloads.by_addr.contains_key(a) {
            Some(self.workloads.by_addr[a])
        } else {
            None
        }
    }

    /// What the address resolves to: the workload that owns it, else the
    /// service that owns it, else nothing.
    pub open spec fn resolve(self, a: NetworkAddressView) -> Option<AddressView> {
        match self.workload_at(a) {
            Some(w) => Some(AddressView::Workload(w)),
            None => match self.services.service_at(a) {
                Some(s) => Some(AddressView::Service(s)),
                None => None,
            },
        }
    }

    /// The upstream for `addr` taken as a workload address.
    pub open spec fn direct(self, network: Seq<char>, addr: SocketAddr, hbone_port: u16) -> Option<
        UpstreamView,
    > {
        match self.workload_at(NetworkAddressView { network, address: addr.ip }) {
            Some(w) => Some(upstream_of(w, addr.ip, addr.port, hbone_port)),
            None => None,
        }
    }

    /// The upstream for the service `svc` at port `port` through its
    /// endpoint of the workload address `e`: the workload that owns `e`,
    /// at the port that the endpoint maps `port` to, or else the service
    /// does. None where the service does not know the port, has no such
    /// endpoint, or no workload owns the endpoint's address.
    pub open spec fn through(
        self,
        svc: ServiceView,
        port: u16,
        hbone_port: u16,
        e: NetworkAddressView,
    ) -> Option<UpstreamView> {
        if svc.ports.contains_key(port) && svc.endpoints.contains_key(e) {
            let ep = svc.endpoints[e];
            match self.workload_at(ep.address) {
                Some(w) => Some(
                    upstream_of(
                        w,
                        ep.address.address,
                        if ep.port.contains_key(port) {
                            ep.port[port]
                        } else {
                            svc.ports[port]
                        },
                        hbone_port,
                    ),
                ),
                None => None,
            }
        } else {
            None
        }
    }

    /// Whether policy lets the connection through: its destination is a
    /// known workload, and either no policy applies to that workload, or
    /// no applying policy that denies matches the connection and one that
    /// allows does.
    pub open spec fn permits(self, c: ConnectionView) -> bool {
        match self.workload_at(NetworkAddressView { network: c.dst_network, address: c.dst.ip }) {
            Some(w) => {
                ||| forall|p: AuthorizationView| !self.workloads.applies(w, p)
                ||| {
                    &&& !exists|p: AuthorizationView|
                        self.workloads.applies(w, p) && p.action == RbacAction::Deny && p.matches(c)
                    &&& exists|p: AuthorizationView|
                        self.workloads.applies(w, p) && p.action == RbacAction::Allow && p.matches(
                            c,
                        )
                }
            },
            None => false,
        }
    }
}

/// The workload with the address to connect to filled in.
fn make_upstream(w: Workload, ip: IpAddr, port: u16, hbone_port: u16) -> (r: Upstream)
    ensures
        r@ == upstream_of(w@, ip, port, hbone_port),
{
    let mut w = w;
    if w.gateway_address.is_none() {
        let to = match w.protocol {
            Protocol::HBONE => hbone_port,
            Protocol::TCP => port,
        };
        w.gateway_address = Some(SocketAddr { ip, port: to });
    }
    Upstream { workload: w, port }
}

impl ProxyState {
    /// The state in which nothing is known.
    pub fn new() -> (s: Self)
        ensures
            s@ == ProxyStateView::empty(),
    {
        ProxyState { workloads: WorkloadStore::new(), services: ServiceStore::new() }
    }

    /// The workload that owns the address, if one does.
    pub fn find_workload(&self, addr: &NetworkAddress) -> (r: Option<Workload>)
        ensures
            workload_opt(r) == self@.workload_at(addr@),
    {
        self.workloads.find_workload(addr)
    }

    /// What the address resolves to: first a workload, then a service.
    pub fn fetch_address(&self, addr: &NetworkAddress) -> (r: Option<Address>)
        ensures
            address_opt(r) == self@.resolve(addr@),
    {
        match self.workloads.find_workload(addr) {
            Some(w) => Some(Address::Workload(Box::new(w))),
            None => match self.services.get_by_vip(addr) {
                Some(s) => Some(Address::Service(Box::new(s))),
                None => None,
            },
        }
    }

    /// The upstream for a destination that is a service address, through
    /// the endpoint of the workload address `endpoint`.
    pub fn upstream_through(
        &self,
        svc: &Service,
        port: u16,
        hbone_port: u16,
        endpoint: &NetworkAddress,
    ) -> (r: Option<Upstream>)
        ensures
            upstream_opt(r) == self@.through(svc@, port, hbone_port, endpoint@),
    {
        let target_port: u16 = match svc.ports.get(&port) {
            Some(p) => *p,
            None => {
                return None;
            },
        };
        let ep = match svc.endpoints.get(endpoint) {
            Some(ep) => ep,
            None => {
                return None;
            },
        };
        let wl = match self.workloads.find_workload(&ep.address) {
            Some(wl) => wl,
            None => {
                return None;
            },
        };
        let target_port = match ep.port.get(&port) {
            Some(p) => *p,
            None => target_port,
        };
        Some(make_upstream(wl, ep.address.address, target_port, hbone_port))
    }

    /// Where to send traffic for `addr` on `network`. A service address
    /// resolves to one of the service's endpoints, drawn at random with
    /// equal chance, and to the workload behind it; any other address is
    /// taken as the address of a workload.
    pub fn find_upstream(&self, network: &str, addr: SocketAddr, hbone_port: u16) -> (r: Option<
        Upstream,
    >)
        ensures
            match self@.services.service_at(
                NetworkAddressView { network: network@, address: addr.ip },
            ) {
                Some(svc) => if svc.ports.contains_key(addr.port) && exists|
                    e: NetworkAddressView,
                |
                    svc.endpoints.contains_key(e) {
                    exists|e: NetworkAddressView|
                        svc.endpoints.contains_key(e) && upstream_opt(r) == self@.through(
                            svc,
                            addr.port,
                            hbone_port,
                            e,
                        )
                } else {
                    r is None
                },
                None => upstream_opt(r) == self@.direct(network@, addr, hbone_port),
            },
    {
        let vip = network_addr(network, addr.ip);
        match self.services.get_by_vip(&vip) {
            Some(svc) => {
                if !svc.ports.contains_key(&addr.port) {
                    return None;
                }
                let candidates = svc.endpoints.key_list();
                let n = candidates.len();
                if n == 0 {
                    proof {
                        assert forall|e: NetworkAddressView| !svc@.endpoints.contains_key(e) by {
                            if svc@.endpoints.contains_key(e) {
                                assert(svc.endpoints.keys().contains(e));
                            }
                        }
                    }
                    return None;
                }
                let pick = random_below(n);
                let chosen = &candidates[pick];
                proof {
                    assert(svc.endpoints.keys()[pick as int] == chosen@);
                    assert(svc.endpoints.keys().contains(chosen@));
                    assert(svc@.endpoints.contains_key(chosen@));
                }
                self.upstream_through(&svc, addr.port, hbone_port, chosen)
            },
            None => match self.workloads.find_workload(&vip) {
                Some(wl) => Some(make_upstream(wl, addr.ip, addr.port, hbone_port)),
                None => None,
            },
        }
    }

    /// Whether policy lets the connection through.
    pub fn assert_rbac(&self, conn: &Connection) -> (r: bool)
        ensures
            r == self@.permits(conn@),
    {
        let addr = network_addr(conn.dst_network.as_str(), conn.dst.ip);
        let wl = match self.workloads.find_workload(&addr) {
            Some(wl) => wl,
            None => {
                return false;
            },
        };
        let policies = self.workloads.policies_for(&wl);
        let ghost pv = policies_view(policies@);
        let n = policies.len();
        if n == 0 {
            proof {
                assert forall|p: AuthorizationView| !self@.workloads.applies(wl@, p) by {
                    if self@.workloads.applies(wl@, p) {
                        assert(pv.contains(p));
                    }
                }
            }
            return true;
        }
        let mut denied = false;
        let mut allowed = false;
        let mut i: usize = 0;
        while i < n
            invariant
                i <= n,
                n == policies@.len(),
                pv == policies_view(policies@),
                denied == exists|j: int|
                    0 <= j < i && (#[trigger] pv[j]).action == RbacAction::Deny && pv[j].matches(
                        conn@,
                    ),
                allowed == exists|j: int|
                    0 <= j < i && (#[trigger] pv[j]).action == RbacAction::Allow && pv[j].matches(
                        conn@,
                    ),
            decreases n - i,
        {
            let p = &policies[i];
            assert(pv[i as int] == p@);
            if p.matches(conn) {
                match p.action {
                    RbacAction::Deny => {
                        denied = true;
                    },
                    RbacAction::Allow => {
                        allowed = true;
                    },
                }
            }
            i += 1;
        }
        proof {
            let w = wl@;
            let c = conn@;
            assert(pv.contains(pv[0]));
            assert(self@.workloads.applies(w, pv[0]));
            if denied {
                let j = choose|j: int|
                    0 <= j < n && (#[trigger] pv[j]).action == RbacAction::Deny && pv[j].matches(c);
                assert(pv.contains(pv[j]));
                assert(self@.workloads.applies(w, pv[j]));
            }
            if allowed {
                let j = choose|j: int|
                    0 <= j < n && (#[trigger] pv[j]).action == RbacAction::Allow && pv[j].matches(
                        c,
                    );
                assert(pv.contains(pv[j]));
                assert(self@.workloads.applies(w, pv[j]));
            }
            if exists|p: AuthorizationView|
                self@.workloads.applies(w, p) && p.action == RbacAction::Deny && p.matches(c) {
                let p = choose|p: AuthorizationView|
                    self@.workloads.applies(w, p) && p.action == RbacAction::Deny && p.matches(c);
                assert(pv.contains(p));
                let j = choose|j: int| 0 <= j < pv.len() && pv[j] == p;
                assert(pv[j].action == RbacAction::Deny && pv[j].matches(c));
            }
            if exists|p: AuthorizationView|
                self@.workloads.applies(w, p) && p.action == RbacAction::Allow && p.matches(c) {
                let p = choose|p: AuthorizationView|
                    self@.workloads.applies(w, p) && p.action == RbacAction::Allow && p.matches(c);
                assert(pv.contains(p));
                let j = choose|j: int| 0 <= j < pv.len() && pv[j] == p;
                assert(pv[j].action == RbacAction::Allow && pv[j].matches(c));
            }
        }
        !denied && allowed
    }
}

} // verus!
