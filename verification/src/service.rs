//! Services: virtual addresses in front of sets of endpoints.
//!
//! Endpoints may arrive before the service they belong to. They wait in a
//! staging area under the service's address and join the service when it
//! arrives.

use crate::table::{bind, key_views, lists, Record, Table};
use crate::workload::{
    duplicate_strings, strings_view, NamespacedHostname, NamespacedHostnameView, NetworkAddress,
    NetworkAddressView,
};
use vstd::prelude::*;

verus! {

/// One backing address of a service, with its own port mapping.
#[derive(Debug, Clone, PartialEq, Eq)]
pub struct Endpoint {
    /// The virtual address of the service.
    pub vip: NetworkAddress,
    /// The address of the workload behind it.
    pub address: NetworkAddress,
    /// From service port to the port of the workload.
    pub port: Table<u16, u16>,
}

/// What an `Endpoint` stands for.
pub struct EndpointView {
    pub vip: NetworkAddressView,
    pub address: NetworkAddressView,
    pub port: Map<u16, u16>,
}

impl View for Endpoint {
    type V = EndpointView;

    open spec fn view(&self) -> EndpointView {
        EndpointView { vip: self.vip@, address: self.address@, port: self.port@ }
    }
}

impl Record for Endpoint {
    fn duplicate(&self) -> (r: Self) {
        Endpoint {
            vip: self.vip.duplicate(),
            address: self.address.duplicate(),
            port: self.port.duplicate(),
        }
    }
}

/// The endpoints of a service, by workload address.
pub type Endpoints = Map<NetworkAddressView, EndpointView>;

/// A virtual front for a set of endpoints.
#[derive(Debug, Clone, PartialEq, Eq)]
pub struct Service {
    pub name: String,
    pub namespace: String,
    pub hostname: String,
    pub vips: Vec<NetworkAddress>,
    /// From service port to target port.
    pub ports: Table<u16, u16>,
    /// The endpoints, by workload address.
    pub endpoints: Table<NetworkAddress, Endpoint>,
    pub subject_alt_names: Vec<String>,
}

/// What a `Service` stands for.
pub struct ServiceView {
    pub name: Seq<char>,
    pub namespace: Seq<char>,
    pub hostname: Seq<char>,
    pub vips: Seq<NetworkAddressView>,
    pub ports: Map<u16, u16>,
    pub endpoints: Endpoints,
    pub subject_alt_names: Seq<Seq<char>>,
}

impl View for Service {
    type V = ServiceView;

    open spec fn view(&self) -> ServiceView {
        ServiceView {
            name: self.name@,
            namespace: self.namespace@,
            hostname: self.hostname@,
            vips: key_views(self.vips@),
            ports: self.ports@,
            endpoints: self.endpoints@,
            subject_alt_names: strings_view(self.subject_alt_names@),
        }
    }
}

/// Copies a list of addresses.
pub fn duplicate_addresses(v: &Vec<NetworkAddress>) -> (r: Vec<NetworkAddress>)
    ensures
        key_views(r@) == key_views(v@),
{
    let mut r: Vec<NetworkAddress> = Vec::new();
    let mut i: usize = 0;
    while i < v.len()
        invariant
            i <= v@.len(),
            r@.len() == i,
            forall|j: int| 0 <= j < i ==> r@[j]@ == v@[j]@,
        decreases v@.len() - i,
    {
        r.push(v[i].duplicate());
        i += 1;
    }
    assert(key_views(r@) =~= key_views(v@));
    r
}

impl Record for Service {
    fn duplicate(&self) -> (r: Self) {
        Service {
            name: self.name.clone(),
            namespace: self.namespace.clone(),
            hostname: self.hostname.clone(),
            vips: duplicate_addresses(&self.vips),
            ports: self.ports.duplicate(),
            endpoints: self.endpoints.duplicate(),
            subject_alt_names: duplicate_strings(&self.subject_alt_names),
        }
    }
}

impl ServiceView {
    /// The key of the service: its hostname within its namespace.
    pub open spec fn host(self) -> NamespacedHostnameView {
        NamespacedHostnameView { namespace: self.namespace, hostname: self.hostname }
    }

    /// The service with `endpoints` in place of its endpoints.
    pub open spec fn with_endpoints(self, endpoints: Endpoints) -> Self {
        ServiceView { endpoints, ..self }
    }

    /// The service with one more endpoint, filed under its workload address.
    pub open spec fn with_endpoint(self, ep: EndpointView) -> Self {
        self.with_endpoints(self.endpoints.insert(ep.address, ep))
    }

    /// The service without the endpoint of the workload address `addr`.
    pub open spec fn without_endpoint(self, addr: NetworkAddressView) -> Self {
        self.with_endpoints(self.endpoints.remove(addr))
    }
}

impl Service {
    /// The key of the service: its hostname within its namespace.
    pub fn namespaced_hostname(&self) -> (r: NamespacedHostname)
        ensures
            r@ == self@.host(),
    {
        NamespacedHostname { namespace: self.namespace.clone(), hostname: self.hostname.clone() }
    }
}

/// What the staging area holds: under each service address, the
/// endpoints that wait for the service, by workload address.
pub type Staged = Map<NetworkAddressView, Endpoints>;

/// The endpoints of a service and the staging area after the staged
/// endpoints of each of `vips`, in turn, have joined the service: they are
/// taken over, a waiting endpoint in place of a known one of the same
/// workload address, and leave the staging area.
pub open spec fn promote(endpoints: Endpoints, staged: Staged, vips: Seq<NetworkAddressView>) -> (
    Endpoints,
    Staged,
)
    decreases vips.len(),
{
    if vips.len() == 0 {
        (endpoints, staged)
    } else {
        let (e, s) = promote(endpoints, staged, vips.drop_last());
        let v = vips.last();
        if s.contains_key(v) {
            (e.union_prefer_right(s[v]), s.remove(v))
        } else {
            (e, s)
        }
    }
}

/// The staging area without the endpoints of the workload address
/// `addr`; a service address under which nothing waits any more is dropped.
pub open spec fn unstage(staged: Staged, addr: NetworkAddressView) -> Staged {
    Map::new(
        |v: NetworkAddressView|
            staged.contains_key(v) && staged[v].remove(addr) != Map::<
                NetworkAddressView,
                EndpointView,
            >::empty(),
        |v: NetworkAddressView| staged[v].remove(addr),
    )
}

/// All information about the services of the mesh.
#[derive(Debug)]
pub struct ServiceStore {
    /// Endpoints that arrived before their service, by service address.
    staged_vips: Table<NetworkAddress, Table<NetworkAddress, Endpoint>>,
    /// From each address of a service to the key of the service.
    by_vip: Table<NetworkAddress, NamespacedHostname>,
    /// From the key of a service to the service.
    by_host: Table<NamespacedHostname, Service>,
}

/// What a `ServiceStore` stands for.
pub struct ServiceStoreView {
    pub staged: Staged,
    pub by_vip: Map<NetworkAddressView, NamespacedHostnameView>,
    pub by_host: Map<NamespacedHostnameView, ServiceView>,
}

impl View for ServiceStore {
    type V = ServiceStoreView;

    closed spec fn view(&self) -> ServiceStoreView {
        ServiceStoreView {
            staged: self.staged_vips@,
            by_vip: self.by_vip@,
            by_host: self.by_host@,
        }
    }
}

impl ServiceStoreView {
    /// The store that holds nothing.
    pub open spec fn empty() -> Self {
        ServiceStoreView { staged: Map::empty(), by_vip: Map::empty(), by_host: Map::empty() }
    }

    /// The service that owns the address `vip`, if one does.
    pub open spec fn service_at(self, vip: NetworkAddressView) -> Option<ServiceView> {
        if self.by_vip.contains_key(vip) && self.by_host.contains_key(self.by_vip[vip]) {
            Some(self.by_host[self.by_vip[vip]])
        } else {
            None
        }
    }

    /// The store after `ep` arrived: it joins the service that owns its
    /// service address, or waits in the staging area where no service does.
    pub open spec fn with_endpoint(self, ep: EndpointView) -> Self {
        if self.service_at(ep.vip) is Some {
            let host = self.by_vip[ep.vip];
            ServiceStoreView {
                by_host: self.by_host.insert(host, self.by_host[host].with_endpoint(ep)),
                ..self
            }
        } else {
            let waiting = if self.staged.contains_key(ep.vip) {
                self.staged[ep.vip]
            } else {
                Map::empty()
            };
            ServiceStoreView {
                staged: self.staged.insert(ep.vip, waiting.insert(ep.address, ep)),
                ..self
            }
        }
    }

    /// The store without the endpoints of the workload address `addr`:
    /// they leave every service and the staging area.
    pub open spec fn without_endpoint(self, addr: NetworkAddressView) -> Self {
        ServiceStoreView {
            staged: unstage(self.staged, addr),
            by_host: self.by_host.map_values(|s: ServiceView| s.without_endpoint(addr)),
            ..self
        }
    }

    /// The store after `svc` arrived. The endpoints that wait under its
    /// addresses join it and leave the staging area. The addresses of the
    /// service known under the same key are unbound; then each address of
    /// `svc` is bound to its key, and the key to the service.
    pub open spec fn with_service(self, svc: ServiceView) -> Self {
        let (endpoints, staged) = promote(svc.endpoints, self.staged, svc.vips);
        let host = svc.host();
        let cleared = if self.by_host.contains_key(host) {
            self.by_vip.remove_keys(self.by_host[host].vips.to_set())
        } else {
            self.by_vip
        };
        ServiceStoreView {
            staged,
            by_vip: bind(cleared, svc.vips.to_set(), host),
            by_host: self.by_host.insert(host, svc.with_endpoints(endpoints)),
        }
    }

    /// The store without the service known under `host`: the key and the
    /// addresses of the service are unbound. Its endpoints are dropped.
    pub open spec fn without_service(self, host: NamespacedHostnameView) -> Self {
        if self.by_host.contains_key(host) {
            ServiceStoreView {
                by_vip: self.by_vip.remove_keys(self.by_host[host].vips.to_set()),
                by_host: self.by_host.remove(host),
                ..self
            }
        } else {
            self
        }
    }
}

/// The view of an optional service.
pub open spec fn service_opt(o: Option<Service>) -> Option<ServiceView> {
    match o {
        Some(s) => Some(s@),
        None => None,
    }
}

proof fn lemma_promote_step(endpoints: Endpoints, staged: Staged, vips: Seq<NetworkAddressView>, i: int)
    requires
        0 <= i < vips.len(),
    ensures
        promote(endpoints, staged, vips.take(i + 1)) == ({
            let (e, s) = promote(endpoints, staged, vips.take(i));
            if s.contains_key(vips[i]) {
                (e.union_prefer_right(s[vips[i]]), s.remove(vips[i]))
            } else {
                (e, s)
            }
        }),
{
    let next = vips.take(i + 1);
    assert(next.drop_last() =~= vips.take(i));
    assert(next.last() == vips[i]);
}

impl ServiceStore {
    /// The store that holds nothing.
    pub fn new() -> (s: Self)
        ensures
            s@ == ServiceStoreView::empty(),
    {
        ServiceStore { staged_vips: Table::new(), by_vip: Table::new(), by_host: Table::new() }
    }

    /// The service that owns the address, if one does.
    pub fn get_by_vip(&self, vip: &NetworkAddress) -> (r: Option<Service>)
        ensures
            service_opt(r) == self@.service_at(vip@),
    {
        match self.by_vip.get(vip) {
            Some(host) => match self.by_host.get(host) {
                Some(svc) => Some(svc.duplicate()),
                None => None,
            },
            None => None,
        }
    }

    /// The service known under the key, if one is.
    pub fn get_by_namespaced_host(&self, host: &NamespacedHostname) -> (r: Option<Service>)
        ensures
            service_opt(r) == if self@.by_host.contains_key(host@) {
                Some(self@.by_host[host@])
            } else {
                None
            },
    {
        match self.by_host.get(host) {
            Some(svc) => Some(svc.duplicate()),
            None => None,
        }
    }

    /// Takes in an endpoint: it joins the service that owns its service
    /// address, or waits in the staging area where no service does.
    pub fn insert_endpoint(&mut self, ep: Endpoint)
        ensures
            final(self)@ == old(self)@.with_endpoint(ep@),
    {
        let found: Option<(NamespacedHostname, Service)> = match self.by_vip.get(&ep.vip) {
            Some(host) => match self.by_host.get(host) {
                Some(svc) => Some((host.duplicate(), svc.duplicate())),
                None => None,
            },
            None => None,
        };
        match found {
            Some((host, svc)) => {
                let mut svc = svc;
                svc.endpoints.insert(ep.address.duplicate(), ep);
                self.by_host.insert(host, svc);
            },
            None => {
                let mut waiting: Table<NetworkAddress, Endpoint> = match self.staged_vips.get(
                    &ep.vip,
                ) {
                    Some(t) => t.duplicate(),
                    None => Table::new(),
                };
                let vip = ep.vip.duplicate();
                waiting.insert(ep.address.duplicate(), ep);
                self.staged_vips.insert(vip, waiting);
            },
        }
    }

    /// Drops the endpoints of a workload address from every service and
    /// from the staging area.
    pub fn remove_endpoint(&mut self, addr: &NetworkAddress)
        ensures
            final(self)@ == old(self)@.without_endpoint(addr@),
    {
        let ghost target = old(self)@.without_endpoint(addr@);
        let n = self.by_host.len();
        let ghost hosts = self.by_host.keys();
        let mut i: usize = 0;
        while i < n
            invariant
                i <= n,
                n == hosts.len(),
                hosts == self.by_host.keys(),
                lists(hosts, old(self).by_host@),
                lists(hosts, self.by_host@),
                self.by_vip@ == old(self).by_vip@,
                self.staged_vips@ == old(self).staged_vips@,
                forall|j: int|
                    0 <= j < i ==> self.by_host@[#[trigger] hosts[j]] == old(
                        self,
                    ).by_host@[hosts[j]].without_endpoint(addr@),
                forall|j: int|
                    i <= j < n ==> self.by_host@[#[trigger] hosts[j]] == old(
                        self,
                    ).by_host@[hosts[j]],
            decreases n - i,
        {
            let mut svc = self.by_host.value_at(i).duplicate();
            svc.endpoints.remove(addr);
            let ghost before = self.by_host@;
            self.by_host.set_value_at(i, svc);
            proof {
                assert forall|j: int| 0 <= j < n && j != i implies self.by_host@[#[trigger] hosts[j]]
                    == before[hosts[j]] by {
                    assert(hosts[j] != hosts[i as int]);
                }
                assert forall|k: NamespacedHostnameView|
                    self.by_host@.contains_key(k) <==> hosts.contains(k) by {
                    if hosts.contains(k) {
                        assert(before.contains_key(k));
                    }
                }
            }
            i += 1;
        }
        proof {
            assert forall|k: NamespacedHostnameView| #[trigger]
                self.by_host@.contains_key(k) implies self.by_host@[k] == target.by_host[k] by {
                assert(hosts.contains(k));
                let j = choose|j: int| 0 <= j < hosts.len() && hosts[j] == k;
                assert(self.by_host@[hosts[j]] == old(self).by_host@[hosts[j]].without_endpoint(
                    addr@,
                ));
            }
            assert forall|k: NamespacedHostnameView|
                self.by_host@.contains_key(k) <==> target.by_host.contains_key(k) by {
                assert(self.by_host@.contains_key(k) <==> hosts.contains(k));
                assert(old(self).by_host@.contains_key(k) <==> hosts.contains(k));
            }
            assert(self.by_host@ =~= target.by_host);
        }
        let m = self.staged_vips.len();
        let ghost vips = self.staged_vips.keys();
        let mut kept: Table<NetworkAddress, Table<NetworkAddress, Endpoint>> = Table::new();
        let mut j: usize = 0;
        while j < m
            invariant
                j <= m,
                m == vips.len(),
                vips == self.staged_vips.keys(),
                lists(vips, self.staged_vips@),
                target == old(self)@.without_endpoint(addr@),
                self.staged_vips@ == old(self).staged_vips@,
                self.by_host@ == target.by_host,
                self.by_vip@ == old(self).by_vip@,
                forall|k: NetworkAddressView| #[trigger]
                    kept@.contains_key(k) <==> (vips.take(j as int).contains(k)
                        && target.staged.contains_key(k)),
                forall|k: NetworkAddressView| #[trigger]
                    kept@.contains_key(k) ==> kept@[k] == target.staged[k],
            decreases m - j,
        {
            let vip = self.staged_vips.key_at(j);
            let mut waiting = self.staged_vips.value_at(j).duplicate();
            waiting.remove(addr);
            proof {
                crate::table::lemma_take_step(vips, j as int);
            }
            let ghost before = kept@;
            let ghost rest = waiting@;
            assert(rest == old(self).staged_vips@[vips[j as int]].remove(addr@));
            if !waiting.is_empty() {
                kept.insert(vip.duplicate(), waiting);
            }
            proof {
                let v = vips[j as int];
                assert(!vips.take(j as int).contains(v)) by {
                    if vips.take(j as int).contains(v) {
                        let a = choose|a: int|
                            0 <= a < vips.take(j as int).len() && vips.take(j as int)[a] == v;
                        assert(vips[a] == vips[j as int]);
                    }
                }
                assert(vips.contains(v));
                assert(old(self).staged_vips@.contains_key(v));
                assert(target.staged.contains_key(v) <==> rest != Map::<
                    NetworkAddressView,
                    EndpointView,
                >::empty());
                assert forall|k: NetworkAddressView| #[trigger]
                    kept@.contains_key(k) <==> (vips.take(j + 1).contains(k)
                        && target.staged.contains_key(k)) by {
                    if k != v {
                        assert(kept@.contains_key(k) <==> before.contains_key(k));
                    }
                }
                assert forall|k: NetworkAddressView| #[trigger]
                    kept@.contains_key(k) implies kept@[k] == target.staged[k] by {
                    if k != v {
                        assert(before.contains_key(k));
                    }
                }
            }
            j += 1;
        }
        proof {
            crate::table::lemma_take_ends(vips);
            assert forall|k: NetworkAddressView| #[trigger]
                target.staged.contains_key(k) implies kept@.contains_key(k) by {
                assert(self.staged_vips@.contains_key(k));
                assert(vips.contains(k));
            }
            assert(kept@ =~= target.staged);
        }
        self.staged_vips = kept;
    }

    /// Takes in a service, in place of the one known under its key. The
    /// endpoints that wait under its addresses join it.
    pub fn insert(&mut self, service: Service)
        ensures
            final(self)@ == old(self)@.with_service(service@),
    {
        let mut service = service;
        let ghost given = service@;
        let n = service.vips.len();
        let mut i: usize = 0;
        proof {
            assert(given.vips.take(0) =~= Seq::<NetworkAddressView>::empty());
        }
        while i < n
            invariant
                i <= n,
                n == service.vips@.len(),
                service@ == given.with_endpoints(service.endpoints@),
                self.by_vip@ == old(self).by_vip@,
                self.by_host@ == old(self).by_host@,
                (service.endpoints@, self.staged_vips@) == promote(
                    given.endpoints,
                    old(self).staged_vips@,
                    given.vips.take(i as int),
                ),
            decreases n - i,
        {
            proof {
                lemma_promote_step(given.endpoints, old(self).staged_vips@, given.vips, i as int);
            }
            match self.staged_vips.remove(&service.vips[i]) {
                Some(waiting) => {
                    service.endpoints.absorb(&waiting);
                },
                None => {
                    assert(self.staged_vips@ =~= promote(
                        given.endpoints,
                        old(self).staged_vips@,
                        given.vips.take(i as int),
                    ).1);
                },
            }
            i += 1;
        }
        proof {
            assert(given.vips.take(n as int) =~= given.vips);
        }
        let host = service.namespaced_hostname();
        let prev: Option<Vec<NetworkAddress>> = match self.by_host.get(&host) {
            Some(prev) => Some(duplicate_addresses(&prev.vips)),
            None => None,
        };
        match prev {
            Some(vips) => {
                self.by_vip.remove_all(&vips);
            },
            None => {},
        }
        self.by_vip.insert_all(&service.vips, &host);
        self.by_host.insert(host, service);
    }

    /// Forgets the service known under the key, and hands it back.
    pub fn remove(&mut self, host: &NamespacedHostname) -> (r: Option<Service>)
        ensures
            final(self)@ == old(self)@.without_service(host@),
            service_opt(r) == if old(self)@.by_host.contains_key(host@) {
                Some(old(self)@.by_host[host@])
            } else {
                None
            },
    {
        match self.by_host.remove(host) {
            None => {
                assert(self.by_host@ =~= old(self).by_host@);
                None
            },
            Some(prev) => {
                self.by_vip.remove_all(&prev.vips);
                Some(prev)
            },
        }
    }

    /// The number of service addresses.
    pub fn num_vips(&self) -> (n: usize)
        ensures
            n == self@.by_vip.len(),
    {
        self.by_vip.len()
    }

    /// The number of services.
    pub fn num_services(&self) -> (n: usize)
        ensures
            n == self@.by_host.len(),
    {
        self.by_host.len()
    }

    /// The number of service addresses under which endpoints wait.
    pub fn num_staged_vips(&self) -> (n: usize)
        ensures
            n == self@.staged.len(),
    {
        self.staged_vips.len()
    }
}

} // verus!
