//! The reducer: applies the updates of the discovery channel to the state.
//!
//! Each update is an upsert of a resource or the removal of a key. An
//! update that cannot be read is refused whole and reported: it changes
//! nothing, and the others of its batch are applied all the same.
//!
//! The reducer tells its fetcher of every workload that it takes in. The
//! fetcher notes the identities of the workloads of its own node; whoever
//! runs the reducer takes them from it and asks for their certificates.

use crate::convert::{service_of, workload_of};
use crate::discovery::{
    port_map, ports_of, PortList, XdsAddress, XdsAuthorization, XdsPort, XdsService, XdsType,
    XdsUpdate, XdsWorkload,
};
use crate::policy::authorization_of;
use crate::identity::{Identity, IdentityView};
use crate::rbac::{Authorization, AuthorizationView};
use crate::service::{Endpoint, EndpointView, Endpoints, Service, ServiceStoreView, ServiceView};
use crate::state::{ProxyState, ProxyStateView};
use crate::table::{key_views, lemma_take_ends, lemma_take_step, lists, Key, Record, Table};
use crate::text::{chars_of, find_char, first_index, ip_of_text, parse_ip, slice_chars, string_of};
use crate::workload::{
    network_addr, HealthStatus, NamespacedHostname, NamespacedHostnameView, NetworkAddress,
    NetworkAddressView, Workload, WorkloadError, WorkloadErrorView, WorkloadView,
};
use vstd::prelude::*;

verus! {

/// Why an update was refused.
#[derive(Debug, PartialEq, Eq)]
pub enum Error {
    /// The resource could not be read.
    Workload(WorkloadError),
    /// The address message carried neither a workload nor a service.
    UnknownAddressType,
}

/// What an `Error` stands for.
pub enum ErrorView {
    Workload(WorkloadErrorView),
    UnknownAddressType,
}

impl View for Error {
    type V = ErrorView;

    open spec fn view(&self) -> ErrorView {
        match self {
            Error::Workload(e) => ErrorView::Workload(e@),
            Error::UnknownAddressType => ErrorView::UnknownAddressType,
        }
    }
}

/// Whether a workload runs on the node named `node`: the workloads whose
/// certificates are worth fetching ahead of need.
pub fn is_local(node: &str, w: &Workload) -> (r: bool)
    ensures
        r == (w@.node == node@),
{
    let node = node.to_owned();
    node == w.node
}

/// Asks for certificates ahead of need. The reducer tells it of every
/// workload that it takes in; the fetcher notes the identities of those
/// that run on its own node, for the certificate authority to be asked
/// for them. A fetcher without a node notes nothing.
#[derive(Debug)]
pub struct CertFetcher {
    local_node: Option<String>,
    pending: Vec<Identity>,
}

/// What a `CertFetcher` stands for.
pub struct CertFetcherView {
    /// The name of the node whose workloads are fetched for; none where
    /// nothing is fetched ahead of need.
    pub local_node: Option<Seq<char>>,
    /// The identities to ask certificates for, in the order in which they
    /// were noted, as far as they were not handed out yet.
    pub pending: Seq<IdentityView>,
}

/// The views of a list of identities.
pub open spec fn identities_view(v: Seq<Identity>) -> Seq<IdentityView> {
    Seq::new(v.len(), |i: int| v[i]@)
}

impl View for CertFetcher {
    type V = CertFetcherView;

    closed spec fn view(&self) -> CertFetcherView {
        CertFetcherView {
            local_node: match self.local_node {
                Some(n) => Some(n@),
                None => None,
            },
            pending: identities_view(self.pending@),
        }
    }
}

impl CertFetcherView {
    /// Whether a certificate is asked for ahead of need for the
    /// workload: it runs on the node of the fetcher.
    pub open spec fn wants(self, w: WorkloadView) -> bool {
        self.local_node == Some(w.node)
    }

    /// The fetcher after it was told of the workload: the identity of a
    /// workload that it wants is noted.
    pub open spec fn told(self, w: WorkloadView) -> Self {
        if self.wants(w) {
            CertFetcherView { pending: self.pending.push(w.identity()), ..self }
        } else {
            self
        }
    }

    /// The fetcher after the upsert of the workload `x`: it is told of
    /// the workload where the upsert is accepted.
    pub open spec fn after_workload(self, x: XdsWorkload) -> Self {
        match workload_of(x) {
            Ok(w) => if derived_endpoints(w, x) is Ok {
                self.told(w)
            } else {
                self
            },
            Err(_) => self,
        }
    }

    /// The fetcher after the upsert of the address `a`.
    pub open spec fn after_address(self, a: XdsAddress) -> Self {
        match a.address_type {
            Some(XdsType::Workload(w)) => self.after_workload(w),
            _ => self,
        }
    }

    /// The fetcher after a batch of workload updates.
    pub open spec fn after_workloads(self, updates: Seq<XdsUpdate<XdsWorkload>>) -> Self
        decreases updates.len(),
    {
        if updates.len() == 0 {
            self
        } else {
            let f = self.after_workloads(updates.drop_last());
            match updates.last() {
                XdsUpdate::Update(w) => f.after_workload(w.resource),
                XdsUpdate::Remove(_) => f,
            }
        }
    }

    /// The fetcher after a batch of address updates.
    pub open spec fn after_addresses(self, updates: Seq<XdsUpdate<XdsAddress>>) -> Self
        decreases updates.len(),
    {
        if updates.len() == 0 {
            self
        } else {
            let f = self.after_addresses(updates.drop_last());
            match updates.last() {
                XdsUpdate::Update(a) => f.after_address(a.resource),
                XdsUpdate::Remove(_) => f,
            }
        }
    }
}

impl CertFetcher {
    /// A fetcher for the workloads of the node named `local_node`.
    pub fn new(local_node: String) -> (r: Self)
        ensures
            r@ == (CertFetcherView { local_node: Some(local_node@), pending: Seq::empty() }),
    {
        let r = CertFetcher { local_node: Some(local_node), pending: Vec::new() };
        assert(identities_view(r.pending@) =~= Seq::<IdentityView>::empty());
        r
    }

    /// A fetcher that fetches nothing ahead of need.
    pub fn none() -> (r: Self)
        ensures
            r@ == (CertFetcherView { local_node: None, pending: Seq::empty() }),
    {
        let r = CertFetcher { local_node: None, pending: Vec::new() };
        assert(identities_view(r.pending@) =~= Seq::<IdentityView>::empty());
        r
    }

    /// Tells the fetcher of a workload that was taken in.
    pub fn prefetch_cert(&mut self, w: &Workload)
        ensures
            final(self)@ == old(self)@.told(w@),
    {
        let wanted = match &self.local_node {
            Some(node) => is_local(node.as_str(), w),
            None => false,
        };
        if wanted {
            let ghost before = identities_view(self.pending@);
            let id = w.identity();
            self.pending.push(id);
            assert(identities_view(self.pending@) =~= before.push(w@.identity()));
        }
    }

    /// Hands out the identities that were noted, first one first, and
    /// notes them no longer.
    pub fn take_pending(&mut self) -> (r: Vec<Identity>)
        ensures
            identities_view(r@) == old(self)@.pending,
            final(self)@ == (CertFetcherView { pending: Seq::empty(), ..old(self)@ }),
    {
        let mut out: Vec<Identity> = Vec::new();
        std::mem::swap(&mut out, &mut self.pending);
        assert(identities_view(self.pending@) =~= Seq::<IdentityView>::empty());
        out
    }
}

/// The service address that a key of the virtual addresses of a workload
/// names. The key is `address`, on the network `network` of the workload,
/// or `network/address`.
pub open spec fn vip_of(key: Seq<char>, network: Seq<char>) -> Result<
    NetworkAddressView,
    WorkloadErrorView,
> {
    let i = first_index(key, '/') as int;
    let text = if i < key.len() {
        key.skip(i + 1)
    } else {
        key
    };
    match ip_of_text(text) {
        Some(ip) => Ok(
            NetworkAddressView {
                network: if i < key.len() {
                    key.take(i)
                } else {
                    network
                },
                address: ip,
            },
        ),
        None => Err(WorkloadErrorView::AddressParse(text)),
    }
}

/// The endpoints of `w` behind the service address `vip`: one for each
/// of the first `n` addresses of `w`, in their order.
pub open spec fn endpoints_behind(
    w: WorkloadView,
    vip: NetworkAddressView,
    port: Map<u16, u16>,
    n: int,
) -> Seq<EndpointView> {
    Seq::new(n as nat, |i: int| EndpointView { vip, address: w.address(i), port })
}

/// The endpoints of `w` for its virtual addresses `keys`, in their
/// order; the error of the first key that names no address.
pub open spec fn endpoints_of(
    w: WorkloadView,
    keys: Seq<Seq<char>>,
    ports: Map<Seq<char>, Seq<XdsPort>>,
) -> Result<Seq<EndpointView>, WorkloadErrorView>
    decreases keys.len(),
{
    if keys.len() == 0 {
        Ok(Seq::empty())
    } else {
        match endpoints_of(w, keys.drop_last(), ports) {
            Err(e) => Err(e),
            Ok(front) => match vip_of(keys.last(), w.network) {
                Err(e) => Err(e),
                Ok(vip) => Ok(
                    front + endpoints_behind(
                        w,
                        vip,
                        port_map(ports[keys.last()]),
                        w.workload_ips.len() as int,
                    ),
                ),
            },
        }
    }
}

/// A fault among the first `i` keys is a fault of the whole list, and the
/// same one.
pub proof fn lemma_endpoints_fail(
    w: WorkloadView,
    keys: Seq<Seq<char>>,
    ports: Map<Seq<char>, Seq<XdsPort>>,
    i: int,
)
    requires
        0 <= i <= keys.len(),
        endpoints_of(w, keys.take(i), ports) is Err,
    ensures
        endpoints_of(w, keys, ports) == endpoints_of(w, keys.take(i), ports),
    decreases keys.len() - i,
{
    if i < keys.len() {
        assert(keys.take(i + 1).drop_last() =~= keys.take(i));
        lemma_endpoints_fail(w, keys, ports, i + 1);
    } else {
        assert(keys.take(i) =~= keys);
    }
}

/// The views of a list of endpoints.
pub open spec fn endpoints_view(v: Seq<Endpoint>) -> Seq<EndpointView> {
    Seq::new(v.len(), |i: int| v[i]@)
}

/// The view of a list of endpoints or an error.
pub open spec fn endpoints_result(r: Result<Vec<Endpoint>, WorkloadError>) -> Result<
    Seq<EndpointView>,
    WorkloadErrorView,
> {
    match r {
        Ok(v) => Ok(endpoints_view(v@)),
        Err(e) => Err(e@),
    }
}

fn read_vip(key: &String, network: &String) -> (r: Result<NetworkAddress, WorkloadError>)
    ensures
        match r {
            Ok(a) => vip_of(key@, network@) == Ok::<NetworkAddressView, WorkloadErrorView>(a@),
            Err(e) => vip_of(key@, network@) == Err::<NetworkAddressView, WorkloadErrorView>(e@),
        },
{
    let v = chars_of(key.as_str());
    let i = find_char(&v, '/');
    if i < v.len() {
        let text = slice_chars(&v, i + 1, v.len());
        let net = slice_chars(&v, 0, i);
        proof {
            assert(text@ =~= key@.skip(i + 1));
            assert(net@ =~= key@.take(i as int));
        }
        let text = string_of(&text);
        match parse_ip(text.as_str()) {
            Some(ip) => Ok(NetworkAddress { network: string_of(&net), address: ip }),
            None => Err(WorkloadError::AddressParse(text)),
        }
    } else {
        match parse_ip(key.as_str()) {
            Some(ip) => Ok(NetworkAddress { network: network.clone(), address: ip }),
            None => Err(WorkloadError::AddressParse(key.clone())),
        }
    }
}

/// The endpoints that a workload contributes to services: for each of
/// its virtual addresses, one endpoint for each of its own addresses.
pub fn service_endpoints(workload: &Workload, virtual_ips: &Table<String, PortList>) -> (r: Result<
    Vec<Endpoint>,
    WorkloadError,
>)
    ensures
        endpoints_result(r) == endpoints_of(workload@, virtual_ips.keys(), virtual_ips@),
{
    let ghost w = workload@;
    let ghost keys = virtual_ips.keys();
    let ghost ports = virtual_ips@;
    let n = virtual_ips.len();
    let m = workload.workload_ips.len();
    let mut out: Vec<Endpoint> = Vec::new();
    let mut i: usize = 0;
    proof {
        assert(keys.take(0) =~= Seq::<Seq<char>>::empty());
        assert(endpoints_view(out@) =~= Seq::<EndpointView>::empty());
    }
    while i < n
        invariant
            i <= n,
            n == keys.len(),
            m == w.workload_ips.len(),
            w == workload@,
            keys == virtual_ips.keys(),
            ports == virtual_ips@,
            endpoints_of(w, keys.take(i as int), ports) == Ok::<
                Seq<EndpointView>,
                WorkloadErrorView,
            >(endpoints_view(out@)),
        decreases n - i,
    {
        let key = virtual_ips.key_at(i);
        let list = virtual_ips.value_at(i);
        proof {
            assert(keys.take(i + 1).drop_last() =~= keys.take(i as int));
            assert(keys.take(i + 1).last() == key@);
        }
        let vip = match read_vip(key, &workload.network) {
            Ok(vip) => vip,
            Err(e) => {
                proof {
                    assert(endpoints_of(w, keys.take(i + 1), ports) == Err::<
                        Seq<EndpointView>,
                        WorkloadErrorView,
                    >(e@));
                    lemma_endpoints_fail(w, keys, ports, i + 1);
                }
                return Err(e);
            },
        };
        let ghost front = endpoints_view(out@);
        let ghost pm = port_map(list@);
        let mut j: usize = 0;
        proof {
            assert(endpoints_view(out@) =~= front + endpoints_behind(w, vip@, pm, 0));
        }
        while j < m
            invariant
                j <= m,
                m == w.workload_ips.len(),
                w == workload@,
                pm == port_map(list@),
                endpoints_view(out@) == front + endpoints_behind(w, vip@, pm, j as int),
            decreases m - j,
        {
            let ghost before = endpoints_view(out@);
            let ep = Endpoint {
                vip: vip.duplicate(),
                address: network_addr(workload.network.as_str(), workload.workload_ips[j]),
                port: ports_of(&list.ports),
            };
            proof {
                assert(ep@ == EndpointView { vip: vip@, address: w.address(j as int), port: pm });
            }
            out.push(ep);
            proof {
                assert(endpoints_view(out@) =~= before.push(ep@));
                assert(endpoints_behind(w, vip@, pm, j + 1) =~= endpoints_behind(
                    w,
                    vip@,
                    pm,
                    j as int,
                ).push(ep@));
                assert(endpoints_view(out@) =~= front + endpoints_behind(w, vip@, pm, j + 1));
            }
            j += 1;
        }
        i += 1;
    }
    proof {
        assert(keys.take(n as int) =~= keys);
    }
    Ok(out)
}

/// The endpoints that the workload `w`, read from the message `x`,
/// contributes to services: those of its virtual addresses where it is
/// healthy, none where it is not.
pub open spec fn derived_endpoints(w: WorkloadView, x: XdsWorkload) -> Result<
    Seq<EndpointView>,
    WorkloadErrorView,
> {
    if w.status == HealthStatus::Healthy {
        endpoints_of(w, x.virtual_ips.keys(), x.virtual_ips@)
    } else {
        Ok(Seq::empty())
    }
}

/// The service key that a removal key names: `namespace/hostname`, with
/// exactly one `/`. A key without `/` or with more than one names none.
pub open spec fn service_key(name: Seq<char>) -> Option<NamespacedHostnameView> {
    let i = first_index(name, '/') as int;
    if i < name.len() && first_index(name.skip(i + 1), '/') >= name.len() - i - 1 {
        Some(NamespacedHostnameView { namespace: name.take(i), hostname: name.skip(i + 1) })
    } else {
        None
    }
}

/// Reads a removal key as the key of a service.
pub fn read_service_key(name: &str) -> (r: Option<NamespacedHostname>)
    ensures
        crate::workload::host_opt(r) == service_key(name@),
{
    let v = chars_of(name);
    let i = find_char(&v, '/');
    if i >= v.len() {
        return None;
    }
    let host = slice_chars(&v, i + 1, v.len());
    let ns = slice_chars(&v, 0, i);
    proof {
        assert(host@ =~= name@.skip(i + 1));
        assert(ns@ =~= name@.take(i as int));
    }
    if find_char(&host, '/') < host.len() {
        return None;
    }
    Some(NamespacedHostname { namespace: string_of(&ns), hostname: string_of(&host) })
}

/// The endpoints among `endpoints` whose service address is one of `vips`.
pub open spec fn kept(endpoints: Endpoints, vips: Seq<NetworkAddressView>) -> Endpoints {
    Map::new(
        |a: NetworkAddressView| endpoints.contains_key(a) && vips.contains(endpoints[a].vip),
        |a: NetworkAddressView| endpoints[a],
    )
}

/// The endpoints of a new service with the addresses `all` after it took
/// over the endpoints of the services that own its addresses `vips`, in
/// turn. Only endpoints of an address that the new service still has are
/// taken over; the others are dropped. A taken endpoint stands in place of
/// one of the same workload address.
pub open spec fn carried(
    services: ServiceStoreView,
    endpoints: Endpoints,
    vips: Seq<NetworkAddressView>,
    all: Seq<NetworkAddressView>,
) -> Endpoints
    decreases vips.len(),
{
    if vips.len() == 0 {
        endpoints
    } else {
        let e = carried(services, endpoints, vips.drop_last(), all);
        match services.service_at(vips.last()) {
            Some(prev) => e.union_prefer_right(kept(prev.endpoints, all)),
            None => e,
        }
    }
}

/// Whether `a` is among `vips`.
fn has_address(vips: &Vec<NetworkAddress>, a: &NetworkAddress) -> (r: bool)
    ensures
        r == key_views(vips@).contains(a@),
{
    let n = vips.len();
    let mut i: usize = 0;
    while i < n
        invariant
            i <= n,
            n == vips@.len(),
            forall|j: int| 0 <= j < i ==> key_views(vips@)[j] != a@,
        decreases n - i,
    {
        if vips[i].same(a) {
            assert(key_views(vips@)[i as int] == a@);
            return true;
        }
        i += 1;
    }
    false
}

/// The endpoints among `endpoints` whose service address is one of `vips`.
fn keep_endpoints(endpoints: &Table<NetworkAddress, Endpoint>, vips: &Vec<NetworkAddress>) -> (r:
    Table<NetworkAddress, Endpoint>)
    ensures
        r@ == kept(endpoints@, key_views(vips@)),
{
    let n = endpoints.len();
    let ghost keys = endpoints.keys();
    let ghost target = kept(endpoints@, key_views(vips@));
    let mut out: Table<NetworkAddress, Endpoint> = Table::new();
    let mut i: usize = 0;
    while i < n
        invariant
            i <= n,
            n == keys.len(),
            keys == endpoints.keys(),
            lists(keys, endpoints@),
            target == kept(endpoints@, key_views(vips@)),
            forall|a: NetworkAddressView| #[trigger]
                out@.contains_key(a) <==> (keys.take(i as int).contains(a) && target.contains_key(
                    a,
                )),
            forall|a: NetworkAddressView| #[trigger]
                out@.contains_key(a) ==> out@[a] == target[a],
        decreases n - i,
    {
        let ep = endpoints.value_at(i);
        let ghost before = out@;
        proof {
            lemma_take_step(keys, i as int);
            assert(keys.contains(keys[i as int]));
        }
        if has_address(vips, &ep.vip) {
            out.insert(endpoints.key_at(i).duplicate(), ep.duplicate());
        }
        proof {
            let k = keys[i as int];
            assert forall|a: NetworkAddressView| #[trigger]
                out@.contains_key(a) <==> (keys.take(i + 1).contains(a) && target.contains_key(
                    a,
                )) by {
                if a != k {
                    assert(out@.contains_key(a) <==> before.contains_key(a));
                }
            }
            assert forall|a: NetworkAddressView| #[trigger]
                out@.contains_key(a) implies out@[a] == target[a] by {
                if a != k {
                    assert(before.contains_key(a));
                }
            }
        }
        i += 1;
    }
    proof {
        lemma_take_ends(keys);
        assert forall|a: NetworkAddressView| #[trigger]
            target.contains_key(a) implies out@.contains_key(a) by {
            assert(endpoints@.contains_key(a));
            assert(keys.contains(a));
        }
        assert(out@ =~= target);
    }
    out
}

impl ProxyStateView {
    /// The state without the endpoints of the first `n` addresses of `w`.
    pub open spec fn without_endpoints(self, w: WorkloadView, n: int) -> Self
        decreases n,
    {
        if n <= 0 {
            self
        } else {
            let s = self.without_endpoints(w, n - 1);
            ProxyStateView { services: s.services.without_endpoint(w.address(n - 1)), ..s }
        }
    }

    /// The state after the removal of `name`. Where a workload is known
    /// under `name`, it leaves, and with it the endpoints of each of its
    /// addresses. Else, where `name` is the key of a service, that service
    /// leaves. Else nothing changes.
    pub open spec fn removed(self, name: Seq<char>) -> Self {
        if self.workloads.by_uid.contains_key(name) {
            let prev = self.workloads.by_uid[name];
            ProxyStateView {
                workloads: self.workloads.without_workload(name),
                ..self
            }.without_endpoints(prev, prev.workload_ips.len() as int)
        } else {
            match service_key(name) {
                Some(host) => ProxyStateView {
                    services: self.services.without_service(host),
                    ..self
                },
                None => self,
            }
        }
    }

    /// The state after the workload known under `uid` left, and with it
    /// the endpoints of each of its addresses. Where no workload is known
    /// under `uid`, nothing changes.
    pub open spec fn forgotten(self, uid: Seq<char>) -> Self {
        if self.workloads.by_uid.contains_key(uid) {
            self.removed(uid)
        } else {
            self
        }
    }

    /// The state after the endpoints `eps` arrived, the last of them first.
    pub open spec fn with_endpoints(self, eps: Seq<EndpointView>) -> Self
        decreases eps.len(),
    {
        if eps.len() == 0 {
            self
        } else {
            ProxyStateView {
                services: self.services.with_endpoint(eps.last()),
                ..self
            }.with_endpoints(eps.drop_last())
        }
    }

    /// The state after the workload `w` was stored and its endpoints
    /// `eps` arrived.
    pub open spec fn with_workload(self, w: WorkloadView, eps: Seq<EndpointView>) -> Self {
        ProxyStateView { workloads: self.workloads.with_workload(w), ..self }.with_endpoints(eps)
    }

    /// The state after the service `svc` arrived: it takes over the
    /// endpoints of the services that own its addresses, as far as they are
    /// endpoints of addresses that it has, then is stored.
    pub open spec fn with_service(self, svc: ServiceView) -> Self {
        ProxyStateView {
            services: self.services.with_service(
                svc.with_endpoints(carried(self.services, svc.endpoints, svc.vips, svc.vips)),
            ),
            ..self
        }
    }

    /// The state after the upsert of the workload `x`, and whether the
    /// upsert was accepted. A message that cannot be read is refused whole
    /// and changes nothing: neither where the workload cannot be read, nor
    /// where one of its virtual addresses cannot. Else what was known under
    /// the UID of `x` is removed, the workload is stored, and its endpoints
    /// arrive; an unhealthy workload has none.
    pub open spec fn upserted_workload(self, x: XdsWorkload) -> (Self, Result<(), WorkloadErrorView>) {
        match workload_of(x) {
            Err(e) => (self, Err(e)),
            Ok(w) => match derived_endpoints(w, x) {
                Err(e) => (self, Err(e)),
                Ok(eps) => (self.removed(x.uid@).with_workload(w, eps), Ok(())),
            },
        }
    }

    /// The state after the upsert of the service `x`, and whether the
    /// upsert was accepted. A message that cannot be read changes nothing.
    pub open spec fn upserted_service(self, x: XdsService) -> (Self, Result<(), WorkloadErrorView>) {
        match service_of(x) {
            Err(e) => (self, Err(e)),
            Ok(svc) => (self.with_service(svc), Ok(())),
        }
    }

    /// The state after the upsert of the address `a`, and whether the
    /// upsert was accepted.
    pub open spec fn upserted_address(self, a: XdsAddress) -> (Self, Result<(), ErrorView>) {
        match a.address_type {
            Some(XdsType::Workload(w)) => (
                self.upserted_workload(w).0,
                match self.upserted_workload(w).1 {
                    Ok(_) => Ok(()),
                    Err(e) => Err(ErrorView::Workload(e)),
                },
            ),
            Some(XdsType::Service(s)) => (
                self.upserted_service(s).0,
                match self.upserted_service(s).1 {
                    Ok(_) => Ok(()),
                    Err(e) => Err(ErrorView::Workload(e)),
                },
            ),
            None => (self, Err(ErrorView::UnknownAddressType)),
        }
    }

    /// The state after the upsert of the policy `x`, and whether the
    /// upsert was accepted. A message that cannot be read changes nothing.
    pub open spec fn upserted_authorization(self, x: XdsAuthorization) -> (
        Self,
        Result<(), WorkloadErrorView>,
    ) {
        match authorization_of(x) {
            Err(e) => (self, Err(e)),
            Ok(p) => (self.with_policy(p), Ok(())),
        }
    }

    /// The state after the policy `p` arrived.
    pub open spec fn with_policy(self, p: AuthorizationView) -> Self {
        ProxyStateView { workloads: self.workloads.with_policy(p), ..self }
    }

    /// The state without the policy known under `key`.
    pub open spec fn without_policy(self, key: Seq<char>) -> Self {
        ProxyStateView { workloads: self.workloads.without_policy(key), ..self }
    }
}

/// The view of an outcome without a value.
pub open spec fn unit_result(r: Result<(), WorkloadError>) -> Result<(), WorkloadErrorView> {
    match r {
        Ok(_) => Ok(()),
        Err(e) => Err(e@),
    }
}

/// The view of an outcome without a value.
pub open spec fn outcome(r: Result<(), Error>) -> Result<(), ErrorView> {
    match r {
        Ok(_) => Ok(()),
        Err(e) => Err(e@),
    }
}

impl ProxyState {
    /// Removes the workload known under `uid`, with the endpoints of its
    /// addresses, and says whether there was one.
    pub(crate) fn forget_workload(&mut self, uid: &str) -> (found: bool)
        ensures
            found == old(self)@.workloads.by_uid.contains_key(uid@),
            final(self)@ == old(self)@.forgotten(uid@),
    {
        match self.workloads.remove_workload(uid) {
            Some(prev) => {
                let n = prev.workload_ips.len();
                let ghost base = self@;
                let mut i: usize = 0;
                while i < n
                    invariant
                        i <= n,
                        n == prev@.workload_ips.len(),
                        self@ == base.without_endpoints(prev@, i as int),
                    decreases n - i,
                {
                    let prev_addr = network_addr(prev.network.as_str(), prev.workload_ips[i]);
                    self.services.remove_endpoint(&prev_addr);
                    i += 1;
                }
                true
            },
            None => false,
        }
    }

    /// Stores the workload, then lets its endpoints arrive, the last of
    /// them first.
    pub(crate) fn store_workload(&mut self, workload: Workload, endpoints: Vec<Endpoint>)
        ensures
            final(self)@ == old(self)@.with_workload(workload@, endpoints_view(endpoints@)),
    {
        let mut endpoints = endpoints;
        let ghost eps = endpoints_view(endpoints@);
        let _ = self.workloads.insert_workload(workload);
        let ghost stored = self@;
        while endpoints.len() > 0
            invariant
                (ProxyStateView { services: self.services@, ..stored }).with_endpoints(
                    endpoints_view(endpoints@),
                ) == stored.with_endpoints(eps),
                self.workloads@ == stored.workloads,
            decreases endpoints@.len(),
        {
            let ghost before = endpoints_view(endpoints@);
            let endpoint = endpoints.pop().unwrap();
            proof {
                assert(before.last() == endpoint@);
                assert(before.drop_last() =~= endpoints_view(endpoints@));
            }
            self.services.insert_endpoint(endpoint);
        }
        proof {
            assert(endpoints_view(endpoints@).len() == 0);
        }
    }
}

/// Applies the updates of the discovery channel to the state that it
/// owns, and tells its fetcher of the workloads that it takes in.
#[derive(Debug)]
pub struct ProxyStateUpdater {
    state: ProxyState,
    cert_fetcher: CertFetcher,
}

/// What a `ProxyStateUpdater` stands for.
pub struct UpdaterView {
    /// The state that it owns.
    pub state: ProxyStateView,
    /// Its fetcher, with what it was told.
    pub fetcher: CertFetcherView,
}

impl View for ProxyStateUpdater {
    type V = UpdaterView;

    closed spec fn view(&self) -> UpdaterView {
        UpdaterView { state: self.state@, fetcher: self.cert_fetcher@ }
    }
}

impl ProxyStateUpdater {
    /// An updater for the given state, which tells `cert_fetcher` of the
    /// workloads that arrive.
    pub fn new(state: ProxyState, cert_fetcher: CertFetcher) -> (r: Self)
        ensures
            r@.state == state@,
            r@.fetcher == cert_fetcher@,
    {
        ProxyStateUpdater { state, cert_fetcher }
    }

    /// An updater that asks for no certificate ahead of need.
    pub fn new_no_fetch(state: ProxyState) -> (r: Self)
        ensures
            r@.state == state@,
            r@.fetcher == (CertFetcherView { local_node: None, pending: Seq::empty() }),
    {
        Self::new(state, CertFetcher::none())
    }

    /// Hands out the identities that the fetcher noted, for certificates
    /// to be asked for, and notes them no longer.
    pub fn take_prefetches(&mut self) -> (r: Vec<Identity>)
        ensures
            identities_view(r@) == old(self)@.fetcher.pending,
            final(self)@.fetcher == (CertFetcherView {
                pending: Seq::empty(),
                ..old(self)@.fetcher
            }),
            final(self)@.state == old(self)@.state,
    {
        self.cert_fetcher.take_pending()
    }

    /// The state as it stands.
    pub fn state(&self) -> (r: &ProxyState)
        ensures
            r@ == self@.state,
    {
        &self.state
    }

    /// Hands the state back.
    pub fn into_state(self) -> (r: ProxyState)
        ensures
            r@ == self@.state,
    {
        self.state
    }

    /// Takes in a workload, in place of what was known under its UID.
    pub fn insert_workload(&mut self, w: XdsWorkload) -> (r: Result<(), WorkloadError>)
        ensures
            final(self)@.state == old(self)@.state.upserted_workload(w).0,
            unit_result(r) == old(self)@.state.upserted_workload(w).1,
            final(self)@.fetcher == old(self)@.fetcher.after_workload(w),
    {
        let workload = match Workload::try_from(&w) {
            Ok(workload) => workload,
            Err(e) => {
                return Err(e);
            },
        };
        // Unhealthy workloads are stored all the same, since traffic may be
        // sent to them; but they serve behind no service.
        let endpoints = match workload.status {
            HealthStatus::Healthy => match service_endpoints(&workload, &w.virtual_ips) {
                Ok(eps) => eps,
                Err(e) => {
                    return Err(e);
                },
            },
            HealthStatus::Unhealthy => {
                let eps: Vec<Endpoint> = Vec::new();
                assert(endpoints_view(eps@) =~= Seq::<EndpointView>::empty());
                eps
            },
        };
        // Now that the message is read in full, what was known goes first.
        self.remove(&w.uid);
        self.cert_fetcher.prefetch_cert(&workload);
        self.state.store_workload(workload, endpoints);
        Ok(())
    }

    /// Removes what is known under the key: a workload, with the
    /// endpoints of its addresses, or else a service.
    pub fn remove(&mut self, xds_name: &String)
        ensures
            final(self)@.state == old(self)@.state.removed(xds_name@),
            final(self)@.fetcher == old(self)@.fetcher,
    {
        if !self.state.forget_workload(xds_name.as_str()) {
            match read_service_key(xds_name.as_str()) {
                Some(name) => {
                    let _ = self.state.services.remove(&name);
                },
                None => {},
            }
        }
    }

    /// Takes in an address: a workload or a service.
    pub fn insert_address(&mut self, a: XdsAddress) -> (r: Result<(), Error>)
        ensures
            final(self)@.state == old(self)@.state.upserted_address(a).0,
            outcome(r) == old(self)@.state.upserted_address(a).1,
            final(self)@.fetcher == old(self)@.fetcher.after_address(a),
    {
        match a.address_type {
            Some(XdsType::Workload(w)) => match self.insert_workload(w) {
                Ok(_) => Ok(()),
                Err(e) => Err(Error::Workload(e)),
            },
            Some(XdsType::Service(s)) => match self.insert_service(s) {
                Ok(_) => Ok(()),
                Err(e) => Err(Error::Workload(e)),
            },
            None => Err(Error::UnknownAddressType),
        }
    }

    /// Takes in a service, in place of the one known under its key. The
    /// endpoints of the services that own its addresses are carried over.
    pub fn insert_service(&mut self, service: XdsService) -> (r: Result<(), WorkloadError>)
        ensures
            final(self)@.state == old(self)@.state.upserted_service(service).0,
            unit_result(r) == old(self)@.state.upserted_service(service).1,
            final(self)@.fetcher == old(self)@.fetcher,
    {
        let mut service = match Service::try_from(&service) {
            Ok(s) => s,
            Err(e) => {
                return Err(e);
            },
        };
        let ghost given = service@;
        let n = service.vips.len();
        let mut i: usize = 0;
        proof {
            assert(given.vips.take(0) =~= Seq::<NetworkAddressView>::empty());
        }
        while i < n
            invariant
                i <= n,
                n == service.vips@.len(),
                self@.state == old(self)@.state,
                self@.fetcher == old(self)@.fetcher,
                service@ == given.with_endpoints(service.endpoints@),
                given.vips == key_views(service.vips@),
                service.endpoints@ == carried(
                    self@.state.services,
                    given.endpoints,
                    given.vips.take(i as int),
                    given.vips,
                ),
            decreases n - i,
        {
            proof {
                assert(given.vips.take(i + 1).drop_last() =~= given.vips.take(i as int));
                assert(given.vips.take(i + 1).last() == service.vips@[i as int]@);
            }
            match self.state.services.get_by_vip(&service.vips[i]) {
                Some(prev) => {
                    let staying = keep_endpoints(&prev.endpoints, &service.vips);
                    service.endpoints.absorb(&staying);
                },
                None => {},
            }
            i += 1;
        }
        proof {
            assert(given.vips.take(n as int) =~= given.vips);
        }
        self.state.services.insert(service);
        Ok(())
    }

    /// Takes in a policy, in place of the one known under its key.
    pub fn insert_authorization(&mut self, r: XdsAuthorization) -> (res: Result<(), WorkloadError>)
        ensures
            final(self)@.state == old(self)@.state.upserted_authorization(r).0,
            unit_result(res) == old(self)@.state.upserted_authorization(r).1,
            final(self)@.fetcher == old(self)@.fetcher,
    {
        let rbac = match Authorization::try_from(&r) {
            Ok(rbac) => rbac,
            Err(e) => {
                return Err(e);
            },
        };
        self.state.workloads.insert_authorization(rbac);
        Ok(())
    }

    /// Removes the policy known under the key.
    pub fn remove_authorization(&mut self, name: String)
        ensures
            final(self)@.state == old(self)@.state.without_policy(name@),
            final(self)@.fetcher == old(self)@.fetcher,
    {
        self.state.workloads.remove_rbac(name);
    }
}

/// An update that was refused, with the reason.
#[derive(Debug, PartialEq, Eq)]
pub struct RejectedConfig {
    pub name: String,
    pub reason: Error,
}

/// What a `RejectedConfig` stands for.
pub struct RejectedView {
    pub name: Seq<char>,
    pub reason: ErrorView,
}

impl View for RejectedConfig {
    type V = RejectedView;

    open spec fn view(&self) -> RejectedView {
        RejectedView { name: self.name@, reason: self.reason@ }
    }
}

/// The views of a list of refused updates.
pub open spec fn rejected_view(v: Seq<RejectedConfig>) -> Seq<RejectedView> {
    Seq::new(v.len(), |i: int| v[i]@)
}

/// What a step of the reducer makes of the state, and the update that it
/// refused, if it refused it.
pub type Step = (ProxyStateView, Option<RejectedView>);

/// The refusal of the update named `name`, if `r` is a refusal.
pub open spec fn refusal(name: Seq<char>, r: Result<(), WorkloadErrorView>) -> Option<RejectedView> {
    match r {
        Ok(_) => None,
        Err(e) => Some(RejectedView { name, reason: ErrorView::Workload(e) }),
    }
}

/// One workload update applied.
pub open spec fn workload_step(st: ProxyStateView, u: XdsUpdate<XdsWorkload>) -> Step {
    match u {
        XdsUpdate::Update(w) => (
            st.upserted_workload(w.resource).0,
            refusal(w.name@, st.upserted_workload(w.resource).1),
        ),
        XdsUpdate::Remove(name) => (st.removed(name@), None),
    }
}

/// One address update applied.
pub open spec fn address_step(st: ProxyStateView, u: XdsUpdate<XdsAddress>) -> Step {
    match u {
        XdsUpdate::Update(a) => (
            st.upserted_address(a.resource).0,
            match st.upserted_address(a.resource).1 {
                Ok(_) => None,
                Err(e) => Some(RejectedView { name: a.name@, reason: e }),
            },
        ),
        XdsUpdate::Remove(name) => (st.removed(name@), None),
    }
}

/// One policy update applied.
pub open spec fn authorization_step(st: ProxyStateView, u: XdsUpdate<XdsAuthorization>) -> Step {
    match u {
        XdsUpdate::Update(a) => (
            st.upserted_authorization(a.resource).0,
            refusal(a.name@, st.upserted_authorization(a.resource).1),
        ),
        XdsUpdate::Remove(name) => (st.without_policy(name@), None),
    }
}

/// `workload_step` as a value.
pub open spec fn workload_steps() -> spec_fn(ProxyStateView, XdsUpdate<XdsWorkload>) -> Step {
    |st: ProxyStateView, u: XdsUpdate<XdsWorkload>| workload_step(st, u)
}

/// `address_step` as a value.
pub open spec fn address_steps() -> spec_fn(ProxyStateView, XdsUpdate<XdsAddress>) -> Step {
    |st: ProxyStateView, u: XdsUpdate<XdsAddress>| address_step(st, u)
}

/// `authorization_step` as a value.
pub open spec fn authorization_steps() -> spec_fn(
    ProxyStateView,
    XdsUpdate<XdsAuthorization>,
) -> Step {
    |st: ProxyStateView, u: XdsUpdate<XdsAuthorization>| authorization_step(st, u)
}

/// A batch of updates applied in order: the state after the last of
/// them, and the updates that were refused, in order. A refused update
/// does not keep the later ones from being applied.
pub open spec fn handled<T>(
    st: ProxyStateView,
    updates: Seq<XdsUpdate<T>>,
    step: spec_fn(ProxyStateView, XdsUpdate<T>) -> Step,
) -> (ProxyStateView, Seq<RejectedView>)
    decreases updates.len(),
{
    if updates.len() == 0 {
        (st, Seq::empty())
    } else {
        let (s, rejected) = handled(st, updates.drop_last(), step);
        let (next, r) = step(s, updates.last());
        (
            next,
            match r {
                Some(x) => rejected.push(x),
                None => rejected,
            },
        )
    }
}

/// One more update of a batch applied.
pub proof fn lemma_handled_step<T>(
    st: ProxyStateView,
    updates: Seq<XdsUpdate<T>>,
    step: spec_fn(ProxyStateView, XdsUpdate<T>) -> Step,
    i: int,
)
    requires
        0 <= i < updates.len(),
    ensures
        handled(st, updates.take(i + 1), step) == ({
            let (s, rejected) = handled(st, updates.take(i), step);
            let (next, r) = step(s, updates[i]);
            (
                next,
                match r {
                    Some(x) => rejected.push(x),
                    None => rejected,
                },
            )
        }),
{
    assert(updates.take(i + 1).drop_last() =~= updates.take(i));
    assert(updates.take(i + 1).last() == updates[i]);
}

/// The outcome of a batch: fine where nothing was refused, else the
/// refused updates.
pub open spec fn batch_outcome(r: Result<(), Vec<RejectedConfig>>, rejected: Seq<RejectedView>) -> bool {
    match r {
        Ok(_) => rejected.len() == 0,
        Err(v) => rejected.len() > 0 && rejected_view(v@) == rejected,
    }
}

fn batch_result(rejects: Vec<RejectedConfig>) -> (r: Result<(), Vec<RejectedConfig>>)
    ensures
        batch_outcome(r, rejected_view(rejects@)),
{
    if rejects.len() == 0 {
        Ok(())
    } else {
        Err(rejects)
    }
}

impl ProxyStateUpdater {
    /// Applies a batch of workload updates.
    pub fn handle_workloads(&mut self, updates: Vec<XdsUpdate<XdsWorkload>>) -> (r: Result<
        (),
        Vec<RejectedConfig>,
    >)
        ensures
            final(self)@.state == handled(old(self)@.state, updates@, workload_steps()).0,
            batch_outcome(r, handled(old(self)@.state, updates@, workload_steps()).1),
            final(self)@.fetcher == old(self)@.fetcher.after_workloads(updates@),
    {
        let ghost all = updates@;
        let mut rejects: Vec<RejectedConfig> = Vec::new();
        proof {
            assert(all.take(0) =~= Seq::<XdsUpdate<XdsWorkload>>::empty());
            assert(rejected_view(rejects@) =~= Seq::<RejectedView>::empty());
        }
        for u in it: updates
            invariant
                it.seq() == all,
                (self@.state, rejected_view(rejects@)) == handled(
                    old(self)@.state,
                    all.take(it.index() as int),
                    workload_steps(),
                ),
                self@.fetcher == old(self)@.fetcher.after_workloads(all.take(it.index() as int)),
        {
            proof {
                assert(all.take(it.index() + 1).drop_last() =~= all.take(it.index() as int));
                assert(all.take(it.index() + 1).last() == u);
                lemma_handled_step(old(self)@.state, all, workload_steps(), it.index() as int);
                assert(workload_steps()(self@.state, u) == workload_step(self@.state, u));
            }
            let ghost before = rejected_view(rejects@);
            match u {
                XdsUpdate::Update(w) => {
                    let name = w.name;
                    match self.insert_workload(w.resource) {
                        Ok(_) => {},
                        Err(e) => {
                            let rej = RejectedConfig { name, reason: Error::Workload(e) };
                            rejects.push(rej);
                            assert(rejected_view(rejects@) =~= before.push(rej@));
                        },
                    }
                },
                XdsUpdate::Remove(name) => {
                    self.remove(&name);
                },
            }
        }
        proof {
            assert(all.take(all.len() as int) =~= all);
        }
        batch_result(rejects)
    }

    /// Applies a batch of address updates.
    pub fn handle_addresses(&mut self, updates: Vec<XdsUpdate<XdsAddress>>) -> (r: Result<
        (),
        Vec<RejectedConfig>,
    >)
        ensures
            final(self)@.state == handled(old(self)@.state, updates@, address_steps()).0,
            batch_outcome(r, handled(old(self)@.state, updates@, address_steps()).1),
            final(self)@.fetcher == old(self)@.fetcher.after_addresses(updates@),
    {
        let ghost all = updates@;
        let mut rejects: Vec<RejectedConfig> = Vec::new();
        proof {
            assert(all.take(0) =~= Seq::<XdsUpdate<XdsAddress>>::empty());
            assert(rejected_view(rejects@) =~= Seq::<RejectedView>::empty());
        }
        for u in it: updates
            invariant
                it.seq() == all,
                (self@.state, rejected_view(rejects@)) == handled(
                    old(self)@.state,
                    all.take(it.index() as int),
                    address_steps(),
                ),
                self@.fetcher == old(self)@.fetcher.after_addresses(all.take(it.index() as int)),
        {
            proof {
                assert(all.take(it.index() + 1).drop_last() =~= all.take(it.index() as int));
                assert(all.take(it.index() + 1).last() == u);
                lemma_handled_step(old(self)@.state, all, address_steps(), it.index() as int);
                assert(address_steps()(self@.state, u) == address_step(self@.state, u));
            }
            let ghost before = rejected_view(rejects@);
            match u {
                XdsUpdate::Update(a) => {
                    let name = a.name;
                    match self.insert_address(a.resource) {
                        Ok(_) => {},
                        Err(e) => {
                            let rej = RejectedConfig { name, reason: e };
                            rejects.push(rej);
                            assert(rejected_view(rejects@) =~= before.push(rej@));
                        },
                    }
                },
                XdsUpdate::Remove(name) => {
                    self.remove(&name);
                },
            }
        }
        proof {
            assert(all.take(all.len() as int) =~= all);
        }
        batch_result(rejects)
    }

    /// Applies a batch of policy updates.
    pub fn handle_authorizations(&mut self, updates: Vec<XdsUpdate<XdsAuthorization>>) -> (r:
        Result<(), Vec<RejectedConfig>>)
        ensures
            final(self)@.state == handled(old(self)@.state, updates@, authorization_steps()).0,
            batch_outcome(r, handled(old(self)@.state, updates@, authorization_steps()).1),
            final(self)@.fetcher == old(self)@.fetcher,
    {
        let ghost all = updates@;
        let mut rejects: Vec<RejectedConfig> = Vec::new();
        proof {
            assert(all.take(0) =~= Seq::<XdsUpdate<XdsAuthorization>>::empty());
            assert(rejected_view(rejects@) =~= Seq::<RejectedView>::empty());
        }
        for u in it: updates
            invariant
                it.seq() == all,
                (self@.state, rejected_view(rejects@)) == handled(
                    old(self)@.state,
                    all.take(it.index() as int),
                    authorization_steps(),
                ),
                self@.fetcher == old(self)@.fetcher,
        {
            proof {
                lemma_handled_step(old(self)@.state, all, authorization_steps(), it.index() as int);
                assert(authorization_steps()(self@.state, u) == authorization_step(self@.state, u));
            }
            let ghost before = rejected_view(rejects@);
            match u {
                XdsUpdate::Update(a) => {
                    let name = a.name;
                    match self.insert_authorization(a.resource) {
                        Ok(_) => {},
                        Err(e) => {
                            let rej = RejectedConfig { name, reason: Error::Workload(e) };
                            rejects.push(rej);
                            assert(rejected_view(rejects@) =~= before.push(rej@));
                        },
                    }
                },
                XdsUpdate::Remove(name) => {
                    self.remove_authorization(name);
                },
            }
        }
        proof {
            assert(all.take(all.len() as int) =~= all);
        }
        batch_result(rejects)
    }
}

} // verus!
