//! The decisions of the inbound listener.
//!
//! For each accepted socket the listener picks the identity to present,
//! and for each inner request of a tunnel it decides whether to relay it
//! and where to. The listener itself, with its sockets and handshakes,
//! lives outside this library; it asks these functions what to do.

use crate::identity::{identity_opt, Identity, IdentityView};
use crate::ip::{IpAddr, SocketAddr};
use crate::rbac::{begins_with, Connection, ConnectionView};
use crate::state::{workload_opt, Address, AddressView, ProxyState, ProxyStateView};
use crate::table::lists;
use crate::text::{
    chars_of, fields_view, ip_of_text, parse_ip, parse_socket_addr, same_text, slice_chars,
    socket_addr_of_text, split, split_chars, string_of,
};
use crate::workload::{
    network_addr, Destination, DestinationView, GatewayAddress, GatewayAddressView, NetworkAddress,
    NetworkAddressView, WaypointError, Workload, WorkloadView,
};
use crate::lifecycle::{conn_step, ConnAction, ConnEvent, ConnState};
use vstd::prelude::*;

verus! {

/// The tunnel is open.
pub const OK: u16 = 200;

/// The authority is malformed, or names another address than the connection.
pub const BAD_REQUEST: u16 = 400;

/// Policy denies the connection, or the waypoint was bypassed.
pub const UNAUTHORIZED: u16 = 401;

/// The destination or the verb is unknown.
pub const NOT_FOUND: u16 = 404;

/// The upstream socket could not be opened.
pub const SERVICE_UNAVAILABLE: u16 = 503;

/// The certificate for a connection could not be chosen.
#[derive(Debug, PartialEq, Eq)]
pub enum TlsError {
    /// No workload owns the address that the connection was sent to.
    CertificateLookup(NetworkAddress),
}

/// The identity to present on a connection that was sent to `dst` on
/// the network `network`, or the failed lookup.
pub open spec fn identity_for(st: ProxyStateView, network: Seq<char>, dst: IpAddr) -> Result<
    IdentityView,
    NetworkAddressView,
> {
    let wip = NetworkAddressView { network, address: dst };
    match st.workload_at(wip) {
        Some(w) => Ok(w.identity()),
        None => Err(wip),
    }
}

/// The view of an identity or a failed lookup.
pub open spec fn identity_result(r: Result<Identity, TlsError>) -> Result<
    IdentityView,
    NetworkAddressView,
> {
    match r {
        Ok(i) => Ok(i@),
        Err(TlsError::CertificateLookup(a)) => Err(a@),
    }
}

/// Picks the identity to present on an accepted connection: that of the
/// workload that owns the address the connection was sent to. Inbound
/// traffic is on this proxy's own network `network`.
pub fn fetch_cert_identity(state: &ProxyState, network: &str, orig_dst: SocketAddr) -> (r: Result<
    Identity,
    TlsError,
>)
    ensures
        identity_result(r) == identity_for(state@, network@, orig_dst.ip),
{
    let wip = network_addr(network, orig_dst.ip);
    match state.find_workload(&wip) {
        Some(w) => Ok(w.identity()),
        None => Err(TlsError::CertificateLookup(wip)),
    }
}

/// What the certificate lookup means for the connection: with an
/// identity to present the handshake can start; without one the
/// connection is to be closed, and nothing is served on it.
pub fn acceptor_event(found: &Result<Identity, TlsError>) -> (e: ConnEvent)
    ensures
        e == (if found is Ok {
            ConnEvent::AcceptorReady
        } else {
            ConnEvent::AcceptorFailed
        }),
        found is Err ==> conn_step(ConnState::Accepted, e) == (ConnState::Closed, ConnAction::Close),
        found is Ok ==> conn_step(ConnState::Accepted, e) == (
            ConnState::TlsHandshaking,
            ConnAction::Handshake,
        ),
{
    match found {
        Ok(_) => ConnEvent::AcceptorReady,
        Err(_) => ConnEvent::AcceptorFailed,
    }
}

/// Whether a workload owns the address `e` and has the identity `peer`.
pub open spec fn is_peer(st: ProxyStateView, e: NetworkAddressView, peer: Option<IdentityView>) -> bool {
    match st.workload_at(e) {
        Some(w) => Some(w.identity()) == peer,
        None => false,
    }
}

/// Whether the peer with identity `peer` is the gateway `gateway`: the
/// gateway is named by address, and the address leads to a workload with
/// the identity of the peer, or to a service one of whose endpoints is
/// such a workload. A gateway named by hostname cannot be resolved.
pub open spec fn is_gateway(
    st: ProxyStateView,
    peer: Option<IdentityView>,
    gateway: Option<GatewayAddressView>,
) -> Result<bool, ()> {
    match gateway {
        None => Ok(false),
        Some(g) => match g.destination {
            DestinationView::Hostname(_) => Err(()),
            DestinationView::Address(a) => match st.resolve(a) {
                Some(AddressView::Workload(w)) => Ok(Some(w.identity()) == peer),
                Some(AddressView::Service(svc)) => Ok(
                    exists|e: NetworkAddressView|
                        svc.endpoints.contains_key(e) && #[trigger] is_peer(st, e, peer),
                ),
                None => Ok(false),
            },
        },
    }
}

/// The gateway as far as gating goes: a gateway named by hostname counts
/// as no gateway.
pub open spec fn gating(gateway: Option<GatewayAddressView>) -> Option<GatewayAddressView> {
    match gateway {
        Some(g) => match g.destination {
            DestinationView::Hostname(_) => None,
            DestinationView::Address(_) => gateway,
        },
        None => None,
    }
}

/// Whether a workload behind one of the endpoints of the service has the
/// identity `peer`.
fn serves_peer(state: &ProxyState, svc: &crate::service::Service, peer: &Option<Identity>) -> (r:
    bool)
    ensures
        r == exists|e: NetworkAddressView|
            svc@.endpoints.contains_key(e) && #[trigger] is_peer(state@, e, identity_opt(*peer)),
{
    let candidates = svc.endpoints.key_list();
    let n = candidates.len();
    let ghost who = identity_opt(*peer);
    let mut i: usize = 0;
    while i < n
        invariant
            i <= n,
            n == candidates@.len(),
            n == svc.endpoints.keys().len(),
            who == identity_opt(*peer),
            lists(svc.endpoints.keys(), svc.endpoints@),
            forall|j: int| 0 <= j < n ==> (#[trigger] candidates@[j])@ == svc.endpoints.keys()[j],
            forall|j: int| 0 <= j < i ==> !is_peer(state@, #[trigger] svc.endpoints.keys()[j], who),
        decreases n - i,
    {
        match state.find_workload(&candidates[i]) {
            Some(w) => {
                let id = Some(w.identity());
                if crate::identity::same_identity(&id, peer) {
                    proof {
                        let e = svc.endpoints.keys()[i as int];
                        assert(svc.endpoints.keys().contains(e));
                        assert(svc@.endpoints.contains_key(e));
                        assert(is_peer(state@, e, who));
                    }
                    return true;
                }
            },
            None => {},
        }
        i += 1;
    }
    proof {
        assert forall|e: NetworkAddressView| svc@.endpoints.contains_key(e) implies !(
        #[trigger] is_peer(state@, e, who)) by {
            assert(svc.endpoints.keys().contains(e));
            let j = choose|j: int|
                0 <= j < svc.endpoints.keys().len() && svc.endpoints.keys()[j] == e;
            assert(!is_peer(state@, svc.endpoints.keys()[j], who));
        }
    }
    false
}

/// Whether the connection comes from the given gateway.
pub fn check_gateway_address(
    state: &ProxyState,
    conn: &Connection,
    gateway_address: Option<&GatewayAddress>,
) -> (r: Result<bool, WaypointError>)
    ensures
        match is_gateway(
            state@,
            conn@.src_identity,
            match gateway_address {
                Some(g) => Some(g@),
                None => None,
            },
        ) {
            Ok(b) => r == Ok::<bool, WaypointError>(b),
            Err(_) => r matches Err(WaypointError::UnsupportedFeature(m)) && m@
                == "hostname lookup not supported yet"@,
        },
{
    let gateway_nw_addr = match gateway_address {
        Some(addr) => match &addr.destination {
            Destination::Address(gateway_ip) => gateway_ip,
            Destination::Hostname(_) => {
                return Err(
                    WaypointError::UnsupportedFeature(
                        "hostname lookup not supported yet".to_owned(),
                    ),
                );
            },
        },
        None => {
            return Ok(false);
        },
    };
    match state.fetch_address(gateway_nw_addr) {
        Some(Address::Workload(wl)) => {
            let id = Some(wl.identity());
            Ok(crate::identity::same_identity(&id, &conn.src_identity))
        },
        Some(Address::Service(svc)) => Ok(serves_peer(state, &svc, &conn.src_identity)),
        None => Ok(false),
    }
}

/// Whether the connection comes from the waypoint of the workload.
pub fn check_waypoint(state: &ProxyState, upstream: &Workload, conn: &Connection) -> (r: Result<
    bool,
    WaypointError,
>)
    ensures
        match is_gateway(state@, conn@.src_identity, upstream@.waypoint) {
            Ok(b) => r == Ok::<bool, WaypointError>(b),
            Err(_) => r matches Err(WaypointError::UnsupportedFeature(m)) && m@
                == "hostname lookup not supported yet"@,
        },
{
    let g: Option<&GatewayAddress> = match &upstream.waypoint {
        Some(g) => Some(g),
        None => None,
    };
    check_gateway_address(state, conn, g)
}

/// Whether the connection comes from the network gateway of the workload.
pub fn check_gateway(state: &ProxyState, upstream: &Workload, conn: &Connection) -> (r: Result<
    bool,
    WaypointError,
>)
    ensures
        match is_gateway(state@, conn@.src_identity, upstream@.network_gateway) {
            Ok(b) => r == Ok::<bool, WaypointError>(b),
            Err(_) => r matches Err(WaypointError::UnsupportedFeature(m)) && m@
                == "hostname lookup not supported yet"@,
        },
{
    let g: Option<&GatewayAddress> = match &upstream.network_gateway {
        Some(g) => Some(g),
        None => None,
    };
    check_gateway_address(state, conn, g)
}

/// What the peer says of the workload it speaks for.
#[derive(Debug, Clone, PartialEq, Eq)]
pub struct Baggage {
    pub cluster_id: Option<String>,
    pub namespace: Option<String>,
    pub workload_name: Option<String>,
    pub revision: Option<String>,
}

/// The view of an optional string.
pub open spec fn string_opt(o: Option<String>) -> Option<Seq<char>> {
    match o {
        Some(s) => Some(s@),
        None => None,
    }
}

/// What a `Baggage` stands for.
pub struct BaggageView {
    pub cluster_id: Option<Seq<char>>,
    pub namespace: Option<Seq<char>>,
    pub workload_name: Option<Seq<char>>,
    pub revision: Option<Seq<char>>,
}

impl View for Baggage {
    type V = BaggageView;

    open spec fn view(&self) -> BaggageView {
        BaggageView {
            cluster_id: string_opt(self.cluster_id),
            namespace: string_opt(self.namespace),
            workload_name: string_opt(self.workload_name),
            revision: string_opt(self.revision),
        }
    }
}

impl BaggageView {
    /// The baggage that says nothing.
    pub open spec fn empty() -> Self {
        BaggageView { cluster_id: None, namespace: None, workload_name: None, revision: None }
    }

    /// The baggage after one more item `key=value` of the header: a known
    /// key sets its field, to nothing where the value is empty; an item
    /// without `=` or with an unknown key changes nothing.
    pub open spec fn with_item(self, item: Seq<char>) -> Self {
        let parts = split(item, '=');
        if parts.len() > 1 {
            let val = if parts[1].len() == 0 {
                None
            } else {
                Some(parts[1])
            };
            if parts[0] == "k8s.cluster.id"@ {
                BaggageView { cluster_id: val, ..self }
            } else if parts[0] == "k8s.namespace.name"@ {
                BaggageView { namespace: val, ..self }
            } else if parts[0] == "k8s.workload.name"@ {
                BaggageView { workload_name: val, ..self }
            } else if parts[0] == "service.revision"@ {
                BaggageView { revision: val, ..self }
            } else {
                self
            }
        } else {
            self
        }
    }

    /// The baggage after the items, in their order.
    pub open spec fn with_items(self, items: Seq<Seq<char>>) -> Self
        decreases items.len(),
    {
        if items.len() == 0 {
            self
        } else {
            self.with_items(items.drop_last()).with_item(items.last())
        }
    }
}

/// What a baggage header says: its items are set apart by commas.
pub open spec fn baggage_of(header: Seq<char>) -> BaggageView {
    BaggageView::empty().with_items(split(header, ','))
}

/// Reads a baggage header.
pub fn parse_baggage_header(header: &str) -> (r: Baggage)
    ensures
        r@ == baggage_of(header@),
{
    let v = chars_of(header);
    let items = split_chars(&v, ',');
    let ghost iv = fields_view(items@);
    let mut b = Baggage { cluster_id: None, namespace: None, workload_name: None, revision: None };
    let n = items.len();
    let mut i: usize = 0;
    proof {
        assert(iv.take(0) =~= Seq::<Seq<char>>::empty());
    }
    while i < n
        invariant
            i <= n,
            n == items@.len(),
            iv == fields_view(items@),
            b@ == BaggageView::empty().with_items(iv.take(i as int)),
        decreases n - i,
    {
        proof {
            assert(iv.take(i + 1).drop_last() =~= iv.take(i as int));
            assert(iv.take(i + 1).last() == items@[i as int]@);
        }
        let parts = split_chars(&items[i], '=');
        if parts.len() > 1 {
            assert(fields_view(parts@)[0] == parts@[0]@);
            assert(fields_view(parts@)[1] == parts@[1]@);
            let val: Option<String> = if parts[1].len() == 0 {
                None
            } else {
                Some(string_of(&parts[1]))
            };
            if same_text(&parts[0], "k8s.cluster.id") {
                b.cluster_id = val;
            } else if same_text(&parts[0], "k8s.namespace.name") {
                b.namespace = val;
            } else if same_text(&parts[0], "k8s.workload.name") {
                b.workload_name = val;
            } else if same_text(&parts[0], "service.revision") {
                b.revision = val;
            }
        }
        i += 1;
    }
    proof {
        assert(iv.take(n as int) =~= iv);
    }
    b
}

/// The source that a `Forwarded` header names: the header reads `for=`
/// and then an IP address, or a socket address whose port is left aside.
pub open spec fn forwarded_source(header: Seq<char>) -> Option<IpAddr> {
    if begins_with(header, "for="@) {
        let rest = header.skip(4);
        match ip_of_text(rest) {
            Some(ip) => Some(ip),
            None => match socket_addr_of_text(rest) {
                Some(a) => Some(a.ip),
                None => None,
            },
        }
    } else {
        None
    }
}

/// Reads the source that a `Forwarded` header names.
pub fn get_original_src_from_fwded(header: &str) -> (r: Option<IpAddr>)
    ensures
        r == forwarded_source(header@),
{
    let v = chars_of(header);
    proof {
        reveal_strlit("for=");
    }
    if v.len() < 4 || v[0] != 'f' || v[1] != 'o' || v[2] != 'r' || v[3] != '=' {
        proof {
            if v@.len() >= 4 {
                assert(v@.take(4)[0] == v@[0]);
                assert(v@.take(4)[1] == v@[1]);
                assert(v@.take(4)[2] == v@[2]);
                assert(v@.take(4)[3] == v@[3]);
            }
        }
        return None;
    }
    proof {
        assert(v@.take(4) =~= "for="@);
    }
    let rest = slice_chars(&v, 4, v.len());
    proof {
        assert(rest@ =~= header@.skip(4));
    }
    let rest = string_of(&rest);
    match parse_ip(rest.as_str()) {
        Some(ip) => Some(ip),
        None => match parse_socket_addr(rest.as_str()) {
            Some(a) => Some(a.ip),
            None => None,
        },
    }
}

/// What of an inner request the decision depends on.
#[derive(Debug, Clone, PartialEq, Eq)]
pub struct InboundRequest {
    /// The verb of the request.
    pub method: String,
    /// The authority of the request: for a tunnel, `address:port`.
    pub authority: String,
    /// The `forwarded` header, if there is one.
    pub forwarded: Option<String>,
    /// The `baggage` headers, joined by commas, if there are any.
    pub baggage: Option<String>,
}

/// What an `InboundRequest` stands for.
pub struct InboundRequestView {
    pub method: Seq<char>,
    pub authority: Seq<char>,
    pub forwarded: Option<Seq<char>>,
    pub baggage: Option<Seq<char>>,
}

impl View for InboundRequest {
    type V = InboundRequestView;

    open spec fn view(&self) -> InboundRequestView {
        InboundRequestView {
            method: self.method@,
            authority: self.authority@,
            forwarded: string_opt(self.forwarded),
            baggage: string_opt(self.baggage),
        }
    }
}

/// Why an inner request was refused.
#[derive(Debug, Clone, Copy, PartialEq, Eq, Structural)]
pub enum Refusal {
    /// The verb is not `CONNECT`.
    UnknownVerb,
    /// The authority is no socket address.
    MalformedAuthority,
    /// The authority names another address than the connection was sent to.
    AddressMismatch,
    /// No workload owns the address.
    UnknownDestination,
    /// Policy denies the connection.
    PolicyDenied,
    /// The workload has a waypoint, and the connection did not come through it.
    BypassedWaypoint,
}

impl Refusal {
    /// The status that the peer is answered with.
    pub open spec fn spec_status(self) -> u16 {
        match self {
            Refusal::UnknownVerb => NOT_FOUND,
            Refusal::MalformedAuthority => BAD_REQUEST,
            Refusal::AddressMismatch => BAD_REQUEST,
            Refusal::UnknownDestination => NOT_FOUND,
            Refusal::PolicyDenied => UNAUTHORIZED,
            Refusal::BypassedWaypoint => UNAUTHORIZED,
        }
    }

    /// The status that the peer is answered with.
    #[verifier::when_used_as_spec(spec_status)]
    pub fn status(self) -> (r: u16)
        ensures
            r == self.spec_status(),
    {
        match self {
            Refusal::UnknownVerb => NOT_FOUND,
            Refusal::MalformedAuthority => BAD_REQUEST,
            Refusal::AddressMismatch => BAD_REQUEST,
            Refusal::UnknownDestination => NOT_FOUND,
            Refusal::PolicyDenied => UNAUTHORIZED,
            Refusal::BypassedWaypoint => UNAUTHORIZED,
        }
    }
}

/// An inner request that was let through: what the relay needs to know.
#[derive(Debug, Clone, PartialEq, Eq)]
pub struct Admission {
    /// The connection, with the destination that the authority named.
    pub conn: Connection,
    /// The workload that the request goes to.
    pub upstream: Workload,
    /// The address to connect to.
    pub destination: SocketAddr,
    /// Whether the peer is the waypoint of the workload.
    pub from_waypoint: bool,
    /// Whether the peer is the network gateway of the workload.
    pub from_gateway: bool,
    /// The address that the traffic comes from.
    pub source_ip: IpAddr,
    /// The address to connect from, where the proxy keeps the source address.
    pub bind: Option<IpAddr>,
    /// The workload that the traffic comes from, if it is known.
    pub source: Option<Workload>,
    /// What the peer says of the workload it speaks for.
    pub baggage: Baggage,
}

/// What an `Admission` stands for.
pub struct AdmissionView {
    pub conn: ConnectionView,
    pub upstream: WorkloadView,
    pub destination: SocketAddr,
    pub from_waypoint: bool,
    pub from_gateway: bool,
    pub source_ip: IpAddr,
    pub bind: Option<IpAddr>,
    pub source: Option<WorkloadView>,
    pub baggage: BaggageView,
}

impl View for Admission {
    type V = AdmissionView;

    open spec fn view(&self) -> AdmissionView {
        AdmissionView {
            conn: self.conn@,
            upstream: self.upstream@,
            destination: self.destination,
            from_waypoint: self.from_waypoint,
            from_gateway: self.from_gateway,
            source_ip: self.source_ip,
            bind: self.bind,
            source: workload_opt(self.source),
            baggage: self.baggage@,
        }
    }
}

/// What to do with an inner request.
#[derive(Debug, Clone, PartialEq, Eq)]
pub enum Decision {
    /// Answer with the status of the refusal and close the inner stream.
    Refuse(Refusal),
    /// Open the upstream socket; answer `200` once it is open.
    Admit(Admission),
}

/// What a `Decision` stands for.
pub enum DecisionView {
    Refuse(Refusal),
    Admit(AdmissionView),
}

impl View for Decision {
    type V = DecisionView;

    open spec fn view(&self) -> DecisionView {
        match self {
            Decision::Refuse(r) => DecisionView::Refuse(*r),
            Decision::Admit(a) => DecisionView::Admit(a@),
        }
    }
}

/// Whether the peer of the connection is the given gateway, where a
/// gateway that cannot be resolved counts as none.
pub open spec fn came_through(
    st: ProxyStateView,
    peer: Option<IdentityView>,
    gateway: Option<GatewayAddressView>,
) -> bool {
    match is_gateway(st, peer, gateway) {
        Ok(b) => b,
        Err(_) => false,
    }
}

/// The decision on an inner request, step by step:
/// the verb must be `CONNECT`; the authority must be a socket address; its
/// address must be the one that the connection was sent to; a workload
/// must own it on our network; unless the peer is the waypoint or the
/// network gateway of the workload, policy must allow the connection; and
/// where the workload has a waypoint, the peer must be that waypoint. The
/// source of an admitted request is what the waypoint forwards, if the
/// peer is the waypoint and says so, else the peer's own address; the
/// workload of the source is looked up unless the traffic crossed a
/// network gateway.
pub open spec fn decision(
    st: ProxyStateView,
    conn: ConnectionView,
    enable_original_source: bool,
    req: InboundRequestView,
) -> DecisionView {
    if req.method != "CONNECT"@ {
        DecisionView::Refuse(Refusal::UnknownVerb)
    } else {
        match socket_addr_of_text(req.authority) {
            None => DecisionView::Refuse(Refusal::MalformedAuthority),
            Some(addr) => if addr.ip != conn.dst.ip {
                DecisionView::Refuse(Refusal::AddressMismatch)
            } else {
                let conn = ConnectionView { dst: addr, ..conn };
                match st.workload_at(
                    NetworkAddressView { network: conn.dst_network, address: addr.ip },
                ) {
                    None => DecisionView::Refuse(Refusal::UnknownDestination),
                    Some(upstream) => {
                        let from_waypoint = came_through(st, conn.src_identity, upstream.waypoint);
                        let from_gateway = came_through(
                            st,
                            conn.src_identity,
                            upstream.network_gateway,
                        );
                        if !from_waypoint && !from_gateway && !st.permits(conn) {
                            DecisionView::Refuse(Refusal::PolicyDenied)
                        } else if gating(upstream.waypoint) is Some && !from_waypoint {
                            DecisionView::Refuse(Refusal::BypassedWaypoint)
                        } else {
                            let forwarded = match req.forwarded {
                                Some(h) => forwarded_source(h),
                                None => None,
                            };
                            let source_ip = if from_waypoint && forwarded is Some {
                                forwarded->0
                            } else {
                                conn.src_ip
                            };
                            DecisionView::Admit(
                                AdmissionView {
                                    conn,
                                    upstream,
                                    destination: addr,
                                    from_waypoint,
                                    from_gateway,
                                    source_ip,
                                    bind: if enable_original_source {
                                        Some(source_ip)
                                    } else {
                                        None
                                    },
                                    source: if from_gateway {
                                        None
                                    } else {
                                        st.workload_at(
                                            NetworkAddressView {
                                                network: conn.dst_network,
                                                address: source_ip,
                                            },
                                        )
                                    },
                                    baggage: match req.baggage {
                                        Some(h) => baggage_of(h),
                                        None => BaggageView::empty(),
                                    },
                                },
                            )
                        }
                    },
                }
            },
        }
    }
}

fn gates(gateway: &Option<GatewayAddress>) -> (r: bool)
    ensures
        r == (gating(crate::workload::gateway_opt(*gateway)) is Some),
{
    match gateway {
        Some(g) => match &g.destination {
            Destination::Hostname(_) => false,
            Destination::Address(_) => true,
        },
        None => false,
    }
}

/// Decides what to do with an inner request on a connection.
pub fn serve_connect(
    state: &ProxyState,
    conn: Connection,
    enable_original_source: bool,
    req: &InboundRequest,
) -> (r: Decision)
    ensures
        r@ == decision(state@, conn@, enable_original_source, req@),
{
    if !same_text(&chars_of(req.method.as_str()), "CONNECT") {
        return Decision::Refuse(Refusal::UnknownVerb);
    }
    let addr = match parse_socket_addr(req.authority.as_str()) {
        Some(addr) => addr,
        None => {
            return Decision::Refuse(Refusal::MalformedAuthority);
        },
    };
    if addr.ip != conn.dst.ip {
        return Decision::Refuse(Refusal::AddressMismatch);
    }
    let conn = Connection {
        src_identity: conn.src_identity,
        src_ip: conn.src_ip,
        dst_network: conn.dst_network,
        dst: addr,
    };
    let dst_network_addr = network_addr(conn.dst_network.as_str(), addr.ip);
    let upstream = match state.find_workload(&dst_network_addr) {
        Some(upstream) => upstream,
        None => {
            return Decision::Refuse(Refusal::UnknownDestination);
        },
    };
    let has_waypoint = gates(&upstream.waypoint);
    let from_waypoint = match check_waypoint(state, &upstream, &conn) {
        Ok(b) => b,
        Err(_) => false,
    };
    let from_gateway = match check_gateway(state, &upstream, &conn) {
        Ok(b) => b,
        Err(_) => false,
    };
    if !from_waypoint && !from_gateway && !state.assert_rbac(&conn) {
        return Decision::Refuse(Refusal::PolicyDenied);
    }
    if has_waypoint && !from_waypoint {
        return Decision::Refuse(Refusal::BypassedWaypoint);
    }
    let forwarded: Option<IpAddr> = match &req.forwarded {
        Some(h) => get_original_src_from_fwded(h.as_str()),
        None => None,
    };
    let source_ip = match forwarded {
        Some(ip) => if from_waypoint {
            ip
        } else {
            conn.src_ip
        },
        None => conn.src_ip,
    };
    let baggage = match &req.baggage {
        Some(h) => parse_baggage_header(h.as_str()),
        None => Baggage { cluster_id: None, namespace: None, workload_name: None, revision: None },
    };
    let source = if from_gateway {
        None
    } else {
        let src_network_addr = network_addr(conn.dst_network.as_str(), source_ip);
        state.find_workload(&src_network_addr)
    };
    Decision::Admit(
        Admission {
            conn,
            upstream,
            destination: addr,
            from_waypoint,
            from_gateway,
            source_ip,
            bind: if enable_original_source {
                Some(source_ip)
            } else {
                None
            },
            source,
            baggage,
        },
    )
}

/// The status that answers an admitted request: `200` once the upstream
/// socket is open, `503` where it could not be opened.
pub fn handle_inbound_status(connected: bool) -> (r: u16)
    ensures
        r == if connected {
            OK
        } else {
            SERVICE_UNAVAILABLE
        },
{
    if connected {
        OK
    } else {
        SERVICE_UNAVAILABLE
    }
}

} // verus!
