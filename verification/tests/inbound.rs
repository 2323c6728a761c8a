use ztunnel::identity::Identity;
use ztunnel::inbound::{
    acceptor_event, check_gateway_address, fetch_cert_identity, get_original_src_from_fwded,
    handle_inbound_status, parse_baggage_header, serve_connect, Admission, Baggage, Decision,
    InboundRequest, Refusal, TlsError,
};
use ztunnel::ip::{IpAddr, Ipv4Addr, Ipv6Addr, SocketAddr};
use ztunnel::lifecycle::{ConnAction, ConnEvent, ConnState};
use ztunnel::rbac::{Authorization, Connection, RbacAction, RbacMatch, RbacScope, StringMatch};
use ztunnel::service::{Endpoint, Service};
use ztunnel::state::ProxyState;
use ztunnel::table::Table;
use ztunnel::workload::{
    network_addr, Destination, GatewayAddress, HealthStatus, NamespacedHostname, Protocol,
    WaypointError, Workload,
};

fn ip(a: [u8; 4]) -> IpAddr {
    IpAddr::V4(Ipv4Addr::new(a[0], a[1], a[2], a[3]))
}

fn identity(ns: &str, sa: &str) -> Identity {
    Identity::Spiffe {
        trust_domain: "cluster.local".to_string(),
        namespace: ns.to_string(),
        service_account: sa.to_string(),
    }
}

fn workload(uid: &str, addr: [u8; 4], ns: &str, sa: &str) -> Workload {
    Workload {
        workload_ips: vec![ip(addr)],
        waypoint: None,
        network_gateway: None,
        gateway_address: None,
        protocol: Protocol::TCP,
        uid: uid.to_string(),
        name: uid.to_string(),
        namespace: ns.to_string(),
        trust_domain: "cluster.local".to_string(),
        service_account: sa.to_string(),
        network: "".to_string(),
        workload_name: "".to_string(),
        workload_type: "deployment".to_string(),
        canonical_name: "".to_string(),
        canonical_revision: "".to_string(),
        node: "".to_string(),
        native_tunnel: false,
        authorization_policies: vec![],
        status: HealthStatus::Healthy,
        cluster_id: "Kubernetes".to_string(),
    }
}

fn gateway_at(addr: [u8; 4]) -> GatewayAddress {
    GatewayAddress {
        destination: Destination::Address(network_addr("", ip(addr))),
        port: 15008,
    }
}

/// A store with workload `W1` at `10.0.0.5`, identity
/// `spiffe://cluster.local/ns/default/sa/default`.
fn store_with_w1() -> ProxyState {
    let mut state = ProxyState::new();
    state
        .workloads
        .insert_workload(workload("W1", [10, 0, 0, 5], "default", "default"))
        .unwrap();
    state
}

/// The peer: namespace `client`, service account `client-sa`, sending to
/// `10.0.0.5` on the tunnel port.
fn peer_conn() -> Connection {
    Connection {
        src_identity: Some(identity("client", "client-sa")),
        src_ip: ip([10, 0, 0, 9]),
        dst_network: "".to_string(),
        dst: SocketAddr::new(ip([10, 0, 0, 5]), 15008),
    }
}

fn connect(authority: &str) -> InboundRequest {
    InboundRequest {
        method: "CONNECT".to_string(),
        authority: authority.to_string(),
        forwarded: None,
        baggage: None,
    }
}

fn no_baggage() -> Baggage {
    Baggage {
        cluster_id: None,
        namespace: None,
        workload_name: None,
        revision: None,
    }
}

fn admitted(d: Decision) -> Admission {
    match d {
        Decision::Admit(a) => a,
        Decision::Refuse(r) => panic!("refused: {r:?}"),
    }
}

#[test]
fn happy_path_tunnel() {
    let state = store_with_w1();
    assert_eq!(
        fetch_cert_identity(&state, "", SocketAddr::new(ip([10, 0, 0, 5]), 15008)),
        Ok(identity("default", "default"))
    );
    let a = admitted(serve_connect(
        &state,
        peer_conn(),
        false,
        &connect("10.0.0.5:8080"),
    ));
    assert_eq!(a.destination, SocketAddr::new(ip([10, 0, 0, 5]), 8080));
    // the connection now names the real port
    assert_eq!(a.conn.dst, SocketAddr::new(ip([10, 0, 0, 5]), 8080));
    assert_eq!(a.upstream.uid, "W1");
    assert!(!a.from_waypoint);
    assert!(!a.from_gateway);
    assert_eq!(a.source_ip, ip([10, 0, 0, 9]));
    assert_eq!(a.bind, None);
    assert_eq!(a.source, None);
    assert_eq!(a.baggage, no_baggage());
    assert_eq!(handle_inbound_status(true), 200);
    assert_eq!(handle_inbound_status(false), 503);
}

#[test]
fn ip_mismatch() {
    let state = store_with_w1();
    let d = serve_connect(&state, peer_conn(), false, &connect("10.0.0.6:8080"));
    assert_eq!(d, Decision::Refuse(Refusal::AddressMismatch));
    assert_eq!(Refusal::AddressMismatch.status(), 400);
}

#[test]
fn unknown_destination() {
    let state = ProxyState::new();
    assert_eq!(
        fetch_cert_identity(&state, "", SocketAddr::new(ip([10, 0, 0, 5]), 15008)),
        Err(TlsError::CertificateLookup(network_addr(
            "",
            ip([10, 0, 0, 5])
        )))
    );
    // had the handshake gone through all the same, the request would find nobody
    let d = serve_connect(&state, peer_conn(), false, &connect("10.0.0.5:8080"));
    assert_eq!(d, Decision::Refuse(Refusal::UnknownDestination));
    assert_eq!(Refusal::UnknownDestination.status(), 404);
    // a workload on another network is not found either
    let state = store_with_w1();
    assert!(fetch_cert_identity(&state, "remote", SocketAddr::new(ip([10, 0, 0, 5]), 15008)).is_err());
}

#[test]
fn policy_deny() {
    let mut state = store_with_w1();
    state.workloads.insert_authorization(Authorization {
        name: "deny-client-sa".to_string(),
        namespace: "default".to_string(),
        scope: RbacScope::Namespace,
        action: RbacAction::Deny,
        rules: vec![vec![vec![RbacMatch {
            namespaces: vec![],
            not_namespaces: vec![],
            principals: vec![StringMatch::Suffix("/sa/client-sa".to_string())],
            not_principals: vec![],
            source_ips: vec![],
            not_source_ips: vec![],
            destination_ips: vec![],
            not_destination_ips: vec![],
            destination_ports: vec![],
            not_destination_ports: vec![],
        }]]],
    });
    let d = serve_connect(&state, peer_conn(), false, &connect("10.0.0.5:8080"));
    assert_eq!(d, Decision::Refuse(Refusal::PolicyDenied));
    assert_eq!(Refusal::PolicyDenied.status(), 401);
}

#[test]
fn bypassed_waypoint() {
    let mut state = ProxyState::new();
    let mut w1 = workload("W1", [10, 0, 0, 5], "default", "default");
    w1.waypoint = Some(gateway_at([10, 0, 0, 100]));
    state.workloads.insert_workload(w1).unwrap();
    state
        .workloads
        .insert_workload(workload("WP1", [10, 0, 0, 100], "default", "waypoint"))
        .unwrap();
    // the peer is not the waypoint
    let d = serve_connect(&state, peer_conn(), false, &connect("10.0.0.5:8080"));
    assert_eq!(d, Decision::Refuse(Refusal::BypassedWaypoint));
    assert_eq!(Refusal::BypassedWaypoint.status(), 401);
}

#[test]
fn through_the_waypoint() {
    let mut state = ProxyState::new();
    let mut w1 = workload("W1", [10, 0, 0, 5], "default", "default");
    w1.waypoint = Some(gateway_at([10, 0, 0, 100]));
    state.workloads.insert_workload(w1).unwrap();
    state
        .workloads
        .insert_workload(workload("WP1", [10, 0, 0, 100], "default", "waypoint"))
        .unwrap();
    state
        .workloads
        .insert_workload(workload("SRC", [10, 0, 0, 77], "client", "client-sa"))
        .unwrap();
    // a policy that denies everybody: the waypoint is not asked
    state.workloads.insert_authorization(Authorization {
        name: "deny-all".to_string(),
        namespace: "default".to_string(),
        scope: RbacScope::Global,
        action: RbacAction::Deny,
        rules: vec![],
    });
    let from_waypoint = Connection {
        src_identity: Some(identity("default", "waypoint")),
        src_ip: ip([10, 0, 0, 100]),
        dst_network: "".to_string(),
        dst: SocketAddr::new(ip([10, 0, 0, 5]), 15008),
    };
    let mut req = connect("10.0.0.5:8080");
    req.forwarded = Some("for=10.0.0.77".to_string());
    req.baggage = Some(
        "k8s.cluster.id=c1,k8s.namespace.name=client,k8s.workload.name=src,service.revision=v2"
            .to_string(),
    );
    let a = admitted(serve_connect(&state, from_waypoint.clone(), true, &req));
    assert!(a.from_waypoint);
    assert!(!a.from_gateway);
    // the source is what the waypoint forwards
    assert_eq!(a.source_ip, ip([10, 0, 0, 77]));
    assert_eq!(a.bind, Some(ip([10, 0, 0, 77])));
    assert_eq!(a.source.map(|w| w.uid), Some("SRC".to_string()));
    assert_eq!(
        a.baggage,
        Baggage {
            cluster_id: Some("c1".to_string()),
            namespace: Some("client".to_string()),
            workload_name: Some("src".to_string()),
            revision: Some("v2".to_string()),
        }
    );
    // without the header the source is the waypoint itself
    let a = admitted(serve_connect(
        &state,
        from_waypoint,
        true,
        &connect("10.0.0.5:8080"),
    ));
    assert_eq!(a.source_ip, ip([10, 0, 0, 100]));
    assert_eq!(a.source.map(|w| w.uid), Some("WP1".to_string()));
    // a peer that is not the waypoint is not believed
    let mut other = peer_conn();
    other.src_identity = None;
    let d = serve_connect(&state, other, true, &req);
    assert_eq!(d, Decision::Refuse(Refusal::PolicyDenied));
}

#[test]
fn through_the_network_gateway() {
    let mut state = ProxyState::new();
    let mut w1 = workload("W1", [10, 0, 0, 5], "default", "default");
    w1.network_gateway = Some(gateway_at([10, 0, 9, 1]));
    state.workloads.insert_workload(w1).unwrap();
    state
        .workloads
        .insert_workload(workload("GW", [10, 0, 0, 200], "gateways", "gw"))
        .unwrap();
    // the gateway is a service address with the gateway workload behind it
    let mut endpoints: Table<ztunnel::workload::NetworkAddress, Endpoint> = Table::new();
    endpoints.insert(
        network_addr("", ip([10, 0, 0, 200])),
        Endpoint {
            vip: network_addr("", ip([10, 0, 9, 1])),
            address: network_addr("", ip([10, 0, 0, 200])),
            port: Table::new(),
        },
    );
    state.services.insert(Service {
        name: "gw".to_string(),
        namespace: "gateways".to_string(),
        hostname: "gw.gateways.svc".to_string(),
        vips: vec![network_addr("", ip([10, 0, 9, 1]))],
        ports: Table::new(),
        endpoints,
        subject_alt_names: vec![],
    });
    state.workloads.insert_authorization(Authorization {
        name: "deny-all".to_string(),
        namespace: "default".to_string(),
        scope: RbacScope::Global,
        action: RbacAction::Deny,
        rules: vec![],
    });
    let from_gateway = Connection {
        src_identity: Some(identity("gateways", "gw")),
        src_ip: ip([10, 0, 0, 200]),
        dst_network: "".to_string(),
        dst: SocketAddr::new(ip([10, 0, 0, 5]), 15008),
    };
    let mut req = connect("10.0.0.5:8080");
    req.forwarded = Some("for=10.0.0.77".to_string());
    let a = admitted(serve_connect(&state, from_gateway.clone(), false, &req));
    assert!(a.from_gateway);
    assert!(!a.from_waypoint);
    // the header is believed from a waypoint only, and the source is not looked up
    assert_eq!(a.source_ip, ip([10, 0, 0, 200]));
    assert_eq!(a.source, None);
    assert_eq!(a.bind, None);

    assert_eq!(
        check_gateway_address(&state, &from_gateway, Some(&gateway_at([10, 0, 9, 1]))),
        Ok(true)
    );
    assert_eq!(
        check_gateway_address(&state, &peer_conn(), Some(&gateway_at([10, 0, 9, 1]))),
        Ok(false)
    );
    assert_eq!(
        check_gateway_address(&state, &from_gateway, Some(&gateway_at([10, 0, 0, 200]))),
        Ok(true)
    );
    assert_eq!(
        check_gateway_address(&state, &from_gateway, Some(&gateway_at([10, 9, 9, 9]))),
        Ok(false)
    );
    assert_eq!(check_gateway_address(&state, &from_gateway, None), Ok(false));
    let by_name = GatewayAddress {
        destination: Destination::Hostname(NamespacedHostname {
            namespace: "gateways".to_string(),
            hostname: "gw.gateways.svc".to_string(),
        }),
        port: 15008,
    };
    assert_eq!(
        check_gateway_address(&state, &from_gateway, Some(&by_name)),
        Err(WaypointError::UnsupportedFeature(
            "hostname lookup not supported yet".to_string()
        ))
    );
    // a peer without identity is nobody's gateway
    let mut nobody = from_gateway.clone();
    nobody.src_identity = None;
    assert_eq!(
        check_gateway_address(&state, &nobody, Some(&gateway_at([10, 0, 9, 1]))),
        Ok(false)
    );
}

#[test]
fn waypoint_by_hostname_does_not_gate() {
    let mut state = ProxyState::new();
    let mut w1 = workload("W1", [10, 0, 0, 5], "default", "default");
    w1.waypoint = Some(GatewayAddress {
        destination: Destination::Hostname(NamespacedHostname {
            namespace: "default".to_string(),
            hostname: "waypoint.default.svc".to_string(),
        }),
        port: 15008,
    });
    state.workloads.insert_workload(w1).unwrap();
    let a = admitted(serve_connect(
        &state,
        peer_conn(),
        false,
        &connect("10.0.0.5:8080"),
    ));
    assert!(!a.from_waypoint);
}

#[test]
fn requests_that_are_no_tunnel() {
    let state = store_with_w1();
    let mut get = connect("10.0.0.5:8080");
    get.method = "GET".to_string();
    let d = serve_connect(&state, peer_conn(), false, &get);
    assert_eq!(d, Decision::Refuse(Refusal::UnknownVerb));
    assert_eq!(Refusal::UnknownVerb.status(), 404);
    let mut lower = connect("10.0.0.5:8080");
    lower.method = "connect".to_string();
    assert_eq!(
        serve_connect(&state, peer_conn(), false, &lower),
        Decision::Refuse(Refusal::UnknownVerb)
    );
    for authority in ["", "10.0.0.5", "example.com:80", "10.0.0.5:http", "/path"] {
        let d = serve_connect(&state, peer_conn(), false, &connect(authority));
        assert_eq!(d, Decision::Refuse(Refusal::MalformedAuthority), "{authority}");
    }
    assert_eq!(Refusal::MalformedAuthority.status(), 400);
    // the verb is looked at first, the authority second
    let mut both = connect("nonsense");
    both.method = "PUT".to_string();
    assert_eq!(
        serve_connect(&state, peer_conn(), false, &both),
        Decision::Refuse(Refusal::UnknownVerb)
    );
}

#[test]
fn original_source_is_kept_where_asked() {
    let state = store_with_w1();
    let a = admitted(serve_connect(
        &state,
        peer_conn(),
        true,
        &connect("10.0.0.5:8080"),
    ));
    assert_eq!(a.bind, Some(ip([10, 0, 0, 9])));
}

#[test]
fn baggage_is_read() {
    assert_eq!(parse_baggage_header(""), no_baggage());
    assert_eq!(
        parse_baggage_header("k8s.cluster.id=K1,k8s.namespace.name=NS1,k8s.workload.name=N1,service.revision=V1"),
        Baggage {
            cluster_id: Some("K1".to_string()),
            namespace: Some("NS1".to_string()),
            workload_name: Some("N1".to_string()),
            revision: Some("V1".to_string()),
        }
    );
    assert_eq!(
        parse_baggage_header("k8s.cluster.id=,unknown=x,novalue,k8s.namespace.name=a=b,service.revision=1,service.revision=2"),
        Baggage {
            cluster_id: None,
            namespace: Some("a".to_string()),
            workload_name: None,
            revision: Some("2".to_string()),
        }
    );
}

#[test]
fn forwarded_is_read() {
    assert_eq!(
        get_original_src_from_fwded("for=10.0.0.77"),
        Some(ip([10, 0, 0, 77]))
    );
    assert_eq!(
        get_original_src_from_fwded("for=10.0.0.77:1234"),
        Some(ip([10, 0, 0, 77]))
    );
    assert_eq!(
        get_original_src_from_fwded("for=::1"),
        Some(IpAddr::V6(Ipv6Addr::new(0, 0, 0, 0, 0, 0, 0, 1)))
    );
    assert_eq!(
        get_original_src_from_fwded("for=[::1]:80"),
        Some(IpAddr::V6(Ipv6Addr::new(0, 0, 0, 0, 0, 0, 0, 1)))
    );
    for bad in ["", "for", "for=", "by=10.0.0.1", "For=10.0.0.1", "for=host", " for=10.0.0.1"] {
        assert_eq!(get_original_src_from_fwded(bad), None, "{bad}");
    }
}

#[test]
fn a_failed_lookup_closes_the_connection() {
    let state = store_with_w1();
    // nobody owns the address: no identity to present
    let found = fetch_cert_identity(&state, "", SocketAddr::new(ip([10, 0, 0, 99]), 15008));
    assert_eq!(
        found,
        Err(TlsError::CertificateLookup(network_addr(
            "",
            ip([10, 0, 0, 99])
        )))
    );
    let event = acceptor_event(&found);
    assert_eq!(event, ConnEvent::AcceptorFailed);
    let (closed, action) = ConnState::Accepted.step(event);
    assert_eq!((closed, action), (ConnState::Closed, ConnAction::Close));
    assert!(!closed.accepts_requests());
    // whatever comes after, it stays closed and nothing is asked for
    for e in [
        ConnEvent::AcceptorReady,
        ConnEvent::AcceptorFailed,
        ConnEvent::HandshakeDone,
        ConnEvent::HandshakeFailed,
        ConnEvent::Drain,
        ConnEvent::Finished,
        ConnEvent::Deadline,
    ] {
        assert_eq!(closed.step(e), (ConnState::Closed, ConnAction::Nothing));
    }
    // with an identity the handshake starts
    let found = fetch_cert_identity(&state, "", SocketAddr::new(ip([10, 0, 0, 5]), 15008));
    let event = acceptor_event(&found);
    assert_eq!(event, ConnEvent::AcceptorReady);
    assert_eq!(
        ConnState::Accepted.step(event),
        (ConnState::TlsHandshaking, ConnAction::Handshake)
    );
}
