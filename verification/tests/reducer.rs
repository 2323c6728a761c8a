use bytes::Bytes;
use std::collections::HashMap;
use ztunnel::discovery::{
    PortList, XdsAddress, XdsAuthorization, XdsNetworkAddress, XdsPort, XdsResource, XdsService,
    XdsType, XdsUpdate, XdsWorkload,
};
use ztunnel::ip::{IpAddr, Ipv4Addr, SocketAddr};
use ztunnel::state::{Address, ProxyState};
use ztunnel::table::Table;
use ztunnel::text::parse_socket_addr;
use ztunnel::workload::{
    network_addr, HealthStatus, NamespacedHostname, Protocol, Workload, WorkloadError,
};
use ztunnel::xds::{
    is_local, read_service_key, CertFetcher, Error, ProxyStateUpdater, RejectedConfig,
};

fn ip(a: [u8; 4]) -> IpAddr {
    IpAddr::V4(Ipv4Addr::new(a[0], a[1], a[2], a[3]))
}

fn vips(entries: &[(&str, u32, u32)]) -> Table<String, PortList> {
    let mut t = Table::new();
    for (vip, service_port, target_port) in entries {
        t.insert(
            vip.to_string(),
            PortList {
                ports: vec![XdsPort {
                    service_port: *service_port,
                    target_port: *target_port,
                }],
            },
        );
    }
    t
}

fn xds_workload(uid: &str, addr: [u8; 4], v: Table<String, PortList>) -> XdsWorkload {
    XdsWorkload {
        uid: uid.to_string(),
        name: uid.to_string(),
        addresses: vec![Bytes::copy_from_slice(&addr)],
        virtual_ips: v,
        ..Default::default()
    }
}

fn xds_service(name: &str, addrs: Vec<[u8; 4]>, port: (u32, u32)) -> XdsService {
    XdsService {
        name: name.to_string(),
        namespace: "ns".to_string(),
        hostname: format!("{name}.ns.svc.cluster.local"),
        addresses: addrs
            .into_iter()
            .map(|a| XdsNetworkAddress {
                network: "".to_string(),
                address: a.to_vec(),
            })
            .collect(),
        ports: vec![XdsPort {
            service_port: port.0,
            target_port: port.1,
        }],
        subject_alt_names: vec![],
    }
}

fn upstream(state: &ProxyState, addr: &str) -> Option<(String, u16, Option<SocketAddr>)> {
    state
        .find_upstream("", parse_socket_addr(addr).unwrap(), 15008)
        .map(|us| (us.workload.name, us.port, us.workload.gateway_address))
}

#[test]
fn staged_endpoints() {
    let mut updater = ProxyStateUpdater::new_no_fetch(ProxyState::new());
    // W2 arrives with a virtual address before any service does
    updater
        .insert_workload(xds_workload(
            "W2",
            [10, 0, 0, 6],
            vips(&[("10.0.1.1", 80, 8080)]),
        ))
        .unwrap();
    assert_eq!(upstream(updater.state(), "10.0.1.1:80"), None);
    assert_eq!(updater.state().services.num_staged_vips(), 1);

    // svc1 arrives: the waiting endpoint joins it
    updater
        .insert_service(xds_service("svc1", vec![[10, 0, 1, 1]], (80, 80)))
        .unwrap();
    assert_eq!(updater.state().services.num_staged_vips(), 0);
    assert_eq!(
        upstream(updater.state(), "10.0.1.1:80"),
        Some((
            "W2".to_string(),
            8080,
            Some(SocketAddr::new(ip([10, 0, 0, 6]), 8080))
        ))
    );

    // svc1 is revised: the endpoints of its first address are carried over, not staged again
    updater
        .insert_service(xds_service(
            "svc1",
            vec![[10, 0, 1, 1], [10, 0, 1, 2]],
            (80, 80),
        ))
        .unwrap();
    assert_eq!(updater.state().services.num_staged_vips(), 0);
    assert_eq!(updater.state().services.num_vips(), 2);
    assert_eq!(
        upstream(updater.state(), "10.0.1.1:80").map(|u| u.0),
        Some("W2".to_string())
    );
    // the endpoint is filed under the workload's address, so the second address leads to it too
    assert_eq!(
        upstream(updater.state(), "10.0.1.2:80").map(|u| u.0),
        Some("W2".to_string())
    );
    let svc = updater
        .state()
        .services
        .get_by_vip(&network_addr("", ip([10, 0, 1, 2])))
        .unwrap();
    assert_eq!(svc.endpoints.len(), 1);
    assert_eq!(
        svc.endpoints
            .get(&network_addr("", ip([10, 0, 0, 6])))
            .map(|e| e.vip.to_string()),
        Some("/10.0.1.1".to_string())
    );
}

#[test]
fn upstream_of_a_service() {
    let mut updater = ProxyStateUpdater::new_no_fetch(ProxyState::new());
    updater
        .insert_service(xds_service("svc1", vec![[10, 0, 1, 1]], (80, 81)))
        .unwrap();
    // a service without endpoints
    assert_eq!(upstream(updater.state(), "10.0.1.1:80"), None);
    // an endpoint without ports of its own: the port of the service
    let mut w = xds_workload("W3", [10, 0, 0, 7], Table::new());
    w.virtual_ips
        .insert("10.0.1.1".to_string(), PortList { ports: vec![] });
    w.tunnel_protocol = 1;
    updater.insert_workload(w).unwrap();
    assert_eq!(
        upstream(updater.state(), "10.0.1.1:80"),
        Some((
            "W3".to_string(),
            81,
            // a tunnelled workload is reached at the tunnel port
            Some(SocketAddr::new(ip([10, 0, 0, 7]), 15008))
        ))
    );
    // a port that the service does not know
    assert_eq!(upstream(updater.state(), "10.0.1.1:443"), None);
    // an address that is no service: a workload
    assert_eq!(
        upstream(updater.state(), "10.0.0.7:9999"),
        Some((
            "W3".to_string(),
            9999,
            Some(SocketAddr::new(ip([10, 0, 0, 7]), 15008))
        ))
    );
    // nobody
    assert_eq!(upstream(updater.state(), "10.0.0.99:80"), None);
    // on another network nobody either
    assert!(updater
        .state()
        .find_upstream("remote", parse_socket_addr("10.0.0.7:80").unwrap(), 15008)
        .is_none());
    // a workload that names where to connect keeps that address
    let mut state = ProxyState::new();
    state
        .workloads
        .insert_workload(Workload {
            workload_ips: vec![ip([10, 0, 0, 8])],
            gateway_address: Some(SocketAddr::new(ip([1, 2, 3, 4]), 5)),
            ..updater
                .state()
                .workloads
                .find_uid("W3")
                .unwrap()
        })
        .unwrap();
    assert_eq!(
        upstream(&state, "10.0.0.8:80").and_then(|u| u.2),
        Some(SocketAddr::new(ip([1, 2, 3, 4]), 5))
    );
}

#[test]
fn endpoints_are_drawn_evenly() {
    let mut updater = ProxyStateUpdater::new_no_fetch(ProxyState::new());
    updater
        .insert_service(xds_service("svc1", vec![[10, 0, 1, 1]], (80, 80)))
        .unwrap();
    let names = ["a", "b", "c", "d"];
    for (i, name) in names.iter().enumerate() {
        updater
            .insert_workload(xds_workload(
                name,
                [10, 0, 0, 10 + i as u8],
                vips(&[("10.0.1.1", 80, 8080)]),
            ))
            .unwrap();
    }
    let samples = 4000;
    let mut seen: HashMap<String, usize> = HashMap::new();
    for _ in 0..samples {
        let (name, port, _) = upstream(updater.state(), "10.0.1.1:80").unwrap();
        assert_eq!(port, 8080);
        *seen.entry(name).or_default() += 1;
    }
    assert_eq!(seen.len(), names.len());
    for name in names {
        // each of the four is drawn about a quarter of the time
        let n = seen[name];
        assert!(n > samples / 8, "{name} was drawn {n} times");
        assert!(n < samples / 2, "{name} was drawn {n} times");
    }
}

#[test]
fn unhealthy_workload_serves_nowhere() {
    let mut updater = ProxyStateUpdater::new_no_fetch(ProxyState::new());
    updater
        .insert_service(xds_service("svc1", vec![[10, 0, 1, 1]], (80, 80)))
        .unwrap();
    let mut w = xds_workload(
        "sick",
        [10, 0, 0, 6],
        vips(&[("10.0.1.1", 80, 8080), ("10.0.1.9", 80, 8080)]),
    );
    w.status = 1;
    updater.insert_workload(w.clone()).unwrap();
    // it is found under its address
    let found = updater
        .state()
        .find_workload(&network_addr("", ip([10, 0, 0, 6])))
        .unwrap();
    assert_eq!(found.uid, "sick");
    assert_eq!(found.status, HealthStatus::Unhealthy);
    // it serves nowhere and waits nowhere
    assert_eq!(upstream(updater.state(), "10.0.1.1:80"), None);
    assert_eq!(updater.state().services.num_staged_vips(), 0);
    // traffic sent to it directly is still routed
    assert_eq!(
        upstream(updater.state(), "10.0.0.6:80").map(|u| u.0),
        Some("sick".to_string())
    );
    // healthy again: its endpoints come back
    w.status = 0;
    updater.insert_workload(w.clone()).unwrap();
    assert_eq!(
        upstream(updater.state(), "10.0.1.1:80").map(|u| u.0),
        Some("sick".to_string())
    );
    assert_eq!(updater.state().services.num_staged_vips(), 1);
    // and unhealthy once more: they leave
    w.status = 1;
    updater.insert_workload(w).unwrap();
    assert_eq!(upstream(updater.state(), "10.0.1.1:80"), None);
    assert_eq!(updater.state().services.num_staged_vips(), 0);
    assert!(updater
        .state()
        .find_workload(&network_addr("", ip([10, 0, 0, 6])))
        .is_some());
}

#[test]
fn insert_then_remove_leaves_no_trace() {
    let mut updater = ProxyStateUpdater::new_no_fetch(ProxyState::new());
    updater
        .insert_service(xds_service("svc1", vec![[10, 0, 1, 1]], (80, 80)))
        .unwrap();
    updater
        .insert_workload(xds_workload(
            "stays",
            [10, 0, 0, 1],
            vips(&[("10.0.1.1", 80, 8080), ("10.0.1.7", 80, 8080)]),
        ))
        .unwrap();
    let before = format!("{:?}", updater.state());

    let mut w = xds_workload(
        "comes-and-goes",
        [10, 0, 0, 2],
        vips(&[
            ("10.0.1.1", 80, 8080),
            ("10.0.1.7", 80, 8080),
            ("10.0.1.8", 80, 8080),
        ]),
    );
    w.addresses.push(Bytes::copy_from_slice(&[10, 0, 0, 3]));
    updater.insert_workload(w).unwrap();
    assert_ne!(format!("{:?}", updater.state()), before);
    assert_eq!(updater.state().workloads.num_workloads(), 2);
    assert_eq!(updater.state().workloads.num_addresses(), 3);
    assert_eq!(updater.state().services.num_staged_vips(), 2);

    updater.remove(&"comes-and-goes".to_string());
    assert_eq!(format!("{:?}", updater.state()), before);

    // the store alone
    let mut state = ProxyState::new();
    let stays = updater.state().workloads.find_uid("stays").unwrap();
    state.workloads.insert_workload(stays.clone()).unwrap();
    let before = format!("{:?}", state.workloads);
    let mut other = stays;
    other.uid = "other".to_string();
    other.workload_ips = vec![ip([10, 0, 0, 2]), ip([10, 0, 0, 3])];
    state.workloads.insert_workload(other.clone()).unwrap();
    assert_eq!(state.workloads.remove_workload("other"), Some(other));
    assert_eq!(format!("{:?}", state.workloads), before);
    assert_eq!(state.workloads.remove_workload("other"), None);
    assert_eq!(format!("{:?}", state.workloads), before);
}

#[test]
fn indices_agree_after_each_step() {
    fn check(state: &ProxyState, uids: &[&str]) {
        let mut addresses = 0;
        for uid in uids {
            if let Some(w) = state.workloads.find_uid(uid) {
                assert_eq!(&w.uid, uid);
                for a in &w.workload_ips {
                    addresses += 1;
                    // every address of every workload leads to the workload
                    assert_eq!(
                        state.workloads.find_workload(&network_addr(&w.network, *a)),
                        Some(w.clone())
                    );
                }
            }
        }
        assert_eq!(state.workloads.num_addresses(), addresses);
        for v in [[10, 0, 1, 1], [10, 0, 1, 2], [10, 0, 1, 3]] {
            if let Some(svc) = state.services.get_by_vip(&network_addr("", ip(v))) {
                // every bound address leads to a service that names it and is found under its key
                assert!(svc.vips.contains(&network_addr("", ip(v))));
                assert_eq!(
                    state.services.get_by_namespaced_host(&svc.namespaced_hostname()),
                    Some(svc.clone())
                );
                // only healthy workloads serve
                for a in svc.endpoints.key_list() {
                    assert_eq!(
                        state.workloads.find_workload(&a).map(|w| w.status),
                        Some(HealthStatus::Healthy)
                    );
                }
            }
        }
    }
    let uids = ["a", "b", "c"];
    let mut updater = ProxyStateUpdater::new_no_fetch(ProxyState::new());
    check(updater.state(), &uids);
    let mut a = xds_workload("a", [10, 0, 0, 1], vips(&[("10.0.1.1", 80, 8080)]));
    a.addresses.push(Bytes::copy_from_slice(&[10, 0, 0, 11]));
    updater.insert_workload(a.clone()).unwrap();
    check(updater.state(), &uids);
    updater
        .insert_workload(xds_workload(
            "b",
            [10, 0, 0, 2],
            vips(&[("10.0.1.1", 80, 8080), ("10.0.1.2", 80, 8080)]),
        ))
        .unwrap();
    check(updater.state(), &uids);
    updater
        .insert_service(xds_service("svc1", vec![[10, 0, 1, 1]], (80, 80)))
        .unwrap();
    check(updater.state(), &uids);
    updater
        .insert_service(xds_service("svc2", vec![[10, 0, 1, 2], [10, 0, 1, 3]], (80, 80)))
        .unwrap();
    check(updater.state(), &uids);
    assert_eq!(updater.state().services.num_services(), 2);
    assert_eq!(updater.state().services.num_vips(), 3);
    // a moves to another address
    a.addresses = vec![Bytes::copy_from_slice(&[10, 0, 0, 21])];
    updater.insert_workload(a).unwrap();
    check(updater.state(), &uids);
    assert!(updater
        .state()
        .find_workload(&network_addr("", ip([10, 0, 0, 1])))
        .is_none());
    let mut c = xds_workload("c", [10, 0, 0, 3], vips(&[("10.0.1.3", 80, 8080)]));
    c.status = 1;
    updater.insert_workload(c).unwrap();
    check(updater.state(), &uids);
    updater.remove(&"ns/svc1.ns.svc.cluster.local".to_string());
    check(updater.state(), &uids);
    assert_eq!(updater.state().services.num_services(), 1);
    assert_eq!(updater.state().services.num_vips(), 2);
    updater.remove(&"b".to_string());
    check(updater.state(), &uids);
    updater.remove(&"a".to_string());
    updater.remove(&"c".to_string());
    updater.remove(&"ns/svc2.ns.svc.cluster.local".to_string());
    check(updater.state(), &uids);
    assert_eq!(updater.state().workloads.num_workloads(), 0);
    assert_eq!(updater.state().services.num_services(), 0);
    assert_eq!(updater.state().services.num_vips(), 0);
    assert_eq!(updater.state().services.num_staged_vips(), 0);
}

#[test]
fn removal_keys() {
    assert_eq!(
        read_service_key("ns/svc1.ns.svc.cluster.local"),
        Some(NamespacedHostname {
            namespace: "ns".to_string(),
            hostname: "svc1.ns.svc.cluster.local".to_string()
        })
    );
    assert_eq!(
        read_service_key("/invalid"),
        Some(NamespacedHostname {
            namespace: "".to_string(),
            hostname: "invalid".to_string()
        })
    );
    assert_eq!(read_service_key("no-slash"), None);
    assert_eq!(read_service_key(""), None);
    assert_eq!(read_service_key("cluster1//v1/Pod/default/my-pod/127.0.0.1"), None);
    assert_eq!(read_service_key("a/b/c"), None);

    let mut updater = ProxyStateUpdater::new_no_fetch(ProxyState::new());
    updater
        .insert_service(xds_service("svc1", vec![[10, 0, 1, 1]], (80, 80)))
        .unwrap();
    // a workload whose UID looks like the key of the service: the workload goes, the service stays
    updater
        .insert_workload(xds_workload(
            "ns/svc1.ns.svc.cluster.local",
            [10, 0, 0, 1],
            Table::new(),
        ))
        .unwrap();
    // the upsert removed what was known under the key first: the service
    assert_eq!(updater.state().services.num_services(), 0);
    updater
        .insert_service(xds_service("svc1", vec![[10, 0, 1, 1]], (80, 80)))
        .unwrap();
    updater.remove(&"ns/svc1.ns.svc.cluster.local".to_string());
    assert_eq!(updater.state().workloads.num_workloads(), 0);
    assert_eq!(updater.state().services.num_services(), 1);
    updater.remove(&"ns/svc1.ns.svc.cluster.local".to_string());
    assert_eq!(updater.state().services.num_services(), 0);
}

#[test]
fn addresses_resolve_to_workloads_first() {
    let mut updater = ProxyStateUpdater::new_no_fetch(ProxyState::new());
    updater
        .insert_address(XdsAddress {
            address_type: Some(XdsType::Service(xds_service(
                "svc1",
                vec![[10, 0, 1, 1], [10, 0, 0, 1]],
                (80, 80),
            ))),
        })
        .unwrap();
    updater
        .insert_address(XdsAddress {
            address_type: Some(XdsType::Workload(xds_workload(
                "w",
                [10, 0, 0, 1],
                Table::new(),
            ))),
        })
        .unwrap();
    assert_eq!(
        updater.insert_address(XdsAddress { address_type: None }),
        Err(Error::UnknownAddressType)
    );
    assert_eq!(
        updater.insert_address(XdsAddress {
            address_type: Some(XdsType::Workload(XdsWorkload {
                status: 9,
                ..Default::default()
            }))
        }),
        Err(Error::Workload(WorkloadError::EnumParse(
            "unknown type".to_string()
        )))
    );
    match updater.state().fetch_address(&network_addr("", ip([10, 0, 1, 1]))) {
        Some(Address::Service(s)) => assert_eq!(s.name, "svc1"),
        other => panic!("{other:?}"),
    }
    match updater.state().fetch_address(&network_addr("", ip([10, 0, 0, 1]))) {
        Some(Address::Workload(w)) => assert_eq!(w.uid, "w"),
        other => panic!("{other:?}"),
    }
    assert!(updater
        .state()
        .fetch_address(&network_addr("", ip([10, 9, 9, 9])))
        .is_none());
}

#[test]
fn a_refused_upsert_changes_nothing() {
    let mut updater = ProxyStateUpdater::new_no_fetch(ProxyState::new());
    updater
        .insert_service(xds_service("svc1", vec![[10, 0, 1, 1]], (80, 80)))
        .unwrap();
    updater
        .insert_workload(xds_workload(
            "w",
            [10, 0, 0, 1],
            vips(&[("10.0.1.1", 80, 8080)]),
        ))
        .unwrap();
    assert_eq!(
        upstream(updater.state(), "10.0.1.1:80"),
        Some((
            "w".to_string(),
            8080,
            Some(parse_socket_addr("10.0.0.1:8080").unwrap())
        ))
    );
    // the message cannot be read: nothing changes
    let mut bad = xds_workload("w", [10, 0, 0, 2], Table::new());
    bad.tunnel_protocol = 5;
    assert_eq!(
        updater.insert_workload(bad),
        Err(WorkloadError::EnumParse("unknown type".to_string()))
    );
    assert_eq!(
        updater.state().workloads.find_uid("w").map(|w| w.workload_ips),
        Some(vec![ip([10, 0, 0, 1])])
    );
    // a virtual address cannot be read: the record and its endpoints stay
    let bad = xds_workload(
        "w",
        [10, 0, 0, 2],
        vips(&[("10.0.1.1", 80, 9090), ("somewhere", 80, 80)]),
    );
    assert_eq!(
        updater.insert_workload(bad),
        Err(WorkloadError::AddressParse("somewhere".to_string()))
    );
    assert_eq!(
        updater.state().workloads.find_uid("w").map(|w| w.workload_ips),
        Some(vec![ip([10, 0, 0, 1])])
    );
    assert_eq!(updater.state().workloads.num_addresses(), 1);
    assert!(updater
        .state()
        .fetch_address(&network_addr("", ip([10, 0, 0, 2])))
        .is_none());
    assert_eq!(
        upstream(updater.state(), "10.0.1.1:80"),
        Some((
            "w".to_string(),
            8080,
            Some(parse_socket_addr("10.0.0.1:8080").unwrap())
        ))
    );
    // the same holds of an address update, which is reported as refused
    let bad = xds_workload("w", [10, 0, 0, 3], vips(&[("nowhere", 80, 80)]));
    assert_eq!(
        updater.insert_address(XdsAddress {
            address_type: Some(XdsType::Workload(bad)),
        }),
        Err(Error::Workload(WorkloadError::AddressParse(
            "nowhere".to_string()
        )))
    );
    assert_eq!(
        upstream(updater.state(), "10.0.1.1:80"),
        Some((
            "w".to_string(),
            8080,
            Some(parse_socket_addr("10.0.0.1:8080").unwrap())
        ))
    );
    // an unhealthy workload with such a key is taken in: its keys are not read
    let mut sick = xds_workload("w", [10, 0, 0, 4], vips(&[("nowhere", 80, 80)]));
    sick.status = 1;
    assert_eq!(updater.insert_workload(sick), Ok(()));
    assert_eq!(
        updater.state().workloads.find_uid("w").map(|w| w.status),
        Some(HealthStatus::Unhealthy)
    );
    assert_eq!(upstream(updater.state(), "10.0.1.1:80"), None);
}

#[test]
fn a_policy_sent_again_leaves_its_old_scope() {
    let policy = |scope: i32, namespace: &str| XdsAuthorization {
        name: "p".to_string(),
        namespace: namespace.to_string(),
        scope,
        action: 1,
        rules: vec![],
    };
    let mut updater = ProxyStateUpdater::new_no_fetch(ProxyState::new());
    let mut w = xds_workload("w", [10, 0, 0, 1], Table::new());
    w.namespace = "ns".to_string();
    updater.insert_workload(w).unwrap();
    let stored = updater.state().workloads.find_uid("w").unwrap();
    // for the namespace: every workload of the namespace has it
    updater.insert_authorization(policy(1, "ns")).unwrap();
    let got: Vec<String> = updater
        .state()
        .workloads
        .policies_for(&stored)
        .into_iter()
        .map(|p| p.to_key())
        .collect();
    assert_eq!(got, vec!["ns/p".to_string()]);
    // again, now for the workloads that name it: this workload names none
    updater.insert_authorization(policy(2, "ns")).unwrap();
    assert!(updater.state().workloads.find_policy("ns/p").is_some());
    assert!(updater.state().workloads.policies_for(&stored).is_empty());
    // again, for the namespace, and back it is
    updater.insert_authorization(policy(1, "ns")).unwrap();
    assert_eq!(updater.state().workloads.policies_for(&stored).len(), 1);
    // removed: gone from the namespace
    updater.remove_authorization("ns/p".to_string());
    assert!(updater.state().workloads.find_policy("ns/p").is_none());
    assert!(updater.state().workloads.policies_for(&stored).is_empty());
}

#[test]
fn a_batch_goes_on_after_a_refusal() {
    let mut updater = ProxyStateUpdater::new_no_fetch(ProxyState::new());
    let update = |name: &str, w: XdsWorkload| {
        XdsUpdate::Update(XdsResource {
            name: name.to_string(),
            resource: w,
        })
    };
    let mut bad = xds_workload("bad", [10, 0, 0, 2], Table::new());
    bad.status = 3;
    let worse = xds_workload("worse", [10, 0, 0, 4], vips(&[("x/y", 1, 1)]));
    let r = updater.handle_workloads(vec![
        update("one", xds_workload("one", [10, 0, 0, 1], Table::new())),
        update("bad", bad),
        update("three", xds_workload("three", [10, 0, 0, 3], Table::new())),
        update("worse", worse),
        XdsUpdate::Remove("one".to_string()),
        XdsUpdate::Remove("never-seen".to_string()),
    ]);
    assert_eq!(
        r,
        Err(vec![
            RejectedConfig {
                name: "bad".to_string(),
                reason: Error::Workload(WorkloadError::EnumParse("unknown type".to_string()))
            },
            RejectedConfig {
                name: "worse".to_string(),
                reason: Error::Workload(WorkloadError::AddressParse("y".to_string()))
            }
        ])
    );
    assert_eq!(updater.state().workloads.num_workloads(), 1);
    assert!(updater.state().workloads.find_uid("three").is_some());
    assert_eq!(updater.handle_workloads(vec![]), Ok(()));

    let r = updater.handle_addresses(vec![
        XdsUpdate::Update(XdsResource {
            name: "svc".to_string(),
            resource: XdsAddress {
                address_type: Some(XdsType::Service(xds_service(
                    "svc1",
                    vec![[10, 0, 1, 1]],
                    (80, 80),
                ))),
            },
        }),
        XdsUpdate::Update(XdsResource {
            name: "empty".to_string(),
            resource: XdsAddress { address_type: None },
        }),
        XdsUpdate::Remove("three".to_string()),
    ]);
    assert_eq!(
        r,
        Err(vec![RejectedConfig {
            name: "empty".to_string(),
            reason: Error::UnknownAddressType
        }])
    );
    assert_eq!(updater.state().workloads.num_workloads(), 0);
    assert_eq!(updater.state().services.num_services(), 1);

    let policy = |name: &str, scope: i32| {
        XdsUpdate::Update(XdsResource {
            name: format!("ns/{name}"),
            resource: XdsAuthorization {
                name: name.to_string(),
                namespace: "ns".to_string(),
                scope,
                action: 0,
                rules: vec![],
            },
        })
    };
    let r = updater.handle_authorizations(vec![
        policy("first", 0),
        policy("second", 7),
        policy("third", 1),
        XdsUpdate::Remove("ns/first".to_string()),
    ]);
    assert_eq!(
        r,
        Err(vec![RejectedConfig {
            name: "ns/second".to_string(),
            reason: Error::Workload(WorkloadError::EnumParse("unknown type".to_string()))
        }])
    );
    assert!(updater.state().workloads.find_policy("ns/first").is_none());
    assert!(updater.state().workloads.find_policy("ns/second").is_none());
    assert!(updater.state().workloads.find_policy("ns/third").is_some());
    updater.remove_authorization("ns/third".to_string());
    assert!(updater.state().workloads.find_policy("ns/third").is_none());
    assert_eq!(
        updater.insert_authorization(XdsAuthorization {
            name: "fourth".to_string(),
            namespace: "ns".to_string(),
            scope: 2,
            action: 1,
            rules: vec![],
        }),
        Ok(())
    );
    assert!(updater.into_state().workloads.find_policy("ns/fourth").is_some());
}

#[test]
fn the_fetcher_is_told_of_workloads() {
    let on = |uid: &str, addr: [u8; 4], node: &str, account: &str| {
        let mut w = xds_workload(uid, addr, Table::new());
        w.node = node.to_string();
        w.service_account = account.to_string();
        w
    };
    let mut updater =
        ProxyStateUpdater::new(ProxyState::new(), CertFetcher::new("node-a".to_string()));
    assert!(updater.take_prefetches().is_empty());
    updater
        .insert_workload(on("one", [10, 0, 0, 1], "node-a", "sa-one"))
        .unwrap();
    // refused: the fetcher hears nothing of it
    let mut bad = on("bad", [10, 0, 0, 2], "node-a", "sa-bad");
    bad.status = 3;
    assert!(updater.insert_workload(bad).is_err());
    let mut bad = on("bad", [10, 0, 0, 2], "node-a", "sa-bad");
    bad.virtual_ips = vips(&[("nowhere", 80, 80)]);
    assert!(updater.insert_workload(bad).is_err());
    // on another node: no certificate is asked for
    updater
        .insert_workload(on("two", [10, 0, 0, 2], "node-b", "sa-two"))
        .unwrap();
    // through an address update, and unhealthy: asked for all the same
    let mut three = on("three", [10, 0, 0, 3], "node-a", "sa-three");
    three.status = 1;
    updater
        .insert_address(XdsAddress {
            address_type: Some(XdsType::Workload(three)),
        })
        .unwrap();
    // services, policies and removals ask for nothing
    updater
        .insert_service(xds_service("svc1", vec![[10, 0, 1, 1]], (80, 80)))
        .unwrap();
    let one = updater.state().workloads.find_uid("one").unwrap().identity();
    updater.remove(&"one".to_string());
    let three = updater.state().workloads.find_uid("three").unwrap().identity();
    assert_ne!(one, three);
    assert_eq!(updater.take_prefetches(), vec![one.clone(), three]);
    // handed out once
    assert!(updater.take_prefetches().is_empty());
    // in a batch
    let update = |w: XdsWorkload| {
        XdsUpdate::Update(XdsResource {
            name: w.uid.clone(),
            resource: w,
        })
    };
    assert!(updater
        .handle_workloads(vec![
            update(on("one", [10, 0, 0, 1], "node-a", "sa-one")),
            XdsUpdate::Remove("one".to_string()),
            update(on("four", [10, 0, 0, 4], "node-b", "sa-four")),
            update(on("one", [10, 0, 0, 1], "node-a", "sa-one")),
        ])
        .is_ok());
    assert_eq!(updater.take_prefetches(), vec![one.clone(), one]);

    // a fetcher without a node notes nothing
    let mut updater = ProxyStateUpdater::new_no_fetch(ProxyState::new());
    updater
        .insert_workload(on("one", [10, 0, 0, 1], "node-a", "sa-one"))
        .unwrap();
    assert!(updater.take_prefetches().is_empty());
    let mut none = CertFetcher::none();
    let w = updater.state().workloads.find_uid("one").unwrap();
    none.prefetch_cert(&w);
    assert!(none.take_pending().is_empty());
    assert!(is_local("node-a", &w));
    assert!(!is_local("node-b", &w));
    assert_eq!(w.protocol, Protocol::TCP);
}

#[test]
fn endpoints_of_a_dropped_address_are_discarded() {
    let mut updater = ProxyStateUpdater::new_no_fetch(ProxyState::new());
    updater
        .insert_workload(xds_workload(
            "one",
            [10, 0, 0, 1],
            vips(&[("10.0.1.1", 80, 8080)]),
        ))
        .unwrap();
    updater
        .insert_workload(xds_workload(
            "two",
            [10, 0, 0, 2],
            vips(&[("10.0.1.2", 80, 8080)]),
        ))
        .unwrap();
    updater
        .insert_service(xds_service(
            "svc1",
            vec![[10, 0, 1, 1], [10, 0, 1, 2]],
            (80, 80),
        ))
        .unwrap();
    let svc = updater
        .state()
        .services
        .get_by_vip(&network_addr("", ip([10, 0, 1, 1])))
        .unwrap();
    assert_eq!(svc.endpoints.len(), 2);
    // the service loses its second address: the endpoint behind it is dropped, and does not wait
    updater
        .insert_service(xds_service("svc1", vec![[10, 0, 1, 1]], (80, 80)))
        .unwrap();
    let svc = updater
        .state()
        .services
        .get_by_vip(&network_addr("", ip([10, 0, 1, 1])))
        .unwrap();
    assert_eq!(
        svc.endpoints.key_list(),
        vec![network_addr("", ip([10, 0, 0, 1]))]
    );
    assert_eq!(updater.state().services.num_staged_vips(), 0);
    assert_eq!(updater.state().services.num_vips(), 1);
    assert!(updater
        .state()
        .services
        .get_by_vip(&network_addr("", ip([10, 0, 1, 2])))
        .is_none());
    for _ in 0..50 {
        assert_eq!(
            upstream(updater.state(), "10.0.1.1:80").map(|u| u.0),
            Some("one".to_string())
        );
    }
}
