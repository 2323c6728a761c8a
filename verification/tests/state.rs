use bytes::Bytes;
use std::collections::HashSet;
use ztunnel::discovery::{PortList, XdsNetworkAddress, XdsPort, XdsService, XdsWorkload};
use ztunnel::ip::{IpAddr, Ipv4Addr};
use ztunnel::state::ProxyState;
use ztunnel::table::Table;
use ztunnel::text::parse_socket_addr;
use ztunnel::workload::{
    network_addr, HealthStatus, NamespacedHostname, NetworkAddress, Protocol, Workload,
};
use ztunnel::xds::ProxyStateUpdater;

fn test_default_workload() -> Workload {
    Workload {
        workload_ips: vec![IpAddr::V4(Ipv4Addr::new(127, 0, 0, 1))],
        waypoint: None,
        network_gateway: None,
        gateway_address: None,
        protocol: Protocol::TCP,
        uid: "".to_string(),
        name: "".to_string(),
        namespace: "".to_string(),
        trust_domain: "cluster.local".to_string(),
        service_account: "default".to_string(),
        network: "".to_string(),
        workload_name: "".to_string(),
        workload_type: "deployment".to_string(),
        canonical_name: "".to_string(),
        canonical_revision: "".to_string(),
        node: "".to_string(),
        native_tunnel: false,
        authorization_policies: Vec::new(),
        status: HealthStatus::Healthy,
        cluster_id: "Kubernetes".to_string(),
    }
}

fn vip_ports(vip: &str) -> Table<String, PortList> {
    let mut t = Table::new();
    t.insert(
        vip.to_string(),
        PortList {
            ports: vec![XdsPort {
                service_port: 80,
                target_port: 8080,
            }],
        },
    );
    t
}

fn svc1(vips: Vec<Ipv4Addr>) -> XdsService {
    XdsService {
        name: "svc1".to_string(),
        namespace: "ns".to_string(),
        hostname: "svc1.ns.svc.cluster.local".to_string(),
        addresses: vips
            .into_iter()
            .map(|v| XdsNetworkAddress {
                network: "".to_string(),
                address: v.octets(),
            })
            .collect(),
        ports: vec![XdsPort {
            service_port: 80,
            target_port: 80,
        }],
        subject_alt_names: vec![],
    }
}

fn assert_vips(state: &ProxyState, want: Vec<&str>) {
    let mut wants: HashSet<String> = HashSet::from_iter(want.iter().map(|x| x.to_string()));
    let mut found: HashSet<String> = HashSet::new();
    // The choice of an endpoint is random: fetch 1k times, and expect to have seen each
    // wanted name at least once, and nothing else.
    for _ in 0..1000 {
        if let Some(us) =
            state.find_upstream("", parse_socket_addr("127.0.1.1:80").unwrap(), 15008)
        {
            let n = &us.workload.name;
            found.insert(n.to_owned());
            wants.remove(n);
        }
    }
    if !wants.is_empty() {
        panic!("expected all names to be found, but missed {want:?} (found {found:?})");
    }
    if found.len() != want.len() {
        panic!("found unexpected items: {found:?}");
    }
}

#[test]
fn workload_information() {
    let mut updater = ProxyStateUpdater::new_no_fetch(ProxyState::new());

    let ip1 = Ipv4Addr::new(127, 0, 0, 1);
    let ip2 = Ipv4Addr::new(127, 0, 0, 2);
    let vip1 = Ipv4Addr::new(127, 0, 1, 1);
    let vip2 = Ipv4Addr::new(127, 0, 1, 2);

    let nw_addr1 = network_addr("", IpAddr::V4(ip1));

    let xds_ip1 = Bytes::copy_from_slice(&ip1.octets());
    let xds_ip2 = Bytes::copy_from_slice(&ip2.octets());

    let uid1 = format!(
        "cluster1//v1/Pod/default/my-pod/{}",
        IpAddr::V4(ip1).to_string()
    );
    let uid2 = format!(
        "cluster1//v1/Pod/default/my-pod/{}",
        IpAddr::V4(ip2).to_string()
    );
    assert_eq!(uid1, "cluster1//v1/Pod/default/my-pod/127.0.0.1");

    let xds_vip1 = vip_ports(&IpAddr::V4(vip1).to_string());

    updater
        .insert_workload(XdsWorkload {
            uid: uid1.to_owned(),
            addresses: vec![xds_ip1.clone()],
            name: "some name".to_string(),
            ..Default::default()
        })
        .unwrap();
    assert_eq!(updater.state().workloads.num_addresses(), 1);
    assert_eq!(updater.state().workloads.num_workloads(), 1);
    assert_eq!(
        updater.state().workloads.find_workload(&nw_addr1),
        Some(Workload {
            uid: uid1.to_owned(),
            workload_ips: vec![nw_addr1.address],
            name: "some name".to_string(),
            ..test_default_workload()
        })
    );
    assert_eq!(updater.state().services.num_vips(), 0);
    assert_eq!(updater.state().services.num_services(), 0);
    assert_eq!(updater.state().services.num_staged_vips(), 0);

    updater.remove(&"/invalid".to_string());
    assert_eq!(
        updater.state().workloads.find_workload(&nw_addr1),
        Some(Workload {
            uid: uid1.to_owned(),
            workload_ips: vec![nw_addr1.address],
            name: "some name".to_string(),
            ..test_default_workload()
        })
    );

    updater.remove(&uid2);
    assert_eq!(
        updater.state().workloads.find_workload(&nw_addr1),
        Some(Workload {
            uid: uid1.to_owned(),
            workload_ips: vec![nw_addr1.address],
            name: "some name".to_string(),
            ..test_default_workload()
        })
    );

    updater.remove(&uid1);
    assert_eq!(updater.state().workloads.find_workload(&nw_addr1), None);
    assert_eq!(updater.state().workloads.num_addresses(), 0);
    assert_eq!(updater.state().workloads.num_workloads(), 0);

    // Add two workloads into the VIP. Add out of order to further test
    updater
        .insert_workload(XdsWorkload {
            uid: uid1.to_owned(),
            addresses: vec![xds_ip1.clone()],
            name: "some name".to_string(),
            virtual_ips: xds_vip1.clone(),
            ..Default::default()
        })
        .unwrap();
    assert_eq!(updater.state().services.num_vips(), 0);
    assert_eq!(updater.state().services.num_services(), 0);
    assert_eq!(updater.state().services.num_staged_vips(), 1);

    updater.insert_service(svc1(vec![vip1])).unwrap();
    assert_eq!((updater.state().services.num_vips()), 1);
    assert_eq!((updater.state().services.num_services()), 1);
    assert_eq!((updater.state().services.num_staged_vips()), 0);

    // upsert the service to ensure the old endpoints (no longer staged) are carried over
    updater.insert_service(svc1(vec![vip1, vip2])).unwrap();

    assert_eq!((updater.state().services.num_vips()), 2); // there are now two addresses on the same service
    assert_eq!((updater.state().services.num_services()), 1); // there is still only one service
    assert_eq!((updater.state().services.num_staged_vips()), 0);

    // both ways to the service lead to the same record
    assert_eq!(
        (updater
            .state()
            .services
            .get_by_namespaced_host(&NamespacedHostname {
                namespace: "ns".to_string(),
                hostname: "svc1.ns.svc.cluster.local".to_string(),
            })
            .unwrap()),
        (updater
            .state()
            .services
            .get_by_vip(&NetworkAddress {
                network: "".to_string(),
                address: IpAddr::V4(vip1),
            })
            .unwrap()),
    );

    // ensure we updated the old service, no duplication
    assert_eq!((updater.state().services.num_vips()), 2);
    assert_eq!((updater.state().services.num_services()), 1);

    // upsert the service to remove an address and ensure the address index is cleaned up
    updater.insert_service(svc1(vec![vip1])).unwrap();

    assert_eq!(updater.state().services.num_vips(), 1); // we removed an address in upsert
    assert_eq!(updater.state().services.num_services(), 1);
    assert_eq!(updater.state().services.num_staged_vips(), 0);

    updater
        .insert_workload(XdsWorkload {
            uid: uid2.to_owned(),
            addresses: vec![xds_ip2.clone()],
            name: "some name2".to_string(),
            virtual_ips: xds_vip1.clone(),
            ..Default::default()
        })
        .unwrap();
    assert_eq!(updater.state().services.num_vips(), 1);
    assert_eq!(updater.state().services.num_services(), 1);
    assert_eq!(updater.state().services.num_staged_vips(), 0); // vip already in a service, should not be staged

    assert_eq!(
        (updater
            .state()
            .services
            .get_by_namespaced_host(&NamespacedHostname {
                namespace: "ns".to_string(),
                hostname: "svc1.ns.svc.cluster.local".to_string()
            })
            .unwrap()),
        (updater
            .state()
            .services
            .get_by_vip(&NetworkAddress {
                network: "".to_string(),
                address: IpAddr::V4(vip1),
            })
            .unwrap()),
    );

    assert_vips(updater.state(), vec!["some name", "some name2"]);
    updater.remove(&uid2);

    assert_eq!(
        (updater
            .state()
            .services
            .get_by_namespaced_host(&NamespacedHostname {
                namespace: "ns".to_string(),
                hostname: "svc1.ns.svc.cluster.local".to_string()
            })
            .unwrap()),
        (updater
            .state()
            .services
            .get_by_vip(&NetworkAddress {
                network: "".to_string(),
                address: IpAddr::V4(vip1),
            })
            .unwrap()),
    );

    assert_vips(updater.state(), vec!["some name"]);
    updater.remove(&uid1);
    assert_vips(updater.state(), vec![]);

    // Add 2 workload with VIP
    updater
        .insert_workload(XdsWorkload {
            uid: uid1.to_owned(),
            addresses: vec![xds_ip1.clone()],
            name: "some name".to_string(),
            virtual_ips: xds_vip1.clone(),
            ..Default::default()
        })
        .unwrap();
    updater
        .insert_workload(XdsWorkload {
            uid: uid2.to_owned(),
            addresses: vec![xds_ip2.clone()],
            name: "some name2".to_string(),
            virtual_ips: xds_vip1.clone(),
            ..Default::default()
        })
        .unwrap();
    assert_vips(updater.state(), vec!["some name", "some name2"]);
    // now update it without the VIP
    updater
        .insert_workload(XdsWorkload {
            uid: uid1,
            addresses: vec![xds_ip1],
            name: "some name".to_string(),
            ..Default::default()
        })
        .unwrap();
    // Should be remove
    assert_vips(updater.state(), vec!["some name2"]);
    // now update it with unhealthy
    updater
        .insert_workload(XdsWorkload {
            uid: uid2,
            addresses: vec![xds_ip2],
            name: "some name2".to_string(),
            virtual_ips: xds_vip1,
            status: 1,
            ..Default::default()
        })
        .unwrap();
    // Should be removed
    assert_vips(updater.state(), vec![]);

    // Remove the VIP entirely
    updater.remove(&"ns/svc1.ns.svc.cluster.local".to_string());
    assert_eq!(updater.state().services.num_vips(), 0);
    assert_eq!((updater.state().services.num_services()), 0);
}

#[test]
fn staged_vips_cleanup() {
    let mut updater: ProxyStateUpdater =
        ProxyStateUpdater::new_no_fetch(ProxyState::new());
    assert_eq!((updater.state().workloads.num_addresses()), 0);
    assert_eq!((updater.state().workloads.num_workloads()), 0);
    assert_eq!((updater.state().services.num_vips()), 0);
    assert_eq!((updater.state().services.num_services()), 0);
    assert_eq!((updater.state().services.num_staged_vips()), 0);

    let xds_ip1 = Bytes::copy_from_slice(&[127, 0, 0, 1]);
    let ip1 = IpAddr::V4(Ipv4Addr::new(127, 0, 0, 1));
    let uid1 = format!("cluster1//v1/Pod/default/my-pod/{}", ip1.to_string());

    let vip = vip_ports("127.0.1.1");
    assert_vips(updater.state(), vec![]);

    // Add 2 workload with VIP
    updater
        .insert_workload(XdsWorkload {
            uid: uid1.to_owned(),
            addresses: vec![xds_ip1.clone()],
            name: "some name".to_string(),
            virtual_ips: vip.clone(),
            ..Default::default()
        })
        .unwrap();
    assert_eq!((updater.state().services.num_staged_vips()), 1);

    // now update it without the VIP
    updater
        .insert_workload(XdsWorkload {
            uid: uid1.to_owned(),
            addresses: vec![xds_ip1.clone()],
            name: "some name".to_string(),
            ..Default::default()
        })
        .unwrap();
    assert_eq!((updater.state().services.num_staged_vips()), 0); // should remove the VIP if no longer needed

    // Add 2 workload with VIP again
    updater
        .insert_workload(XdsWorkload {
            uid: uid1.to_owned(),
            addresses: vec![xds_ip1],
            name: "some name".to_string(),
            virtual_ips: vip,
            ..Default::default()
        })
        .unwrap();
    assert_eq!((updater.state().services.num_staged_vips()), 1); // VIP should be staged again

    updater.remove(&uid1);
    assert_eq!((updater.state().services.num_staged_vips()), 0); // should remove the VIP if no longer needed
}
