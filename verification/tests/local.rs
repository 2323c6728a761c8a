use ztunnel::ip::{IpAddr, Ipv4Addr};
use ztunnel::local::{LocalClient, LocalConfig, LocalWorkload};
use ztunnel::rbac::{Authorization, RbacAction, RbacScope};
use ztunnel::service::Service;
use ztunnel::state::ProxyState;
use ztunnel::table::Table;
use ztunnel::text::{parse_ip, parse_socket_addr};
use ztunnel::workload::{
    network_addr, HealthStatus, NetworkAddress, Protocol, Workload, WorkloadError,
};
use ztunnel::xds::CertFetcher;

fn ports(service_port: u16, target_port: u16) -> Table<u16, u16> {
    let mut t = Table::new();
    t.insert(service_port, target_port);
    t
}

fn local_workload() -> LocalWorkload {
    let mut vips = Table::new();
    vips.insert("127.10.0.1".to_string(), ports(80, 8080));
    vips.insert("remote/127.10.0.2".to_string(), ports(80, 8080));
    LocalWorkload {
        workload: Workload {
            workload_ips: vec![IpAddr::V4(Ipv4Addr::new(127, 0, 0, 1))],
            waypoint: None,
            network_gateway: None,
            gateway_address: None,
            protocol: Protocol::TCP,
            uid: "local".to_string(),
            name: "local".to_string(),
            namespace: "default".to_string(),
            trust_domain: "cluster.local".to_string(),
            service_account: "default".to_string(),
            network: "".to_string(),
            workload_name: "local".to_string(),
            workload_type: "deployment".to_string(),
            canonical_name: "".to_string(),
            canonical_revision: "".to_string(),
            node: "local".to_string(),
            native_tunnel: false,
            authorization_policies: vec![],
            status: HealthStatus::Healthy,
            cluster_id: "Kubernetes".to_string(),
        },
        vips,
    }
}

fn service(name: &str, vip: NetworkAddress) -> Service {
    Service {
        name: name.to_string(),
        namespace: "default".to_string(),
        hostname: format!("{name}.default.svc.cluster.local"),
        vips: vec![vip],
        ports: ports(80, 8080),
        endpoints: Table::new(),
        subject_alt_names: vec![],
    }
}

#[test]
fn local_client() {
    let cfg = LocalConfig {
        workloads: vec![local_workload()],
        policies: vec![Authorization {
            name: "allow-all".to_string(),
            namespace: "default".to_string(),
            scope: RbacScope::Namespace,
            action: RbacAction::Allow,
            rules: vec![],
        }],
        services: vec![
            service("local-vip", network_addr("", parse_ip("127.10.0.1").unwrap())),
            service(
                "remote-vip",
                network_addr("remote", parse_ip("127.10.0.2").unwrap()),
            ),
        ],
    };
    let mut local_client = LocalClient {
        state: ProxyState::new(),
        cert_fetcher: CertFetcher::none(),
    };
    local_client.run(cfg).expect("client should run");
    let demand = &local_client.state;
    let wl = demand.find_workload(&network_addr("", parse_ip("127.0.0.1").unwrap()));
    // Make sure we get a valid workload
    assert!(wl.is_some());
    assert_eq!(wl.unwrap().service_account, "default");
    let us = demand.find_upstream("", parse_socket_addr("127.10.0.1:80").unwrap(), 15008);
    // Make sure we get a valid VIP
    assert!(us.is_some());
    assert_eq!(us.unwrap().port, 8080);
    // test that we can have a service in another network than workloads it selects
    let us = demand.find_upstream("remote", parse_socket_addr("127.10.0.2:80").unwrap(), 15008);
    // Make sure we get a valid VIP
    assert!(us.is_some());
    assert_eq!(us.unwrap().port, 8080);
    assert!(demand.workloads.find_policy("default/allow-all").is_some());
    assert_eq!(demand.services.num_staged_vips(), 0);
}

#[test]
fn local_config_that_fails() {
    let mut second = local_workload();
    second.workload.uid = "second".to_string();
    second.workload.workload_ips = vec![IpAddr::V4(Ipv4Addr::new(127, 0, 0, 2))];
    second.vips.insert("nowhere".to_string(), ports(1, 2));
    let mut third = local_workload();
    third.workload.uid = "third".to_string();
    let cfg = LocalConfig {
        workloads: vec![local_workload(), second, third],
        policies: vec![],
        services: vec![service(
            "local-vip",
            network_addr("", parse_ip("127.10.0.1").unwrap()),
        )],
    };
    let mut client = LocalClient {
        state: ProxyState::new(),
        cert_fetcher: CertFetcher::none(),
    };
    assert_eq!(
        client.run(cfg),
        Err(WorkloadError::AddressParse("nowhere".to_string()))
    );
    // the first is in; the second is refused whole; the third and the service are not reached
    assert!(client.state.workloads.find_uid("local").is_some());
    assert!(client.state.workloads.find_uid("second").is_none());
    assert!(client
        .state
        .find_workload(&network_addr("", parse_ip("127.0.0.2").unwrap()))
        .is_none());
    assert!(client.state.workloads.find_uid("third").is_none());
    assert_eq!(client.state.services.num_services(), 0);
    assert_eq!(client.state.services.num_staged_vips(), 2);

    let empty = LocalConfig::default();
    assert!(empty.workloads.is_empty() && empty.policies.is_empty() && empty.services.is_empty());
    assert_eq!(client.run(empty), Ok(()));
}

#[test]
fn an_unhealthy_local_workload_is_no_endpoint() {
    let mut sick = local_workload();
    sick.workload.status = HealthStatus::Unhealthy;
    // its virtual addresses are not even read
    sick.vips.insert("nowhere".to_string(), ports(1, 2));
    let cfg = LocalConfig {
        workloads: vec![sick],
        policies: vec![],
        services: vec![service(
            "local-vip",
            network_addr("", parse_ip("127.10.0.1").unwrap()),
        )],
    };
    let mut client = LocalClient {
        state: ProxyState::new(),
        cert_fetcher: CertFetcher::none(),
    };
    assert_eq!(client.run(cfg), Ok(()));
    let found = client
        .state
        .find_workload(&network_addr("", parse_ip("127.0.0.1").unwrap()));
    assert_eq!(found.map(|w| w.status), Some(HealthStatus::Unhealthy));
    assert_eq!(client.state.services.num_staged_vips(), 0);
    assert_eq!(client.state.services.num_services(), 1);
    assert!(client
        .state
        .find_upstream("", parse_socket_addr("127.10.0.1:80").unwrap(), 15008)
        .is_none());
}

#[test]
fn a_local_workload_given_twice_serves_once() {
    let mut again = local_workload();
    again.workload.workload_ips = vec![IpAddr::V4(Ipv4Addr::new(127, 0, 0, 9))];
    again.vips = Table::new();
    again
        .vips
        .insert("127.10.0.1".to_string(), ports(80, 9090));
    let cfg = LocalConfig {
        workloads: vec![local_workload(), again],
        policies: vec![],
        services: vec![service(
            "local-vip",
            network_addr("", parse_ip("127.10.0.1").unwrap()),
        )],
    };
    let mut client = LocalClient {
        state: ProxyState::new(),
        cert_fetcher: CertFetcher::new("local".to_string()),
    };
    assert_eq!(client.run(cfg), Ok(()));
    // the second takes the place of the first, with its endpoints
    assert!(client
        .state
        .find_workload(&network_addr("", parse_ip("127.0.0.1").unwrap()))
        .is_none());
    assert_eq!(client.state.workloads.num_addresses(), 1);
    assert_eq!(client.state.services.num_staged_vips(), 0);
    let us = client
        .state
        .find_upstream("", parse_socket_addr("127.10.0.1:80").unwrap(), 15008)
        .unwrap();
    assert_eq!(us.workload.workload_ips, vec![IpAddr::V4(Ipv4Addr::new(127, 0, 0, 9))]);
    // the port is the one that the endpoint gives for the service port
    assert_eq!(us.port, 9090);
    // the fetcher was told of both, as they run on its node
    let id = local_workload().workload.identity();
    assert_eq!(client.cert_fetcher.take_pending(), vec![id.clone(), id]);
}
