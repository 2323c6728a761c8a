use bytes::Bytes;
use ztunnel::discovery::{
    PortList, TunnelProtocol, WorkloadStatus, WorkloadType, XdsAuthorization, XdsClause,
    XdsDestination, XdsGatewayAddress, XdsIpNet, XdsMatch, XdsMatchType, XdsNamespacedHostname,
    XdsNetworkAddress, XdsPort, XdsRule, XdsService, XdsStringMatch, XdsWorkload, ports_of,
};
use ztunnel::identity::Identity;
use ztunnel::ip::{IpAddr, Ipv4Addr, Ipv6Addr};
use ztunnel::rbac::{Authorization, IpNet, RbacAction, RbacMatch, RbacScope, StringMatch};
use ztunnel::service::Service;
use ztunnel::table::Table;
use ztunnel::workload::{
    Destination, GatewayAddress, HealthStatus, NamespacedHostname, NetworkAddress, Protocol,
    WaypointError, Workload, WorkloadError,
};
use ztunnel::xds::service_endpoints;

fn empty_match() -> XdsMatch {
    XdsMatch {
        namespaces: vec![],
        not_namespaces: vec![],
        principals: vec![],
        not_principals: vec![],
        source_ips: vec![],
        not_source_ips: vec![],
        destination_ips: vec![],
        not_destination_ips: vec![],
        destination_ports: vec![],
        not_destination_ports: vec![],
    }
}

#[test]
fn enumerations_from_numbers() {
    assert_eq!(TunnelProtocol::from_i32(0), Some(TunnelProtocol::Plain));
    assert_eq!(TunnelProtocol::from_i32(1), Some(TunnelProtocol::Hbone));
    assert_eq!(TunnelProtocol::from_i32(2), None);
    assert_eq!(TunnelProtocol::from_i32(-1), None);
    assert_eq!(WorkloadStatus::from_i32(0), Some(WorkloadStatus::Healthy));
    assert_eq!(WorkloadStatus::from_i32(1), Some(WorkloadStatus::Unhealthy));
    assert_eq!(WorkloadStatus::from_i32(2), None);
    assert_eq!(WorkloadStatus::Unhealthy.number(), 1);
    assert_eq!(WorkloadType::from_i32(2), WorkloadType::Pod);
    assert_eq!(WorkloadType::from_i32(99), WorkloadType::Deployment);
    assert_eq!(WorkloadType::Cronjob.lowercase_name(), "cronjob");
    assert_eq!(WorkloadType::Job.lowercase_name(), "job");
}

#[test]
fn protocol_and_status() {
    assert_eq!(
        Protocol::try_from(Some(TunnelProtocol::Hbone)),
        Ok(Protocol::HBONE)
    );
    assert_eq!(
        Protocol::try_from(Some(TunnelProtocol::Plain)),
        Ok(Protocol::TCP)
    );
    assert_eq!(
        Protocol::try_from(None),
        Err(WorkloadError::EnumParse("unknown type".to_string()))
    );
    assert_eq!(
        HealthStatus::try_from(Some(WorkloadStatus::Unhealthy)),
        Ok(HealthStatus::Unhealthy)
    );
    assert_eq!(
        HealthStatus::try_from(None),
        Err(WorkloadError::EnumParse("unknown type".to_string()))
    );
    assert_eq!(Protocol::default(), Protocol::TCP);
    assert_eq!(HealthStatus::default(), HealthStatus::Healthy);
}

#[test]
fn workload_fills_in_what_is_missing() {
    let w = Workload::try_from(&XdsWorkload {
        uid: "u".to_string(),
        name: "n".to_string(),
        addresses: vec![
            Bytes::copy_from_slice(&[10, 0, 0, 5]),
            Bytes::copy_from_slice(&[0, 0, 0, 0, 0, 0, 0, 0, 0, 0, 0, 0, 0, 0, 0, 1]),
        ],
        workload_type: 2,
        tunnel_protocol: 1,
        authorization_policies: vec!["ns/p".to_string()],
        ..Default::default()
    })
    .unwrap();
    assert_eq!(
        w.workload_ips,
        vec![
            IpAddr::V4(Ipv4Addr::new(10, 0, 0, 5)),
            IpAddr::V6(Ipv6Addr::new(0, 0, 0, 0, 0, 0, 0, 1))
        ]
    );
    assert_eq!(w.trust_domain, "cluster.local");
    assert_eq!(w.service_account, "default");
    assert_eq!(w.cluster_id, "Kubernetes");
    assert_eq!(w.workload_type, "pod");
    assert_eq!(w.protocol, Protocol::HBONE);
    assert_eq!(w.status, HealthStatus::Healthy);
    assert_eq!(w.gateway_address, None);
    assert_eq!(w.authorization_policies, vec!["ns/p".to_string()]);
    assert_eq!(
        w.identity(),
        Identity::Spiffe {
            trust_domain: "cluster.local".to_string(),
            namespace: "".to_string(),
            service_account: "default".to_string()
        }
    );

    let w = Workload::try_from(&XdsWorkload {
        trust_domain: "td".to_string(),
        service_account: "sa".to_string(),
        cluster_id: "c1".to_string(),
        namespace: "ns".to_string(),
        ..Default::default()
    })
    .unwrap();
    assert_eq!(w.trust_domain, "td");
    assert_eq!(w.service_account, "sa");
    assert_eq!(w.cluster_id, "c1");
    assert_eq!(w.workload_type, "deployment");
    assert_eq!(
        w.to_string(),
        "Workload{ with uid  via None (TCP)}"
    );
}

#[test]
fn workload_is_refused() {
    // an address of five bytes
    assert_eq!(
        Workload::try_from(&XdsWorkload {
            addresses: vec![
                Bytes::copy_from_slice(&[10, 0, 0, 5]),
                Bytes::copy_from_slice(&[1, 2, 3, 4, 5])
            ],
            ..Default::default()
        }),
        Err(WorkloadError::ByteAddressParse(5))
    );
    // a protocol that is none
    assert_eq!(
        Workload::try_from(&XdsWorkload {
            tunnel_protocol: 7,
            ..Default::default()
        }),
        Err(WorkloadError::EnumParse("unknown type".to_string()))
    );
    // a status that is none
    assert_eq!(
        Workload::try_from(&XdsWorkload {
            status: 2,
            ..Default::default()
        }),
        Err(WorkloadError::EnumParse("unknown type".to_string()))
    );
    // a waypoint without destination comes before a bad address
    assert_eq!(
        Workload::try_from(&XdsWorkload {
            waypoint: Some(XdsGatewayAddress {
                destination: None,
                port: 1
            }),
            addresses: vec![Bytes::copy_from_slice(&[1])],
            ..Default::default()
        }),
        Err(WorkloadError::MissingGatewayAddress)
    );
    // a network gateway with a bad address
    assert_eq!(
        Workload::try_from(&XdsWorkload {
            network_gateway: Some(XdsGatewayAddress {
                destination: Some(XdsDestination::Address(XdsNetworkAddress {
                    network: "n".to_string(),
                    address: vec![1, 2, 3]
                })),
                port: 1
            }),
            ..Default::default()
        }),
        Err(WorkloadError::ByteAddressParse(3))
    );
}

#[test]
fn gateway_address_is_read() {
    let by_address = GatewayAddress::try_from(&XdsGatewayAddress {
        destination: Some(XdsDestination::Address(XdsNetworkAddress {
            network: "net".to_string(),
            address: vec![10, 0, 0, 9],
        })),
        port: 15008,
    })
    .unwrap();
    assert_eq!(
        by_address,
        GatewayAddress {
            destination: Destination::Address(NetworkAddress {
                network: "net".to_string(),
                address: IpAddr::V4(Ipv4Addr::new(10, 0, 0, 9))
            }),
            port: 15008
        }
    );
    let by_name = GatewayAddress::try_from(&XdsGatewayAddress {
        destination: Some(XdsDestination::Hostname(XdsNamespacedHostname {
            namespace: "ns".to_string(),
            hostname: "gw.example".to_string(),
        })),
        // cut to 16 bits
        port: 65536 + 443,
    })
    .unwrap();
    assert_eq!(
        by_name,
        GatewayAddress {
            destination: Destination::Hostname(NamespacedHostname {
                namespace: "ns".to_string(),
                hostname: "gw.example".to_string()
            }),
            port: 443
        }
    );

    let mut w = Workload::try_from(&XdsWorkload::default()).unwrap();
    assert_eq!(w.waypoint_svc_ip_address(), Ok(None));
    w.waypoint = Some(by_address);
    assert_eq!(
        w.waypoint_svc_ip_address(),
        Ok(Some(IpAddr::V4(Ipv4Addr::new(10, 0, 0, 9))))
    );
    w.waypoint = Some(by_name);
    assert_eq!(
        w.waypoint_svc_ip_address(),
        Err(WaypointError::UnsupportedFeature(
            "hostname lookup not supported yet".to_string()
        ))
    );
}

#[test]
fn ports_from_lists() {
    let ports = ports_of(&vec![
        XdsPort {
            service_port: 80,
            target_port: 8080,
        },
        XdsPort {
            service_port: 443,
            target_port: 8443,
        },
        // a later mapping replaces an earlier one
        XdsPort {
            service_port: 80,
            target_port: 9090,
        },
        // cut to 16 bits
        XdsPort {
            service_port: 65536 + 1,
            target_port: 65536 + 2,
        },
    ]);
    assert_eq!(ports.len(), 3);
    assert_eq!(ports.get(&80), Some(&9090));
    assert_eq!(ports.get(&443), Some(&8443));
    assert_eq!(ports.get(&1), Some(&2));
    assert_eq!(ports.get(&81), None);

    let back = PortList::from_ports(&ports);
    assert_eq!(back.ports.len(), 3);
    assert_eq!(ports_of(&back.ports).get(&80), Some(&9090));
    assert_eq!(ports_of(&back.ports).get(&443), Some(&8443));
    assert_eq!(ports_of(&back.ports).get(&1), Some(&2));
}

#[test]
fn service_is_read() {
    let svc = Service::try_from(&XdsService {
        name: "svc1".to_string(),
        namespace: "ns".to_string(),
        hostname: "svc1.ns.svc.cluster.local".to_string(),
        addresses: vec![
            XdsNetworkAddress {
                network: "".to_string(),
                address: vec![127, 0, 1, 1],
            },
            XdsNetworkAddress {
                network: "remote".to_string(),
                address: vec![127, 0, 1, 2],
            },
        ],
        ports: vec![XdsPort {
            service_port: 80,
            target_port: 8080,
        }],
        subject_alt_names: vec!["san".to_string()],
    })
    .unwrap();
    assert_eq!(svc.name, "svc1");
    assert_eq!(
        svc.namespaced_hostname(),
        NamespacedHostname {
            namespace: "ns".to_string(),
            hostname: "svc1.ns.svc.cluster.local".to_string()
        }
    );
    assert_eq!(
        svc.vips,
        vec![
            NetworkAddress {
                network: "".to_string(),
                address: IpAddr::V4(Ipv4Addr::new(127, 0, 1, 1))
            },
            NetworkAddress {
                network: "remote".to_string(),
                address: IpAddr::V4(Ipv4Addr::new(127, 0, 1, 2))
            }
        ]
    );
    assert_eq!(svc.ports.get(&80), Some(&8080));
    assert!(svc.endpoints.is_empty());
    assert_eq!(svc.subject_alt_names, vec!["san".to_string()]);

    assert_eq!(
        Service::try_from(&XdsService {
            name: "svc1".to_string(),
            namespace: "ns".to_string(),
            hostname: "h".to_string(),
            addresses: vec![XdsNetworkAddress {
                network: "".to_string(),
                address: vec![],
            }],
            ports: vec![],
            subject_alt_names: vec![],
        }),
        Err(WorkloadError::ByteAddressParse(0))
    );
}

#[test]
fn endpoints_of_a_workload() {
    let mut w = Workload::try_from(&XdsWorkload {
        network: "home".to_string(),
        addresses: vec![
            Bytes::copy_from_slice(&[10, 0, 0, 1]),
            Bytes::copy_from_slice(&[10, 0, 0, 2]),
        ],
        ..Default::default()
    })
    .unwrap();
    let mut vips: Table<String, PortList> = Table::new();
    vips.insert(
        "127.0.1.1".to_string(),
        PortList {
            ports: vec![XdsPort {
                service_port: 80,
                target_port: 8080,
            }],
        },
    );
    vips.insert(
        "remote/127.0.1.2".to_string(),
        PortList { ports: vec![] },
    );
    let eps = service_endpoints(&w, &vips).unwrap();
    assert_eq!(eps.len(), 4);
    let home = |d: u8| NetworkAddress {
        network: "home".to_string(),
        address: IpAddr::V4(Ipv4Addr::new(10, 0, 0, d)),
    };
    assert_eq!(eps[0].vip.to_string(), "home/127.0.1.1");
    assert_eq!(eps[0].address, home(1));
    assert_eq!(eps[0].port.get(&80), Some(&8080));
    assert_eq!(eps[1].vip.to_string(), "home/127.0.1.1");
    assert_eq!(eps[1].address, home(2));
    assert_eq!(eps[2].vip.to_string(), "remote/127.0.1.2");
    assert_eq!(eps[2].address, home(1));
    assert!(eps[2].port.is_empty());
    assert_eq!(eps[3].vip.to_string(), "remote/127.0.1.2");
    assert_eq!(eps[3].address, home(2));

    vips.insert("remote/not-an-ip".to_string(), PortList { ports: vec![] });
    assert_eq!(
        service_endpoints(&w, &vips),
        Err(WorkloadError::AddressParse("not-an-ip".to_string()))
    );

    w.workload_ips = vec![];
    vips.remove(&"remote/not-an-ip".to_string());
    assert_eq!(service_endpoints(&w, &vips), Ok(vec![]));
}

#[test]
fn policy_is_read() {
    let x = XdsAuthorization {
        name: "p".to_string(),
        namespace: "ns".to_string(),
        scope: 2,
        action: 1,
        rules: vec![XdsRule {
            clauses: vec![XdsClause {
                matches: vec![XdsMatch {
                    namespaces: vec![
                        XdsStringMatch {
                            match_type: Some(XdsMatchType::Exact("a".to_string())),
                        },
                        XdsStringMatch { match_type: None },
                        XdsStringMatch {
                            match_type: Some(XdsMatchType::Presence),
                        },
                    ],
                    principals: vec![
                        XdsStringMatch {
                            match_type: Some(XdsMatchType::Prefix("td/".to_string())),
                        },
                        XdsStringMatch {
                            match_type: Some(XdsMatchType::Suffix("/sa/x".to_string())),
                        },
                    ],
                    source_ips: vec![XdsIpNet {
                        address: vec![10, 0, 0, 0],
                        length: 8,
                    }],
                    destination_ports: vec![80, 65536 + 443],
                    ..empty_match()
                }],
            }],
        }],
    };
    assert_eq!(
        Authorization::try_from(&x),
        Ok(Authorization {
            name: "p".to_string(),
            namespace: "ns".to_string(),
            scope: RbacScope::WorkloadSelector,
            action: RbacAction::Deny,
            rules: vec![vec![vec![RbacMatch {
                namespaces: vec![StringMatch::Exact("a".to_string()), StringMatch::Presence],
                not_namespaces: vec![],
                principals: vec![
                    StringMatch::Prefix("td/".to_string()),
                    StringMatch::Suffix("/sa/x".to_string())
                ],
                not_principals: vec![],
                source_ips: vec![IpNet {
                    addr: IpAddr::V4(Ipv4Addr::new(10, 0, 0, 0)),
                    prefix_len: 8
                }],
                not_source_ips: vec![],
                destination_ips: vec![],
                not_destination_ips: vec![],
                destination_ports: vec![80, 443],
                not_destination_ports: vec![],
            }]]],
        })
    );
    assert_eq!(Authorization::try_from(&x).unwrap().to_key(), "ns/p");
}

#[test]
fn policy_is_refused() {
    let with_net = |address: Vec<u8>, length: u32| XdsAuthorization {
        name: "p".to_string(),
        namespace: "ns".to_string(),
        scope: 0,
        action: 0,
        rules: vec![XdsRule {
            clauses: vec![XdsClause {
                matches: vec![XdsMatch {
                    not_destination_ips: vec![XdsIpNet { address, length }],
                    ..empty_match()
                }],
            }],
        }],
    };
    assert!(Authorization::try_from(&with_net(vec![10, 0, 0, 0], 32)).is_ok());
    assert_eq!(
        Authorization::try_from(&with_net(vec![10, 0, 0, 0], 33)),
        Err(WorkloadError::PrefixParse(33))
    );
    assert!(Authorization::try_from(&with_net(vec![0; 16], 128)).is_ok());
    assert_eq!(
        Authorization::try_from(&with_net(vec![0; 16], 129)),
        Err(WorkloadError::PrefixParse(129))
    );
    assert_eq!(
        Authorization::try_from(&with_net(vec![0; 7], 8)),
        Err(WorkloadError::ByteAddressParse(7))
    );
    let plain = |scope: i32, action: i32| XdsAuthorization {
        name: "p".to_string(),
        namespace: "ns".to_string(),
        scope,
        action,
        rules: vec![],
    };
    assert_eq!(
        Authorization::try_from(&plain(0, 0)).map(|a| (a.scope, a.action)),
        Ok((RbacScope::Global, RbacAction::Allow))
    );
    assert_eq!(
        Authorization::try_from(&plain(1, 1)).map(|a| (a.scope, a.action)),
        Ok((RbacScope::Namespace, RbacAction::Deny))
    );
    assert_eq!(
        Authorization::try_from(&plain(3, 0)),
        Err(WorkloadError::EnumParse("unknown type".to_string()))
    );
    assert_eq!(
        Authorization::try_from(&plain(0, 2)),
        Err(WorkloadError::EnumParse("unknown type".to_string()))
    );
}
