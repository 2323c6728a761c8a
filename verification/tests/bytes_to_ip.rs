use bytes::Bytes;
use ztunnel::ip::{IpAddr, Ipv4Addr, Ipv6Addr};
use ztunnel::workload::{byte_to_ip, WorkloadError};

#[test]
fn byte_to_ipaddr_garbage() {
    let garbage = "not_an_ip";
    let bytes = Bytes::from(garbage);
    let result = byte_to_ip(&bytes);
    assert!(result.is_err());
    let actual_error: WorkloadError = result.unwrap_err();
    let expected_error = WorkloadError::ByteAddressParse(garbage.len());
    assert_eq!(actual_error, expected_error);
}

#[test]
fn byte_to_ipaddr_empty() {
    let empty = "";
    let bytes = Bytes::from(empty);
    let result = byte_to_ip(&bytes);
    assert!(result.is_err());
    assert_eq!(result.unwrap_err(), WorkloadError::ByteAddressParse(0));
}

#[test]
fn byte_to_ipaddr_unspecified() {
    let unspecified: Vec<u8> = Ipv4Addr::new(0, 0, 0, 0).octets();
    let bytes = Bytes::from(unspecified);
    let result = byte_to_ip(&bytes);
    assert!(result.is_ok());
    let ip_addr = result.unwrap();
    assert!(ip_addr.is_unspecified(), "was not unspecified")
}

#[test]
fn byte_to_ipaddr_v4_loopback() {
    let loopback: Vec<u8> = Ipv4Addr::new(127, 0, 0, 1).octets();
    let bytes = Bytes::from(loopback);
    let result = byte_to_ip(&bytes);
    assert!(result.is_ok());
    let maybe_loopback_ip = result.unwrap();
    assert_eq!(maybe_loopback_ip.to_string(), "127.0.0.1");
}

#[test]
fn byte_to_ipaddr_v4_happy() {
    let addr_vec: Vec<u8> = Vec::from([1, 1, 1, 1]);
    let bytes = &Bytes::from(addr_vec);
    let result = byte_to_ip(bytes);
    assert!(result.is_ok());
    let ip_addr = result.unwrap();
    assert!(ip_addr.is_ipv4(), "was not ipv4");
    assert!(!ip_addr.is_ipv6(), "was ipv6");
    assert!(!ip_addr.is_unspecified(), "was unspecified");
    assert_eq!(ip_addr.to_string(), "1.1.1.1");
}

#[test]
fn byte_to_ipaddr_v6_happy() {
    let addr: Vec<u8> = Vec::from([
        32, 1, 13, 184, 133, 163, 0, 0, 0, 0, 138, 46, 3, 112, 115, 52,
    ]);
    let bytes = &Bytes::from(addr);
    let result = byte_to_ip(bytes);
    assert!(result.is_ok());
    let ip_addr = result.unwrap();
    assert!(ip_addr.is_ipv6(), "was not ipv6");
    assert!(!ip_addr.is_ipv4(), "was ipv4");
    assert!(!ip_addr.is_unspecified());
    assert_eq!(ip_addr.to_string(), "2001:db8:85a3::8a2e:370:7334");
}

#[test]
fn byte_to_ipaddr_v6_loopback() {
    let addr_vec: Vec<u8> = Ipv6Addr::new(0, 0, 0, 0, 0, 0, 0, 1).octets();
    let bytes = &Bytes::from(addr_vec);
    let result = byte_to_ip(bytes);
    assert!(result.is_ok());
    let maybe_loopback_ip = result.unwrap();
    assert_eq!(maybe_loopback_ip.to_string(), "::1");
}

#[test]
fn byte_to_ip_keeps_every_octet() {
    let v4 = byte_to_ip(&Bytes::from(vec![10u8, 20, 30, 40])).unwrap();
    assert_eq!(v4, IpAddr::V4(Ipv4Addr::new(10, 20, 30, 40)));
    assert_eq!(v4.octets(), vec![10u8, 20, 30, 40]);
    let bytes: Vec<u8> = (1u8..=16).collect();
    let v6 = byte_to_ip(&Bytes::from(bytes.clone())).unwrap();
    assert_eq!(
        v6,
        IpAddr::V6(Ipv6Addr::new(
            0x0102, 0x0304, 0x0506, 0x0708, 0x090a, 0x0b0c, 0x0d0e, 0x0f10
        ))
    );
    assert_eq!(v6.octets(), bytes);
}

#[test]
fn byte_to_ip_refuses_other_lengths() {
    for n in [1usize, 2, 3, 5, 8, 15, 17, 32] {
        let bytes = Bytes::from(vec![7u8; n]);
        assert_eq!(byte_to_ip(&bytes), Err(WorkloadError::ByteAddressParse(n)));
    }
}

#[test]
fn octets_round_trip() {
    let all = [
        IpAddr::V4(Ipv4Addr::new(0, 0, 0, 0)),
        IpAddr::V4(Ipv4Addr::new(255, 255, 255, 255)),
        IpAddr::V4(Ipv4Addr::new(192, 168, 1, 17)),
        IpAddr::V6(Ipv6Addr::new(0, 0, 0, 0, 0, 0, 0, 0)),
        IpAddr::V6(Ipv6Addr::new(0xffff, 0xffff, 0xffff, 0xffff, 0xffff, 0xffff, 0xffff, 0xffff)),
        IpAddr::V6(Ipv6Addr::new(0x2001, 0xdb8, 0, 0, 0x1, 0, 0xff00, 0x42)),
    ];
    for ip in all {
        assert_eq!(IpAddr::from_octets(&ip.octets()), Some(ip));
    }
}
