use ztunnel::display::format_number;
use ztunnel::identity::Identity;
use ztunnel::ip::{IpAddr, Ipv4Addr, Ipv6Addr, SocketAddr};
use ztunnel::text::{chars_of, parse_ip, parse_socket_addr, string_of};
use ztunnel::workload::{
    network_addr, NamespacedHostname, NetworkAddress, WaypointError, WorkloadError,
};

fn v4(a: u8, b: u8, c: u8, d: u8) -> IpAddr {
    IpAddr::V4(Ipv4Addr::new(a, b, c, d))
}

fn v6(s: [u16; 8]) -> IpAddr {
    IpAddr::V6(Ipv6Addr::new(
        s[0], s[1], s[2], s[3], s[4], s[5], s[6], s[7],
    ))
}

#[test]
fn chars_and_strings() {
    assert_eq!(chars_of("a/b"), vec!['a', '/', 'b']);
    assert_eq!(string_of(&vec!['h', 'é', 'y']), "héy");
    assert_eq!(string_of(&chars_of("")), "");
}

#[test]
fn ipv4_text_is_read() {
    assert_eq!(parse_ip("127.0.0.1"), Some(v4(127, 0, 0, 1)));
    assert_eq!(parse_ip("0.0.0.0"), Some(v4(0, 0, 0, 0)));
    assert_eq!(parse_ip("255.255.255.255"), Some(v4(255, 255, 255, 255)));
    assert_eq!(parse_ip("10.20.30.40"), Some(v4(10, 20, 30, 40)));
}

#[test]
fn ipv4_text_is_refused() {
    for bad in [
        "", "1", "1.2.3", "1.2.3.4.5", "256.1.1.1", "1.1.1.256", "01.1.1.1", "1.1.1.01",
        "1..1.1", ".1.1.1", "1.1.1.", "a.b.c.d", "1.1.1.1 ", " 1.1.1.1", "1.1.1.-1", "1111.1.1.1",
        "+1.1.1.1",
    ] {
        assert_eq!(parse_ip(bad), None, "{bad}");
    }
}

#[test]
fn ipv6_text_is_read() {
    assert_eq!(parse_ip("::"), Some(v6([0; 8])));
    assert_eq!(parse_ip("::1"), Some(v6([0, 0, 0, 0, 0, 0, 0, 1])));
    assert_eq!(parse_ip("1::"), Some(v6([1, 0, 0, 0, 0, 0, 0, 0])));
    assert_eq!(
        parse_ip("2001:db8:85a3::8a2e:370:7334"),
        Some(v6([0x2001, 0xdb8, 0x85a3, 0, 0, 0x8a2e, 0x370, 0x7334]))
    );
    assert_eq!(
        parse_ip("2001:0DB8:85A3:0000:0000:8a2e:0370:7334"),
        Some(v6([0x2001, 0xdb8, 0x85a3, 0, 0, 0x8a2e, 0x370, 0x7334]))
    );
    assert_eq!(
        parse_ip("1:2:3:4:5:6:7:8"),
        Some(v6([1, 2, 3, 4, 5, 6, 7, 8]))
    );
    assert_eq!(
        parse_ip("1:2:3:4:5:6:7::"),
        Some(v6([1, 2, 3, 4, 5, 6, 7, 0]))
    );
    assert_eq!(
        parse_ip("::2:3:4:5:6:7:8"),
        Some(v6([0, 2, 3, 4, 5, 6, 7, 8]))
    );
    assert_eq!(
        parse_ip("::ffff:1.2.3.4"),
        Some(v6([0, 0, 0, 0, 0, 0xffff, 0x0102, 0x0304]))
    );
    assert_eq!(
        parse_ip("1:2:3:4:5:6:1.2.3.4"),
        Some(v6([1, 2, 3, 4, 5, 6, 0x0102, 0x0304]))
    );
    assert_eq!(
        parse_ip("64:ff9b::192.0.2.33"),
        Some(v6([0x64, 0xff9b, 0, 0, 0, 0, 0xc000, 0x0221]))
    );
}

#[test]
fn ipv6_text_is_refused() {
    for bad in [
        ":", ":::", "1:2:3:4:5:6:7", "1:2:3:4:5:6:7:8:9", "1::2::3", "12345::", "g::", ":1:2:3:4:5:6:7",
        "1:2:3:4:5:6:7:", "1:2:3:4:5:6:7:8::", "::1:2:3:4:5:6:7:8", "1:2:3:4:5:6:7:1.2.3.4",
        "1.2.3.4::", "::1.2.3.4:5", "1:2:3:4:5:6::1.2.3.4", "::1%eth0", "[::1]",
    ] {
        assert_eq!(parse_ip(bad), None, "{bad}");
    }
}

#[test]
fn ip_text_is_written() {
    assert_eq!(v4(0, 0, 0, 0).to_string(), "0.0.0.0");
    assert_eq!(v4(9, 10, 99, 100).to_string(), "9.10.99.100");
    assert_eq!(v4(255, 255, 255, 255).to_string(), "255.255.255.255");
    assert_eq!(v6([0; 8]).to_string(), "::");
    assert_eq!(v6([0, 0, 0, 0, 0, 0, 0, 1]).to_string(), "::1");
    assert_eq!(v6([1, 0, 0, 0, 0, 0, 0, 0]).to_string(), "1::");
    assert_eq!(v6([1, 2, 3, 4, 5, 6, 7, 8]).to_string(), "1:2:3:4:5:6:7:8");
    // a single zero segment is not shortened
    assert_eq!(v6([1, 0, 3, 4, 5, 6, 7, 8]).to_string(), "1:0:3:4:5:6:7:8");
    // of two runs of equal length the first is shortened
    assert_eq!(v6([1, 0, 0, 4, 5, 0, 0, 8]).to_string(), "1::4:5:0:0:8");
    // the longest run is shortened
    assert_eq!(v6([1, 0, 0, 4, 0, 0, 0, 8]).to_string(), "1:0:0:4::8");
    assert_eq!(
        v6([0xfe80, 0, 0, 0, 0xabcd, 0xf, 0x10, 0xffff]).to_string(),
        "fe80::abcd:f:10:ffff"
    );
    assert_eq!(
        v6([0, 0, 0, 0, 0, 0xffff, 0xc0a8, 0x0101]).to_string(),
        "::ffff:192.168.1.1"
    );
}

#[test]
fn ip_text_round_trip() {
    let all = [
        v4(0, 0, 0, 0),
        v4(1, 22, 133, 254),
        v6([0; 8]),
        v6([0, 0, 0, 0, 0, 0, 0, 1]),
        v6([1, 0, 0, 0, 0, 0, 0, 0]),
        v6([0, 0, 1, 0, 0, 0, 0, 0]),
        v6([1, 0, 0, 4, 5, 0, 0, 8]),
        v6([1, 0, 3, 0, 5, 0, 7, 0]),
        v6([0xffff; 8]),
        v6([0, 0, 0, 0, 0, 0xffff, 0, 0]),
        v6([0, 0, 0, 0, 0, 0xffff, 0x7f00, 1]),
        v6([0, 0, 0, 0, 0, 0, 0x7f00, 1]),
    ];
    for ip in all {
        assert_eq!(parse_ip(&ip.to_string()), Some(ip), "{}", ip.to_string());
    }
}

#[test]
fn socket_addr_text() {
    assert_eq!(
        parse_socket_addr("127.0.1.1:80"),
        Some(SocketAddr::new(v4(127, 0, 1, 1), 80))
    );
    assert_eq!(
        parse_socket_addr("10.0.0.5:65535"),
        Some(SocketAddr::new(v4(10, 0, 0, 5), 65535))
    );
    assert_eq!(
        parse_socket_addr("10.0.0.5:0080"),
        Some(SocketAddr::new(v4(10, 0, 0, 5), 80))
    );
    assert_eq!(
        parse_socket_addr("[::1]:15008"),
        Some(SocketAddr::new(v6([0, 0, 0, 0, 0, 0, 0, 1]), 15008))
    );
    for bad in [
        "", "10.0.0.5", "10.0.0.5:", "10.0.0.5:65536", "10.0.0.5:80:90", ":80", "::1:80", "[::1]",
        "[::1]80", "[::1]:", "[10.0.0.5]:80", "10.0.0.5:8a", "example.com:80", "[::1:80",
    ] {
        assert_eq!(parse_socket_addr(bad), None, "{bad}");
    }
    assert_eq!(
        SocketAddr::new(v4(10, 0, 0, 5), 8080).to_string(),
        "10.0.0.5:8080"
    );
    assert_eq!(
        SocketAddr::new(v6([0x2001, 0xdb8, 0, 0, 0, 0, 0, 1]), 443).to_string(),
        "[2001:db8::1]:443"
    );
    for a in [
        SocketAddr::new(v4(1, 2, 3, 4), 0),
        SocketAddr::new(v4(1, 2, 3, 4), 9),
        SocketAddr::new(v4(1, 2, 3, 4), 10),
        SocketAddr::new(v4(1, 2, 3, 4), 999),
        SocketAddr::new(v4(1, 2, 3, 4), 1000),
        SocketAddr::new(v6([0; 8]), 10000),
        SocketAddr::new(v6([0, 0, 0, 0, 0, 0xffff, 1, 2]), 65535),
    ] {
        assert_eq!(parse_socket_addr(&a.to_string()), Some(a));
    }
}

#[test]
fn network_address_text() {
    let a = network_addr("remote", v4(127, 10, 0, 2));
    assert_eq!(a.to_string(), "remote/127.10.0.2");
    assert_eq!(NetworkAddress::parse("remote/127.10.0.2"), Some(a));
    let b = network_addr("", v6([0, 0, 0, 0, 0, 0, 0, 1]));
    assert_eq!(b.to_string(), "/::1");
    assert_eq!(NetworkAddress::parse(&b.to_string()), Some(b));
    assert_eq!(NetworkAddress::parse("127.0.0.1"), None);
    assert_eq!(NetworkAddress::parse("net/not-an-ip"), None);
    // the text is cut at its first slash: a network name with a slash does not come back
    let c = network_addr("a/b", v4(1, 1, 1, 1));
    assert_eq!(NetworkAddress::parse(&c.to_string()), None);
}

#[test]
fn namespaced_hostname_text() {
    let h = NamespacedHostname {
        namespace: "ns".to_string(),
        hostname: "svc1.ns.svc.cluster.local".to_string(),
    };
    assert_eq!(h.to_string(), "ns/svc1.ns.svc.cluster.local");
    assert_eq!(NamespacedHostname::parse(&h.to_string()), Some(h));
    assert_eq!(NamespacedHostname::parse("no-slash"), None);
    assert_eq!(
        NamespacedHostname::parse("a/b/c"),
        Some(NamespacedHostname {
            namespace: "a".to_string(),
            hostname: "b/c".to_string()
        })
    );
}

#[test]
fn identity_text() {
    let id = Identity::Spiffe {
        trust_domain: "cluster.local".to_string(),
        namespace: "default".to_string(),
        service_account: "default".to_string(),
    };
    assert_eq!(
        id.to_string(),
        "spiffe://cluster.local/ns/default/sa/default"
    );
    assert_eq!(Identity::parse(&id.to_string()), Some(id));
    for bad in [
        "",
        "spiffe://",
        "spiffe:/cluster.local/ns/default/sa/default",
        "https://cluster.local/ns/default/sa/default",
        "spiffe://cluster.local/ns/default/sa",
        "spiffe://cluster.local/ns/default/sa/default/more",
        "spiffe://cluster.local/sa/default/ns/default",
        "spiffe://cluster.local/NS/default/sa/default",
    ] {
        assert_eq!(Identity::parse(bad), None, "{bad}");
    }
}

#[test]
fn numbers_are_written() {
    assert_eq!(format_number(0), "0");
    assert_eq!(format_number(9), "9");
    assert_eq!(format_number(10), "10");
    assert_eq!(format_number(1234567890), "1234567890");
    assert_eq!(format_number(usize::MAX), usize::MAX.to_string());
}

#[test]
fn errors_in_words() {
    assert_eq!(
        WorkloadError::AddressParse("nope".to_string()).to_string(),
        "failed to parse address: nope"
    );
    assert_eq!(
        WorkloadError::ByteAddressParse(9).to_string(),
        "failed to parse address, had 9 bytes"
    );
    assert_eq!(
        WorkloadError::PrefixParse(33).to_string(),
        "invalid cidr: 33"
    );
    assert_eq!(
        WorkloadError::EnumParse("unknown type".to_string()).to_string(),
        "unknown enum: unknown type"
    );
    assert_eq!(
        WorkloadError::MissingGatewayAddress.to_string(),
        "nonempty gateway address is missing address"
    );
    assert_eq!(
        WaypointError::FindWaypointError("w".to_string()).to_string(),
        "failed to find waypoint for workload: w"
    );
    assert_eq!(
        WaypointError::UnsupportedFeature("hostname lookup not supported yet".to_string())
            .to_string(),
        "unsupported feature: hostname lookup not supported yet"
    );
}

#[test]
fn identity_of_a_certificate() {
    let id = Identity::Spiffe {
        trust_domain: "cluster.local".to_string(),
        namespace: "client".to_string(),
        service_account: "client-sa".to_string(),
    };
    assert_eq!(ztunnel::display::peer_identity(&vec![]), None);
    assert_eq!(
        ztunnel::display::peer_identity(&vec!["example.com".to_string()]),
        None
    );
    assert_eq!(
        ztunnel::display::peer_identity(&vec![
            "example.com".to_string(),
            "spiffe://cluster.local/ns/client/sa/client-sa".to_string(),
            "spiffe://cluster.local/ns/other/sa/other".to_string()
        ]),
        Some(id)
    );
}

#[test]
fn addresses_as_they_are_meant() {
    assert_eq!(v4(1, 2, 3, 4).to_canonical(), v4(1, 2, 3, 4));
    assert_eq!(
        v6([0, 0, 0, 0, 0, 0xffff, 0x0a00, 0x0005]).to_canonical(),
        v4(10, 0, 0, 5)
    );
    assert_eq!(
        v6([0, 0, 0, 0, 0, 0xffff, 0xffff, 0xff01]).to_canonical(),
        v4(255, 255, 255, 1)
    );
    // not of the form ::ffff:a.b.c.d
    assert_eq!(
        v6([0, 0, 0, 0, 0, 0, 0x0a00, 0x0005]).to_canonical(),
        v6([0, 0, 0, 0, 0, 0, 0x0a00, 0x0005])
    );
    assert_eq!(
        v6([1, 0, 0, 0, 0, 0xffff, 0x0a00, 0x0005]).to_canonical(),
        v6([1, 0, 0, 0, 0, 0xffff, 0x0a00, 0x0005])
    );
}
