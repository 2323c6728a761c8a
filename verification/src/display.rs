//! The text forms of the records: how they are printed, and how the keys
//! among them are read back.

use crate::identity::{Identity, IdentityView};
use crate::ip::{IpAddr, SocketAddr};
use crate::rbac::begins_with;
use crate::text::{
    chars_of, digit_char, fields_view, find_char, first_index, format_ip, format_socket_addr,
    ip_of_text, ip_text, parse_ip, same_text, slice_chars, socket_addr_text, split, split_chars,
    string_of,
};
use crate::text_laws::{law_ip_round_trip, lemma_split_first, lemma_split_last};
use crate::workload::{
    NamespacedHostname, NamespacedHostnameView, NetworkAddress, NetworkAddressView, Protocol,
    WaypointError, Workload, WorkloadError, WorkloadErrorView, WorkloadView,
};
use vstd::prelude::*;

verus! {

/// A number in decimal, without zeros in front.
pub open spec fn number_text(n: nat) -> Seq<char>
    decreases n,
{
    if n < 10 {
        seq![digit_char(n as int)]
    } else {
        number_text(n / 10).push(digit_char((n % 10) as int))
    }
}

/// A number in decimal.
pub fn format_number(n: usize) -> (r: String)
    ensures
        r@ == number_text(n as nat),
{
    let mut digits: Vec<char> = Vec::new();
    let mut rest = n;
    while rest >= 10
        invariant
            number_text(n as nat) == number_text(rest as nat) + digits@.reverse(),
        decreases rest,
    {
        let d = (rest % 10) as u8;
        let ghost before = digits@;
        digits.push((48 + d) as char);
        proof {
            let c = digit_char((rest % 10) as int);
            assert(digits@.reverse() =~= seq![c] + before.reverse());
            assert(number_text(rest as nat) == number_text((rest / 10) as nat).push(c));
            assert(number_text((rest / 10) as nat).push(c) + before.reverse() =~= number_text(
                (rest / 10) as nat,
            ) + digits@.reverse());
        }
        rest = rest / 10;
    }
    let mut out: Vec<char> = Vec::new();
    out.push((48 + rest as u8) as char);
    let ghost head = out@;
    assert(head =~= number_text(rest as nat));
    let mut i: usize = digits.len();
    while i > 0
        invariant
            i <= digits@.len(),
            out@ == head + digits@.reverse().take(digits@.len() - i),
        decreases i,
    {
        i -= 1;
        out.push(digits[i]);
        proof {
            let r = digits@.reverse();
            let k = digits@.len() - i - 1;
            assert(r[k] == digits@[i as int]);
            assert(r.take(k + 1) =~= r.take(k).push(r[k]));
        }
    }
    proof {
        let r = digits@.reverse();
        assert(r.take(digits@.len() as int) =~= r);
    }
    string_of(&out)
}

impl IpAddr {
    /// The address in text.
    pub fn to_string(&self) -> (r: String)
        ensures
            r@ == ip_text(*self),
    {
        format_ip(*self)
    }
}

impl SocketAddr {
    /// The address `ip` with the port `port`.
    pub fn new(ip: IpAddr, port: u16) -> (r: SocketAddr)
        ensures
            r == (SocketAddr { ip, port }),
    {
        SocketAddr { ip, port }
    }

    /// The address in text.
    pub fn to_string(&self) -> (r: String)
        ensures
            r@ == socket_addr_text(*self),
    {
        format_socket_addr(*self)
    }
}

impl NetworkAddressView {
    /// The address in text: `network/address`.
    pub open spec fn text(self) -> Seq<char> {
        self.network + seq!['/'] + ip_text(self.address)
    }

    /// The address that a text names: the text up to its first `/` is the
    /// network, the rest the address.
    pub open spec fn of_text(s: Seq<char>) -> Option<NetworkAddressView> {
        let i = first_index(s, '/') as int;
        if i < s.len() {
            match ip_of_text(s.skip(i + 1)) {
                Some(ip) => Some(NetworkAddressView { network: s.take(i), address: ip }),
                None => None,
            }
        } else {
            None
        }
    }
}

/// The view of an optional address.
pub open spec fn network_address_opt(o: Option<NetworkAddress>) -> Option<NetworkAddressView> {
    match o {
        Some(a) => Some(a@),
        None => None,
    }
}

impl NetworkAddress {
    /// The address in text: `network/address`.
    pub fn to_string(&self) -> (r: String)
        ensures
            r@ == self@.text(),
    {
        let mut out = chars_of(self.network.as_str());
        out.push('/');
        let mut ip = chars_of(format_ip(self.address).as_str());
        out.append(&mut ip);
        assert(out@ =~= self@.text());
        string_of(&out)
    }

    /// Reads an address from its text.
    pub fn parse(s: &str) -> (r: Option<NetworkAddress>)
        ensures
            network_address_opt(r) == NetworkAddressView::of_text(s@),
    {
        let v = chars_of(s);
        let i = find_char(&v, '/');
        if i >= v.len() {
            return None;
        }
        let network = slice_chars(&v, 0, i);
        let address = slice_chars(&v, i + 1, v.len());
        proof {
            assert(network@ =~= s@.take(i as int));
            assert(address@ =~= s@.skip(i + 1));
        }
        match parse_ip(string_of(&address).as_str()) {
            Some(ip) => Some(NetworkAddress { network: string_of(&network), address: ip }),
            None => None,
        }
    }
}

impl NamespacedHostnameView {
    /// The key in text: `namespace/hostname`.
    pub open spec fn text(self) -> Seq<char> {
        self.namespace + seq!['/'] + self.hostname
    }

    /// The key that a text names: the text up to its first `/` is the
    /// namespace, the rest the hostname.
    pub open spec fn of_text(s: Seq<char>) -> Option<NamespacedHostnameView> {
        let i = first_index(s, '/') as int;
        if i < s.len() {
            Some(NamespacedHostnameView { namespace: s.take(i), hostname: s.skip(i + 1) })
        } else {
            None
        }
    }
}

impl NamespacedHostname {
    /// The key in text: `namespace/hostname`.
    pub fn to_string(&self) -> (r: String)
        ensures
            r@ == self@.text(),
    {
        let mut out = chars_of(self.namespace.as_str());
        out.push('/');
        let mut host = chars_of(self.hostname.as_str());
        out.append(&mut host);
        assert(out@ =~= self@.text());
        string_of(&out)
    }

    /// Reads a key from its text.
    pub fn parse(s: &str) -> (r: Option<NamespacedHostname>)
        ensures
            crate::workload::host_opt(r) == NamespacedHostnameView::of_text(s@),
    {
        let v = chars_of(s);
        let i = find_char(&v, '/');
        if i >= v.len() {
            return None;
        }
        let namespace = slice_chars(&v, 0, i);
        let hostname = slice_chars(&v, i + 1, v.len());
        proof {
            assert(namespace@ =~= s@.take(i as int));
            assert(hostname@ =~= s@.skip(i + 1));
        }
        Some(
            NamespacedHostname {
                namespace: string_of(&namespace),
                hostname: string_of(&hostname),
            },
        )
    }
}

/// A text without `/` before a `/` is found again as what stands before
/// the first `/`.
pub proof fn lemma_first_slash(head: Seq<char>, tail: Seq<char>)
    requires
        forall|j: int| 0 <= j < head.len() ==> head[j] != '/',
    ensures
        first_index(head + seq!['/'] + tail, '/') == head.len(),
        (head + seq!['/'] + tail).take(head.len() as int) == head,
        (head + seq!['/'] + tail).skip(head.len() as int + 1) == tail,
{
    let s = head + seq!['/'] + tail;
    assert forall|j: int| 0 <= j < head.len() implies s[j] != '/' by {
        assert(s[j] == head[j]);
    }
    assert(s[head.len() as int] == '/');
    crate::text::lemma_first_index(s, '/', head.len() as int);
    assert(s.take(head.len() as int) =~= head);
    assert(s.skip(head.len() as int + 1) =~= tail);
}

/// A service key that is written and read back is the same key, where
/// its namespace holds no `/`.
pub proof fn law_hostname_round_trip(h: NamespacedHostnameView)
    requires
        forall|j: int| 0 <= j < h.namespace.len() ==> h.namespace[j] != '/',
    ensures
        NamespacedHostnameView::of_text(h.text()) == Some(h),
{
    lemma_first_slash(h.namespace, h.hostname);
}

impl IdentityView {
    /// The identity as a URI: `spiffe://<trust domain>/ns/<namespace>/sa/<service account>`.
    pub open spec fn text(self) -> Seq<char> {
        "spiffe://"@ + self.trust_domain + "/ns/"@ + self.namespace + "/sa/"@
            + self.service_account
    }
}

impl IdentityView {
    /// The identity that a URI names: `spiffe://`, then five fields set
    /// apart by `/`, of which the second reads `ns` and the fourth `sa`.
    pub open spec fn of_text(s: Seq<char>) -> Option<IdentityView> {
        if begins_with(s, "spiffe://"@) {
            let f = split(s.skip(9), '/');
            if f.len() == 5 && f[1] == "ns"@ && f[3] == "sa"@ {
                Some(IdentityView { trust_domain: f[0], namespace: f[2], service_account: f[4] })
            } else {
                None
            }
        } else {
            None
        }
    }
}

/// The texts of a list of strings.
pub open spec fn texts(v: Seq<String>) -> Seq<Seq<char>> {
    Seq::new(v.len(), |i: int| v[i]@)
}

/// The identity that a certificate proves: that of the first of its
/// alternative names, in order, that is the URI of an identity.
pub open spec fn first_identity(sans: Seq<Seq<char>>) -> Option<IdentityView>
    decreases sans.len(),
{
    if sans.len() == 0 {
        None
    } else {
        match IdentityView::of_text(sans[0]) {
            Some(i) => Some(i),
            None => first_identity(sans.skip(1)),
        }
    }
}

/// The identity that a certificate with the given alternative names
/// proves; none where it has no name that is the URI of an identity.
pub fn peer_identity(sans: &Vec<String>) -> (r: Option<Identity>)
    ensures
        crate::identity::identity_opt(r) == first_identity(texts(sans@)),
{
    let ghost all = texts(sans@);
    let n = sans.len();
    let mut i: usize = 0;
    proof {
        assert(all.skip(0) =~= all);
    }
    while i < n
        invariant
            i <= n,
            n == sans@.len(),
            all == texts(sans@),
            first_identity(all) == first_identity(all.skip(i as int)),
        decreases n - i,
    {
        proof {
            assert(all.skip(i as int)[0] == sans@[i as int]@);
            assert(all.skip(i as int).skip(1) =~= all.skip(i + 1));
        }
        match Identity::parse(sans[i].as_str()) {
            Some(id) => {
                return Some(id);
            },
            None => {},
        }
        i += 1;
    }
    None
}

impl Identity {
    /// Reads an identity from its URI.
    pub fn parse(s: &str) -> (r: Option<Identity>)
        ensures
            crate::identity::identity_opt(r) == IdentityView::of_text(s@),
    {
        let v = chars_of(s);
        proof {
            reveal_strlit("spiffe://");
        }
        if v.len() < 9 {
            return None;
        }
        let prefix = slice_chars(&v, 0, 9);
        proof {
            assert(prefix@ =~= s@.take(9));
        }
        if !same_text(&prefix, "spiffe://") {
            return None;
        }
        let rest = slice_chars(&v, 9, v.len());
        proof {
            assert(rest@ =~= s@.skip(9));
        }
        let f = split_chars(&rest, '/');
        if f.len() != 5 {
            return None;
        }
        assert(fields_view(f@)[0] == f@[0]@ && fields_view(f@)[1] == f@[1]@ && fields_view(f@)[2]
            == f@[2]@ && fields_view(f@)[3] == f@[3]@ && fields_view(f@)[4] == f@[4]@);
        if !same_text(&f[1], "ns") || !same_text(&f[3], "sa") {
            return None;
        }
        Some(
            Identity::Spiffe {
                trust_domain: string_of(&f[0]),
                namespace: string_of(&f[2]),
                service_account: string_of(&f[4]),
            },
        )
    }

    /// The identity as a URI.
    pub fn to_string(&self) -> (r: String)
        ensures
            r@ == self@.text(),
    {
        match self {
            Identity::Spiffe { trust_domain, namespace, service_account } => {
                let mut r = "spiffe://".to_owned();
                r.append(trust_domain.as_str());
                r.append("/ns/");
                r.append(namespace.as_str());
                r.append("/sa/");
                r.append(service_account.as_str());
                r
            },
        }
    }
}

impl Protocol {
    /// The name of the protocol.
    pub open spec fn name(self) -> Seq<char> {
        match self {
            Protocol::TCP => "TCP"@,
            Protocol::HBONE => "HBONE"@,
        }
    }
}

impl WorkloadView {
    /// The workload in a line of text, for logs.
    pub open spec fn text(self) -> Seq<char> {
        "Workload{"@ + self.name + " with uid "@ + self.uid + " via "@ + (match self.gateway_address {
            Some(a) => socket_addr_text(a),
            None => "None"@,
        }) + " ("@ + self.protocol.name() + ")}"@
    }
}

impl Workload {
    /// The workload in a line of text, for logs.
    pub fn to_string(&self) -> (r: String)
        ensures
            r@ == self@.text(),
    {
        let mut r = "Workload{".to_owned();
        r.append(self.name.as_str());
        r.append(" with uid ");
        r.append(self.uid.as_str());
        r.append(" via ");
        match self.gateway_address {
            Some(a) => {
                let t = format_socket_addr(a);
                r.append(t.as_str());
            },
            None => {
                r.append("None");
            },
        }
        r.append(" (");
        match self.protocol {
            Protocol::TCP => r.append("TCP"),
            Protocol::HBONE => r.append("HBONE"),
        }
        r.append(")}");
        r
    }
}

impl WorkloadErrorView {
    /// The error in words.
    pub open spec fn text(self) -> Seq<char> {
        match self {
            WorkloadErrorView::AddressParse(s) => "failed to parse address: "@ + s,
            WorkloadErrorView::ByteAddressParse(n) => "failed to parse address, had "@
                + number_text(n as nat) + " bytes"@,
            WorkloadErrorView::PrefixParse(n) => "invalid cidr: "@ + number_text(n as nat),
            WorkloadErrorView::EnumParse(s) => "unknown enum: "@ + s,
            WorkloadErrorView::MissingGatewayAddress =>
                "nonempty gateway address is missing address"@,
        }
    }
}

impl WorkloadError {
    /// The error in words.
    pub fn to_string(&self) -> (r: String)
        ensures
            r@ == self@.text(),
    {
        match self {
            WorkloadError::AddressParse(s) => {
                let mut r = "failed to parse address: ".to_owned();
                r.append(s.as_str());
                r
            },
            WorkloadError::ByteAddressParse(n) => {
                let mut r = "failed to parse address, had ".to_owned();
                r.append(format_number(*n).as_str());
                r.append(" bytes");
                r
            },
            WorkloadError::PrefixParse(n) => {
                let mut r = "invalid cidr: ".to_owned();
                r.append(format_number(*n as usize).as_str());
                r
            },
            WorkloadError::EnumParse(s) => {
                let mut r = "unknown enum: ".to_owned();
                r.append(s.as_str());
                r
            },
            WorkloadError::MissingGatewayAddress => {
                "nonempty gateway address is missing address".to_owned()
            },
        }
    }
}

impl WaypointError {
    /// The error in words.
    pub fn to_string(&self) -> (r: String)
        ensures
            match self {
                WaypointError::FindWaypointError(s) => r@
                    == "failed to find waypoint for workload: "@ + s@,
                WaypointError::UnsupportedFeature(s) => r@ == "unsupported feature: "@ + s@,
            },
    {
        match self {
            WaypointError::FindWaypointError(s) => {
                let mut r = "failed to find waypoint for workload: ".to_owned();
                r.append(s.as_str());
                r
            },
            WaypointError::UnsupportedFeature(s) => {
                let mut r = "unsupported feature: ".to_owned();
                r.append(s.as_str());
                r
            },
        }
    }
}

/// An address with its network that is written and read back is the
/// same, where the name of the network holds no `/`.
pub proof fn law_network_address_round_trip(a: NetworkAddressView)
    requires
        forall|j: int| 0 <= j < a.network.len() ==> a.network[j] != '/',
    ensures
        NetworkAddressView::of_text(a.text()) == Some(a),
{
    lemma_first_slash(a.network, ip_text(a.address));
    law_ip_round_trip(a.address);
}

/// An identity that is written and read back is the same, where none of
/// its three parts holds a `/`.
pub proof fn law_identity_round_trip(i: IdentityView)
    requires
        forall|j: int| 0 <= j < i.trust_domain.len() ==> i.trust_domain[j] != '/',
        forall|j: int| 0 <= j < i.namespace.len() ==> i.namespace[j] != '/',
        forall|j: int| 0 <= j < i.service_account.len() ==> i.service_account[j] != '/',
    ensures
        IdentityView::of_text(i.text()) == Some(i),
{
    reveal_strlit("spiffe://");
    reveal_strlit("/ns/");
    reveal_strlit("/sa/");
    reveal_strlit("ns");
    reveal_strlit("sa");
    let text = i.text();
    let ns = "ns"@;
    let sa = "sa"@;
    let r4 = i.service_account;
    let r3 = sa + seq!['/'] + r4;
    let r2 = i.namespace + seq!['/'] + r3;
    let r1 = ns + seq!['/'] + r2;
    let r0 = i.trust_domain + seq!['/'] + r1;
    assert(text.take(9) =~= "spiffe://"@);
    assert(text.skip(9) =~= r0);
    lemma_split_last(r4, '/');
    lemma_split_first(sa, '/', r4);
    lemma_split_first(i.namespace, '/', r3);
    lemma_split_first(ns, '/', r2);
    lemma_split_first(i.trust_domain, '/', r1);
    let f = split(r0, '/');
    assert(f =~= seq![i.trust_domain, ns, i.namespace, sa, i.service_account]);
}

} // verus!
