//! Authorization policies and the connections they are judged against.

use crate::identity::{identity_opt, Identity, IdentityView};
use crate::ip::{IpAddr, SocketAddr};
use crate::table::Record;
use crate::text::{chars_of, string_of};
use vstd::prelude::*;

verus! {

/// Which workloads a policy selects.
#[derive(Debug, Clone, Copy, PartialEq, Eq, Hash, Structural)]
pub enum RbacScope {
    /// Every workload of the mesh.
    Global,
    /// Every workload of the policy's namespace.
    Namespace,
    /// The workloads that name the policy.
    WorkloadSelector,
}

/// What a policy does with a connection that its rules match.
#[derive(Debug, Clone, Copy, PartialEq, Eq, Hash, Structural)]
pub enum RbacAction {
    Allow,
    Deny,
}

/// A test on a string.
#[derive(Debug, Clone, PartialEq, Eq, Hash)]
pub enum StringMatch {
    Prefix(String),
    Suffix(String),
    Exact(String),
    /// Any string but the empty one.
    Presence,
}

/// What a `StringMatch` stands for.
pub enum StringMatchView {
    Prefix(Seq<char>),
    Suffix(Seq<char>),
    Exact(Seq<char>),
    Presence,
}

impl View for StringMatch {
    type V = StringMatchView;

    open spec fn view(&self) -> StringMatchView {
        match self {
            StringMatch::Prefix(p) => StringMatchView::Prefix(p@),
            StringMatch::Suffix(p) => StringMatchView::Suffix(p@),
            StringMatch::Exact(p) => StringMatchView::Exact(p@),
            StringMatch::Presence => StringMatchView::Presence,
        }
    }
}

/// Whether `p` is what `s` begins with.
pub open spec fn begins_with(s: Seq<char>, p: Seq<char>) -> bool {
    p.len() <= s.len() && s.take(p.len() as int) == p
}

/// Whether `p` is what `s` ends with.
pub open spec fn ends_with(s: Seq<char>, p: Seq<char>) -> bool {
    p.len() <= s.len() && s.skip(s.len() - p.len()) == p
}

impl StringMatchView {
    /// Whether the string passes the test.
    pub open spec fn accepts(self, s: Seq<char>) -> bool {
        match self {
            StringMatchView::Prefix(p) => begins_with(s, p),
            StringMatchView::Suffix(p) => ends_with(s, p),
            StringMatchView::Exact(p) => s == p,
            StringMatchView::Presence => s.len() > 0,
        }
    }
}

/// Whether `s`, read from position `at`, goes on with all of `p`.
fn holds_at(s: &Vec<char>, at: usize, p: &Vec<char>) -> (r: bool)
    requires
        at + p@.len() <= s@.len(),
    ensures
        r == (s@.subrange(at as int, at + p@.len()) == p@),
{
    let n = s.len();
    let mut i: usize = 0;
    while i < p.len()
        invariant
            i <= p@.len(),
            n == s@.len(),
            at + p@.len() <= n,
            forall|j: int| 0 <= j < i ==> s@[at + j] == p@[j],
        decreases p@.len() - i,
    {
        if s[at + i] != p[i] {
            proof {
                assert(s@.subrange(at as int, at + p@.len())[i as int] == s@[at + i]);
            }
            return false;
        }
        i += 1;
    }
    assert(s@.subrange(at as int, at + p@.len()) =~= p@);
    true
}

impl StringMatch {
    /// Whether the string passes the test.
    pub fn matches(&self, s: &str) -> (r: bool)
        ensures
            r == self@.accepts(s@),
    {
        let sv = chars_of(s);
        match self {
            StringMatch::Prefix(p) => {
                let pv = chars_of(p.as_str());
                if pv.len() > sv.len() {
                    false
                } else {
                    let r = holds_at(&sv, 0, &pv);
                    assert(sv@.subrange(0, 0 + pv@.len() as int) =~= sv@.take(pv@.len() as int));
                    r
                }
            },
            StringMatch::Suffix(p) => {
                let pv = chars_of(p.as_str());
                if pv.len() > sv.len() {
                    false
                } else {
                    let at = sv.len() - pv.len();
                    let r = holds_at(&sv, at, &pv);
                    assert(sv@.subrange(at as int, at + pv@.len()) =~= sv@.skip(
                        sv@.len() - pv@.len(),
                    ));
                    r
                }
            },
            StringMatch::Exact(p) => {
                let pv = chars_of(p.as_str());
                if pv.len() != sv.len() {
                    false
                } else {
                    let r = holds_at(&sv, 0, &pv);
                    assert(sv@.subrange(0, 0 + pv@.len() as int) =~= sv@);
                    r
                }
            },
            StringMatch::Presence => sv.len() > 0,
        }
    }

    fn duplicate(&self) -> (r: Self)
        ensures
            r@ == self@,
    {
        match self {
            StringMatch::Prefix(p) => StringMatch::Prefix(p.clone()),
            StringMatch::Suffix(p) => StringMatch::Suffix(p.clone()),
            StringMatch::Exact(p) => StringMatch::Exact(p.clone()),
            StringMatch::Presence => StringMatch::Presence,
        }
    }
}

/// The text that principal tests are applied to:
/// `<trust domain>/ns/<namespace>/sa/<service account>`.
pub open spec fn principal_text(i: IdentityView) -> Seq<char> {
    i.trust_domain + "/ns/"@ + i.namespace + "/sa/"@ + i.service_account
}

/// The text that principal tests are applied to.
pub fn principal_of(i: &Identity) -> (r: String)
    ensures
        r@ == principal_text(i@),
{
    match i {
        Identity::Spiffe { trust_domain, namespace, service_account } => {
            let mut r = trust_domain.clone();
            r.append("/ns/");
            r.append(namespace.as_str());
            r.append("/sa/");
            r.append(service_account.as_str());
            r
        },
    }
}

/// A range of addresses: those that agree with `addr` in their first
/// `prefix_len` bits.
#[derive(Debug, Clone, Copy, PartialEq, Eq, Hash, Structural)]
pub struct IpNet {
    pub addr: IpAddr,
    pub prefix_len: u8,
}

/// The number that the first `bits` bits of an octet make, for `bits` up to 8.
pub open spec fn top_bits(o: u8, bits: int) -> u8 {
    if bits <= 0 {
        0
    } else if bits == 1 {
        o / 128
    } else if bits == 2 {
        o / 64
    } else if bits == 3 {
        o / 32
    } else if bits == 4 {
        o / 16
    } else if bits == 5 {
        o / 8
    } else if bits == 6 {
        o / 4
    } else if bits == 7 {
        o / 2
    } else {
        o
    }
}

/// Whether two runs of octets of one length agree in their first `bits` bits.
pub open spec fn same_prefix(a: Seq<u8>, b: Seq<u8>, bits: int) -> bool {
    &&& a.len() == b.len()
    &&& bits <= 8 * a.len()
    &&& forall|i: int| 0 <= i < a.len() ==> top_bits(a[i], bits - 8 * i) == top_bits(b[i], bits - 8 * i)
}

impl IpNet {
    /// Whether `ip` lies in the range: it is of the same family and
    /// agrees with the range's address in the first `prefix_len` bits. A
    /// range whose prefix is longer than its family's addresses holds nothing.
    pub open spec fn spec_contains(self, ip: IpAddr) -> bool {
        same_prefix(self.addr.spec_octets(), ip.spec_octets(), self.prefix_len as int)
    }

    /// Whether `ip` lies in the range.
    #[verifier::when_used_as_spec(spec_contains)]
    pub fn contains(self, ip: IpAddr) -> (r: bool)
        ensures
            r == self.spec_contains(ip),
    {
        let a = self.addr.octets();
        let b = ip.octets();
        if a.len() != b.len() {
            return false;
        }
        let n = a.len();
        assert(n == 4 || n == 16);
        if self.prefix_len as usize > 8 * n {
            return false;
        }
        let bits = self.prefix_len as usize;
        let mut i: usize = 0;
        while i < n
            invariant
                i <= n,
                n == a@.len(),
                n == b@.len(),
                n <= 16,
                bits <= 8 * n,
                bits == self.prefix_len,
                a@ == self.addr.spec_octets(),
                b@ == ip.spec_octets(),
                forall|j: int| 0 <= j < i ==> top_bits(a@[j], bits - 8 * j) == top_bits(b@[j], bits - 8 * j),
            decreases n - i,
        {
            let x = a[i];
            let y = b[i];
            let rest: usize = if bits > 8 * i {
                bits - 8 * i
            } else {
                0
            };
            let same = if rest == 0 {
                true
            } else if rest == 1 {
                x / 128 == y / 128
            } else if rest == 2 {
                x / 64 == y / 64
            } else if rest == 3 {
                x / 32 == y / 32
            } else if rest == 4 {
                x / 16 == y / 16
            } else if rest == 5 {
                x / 8 == y / 8
            } else if rest == 6 {
                x / 4 == y / 4
            } else if rest == 7 {
                x / 2 == y / 2
            } else {
                x == y
            };
            if !same {
                assert(top_bits(a@[i as int], bits - 8 * i) != top_bits(b@[i as int], bits - 8 * i));
                return false;
            }
            i += 1;
        }
        true
    }
}

/// One alternative of a rule: tests on the peer and on the destination.
/// An empty list tests nothing.
#[derive(Debug, Clone, PartialEq, Eq, Hash)]
pub struct RbacMatch {
    pub namespaces: Vec<StringMatch>,
    pub not_namespaces: Vec<StringMatch>,
    pub principals: Vec<StringMatch>,
    pub not_principals: Vec<StringMatch>,
    pub source_ips: Vec<IpNet>,
    pub not_source_ips: Vec<IpNet>,
    pub destination_ips: Vec<IpNet>,
    pub not_destination_ips: Vec<IpNet>,
    pub destination_ports: Vec<u16>,
    pub not_destination_ports: Vec<u16>,
}

/// The views of a list of string tests.
pub open spec fn tests_view(v: Seq<StringMatch>) -> Seq<StringMatchView> {
    Seq::new(v.len(), |i: int| v[i]@)
}

/// What an `RbacMatch` stands for.
pub struct RbacMatchView {
    pub namespaces: Seq<StringMatchView>,
    pub not_namespaces: Seq<StringMatchView>,
    pub principals: Seq<StringMatchView>,
    pub not_principals: Seq<StringMatchView>,
    pub source_ips: Seq<IpNet>,
    pub not_source_ips: Seq<IpNet>,
    pub destination_ips: Seq<IpNet>,
    pub not_destination_ips: Seq<IpNet>,
    pub destination_ports: Seq<u16>,
    pub not_destination_ports: Seq<u16>,
}

impl View for RbacMatch {
    type V = RbacMatchView;

    open spec fn view(&self) -> RbacMatchView {
        RbacMatchView {
            namespaces: tests_view(self.namespaces@),
            not_namespaces: tests_view(self.not_namespaces@),
            principals: tests_view(self.principals@),
            not_principals: tests_view(self.not_principals@),
            source_ips: self.source_ips@,
            not_source_ips: self.not_source_ips@,
            destination_ips: self.destination_ips@,
            not_destination_ips: self.not_destination_ips@,
            destination_ports: self.destination_ports@,
            not_destination_ports: self.not_destination_ports@,
        }
    }
}

/// The tuple that a policy is judged against.
#[derive(Debug, Clone, PartialEq, Eq)]
pub struct Connection {
    /// The peer's identity from its certificate; none where it showed none.
    pub src_identity: Option<Identity>,
    pub src_ip: IpAddr,
    pub dst_network: String,
    pub dst: SocketAddr,
}

/// What a `Connection` stands for.
pub struct ConnectionView {
    pub src_identity: Option<IdentityView>,
    pub src_ip: IpAddr,
    pub dst_network: Seq<char>,
    pub dst: SocketAddr,
}

impl View for Connection {
    type V = ConnectionView;

    open spec fn view(&self) -> ConnectionView {
        ConnectionView {
            src_identity: identity_opt(self.src_identity),
            src_ip: self.src_ip,
            dst_network: self.dst_network@,
            dst: self.dst,
        }
    }
}

/// Whether some test of the list accepts the string.
pub open spec fn some_accepts(tests: Seq<StringMatchView>, s: Seq<char>) -> bool {
    exists|i: int| 0 <= i < tests.len() && (#[trigger] tests[i]).accepts(s)
}

/// Whether some range of the list holds the address.
pub open spec fn some_contains(nets: Seq<IpNet>, ip: IpAddr) -> bool {
    exists|i: int| 0 <= i < nets.len() && (#[trigger] nets[i]).spec_contains(ip)
}

/// One field of an alternative: with no wanted items anything passes that
/// is not unwanted; else the value must be wanted and not unwanted.
pub open spec fn field_passes(wanted_len: nat, wanted: bool, unwanted: bool) -> bool {
    (wanted_len == 0 || wanted) && !unwanted
}

impl RbacMatchView {
    /// Whether the destination port passes the tests on it.
    pub open spec fn ports_pass(self, c: ConnectionView) -> bool {
        field_passes(
            self.destination_ports.len(),
            self.destination_ports.contains(c.dst.port),
            self.not_destination_ports.contains(c.dst.port),
        )
    }

    /// Whether the destination address passes the tests on it.
    pub open spec fn destinations_pass(self, c: ConnectionView) -> bool {
        field_passes(
            self.destination_ips.len(),
            some_contains(self.destination_ips, c.dst.ip),
            some_contains(self.not_destination_ips, c.dst.ip),
        )
    }

    /// Whether the source address passes the tests on it.
    pub open spec fn sources_pass(self, c: ConnectionView) -> bool {
        field_passes(
            self.source_ips.len(),
            some_contains(self.source_ips, c.src_ip),
            some_contains(self.not_source_ips, c.src_ip),
        )
    }

    /// A test on the peer's principal fails where the peer showed no identity.
    pub open spec fn principals_pass(self, c: ConnectionView) -> bool {
        field_passes(
            self.principals.len(),
            c.src_identity is Some && some_accepts(
                self.principals,
                principal_text(c.src_identity->0),
            ),
            c.src_identity is Some && some_accepts(
                self.not_principals,
                principal_text(c.src_identity->0),
            ),
        )
    }

    /// A test on the peer's namespace fails where the peer showed no identity.
    pub open spec fn namespaces_pass(self, c: ConnectionView) -> bool {
        field_passes(
            self.namespaces.len(),
            c.src_identity is Some && some_accepts(self.namespaces, c.src_identity->0.namespace),
            c.src_identity is Some && some_accepts(
                self.not_namespaces,
                c.src_identity->0.namespace,
            ),
        )
    }

    /// An alternative matches where each of its fields passes.
    pub open spec fn matches(self, c: ConnectionView) -> bool {
        &&& self.ports_pass(c)
        &&& self.destinations_pass(c)
        &&& self.sources_pass(c)
        &&& self.principals_pass(c)
        &&& self.namespaces_pass(c)
    }
}

fn any_accepts(tests: &Vec<StringMatch>, s: &str) -> (r: bool)
    ensures
        r == some_accepts(tests_view(tests@), s@),
{
    let mut i: usize = 0;
    while i < tests.len()
        invariant
            i <= tests@.len(),
            forall|j: int| 0 <= j < i ==> !(#[trigger] tests_view(tests@)[j]).accepts(s@),
        decreases tests@.len() - i,
    {
        if tests[i].matches(s) {
            assert(tests_view(tests@)[i as int].accepts(s@));
            return true;
        }
        i += 1;
    }
    false
}

fn any_contains(nets: &Vec<IpNet>, ip: IpAddr) -> (r: bool)
    ensures
        r == some_contains(nets@, ip),
{
    let mut i: usize = 0;
    while i < nets.len()
        invariant
            i <= nets@.len(),
            forall|j: int| 0 <= j < i ==> !(#[trigger] nets@[j]).spec_contains(ip),
        decreases nets@.len() - i,
    {
        if nets[i].contains(ip) {
            return true;
        }
        i += 1;
    }
    false
}

fn any_port(ports: &Vec<u16>, port: u16) -> (r: bool)
    ensures
        r == ports@.contains(port),
{
    let mut i: usize = 0;
    while i < ports.len()
        invariant
            i <= ports@.len(),
            forall|j: int| 0 <= j < i ==> ports@[j] != port,
        decreases ports@.len() - i,
    {
        if ports[i] == port {
            return true;
        }
        i += 1;
    }
    false
}

fn duplicate_tests(v: &Vec<StringMatch>) -> (r: Vec<StringMatch>)
    ensures
        tests_view(r@) == tests_view(v@),
{
    let mut r: Vec<StringMatch> = Vec::new();
    let mut i: usize = 0;
    while i < v.len()
        invariant
            i <= v@.len(),
            r@.len() == i,
            forall|j: int| 0 <= j < i ==> r@[j]@ == v@[j]@,
        decreases v@.len() - i,
    {
        r.push(v[i].duplicate());
        i += 1;
    }
    assert(tests_view(r@) =~= tests_view(v@));
    r
}

fn duplicate_nets(v: &Vec<IpNet>) -> (r: Vec<IpNet>)
    ensures
        r@ == v@,
{
    let mut r: Vec<IpNet> = Vec::new();
    let mut i: usize = 0;
    while i < v.len()
        invariant
            i <= v@.len(),
            r@.len() == i,
            forall|j: int| 0 <= j < i ==> r@[j] == v@[j],
        decreases v@.len() - i,
    {
        r.push(v[i]);
        i += 1;
    }
    assert(r@ =~= v@);
    r
}

fn duplicate_ports(v: &Vec<u16>) -> (r: Vec<u16>)
    ensures
        r@ == v@,
{
    let mut r: Vec<u16> = Vec::new();
    let mut i: usize = 0;
    while i < v.len()
        invariant
            i <= v@.len(),
            r@.len() == i,
            forall|j: int| 0 <= j < i ==> r@[j] == v@[j],
        decreases v@.len() - i,
    {
        r.push(v[i]);
        i += 1;
    }
    assert(r@ =~= v@);
    r
}

impl RbacMatch {
    /// Whether the connection passes every field of this alternative.
    pub fn matches(&self, conn: &Connection) -> (r: bool)
        ensures
            r == self@.matches(conn@),
    {
        let ports = (self.destination_ports.len() == 0 || any_port(
            &self.destination_ports,
            conn.dst.port,
        )) && !any_port(&self.not_destination_ports, conn.dst.port);
        if !ports {
            return false;
        }
        let destinations = (self.destination_ips.len() == 0 || any_contains(
            &self.destination_ips,
            conn.dst.ip,
        )) && !any_contains(&self.not_destination_ips, conn.dst.ip);
        if !destinations {
            return false;
        }
        let sources = (self.source_ips.len() == 0 || any_contains(&self.source_ips, conn.src_ip))
            && !any_contains(&self.not_source_ips, conn.src_ip);
        if !sources {
            return false;
        }
        match &conn.src_identity {
            Some(id) => {
                let principal = principal_of(id);
                let principals = (self.principals.len() == 0 || any_accepts(
                    &self.principals,
                    principal.as_str(),
                )) && !any_accepts(&self.not_principals, principal.as_str());
                if !principals {
                    return false;
                }
                match id {
                    Identity::Spiffe { namespace, .. } => {
                        (self.namespaces.len() == 0 || any_accepts(
                            &self.namespaces,
                            namespace.as_str(),
                        )) && !any_accepts(&self.not_namespaces, namespace.as_str())
                    },
                }
            },
            None => self.principals.len() == 0 && self.namespaces.len() == 0,
        }
    }

    fn duplicate(&self) -> (r: Self)
        ensures
            r@ == self@,
    {
        RbacMatch {
            namespaces: duplicate_tests(&self.namespaces),
            not_namespaces: duplicate_tests(&self.not_namespaces),
            principals: duplicate_tests(&self.principals),
            not_principals: duplicate_tests(&self.not_principals),
            source_ips: duplicate_nets(&self.source_ips),
            not_source_ips: duplicate_nets(&self.not_source_ips),
            destination_ips: duplicate_nets(&self.destination_ips),
            not_destination_ips: duplicate_nets(&self.not_destination_ips),
            destination_ports: duplicate_ports(&self.destination_ports),
            not_destination_ports: duplicate_ports(&self.not_destination_ports),
        }
    }
}

/// The views of the alternatives of a clause.
pub open spec fn clause_view(v: Seq<RbacMatch>) -> Seq<RbacMatchView> {
    Seq::new(v.len(), |i: int| v[i]@)
}

/// The views of the clauses of a rule.
pub open spec fn rule_view(v: Seq<Vec<RbacMatch>>) -> Seq<Seq<RbacMatchView>> {
    Seq::new(v.len(), |i: int| clause_view(v[i]@))
}

/// The views of the rules of a policy.
pub open spec fn rules_view(v: Seq<Vec<Vec<RbacMatch>>>) -> Seq<Seq<Seq<RbacMatchView>>> {
    Seq::new(v.len(), |i: int| rule_view(v[i]@))
}

/// A clause matches where one of its alternatives does.
pub open spec fn clause_matches(clause: Seq<RbacMatchView>, c: ConnectionView) -> bool {
    exists|i: int| 0 <= i < clause.len() && (#[trigger] clause[i]).matches(c)
}

/// A rule matches where each of its clauses does.
pub open spec fn rule_matches(rule: Seq<Seq<RbacMatchView>>, c: ConnectionView) -> bool {
    forall|i: int| 0 <= i < rule.len() ==> clause_matches(#[trigger] rule[i], c)
}

/// An authorization policy: a named set of rules with an action.
#[derive(Debug, Clone, PartialEq, Eq, Hash)]
pub struct Authorization {
    pub name: String,
    pub namespace: String,
    pub scope: RbacScope,
    pub action: RbacAction,
    /// The rules: a policy matches where one rule does, a rule where
    /// each of its clauses does, a clause where one alternative does.
    pub rules: Vec<Vec<Vec<RbacMatch>>>,
}

/// What an `Authorization` stands for.
pub struct AuthorizationView {
    pub name: Seq<char>,
    pub namespace: Seq<char>,
    pub scope: RbacScope,
    pub action: RbacAction,
    pub rules: Seq<Seq<Seq<RbacMatchView>>>,
}

impl View for Authorization {
    type V = AuthorizationView;

    open spec fn view(&self) -> AuthorizationView {
        AuthorizationView {
            name: self.name@,
            namespace: self.namespace@,
            scope: self.scope,
            action: self.action,
            rules: rules_view(self.rules@),
        }
    }
}

impl AuthorizationView {
    /// The key that the policy is stored under: `namespace/name`.
    pub open spec fn key(self) -> Seq<char> {
        self.namespace + seq!['/'] + self.name
    }

    /// The key of the list that the policy is filed in: the empty string
    /// for a global policy, its namespace for a namespace policy, none for
    /// a policy that workloads select by name.
    pub open spec fn scope_key(self) -> Option<Seq<char>> {
        match self.scope {
            RbacScope::Global => Some(Seq::<char>::empty()),
            RbacScope::Namespace => Some(self.namespace),
            RbacScope::WorkloadSelector => None,
        }
    }

    /// A policy without rules matches every connection; else it matches
    /// where one of its rules does.
    pub open spec fn matches(self, c: ConnectionView) -> bool {
        self.rules.len() == 0 || exists|i: int|
            0 <= i < self.rules.len() && rule_matches(#[trigger] self.rules[i], c)
    }
}

fn clause_holds(clause: &Vec<RbacMatch>, conn: &Connection) -> (r: bool)
    ensures
        r == clause_matches(clause_view(clause@), conn@),
{
    let mut i: usize = 0;
    while i < clause.len()
        invariant
            i <= clause@.len(),
            forall|j: int| 0 <= j < i ==> !(#[trigger] clause_view(clause@)[j]).matches(conn@),
        decreases clause@.len() - i,
    {
        if clause[i].matches(conn) {
            assert(clause_view(clause@)[i as int].matches(conn@));
            return true;
        }
        i += 1;
    }
    false
}

fn rule_holds(rule: &Vec<Vec<RbacMatch>>, conn: &Connection) -> (r: bool)
    ensures
        r == rule_matches(rule_view(rule@), conn@),
{
    let mut i: usize = 0;
    while i < rule.len()
        invariant
            i <= rule@.len(),
            forall|j: int| 0 <= j < i ==> clause_matches(#[trigger] rule_view(rule@)[j], conn@),
        decreases rule@.len() - i,
    {
        if !clause_holds(&rule[i], conn) {
            assert(!clause_matches(rule_view(rule@)[i as int], conn@));
            return false;
        }
        i += 1;
    }
    true
}

fn duplicate_rules(v: &Vec<Vec<Vec<RbacMatch>>>) -> (r: Vec<Vec<Vec<RbacMatch>>>)
    ensures
        rules_view(r@) == rules_view(v@),
{
    let mut r: Vec<Vec<Vec<RbacMatch>>> = Vec::new();
    let mut i: usize = 0;
    while i < v.len()
        invariant
            i <= v@.len(),
            r@.len() == i,
            forall|j: int| 0 <= j < i ==> rule_view(r@[j]@) == rule_view(v@[j]@),
        decreases v@.len() - i,
    {
        let rule = &v[i];
        let mut rr: Vec<Vec<RbacMatch>> = Vec::new();
        let mut a: usize = 0;
        while a < rule.len()
            invariant
                a <= rule@.len(),
                rr@.len() == a,
                forall|j: int| 0 <= j < a ==> clause_view(rr@[j]@) == clause_view(rule@[j]@),
            decreases rule@.len() - a,
        {
            let clause = &rule[a];
            let mut cc: Vec<RbacMatch> = Vec::new();
            let mut b: usize = 0;
            while b < clause.len()
                invariant
                    b <= clause@.len(),
                    cc@.len() == b,
                    forall|j: int| 0 <= j < b ==> cc@[j]@ == clause@[j]@,
                decreases clause@.len() - b,
            {
                cc.push(clause[b].duplicate());
                b += 1;
            }
            assert(clause_view(cc@) =~= clause_view(clause@));
            rr.push(cc);
            a += 1;
        }
        assert(rule_view(rr@) =~= rule_view(rule@));
        r.push(rr);
        i += 1;
    }
    assert(rules_view(r@) =~= rules_view(v@));
    r
}

impl Authorization {
    /// The key that the policy is stored under: `namespace/name`.
    pub fn to_key(&self) -> (r: String)
        ensures
            r@ == self@.key(),
    {
        let mut v = chars_of(self.namespace.as_str());
        v.push('/');
        let mut name = chars_of(self.name.as_str());
        v.append(&mut name);
        string_of(&v)
    }

    /// Whether the policy's rules match the connection.
    pub fn matches(&self, conn: &Connection) -> (r: bool)
        ensures
            r == self@.matches(conn@),
    {
        if self.rules.len() == 0 {
            return true;
        }
        let mut i: usize = 0;
        while i < self.rules.len()
            invariant
                i <= self.rules@.len(),
                forall|j: int| 0 <= j < i ==> !rule_matches(#[trigger] self@.rules[j], conn@),
            decreases self.rules@.len() - i,
        {
            if rule_holds(&self.rules[i], conn) {
                assert(rule_matches(self@.rules[i as int], conn@));
                return true;
            }
            i += 1;
        }
        false
    }
}

impl Record for Authorization {
    fn duplicate(&self) -> (r: Self) {
        Authorization {
            name: self.name.clone(),
            namespace: self.namespace.clone(),
            scope: self.scope,
            action: self.action,
            rules: duplicate_rules(&self.rules),
        }
    }
}

} // verus!
