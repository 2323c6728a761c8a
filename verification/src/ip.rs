//! IP addresses and socket addresses as plain values.
//!
//! An IPv4 address is its four octets, an IPv6 address its eight 16-bit
//! segments, both in network order. Equality of addresses is equality of
//! these numbers.

use vstd::prelude::*;

verus! {

/// An IPv4 address: its four octets, first one first.
#[derive(Debug, Clone, Copy, PartialEq, Eq, Hash, Structural)]
pub struct Ipv4Addr {
    pub a: u8,
    pub b: u8,
    pub c: u8,
    pub d: u8,
}

/// An IPv6 address: its eight segments, first one first.
#[derive(Debug, Clone, Copy, PartialEq, Eq, Hash, Structural)]
pub struct Ipv6Addr {
    pub s0: u16,
    pub s1: u16,
    pub s2: u16,
    pub s3: u16,
    pub s4: u16,
    pub s5: u16,
    pub s6: u16,
    pub s7: u16,
}

/// An IP address of either family.
#[derive(Debug, Clone, Copy, PartialEq, Eq, Hash, Structural)]
pub enum IpAddr {
    V4(Ipv4Addr),
    V6(Ipv6Addr),
}

/// An IP address with a port.
#[derive(Debug, Clone, Copy, PartialEq, Eq, Hash, Structural)]
pub struct SocketAddr {
    pub ip: IpAddr,
    pub port: u16,
}

/// The high octet of a segment.
pub open spec fn high(s: u16) -> u8 {
    (s / 256) as u8
}

/// The low octet of a segment.
pub open spec fn low(s: u16) -> u8 {
    (s % 256) as u8
}

/// The segment made of two octets.
pub open spec fn join(hi: u8, lo: u8) -> u16 {
    (hi * 256 + lo) as u16
}

impl Ipv4Addr {
    /// The octets of the address in network order.
    pub open spec fn spec_octets(self) -> Seq<u8> {
        seq![self.a, self.b, self.c, self.d]
    }

    /// The address `a.b.c.d`.
    pub fn new(a: u8, b: u8, c: u8, d: u8) -> (r: Self)
        ensures
            r == (Ipv4Addr { a, b, c, d }),
    {
        Ipv4Addr { a, b, c, d }
    }

    /// The four octets, first one first.
    pub fn octets(self) -> (r: Vec<u8>)
        ensures
            r@ == self.spec_octets(),
    {
        let mut r: Vec<u8> = Vec::new();
        r.push(self.a);
        r.push(self.b);
        r.push(self.c);
        r.push(self.d);
        assert(r@ =~= self.spec_octets());
        r
    }

    /// Whether every bit of the address is zero.
    pub open spec fn spec_is_unspecified(self) -> bool {
        self.a == 0 && self.b == 0 && self.c == 0 && self.d == 0
    }

    /// Whether this is `0.0.0.0`.
    #[verifier::when_used_as_spec(spec_is_unspecified)]
    pub fn is_unspecified(self) -> (r: bool)
        ensures
            r == self.spec_is_unspecified(),
    {
        self.a == 0 && self.b == 0 && self.c == 0 && self.d == 0
    }
}

impl Ipv6Addr {
    /// The eight segments, first one first.
    pub open spec fn spec_segments(self) -> Seq<u16> {
        seq![self.s0, self.s1, self.s2, self.s3, self.s4, self.s5, self.s6, self.s7]
    }

    /// The octets of the address in network order.
    pub open spec fn spec_octets(self) -> Seq<u8> {
        seq![
            high(self.s0),
            low(self.s0),
            high(self.s1),
            low(self.s1),
            high(self.s2),
            low(self.s2),
            high(self.s3),
            low(self.s3),
            high(self.s4),
            low(self.s4),
            high(self.s5),
            low(self.s5),
            high(self.s6),
            low(self.s6),
            high(self.s7),
            low(self.s7),
        ]
    }

    /// The address with the given segments.
    pub fn new(s0: u16, s1: u16, s2: u16, s3: u16, s4: u16, s5: u16, s6: u16, s7: u16) -> (r:
        Self)
        ensures
            r == (Ipv6Addr { s0, s1, s2, s3, s4, s5, s6, s7 }),
    {
        Ipv6Addr { s0, s1, s2, s3, s4, s5, s6, s7 }
    }

    /// The eight segments, first one first.
    pub fn segments(self) -> (r: Vec<u16>)
        ensures
            r@ == self.spec_segments(),
    {
        let mut r: Vec<u16> = Vec::new();
        r.push(self.s0);
        r.push(self.s1);
        r.push(self.s2);
        r.push(self.s3);
        r.push(self.s4);
        r.push(self.s5);
        r.push(self.s6);
        r.push(self.s7);
        assert(r@ =~= self.spec_segments());
        r
    }

    /// The address whose segments are the first eight items of `v`.
    pub(crate) fn from_segments(v: &Vec<u16>) -> (r: Self)
        requires
            v@.len() == 8,
        ensures
            r.spec_segments() == v@,
    {
        let r = Ipv6Addr {
            s0: v[0],
            s1: v[1],
            s2: v[2],
            s3: v[3],
            s4: v[4],
            s5: v[5],
            s6: v[6],
            s7: v[7],
        };
        assert(r.spec_segments() =~= v@);
        r
    }

    /// The sixteen octets, first one first.
    pub fn octets(self) -> (r: Vec<u8>)
        ensures
            r@ == self.spec_octets(),
    {
        let segs = self.segments();
        let mut r: Vec<u8> = Vec::new();
        let mut i: usize = 0;
        while i < 8
            invariant
                i <= 8,
                segs@ == self.spec_segments(),
                r@.len() == 2 * i,
                forall|j: int| 0 <= j < i ==> r@[2 * j] == high(segs@[j]) && r@[2 * j + 1] == low(segs@[j]),
            decreases 8 - i,
        {
            let s = segs[i];
            r.push((s / 256) as u8);
            r.push((s % 256) as u8);
            i += 1;
        }
        proof {
            let o = self.spec_octets();
            assert forall|k: int| 0 <= k < 16 implies r@[k] == o[k] by {
                let j = k / 2;
                assert(0 <= j < 8);
                assert(k == 2 * j || k == 2 * j + 1);
            }
            assert(r@ =~= o);
        }
        r
    }

    /// Whether every bit of the address is zero.
    pub open spec fn spec_is_unspecified(self) -> bool {
        self.spec_segments() == seq![0u16, 0u16, 0u16, 0u16, 0u16, 0u16, 0u16, 0u16]
    }

    /// Whether this is `::`.
    #[verifier::when_used_as_spec(spec_is_unspecified)]
    pub fn is_unspecified(self) -> (r: bool)
        ensures
            r == self.spec_is_unspecified(),
    {
        let r = self.s0 == 0 && self.s1 == 0 && self.s2 == 0 && self.s3 == 0 && self.s4 == 0
            && self.s5 == 0 && self.s6 == 0 && self.s7 == 0;
        proof {
            let z = seq![0u16, 0u16, 0u16, 0u16, 0u16, 0u16, 0u16, 0u16];
            if r {
                assert(self.spec_segments() =~= z);
            } else {
                assert(self.spec_segments()[0] == self.s0);
                assert(self.spec_segments()[1] == self.s1);
                assert(self.spec_segments()[2] == self.s2);
                assert(self.spec_segments()[3] == self.s3);
                assert(self.spec_segments()[4] == self.s4);
                assert(self.spec_segments()[5] == self.s5);
                assert(self.spec_segments()[6] == self.s6);
                assert(self.spec_segments()[7] == self.s7);
                assert(z[0] == 0 && z[1] == 0 && z[2] == 0 && z[3] == 0 && z[4] == 0 && z[5] == 0
                    && z[6] == 0 && z[7] == 0);
            }
        }
        r
    }
}

/// The address that a run of octets stands for: four octets are an IPv4
/// address, sixteen an IPv6 address, and no other length is an address.
pub open spec fn ip_of_octets(o: Seq<u8>) -> Option<IpAddr> {
    if o.len() == 4 {
        Some(IpAddr::V4(Ipv4Addr { a: o[0], b: o[1], c: o[2], d: o[3] }))
    } else if o.len() == 16 {
        Some(
            IpAddr::V6(
                Ipv6Addr {
                    s0: join(o[0], o[1]),
                    s1: join(o[2], o[3]),
                    s2: join(o[4], o[5]),
                    s3: join(o[6], o[7]),
                    s4: join(o[8], o[9]),
                    s5: join(o[10], o[11]),
                    s6: join(o[12], o[13]),
                    s7: join(o[14], o[15]),
                },
            ),
        )
    } else {
        None
    }
}

impl IpAddr {
    /// The octets of the address in network order.
    pub open spec fn spec_octets(self) -> Seq<u8> {
        match self {
            IpAddr::V4(a) => a.spec_octets(),
            IpAddr::V6(a) => a.spec_octets(),
        }
    }

    /// The octets of the address in network order: four or sixteen.
    pub fn octets(self) -> (r: Vec<u8>)
        ensures
            r@ == self.spec_octets(),
    {
        match self {
            IpAddr::V4(a) => a.octets(),
            IpAddr::V6(a) => a.octets(),
        }
    }

    /// Reads an address from its octets.
    pub fn from_octets(o: &[u8]) -> (r: Option<IpAddr>)
        ensures
            r == ip_of_octets(o@),
    {
        if o.len() == 4 {
            Some(IpAddr::V4(Ipv4Addr { a: o[0], b: o[1], c: o[2], d: o[3] }))
        } else if o.len() == 16 {
            Some(
                IpAddr::V6(
                    Ipv6Addr {
                        s0: (o[0] as u16) * 256 + (o[1] as u16),
                        s1: (o[2] as u16) * 256 + (o[3] as u16),
                        s2: (o[4] as u16) * 256 + (o[5] as u16),
                        s3: (o[6] as u16) * 256 + (o[7] as u16),
                        s4: (o[8] as u16) * 256 + (o[9] as u16),
                        s5: (o[10] as u16) * 256 + (o[11] as u16),
                        s6: (o[12] as u16) * 256 + (o[13] as u16),
                        s7: (o[14] as u16) * 256 + (o[15] as u16),
                    },
                ),
            )
        } else {
            None
        }
    }

    /// The address as it is meant: an IPv6 address of the form
    /// `::ffff:a.b.c.d` stands for the IPv4 address `a.b.c.d`; any other
    /// address stands for itself.
    pub open spec fn spec_to_canonical(self) -> IpAddr {
        match self {
            IpAddr::V4(_) => self,
            IpAddr::V6(a) => if a.s0 == 0 && a.s1 == 0 && a.s2 == 0 && a.s3 == 0 && a.s4 == 0
                && a.s5 == 0xffff {
                IpAddr::V4(Ipv4Addr { a: high(a.s6), b: low(a.s6), c: high(a.s7), d: low(a.s7) })
            } else {
                self
            },
        }
    }

    /// The address as it is meant: an IPv4 address that arrived in the
    /// form of an IPv6 address, as the IPv4 address.
    #[verifier::when_used_as_spec(spec_to_canonical)]
    pub fn to_canonical(self) -> (r: IpAddr)
        ensures
            r == self.spec_to_canonical(),
    {
        match self {
            IpAddr::V4(_) => self,
            IpAddr::V6(a) => if a.s0 == 0 && a.s1 == 0 && a.s2 == 0 && a.s3 == 0 && a.s4 == 0
                && a.s5 == 0xffff {
                IpAddr::V4(
                    Ipv4Addr {
                        a: (a.s6 / 256) as u8,
                        b: (a.s6 % 256) as u8,
                        c: (a.s7 / 256) as u8,
                        d: (a.s7 % 256) as u8,
                    },
                )
            } else {
                self
            },
        }
    }

    /// Whether this is an IPv4 address.
    pub open spec fn spec_is_ipv4(self) -> bool {
        self is V4
    }

    /// Whether this is an IPv4 address.
    #[verifier::when_used_as_spec(spec_is_ipv4)]
    pub fn is_ipv4(self) -> (r: bool)
        ensures
            r == (self is V4),
    {
        match self {
            IpAddr::V4(_) => true,
            IpAddr::V6(_) => false,
        }
    }

    /// Whether this is an IPv6 address.
    pub open spec fn spec_is_ipv6(self) -> bool {
        self is V6
    }

    /// Whether this is an IPv6 address.
    #[verifier::when_used_as_spec(spec_is_ipv6)]
    pub fn is_ipv6(self) -> (r: bool)
        ensures
            r == (self is V6),
    {
        match self {
            IpAddr::V4(_) => false,
            IpAddr::V6(_) => true,
        }
    }

    /// Whether every bit of the address is zero.
    pub open spec fn spec_is_unspecified(self) -> bool {
        match self {
            IpAddr::V4(a) => a.spec_is_unspecified(),
            IpAddr::V6(a) => a.spec_is_unspecified(),
        }
    }

    /// Whether this is the all-zero address of its family.
    #[verifier::when_used_as_spec(spec_is_unspecified)]
    pub fn is_unspecified(self) -> (r: bool)
        ensures
            r == self.spec_is_unspecified(),
    {
        match self {
            IpAddr::V4(a) => a.is_unspecified(),
            IpAddr::V6(a) => a.is_unspecified(),
        }
    }
}

/// Octets and addresses correspond one to one: reading the octets of an
/// address gives the address back.
pub proof fn law_octets_round_trip(ip: IpAddr)
    ensures
        ip_of_octets(ip.spec_octets()) == Some(ip),
{
    match ip {
        IpAddr::V4(a) => {},
        IpAddr::V6(a) => {
            lemma_join_split(a.s0);
            lemma_join_split(a.s1);
            lemma_join_split(a.s2);
            lemma_join_split(a.s3);
            lemma_join_split(a.s4);
            lemma_join_split(a.s5);
            lemma_join_split(a.s6);
            lemma_join_split(a.s7);
        },
    }
}

/// Whatever is read from a run of octets has exactly these octets, and
/// only runs of four or sixteen octets can be read.
pub proof fn law_octets_of_read(o: Seq<u8>)
    ensures
        ip_of_octets(o) is Some <==> (o.len() == 4 || o.len() == 16),
        ip_of_octets(o) is Some ==> ip_of_octets(o).unwrap().spec_octets() == o,
{
    if o.len() == 4 {
        assert(ip_of_octets(o).unwrap().spec_octets() =~= o);
    } else if o.len() == 16 {
        let ip = ip_of_octets(o).unwrap();
        assert forall|k: int| 0 <= k < 16 implies ip.spec_octets()[k] == o[k] by {
            let j = k / 2;
            lemma_split_join(o[2 * j], o[2 * j + 1]);
        }
        assert(ip.spec_octets() =~= o);
    }
}

proof fn lemma_join_split(s: u16)
    ensures
        join(high(s), low(s)) == s,
{
}

proof fn lemma_split_join(hi: u8, lo: u8)
    ensures
        high(join(hi, lo)) == hi,
        low(join(hi, lo)) == lo,
{
}

} // verus!
