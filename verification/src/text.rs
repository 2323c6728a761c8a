//! Text as sequences of characters: reading and writing numbers and the
//! separators that the address formats are built from.

use crate::ip::{high, join, low, IpAddr, Ipv4Addr, Ipv6Addr, SocketAddr};
use vstd::prelude::*;

verus! {

/// The characters of a string, in order.
pub fn chars_of(s: &str) -> (r: Vec<char>)
    ensures
        r@ == s@,
{
    let mut r: Vec<char> = Vec::new();
    for c in it: s.chars()
        invariant
            r@ == s@.take(it.index() as int),
            it.seq() == s@,
    {
        r.push(c);
        assert(s@.take(it.index() + 1) =~= s@.take(it.index() as int).push(c));
    }
    assert(s@.take(s@.len() as int) =~= s@);
    r
}

/// The string made of the given characters.
pub fn string_of(v: &Vec<char>) -> (r: String)
    ensures
        r@ == v@,
{
    let mut r = String::new();
    let mut i: usize = 0;
    while i < v.len()
        invariant
            i <= v@.len(),
            r@ == v@.take(i as int),
        decreases v@.len() - i,
    {
        r.push(v[i]);
        assert(v@.take(i + 1) =~= v@.take(i as int).push(v@[i as int]));
        i += 1;
    }
    assert(v@.take(v@.len() as int) =~= v@);
    r
}


/// Whether the characters are those of the string.
pub fn same_text(a: &Vec<char>, b: &str) -> (r: bool)
    ensures
        r == (a@ == b@),
{
    let s = string_of(a);
    let t = b.to_owned();
    s == t
}

/// The number that a decimal digit stands for.
pub open spec fn digit_value(c: char) -> Option<nat> {
    if 48 <= c as u32 <= 57 {
        Some((c as u32 - 48) as nat)
    } else {
        None
    }
}

/// The number that a hexadecimal digit, of either case, stands for.
pub open spec fn hex_value(c: char) -> Option<nat> {
    if 48 <= c as u32 <= 57 {
        Some((c as u32 - 48) as nat)
    } else if 97 <= c as u32 <= 102 {
        Some((c as u32 - 87) as nat)
    } else if 65 <= c as u32 <= 70 {
        Some((c as u32 - 55) as nat)
    } else {
        None
    }
}

/// Whether every character is a decimal digit.
pub open spec fn all_digits(s: Seq<char>) -> bool {
    forall|i: int| 0 <= i < s.len() ==> digit_value(#[trigger] s[i]) is Some
}

/// Whether every character is a hexadecimal digit.
pub open spec fn all_hex(s: Seq<char>) -> bool {
    forall|i: int| 0 <= i < s.len() ==> hex_value(#[trigger] s[i]) is Some
}

/// The number that a run of decimal digits stands for.
pub open spec fn decimal(s: Seq<char>) -> nat
    decreases s.len(),
{
    if s.len() == 0 {
        0
    } else {
        decimal(s.drop_last()) * 10 + digit_value(s.last()).unwrap_or(0)
    }
}

/// The number that a run of hexadecimal digits stands for.
pub open spec fn hexadecimal(s: Seq<char>) -> nat
    decreases s.len(),
{
    if s.len() == 0 {
        0
    } else {
        hexadecimal(s.drop_last()) * 16 + hex_value(s.last()).unwrap_or(0)
    }
}

/// An octet in text: one to three decimal digits, no zero in front of
/// another digit, at most 255.
pub open spec fn octet_of_text(s: Seq<char>) -> Option<u8> {
    if 1 <= s.len() <= 3 && all_digits(s) && (s.len() == 1 || s[0] != '0') && decimal(s) <= 255 {
        Some(decimal(s) as u8)
    } else {
        None
    }
}

/// A port in text: decimal digits, at least one, that make at most 65535.
pub open spec fn port_of_text(s: Seq<char>) -> Option<u16> {
    if s.len() >= 1 && all_digits(s) && decimal(s) <= 65535 {
        Some(decimal(s) as u16)
    } else {
        None
    }
}

/// A segment of an IPv6 address in text: one to four hexadecimal digits.
pub open spec fn segment_of_text(s: Seq<char>) -> Option<u16> {
    if 1 <= s.len() <= 4 && all_hex(s) {
        Some(hexadecimal(s) as u16)
    } else {
        None
    }
}

/// The position of the first `c` in `s`; the length of `s` where it has none.
pub open spec fn first_index(s: Seq<char>, c: char) -> nat
    decreases s.len(),
{
    if s.len() == 0 {
        0
    } else if s[0] == c {
        0
    } else {
        1 + first_index(s.skip(1), c)
    }
}

/// The fields of `s`: the runs between one `c` and the next.
pub open spec fn split(s: Seq<char>, c: char) -> Seq<Seq<char>>
    decreases s.len(),
{
    let i = first_index(s, c) as int;
    if i >= s.len() {
        seq![s]
    } else {
        seq![s.take(i)] + split(s.skip(i + 1), c)
    }
}

/// The views of a list of fields.
pub open spec fn fields_view(v: Seq<Vec<char>>) -> Seq<Seq<char>> {
    Seq::new(v.len(), |i: int| v[i]@)
}

/// Where the first `c` of a text is, given what stands before it.
pub proof fn lemma_first_index(s: Seq<char>, c: char, n: int)
    requires
        0 <= n <= s.len(),
        forall|j: int| 0 <= j < n ==> s[j] != c,
        n < s.len() ==> s[n] == c,
    ensures
        first_index(s, c) == n,
    decreases n,
{
    if n > 0 {
        let t = s.skip(1);
        assert forall|j: int| 0 <= j < n - 1 implies t[j] != c by {
            assert(t[j] == s[j + 1]);
        }
        lemma_first_index(t, c, n - 1);
    }
}

/// A prefix of a run of digits stands for no more than the run.
pub proof fn lemma_decimal_prefix(s: Seq<char>, i: int)
    requires
        0 <= i <= s.len(),
    ensures
        decimal(s.take(i)) <= decimal(s),
    decreases s.len() - i,
{
    if i < s.len() {
        lemma_decimal_prefix(s, i + 1);
        assert(s.take(i + 1).drop_last() =~= s.take(i));
    } else {
        assert(s.take(i) =~= s);
    }
}

/// The number that a digit stands for, if it is one.
pub fn digit_of(c: char) -> (r: Option<u8>)
    ensures
        match r {
            Some(d) => digit_value(c) == Some(d as nat) && d < 10,
            None => digit_value(c) is None,
        },
{
    let n = c as u32;
    if 48 <= n && n <= 57 {
        Some((n - 48) as u8)
    } else {
        None
    }
}

/// The number that a hexadecimal digit stands for, if it is one.
pub fn hex_of(c: char) -> (r: Option<u8>)
    ensures
        match r {
            Some(d) => hex_value(c) == Some(d as nat) && d < 16,
            None => hex_value(c) is None,
        },
{
    let n = c as u32;
    if 48 <= n && n <= 57 {
        Some((n - 48) as u8)
    } else if 97 <= n && n <= 102 {
        Some((n - 87) as u8)
    } else if 65 <= n && n <= 70 {
        Some((n - 55) as u8)
    } else {
        None
    }
}

/// Cuts a text into its fields.
pub fn split_chars(s: &Vec<char>, c: char) -> (r: Vec<Vec<char>>)
    ensures
        fields_view(r@) == split(s@, c),
{
    let n = s.len();
    let mut fields: Vec<Vec<char>> = Vec::new();
    let mut field: Vec<char> = Vec::new();
    let mut start: usize = 0;
    let mut i: usize = 0;
    proof {
        assert(s@.skip(0) =~= s@);
        assert(fields_view(fields@) + split(s@, c) =~= split(s@, c));
    }
    while i < n
        invariant
            start <= i <= n,
            n == s@.len(),
            field@ == s@.subrange(start as int, i as int),
            forall|j: int| start <= j < i ==> s@[j] != c,
            split(s@, c) == fields_view(fields@) + split(s@.skip(start as int), c),
        decreases n - i,
    {
        let x = s[i];
        if x == c {
            proof {
                let t = s@.skip(start as int);
                assert forall|j: int| 0 <= j < i - start implies t[j] != c by {
                    assert(t[j] == s@[start + j]);
                }
                lemma_first_index(t, c, i - start);
                assert(t.take(i - start) =~= field@);
                assert(t.skip(i - start + 1) =~= s@.skip(i + 1));
                assert(fields_view(fields@.push(field)) =~= fields_view(fields@) + seq![field@]);
            }
            fields.push(field);
            field = Vec::new();
            start = i + 1;
            proof {
                assert(field@ =~= s@.subrange(start as int, start as int));
            }
        } else {
            field.push(x);
            proof {
                assert(field@ =~= s@.subrange(start as int, i + 1));
            }
        }
        i += 1;
    }
    proof {
        let t = s@.skip(start as int);
        assert forall|j: int| 0 <= j < t.len() implies t[j] != c by {
            assert(t[j] == s@[start + j]);
        }
        lemma_first_index(t, c, t.len() as int);
        assert(t =~= field@);
        assert(fields_view(fields@.push(field)) =~= fields_view(fields@) + seq![field@]);
    }
    fields.push(field);
    fields
}

/// Reads a run of decimal digits that makes at most `max`.
fn parse_decimal(s: &Vec<char>, max: u32) -> (r: Option<u32>)
    requires
        max <= 65535,
    ensures
        match r {
            Some(v) => all_digits(s@) && decimal(s@) == v && v <= max,
            None => !all_digits(s@) || decimal(s@) > max,
        },
{
    let n = s.len();
    let mut acc: u32 = 0;
    let mut i: usize = 0;
    while i < n
        invariant
            i <= n,
            n == s@.len(),
            max <= 65535,
            acc <= max,
            acc == decimal(s@.take(i as int)),
            all_digits(s@.take(i as int)),
        decreases n - i,
    {
        let d = match digit_of(s[i]) {
            Some(d) => d,
            None => {
                return None;
            },
        };
        proof {
            assert(s@.take(i + 1).drop_last() =~= s@.take(i as int));
            assert(s@.take(i + 1).last() == s@[i as int]);
            assert forall|j: int| 0 <= j < i + 1 implies digit_value(
                #[trigger] s@.take(i + 1)[j],
            ) is Some by {
                if j < i {
                    assert(s@.take(i as int)[j] == s@[j]);
                }
            }
        }
        let next = acc * 10 + d as u32;
        if next > max {
            proof {
                lemma_decimal_prefix(s@, i + 1);
            }
            return None;
        }
        acc = next;
        i += 1;
    }
    proof {
        assert(s@.take(n as int) =~= s@);
    }
    Some(acc)
}

/// Reads an octet.
pub fn parse_octet(s: &Vec<char>) -> (r: Option<u8>)
    ensures
        r == octet_of_text(s@),
{
    let n = s.len();
    if n < 1 || n > 3 {
        return None;
    }
    if n > 1 && s[0] == '0' {
        return None;
    }
    match parse_decimal(s, 255) {
        Some(v) => Some(v as u8),
        None => None,
    }
}

/// Reads a port.
pub fn parse_port(s: &Vec<char>) -> (r: Option<u16>)
    ensures
        r == port_of_text(s@),
{
    if s.len() < 1 {
        return None;
    }
    match parse_decimal(s, 65535) {
        Some(v) => Some(v as u16),
        None => None,
    }
}

/// Reads a segment of an IPv6 address.
pub fn parse_segment(s: &Vec<char>) -> (r: Option<u16>)
    ensures
        r == segment_of_text(s@),
{
    let n = s.len();
    if n < 1 || n > 4 {
        return None;
    }
    let mut acc: u32 = 0;
    let mut i: usize = 0;
    while i < n
        invariant
            i <= n,
            n == s@.len(),
            n <= 4,
            acc == hexadecimal(s@.take(i as int)),
            all_hex(s@.take(i as int)),
            i == 0 ==> acc == 0,
            i == 1 ==> acc < 16,
            i == 2 ==> acc < 256,
            i == 3 ==> acc < 4096,
            i == 4 ==> acc < 65536,
        decreases n - i,
    {
        let d = match hex_of(s[i]) {
            Some(d) => d,
            None => {
                return None;
            },
        };
        proof {
            assert(s@.take(i + 1).drop_last() =~= s@.take(i as int));
            assert(s@.take(i + 1).last() == s@[i as int]);
            assert forall|j: int| 0 <= j < i + 1 implies hex_value(
                #[trigger] s@.take(i + 1)[j],
            ) is Some by {
                if j < i {
                    assert(s@.take(i as int)[j] == s@[j]);
                }
            }
        }
        acc = acc * 16 + d as u32;
        i += 1;
    }
    proof {
        assert(s@.take(n as int) =~= s@);
    }
    Some(acc as u16)
}

/// An IPv4 address in text: four octets with a dot between each two.
pub open spec fn ipv4_of_text(s: Seq<char>) -> Option<Ipv4Addr> {
    let f = split(s, '.');
    if f.len() == 4 && octet_of_text(f[0]) is Some && octet_of_text(f[1]) is Some && octet_of_text(
        f[2],
    ) is Some && octet_of_text(f[3]) is Some {
        Some(
            Ipv4Addr {
                a: octet_of_text(f[0]).unwrap(),
                b: octet_of_text(f[1]).unwrap(),
                c: octet_of_text(f[2]).unwrap(),
                d: octet_of_text(f[3]).unwrap(),
            },
        )
    } else {
        None
    }
}

/// Reads an IPv4 address.
pub fn parse_ipv4(s: &Vec<char>) -> (r: Option<Ipv4Addr>)
    ensures
        r == ipv4_of_text(s@),
{
    let f = split_chars(s, '.');
    if f.len() != 4 {
        return None;
    }
    assert(fields_view(f@)[0] == f@[0]@ && fields_view(f@)[1] == f@[1]@ && fields_view(f@)[2]
        == f@[2]@ && fields_view(f@)[3] == f@[3]@);
    let a = match parse_octet(&f[0]) {
        Some(a) => a,
        None => {
            return None;
        },
    };
    let b = match parse_octet(&f[1]) {
        Some(b) => b,
        None => {
            return None;
        },
    };
    let c = match parse_octet(&f[2]) {
        Some(c) => c,
        None => {
            return None;
        },
    };
    let d = match parse_octet(&f[3]) {
        Some(d) => d,
        None => {
            return None;
        },
    };
    Some(Ipv4Addr { a, b, c, d })
}


/// The position of the first `::` in `s`, if it has one.
pub open spec fn double_colon(s: Seq<char>) -> Option<int>
    decreases s.len(),
{
    if s.len() < 2 {
        None
    } else if s[0] == ':' && s[1] == ':' {
        Some(0)
    } else {
        match double_colon(s.skip(1)) {
            Some(p) => Some(p + 1),
            None => None,
        }
    }
}

/// Where the first `::` of a text is, given that none begins before `n`.
pub proof fn lemma_double_colon(s: Seq<char>, n: int)
    requires
        0 <= n,
        forall|j: int| 0 <= j < n && j + 1 < s.len() ==> !(#[trigger] s[j] == ':' && s[j + 1] == ':'),
        n + 1 < s.len() ==> s[n] == ':' && s[n + 1] == ':',
    ensures
        double_colon(s) == if n + 1 < s.len() {
            Some(n)
        } else {
            None
        },
    decreases s.len(),
{
    if s.len() >= 2 && n > 0 {
        let t = s.skip(1);
        assert forall|j: int| 0 <= j < n - 1 && j + 1 < t.len() implies !(#[trigger] t[j] == ':'
            && t[j + 1] == ':') by {
            assert(s[j + 1] == t[j]);
            assert(t[j] == s[j + 1] && t[j + 1] == s[j + 2]);
        }
        if n + 1 < s.len() {
            assert(t[n - 1] == s[n] && t[n] == s[n + 1]);
        }
        lemma_double_colon(t, n - 1);
    }
}

/// The segments that a list of fields stands for. Each field is a
/// segment; where `v4_last` holds, the last field may be an IPv4 address
/// instead, which stands for two segments. None where a field is neither.
pub open spec fn segments_of_fields(f: Seq<Seq<char>>, v4_last: bool) -> Option<Seq<u16>>
    decreases f.len(),
{
    if f.len() == 0 {
        Some(Seq::empty())
    } else {
        match segments_of_fields(f.drop_last(), false) {
            None => None,
            Some(front) => match segment_of_text(f.last()) {
                Some(g) => Some(front.push(g)),
                None => if v4_last {
                    match ipv4_of_text(f.last()) {
                        Some(a) => Some(front.push(join(a.a, a.b)).push(join(a.c, a.d))),
                        None => None,
                    }
                } else {
                    None
                },
            },
        }
    }
}

/// The fields of a run of segments: none for the empty text.
pub open spec fn fields_of(s: Seq<char>) -> Seq<Seq<char>> {
    if s.len() == 0 {
        Seq::empty()
    } else {
        split(s, ':')
    }
}

/// The address made of eight segments.
pub open spec fn ipv6_of_segments(g: Seq<u16>) -> Ipv6Addr {
    Ipv6Addr { s0: g[0], s1: g[1], s2: g[2], s3: g[3], s4: g[4], s5: g[5], s6: g[6], s7: g[7] }
}

/// A run of `n` zero segments.
pub open spec fn zeros(n: int) -> Seq<u16> {
    Seq::new(n as nat, |i: int| 0u16)
}

/// An IPv6 address in text. Without `::`, the text is eight segments with
/// a colon between each two. With `::`, it is up to seven segments before
/// it and after it together, and the `::` stands for the zero segments
/// that are missing. In either form an IPv4 address may stand for the last
/// two segments.
pub open spec fn ipv6_of_text(s: Seq<char>) -> Option<Ipv6Addr> {
    match double_colon(s) {
        None => match segments_of_fields(split(s, ':'), true) {
            Some(g) => if g.len() == 8 {
                Some(ipv6_of_segments(g))
            } else {
                None
            },
            None => None,
        },
        Some(p) => {
            let head = segments_of_fields(fields_of(s.take(p)), false);
            let tail = segments_of_fields(fields_of(s.skip(p + 2)), true);
            if head is Some && tail is Some && head.unwrap().len() + tail.unwrap().len() <= 7 {
                Some(
                    ipv6_of_segments(
                        head.unwrap() + zeros(8 - head.unwrap().len() - tail.unwrap().len())
                            + tail.unwrap(),
                    ),
                )
            } else {
                None
            }
        },
    }
}

/// An IP address in text: an IPv4 address, or else an IPv6 address.
pub open spec fn ip_of_text(s: Seq<char>) -> Option<IpAddr> {
    match ipv4_of_text(s) {
        Some(a) => Some(IpAddr::V4(a)),
        None => match ipv6_of_text(s) {
            Some(a) => Some(IpAddr::V6(a)),
            None => None,
        },
    }
}

/// A socket address in text: `a.b.c.d:port` for IPv4, `[address]:port`
/// for IPv6.
pub open spec fn socket_addr_of_text(s: Seq<char>) -> Option<SocketAddr> {
    if s.len() > 0 && s[0] == '[' {
        let close = first_index(s, ']') as int;
        if close + 1 < s.len() && s[close + 1] == ':' {
            match (ipv6_of_text(s.subrange(1, close)), port_of_text(s.skip(close + 2))) {
                (Some(a), Some(port)) => Some(SocketAddr { ip: IpAddr::V6(a), port }),
                _ => None,
            }
        } else {
            None
        }
    } else {
        let colon = first_index(s, ':') as int;
        if colon < s.len() {
            match (ipv4_of_text(s.take(colon)), port_of_text(s.skip(colon + 1))) {
                (Some(a), Some(port)) => Some(SocketAddr { ip: IpAddr::V4(a), port }),
                _ => None,
            }
        } else {
            None
        }
    }
}

/// The part of a text from `from` up to, not including, `to`.
pub(crate) fn slice_chars(s: &Vec<char>, from: usize, to: usize) -> (r: Vec<char>)
    requires
        from <= to <= s@.len(),
    ensures
        r@ == s@.subrange(from as int, to as int),
{
    let mut r: Vec<char> = Vec::new();
    let mut i: usize = from;
    while i < to
        invariant
            from <= i <= to,
            to <= s@.len(),
            r@ == s@.subrange(from as int, i as int),
        decreases to - i,
    {
        r.push(s[i]);
        assert(r@ =~= s@.subrange(from as int, i + 1));
        i += 1;
    }
    assert(r@ =~= s@.subrange(from as int, to as int));
    r
}

/// The position of the first `c` at or after `from`; the length of the
/// text where there is none.
pub fn find_char(s: &Vec<char>, c: char) -> (r: usize)
    ensures
        r == first_index(s@, c),
        r <= s@.len(),
{
    let n = s.len();
    let mut i: usize = 0;
    while i < n
        invariant
            i <= n,
            n == s@.len(),
            forall|j: int| 0 <= j < i ==> s@[j] != c,
        decreases n - i,
    {
        if s[i] == c {
            proof {
                lemma_first_index(s@, c, i as int);
            }
            return i;
        }
        i += 1;
    }
    proof {
        lemma_first_index(s@, c, n as int);
    }
    n
}

fn find_double_colon(s: &Vec<char>) -> (r: Option<usize>)
    ensures
        match r {
            Some(p) => double_colon(s@) == Some(p as int) && p + 2 <= s@.len(),
            None => double_colon(s@) is None,
        },
{
    let n = s.len();
    if n < 2 {
        proof {
            lemma_double_colon(s@, 0);
        }
        return None;
    }
    let mut i: usize = 0;
    while i + 1 < n
        invariant
            n == s@.len(),
            i + 1 <= n,
            forall|j: int| 0 <= j < i && j + 1 < n ==> !(#[trigger] s@[j] == ':' && s@[j + 1] == ':'),
        decreases n - i,
    {
        if s[i] == ':' && s[i + 1] == ':' {
            proof {
                lemma_double_colon(s@, i as int);
            }
            return Some(i);
        }
        i += 1;
    }
    proof {
        lemma_double_colon(s@, i as int);
    }
    None
}

fn parse_fields(f: &Vec<Vec<char>>, v4_last: bool) -> (r: Option<Vec<u16>>)
    ensures
        match r {
            Some(g) => segments_of_fields(fields_view(f@), v4_last) == Some(g@),
            None => segments_of_fields(fields_view(f@), v4_last) is None,
        },
{
    let ghost fv = fields_view(f@);
    let n = f.len();
    let mut out: Vec<u16> = Vec::new();
    let mut i: usize = 0;
    proof {
        assert(fv.take(0) =~= Seq::<Seq<char>>::empty());
    }
    while i < n
        invariant
            i <= n,
            n == f@.len(),
            fv == fields_view(f@),
            segments_of_fields(fv.take(i as int), false) == Some(out@),
        decreases n - i,
    {
        proof {
            assert(fv.take(i + 1).drop_last() =~= fv.take(i as int));
            assert(fv.take(i + 1).last() == f@[i as int]@);
            assert(fv.take(n as int) =~= fv);
        }
        match parse_segment(&f[i]) {
            Some(g) => {
                out.push(g);
            },
            None => {
                if v4_last && i + 1 == n {
                    match parse_ipv4(&f[i]) {
                        Some(a) => {
                            out.push((a.a as u16) * 256 + a.b as u16);
                            out.push((a.c as u16) * 256 + a.d as u16);
                            return Some(out);
                        },
                        None => {
                            return None;
                        },
                    }
                } else {
                    proof {
                        lemma_fields_fail(fv, i as int, v4_last);
                    }
                    return None;
                }
            },
        }
        i += 1;
    }
    proof {
        assert(fv.take(n as int) =~= fv);
        lemma_fields_flag(fv, v4_last);
    }
    Some(out)
}

/// Where every field is a segment, it does not matter whether the last
/// might have been an IPv4 address.
proof fn lemma_fields_flag(f: Seq<Seq<char>>, v4_last: bool)
    requires
        segments_of_fields(f, false) is Some,
    ensures
        segments_of_fields(f, v4_last) == segments_of_fields(f, false),
{
}

/// A field before the last that is no segment spoils the list, and so
/// does a last field that is no segment where no IPv4 address may stand there.
proof fn lemma_fields_fail(f: Seq<Seq<char>>, i: int, v4_last: bool)
    requires
        0 <= i < f.len(),
        segment_of_text(f[i]) is None,
        !(v4_last && i + 1 == f.len()),
    ensures
        segments_of_fields(f, v4_last) is None,
    decreases f.len(),
{
    if i + 1 < f.len() {
        assert(f.drop_last()[i] == f[i]);
        lemma_fields_fail(f.drop_last(), i, false);
    }
}

/// Reads an IPv6 address.
pub fn parse_ipv6(s: &Vec<char>) -> (r: Option<Ipv6Addr>)
    ensures
        r == ipv6_of_text(s@),
{
    match find_double_colon(s) {
        None => {
            let f = split_chars(s, ':');
            match parse_fields(&f, true) {
                Some(g) => {
                    if g.len() == 8 {
                        let a = Ipv6Addr::from_segments(&g);
                        proof {
                            assert(a == ipv6_of_segments(g@)) by {
                                assert(a.spec_segments()[0] == a.s0);
                                assert(a.spec_segments()[1] == a.s1);
                                assert(a.spec_segments()[2] == a.s2);
                                assert(a.spec_segments()[3] == a.s3);
                                assert(a.spec_segments()[4] == a.s4);
                                assert(a.spec_segments()[5] == a.s5);
                                assert(a.spec_segments()[6] == a.s6);
                                assert(a.spec_segments()[7] == a.s7);
                            }
                        }
                        Some(a)
                    } else {
                        None
                    }
                },
                None => None,
            }
        },
        Some(p) => {
            let head_text = slice_chars(s, 0, p);
            let n = s.len();
            let tail_text = slice_chars(s, p + 2, n);
            proof {
                assert(head_text@ =~= s@.take(p as int));
                assert(tail_text@ =~= s@.skip(p + 2));
            }
            let head_fields: Vec<Vec<char>> = if head_text.len() == 0 {
                Vec::new()
            } else {
                split_chars(&head_text, ':')
            };
            let tail_fields: Vec<Vec<char>> = if tail_text.len() == 0 {
                Vec::new()
            } else {
                split_chars(&tail_text, ':')
            };
            proof {
                assert(fields_view(head_fields@) =~= fields_of(head_text@));
                assert(fields_view(tail_fields@) =~= fields_of(tail_text@));
            }
            let head = match parse_fields(&head_fields, false) {
                Some(h) => h,
                None => {
                    return None;
                },
            };
            let tail = match parse_fields(&tail_fields, true) {
                Some(t) => t,
                None => {
                    return None;
                },
            };
            if head.len() > 7 || tail.len() > 7 - head.len() {
                return None;
            }
            let gap = 8 - head.len() - tail.len();
            let mut g: Vec<u16> = Vec::new();
            let mut i: usize = 0;
            while i < 8
                invariant
                    i <= 8,
                    head@.len() + tail@.len() <= 7,
                    gap == 8 - head@.len() - tail@.len(),
                    g@ == (head@ + zeros(gap as int) + tail@).take(i as int),
                decreases 8 - i,
            {
                let ghost all = head@ + zeros(gap as int) + tail@;
                let x: u16 = if i < head.len() {
                    head[i]
                } else if i < head.len() + gap {
                    0
                } else {
                    tail[i - head.len() - gap]
                };
                g.push(x);
                proof {
                    assert(all[i as int] == x);
                    assert(all.take(i + 1) =~= all.take(i as int).push(x));
                }
                i += 1;
            }
            proof {
                let all = head@ + zeros(gap as int) + tail@;
                assert(all.take(8) =~= all);
            }
            let a = Ipv6Addr::from_segments(&g);
            proof {
                assert(a == ipv6_of_segments(g@)) by {
                    assert(a.spec_segments()[0] == a.s0);
                    assert(a.spec_segments()[1] == a.s1);
                    assert(a.spec_segments()[2] == a.s2);
                    assert(a.spec_segments()[3] == a.s3);
                    assert(a.spec_segments()[4] == a.s4);
                    assert(a.spec_segments()[5] == a.s5);
                    assert(a.spec_segments()[6] == a.s6);
                    assert(a.spec_segments()[7] == a.s7);
                }
            }
            Some(a)
        },
    }
}

/// Reads an IP address of either family.
pub fn parse_ip(s: &str) -> (r: Option<IpAddr>)
    ensures
        r == ip_of_text(s@),
{
    let v = chars_of(s);
    match parse_ipv4(&v) {
        Some(a) => Some(IpAddr::V4(a)),
        None => match parse_ipv6(&v) {
            Some(a) => Some(IpAddr::V6(a)),
            None => None,
        },
    }
}

/// Reads a socket address.
pub fn parse_socket_addr(s: &str) -> (r: Option<SocketAddr>)
    ensures
        r == socket_addr_of_text(s@),
{
    let v = chars_of(s);
    let n = v.len();
    if n > 0 && v[0] == '[' {
        let close = find_char(&v, ']');
        if close >= n || close + 1 >= n || v[close + 1] != ':' {
            return None;
        }
        assert(close >= 1);
        let ip_text = slice_chars(&v, 1, close);
        let port_text = slice_chars(&v, close + 2, n);
        proof {
            assert(port_text@ =~= v@.skip(close + 2));
        }
        match (parse_ipv6(&ip_text), parse_port(&port_text)) {
            (Some(a), Some(port)) => Some(SocketAddr { ip: IpAddr::V6(a), port }),
            _ => None,
        }
    } else {
        let colon = find_char(&v, ':');
        if colon >= n {
            return None;
        }
        let ip_text = slice_chars(&v, 0, colon);
        let port_text = slice_chars(&v, colon + 1, n);
        proof {
            assert(ip_text@ =~= v@.take(colon as int));
            assert(port_text@ =~= v@.skip(colon + 1));
        }
        match (parse_ipv4(&ip_text), parse_port(&port_text)) {
            (Some(a), Some(port)) => Some(SocketAddr { ip: IpAddr::V4(a), port }),
            _ => None,
        }
    }
}


/// The decimal digit for a number below ten.
pub open spec fn digit_char(d: int) -> char {
    ((48 + d) as u8) as char
}

/// The lower-case hexadecimal digit for a number below sixteen.
pub open spec fn hex_char(d: int) -> char {
    if d < 10 {
        ((48 + d) as u8) as char
    } else {
        ((87 + d) as u8) as char
    }
}

/// An octet in decimal, without zeros in front.
pub open spec fn octet_text(n: u8) -> Seq<char> {
    if n < 10 {
        seq![digit_char(n as int)]
    } else if n < 100 {
        seq![digit_char((n / 10) as int), digit_char((n % 10) as int)]
    } else {
        seq![digit_char((n / 100) as int), digit_char((n / 10 % 10) as int), digit_char((n % 10) as int)]
    }
}

/// A port in decimal, without zeros in front.
pub open spec fn port_text(n: u16) -> Seq<char> {
    if n < 10 {
        seq![digit_char(n as int)]
    } else if n < 100 {
        seq![digit_char((n / 10) as int), digit_char((n % 10) as int)]
    } else if n < 1000 {
        seq![digit_char((n / 100) as int), digit_char((n / 10 % 10) as int), digit_char((n % 10) as int)]
    } else if n < 10000 {
        seq![
            digit_char((n / 1000) as int),
            digit_char((n / 100 % 10) as int),
            digit_char((n / 10 % 10) as int),
            digit_char((n % 10) as int),
        ]
    } else {
        seq![
            digit_char((n / 10000) as int),
            digit_char((n / 1000 % 10) as int),
            digit_char((n / 100 % 10) as int),
            digit_char((n / 10 % 10) as int),
            digit_char((n % 10) as int),
        ]
    }
}

/// A segment in lower-case hexadecimal, without zeros in front.
pub open spec fn segment_text(n: u16) -> Seq<char> {
    if n < 16 {
        seq![hex_char(n as int)]
    } else if n < 256 {
        seq![hex_char((n / 16) as int), hex_char((n % 16) as int)]
    } else if n < 4096 {
        seq![hex_char((n / 256) as int), hex_char((n / 16 % 16) as int), hex_char((n % 16) as int)]
    } else {
        seq![hex_char((n / 4096) as int), hex_char((n / 256 % 16) as int), hex_char((n / 16 % 16) as int), hex_char((n % 16) as int)]
    }
}

/// An IPv4 address in text: its octets with a dot between each two.
pub open spec fn ipv4_text(a: Ipv4Addr) -> Seq<char> {
    octet_text(a.a) + seq!['.'] + octet_text(a.b) + seq!['.'] + octet_text(a.c) + seq!['.']
        + octet_text(a.d)
}

/// Segments in text with a colon between each two.
pub open spec fn joined(g: Seq<u16>) -> Seq<char>
    decreases g.len(),
{
    if g.len() == 0 {
        Seq::empty()
    } else if g.len() == 1 {
        segment_text(g[0])
    } else {
        joined(g.drop_last()) + seq![':'] + segment_text(g.last())
    }
}

/// The number of zero segments in a row from position `i` on.
pub open spec fn zeros_from(g: Seq<u16>, i: int) -> int
    decreases g.len() - i,
{
    if i < 0 || i >= g.len() || g[i] != 0 {
        0
    } else {
        1 + zeros_from(g, i + 1)
    }
}

/// The longest run of zero segments that begins at `i` or later, as its
/// position and length; of several longest runs the first one.
pub open spec fn longest_zeros(g: Seq<u16>, i: int) -> (int, int)
    decreases g.len() - i,
{
    if i < 0 || i >= g.len() {
        (0, 0)
    } else {
        let here = zeros_from(g, i);
        let (start, len) = longest_zeros(g, i + 1);
        if here > 0 && here >= len {
            (i, here)
        } else {
            (start, len)
        }
    }
}

/// Whether the address stands for an IPv4 address: `::ffff:a.b.c.d`.
pub open spec fn is_mapped(a: Ipv6Addr) -> bool {
    a.s0 == 0 && a.s1 == 0 && a.s2 == 0 && a.s3 == 0 && a.s4 == 0 && a.s5 == 0xffff
}

/// An IPv6 address in text. The longest run of two or more zero segments
/// is written `::`; an address that stands for an IPv4 address is written
/// with that address in dotted form.
pub open spec fn ipv6_text(a: Ipv6Addr) -> Seq<char> {
    let g = a.spec_segments();
    if is_mapped(a) {
        seq![':', ':', 'f', 'f', 'f', 'f', ':'] + ipv4_text(
            Ipv4Addr { a: high(a.s6), b: low(a.s6), c: high(a.s7), d: low(a.s7) },
        )
    } else {
        let (start, len) = longest_zeros(g, 0);
        if len > 1 {
            joined(g.take(start)) + seq![':', ':'] + joined(g.skip(start + len))
        } else {
            joined(g)
        }
    }
}

/// An IP address in text.
pub open spec fn ip_text(ip: IpAddr) -> Seq<char> {
    match ip {
        IpAddr::V4(a) => ipv4_text(a),
        IpAddr::V6(a) => ipv6_text(a),
    }
}

/// A socket address in text: `a.b.c.d:port` for IPv4, `[address]:port`
/// for IPv6.
pub open spec fn socket_addr_text(a: SocketAddr) -> Seq<char> {
    match a.ip {
        IpAddr::V4(ip) => ipv4_text(ip) + seq![':'] + port_text(a.port),
        IpAddr::V6(ip) => seq!['['] + ipv6_text(ip) + seq![']', ':'] + port_text(a.port),
    }
}

fn digit_to_char(d: u8) -> (c: char)
    requires
        d < 10,
    ensures
        c == digit_char(d as int),
{
    (48 + d) as char
}

fn hex_to_char(d: u8) -> (c: char)
    requires
        d < 16,
    ensures
        c == hex_char(d as int),
{
    if d < 10 {
        (48 + d) as char
    } else {
        (87 + d) as char
    }
}

/// Writes a port, or any number below 65536, in decimal at the end of `out`.
pub fn push_port(out: &mut Vec<char>, n: u16)
    ensures
        final(out)@ == old(out)@ + port_text(n),
{
    if n >= 10000 {
        out.push(digit_to_char((n / 10000) as u8));
    }
    if n >= 1000 {
        out.push(digit_to_char((n / 1000 % 10) as u8));
    }
    if n >= 100 {
        out.push(digit_to_char((n / 100 % 10) as u8));
    }
    if n >= 10 {
        out.push(digit_to_char((n / 10 % 10) as u8));
    }
    out.push(digit_to_char((n % 10) as u8));
    assert(out@ =~= old(out)@ + port_text(n));
}

/// Writes an octet in decimal at the end of `out`.
pub fn push_octet(out: &mut Vec<char>, n: u8)
    ensures
        final(out)@ == old(out)@ + octet_text(n),
{
    if n >= 100 {
        out.push(digit_to_char(n / 100));
    }
    if n >= 10 {
        out.push(digit_to_char(n / 10 % 10));
    }
    out.push(digit_to_char(n % 10));
    assert(out@ =~= old(out)@ + octet_text(n));
}

/// Writes a segment in hexadecimal at the end of `out`.
pub fn push_segment(out: &mut Vec<char>, n: u16)
    ensures
        final(out)@ == old(out)@ + segment_text(n),
{
    if n >= 4096 {
        out.push(hex_to_char((n / 4096) as u8));
    }
    if n >= 256 {
        out.push(hex_to_char((n / 256 % 16) as u8));
    }
    if n >= 16 {
        out.push(hex_to_char((n / 16 % 16) as u8));
    }
    out.push(hex_to_char((n % 16) as u8));
    assert(out@ =~= old(out)@ + segment_text(n));
}

/// Writes an IPv4 address at the end of `out`.
pub fn push_ipv4(out: &mut Vec<char>, a: Ipv4Addr)
    ensures
        final(out)@ == old(out)@ + ipv4_text(a),
{
    push_octet(out, a.a);
    out.push('.');
    push_octet(out, a.b);
    out.push('.');
    push_octet(out, a.c);
    out.push('.');
    push_octet(out, a.d);
    assert(out@ =~= old(out)@ + ipv4_text(a));
}

/// Writes the segments from `from` up to `to`, with a colon between each
/// two, at the end of `out`.
fn push_joined(out: &mut Vec<char>, g: &Vec<u16>, from: usize, to: usize)
    requires
        from <= to <= g@.len(),
    ensures
        final(out)@ == old(out)@ + joined(g@.subrange(from as int, to as int)),
{
    let mut i: usize = from;
    proof {
        assert(g@.subrange(from as int, from as int) =~= Seq::<u16>::empty());
        assert(out@ =~= old(out)@ + joined(g@.subrange(from as int, i as int)));
    }
    while i < to
        invariant
            from <= i <= to,
            to <= g@.len(),
            out@ == old(out)@ + joined(g@.subrange(from as int, i as int)),
        decreases to - i,
    {
        let ghost before = out@;
        let ghost done = g@.subrange(from as int, i as int);
        let ghost next = g@.subrange(from as int, i + 1);
        proof {
            assert(next.drop_last() =~= done);
            assert(next.last() == g@[i as int]);
        }
        if i > from {
            out.push(':');
        }
        push_segment(out, g[i]);
        proof {
            if i > from {
                assert(out@ =~= old(out)@ + (joined(done) + seq![':'] + segment_text(g@[i as int])));
            } else {
                assert(done.len() == 0);
                assert(next.len() == 1);
                assert(joined(done) =~= Seq::<char>::empty());
                assert(out@ =~= old(out)@ + segment_text(g@[i as int]));
            }
        }
        i += 1;
    }
}

/// The longest run of zero segments, as its position and length.
fn find_zeros(g: &Vec<u16>) -> (r: (usize, usize))
    ensures
        (r.0 as int, r.1 as int) == longest_zeros(g@, 0),
        r.0 + r.1 <= g@.len(),
{
    let n = g.len();
    let mut best: (usize, usize) = (0, 0);
    let mut i: usize = n;
    while i > 0
        invariant
            i <= n,
            n == g@.len(),
            (best.0 as int, best.1 as int) == longest_zeros(g@, i as int),
            best.0 + best.1 <= n,
        decreases i,
    {
        i -= 1;
        let mut k: usize = 0;
        while i + k < n && g[i + k] == 0
            invariant
                i + k <= n,
                n == g@.len(),
                zeros_from(g@, i as int) == k + zeros_from(g@, i + k),
            decreases n - i - k,
        {
            k += 1;
        }
        if k > 0 && k >= best.1 {
            best = (i, k);
        }
    }
    best
}

/// Writes an IPv6 address at the end of `out`.
pub fn push_ipv6(out: &mut Vec<char>, a: Ipv6Addr)
    ensures
        final(out)@ == old(out)@ + ipv6_text(a),
{
    if a.s0 == 0 && a.s1 == 0 && a.s2 == 0 && a.s3 == 0 && a.s4 == 0 && a.s5 == 0xffff {
        out.push(':');
        out.push(':');
        out.push('f');
        out.push('f');
        out.push('f');
        out.push('f');
        out.push(':');
        let v4 = Ipv4Addr {
            a: (a.s6 / 256) as u8,
            b: (a.s6 % 256) as u8,
            c: (a.s7 / 256) as u8,
            d: (a.s7 % 256) as u8,
        };
        push_ipv4(out, v4);
        assert(out@ =~= old(out)@ + ipv6_text(a));
    } else {
        let g = a.segments();
        let (start, len) = find_zeros(&g);
        if len > 1 {
            push_joined(out, &g, 0, start);
            out.push(':');
            out.push(':');
            push_joined(out, &g, start + len, 8);
            proof {
                assert(g@.subrange(0, start as int) =~= g@.take(start as int));
                assert(g@.subrange(start + len, 8) =~= g@.skip(start + len));
                assert(out@ =~= old(out)@ + ipv6_text(a));
            }
        } else {
            push_joined(out, &g, 0, 8);
            proof {
                assert(g@.subrange(0, 8) =~= g@);
            }
        }
    }
}

/// An IP address in text.
pub fn format_ip(ip: IpAddr) -> (r: String)
    ensures
        r@ == ip_text(ip),
{
    let mut out: Vec<char> = Vec::new();
    match ip {
        IpAddr::V4(a) => push_ipv4(&mut out, a),
        IpAddr::V6(a) => push_ipv6(&mut out, a),
    }
    assert(out@ =~= ip_text(ip));
    string_of(&out)
}

/// A socket address in text.
pub fn format_socket_addr(a: SocketAddr) -> (r: String)
    ensures
        r@ == socket_addr_text(a),
{
    let mut out: Vec<char> = Vec::new();
    match a.ip {
        IpAddr::V4(ip) => {
            push_ipv4(&mut out, ip);
            out.push(':');
        },
        IpAddr::V6(ip) => {
            out.push('[');
            push_ipv6(&mut out, ip);
            out.push(']');
            out.push(':');
        },
    }
    push_port(&mut out, a.port);
    assert(out@ =~= socket_addr_text(a));
    string_of(&out)
}

} // verus!
