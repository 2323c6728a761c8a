//! Written and read back: the text of an address names that address.

use crate::ip::{high, join, low, IpAddr, Ipv4Addr, Ipv6Addr, SocketAddr};
use crate::text::{
    all_digits, all_hex, decimal, digit_char, digit_value, double_colon, fields_of, first_index,
    hex_char, hex_value, hexadecimal, ip_of_text, ip_text, ipv4_of_text, ipv4_text, ipv6_of_text,
    ipv6_text, is_mapped, joined, lemma_double_colon, lemma_first_index, longest_zeros,
    octet_of_text, octet_text, port_of_text, port_text, segment_of_text, segment_text,
    segments_of_fields, socket_addr_of_text, socket_addr_text, split, zeros, zeros_from,
};
use vstd::prelude::*;

verus! {

/// A digit that is written is read as the same number.
pub proof fn lemma_digit(d: int)
    requires
        0 <= d < 10,
    ensures
        digit_value(digit_char(d)) == Some(d as nat),
        hex_value(digit_char(d)) == Some(d as nat),
        digit_char(d) != '.',
        digit_char(d) != ':',
        digit_char(d) != '0' || d == 0,
        digit_char(0) == '0',
{
}

/// A hexadecimal digit that is written is read as the same number.
pub proof fn lemma_hex_digit(d: int)
    requires
        0 <= d < 16,
    ensures
        hex_value(hex_char(d)) == Some(d as nat),
        hex_char(d) != '.',
        hex_char(d) != ':',
{
}

/// Runs of up to five digits, read.
pub proof fn lemma_decimal_digits(s: Seq<char>)
    requires
        1 <= s.len() <= 5,
    ensures
        s.len() == 1 ==> decimal(s) == digit_value(s[0]).unwrap_or(0),
        s.len() == 2 ==> decimal(s) == digit_value(s[0]).unwrap_or(0) * 10 + digit_value(
            s[1],
        ).unwrap_or(0),
        s.len() == 3 ==> decimal(s) == digit_value(s[0]).unwrap_or(0) * 100 + digit_value(
            s[1],
        ).unwrap_or(0) * 10 + digit_value(s[2]).unwrap_or(0),
        s.len() == 4 ==> decimal(s) == digit_value(s[0]).unwrap_or(0) * 1000 + digit_value(
            s[1],
        ).unwrap_or(0) * 100 + digit_value(s[2]).unwrap_or(0) * 10 + digit_value(s[3]).unwrap_or(
            0,
        ),
        s.len() == 5 ==> decimal(s) == digit_value(s[0]).unwrap_or(0) * 10000 + digit_value(
            s[1],
        ).unwrap_or(0) * 1000 + digit_value(s[2]).unwrap_or(0) * 100 + digit_value(
            s[3],
        ).unwrap_or(0) * 10 + digit_value(s[4]).unwrap_or(0),
    decreases s.len(),
{
    let front = s.drop_last();
    if s.len() == 1 {
        assert(front.len() == 0);
        assert(decimal(front) == 0);
    } else {
        lemma_decimal_digits(front);
        assert(front[0] == s[0]);
        if s.len() > 2 {
            assert(front[1] == s[1]);
        }
        if s.len() > 3 {
            assert(front[2] == s[2]);
        }
        if s.len() > 4 {
            assert(front[3] == s[3]);
        }
    }
}

/// Runs of up to four hexadecimal digits, read.
pub proof fn lemma_hex_digits(s: Seq<char>)
    requires
        1 <= s.len() <= 4,
    ensures
        s.len() == 1 ==> hexadecimal(s) == hex_value(s[0]).unwrap_or(0),
        s.len() == 2 ==> hexadecimal(s) == hex_value(s[0]).unwrap_or(0) * 16 + hex_value(
            s[1],
        ).unwrap_or(0),
        s.len() == 3 ==> hexadecimal(s) == hex_value(s[0]).unwrap_or(0) * 256 + hex_value(
            s[1],
        ).unwrap_or(0) * 16 + hex_value(s[2]).unwrap_or(0),
        s.len() == 4 ==> hexadecimal(s) == hex_value(s[0]).unwrap_or(0) * 4096 + hex_value(
            s[1],
        ).unwrap_or(0) * 256 + hex_value(s[2]).unwrap_or(0) * 16 + hex_value(s[3]).unwrap_or(0),
    decreases s.len(),
{
    let front = s.drop_last();
    if s.len() == 1 {
        assert(front.len() == 0);
        assert(hexadecimal(front) == 0);
    } else {
        lemma_hex_digits(front);
        assert(front[0] == s[0]);
        if s.len() > 2 {
            assert(front[1] == s[1]);
        }
        if s.len() > 3 {
            assert(front[2] == s[2]);
        }
    }
}

/// An octet that is written is read as the same octet; its text is made
/// of digits alone.
pub proof fn law_octet_round_trip(n: u8)
    ensures
        octet_of_text(octet_text(n)) == Some(n),
        1 <= octet_text(n).len() <= 3,
        forall|i: int|
            0 <= i < octet_text(n).len() ==> (#[trigger] octet_text(n)[i]) != '.' && octet_text(
                n,
            )[i] != ':',
{
    let t = octet_text(n);
    lemma_decimal_digits(t);
    lemma_digit((n % 10) as int);
    lemma_digit((n / 10 % 10) as int);
    lemma_digit((n / 100) as int);
    if n < 100 {
        lemma_digit((n / 10) as int);
    }
    if n < 10 {
        lemma_digit(n as int);
    }
    assert forall|i: int| 0 <= i < t.len() implies digit_value(#[trigger] t[i]) is Some && t[i]
        != '.' && t[i] != ':' by {}
}

/// The digits of a number below 100000: they make the number.
proof fn lemma_decimal_places(n: int)
    requires
        0 <= n < 100000,
    ensures
        n == (n / 10000) * 10000 + (n / 1000 % 10) * 1000 + (n / 100 % 10) * 100 + (n / 10 % 10)
            * 10 + n % 10,
        0 <= n / 10000 < 10,
        n < 10000 ==> n / 10000 == 0 && 0 <= n / 1000 < 10,
        n < 1000 ==> n / 1000 == 0 && 0 <= n / 100 < 10,
        n < 100 ==> n / 100 == 0 && 0 <= n / 10 < 10,
        n < 10 ==> n / 10 == 0,
        n < 10000 ==> n / 1000 % 10 == n / 1000,
        n < 1000 ==> n / 100 % 10 == n / 100,
        n < 100 ==> n / 10 % 10 == n / 10,
        n >= 10 ==> n / 10 >= 1,
        n >= 100 ==> n / 100 >= 1,
        n >= 1000 ==> n / 1000 >= 1,
        n >= 10000 ==> n / 10000 >= 1,
{
    let q1 = n / 10;
    let q2 = q1 / 10;
    let q3 = q2 / 10;
    let q4 = q3 / 10;
    assert(n / 100 == q2) by (nonlinear_arith)
        requires
            q1 == n / 10,
            q2 == q1 / 10,
            0 <= n,
    ;
    assert(n / 1000 == q3) by (nonlinear_arith)
        requires
            q2 == n / 100,
            q3 == q2 / 10,
            0 <= n,
    ;
    assert(n / 10000 == q4) by (nonlinear_arith)
        requires
            q3 == n / 1000,
            q4 == q3 / 10,
            0 <= n,
    ;
}

/// The hexadecimal digits of a number below 65536: they make the number.
proof fn lemma_hex_places(n: int)
    requires
        0 <= n < 65536,
    ensures
        n == (n / 4096) * 4096 + (n / 256 % 16) * 256 + (n / 16 % 16) * 16 + n % 16,
        0 <= n / 4096 < 16,
        n < 4096 ==> n / 4096 == 0 && 0 <= n / 256 < 16,
        n < 256 ==> n / 256 == 0 && 0 <= n / 16 < 16,
        n < 16 ==> n / 16 == 0,
        n < 4096 ==> n / 256 % 16 == n / 256,
        n < 256 ==> n / 16 % 16 == n / 16,
        n >= 16 ==> n / 16 >= 1,
        n >= 256 ==> n / 256 >= 1,
        n >= 4096 ==> n / 4096 >= 1,
{
    let q1 = n / 16;
    let q2 = q1 / 16;
    let q3 = q2 / 16;
    assert(n / 256 == q2) by (nonlinear_arith)
        requires
            q1 == n / 16,
            q2 == q1 / 16,
            0 <= n,
    ;
    assert(n / 4096 == q3) by (nonlinear_arith)
        requires
            q2 == n / 256,
            q3 == q2 / 16,
            0 <= n,
    ;
}

/// What a run of up to five written digits reads as.
proof fn lemma_written_digits(t: Seq<char>, d: Seq<int>)
    requires
        1 <= t.len() <= 5,
        d.len() == t.len(),
        forall|i: int| 0 <= i < t.len() ==> 0 <= #[trigger] d[i] < 10 && t[i] == digit_char(d[i]),
    ensures
        all_digits(t),
        t.len() == 1 ==> decimal(t) == d[0],
        t.len() == 2 ==> decimal(t) == d[0] * 10 + d[1],
        t.len() == 3 ==> decimal(t) == d[0] * 100 + d[1] * 10 + d[2],
        t.len() == 4 ==> decimal(t) == d[0] * 1000 + d[1] * 100 + d[2] * 10 + d[3],
        t.len() == 5 ==> decimal(t) == d[0] * 10000 + d[1] * 1000 + d[2] * 100 + d[3] * 10 + d[4],
{
    lemma_decimal_digits(t);
    assert forall|i: int| 0 <= i < t.len() implies digit_value(#[trigger] t[i]) == Some(
        d[i] as nat,
    ) by {
        lemma_digit(d[i]);
    }
}

/// What a run of up to four written hexadecimal digits reads as.
proof fn lemma_written_hex(t: Seq<char>, d: Seq<int>)
    requires
        1 <= t.len() <= 4,
        d.len() == t.len(),
        forall|i: int| 0 <= i < t.len() ==> 0 <= #[trigger] d[i] < 16 && t[i] == hex_char(d[i]),
    ensures
        all_hex(t),
        forall|i: int| 0 <= i < t.len() ==> (#[trigger] t[i]) != '.' && t[i] != ':',
        t.len() == 1 ==> hexadecimal(t) == d[0],
        t.len() == 2 ==> hexadecimal(t) == d[0] * 16 + d[1],
        t.len() == 3 ==> hexadecimal(t) == d[0] * 256 + d[1] * 16 + d[2],
        t.len() == 4 ==> hexadecimal(t) == d[0] * 4096 + d[1] * 256 + d[2] * 16 + d[3],
{
    lemma_hex_digits(t);
    assert forall|i: int| 0 <= i < t.len() implies hex_value(#[trigger] t[i]) == Some(
        d[i] as nat,
    ) && t[i] != '.' && t[i] != ':' by {
        lemma_hex_digit(d[i]);
    }
}

/// A port that is written is read as the same port.
pub proof fn law_port_round_trip(n: u16)
    ensures
        port_of_text(port_text(n)) == Some(n),
{
    let t = port_text(n);
    let v = n as int;
    lemma_decimal_places(v);
    let d: Seq<int> = if n < 10 {
        seq![v]
    } else if n < 100 {
        seq![v / 10, v % 10]
    } else if n < 1000 {
        seq![v / 100, v / 10 % 10, v % 10]
    } else if n < 10000 {
        seq![v / 1000, v / 100 % 10, v / 10 % 10, v % 10]
    } else {
        seq![v / 10000, v / 1000 % 10, v / 100 % 10, v / 10 % 10, v % 10]
    };
    lemma_written_digits(t, d);
}

/// A segment that is written is read as the same segment; its text is
/// made of hexadecimal digits alone.
pub proof fn law_segment_round_trip(n: u16)
    ensures
        segment_of_text(segment_text(n)) == Some(n),
        1 <= segment_text(n).len() <= 4,
        forall|i: int|
            0 <= i < segment_text(n).len() ==> (#[trigger] segment_text(n)[i]) != '.'
                && segment_text(n)[i] != ':',
{
    let t = segment_text(n);
    let v = n as int;
    lemma_hex_places(v);
    let d: Seq<int> = if n < 16 {
        seq![v]
    } else if n < 256 {
        seq![v / 16, v % 16]
    } else if n < 4096 {
        seq![v / 256, v / 16 % 16, v % 16]
    } else {
        seq![v / 4096, v / 256 % 16, v / 16 % 16, v % 16]
    };
    lemma_written_hex(t, d);
}

/// The fields of a text that begins with a field without `c`, then `c`.
pub proof fn lemma_split_first(x: Seq<char>, c: char, rest: Seq<char>)
    requires
        forall|j: int| 0 <= j < x.len() ==> x[j] != c,
    ensures
        split(x + seq![c] + rest, c) == seq![x] + split(rest, c),
{
    let s = x + seq![c] + rest;
    assert forall|j: int| 0 <= j < x.len() implies s[j] != c by {
        assert(s[j] == x[j]);
    }
    assert(s[x.len() as int] == c);
    lemma_first_index(s, c, x.len() as int);
    assert(s.take(x.len() as int) =~= x);
    assert(s.skip(x.len() as int + 1) =~= rest);
}

/// A text without `c` is its own single field.
pub proof fn lemma_split_last(x: Seq<char>, c: char)
    requires
        forall|j: int| 0 <= j < x.len() ==> x[j] != c,
    ensures
        split(x, c) == seq![x],
{
    lemma_first_index(x, c, x.len() as int);
}

/// An IPv4 address that is written is read as the same address.
pub proof fn law_ipv4_round_trip(a: Ipv4Addr)
    ensures
        ipv4_of_text(ipv4_text(a)) == Some(a),
        forall|i: int| 0 <= i < ipv4_text(a).len() ==> (#[trigger] ipv4_text(a)[i]) != ':',
        ipv4_text(a).len() >= 7,
{
    let (ta, tb, tc, td) = (octet_text(a.a), octet_text(a.b), octet_text(a.c), octet_text(a.d));
    law_octet_round_trip(a.a);
    law_octet_round_trip(a.b);
    law_octet_round_trip(a.c);
    law_octet_round_trip(a.d);
    let r3 = td;
    let r2 = tc + seq!['.'] + r3;
    let r1 = tb + seq!['.'] + r2;
    let t = ta + seq!['.'] + r1;
    assert(t =~= ipv4_text(a));
    lemma_split_last(td, '.');
    lemma_split_first(tc, '.', r3);
    lemma_split_first(tb, '.', r2);
    lemma_split_first(ta, '.', r1);
    let f = split(t, '.');
    assert(f =~= seq![ta, tb, tc, td]);
    assert(f[0] == ta && f[1] == tb && f[2] == tc && f[3] == td);
    assert forall|i: int| 0 <= i < t.len() implies (#[trigger] t[i]) != ':' by {
        let la = ta.len() as int;
        let lb = tb.len() as int;
        let lc = tc.len() as int;
        if i < la {
            assert(t[i] == ta[i]);
        } else if i == la {
        } else if i < la + 1 + lb {
            assert(t[i] == tb[i - la - 1]);
        } else if i == la + 1 + lb {
        } else if i < la + 1 + lb + 1 + lc {
            assert(t[i] == tc[i - la - lb - 2]);
        } else if i == la + 1 + lb + 1 + lc {
        } else {
            assert(t[i] == td[i - la - lb - lc - 3]);
        }
    }
}

/// The texts of the segments, in order.
pub open spec fn segment_texts(g: Seq<u16>) -> Seq<Seq<char>> {
    Seq::new(g.len(), |i: int| segment_text(g[i]))
}

/// Joined segments, seen from the front: the first, a colon, the rest.
proof fn lemma_joined_front(g: Seq<u16>)
    requires
        g.len() >= 2,
    ensures
        joined(g) == segment_text(g[0]) + seq![':'] + joined(g.skip(1)),
    decreases g.len(),
{
    let front = g.drop_last();
    let rest = g.skip(1);
    if g.len() == 2 {
        assert(front.len() == 1 && rest.len() == 1);
        assert(front[0] == g[0]);
        assert(rest[0] == g[1]);
        assert(joined(front) == segment_text(g[0]));
        assert(joined(rest) == segment_text(g[1]));
    } else {
        lemma_joined_front(front);
        assert(front[0] == g[0]);
        assert(front.skip(1) =~= rest.drop_last());
        assert(rest.last() == g.last());
        assert(joined(g) == joined(front) + seq![':'] + segment_text(g.last()));
        assert(joined(rest) == joined(rest.drop_last()) + seq![':'] + segment_text(g.last()));
        assert(joined(g) =~= segment_text(g[0]) + seq![':'] + joined(rest));
    }
}

/// What joined segments are made of: no dot, no two colons in a row, and
/// no colon at either end.
proof fn lemma_joined_chars(g: Seq<u16>)
    ensures
        forall|i: int| 0 <= i < joined(g).len() ==> (#[trigger] joined(g)[i]) != '.',
        forall|j: int|
            0 <= j && j + 1 < joined(g).len() ==> !(#[trigger] joined(g)[j] == ':' && joined(
                g,
            )[j + 1] == ':'),
        g.len() >= 1 ==> joined(g).len() >= 1 && joined(g)[0] != ':' && joined(g).last() != ':',
        g.len() == 0 ==> joined(g).len() == 0,
    decreases g.len(),
{
    if g.len() == 1 {
        law_segment_round_trip(g[0]);
    } else if g.len() >= 2 {
        let front = g.drop_last();
        lemma_joined_chars(front);
        law_segment_round_trip(g.last());
        let a = joined(front);
        let b = segment_text(g.last());
        let t = joined(g);
        assert(t == a + seq![':'] + b);
        assert forall|i: int| 0 <= i < t.len() implies (#[trigger] t[i]) != '.' by {
            if i < a.len() {
                assert(t[i] == a[i]);
            } else if i > a.len() {
                assert(t[i] == b[i - a.len() - 1]);
            }
        }
        assert forall|j: int| 0 <= j && j + 1 < t.len() implies !(#[trigger] t[j] == ':' && t[j
            + 1] == ':') by {
            if j + 1 < a.len() {
                assert(t[j] == a[j] && t[j + 1] == a[j + 1]);
            } else if j + 1 == a.len() {
                assert(t[j] == a[j]);
                assert(a[j] == a.last());
            } else if j == a.len() {
                assert(t[j + 1] == b[0]);
            } else {
                assert(t[j] == b[j - a.len() - 1]);
            }
        }
        assert(t[0] == a[0]);
        assert(t.last() == b.last());
        assert(b.last() == b[b.len() - 1]);
    }
}

/// The fields of joined segments are the texts of the segments.
proof fn lemma_split_joined(g: Seq<u16>)
    requires
        g.len() >= 1,
    ensures
        split(joined(g), ':') == segment_texts(g),
    decreases g.len(),
{
    law_segment_round_trip(g[0]);
    if g.len() == 1 {
        lemma_split_last(segment_text(g[0]), ':');
        assert(segment_texts(g) =~= seq![segment_text(g[0])]);
    } else {
        lemma_joined_front(g);
        lemma_split_joined(g.skip(1));
        lemma_split_first(segment_text(g[0]), ':', joined(g.skip(1)));
        assert(segment_texts(g) =~= seq![segment_text(g[0])] + segment_texts(g.skip(1)));
    }
}

/// The texts of segments read as the segments.
proof fn lemma_segments_of_texts(g: Seq<u16>, v4_last: bool)
    ensures
        segments_of_fields(segment_texts(g), v4_last) == Some(g),
    decreases g.len(),
{
    let f = segment_texts(g);
    if g.len() == 0 {
        assert(g =~= Seq::<u16>::empty());
    } else {
        lemma_segments_of_texts(g.drop_last(), false);
        law_segment_round_trip(g.last());
        assert(f.drop_last() =~= segment_texts(g.drop_last()));
        assert(f.last() == segment_text(g.last()));
        assert(g.drop_last().push(g.last()) =~= g);
    }
}

/// Joined segments read as the segments.
proof fn lemma_joined_round_trip(g: Seq<u16>, v4_last: bool)
    ensures
        segments_of_fields(fields_of(joined(g)), v4_last) == Some(g),
{
    lemma_joined_chars(g);
    if g.len() == 0 {
        assert(g =~= Seq::<u16>::empty());
    } else {
        lemma_split_joined(g);
        lemma_segments_of_texts(g, v4_last);
    }
}

/// A run of zeros counted from `i` lies within the segments and holds
/// zeros alone.
proof fn lemma_zeros_from(g: Seq<u16>, i: int)
    requires
        0 <= i <= g.len(),
    ensures
        0 <= zeros_from(g, i) <= g.len() - i,
        forall|k: int| i <= k < i + zeros_from(g, i) ==> #[trigger] g[k] == 0,
    decreases g.len() - i,
{
    if i < g.len() && g[i] == 0 {
        lemma_zeros_from(g, i + 1);
    }
}

/// The longest run of zeros lies within the segments and holds zeros alone.
proof fn lemma_longest_zeros(g: Seq<u16>, i: int)
    requires
        0 <= i <= g.len(),
    ensures
        longest_zeros(g, i).1 >= 0,
        longest_zeros(g, i).1 > 0 ==> i <= longest_zeros(g, i).0 && longest_zeros(g, i).0
            + longest_zeros(g, i).1 <= g.len(),
        forall|k: int|
            longest_zeros(g, i).0 <= k < longest_zeros(g, i).0 + longest_zeros(g, i).1
                ==> #[trigger] g[k] == 0,
    decreases g.len() - i,
{
    if i < g.len() {
        lemma_zeros_from(g, i);
        lemma_longest_zeros(g, i + 1);
    }
}

/// The text of an address with `::` between the segments `head` and `tail`.
pub open spec fn shortened(head: Seq<u16>, tail: Seq<u16>) -> Seq<char> {
    joined(head) + seq![':', ':'] + joined(tail)
}

/// Where the `::` of a shortened address is: right behind the segments
/// that stand before it.
proof fn lemma_double_colon_between(head: Seq<u16>, tail: Seq<u16>)
    ensures
        double_colon(shortened(head, tail)) == Some(joined(head).len() as int),
        shortened(head, tail).take(joined(head).len() as int) == joined(head),
        shortened(head, tail).skip(joined(head).len() as int + 2) == joined(tail),
        forall|i: int|
            0 <= i < shortened(head, tail).len() ==> (#[trigger] shortened(head, tail)[i]) != '.',
{
    let h = joined(head);
    let t = joined(tail);
    let s = h + seq![':', ':'] + t;
    let n = h.len() as int;
    lemma_joined_chars(head);
    lemma_joined_chars(tail);
    assert(s[n] == ':' && s[n + 1] == ':');
    assert forall|j: int| 0 <= j < n && j + 1 < s.len() implies !(#[trigger] s[j] == ':' && s[j
        + 1] == ':') by {
        assert(s[j] == h[j]);
        if j + 1 < n {
            assert(s[j + 1] == h[j + 1]);
        } else {
            assert(h[j] == h.last());
        }
    }
    lemma_double_colon(s, n);
    assert(s.take(n) =~= h);
    assert(s.skip(n + 2) =~= t);
    assert forall|i: int| 0 <= i < s.len() implies (#[trigger] s[i]) != '.' by {
        if i < n {
            assert(s[i] == h[i]);
        } else if i >= n + 2 {
            assert(s[i] == t[i - n - 2]);
        }
    }
}

/// An IPv6 address that is written is read as the same address, and its
/// text is not the text of an IPv4 address.
pub proof fn law_ipv6_round_trip(a: Ipv6Addr)
    ensures
        ipv6_of_text(ipv6_text(a)) == Some(a),
        ipv4_of_text(ipv6_text(a)) is None,
        forall|i: int| 0 <= i < ipv6_text(a).len() ==> (#[trigger] ipv6_text(a)[i]) != ']',
{
    let g = a.spec_segments();
    let text = ipv6_text(a);
    assert(g.len() == 8);
    assert(g[0] == a.s0 && g[1] == a.s1 && g[2] == a.s2 && g[3] == a.s3 && g[4] == a.s4 && g[5]
        == a.s5 && g[6] == a.s6 && g[7] == a.s7);
    if is_mapped(a) {
        lemma_mapped_round_trip(a);
    } else {
        let (start, len) = longest_zeros(g, 0);
        lemma_longest_zeros(g, 0);
        if len > 1 {
            let head = g.take(start);
            let tail = g.skip(start + len);
            lemma_double_colon_between(head, tail);
            assert(text == shortened(head, tail));
            lemma_joined_round_trip(head, false);
            lemma_joined_round_trip(tail, true);
            let all = head + zeros(8 - head.len() - tail.len()) + tail;
            assert(all =~= g);
            lemma_split_last(text, '.');
            lemma_no_bracket(head);
            lemma_no_bracket(tail);
            assert forall|i: int| 0 <= i < text.len() implies (#[trigger] text[i]) != ']' by {
                let h = joined(head);
                let t = joined(tail);
                if i < h.len() {
                    assert(text[i] == h[i]);
                } else if i >= h.len() + 2 {
                    assert(text[i] == t[i - h.len() - 2]);
                }
            }
        } else {
            lemma_joined_chars(g);
            lemma_double_colon(text, text.len() as int);
            lemma_split_joined(g);
            lemma_segments_of_texts(g, true);
            lemma_split_last(text, '.');
            lemma_no_bracket(g);
        }
    }
}

/// Joined segments hold no closing bracket.
proof fn lemma_no_bracket(g: Seq<u16>)
    ensures
        forall|i: int| 0 <= i < joined(g).len() ==> (#[trigger] joined(g)[i]) != ']',
    decreases g.len(),
{
    if g.len() == 1 {
        lemma_segment_plain(g[0]);
    } else if g.len() >= 2 {
        lemma_no_bracket(g.drop_last());
        lemma_segment_plain(g.last());
        let a = joined(g.drop_last());
        let b = segment_text(g.last());
        let t = joined(g);
        assert forall|i: int| 0 <= i < t.len() implies (#[trigger] t[i]) != ']' by {
            if i < a.len() {
                assert(t[i] == a[i]);
            } else if i > a.len() {
                assert(t[i] == b[i - a.len() - 1]);
            }
        }
    }
}

/// The text of a segment holds no closing bracket.
proof fn lemma_segment_plain(n: u16)
    ensures
        forall|i: int| 0 <= i < segment_text(n).len() ==> (#[trigger] segment_text(n)[i]) != ']',
{
    lemma_hex_places(n as int);
}

/// The text of an octet holds no closing bracket.
proof fn lemma_octet_plain(n: u8)
    ensures
        forall|i: int| 0 <= i < octet_text(n).len() ==> (#[trigger] octet_text(n)[i]) != ']',
{
}

/// The address of an address that stands for an IPv4 address.
pub open spec fn mapped_ipv4(a: Ipv6Addr) -> Ipv4Addr {
    Ipv4Addr { a: high(a.s6), b: low(a.s6), c: high(a.s7), d: low(a.s7) }
}

proof fn lemma_mapped_round_trip(a: Ipv6Addr)
    requires
        is_mapped(a),
    ensures
        ipv6_of_text(ipv6_text(a)) == Some(a),
        ipv4_of_text(ipv6_text(a)) is None,
        forall|i: int| 0 <= i < ipv6_text(a).len() ==> (#[trigger] ipv6_text(a)[i]) != ']',
{
    let v4 = mapped_ipv4(a);
    let vt = ipv4_text(v4);
    let text = ipv6_text(a);
    let ffff = seq!['f', 'f', 'f', 'f'];
    law_ipv4_round_trip(v4);
    law_segment_round_trip(0xffff);
    assert(segment_text(0xffff) =~= ffff);
    assert(text == seq![':', ':', 'f', 'f', 'f', 'f', ':'] + vt);
    assert(text[0] == ':' && text[1] == ':');
    lemma_double_colon(text, 0);
    let tail_text = text.skip(2);
    assert(text.take(0) =~= Seq::<char>::empty());
    assert(tail_text =~= ffff + seq![':'] + vt);
    lemma_split_last(vt, ':');
    lemma_split_first(ffff, ':', vt);
    let f = split(tail_text, ':');
    assert(f =~= seq![ffff, vt]);
    assert(f.drop_last() =~= seq![ffff]);
    assert(f.last() == vt);
    assert(seq![ffff].drop_last() =~= Seq::<Seq<char>>::empty());
    assert(segments_of_fields(seq![ffff], false) == Some(seq![0xffffu16])) by {
        assert(seq![ffff].last() == ffff);
        assert(Seq::<u16>::empty().push(0xffffu16) =~= seq![0xffffu16]);
    }
    assert(segment_of_text(vt) is None);
    let tail = seq![0xffffu16].push(join(v4.a, v4.b)).push(join(v4.c, v4.d));
    assert(segments_of_fields(f, true) == Some(tail));
    assert(join(v4.a, v4.b) == a.s6);
    assert(join(v4.c, v4.d) == a.s7);
    let all = Seq::<u16>::empty() + zeros(8 - 0 - 3) + tail;
    assert(all =~= a.spec_segments());
    assert(fields_of(text.take(0)) =~= Seq::<Seq<char>>::empty());
    // not an IPv4 text: its first field begins with a colon
    let i = first_index(text, '.') as int;
    lemma_first_field(text, '.');
    assert(split(text, '.')[0][0] == ':');
    lemma_octet_plain(v4.a);
    lemma_octet_plain(v4.b);
    lemma_octet_plain(v4.c);
    lemma_octet_plain(v4.d);
    assert forall|k: int| 0 <= k < text.len() implies (#[trigger] text[k]) != ']' by {
        if k >= 7 {
            let (ta, tb, tc, td) = (
                octet_text(v4.a),
                octet_text(v4.b),
                octet_text(v4.c),
                octet_text(v4.d),
            );
            let j = k - 7;
            assert(text[k] == vt[j]);
            let la = ta.len() as int;
            let lb = tb.len() as int;
            let lc = tc.len() as int;
            if j < la {
                assert(vt[j] == ta[j]);
            } else if j == la {
            } else if j < la + 1 + lb {
                assert(vt[j] == tb[j - la - 1]);
            } else if j == la + 1 + lb {
            } else if j < la + 1 + lb + 1 + lc {
                assert(vt[j] == tc[j - la - lb - 2]);
            } else if j == la + 1 + lb + 1 + lc {
            } else {
                assert(vt[j] == td[j - la - lb - lc - 3]);
            }
        }
    }
}

/// The first field of a text that does not begin with `c` begins as the
/// text does.
proof fn lemma_first_field(s: Seq<char>, c: char)
    requires
        s.len() > 0,
        s[0] != c,
    ensures
        split(s, c).len() >= 1,
        split(s, c)[0].len() >= 1,
        split(s, c)[0][0] == s[0],
{
    let i = first_index(s, c) as int;
    assert(i >= 1);
    if i >= s.len() {
    } else {
        assert(s.take(i)[0] == s[0]);
        assert((seq![s.take(i)] + split(s.skip(i + 1), c))[0] == s.take(i));
    }
}

/// An IP address that is written is read as the same address.
pub proof fn law_ip_round_trip(ip: IpAddr)
    ensures
        ip_of_text(ip_text(ip)) == Some(ip),
{
    match ip {
        IpAddr::V4(a) => {
            law_ipv4_round_trip(a);
        },
        IpAddr::V6(a) => {
            law_ipv6_round_trip(a);
        },
    }
}

/// A socket address that is written is read as the same address.
pub proof fn law_socket_addr_round_trip(a: SocketAddr)
    ensures
        socket_addr_of_text(socket_addr_text(a)) == Some(a),
{
    let text = socket_addr_text(a);
    law_port_round_trip(a.port);
    match a.ip {
        IpAddr::V4(ip) => {
            let it = ipv4_text(ip);
            law_ipv4_round_trip(ip);
            lemma_octet_plain(ip.a);
            assert(text == it + seq![':'] + port_text(a.port));
            assert(text[0] == it[0]);
            assert(it[0] == octet_text(ip.a)[0]);
            assert(text[0] != '[');
            assert forall|j: int| 0 <= j < it.len() implies text[j] != ':' by {
                assert(text[j] == it[j]);
            }
            assert(text[it.len() as int] == ':');
            lemma_first_index(text, ':', it.len() as int);
            assert(text.take(it.len() as int) =~= it);
            assert(text.skip(it.len() as int + 1) =~= port_text(a.port));
        },
        IpAddr::V6(ip) => {
            let it = ipv6_text(ip);
            law_ipv6_round_trip(ip);
            assert(text == seq!['['] + it + seq![']', ':'] + port_text(a.port));
            assert(text[0] == '[');
            let close = it.len() as int + 1;
            assert forall|j: int| 0 <= j < close implies text[j] != ']' by {
                if j >= 1 {
                    assert(text[j] == it[j - 1]);
                }
            }
            assert(text[close] == ']');
            assert(text[close + 1] == ':');
            lemma_first_index(text, ']', close);
            assert(text.subrange(1, close) =~= it);
            assert(text.skip(close + 2) =~= port_text(a.port));
        },
    }
}

} // verus!
