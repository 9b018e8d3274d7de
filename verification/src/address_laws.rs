//! How addresses are written and read, and how they tell peers apart.

use vstd::prelude::*;
use vstd::utf8::decode_utf8;

use crate::buffer::{first_index, lemma_first_index};
use crate::ip::{
    colon_groups, double_colon_at, group, groups_text, hex, hex_value, ip_text, lemma_double_colon_unique,
    longest_run_below, octet, parse_ip, parse_ipv4, part_groups, split, zero_run, IpAddrView,
};
use crate::ip_lemmas::{lemma_ip_round_trip, lemma_split_cons, lemma_split_single};
use crate::socket::{address_key, lemma_address_key_injective, socket_text, SocketAddrView};
use crate::text::{decimal, digits_value, is_digits};

verus! {

/// Peers are known under the same text where their addresses, ports and scopes
/// agree, and only there. An IPv4 peer is never taken for an IPv6 one.
pub proof fn law_peers_are_told_apart(
    o: Seq<u8>,
    o2: Seq<u8>,
    g: Seq<u16>,
    g2: Seq<u16>,
    port: u16,
    port2: u16,
    flowinfo: u32,
    flowinfo2: u32,
    scope_id: u32,
    scope_id2: u32,
)
    requires
        o.len() == 4,
        o2.len() == 4,
        g.len() == 8,
        g2.len() == 8,
    ensures
        address_key(SocketAddrView::V4 { octets: o, port }) == address_key(
            SocketAddrView::V4 { octets: o2, port: port2 },
        ) <==> o == o2 && port == port2,
        address_key(SocketAddrView::V6 { groups: g, port, flowinfo, scope_id }) == address_key(
            SocketAddrView::V6 {
                groups: g2,
                port: port2,
                flowinfo: flowinfo2,
                scope_id: scope_id2,
            },
        ) <==> g == g2 && port == port2 && scope_id == scope_id2,
        address_key(SocketAddrView::V4 { octets: o, port }) != address_key(
            SocketAddrView::V6 {
                groups: g2,
                port: port2,
                flowinfo: flowinfo2,
                scope_id: scope_id2,
            },
        ),
{
    let a = SocketAddrView::V4 { octets: o, port };
    let b = SocketAddrView::V4 { octets: o2, port: port2 };
    let c = SocketAddrView::V6 { groups: g, port, flowinfo, scope_id };
    let d = SocketAddrView::V6 {
        groups: g2,
        port: port2,
        flowinfo: flowinfo2,
        scope_id: scope_id2,
    };
    lemma_address_key_injective(a, b);
    lemma_address_key_injective(c, d);
    lemma_address_key_injective(a, d);
}

/// A socket address is written as the address, in brackets together with a
/// percent sign and its scope where it is an IPv6 one with a scope, a colon and
/// the port.
pub proof fn law_socket_address_is_written(
    o: Seq<u8>,
    g: Seq<u16>,
    port: u16,
    flowinfo: u32,
    scope_id: u32,
)
    ensures
        socket_text(SocketAddrView::V4 { octets: o, port }) == ip_text(IpAddrView::V4(o)) + seq![
            0x3au8,
        ] + decimal(port as nat),
        socket_text(SocketAddrView::V6 { groups: g, port, flowinfo, scope_id: 0 }) == seq![0x5bu8]
            + ip_text(IpAddrView::V6(g)) + seq![0x5du8, 0x3a] + decimal(port as nat),
        scope_id != 0 ==> socket_text(
            SocketAddrView::V6 { groups: g, port, flowinfo, scope_id },
        ) == seq![0x5bu8] + ip_text(IpAddrView::V6(g)) + seq![0x25u8] + decimal(scope_id as nat)
            + seq![0x5du8, 0x3a] + decimal(port as nat),
        address_key(SocketAddrView::V4 { octets: o, port }) == decode_utf8(
            socket_text(SocketAddrView::V4 { octets: o, port }),
        ),
        address_key(SocketAddrView::V6 { groups: g, port, flowinfo, scope_id }) == decode_utf8(
            socket_text(SocketAddrView::V6 { groups: g, port, flowinfo, scope_id }),
        ),
{
    assert(socket_text(SocketAddrView::V6 { groups: g, port, flowinfo, scope_id: 0 }) =~= seq![
        0x5bu8,
    ] + ip_text(IpAddrView::V6(g)) + seq![0x5du8, 0x3a] + decimal(port as nat));
    if scope_id != 0 {
        assert(socket_text(SocketAddrView::V6 { groups: g, port, flowinfo, scope_id }) =~= seq![
            0x5bu8,
        ] + ip_text(IpAddrView::V6(g)) + seq![0x25u8] + decimal(scope_id as nat) + seq![
            0x5du8,
            0x3a,
        ] + decimal(port as nat));
    }
}

/// An IPv4 address is written as its octets in decimal with dots between them,
/// and that text is read as the address.
pub proof fn law_ipv4_address_is_written(a: u8, b: u8, c: u8, d: u8)
    ensures
        ip_text(IpAddrView::V4(seq![a, b, c, d])) == decimal(a as nat) + seq![0x2eu8] + decimal(
            b as nat,
        ) + seq![0x2eu8] + decimal(c as nat) + seq![0x2eu8] + decimal(d as nat),
        parse_ip(
            decimal(a as nat) + seq![0x2eu8] + decimal(b as nat) + seq![0x2eu8] + decimal(c as nat)
                + seq![0x2eu8] + decimal(d as nat),
        ) == Some(IpAddrView::V4(seq![a, b, c, d])),
{
    lemma_ip_round_trip(IpAddrView::V4(seq![a, b, c, d]));
}

proof fn lemma_digits_value_grows(s: Seq<u8>)
    requires
        is_digits(s),
        s[0] != 0x30,
    ensures
        digits_value(s) > 0,
        s.len() > 1 ==> digits_value(s) >= 10,
    decreases s.len(),
{
    let head = s.drop_last();
    if s.len() == 1 {
        reveal_with_fuel(digits_value, 2);
        assert(head =~= Seq::<u8>::empty());
    } else {
        assert(head[0] == s[0]);
        lemma_digits_value_grows(head);
    }
}

/// Digits without leading zeros are the decimal digits of their value.
proof fn lemma_decimal_unique(s: Seq<u8>)
    requires
        is_digits(s),
        s.len() > 1 ==> s[0] != 0x30,
    ensures
        s == decimal(digits_value(s)),
    decreases s.len(),
{
    let head = s.drop_last();
    let unit = (s.last() - 0x30) as nat;
    assert(0x30 <= s.last() <= 0x39);
    if s.len() == 1 {
        reveal_with_fuel(digits_value, 2);
        assert(head =~= Seq::<u8>::empty());
        assert(s =~= decimal(digits_value(s)));
    } else {
        assert(head[0] == s[0]);
        assert(is_digits(head));
        lemma_digits_value_grows(head);
        lemma_decimal_unique(head);
        let v = digits_value(s);
        assert(v == digits_value(head) * 10 + unit);
        assert(v / 10 == digits_value(head) && v % 10 == unit);
        assert(s =~= decimal(digits_value(head)).push(s.last()));
    }
}

proof fn lemma_split_first(s: Seq<u8>, sep: u8)
    ensures
        split(s, sep).len() >= 1,
        split(s, sep).len() == 1 ==> split(s, sep)[0] == s,
        split(s, sep).len() > 1 ==> {
            let i = first_index(s, sep);
            &&& 0 <= i < s.len()
            &&& s == split(s, sep)[0] + seq![sep] + s.skip(i + 1)
            &&& split(s.skip(i + 1), sep) == split(s, sep).drop_first()
        },
{
    lemma_first_index(s, sep);
    let i = first_index(s, sep);
    if i < s.len() {
        let rest = split(s.skip(i + 1), sep);
        assert(split(s, sep) == seq![s.take(i)] + rest);
        assert(split(s, sep).drop_first() =~= rest);
        assert(s =~= s.take(i) + seq![sep] + s.skip(i + 1));
        lemma_first_index(s.skip(i + 1), sep);
        assert(rest.len() >= 1);
    }
}

/// Four parts between dots make up the whole.
proof fn lemma_split_four(s: Seq<u8>, sep: u8)
    requires
        split(s, sep).len() == 4,
    ensures
        ({
            let p = split(s, sep);
            let t = seq![sep];
            s == p[0] + t + (p[1] + t + (p[2] + t + p[3]))
        }),
{
    let p = split(s, sep);
    let s1 = s.skip(first_index(s, sep) + 1);
    let s2 = s1.skip(first_index(s1, sep) + 1);
    let s3 = s2.skip(first_index(s2, sep) + 1);
    lemma_split_first(s, sep);
    lemma_split_first(s1, sep);
    lemma_split_first(s2, sep);
    lemma_split_first(s3, sep);
    assert(split(s1, sep)[0] == p[1]);
    assert(split(s2, sep)[0] == p[2]);
    assert(split(s3, sep)[0] == p[3]);
}

proof fn lemma_dots_regroup(a: Seq<u8>, b: Seq<u8>, c: Seq<u8>, d: Seq<u8>, t: Seq<u8>)
    ensures
        a + t + (b + t + (c + t + d)) == a + t + b + t + c + t + d,
{
    assert(a + t + (b + t + (c + t + d)) =~= a + t + b + t + c + t + d);
}

/// Only the dotted text of an IPv4 address is read as that address.
pub proof fn law_ipv4_text_is_unique(s: Seq<u8>, a: u8, b: u8, c: u8, d: u8)
    requires
        parse_ip(s) == Some(IpAddrView::V4(seq![a, b, c, d])),
    ensures
        s == decimal(a as nat) + seq![0x2eu8] + decimal(b as nat) + seq![0x2eu8] + decimal(c as nat)
            + seq![0x2eu8] + decimal(d as nat),
{
    let p = split(s, 0x2e);
    let o = seq![a, b, c, d];
    assert(parse_ipv4(s) == Some(o));
    assert(p.len() == 4);
    lemma_octets(s, o);
    lemma_split_four(s, 0x2e);
    lemma_decimal_unique(p[0]);
    lemma_decimal_unique(p[1]);
    lemma_decimal_unique(p[2]);
    lemma_decimal_unique(p[3]);
    lemma_dots_regroup(p[0], p[1], p[2], p[3], seq![0x2eu8]);
}

proof fn lemma_octets(s: Seq<u8>, o: Seq<u8>)
    requires
        parse_ipv4(s) == Some(o),
    ensures
        ({
            let p = split(s, 0x2e);
            &&& p.len() == 4
            &&& octet(p[0]) == Some(o[0])
            &&& octet(p[1]) == Some(o[1])
            &&& octet(p[2]) == Some(o[2])
            &&& octet(p[3]) == Some(o[3])
        }),
{
}

/// Groups are written in lower-case hexadecimal, most significant digit first and
/// without leading zeros.
pub proof fn law_groups_are_hexadecimal(high: nat, unit: nat)
    requires
        unit < 16,
    ensures
        unit < 10 ==> hex(unit) == seq![(0x30 + unit) as u8],
        unit >= 10 ==> hex(unit) == seq![(0x61 + (unit - 10)) as u8],
        high > 0 ==> hex(high * 16 + unit) == hex(high) + hex(unit),
{
    if high > 0 {
        let m = high * 16 + unit;
        assert(m / 16 == high && m % 16 == unit);
        assert(hex(m) =~= hex(high) + hex(unit));
    }
}

/// A group is read from one to four hexadecimal digits of either case, with
/// leading zeros or without; anything else is none.
pub proof fn law_group_is_read(s: Seq<u8>, digit: u8, i: int)
    ensures
        s.len() == 0 || s.len() > 4 ==> group(s) is None,
        0 <= i < s.len() && !(0x30 <= s[i] <= 0x39 || 0x41 <= s[i] <= 0x46 || 0x61 <= s[i] <= 0x66)
            ==> group(s) is None,
        1 <= s.len() <= 4 && (forall|j: int|
            0 <= j < s.len() ==> 0x30 <= #[trigger] s[j] <= 0x39 || 0x41 <= s[j] <= 0x46 || 0x61
                <= s[j] <= 0x66) ==> group(s) == Some(hex_value(s) as u16),
        hex_value(Seq::empty()) == 0,
        0x30 <= digit <= 0x39 ==> hex_value(s.push(digit)) == hex_value(s) * 16 + (digit - 0x30),
        0x41 <= digit <= 0x46 ==> hex_value(s.push(digit)) == hex_value(s) * 16 + (digit - 0x41
            + 10),
        0x61 <= digit <= 0x66 ==> hex_value(s.push(digit)) == hex_value(s) * 16 + (digit - 0x61
            + 10),
{
    assert(s.push(digit).drop_last() =~= s);
}

/// Groups are written with colons between them.
pub proof fn law_groups_are_separated(g: Seq<u16>, n: u16)
    ensures
        groups_text(Seq::empty()) == Seq::<u8>::empty(),
        groups_text(seq![n]) == hex(n as nat),
        g.len() > 0 ==> groups_text(seq![n] + g) == hex(n as nat) + seq![0x3au8] + groups_text(g),
{
    assert((seq![n] + g).drop_first() =~= g);
}

/// True for a run of `k` zero groups from `i` on.
pub open spec fn is_zero_run(g: Seq<u16>, i: int, k: int) -> bool {
    &&& 0 <= i
    &&& i + k <= g.len()
    &&& forall|j: int| i <= j < i + k ==> #[trigger] g[j] == 0
}

proof fn lemma_zero_run_is_run(g: Seq<u16>, i: int)
    requires
        0 <= i <= g.len(),
    ensures
        is_zero_run(g, i, zero_run(g, i) as int),
    decreases g.len() - i,
{
    if i < g.len() && g[i] == 0 {
        lemma_zero_run_is_run(g, i + 1);
        assert(is_zero_run(g, i + 1, zero_run(g, i + 1) as int));
    }
}

proof fn lemma_zero_run_longest(g: Seq<u16>, i: int, k: int)
    requires
        is_zero_run(g, i, k),
    ensures
        zero_run(g, i) >= k,
    decreases k,
{
    if k > 0 {
        assert(g[i] == 0);
        assert(is_zero_run(g, i + 1, k - 1));
        lemma_zero_run_longest(g, i + 1, k - 1);
    }
}

proof fn lemma_longest_run_first(g: Seq<u16>, n: int)
    requires
        1 <= n <= g.len(),
    ensures
        0 <= longest_run_below(g, n) < n,
        forall|j: int|
            0 <= j < n ==> #[trigger] zero_run(g, j) <= zero_run(g, longest_run_below(g, n)),
        forall|j: int|
            0 <= j < longest_run_below(g, n) ==> #[trigger] zero_run(g, j) < zero_run(
                g,
                longest_run_below(g, n),
            ),
    decreases n,
{
    if n > 1 {
        lemma_longest_run_first(g, n - 1);
    }
}

/// An IPv6 address is written with `::` in place of its first longest run of two
/// or more zero groups, and with all its groups where there is no such run. An
/// address that an IPv4 one is mapped to ends in the dotted form of that one.
pub proof fn law_ipv6_address_is_written(g: Seq<u16>, start: int, len: int)
    requires
        g.len() == 8,
    ensures
        ({
            let mapped = g[0] == 0 && g[1] == 0 && g[2] == 0 && g[3] == 0 && g[4] == 0 && g[5]
                == 0xffff;
            let text = ip_text(IpAddrView::V6(g));
            &&& mapped ==> text == seq![0x3au8, 0x3a, 0x66, 0x66, 0x66, 0x66, 0x3a] + ip_text(
                IpAddrView::V4(
                    seq![
                        (g[6] / 256) as u8,
                        (g[6] % 256) as u8,
                        (g[7] / 256) as u8,
                        (g[7] % 256) as u8,
                    ],
                ),
            )
            &&& !mapped && len > 1 && is_zero_run(g, start, len) && (forall|i: int, k: int| #[trigger]
                is_zero_run(g, i, k) ==> k <= len && (i < start ==> k < len)) ==> text
                == groups_text(g.take(start)) + seq![0x3au8, 0x3a] + groups_text(
                g.skip(start + len),
            )
            &&& !mapped && (forall|i: int| 0 <= i < 7 ==> (#[trigger] g[i] != 0 || g[i + 1] != 0))
                ==> text == groups_text(g)
        }),
{
    let best = longest_run_below(g, 8);
    let k = zero_run(g, best) as int;
    lemma_longest_run_first(g, 8);
    lemma_zero_run_is_run(g, best);
    if len > 1 && is_zero_run(g, start, len) && (forall|i: int, k: int| #[trigger]
        is_zero_run(g, i, k) ==> k <= len && (i < start ==> k < len)) {
        lemma_zero_run_longest(g, start, len);
        lemma_zero_run_is_run(g, start);
        assert(start < 8);
        assert(zero_run(g, start) == len);
        assert(is_zero_run(g, best, k));
        assert(k == len);
        assert(best == start);
    }
    if forall|i: int| 0 <= i < 7 ==> (#[trigger] g[i] != 0 || g[i + 1] != 0) {
        if k > 1 {
            assert(g[best] == 0 && g[best + 1] == 0);
        }
    }
}

/// Groups are read one by one between colons. Only where it is allowed, and only
/// at the end, an IPv4 address stands for two groups.
pub proof fn law_groups_are_read_one_by_one(part: Seq<u8>, rest: Seq<u8>, v4: bool, o: Seq<u8>)
    requires
        part.len() > 0,
        rest.len() > 0,
        forall|i: int| 0 <= i < part.len() ==> #[trigger] part[i] != 0x3a,
    ensures
        colon_groups(Seq::empty(), v4) == Some(Seq::<u16>::empty()),
        group(part) is Some && colon_groups(rest, v4) is Some ==> colon_groups(
            part + seq![0x3au8] + rest,
            v4,
        ) == Some(seq![group(part)->0] + colon_groups(rest, v4)->0),
        group(part) is None || colon_groups(rest, v4) is None ==> colon_groups(
            part + seq![0x3au8] + rest,
            v4,
        ) is None,
        group(part) is Some && !(v4 && parse_ip(part) is Some) ==> colon_groups(part, v4)
            == Some(seq![group(part)->0]),
        v4 && parse_ip(part) == Some(IpAddrView::V4(o)) ==> {
            &&& colon_groups(part, v4) matches Some(pair)
            &&& pair.len() == 2
            &&& pair[0] == o[0] * 256 + o[1]
            &&& pair[1] == o[2] * 256 + o[3]
        },
        group(part) is None && !(v4 && parse_ip(part) is Some) ==> colon_groups(part, v4) is None,
{
    assert(!part.contains(0x3au8));
    lemma_split_single(part, 0x3a);
    lemma_split_cons(part, 0x3a, rest);
    lemma_split_first(rest, 0x3a);
    let parts = seq![part] + split(rest, 0x3a);
    assert(parts.drop_first() =~= split(rest, 0x3a));
    assert(parts.len() > 1);
    assert(seq![part].drop_first() =~= Seq::<Seq<u8>>::empty());
    reveal_with_fuel(part_groups, 2);
    if group(part) is Some {
        assert(seq![group(part)->0] + Seq::<u16>::empty() =~= seq![group(part)->0]);
    }
}

/// True where `s` holds two colons in a row at `i`.
pub open spec fn two_colons_at(s: Seq<u8>, i: int) -> bool {
    0 <= i && i + 1 < s.len() && s[i] == 0x3a && s[i + 1] == 0x3a
}

/// The first two colons in a row stand for the zero groups that are missing, of
/// which there has to be one at least; no IPv4 address may stand before them.
pub proof fn law_compressed_address_is_read(s: Seq<u8>, n: int)
    requires
        two_colons_at(s, n),
        forall|i: int| 0 <= i < n ==> !#[trigger] two_colons_at(s, i),
    ensures
        ({
            let read = parse_ip(s);
            let h = colon_groups(s.take(n), false);
            let t = colon_groups(s.skip(n + 2), true);
            let good = h is Some && t is Some && h->0.len() + t->0.len() <= 7;
            &&& good ==> read == Some(
                IpAddrView::V6(
                    h->0 + Seq::new((8 - h->0.len() - t->0.len()) as nat, |k: int| 0u16) + t->0,
                ),
            )
            &&& !good ==> read is None
        }),
{
    assert(double_colon_at(s, n));
    assert forall|i: int| 0 <= i < n implies !double_colon_at(s, i) by {
        assert(!two_colons_at(s, i));
    }
    lemma_double_colon_unique(s, n);
    assert(s[n] == 0x3au8);
    assert(s.contains(0x3au8));
}

/// Without two colons in a row an IPv6 address has all its eight groups.
pub proof fn law_plain_address_is_read(s: Seq<u8>, at: int)
    requires
        0 <= at < s.len(),
        s[at] == 0x3a,
        forall|i: int| 0 <= i < s.len() ==> !#[trigger] two_colons_at(s, i),
    ensures
        ({
            let g = colon_groups(s, true);
            &&& g is Some && g->0.len() == 8 ==> parse_ip(s) == Some(IpAddrView::V6(g->0))
            &&& !(g is Some && g->0.len() == 8) ==> parse_ip(s) is None
        }),
{
    assert forall|i: int| 0 <= i < s.len() implies !double_colon_at(s, i) by {
        assert(!two_colons_at(s, i));
    }
    lemma_double_colon_unique(s, s.len() as int);
    assert(s[at] == 0x3au8);
    assert(s.contains(0x3au8));
}

/// Reading the text of any address gives that address.
pub proof fn law_address_is_read_back(o: Seq<u8>, g: Seq<u16>)
    requires
        o.len() == 4,
        g.len() == 8,
    ensures
        parse_ip(ip_text(IpAddrView::V4(o))) == Some(IpAddrView::V4(o)),
        parse_ip(ip_text(IpAddrView::V6(g))) == Some(IpAddrView::V6(g)),
{
    lemma_ip_round_trip(IpAddrView::V4(o));
    lemma_ip_round_trip(IpAddrView::V6(g));
}

} // verus!
