//! Facts about the textual form of IP addresses.

use vstd::prelude::*;

use crate::buffer::{lemma_first_index, lemma_first_index_unique};
use crate::ip::{
    colon_groups, double_colon_at, group, groups_text, hex, hex_value, ip_text, ipv4_text,
    ipv6_text, is_mapped, lemma_double_colon_unique, longest_run_below, mapped_prefix, octet,
    octet_pair, pair_octets, parse_ip, parse_ipv4, parse_ipv6, part_groups, split, zero_run,
    IpAddrView,
};
use crate::text::{decimal, is_digits, is_plain_ascii, lemma_decimal};

verus! {

/// True for an address with four octets or eight groups.
pub open spec fn is_ip(ip: IpAddrView) -> bool {
    match ip {
        IpAddrView::V4(o) => o.len() == 4,
        IpAddrView::V6(g) => g.len() == 8,
    }
}

/// True for a text of lower-case hexadecimal digits, dots, slashes and colons.
pub open spec fn is_address_text(s: Seq<u8>) -> bool {
    forall|i: int| 0 <= i < s.len() ==> 0x2e <= #[trigger] s[i] <= 0x3a || 0x61 <= s[i] <= 0x66
}

pub(crate) proof fn lemma_split_single(s: Seq<u8>, sep: u8)
    requires
        !s.contains(sep),
    ensures
        split(s, sep) == seq![s],
{
    assert forall|i: int| 0 <= i < s.len() implies s[i] != sep by {
        assert(s.contains(s[i]));
    }
    lemma_first_index_unique(s, sep, s.len() as int);
}

pub(crate) proof fn lemma_split_cons(a: Seq<u8>, sep: u8, b: Seq<u8>)
    requires
        !a.contains(sep),
    ensures
        split(a + seq![sep] + b, sep) == seq![a] + split(b, sep),
{
    let s = a + seq![sep] + b;
    assert forall|i: int| 0 <= i < a.len() implies s[i] != sep by {
        assert(s[i] == a[i]);
        assert(a.contains(a[i]));
    }
    lemma_first_index_unique(s, sep, a.len() as int);
    assert(s.take(a.len() as int) =~= a);
    assert(s.skip(a.len() as int + 1) =~= b);
}

proof fn lemma_split_nonempty(s: Seq<u8>, sep: u8)
    ensures
        split(s, sep).len() >= 1,
{
    lemma_first_index(s, sep);
}

/// True for lower-case hexadecimal digits.
spec fn is_hex(s: Seq<u8>) -> bool {
    forall|i: int| 0 <= i < s.len() ==> 0x30 <= #[trigger] s[i] <= 0x39 || 0x61 <= s[i] <= 0x66
}

proof fn lemma_hex(n: nat)
    ensures
        hex(n).len() >= 1,
        is_hex(hex(n)),
        hex_value(hex(n)) == n,
    decreases n,
{
    if n < 16 {
        reveal_with_fuel(hex_value, 2);
        assert(hex(n).drop_last() =~= Seq::<u8>::empty());
    } else {
        lemma_hex(n / 16);
        assert(hex(n).drop_last() =~= hex(n / 16));
    }
}

proof fn lemma_group(n: u16)
    ensures
        group(hex(n as nat)) == Some(n),
        !hex(n as nat).contains(0x3au8),
        !hex(n as nat).contains(0x2eu8),
        hex(n as nat).len() >= 1,
        is_hex(hex(n as nat)),
{
    let m = n as nat;
    lemma_hex(m);
    reveal_with_fuel(hex, 4);
    assert(hex(m).len() <= 4);
}

proof fn lemma_not_ipv4(s: Seq<u8>)
    requires
        !s.contains(0x2eu8),
    ensures
        parse_ipv4(s) is None,
{
    lemma_split_single(s, 0x2e);
}

proof fn lemma_groups_round_trip(g: Seq<u16>, v4: bool)
    ensures
        colon_groups(groups_text(g), v4) == Some(g),
    decreases g.len(),
{
    if g.len() == 0 {
        assert(g =~= Seq::<u16>::empty());
    } else {
        let head = hex(g[0] as nat);
        lemma_group(g[0]);
        if g.len() == 1 {
            lemma_split_single(head, 0x3a);
            lemma_not_ipv4(head);
            let parts = seq![head];
            reveal_with_fuel(part_groups, 2);
            assert(parts.drop_first() =~= Seq::<Seq<u8>>::empty());
            assert(seq![g[0]] + Seq::<u16>::empty() =~= g);
        } else {
            let tail = g.drop_first();
            let tail_text = groups_text(tail);
            lemma_groups_round_trip(tail, v4);
            lemma_group(tail[0]);
            assert(tail_text.len() > 0);
            lemma_split_cons(head, 0x3a, tail_text);
            lemma_split_nonempty(tail_text, 0x3a);
            let parts = seq![head] + split(tail_text, 0x3a);
            assert(parts.drop_first() =~= split(tail_text, 0x3a));
            assert(seq![g[0]] + tail =~= g);
        }
    }
}

/// True where each colon is followed by a byte that is none.
spec fn single_colons(s: Seq<u8>) -> bool {
    forall|i: int|
        0 <= i < s.len() && #[trigger] s[i] == 0x3a ==> i + 1 < s.len() && s[i + 1] != 0x3a
}

proof fn lemma_groups_text(g: Seq<u16>)
    ensures
        single_colons(groups_text(g)),
        is_address_text(groups_text(g)),
        g.len() > 0 ==> groups_text(g).len() > 0 && groups_text(g)[0] != 0x3a,
        g.len() > 1 ==> groups_text(g).contains(0x3au8),
    decreases g.len(),
{
    if g.len() > 0 {
        let head = hex(g[0] as nat);
        lemma_group(g[0]);
        if g.len() > 1 {
            let tail = groups_text(g.drop_first());
            lemma_groups_text(g.drop_first());
            let s = groups_text(g);
            assert(s == head + seq![0x3au8] + tail);
            assert(s[head.len() as int] == 0x3a);
            assert forall|i: int| 0 <= i < s.len() && #[trigger] s[i] == 0x3a implies i + 1
                < s.len() && s[i + 1] != 0x3a by {
                if i < head.len() {
                    assert(s[i] == head[i]);
                } else if i > head.len() {
                    assert(s[i] == tail[i - head.len() - 1]);
                }
            }
            assert forall|i: int| 0 <= i < s.len() implies 0x2e <= #[trigger] s[i] <= 0x3a || 0x61
                <= s[i] <= 0x66 by {
                if i < head.len() {
                    assert(s[i] == head[i]);
                } else if i > head.len() {
                    assert(s[i] == tail[i - head.len() - 1]);
                }
            }
        }
    }
}

proof fn lemma_octet(n: u8)
    ensures
        octet(decimal(n as nat)) == Some(n),
        is_digits(decimal(n as nat)),
{
    lemma_decimal(n as nat);
    reveal_with_fuel(decimal, 3);
}

proof fn lemma_digits_have_no(s: Seq<u8>, b: u8)
    requires
        is_digits(s),
        b < 0x30 || b > 0x39,
    ensures
        !s.contains(b),
{
}

/// Reading a dotted address gives back the one whose text was written, and that
/// text holds no colon.
pub proof fn lemma_ipv4_round_trip(o: Seq<u8>)
    requires
        o.len() == 4,
    ensures
        parse_ipv4(ipv4_text(o)) == Some(o),
        is_address_text(ipv4_text(o)),
        !ipv4_text(o).contains(0x3au8),
{
    let d0 = decimal(o[0] as nat);
    let d1 = decimal(o[1] as nat);
    let d2 = decimal(o[2] as nat);
    let d3 = decimal(o[3] as nat);
    lemma_octet(o[0]);
    lemma_octet(o[1]);
    lemma_octet(o[2]);
    lemma_octet(o[3]);
    lemma_digits_have_no(d0, 0x2e);
    lemma_digits_have_no(d1, 0x2e);
    lemma_digits_have_no(d2, 0x2e);
    lemma_digits_have_no(d3, 0x2e);
    let dot = seq![0x2eu8];
    let t2 = d2 + dot + d3;
    let t1 = d1 + dot + t2;
    let t0 = d0 + dot + t1;
    assert(ipv4_text(o) =~= t0);
    lemma_split_single(d3, 0x2e);
    lemma_split_cons(d2, 0x2e, d3);
    lemma_split_cons(d1, 0x2e, t2);
    lemma_split_cons(d0, 0x2e, t1);
    assert(split(t0, 0x2e) =~= seq![d0, d1, d2, d3]);
    assert(seq![o[0], o[1], o[2], o[3]] =~= o);
    assert forall|i: int| 0 <= i < t2.len() implies 0x2e <= #[trigger] t2[i] <= 0x39 by {
        if i < d2.len() {
            assert(t2[i] == d2[i]);
        } else if i > d2.len() {
            assert(t2[i] == d3[i - d2.len() - 1]);
        }
    }
    assert forall|i: int| 0 <= i < t1.len() implies 0x2e <= #[trigger] t1[i] <= 0x39 by {
        if i < d1.len() {
            assert(t1[i] == d1[i]);
        } else if i > d1.len() {
            assert(t1[i] == t2[i - d1.len() - 1]);
        }
    }
    assert forall|i: int| 0 <= i < t0.len() implies 0x2e <= #[trigger] t0[i] <= 0x39 by {
        if i < d0.len() {
            assert(t0[i] == d0[i]);
        } else if i > d0.len() {
            assert(t0[i] == t1[i - d0.len() - 1]);
        }
    }
}

proof fn lemma_zero_run(g: Seq<u16>, i: int)
    requires
        0 <= i <= g.len(),
    ensures
        i + zero_run(g, i) <= g.len(),
        forall|k: int| i <= k < i + zero_run(g, i) ==> g[k] == 0,
    decreases g.len() - i,
{
    if i < g.len() && g[i] == 0 {
        lemma_zero_run(g, i + 1);
    }
}

proof fn lemma_longest_run(g: Seq<u16>, n: int)
    requires
        1 <= n <= g.len(),
    ensures
        0 <= longest_run_below(g, n) < n,
    decreases n,
{
    if n > 1 {
        lemma_longest_run(g, n - 1);
    }
}

proof fn lemma_mapped_round_trip(g: Seq<u16>)
    requires
        g.len() == 8,
        is_mapped(g),
    ensures
        parse_ipv6(ipv6_text(g)) == Some(g),
        is_address_text(ipv6_text(g)),
{
    let o = pair_octets(g[6], g[7]);
    let dotted = ipv4_text(o);
    let s = mapped_prefix() + dotted;
    lemma_ipv4_round_trip(o);
    lemma_double_colon_unique(s, 0);
    assert(s.take(0) =~= Seq::<u8>::empty());
    let ffff = seq![0x66u8, 0x66, 0x66, 0x66];
    assert(hex(0xffff) =~= ffff) by {
        reveal_with_fuel(hex, 5);
    }
    lemma_group(0xffff);
    assert(s.skip(2) =~= ffff + seq![0x3au8] + dotted);
    lemma_split_cons(ffff, 0x3a, dotted);
    lemma_split_single(dotted, 0x3a);
    let parts = seq![ffff] + seq![dotted];
    assert(parts.drop_first() =~= seq![dotted]);
    let tail = seq![octet_pair(o[0], o[1]), octet_pair(o[2], o[3])];
    assert(part_groups(seq![dotted], true) == Some(tail));
    assert(part_groups(parts, true) == Some(seq![0xffffu16] + tail));
    assert(Seq::<u16>::empty() + Seq::new(5, |k: int| 0u16) + (seq![0xffffu16] + tail) =~= g);
}

proof fn lemma_compressed_round_trip(g: Seq<u16>, start: int, len: nat)
    requires
        g.len() == 8,
        0 <= start,
        start + len <= 8,
        len > 1,
        forall|k: int| start <= k < start + len ==> g[k] == 0,
    ensures
        ({
            let s = groups_text(g.take(start)) + seq![0x3au8, 0x3a] + groups_text(
                g.skip(start + len),
            );
            &&& parse_ipv6(s) == Some(g)
            &&& is_address_text(s)
            &&& s.contains(0x3au8)
        }),
{
    let head = g.take(start);
    let tail = g.skip(start + len);
    let h = groups_text(head);
    let t = groups_text(tail);
    let s = h + seq![0x3au8, 0x3a] + t;
    lemma_groups_text(head);
    lemma_groups_text(tail);
    lemma_groups_round_trip(head, false);
    lemma_groups_round_trip(tail, true);
    assert(s[h.len() as int] == 0x3a);
    assert(s[h.len() as int + 1] == 0x3a);
    assert forall|i: int| 0 <= i < h.len() implies !double_colon_at(s, i) by {
        assert(s[i] == h[i]);
        if h[i] == 0x3a {
            assert(s[i + 1] == h[i + 1]);
        }
    }
    lemma_double_colon_unique(s, h.len() as int);
    assert(s.take(h.len() as int) =~= h);
    assert(s.skip(h.len() as int + 2) =~= t);
    assert(head + Seq::new((8 - head.len() - tail.len()) as nat, |k: int| 0u16) + tail =~= g);
    assert forall|i: int| 0 <= i < s.len() implies 0x2e <= #[trigger] s[i] <= 0x3a || 0x61
                <= s[i] <= 0x66 by {
        if i < h.len() {
            assert(s[i] == h[i]);
        } else if i > h.len() + 1 {
            assert(s[i] == t[i - h.len() - 2]);
        }
    }
}

proof fn lemma_plain_round_trip(g: Seq<u16>)
    requires
        g.len() == 8,
    ensures
        parse_ipv6(groups_text(g)) == Some(g),
        is_address_text(groups_text(g)),
        groups_text(g).contains(0x3au8),
{
    let s = groups_text(g);
    lemma_groups_text(g);
    lemma_groups_round_trip(g, true);
    assert forall|i: int| 0 <= i < s.len() implies !double_colon_at(s, i) by {
        if s[i] == 0x3a {
        }
    }
    lemma_double_colon_unique(s, s.len() as int);
}

/// Reading an address gives back the one whose text was written, and that text
/// is plain ASCII, made of the characters of addresses.
pub proof fn lemma_ip_round_trip(ip: IpAddrView)
    requires
        is_ip(ip),
    ensures
        parse_ip(ip_text(ip)) == Some(ip),
        is_address_text(ip_text(ip)),
        is_plain_ascii(ip_text(ip)),
{
    match ip {
        IpAddrView::V4(o) => {
            lemma_ipv4_round_trip(o);
        },
        IpAddrView::V6(g) => {
            let start = longest_run_below(g, g.len() as int);
            let len = zero_run(g, start);
            if is_mapped(g) {
                lemma_mapped_round_trip(g);
                assert(ipv6_text(g)[0] == 0x3au8);
            } else if len > 1 {
                lemma_longest_run(g, 8);
                lemma_zero_run(g, start);
                lemma_compressed_round_trip(g, start, len);
            } else {
                lemma_plain_round_trip(g);
            }
        },
    }
}

} // verus!
