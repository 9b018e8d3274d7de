//! Socket addresses and the text under which a peer is known.

use vstd::prelude::*;
use vstd::utf8::{decode_utf8, decode_utf8_encode_utf8, encode_utf8_decode_utf8};

use crate::buffer::lemma_first_index_unique;
use crate::foreign::string_from_utf8;
use crate::ip::{ip_text, push_bytes, push_decimal, IpAddr, IpAddrView};
use crate::ip_lemmas::{lemma_ip_round_trip, lemma_ipv4_round_trip};
use crate::text::{decimal, is_plain_ascii, lemma_ascii_valid, lemma_decimal};

verus! {

/// An IP address with a port; an IPv6 one also has a flow label and a scope.
#[derive(Debug, Clone, Copy, PartialEq, Eq)]
pub enum SocketAddr {
    V4 { octets: [u8; 4], port: u16 },
    V6 { groups: [u16; 8], port: u16, flowinfo: u32, scope_id: u32 },
}

/// A socket address over sequences.
#[verifier::ext_equal]
pub enum SocketAddrView {
    V4 { octets: Seq<u8>, port: u16 },
    V6 { groups: Seq<u16>, port: u16, flowinfo: u32, scope_id: u32 },
}

impl View for SocketAddr {
    type V = SocketAddrView;

    open spec fn view(&self) -> SocketAddrView {
        match self {
            SocketAddr::V4 { octets, port } => SocketAddrView::V4 { octets: octets@, port: *port },
            SocketAddr::V6 { groups, port, flowinfo, scope_id } => SocketAddrView::V6 {
                groups: groups@,
                port: *port,
                flowinfo: *flowinfo,
                scope_id: *scope_id,
            },
        }
    }
}

/// True for an address with four octets or eight groups.
pub open spec fn is_socket_addr(a: SocketAddrView) -> bool {
    match a {
        SocketAddrView::V4 { octets, .. } => octets.len() == 4,
        SocketAddrView::V6 { groups, .. } => groups.len() == 8,
    }
}

/// True for addresses that differ in their flow labels at most.
pub open spec fn same_endpoint(a: SocketAddrView, b: SocketAddrView) -> bool {
    match (a, b) {
        (
            SocketAddrView::V4 { octets: i, port: p },
            SocketAddrView::V4 { octets: j, port: q },
        ) => i == j && p == q,
        (
            SocketAddrView::V6 { groups: i, port: p, scope_id: s, .. },
            SocketAddrView::V6 { groups: j, port: q, scope_id: t, .. },
        ) => i == j && p == q && s == t,
        _ => false,
    }
}

/// A percent sign and the scope, where there is one.
pub open spec fn scope_text(scope_id: u32) -> Seq<u8> {
    if scope_id == 0 {
        Seq::empty()
    } else {
        seq![0x25u8] + decimal(scope_id as nat)
    }
}

/// The text of a socket address: the IP address, in brackets together with the
/// scope where it is an IPv6 one, a colon and the port.
pub open spec fn socket_text(a: SocketAddrView) -> Seq<u8> {
    match a {
        SocketAddrView::V4 { octets, port } => ip_text(IpAddrView::V4(octets)) + seq![0x3au8] + decimal(
            port as nat,
        ),
        SocketAddrView::V6 { groups, port, scope_id, .. } => bracketed(groups, scope_id) + seq![0x5du8] + (
        seq![0x3au8] + decimal(port as nat)),
    }
}

/// An opening bracket, an IPv6 address and its scope.
pub open spec fn bracketed(ip: Seq<u16>, scope_id: u32) -> Seq<u8> {
    seq![0x5bu8] + ip_text(IpAddrView::V6(ip)) + scope_text(scope_id)
}

/// The text under which the peer at an address is known.
pub open spec fn address_key(a: SocketAddrView) -> Seq<char> {
    decode_utf8(socket_text(a))
}

proof fn lemma_socket_text_ascii(a: SocketAddrView)
    requires
        is_socket_addr(a),
    ensures
        is_plain_ascii(socket_text(a)),
{
    match a {
        SocketAddrView::V4 { octets, port } => {
            lemma_ip_round_trip(IpAddrView::V4(octets));
            lemma_decimal(port as nat);
        },
        SocketAddrView::V6 { groups, port, scope_id, .. } => {
            lemma_ip_round_trip(IpAddrView::V6(groups));
            lemma_decimal(port as nat);
            lemma_decimal(scope_id as nat);
            assert(is_plain_ascii(scope_text(scope_id)));
            assert(is_plain_ascii(bracketed(groups, scope_id)));
        },
    }
}

/// Texts around a separator that the first of each lacks are equal only where
/// both parts are.
proof fn lemma_split_equal(a: Seq<u8>, b: Seq<u8>, sep: u8, c: Seq<u8>, d: Seq<u8>)
    requires
        forall|i: int| 0 <= i < a.len() ==> #[trigger] a[i] != sep,
        forall|i: int| 0 <= i < c.len() ==> #[trigger] c[i] != sep,
        a + seq![sep] + b == c + seq![sep] + d,
    ensures
        a == c,
        b == d,
{
    let s = a + seq![sep] + b;
    let t = c + seq![sep] + d;
    assert forall|i: int| 0 <= i < a.len() implies s[i] != sep by {
        assert(s[i] == a[i]);
    }
    assert forall|i: int| 0 <= i < c.len() implies t[i] != sep by {
        assert(t[i] == c[i]);
    }
    assert(s[a.len() as int] == sep);
    assert(t[c.len() as int] == sep);
    lemma_first_index_unique(s, sep, a.len() as int);
    lemma_first_index_unique(t, sep, c.len() as int);
    assert(a =~= s.take(a.len() as int));
    assert(c =~= t.take(c.len() as int));
    assert(b =~= s.skip(a.len() as int + 1));
    assert(d =~= t.skip(c.len() as int + 1));
}

proof fn lemma_bracketed_injective(ip: Seq<u16>, scope: u32, ip2: Seq<u16>, scope2: u32)
    requires
        ip.len() == 8,
        ip2.len() == 8,
        bracketed(ip, scope) == bracketed(ip2, scope2),
    ensures
        ip == ip2,
        scope == scope2,
{
    let a = seq![0x5bu8] + ip_text(IpAddrView::V6(ip));
    let b = seq![0x5bu8] + ip_text(IpAddrView::V6(ip2));
    lemma_ip_round_trip(IpAddrView::V6(ip));
    lemma_ip_round_trip(IpAddrView::V6(ip2));
    assert forall|i: int| 0 <= i < a.len() implies #[trigger] a[i] != 0x25 by {}
    assert forall|i: int| 0 <= i < b.len() implies #[trigger] b[i] != 0x25 by {}
    if scope != 0 && scope2 != 0 {
        let d = decimal(scope as nat);
        let e = decimal(scope2 as nat);
        assert(bracketed(ip, scope) =~= a + seq![0x25u8] + d);
        assert(bracketed(ip2, scope2) =~= b + seq![0x25u8] + e);
        lemma_split_equal(a, d, 0x25, b, e);
        lemma_decimal(scope as nat);
        lemma_decimal(scope2 as nat);
    } else if scope != 0 {
        assert(bracketed(ip2, scope2) =~= b);
        assert(bracketed(ip, scope)[a.len() as int] == 0x25);
    } else if scope2 != 0 {
        assert(bracketed(ip, scope) =~= a);
        assert(bracketed(ip2, scope2)[b.len() as int] == 0x25);
    } else {
        assert(bracketed(ip, scope) =~= a);
        assert(bracketed(ip2, scope2) =~= b);
    }
    assert(a.skip(1) =~= ip_text(IpAddrView::V6(ip)));
    assert(b.skip(1) =~= ip_text(IpAddrView::V6(ip2)));
}

/// Peers are known under the same text only where their addresses agree, but
/// for the flow label.
pub proof fn lemma_address_key_injective(a: SocketAddrView, b: SocketAddrView)
    requires
        is_socket_addr(a),
        is_socket_addr(b),
    ensures
        address_key(a) == address_key(b) <==> same_endpoint(a, b),
{
    lemma_socket_text_ascii(a);
    lemma_socket_text_ascii(b);
    lemma_ascii_valid(socket_text(a));
    lemma_ascii_valid(socket_text(b));
    decode_utf8_encode_utf8(socket_text(a));
    decode_utf8_encode_utf8(socket_text(b));
    if address_key(a) == address_key(b) {
        lemma_socket_text_injective(a, b);
    }
}

proof fn lemma_first_byte(a: SocketAddrView)
    requires
        is_socket_addr(a),
    ensures
        socket_text(a).len() > 0,
        socket_text(a)[0] == 0x5b <==> a is V6,
{
    if let SocketAddrView::V4 { octets, .. } = a {
        lemma_ip_round_trip(IpAddrView::V4(octets));
        lemma_decimal(octets[0] as nat);
    }
}

proof fn lemma_socket_text_injective(a: SocketAddrView, b: SocketAddrView)
    requires
        is_socket_addr(a),
        is_socket_addr(b),
        socket_text(a) == socket_text(b),
    ensures
        same_endpoint(a, b),
{
    lemma_first_byte(a);
    lemma_first_byte(b);
    match (a, b) {
        (
            SocketAddrView::V4 { octets: i, port: p },
            SocketAddrView::V4 { octets: j, port: q },
        ) => {
            lemma_ip_round_trip(IpAddrView::V4(i));
            lemma_ip_round_trip(IpAddrView::V4(j));
            lemma_ipv4_round_trip(i);
            lemma_ipv4_round_trip(j);
            lemma_split_equal(
                ip_text(IpAddrView::V4(i)),
                decimal(p as nat),
                0x3a,
                ip_text(IpAddrView::V4(j)),
                decimal(q as nat),
            );
            lemma_decimal(p as nat);
            lemma_decimal(q as nat);
        },
        (
            SocketAddrView::V6 { groups: i, port: p, scope_id: s, .. },
            SocketAddrView::V6 { groups: j, port: q, scope_id: t, .. },
        ) => {
            lemma_ip_round_trip(IpAddrView::V6(i));
            lemma_ip_round_trip(IpAddrView::V6(j));
            lemma_decimal(s as nat);
            lemma_decimal(t as nat);
            lemma_split_equal(
                bracketed(i, s),
                seq![0x3au8] + decimal(p as nat),
                0x5d,
                bracketed(j, t),
                seq![0x3au8] + decimal(q as nat),
            );
            lemma_bracketed_injective(i, s, j, t);
            assert((seq![0x3au8] + decimal(p as nat)).skip(1) =~= decimal(p as nat));
            assert((seq![0x3au8] + decimal(q as nat)).skip(1) =~= decimal(q as nat));
            lemma_decimal(p as nat);
            lemma_decimal(q as nat);
        },
        _ => {},
    }
}

impl SocketAddr {
    /// The text of the address in ASCII.
    pub fn to_text(&self) -> (text: Vec<u8>)
        ensures
            text@ == socket_text(self@),
    {
        let mut text: Vec<u8> = Vec::new();
        match self {
            SocketAddr::V4 { octets, port } => {
                let ip: IpAddr = IpAddr::V4(*octets);
                push_bytes(&mut text, ip.to_text().as_slice());
                text.push(0x3a);
                push_decimal(&mut text, *port as u64);
            },
            SocketAddr::V6 { groups, port, flowinfo: _, scope_id } => {
                let ip: IpAddr = IpAddr::V6(*groups);
                text.push(0x5b);
                push_bytes(&mut text, ip.to_text().as_slice());
                if *scope_id != 0 {
                    text.push(0x25);
                    push_decimal(&mut text, *scope_id as u64);
                }
                text.push(0x5d);
                text.push(0x3a);
                push_decimal(&mut text, *port as u64);
            },
        }
        assert(text@ =~= socket_text(self@));
        text
    }

    /// The text under which the peer at this address is known.
    pub fn to_key(&self) -> (key: String)
        ensures
            key@ == address_key(self@),
    {
        proof {
            lemma_socket_text_ascii(self@);
            lemma_ascii_valid(socket_text(self@));
        }
        match string_from_utf8(self.to_text()) {
            Some(key) => {
                proof {
                    encode_utf8_decode_utf8(key@);
                }
                key
            },
            None => String::new(),
        }
    }
}

} // verus!
