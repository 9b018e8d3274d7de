//! IP addresses and their textual form.

use vstd::prelude::*;
use vstd::slice::slice_subrange;

use crate::buffer::{first_index, lemma_first_index, lemma_first_index_unique};
use crate::foreign::u64_to_string;
use crate::text::{decimal, digits_value, is_digits};

verus! {

/// An IP address.
#[derive(Debug, Clone, Copy, PartialEq, Eq)]
pub enum IpAddr {
    /// The four octets of an IPv4 address.
    V4([u8; 4]),
    /// The eight 16-bit groups of an IPv6 address.
    V6([u16; 8]),
}

/// An IP address as the sequence of its octets or groups.
#[verifier::ext_equal]
pub enum IpAddrView {
    V4(Seq<u8>),
    V6(Seq<u16>),
}

impl View for IpAddr {
    type V = IpAddrView;

    open spec fn view(&self) -> IpAddrView {
        match self {
            IpAddr::V4(octets) => IpAddrView::V4(octets@),
            IpAddr::V6(groups) => IpAddrView::V6(groups@),
        }
    }
}

/// The parts of `s` between the occurrences of `sep`.
pub open spec fn split(s: Seq<u8>, sep: u8) -> Seq<Seq<u8>>
    decreases s.len(),
{
    let i = first_index(s, sep);
    if i >= s.len() {
        seq![s]
    } else {
        proof {
            lemma_first_index(s, sep);
        }
        seq![s.take(i)] + split(s.skip(i + 1), sep)
    }
}

/// The number below 256 that one to three decimal digits write, without leading
/// zeros.
pub open spec fn octet(s: Seq<u8>) -> Option<u8> {
    if is_digits(s) && s.len() <= 3 && (s.len() > 1 ==> s[0] != 0x30) && digits_value(s) <= 255 {
        Some(digits_value(s) as u8)
    } else {
        None
    }
}

/// The octets of a dotted IPv4 address.
pub open spec fn parse_ipv4(s: Seq<u8>) -> Option<Seq<u8>> {
    let p = split(s, 0x2e);
    if p.len() != 4 {
        None
    } else {
        match (octet(p[0]), octet(p[1]), octet(p[2]), octet(p[3])) {
            (Some(a), Some(b), Some(c), Some(d)) => Some(seq![a, b, c, d]),
            _ => None,
        }
    }
}

/// The value of a hexadecimal digit of either case.
pub open spec fn hex_digit_value(b: u8) -> Option<nat> {
    if 0x30 <= b <= 0x39 {
        Some((b - 0x30) as nat)
    } else if 0x61 <= b <= 0x66 {
        Some((b - 0x61 + 10) as nat)
    } else if 0x41 <= b <= 0x46 {
        Some((b - 0x41 + 10) as nat)
    } else {
        None
    }
}

/// The number that hexadecimal digits write.
pub open spec fn hex_value(s: Seq<u8>) -> nat
    decreases s.len(),
{
    if s.len() == 0 {
        0
    } else {
        hex_value(s.drop_last()) * 16 + hex_digit_value(s.last())->0
    }
}

/// The number that one to four hexadecimal digits write.
pub open spec fn group(s: Seq<u8>) -> Option<u16> {
    if 1 <= s.len() <= 4 && (forall|i: int|
        0 <= i < s.len() ==> hex_digit_value(#[trigger] s[i]) is Some) {
        Some(hex_value(s) as u16)
    } else {
        None
    }
}

/// The number that two octets make up, the more significant one first.
pub open spec fn octet_pair(a: u8, b: u8) -> u16 {
    (a * 256 + b) as u16
}

/// The groups that `parts` write, one each; where `v4` holds, the last part may
/// be an IPv4 address, which stands for two groups.
pub open spec fn part_groups(parts: Seq<Seq<u8>>, v4: bool) -> Option<Seq<u16>>
    decreases parts.len(),
{
    if parts.len() == 0 {
        Some(Seq::empty())
    } else if v4 && parts.len() == 1 && parse_ipv4(parts[0]) is Some {
        let o = parse_ipv4(parts[0])->0;
        Some(seq![octet_pair(o[0], o[1]), octet_pair(o[2], o[3])])
    } else {
        match (group(parts[0]), part_groups(parts.drop_first(), v4)) {
            (Some(g), Some(gs)) => Some(seq![g] + gs),
            _ => None,
        }
    }
}

/// The groups that `s` writes, separated by colons; none where `s` is empty.
pub open spec fn colon_groups(s: Seq<u8>, v4: bool) -> Option<Seq<u16>> {
    if s.len() == 0 {
        Some(Seq::empty())
    } else {
        part_groups(split(s, 0x3a), v4)
    }
}

/// True where `s` holds two colons in a row at `i`.
pub open spec fn double_colon_at(s: Seq<u8>, i: int) -> bool {
    0 <= i && i + 1 < s.len() && s[i] == 0x3a && s[i + 1] == 0x3a
}

/// The first index of two colons in a row, or the length.
pub open spec fn double_colon(s: Seq<u8>) -> int
    decreases s.len(),
{
    if s.len() == 0 || double_colon_at(s, 0) {
        0
    } else {
        1 + double_colon(s.drop_first())
    }
}

/// The groups of an IPv6 address: eight groups, or fewer around one `::` that
/// stands for the missing zero groups, of which there is at least one.
pub open spec fn parse_ipv6(s: Seq<u8>) -> Option<Seq<u16>> {
    let i = double_colon(s);
    if i >= s.len() {
        match colon_groups(s, true) {
            Some(g) => if g.len() == 8 {
                Some(g)
            } else {
                None
            },
            None => None,
        }
    } else {
        match (colon_groups(s.take(i), false), colon_groups(s.skip(i + 2), true)) {
            (Some(head), Some(tail)) => if head.len() + tail.len() <= 7 {
                Some(head + Seq::new((8 - head.len() - tail.len()) as nat, |k: int| 0u16) + tail)
            } else {
                None
            },
            _ => None,
        }
    }
}

/// The address that `s` writes. Only an IPv6 address holds a colon.
pub open spec fn parse_ip(s: Seq<u8>) -> Option<IpAddrView> {
    if s.contains(0x3au8) {
        match parse_ipv6(s) {
            Some(g) => Some(IpAddrView::V6(g)),
            None => None,
        }
    } else {
        match parse_ipv4(s) {
            Some(o) => Some(IpAddrView::V4(o)),
            None => None,
        }
    }
}

/// The dotted form of an IPv4 address.
pub open spec fn ipv4_text(o: Seq<u8>) -> Seq<u8> {
    decimal(o[0] as nat) + seq![0x2eu8] + decimal(o[1] as nat) + seq![0x2eu8] + decimal(
        o[2] as nat,
    ) + seq![0x2eu8] + decimal(o[3] as nat)
}

/// The lower-case digit of a number below sixteen.
pub open spec fn hex_digit(n: nat) -> u8 {
    if n < 10 {
        (0x30 + n) as u8
    } else {
        (0x61 + (n - 10)) as u8
    }
}

/// The lower-case hexadecimal digits of `n`, without leading zeros.
pub open spec fn hex(n: nat) -> Seq<u8>
    decreases n,
{
    if n < 16 {
        seq![hex_digit(n)]
    } else {
        hex(n / 16).push(hex_digit(n % 16))
    }
}

/// Groups in hexadecimal, separated by colons.
pub open spec fn groups_text(g: Seq<u16>) -> Seq<u8>
    decreases g.len(),
{
    if g.len() == 0 {
        Seq::empty()
    } else if g.len() == 1 {
        hex(g[0] as nat)
    } else {
        hex(g[0] as nat) + seq![0x3au8] + groups_text(g.drop_first())
    }
}

/// The number of zero groups in a row from `i` on.
pub open spec fn zero_run(g: Seq<u16>, i: int) -> nat
    decreases g.len() - i,
{
    if 0 <= i < g.len() && g[i] == 0 {
        1 + zero_run(g, i + 1)
    } else {
        0
    }
}

/// The first index below `n` from which the longest run of zero groups starts.
pub open spec fn longest_run_below(g: Seq<u16>, n: int) -> int
    decreases n,
{
    if n <= 1 {
        0
    } else {
        let best = longest_run_below(g, n - 1);
        if zero_run(g, n - 1) > zero_run(g, best) {
            n - 1
        } else {
            best
        }
    }
}

/// True for an IPv4 address mapped into IPv6.
pub open spec fn is_mapped(g: Seq<u16>) -> bool {
    g[0] == 0 && g[1] == 0 && g[2] == 0 && g[3] == 0 && g[4] == 0 && g[5] == 0xffff
}

/// The octets of two groups.
pub open spec fn pair_octets(a: u16, b: u16) -> Seq<u8> {
    seq![
        (a as int / 256) as u8,
        (a as int % 256) as u8,
        (b as int / 256) as u8,
        (b as int % 256) as u8,
    ]
}

/// The text `::ffff:`.
pub open spec fn mapped_prefix() -> Seq<u8> {
    seq![0x3au8, 0x3a, 0x66, 0x66, 0x66, 0x66, 0x3a]
}

/// The canonical form of an IPv6 address: a mapped IPv4 address is dotted; the
/// first longest run of two or more zero groups is `::`.
pub open spec fn ipv6_text(g: Seq<u16>) -> Seq<u8> {
    let start = longest_run_below(g, g.len() as int);
    let len = zero_run(g, start);
    if is_mapped(g) {
        mapped_prefix() + ipv4_text(pair_octets(g[6], g[7]))
    } else if len > 1 {
        groups_text(g.take(start)) + seq![0x3au8, 0x3a] + groups_text(g.skip(start + len))
    } else {
        groups_text(g)
    }
}

/// The canonical textual form of an address.
pub open spec fn ip_text(ip: IpAddrView) -> Seq<u8> {
    match ip {
        IpAddrView::V4(o) => ipv4_text(o),
        IpAddrView::V6(g) => ipv6_text(g),
    }
}

/// The bytes of each slice.
pub open spec fn slice_views(parts: Seq<&[u8]>) -> Seq<Seq<u8>> {
    parts.map_values(|p: &[u8]| p@)
}

fn index_from(s: &[u8], start: usize, b: u8) -> (i: usize)
    requires
        start <= s@.len(),
    ensures
        i == start + first_index(s@.skip(start as int), b),
        start <= i <= s@.len(),
{
    let mut i: usize = start;
    let ghost tail = s@.skip(start as int);
    while i < s.len() && s[i] != b
        invariant
            start <= i <= s@.len(),
            tail == s@.skip(start as int),
            forall|k: int| 0 <= k < i - start ==> tail[k] != b,
        decreases s@.len() - i,
    {
        assert(tail[i - start] == s@[i as int]);
        i = i + 1;
    }
    proof {
        if i < s@.len() {
            assert(tail[i - start] == s@[i as int]);
        }
        lemma_first_index_unique(tail, b, i - start);
    }
    i
}

fn split_bytes<'a>(s: &'a [u8], sep: u8) -> (parts: Vec<&'a [u8]>)
    ensures
        slice_views(parts@) == split(s@, sep),
{
    let mut parts: Vec<&'a [u8]> = Vec::new();
    let mut start: usize = 0;
    assert(s@.skip(0) =~= s@);
    assert(slice_views(parts@) + split(s@, sep) =~= split(s@, sep));
    loop
        invariant
            start <= s@.len(),
            slice_views(parts@) + split(s@.skip(start as int), sep) == split(s@, sep),
        decreases s@.len() - start,
    {
        let ghost tail = s@.skip(start as int);
        let ghost before = parts@;
        let i: usize = index_from(s, start, sep);
        let part: &'a [u8] = slice_subrange(s, start, i);
        parts.push(part);
        assert(part@ =~= tail.take(i - start));
        assert(slice_views(parts@) =~= slice_views(before).push(part@));
        if i == s.len() {
            assert(part@ =~= tail);
            assert(slice_views(parts@) =~= slice_views(before) + split(tail, sep));
            return parts;
        }
        assert(s@.skip(i + 1) =~= tail.skip(i - start + 1));
        assert(slice_views(parts@) + split(s@.skip(i + 1), sep) =~= slice_views(before) + split(
            tail,
            sep,
        ));
        start = i + 1;
    }
}

fn read_octet(s: &[u8]) -> (res: Option<u8>)
    ensures
        res == octet(s@),
{
    if s.len() == 0 || s.len() > 3 || (s.len() > 1 && s[0] == 0x30) {
        return None;
    }
    let mut n: u32 = 0;
    let mut i: usize = 0;
    while i < s.len()
        invariant
            i <= s@.len() <= 3,
            forall|k: int| 0 <= k < i ==> 0x30 <= #[trigger] s@[k] <= 0x39,
            n == digits_value(s@.take(i as int)),
            n <= 999,
            i == 0 ==> n == 0,
            i == 1 ==> n <= 9,
            i == 2 ==> n <= 99,
        decreases s@.len() - i,
    {
        let b: u8 = s[i];
        if b < 0x30 || b > 0x39 {
            assert(!is_digits(s@));
            return None;
        }
        n = n * 10 + (b - 0x30) as u32;
        i = i + 1;
        assert(s@.take(i as int).drop_last() =~= s@.take(i - 1));
    }
    assert(s@.take(s@.len() as int) =~= s@);
    if n <= 255 {
        Some(n as u8)
    } else {
        None
    }
}

fn read_ipv4(s: &[u8]) -> (res: Option<[u8; 4]>)
    ensures
        match res {
            Some(o) => parse_ipv4(s@) == Some(o@),
            None => parse_ipv4(s@) is None,
        },
{
    let p: Vec<&[u8]> = split_bytes(s, 0x2e);
    assert(slice_views(p@).len() == p@.len());
    if p.len() != 4 {
        return None;
    }
    assert(slice_views(p@)[0] == p@[0]@);
    assert(slice_views(p@)[1] == p@[1]@);
    assert(slice_views(p@)[2] == p@[2]@);
    assert(slice_views(p@)[3] == p@[3]@);
    match (read_octet(p[0]), read_octet(p[1]), read_octet(p[2]), read_octet(p[3])) {
        (Some(a), Some(b), Some(c), Some(d)) => {
            let o: [u8; 4] = [a, b, c, d];
            assert(o@ =~= seq![a, b, c, d]);
            Some(o)
        },
        _ => None,
    }
}

fn read_hex_digit(b: u8) -> (res: Option<u16>)
    ensures
        match res {
            Some(n) => hex_digit_value(b) == Some(n as nat) && n < 16,
            None => hex_digit_value(b) is None,
        },
{
    if 0x30 <= b && b <= 0x39 {
        Some((b - 0x30) as u16)
    } else if 0x61 <= b && b <= 0x66 {
        Some((b - 0x61 + 10) as u16)
    } else if 0x41 <= b && b <= 0x46 {
        Some((b - 0x41 + 10) as u16)
    } else {
        None
    }
}

fn read_group(s: &[u8]) -> (res: Option<u16>)
    ensures
        res == group(s@),
{
    if s.len() == 0 || s.len() > 4 {
        return None;
    }
    let mut n: u16 = 0;
    let mut i: usize = 0;
    while i < s.len()
        invariant
            i <= s@.len() <= 4,
            forall|k: int| 0 <= k < i ==> hex_digit_value(#[trigger] s@[k]) is Some,
            n == hex_value(s@.take(i as int)),
            i == 0 ==> n == 0,
            i == 1 ==> n < 0x10,
            i == 2 ==> n < 0x100,
            i == 3 ==> n < 0x1000,
        decreases s@.len() - i,
    {
        match read_hex_digit(s[i]) {
            Some(d) => {
                n = n * 16 + d;
            },
            None => {
                return None;
            },
        }
        i = i + 1;
        assert(s@.take(i as int).drop_last() =~= s@.take(i - 1));
    }
    assert(s@.take(s@.len() as int) =~= s@);
    Some(n)
}

fn read_part_groups(parts: &Vec<&[u8]>, v4: bool) -> (res: Option<Vec<u16>>)
    ensures
        match res {
            Some(g) => part_groups(slice_views(parts@), v4) == Some(g@),
            None => part_groups(slice_views(parts@), v4) is None,
        },
{
    let mut groups: Vec<u16> = Vec::new();
    let mut i: usize = 0;
    let ghost views = slice_views(parts@);
    assert(views.skip(0) =~= views);
    while i < parts.len()
        invariant
            i <= parts@.len(),
            views == slice_views(parts@),
            match part_groups(views.skip(i as int), v4) {
                Some(g) => part_groups(views, v4) == Some(groups@ + g),
                None => part_groups(views, v4) is None,
            },
        decreases parts@.len() - i,
    {
        let ghost tail = views.skip(i as int);
        assert(tail[0] == parts@[i as int]@);
        if v4 && i + 1 == parts.len() {
            match read_ipv4(parts[i]) {
                Some(o) => {
                    let ghost before = groups@;
                    groups.push(o[0] as u16 * 256 + o[1] as u16);
                    groups.push(o[2] as u16 * 256 + o[3] as u16);
                    assert(groups@ =~= before + seq![
                        octet_pair(o@[0], o@[1]),
                        octet_pair(o@[2], o@[3]),
                    ]);
                    return Some(groups);
                },
                None => {},
            }
        }
        match read_group(parts[i]) {
            Some(g) => {
                let ghost before = groups@;
                groups.push(g);
                assert(tail.drop_first() =~= views.skip(i + 1));
                assert(forall|gs: Seq<u16>| #![auto] before + (seq![g] + gs) =~= groups@ + gs);
            },
            None => {
                return None;
            },
        }
        i = i + 1;
    }
    assert(views.skip(i as int) =~= Seq::<Seq<u8>>::empty());
    assert(groups@ + Seq::<u16>::empty() =~= groups@);
    Some(groups)
}

fn read_colon_groups(s: &[u8], v4: bool) -> (res: Option<Vec<u16>>)
    ensures
        match res {
            Some(g) => colon_groups(s@, v4) == Some(g@),
            None => colon_groups(s@, v4) is None,
        },
{
    if s.len() == 0 {
        let groups: Vec<u16> = Vec::new();
        return Some(groups);
    }
    let parts: Vec<&[u8]> = split_bytes(s, 0x3a);
    read_part_groups(&parts, v4)
}

/// `double_colon` is at two colons, the first such place, or it is the length.
pub proof fn lemma_double_colon(s: Seq<u8>)
    ensures
        0 <= double_colon(s) <= s.len(),
        double_colon(s) < s.len() ==> double_colon_at(s, double_colon(s)),
        forall|i: int| 0 <= i < double_colon(s) ==> !double_colon_at(s, i),
    decreases s.len(),
{
    if s.len() != 0 && !double_colon_at(s, 0) {
        let tail = s.drop_first();
        lemma_double_colon(tail);
        assert forall|i: int| 0 <= i < double_colon(s) implies !double_colon_at(s, i) by {
            if i > 0 {
                assert(!double_colon_at(tail, i - 1));
            }
        }
    }
}

/// The first place of two colons is `double_colon`.
pub proof fn lemma_double_colon_unique(s: Seq<u8>, n: int)
    requires
        0 <= n <= s.len(),
        n < s.len() ==> double_colon_at(s, n),
        forall|i: int| 0 <= i < n ==> !double_colon_at(s, i),
    ensures
        double_colon(s) == n,
{
    lemma_double_colon(s);
}

fn find_double_colon(s: &[u8]) -> (i: usize)
    ensures
        i == double_colon(s@),
        i <= s@.len(),
{
    let mut i: usize = 0;
    while i < s.len()
        invariant
            i <= s@.len(),
            forall|k: int| 0 <= k < i ==> !double_colon_at(s@, k),
        decreases s@.len() - i,
    {
        if s[i] == 0x3a && s.len() - i > 1 && s[i + 1] == 0x3a {
            assert(double_colon_at(s@, i as int));
            proof {
                lemma_double_colon_unique(s@, i as int);
            }
            return i;
        }
        i = i + 1;
    }
    proof {
        lemma_double_colon_unique(s@, i as int);
    }
    i
}

fn groups_array(g: &Vec<u16>) -> (a: [u16; 8])
    requires
        g@.len() == 8,
    ensures
        a@ == g@,
{
    let a: [u16; 8] = [g[0], g[1], g[2], g[3], g[4], g[5], g[6], g[7]];
    assert(a@ =~= g@);
    a
}

fn read_ipv6(s: &[u8]) -> (res: Option<[u16; 8]>)
    ensures
        match res {
            Some(g) => parse_ipv6(s@) == Some(g@),
            None => parse_ipv6(s@) is None,
        },
{
    let i: usize = find_double_colon(s);
    if i == s.len() {
        return match read_colon_groups(s, true) {
            Some(g) => if g.len() == 8 {
                Some(groups_array(&g))
            } else {
                None
            },
            None => None,
        };
    }
    proof {
        lemma_double_colon(s@);
    }
    let head_text: &[u8] = slice_subrange(s, 0, i);
    let tail_text: &[u8] = slice_subrange(s, i + 2, s.len());
    assert(head_text@ =~= s@.take(i as int));
    assert(tail_text@ =~= s@.skip(i + 2));
    let head: Vec<u16> = match read_colon_groups(head_text, false) {
        Some(g) => g,
        None => {
            return None;
        },
    };
    let tail: Vec<u16> = match read_colon_groups(tail_text, true) {
        Some(g) => g,
        None => {
            return None;
        },
    };
    if head.len() > 7 || tail.len() > 7 - head.len() {
        return None;
    }
    let ghost h = head@;
    let ghost t = tail@;
    let mut groups: Vec<u16> = head;
    while groups.len() < 8 - tail.len()
        invariant
            tail@ == t,
            h.len() + t.len() <= 7,
            h.len() <= groups@.len() <= 8 - t.len(),
            groups@ == h + Seq::new((groups@.len() - h.len()) as nat, |k: int| 0u16),
        decreases 8 - groups@.len(),
    {
        groups.push(0);
        assert(groups@ =~= h + Seq::new((groups@.len() - h.len()) as nat, |k: int| 0u16));
    }
    let ghost filled = groups@;
    let mut k: usize = 0;
    while k < tail.len()
        invariant
            tail@ == t,
            k <= t.len(),
            groups@ == filled + t.take(k as int),
        decreases t.len() - k,
    {
        groups.push(tail[k]);
        k = k + 1;
        assert(groups@ =~= filled + t.take(k as int));
    }
    assert(t.take(t.len() as int) =~= t);
    Some(groups_array(&groups))
}

pub(crate) fn push_bytes(out: &mut Vec<u8>, bytes: &[u8])
    ensures
        final(out)@ == old(out)@ + bytes@,
{
    out.extend_from_slice(bytes);
    assert(out@ =~= old(out)@ + bytes@);
}

pub(crate) fn push_decimal(out: &mut Vec<u8>, n: u64)
    ensures
        final(out)@ == old(out)@ + decimal(n as nat),
{
    let digits: String = u64_to_string(n);
    push_bytes(out, digits.as_str().as_bytes());
}

fn push_ipv4(out: &mut Vec<u8>, o: [u8; 4])
    ensures
        final(out)@ == old(out)@ + ipv4_text(o@),
{
    push_decimal(out, o[0] as u64);
    out.push(0x2e);
    push_decimal(out, o[1] as u64);
    out.push(0x2e);
    push_decimal(out, o[2] as u64);
    out.push(0x2e);
    push_decimal(out, o[3] as u64);
    assert(out@ =~= old(out)@ + ipv4_text(o@));
}

fn push_hex(out: &mut Vec<u8>, n: u16)
    ensures
        final(out)@ == old(out)@ + hex(n as nat),
    decreases n,
{
    if n >= 16 {
        push_hex(out, n / 16);
    }
    let d: u8 = (n % 16) as u8;
    if d < 10 {
        out.push(0x30 + d);
    } else {
        out.push(0x61 + (d - 10));
    }
    assert(out@ =~= old(out)@ + hex(n as nat));
}

/// The text of some groups is that of all but the last, a colon where there are
/// any, and the last.
proof fn lemma_groups_text_last(g: Seq<u16>)
    requires
        g.len() > 0,
    ensures
        groups_text(g) == if g.len() == 1 {
            hex(g[0] as nat)
        } else {
            groups_text(g.drop_last()) + seq![0x3au8] + hex(g.last() as nat)
        },
    decreases g.len(),
{
    if g.len() > 1 {
        let tail = g.drop_first();
        lemma_groups_text_last(tail);
        if g.len() == 2 {
            assert(groups_text(g) =~= groups_text(g.drop_last()) + seq![0x3au8] + hex(
                g.last() as nat,
            ));
        } else {
            assert(tail.drop_last() =~= g.drop_last().drop_first());
            assert(groups_text(g) =~= groups_text(g.drop_last()) + seq![0x3au8] + hex(
                g.last() as nat,
            ));
        }
    }
}

fn push_groups(out: &mut Vec<u8>, g: &[u16], start: usize, end: usize)
    requires
        start <= end <= g@.len(),
    ensures
        final(out)@ == old(out)@ + groups_text(g@.subrange(start as int, end as int)),
{
    let mut i: usize = start;
    assert(groups_text(g@.subrange(start as int, start as int)) =~= Seq::<u8>::empty());
    while i < end
        invariant
            start <= i <= end <= g@.len(),
            out@ == old(out)@ + groups_text(g@.subrange(start as int, i as int)),
        decreases end - i,
    {
        if i > start {
            out.push(0x3a);
        }
        push_hex(out, g[i]);
        i = i + 1;
        proof {
            let done = g@.subrange(start as int, i as int);
            lemma_groups_text_last(done);
            assert(done.drop_last() =~= g@.subrange(start as int, i - 1));
            assert(out@ =~= old(out)@ + groups_text(done));
        }
    }
}

fn count_zeros(g: &[u16], start: usize) -> (n: usize)
    requires
        start <= g@.len(),
    ensures
        n == zero_run(g@, start as int),
        start + n <= g@.len(),
    decreases g@.len() - start,
{
    if start < g.len() && g[start] == 0 {
        1 + count_zeros(g, start + 1)
    } else {
        0
    }
}

fn find_longest_run(g: &[u16]) -> (start: usize)
    ensures
        start == longest_run_below(g@, g@.len() as int),
        start <= g@.len(),
{
    let mut best: usize = 0;
    let mut i: usize = 1;
    while i < g.len()
        invariant
            g@.len() > 0 ==> 1 <= i <= g@.len(),
            best <= g@.len(),
            best == longest_run_below(g@, i as int),
        decreases g@.len() - i,
    {
        if count_zeros(g, i) > count_zeros(g, best) {
            best = i;
        }
        i = i + 1;
    }
    best
}

fn push_ipv6(out: &mut Vec<u8>, g: [u16; 8])
    ensures
        final(out)@ == old(out)@ + ipv6_text(g@),
{
    if g[0] == 0 && g[1] == 0 && g[2] == 0 && g[3] == 0 && g[4] == 0 && g[5] == 0xffff {
        let prefix: [u8; 7] = [0x3a, 0x3a, 0x66, 0x66, 0x66, 0x66, 0x3a];
        push_bytes(out, &prefix);
        assert(prefix@ =~= mapped_prefix());
        let o: [u8; 4] = [
            (g[6] / 256) as u8,
            (g[6] % 256) as u8,
            (g[7] / 256) as u8,
            (g[7] % 256) as u8,
        ];
        push_ipv4(out, o);
        assert(o@ =~= pair_octets(g@[6], g@[7]));
        assert(out@ =~= old(out)@ + ipv6_text(g@));
        return ;
    }
    let start: usize = find_longest_run(&g);
    let len: usize = count_zeros(&g, start);
    if len > 1 {
        push_groups(out, &g, 0, start);
        out.push(0x3a);
        out.push(0x3a);
        push_groups(out, &g, start + len, 8);
        assert(g@.subrange(0, start as int) =~= g@.take(start as int));
        assert(g@.subrange(start + len, 8) =~= g@.skip(start + len));
        assert(out@ =~= old(out)@ + ipv6_text(g@));
    } else {
        push_groups(out, &g, 0, 8);
        assert(g@.subrange(0, 8) =~= g@);
    }
}

impl IpAddr {
    /// Reads the textual form of an address.
    pub fn parse(s: &[u8]) -> (res: Option<IpAddr>)
        ensures
            match res {
                Some(ip) => parse_ip(s@) == Some(ip@),
                None => parse_ip(s@) is None,
            },
    {
        let i: usize = index_from(s, 0, 0x3a);
        proof {
            assert(s@.skip(0) =~= s@);
            lemma_first_index(s@, 0x3a);
        }
        if i < s.len() {
            assert(s@[i as int] == 0x3au8);
            match read_ipv6(s) {
                Some(g) => Some(IpAddr::V6(g)),
                None => None,
            }
        } else {
            match read_ipv4(s) {
                Some(o) => Some(IpAddr::V4(o)),
                None => None,
            }
        }
    }

    /// The canonical textual form of the address, in ASCII.
    pub fn to_text(&self) -> (text: Vec<u8>)
        ensures
            text@ == ip_text(self@),
    {
        let mut text: Vec<u8> = Vec::new();
        match self {
            IpAddr::V4(o) => push_ipv4(&mut text, *o),
            IpAddr::V6(g) => push_ipv6(&mut text, *g),
        }
        assert(text@ =~= ip_text(self@));
        text
    }
}

} // verus!
