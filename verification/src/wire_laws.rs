//! How numbers, strings and requests look on the wire, byte by byte.

use vstd::prelude::*;
use vstd::utf8::{decode_utf8, encode_utf8, valid_utf8};

use crate::buffer::{
    be_i32_bytes, be_u16_bytes, be_u32_bytes, le_u16_bytes, lemma_be_i32_round_trip,
    lemma_be_u32_round_trip, lemma_first_index_unique, overwrite, take_bytes, take_i32, take_u16, take_u16_le, take_u32,
    take_u8,
};
use crate::error::CCProxyError;
use crate::packet::{
    packet_type_byte, request_bytes, take_packet_type, take_request, QueryPacketType,
    QueryRequestPacket, QueryRequestPacketPayload,
};
use crate::response::lemma_take_string_shrinks;
use crate::text::{
    after_string, decimal, digits_value, nul_terminated, parse_i32, parse_u64,
    signed_decimal, string_bytes, take_string,
};

verus! {

/// The two bytes of a number, weighted by their places, add up to it: the first
/// byte weighs most in the one form and least in the other.
pub proof fn law_u16_bytes(n: u16)
    ensures
        be_u16_bytes(n).len() == 2,
        be_u16_bytes(n)[0] * 0x100 + be_u16_bytes(n)[1] == n,
        le_u16_bytes(n).len() == 2,
        le_u16_bytes(n)[0] + le_u16_bytes(n)[1] * 0x100 == n,
{
}

/// The four bytes of a number, weighted by their places, add up to it; the first
/// byte weighs most.
pub proof fn law_u32_bytes(n: u32)
    ensures
        be_u32_bytes(n).len() == 4,
        be_u32_bytes(n)[0] * 0x100_0000 + be_u32_bytes(n)[1] * 0x1_0000 + be_u32_bytes(n)[2] * 0x100
            + be_u32_bytes(n)[3] == n,
{
    lemma_be_u32_round_trip(n);
    let b = be_u32_bytes(n);
    assert(b[0] * 0x100_0000 + b[1] * 0x1_0000 + b[2] * 0x100 + b[3] <= u32::MAX);
}

/// The four bytes of a signed number, weighted by their places, add up to it, or
/// to the number that is larger by 2^32 where it is negative.
pub proof fn law_i32_bytes(n: i32)
    ensures
        be_i32_bytes(n).len() == 4,
        be_i32_bytes(n)[0] * 0x100_0000 + be_i32_bytes(n)[1] * 0x1_0000 + be_i32_bytes(n)[2] * 0x100
            + be_i32_bytes(n)[3] == if n < 0 {
            n + 0x1_0000_0000
        } else {
            n as int
        },
{
    if n >= 0 {
        law_u32_bytes(n as u32);
    } else {
        law_u32_bytes((n + 0x1_0000_0000) as u32);
    }
}

/// A number is read from as many bytes as it has, each weighted by its place, and
/// what follows is left.
pub proof fn law_numbers_are_read(a: u8, b: u8, c: u8, d: u8, tail: Seq<u8>)
    ensures
        take_u8(seq![a] + tail) == (Ok::<u8, CCProxyError>(a), tail),
        take_u16(seq![a, b] + tail).0 matches Ok(n) && n == a * 0x100 + b,
        take_u16(seq![a, b] + tail).1 == tail,
        take_u16_le(seq![a, b] + tail).0 matches Ok(n) && n == a + b * 0x100,
        take_u16_le(seq![a, b] + tail).1 == tail,
        take_u32(seq![a, b, c, d] + tail).0 matches Ok(n) && n == a * 0x100_0000 + b * 0x1_0000 + c
            * 0x100 + d,
        take_u32(seq![a, b, c, d] + tail).1 == tail,
        take_i32(seq![a, b, c, d] + tail).0 matches Ok(n) && n == a * 0x100_0000 + b * 0x1_0000 + c
            * 0x100 + d - if a >= 0x80 {
            0x1_0000_0000int
        } else {
            0
        },
        take_i32(seq![a, b, c, d] + tail).1 == tail,
{
    let one = seq![a] + tail;
    let two = seq![a, b] + tail;
    let four = seq![a, b, c, d] + tail;
    assert(one.take(1) =~= seq![a] && one.skip(1) =~= tail);
    assert(two.take(2) =~= seq![a, b] && two.skip(2) =~= tail);
    assert(four.take(4) =~= seq![a, b, c, d] && four.skip(4) =~= tail);
}

/// Bytes are read as they are, and what follows is left. A read past the end
/// fails and leaves nothing.
pub proof fn law_bytes_are_read(bytes: Seq<u8>, tail: Seq<u8>, n: nat)
    ensures
        take_bytes(bytes + tail, bytes.len()) == (Ok::<Seq<u8>, CCProxyError>(bytes), tail),
        n > tail.len() ==> take_bytes(tail, n) == (
            Err::<Seq<u8>, CCProxyError>(CCProxyError::UnexpectedEof),
            Seq::<u8>::empty(),
        ),
        tail.len() < 1 ==> take_u8(tail) == (
            Err::<u8, CCProxyError>(CCProxyError::UnexpectedEof),
            Seq::<u8>::empty(),
        ),
        tail.len() < 2 ==> take_u16(tail) == (
            Err::<u16, CCProxyError>(CCProxyError::UnexpectedEof),
            Seq::<u8>::empty(),
        ),
        tail.len() < 2 ==> take_u16_le(tail) == (
            Err::<u16, CCProxyError>(CCProxyError::UnexpectedEof),
            Seq::<u8>::empty(),
        ),
        tail.len() < 4 ==> take_u32(tail) == (
            Err::<u32, CCProxyError>(CCProxyError::UnexpectedEof),
            Seq::<u8>::empty(),
        ),
        tail.len() < 4 ==> take_i32(tail) == (
            Err::<i32, CCProxyError>(CCProxyError::UnexpectedEof),
            Seq::<u8>::empty(),
        ),
{
    assert((bytes + tail).take(bytes.len() as int) =~= bytes);
    assert((bytes + tail).skip(bytes.len() as int) =~= tail);
}

/// Writing puts the bytes at the position and keeps all others; the buffer grows
/// only as far as the bytes reach.
pub proof fn law_writing_overwrites(data: Seq<u8>, pos: nat, bytes: Seq<u8>)
    requires
        pos <= data.len(),
    ensures
        overwrite(data, pos, bytes).len() == if pos + bytes.len() > data.len() {
            pos + bytes.len()
        } else {
            data.len()
        },
        forall|i: int|
            0 <= i < overwrite(data, pos, bytes).len() ==> #[trigger] overwrite(data, pos, bytes)[i]
                == if pos <= i < pos + bytes.len() {
                bytes[i - pos]
            } else {
                data[i]
            },
{
}

/// Decimal digits are written most significant first and without leading zeros;
/// a minus sign stands before a negative number alone.
pub proof fn law_decimal_digits(tens: nat, unit: nat, n: int)
    requires
        unit < 10,
    ensures
        decimal(unit) == seq![(0x30 + unit) as u8],
        tens > 0 ==> decimal(tens * 10 + unit) == decimal(tens) + seq![(0x30 + unit) as u8],
        n >= 0 ==> signed_decimal(n) == decimal(n as nat),
        n < 0 ==> signed_decimal(n) == seq![0x2du8] + decimal((-n) as nat),
{
    if tens > 0 {
        let m = tens * 10 + unit;
        assert(m / 10 == tens && m % 10 == unit);
        assert(decimal(m) =~= decimal(tens) + seq![(0x30 + unit) as u8]);
    }
}

/// A number in text is an optional sign and one or more digits, read in base ten;
/// anything else, and a number that does not fit, is none. Only a signed number
/// may have a minus sign.
pub proof fn law_numbers_in_text(digits: Seq<u8>, unit: u8)
    requires
        digits.len() > 0,
        forall|i: int| 0 <= i < digits.len() ==> 0x30 <= #[trigger] digits[i] <= 0x39,
        0x30 <= unit <= 0x39,
    ensures
        digits_value(Seq::empty()) == 0,
        digits_value(seq![unit]) == unit - 0x30,
        digits_value(digits + seq![unit]) == digits_value(digits) * 10 + (unit - 0x30),
        digits_value(digits) <= u64::MAX ==> {
            &&& parse_u64(digits) == Some(digits_value(digits) as u64)
            &&& parse_u64(seq![0x2bu8] + digits) == Some(digits_value(digits) as u64)
        },
        digits_value(digits) > u64::MAX ==> {
            &&& parse_u64(digits) is None
            &&& parse_u64(seq![0x2bu8] + digits) is None
        },
        parse_u64(seq![0x2du8] + digits) is None,
        digits_value(digits) <= i32::MAX ==> {
            &&& parse_i32(digits) == Some(digits_value(digits) as i32)
            &&& parse_i32(seq![0x2bu8] + digits) == Some(digits_value(digits) as i32)
        },
        digits_value(digits) > i32::MAX ==> {
            &&& parse_i32(digits) is None
            &&& parse_i32(seq![0x2bu8] + digits) is None
        },
        digits_value(digits) <= 0x8000_0000 ==> parse_i32(seq![0x2du8] + digits) == Some(
            (-digits_value(digits)) as i32,
        ),
        digits_value(digits) > 0x8000_0000 ==> parse_i32(seq![0x2du8] + digits) is None,
{
    let plus = seq![0x2bu8] + digits;
    let minus = seq![0x2du8] + digits;
    let more = digits + seq![unit];
    assert(plus.drop_first() =~= digits);
    assert(minus.drop_first() =~= digits);
    assert(more.drop_last() =~= digits);
    assert(seq![unit].drop_last() =~= Seq::<u8>::empty());
    assert(minus[0] == 0x2d);
    assert(plus[0] == 0x2b);
}

/// Text that holds anything but digits behind its sign, or no digit at all, is no
/// number.
pub proof fn law_other_text_is_no_number(s: Seq<u8>, i: int)
    requires
        0 <= i < s.len(),
        s[i] < 0x30 || s[i] > 0x39,
        i > 0 || (s[0] != 0x2b && s[0] != 0x2d) || s.len() == 1,
    ensures
        parse_u64(s) is None,
        parse_i32(s) is None,
        parse_u64(Seq::empty()) is None,
        parse_i32(Seq::empty()) is None,
{
    let tail = s.drop_first();
    if i > 0 {
        assert(tail[i - 1] == s[i]);
    }
}

/// A string is the bytes before the first zero byte, which have to be UTF-8; the
/// zero byte is used up and what follows is left.
pub proof fn law_string_is_read(bytes: Seq<u8>, tail: Seq<u8>)
    requires
        forall|i: int| 0 <= i < bytes.len() ==> #[trigger] bytes[i] != 0,
    ensures
        valid_utf8(bytes) ==> take_string(bytes + seq![0u8] + tail) == (
            Ok::<Seq<char>, CCProxyError>(decode_utf8(bytes)),
            tail,
        ),
        !valid_utf8(bytes) ==> take_string(bytes + seq![0u8] + tail) == (
            Err::<Seq<char>, CCProxyError>(CCProxyError::QueryInvalid),
            tail,
        ),
{
    let rest = bytes + seq![0u8] + tail;
    assert forall|i: int| 0 <= i < bytes.len() implies rest[i] != 0 by {
        assert(rest[i] == bytes[i]);
    }
    assert(rest[bytes.len() as int] == 0);
    lemma_first_index_unique(rest, 0, bytes.len() as int);
    assert(string_bytes(rest) =~= bytes);
    assert(after_string(rest) =~= tail);
}

/// A string that no zero byte ends uses up everything and loses its last byte.
pub proof fn law_unterminated_string(bytes: Seq<u8>, last: u8)
    requires
        forall|i: int| 0 <= i < bytes.len() ==> #[trigger] bytes[i] != 0,
        last != 0,
    ensures
        valid_utf8(bytes) ==> take_string(bytes + seq![last]) == (
            Ok::<Seq<char>, CCProxyError>(decode_utf8(bytes)),
            Seq::<u8>::empty(),
        ),
        !valid_utf8(bytes) ==> take_string(bytes + seq![last]) == (
            Err::<Seq<char>, CCProxyError>(CCProxyError::QueryInvalid),
            Seq::<u8>::empty(),
        ),
        take_string(Seq::empty()) == (
            Ok::<Seq<char>, CCProxyError>(Seq::empty()),
            Seq::<u8>::empty(),
        ),
{
    let rest = bytes + seq![last];
    assert forall|i: int| 0 <= i < rest.len() implies rest[i] != 0 by {
        if i < bytes.len() {
            assert(rest[i] == bytes[i]);
        }
    }
    lemma_first_index_unique(rest, 0, rest.len() as int);
    assert(string_bytes(rest) =~= bytes);
    lemma_take_string_shrinks(Seq::empty());
}

/// A string is written as its UTF-8 form and a zero byte.
pub proof fn law_string_is_written(text: Seq<char>)
    ensures
        nul_terminated(text) == encode_utf8(text) + seq![0u8],
{
    assert(nul_terminated(text) =~= encode_utf8(text) + seq![0u8]);
}

/// A signed number is read back.
pub(crate) proof fn lemma_take_i32(n: i32, tail: Seq<u8>)
    ensures
        take_i32(be_i32_bytes(n) + tail) == (Ok::<i32, CCProxyError>(n), tail),
{
    lemma_be_i32_round_trip(n);
    let s = be_i32_bytes(n) + tail;
    assert(s.take(4) =~= be_i32_bytes(n));
    assert(s.skip(4) =~= tail);
}

/// The head of a request: the magic number and a packet type.
proof fn lemma_request_head(ty: u8, tail: Seq<u8>)
    ensures
        take_u16(seq![0xfeu8, 0xfd, ty] + tail) == (
            Ok::<u16, CCProxyError>(0xfefd),
            seq![ty] + tail,
        ),
        take_u8(seq![ty] + tail) == (Ok::<u8, CCProxyError>(ty), tail),
{
    law_numbers_are_read(0xfe, 0xfd, 0, 0, seq![ty] + tail);
    law_numbers_are_read(ty, 0, 0, 0, tail);
    assert(seq![0xfeu8, 0xfd, ty] + tail =~= seq![0xfeu8, 0xfd] + (seq![ty] + tail));
}

/// The magic number, a nine and a session ID are a handshake request; what
/// follows is left.
pub proof fn law_handshake_request_is_read(id: i32, tail: Seq<u8>)
    ensures
        take_request(seq![0xfeu8, 0xfd, 9] + be_i32_bytes(id) + tail) == (
            Ok::<QueryRequestPacket, CCProxyError>(
                QueryRequestPacket {
                    ty: QueryPacketType::Handshake,
                    session_id: id & 0x0f0f0f0f,
                    payload: QueryRequestPacketPayload::Handshake,
                },
            ),
            tail,
        ),
{
    let rest = be_i32_bytes(id) + tail;
    assert(seq![0xfeu8, 0xfd, 9] + be_i32_bytes(id) + tail =~= seq![0xfeu8, 0xfd, 9] + rest);
    lemma_request_head(9, rest);
    lemma_take_i32(id, tail);
}

/// The magic number, a zero, a session ID and a token are a stat request. It asks
/// for a full stat where four zero bytes follow, which are used up then, and else
/// for a basic one.
pub proof fn law_stat_request_is_read(id: i32, token: i32, tail: Seq<u8>)
    ensures
        ({
            let (read, left) = take_request(
                seq![0xfeu8, 0xfd, 0] + be_i32_bytes(id) + be_i32_bytes(token) + tail,
            );
            let full = tail.len() >= 4 && tail[0] == 0 && tail[1] == 0 && tail[2] == 0 && tail[3]
                == 0;
            &&& read == Ok::<QueryRequestPacket, CCProxyError>(
                QueryRequestPacket {
                    ty: QueryPacketType::Stat,
                    session_id: id & 0x0f0f0f0f,
                    payload: if full {
                        QueryRequestPacketPayload::FullStat { challenge_token: token }
                    } else {
                        QueryRequestPacketPayload::BasicStat { challenge_token: token }
                    },
                },
            )
            &&& left == if tail.len() >= 4 {
                tail.skip(4)
            } else {
                Seq::empty()
            }
        }),
{
    let body = be_i32_bytes(token) + tail;
    let rest = be_i32_bytes(id) + body;
    assert(seq![0xfeu8, 0xfd, 0] + be_i32_bytes(id) + be_i32_bytes(token) + tail =~= seq![
        0xfeu8,
        0xfd,
        0,
    ] + rest);
    lemma_request_head(0, rest);
    lemma_take_i32(id, body);
    lemma_take_i32(token, tail);
    if tail.len() >= 4 {
        law_numbers_are_read(tail[0], tail[1], tail[2], tail[3], tail.skip(4));
        assert(tail =~= seq![tail[0], tail[1], tail[2], tail[3]] + tail.skip(4));
    } else {
        law_bytes_are_read(Seq::empty(), tail, 4);
    }
}

/// A request without the magic number, or of a type other than nine and zero, is
/// invalid.
pub proof fn law_other_requests_are_invalid(a: u8, b: u8, ty: u8, tail: Seq<u8>)
    ensures
        a != 0xfe || b != 0xfd ==> take_request(seq![a, b] + tail).0 == Err::<
            QueryRequestPacket,
            CCProxyError,
        >(CCProxyError::QueryInvalid),
        ty != 0 && ty != 9 ==> take_request(seq![0xfeu8, 0xfd, ty] + tail).0 == Err::<
            QueryRequestPacket,
            CCProxyError,
        >(CCProxyError::QueryInvalid),
{
    law_numbers_are_read(a, b, 0, 0, tail);
    lemma_request_head(ty, tail);
}

/// A request that ends before its magic number, its type, its session ID or its
/// token is cut short.
pub proof fn law_short_requests_end_early(part: Seq<u8>, id: i32)
    ensures
        part.len() < 2 ==> take_request(part).0 == Err::<QueryRequestPacket, CCProxyError>(
            CCProxyError::UnexpectedEof,
        ),
        take_request(seq![0xfeu8, 0xfd]).0 == Err::<QueryRequestPacket, CCProxyError>(
            CCProxyError::UnexpectedEof,
        ),
        part.len() < 4 ==> {
            &&& take_request(seq![0xfeu8, 0xfd, 9] + part).0 == Err::<
                QueryRequestPacket,
                CCProxyError,
            >(CCProxyError::UnexpectedEof)
            &&& take_request(seq![0xfeu8, 0xfd, 0] + part).0 == Err::<
                QueryRequestPacket,
                CCProxyError,
            >(CCProxyError::UnexpectedEof)
            &&& take_request(seq![0xfeu8, 0xfd, 0] + be_i32_bytes(id) + part).0 == Err::<
                QueryRequestPacket,
                CCProxyError,
            >(CCProxyError::UnexpectedEof)
        },
{
    let none = Seq::<u8>::empty();
    law_bytes_are_read(none, part, 4);
    law_bytes_are_read(none, none, 4);
    law_numbers_are_read(0xfe, 0xfd, 0, 0, none);
    assert(seq![0xfeu8, 0xfd] + none =~= seq![0xfeu8, 0xfd]);
    lemma_request_head(9, part);
    lemma_request_head(0, part);
    lemma_request_head(0, be_i32_bytes(id) + part);
    lemma_take_i32(id, part);
    assert(seq![0xfeu8, 0xfd, 0] + be_i32_bytes(id) + part =~= seq![0xfeu8, 0xfd, 0] + (
    be_i32_bytes(id) + part));
}

/// A request is written as the magic number, its type, its session ID, its token
/// where it has one, and four zero bytes where it asks for a full stat.
pub proof fn law_request_is_written(ty: QueryPacketType, id: i32, token: i32)
    ensures
        ({
            let head = seq![
                0xfeu8,
                0xfd,
                if ty is Handshake {
                    9
                } else {
                    0
                },
            ];
            &&& request_bytes(
                QueryRequestPacket {
                    ty,
                    session_id: id,
                    payload: QueryRequestPacketPayload::Handshake,
                },
            ) == head + be_i32_bytes(id)
            &&& request_bytes(
                QueryRequestPacket {
                    ty,
                    session_id: id,
                    payload: QueryRequestPacketPayload::BasicStat { challenge_token: token },
                },
            ) == head + be_i32_bytes(id) + be_i32_bytes(token)
            &&& request_bytes(
                QueryRequestPacket {
                    ty,
                    session_id: id,
                    payload: QueryRequestPacketPayload::FullStat { challenge_token: token },
                },
            ) == head + be_i32_bytes(id) + be_i32_bytes(token) + seq![0u8, 0, 0, 0]
        }),
{
    let head = seq![
        0xfeu8,
        0xfd,
        if ty is Handshake {
            9
        } else {
            0
        },
    ];
    let shake = QueryRequestPacket {
        ty,
        session_id: id,
        payload: QueryRequestPacketPayload::Handshake,
    };
    let basic = QueryRequestPacket {
        ty,
        session_id: id,
        payload: QueryRequestPacketPayload::BasicStat { challenge_token: token },
    };
    let full = QueryRequestPacket {
        ty,
        session_id: id,
        payload: QueryRequestPacketPayload::FullStat { challenge_token: token },
    };
    assert(request_bytes(shake) =~= head + be_i32_bytes(id));
    assert(request_bytes(basic) =~= head + be_i32_bytes(id) + be_i32_bytes(token));
    assert(request_bytes(full) =~= head + be_i32_bytes(id) + be_i32_bytes(token) + seq![
        0u8,
        0,
        0,
        0,
    ]);
}

/// A packet type is the byte zero or nine, and nothing else.
pub proof fn law_packet_type_is_read(b: u8, tail: Seq<u8>)
    ensures
        packet_type_byte(QueryPacketType::Stat) == 0,
        packet_type_byte(QueryPacketType::Handshake) == 9,
        take_packet_type(seq![0u8] + tail) == (
            Ok::<QueryPacketType, CCProxyError>(QueryPacketType::Stat),
            tail,
        ),
        take_packet_type(seq![9u8] + tail) == (
            Ok::<QueryPacketType, CCProxyError>(QueryPacketType::Handshake),
            tail,
        ),
        b != 0 && b != 9 ==> take_packet_type(seq![b] + tail) == (
            Err::<QueryPacketType, CCProxyError>(CCProxyError::QueryInvalid),
            tail,
        ),
        take_packet_type(Seq::empty()).0 == Err::<QueryPacketType, CCProxyError>(
            CCProxyError::UnexpectedEof,
        ),
{
    law_numbers_are_read(0, 0, 0, 0, tail);
    law_numbers_are_read(9, 0, 0, 0, tail);
    law_numbers_are_read(b, 0, 0, 0, tail);
}

} // verus!
