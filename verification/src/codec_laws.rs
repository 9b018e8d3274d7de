//! What holds of writing packets and reading them back.

use vstd::prelude::*;
use vstd::utf8::{decode_utf8, decode_utf8_encode_utf8, encode_utf8};

use crate::buffer::{
    be_i32_bytes, be_u16_bytes, be_u32_bytes, le_u16_bytes, lemma_be_u16_round_trip,
    lemma_be_u32_round_trip, lemma_le_u16_round_trip, take_u16_le,
};
use crate::error::CCProxyError;
use crate::ip::{ip_text, IpAddrView};
use crate::ip_lemmas::{is_ip, lemma_ip_round_trip};
use crate::kv::{distinct_keys, lemma_put_new};
use crate::packet::{
    packet_type_byte, request_bytes, request_payload_bytes, take_packet_type, take_request,
    QueryPacketType, QueryRequestPacket, QueryRequestPacketPayload, QUERY_PACKET_MAGIC,
    SESSION_ID_MASK,
};
use crate::response::{
    all_writable, field_bytes, full_stat_prefix, pair_fields, player_prefix, response_bytes,
    is_writable, lemma_written_concat, response_fields, take_ip_text, take_names, take_pairs,
    take_response, take_response_payload, take_u64_text, text_fields, written, FieldView,
    QueryResponsePacketPayloadView, QueryResponsePacketView,
};
use crate::text::{
    decimal, is_plain_ascii, lemma_ascii_valid, lemma_decimal_ascii, lemma_i32_round_trip,
    lemma_nul_bytes, lemma_string_round_trip, lemma_u64_round_trip, nul_terminated, signed_decimal,
    take_string,
};
use crate::wire_laws::lemma_take_i32;

verus! {

/// True for a request whose type is that of its payload.
pub open spec fn is_request(r: QueryRequestPacket) -> bool {
    match r.payload {
        QueryRequestPacketPayload::Handshake => r.ty == QueryPacketType::Handshake,
        _ => r.ty == QueryPacketType::Stat,
    }
}

/// A request as it is read: with the bits of the session ID that a server reads.
pub open spec fn as_read(r: QueryRequestPacket) -> QueryRequestPacket {
    QueryRequestPacket { session_id: r.session_id & SESSION_ID_MASK, ..r }
}

proof fn lemma_take_packet_type(ty: QueryPacketType, tail: Seq<u8>)
    ensures
        take_packet_type(seq![packet_type_byte(ty)] + tail) == (
            Ok::<QueryPacketType, CCProxyError>(ty),
            tail,
        ),
{
    let s = seq![packet_type_byte(ty)] + tail;
    assert(s.take(1) =~= seq![packet_type_byte(ty)]);
    assert(s.skip(1) =~= tail);
}

/// Reading a request gives back the one that was written, with the bits of its
/// session ID that a server reads.
pub proof fn law_request_round_trip(r: QueryRequestPacket)
    requires
        is_request(r),
    ensures
        take_request(request_bytes(r)) == (
            Ok::<QueryRequestPacket, CCProxyError>(as_read(r)),
            Seq::<u8>::empty(),
        ),
        r.session_id & SESSION_ID_MASK == r.session_id ==> as_read(r) == r,
{
    let payload = request_payload_bytes(r.payload);
    let with_id = be_i32_bytes(r.session_id) + payload;
    let with_type = seq![packet_type_byte(r.ty)] + with_id;
    let all = be_u16_bytes(QUERY_PACKET_MAGIC) + with_type;
    assert(request_bytes(r) =~= all);
    lemma_be_u16_round_trip(QUERY_PACKET_MAGIC);
    assert(all.take(2) =~= be_u16_bytes(QUERY_PACKET_MAGIC));
    assert(all.skip(2) =~= with_type);
    lemma_take_packet_type(r.ty, with_id);
    lemma_take_i32(r.session_id, payload);
    match r.payload {
        QueryRequestPacketPayload::Handshake => {},
        QueryRequestPacketPayload::BasicStat { challenge_token } => {
            assert(payload =~= be_i32_bytes(challenge_token) + Seq::<u8>::empty());
            lemma_take_i32(challenge_token, Seq::empty());
        },
        QueryRequestPacketPayload::FullStat { challenge_token } => {
            lemma_take_i32(challenge_token, be_u32_bytes(0));
            lemma_be_u32_round_trip(0);
            let padding = be_u32_bytes(0);
            assert(padding.take(4) =~= padding);
            assert(padding.skip(4) =~= Seq::<u8>::empty());
        },
    }
}

/// Reading plain ASCII text gives back its bytes.
proof fn lemma_ascii_string(bytes: Seq<u8>, tail: Seq<u8>)
    requires
        is_plain_ascii(bytes),
    ensures
        take_string(bytes.push(0) + tail).0 matches Ok(text) && encode_utf8(text) == bytes,
        take_string(bytes.push(0) + tail).1 == tail,
{
    lemma_ascii_valid(bytes);
    let text = decode_utf8(bytes);
    decode_utf8_encode_utf8(bytes);
    lemma_nul_bytes(text);
    assert(!bytes.contains(0u8));
    lemma_string_round_trip(text, tail);
}

/// The type and the session ID of a response come first.
proof fn lemma_take_response_head(r: QueryResponsePacketView, is_full: bool, tail: Seq<u8>)
    ensures
        take_response(response_bytes(r) + tail, is_full) == match take_response_payload(
            written(response_fields(r.payload)) + tail,
            r.ty,
            is_full,
        ) {
            (Err(e), left) => (Err(e), left),
            (Ok(payload), left) => (Ok(QueryResponsePacketView { payload, ..r }), left),
        },
{
    let body = written(response_fields(r.payload)) + tail;
    let with_id = be_i32_bytes(r.session_id) + body;
    assert(response_bytes(r) + tail =~= seq![packet_type_byte(r.ty)] + with_id);
    lemma_take_packet_type(r.ty, with_id);
    lemma_take_i32(r.session_id, body);
}

/// Reading a handshake response gives back the one that was written, and leaves
/// what follows it.
pub proof fn law_handshake_round_trip(
    session_id: i32,
    challenge_token: i32,
    is_full: bool,
    tail: Seq<u8>,
)
    ensures
        ({
            let r = QueryResponsePacketView {
                ty: QueryPacketType::Handshake,
                session_id,
                payload: QueryResponsePacketPayloadView::Handshake { challenge_token },
            };
            take_response(response_bytes(r) + tail, is_full) == (
                Ok::<QueryResponsePacketView, CCProxyError>(r),
                tail,
            )
        }),
{
    let payload = QueryResponsePacketPayloadView::Handshake { challenge_token };
    let digits = signed_decimal(challenge_token as int);
    let r = QueryResponsePacketView { ty: QueryPacketType::Handshake, session_id, payload };
    lemma_take_response_head(r, is_full, tail);
    reveal_with_fuel(written, 2);
    assert(written(response_fields(payload)) =~= digits.push(0));
    lemma_decimal_ascii(challenge_token as int);
    lemma_ascii_string(digits, tail);
    lemma_i32_round_trip(challenge_token);
}

proof fn lemma_take_u64_text(n: u64, tail: Seq<u8>)
    ensures
        take_u64_text(decimal(n as nat).push(0) + tail) == (Ok::<u64, CCProxyError>(n), tail),
{
    lemma_decimal_ascii(n as int);
    lemma_ascii_string(decimal(n as nat), tail);
    lemma_u64_round_trip(n);
}

proof fn lemma_take_u16_le(n: u16, tail: Seq<u8>)
    ensures
        take_u16_le(le_u16_bytes(n) + tail) == (Ok::<u16, CCProxyError>(n), tail),
{
    lemma_le_u16_round_trip(n);
    let s = le_u16_bytes(n) + tail;
    assert(s.take(2) =~= le_u16_bytes(n));
    assert(s.skip(2) =~= tail);
}

proof fn lemma_take_ip_text(ip: IpAddrView, tail: Seq<u8>)
    requires
        is_ip(ip),
    ensures
        take_ip_text(ip_text(ip).push(0) + tail) == (Ok::<IpAddrView, CCProxyError>(ip), tail),
{
    lemma_ip_round_trip(ip);
    lemma_ascii_string(ip_text(ip), tail);
}

/// Reading a basic stat gives back the one that was written, and leaves what
/// follows it.
pub proof fn law_basic_stat_round_trip(
    session_id: i32,
    motd: Seq<char>,
    game_type: Seq<char>,
    map: Seq<char>,
    num_players: u64,
    max_players: u64,
    host_port: u16,
    host_ip: IpAddrView,
    tail: Seq<u8>,
)
    requires
        !motd.contains('\0'),
        !game_type.contains('\0'),
        !map.contains('\0'),
        is_ip(host_ip),
    ensures
        ({
            let r = QueryResponsePacketView {
                ty: QueryPacketType::Stat,
                session_id,
                payload: QueryResponsePacketPayloadView::BasicStat {
                    motd,
                    game_type,
                    map,
                    num_players,
                    max_players,
                    host_port,
                    host_ip,
                },
            };
            &&& all_writable(response_fields(r.payload))
            &&& take_response(response_bytes(r) + tail, false) == (
                Ok::<QueryResponsePacketView, CCProxyError>(r),
                tail,
            )
        }),
{
    let payload = QueryResponsePacketPayloadView::BasicStat {
        motd,
        game_type,
        map,
        num_players,
        max_players,
        host_port,
        host_ip,
    };
    let r = QueryResponsePacketView { ty: QueryPacketType::Stat, session_id, payload };
    lemma_take_response_head(r, false, tail);
    lemma_written_seven(response_fields(payload), tail);
    let b7 = ip_text(host_ip).push(0) + tail;
    let b6 = le_u16_bytes(host_port) + b7;
    let b5 = decimal(max_players as nat).push(0) + b6;
    let b4 = decimal(num_players as nat).push(0) + b5;
    let b3 = nul_terminated(map) + b4;
    let b2 = nul_terminated(game_type) + b3;
    lemma_string_round_trip(motd, b2);
    lemma_string_round_trip(game_type, b3);
    lemma_string_round_trip(map, b4);
    lemma_take_u64_text(num_players, b5);
    lemma_take_u64_text(max_players, b6);
    lemma_take_u16_le(host_port, b7);
    lemma_take_ip_text(host_ip, tail);
}

proof fn lemma_written_tail(fs: Seq<FieldView>, tail: Seq<u8>)
    requires
        fs.len() > 0,
        all_writable(fs),
    ensures
        written(fs) + tail == field_bytes(fs[0]) + (written(fs.drop_first()) + tail),
        all_writable(fs.drop_first()),
{
    assert(written(fs) + tail =~= field_bytes(fs[0]) + (written(fs.drop_first()) + tail));
}

pub(crate) proof fn lemma_written_seven(fs: Seq<FieldView>, tail: Seq<u8>)
    requires
        fs.len() == 7,
        all_writable(fs),
    ensures
        written(fs) + tail == field_bytes(fs[0]) + (field_bytes(fs[1]) + (field_bytes(fs[2]) + (
        field_bytes(fs[3]) + (field_bytes(fs[4]) + (field_bytes(fs[5]) + (field_bytes(fs[6])
            + tail)))))),
{
    let f1 = fs.drop_first();
    let f2 = f1.drop_first();
    let f3 = f2.drop_first();
    let f4 = f3.drop_first();
    let f5 = f4.drop_first();
    let f6 = f5.drop_first();
    let f7 = f6.drop_first();
    lemma_written_tail(fs, tail);
    lemma_written_tail(f1, tail);
    lemma_written_tail(f2, tail);
    lemma_written_tail(f3, tail);
    lemma_written_tail(f4, tail);
    lemma_written_tail(f5, tail);
    lemma_written_tail(f6, tail);
    assert(f1[0] == fs[1]);
    assert(f2[0] == fs[2]);
    assert(f3[0] == fs[3]);
    assert(f4[0] == fs[4]);
    assert(f5[0] == fs[5]);
    assert(f6[0] == fs[6]);
    assert(written(f7) + tail =~= tail);
}

/// True for pairs that can be told apart from the end of their section and from
/// each other.
pub open spec fn is_section(p: Seq<(Seq<char>, Seq<char>)>) -> bool {
    &&& distinct_keys(p)
    &&& forall|i: int| 0 <= i < p.len() ==> (#[trigger] p[i]).0.len() > 0
    &&& forall|i: int|
        0 <= i < p.len() ==> !(#[trigger] p[i]).0.contains('\0') && !p[i].1.contains('\0')
}

/// True for names that can be written.
pub open spec fn are_names(t: Seq<Seq<char>>) -> bool {
    forall|i: int| 0 <= i < t.len() ==> !(#[trigger] t[i]).contains('\0')
}

/// Pairs that were written are read back, behind those that were read before.
pub(crate) proof fn lemma_pairs_round_trip(
    acc: Seq<(Seq<char>, Seq<char>)>,
    p: Seq<(Seq<char>, Seq<char>)>,
    tail: Seq<u8>,
)
    requires
        is_section(acc + p),
    ensures
        take_pairs(written(pair_fields(p)) + tail, acc) == take_pairs(tail, acc + p),
        all_writable(pair_fields(p)),
    decreases p.len(),
{
    let fs = pair_fields(p);
    let all = acc + p;
    assert forall|i: int| 0 <= i < fs.len() implies is_writable(#[trigger] fs[i]) by {
        let e = all[acc.len() + i / 2];
        assert(e == p[i / 2]);
    }
    if p.len() == 0 {
        assert(written(fs) + tail =~= tail);
        assert(acc + p =~= acc);
    } else {
        let (k, v) = p[0];
        let rest = p.drop_first();
        let f1 = fs.drop_first();
        let f2 = f1.drop_first();
        assert(fs[0] == FieldView::Text(k));
        assert(f1[0] == FieldView::Text(v));
        assert(f2 =~= pair_fields(rest)) by {
            assert forall|i: int| 0 <= i < f2.len() implies f2[i] == pair_fields(rest)[i] by {
                assert(f2[i] == fs[i + 2]);
                assert((i + 2) / 2 == i / 2 + 1);
                assert((i + 2) % 2 == i % 2);
                assert(rest[i / 2] == p[i / 2 + 1]);
            }
        }
        lemma_written_tail(fs, tail);
        lemma_written_tail(f1, tail);
        assert(all[acc.len() as int] == p[0]);
        lemma_string_round_trip(k, nul_terminated(v) + (written(f2) + tail));
        lemma_string_round_trip(v, written(f2) + tail);
        assert forall|i: int| 0 <= i < acc.len() implies (#[trigger] acc[i]).0 != k by {
            assert(all[i] == acc[i]);
            assert(all[i].0 != all[acc.len() as int].0);
        }
        lemma_put_new(acc, k, v);
        assert(acc.push((k, v)) + rest =~= all);
        lemma_pairs_round_trip(acc.push((k, v)), rest, tail);
    }
}

/// An empty key ends the pairs.
pub(crate) proof fn lemma_section_end(acc: Seq<(Seq<char>, Seq<char>)>, tail: Seq<u8>)
    ensures
        take_pairs(seq![0u8] + tail, acc) == (acc, tail),
{
    let none = Seq::<char>::empty();
    assert(nul_terminated(none) =~= seq![0u8]);
    lemma_string_round_trip(none, tail);
}

/// Names that were written are read back, behind those that were read before.
pub(crate) proof fn lemma_names_round_trip(acc: Seq<Seq<char>>, t: Seq<Seq<char>>, tail: Seq<u8>)
    requires
        are_names(t),
        forall|i: int| 0 <= i < t.len() ==> (#[trigger] t[i]).len() > 0,
    ensures
        take_names(written(text_fields(t)) + (seq![0u8] + tail), acc) == (acc + t, tail),
    decreases t.len(),
{
    let fs = text_fields(t);
    let end = seq![0u8] + tail;
    if t.len() == 0 {
        let none = Seq::<char>::empty();
        assert(nul_terminated(none) =~= seq![0u8]);
        assert(written(fs) + end =~= end);
        lemma_string_round_trip(none, tail);
        assert(acc + t =~= acc);
    } else {
        let rest = t.drop_first();
        assert forall|i: int| 0 <= i < fs.len() implies is_writable(#[trigger] fs[i]) by {
            assert(fs[i] == FieldView::Text(t[i]));
        }
        lemma_written_tail(fs, end);
        assert(fs[0] == FieldView::Text(t[0]));
        assert(fs.drop_first() =~= text_fields(rest));
        lemma_string_round_trip(t[0], written(text_fields(rest)) + end);
        assert forall|i: int| 0 <= i < rest.len() implies (#[trigger] rest[i]).len() > 0
            && !rest[i].contains('\0') by {
            assert(rest[i] == t[i + 1]);
        }
        lemma_names_round_trip(acc.push(t[0]), rest, tail);
        assert(acc.push(t[0]) + rest =~= acc + t);
    }
}

pub(crate) proof fn lemma_full_stat_bytes(
    p: Seq<(Seq<char>, Seq<char>)>,
    t: Seq<Seq<char>>,
    tail: Seq<u8>,
)
    requires
        all_writable(pair_fields(p)),
        are_names(t),
    ensures
        ({
            let payload = QueryResponsePacketPayloadView::FullStat { k_v_section: p, players: t };
            let names = written(text_fields(t)).push(0) + tail;
            &&& all_writable(response_fields(payload))
            &&& written(response_fields(payload)) + tail == full_stat_prefix() + (written(
                pair_fields(p),
            ) + (seq![0u8] + (player_prefix() + names)))
        }),
{
    let payload = QueryResponsePacketPayloadView::FullStat { k_v_section: p, players: t };
    let f0 = seq![FieldView::Raw(full_stat_prefix())];
    let f1 = pair_fields(p);
    let f2 = seq![FieldView::Raw(seq![0u8]), FieldView::Raw(player_prefix())];
    let f3 = text_fields(t);
    let f4 = seq![FieldView::Raw(seq![0u8])];
    assert(all_writable(f3)) by {
        assert forall|i: int| 0 <= i < f3.len() implies is_writable(#[trigger] f3[i]) by {
            assert(f3[i] == FieldView::Text(t[i]));
        }
    }
    assert(all_writable(f0 + f1));
    assert(all_writable(f0 + f1 + f2));
    assert(all_writable(f0 + f1 + f2 + f3));
    lemma_written_concat(f0 + f1 + f2 + f3, f4);
    lemma_written_concat(f0 + f1 + f2, f3);
    lemma_written_concat(f0 + f1, f2);
    lemma_written_concat(f0, f1);
    reveal_with_fuel(written, 3);
    assert(written(f0) =~= full_stat_prefix());
    assert(f2.drop_first() =~= seq![FieldView::Raw(player_prefix())]);
    assert(written(f2) =~= seq![0u8] + player_prefix());
    assert(written(f4) =~= seq![0u8]);
    let names = written(f3).push(0) + tail;
    assert(written(response_fields(payload)) + tail =~= full_stat_prefix() + (written(f1) + (
    seq![0u8] + (player_prefix() + names))));
}

/// Reading a full stat gives back the one that was written, pairs and names, and
/// leaves what follows it. A name is not empty.
pub proof fn law_full_stat_round_trip(
    session_id: i32,
    k_v_section: Seq<(Seq<char>, Seq<char>)>,
    players: Seq<Seq<char>>,
    tail: Seq<u8>,
)
    requires
        is_section(k_v_section),
        are_names(players),
        forall|i: int| 0 <= i < players.len() ==> (#[trigger] players[i]).len() > 0,
    ensures
        ({
            let r = QueryResponsePacketView {
                ty: QueryPacketType::Stat,
                session_id,
                payload: QueryResponsePacketPayloadView::FullStat { k_v_section, players },
            };
            &&& all_writable(response_fields(r.payload))
            &&& take_response_payload(
                written(response_fields(r.payload)) + tail,
                QueryPacketType::Stat,
                true,
            ) == (Ok::<QueryResponsePacketPayloadView, CCProxyError>(r.payload), tail)
            &&& take_response(response_bytes(r) + tail, true) == (
                Ok::<QueryResponsePacketView, CCProxyError>(r),
                tail,
            )
        }),
{
    let payload = QueryResponsePacketPayloadView::FullStat { k_v_section, players };
    let r = QueryResponsePacketView { ty: QueryPacketType::Stat, session_id, payload };
    let names = written(text_fields(players)).push(0) + tail;
    let announced = player_prefix() + names;
    let ending = seq![0u8] + announced;
    let pairs = written(pair_fields(k_v_section)) + ending;
    assert(Seq::<(Seq<char>, Seq<char>)>::empty() + k_v_section =~= k_v_section);
    lemma_pairs_round_trip(Seq::empty(), k_v_section, ending);
    lemma_take_response_head(r, true, tail);
    lemma_full_stat_bytes(k_v_section, players, tail);
    let body = full_stat_prefix() + pairs;
    assert(body.take(11) =~= full_stat_prefix());
    assert(body.skip(11) =~= pairs);
    lemma_section_end(k_v_section, announced);
    assert(announced.take(10) =~= player_prefix());
    assert(announced.skip(10) =~= names);
    assert(names =~= written(text_fields(players)) + (seq![0u8] + tail));
    lemma_names_round_trip(Seq::empty(), players, tail);
    assert(Seq::<Seq<char>>::empty() + players =~= players);
}

} // verus!
