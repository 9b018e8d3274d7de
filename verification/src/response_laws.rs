//! How responses look on the wire, byte by byte.

use vstd::prelude::*;
use vstd::utf8::{decode_utf8, decode_utf8_encode_utf8, encode_utf8, valid_utf8};

use crate::buffer::{be_i32_bytes, le_u16_bytes, take_u16_le};
use crate::codec_laws::{
    lemma_full_stat_bytes, lemma_names_round_trip, lemma_pairs_round_trip, lemma_section_end,
    lemma_written_seven,
};
use crate::error::CCProxyError;
use crate::ip::{ip_text, parse_ip, IpAddrView};
use crate::kv::{lemma_key_index, lemma_key_index_unique, pairs_map, put};
use crate::packet::{take_packet_type, QueryPacketType};
use crate::response::{
    all_writable, is_writable, lemma_written_concat, lemma_written_stops, pair_fields,
    player_prefix, response_bytes, response_fields, take_names, take_pairs, take_response, text_fields, written, FieldView, QueryResponsePacketPayloadView,
    QueryResponsePacketView,
};
use crate::text::{decimal, nul_terminated, parse_i32, parse_u64, signed_decimal, take_string};
use crate::wire_laws::{
    law_bytes_are_read, law_numbers_are_read, law_packet_type_is_read, law_string_is_read,
    law_string_is_written, lemma_take_i32,
};

verus! {

/// Texts one after another, each ended by a zero byte.
pub open spec fn names_on_wire(t: Seq<Seq<char>>) -> Seq<u8> {
    t.map_values(|n: Seq<char>| encode_utf8(n) + seq![0u8]).flatten()
}

/// Pairs one after another, key and value each ended by a zero byte.
pub open spec fn pairs_on_wire(p: Seq<(Seq<char>, Seq<char>)>) -> Seq<u8> {
    p.map_values(
        |e: (Seq<char>, Seq<char>)| encode_utf8(e.0) + seq![0u8] + encode_utf8(e.1) + seq![0u8],
    ).flatten()
}

proof fn lemma_names_on_wire(t: Seq<Seq<char>>)
    requires
        forall|i: int| 0 <= i < t.len() ==> !(#[trigger] t[i]).contains('\0'),
    ensures
        written(text_fields(t)) == names_on_wire(t),
        all_writable(text_fields(t)),
    decreases t.len(),
{
    let fs = text_fields(t);
    let wire = t.map_values(|n: Seq<char>| encode_utf8(n) + seq![0u8]);
    assert forall|i: int| 0 <= i < fs.len() implies is_writable(#[trigger] fs[i]) by {
        assert(fs[i] == FieldView::Text(t[i]));
    }
    if t.len() > 0 {
        let rest = t.drop_first();
        assert forall|i: int| 0 <= i < rest.len() implies !(#[trigger] rest[i]).contains('\0') by {
            assert(rest[i] == t[i + 1]);
        }
        lemma_names_on_wire(rest);
        assert(fs[0] == FieldView::Text(t[0]));
        assert(fs.drop_first() =~= text_fields(rest));
        assert(wire.drop_first() =~= rest.map_values(
            |n: Seq<char>| encode_utf8(n) + seq![0u8],
        ));
        law_string_is_written(t[0]);
    }
}

proof fn lemma_pairs_on_wire(p: Seq<(Seq<char>, Seq<char>)>)
    requires
        forall|i: int|
            0 <= i < p.len() ==> !(#[trigger] p[i]).0.contains('\0') && !p[i].1.contains('\0'),
    ensures
        written(pair_fields(p)) == pairs_on_wire(p),
        all_writable(pair_fields(p)),
    decreases p.len(),
{
    let fs = pair_fields(p);
    let wire = p.map_values(
        |e: (Seq<char>, Seq<char>)| encode_utf8(e.0) + seq![0u8] + encode_utf8(e.1) + seq![0u8],
    );
    assert forall|i: int| 0 <= i < fs.len() implies is_writable(#[trigger] fs[i]) by {
        let e = p[i / 2];
        assert(!e.0.contains('\0') && !e.1.contains('\0'));
    }
    if p.len() > 0 {
        let rest = p.drop_first();
        let f1 = fs.drop_first();
        let f2 = f1.drop_first();
        assert forall|i: int| 0 <= i < rest.len() implies !(#[trigger] rest[i]).0.contains('\0')
            && !rest[i].1.contains('\0') by {
            assert(rest[i] == p[i + 1]);
        }
        lemma_pairs_on_wire(rest);
        assert(fs[0] == FieldView::Text(p[0].0));
        assert(f1[0] == FieldView::Text(p[0].1));
        assert(f1[0] == fs[1]);
        assert forall|i: int| 0 <= i < f2.len() implies f2[i] == pair_fields(rest)[i] by {
            assert(f2[i] == fs[i + 2]);
            assert((i + 2) / 2 == i / 2 + 1);
            assert((i + 2) % 2 == i % 2);
            assert(rest[i / 2] == p[i / 2 + 1]);
        }
        assert(f2 =~= pair_fields(rest));
        assert(wire.drop_first() =~= rest.map_values(
            |e: (Seq<char>, Seq<char>)| encode_utf8(e.0) + seq![0u8] + encode_utf8(e.1) + seq![0u8],
        ));
        law_string_is_written(p[0].0);
        law_string_is_written(p[0].1);
        assert(is_writable(fs[0]) && is_writable(fs[1]));
        assert(written(fs) == nul_terminated(p[0].0) + written(f1));
        assert(written(f1) == nul_terminated(p[0].1) + written(f2));
        assert(written(fs) =~= pairs_on_wire(p));
    }
}

/// A handshake response is a nine, the session ID, and the token in decimal ended
/// by a zero byte. It can always be written.
pub proof fn law_handshake_is_written(session_id: i32, challenge_token: i32)
    ensures
        ({
            let r = QueryResponsePacketView {
                ty: QueryPacketType::Handshake,
                session_id,
                payload: QueryResponsePacketPayloadView::Handshake { challenge_token },
            };
            &&& all_writable(response_fields(r.payload))
            &&& response_bytes(r) == seq![9u8] + be_i32_bytes(session_id) + signed_decimal(
                challenge_token as int,
            ) + seq![0u8]
        }),
{
    let payload = QueryResponsePacketPayloadView::Handshake { challenge_token };
    let r = QueryResponsePacketView { ty: QueryPacketType::Handshake, session_id, payload };
    reveal_with_fuel(written, 2);
    assert(response_bytes(r) =~= seq![9u8] + be_i32_bytes(session_id) + signed_decimal(
        challenge_token as int,
    ) + seq![0u8]);
}

proof fn lemma_head(ty: u8, session_id: i32, body: Seq<u8>)
    requires
        ty == 0 || ty == 9,
    ensures
        ({
            let t = if ty == 0 {
                QueryPacketType::Stat
            } else {
                QueryPacketType::Handshake
            };
            take_packet_type(seq![ty] + (be_i32_bytes(session_id) + body)) == (
                Ok::<QueryPacketType, CCProxyError>(t),
                be_i32_bytes(session_id) + body,
            )
        }),
{
    law_packet_type_is_read(ty, be_i32_bytes(session_id) + body);
}

/// A nine, a session ID and a string are a handshake response where the string is
/// a number, and invalid where it is none.
pub proof fn law_handshake_is_read(
    session_id: i32,
    token: Seq<u8>,
    tail: Seq<u8>,
    is_full: bool,
)
    requires
        forall|i: int| 0 <= i < token.len() ==> #[trigger] token[i] != 0,
    ensures
        ({
            let (read, left) = take_response(
                seq![9u8] + (be_i32_bytes(session_id) + (token + seq![0u8] + tail)),
                is_full,
            );
            &&& left == tail
            &&& valid_utf8(token) && parse_i32(token) is Some ==> read == Ok::<
                QueryResponsePacketView,
                CCProxyError,
            >(
                QueryResponsePacketView {
                    ty: QueryPacketType::Handshake,
                    session_id,
                    payload: QueryResponsePacketPayloadView::Handshake {
                        challenge_token: parse_i32(token)->0,
                    },
                },
            )
            &&& !(valid_utf8(token) && parse_i32(token) is Some) ==> read == Err::<
                QueryResponsePacketView,
                CCProxyError,
            >(CCProxyError::QueryInvalid)
        }),
{
    let body = token + seq![0u8] + tail;
    lemma_head(9, session_id, body);
    lemma_take_i32(session_id, body);
    law_string_is_read(token, tail);
    if valid_utf8(token) {
        decode_utf8_encode_utf8(token);
    }
}

/// A basic stat is a zero, the session ID, the three texts and the two player
/// counts in decimal, each ended by a zero byte, the port with its lower byte
/// first, and the text of the address ended by a zero byte.
pub proof fn law_basic_stat_is_written(
    session_id: i32,
    motd: Seq<char>,
    game_type: Seq<char>,
    map: Seq<char>,
    num_players: u64,
    max_players: u64,
    host_port: u16,
    host_ip: IpAddrView,
)
    ensures
        ({
            let r = QueryResponsePacketView {
                ty: QueryPacketType::Stat,
                session_id,
                payload: QueryResponsePacketPayloadView::BasicStat {
                    motd,
                    game_type,
                    map,
                    num_players,
                    max_players,
                    host_port,
                    host_ip,
                },
            };
            let writable = !motd.contains('\0') && !game_type.contains('\0') && !map.contains(
                '\0',
            );
            &&& all_writable(response_fields(r.payload)) <==> writable
            &&& writable ==> response_bytes(r) == seq![0u8] + (be_i32_bytes(session_id) + (
            encode_utf8(motd) + seq![0u8] + (encode_utf8(game_type) + seq![0u8] + (encode_utf8(map)
                + seq![0u8] + (decimal(num_players as nat) + seq![0u8] + (decimal(
                max_players as nat,
            ) + seq![0u8] + (le_u16_bytes(host_port) + (ip_text(host_ip) + seq![0u8]))))))))
        }),
{
    let payload = QueryResponsePacketPayloadView::BasicStat {
        motd,
        game_type,
        map,
        num_players,
        max_players,
        host_port,
        host_ip,
    };
    let r = QueryResponsePacketView { ty: QueryPacketType::Stat, session_id, payload };
    let fs = response_fields(payload);
    let writable = !motd.contains('\0') && !game_type.contains('\0') && !map.contains('\0');
    assert(fs[0] == FieldView::Text(motd));
    assert(fs[1] == FieldView::Text(game_type));
    assert(fs[2] == FieldView::Text(map));
    if !writable {
        assert(!is_writable(fs[0]) || !is_writable(fs[1]) || !is_writable(fs[2]));
    } else {
        let none = Seq::<u8>::empty();
        lemma_written_seven(fs, none);
        assert(written(fs) + none =~= written(fs));
        law_string_is_written(motd);
        law_string_is_written(game_type);
        law_string_is_written(map);
        let n = decimal(num_players as nat);
        let x = decimal(max_players as nat);
        let i = ip_text(host_ip);
        assert(n.push(0) =~= n + seq![0u8]);
        assert(x.push(0) =~= x + seq![0u8]);
        assert(i.push(0) + none =~= i + seq![0u8]);
        let body = encode_utf8(motd) + seq![0u8] + (encode_utf8(game_type) + seq![0u8] + (
        encode_utf8(map) + seq![0u8] + (n + seq![0u8] + (x + seq![0u8] + (le_u16_bytes(host_port)
            + (i + seq![0u8]))))));
        assert(written(fs) == body);
        assert(response_bytes(r) =~= seq![0u8] + (be_i32_bytes(session_id) + body));
    }
}

/// A full stat is a zero, the session ID, the text `splitnum` with a zero, the
/// byte 128 and a zero, the pairs, a zero byte, a one and the text `player_` with
/// two zeros, the names, and a zero byte.
pub proof fn law_full_stat_is_written(
    session_id: i32,
    k_v_section: Seq<(Seq<char>, Seq<char>)>,
    players: Seq<Seq<char>>,
)
    requires
        forall|i: int|
            0 <= i < k_v_section.len() ==> !(#[trigger] k_v_section[i]).0.contains('\0')
                && !k_v_section[i].1.contains('\0'),
        forall|i: int| 0 <= i < players.len() ==> !(#[trigger] players[i]).contains('\0'),
    ensures
        ({
            let r = QueryResponsePacketView {
                ty: QueryPacketType::Stat,
                session_id,
                payload: QueryResponsePacketPayloadView::FullStat { k_v_section, players },
            };
            &&& all_writable(response_fields(r.payload))
            &&& response_bytes(r) == seq![0u8] + (be_i32_bytes(session_id) + (seq![
                0x73u8,
                0x70,
                0x6c,
                0x69,
                0x74,
                0x6e,
                0x75,
                0x6d,
                0,
                0x80,
                0,
            ] + (pairs_on_wire(k_v_section) + (seq![0u8] + (seq![
                1u8,
                0x70,
                0x6c,
                0x61,
                0x79,
                0x65,
                0x72,
                0x5f,
                0,
                0,
            ] + (names_on_wire(players) + seq![0u8]))))))
        }),
{
    let payload = QueryResponsePacketPayloadView::FullStat { k_v_section, players };
    let r = QueryResponsePacketView { ty: QueryPacketType::Stat, session_id, payload };
    let none = Seq::<u8>::empty();
    lemma_pairs_on_wire(k_v_section);
    lemma_names_on_wire(players);
    lemma_full_stat_bytes(k_v_section, players, none);
    let names = written(text_fields(players)).push(0) + none;
    assert(names =~= names_on_wire(players) + seq![0u8]);
    let fs = response_fields(payload);
    assert(written(fs) + none =~= written(fs));
    assert(response_bytes(r) =~= seq![0u8] + (be_i32_bytes(session_id) + written(fs)));
}

/// A text with the character zero anywhere keeps a full stat from being written.
pub proof fn law_full_stat_with_zero_is_unwritable(
    k_v_section: Seq<(Seq<char>, Seq<char>)>,
    players: Seq<Seq<char>>,
    i: int,
)
    requires
        ({
            ||| 0 <= i < k_v_section.len() && (k_v_section[i].0.contains('\0')
                || k_v_section[i].1.contains('\0'))
            ||| 0 <= i < players.len() && players[i].contains('\0')
        }),
    ensures
        !all_writable(
            response_fields(QueryResponsePacketPayloadView::FullStat { k_v_section, players }),
        ),
{
    let fs = response_fields(QueryResponsePacketPayloadView::FullStat { k_v_section, players });
    let n = k_v_section.len() as int;
    if 0 <= i < n && (k_v_section[i].0.contains('\0') || k_v_section[i].1.contains('\0')) {
        assert(pair_fields(k_v_section)[2 * i] == FieldView::Text(k_v_section[i].0));
        assert(pair_fields(k_v_section)[2 * i + 1] == FieldView::Text(k_v_section[i].1));
        assert(fs[1 + 2 * i] == FieldView::Text(k_v_section[i].0));
        assert(fs[2 + 2 * i] == FieldView::Text(k_v_section[i].1));
        assert(!is_writable(fs[1 + 2 * i]) || !is_writable(fs[2 + 2 * i]));
    } else {
        assert(fs[3 + 2 * n + i] == FieldView::Text(players[i]));
        assert(!is_writable(fs[3 + 2 * n + i]));
    }
}

/// A zero, a session ID, eleven bytes, any pairs with distinct keys, a zero byte,
/// ten bytes, any names and a zero byte are the full stat of those pairs and
/// those names; what follows is left. Neither a key nor a name is empty.
pub proof fn law_full_stat_is_read(
    session_id: i32,
    head: Seq<u8>,
    k_v_section: Seq<(Seq<char>, Seq<char>)>,
    announced: Seq<u8>,
    players: Seq<Seq<char>>,
    tail: Seq<u8>,
)
    requires
        head.len() == 11,
        announced.len() == 10,
        forall|i: int, j: int|
            0 <= i < j < k_v_section.len() ==> (#[trigger] k_v_section[i]).0 != (
            #[trigger] k_v_section[j]).0,
        forall|i: int|
            0 <= i < k_v_section.len() ==> (#[trigger] k_v_section[i]).0.len() > 0
                && !k_v_section[i].0.contains('\0') && !k_v_section[i].1.contains('\0'),
        forall|i: int|
            0 <= i < players.len() ==> (#[trigger] players[i]).len() > 0 && !players[i].contains(
                '\0',
            ),
    ensures
        take_response(
            seq![0u8] + (be_i32_bytes(session_id) + (head + (pairs_on_wire(k_v_section) + (seq![0u8]
                + (announced + (names_on_wire(players) + (seq![0u8] + tail))))))),
            true,
        ) == (
            Ok::<QueryResponsePacketView, CCProxyError>(
                QueryResponsePacketView {
                    ty: QueryPacketType::Stat,
                    session_id,
                    payload: QueryResponsePacketPayloadView::FullStat { k_v_section, players },
                },
            ),
            tail,
        ),
{
    let names = names_on_wire(players) + (seq![0u8] + tail);
    let ending = seq![0u8] + (announced + names);
    let pairs = pairs_on_wire(k_v_section) + ending;
    let body = head + pairs;
    lemma_head(0, session_id, body);
    lemma_take_i32(session_id, body);
    law_bytes_are_read(head, pairs, 0);
    lemma_pairs_on_wire(k_v_section);
    lemma_names_on_wire(players);
    assert(Seq::<(Seq<char>, Seq<char>)>::empty() + k_v_section =~= k_v_section);
    lemma_pairs_round_trip(Seq::empty(), k_v_section, ending);
    lemma_section_end(k_v_section, announced + names);
    law_bytes_are_read(announced, names, 0);
    lemma_names_round_trip(Seq::empty(), players, tail);
    assert(Seq::<Seq<char>>::empty() + players =~= players);
}

proof fn lemma_decoded_len(bytes: Seq<u8>)
    requires
        valid_utf8(bytes),
        bytes.len() > 0,
    ensures
        decode_utf8(bytes).len() > 0,
{
    decode_utf8_encode_utf8(bytes);
}

/// A pair is read as a key and a value and takes the place of an earlier one with
/// its key. An empty key ends the section right behind it; a pair that is no text
/// is dropped and ends the section.
pub proof fn law_pairs_are_read_one_by_one(
    k: Seq<u8>,
    v: Seq<u8>,
    tail: Seq<u8>,
    acc: Seq<(Seq<char>, Seq<char>)>,
)
    requires
        k.len() > 0,
        forall|i: int| 0 <= i < k.len() ==> #[trigger] k[i] != 0,
        forall|i: int| 0 <= i < v.len() ==> #[trigger] v[i] != 0,
    ensures
        take_pairs(seq![0u8] + tail, acc) == (acc, tail),
        valid_utf8(k) && valid_utf8(v) ==> take_pairs(
            k + seq![0u8] + (v + seq![0u8] + tail),
            acc,
        ) == take_pairs(tail, put(acc, decode_utf8(k), decode_utf8(v))),
        !(valid_utf8(k) && valid_utf8(v)) ==> take_pairs(
            k + seq![0u8] + (v + seq![0u8] + tail),
            acc,
        ) == (acc, tail),
{
    lemma_section_end(acc, tail);
    law_string_is_read(k, v + seq![0u8] + tail);
    law_string_is_read(v, tail);
    if valid_utf8(k) {
        lemma_decoded_len(k);
    }
}

/// A name is read behind those before it. An empty name, or one that is no text,
/// ends the list.
pub proof fn law_names_are_read_one_by_one(n: Seq<u8>, tail: Seq<u8>, acc: Seq<Seq<char>>)
    requires
        n.len() > 0,
        forall|i: int| 0 <= i < n.len() ==> #[trigger] n[i] != 0,
    ensures
        take_names(seq![0u8] + tail, acc) == (acc, tail),
        valid_utf8(n) ==> take_names(n + seq![0u8] + tail, acc) == take_names(
            tail,
            acc.push(decode_utf8(n)),
        ),
        !valid_utf8(n) ==> take_names(n + seq![0u8] + tail, acc) == (acc, tail),
{
    let none = Seq::<u8>::empty();
    law_string_is_read(none, tail);
    assert(none + seq![0u8] + tail =~= seq![0u8] + tail);
    assert(decode_utf8(none) =~= Seq::<char>::empty());
    law_string_is_read(n, tail);
    if valid_utf8(n) {
        lemma_decoded_len(n);
    }
}

/// The pairs and names of a full stat are those behind the eleven bytes at its
/// start and behind the ten bytes after the pairs; a stat that ends before those
/// bytes do is cut short.
pub proof fn law_full_stat_parts(session_id: i32, body: Seq<u8>)
    ensures
        ({
            let (read, left) = take_response(
                seq![0u8] + (be_i32_bytes(session_id) + body),
                true,
            );
            let (pairs, after) = take_pairs(body.skip(11), Seq::empty());
            let (names, end) = take_names(after.skip(10), Seq::empty());
            &&& body.len() >= 11 && after.len() >= 10 ==> left == end && read == Ok::<
                QueryResponsePacketView,
                CCProxyError,
            >(
                QueryResponsePacketView {
                    ty: QueryPacketType::Stat,
                    session_id,
                    payload: QueryResponsePacketPayloadView::FullStat {
                        k_v_section: pairs,
                        players: names,
                    },
                },
            )
            &&& body.len() < 11 || after.len() < 10 ==> read == Err::<
                QueryResponsePacketView,
                CCProxyError,
            >(CCProxyError::UnexpectedEof)
        }),
{
    lemma_head(0, session_id, body);
    lemma_take_i32(session_id, body);
}

/// A response of another type than nine and zero is invalid; one that ends before
/// its type or its session ID is cut short.
pub proof fn law_other_responses_are_errors(b: u8, tail: Seq<u8>, is_full: bool)
    ensures
        b != 0 && b != 9 ==> take_response(seq![b] + tail, is_full).0 == Err::<
            QueryResponsePacketView,
            CCProxyError,
        >(CCProxyError::QueryInvalid),
        (b == 0 || b == 9) && tail.len() < 4 ==> take_response(seq![b] + tail, is_full).0 == Err::<
            QueryResponsePacketView,
            CCProxyError,
        >(CCProxyError::UnexpectedEof),
        take_response(Seq::empty(), is_full).0 == Err::<QueryResponsePacketView, CCProxyError>(
            CCProxyError::UnexpectedEof,
        ),
{
    law_packet_type_is_read(b, tail);
    law_bytes_are_read(Seq::empty(), tail, 4);
}

/// Setting a key changes the value of the pair that has it and no other pair; a
/// new key comes last.
pub proof fn law_put_sets_one_key(
    p: Seq<(Seq<char>, Seq<char>)>,
    k: Seq<char>,
    v: Seq<char>,
    at: int,
)
    requires
        forall|i: int, j: int|
            0 <= i < j < p.len() ==> (#[trigger] p[i]).0 != (#[trigger] p[j]).0,
    ensures
        0 <= at < p.len() && p[at].0 == k ==> put(p, k, v) == p.update(at, (k, v)),
        (forall|i: int| 0 <= i < p.len() ==> (#[trigger] p[i]).0 != k) ==> put(p, k, v) == p + seq![
            (k, v),
        ],
{
    if 0 <= at < p.len() && p[at].0 == k {
        assert forall|i: int| 0 <= i < at implies (#[trigger] p[i]).0 != k by {
            assert(p[i].0 != p[at].0);
        }
        lemma_key_index_unique(p, k, at);
    }
    if forall|i: int| 0 <= i < p.len() ==> (#[trigger] p[i]).0 != k {
        lemma_key_index_unique(p, k, p.len() as int);
        assert(put(p, k, v) =~= p + seq![(k, v)]);
    }
}

/// Looking up a key finds the value of the pair that has it, and nothing where no
/// pair does.
pub proof fn law_lookup_finds_the_pair(p: Seq<(Seq<char>, Seq<char>)>, k: Seq<char>, at: int)
    requires
        forall|i: int, j: int|
            0 <= i < j < p.len() ==> (#[trigger] p[i]).0 != (#[trigger] p[j]).0,
    ensures
        0 <= at < p.len() && p[at].0 == k ==> pairs_map(p).contains_key(k) && pairs_map(p)[k]
            == p[at].1,
        (forall|i: int| 0 <= i < p.len() ==> (#[trigger] p[i]).0 != k) ==> !pairs_map(
            p,
        ).contains_key(k),
{
    lemma_key_index(p, k);
    if 0 <= at < p.len() && p[at].0 == k {
        assert forall|i: int| 0 <= i < at implies (#[trigger] p[i]).0 != k by {
            assert(p[i].0 != p[at].0);
        }
        lemma_key_index_unique(p, k, at);
    }
}

/// A response of any type is written as that type, its session ID and its payload.
pub proof fn law_response_head_is_written(r: QueryResponsePacketView)
    ensures
        response_bytes(r) == seq![
            if r.ty is Handshake {
                9u8
            } else {
                0
            },
        ] + (be_i32_bytes(r.session_id) + written(response_fields(r.payload))),
{
    let ty: u8 = if r.ty is Handshake {
        9
    } else {
        0
    };
    assert(response_bytes(r) =~= seq![ty] + (be_i32_bytes(r.session_id) + written(
        response_fields(r.payload),
    )));
}

/// A basic stat with a text that cannot be written is written up to that text.
pub proof fn law_basic_stat_is_written_up_to_a_zero(
    motd: Seq<char>,
    game_type: Seq<char>,
    map: Seq<char>,
    num_players: u64,
    max_players: u64,
    host_port: u16,
    host_ip: IpAddrView,
)
    ensures
        ({
            let bytes = written(
                response_fields(
                    QueryResponsePacketPayloadView::BasicStat {
                        motd,
                        game_type,
                        map,
                        num_players,
                        max_players,
                        host_port,
                        host_ip,
                    },
                ),
            );
            let m = encode_utf8(motd) + seq![0u8];
            let g = encode_utf8(game_type) + seq![0u8];
            &&& motd.contains('\0') ==> bytes == Seq::<u8>::empty()
            &&& !motd.contains('\0') && game_type.contains('\0') ==> bytes == m
            &&& !motd.contains('\0') && !game_type.contains('\0') && map.contains('\0') ==> bytes
                == m + g
        }),
{
    let fs = response_fields(
        QueryResponsePacketPayloadView::BasicStat {
            motd,
            game_type,
            map,
            num_players,
            max_players,
            host_port,
            host_ip,
        },
    );
    let m = encode_utf8(motd) + seq![0u8];
    let g = encode_utf8(game_type) + seq![0u8];
    let f1 = fs.drop_first();
    let f2 = f1.drop_first();
    assert(fs[0] == FieldView::Text(motd));
    assert(f1[0] == FieldView::Text(game_type)) by {
        assert(f1[0] == fs[1]);
    }
    assert(f2[0] == FieldView::Text(map)) by {
        assert(f2[0] == fs[2]);
    }
    law_string_is_written(motd);
    law_string_is_written(game_type);
    reveal_with_fuel(written, 4);
    if motd.contains('\0') {
    } else if game_type.contains('\0') {
        assert(written(fs) =~= m);
    } else if map.contains('\0') {
        assert(written(fs) =~= m + g);
    }
}

/// A full stat with a text that cannot be written is written up to that text: the
/// pairs before the one that holds it, or all pairs and the names before it.
pub proof fn law_full_stat_is_written_up_to_a_zero(
    k_v_section: Seq<(Seq<char>, Seq<char>)>,
    players: Seq<Seq<char>>,
    n: int,
)
    ensures
        ({
            let bytes = written(
                response_fields(QueryResponsePacketPayloadView::FullStat { k_v_section, players }),
            );
            let head = seq![0x73u8, 0x70, 0x6c, 0x69, 0x74, 0x6e, 0x75, 0x6d, 0, 0x80, 0];
            let announced = seq![0u8, 1, 0x70, 0x6c, 0x61, 0x79, 0x65, 0x72, 0x5f, 0, 0];
            let (k, v) = k_v_section[n];
            &&& 0 <= n < k_v_section.len() && are_zero_free(k_v_section.take(n)) && k.contains(
                '\0',
            ) ==> bytes == head + pairs_on_wire(k_v_section.take(n))
            &&& 0 <= n < k_v_section.len() && are_zero_free(k_v_section.take(n)) && !k.contains(
                '\0',
            ) && v.contains('\0') ==> bytes == head + pairs_on_wire(k_v_section.take(n)) + (
            encode_utf8(k) + seq![0u8])
            &&& 0 <= n < players.len() && are_zero_free(k_v_section) && (forall|i: int|
                0 <= i < n ==> !(#[trigger] players[i]).contains('\0')) && players[n].contains('\0')
                ==> bytes == head + pairs_on_wire(k_v_section) + announced + names_on_wire(
                players.take(n),
            )
        }),
{
    let fs = response_fields(QueryResponsePacketPayloadView::FullStat { k_v_section, players });
    let head = seq![0x73u8, 0x70, 0x6c, 0x69, 0x74, 0x6e, 0x75, 0x6d, 0, 0x80, 0];
    let announced = seq![0u8, 1, 0x70, 0x6c, 0x61, 0x79, 0x65, 0x72, 0x5f, 0, 0];
    let f0 = seq![FieldView::Raw(head)];
    let pf = pair_fields(k_v_section);
    assert(written(f0) =~= head) by {
        reveal_with_fuel(written, 2);
    }
    if 0 <= n < k_v_section.len() && are_zero_free(k_v_section.take(n)) {
        let (k, v) = k_v_section[n];
        let done = k_v_section.take(n);
        lemma_pairs_on_wire(done);
        let a = f0 + pair_fields(done);
        lemma_written_concat(f0, pair_fields(done));
        assert(all_writable(a));
        assert forall|i: int| 0 <= i < 2 * n implies pair_fields(done)[i] == pf[i] by {
            assert(done[i / 2] == k_v_section[i / 2]);
        }
        assert(pf[2 * n] == FieldView::Text(k));
        assert(pf[2 * n + 1] == FieldView::Text(v));
        if k.contains('\0') {
            let rest = fs.skip(2 * n + 2);
            assert(fs =~= a + seq![FieldView::Text(k)] + rest);
            lemma_written_stops(a, FieldView::Text(k), rest);
        } else if v.contains('\0') {
            let one = seq![FieldView::Text(k)];
            let rest = fs.skip(2 * n + 3);
            assert(written(one) =~= nul_terminated(k)) by {
                reveal_with_fuel(written, 2);
            }
            law_string_is_written(k);
            lemma_written_concat(a, one);
            assert(all_writable(a + one));
            assert(fs =~= (a + one) + seq![FieldView::Text(v)] + rest);
            lemma_written_stops(a + one, FieldView::Text(v), rest);
        }
    }
    if 0 <= n < players.len() && are_zero_free(k_v_section) && (forall|i: int|
        0 <= i < n ==> !(#[trigger] players[i]).contains('\0')) && players[n].contains('\0') {
        let done = players.take(n);
        let f2 = seq![FieldView::Raw(seq![0u8]), FieldView::Raw(player_prefix())];
        assert forall|i: int| 0 <= i < done.len() implies !(#[trigger] done[i]).contains('\0') by {
            assert(done[i] == players[i]);
        }
        lemma_pairs_on_wire(k_v_section);
        lemma_names_on_wire(done);
        assert(written(f2) =~= announced) by {
            reveal_with_fuel(written, 3);
            assert(f2.drop_first() =~= seq![FieldView::Raw(player_prefix())]);
        }
        lemma_written_concat(f0, pf);
        assert(all_writable(f0 + pf));
        lemma_written_concat(f0 + pf, f2);
        assert(all_writable(f0 + pf + f2));
        lemma_written_concat(f0 + pf + f2, text_fields(done));
        let a = f0 + pf + f2 + text_fields(done);
        assert(all_writable(a));
        let rest = fs.skip(2 * k_v_section.len() + 4 + n);
        let f = FieldView::Text(players[n]);
        assert(fs =~= a + seq![f] + rest);
        lemma_written_stops(a, f, rest);
    }
}

/// True for pairs without the character zero.
pub open spec fn are_zero_free(p: Seq<(Seq<char>, Seq<char>)>) -> bool {
    forall|i: int|
        0 <= i < p.len() ==> !(#[trigger] p[i]).0.contains('\0') && !p[i].1.contains('\0')
}

/// A handshake response is read from whatever string follows its head: that
/// string has to be text, and a number.
pub proof fn law_handshake_parts(session_id: i32, body: Seq<u8>, is_full: bool)
    ensures
        ({
            let (read, left) = take_response(
                seq![9u8] + (be_i32_bytes(session_id) + body),
                is_full,
            );
            let (text, after) = take_string(body);
            &&& left == after
            &&& text is Ok && parse_i32(encode_utf8(text->Ok_0)) is Some ==> read == Ok::<
                QueryResponsePacketView,
                CCProxyError,
            >(
                QueryResponsePacketView {
                    ty: QueryPacketType::Handshake,
                    session_id,
                    payload: QueryResponsePacketPayloadView::Handshake {
                        challenge_token: parse_i32(encode_utf8(text->Ok_0))->0,
                    },
                },
            )
            &&& !(text is Ok && parse_i32(encode_utf8(text->Ok_0)) is Some) ==> read == Err::<
                QueryResponsePacketView,
                CCProxyError,
            >(CCProxyError::QueryInvalid)
        }),
{
    lemma_head(9, session_id, body);
    lemma_take_i32(session_id, body);
}

/// A basic stat is read from whatever follows its head: five strings, a port and
/// a string, in this order. The first that is no text, no number, cut short or no
/// address decides the error.
#[verifier::spinoff_prover]
pub proof fn law_basic_stat_parts(session_id: i32, body: Seq<u8>)
    ensures
        ({
            let (read, left) = take_response(
                seq![0u8] + (be_i32_bytes(session_id) + body),
                false,
            );
            let (m, r1) = take_string(body);
            let (g, r2) = take_string(r1);
            let (p, r3) = take_string(r2);
            let (n, r4) = take_string(r3);
            let (x, r5) = take_string(r4);
            let (port, r6) = take_u16_le(r5);
            let (i, r7) = take_string(r6);
            let texts_ok = m is Ok && g is Ok && p is Ok && n is Ok && x is Ok && parse_u64(
                encode_utf8(n->Ok_0),
            ) is Some && parse_u64(encode_utf8(x->Ok_0)) is Some;
            let ip_ok = i is Ok && parse_ip(encode_utf8(i->Ok_0)) is Some;
            &&& !texts_ok ==> read == Err::<QueryResponsePacketView, CCProxyError>(
                CCProxyError::QueryInvalid,
            )
            &&& texts_ok && r5.len() < 2 ==> read == Err::<QueryResponsePacketView, CCProxyError>(
                CCProxyError::UnexpectedEof,
            )
            &&& texts_ok && r5.len() >= 2 && !ip_ok ==> read == Err::<
                QueryResponsePacketView,
                CCProxyError,
            >(CCProxyError::QueryInvalid)
            &&& texts_ok && r5.len() >= 2 && ip_ok ==> left == r7 && read == Ok::<
                QueryResponsePacketView,
                CCProxyError,
            >(
                QueryResponsePacketView {
                    ty: QueryPacketType::Stat,
                    session_id,
                    payload: QueryResponsePacketPayloadView::BasicStat {
                        motd: m->Ok_0,
                        game_type: g->Ok_0,
                        map: p->Ok_0,
                        num_players: parse_u64(encode_utf8(n->Ok_0))->0,
                        max_players: parse_u64(encode_utf8(x->Ok_0))->0,
                        host_port: port->Ok_0,
                        host_ip: parse_ip(encode_utf8(i->Ok_0))->0,
                    },
                },
            )
        }),
{
    lemma_head(0, session_id, body);
    lemma_take_i32(session_id, body);
    lemma_strings_fail_alike(body);
    let r1 = take_string(body).1;
    let r2 = take_string(r1).1;
    let r3 = take_string(r2).1;
    let r4 = take_string(r3).1;
    let r5 = take_string(r4).1;
    let r6 = take_u16_le(r5).1;
    lemma_strings_fail_alike(r1);
    lemma_strings_fail_alike(r2);
    lemma_strings_fail_alike(r3);
    lemma_strings_fail_alike(r4);
    lemma_strings_fail_alike(r6);
}

/// A zero, a session ID, three strings, two strings that are numbers, a port and
/// a string that is an address are a basic stat; it is invalid where a string is
/// no text, no number or no address.
#[verifier::spinoff_prover]
pub proof fn law_basic_stat_is_read(
    session_id: i32,
    motd: Seq<u8>,
    game_type: Seq<u8>,
    map: Seq<u8>,
    num_players: Seq<u8>,
    max_players: Seq<u8>,
    low: u8,
    high: u8,
    host_ip: Seq<u8>,
    tail: Seq<u8>,
)
    requires
        forall|i: int| 0 <= i < motd.len() ==> #[trigger] motd[i] != 0,
        forall|i: int| 0 <= i < game_type.len() ==> #[trigger] game_type[i] != 0,
        forall|i: int| 0 <= i < map.len() ==> #[trigger] map[i] != 0,
        forall|i: int| 0 <= i < num_players.len() ==> #[trigger] num_players[i] != 0,
        forall|i: int| 0 <= i < max_players.len() ==> #[trigger] max_players[i] != 0,
        forall|i: int| 0 <= i < host_ip.len() ==> #[trigger] host_ip[i] != 0,
    ensures
        ({
            let (read, left) = take_response(
                seq![0u8] + (be_i32_bytes(session_id) + (motd + seq![0u8] + (game_type + seq![0u8]
                    + (map + seq![0u8] + (num_players + seq![0u8] + (max_players + seq![0u8] + (
                seq![low, high] + (host_ip + seq![0u8] + tail)))))))),
                false,
            );
            let good = valid_utf8(motd) && valid_utf8(game_type) && valid_utf8(map) && valid_utf8(
                num_players,
            ) && valid_utf8(max_players) && valid_utf8(host_ip) && parse_u64(num_players) is Some
                && parse_u64(max_players) is Some && parse_ip(host_ip) is Some;
            &&& good ==> left == tail && read == Ok::<QueryResponsePacketView, CCProxyError>(
                QueryResponsePacketView {
                    ty: QueryPacketType::Stat,
                    session_id,
                    payload: QueryResponsePacketPayloadView::BasicStat {
                        motd: decode_utf8(motd),
                        game_type: decode_utf8(game_type),
                        map: decode_utf8(map),
                        num_players: parse_u64(num_players)->0,
                        max_players: parse_u64(max_players)->0,
                        host_port: (low + high * 256) as u16,
                        host_ip: parse_ip(host_ip)->0,
                    },
                },
            )
            &&& !good ==> read == Err::<QueryResponsePacketView, CCProxyError>(
                CCProxyError::QueryInvalid,
            )
        }),
{
    let b6 = host_ip + seq![0u8] + tail;
    let b5 = seq![low, high] + b6;
    let b4 = max_players + seq![0u8] + b5;
    let b3 = num_players + seq![0u8] + b4;
    let b2 = map + seq![0u8] + b3;
    let b1 = game_type + seq![0u8] + b2;
    law_basic_stat_parts(session_id, motd + seq![0u8] + b1);
    lemma_string_bytes(motd, b1);
    lemma_string_bytes(game_type, b2);
    lemma_string_bytes(map, b3);
    lemma_string_bytes(num_players, b4);
    lemma_string_bytes(max_players, b5);
    law_numbers_are_read(low, high, 0, 0, b6);
    lemma_string_bytes(host_ip, tail);
}

proof fn lemma_string_bytes(bytes: Seq<u8>, tail: Seq<u8>)
    requires
        forall|i: int| 0 <= i < bytes.len() ==> #[trigger] bytes[i] != 0,
    ensures
        take_string(bytes + seq![0u8] + tail).1 == tail,
        take_string(bytes + seq![0u8] + tail).0 is Ok <==> valid_utf8(bytes),
        valid_utf8(bytes) ==> {
            &&& take_string(bytes + seq![0u8] + tail).0->Ok_0 == decode_utf8(bytes)
            &&& encode_utf8(decode_utf8(bytes)) == bytes
        },
{
    law_string_is_read(bytes, tail);
    if valid_utf8(bytes) {
        decode_utf8_encode_utf8(bytes);
    }
}

proof fn lemma_strings_fail_alike(rest: Seq<u8>)
    ensures
        take_string(rest).0 matches Err(e) ==> e == CCProxyError::QueryInvalid,
{
}

} // verus!
