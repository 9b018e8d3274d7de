//! What a handler answers, and what a client and an updater make of it.

use vstd::prelude::*;
use vstd::utf8::{decode_utf8, encode_utf8};

use crate::buffer::{be_i32_bytes, le_u16_bytes};
use crate::codec_laws::{law_basic_stat_round_trip, law_full_stat_round_trip};
use crate::config::{ProxyQueryConfig, ProxyQueryConfigView};
use crate::error::CCProxyError;
use crate::exchange::{received_response, response_buffer, RESPONSE_BUFFER_LEN};
use crate::handler::{
    answered, handled, is_valid_token, stat_report, updated_query, with_token,
    QueryHandlerView, QueryUpdate,
};
use crate::ip::{ip_text, IpAddrView};
use crate::packet::{
    take_request, QueryPacketType, QueryRequestPacket, QueryRequestPacketPayload,
};
use crate::response::{
    config_pairs, lemma_keys_differ, take_response, QueryResponsePacketPayloadView,
    QueryResponsePacketView,
};
use crate::response_laws::{
    law_basic_stat_is_written, law_full_stat_is_read, law_full_stat_is_written,
    law_full_stat_with_zero_is_unwritable, law_handshake_is_written,
    names_on_wire, pairs_on_wire,
};
use crate::session_laws::{
    law_handshake_is_received, lemma_config_section, lemma_response_buffer, zeros,
};
use crate::socket::{address_key, SocketAddrView};
use crate::text::{decimal, signed_decimal};
use crate::wire_laws::{law_handshake_request_is_read, law_stat_request_is_read};

verus! {

/// A handshake request is answered with the drawn token in decimal, under the
/// bits of the session ID that a server reads; the token is kept for the peer,
/// and nothing else changes.
pub proof fn law_handshake_is_answered(
    h: QueryHandlerView,
    address: SocketAddrView,
    id: i32,
    tail: Seq<u8>,
    drawn: i32,
)
    ensures
        ({
            let (reply, next) = handled(
                h,
                address,
                seq![0xfeu8, 0xfd, 9] + be_i32_bytes(id) + tail,
                drawn,
            );
            &&& reply == Ok::<Seq<u8>, CCProxyError>(
                seq![9u8] + be_i32_bytes(id & 0x0f0f0f0f) + signed_decimal(drawn as int) + seq![
                    0u8,
                ],
            )
            &&& next.challenge_tokens == h.challenge_tokens.insert(address_key(address), drawn)
            &&& next.query == h.query
            &&& next.upstream_address == h.upstream_address
        }),
{
    law_handshake_request_is_read(id, tail);
    law_handshake_is_written(id & 0x0f0f0f0f, drawn);
}

/// A basic stat request with the token that is kept for the peer is answered with
/// the fields of the configuration, each in its place, and a client reads each of
/// them back; nothing changes. A text with the character zero is an error.
pub proof fn law_basic_stat_is_answered(
    h: QueryHandlerView,
    address: SocketAddrView,
    id: i32,
    token: i32,
    tail: Seq<u8>,
    drawn: i32,
)
    requires
        h.challenge_tokens.contains_key(address_key(address)),
        h.challenge_tokens[address_key(address)] == token,
        tail.len() < 4 || tail[0] != 0 || tail[1] != 0 || tail[2] != 0 || tail[3] != 0,
    ensures
        ({
            let c = h.query;
            let sid = id & 0x0f0f0f0f;
            let (reply, next) = handled(
                h,
                address,
                seq![0xfeu8, 0xfd, 0] + be_i32_bytes(id) + be_i32_bytes(token) + tail,
                drawn,
            );
            let writable = !c.motd.contains('\0') && !c.game_type.contains('\0')
                && !c.map.contains('\0');
            let read = take_response(reply->Ok_0, false).0;
            &&& next == h
            &&& !writable ==> reply == Err::<Seq<u8>, CCProxyError>(CCProxyError::QueryInvalid)
            &&& writable ==> reply == Ok::<Seq<u8>, CCProxyError>(
                seq![0u8] + (be_i32_bytes(sid) + (encode_utf8(c.motd) + seq![0u8] + (encode_utf8(
                    c.game_type,
                ) + seq![0u8] + (encode_utf8(c.map) + seq![0u8] + (decimal(c.num_players as nat)
                    + seq![0u8] + (decimal(c.max_players as nat) + seq![0u8] + (le_u16_bytes(
                    c.host_port,
                ) + (ip_text(c.host_ip) + seq![0u8])))))))),
            )
            &&& writable && (c.host_ip matches IpAddrView::V4(o) ==> o.len() == 4) && (
            c.host_ip matches IpAddrView::V6(g) ==> g.len() == 8) ==> {
                &&& read matches Ok(q)
                &&& q.ty == QueryPacketType::Stat
                &&& q.session_id == sid
                &&& q.payload matches QueryResponsePacketPayloadView::BasicStat {
                    motd,
                    game_type,
                    map,
                    num_players,
                    max_players,
                    host_port,
                    host_ip,
                }
                &&& motd == c.motd
                &&& game_type == c.game_type
                &&& map == c.map
                &&& num_players == c.num_players
                &&& max_players == c.max_players
                &&& host_port == c.host_port
                &&& host_ip == c.host_ip
            }
        }),
{
    let c = h.query;
    let sid = id & 0x0f0f0f0f;
    law_stat_request_is_read(id, token, tail);
    law_basic_stat_is_written(
        sid,
        c.motd,
        c.game_type,
        c.map,
        c.num_players,
        c.max_players,
        c.host_port,
        c.host_ip,
    );
    let writable = !c.motd.contains('\0') && !c.game_type.contains('\0') && !c.map.contains('\0');
    if writable && (c.host_ip matches IpAddrView::V4(o) ==> o.len() == 4) && (
    c.host_ip matches IpAddrView::V6(g) ==> g.len() == 8) {
        let none = Seq::<u8>::empty();
        law_basic_stat_round_trip(
            sid,
            c.motd,
            c.game_type,
            c.map,
            c.num_players,
            c.max_players,
            c.host_port,
            c.host_ip,
            none,
        );
        let reply = handled(
            h,
            address,
            seq![0xfeu8, 0xfd, 0] + be_i32_bytes(id) + be_i32_bytes(token) + tail,
            drawn,
        ).0->Ok_0;
        assert(reply + none =~= reply);
    }
}

/// What is reported for a configuration is each of its fields under the key that
/// names it, and the game; there are ten pairs, and no key occurs twice.
pub proof fn law_reported_pairs(c: ProxyQueryConfigView)
    ensures
        config_pairs(c).len() == 10,
        forall|i: int, j: int|
            0 <= i < j < 10 ==> (#[trigger] config_pairs(c)[i]).0 != (#[trigger] config_pairs(
                c,
            )[j]).0,
        config_pairs(c).contains(("hostname"@, c.motd)),
        config_pairs(c).contains(("gametype"@, c.game_type)),
        config_pairs(c).contains(("game_id"@, "MINECRAFT"@)),
        config_pairs(c).contains(("version"@, c.version)),
        c.plugins matches Some(p) ==> config_pairs(c).contains(("plugins"@, p)),
        c.plugins is None ==> config_pairs(c).contains(("plugins"@, Seq::<char>::empty())),
        config_pairs(c).contains(("map"@, c.map)),
        config_pairs(c).contains(("numplayers"@, decode_utf8(decimal(c.num_players as nat)))),
        config_pairs(c).contains(("maxplayers"@, decode_utf8(decimal(c.max_players as nat)))),
        config_pairs(c).contains(("hostport"@, decode_utf8(decimal(c.host_port as nat)))),
        config_pairs(c).contains(("hostip"@, decode_utf8(ip_text(c.host_ip)))),
{
    let p = config_pairs(c);
    lemma_keys_differ(c);
    assert(p[0] == ("hostname"@, c.motd));
    assert(p[1] == ("gametype"@, c.game_type));
    assert(p[2] == ("game_id"@, "MINECRAFT"@));
    assert(p[3] == ("version"@, c.version));
    assert(p[4].0 == "plugins"@);
    assert(p[4] == (p[4].0, p[4].1));
    assert(p[5] == ("map"@, c.map));
    assert(p[6] == ("numplayers"@, decode_utf8(decimal(c.num_players as nat))));
    assert(p[7] == ("maxplayers"@, decode_utf8(decimal(c.max_players as nat))));
    assert(p[8] == ("hostport"@, decode_utf8(decimal(c.host_port as nat))));
    assert(p[9] == ("hostip"@, decode_utf8(ip_text(c.host_ip))));
}

/// A full stat request with the token that is kept for the peer is answered with
/// the pairs and all names of the configuration, and a client reads those names
/// back, in order, however many there are; nothing changes.
pub proof fn law_full_stat_is_answered(
    h: QueryHandlerView,
    address: SocketAddrView,
    id: i32,
    token: i32,
    tail: Seq<u8>,
    drawn: i32,
)
    requires
        h.challenge_tokens.contains_key(address_key(address)),
        h.challenge_tokens[address_key(address)] == token,
        tail.len() >= 4,
        tail[0] == 0,
        tail[1] == 0,
        tail[2] == 0,
        tail[3] == 0,
        !h.query.motd.contains('\0'),
        !h.query.game_type.contains('\0'),
        !h.query.map.contains('\0'),
        !h.query.version.contains('\0'),
        h.query.plugins matches Some(p) ==> !p.contains('\0'),
        h.query.host_ip matches IpAddrView::V4(o) ==> o.len() == 4,
        h.query.host_ip matches IpAddrView::V6(g) ==> g.len() == 8,
        forall|i: int|
            0 <= i < h.query.players.len() ==> !(#[trigger] h.query.players[i]).contains('\0'),
    ensures
        ({
            let c = h.query;
            let sid = id & 0x0f0f0f0f;
            let (reply, next) = handled(
                h,
                address,
                seq![0xfeu8, 0xfd, 0] + be_i32_bytes(id) + be_i32_bytes(token) + tail,
                drawn,
            );
            let read = take_response(reply->Ok_0, true).0;
            &&& next == h
            &&& reply == Ok::<Seq<u8>, CCProxyError>(
                seq![0u8] + (be_i32_bytes(sid) + (seq![
                    0x73u8,
                    0x70,
                    0x6c,
                    0x69,
                    0x74,
                    0x6e,
                    0x75,
                    0x6d,
                    0,
                    0x80,
                    0,
                ] + (pairs_on_wire(config_pairs(c)) + (seq![0u8] + (seq![
                    1u8,
                    0x70,
                    0x6c,
                    0x61,
                    0x79,
                    0x65,
                    0x72,
                    0x5f,
                    0,
                    0,
                ] + (names_on_wire(c.players) + seq![0u8])))))),
            )
            &&& (forall|i: int| 0 <= i < c.players.len() ==> (#[trigger] c.players[i]).len() > 0)
                ==> {
                &&& read matches Ok(q)
                &&& q.ty == QueryPacketType::Stat
                &&& q.session_id == sid
                &&& q.payload matches QueryResponsePacketPayloadView::FullStat {
                    k_v_section,
                    players,
                }
                &&& players == c.players
                &&& k_v_section == config_pairs(c)
            }
        }),
{
    let c = h.query;
    let sid = id & 0x0f0f0f0f;
    law_stat_request_is_read(id, token, tail);
    lemma_config_section(c);
    law_full_stat_is_written(sid, config_pairs(c), c.players);
    if forall|i: int| 0 <= i < c.players.len() ==> (#[trigger] c.players[i]).len() > 0 {
        let none = Seq::<u8>::empty();
        law_full_stat_round_trip(sid, config_pairs(c), c.players, none);
        let reply = handled(
            h,
            address,
            seq![0xfeu8, 0xfd, 0] + be_i32_bytes(id) + be_i32_bytes(token) + tail,
            drawn,
        ).0->Ok_0;
        assert(reply + none =~= reply);
    }
}

/// A full stat request is answered with an error where a text of the
/// configuration or a name holds the character zero, and nothing changes.
pub proof fn law_unwritable_full_stat_is_an_error(
    h: QueryHandlerView,
    address: SocketAddrView,
    id: i32,
    token: i32,
    drawn: i32,
    i: int,
)
    requires
        h.challenge_tokens.contains_key(address_key(address)),
        h.challenge_tokens[address_key(address)] == token,
        ({
            ||| h.query.motd.contains('\0')
            ||| h.query.game_type.contains('\0')
            ||| h.query.map.contains('\0')
            ||| h.query.version.contains('\0')
            ||| h.query.plugins matches Some(p) && p.contains('\0')
            ||| 0 <= i < h.query.players.len() && h.query.players[i].contains('\0')
        }),
    ensures
        handled(
            h,
            address,
            seq![0xfeu8, 0xfd, 0] + be_i32_bytes(id) + be_i32_bytes(token) + seq![0u8, 0, 0, 0],
            drawn,
        ) == (Err::<Seq<u8>, CCProxyError>(CCProxyError::QueryInvalid), h),
{
    let c = h.query;
    let p = config_pairs(c);
    law_stat_request_is_read(id, token, seq![0u8, 0, 0, 0]);
    assert(p[0].1 == c.motd && p[1].1 == c.game_type && p[3].1 == c.version && p[5].1 == c.map);
    let at = if c.motd.contains('\0') {
        0
    } else if c.game_type.contains('\0') {
        1
    } else if c.version.contains('\0') {
        3
    } else if c.map.contains('\0') {
        5
    } else if c.plugins matches Some(t) && t.contains('\0') {
        4
    } else {
        i
    };
    law_full_stat_with_zero_is_unwritable(p, c.players, at);
}

/// A stat request is refused, whatever follows its token, where no token is kept
/// for the peer or another one is; nothing changes.
pub proof fn law_stat_is_refused(
    h: QueryHandlerView,
    address: SocketAddrView,
    id: i32,
    token: i32,
    tail: Seq<u8>,
    drawn: i32,
)
    requires
        !h.challenge_tokens.contains_key(address_key(address)) || h.challenge_tokens[address_key(
            address,
        )] != token,
    ensures
        handled(
            h,
            address,
            seq![0xfeu8, 0xfd, 0] + be_i32_bytes(id) + be_i32_bytes(token) + tail,
            drawn,
        ) == (Err::<Seq<u8>, CCProxyError>(CCProxyError::QueryInvalid), h),
{
    law_stat_request_is_read(id, token, tail);
}

/// The answer to a request is a response of its own kind under its session ID: the
/// drawn token to a handshake, and to a stat with the token that is kept for the
/// peer the fields, or the pairs and names, of the configuration.
pub proof fn law_answers(
    h: QueryHandlerView,
    address: SocketAddrView,
    ty: QueryPacketType,
    session_id: i32,
    token: i32,
    drawn: i32,
)
    ensures
        ({
            let c = h.query;
            let kept = h.challenge_tokens.contains_key(address_key(address))
                && h.challenge_tokens[address_key(address)] == token;
            let refused = (
                Err::<QueryResponsePacketView, CCProxyError>(CCProxyError::QueryInvalid),
                h,
            );
            let basic = QueryRequestPacketPayload::BasicStat { challenge_token: token };
            let full = QueryRequestPacketPayload::FullStat { challenge_token: token };
            let (shaken, next) = answered(
                h,
                address,
                QueryRequestPacket {
                    ty,
                    session_id,
                    payload: QueryRequestPacketPayload::Handshake,
                },
                drawn,
            );
            let told = answered(
                h,
                address,
                QueryRequestPacket { ty, session_id, payload: basic },
                drawn,
            );
            let listed = answered(
                h,
                address,
                QueryRequestPacket { ty, session_id, payload: full },
                drawn,
            );
            &&& shaken == Ok::<QueryResponsePacketView, CCProxyError>(
                QueryResponsePacketView {
                    ty: QueryPacketType::Handshake,
                    session_id,
                    payload: QueryResponsePacketPayloadView::Handshake { challenge_token: drawn },
                },
            )
            &&& next.challenge_tokens == h.challenge_tokens.insert(address_key(address), drawn)
            &&& next.query == c
            &&& next.upstream_address == h.upstream_address
            &&& !kept ==> told == refused && listed == refused
            &&& kept ==> told.1 == h && told.0 == Ok::<QueryResponsePacketView, CCProxyError>(
                QueryResponsePacketView {
                    ty: QueryPacketType::Stat,
                    session_id,
                    payload: QueryResponsePacketPayloadView::BasicStat {
                        motd: c.motd,
                        game_type: c.game_type,
                        map: c.map,
                        num_players: c.num_players,
                        max_players: c.max_players,
                        host_port: c.host_port,
                        host_ip: c.host_ip,
                    },
                },
            )
            &&& kept ==> listed.1 == h && listed.0 == Ok::<QueryResponsePacketView, CCProxyError>(
                QueryResponsePacketView {
                    ty: QueryPacketType::Stat,
                    session_id,
                    payload: QueryResponsePacketPayloadView::FullStat {
                        k_v_section: config_pairs(c),
                        players: c.players,
                    },
                },
            )
        }),
{
}

/// A datagram that is no request is answered with the error of reading it, and
/// nothing changes.
pub proof fn law_malformed_request_is_an_error(
    h: QueryHandlerView,
    address: SocketAddrView,
    datagram: Seq<u8>,
    drawn: i32,
    e: CCProxyError,
)
    requires
        take_request(datagram).0 == Err::<QueryRequestPacket, CCProxyError>(e),
    ensures
        handled(h, address, datagram, drawn) == (Err::<Seq<u8>, CCProxyError>(e), h),
{
}

/// A token is valid where it is the one that is kept for the peer, and handing
/// one out keeps it for that peer.
pub proof fn law_tokens_are_kept(
    h: QueryHandlerView,
    address: SocketAddrView,
    token: i32,
    drawn: i32,
)
    ensures
        is_valid_token(h, address, token) <==> h.challenge_tokens.contains_key(
            address_key(address),
        ) && h.challenge_tokens[address_key(address)] == token,
        with_token(h, address, drawn).challenge_tokens == h.challenge_tokens.insert(
            address_key(address),
            drawn,
        ),
        with_token(h, address, drawn).query == h.query,
        with_token(h, address, drawn).upstream_address == h.upstream_address,
{
}

/// The report of a full stat is its pairs and its names, whatever they are; no
/// other response has one.
pub proof fn law_full_stats_are_reports(
    k_v_section: Seq<(Seq<char>, Seq<char>)>,
    players: Seq<Seq<char>>,
    other: QueryResponsePacketPayloadView,
)
    ensures
        stat_report(QueryResponsePacketPayloadView::FullStat { k_v_section, players }) == Some(
            (k_v_section, players),
        ),
        other !is FullStat ==> stat_report(other) is None,
{
}

/// A report is taken over field by field, but for the address and the port, which
/// stay those of the fallback. Without a report nothing changes, and after a
/// failure the fallback is back, whatever was reported before.
pub proof fn law_update_takes_over_fields(
    current: ProxyQueryConfigView,
    fallback: ProxyQueryConfigView,
    reported: ProxyQueryConfig,
)
    ensures
        ({
            let next = updated_query(current, fallback, QueryUpdate::Reported(reported));
            &&& next.motd == reported.motd@
            &&& next.game_type == reported.game_type@
            &&& next.map == reported.map@
            &&& next.num_players == reported.num_players
            &&& next.max_players == reported.max_players
            &&& next.version == reported.version@
            &&& (reported.plugins matches Some(p) ==> next.plugins == Some(p@))
            &&& (reported.plugins is None ==> next.plugins is None)
            &&& next.players.len() == reported.players@.len()
            &&& forall|i: int|
                0 <= i < reported.players@.len() ==> #[trigger] next.players[i]
                    == reported.players@[i]@
            &&& next.host_ip == fallback.host_ip
            &&& next.host_port == fallback.host_port
        }),
        updated_query(current, fallback, QueryUpdate::Nothing) == current,
        updated_query(current, fallback, QueryUpdate::Failed) == fallback,
{
}

/// A datagram is read from a buffer of 1024 bytes that starts with it, or with as
/// much of it as fits, and is zero behind it; without a datagram the wait for it
/// has timed out.
pub proof fn law_datagram_is_read_from_its_buffer(datagram: Seq<u8>, buffer: Seq<u8>)
    requires
        buffer.len() == 1024,
        forall|i: int|
            0 <= i < 1024 ==> #[trigger] buffer[i] == if i < datagram.len() {
                datagram[i]
            } else {
                0
            },
    ensures
        received_response(Some(datagram)) == take_response(buffer, true).0,
        received_response(None) == Err::<QueryResponsePacketView, CCProxyError>(
            CCProxyError::QueryTimeout,
        ),
{
    assert(response_buffer(datagram) =~= buffer);
}

proof fn lemma_assoc(a: Seq<u8>, b: Seq<u8>, c: Seq<u8>)
    ensures
        (a + b) + c == a + (b + c),
{
    assert((a + b) + c =~= a + (b + c));
}

/// The full stat of any server, with any pairs and any names, is received as it
/// is where it fits the buffer. Its keys are distinct, and neither a key nor a
/// name is empty.
pub proof fn law_any_full_stat_is_received(
    session_id: i32,
    head: Seq<u8>,
    k_v_section: Seq<(Seq<char>, Seq<char>)>,
    announced: Seq<u8>,
    players: Seq<Seq<char>>,
)
    requires
        head.len() == 11,
        announced.len() == 10,
        forall|i: int, j: int|
            0 <= i < j < k_v_section.len() ==> (#[trigger] k_v_section[i]).0 != (
            #[trigger] k_v_section[j]).0,
        forall|i: int|
            0 <= i < k_v_section.len() ==> (#[trigger] k_v_section[i]).0.len() > 0
                && !k_v_section[i].0.contains('\0') && !k_v_section[i].1.contains('\0'),
        forall|i: int|
            0 <= i < players.len() ==> (#[trigger] players[i]).len() > 0 && !players[i].contains(
                '\0',
            ),
        (seq![0u8] + (be_i32_bytes(session_id) + (head + (pairs_on_wire(k_v_section) + (seq![0u8]
            + (announced + (names_on_wire(players) + seq![0u8]))))))).len() <= 1024,
    ensures
        received_response(
            Some(
                seq![0u8] + (be_i32_bytes(session_id) + (head + (pairs_on_wire(k_v_section) + (seq![
                    0u8,
                ] + (announced + (names_on_wire(players) + seq![0u8])))))),
            ),
        ) == Ok::<QueryResponsePacketView, CCProxyError>(
            QueryResponsePacketView {
                ty: QueryPacketType::Stat,
                session_id,
                payload: QueryResponsePacketPayloadView::FullStat { k_v_section, players },
            },
        ),
{
    let z = seq![0u8];
    let id = be_i32_bytes(session_id);
    let pairs = pairs_on_wire(k_v_section);
    let names = names_on_wire(players);
    let d6 = names + z;
    let d5 = announced + d6;
    let d4 = z + d5;
    let d3 = pairs + d4;
    let d2 = head + d3;
    let d1 = id + d2;
    let d = z + d1;
    let tail = zeros((RESPONSE_BUFFER_LEN - d.len()) as nat);
    lemma_response_buffer(d);
    lemma_assoc(z, d1, tail);
    lemma_assoc(id, d2, tail);
    lemma_assoc(head, d3, tail);
    lemma_assoc(pairs, d4, tail);
    lemma_assoc(z, d5, tail);
    lemma_assoc(announced, d6, tail);
    lemma_assoc(names, z, tail);
    law_full_stat_is_read(session_id, head, k_v_section, announced, players, tail);
}

/// A handshake response with any token is received as it is.
pub proof fn law_any_handshake_is_received(session_id: i32, token: i32)
    ensures
        received_response(
            Some(
                seq![9u8] + be_i32_bytes(session_id) + signed_decimal(token as int) + seq![0u8],
            ),
        ) == Ok::<QueryResponsePacketView, CCProxyError>(
            QueryResponsePacketView {
                ty: QueryPacketType::Handshake,
                session_id,
                payload: QueryResponsePacketPayloadView::Handshake { challenge_token: token },
            },
        ),
{
    law_handshake_is_received(session_id, token);
    law_handshake_is_written(session_id, token);
}

} // verus!
