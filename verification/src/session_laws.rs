//! What holds of queries between a client and a handler.

use vstd::prelude::*;
use vstd::utf8::{decode_utf8, decode_utf8_encode_utf8};

use crate::buffer::{be_i32_bytes, lemma_be_i32_round_trip};
use crate::codec_laws::{
    are_names, is_section, law_full_stat_round_trip, law_handshake_round_trip,
    law_request_round_trip,
};
use crate::config::ProxyQueryConfigView;
use crate::error::CCProxyError;
use crate::exchange::{
    attempted, exchange_outcome, new_exchange, received_response, replied, response_buffer,
    stage_request, QueryStage, RESPONSE_BUFFER_LEN,
};
use crate::handler::{
    basic_stat_response, full_stat_response, handled, handshake_response, is_valid_token,
    response_datagram, updated_query, with_token, QueryHandlerView, QueryUpdate,
};
use crate::ip::ip_text;
use crate::ip_lemmas::{is_ip, lemma_ip_round_trip};
use crate::packet::{
    packet_type_byte, request_bytes, take_request, QueryRequestPacket, QueryRequestPacketPayload,
    SESSION_ID_MASK,
};
use crate::response::{
    config_pairs, lemma_keys_differ, response_bytes, written, QueryResponsePacketView,
};
use crate::socket::{
    address_key, is_socket_addr, lemma_address_key_injective, same_endpoint, SocketAddrView,
};
use crate::text::{
    decimal, is_plain_ascii, lemma_ascii_valid, lemma_decimal_ascii, lemma_nul_bytes,
};

verus! {

/// After a handshake the token that was handed out is valid for its peer, and no
/// other is.
pub proof fn law_token_is_valid(
    h: QueryHandlerView,
    address: SocketAddrView,
    token: i32,
    other: i32,
)
    ensures
        is_valid_token(with_token(h, address, token), address, other) <==> other == token,
{
}

/// A token is of use to the peer alone that it was handed out to: what is valid
/// for any other peer stays as it was.
pub proof fn law_token_is_bound_to_peer(
    h: QueryHandlerView,
    address: SocketAddrView,
    token: i32,
    elsewhere: SocketAddrView,
    presented: i32,
)
    requires
        is_socket_addr(address),
        is_socket_addr(elsewhere),
        !same_endpoint(address, elsewhere),
    ensures
        is_valid_token(with_token(h, address, token), elsewhere, presented) <==> is_valid_token(
            h,
            elsewhere,
            presented,
        ),
{
    lemma_address_key_injective(address, elsewhere);
}

/// The token that a request presents, where it asks for a stat.
pub open spec fn presented_token(payload: QueryRequestPacketPayload) -> Option<i32> {
    match payload {
        QueryRequestPacketPayload::Handshake => None,
        QueryRequestPacketPayload::BasicStat { challenge_token } => Some(challenge_token),
        QueryRequestPacketPayload::FullStat { challenge_token } => Some(challenge_token),
    }
}

/// A stat that is asked for without the token of the peer is refused, and
/// nothing changes.
pub proof fn law_stat_without_token_is_refused(
    h: QueryHandlerView,
    address: SocketAddrView,
    datagram: Seq<u8>,
    request: QueryRequestPacket,
    token: i32,
    drawn: i32,
)
    requires
        take_request(datagram).0 == Ok::<QueryRequestPacket, CCProxyError>(request),
        presented_token(request.payload) == Some(token),
        !is_valid_token(h, address, token),
    ensures
        handled(h, address, datagram, drawn) == (
            Err::<Seq<u8>, CCProxyError>(CCProxyError::QueryInvalid),
            h,
        ),
{
}

/// Once all tokens are forgotten, no token is valid for any peer.
pub proof fn law_forgotten_tokens_are_invalid(
    h: QueryHandlerView,
    address: SocketAddrView,
    token: i32,
)
    ensures
        !is_valid_token(
            QueryHandlerView { challenge_tokens: Map::empty(), ..h },
            address,
            token,
        ),
{
}

/// Nothing that a peer sends changes what is reported, nor the tokens of other
/// peers; a datagram that is no handshake changes nothing at all.
pub proof fn law_handling_changes_own_token_only(
    h: QueryHandlerView,
    address: SocketAddrView,
    datagram: Seq<u8>,
    drawn: i32,
)
    ensures
        ({
            let next = handled(h, address, datagram, drawn).1;
            let request = take_request(datagram).0;
            &&& next.query == h.query
            &&& next.upstream_address == h.upstream_address
            &&& next.challenge_tokens.remove(address_key(address)) == h.challenge_tokens.remove(
                address_key(address),
            )
            &&& (request is Err || request.unwrap().payload !is Handshake) ==> next == h
        }),
{
    let next = handled(h, address, datagram, drawn).1;
    assert(next.challenge_tokens.remove(address_key(address)) =~= h.challenge_tokens.remove(
        address_key(address),
    ));
}

/// A reply is of the type of its request and carries the session ID that was read
/// from it.
pub proof fn law_reply_echoes_request(
    h: QueryHandlerView,
    address: SocketAddrView,
    datagram: Seq<u8>,
    request: QueryRequestPacket,
    drawn: i32,
    reply: Seq<u8>,
)
    requires
        take_request(datagram).0 == Ok::<QueryRequestPacket, CCProxyError>(request),
        handled(h, address, datagram, drawn).0 == Ok::<Seq<u8>, CCProxyError>(reply),
    ensures
        reply.len() >= 5,
        reply[0] == packet_type_byte(request.ty),
        reply.subrange(1, 5) == be_i32_bytes(request.session_id),
{
    lemma_be_i32_round_trip(request.session_id);
    assert(reply.subrange(1, 5) =~= be_i32_bytes(request.session_id));
}

/// A datagram in the buffer that it was received into is followed by zeros.
pub(crate) proof fn lemma_response_buffer(bytes: Seq<u8>)
    requires
        bytes.len() <= RESPONSE_BUFFER_LEN,
    ensures
        response_buffer(bytes) == bytes + zeros((RESPONSE_BUFFER_LEN - bytes.len()) as nat),
{
    assert(response_buffer(bytes) =~= bytes + zeros((RESPONSE_BUFFER_LEN - bytes.len()) as nat));
}

/// Zero bytes.
pub open spec fn zeros(n: nat) -> Seq<u8> {
    Seq::new(n, |i: int| 0u8)
}

/// A client that receives a handshake response learns the token in it.
pub proof fn law_handshake_is_received(session_id: i32, token: i32)
    ensures
        response_datagram(handshake_response(session_id, token)) == Ok::<Seq<u8>, CCProxyError>(
            response_bytes(handshake_response(session_id, token)),
        ),
        received_response(Some(response_bytes(handshake_response(session_id, token)))) == Ok::<
            QueryResponsePacketView,
            CCProxyError,
        >(handshake_response(session_id, token)),
{
    let r = handshake_response(session_id, token);
    let bytes = response_bytes(r);
    lemma_handshake_len(session_id, token);
    lemma_response_buffer(bytes);
    law_handshake_round_trip(
        session_id,
        token,
        true,
        zeros((RESPONSE_BUFFER_LEN - bytes.len()) as nat),
    );
}

proof fn lemma_handshake_len(session_id: i32, token: i32)
    ensures
        response_bytes(handshake_response(session_id, token)).len() <= 32,
{
    reveal_with_fuel(written, 2);
    reveal_with_fuel(decimal, 11);
    lemma_be_i32_round_trip(session_id);
}

/// A query of a handler gets through: the handler answers the handshake, the
/// client takes over the token, and the stat that it asks for next is reported.
pub proof fn law_query_gets_through(
    h: QueryHandlerView,
    address: SocketAddrView,
    retry: u32,
    is_full: bool,
    first_id: i32,
    second_id: i32,
    drawn: i32,
    unused: i32,
)
    requires
        retry > 0,
    ensures
        ({
            let x = new_exchange(retry, is_full);
            let shake = handled(h, address, request_bytes(stage_request(x, first_id)), drawn);
            let (y, outcome) = replied(attempted(x), received_response(Some(shake.0.unwrap())));
            let stat = handled(
                shake.1,
                address,
                request_bytes(stage_request(y, second_id)),
                unused,
            );
            let id = second_id & SESSION_ID_MASK;
            &&& shake.0 is Ok
            &&& outcome is None
            &&& y.stage == (QueryStage::Stat { challenge_token: drawn })
            &&& y.attempts_left == retry
            &&& stat == (
                response_datagram(
                    if is_full {
                        full_stat_response(id, h.query)
                    } else {
                        basic_stat_response(id, h.query)
                    },
                ),
                shake.1,
            )
        }),
{
    let x = new_exchange(retry, is_full);
    let first = stage_request(x, first_id);
    law_request_round_trip(first);
    law_handshake_is_received(first_id & SESSION_ID_MASK, drawn);
    let shake = handled(h, address, request_bytes(first), drawn);
    let (y, outcome) = replied(attempted(x), received_response(Some(shake.0.unwrap())));
    law_request_round_trip(stage_request(y, second_id));
    law_token_is_valid(h, address, drawn, drawn);
}

/// True for a configuration whose texts can all be written.
pub open spec fn is_reportable(c: ProxyQueryConfigView) -> bool {
    &&& !c.motd.contains('\0')
    &&& !c.game_type.contains('\0')
    &&& !c.map.contains('\0')
    &&& !c.version.contains('\0')
    &&& (c.plugins matches Some(p) ==> !p.contains('\0'))
    &&& are_names(c.players)
    &&& is_ip(c.host_ip)
}

proof fn lemma_ascii_text(bytes: Seq<u8>)
    requires
        is_plain_ascii(bytes),
    ensures
        !decode_utf8(bytes).contains('\0'),
{
    lemma_ascii_valid(bytes);
    decode_utf8_encode_utf8(bytes);
    lemma_nul_bytes(decode_utf8(bytes));
    assert(!bytes.contains(0u8));
}

/// The pairs that are reported for a configuration can be written and read back.
pub(crate) proof fn lemma_config_section(c: ProxyQueryConfigView)
    requires
        is_reportable(c),
    ensures
        is_section(config_pairs(c)),
{
    let p = config_pairs(c);
    lemma_keys_differ(c);
    lemma_decimal_ascii(c.num_players as int);
    lemma_decimal_ascii(c.max_players as int);
    lemma_decimal_ascii(c.host_port as int);
    lemma_ip_round_trip(c.host_ip);
    lemma_ascii_text(decimal(c.num_players as nat));
    lemma_ascii_text(decimal(c.max_players as nat));
    lemma_ascii_text(decimal(c.host_port as nat));
    lemma_ascii_text(ip_text(c.host_ip));
    assert(!"MINECRAFT"@.contains('\0')) by {
        reveal_strlit("MINECRAFT");
    }
    assert(!"hostname"@.contains('\0')) by {
        reveal_strlit("hostname");
    }
    assert(!"gametype"@.contains('\0')) by {
        reveal_strlit("gametype");
    }
    assert(!"game_id"@.contains('\0')) by {
        reveal_strlit("game_id");
    }
    assert(!"version"@.contains('\0')) by {
        reveal_strlit("version");
    }
    assert(!"plugins"@.contains('\0')) by {
        reveal_strlit("plugins");
    }
    assert(!"map"@.contains('\0')) by {
        reveal_strlit("map");
    }
    assert(!"numplayers"@.contains('\0')) by {
        reveal_strlit("numplayers");
    }
    assert(!"maxplayers"@.contains('\0')) by {
        reveal_strlit("maxplayers");
    }
    assert(!"hostport"@.contains('\0')) by {
        reveal_strlit("hostport");
    }
    assert(!"hostip"@.contains('\0')) by {
        reveal_strlit("hostip");
    }
    assert forall|i: int| 0 <= i < p.len() implies !(#[trigger] p[i]).0.contains('\0')
        && !p[i].1.contains('\0') by {
        if i < 5 {
            assert(i == 0 || i == 1 || i == 2 || i == 3 || i == 4);
        } else {
            assert(i == 5 || i == 6 || i == 7 || i == 8 || i == 9);
        }
    }
}

/// A client that receives the full stat of a handler, in a datagram that fits its
/// buffer, learns all that is reported: the pairs of the configuration and the
/// names of the players. A name is not empty.
pub proof fn law_full_stat_is_received(session_id: i32, c: ProxyQueryConfigView)
    requires
        is_reportable(c),
        forall|i: int| 0 <= i < c.players.len() ==> (#[trigger] c.players[i]).len() > 0,
        response_bytes(full_stat_response(session_id, c)).len() <= RESPONSE_BUFFER_LEN,
    ensures
        ({
            let r = full_stat_response(session_id, c);
            &&& response_datagram(r) == Ok::<Seq<u8>, CCProxyError>(response_bytes(r))
            &&& received_response(Some(response_bytes(r))) == Ok::<
                QueryResponsePacketView,
                CCProxyError,
            >(r)
        }),
{
    let bytes = response_bytes(full_stat_response(session_id, c));
    let tail = zeros((RESPONSE_BUFFER_LEN - bytes.len()) as nat);
    lemma_config_section(c);
    lemma_response_buffer(bytes);
    law_full_stat_round_trip(session_id, config_pairs(c), c.players, tail);
}

/// A full query of a handler brings back all that the handler reports.
pub proof fn law_full_query_learns_report(
    h: QueryHandlerView,
    address: SocketAddrView,
    retry: u32,
    first_id: i32,
    second_id: i32,
    drawn: i32,
    unused: i32,
)
    requires
        retry > 0,
        is_reportable(h.query),
        forall|i: int| 0 <= i < h.query.players.len() ==> (#[trigger] h.query.players[i]).len() > 0,
        response_bytes(full_stat_response(second_id & SESSION_ID_MASK, h.query)).len()
            <= RESPONSE_BUFFER_LEN,
    ensures
        ({
            let x = new_exchange(retry, true);
            let shake = handled(h, address, request_bytes(stage_request(x, first_id)), drawn);
            let first_reply = received_response(Some(shake.0.unwrap()));
            let y = replied(attempted(x), first_reply).0;
            let stat = handled(
                shake.1,
                address,
                request_bytes(stage_request(y, second_id)),
                unused,
            );
            let second_reply = received_response(Some(stat.0.unwrap()));
            &&& shake.0 is Ok
            &&& stat.0 is Ok
            &&& exchange_outcome(x, seq![first_reply, second_reply]) == Some(
                Ok::<QueryResponsePacketView, CCProxyError>(
                    full_stat_response(second_id & SESSION_ID_MASK, h.query),
                ),
            )
        }),
{
    let x = new_exchange(retry, true);
    law_query_gets_through(h, address, retry, true, first_id, second_id, drawn, unused);
    law_full_stat_is_received(second_id & SESSION_ID_MASK, h.query);
    let shake = handled(h, address, request_bytes(stage_request(x, first_id)), drawn);
    let first_reply = received_response(Some(shake.0.unwrap()));
    let y = replied(attempted(x), first_reply).0;
    let stat = handled(shake.1, address, request_bytes(stage_request(y, second_id)), unused);
    let second_reply = received_response(Some(stat.0.unwrap()));
    let replies = seq![first_reply, second_reply];
    assert(replies.drop_first() =~= seq![second_reply]);
    reveal_with_fuel(exchange_outcome, 3);
}

/// Whatever comes of querying the upstream server, the reported address stays
/// that of the proxy; a failed query brings back the fallback as a whole, and a
/// report is taken over but for that address.
pub proof fn law_updates_keep_address(
    current: ProxyQueryConfigView,
    fallback: ProxyQueryConfigView,
    update: QueryUpdate,
)
    requires
        current.host_ip == fallback.host_ip,
        current.host_port == fallback.host_port,
    ensures
        updated_query(current, fallback, update).host_ip == fallback.host_ip,
        updated_query(current, fallback, update).host_port == fallback.host_port,
        update is Failed ==> updated_query(current, fallback, update) == fallback,
        update matches QueryUpdate::Reported(q) ==> updated_query(current, fallback, update) == (
        ProxyQueryConfigView {
            host_ip: fallback.host_ip,
            host_port: fallback.host_port,
            ..q@
        }),
{
}

} // verus!
