//! Values are read field by field as they are.

use vstd::prelude::*;

use crate::config::{text_option, texts, ProxyQueryConfig};
use crate::error::CCProxyError;
use crate::exchange::{datagram_view, outcome_view};
use crate::handler::datagram_result;
use crate::ip::{IpAddr, IpAddrView};
use crate::kv::pair_view;
use crate::response::{
    payload_result, response_result, QueryResponsePacket, QueryResponsePacketPayload,
    QueryResponsePacketPayloadView,
};
use crate::socket::{SocketAddr, SocketAddrView};
use crate::text::string_result;

verus! {

/// Each field of a configuration is its own.
pub proof fn law_config_fields(c: ProxyQueryConfig)
    ensures
        c@.motd == c.motd@,
        c@.game_type == c.game_type@,
        c@.map == c.map@,
        c@.num_players == c.num_players,
        c@.max_players == c.max_players,
        c@.host_port == c.host_port,
        c@.host_ip == c.host_ip@,
        c@.version == c.version@,
        c.plugins matches Some(p) ==> c@.plugins == Some(p@),
        c.plugins is None ==> c@.plugins is None,
        c@.players.len() == c.players@.len(),
        forall|i: int|
            0 <= i < c.players@.len() ==> #[trigger] c@.players[i] == c.players@[i]@,
{
}

/// Each field of a response is its own.
pub proof fn law_response_fields(r: QueryResponsePacket)
    ensures
        r@.ty == r.ty,
        r@.session_id == r.session_id,
        r@.payload == r.payload@,
        r.payload matches QueryResponsePacketPayload::Handshake { challenge_token } ==> r@.payload
            == (QueryResponsePacketPayloadView::Handshake { challenge_token }),
        r.payload matches QueryResponsePacketPayload::BasicStat {
            motd,
            game_type,
            map,
            num_players,
            max_players,
            host_port,
            host_ip,
        } ==> r@.payload == (QueryResponsePacketPayloadView::BasicStat {
            motd: motd@,
            game_type: game_type@,
            map: map@,
            num_players,
            max_players,
            host_port,
            host_ip: host_ip@,
        }),
        r.payload matches QueryResponsePacketPayload::FullStat { k_v_section, players } ==> {
            &&& r@.payload matches QueryResponsePacketPayloadView::FullStat {
                k_v_section: pairs,
                players: names,
            }
            &&& pairs == k_v_section@
            &&& names.len() == players@.len()
            &&& forall|i: int| 0 <= i < players@.len() ==> #[trigger] names[i] == players@[i]@
        },
{
}

/// Addresses are their octets or groups, with the port, flow label and scope.
pub proof fn law_addresses(
    octets: [u8; 4],
    groups: [u16; 8],
    port: u16,
    flowinfo: u32,
    scope_id: u32,
)
    ensures
        IpAddr::V4(octets)@ == IpAddrView::V4(octets@),
        IpAddr::V6(groups)@ == IpAddrView::V6(groups@),
        (SocketAddr::V4 { octets, port })@ == (SocketAddrView::V4 { octets: octets@, port }),
        (SocketAddr::V6 { groups, port, flowinfo, scope_id })@ == (SocketAddrView::V6 {
            groups: groups@,
            port,
            flowinfo,
            scope_id,
        }),
{
}

/// Outcomes are read as what they hold, and errors as themselves.
pub proof fn law_outcomes(
    bytes: Vec<u8>,
    s: String,
    t: String,
    p: QueryResponsePacketPayload,
    r: QueryResponsePacket,
    e: CCProxyError,
)
    ensures
        datagram_result(Ok(bytes)) == Ok::<Seq<u8>, CCProxyError>(bytes@),
        datagram_result(Err(e)) == Err::<Seq<u8>, CCProxyError>(e),
        string_result(Ok(s)) == Ok::<Seq<char>, CCProxyError>(s@),
        string_result(Err(e)) == Err::<Seq<char>, CCProxyError>(e),
        payload_result(Ok(p)) == Ok::<QueryResponsePacketPayloadView, CCProxyError>(p@),
        payload_result(Err(e)) == Err::<QueryResponsePacketPayloadView, CCProxyError>(e),
        response_result(Ok(r)) matches Ok(v) && v == r@,
        response_result(Err(e)) matches Err(f) && f == e,
        outcome_view(Some(Ok(r))) matches Some(Ok(v)) && v == r@,
        outcome_view(Some(Err(e))) matches Some(Err(f)) && f == e,
        outcome_view(None) is None,
        pair_view((s, t)) == (s@, t@),
        text_option(Some(s)) == Some(s@),
        text_option(None) is None,
{
}

/// Strings are read one by one, and a datagram as its bytes.
pub proof fn law_strings_and_datagrams(s: Seq<String>, d: &[u8])
    ensures
        texts(s).len() == s.len(),
        forall|i: int| 0 <= i < s.len() ==> #[trigger] texts(s)[i] == s[i]@,
        datagram_view(Some(d)) == Some(d@),
        datagram_view(None) is None,
{
}

} // verus!
