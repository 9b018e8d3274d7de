//! The server side of the Query Protocol: challenge tokens and answers.

use vstd::hash_map::StringHashMap;
use vstd::prelude::*;

use crate::buffer::PacketBuffer;
use crate::config::{clone_strings, texts, ProxyQueryConfig, ProxyQueryConfigView};
use crate::error::{CCProxyError, CCProxyResult};
use crate::foreign::random_i32;
use crate::kv::KvSection;
use crate::packet::{take_request, QueryPacketType, QueryRequestPacket, QueryRequestPacketPayload};
use crate::response::{
    all_writable, config_pairs, response_bytes, response_fields, response_result,
    QueryResponsePacket, QueryResponsePacketPayload, QueryResponsePacketPayloadView,
    QueryResponsePacketView,
};
use crate::socket::{address_key, SocketAddr, SocketAddrView};

verus! {

/// Challenge tokens are forgotten every so many seconds.
pub const CHALLENGE_TOKEN_PERIOD_SECS: u64 = 30;

/// The upstream server is queried every so many seconds.
pub const UPSTREAM_QUERY_PERIOD_SECS: u64 = 5;

/// The upstream server has so many seconds to answer each datagram.
pub const UPSTREAM_QUERY_TIMEOUT_SECS: u64 = 5;

/// Each datagram to the upstream server is sent at most so many times.
pub const UPSTREAM_QUERY_RETRY: u32 = 1;

/// Answers the queries of clients on behalf of the upstream server.
pub struct QueryHandler {
    upstream_address: SocketAddr,
    query: ProxyQueryConfig,
    challenge_tokens: StringHashMap<i32>,
}

/// The state of a [`QueryHandler`].
#[verifier::ext_equal]
pub struct QueryHandlerView {
    pub upstream_address: SocketAddrView,
    pub query: ProxyQueryConfigView,
    /// The token that was last handed out to each peer.
    pub challenge_tokens: Map<Seq<char>, i32>,
}

impl View for QueryHandler {
    type V = QueryHandlerView;

    closed spec fn view(&self) -> QueryHandlerView {
        QueryHandlerView {
            upstream_address: self.upstream_address@,
            query: self.query@,
            challenge_tokens: self.challenge_tokens@,
        }
    }
}

/// True where `token` is the one that the peer at `address` was given.
pub open spec fn is_valid_token(
    h: QueryHandlerView,
    address: SocketAddrView,
    token: i32,
) -> bool {
    &&& h.challenge_tokens.contains_key(address_key(address))
    &&& h.challenge_tokens[address_key(address)] == token
}

/// The state after `token` was handed out to the peer at `address`.
pub open spec fn with_token(
    h: QueryHandlerView,
    address: SocketAddrView,
    token: i32,
) -> QueryHandlerView {
    QueryHandlerView {
        challenge_tokens: h.challenge_tokens.insert(address_key(address), token),
        ..h
    }
}

/// The response that hands out a token.
pub open spec fn handshake_response(session_id: i32, token: i32) -> QueryResponsePacketView {
    QueryResponsePacketView {
        ty: QueryPacketType::Handshake,
        session_id,
        payload: QueryResponsePacketPayloadView::Handshake { challenge_token: token },
    }
}

/// The basic stat of a configuration.
pub open spec fn basic_stat_response(
    session_id: i32,
    query: ProxyQueryConfigView,
) -> QueryResponsePacketView {
    QueryResponsePacketView {
        ty: QueryPacketType::Stat,
        session_id,
        payload: QueryResponsePacketPayloadView::BasicStat {
            motd: query.motd,
            game_type: query.game_type,
            map: query.map,
            num_players: query.num_players,
            max_players: query.max_players,
            host_port: query.host_port,
            host_ip: query.host_ip,
        },
    }
}

/// The full stat of a configuration.
pub open spec fn full_stat_response(
    session_id: i32,
    query: ProxyQueryConfigView,
) -> QueryResponsePacketView {
    QueryResponsePacketView {
        ty: QueryPacketType::Stat,
        session_id,
        payload: QueryResponsePacketPayloadView::FullStat {
            k_v_section: config_pairs(query),
            players: query.players,
        },
    }
}

/// The response to a request and the state after it. `drawn` is the number that
/// becomes the token of a handshake; a stat needs the token of its peer.
pub open spec fn answered(
    h: QueryHandlerView,
    address: SocketAddrView,
    request: QueryRequestPacket,
    drawn: i32,
) -> (CCProxyResult<QueryResponsePacketView>, QueryHandlerView) {
    match request.payload {
        QueryRequestPacketPayload::Handshake => (
            Ok(handshake_response(request.session_id, drawn)),
            with_token(h, address, drawn),
        ),
        QueryRequestPacketPayload::BasicStat { challenge_token } => if is_valid_token(
            h,
            address,
            challenge_token,
        ) {
            (Ok(basic_stat_response(request.session_id, h.query)), h)
        } else {
            (Err(CCProxyError::QueryInvalid), h)
        },
        QueryRequestPacketPayload::FullStat { challenge_token } => if is_valid_token(
            h,
            address,
            challenge_token,
        ) {
            (Ok(full_stat_response(request.session_id, h.query)), h)
        } else {
            (Err(CCProxyError::QueryInvalid), h)
        },
    }
}

/// The datagram that carries a response; one with the character zero in a text
/// cannot be sent.
pub open spec fn response_datagram(r: QueryResponsePacketView) -> CCProxyResult<Seq<u8>> {
    if all_writable(response_fields(r.payload)) {
        Ok(response_bytes(r))
    } else {
        Err(CCProxyError::QueryInvalid)
    }
}

/// The datagram sent back for a received one, and the state after it.
pub open spec fn handled(
    h: QueryHandlerView,
    address: SocketAddrView,
    datagram: Seq<u8>,
    drawn: i32,
) -> (CCProxyResult<Seq<u8>>, QueryHandlerView) {
    match take_request(datagram).0 {
        Err(e) => (Err(e), h),
        Ok(request) => match answered(h, address, request, drawn) {
            (Ok(response), next) => (response_datagram(response), next),
            (Err(e), next) => (Err(e), next),
        },
    }
}

/// What came of querying the upstream server.
#[derive(Debug)]
pub enum QueryUpdate {
    /// The server reported this configuration.
    Reported(ProxyQueryConfig),
    /// The server reported no full stat, or the query was called off.
    Nothing,
    /// The query failed, or what was reported could not be read.
    Failed,
}

/// What is reported after an update: the upstream report at the address of the
/// proxy, or the fallback where there is none to be had.
pub open spec fn updated_query(
    current: ProxyQueryConfigView,
    fallback: ProxyQueryConfigView,
    update: QueryUpdate,
) -> ProxyQueryConfigView {
    match update {
        QueryUpdate::Reported(query) => ProxyQueryConfigView {
            host_ip: fallback.host_ip,
            host_port: fallback.host_port,
            ..query@
        },
        QueryUpdate::Nothing => current,
        QueryUpdate::Failed => fallback,
    }
}

/// The pairs and names of a full stat.
pub open spec fn stat_report(payload: QueryResponsePacketPayloadView) -> Option<
    (Seq<(Seq<char>, Seq<char>)>, Seq<Seq<char>>),
> {
    match payload {
        QueryResponsePacketPayloadView::FullStat { k_v_section, players } => Some(
            (k_v_section, players),
        ),
        _ => None,
    }
}

/// Keeps what a handler reports in step with the upstream server.
pub struct QueryUpdater {
    fallback_query: ProxyQueryConfig,
}

impl View for QueryUpdater {
    type V = ProxyQueryConfigView;

    /// What is reported while the upstream server cannot be queried.
    closed spec fn view(&self) -> ProxyQueryConfigView {
        self.fallback_query@
    }
}

impl QueryUpdater {
    /// The pairs and names that an upstream response reports.
    pub fn report(response: QueryResponsePacket) -> (report: Option<(KvSection, Vec<String>)>)
        ensures
            match report {
                Some((k_v_section, players)) => stat_report(response@.payload) == Some(
                    (k_v_section@, texts(players@)),
                ),
                None => stat_report(response@.payload) is None,
            },
            match response.payload {
                QueryResponsePacketPayload::FullStat { k_v_section, players } => report == Some(
                    (k_v_section, players),
                ),
                _ => report is None,
            },
    {
        match response.payload {
            QueryResponsePacketPayload::FullStat { k_v_section, players } => Some(
                (k_v_section, players),
            ),
            _ => None,
        }
    }

    /// Brings `handler` up to date.
    pub fn apply(&self, handler: &mut QueryHandler, update: QueryUpdate)
        ensures
            final(handler)@ == (QueryHandlerView {
                query: updated_query(old(handler)@.query, self@, update),
                ..old(handler)@
            }),
    {
        match update {
            QueryUpdate::Reported(query) => {
                let mut query: ProxyQueryConfig = query;
                query.host_ip = self.fallback_query.host_ip;
                query.host_port = self.fallback_query.host_port;
                handler.query = query;
            },
            QueryUpdate::Nothing => {},
            QueryUpdate::Failed => {
                handler.query = self.fallback_query.clone();
            },
        }
    }
}

/// The outcome of building a datagram, over its bytes.
pub open spec fn datagram_result(res: CCProxyResult<Vec<u8>>) -> CCProxyResult<Seq<u8>> {
    match res {
        Ok(bytes) => Ok(bytes@),
        Err(e) => Err(e),
    }
}

/// The datagram that carries `response`.
pub fn encode_response_packet(response: &QueryResponsePacket) -> (res: CCProxyResult<Vec<u8>>)
    ensures
        datagram_result(res) == response_datagram(response@),
{
    let buf: PacketBuffer = response.encode()?;
    Ok(buf.into_inner())
}

impl QueryHandler {
    /// A handler that reports `fallback_query` and knows no tokens.
    pub fn new(upstream_address: SocketAddr, fallback_query: &ProxyQueryConfig) -> (handler: Self)
        ensures
            handler@ == (QueryHandlerView {
                upstream_address: upstream_address@,
                query: fallback_query@,
                challenge_tokens: Map::empty(),
            }),
    {
        QueryHandler {
            upstream_address,
            query: fallback_query.clone(),
            challenge_tokens: StringHashMap::new(),
        }
    }

    /// The address at which the upstream server is queried.
    pub fn upstream_address(&self) -> (address: SocketAddr)
        ensures
            address@ == self@.upstream_address,
    {
        self.upstream_address
    }

    /// What the handler reports now.
    pub fn current_query(&self) -> (query: &ProxyQueryConfig)
        ensures
            query@ == self@.query,
    {
        &self.query
    }

    /// The updater of this handler, which falls back to what is reported now.
    pub fn init(&self) -> (updater: QueryUpdater)
        ensures
            updater@ == self@.query,
    {
        QueryUpdater { fallback_query: self.query.clone() }
    }

    /// Forgets all challenge tokens.
    pub fn clear_challenge_tokens(&mut self)
        ensures
            final(self)@ == (QueryHandlerView {
                challenge_tokens: Map::empty(),
                ..old(self)@
            }),
    {
        self.challenge_tokens.clear();
    }

    /// True where `challenge_token` is the one that the peer at `address` was
    /// given.
    pub fn validate_challenge_token(&self, address: &SocketAddr, challenge_token: i32) -> (valid:
        bool)
        ensures
            valid == is_valid_token(self@, address@, challenge_token),
            valid <==> (self@.challenge_tokens.contains_key(address_key(address@))
                && self@.challenge_tokens[address_key(address@)] == challenge_token),
    {
        let key: String = address.to_key();
        match self.challenge_tokens.get(key.as_str()) {
            Some(saved) => *saved == challenge_token,
            None => false,
        }
    }

    /// Hands out `challenge_token` to the peer at `address`.
    pub fn accept_handshake(
        &mut self,
        address: &SocketAddr,
        session_id: i32,
        challenge_token: i32,
    ) -> (response: QueryResponsePacket)
        ensures
            response@ == handshake_response(session_id, challenge_token),
            final(self)@ == with_token(old(self)@, address@, challenge_token),
    {
        self.challenge_tokens.insert(address.to_key(), challenge_token);
        QueryResponsePacket {
            ty: QueryPacketType::Handshake,
            session_id,
            payload: QueryResponsePacketPayload::Handshake { challenge_token },
        }
    }

    fn basic_stat(&self, session_id: i32) -> (response: QueryResponsePacket)
        ensures
            response@ == basic_stat_response(session_id, self@.query),
    {
        let query: ProxyQueryConfig = self.query.clone();
        QueryResponsePacket {
            ty: QueryPacketType::Stat,
            session_id,
            payload: QueryResponsePacketPayload::BasicStat {
                motd: query.motd,
                game_type: query.game_type,
                map: query.map,
                num_players: query.num_players,
                max_players: query.max_players,
                host_port: query.host_port,
                host_ip: query.host_ip,
            },
        }
    }

    fn full_stat(&self, session_id: i32) -> (response: QueryResponsePacket)
        ensures
            response@ == full_stat_response(session_id, self@.query),
    {
        let query: ProxyQueryConfig = self.query.clone();
        let players: Vec<String> = clone_strings(&query.players);
        let k_v_section: KvSection = QueryResponsePacketPayload::query_config_to_k_v_section(query);
        QueryResponsePacket {
            ty: QueryPacketType::Stat,
            session_id,
            payload: QueryResponsePacketPayload::FullStat { k_v_section, players },
        }
    }

    /// The response to the request of the peer at `address`. A handshake hands
    /// out `drawn`; a stat is refused without the token of the peer.
    pub fn answer(&mut self, address: &SocketAddr, request: &QueryRequestPacket, drawn: i32) -> (res:
        CCProxyResult<QueryResponsePacket>)
        ensures
            (response_result(res), final(self)@) == answered(
                old(self)@,
                address@,
                *request,
                drawn,
            ),
    {
        match request.payload {
            QueryRequestPacketPayload::Handshake => Ok(
                self.accept_handshake(address, request.session_id, drawn),
            ),
            QueryRequestPacketPayload::BasicStat { challenge_token } => {
                if !self.validate_challenge_token(address, challenge_token) {
                    return Err(CCProxyError::QueryInvalid);
                }
                Ok(self.basic_stat(request.session_id))
            },
            QueryRequestPacketPayload::FullStat { challenge_token } => {
                if !self.validate_challenge_token(address, challenge_token) {
                    return Err(CCProxyError::QueryInvalid);
                }
                Ok(self.full_stat(request.session_id))
            },
        }
    }

    /// The datagram to send back for one that came from `address`. The token of
    /// a handshake is `drawn`.
    pub fn handle_packet_with(&mut self, address: &SocketAddr, buf: &mut PacketBuffer, drawn: i32)
        -> (res: CCProxyResult<Vec<u8>>)
        ensures
            (datagram_result(res), final(self)@) == handled(
                old(self)@,
                address@,
                old(buf).rest(),
                drawn,
            ),
            final(buf).data() == old(buf).data(),
            final(buf).rest() == take_request(old(buf).rest()).1,
    {
        let request: QueryRequestPacket = QueryRequestPacket::decode(buf)?;
        let response: QueryResponsePacket = self.answer(address, &request, drawn)?;
        encode_response_packet(&response)
    }

    /// The datagram to send back for one that came from `address`. The token of
    /// a handshake is drawn at random.
    pub fn handle_packet(&mut self, address: &SocketAddr, buf: &mut PacketBuffer) -> (res:
        CCProxyResult<Vec<u8>>)
        ensures
            exists|drawn: i32|
                (datagram_result(res), final(self)@) == #[trigger] handled(
                    old(self)@,
                    address@,
                    old(buf).rest(),
                    drawn,
                ),
            final(buf).data() == old(buf).data(),
            final(buf).rest() == take_request(old(buf).rest()).1,
    {
        let drawn: i32 = random_i32();
        self.handle_packet_with(address, buf, drawn)
    }
}

} // verus!
