use ccproxy::buffer::PacketBuffer;
use ccproxy::config::ProxyQueryConfig;
use ccproxy::error::CCProxyError;
use ccproxy::exchange::{QueryExchange, QueryStage, RESPONSE_BUFFER_LEN};
use ccproxy::handler::{
    QueryHandler, QueryUpdate, QueryUpdater, CHALLENGE_TOKEN_PERIOD_SECS, UPSTREAM_QUERY_PERIOD_SECS,
    UPSTREAM_QUERY_RETRY, UPSTREAM_QUERY_TIMEOUT_SECS,
};
use ccproxy::ip::IpAddr;
use ccproxy::packet::{QueryPacketType, QueryRequestPacket, QueryRequestPacketPayload};
use ccproxy::response::{QueryResponsePacket, QueryResponsePacketPayload};
use ccproxy::socket::SocketAddr;

const UPSTREAM: SocketAddr = SocketAddr::V4 { octets: [127, 0, 0, 1], port: 19133 };
const CLIENT: SocketAddr = SocketAddr::V4 { octets: [10, 0, 0, 1], port: 5000 };
const OTHER: SocketAddr = SocketAddr::V4 { octets: [10, 0, 0, 1], port: 5001 };

fn config() -> ProxyQueryConfig {
    ProxyQueryConfig {
        motd: "CCProxy".to_string(),
        game_type: "SMP".to_string(),
        map: "world".to_string(),
        num_players: 0,
        max_players: 100,
        host_port: 19132,
        host_ip: IpAddr::V4([0, 0, 0, 0]),
        version: "1.21.101".to_string(),
        plugins: None,
        players: Vec::new(),
    }
}

fn request(session_id: i32, payload: QueryRequestPacketPayload) -> PacketBuffer {
    let ty = match payload {
        QueryRequestPacketPayload::Handshake => QueryPacketType::Handshake,
        _ => QueryPacketType::Stat,
    };
    let packet = QueryRequestPacket { ty, session_id, payload };
    PacketBuffer::new(packet.encode().unwrap().into_inner())
}

fn token_in(datagram: &[u8]) -> i32 {
    match QueryHandler::recv_response_packet(Some(datagram)).unwrap().payload {
        QueryResponsePacketPayload::Handshake { challenge_token } => challenge_token,
        other => panic!("not a handshake: {:?}", other),
    }
}

#[test]
fn periods_have_their_values() {
    assert_eq!(CHALLENGE_TOKEN_PERIOD_SECS, 30);
    assert_eq!(UPSTREAM_QUERY_PERIOD_SECS, 5);
    assert_eq!(UPSTREAM_QUERY_TIMEOUT_SECS, 5);
    assert_eq!(UPSTREAM_QUERY_RETRY, 1);
    assert_eq!(RESPONSE_BUFFER_LEN, 1024);
}

#[test]
fn new_handler_reports_the_fallback() {
    let handler = QueryHandler::new(UPSTREAM, &config());
    assert_eq!(handler.upstream_address(), UPSTREAM);
    assert_eq!(handler.current_query().motd, "CCProxy");
    assert!(!handler.validate_challenge_token(&CLIENT, 0));
}

#[test]
fn handshake_hands_out_the_drawn_token() {
    let mut handler = QueryHandler::new(UPSTREAM, &config());
    let mut buf = request(0x01020304, QueryRequestPacketPayload::Handshake);
    let reply = handler.handle_packet_with(&CLIENT, &mut buf, 77).unwrap();
    assert_eq!(reply, b"\x09\x01\x02\x03\x0477\x00".to_vec());
    assert!(handler.validate_challenge_token(&CLIENT, 77));
    assert!(!handler.validate_challenge_token(&CLIENT, 78));
}

#[test]
fn token_is_bound_to_its_peer() {
    let mut handler = QueryHandler::new(UPSTREAM, &config());
    handler.accept_handshake(&CLIENT, 1, 77);
    assert!(!handler.validate_challenge_token(&OTHER, 77));
    handler.accept_handshake(&OTHER, 1, 5);
    assert!(handler.validate_challenge_token(&CLIENT, 77));
    assert!(handler.validate_challenge_token(&OTHER, 5));
}

#[test]
fn flow_label_does_not_tell_peers_apart_but_scope_does() {
    let groups = [0xfe80, 0, 0, 0, 0, 0, 0, 1];
    let peer = SocketAddr::V6 { groups, port: 5000, flowinfo: 0, scope_id: 1 };
    let same = SocketAddr::V6 { groups, port: 5000, flowinfo: 9, scope_id: 1 };
    let scoped = SocketAddr::V6 { groups, port: 5000, flowinfo: 0, scope_id: 2 };
    let mut handler = QueryHandler::new(UPSTREAM, &config());
    handler.accept_handshake(&peer, 1, 77);
    assert!(handler.validate_challenge_token(&same, 77));
    assert!(!handler.validate_challenge_token(&scoped, 77));
}

#[test]
fn new_token_replaces_the_old_one() {
    let mut handler = QueryHandler::new(UPSTREAM, &config());
    handler.accept_handshake(&CLIENT, 1, 77);
    handler.accept_handshake(&CLIENT, 1, 78);
    assert!(!handler.validate_challenge_token(&CLIENT, 77));
    assert!(handler.validate_challenge_token(&CLIENT, 78));
}

#[test]
fn stat_without_token_is_refused() {
    let mut handler = QueryHandler::new(UPSTREAM, &config());
    for payload in [
        QueryRequestPacketPayload::BasicStat { challenge_token: 0 },
        QueryRequestPacketPayload::FullStat { challenge_token: 0 },
    ] {
        let res = handler.handle_packet(&CLIENT, &mut request(1, payload));
        assert_eq!(res, Err(CCProxyError::QueryInvalid));
    }
    handler.accept_handshake(&CLIENT, 1, 77);
    let payload = QueryRequestPacketPayload::FullStat { challenge_token: 77 };
    assert_eq!(
        handler.handle_packet(&OTHER, &mut request(1, payload)),
        Err(CCProxyError::QueryInvalid)
    );
    assert!(handler.handle_packet(&CLIENT, &mut request(1, payload)).is_ok());
    assert!(handler.handle_packet(&CLIENT, &mut request(1, payload)).is_ok());
}

#[test]
fn forgotten_tokens_are_refused() {
    let mut handler = QueryHandler::new(UPSTREAM, &config());
    handler.accept_handshake(&CLIENT, 1, 77);
    handler.clear_challenge_tokens();
    assert!(!handler.validate_challenge_token(&CLIENT, 77));
    assert_eq!(handler.current_query().motd, "CCProxy");
}

#[test]
fn basic_stat_is_reported() {
    let mut handler = QueryHandler::new(UPSTREAM, &config());
    handler.accept_handshake(&CLIENT, 1, 77);
    let mut buf = request(2, QueryRequestPacketPayload::BasicStat { challenge_token: 77 });
    assert_eq!(
        handler.handle_packet(&CLIENT, &mut buf).unwrap(),
        b"\x00\x00\x00\x00\x02CCProxy\x00SMP\x00world\x000\x00100\x00\xbc\x4a0.0.0.0\x00".to_vec()
    );
}

#[test]
fn full_stat_is_reported_and_received() {
    let mut handler = QueryHandler::new(UPSTREAM, &config());
    handler.accept_handshake(&CLIENT, 1, 77);
    let mut buf = request(2, QueryRequestPacketPayload::FullStat { challenge_token: 77 });
    let reply = handler.handle_packet(&CLIENT, &mut buf).unwrap();
    assert!(reply.starts_with(b"\x00\x00\x00\x00\x02splitnum\x00\x80\x00"));
    assert!(reply.ends_with(b"\x00\x01player_\x00\x00\x00"));
    let packet = QueryHandler::recv_response_packet(Some(&reply)).unwrap();
    assert_eq!(packet.session_id, 2);
    let (section, players) = QueryUpdater::report(packet).unwrap();
    assert_eq!(section.len(), 10);
    assert_eq!(section.get("hostname"), Some(&"CCProxy".to_string()));
    assert_eq!(section.get("hostport"), Some(&"19132".to_string()));
    assert!(players.is_empty());
}

#[test]
fn unwritable_report_is_an_error() {
    let query = ProxyQueryConfig { motd: "a\0".to_string(), ..config() };
    let mut handler = QueryHandler::new(UPSTREAM, &query);
    handler.accept_handshake(&CLIENT, 1, 77);
    let mut buf = request(2, QueryRequestPacketPayload::BasicStat { challenge_token: 77 });
    assert_eq!(handler.handle_packet(&CLIENT, &mut buf), Err(CCProxyError::QueryInvalid));
}

#[test]
fn malformed_datagrams_are_errors() {
    let mut handler = QueryHandler::new(UPSTREAM, &config());
    let mut short = PacketBuffer::new(vec![0xfe]);
    assert_eq!(handler.handle_packet(&CLIENT, &mut short), Err(CCProxyError::UnexpectedEof));
    let mut wrong = PacketBuffer::new(vec![1, 2, 3, 4, 5, 6, 7]);
    assert_eq!(handler.handle_packet(&CLIENT, &mut wrong), Err(CCProxyError::QueryInvalid));
}

#[test]
fn random_token_is_the_one_in_the_reply() {
    let mut handler = QueryHandler::new(UPSTREAM, &config());
    let mut tokens = Vec::new();
    for _ in 0..20 {
        let mut buf = request(1, QueryRequestPacketPayload::Handshake);
        let token = token_in(&handler.handle_packet(&CLIENT, &mut buf).unwrap());
        assert!(handler.validate_challenge_token(&CLIENT, token));
        tokens.push(token);
    }
    assert!(tokens.iter().any(|t| *t != tokens[0]));
}

#[test]
fn updates_replace_or_restore_the_report() {
    let mut handler = QueryHandler::new(UPSTREAM, &config());
    let updater = handler.init();
    let upstream = ProxyQueryConfig {
        motd: "Upstream".to_string(),
        host_port: 1,
        host_ip: IpAddr::V4([9, 9, 9, 9]),
        players: vec!["Alice".to_string()],
        ..config()
    };
    updater.apply(&mut handler, QueryUpdate::Reported(upstream));
    assert_eq!(handler.current_query().motd, "Upstream");
    assert_eq!(handler.current_query().players, vec!["Alice".to_string()]);
    assert_eq!(handler.current_query().host_port, 19132);
    assert_eq!(handler.current_query().host_ip, IpAddr::V4([0, 0, 0, 0]));
    updater.apply(&mut handler, QueryUpdate::Nothing);
    assert_eq!(handler.current_query().motd, "Upstream");
    updater.apply(&mut handler, QueryUpdate::Failed);
    assert_eq!(handler.current_query().motd, "CCProxy");
    assert!(handler.current_query().players.is_empty());
}

#[test]
fn only_full_stats_are_reports() {
    let shake = QueryResponsePacket {
        ty: QueryPacketType::Handshake,
        session_id: 1,
        payload: QueryResponsePacketPayload::Handshake { challenge_token: 1 },
    };
    assert!(QueryUpdater::report(shake).is_none());
}

fn run(replies: &[Option<Vec<u8>>], retry: u32) -> (Result<QueryResponsePacket, CCProxyError>, usize) {
    let mut exchange: QueryExchange = QueryHandler::query(retry, true);
    let mut sent = 0;
    loop {
        match exchange.next_request() {
            Err(e) => return (Err(e), sent),
            Ok(_) => {
                let reply = replies[sent].as_deref();
                sent += 1;
                if let Some(outcome) = exchange.receive(reply) {
                    return (outcome, sent);
                }
            }
        }
    }
}

fn shake_reply() -> Option<Vec<u8>> {
    Some(b"\x09\x00\x00\x00\x0142\x00".to_vec())
}

fn stat_reply() -> Option<Vec<u8>> {
    Some(b"\x00\x00\x00\x00\x01splitnum\x00\x80\x00a\x00b\x00\x00\x01player_\x00\x00\x00".to_vec())
}

#[test]
fn query_sends_a_handshake_then_a_stat() {
    let mut exchange = QueryHandler::query(1, true);
    assert_eq!(exchange.next_request_with(1), Ok(vec![0xfe, 0xfd, 9, 0, 0, 0, 1]));
    let reply = shake_reply().unwrap();
    assert!(exchange.receive(Some(&reply)).is_none());
    assert_eq!(exchange.stage, QueryStage::Stat { challenge_token: 42 });
    assert_eq!(
        exchange.next_request_with(2),
        Ok(vec![0xfe, 0xfd, 0, 0, 0, 0, 2, 0, 0, 0, 42, 0, 0, 0, 0])
    );
    let mut basic = QueryExchange { is_full: false, attempts_left: 1, ..exchange };
    assert_eq!(basic.next_request_with(2), Ok(vec![0xfe, 0xfd, 0, 0, 0, 0, 2, 0, 0, 0, 42]));
}

#[test]
fn query_returns_the_stat() {
    let (outcome, sent) = run(&[shake_reply(), stat_reply()], 1);
    let (section, _) = QueryUpdater::report(outcome.unwrap()).unwrap();
    assert_eq!(section.get("a"), Some(&"b".to_string()));
    assert_eq!(sent, 2);
}

#[test]
fn query_tries_again() {
    let (outcome, sent) = run(&[None, Some(vec![1]), shake_reply(), None, None, stat_reply()], 3);
    assert!(outcome.is_ok());
    assert_eq!(sent, 6);
}

#[test]
fn query_times_out() {
    assert!(matches!(run(&[None, None], 2), (Err(CCProxyError::QueryTimeout), 2)));
    assert!(matches!(run(&[shake_reply(), None, None], 2), (Err(CCProxyError::QueryTimeout), 3)));
    assert!(matches!(run(&[], 0), (Err(CCProxyError::QueryTimeout), 0)));
}

#[test]
fn query_needs_a_handshake_first() {
    assert!(matches!(run(&[stat_reply()], 2), (Err(CCProxyError::QueryInvalid), 1)));
}

#[test]
fn missing_datagram_is_a_timeout() {
    assert!(matches!(QueryHandler::recv_response_packet(None), Err(CCProxyError::QueryTimeout)));
}

#[test]
fn datagrams_are_cut_at_the_buffer() {
    let mut long = b"\x09\x00\x00\x00\x01".to_vec();
    long.resize(RESPONSE_BUFFER_LEN - 3, b'0');
    long.extend_from_slice(b"42999");
    // The buffer ends in `429`, unterminated.
    assert_eq!(token_in(&long), 42);
}

#[test]
fn query_of_a_handler_brings_back_its_report() {
    let names = vec!["Steve".to_string(), "Alex".to_string()];
    let query = ProxyQueryConfig { num_players: 2, players: names.clone(), ..config() };
    let mut handler = QueryHandler::new(UPSTREAM, &query);
    let mut exchange = QueryHandler::query(1, true);
    let shake = exchange.next_request().unwrap();
    let reply = handler.handle_packet(&CLIENT, &mut PacketBuffer::new(shake)).unwrap();
    assert!(exchange.receive(Some(&reply)).is_none());
    let stat = exchange.next_request().unwrap();
    let reply = handler.handle_packet(&CLIENT, &mut PacketBuffer::new(stat)).unwrap();
    let packet = exchange.receive(Some(&reply)).unwrap().unwrap();
    let (section, players) = QueryUpdater::report(packet).unwrap();
    assert_eq!(section.len(), 10);
    assert_eq!(section.get("game_id"), Some(&"MINECRAFT".to_string()));
    assert_eq!(section.get("numplayers"), Some(&"2".to_string()));
    assert_eq!(players, names);
}
