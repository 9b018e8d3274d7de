use ccproxy::error::{CCProxyError, RaknetError};
use ccproxy::proxy::{
    announced_client, handle_connection, handle_tunnel, is_client_error, listen, run_motd_updater,
    update_motd, ConnectOutcome, ConnectionAction, ListenerAction, ListenerEvent, MotdPing, Side,
    TunnelAction, TunnelEvent, CONNECT_TIMEOUT_SECS, MOTD_PING_TIMEOUT_SECS,
    MOTD_UPDATE_PERIOD_SECS, RAKNET_GAME_PACKET_ID, RAKNET_PROTOCOL_VERSION,
};
use ccproxy::socket::SocketAddr;

const CLOSED: CCProxyError = CCProxyError::RakNet { err: RaknetError::ConnectionClosed };
const OTHER: CCProxyError = CCProxyError::RakNet { err: RaknetError::Other };

#[test]
fn proxy_constants_have_their_values() {
    assert_eq!(RAKNET_GAME_PACKET_ID, 254);
    assert_eq!(RAKNET_PROTOCOL_VERSION, 11);
    assert_eq!(CONNECT_TIMEOUT_SECS, 10);
    assert_eq!(MOTD_UPDATE_PERIOD_SECS, 5);
    assert_eq!(MOTD_PING_TIMEOUT_SECS, 5);
}

#[test]
fn game_packets_pass_to_the_other_side() {
    match handle_tunnel(Side::Client, TunnelEvent::Packet(vec![0xfe, 1, 2])) {
        TunnelAction::Send { to, packet } => {
            assert_eq!(to, Side::Server);
            assert_eq!(packet, vec![0xfe, 1, 2]);
        }
        other => panic!("not sent: {:?}", other),
    }
    match handle_tunnel(Side::Server, TunnelEvent::Packet(vec![0xfe])) {
        TunnelAction::Send { to, packet } => {
            assert_eq!(to, Side::Client);
            assert_eq!(packet, vec![0xfe]);
        }
        other => panic!("not sent: {:?}", other),
    }
}

#[test]
fn other_packets_are_dropped() {
    for first in [0x00, 0xfd, 0xff] {
        let action = handle_tunnel(Side::Client, TunnelEvent::Packet(vec![first, 0xfe]));
        assert!(matches!(action, TunnelAction::Continue));
    }
}

#[test]
fn tunnel_passes_game_packets_in_order_until_it_stops() {
    let events = vec![
        TunnelEvent::Packet(vec![0xfe, 1]),
        TunnelEvent::Packet(vec![0x01, 2]),
        TunnelEvent::Packet(vec![0xfe, 3]),
        TunnelEvent::TargetClosed,
        TunnelEvent::Packet(vec![0xfe, 4]),
    ];
    let mut sent = Vec::new();
    for event in events {
        match handle_tunnel(Side::Client, event) {
            TunnelAction::Send { packet, .. } => sent.push(packet),
            TunnelAction::Continue => {}
            TunnelAction::CloseAndStop { .. } => break,
        }
    }
    assert_eq!(sent, vec![vec![0xfe, 1], vec![0xfe, 3]]);
}

#[test]
fn tunnel_closes_its_own_side() {
    for side in [Side::Client, Side::Server] {
        for event in [TunnelEvent::TargetClosed, TunnelEvent::ShutdownRequested] {
            match handle_tunnel(side, event) {
                TunnelAction::CloseAndStop { side: closed } => assert_eq!(closed, side),
                other => panic!("not closed: {:?}", other),
            }
        }
    }
}

#[test]
fn client_address_is_announced_under_the_proxy_protocol() {
    let address = SocketAddr::V4 { octets: [1, 2, 3, 4], port: 5 };
    assert_eq!(announced_client(true, address), Some(address));
    assert_eq!(announced_client(false, address), None);
}

#[test]
fn connection_follows_the_upstream() {
    assert_eq!(handle_connection(ConnectOutcome::Connected), ConnectionAction::RunTunnels);
    assert_eq!(
        handle_connection(ConnectOutcome::Failed { err: RaknetError::Other }),
        ConnectionAction::Fail { err: OTHER }
    );
    assert_eq!(
        handle_connection(ConnectOutcome::TimedOut),
        ConnectionAction::CloseClientAndFail { err: CLOSED }
    );
}

#[test]
fn closed_connection_is_no_client_error() {
    assert!(!is_client_error(CLOSED));
    assert!(is_client_error(OTHER));
    assert!(is_client_error(CCProxyError::QueryInvalid));
}

#[test]
fn listener_serves_until_it_is_stopped() {
    assert_eq!(listen(ListenerEvent::Accepted), ListenerAction::Serve);
    assert_eq!(
        listen(ListenerEvent::Failed { err: RaknetError::Other }),
        ListenerAction::Fail { err: OTHER }
    );
    assert_eq!(listen(ListenerEvent::ShutdownRequested), ListenerAction::CloseAndStop);
}

#[test]
fn motd_is_taken_over() {
    let mut motd = "old".to_string();
    assert_eq!(update_motd(&mut motd, MotdPing::Motd("new".to_string())), Ok(()));
    assert_eq!(motd, "new");
    assert_eq!(update_motd(&mut motd, MotdPing::ShutdownRequested), Ok(()));
    assert_eq!(update_motd(&mut motd, MotdPing::Unreadable), Err(CCProxyError::UpstreamMotdInvalid));
    assert_eq!(update_motd(&mut motd, MotdPing::Failed { err: RaknetError::Other }), Err(OTHER));
    assert_eq!(motd, "new");
}

#[test]
fn motd_falls_back() {
    let mut motd = "old".to_string();
    let fallback = "fallback";
    assert_eq!(run_motd_updater(&mut motd, fallback, MotdPing::Motd("new".to_string())), Ok(()));
    assert_eq!(motd, "new");
    assert_eq!(
        run_motd_updater(&mut motd, fallback, MotdPing::Unreadable),
        Err(CCProxyError::UpstreamMotdInvalid)
    );
    assert_eq!(motd, "fallback");
    motd = "new".to_string();
    assert_eq!(
        run_motd_updater(&mut motd, fallback, MotdPing::Failed { err: RaknetError::ConnectionClosed }),
        Err(CLOSED)
    );
    assert_eq!(motd, "fallback");
    motd = "new".to_string();
    assert_eq!(run_motd_updater(&mut motd, fallback, MotdPing::ShutdownRequested), Ok(()));
    assert_eq!(motd, "new");
}
