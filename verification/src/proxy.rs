//! The decisions of the proxy core: accepting clients, connecting them to the
//! upstream server, passing on their packets, and advertising the MOTD.

use vstd::prelude::*;

use crate::error::{CCProxyError, CCProxyResult, RaknetError};
use crate::socket::SocketAddr;

verus! {

/// The first byte of a packet of the game.
pub const RAKNET_GAME_PACKET_ID: u8 = 0xfe;

/// The version of the RakNet protocol spoken with the upstream server.
pub const RAKNET_PROTOCOL_VERSION: u8 = 11;

/// The upstream server has so many seconds to accept a connection.
pub const CONNECT_TIMEOUT_SECS: u64 = 10;

/// The MOTD of the upstream server is asked for every so many seconds.
pub const MOTD_UPDATE_PERIOD_SECS: u64 = 5;

/// The upstream server has so many seconds to tell its MOTD.
pub const MOTD_PING_TIMEOUT_SECS: u64 = 5;

/// The two ends of the tunnel between a client and the upstream server.
#[derive(Debug, Clone, Copy, PartialEq, Eq, Structural)]
pub enum Side {
    Client,
    Server,
}

/// The end that packets from `from` go to.
pub open spec fn opposite(from: Side) -> Side {
    match from {
        Side::Client => Side::Server,
        Side::Server => Side::Client,
    }
}

/// What happens in one direction of a tunnel.
#[derive(Debug)]
pub enum TunnelEvent {
    /// The end that packets go to is closed.
    TargetClosed,
    /// A packet came in.
    Packet(Vec<u8>),
    /// The proxy is asked to shut down.
    ShutdownRequested,
}

/// A [`TunnelEvent`] over bytes.
#[verifier::ext_equal]
pub enum TunnelEventView {
    TargetClosed,
    Packet(Seq<u8>),
    ShutdownRequested,
}

impl View for TunnelEvent {
    type V = TunnelEventView;

    open spec fn view(&self) -> TunnelEventView {
        match self {
            TunnelEvent::TargetClosed => TunnelEventView::TargetClosed,
            TunnelEvent::Packet(packet) => TunnelEventView::Packet(packet@),
            TunnelEvent::ShutdownRequested => TunnelEventView::ShutdownRequested,
        }
    }
}

/// What is done in one direction of a tunnel.
#[derive(Debug)]
pub enum TunnelAction {
    /// Send the packet, reliably and in order.
    Send { to: Side, packet: Vec<u8> },
    /// Wait for the next event.
    Continue,
    /// Close an end, and stop.
    CloseAndStop { side: Side },
}

/// A [`TunnelAction`] over bytes.
#[verifier::ext_equal]
pub enum TunnelActionView {
    Send { to: Side, packet: Seq<u8> },
    Continue,
    CloseAndStop { side: Side },
}

impl View for TunnelAction {
    type V = TunnelActionView;

    open spec fn view(&self) -> TunnelActionView {
        match self {
            TunnelAction::Send { to, packet } => TunnelActionView::Send {
                to: *to,
                packet: packet@,
            },
            TunnelAction::Continue => TunnelActionView::Continue,
            TunnelAction::CloseAndStop { side } => TunnelActionView::CloseAndStop { side: *side },
        }
    }
}

/// True for a packet of the game.
pub open spec fn is_game_packet(packet: Seq<u8>) -> bool {
    packet[0] == RAKNET_GAME_PACKET_ID
}

/// What is done with packets that come from `from`: those of the game are passed
/// on as they are. Once the other end is closed, or on shutdown, this end is
/// closed too.
pub open spec fn tunnel_action(from: Side, event: TunnelEventView) -> TunnelActionView {
    match event {
        TunnelEventView::TargetClosed => TunnelActionView::CloseAndStop { side: from },
        TunnelEventView::Packet(packet) => if is_game_packet(packet) {
            TunnelActionView::Send { to: opposite(from), packet }
        } else {
            TunnelActionView::Continue
        },
        TunnelEventView::ShutdownRequested => TunnelActionView::CloseAndStop { side: from },
    }
}

/// What to do on `event` in the direction that starts at `from`. Packets have at
/// least a byte.
pub fn handle_tunnel(from: Side, event: TunnelEvent) -> (action: TunnelAction)
    requires
        event@ matches TunnelEventView::Packet(packet) ==> packet.len() > 0,
    ensures
        action@ == tunnel_action(from, event@),
        event matches TunnelEvent::Packet(received) ==> (received@[0] == 0xfe
            <==> action is Send),
        action matches TunnelAction::Send { to, packet } ==> {
            &&& event matches TunnelEvent::Packet(received) && packet@ == received@
            &&& to is Server <==> from is Client
        },
        action matches TunnelAction::CloseAndStop { side } ==> side == from,
        action is CloseAndStop <==> event !is Packet,
{
    match event {
        TunnelEvent::TargetClosed => TunnelAction::CloseAndStop { side: from },
        TunnelEvent::Packet(packet) => {
            if packet[0] != RAKNET_GAME_PACKET_ID {
                return TunnelAction::Continue;
            }
            let to: Side = match from {
                Side::Client => Side::Server,
                Side::Server => Side::Client,
            };
            TunnelAction::Send { to, packet }
        },
        TunnelEvent::ShutdownRequested => TunnelAction::CloseAndStop { side: from },
    }
}

/// The packets that are sent in the direction that starts at `from`, until it
/// stops.
pub open spec fn tunnelled(from: Side, events: Seq<TunnelEventView>) -> Seq<Seq<u8>>
    decreases events.len(),
{
    if events.len() == 0 {
        Seq::empty()
    } else {
        match tunnel_action(from, events[0]) {
            TunnelActionView::Send { packet, .. } => seq![packet] + tunnelled(
                from,
                events.drop_first(),
            ),
            TunnelActionView::Continue => tunnelled(from, events.drop_first()),
            TunnelActionView::CloseAndStop { .. } => Seq::empty(),
        }
    }
}

/// A tunnel passes on exactly the packets of the game, unchanged and in order,
/// and nothing that comes after it stopped.
pub proof fn law_tunnel_passes_game_packets(
    from: Side,
    packets: Seq<Seq<u8>>,
    stop: TunnelEventView,
    later: Seq<TunnelEventView>,
)
    requires
        stop !is Packet,
    ensures
        ({
            let arrivals = packets.map_values(|p: Seq<u8>| TunnelEventView::Packet(p));
            let passed = packets.filter(|p: Seq<u8>| p[0] == 0xfe);
            &&& tunnelled(from, arrivals) == passed
            &&& tunnelled(from, arrivals + seq![stop] + later) == passed
        }),
    decreases packets.len(),
{
    let arrivals = packets.map_values(|p: Seq<u8>| TunnelEventView::Packet(p));
    let game = |p: Seq<u8>| p[0] == 0xfe;
    let events = arrivals + seq![stop] + later;
    reveal(Seq::filter);
    if packets.len() == 0 {
        assert(events[0] == stop);
    } else {
        let tail = packets.drop_first();
        law_tunnel_passes_game_packets(from, tail, stop, later);
        let tail_arrivals = tail.map_values(|p: Seq<u8>| TunnelEventView::Packet(p));
        assert(arrivals.drop_first() =~= tail_arrivals);
        assert(events.drop_first() =~= tail_arrivals + seq![stop] + later);
        assert(events[0] == arrivals[0]);
        assert(packets =~= seq![packets[0]] + tail);
        Seq::filter_distributes_over_add(seq![packets[0]], tail, game);
        assert(seq![packets[0]].filter(game) =~= if is_game_packet(packets[0]) {
            seq![packets[0]]
        } else {
            Seq::empty()
        }) by {
            assert(seq![packets[0]].drop_last() =~= Seq::<Seq<u8>>::empty());
            reveal_with_fuel(Seq::filter, 2);
        }
        assert(Seq::<Seq<u8>>::empty() + tail.filter(game) =~= tail.filter(game));
    }
}

/// A packet of the game goes to the other end as it is, from the client to the
/// server and from the server to the client. No other packet goes anywhere.
pub proof fn law_packets_cross(packet: Seq<u8>)
    ensures
        packet[0] == 0xfe ==> {
            &&& tunnel_action(Side::Client, TunnelEventView::Packet(packet)) == (
            TunnelActionView::Send { to: Side::Server, packet })
            &&& tunnel_action(Side::Server, TunnelEventView::Packet(packet)) == (
            TunnelActionView::Send { to: Side::Client, packet })
        },
        packet[0] != 0xfe ==> {
            &&& tunnel_action(Side::Client, TunnelEventView::Packet(packet)) is Continue
            &&& tunnel_action(Side::Server, TunnelEventView::Packet(packet)) is Continue
        },
{
}

/// An end is closed by the direction that starts at it, once the other end is
/// closed or on shutdown, and a packet never closes anything.
pub proof fn law_ends_close(packet: Seq<u8>)
    ensures
        tunnel_action(Side::Client, TunnelEventView::TargetClosed)
            == (TunnelActionView::CloseAndStop { side: Side::Client }),
        tunnel_action(Side::Server, TunnelEventView::TargetClosed)
            == (TunnelActionView::CloseAndStop { side: Side::Server }),
        tunnel_action(Side::Client, TunnelEventView::ShutdownRequested)
            == (TunnelActionView::CloseAndStop { side: Side::Client }),
        tunnel_action(Side::Server, TunnelEventView::ShutdownRequested)
            == (TunnelActionView::CloseAndStop { side: Side::Server }),
        tunnel_action(Side::Client, TunnelEventView::Packet(packet)) !is CloseAndStop,
        tunnel_action(Side::Server, TunnelEventView::Packet(packet)) !is CloseAndStop,
{
}

/// The events and actions of a tunnel are read as they are.
pub proof fn law_tunnel_views(packet: Vec<u8>, side: Side)
    ensures
        TunnelEvent::Packet(packet)@ == TunnelEventView::Packet(packet@),
        TunnelEvent::TargetClosed@ == TunnelEventView::TargetClosed,
        TunnelEvent::ShutdownRequested@ == TunnelEventView::ShutdownRequested,
        (TunnelAction::Send { to: side, packet })@ == (TunnelActionView::Send {
            to: side,
            packet: packet@,
        }),
        TunnelAction::Continue@ == TunnelActionView::Continue,
        (TunnelAction::CloseAndStop { side })@ == (TunnelActionView::CloseAndStop { side }),
{
}

/// Once an end is closed, the direction towards it closes the other end too; on
/// shutdown the two directions close both ends.
pub proof fn law_closing_spreads(closed: Side)
    ensures
        tunnel_action(opposite(closed), TunnelEventView::TargetClosed) == (
        TunnelActionView::CloseAndStop { side: opposite(closed) }),
        opposite(opposite(closed)) == closed,
        forall|from: Side|
            #[trigger] tunnel_action(from, TunnelEventView::ShutdownRequested) == (
            TunnelActionView::CloseAndStop { side: from }),
{
}

/// The address of the client that the upstream server is told, where the PROXY
/// protocol is enabled.
pub fn announced_client(proxy_protocol: bool, client_address: SocketAddr) -> (res: Option<
    SocketAddr,
>)
    ensures
        res == if proxy_protocol {
            Some(client_address)
        } else {
            None
        },
{
    if proxy_protocol {
        Some(client_address)
    } else {
        None
    }
}

/// What came of connecting a client to the upstream server.
#[derive(Debug, Clone, Copy, PartialEq, Eq, Structural)]
pub enum ConnectOutcome {
    Connected,
    Failed { err: RaknetError },
    TimedOut,
}

/// What is done with a client.
#[derive(Debug, Clone, Copy, PartialEq, Eq, Structural)]
pub enum ConnectionAction {
    /// Run the tunnels in both directions, then close both ends.
    RunTunnels,
    /// Give up with an error.
    Fail { err: CCProxyError },
    /// Close the client, then give up with an error.
    CloseClientAndFail { err: CCProxyError },
}

/// What to do with a client once the attempt to connect it is over. A client
/// whose upstream server does not answer is closed.
pub fn handle_connection(outcome: ConnectOutcome) -> (action: ConnectionAction)
    ensures
        action == match outcome {
            ConnectOutcome::Connected => ConnectionAction::RunTunnels,
            ConnectOutcome::Failed { err } => ConnectionAction::Fail {
                err: CCProxyError::RakNet { err },
            },
            ConnectOutcome::TimedOut => ConnectionAction::CloseClientAndFail {
                err: CCProxyError::RakNet { err: RaknetError::ConnectionClosed },
            },
        },
{
    match outcome {
        ConnectOutcome::Connected => ConnectionAction::RunTunnels,
        ConnectOutcome::Failed { err } => ConnectionAction::Fail {
            err: CCProxyError::RakNet { err },
        },
        ConnectOutcome::TimedOut => ConnectionAction::CloseClientAndFail {
            err: CCProxyError::RakNet { err: RaknetError::ConnectionClosed },
        },
    }
}

/// True for an error that ends a client and is worth reporting: any but a closed
/// connection.
pub fn is_client_error(err: CCProxyError) -> (reported: bool)
    ensures
        reported == (err != CCProxyError::RakNet { err: RaknetError::ConnectionClosed }),
{
    match err {
        CCProxyError::RakNet { err } => match err {
            RaknetError::ConnectionClosed => false,
            RaknetError::Other => true,
        },
        _ => true,
    }
}

/// What happens to the listener.
#[derive(Debug, Clone, Copy, PartialEq, Eq, Structural)]
pub enum ListenerEvent {
    Accepted,
    Failed { err: RaknetError },
    ShutdownRequested,
}

/// What the listener does.
#[derive(Debug, Clone, Copy, PartialEq, Eq, Structural)]
pub enum ListenerAction {
    /// Handle the client beside the listener, and wait for the next one.
    Serve,
    /// Stop with an error.
    Fail { err: CCProxyError },
    /// Close the listener, and stop.
    CloseAndStop,
}

/// What the listener does on `event`.
pub fn listen(event: ListenerEvent) -> (action: ListenerAction)
    ensures
        action == match event {
            ListenerEvent::Accepted => ListenerAction::Serve,
            ListenerEvent::Failed { err } => ListenerAction::Fail {
                err: CCProxyError::RakNet { err },
            },
            ListenerEvent::ShutdownRequested => ListenerAction::CloseAndStop,
        },
{
    match event {
        ListenerEvent::Accepted => ListenerAction::Serve,
        ListenerEvent::Failed { err } => ListenerAction::Fail { err: CCProxyError::RakNet { err } },
        ListenerEvent::ShutdownRequested => ListenerAction::CloseAndStop,
    }
}

/// What came of asking the upstream server for its MOTD.
#[derive(Debug)]
pub enum MotdPing {
    /// The MOTD of the server, with the identity and the ports of the proxy.
    Motd(String),
    /// The server told a MOTD that cannot be read.
    Unreadable,
    /// The server could not be asked.
    Failed { err: RaknetError },
    /// The proxy was asked to shut down.
    ShutdownRequested,
}

/// The outcome of an update of the MOTD, and the MOTD after it.
pub open spec fn motd_update(current: Seq<char>, ping: MotdPing) -> (
    CCProxyResult<()>,
    Seq<char>,
) {
    match ping {
        MotdPing::Motd(motd) => (Ok(()), motd@),
        MotdPing::Unreadable => (Err(CCProxyError::UpstreamMotdInvalid), current),
        MotdPing::Failed { err } => (Err(CCProxyError::RakNet { err }), current),
        MotdPing::ShutdownRequested => (Ok(()), current),
    }
}

/// Takes over the MOTD that the upstream server told.
pub fn update_motd(motd: &mut String, ping: MotdPing) -> (res: CCProxyResult<()>)
    ensures
        (res, final(motd)@) == motd_update(old(motd)@, ping),
{
    match ping {
        MotdPing::Motd(new_motd) => {
            *motd = new_motd;
            Ok(())
        },
        MotdPing::Unreadable => Err(CCProxyError::UpstreamMotdInvalid),
        MotdPing::Failed { err } => Err(CCProxyError::RakNet { err }),
        MotdPing::ShutdownRequested => Ok(()),
    }
}

/// The advertised MOTD after an update: the fallback where the update failed.
pub open spec fn advertised_motd(
    current: Seq<char>,
    fallback: Seq<char>,
    ping: MotdPing,
) -> Seq<char> {
    match motd_update(current, ping) {
        (Ok(_), motd) => motd,
        (Err(_), _) => fallback,
    }
}

/// Brings the advertised MOTD up to date, and returns the error that made it fall
/// back to `fallback_motd`.
pub fn run_motd_updater(motd: &mut String, fallback_motd: &str, ping: MotdPing) -> (res:
    CCProxyResult<()>)
    ensures
        final(motd)@ == advertised_motd(old(motd)@, fallback_motd@, ping),
        res == motd_update(old(motd)@, ping).0,
{
    match update_motd(motd, ping) {
        Ok(_) => Ok(()),
        Err(err) => {
            *motd = fallback_motd.to_owned();
            Err(err)
        },
    }
}

/// What came of asking for the MOTD decides alone whether an update succeeds, and
/// only a MOTD that was told changes the one at hand.
pub proof fn law_motd_update(current: Seq<char>, told: String, err: RaknetError)
    ensures
        motd_update(current, MotdPing::Motd(told)) == (Ok::<(), CCProxyError>(()), told@),
        motd_update(current, MotdPing::Unreadable) == (
            Err::<(), CCProxyError>(CCProxyError::UpstreamMotdInvalid),
            current,
        ),
        motd_update(current, MotdPing::Failed { err }) == (
            Err::<(), CCProxyError>(CCProxyError::RakNet { err }),
            current,
        ),
        motd_update(current, MotdPing::ShutdownRequested) == (Ok::<(), CCProxyError>(()), current),
{
}

/// While the upstream server tells its MOTD, that is what is advertised; once it
/// cannot be asked or its MOTD cannot be read, the fallback is, whatever was
/// advertised before.
pub proof fn law_motd_in_step(current: Seq<char>, fallback: Seq<char>, ping: MotdPing)
    ensures
        ping matches MotdPing::Motd(motd) ==> advertised_motd(current, fallback, ping) == motd@,
        ping is Unreadable || ping is Failed ==> advertised_motd(current, fallback, ping)
            == fallback,
        ping is ShutdownRequested ==> advertised_motd(current, fallback, ping) == current,
{
}

} // verus!
