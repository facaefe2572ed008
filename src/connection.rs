//! The connection lifecycle: what the client wants, what it has, and how
//! transport notifications move it from one state to the next.
//!
//! Each handler is a pure decision: it takes the current status and an
//! event and gives the next status and the one action the caller must
//! perform (start or cancel negotiation, greet the host, report).
use vstd::prelude::*;

verus! {

/// Handle the transport gives the remote endpoint.
#[derive(Clone, Copy, Debug, PartialEq, Eq, Structural)]
pub struct PeerId {
    pub id: u128,
}

/// Address of the signaling server, as its bits.
#[derive(Clone, Copy, Debug, PartialEq, Eq, Structural)]
pub enum IpAddress {
    V4(u32),
    V6(u128),
}

/// Credential handed to the signaling server; opaque to the client.
#[derive(Clone, Debug)]
pub struct AuthenticationRequest {
    pub credential: String,
}

/// What the application wants of the connection.
#[derive(Clone, Debug)]
pub enum ConnectionRequest {
    /// Connect to the host through the signaling server at `ip` and `port`.
    Connect { ip: IpAddress, port: u16, secure: bool, auth: AuthenticationRequest },
    /// Leave the signaling server, and with it the host.
    Disconnect { reason: Option<String> },
}

/// What the client has of the connection.
#[derive(Clone, Copy, Debug, PartialEq, Eq, Structural)]
pub enum ConnectionStatus {
    Disconnected,
    Connecting,
    Connected(PeerId),
}

/// Reachability of a peer, as the transport reports it.
#[derive(Clone, Copy, Debug, PartialEq, Eq, Structural)]
pub enum PeerState {
    Connected,
    Disconnected,
}

/// One notification of the transport about one peer.
#[derive(Clone, Copy, Debug, PartialEq, Eq, Structural)]
pub struct PeerEvent {
    pub peer: PeerId,
    pub state: PeerState,
}

/// Number of negotiation attempts before the negotiation task gives up.
pub const NEGOTIATION_ATTEMPTS: u32 = 3;

/// Parameters of a signaling negotiation to start.
#[derive(Clone, Debug)]
pub struct NegotiationPlan {
    pub ip: IpAddress,
    pub port: u16,
    pub secure: bool,
    pub auth: AuthenticationRequest,
    pub attempts: u32,
}

/// An event the protocol does not expect; reported, never adopted.
#[derive(Clone, Copy, Debug, PartialEq, Eq, Structural)]
pub enum Anomaly {
    /// `peer` became reachable while `host` is adopted already.
    AlreadyConnected { host: PeerId, peer: PeerId },
    /// `peer` became reachable while no negotiation is running.
    UnexpectedPeer(PeerId),
    /// `peer`, which is not the host, became unreachable.
    UnknownPeerLost(PeerId),
}

/// What the caller must do after a transition.
#[derive(Clone, Debug)]
pub enum ConnectionAction {
    Nothing,
    /// Start a negotiation task with this plan.
    StartNegotiation(NegotiationPlan),
    /// Cancel the running negotiation task.
    CancelNegotiation { reason: Option<String> },
    /// `peer` was adopted as the host.
    HostConnected(PeerId),
    /// The host `peer` became unreachable; its negotiation task is done with.
    HostDisconnected(PeerId),
    /// The negotiation task ended on its own (attempts exhausted).
    NegotiationFailed,
    Anomaly(Anomaly),
}

pub open spec fn request_next(s: ConnectionStatus, req: ConnectionRequest) -> ConnectionStatus {
    match req {
        ConnectionRequest::Connect { .. } => if s is Disconnected {
            ConnectionStatus::Connecting
        } else {
            s
        },
        ConnectionRequest::Disconnect { .. } => ConnectionStatus::Disconnected,
    }
}

pub open spec fn request_action(s: ConnectionStatus, req: ConnectionRequest) -> ConnectionAction {
    match req {
        ConnectionRequest::Connect { ip, port, secure, auth } => if s is Disconnected {
            ConnectionAction::StartNegotiation(
                NegotiationPlan { ip, port, secure, auth, attempts: NEGOTIATION_ATTEMPTS },
            )
        } else {
            ConnectionAction::Nothing
        },
        ConnectionRequest::Disconnect { reason } => if s is Disconnected {
            ConnectionAction::Nothing
        } else {
            ConnectionAction::CancelNegotiation { reason }
        },
    }
}

pub open spec fn peer_next(s: ConnectionStatus, e: PeerEvent) -> ConnectionStatus {
    match e.state {
        PeerState::Connected => if s is Connecting {
            ConnectionStatus::Connected(e.peer)
        } else {
            s
        },
        PeerState::Disconnected => if s == ConnectionStatus::Connected(e.peer) {
            ConnectionStatus::Disconnected
        } else {
            s
        },
    }
}

pub open spec fn peer_action(s: ConnectionStatus, e: PeerEvent) -> ConnectionAction {
    match e.state {
        PeerState::Connected => match s {
            ConnectionStatus::Connecting => ConnectionAction::HostConnected(e.peer),
            ConnectionStatus::Connected(host) => ConnectionAction::Anomaly(
                Anomaly::AlreadyConnected { host, peer: e.peer },
            ),
            ConnectionStatus::Disconnected => ConnectionAction::Anomaly(Anomaly::UnexpectedPeer(e.peer)),
        },
        PeerState::Disconnected => if s == ConnectionStatus::Connected(e.peer) {
            ConnectionAction::HostDisconnected(e.peer)
        } else {
            ConnectionAction::Anomaly(Anomaly::UnknownPeerLost(e.peer))
        },
    }
}

/// Status after each of `events` in turn.
pub open spec fn status_after(s: ConnectionStatus, events: Seq<PeerEvent>) -> ConnectionStatus
    decreases events.len(),
{
    if events.len() == 0 {
        s
    } else {
        peer_next(status_after(s, events.drop_last()), events.last())
    }
}

/// Actions for each of `events` in turn.
pub open spec fn actions_after(s: ConnectionStatus, events: Seq<PeerEvent>) -> Seq<ConnectionAction>
    decreases events.len(),
{
    if events.len() == 0 {
        Seq::empty()
    } else {
        actions_after(s, events.drop_last()).push(
            peer_action(status_after(s, events.drop_last()), events.last()),
        )
    }
}

/// From Disconnected, a connect request starts negotiating; the first peer
/// reported reachable becomes the host, and a second one is reported, not
/// adopted; the host becoming unreachable disconnects, while another peer
/// becoming unreachable leaves the host in place and is reported.
pub proof fn lemma_connect_cycle(req: ConnectionRequest, peer: PeerId, other: PeerId)
    requires
        req is Connect,
        other != peer,
    ensures
        request_next(ConnectionStatus::Disconnected, req) == ConnectionStatus::Connecting,
        request_action(ConnectionStatus::Disconnected, req) is StartNegotiation,
        peer_next(ConnectionStatus::Connecting, PeerEvent { peer, state: PeerState::Connected })
            == ConnectionStatus::Connected(peer),
        peer_action(ConnectionStatus::Connecting, PeerEvent { peer, state: PeerState::Connected })
            == ConnectionAction::HostConnected(peer),
        peer_next(ConnectionStatus::Connected(peer), PeerEvent { peer: other, state: PeerState::Connected })
            == ConnectionStatus::Connected(peer),
        peer_action(ConnectionStatus::Connected(peer), PeerEvent { peer: other, state: PeerState::Connected })
            == ConnectionAction::Anomaly(Anomaly::AlreadyConnected { host: peer, peer: other }),
        peer_next(ConnectionStatus::Connected(peer), PeerEvent { peer, state: PeerState::Disconnected })
            == ConnectionStatus::Disconnected,
        peer_action(ConnectionStatus::Connected(peer), PeerEvent { peer, state: PeerState::Disconnected })
            == ConnectionAction::HostDisconnected(peer),
        peer_next(ConnectionStatus::Connected(peer), PeerEvent { peer: other, state: PeerState::Disconnected })
            == ConnectionStatus::Connected(peer),
        peer_action(ConnectionStatus::Connected(peer), PeerEvent { peer: other, state: PeerState::Disconnected })
            == ConnectionAction::Anomaly(Anomaly::UnknownPeerLost(other)),
{
}

/// A disconnect request while disconnected changes nothing and asks for
/// nothing: there is no negotiation to cancel.
pub proof fn lemma_disconnect_when_disconnected(reason: Option<String>)
    ensures
        request_next(ConnectionStatus::Disconnected, ConnectionRequest::Disconnect { reason })
            == ConnectionStatus::Disconnected,
        request_action(ConnectionStatus::Disconnected, ConnectionRequest::Disconnect { reason })
            == ConnectionAction::Nothing,
{
}

/// Whatever the status, a disconnect request ends in Disconnected, and the
/// negotiation is cancelled exactly when one was running.
pub proof fn lemma_disconnect_always_disconnects(s: ConnectionStatus, reason: Option<String>)
    ensures
        request_next(s, ConnectionRequest::Disconnect { reason }) == ConnectionStatus::Disconnected,
        request_action(s, ConnectionRequest::Disconnect { reason }) is CancelNegotiation
            <==> !(s is Disconnected),
{
}

/// The connection state machine.
pub struct Connection {
    status: ConnectionStatus,
}

impl View for Connection {
    type V = ConnectionStatus;

    closed spec fn view(&self) -> ConnectionStatus {
        self.status
    }
}

impl Connection {
    pub fn new() -> (r: Connection)
        ensures
            r@ == ConnectionStatus::Disconnected,
    {
        Connection { status: ConnectionStatus::Disconnected }
    }

    pub fn status(&self) -> (r: ConnectionStatus)
        ensures
            r == self@,
    {
        self.status
    }

    /// The adopted host, if any.
    pub fn host(&self) -> (r: Option<PeerId>)
        ensures
            r == match self@ {
                ConnectionStatus::Connected(p) => Some(p),
                _ => None::<PeerId>,
            },
    {
        match self.status {
            ConnectionStatus::Connected(p) => Some(p),
            _ => None,
        }
    }

    /// Applies a request of the application.
    pub fn request(&mut self, req: ConnectionRequest) -> (r: ConnectionAction)
        ensures
            final(self)@ == request_next(old(self)@, req),
            r == request_action(old(self)@, req),
    {
        match req {
            ConnectionRequest::Connect { ip, port, secure, auth } => {
                if self.status == ConnectionStatus::Disconnected {
                    self.status = ConnectionStatus::Connecting;
                    ConnectionAction::StartNegotiation(
                        NegotiationPlan { ip, port, secure, auth, attempts: NEGOTIATION_ATTEMPTS },
                    )
                } else {
                    ConnectionAction::Nothing
                }
            },
            ConnectionRequest::Disconnect { reason } => {
                if self.status == ConnectionStatus::Disconnected {
                    ConnectionAction::Nothing
                } else {
                    self.status = ConnectionStatus::Disconnected;
                    ConnectionAction::CancelNegotiation { reason }
                }
            },
        }
    }

    /// Applies one reachability notification of the transport.
    pub fn peer_event(&mut self, e: PeerEvent) -> (r: ConnectionAction)
        ensures
            final(self)@ == peer_next(old(self)@, e),
            r == peer_action(old(self)@, e),
    {
        match e.state {
            PeerState::Connected => match self.status {
                ConnectionStatus::Connecting => {
                    self.status = ConnectionStatus::Connected(e.peer);
                    ConnectionAction::HostConnected(e.peer)
                },
                ConnectionStatus::Connected(host) => ConnectionAction::Anomaly(
                    Anomaly::AlreadyConnected { host, peer: e.peer },
                ),
                ConnectionStatus::Disconnected => ConnectionAction::Anomaly(Anomaly::UnexpectedPeer(e.peer)),
            },
            PeerState::Disconnected => {
                if self.status == ConnectionStatus::Connected(e.peer) {
                    self.status = ConnectionStatus::Disconnected;
                    ConnectionAction::HostDisconnected(e.peer)
                } else {
                    ConnectionAction::Anomaly(Anomaly::UnknownPeerLost(e.peer))
                }
            },
        }
    }

    /// Applies the reachability notifications of one poll, in order.
    pub fn peer_events(&mut self, events: &Vec<PeerEvent>) -> (r: Vec<ConnectionAction>)
        ensures
            final(self)@ == status_after(old(self)@, events@),
            r@ == actions_after(old(self)@, events@),
    {
        let ghost start = self@;
        let mut out: Vec<ConnectionAction> = Vec::new();
        let mut i: usize = 0;
        assert(events@.take(0) =~= Seq::<PeerEvent>::empty());
        while i < events.len()
            invariant
                start == old(self)@,
                i <= events@.len(),
                self@ == status_after(start, events@.take(i as int)),
                out@ == actions_after(start, events@.take(i as int)),
            decreases events@.len() - i,
        {
            let a = self.peer_event(events[i]);
            out.push(a);
            assert(events@.take(i + 1).drop_last() =~= events@.take(i as int));
            i = i + 1;
        }
        assert(events@.take(i as int) =~= events@);
        out
    }

    /// The negotiation task ended by itself: back to Disconnected, and the
    /// ending is reported whatever the status was.
    pub fn negotiation_ended(&mut self) -> (r: ConnectionAction)
        ensures
            final(self)@ == ConnectionStatus::Disconnected,
            r == ConnectionAction::NegotiationFailed,
    {
        self.status = ConnectionStatus::Disconnected;
        ConnectionAction::NegotiationFailed
    }
}

} // verus!
