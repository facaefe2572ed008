use silk_client::connection::{
    Anomaly, AuthenticationRequest, Connection, ConnectionAction, ConnectionRequest,
    ConnectionStatus, IpAddress, PeerEvent, PeerId, PeerState, NEGOTIATION_ATTEMPTS,
};

fn connect_request() -> ConnectionRequest {
    ConnectionRequest::Connect {
        ip: IpAddress::V4(0x7f00_0001),
        port: 3536,
        secure: false,
        auth: AuthenticationRequest { credential: "guest".to_string() },
    }
}

fn reachable(id: u128) -> PeerEvent {
    PeerEvent { peer: PeerId { id }, state: PeerState::Connected }
}

fn unreachable(id: u128) -> PeerEvent {
    PeerEvent { peer: PeerId { id }, state: PeerState::Disconnected }
}

#[test]
fn starts_disconnected() {
    let c = Connection::new();
    assert_eq!(c.status(), ConnectionStatus::Disconnected);
    assert_eq!(c.host(), None);
}

#[test]
fn connect_starts_negotiation() {
    let mut c = Connection::new();
    match c.request(connect_request()) {
        ConnectionAction::StartNegotiation(plan) => {
            assert_eq!(plan.ip, IpAddress::V4(0x7f00_0001));
            assert_eq!(plan.port, 3536);
            assert!(!plan.secure);
            assert_eq!(plan.auth.credential, "guest");
            assert_eq!(plan.attempts, NEGOTIATION_ATTEMPTS);
            assert_eq!(plan.attempts, 3);
        }
        other => panic!("unexpected action {:?}", other),
    }
    assert_eq!(c.status(), ConnectionStatus::Connecting);
}

#[test]
fn connect_while_connecting_is_ignored() {
    let mut c = Connection::new();
    c.request(connect_request());
    assert!(matches!(c.request(connect_request()), ConnectionAction::Nothing));
    assert_eq!(c.status(), ConnectionStatus::Connecting);
}

#[test]
fn connect_reachable_unreachable_cycle() {
    let mut c = Connection::new();
    c.request(connect_request());
    assert!(matches!(c.peer_event(reachable(7)), ConnectionAction::HostConnected(PeerId { id: 7 })));
    assert_eq!(c.status(), ConnectionStatus::Connected(PeerId { id: 7 }));
    assert_eq!(c.host(), Some(PeerId { id: 7 }));
    assert!(matches!(c.peer_event(unreachable(7)), ConnectionAction::HostDisconnected(PeerId { id: 7 })));
    assert_eq!(c.status(), ConnectionStatus::Disconnected);
    assert_eq!(c.host(), None);
}

#[test]
fn unreachable_other_peer_is_an_anomaly() {
    let mut c = Connection::new();
    c.request(connect_request());
    c.peer_event(reachable(7));
    match c.peer_event(unreachable(8)) {
        ConnectionAction::Anomaly(a) => assert_eq!(a, Anomaly::UnknownPeerLost(PeerId { id: 8 })),
        other => panic!("unexpected action {:?}", other),
    }
    assert_eq!(c.status(), ConnectionStatus::Connected(PeerId { id: 7 }));
}

#[test]
fn second_reachable_peer_is_not_adopted() {
    let mut c = Connection::new();
    c.request(connect_request());
    c.peer_event(reachable(7));
    match c.peer_event(reachable(9)) {
        ConnectionAction::Anomaly(a) => assert_eq!(
            a,
            Anomaly::AlreadyConnected { host: PeerId { id: 7 }, peer: PeerId { id: 9 } }
        ),
        other => panic!("unexpected action {:?}", other),
    }
    assert_eq!(c.status(), ConnectionStatus::Connected(PeerId { id: 7 }));
}

#[test]
fn reachable_while_disconnected_is_an_anomaly() {
    let mut c = Connection::new();
    match c.peer_event(reachable(4)) {
        ConnectionAction::Anomaly(a) => assert_eq!(a, Anomaly::UnexpectedPeer(PeerId { id: 4 })),
        other => panic!("unexpected action {:?}", other),
    }
    assert_eq!(c.status(), ConnectionStatus::Disconnected);
}

#[test]
fn disconnect_when_disconnected_is_a_no_op() {
    let mut c = Connection::new();
    let a = c.request(ConnectionRequest::Disconnect { reason: None });
    assert!(matches!(a, ConnectionAction::Nothing));
    assert_eq!(c.status(), ConnectionStatus::Disconnected);
    let a = c.request(ConnectionRequest::Disconnect { reason: Some("again".to_string()) });
    assert!(matches!(a, ConnectionAction::Nothing));
    assert_eq!(c.status(), ConnectionStatus::Disconnected);
}

#[test]
fn disconnect_cancels_negotiation() {
    let mut c = Connection::new();
    c.request(connect_request());
    match c.request(ConnectionRequest::Disconnect { reason: Some("bye".to_string()) }) {
        ConnectionAction::CancelNegotiation { reason } => assert_eq!(reason, Some("bye".to_string())),
        other => panic!("unexpected action {:?}", other),
    }
    assert_eq!(c.status(), ConnectionStatus::Disconnected);

    c.request(connect_request());
    c.peer_event(reachable(1));
    assert!(matches!(
        c.request(ConnectionRequest::Disconnect { reason: None }),
        ConnectionAction::CancelNegotiation { reason: None }
    ));
    assert_eq!(c.status(), ConnectionStatus::Disconnected);
}

#[test]
fn negotiation_end_falls_back_to_disconnected() {
    let mut c = Connection::new();
    assert!(matches!(c.negotiation_ended(), ConnectionAction::NegotiationFailed));
    assert_eq!(c.status(), ConnectionStatus::Disconnected);
    c.request(connect_request());
    assert!(matches!(c.negotiation_ended(), ConnectionAction::NegotiationFailed));
    assert_eq!(c.status(), ConnectionStatus::Disconnected);
    c.request(connect_request());
    c.peer_event(reachable(3));
    assert!(matches!(c.negotiation_ended(), ConnectionAction::NegotiationFailed));
    assert_eq!(c.status(), ConnectionStatus::Disconnected);
}

#[test]
fn negotiation_end_after_host_loss_is_reported() {
    let mut c = Connection::new();
    c.request(connect_request());
    c.peer_event(reachable(3));
    c.peer_event(unreachable(3));
    assert_eq!(c.status(), ConnectionStatus::Disconnected);
    assert!(matches!(c.negotiation_ended(), ConnectionAction::NegotiationFailed));
    assert_eq!(c.status(), ConnectionStatus::Disconnected);
}

#[test]
fn peer_events_apply_in_order() {
    let mut c = Connection::new();
    c.request(connect_request());
    let actions = c.peer_events(&vec![reachable(5), reachable(6), unreachable(6), unreachable(5)]);
    assert_eq!(actions.len(), 4);
    assert!(matches!(actions[0], ConnectionAction::HostConnected(PeerId { id: 5 })));
    assert!(matches!(actions[1], ConnectionAction::Anomaly(Anomaly::AlreadyConnected { .. })));
    assert!(matches!(actions[2], ConnectionAction::Anomaly(Anomaly::UnknownPeerLost(PeerId { id: 6 }))));
    assert!(matches!(actions[3], ConnectionAction::HostDisconnected(PeerId { id: 5 })));
    assert_eq!(c.status(), ConnectionStatus::Disconnected);
}

#[test]
fn reconnect_after_disconnect() {
    let mut c = Connection::new();
    for round in 0..3u128 {
        assert!(matches!(c.request(connect_request()), ConnectionAction::StartNegotiation(_)));
        c.peer_event(reachable(round));
        assert_eq!(c.status(), ConnectionStatus::Connected(PeerId { id: round }));
        c.peer_event(unreachable(round));
        assert_eq!(c.status(), ConnectionStatus::Disconnected);
    }
}
