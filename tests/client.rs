use silk_client::client::{AddNetworkMessageExt, Client};
use silk_client::connection::{
    AuthenticationRequest, ConnectionRequest, ConnectionStatus, IpAddress, PeerEvent, PeerId,
    PeerState,
};
use silk_client::frame::encode_frame;
use silk_client::router::{Delivery, Registry, RouterError};

const CHAT: u16 = 1;
const MOVE: u16 = 2;

fn connected_client(host: u128) -> Client {
    let mut c = Client::new();
    c.request(ConnectionRequest::Connect {
        ip: IpAddress::V6(1),
        port: 443,
        secure: true,
        auth: AuthenticationRequest { credential: "token".to_string() },
    });
    c.update_peers(&vec![PeerEvent { peer: PeerId { id: host }, state: PeerState::Connected }]);
    c
}

#[test]
fn chat_scenario_over_two_ticks() {
    let host = PeerId { id: 42 };
    let mut c = connected_client(42);
    assert_eq!(c.register(CHAT), Ok(()));

    // tick 1
    c.update_peers(&vec![]);
    c.read_incoming(&vec![]);
    assert_eq!(c.drain_incoming(CHAT), Ok(&vec![]));
    assert_eq!(c.publish(CHAT, b"hello".to_vec(), Delivery::Reliable), Ok(()));
    let sent = c.flush();
    assert_eq!(sent.len(), 1);
    assert_eq!(sent[0].delivery, Delivery::Reliable);
    assert_eq!(sent[0].delivery.channel(), 1);
    assert_eq!(sent[0].peer, host);
    assert_eq!(sent[0].bytes, encode_frame(CHAT, &b"hello".to_vec()));

    // tick 2
    c.update_peers(&vec![]);
    c.read_incoming(&vec![encode_frame(CHAT, &b"hi there".to_vec())]);
    assert_eq!(c.drain_incoming(CHAT), Ok(&vec![b"hi there".to_vec()]));
    assert_eq!(c.flush().len(), 0);
}

#[test]
fn registering_distinct_kinds_succeeds() {
    let mut c = Client::new();
    assert_eq!(c.register_all(&vec![1, 2, 3]), Ok(()));
    assert!(c.is_registered(1) && c.is_registered(2) && c.is_registered(3));
    assert!(!c.is_registered(4));
}

#[test]
fn registering_a_repeat_fails_at_the_first_repeat() {
    let mut c = Client::new();
    assert_eq!(
        c.register_all(&vec![5, 6, 6, 5]),
        Err(RouterError::DuplicateRegistration(6))
    );
    assert!(c.is_registered(5) && c.is_registered(6));

    let mut c = Client::new();
    assert_eq!(c.register(9), Ok(()));
    assert_eq!(
        c.register_all(&vec![8, 9, 7]),
        Err(RouterError::DuplicateRegistration(9))
    );
    assert!(c.is_registered(8));
    assert!(!c.is_registered(7));
}

#[test]
fn registering_twice_is_a_configuration_error() {
    let mut c = Client::new();
    assert_eq!(c.add_network_message(CHAT), Ok(()));
    assert_eq!(c.add_network_message(CHAT), Err(RouterError::DuplicateRegistration(CHAT)));
    assert_eq!(c.add_network_message(MOVE), Ok(()));
}

#[test]
fn unregistered_kind_is_refused() {
    let mut c = Client::new();
    assert_eq!(c.drain_incoming(3), Err(RouterError::UnregisteredKind(3)));
    assert_eq!(
        c.publish(3, vec![1], Delivery::Unreliable),
        Err(RouterError::UnregisteredKind(3))
    );
}

#[test]
fn read_demultiplexes_by_kind_in_receipt_order() {
    let mut c = Client::new();
    c.register_all(&vec![CHAT, MOVE]).unwrap();
    c.read_incoming(&vec![
        encode_frame(MOVE, &vec![1]),
        encode_frame(CHAT, &vec![2]),
        vec![0],
        encode_frame(99, &vec![3]),
        encode_frame(MOVE, &vec![4]),
    ]);
    assert_eq!(c.drain_incoming(MOVE), Ok(&vec![vec![1], vec![4]]));
    assert_eq!(c.drain_incoming(CHAT), Ok(&vec![vec![2]]));
    // a second read of the same tick gives the same contents
    assert_eq!(c.drain_incoming(MOVE), Ok(&vec![vec![1], vec![4]]));
}

#[test]
fn read_replaces_rather_than_accumulates() {
    let mut c = Client::new();
    c.register(CHAT).unwrap();
    c.read_incoming(&vec![encode_frame(CHAT, &vec![1])]);
    c.read_incoming(&vec![encode_frame(CHAT, &vec![2])]);
    assert_eq!(c.drain_incoming(CHAT), Ok(&vec![vec![2]]));
    c.read_incoming(&vec![]);
    assert_eq!(c.drain_incoming(CHAT), Ok(&vec![]));
}

#[test]
fn flush_keeps_order_and_splits_channels() {
    let mut c = connected_client(3);
    c.register_all(&vec![CHAT, MOVE]).unwrap();
    c.publish(MOVE, vec![10], Delivery::Unreliable).unwrap();
    c.publish(CHAT, vec![20], Delivery::Reliable).unwrap();
    c.publish(MOVE, vec![11], Delivery::Reliable).unwrap();
    c.publish(CHAT, vec![21], Delivery::Reliable).unwrap();
    let sent = c.flush();
    let got: Vec<(Delivery, Vec<u8>)> = sent.iter().map(|p| (p.delivery, p.bytes.clone())).collect();
    assert_eq!(
        got,
        vec![
            (Delivery::Reliable, encode_frame(CHAT, &vec![20])),
            (Delivery::Reliable, encode_frame(CHAT, &vec![21])),
            (Delivery::Reliable, encode_frame(MOVE, &vec![11])),
            (Delivery::Unreliable, encode_frame(MOVE, &vec![10])),
        ]
    );
    assert!(sent.iter().all(|p| p.peer == PeerId { id: 3 }));
    assert_eq!(c.flush().len(), 0);
}

#[test]
fn reliable_publish_never_goes_unreliable() {
    let mut c = connected_client(8);
    c.register(CHAT).unwrap();
    c.publish(CHAT, b"x".to_vec(), Delivery::Reliable).unwrap();
    let sent = c.flush();
    assert_eq!(sent.iter().filter(|p| p.delivery == Delivery::Unreliable).count(), 0);
    assert_eq!(sent.iter().filter(|p| p.delivery == Delivery::Reliable).count(), 1);
}

#[test]
fn flush_without_host_sends_nothing_and_clears() {
    let mut c = Client::new();
    c.register(CHAT).unwrap();
    c.publish(CHAT, vec![1], Delivery::Reliable).unwrap();
    c.publish(CHAT, vec![2], Delivery::Unreliable).unwrap();
    assert_eq!(c.flush().len(), 0);
    assert_eq!(c.status(), ConnectionStatus::Disconnected);

    // what was queued while disconnected is not sent later
    let mut c2 = connected_client(1);
    c2.register(CHAT).unwrap();
    assert_eq!(c2.flush().len(), 0);
}

#[test]
fn host_loss_stops_sending() {
    let mut c = connected_client(6);
    c.register(CHAT).unwrap();
    assert_eq!(c.host(), Some(PeerId { id: 6 }));
    c.update_peers(&vec![PeerEvent { peer: PeerId { id: 6 }, state: PeerState::Disconnected }]);
    assert_eq!(c.host(), None);
    c.publish(CHAT, vec![1], Delivery::Reliable).unwrap();
    assert_eq!(c.flush().len(), 0);
}

#[test]
fn negotiation_end_disconnects_client() {
    let mut c = connected_client(2);
    c.negotiation_ended();
    assert_eq!(c.status(), ConnectionStatus::Disconnected);
}

#[test]
fn registry_alone_routes_and_flushes() {
    let mut r = Registry::new();
    r.register(CHAT).unwrap();
    r.publish(CHAT, vec![5], Delivery::Unreliable).unwrap();
    let sent = r.flush(Some(PeerId { id: 11 }));
    assert_eq!(sent.len(), 1);
    assert_eq!(sent[0].delivery, Delivery::Unreliable);
    assert_eq!(sent[0].delivery.channel(), 0);
    assert_eq!(sent[0].bytes, vec![0, 1, 5]);
    assert_eq!(r.flush(None).len(), 0);
}
