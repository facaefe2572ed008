//! The client context: the registry of message kinds and the connection
//! state machine, owned together and driven one tick phase at a time.
//!
//! A tick runs `update_peers`, then `read_incoming`, then the
//! application (`publish`, `drain_incoming`), then `flush`.
use vstd::prelude::*;
use crate::connection::{
    actions_after, request_action, request_next, status_after, Connection,
    ConnectionAction, ConnectionRequest, ConnectionStatus, PeerEvent, PeerId,
};
use crate::frame::MessageKind;
use crate::router::{
    after_flush, after_publish, after_read, after_registering, bytes_of, distinct, first_repeat_at,
    fresh_state, kind_index, kinds_of, registered, sent_packets, views_of, Delivery, KindState,
    OutgoingPacket, PacketView, Registry, RouterError,
};

verus! {

pub struct ClientView {
    pub kinds: Seq<KindState>,
    pub status: ConnectionStatus,
}

/// The host of a status, if one is adopted.
pub open spec fn host_of(s: ConnectionStatus) -> Option<PeerId> {
    match s {
        ConnectionStatus::Connected(p) => Some(p),
        _ => None,
    }
}

/// Declaring a message kind on a client, once, before its ticks start.
pub trait AddNetworkMessageExt: View<V = ClientView> + Sized {
    /// Registers `kind`; a kind declared already is a configuration error,
    /// and the client stays as it was.
    fn add_network_message(&mut self, kind: MessageKind) -> (r: Result<(), RouterError>)
        requires
            distinct(kinds_of(old(self)@.kinds)),
        ensures
            distinct(kinds_of(final(self)@.kinds)),
            final(self)@.status == old(self)@.status,
            r is Ok <==> !registered(old(self)@.kinds, kind),
            r is Ok ==> final(self)@.kinds == old(self)@.kinds.push(fresh_state(kind)),
            r is Err ==> r == Err::<(), RouterError>(RouterError::DuplicateRegistration(kind))
                && final(self)@ == old(self)@,
    ;
}

pub struct Client {
    router: Registry,
    connection: Connection,
}

impl View for Client {
    type V = ClientView;

    closed spec fn view(&self) -> ClientView {
        ClientView { kinds: self.router@, status: self.connection@ }
    }
}

impl AddNetworkMessageExt for Client {
    fn add_network_message(&mut self, kind: MessageKind) -> (r: Result<(), RouterError>) {
        self.register(kind)
    }
}

impl Client {
    /// No kind is registered twice.
    pub open spec fn wf(&self) -> bool {
        distinct(kinds_of(self@.kinds))
    }

    /// A client with no kind registered, disconnected.
    pub fn new() -> (r: Client)
        ensures
            r.wf(),
            r@.kinds == Seq::<KindState>::empty(),
            r@.status == ConnectionStatus::Disconnected,
    {
        Client { router: Registry::new(), connection: Connection::new() }
    }

    pub fn status(&self) -> (r: ConnectionStatus)
        ensures
            r == self@.status,
    {
        self.connection.status()
    }

    pub fn host(&self) -> (r: Option<PeerId>)
        ensures
            r == host_of(self@.status),
    {
        self.connection.host()
    }

    pub fn is_registered(&self, kind: MessageKind) -> (r: bool)
        requires
            self.wf(),
        ensures
            r == registered(self@.kinds, kind),
    {
        self.router.is_registered(kind)
    }

    /// Registers `kind`; fails on a kind registered already.
    pub fn register(&mut self, kind: MessageKind) -> (r: Result<(), RouterError>)
        requires
            old(self).wf(),
        ensures
            final(self).wf(),
            final(self)@.status == old(self)@.status,
            r is Ok <==> !registered(old(self)@.kinds, kind),
            r is Ok ==> final(self)@.kinds == old(self)@.kinds.push(fresh_state(kind)),
            r is Err ==> r == Err::<(), RouterError>(RouterError::DuplicateRegistration(kind))
                && final(self)@ == old(self)@,
    {
        self.router.register(kind)
    }

    /// Registers each of `kinds` in turn; fails at the first repeat, of an
    /// earlier one or of a kind registered already.
    pub fn register_all(&mut self, kinds: &Vec<MessageKind>) -> (r: Result<(), RouterError>)
        requires
            old(self).wf(),
        ensures
            final(self).wf(),
            final(self)@.status == old(self)@.status,
            r is Ok <==> distinct(kinds_of(old(self)@.kinds) + kinds@),
            r is Ok ==> final(self)@.kinds == after_registering(old(self)@.kinds, kinds@),
            r is Err ==> exists|j: int| #[trigger] first_repeat_at(old(self)@.kinds, kinds@, j)
                && r == Err::<(), RouterError>(RouterError::DuplicateRegistration(kinds@[j]))
                && final(self)@.kinds == after_registering(old(self)@.kinds, kinds@.take(j)),
    {
        self.router.register_all(kinds)
    }

    /// Applies a connection request of the application.
    pub fn request(&mut self, req: ConnectionRequest) -> (r: ConnectionAction)
        ensures
            final(self)@.kinds == old(self)@.kinds,
            final(self)@.status == request_next(old(self)@.status, req),
            r == request_action(old(self)@.status, req),
    {
        self.connection.request(req)
    }

    /// First phase of a tick: the transport's reachability notifications.
    pub fn update_peers(&mut self, events: &Vec<PeerEvent>) -> (r: Vec<ConnectionAction>)
        ensures
            final(self)@.kinds == old(self)@.kinds,
            final(self)@.status == status_after(old(self)@.status, events@),
            r@ == actions_after(old(self)@.status, events@),
    {
        self.connection.peer_events(events)
    }

    /// The negotiation task ended by itself; reported in every status.
    pub fn negotiation_ended(&mut self) -> (r: ConnectionAction)
        ensures
            final(self)@.kinds == old(self)@.kinds,
            final(self)@.status == ConnectionStatus::Disconnected,
            r == ConnectionAction::NegotiationFailed,
    {
        self.connection.negotiation_ended()
    }

    /// Second phase of a tick: routes the packets received on all channels,
    /// replacing what the incoming queues held.
    pub fn read_incoming(&mut self, packets: &Vec<Vec<u8>>)
        requires
            old(self).wf(),
        ensures
            final(self).wf(),
            final(self)@.status == old(self)@.status,
            final(self)@.kinds == after_read(old(self)@.kinds, bytes_of(packets@)),
    {
        self.router.read_incoming(packets)
    }

    /// The payloads of `kind` received by the last read phase, in receipt order.
    pub fn drain_incoming(&self, kind: MessageKind) -> (r: Result<&Vec<Vec<u8>>, RouterError>)
        requires
            self.wf(),
        ensures
            r is Ok <==> registered(self@.kinds, kind),
            match r {
                Ok(q) => bytes_of(q@) == self@.kinds[kind_index(self@.kinds, kind)].incoming,
                Err(e) => e == RouterError::UnregisteredKind(kind),
            },
    {
        self.router.drain_incoming(kind)
    }

    /// Queues `payload` as `kind` for the next flush, over `delivery`.
    pub fn publish(&mut self, kind: MessageKind, payload: Vec<u8>, delivery: Delivery) -> (r: Result<(), RouterError>)
        requires
            old(self).wf(),
        ensures
            final(self).wf(),
            final(self)@.status == old(self)@.status,
            r is Ok <==> registered(old(self)@.kinds, kind),
            r is Ok ==> final(self)@.kinds == after_publish(old(self)@.kinds, kind, delivery, payload@),
            r is Err ==> r == Err::<(), RouterError>(RouterError::UnregisteredKind(kind))
                && final(self)@ == old(self)@,
    {
        self.router.publish(kind, payload, delivery)
    }

    /// Last phase of a tick: the packets to send to the host (none when no
    /// host is adopted); every outgoing sequence is emptied.
    pub fn flush(&mut self) -> (r: Vec<OutgoingPacket>)
        requires
            old(self).wf(),
        ensures
            final(self).wf(),
            final(self)@.status == old(self)@.status,
            final(self)@.kinds == after_flush(old(self)@.kinds),
            views_of(r@) == match host_of(old(self)@.status) {
                Some(h) => sent_packets(old(self)@.kinds, h),
                None => Seq::<PacketView>::empty(),
            },
    {
        let host = self.connection.host();
        self.router.flush(host)
    }
}

} // verus!
