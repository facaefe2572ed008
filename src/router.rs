//! The typed message registry: one incoming queue and one outgoing queue
//! pair per registered message kind.
use vstd::prelude::*;
use crate::connection::PeerId;
use crate::frame::{decode_frame, encode_frame, frame_bytes, frame_kind, frame_payload, is_frame, MessageKind};

verus! {

/// Delivery guarantee of an outgoing message, and the transport channel that carries it.
#[derive(Clone, Copy, Debug, PartialEq, Eq, Structural)]
pub enum Delivery {
    Unreliable,
    Reliable,
}

impl Delivery {
    /// Index of the transport channel of this guarantee.
    pub open spec fn spec_channel(self) -> usize {
        match self {
            Delivery::Unreliable => 0,
            Delivery::Reliable => 1,
        }
    }

    #[verifier::when_used_as_spec(spec_channel)]
    pub fn channel(self) -> (r: usize)
        ensures
            r == self.spec_channel(),
    {
        match self {
            Delivery::Unreliable => 0,
            Delivery::Reliable => 1,
        }
    }
}

#[derive(Clone, Copy, Debug, PartialEq, Eq, Structural)]
pub enum RouterError {
    /// The kind was registered already: a configuration error.
    DuplicateRegistration(MessageKind),
    /// The kind was never registered.
    UnregisteredKind(MessageKind),
}

/// What the registry holds for one kind.
pub struct KindState {
    pub kind: MessageKind,
    pub incoming: Seq<Seq<u8>>,
    pub reliable: Seq<Seq<u8>>,
    pub unreliable: Seq<Seq<u8>>,
}

/// The state of a kind just registered: all three queues empty.
pub open spec fn fresh_state(kind: MessageKind) -> KindState {
    KindState { kind, incoming: Seq::empty(), reliable: Seq::empty(), unreliable: Seq::empty() }
}

pub open spec fn bytes_of(v: Seq<Vec<u8>>) -> Seq<Seq<u8>> {
    v.map_values(|b: Vec<u8>| b@)
}

pub open spec fn kinds_of(v: Seq<KindState>) -> Seq<MessageKind> {
    v.map_values(|q: KindState| q.kind)
}

pub open spec fn distinct(s: Seq<MessageKind>) -> bool {
    forall|i: int, j: int| 0 <= i < j < s.len() ==> s[i] != s[j]
}

pub open spec fn registered(v: Seq<KindState>, kind: MessageKind) -> bool {
    exists|i: int| 0 <= i < v.len() && v[i].kind == kind
}

/// Position of `kind` in the registry; meaningful where it is registered.
pub open spec fn kind_index(v: Seq<KindState>, kind: MessageKind) -> int {
    choose|i: int| 0 <= i < v.len() && v[i].kind == kind
}

/// `q` with `payload` appended to its outgoing sequence of `delivery`.
pub open spec fn with_published(q: KindState, delivery: Delivery, payload: Seq<u8>) -> KindState {
    match delivery {
        Delivery::Reliable => KindState { reliable: q.reliable.push(payload), ..q },
        Delivery::Unreliable => KindState { unreliable: q.unreliable.push(payload), ..q },
    }
}

/// The registry after `payload` is published as `kind` with `delivery`.
pub open spec fn after_publish(v: Seq<KindState>, kind: MessageKind, delivery: Delivery, payload: Seq<u8>) -> Seq<KindState> {
    v.map_values(|q: KindState| if q.kind == kind { with_published(q, delivery, payload) } else { q })
}

/// The registry after registering each of `kinds` in turn.
pub open spec fn after_registering(v: Seq<KindState>, kinds: Seq<MessageKind>) -> Seq<KindState> {
    v + kinds.map_values(|k: MessageKind| fresh_state(k))
}

/// `kinds` holds a repeat at `j`, and none before: registering it fails there.
pub open spec fn first_repeat_at(v: Seq<KindState>, kinds: Seq<MessageKind>, j: int) -> bool {
    &&& 0 <= j < kinds.len()
    &&& distinct(kinds_of(v) + kinds.take(j))
    &&& (kinds_of(v) + kinds.take(j)).contains(kinds[j])
}

/// Payloads, in receipt order, of the frames among `packets` that carry `kind`.
pub open spec fn payloads_of(packets: Seq<Seq<u8>>, kind: MessageKind) -> Seq<Seq<u8>>
    decreases packets.len(),
{
    if packets.len() == 0 {
        Seq::empty()
    } else {
        let init = payloads_of(packets.drop_last(), kind);
        let last = packets.last();
        if is_frame(last) && frame_kind(last) == kind {
            init.push(frame_payload(last))
        } else {
            init
        }
    }
}

/// The registry after a read phase that received `packets`: each incoming
/// queue holds what this read brought for its kind, and nothing older.
pub open spec fn after_read(v: Seq<KindState>, packets: Seq<Seq<u8>>) -> Seq<KindState> {
    v.map_values(|q: KindState| KindState { incoming: payloads_of(packets, q.kind), ..q })
}

/// A frame handed to the transport, with its channel and destination.
pub struct OutgoingPacket {
    pub delivery: Delivery,
    pub peer: PeerId,
    pub bytes: Vec<u8>,
}

pub struct PacketView {
    pub delivery: Delivery,
    pub peer: PeerId,
    pub bytes: Seq<u8>,
}

impl View for OutgoingPacket {
    type V = PacketView;

    open spec fn view(&self) -> PacketView {
        PacketView { delivery: self.delivery, peer: self.peer, bytes: self.bytes@ }
    }
}

pub open spec fn views_of(v: Seq<OutgoingPacket>) -> Seq<PacketView> {
    v.map_values(|p: OutgoingPacket| p@)
}

pub open spec fn packet(delivery: Delivery, peer: PeerId, kind: MessageKind, payload: Seq<u8>) -> PacketView {
    PacketView { delivery, peer, bytes: frame_bytes(kind, payload) }
}

/// The packets of `payloads`, framed as `kind`, for `peer` over `delivery`.
pub open spec fn packets(payloads: Seq<Seq<u8>>, delivery: Delivery, peer: PeerId, kind: MessageKind) -> Seq<PacketView> {
    payloads.map_values(|p: Seq<u8>| packet(delivery, peer, kind, p))
}

/// What a flush sends of one kind: its reliable sequence, then its unreliable one.
pub open spec fn kind_packets(q: KindState, host: PeerId) -> Seq<PacketView> {
    packets(q.reliable, Delivery::Reliable, host, q.kind) + packets(q.unreliable, Delivery::Unreliable, host, q.kind)
}

/// What a flush sends to `host`, kind by kind in order of registration.
pub open spec fn sent_packets(v: Seq<KindState>, host: PeerId) -> Seq<PacketView>
    decreases v.len(),
{
    if v.len() == 0 {
        Seq::empty()
    } else {
        sent_packets(v.drop_last(), host) + kind_packets(v.last(), host)
    }
}

/// `q` with both outgoing sequences emptied.
pub open spec fn flushed(q: KindState) -> KindState {
    KindState { reliable: Seq::empty(), unreliable: Seq::empty(), ..q }
}

pub open spec fn after_flush(v: Seq<KindState>) -> Seq<KindState> {
    v.map_values(|q: KindState| flushed(q))
}

/// Frames each of `payloads` as `kind` and appends it to `out`, for `peer` over `delivery`.
fn append_packets(out: &mut Vec<OutgoingPacket>, payloads: &Vec<Vec<u8>>, delivery: Delivery, peer: PeerId, kind: MessageKind)
    ensures
        views_of(final(out)@) == views_of(old(out)@) + packets(bytes_of(payloads@), delivery, peer, kind),
{
    let ghost start = views_of(out@);
    let mut k: usize = 0;
    while k < payloads.len()
        invariant
            k <= payloads@.len(),
            views_of(out@) == start + packets(bytes_of(payloads@.take(k as int)), delivery, peer, kind),
        decreases payloads@.len() - k,
    {
        let ghost before = out@;
        let bytes = encode_frame(kind, &payloads[k]);
        out.push(OutgoingPacket { delivery, peer, bytes });
        assert(bytes_of(payloads@.take(k + 1)) =~= bytes_of(payloads@.take(k as int)).push(payloads@[k as int]@));
        assert(views_of(out@) =~= views_of(before).push(packet(delivery, peer, kind, payloads@[k as int]@)));
        assert(views_of(out@) =~= start + packets(bytes_of(payloads@.take(k + 1)), delivery, peer, kind));
        k = k + 1;
    }
    assert(payloads@.take(k as int) =~= payloads@);
}

/// Registering a sequence of kinds one by one on a well-formed registry
/// fails at most once: there is a first repeat exactly when the kinds,
/// together with those registered already, are not all distinct, and there
/// is only one such position.
pub proof fn lemma_registration_fails_once(v: Seq<KindState>, kinds: Seq<MessageKind>)
    requires
        distinct(kinds_of(v)),
    ensures
        distinct(kinds_of(v) + kinds) <==> !(exists|j: int| first_repeat_at(v, kinds, j)),
        forall|j1: int, j2: int|
            first_repeat_at(v, kinds, j1) && first_repeat_at(v, kinds, j2) ==> j1 == j2,
    decreases kinds.len(),
{
    let p = kinds_of(v);
    assert forall|j1: int, j2: int|
        first_repeat_at(v, kinds, j1) && first_repeat_at(v, kinds, j2) implies j1 == j2 by {
        if j1 != j2 {
            let (a, b) = if j1 < j2 { (j1, j2) } else { (j2, j1) };
            let q = p + kinds.take(a);
            let r = p + kinds.take(b);
            let m = choose|m: int| 0 <= m < q.len() && q[m] == kinds[a];
            assert(r[m] == q[m]);
            assert(r[p.len() + a] == kinds[a]);
        }
    }
    assert forall|j: int| first_repeat_at(v, kinds, j) implies !distinct(p + kinds) by {
        let q = p + kinds.take(j);
        let f = p + kinds;
        let m = choose|m: int| 0 <= m < q.len() && q[m] == kinds[j];
        assert(f[m] == q[m]);
        assert(f[p.len() + j] == kinds[j]);
    }
    if !distinct(p + kinds) {
        let init = kinds.drop_last();
        if distinct(p + init) {
            let j = kinds.len() - 1;
            let f = p + kinds;
            let (a, b) = choose|a: int, b: int| 0 <= a < b < f.len() && f[a] == f[b];
            assert(kinds.take(j) =~= init);
            if b < f.len() - 1 {
                assert((p + init)[a] == f[a]);
                assert((p + init)[b] == f[b]);
            }
            assert(f[b] == kinds[j]);
            assert((p + init)[a] == f[a]);
            assert(first_repeat_at(v, kinds, j));
        } else {
            lemma_registration_fails_once(v, init);
            let j = choose|j: int| first_repeat_at(v, init, j);
            assert(init.take(j) =~= kinds.take(j));
            assert(init[j] == kinds[j]);
            assert(first_repeat_at(v, kinds, j));
        }
    }
}

/// The packets of `s` that travel over `delivery`, in order.
pub open spec fn on_channel(s: Seq<PacketView>, delivery: Delivery) -> Seq<PacketView> {
    s.filter(|p: PacketView| p.delivery == delivery)
}

/// With no packet of `kind` received, a read leaves nothing for `kind`.
proof fn lemma_no_payloads(packets: Seq<Seq<u8>>, kind: MessageKind)
    requires
        forall|i: int| 0 <= i < packets.len() ==> !(is_frame(packets[i]) && frame_kind(packets[i]) == kind),
    ensures
        payloads_of(packets, kind) == Seq::<Seq<u8>>::empty(),
    decreases packets.len(),
{
    if packets.len() > 0 {
        let init = packets.drop_last();
        assert forall|i: int| 0 <= i < init.len() implies !(is_frame(init[i]) && frame_kind(init[i]) == kind) by {
            assert(init[i] == packets[i]);
        }
        lemma_no_payloads(init, kind);
        assert(packets.last() == packets[packets.len() - 1]);
    }
}

/// After a read phase, the incoming queue of a registered kind holds exactly
/// the payloads of the packets of that kind that the read received, in
/// receipt order, and nothing when none of them carried that kind.
pub proof fn lemma_read_then_drain(v: Seq<KindState>, packets: Seq<Seq<u8>>, kind: MessageKind)
    requires
        distinct(kinds_of(v)),
        registered(v, kind),
    ensures
        registered(after_read(v, packets), kind),
        after_read(v, packets)[kind_index(after_read(v, packets), kind)].incoming == payloads_of(packets, kind),
        (forall|i: int| 0 <= i < packets.len() ==> !(is_frame(packets[i]) && frame_kind(packets[i]) == kind))
            ==> after_read(v, packets)[kind_index(after_read(v, packets), kind)].incoming
            == Seq::<Seq<u8>>::empty(),
{
    let w = after_read(v, packets);
    let i = choose|i: int| 0 <= i < v.len() && v[i].kind == kind;
    assert(w[i].kind == kind);
    let k = kind_index(w, kind);
    assert(w[k].kind == v[k].kind);
    if (forall|i: int| 0 <= i < packets.len() ==> !(is_frame(packets[i]) && frame_kind(packets[i]) == kind)) {
        lemma_no_payloads(packets, kind);
    }
}

/// A sequence of packets over one channel has nothing on the other.
proof fn lemma_other_channel_empty(payloads: Seq<Seq<u8>>, delivery: Delivery, other: Delivery, peer: PeerId, kind: MessageKind)
    requires
        delivery != other,
    ensures
        on_channel(packets(payloads, delivery, peer, kind), other) == Seq::<PacketView>::empty(),
{
    let s = packets(payloads, delivery, peer, kind);
    let pred = |p: PacketView| p.delivery == other;
    let f = s.filter(pred);
    if f.len() > 0 {
        s.lemma_filter_pred(pred, 0);
        assert(f.contains(f[0]));
        s.lemma_filter_contains_rev(pred, f[0]);
    }
    assert(f =~= Seq::<PacketView>::empty());
}

/// Every packet of every kind is among what a flush sends.
proof fn lemma_sent_contains(w: Seq<KindState>, host: PeerId, j: int, k: int)
    requires
        0 <= j < w.len(),
        0 <= k < kind_packets(w[j], host).len(),
    ensures
        sent_packets(w, host).contains(kind_packets(w[j], host)[k]),
    decreases w.len(),
{
    let init = sent_packets(w.drop_last(), host);
    let s = sent_packets(w, host);
    if j == w.len() - 1 {
        assert(s[init.len() + k] == kind_packets(w[j], host)[k]);
    } else {
        assert(w.drop_last()[j] == w[j]);
        lemma_sent_contains(w.drop_last(), host, j, k);
        let t = choose|t: int| 0 <= t < init.len() && init[t] == kind_packets(w[j], host)[k];
        assert(s[t] == init[t]);
    }
}

/// Publishing reliably leaves the unreliable channel of a flush as it was.
proof fn lemma_reliable_publish_keeps_unreliable(v: Seq<KindState>, kind: MessageKind, payload: Seq<u8>, host: PeerId)
    ensures
        on_channel(sent_packets(after_publish(v, kind, Delivery::Reliable, payload), host), Delivery::Unreliable)
            == on_channel(sent_packets(v, host), Delivery::Unreliable),
    decreases v.len(),
{
    let pred = |p: PacketView| p.delivery == Delivery::Unreliable;
    let w = after_publish(v, kind, Delivery::Reliable, payload);
    if v.len() > 0 {
        let q = v.last();
        let q2 = w.last();
        assert(w.drop_last() =~= after_publish(v.drop_last(), kind, Delivery::Reliable, payload));
        lemma_reliable_publish_keeps_unreliable(v.drop_last(), kind, payload, host);
        Seq::filter_distributes_over_add(sent_packets(w.drop_last(), host), kind_packets(q2, host), pred);
        Seq::filter_distributes_over_add(sent_packets(v.drop_last(), host), kind_packets(q, host), pred);
        Seq::filter_distributes_over_add(
            packets(q2.reliable, Delivery::Reliable, host, q.kind),
            packets(q.unreliable, Delivery::Unreliable, host, q.kind),
            pred,
        );
        Seq::filter_distributes_over_add(
            packets(q.reliable, Delivery::Reliable, host, q.kind),
            packets(q.unreliable, Delivery::Unreliable, host, q.kind),
            pred,
        );
        lemma_other_channel_empty(q2.reliable, Delivery::Reliable, Delivery::Unreliable, host, q.kind);
        lemma_other_channel_empty(q.reliable, Delivery::Reliable, Delivery::Unreliable, host, q.kind);
        assert(q2.unreliable == q.unreliable);
        assert(q2.kind == q.kind);
    } else {
        assert(w =~= v);
    }
}

/// A payload published reliably during a tick is among the packets that
/// the tick's flush sends over the reliable channel to the host, and the
/// unreliable channel carries exactly what it would have carried without it.
pub proof fn lemma_reliable_publish_is_sent_reliably(v: Seq<KindState>, kind: MessageKind, payload: Seq<u8>, host: PeerId)
    requires
        distinct(kinds_of(v)),
        registered(v, kind),
    ensures
        on_channel(sent_packets(after_publish(v, kind, Delivery::Reliable, payload), host), Delivery::Reliable)
            .contains(packet(Delivery::Reliable, host, kind, payload)),
        on_channel(sent_packets(after_publish(v, kind, Delivery::Reliable, payload), host), Delivery::Unreliable)
            == on_channel(sent_packets(v, host), Delivery::Unreliable),
{
    lemma_reliable_publish_keeps_unreliable(v, kind, payload, host);
    let w = after_publish(v, kind, Delivery::Reliable, payload);
    let j = choose|j: int| 0 <= j < v.len() && v[j].kind == kind;
    let q = w[j];
    assert(q == with_published(v[j], Delivery::Reliable, payload));
    let k = v[j].reliable.len() as int;
    let x = packet(Delivery::Reliable, host, kind, payload);
    assert(kind_packets(q, host)[k] == x);
    lemma_sent_contains(w, host, j, k);
    let s = sent_packets(w, host);
    let t = choose|t: int| 0 <= t < s.len() && s[t] == x;
    s.lemma_filter_contains(|p: PacketView| p.delivery == Delivery::Reliable, t);
}

struct KindQueues {
    kind: MessageKind,
    incoming: Vec<Vec<u8>>,
    reliable: Vec<Vec<u8>>,
    unreliable: Vec<Vec<u8>>,
}

impl View for KindQueues {
    type V = KindState;

    closed spec fn view(&self) -> KindState {
        KindState {
            kind: self.kind,
            incoming: bytes_of(self.incoming@),
            reliable: bytes_of(self.reliable@),
            unreliable: bytes_of(self.unreliable@),
        }
    }
}

impl KindQueues {
    fn new(kind: MessageKind) -> (r: KindQueues)
        ensures
            r@ == fresh_state(kind),
    {
        let r = KindQueues { kind, incoming: Vec::new(), reliable: Vec::new(), unreliable: Vec::new() };
        assert(r@.incoming =~= Seq::empty());
        assert(r@.reliable =~= Seq::empty());
        assert(r@.unreliable =~= Seq::empty());
        r
    }

    fn clear_incoming(&mut self)
        ensures
            final(self)@ == (KindState { incoming: Seq::empty(), ..old(self)@ }),
    {
        self.incoming = Vec::new();
        assert(final(self)@.incoming =~= Seq::<Seq<u8>>::empty());
    }

    fn push_incoming(&mut self, payload: Vec<u8>)
        ensures
            final(self)@ == (KindState { incoming: old(self)@.incoming.push(payload@), ..old(self)@ }),
    {
        self.incoming.push(payload);
        assert(final(self)@.incoming =~= old(self)@.incoming.push(payload@));
    }

    fn take_reliable(&mut self) -> (r: Vec<Vec<u8>>)
        ensures
            bytes_of(r@) == old(self)@.reliable,
            final(self)@ == (KindState { reliable: Seq::empty(), ..old(self)@ }),
    {
        let mut r: Vec<Vec<u8>> = Vec::new();
        std::mem::swap(&mut r, &mut self.reliable);
        assert(final(self)@.reliable =~= Seq::<Seq<u8>>::empty());
        r
    }

    fn take_unreliable(&mut self) -> (r: Vec<Vec<u8>>)
        ensures
            bytes_of(r@) == old(self)@.unreliable,
            final(self)@ == (KindState { unreliable: Seq::empty(), ..old(self)@ }),
    {
        let mut r: Vec<Vec<u8>> = Vec::new();
        std::mem::swap(&mut r, &mut self.unreliable);
        assert(final(self)@.unreliable =~= Seq::<Seq<u8>>::empty());
        r
    }

    fn push_outgoing(&mut self, payload: Vec<u8>, delivery: Delivery)
        ensures
            final(self)@ == with_published(old(self)@, delivery, payload@),
    {
        match delivery {
            Delivery::Reliable => {
                self.reliable.push(payload);
                assert(final(self)@.reliable =~= old(self)@.reliable.push(payload@));
            },
            Delivery::Unreliable => {
                self.unreliable.push(payload);
                assert(final(self)@.unreliable =~= old(self)@.unreliable.push(payload@));
            },
        }
    }
}

/// The registry of message kinds, in the order they were registered.
pub struct Registry {
    queues: Vec<KindQueues>,
}

impl View for Registry {
    type V = Seq<KindState>;

    closed spec fn view(&self) -> Seq<KindState> {
        self.queues@.map_values(|q: KindQueues| q@)
    }
}

impl Registry {
    /// No kind is registered twice.
    pub open spec fn wf(&self) -> bool {
        distinct(kinds_of(self@))
    }

    pub fn new() -> (r: Registry)
        ensures
            r.wf(),
            r@ == Seq::<KindState>::empty(),
    {
        let r = Registry { queues: Vec::new() };
        assert(r@ =~= Seq::<KindState>::empty());
        r
    }

    fn find(&self, kind: MessageKind) -> (r: Option<usize>)
        requires
            self.wf(),
        ensures
            r is Some <==> registered(self@, kind),
            r is Some ==> r->0 < self@.len() && r->0 == kind_index(self@, kind),
    {
        let mut i: usize = 0;
        while i < self.queues.len()
            invariant
                self.wf(),
                i <= self.queues@.len(),
                self@.len() == self.queues@.len(),
                forall|j: int| 0 <= j < i ==> self@[j].kind != kind,
            decreases self.queues@.len() - i,
        {
            assert(self@[i as int] == self.queues@[i as int]@);
            if self.queues[i].kind == kind {
                assert(registered(self@, kind));
                proof {
                    let k = kind_index(self@, kind);
                    assert(0 <= k < self@.len() && self@[k].kind == kind);
                    assert(kinds_of(self@)[k] == kind);
                    assert(kinds_of(self@)[i as int] == kind);
                    assert(kinds_of(self@).len() == self@.len());
                    assert(distinct(kinds_of(self@)));
                    if k > i {
                        assert(kinds_of(self@)[i as int] != kinds_of(self@)[k]);
                    }
                }
                return Some(i);
            }
            i = i + 1;
        }
        None
    }

    /// Whether `kind` is registered.
    pub fn is_registered(&self, kind: MessageKind) -> (r: bool)
        requires
            self.wf(),
        ensures
            r == registered(self@, kind),
    {
        self.find(kind).is_some()
    }

    /// Registers `kind` with empty queues; fails on a kind registered already,
    /// leaving the registry as it was.
    pub fn register(&mut self, kind: MessageKind) -> (r: Result<(), RouterError>)
        requires
            old(self).wf(),
        ensures
            final(self).wf(),
            r is Ok <==> !registered(old(self)@, kind),
            r is Ok ==> final(self)@ == old(self)@.push(fresh_state(kind)),
            r is Err ==> r == Err::<(), RouterError>(RouterError::DuplicateRegistration(kind))
                && final(self)@ == old(self)@,
    {
        if self.find(kind).is_some() {
            return Err(RouterError::DuplicateRegistration(kind));
        }
        let ghost before = self@;
        self.queues.push(KindQueues::new(kind));
        assert(self@ =~= before.push(fresh_state(kind)));
        assert(kinds_of(self@) =~= kinds_of(before).push(kind));
        assert forall|i: int| 0 <= i < kinds_of(before).len() implies kinds_of(before)[i] != kind by {
            if kinds_of(before)[i] == kind {
                assert(before[i].kind == kind);
            }
        }
        Ok(())
    }

    /// Registers each of `kinds` in turn, stopping at the first that is
    /// registered already.
    pub fn register_all(&mut self, kinds: &Vec<MessageKind>) -> (r: Result<(), RouterError>)
        requires
            old(self).wf(),
        ensures
            final(self).wf(),
            r is Ok <==> distinct(kinds_of(old(self)@) + kinds@),
            r is Ok ==> final(self)@ == after_registering(old(self)@, kinds@),
            r is Err ==> exists|j: int| #[trigger] first_repeat_at(old(self)@, kinds@, j)
                && r == Err::<(), RouterError>(RouterError::DuplicateRegistration(kinds@[j]))
                && final(self)@ == after_registering(old(self)@, kinds@.take(j)),
    {
        let ghost start = self@;
        let mut i: usize = 0;
        assert(kinds@.take(0) =~= Seq::<MessageKind>::empty());
        assert(after_registering(start, kinds@.take(0)) =~= start);
        assert(kinds_of(start) + kinds@.take(0) =~= kinds_of(start));
        while i < kinds.len()
            invariant
                start == old(self)@,
                i <= kinds@.len(),
                self.wf(),
                self@ == after_registering(start, kinds@.take(i as int)),
                kinds_of(self@) == kinds_of(start) + kinds@.take(i as int),
            decreases kinds@.len() - i,
        {
            let ghost before = self@;
            let k = kinds[i];
            match self.register(k) {
                Ok(()) => {
                    assert(kinds@.take(i + 1) =~= kinds@.take(i as int).push(k));
                    assert(self@ =~= after_registering(start, kinds@.take(i + 1)));
                    assert(kinds_of(self@) =~= kinds_of(before).push(k));
                    assert(kinds_of(self@) =~= kinds_of(start) + kinds@.take(i + 1));
                    i = i + 1;
                },
                Err(e) => {
                    proof {
                        let p = kinds_of(start) + kinds@.take(i as int);
                        let t = choose|t: int| 0 <= t < before.len() && before[t].kind == k;
                        assert(p[t] == k);
                        assert(first_repeat_at(start, kinds@, i as int));
                        let f = kinds_of(start) + kinds@;
                        assert(f[t] == p[t]);
                        assert(kinds_of(before).len() == before.len());
                        assert(t < p.len());
                        assert(f[p.len() as int] == k);
                        assert(!distinct(f));
                        assert(e == RouterError::DuplicateRegistration(kinds@[i as int]));
                        assert(self@ == after_registering(start, kinds@.take(i as int)));
                    }
                    return Err(e);
                },
            }
        }
        assert(kinds@.take(i as int) =~= kinds@);
        Ok(())
    }

    /// The payloads of `kind` that the last read phase received, in receipt order.
    pub fn drain_incoming(&self, kind: MessageKind) -> (r: Result<&Vec<Vec<u8>>, RouterError>)
        requires
            self.wf(),
        ensures
            r is Ok <==> registered(self@, kind),
            match r {
                Ok(q) => bytes_of(q@) == self@[kind_index(self@, kind)].incoming,
                Err(e) => e == RouterError::UnregisteredKind(kind),
            },
    {
        match self.find(kind) {
            None => Err(RouterError::UnregisteredKind(kind)),
            Some(i) => {
                assert(self@[i as int] == self.queues@[i as int]@);
                Ok(&self.queues[i].incoming)
            },
        }
    }

    /// Read phase: empties every incoming queue, then routes each packet
    /// to the queue of the kind it carries. A packet too short to carry a
    /// kind, or of a kind not registered, is dropped.
    pub fn read_incoming(&mut self, packets: &Vec<Vec<u8>>)
        requires
            old(self).wf(),
        ensures
            final(self).wf(),
            final(self)@ == after_read(old(self)@, bytes_of(packets@)),
    {
        let ghost start = self@;
        let ghost all = bytes_of(packets@);
        let mut i: usize = 0;
        while i < self.queues.len()
            invariant
                start == old(self)@,
                i <= self.queues@.len(),
                self@.len() == start.len(),
                forall|j: int| 0 <= j < i ==> #[trigger] self@[j] == (KindState { incoming: Seq::empty(), ..start[j] }),
                forall|j: int| i <= j < self@.len() ==> #[trigger] self@[j] == start[j],
            decreases self.queues@.len() - i,
        {
            let ghost before = self@;
            self.queues[i].clear_incoming();
            assert(self@[i as int] == self.queues@[i as int]@);
            assert(before[i as int] == start[i as int]);
            assert forall|j: int| 0 <= j < self@.len() && j != i implies #[trigger] self@[j] == before[j] by {
                assert(self@[j] == self.queues@[j]@);
            }
            i = i + 1;
        }
        assert(self@ =~= after_read(start, all.take(0)));
        assert(kinds_of(self@) =~= kinds_of(start));
        let mut n: usize = 0;
        while n < packets.len()
            invariant
                start == old(self)@,
                n <= packets@.len(),
                all == bytes_of(packets@),
                self.wf(),
                kinds_of(self@) == kinds_of(start),
                self@ == after_read(start, all.take(n as int)),
            decreases packets@.len() - n,
        {
            let ghost before = self@;
            let ghost cur = all.take(n as int);
            let ghost next = all.take(n + 1);
            assert(next.drop_last() =~= cur);
            assert(next.last() == packets@[n as int]@);
            match decode_frame(&packets[n]) {
                None => {
                    assert(self@ =~= after_read(start, next));
                },
                Some((kind, payload)) => {
                    match self.find(kind) {
                        None => {
                            assert forall|j: int| 0 <= j < start.len() implies start[j].kind != kind by {
                                assert(before[j].kind == kinds_of(before)[j]);
                                assert(!(0 <= j < before.len() && before[j].kind == kind));
                            }
                            assert(self@ =~= after_read(start, next));
                        },
                        Some(i) => {
                            self.queues[i].push_incoming(payload);
                            proof {
                                assert forall|j: int| 0 <= j < before.len() && j != i implies before[j].kind != kind by {
                                    assert(kinds_of(before)[j] != kinds_of(before)[i as int]);
                                }
                                assert forall|j: int| 0 <= j < self@.len() implies #[trigger] self@[j] == after_read(start, next)[j] by {
                                    assert(self@[j] == self.queues@[j]@);
                                    assert(before[j].kind == start[j].kind);
                                }
                                assert(self@ =~= after_read(start, next));
                            }
                        },
                    }
                },
            }
            assert(kinds_of(self@) =~= kinds_of(start));
            n = n + 1;
        }
        assert(all.take(n as int) =~= all);
    }

    /// Flush phase: hands every outgoing payload, framed with its kind, to
    /// `host` (nothing when there is no host), then empties both outgoing
    /// sequences of every kind.
    pub fn flush(&mut self, host: Option<PeerId>) -> (r: Vec<OutgoingPacket>)
        requires
            old(self).wf(),
        ensures
            final(self).wf(),
            final(self)@ == after_flush(old(self)@),
            views_of(r@) == match host {
                Some(h) => sent_packets(old(self)@, h),
                None => Seq::<PacketView>::empty(),
            },
    {
        let ghost start = self@;
        let dest = match host {
            Some(h) => h,
            None => PeerId { id: 0 },
        };
        let mut out: Vec<OutgoingPacket> = Vec::new();
        let mut i: usize = 0;
        assert(start.take(0) =~= Seq::<KindState>::empty());
        assert(views_of(out@) =~= Seq::<PacketView>::empty());
        while i < self.queues.len()
            invariant
                start == old(self)@,
                i <= self.queues@.len(),
                self@.len() == start.len(),
                forall|j: int| 0 <= j < i ==> #[trigger] self@[j] == flushed(start[j]),
                forall|j: int| i <= j < self@.len() ==> #[trigger] self@[j] == start[j],
                host is Some ==> views_of(out@) == sent_packets(start.take(i as int), dest),
                host is None ==> views_of(out@) == Seq::<PacketView>::empty(),
            decreases self.queues@.len() - i,
        {
            let ghost before = self@;
            assert(before[i as int] == self.queues@[i as int]@);
            let kind = self.queues[i].kind;
            let reliable = self.queues[i].take_reliable();
            let unreliable = self.queues[i].take_unreliable();
            if host.is_some() {
                let ghost sent = views_of(out@);
                append_packets(&mut out, &reliable, Delivery::Reliable, dest, kind);
                append_packets(&mut out, &unreliable, Delivery::Unreliable, dest, kind);
                proof {
                    let q = start[i as int];
                    assert(start.take(i + 1).drop_last() =~= start.take(i as int));
                    assert(start.take(i + 1).last() == q);
                    assert(views_of(out@) =~= sent + kind_packets(q, dest));
                }
            }
            assert(self@[i as int] == self.queues@[i as int]@);
            assert(self@[i as int] =~= flushed(start[i as int]));
            assert forall|j: int| 0 <= j < self@.len() && j != i implies #[trigger] self@[j] == before[j] by {
                assert(self@[j] == self.queues@[j]@);
            }
            i = i + 1;
        }
        assert(start.take(i as int) =~= start);
        assert(self@ =~= after_flush(start));
        assert(kinds_of(self@) =~= kinds_of(start));
        if host.is_none() {
            out = Vec::new();
            assert(views_of(out@) =~= Seq::<PacketView>::empty());
        }
        out
    }

    /// Appends `payload` to the outgoing sequence of `kind` for `delivery`.
    pub fn publish(&mut self, kind: MessageKind, payload: Vec<u8>, delivery: Delivery) -> (r: Result<(), RouterError>)
        requires
            old(self).wf(),
        ensures
            final(self).wf(),
            r is Ok <==> registered(old(self)@, kind),
            r is Ok ==> final(self)@ == after_publish(old(self)@, kind, delivery, payload@),
            r is Err ==> r == Err::<(), RouterError>(RouterError::UnregisteredKind(kind))
                && final(self)@ == old(self)@,
    {
        match self.find(kind) {
            None => Err(RouterError::UnregisteredKind(kind)),
            Some(i) => {
                let ghost before = self@;
                let ghost p = payload@;
                self.queues[i].push_outgoing(payload, delivery);
                proof {
                    let after = after_publish(before, kind, delivery, p);
                    assert forall|j: int| 0 <= j < before.len() && j != i implies before[j].kind != kind by {
                        assert(kinds_of(before)[j] != kinds_of(before)[i as int]);
                    }
                    assert(self@ =~= after);
                    assert(kinds_of(self@) =~= kinds_of(before));
                }
                Ok(())
            },
        }
    }
}

} // verus!
