//! Framing of typed payloads on the wire: a two-byte big-endian kind tag
//! followed by the payload bytes, untouched.
use vstd::prelude::*;

verus! {

/// Identifier of an application-defined message kind.
pub type MessageKind = u16;

/// The bytes that carry `payload` as a message of `kind`.
pub open spec fn frame_bytes(kind: MessageKind, payload: Seq<u8>) -> Seq<u8> {
    seq![(kind / 256) as u8, (kind % 256) as u8] + payload
}

/// Whether `bytes` is long enough to hold a kind tag.
pub open spec fn is_frame(bytes: Seq<u8>) -> bool {
    bytes.len() >= 2
}

/// The kind tag that a frame carries.
pub open spec fn frame_kind(bytes: Seq<u8>) -> MessageKind
    recommends
        is_frame(bytes),
{
    (bytes[0] as int * 256 + bytes[1] as int) as MessageKind
}

/// The payload that a frame carries.
pub open spec fn frame_payload(bytes: Seq<u8>) -> Seq<u8> {
    bytes.subrange(2, bytes.len() as int)
}

/// Frames `payload` as a message of `kind`.
pub fn encode_frame(kind: MessageKind, payload: &Vec<u8>) -> (r: Vec<u8>)
    ensures
        r@ == frame_bytes(kind, payload@),
{
    let mut r: Vec<u8> = Vec::with_capacity(payload.len());
    r.push((kind / 256) as u8);
    r.push((kind % 256) as u8);
    let mut i: usize = 0;
    while i < payload.len()
        invariant
            i <= payload@.len(),
            r@ == seq![(kind / 256) as u8, (kind % 256) as u8] + payload@.subrange(0, i as int),
        decreases payload@.len() - i,
    {
        r.push(payload[i]);
        i = i + 1;
        assert(payload@.subrange(0, i as int) == payload@.subrange(0, i - 1) + seq![payload@[i - 1]]);
    }
    assert(payload@.subrange(0, i as int) == payload@);
    r
}

/// Reads the kind tag of `bytes`; `None` when they are too short to hold one.
pub fn decode_kind(bytes: &Vec<u8>) -> (r: Option<MessageKind>)
    ensures
        r is Some <==> is_frame(bytes@),
        r is Some ==> r->0 == frame_kind(bytes@),
{
    if bytes.len() < 2 {
        None
    } else {
        Some((bytes[0] as u16) * 256 + bytes[1] as u16)
    }
}

/// Splits a frame into its kind tag and its payload; `None` when `bytes`
/// are too short to hold a tag.
pub fn decode_frame(bytes: &Vec<u8>) -> (r: Option<(MessageKind, Vec<u8>)>)
    ensures
        r is Some <==> is_frame(bytes@),
        match r {
            Some((kind, payload)) => kind == frame_kind(bytes@) && payload@ == frame_payload(bytes@),
            None => true,
        },
{
    match decode_kind(bytes) {
        None => None,
        Some(kind) => {
            let mut payload: Vec<u8> = Vec::with_capacity(bytes.len() - 2);
            let mut i: usize = 2;
            while i < bytes.len()
                invariant
                    2 <= i <= bytes@.len(),
                    payload@ == bytes@.subrange(2, i as int),
                decreases bytes@.len() - i,
            {
                payload.push(bytes[i]);
                i = i + 1;
                assert(bytes@.subrange(2, i as int) == bytes@.subrange(2, i - 1) + seq![bytes@[i - 1]]);
            }
            Some((kind, payload))
        },
    }
}

/// A framed payload reads back as the kind and the payload it was framed with.
pub proof fn lemma_frame_round_trip(kind: MessageKind, payload: Seq<u8>)
    ensures
        is_frame(frame_bytes(kind, payload)),
        frame_kind(frame_bytes(kind, payload)) == kind,
        frame_payload(frame_bytes(kind, payload)) == payload,
{
    let b = frame_bytes(kind, payload);
    assert(b[0] == (kind / 256) as u8);
    assert(b[1] == (kind % 256) as u8);
    assert(frame_payload(b) =~= payload);
}

} // verus!
