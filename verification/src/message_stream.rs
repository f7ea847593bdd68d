//! The wire unit of the protocol and its binary codec.
//!
//! A frame is laid out as a 20-byte header followed by the payload: the
//! 32-bit little-endian preamble `0xFEED_BEEF`, one message-code byte, the
//! 32-bit room id, the 32-bit origin and destination party ids, one
//! payload-kind byte, a 16-bit payload length, and the payload itself.

use vstd::prelude::*;
use vstd::slice::{slice_subrange, slice_to_vec};

use crate::proto::{
    u16_from_le, u16_from_le_bytes, u16_le_bytes, u32_from_le, u32_from_le_bytes, u32_le_bytes,
    u32_to_le_bytes, MessageCode, PartyId, PayloadKind,
};

verus! {

/// The magic value that opens every serialized frame.
pub const PREAMBLE: u32 = 0xFEED_BEEF;

/// The number of bytes before the payload.
pub const LENGTH_MESSAGE_STREAM_HEADER: usize = 20;

/// Why a byte sequence is not a frame. The checks are made in this order:
/// a too-short input is `ShortHeader` whatever its first bytes say.
#[derive(Clone, Copy, Debug, PartialEq, Eq, Structural)]
pub enum ParseError {
    ShortHeader,
    BadPreamble,
    BadMessageCode,
    BadPayloadKind,
    LengthMismatch,
}

/// The mathematical value of a frame: what `MessageStream` holds, with the
/// payload as a sequence.
#[verifier::ext_equal]
pub struct MessageStreamView {
    pub message_code: MessageCode,
    pub room_id: u32,
    pub origin_id: PartyId,
    pub destination_id: PartyId,
    pub payload_kind: PayloadKind,
    pub payload: Seq<u8>,
}

impl MessageStreamView {
    /// Serialization cannot overflow: both party ids have a wire value and
    /// the payload length fits the 16-bit length field.
    pub open spec fn serializable(self) -> bool {
        &&& self.origin_id.reprable()
        &&& self.destination_id.reprable()
        &&& self.payload.len() <= 0xFFFF
    }

    /// A frame as the protocol means it to be: both party ids name what
    /// their wire values decode to, and the payload fits its length field.
    pub open spec fn wire_valid(self) -> bool {
        &&& self.origin_id.valid()
        &&& self.destination_id.valid()
        &&& self.payload.len() <= 0xFFFF
    }
}

#[derive(Debug)]
pub struct MessageStream {
    pub message_code: MessageCode,
    pub room_id: u32,
    pub origin_id: PartyId,
    pub destination_id: PartyId,
    pub payload_kind: PayloadKind,
    pub payload: Vec<u8>,
}

impl View for MessageStream {
    type V = MessageStreamView;

    open spec fn view(&self) -> MessageStreamView {
        MessageStreamView {
            message_code: self.message_code,
            room_id: self.room_id,
            origin_id: self.origin_id,
            destination_id: self.destination_id,
            payload_kind: self.payload_kind,
            payload: self.payload@,
        }
    }
}

impl MessageStream {
    pub fn new(
        message_code: MessageCode,
        room_id: u32,
        origin_id: PartyId,
        destination_id: PartyId,
        payload_kind: PayloadKind,
        payload: Option<&[u8]>,
    ) -> (r: Self)
        ensures
            r@ == (MessageStreamView {
                message_code,
                room_id,
                origin_id,
                destination_id,
                payload_kind,
                payload: match payload {
                    Some(p) => p@,
                    None => Seq::<u8>::empty(),
                },
            }),
    {
        let payload_vec = if let Some(payload_unwrapped) = payload {
            slice_to_vec(payload_unwrapped)
        } else {
            Vec::new()
        };
        let r = Self {
            message_code,
            room_id,
            origin_id,
            destination_id,
            payload_kind,
            payload: payload_vec,
        };
        proof {
            if payload is None {
                assert(r.payload@ =~= Seq::<u8>::empty());
            }
            assert(r@ =~= (MessageStreamView {
                message_code,
                room_id,
                origin_id,
                destination_id,
                payload_kind,
                payload: match payload {
                    Some(p) => p@,
                    None => Seq::<u8>::empty(),
                },
            }));
        }
        r
    }

    pub fn from_raw(source: &[u8]) -> (r: Result<Self, ParseError>)
        ensures
            r is Ok <==> parse_ok(source@),
            r matches Ok(m) ==> matches_bytes(m@, source@),
            r matches Err(ParseError::ShortHeader) <==> source@.len() < 20,
            r matches Err(ParseError::BadPreamble) <==> source@.len() >= 20 && !preamble_ok(
                source@,
            ),
            r matches Err(ParseError::BadMessageCode) <==> source@.len() >= 20 && preamble_ok(
                source@,
            ) && !MessageCode::spec_byte_valid(source@[4]),
            r matches Err(ParseError::BadPayloadKind) <==> source@.len() >= 20 && preamble_ok(
                source@,
            ) && MessageCode::spec_byte_valid(source@[4]) && !PayloadKind::spec_byte_valid(
                source@[17],
            ),
            r matches Err(ParseError::LengthMismatch) <==> source@.len() >= 20 && preamble_ok(
                source@,
            ) && MessageCode::spec_byte_valid(source@[4]) && PayloadKind::spec_byte_valid(
                source@[17],
            ) && 20 + declared_payload_len(source@) != source@.len(),
    {
        if source.len() < LENGTH_MESSAGE_STREAM_HEADER {
            return Err(ParseError::ShortHeader);
        }

        if u32_from_le_bytes(source[0], source[1], source[2], source[3]) != PREAMBLE {
            return Err(ParseError::BadPreamble);
        }

        let message_code = match MessageCode::from_byte(source[4]) {
            Some(code) => code,
            None => {
                return Err(ParseError::BadMessageCode);
            },
        };

        let room_id = u32_from_le_bytes(source[5], source[6], source[7], source[8]);
        let origin_id = PartyId::from_u32(
            u32_from_le_bytes(source[9], source[10], source[11], source[12]),
        );
        let destination_id = PartyId::from_u32(
            u32_from_le_bytes(source[13], source[14], source[15], source[16]),
        );

        let payload_kind = match PayloadKind::from_byte(source[17]) {
            Some(kind) => kind,
            None => {
                return Err(ParseError::BadPayloadKind);
            },
        };

        let payload_length = u16_from_le_bytes(source[18], source[19]);

        if payload_length as usize + LENGTH_MESSAGE_STREAM_HEADER != source.len() {
            return Err(ParseError::LengthMismatch);
        }

        let payload = slice_to_vec(
            slice_subrange(source, LENGTH_MESSAGE_STREAM_HEADER, source.len()),
        );
        let m = Self { message_code, room_id, origin_id, destination_id, payload_kind, payload };
        proof {
            assert(m.payload@ =~= source@.subrange(20, source@.len() as int));
        }
        Ok(m)
    }

    pub fn into_raw(self) -> (r: Vec<u8>)
        requires
            self@.serializable(),
        ensures
            r@ == spec_serialize(self@),
    {
        let payload_length = self.payload.len() as u16;
        let mut result: Vec<u8> = Vec::new();

        push_u32_le(&mut result, PREAMBLE);
        result.push(self.message_code.as_byte());
        push_u32_le(&mut result, self.room_id);
        push_u32_le(&mut result, self.origin_id.get_repr());
        push_u32_le(&mut result, self.destination_id.get_repr());
        result.push(self.payload_kind.as_byte());
        let length_bytes = crate::proto::u16_to_le_bytes(payload_length);
        result.push(length_bytes[0]);
        result.push(length_bytes[1]);

        let ghost header = spec_serialize_header(self@);
        proof {
            assert(result@ =~= header);
        }

        let mut i: usize = 0;
        while i < self.payload.len()
            invariant
                i <= self.payload@.len(),
                result@ == header + self.payload@.subrange(0, i as int),
            decreases self.payload@.len() - i,
        {
            result.push(self.payload[i]);
            proof {
                assert(result@ =~= header + self.payload@.subrange(0, i + 1 as int));
            }
            i += 1;
        }
        proof {
            assert(self.payload@.subrange(0, self.payload@.len() as int) =~= self.payload@);
        }
        result
    }
}

impl Clone for MessageStream {
    fn clone(&self) -> (r: Self)
        ensures
            r@ == self@,
    {
        let r = MessageStream {
            message_code: self.message_code,
            room_id: self.room_id,
            origin_id: self.origin_id,
            destination_id: self.destination_id,
            payload_kind: self.payload_kind,
            payload: copy_bytes(&self.payload),
        };
        proof {
            assert(r@ =~= self@);
        }
        r
    }
}

impl PartialEq for MessageStream {
    fn eq(&self, other: &Self) -> (r: bool) {
        let fields_eq = self.message_code == other.message_code && self.room_id == other.room_id
            && self.origin_id == other.origin_id && self.destination_id == other.destination_id
            && self.payload_kind == other.payload_kind && bytes_eq(&self.payload, &other.payload);
        proof {
            if fields_eq {
                assert(self@ =~= other@);
            }
        }
        fields_eq
    }
}

impl vstd::std_specs::cmp::PartialEqSpecImpl for MessageStream {
    open spec fn obeys_eq_spec() -> bool {
        true
    }

    open spec fn eq_spec(&self, other: &Self) -> bool {
        self@ == other@
    }
}

/// A fresh vector with the same bytes.
pub fn copy_bytes(src: &Vec<u8>) -> (r: Vec<u8>)
    ensures
        r@ == src@,
{
    let mut r: Vec<u8> = Vec::new();
    let mut i: usize = 0;
    while i < src.len()
        invariant
            i <= src@.len(),
            r@ == src@.subrange(0, i as int),
        decreases src@.len() - i,
    {
        r.push(src[i]);
        proof {
            assert(r@ =~= src@.subrange(0, i + 1 as int));
        }
        i += 1;
    }
    proof {
        assert(src@.subrange(0, src@.len() as int) =~= src@);
    }
    r
}

/// Whether two byte vectors hold the same bytes.
pub fn bytes_eq(a: &Vec<u8>, b: &Vec<u8>) -> (r: bool)
    ensures
        r <==> a@ == b@,
{
    if a.len() != b.len() {
        return false;
    }
    let mut i: usize = 0;
    while i < a.len()
        invariant
            a@.len() == b@.len(),
            i <= a@.len(),
            forall|j: int| 0 <= j < i ==> a@[j] == b@[j],
        decreases a@.len() - i,
    {
        if a[i] != b[i] {
            return false;
        }
        i += 1;
    }
    proof {
        assert(a@ =~= b@);
    }
    true
}

fn push_u32_le(out: &mut Vec<u8>, x: u32)
    ensures
        final(out)@ == old(out)@ + u32_le_bytes(x),
{
    let bytes = u32_to_le_bytes(x);
    out.push(bytes[0]);
    out.push(bytes[1]);
    out.push(bytes[2]);
    out.push(bytes[3]);
    proof {
        assert(out@ =~= old(out)@ + u32_le_bytes(x));
    }
}

/// The 20 header bytes of a frame.
pub open spec fn spec_serialize_header(m: MessageStreamView) -> Seq<u8> {
    u32_le_bytes(PREAMBLE) + seq![m.message_code.spec_byte()] + u32_le_bytes(m.room_id)
        + u32_le_bytes(m.origin_id.spec_repr()) + u32_le_bytes(m.destination_id.spec_repr())
        + seq![m.payload_kind.spec_byte()] + u16_le_bytes(m.payload.len() as u16)
}

/// The serialized form of a frame: the header followed by the payload.
pub open spec fn spec_serialize(m: MessageStreamView) -> Seq<u8> {
    spec_serialize_header(m) + m.payload
}

/// Whether the first four bytes read as the preamble.
pub open spec fn preamble_ok(b: Seq<u8>) -> bool
    recommends
        b.len() >= 4,
{
    u32_from_le(b[0], b[1], b[2], b[3]) == PREAMBLE
}

/// The payload length that the header declares.
pub open spec fn declared_payload_len(b: Seq<u8>) -> int
    recommends
        b.len() >= 20,
{
    u16_from_le(b[18], b[19]) as int
}

/// Whether a byte sequence parses as a frame: it is long enough, opens with
/// the preamble, its code and kind bytes are known, and its declared payload
/// length matches its actual length.
pub open spec fn parse_ok(b: Seq<u8>) -> bool {
    &&& b.len() >= 20
    &&& preamble_ok(b)
    &&& MessageCode::spec_byte_valid(b[4])
    &&& PayloadKind::spec_byte_valid(b[17])
    &&& 20 + declared_payload_len(b) == b.len()
}

/// Law: a serialized frame is 20 bytes plus its payload and always begins
/// with the bytes `EF BE ED FE`.
pub proof fn lemma_serialized_preamble(m: MessageStreamView)
    ensures
        spec_serialize(m).len() == 20 + m.payload.len(),
        spec_serialize(m)[0] == 0xEF,
        spec_serialize(m)[1] == 0xBE,
        spec_serialize(m)[2] == 0xED,
        spec_serialize(m)[3] == 0xFE,
        preamble_ok(spec_serialize(m)),
{
    let b = spec_serialize(m);
    assert(0xFEED_BEEFu32 & 0xff == 0xEF && (0xFEED_BEEFu32 >> 8) & 0xff == 0xBE && (
    0xFEED_BEEFu32 >> 16) & 0xff == 0xED && (0xFEED_BEEFu32 >> 24) & 0xff == 0xFE)
        by (bit_vector);
    crate::proto::lemma_u32_le_round_trip(PREAMBLE);
    assert(b[0] == 0xEF && b[1] == 0xBE && b[2] == 0xED && b[3] == 0xFE);
}

/// The preamble check reads exactly the first four bytes: they pass it if
/// and only if they are `EF BE ED FE`.
pub proof fn lemma_preamble_bytes(b: Seq<u8>)
    requires
        b.len() >= 4,
    ensures
        preamble_ok(b) <==> (b[0] == 0xEF && b[1] == 0xBE && b[2] == 0xED && b[3] == 0xFE),
{
    let b0 = b[0];
    let b1 = b[1];
    let b2 = b[2];
    let b3 = b[3];
    assert(((b0 as u32) | ((b1 as u32) << 8) | ((b2 as u32) << 16) | ((b3 as u32) << 24)
        == 0xFEED_BEEFu32) <==> (b0 == 0xEF && b1 == 0xBE && b2 == 0xED && b3 == 0xFE))
        by (bit_vector);
}

/// Law: parsing accepts the serialized form of every valid frame, and reads
/// the frame back from it.
pub proof fn lemma_serialize_then_parse(m: MessageStreamView)
    requires
        m.wire_valid(),
    ensures
        parse_ok(spec_serialize(m)),
        matches_bytes(m, spec_serialize(m)),
{
    let b = spec_serialize(m);
    lemma_serialized_preamble(m);
    crate::proto::lemma_u32_le_round_trip(m.room_id);
    crate::proto::lemma_u32_le_round_trip(m.origin_id.spec_repr());
    crate::proto::lemma_u32_le_round_trip(m.destination_id.spec_repr());
    crate::proto::lemma_u16_le_round_trip(m.payload.len() as u16);
    crate::proto::lemma_decode_inverts_repr(m.origin_id);
    crate::proto::lemma_decode_inverts_repr(m.destination_id);
    let rb = u32_le_bytes(m.room_id);
    let ob = u32_le_bytes(m.origin_id.spec_repr());
    let db = u32_le_bytes(m.destination_id.spec_repr());
    let lb = u16_le_bytes(m.payload.len() as u16);
    assert(b[4] == m.message_code.spec_byte());
    assert(b[5] == rb[0] && b[6] == rb[1] && b[7] == rb[2] && b[8] == rb[3]);
    assert(b[9] == ob[0] && b[10] == ob[1] && b[11] == ob[2] && b[12] == ob[3]);
    assert(b[13] == db[0] && b[14] == db[1] && b[15] == db[2] && b[16] == db[3]);
    assert(b[17] == m.payload_kind.spec_byte());
    assert(b[18] == lb[0] && b[19] == lb[1]);
    assert(b.subrange(20, b.len() as int) =~= m.payload);
}

/// Two frames that one byte sequence parses to are the same frame.
pub proof fn lemma_parse_unique(m1: MessageStreamView, m2: MessageStreamView, b: Seq<u8>)
    requires
        matches_bytes(m1, b),
        matches_bytes(m2, b),
    ensures
        m1 == m2,
{
    assert(m1 =~= m2);
}

/// Law: for every valid frame, parsing its serialized bytes yields exactly
/// that frame, and nothing else.
pub proof fn lemma_parse_inverts_serialize(m: MessageStreamView, parsed: MessageStreamView)
    requires
        m.wire_valid(),
        matches_bytes(parsed, spec_serialize(m)),
    ensures
        parsed == m,
{
    lemma_serialize_then_parse(m);
    lemma_parse_unique(parsed, m, spec_serialize(m));
}

/// Whether `m` is the frame that the byte sequence `b` parses to.
pub open spec fn matches_bytes(m: MessageStreamView, b: Seq<u8>) -> bool {
    &&& parse_ok(b)
    &&& m.message_code.spec_byte() == b[4]
    &&& m.room_id == u32_from_le(b[5], b[6], b[7], b[8])
    &&& m.origin_id == PartyId::spec_decode(u32_from_le(b[9], b[10], b[11], b[12]))
    &&& m.destination_id == PartyId::spec_decode(u32_from_le(b[13], b[14], b[15], b[16]))
    &&& m.payload_kind.spec_byte() == b[17]
    &&& m.payload == b.subrange(20, b.len() as int)
}

} // verus!
