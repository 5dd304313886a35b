//! Packet codec: pure framing logic for the wire format.
//!
//! A frame is `length (4 bytes) | request_id (4) | type_id (4) | payload
//! (length - 10) | trailer (2)`, every integer little-endian signed 32-bit,
//! the trailer written as two zero bytes and ignored on read. The length
//! field counts everything after itself, so it always equals
//! `payload.len() + 10`.

use vstd::bytes::*;
use vstd::prelude::*;

verus! {

/// Mathematical value of a 32-bit word reinterpreted as a signed
/// (two's-complement) integer.
pub open spec fn i32_val(u: u32) -> int {
    if u < 0x8000_0000 {
        u as int
    } else {
        u - 0x1_0000_0000
    }
}

/// Two's-complement 32-bit word that represents a signed value.
pub open spec fn u32_repr(v: i32) -> u32 {
    (if v >= 0 {
        v as int
    } else {
        v + 0x1_0000_0000
    }) as u32
}

fn u32_to_i32(u: u32) -> (r: i32)
    ensures
        r as int == i32_val(u),
{
    if u < 0x8000_0000 {
        u as i32
    } else {
        let d: u32 = u32::MAX - u;
        -(d as i32) - 1
    }
}

fn i32_to_u32(v: i32) -> (r: u32)
    ensures
        r == u32_repr(v),
{
    if v >= 0 {
        v as u32
    } else {
        let d: i32 = -(v + 1);
        u32::MAX - (d as u32)
    }
}

/// Little-endian bytes of a signed 32-bit value.
pub open spec fn spec_i32_le(v: i32) -> Seq<u8> {
    spec_u32_to_le_bytes(u32_repr(v))
}

/// Logical contents of one frame: what the codec preserves end to end.
#[verifier::ext_equal]
pub struct PacketSpec {
    pub req_id: i32,
    pub id: i32,
    pub payload: Seq<u8>,
}

/// One wire message: a request id that correlates request and reply, a
/// type id that selects the operation, and an opaque payload.
#[derive(Debug)]
pub struct Packet {
    pub req_id: i32,
    pub id: i32,
    pub payload: Vec<u8>,
}

impl View for Packet {
    type V = PacketSpec;

    open spec fn view(&self) -> PacketSpec {
        PacketSpec { req_id: self.req_id, id: self.id, payload: self.payload@ }
    }
}

/// Every byte of the frame that encodes `p`: length field, request id,
/// type id, payload, zero trailer.
pub open spec fn spec_frame(p: PacketSpec) -> Seq<u8>
    recommends
        p.payload.len() + 10 <= i32::MAX,
{
    spec_u32_to_le_bytes((p.payload.len() + 10) as u32) + spec_i32_le(p.req_id) + spec_i32_le(p.id)
        + p.payload + seq![0u8, 0u8]
}

/// Value of the length field at the front of `s`.
pub open spec fn spec_len_field(s: Seq<u8>) -> int
    recommends
        s.len() >= 4,
{
    i32_val(spec_u32_from_le_bytes(s.take(4)))
}

/// Too few bytes for a whole frame: either the length field itself is
/// short, or the field is plausible and the rest has not arrived yet.
pub open spec fn decode_incomplete(s: Seq<u8>) -> bool {
    s.len() < 4 || (spec_len_field(s) >= 10 && s.len() < 4 + spec_len_field(s))
}

/// The length field can belong to no frame at all: a value below 10
/// would give the payload a negative length.
pub open spec fn decode_malformed(s: Seq<u8>) -> bool {
    s.len() >= 4 && spec_len_field(s) < 10
}

/// A whole frame sits at the front of `s`.
pub open spec fn decode_complete(s: Seq<u8>) -> bool {
    s.len() >= 4 && spec_len_field(s) >= 10 && s.len() >= 4 + spec_len_field(s)
}

/// Bytes consumed when a frame is carved off the front of `s`.
pub open spec fn decoded_size(s: Seq<u8>) -> int
    recommends
        decode_complete(s),
{
    4 + spec_len_field(s)
}

/// The packet carried by the frame at the front of `s`.
pub open spec fn decoded_packet(s: Seq<u8>) -> PacketSpec
    recommends
        decode_complete(s),
{
    PacketSpec {
        req_id: i32_val(spec_u32_from_le_bytes(s.subrange(4, 8))) as i32,
        id: i32_val(spec_u32_from_le_bytes(s.subrange(8, 12))) as i32,
        payload: s.subrange(12, 4 + spec_len_field(s) - 2),
    }
}

/// Result of one decode attempt. `Incomplete` consumes nothing, so the
/// attempt can simply be repeated once more bytes arrive; `Malformed`
/// reports a length field below the 10-byte floor, which no amount of
/// further bytes could ever complete.
pub enum DecodeStep {
    Complete(Packet, usize),
    Incomplete,
    Malformed,
}

impl Packet {
    /// Try to carve one frame off the front of `buf`. Nothing is consumed
    /// on `Incomplete`; on `Complete` the caller must advance its buffer
    /// by exactly the reported number of bytes.
    pub fn read(buf: &[u8]) -> (r: DecodeStep)
        ensures
            match r {
                DecodeStep::Complete(p, n) => decode_complete(buf@) && p@ == decoded_packet(buf@)
                    && n == decoded_size(buf@),
                DecodeStep::Incomplete => decode_incomplete(buf@),
                DecodeStep::Malformed => decode_malformed(buf@),
            },
    {
        if buf.len() < 4 {
            return DecodeStep::Incomplete;
        }
        let len_word: u32 = u32_from_le_bytes(vstd::slice::slice_subrange(buf, 0, 4));
        proof {
            assert(buf@.subrange(0, 4) =~= buf@.take(4));
        }
        if len_word >= 0x8000_0000 || len_word < 10 {
            return DecodeStep::Malformed;
        }
        let len: usize = len_word as usize;
        if buf.len() - 4 < len {
            return DecodeStep::Incomplete;
        }
        let req_id = u32_to_i32(u32_from_le_bytes(vstd::slice::slice_subrange(buf, 4, 8)));
        let id = u32_to_i32(u32_from_le_bytes(vstd::slice::slice_subrange(buf, 8, 12)));
        let payload = vstd::slice::slice_to_vec(vstd::slice::slice_subrange(buf, 12, 4 + len - 2));
        let p = Packet { req_id, id, payload };
        proof {
            assert(p@ =~= decoded_packet(buf@));
        }
        DecodeStep::Complete(p, 4 + len)
    }

    /// Append the frame that encodes `self` to `buf`.
    pub fn write(&self, buf: &mut Vec<u8>)
        requires
            self@.payload.len() + 10 <= i32::MAX,
        ensures
            final(buf)@ == old(buf)@ + spec_frame(self@),
    {
        let mut len_bytes = u32_to_le_bytes((self.payload.len() + 10) as u32);
        buf.append(&mut len_bytes);
        let mut req_bytes = u32_to_le_bytes(i32_to_u32(self.req_id));
        buf.append(&mut req_bytes);
        let mut id_bytes = u32_to_le_bytes(i32_to_u32(self.id));
        buf.append(&mut id_bytes);
        let ghost mid = buf@;
        let mut i: usize = 0;
        while i < self.payload.len()
            invariant
                i <= self.payload.len(),
                buf@ == mid + self.payload@.take(i as int),
            decreases self.payload.len() - i,
        {
            buf.push(self.payload[i]);
            proof {
                assert(buf@ =~= mid + self.payload@.take(i + 1));
            }
            i = i + 1;
        }
        buf.push(0);
        buf.push(0);
        proof {
            assert(self.payload@.take(self.payload@.len() as int) =~= self.payload@);
            assert(buf@ =~= old(buf)@ + spec_frame(self@));
        }
    }
}

/// Round trip: decoding an encoded frame yields the packet that was
/// encoded, and consumes the whole frame.
pub proof fn lemma_round_trip(p: PacketSpec)
    requires
        p.payload.len() + 10 <= i32::MAX,
    ensures
        decode_complete(spec_frame(p)),
        decoded_packet(spec_frame(p)) == p,
        decoded_size(spec_frame(p)) == spec_frame(p).len(),
{
    lemma_decode_frame(p, Seq::empty());
    assert(spec_frame(p) + Seq::<u8>::empty() =~= spec_frame(p));
}

/// Length invariant: the first four bytes of an encoded frame, read as a
/// little-endian signed integer, equal the payload length plus 10.
pub proof fn lemma_length_field(p: PacketSpec)
    requires
        p.payload.len() + 10 <= i32::MAX,
    ensures
        spec_frame(p).len() == p.payload.len() + 14,
        spec_len_field(spec_frame(p)) == p.payload.len() + 10,
{
    lemma_auto_spec_u32_to_from_le_bytes();
    let lw = (p.payload.len() + 10) as u32;
    assert(spec_frame(p).take(4) =~= spec_u32_to_le_bytes(lw));
}

/// Partial delivery, first half: every strict prefix of an encoded frame
/// decodes to `Incomplete`.
pub proof fn lemma_prefix_incomplete(p: PacketSpec, n: int)
    requires
        p.payload.len() + 10 <= i32::MAX,
        0 <= n < spec_frame(p).len(),
    ensures
        decode_incomplete(spec_frame(p).take(n)),
{
    lemma_length_field(p);
    let f = spec_frame(p);
    if n >= 4 {
        assert(f.take(n).take(4) =~= f.take(4));
    }
}

/// Partial delivery, second half: once the whole frame has arrived, any
/// bytes of later frames behind it change nothing — the decoded packet is
/// `p` and exactly the frame's own bytes are consumed.
pub proof fn lemma_decode_frame(p: PacketSpec, tail: Seq<u8>)
    requires
        p.payload.len() + 10 <= i32::MAX,
    ensures
        decode_complete(spec_frame(p) + tail),
        decoded_packet(spec_frame(p) + tail) == p,
        decoded_size(spec_frame(p) + tail) == spec_frame(p).len(),
{
    lemma_auto_spec_u32_to_from_le_bytes();
    let f = spec_frame(p) + tail;
    assert(f.take(4) =~= spec_u32_to_le_bytes((p.payload.len() + 10) as u32));
    assert(spec_len_field(f) == p.payload.len() + 10);
    assert(f.subrange(4, 8) =~= spec_i32_le(p.req_id));
    assert(f.subrange(8, 12) =~= spec_i32_le(p.id));
    assert(f.subrange(12, 4 + spec_len_field(f) - 2) =~= p.payload);
    assert(decoded_packet(f) =~= p);
}

} // verus!
