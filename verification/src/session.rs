//! Session layer: owns the read accumulator, the write accumulator and
//! the request-id counter, and decides, from buffered bytes alone, when a
//! packet is ready. Transport I/O stays with the caller: it hands every
//! chunk the transport produced to `feed`, and transfers the `outgoing`
//! bytes itself, clearing them only after a complete transfer.

use crate::codec::{
    decode_complete, decode_incomplete, decode_malformed, decoded_packet, decoded_size, spec_frame,
    DecodeStep, Packet, PacketSpec,
};
use vstd::prelude::*;

verus! {

/// Mathematical state of a session.
#[verifier::ext_equal]
pub struct SessionSpec {
    pub read_buf: Seq<u8>,
    pub write_buf: Seq<u8>,
    pub req_id: i32,
}

/// A protocol session over one connection. Bytes leave the read
/// accumulator only from the front, and only when a whole frame has been
/// carved out of it; the request-id counter starts at 0, grows by one per
/// queued write, and is never reused.
pub struct Session {
    read_buf: Vec<u8>,
    write_buf: Vec<u8>,
    req_id: i32,
}

impl View for Session {
    type V = SessionSpec;

    closed spec fn view(&self) -> SessionSpec {
        SessionSpec { read_buf: self.read_buf@, write_buf: self.write_buf@, req_id: self.req_id }
    }
}

/// The session after one queued write: the frame is appended to the write
/// accumulator carrying the current request id, and the counter moves
/// past it.
pub open spec fn spec_write(s: SessionSpec, id: i32, payload: Seq<u8>) -> SessionSpec
    recommends
        s.req_id < i32::MAX,
        payload.len() + 10 <= i32::MAX,
{
    SessionSpec {
        read_buf: s.read_buf,
        write_buf: s.write_buf + spec_frame(PacketSpec { req_id: s.req_id, id, payload }),
        req_id: (s.req_id + 1) as i32,
    }
}

impl Session {
    /// A fresh session: empty accumulators, request ids starting at 0.
    pub fn new() -> (s: Session)
        ensures
            s@.read_buf == Seq::<u8>::empty(),
            s@.write_buf == Seq::<u8>::empty(),
            s@.req_id == 0,
    {
        Session { read_buf: Vec::new(), write_buf: Vec::new(), req_id: 0 }
    }

    /// The request id the next queued write will carry.
    pub fn next_request_id(&self) -> (r: i32)
        ensures
            r == self@.req_id,
    {
        self.req_id
    }

    /// Build a packet around `payload` with the next request id, encode
    /// it into the write accumulator, and advance the counter. Touches no
    /// transport.
    pub fn write(&mut self, id: i32, payload: &[u8])
        requires
            old(self)@.req_id < i32::MAX,
            payload@.len() + 10 <= i32::MAX,
        ensures
            final(self)@ == spec_write(old(self)@, id, payload@),
    {
        let packet = Packet { req_id: self.req_id, id, payload: vstd::slice::slice_to_vec(payload) };
        packet.write(&mut self.write_buf);
        self.req_id = self.req_id + 1;
        proof {
            assert(self@ =~= spec_write(old(self)@, id, payload@));
        }
    }

    /// Try to carve one packet out of the read accumulator. `Ok(Some(_))`
    /// consumes exactly the frame's bytes from the front; `Ok(None)`
    /// (incomplete) consumes nothing, so another transport read should
    /// follow; a malformed length field is fatal.
    pub fn try_receive(&mut self) -> (r: Result<Option<Packet>, crate::protocol::ProtocolError>)
        ensures
            final(self)@.write_buf == old(self)@.write_buf,
            final(self)@.req_id == old(self)@.req_id,
            match r {
                Ok(Some(p)) => decode_complete(old(self)@.read_buf)
                    && p@ == decoded_packet(old(self)@.read_buf)
                    && final(self)@.read_buf == old(self)@.read_buf.skip(decoded_size(old(self)@.read_buf)),
                Ok(None) => decode_incomplete(old(self)@.read_buf)
                    && final(self)@.read_buf == old(self)@.read_buf,
                Err(e) => e == crate::protocol::ProtocolError::MalformedFrame
                    && decode_malformed(old(self)@.read_buf)
                    && final(self)@.read_buf == old(self)@.read_buf,
            },
    {
        match Packet::read(self.read_buf.as_slice()) {
            DecodeStep::Complete(p, n) => {
                let rest = self.read_buf.split_off(n);
                self.read_buf = rest;
                proof {
                    assert(self.read_buf@ =~= old(self)@.read_buf.skip(n as int));
                }
                Ok(Some(p))
            },
            DecodeStep::Incomplete => Ok(None),
            DecodeStep::Malformed => Err(crate::protocol::ProtocolError::MalformedFrame),
        }
    }

    /// Absorb the outcome of one transport read. A non-empty chunk is
    /// appended to the read accumulator; an empty chunk means the peer
    /// closed the connection before a whole frame arrived, which is fatal
    /// to the operation in flight.
    pub fn feed(&mut self, data: &[u8]) -> (r: Result<(), crate::protocol::ProtocolError>)
        ensures
            final(self)@.write_buf == old(self)@.write_buf,
            final(self)@.req_id == old(self)@.req_id,
            match r {
                Ok(_) => data@.len() > 0 && final(self)@.read_buf == old(self)@.read_buf + data@,
                Err(e) => e == crate::protocol::ProtocolError::ConnectionClosed
                    && data@.len() == 0 && final(self)@.read_buf == old(self)@.read_buf,
            },
    {
        if data.len() == 0 {
            return Err(crate::protocol::ProtocolError::ConnectionClosed);
        }
        proof {
            assert(self.read_buf@ =~= old(self)@.read_buf + data@.take(0));
        }
        let mut i: usize = 0;
        while i < data.len()
            invariant
                i <= data@.len(),
                self.read_buf@ == old(self)@.read_buf + data@.take(i as int),
                self.write_buf@ == old(self)@.write_buf,
                self.req_id == old(self)@.req_id,
            decreases data@.len() - i,
        {
            let b: u8 = *vstd::slice::slice_index_get(data, i);
            self.read_buf.push(b);
            proof {
                assert(self.read_buf@ =~= old(self)@.read_buf + data@.take(i + 1));
            }
            i = i + 1;
        }
        proof {
            assert(data@.take(data@.len() as int) =~= data@);
        }
        Ok(())
    }

    /// The bytes queued for transmission and not yet handed to the
    /// transport.
    pub fn outgoing(&self) -> (b: &Vec<u8>)
        ensures
            b@ == self@.write_buf,
    {
        &self.write_buf
    }

    /// Forget the queued bytes, after the caller has transferred all of
    /// them to the transport.
    pub fn clear_outgoing(&mut self)
        ensures
            final(self)@.write_buf == Seq::<u8>::empty(),
            final(self)@.read_buf == old(self)@.read_buf,
            final(self)@.req_id == old(self)@.req_id,
    {
        self.write_buf.clear();
    }
}

/// The session after queuing every message of `msgs` in order; a message
/// is a type id paired with a payload.
pub open spec fn spec_write_all(s: SessionSpec, msgs: Seq<(i32, Seq<u8>)>) -> SessionSpec
    decreases msgs.len(),
{
    if msgs.len() == 0 {
        s
    } else {
        spec_write_all(spec_write(s, msgs[0].0, msgs[0].1), msgs.skip(1))
    }
}

/// The frames of `msgs` laid end to end, the first carrying request id
/// `first_id`, each later one an id one higher than the frame before it.
pub open spec fn spec_frames(first_id: i32, msgs: Seq<(i32, Seq<u8>)>) -> Seq<u8>
    decreases msgs.len(),
{
    if msgs.len() == 0 {
        Seq::empty()
    } else {
        spec_frame(PacketSpec { req_id: first_id, id: msgs[0].0, payload: msgs[0].1 })
            + spec_frames((first_id + 1) as i32, msgs.skip(1))
    }
}

/// Monotonic request ids: after queuing the messages of `msgs` one after
/// the other, the counter has advanced by one per message, the read side
/// is untouched, and the write accumulator has gained their frames in
/// order, carrying the consecutive request ids `s.req_id, s.req_id + 1,
/// ...` — that is, ids `0, 1, ..., N - 1` on a fresh session.
pub proof fn lemma_monotonic_request_ids(s: SessionSpec, msgs: Seq<(i32, Seq<u8>)>)
    requires
        s.req_id + msgs.len() <= i32::MAX,
        forall|k: int| 0 <= k < msgs.len() ==> (#[trigger] msgs[k]).1.len() + 10 <= i32::MAX,
    ensures
        spec_write_all(s, msgs).req_id == s.req_id + msgs.len(),
        spec_write_all(s, msgs).read_buf == s.read_buf,
        spec_write_all(s, msgs).write_buf == s.write_buf + spec_frames(s.req_id, msgs),
    decreases msgs.len(),
{
    if msgs.len() == 0 {
        assert(s.write_buf + spec_frames(s.req_id, msgs) =~= s.write_buf);
    } else {
        let s1 = spec_write(s, msgs[0].0, msgs[0].1);
        lemma_monotonic_request_ids(s1, msgs.skip(1));
        assert(s.write_buf + spec_frames(s.req_id, msgs) =~= s1.write_buf + spec_frames(
            s1.req_id,
            msgs.skip(1),
        ));
    }
}

} // verus!

