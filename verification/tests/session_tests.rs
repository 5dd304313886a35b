use rcon::codec::{DecodeStep, Packet};
use rcon::protocol::ProtocolError;
use rcon::session::Session;

/// Carve every complete packet out of a byte buffer, in order.
fn parse_all(mut bytes: &[u8]) -> Vec<Packet> {
    let mut out = Vec::new();
    while let DecodeStep::Complete(p, n) = Packet::read(bytes) {
        out.push(p);
        bytes = &bytes[n..];
    }
    assert!(bytes.is_empty(), "leftover bytes after parsing");
    out
}

#[test]
fn fresh_session_is_empty() {
    let s = Session::new();
    assert_eq!(s.next_request_id(), 0);
    assert!(s.outgoing().is_empty());
}

#[test]
fn monotonic_request_ids_across_writes() {
    let mut s = Session::new();
    s.write(2, b"first");
    s.write(2, b"second");
    s.write(2, b"third");
    assert_eq!(s.next_request_id(), 3);
    let packets = parse_all(s.outgoing());
    assert_eq!(packets.len(), 3);
    for (k, p) in packets.iter().enumerate() {
        assert_eq!(p.req_id, k as i32);
        assert_eq!(p.id, 2);
    }
    assert_eq!(packets[0].payload, b"first".to_vec());
    assert_eq!(packets[1].payload, b"second".to_vec());
    assert_eq!(packets[2].payload, b"third".to_vec());
}

#[test]
fn clear_outgoing_empties_the_write_buffer() {
    let mut s = Session::new();
    s.write(2, b"queued");
    assert!(!s.outgoing().is_empty());
    s.clear_outgoing();
    assert!(s.outgoing().is_empty());
    assert_eq!(s.next_request_id(), 1);
}

#[test]
fn receive_after_partial_then_rest() {
    let mut sender = Session::new();
    sender.write(2, b"partial delivery");
    let frame = sender.outgoing().clone();

    let mut s = Session::new();
    s.feed(&frame[..5]).unwrap();
    assert!(matches!(s.try_receive(), Ok(None)));
    s.feed(&frame[5..]).unwrap();
    match s.try_receive() {
        Ok(Some(p)) => {
            assert_eq!(p.req_id, 0);
            assert_eq!(p.id, 2);
            assert_eq!(p.payload, b"partial delivery".to_vec());
        }
        _ => panic!("expected a packet after the rest of the frame"),
    }
    // the accumulator advanced by exactly the frame: nothing is left
    assert!(matches!(s.try_receive(), Ok(None)));
}

#[test]
fn receive_keeps_bytes_of_the_next_frame() {
    let mut sender = Session::new();
    sender.write(2, b"one");
    sender.write(2, b"two");
    let two_frames = sender.outgoing().clone();

    let mut s = Session::new();
    s.feed(&two_frames).unwrap();
    let first = s.try_receive().unwrap().unwrap();
    assert_eq!(first.req_id, 0);
    assert_eq!(first.payload, b"one".to_vec());
    let second = s.try_receive().unwrap().unwrap();
    assert_eq!(second.req_id, 1);
    assert_eq!(second.payload, b"two".to_vec());
    assert!(matches!(s.try_receive(), Ok(None)));
}

#[test]
fn transport_close_mid_frame_is_connection_closed() {
    // 5 bytes of a frame whose length field announces 20 bytes in all
    let mut s = Session::new();
    let partial: [u8; 5] = [16, 0, 0, 0, 9];
    s.feed(&partial).unwrap();
    assert!(matches!(s.try_receive(), Ok(None)));
    assert_eq!(s.feed(&[]), Err(ProtocolError::ConnectionClosed));
}

#[test]
fn malformed_length_field_is_an_error() {
    let mut s = Session::new();
    s.feed(&[5, 0, 0, 0, 1, 2, 3, 4, 5]).unwrap();
    assert!(matches!(s.try_receive(), Err(ProtocolError::MalformedFrame)));
}

#[test]
fn negative_length_field_is_an_error() {
    let mut s = Session::new();
    s.feed(&[0xFF, 0xFF, 0xFF, 0xFF]).unwrap();
    assert!(matches!(s.try_receive(), Err(ProtocolError::MalformedFrame)));
}
