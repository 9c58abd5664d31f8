use bincode::Options;
use scomm::connection::{Connection, ConnectionRecvError, ConnectionSendError};
use scomm::header::{DecodeHeaderError, HEADER_SIZE, LENGTH_FIELD_LEN};
use scomm::read::{ReadStatus, SocketReader, UpdateError};
use scomm::ser::{DecodeError, Writer};
use scomm::stream::{Stream, StreamAction, StreamEvent, StreamUpdateErr};
use scomm::write::SocketWriter;

fn encode(msg: &(u32, String)) -> Vec<u8> {
    bincode::options().serialize(msg).expect("serializes")
}

fn wire(bodies: &[Vec<u8>]) -> Vec<u8> {
    let mut w = Writer::new();
    for b in bodies {
        w.sink(b);
    }
    let mut out = Vec::new();
    while !w.is_empty() {
        let c = w.as_byte_source().to_vec();
        out.extend_from_slice(&c);
        w.advance(c.len());
    }
    out
}

fn marked_wire(bodies: &[Vec<u8>]) -> Vec<u8> {
    let mut w = Writer::<true>::empty();
    for b in bodies {
        w.sink(b);
    }
    let mut out = Vec::new();
    while !w.is_empty() {
        let c = w.as_byte_source().to_vec();
        out.extend_from_slice(&c);
        w.advance(c.len());
    }
    out
}

#[test]
fn empty_read_mid_body_is_disconnection() {
    let body = encode(&(1, "abc".to_string()));
    let bytes = wire(&[body]);
    let mut r = SocketReader::new();
    assert_eq!(r.on_read(&bytes[..LENGTH_FIELD_LEN + 1]), Ok(ReadStatus::NeedMore));
    assert_eq!(r.on_read(&[]), Err(UpdateError::Disconnected));
    assert_eq!(r.buf_len(), 1);
}

#[test]
fn empty_read_mid_header_is_disconnection() {
    let bytes = wire(&[vec![1, 2, 3]]);
    let mut r = SocketReader::new();
    assert_eq!(r.on_read(&bytes[..5]), Ok(ReadStatus::NeedMore));
    assert_eq!(r.on_read(&[]), Err(UpdateError::Disconnected));
}

#[test]
fn empty_read_between_frames_is_clean_close() {
    let mut r = SocketReader::new();
    assert_eq!(r.on_read(&[]), Ok(ReadStatus::PeerClosed));
    let bytes = wire(&[vec![4, 5]]);
    assert_eq!(r.on_read(&bytes), Ok(ReadStatus::MessageReady));
    assert_eq!(r.on_read(&[]), Ok(ReadStatus::PeerClosed));
    assert_eq!(r.get_next(), Some(vec![4, 5]));
}

#[test]
fn reader_update_decodes_buffered_frames_first() {
    let mut r = SocketReader::new();
    assert_eq!(r.update(), Ok(false));
    let bytes = wire(&[vec![1], vec![2]]);
    assert_eq!(r.on_read(&bytes), Ok(ReadStatus::MessageReady));
    assert_eq!(r.ready_len(), 2);
    assert_eq!(r.update(), Ok(false));
    assert_eq!(r.get_next(), Some(vec![1]));
    assert_eq!(r.get_next(), Some(vec![2]));
    assert_eq!(r.get_next(), None);
}

#[test]
fn corrupt_stream_is_reported() {
    let mut bytes = marked_wire(&[vec![1, 2]]);
    bytes[0] = b'X';
    let mut r = SocketReader::<true>::empty();
    assert_eq!(
        r.on_read(&bytes),
        Err(UpdateError::ReaderUpdate(DecodeError::DeserializeHeader(
            DecodeHeaderError::InvalidMarker
        )))
    );
    assert_eq!(r.ready_len(), 0);
}

#[test]
fn writer_reports_done_and_disconnection() {
    let mut w = SocketWriter::new();
    assert!(w.is_done());
    assert_eq!(w.on_write(0), Ok(true));
    w.queue(&[1, 2, 3]);
    assert_eq!(w.buf_len(), LENGTH_FIELD_LEN + 3);
    assert_eq!(w.on_write(0), Err(scomm::write::UpdateError::Disconnected));
    assert_eq!(w.buf_len(), LENGTH_FIELD_LEN + 3);
    assert_eq!(w.on_write(5), Ok(false));
    assert_eq!(w.as_byte_source().len(), LENGTH_FIELD_LEN + 3 - 5);
    assert_eq!(w.on_write(LENGTH_FIELD_LEN + 3 - 5), Ok(true));
    assert!(w.is_done());
}

#[test]
fn writer_sends_frames_one_buffer_at_a_time() {
    let mut w = SocketWriter::new();
    w.queue(&[7]);
    w.queue(&[8, 9]);
    assert_eq!(w.as_byte_source().len(), LENGTH_FIELD_LEN + 1);
    assert_eq!(w.as_byte_source()[LENGTH_FIELD_LEN], 7);
    assert_eq!(w.on_write(LENGTH_FIELD_LEN + 1), Ok(false));
    assert_eq!(w.as_byte_source().len(), LENGTH_FIELD_LEN + 2);
    assert_eq!(&w.as_byte_source()[LENGTH_FIELD_LEN..], &[8, 9]);
}

#[test]
fn stream_loop_writes_then_reads() {
    let mut s = Stream::new();
    assert_eq!(s.update_loop(StreamEvent::Start), Ok(StreamAction::Read));
    s.queue(&[1, 2, 3]);
    assert_eq!(s.update_loop(StreamEvent::Start), Ok(StreamAction::ReadOrWrite));
    let n = s.as_byte_source().len();
    assert_eq!(n, LENGTH_FIELD_LEN + 3);
    assert_eq!(s.update_loop(StreamEvent::Sent(4)), Ok(StreamAction::ReadOrWrite));
    assert_eq!(
        s.update_loop(StreamEvent::Sent(n - 4)),
        Ok(StreamAction::Read)
    );
    let incoming = wire(&[vec![42]]);
    assert_eq!(
        s.update_loop(StreamEvent::Received(incoming[..5].to_vec())),
        Ok(StreamAction::Read)
    );
    assert_eq!(
        s.update_loop(StreamEvent::Received(incoming[5..].to_vec())),
        Ok(StreamAction::MessageReady)
    );
    assert_eq!(s.get(), Some(vec![42]));
    assert_eq!(s.get(), None);
    assert_eq!(
        s.update_loop(StreamEvent::Received(Vec::new())),
        Ok(StreamAction::Closed)
    );
}

#[test]
fn stream_loop_reports_errors() {
    let mut s = Stream::new();
    s.queue(&[1]);
    assert_eq!(
        s.update_loop(StreamEvent::Sent(0)),
        Err(StreamUpdateErr::Writer(scomm::write::UpdateError::Disconnected))
    );
    let incoming = wire(&[vec![42]]);
    s.update_loop(StreamEvent::Received(incoming[..LENGTH_FIELD_LEN].to_vec()))
        .unwrap();
    assert_eq!(
        s.update_loop(StreamEvent::Received(Vec::new())),
        Err(StreamUpdateErr::Reader(UpdateError::Disconnected))
    );
}

#[test]
fn connection_round_trip_and_split() {
    let msgs = [encode(&(1, "a".into())), encode(&(2, "bb".into()))];
    let mut a = Connection::new();
    for m in &msgs {
        a.queue(m);
    }
    let mut b = Connection::new();
    while !a.is_flushed() {
        let chunk = a.as_byte_source().to_vec();
        let half = (chunk.len() + 1) / 2;
        b.received(&chunk[..half]).unwrap();
        a.sent(half).unwrap();
    }
    assert_eq!(a.sent(0), Ok(true));
    assert_eq!(b.get().as_deref(), Some(&msgs[0][..]));

    let (mut rh, mut wh) = b.into_split();
    assert_eq!(rh.get().as_deref(), Some(&msgs[1][..]));
    assert_eq!(rh.get(), None);
    wh.queue(&[5]);
    assert!(!wh.is_flushed());
    assert_eq!(wh.buf_len(), HEADER_SIZE + 1);
    assert_eq!(wh.sent(0), Err(ConnectionSendError::Disconnected));
    assert_eq!(wh.sent(HEADER_SIZE + 1), Ok(true));
    assert!(wh.is_flushed());
    assert_eq!(rh.received(&[]), Ok(ReadStatus::PeerClosed));
    assert_eq!(rh.received(&[1, 2]), Ok(ReadStatus::NeedMore));
    assert_eq!(rh.received(&[]), Err(ConnectionRecvError::Disconnected));
}

#[test]
fn connection_attempt_decode_steps() {
    let mut c = Connection::new();
    let bytes = marked_wire(&[vec![3, 4]]);
    c.received(&bytes[..HEADER_SIZE]).unwrap();
    assert_eq!(c.attempt_decode(), Ok(false));
    c.received(&bytes[HEADER_SIZE..]).unwrap();
    assert_eq!(c.attempt_decode(), Ok(false));
    assert_eq!(c.get(), Some(vec![3, 4]));
    let mut bad = bytes.clone();
    bad[1] = 0;
    let (mut rh, _wh) = Connection::new().into_split();
    assert_eq!(
        rh.received(&bad),
        Err(ConnectionRecvError::DecodeError(DecodeError::DeserializeHeader(
            DecodeHeaderError::InvalidMarker
        )))
    );
    assert_eq!(
        rh.attempt_decode(),
        Err(DecodeError::DeserializeHeader(DecodeHeaderError::InvalidMarker))
    );
    assert_eq!(rh.buf_len(), bad.len());
}

#[test]
fn stream_splits_with_its_state() {
    let mut s = Stream::new();
    s.queue(&[9]);
    let (mut rh, wh) = s.into_split();
    assert_eq!(wh.buf_len(), LENGTH_FIELD_LEN + 1);
    assert_eq!(rh.received(&wire(&[vec![6]])), Ok(ReadStatus::MessageReady));
    assert_eq!(rh.get(), Some(vec![6]));
}

const MARKER: &[u8] = b"alksjdlfi2h3uinqiu3498hgqi3rkbh3 miuhqr9g8 94uq912423562345yyjety[[]a";

#[test]
fn connection_decodes_foo_bar_in_two_steps() {
    let body = encode(&(10, "hi".to_string()));
    assert_eq!(body, vec![10, 2, 104, 105]);
    let mut frame = MARKER.to_vec();
    frame.extend_from_slice(&[0, 0, 0, 0, 0, 0, 0, 4]);
    frame.extend_from_slice(&body);

    let mut sender = Connection::new();
    sender.queue(&body);
    assert_eq!(sender.as_byte_source(), &frame[..]);

    let mut c = Connection::new();
    c.feed(&frame);
    assert_eq!(c.attempt_decode(), Ok(false));
    assert_eq!(c.recv_buf_len(), 4);
    assert_eq!(c.attempt_decode(), Ok(true));
    assert_eq!(c.recv_buf_len(), 0);
    assert_eq!(c.attempt_decode(), Ok(false));
    let got = c.get().unwrap();
    let msg: (u32, String) = bincode::options().deserialize(&got).unwrap();
    assert_eq!(msg, (10, "hi".to_string()));
    assert_eq!(c.get(), None);
}

#[test]
fn connection_attempt_decode_with_too_few_bytes_changes_nothing() {
    let mut c = Connection::new();
    c.feed(&MARKER[..40]);
    assert_eq!(c.attempt_decode(), Ok(false));
    assert_eq!(c.recv_buf_len(), 40);
    let mut bad = MARKER.to_vec();
    bad[68] = b'b';
    bad.extend_from_slice(&[0; 8]);
    let (mut rh, _wh) = Connection::new().into_split();
    rh.feed(&bad);
    assert_eq!(
        rh.attempt_decode(),
        Err(DecodeError::DeserializeHeader(DecodeHeaderError::InvalidMarker))
    );
    assert_eq!(rh.buf_len(), HEADER_SIZE);
    assert_eq!(rh.get(), None);
}

#[test]
fn connection_round_trip_many_messages_in_chunks() {
    let bodies: Vec<Vec<u8>> = (0..5u32).map(|i| encode(&(i, "x".repeat(i as usize)))).collect();
    let bytes = marked_wire(&bodies);
    for size in [1usize, 3, 8, 77, 80, 1000] {
        let mut c = Connection::new();
        for chunk in bytes.chunks(size) {
            c.received(chunk).unwrap();
        }
        for b in &bodies {
            assert_eq!(c.get().as_ref(), Some(b), "chunk size {}", size);
        }
        assert_eq!(c.get(), None);
        assert_eq!(c.recv_buf_len(), 0);
    }
}
