use bincode::Options;
use scomm::header::{HEADER_SIZE, LENGTH_FIELD_LEN};
use scomm::ser::{Reader, Writer};

fn encode(msg: &(usize, String)) -> Vec<u8> {
    bincode::options().serialize(msg).expect("serializes")
}

fn decode(body: &[u8]) -> (usize, String) {
    bincode::options().deserialize(body).expect("deserializes")
}

#[test]
fn test_ser_deser() {
    let msg = (10usize, "Hello, world!".to_string());

    let mut reader = Reader::new();
    let mut writer = Writer::new();

    let body = bincode::options()
        .serialize(&msg)
        .expect("Wrote message to writer");
    writer.sink(&body);
    reader.feed(writer.as_byte_source());

    reader.full_update().expect("Updated the reader");
    assert_eq!(Some(msg), reader.get_next().map(|b| decode(&b)));
}

#[test]
fn test_reader_debug() {
    let reader = Reader::new();
    println!("{:?}", reader);
}

#[test]
fn test_writer_debug() {
    let writer = Writer::new();
    println!("{:?}", writer);
}

#[test]
fn concrete_frame_of_small_message() {
    let msg = (10usize, "hi".to_string());
    let body = encode(&msg);
    let mut writer = Writer::new();
    writer.sink(&body);
    let wire = writer.as_byte_source().to_vec();

    let mut expected = (body.len() as u64).to_be_bytes().to_vec();
    expected.extend_from_slice(&body);
    assert_eq!(wire, expected);
    assert_eq!(wire.len(), LENGTH_FIELD_LEN + body.len());
    assert_eq!(writer.buf_len(), wire.len());

    let mut reader = Reader::new();
    reader.feed(&wire);
    assert_eq!(reader.full_update(), Ok(true));
    assert_eq!(reader.ready_len(), 1);
    assert_eq!(reader.buf_len(), 0);
    assert_eq!(decode(&reader.get_next().unwrap()), msg);
    assert_eq!(reader.get_next(), None);
}

#[test]
fn round_trip_one_byte_at_a_time() {
    let msg = (7usize, "one byte at a time".to_string());
    let mut writer = Writer::new();
    writer.sink(&encode(&msg));
    let wire = writer.as_byte_source().to_vec();

    let mut reader = Reader::new();
    let mut decoded = 0;
    for b in &wire {
        reader.feed(&[*b]);
        if reader.full_update().unwrap() {
            decoded += 1;
        }
    }
    assert_eq!(decoded, 1);
    assert_eq!(reader.ready_len(), 1);
    assert_eq!(decode(&reader.get_next().unwrap()), msg);
    assert!(!reader.is_mid_frame());
}

fn three_messages() -> Vec<(usize, String)> {
    vec![
        (1, "first".to_string()),
        (2, String::new()),
        (3, "third, a bit longer than the others".to_string()),
    ]
}

fn wire_of(msgs: &[(usize, String)]) -> Vec<u8> {
    let mut writer = Writer::new();
    for m in msgs {
        writer.sink(&encode(m));
    }
    let mut wire = Vec::new();
    while !writer.is_empty() {
        let chunk = writer.as_byte_source().to_vec();
        wire.extend_from_slice(&chunk);
        writer.advance(chunk.len());
    }
    wire
}

fn drain<const MARKED: bool>(reader: &mut Reader<MARKED>) -> Vec<(usize, String)> {
    let mut out = Vec::new();
    while let Some(b) = reader.get_next() {
        out.push(decode(&b));
    }
    out
}

#[test]
fn chunk_size_does_not_matter() {
    let msgs = three_messages();
    let wire = wire_of(&msgs);

    let mut whole = Reader::new();
    whole.feed(&wire);
    whole.full_update().unwrap();
    let at_once = drain(&mut whole);
    assert_eq!(at_once, msgs);

    for size in [1usize, 2, 5, 13, 76, 77, 78, 100] {
        let mut reader = Reader::new();
        for chunk in wire.chunks(size) {
            reader.feed(chunk);
            reader.full_update().unwrap();
        }
        assert_eq!(drain(&mut reader), at_once, "chunk size {}", size);
        assert_eq!(reader.buf_len(), 0);
    }
}

#[test]
fn messages_come_out_in_queue_order() {
    let msgs = three_messages();
    let mut reader = Reader::new();
    reader.feed(&wire_of(&msgs));
    assert_eq!(reader.full_update(), Ok(true));
    assert_eq!(reader.ready_len(), 3);
    assert_eq!(decode(&reader.get_next().unwrap()), msgs[0]);
    assert_eq!(decode(&reader.get_next().unwrap()), msgs[1]);
    assert_eq!(decode(&reader.get_next().unwrap()), msgs[2]);
    assert_eq!(reader.get_next(), None);
}

#[test]
fn single_steps_then_drain_match_one_drain() {
    let msgs = three_messages();
    let wire = wire_of(&msgs);

    let mut stepped = Reader::new();
    stepped.feed(&wire);
    // header, body, header: one message out and a header taken in
    assert_eq!(stepped.update(), Ok(false));
    assert!(stepped.awaiting_body());
    assert_eq!(stepped.update(), Ok(true));
    assert_eq!(stepped.update(), Ok(false));
    assert_eq!(stepped.ready_len(), 1);
    assert_eq!(stepped.full_update(), Ok(true));

    let mut once = Reader::new();
    once.feed(&wire);
    assert_eq!(once.full_update(), Ok(true));

    assert_eq!(drain(&mut stepped), drain(&mut once));
    assert_eq!(stepped.buf_len(), once.buf_len());
}

#[test]
fn draining_twice_decodes_nothing_new() {
    let msgs = three_messages();
    let wire = wire_of(&msgs);
    let mut reader = Reader::new();
    reader.feed(&wire[..wire.len() - 3]);
    assert_eq!(reader.full_update(), Ok(true));
    let ready = reader.ready_len();
    let buffered = reader.buf_len();
    assert_eq!(reader.full_update(), Ok(false));
    assert_eq!(reader.ready_len(), ready);
    assert_eq!(reader.buf_len(), buffered);
    reader.feed(&wire[wire.len() - 3..]);
    assert_eq!(reader.full_update(), Ok(true));
    assert_eq!(drain(&mut reader), msgs);
}

#[test]
fn empty_body_is_a_message() {
    let mut writer = Writer::new();
    writer.sink(&[]);
    assert_eq!(writer.buf_len(), LENGTH_FIELD_LEN);
    let mut reader = Reader::new();
    reader.feed(writer.as_byte_source());
    assert_eq!(reader.full_update(), Ok(true));
    assert_eq!(reader.get_next(), Some(Vec::new()));
}

#[test]
fn partial_writes_send_the_stream_in_order() {
    let msgs = three_messages();
    let expected = wire_of(&msgs);
    let mut writer = Writer::new();
    for m in &msgs {
        writer.sink(&encode(m));
    }
    assert_eq!(writer.buf_len(), expected.len());
    let mut sent = Vec::new();
    let mut step = 1usize;
    while !writer.is_empty() {
        let chunk = writer.as_byte_source();
        let n = step.min(chunk.len());
        sent.extend_from_slice(&chunk[..n]);
        writer.advance(n);
        step = step * 3 + 1;
    }
    assert_eq!(sent, expected);
    assert_eq!(writer.buf_len(), 0);
    assert!(writer.as_byte_source().is_empty());
}

#[test]
fn corrupt_marker_stops_the_decoder() {
    let msgs = three_messages();
    let mut writer = Writer::<true>::empty();
    for m in &msgs {
        writer.sink(&encode(m));
    }
    let mut wire = Vec::new();
    while !writer.is_empty() {
        let chunk = writer.as_byte_source().to_vec();
        wire.extend_from_slice(&chunk);
        writer.advance(chunk.len());
    }
    let second = wire.len() - (HEADER_SIZE + encode(&msgs[2]).len());
    wire[second + 3] ^= 0xff;
    let mut reader = Reader::<true>::empty();
    reader.feed(&wire);
    let err = reader.full_update();
    assert!(err.is_err());
    assert_eq!(reader.ready_len(), 2);
    // the decoder stays where it stopped
    assert_eq!(reader.full_update(), err);
    assert_eq!(reader.buf_len(), wire.len() - second);
}

#[test]
fn marked_frames_round_trip_in_small_chunks() {
    let msgs = three_messages();
    let mut writer = Writer::<true>::empty();
    for m in &msgs {
        writer.sink(&encode(m));
    }
    let wire = writer.as_byte_source().to_vec();
    assert_eq!(wire.len(), HEADER_SIZE + encode(&msgs[0]).len());
    let mut reader = Reader::<true>::empty();
    while !writer.is_empty() {
        let chunk = writer.as_byte_source().to_vec();
        for piece in chunk.chunks(7) {
            reader.feed(piece);
            reader.full_update().unwrap();
        }
        writer.advance(chunk.len());
    }
    assert_eq!(drain(&mut reader), msgs);
}
