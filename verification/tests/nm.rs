use hecate::nm::{
    read_frame, read_message, write_frame, write_message, ByteOrder, ByteStream, FrameError,
    FrameReader, ReadEvent, ReadStep, MAX_INCOMING, MAX_OUTGOING,
};

#[test]
fn write_then_read_roundtrips() {
    let mut buf = Vec::new();
    write_message(&mut buf, br#"{"op":"list"}"#).unwrap();
    let mut cur = ByteStream::new(buf);
    let got = read_message(&mut cur).unwrap().unwrap();
    assert_eq!(got, br#"{"op":"list"}"#);
}

#[test]
fn clean_eof_returns_none() {
    let mut cur = ByteStream::new(Vec::new());
    assert!(read_message(&mut cur).unwrap().is_none());
}

#[test]
fn two_messages_in_sequence() {
    let mut buf = Vec::new();
    write_message(&mut buf, b"first").unwrap();
    write_message(&mut buf, b"second").unwrap();
    let mut cur = ByteStream::new(buf);
    assert_eq!(read_message(&mut cur).unwrap().unwrap(), b"first");
    assert_eq!(read_message(&mut cur).unwrap().unwrap(), b"second");
    assert!(read_message(&mut cur).unwrap().is_none());
}

#[test]
fn partial_prefix_is_error() {
    let mut cur = ByteStream::new(vec![0x01, 0x00]); // 2 bytes, not 4
    assert!(read_message(&mut cur).is_err());
}

#[test]
fn native_order_is_that_of_the_machine() {
    let mut buf = Vec::new();
    write_message(&mut buf, b"abc").unwrap();
    assert_eq!(buf[..4], 3u32.to_ne_bytes());
    assert_eq!(&buf[4..], b"abc");
}

#[test]
fn both_orders_have_their_bytes() {
    let body = vec![7u8; 0x010203];
    let mut little = Vec::new();
    write_frame(ByteOrder::Little, &mut little, &body).unwrap();
    assert_eq!(little[..4], [3, 2, 1, 0]);
    let mut big = Vec::new();
    write_frame(ByteOrder::Big, &mut big, &body).unwrap();
    assert_eq!(big[..4], [0, 1, 2, 3]);
    assert_eq!(read_frame(ByteOrder::Big, &mut ByteStream::new(big)).unwrap().unwrap(), body);
    assert_eq!(read_frame(ByteOrder::Little, &mut ByteStream::new(little)).unwrap().unwrap(), body);
}

#[test]
fn outgoing_cap_is_enforced() {
    let mut buf = vec![9u8];
    write_message(&mut buf, &vec![0u8; MAX_OUTGOING]).unwrap();
    let len = buf.len();
    let e = write_message(&mut buf, &vec![0u8; MAX_OUTGOING + 1]).unwrap_err();
    assert!(matches!(e, FrameError::InvalidData(_)));
    assert_eq!(e.to_text(), "outgoing message length 1048577 exceeds Chrome's 1 MB cap");
    assert_eq!(buf.len(), len);
}

#[test]
fn incoming_cap_is_enforced() {
    let mut bytes = (MAX_INCOMING + 1).to_le_bytes().to_vec();
    bytes.push(1);
    let e = read_frame(ByteOrder::Little, &mut ByteStream::new(bytes)).unwrap_err();
    assert!(matches!(e, FrameError::InvalidData(_)));
    assert_eq!(e.to_text(), "incoming message length 4194305 exceeds cap 4194304");
}

#[test]
fn streams_that_end_within_a_message() {
    let e = read_frame(ByteOrder::Little, &mut ByteStream::new(vec![1, 0, 0])).unwrap_err();
    assert!(matches!(e, FrameError::UnexpectedEof("EOF in the middle of a length prefix")));
    let e = read_frame(ByteOrder::Little, &mut ByteStream::new(vec![2, 0, 0, 0, 9])).unwrap_err();
    assert!(matches!(e, FrameError::UnexpectedEof("failed to fill whole buffer")));
    let got = read_frame(ByteOrder::Little, &mut ByteStream::new(vec![0, 0, 0, 0])).unwrap();
    assert_eq!(got, Some(Vec::new()));
}

#[test]
fn chunks_do_not_matter() {
    let mut framed = Vec::new();
    write_frame(ByteOrder::Little, &mut framed, b"chunked").unwrap();
    for size in 1..framed.len() + 1 {
        let mut reader = FrameReader::in_order(ByteOrder::Little);
        let mut at = 0;
        let mut step = reader.step();
        let got = loop {
            match step {
                ReadStep::Read(n) => {
                    let to = (at + n.min(size)).min(framed.len());
                    let piece = framed[at..to].to_vec();
                    at = to;
                    step = reader.feed(ReadEvent::Interrupted);
                    assert!(matches!(step, ReadStep::Read(_)));
                    step = reader.feed(ReadEvent::Data(piece));
                }
                ReadStep::Message(b) => break b,
                other => panic!("unexpected step {other:?}"),
            }
        };
        assert_eq!(got, b"chunked");
    }
}

#[test]
fn reader_reports_closed_cut_and_failed() {
    let mut r = FrameReader::new();
    assert!(matches!(r.feed(ReadEvent::Eof), ReadStep::Closed));
    assert!(matches!(r.feed(ReadEvent::Data(vec![1])), ReadStep::Read(3)));
    assert!(matches!(r.feed(ReadEvent::Eof), ReadStep::Fail(FrameError::UnexpectedEof(_))));
    let step = r.feed(ReadEvent::Failed("broken pipe".to_string()));
    assert!(matches!(step, ReadStep::Fail(FrameError::Failed(ref m)) if m == "broken pipe"));
}

#[test]
fn the_machine_writes_and_reads_in_one_order() {
    let mut framed = Vec::new();
    write_message(&mut framed, b"abc").unwrap();
    assert_eq!(framed[..4], 3u32.to_ne_bytes());
    let mut reader = FrameReader::new();
    assert!(matches!(reader.step(), ReadStep::Read(4)));
    let body = framed.split_off(4);
    assert!(matches!(reader.feed(ReadEvent::Data(framed)), ReadStep::Read(3)));
    assert!(matches!(reader.feed(ReadEvent::Data(body)), ReadStep::Message(ref b) if b == b"abc"));
}
