use phase_sync::frame::{decode_frame, encode_frame, FrameError, FrameReader, MAX_PAYLOAD, PREFIX_LEN};

#[test]
fn a_frame_is_four_bytes_of_length_and_the_payload() {
    assert_eq!(encode_frame(b"abc").unwrap(), vec![0, 0, 0, 3, b'a', b'b', b'c']);
    assert_eq!(encode_frame(b"").unwrap(), vec![0, 0, 0, 0]);
    assert_eq!(PREFIX_LEN, 4);
}

#[test]
fn the_length_is_written_most_significant_byte_first() {
    let payload = vec![7u8; 0x01_02_03];
    let frame = encode_frame(&payload).unwrap();
    assert_eq!(&frame[..4], &[0x00, 0x01, 0x02, 0x03]);
    assert_eq!(frame.len(), 4 + 0x01_02_03);
    assert_eq!(&frame[4..], &payload[..]);
}

#[test]
fn decoding_a_frame_gives_the_payload_back() {
    let frame = encode_frame(b"hello").unwrap();
    assert_eq!(decode_frame(&frame), Some((b"hello".to_vec(), 9)));
}

#[test]
fn decoding_leaves_what_follows_the_frame() {
    let mut bytes = encode_frame(b"one").unwrap();
    bytes.extend_from_slice(&encode_frame(b"three").unwrap());
    let (first, used) = decode_frame(&bytes).unwrap();
    assert_eq!(first, b"one".to_vec());
    assert_eq!(used, 7);
    let (second, used2) = decode_frame(&bytes[used..]).unwrap();
    assert_eq!(second, b"three".to_vec());
    assert_eq!(used + used2, bytes.len());
}

#[test]
fn every_proper_prefix_of_a_frame_is_incomplete() {
    let frame = encode_frame(b"payload").unwrap();
    for k in 0..frame.len() {
        assert_eq!(decode_frame(&frame[..k]), None);
    }
    assert!(decode_frame(&frame).is_some());
}

#[test]
fn an_empty_payload_makes_a_whole_frame() {
    assert_eq!(decode_frame(&[0, 0, 0, 0]), Some((vec![], 4)));
    assert_eq!(decode_frame(&[0, 0, 0, 0, 9]), Some((vec![], 4)));
}

#[test]
fn the_largest_payload_is_what_four_bytes_can_say() {
    assert_eq!(MAX_PAYLOAD, 4_294_967_295);
    assert_eq!(decode_frame(&[0xff, 0xff, 0xff, 0xff, 1, 2, 3]), None);
    assert_ne!(encode_frame(b"small"), Err(FrameError::PayloadTooLarge));
}

#[test]
fn reader_hands_out_frames_that_arrive_byte_by_byte() {
    let mut stream = encode_frame(b"first").unwrap();
    stream.extend_from_slice(&encode_frame(b"").unwrap());
    stream.extend_from_slice(&encode_frame(b"third").unwrap());
    let mut reader = FrameReader::new();
    let mut got: Vec<Vec<u8>> = Vec::new();
    for b in stream {
        reader.feed(&[b]);
        while let Some(p) = reader.next_frame() {
            got.push(p);
        }
    }
    assert_eq!(got, vec![b"first".to_vec(), b"".to_vec(), b"third".to_vec()]);
    assert_eq!(reader.pending_len(), 0);
}

#[test]
fn reader_takes_apart_frames_that_arrive_glued_together() {
    let mut stream = encode_frame(b"a").unwrap();
    stream.extend_from_slice(&encode_frame(b"bc").unwrap());
    stream.extend_from_slice(&[0, 0, 0, 5, b'x']);
    let mut reader = FrameReader::new();
    reader.feed(&stream);
    assert_eq!(reader.drain_frames(), vec![b"a".to_vec(), b"bc".to_vec()]);
    assert_eq!(reader.pending_len(), 5);
    assert_eq!(reader.next_frame(), None);
    assert_eq!(reader.pending_len(), 5);
    reader.feed(b"yzuv");
    assert_eq!(reader.next_frame(), Some(b"xyzuv".to_vec()));
    assert_eq!(reader.pending_len(), 0);
}

#[test]
fn the_way_a_stream_is_cut_does_not_change_what_is_read() {
    let payloads: Vec<Vec<u8>> = vec![b"alpha".to_vec(), b"".to_vec(), b"be".to_vec(), vec![0; 300]];
    let mut stream = Vec::new();
    for p in &payloads {
        stream.extend_from_slice(&encode_frame(p).unwrap());
    }
    for chunk in [1usize, 2, 3, 5, 7, 64, 1000] {
        let mut reader = FrameReader::new();
        let mut got = Vec::new();
        for piece in stream.chunks(chunk) {
            reader.feed(piece);
            got.extend(reader.drain_frames());
        }
        assert_eq!(got, payloads);
        assert_eq!(reader.pending_len(), 0);
    }
}
