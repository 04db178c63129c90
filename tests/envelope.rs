use inbox_kernel::envelope::{decode, decode_frame, encode, DecodeError, Frame, InboxMessage};

fn message(level: u32, counter: u32, payload: &[u8]) -> InboxMessage {
    InboxMessage { level, counter, payload: payload.to_vec() }
}

#[test]
fn encode_writes_tag_big_endian_header_then_payload() {
    assert_eq!(encode(1, 0, b"hi"), vec![1, 0, 0, 0, 1, 0, 0, 0, 0, b'h', b'i']);
    assert_eq!(
        encode(0x0102_0304, 0xA0B0_C0D0, &[]),
        vec![1, 0x01, 0x02, 0x03, 0x04, 0xA0, 0xB0, 0xC0, 0xD0]
    );
}

#[test]
fn decode_reads_an_external_envelope() {
    let b = [1u8, 0, 0, 1, 0, 0, 0, 0, 7, b'x', b'y', b'z'];
    assert_eq!(decode(&b), Ok(message(256, 7, b"xyz")));
}

#[test]
fn decode_keeps_the_bytes_after_the_tag() {
    // The payload is what follows the header, not the tag or the header itself.
    let b = [1u8, 0, 0, 0, 5, 0, 0, 0, 6];
    assert_eq!(decode(&b), Ok(message(5, 6, &[])));
}

#[test]
fn round_trip_gives_back_the_envelope() {
    let cases: Vec<(u32, u32, Vec<u8>)> = vec![
        (0, 0, vec![]),
        (1, 1, b"there".to_vec()),
        (u32::MAX, u32::MAX, vec![0xFF; 300]),
        (0x8000_0001, 42, vec![0, 1, 0]),
    ];
    for (level, counter, payload) in cases {
        let b = encode(level, counter, &payload);
        assert_eq!(decode(&b), Ok(message(level, counter, &payload)));
    }
}

#[test]
fn decode_is_deterministic() {
    let inputs: Vec<Vec<u8>> = vec![vec![], vec![0xFF], vec![1, 0, 0], encode(9, 8, b"abc"), vec![0, 1]];
    for b in inputs {
        assert_eq!(decode(&b), decode(&b));
    }
}

#[test]
fn empty_input_is_malformed() {
    assert_eq!(decode(&[]), Err(DecodeError::Malformed));
}

#[test]
fn unknown_tag_is_malformed() {
    assert_eq!(decode(&[0xFF]), Err(DecodeError::Malformed));
    assert_eq!(decode(&[2, 0, 0, 0, 1, 0, 0, 0, 0]), Err(DecodeError::Malformed));
}

#[test]
fn truncated_header_is_rejected() {
    for len in 1..9usize {
        let b = &encode(1, 2, b"payload")[..len];
        assert_eq!(decode(b), Err(DecodeError::Truncated));
    }
}

#[test]
fn short_buffers_never_decode() {
    for first in [0u8, 1, 2, 0x7F, 0xFF] {
        for len in 1..9usize {
            let mut b = vec![first];
            b.resize(len, 1);
            assert!(decode(&b).is_err());
        }
    }
}

#[test]
fn internal_messages_carry_no_envelope() {
    // Start of level, then end of level.
    assert_eq!(decode(&[0, 1]), Err(DecodeError::Internal));
    assert_eq!(decode(&[0, 2]), Err(DecodeError::Internal));
}

#[test]
fn malformed_internal_messages_are_rejected() {
    assert_eq!(decode(&[0]), Err(DecodeError::Malformed));
    assert_eq!(decode(&[0, 0xEE]), Err(DecodeError::Malformed));
}

#[test]
fn decode_frame_covers_each_frame() {
    assert_eq!(decode_frame(None), Err(DecodeError::Malformed));
    assert_eq!(decode_frame(Some(Frame::Internal)), Err(DecodeError::Internal));
    assert_eq!(decode_frame(Some(Frame::External(vec![0, 0, 0]))), Err(DecodeError::Truncated));
    assert_eq!(
        decode_frame(Some(Frame::External(vec![0, 0, 0, 3, 0, 0, 1, 0, b'q']))),
        Ok(message(3, 256, b"q"))
    );
}
