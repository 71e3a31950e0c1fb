use cdp_wire::errors::WireError;
use cdp_wire::frame::{
    apply_mask, decode_frame, decode_payload_len, encode_frame, encode_header, ext_len_count,
    mask_bit_set, Frame, FrameHeader, Opcode,
};

fn pattern(len: usize) -> Vec<u8> {
    let mut v = Vec::with_capacity(len);
    for i in 0..len {
        v.push((i % 251) as u8);
    }
    v
}

fn round_trip_len(len: usize) {
    let payload = pattern(len);
    let key = [0x12u8, 0x34, 0x56, 0x78];
    let wire = encode_frame(Opcode::TextFrame, payload.as_slice(), Some(key));
    let (frame, used) = decode_frame(wire.as_slice()).expect("round trip must decode");
    assert_eq!(used, wire.len());
    assert!(frame.header.fin);
    assert_eq!(frame.header.opcode, Opcode::TextFrame);
    assert!(frame.header.mask);
    assert_eq!(frame.header.payload_len, len);
    assert_eq!(frame.header.masking_key, Some(key));
    assert_eq!(frame.payload, payload);
}

#[test]
fn round_trip_masked_all_length_tiers() {
    round_trip_len(0);
    round_trip_len(1);
    round_trip_len(125);
    round_trip_len(126);
    round_trip_len(65535);
    round_trip_len(65536);
}

#[test]
fn round_trip_unmasked() {
    let payload = pattern(300);
    let wire = encode_frame(Opcode::BinaryFrame, payload.as_slice(), None);
    let (frame, used) = decode_frame(wire.as_slice()).expect("must decode");
    assert_eq!(used, wire.len());
    assert!(!frame.header.mask);
    assert_eq!(frame.header.masking_key, None);
    assert_eq!(frame.payload, payload);
}

#[test]
fn decode_consumes_prefix_only() {
    let payload = b"hi".to_vec();
    let mut wire = encode_frame(Opcode::TextFrame, payload.as_slice(), None);
    let frame_len = wire.len();
    wire.extend_from_slice(b"trailing bytes of the next frame");
    let (frame, used) = decode_frame(wire.as_slice()).expect("must decode");
    assert_eq!(used, frame_len);
    assert_eq!(frame.payload, payload);
}

#[test]
fn mask_twice_is_identity() {
    let key = [0xAAu8, 0x01, 0xFE, 0x7C];
    let data = pattern(1000);
    let once = apply_mask(data.as_slice(), &key);
    assert_ne!(once, data);
    let twice = apply_mask(once.as_slice(), &key);
    assert_eq!(twice, data);
}

#[test]
fn mask_applies_key_cyclically() {
    let key = [1u8, 2, 4, 8];
    let data = vec![0u8; 6];
    let masked = apply_mask(data.as_slice(), &key);
    assert_eq!(masked, vec![1u8, 2, 4, 8, 1, 2]);
}

#[test]
fn undefined_opcode_is_an_error() {
    // fin set, opcode bits 0x3: an undefined value must fail, not default.
    let wire = [0x83u8, 0x00];
    match decode_frame(&wire) {
        Err(WireError::InvalidOpcode(3)) => (),
        other => panic!("expected invalid-opcode error, got {:?}", other),
    }
    assert!(matches!(Opcode::from_u8(0x3), Err(WireError::InvalidOpcode(3))));
    assert!(matches!(Opcode::from_u8(0xf), Err(WireError::InvalidOpcode(0xf))));
}

#[test]
fn opcode_codes_round_trip() {
    for op in [
        Opcode::ContinuationFrame,
        Opcode::TextFrame,
        Opcode::BinaryFrame,
        Opcode::Close,
        Opcode::Ping,
        Opcode::Pong,
    ] {
        assert_eq!(Opcode::from_u8(op.to_u8()).unwrap(), op);
    }
}

#[test]
fn truncated_frames_are_errors() {
    assert!(is_truncated(decode_frame(&[])));
    assert!(is_truncated(decode_frame(&[0x81u8])));
    // announces a 16-bit length but ends before it
    assert!(is_truncated(decode_frame(&[0x81u8, 0x7e, 0x01])));
    // announces a 64-bit length but ends before it
    assert!(is_truncated(decode_frame(&[0x81u8, 0x7f, 0, 0, 0])));
    // announces 5 payload bytes but carries 2
    assert!(is_truncated(decode_frame(&[0x81u8, 0x05, 1, 2])));
    // mask bit set but no key follows
    assert!(is_truncated(decode_frame(&[0x81u8, 0x85, 9, 9])));
}

fn is_truncated(r: Result<(Frame, usize), WireError>) -> bool {
    matches!(r, Err(WireError::FrameTruncated))
}

#[test]
fn header_bytes_are_exact() {
    let h = FrameHeader {
        fin: true,
        opcode: Opcode::TextFrame,
        mask: false,
        payload_len: 5,
        masking_key: None,
    };
    assert_eq!(encode_header(&h), vec![0x81u8, 0x05]);

    let h16 = FrameHeader {
        fin: false,
        opcode: Opcode::BinaryFrame,
        mask: false,
        payload_len: 126,
        masking_key: None,
    };
    assert_eq!(encode_header(&h16), vec![0x02u8, 0x7e, 0x00, 0x7e]);

    let h64 = FrameHeader {
        fin: true,
        opcode: Opcode::Close,
        mask: false,
        payload_len: 65536,
        masking_key: None,
    };
    assert_eq!(
        encode_header(&h64),
        vec![0x88u8, 0x7f, 0, 0, 0, 0, 0, 1, 0, 0]
    );

    let hm = FrameHeader {
        fin: true,
        opcode: Opcode::TextFrame,
        mask: true,
        payload_len: 2,
        masking_key: Some([1, 2, 3, 4]),
    };
    assert_eq!(encode_header(&hm), vec![0x81u8, 0x82, 1, 2, 3, 4]);
}

#[test]
fn masked_frame_bytes_are_exact() {
    let wire = encode_frame(Opcode::TextFrame, &[0xFF, 0x00], Some([1, 2, 3, 4]));
    assert_eq!(wire, vec![0x81u8, 0x82, 1, 2, 3, 4, 0xFE, 0x02]);
}

#[test]
fn streaming_helpers_agree_with_wire_rule() {
    assert_eq!(ext_len_count(0x05), 0);
    assert_eq!(ext_len_count(0x85), 0);
    assert_eq!(ext_len_count(0x7e), 2);
    assert_eq!(ext_len_count(0xfe), 2);
    assert_eq!(ext_len_count(0x7f), 8);
    assert_eq!(ext_len_count(0xff), 8);
    assert!(mask_bit_set(0x85));
    assert!(!mask_bit_set(0x05));
    assert_eq!(decode_payload_len(0x05, &[]), Ok(5));
    assert_eq!(decode_payload_len(0x7e, &[0x01, 0x00]), Ok(256));
    assert_eq!(decode_payload_len(0x7f, &[0, 0, 0, 0, 0, 1, 0, 0]), Ok(65536));
}
