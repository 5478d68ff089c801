use rush::frame::{
    apply_mask, check_frame, decode_frame, encode_frame, ext_len_size, parse_frame_start, payload_len,
    FrameError, FrameRead, FrameStart, MAX_FRAME, OP_BINARY, OP_CLOSE, OP_PING, OP_TEXT,
};

#[test]
fn unmasked_text_frame_bytes() {
    assert_eq!(encode_frame(OP_TEXT, b"Hello", None), vec![0x81, 0x05, 0x48, 0x65, 0x6c, 0x6c, 0x6f]);
}

#[test]
fn masked_text_frame_bytes() {
    // The masked "Hello" of RFC 6455, section 5.7.
    let out = encode_frame(OP_TEXT, b"Hello", Some([0x37, 0xfa, 0x21, 0x3d]));
    assert_eq!(out, vec![0x81, 0x85, 0x37, 0xfa, 0x21, 0x3d, 0x7f, 0x9f, 0x4d, 0x51, 0x58]);
}

#[test]
fn sixteen_bit_length() {
    let payload = vec![7u8; 256];
    let out = encode_frame(OP_BINARY, &payload, None);
    assert_eq!(&out[..4], &[0x82, 0x7e, 0x01, 0x00]);
    assert_eq!(out.len(), 260);
}

#[test]
fn sixty_four_bit_length() {
    let payload = vec![1u8; 70000];
    let out = encode_frame(OP_BINARY, &payload, None);
    assert_eq!(&out[..10], &[0x82, 0x7f, 0, 0, 0, 0, 0, 0x01, 0x11, 0x70]);
    assert_eq!(out.len(), 70010);
}

#[test]
fn client_reads_server_frame() {
    let buf = [0x81, 0x05, 0x48, 0x65, 0x6c, 0x6c, 0x6f, 0x99];
    match decode_frame(&buf, true) {
        FrameRead::Complete(f, used) => {
            assert!(f.fin);
            assert_eq!(f.opcode, OP_TEXT);
            assert_eq!(f.payload, b"Hello".to_vec());
            assert_eq!(used, 7);
        },
        _ => panic!("expected a whole frame"),
    }
}

#[test]
fn server_unmasks_client_frame() {
    let buf = [0x81, 0x85, 0x37, 0xfa, 0x21, 0x3d, 0x7f, 0x9f, 0x4d, 0x51, 0x58];
    match decode_frame(&buf, false) {
        FrameRead::Complete(f, used) => {
            assert_eq!(f.payload, b"Hello".to_vec());
            assert_eq!(used, 11);
        },
        _ => panic!("expected a whole frame"),
    }
}

#[test]
fn masking_is_refused_by_the_wrong_side() {
    let unmasked = [0x81, 0x00];
    assert!(matches!(decode_frame(&unmasked, false), FrameRead::Invalid(FrameError::InvalidMasking)));
    let masked = [0x81, 0x80, 1, 2, 3, 4];
    assert!(matches!(decode_frame(&masked, true), FrameRead::Invalid(FrameError::InvalidMasking)));
}

#[test]
fn partial_frames_need_more() {
    assert!(matches!(decode_frame(&[], true), FrameRead::NeedMore));
    assert!(matches!(decode_frame(&[0x81], true), FrameRead::NeedMore));
    assert!(matches!(decode_frame(&[0x81, 0x05, 0x48], true), FrameRead::NeedMore));
    assert!(matches!(decode_frame(&[0x82, 0x7e, 0x01], true), FrameRead::NeedMore));
}

#[test]
fn oversized_frames_are_refused() {
    // A ping that claims 126 bytes.
    assert!(matches!(decode_frame(&[0x89, 0x7e, 0x00, 0x7e], true), FrameRead::Invalid(FrameError::InvalidSize)));
    // A fragmented ping.
    assert!(matches!(decode_frame(&[0x09, 0x00], true), FrameRead::Invalid(FrameError::InvalidSize)));
    // A binary frame one byte over the limit.
    let over = [0x82, 0x7f, 0, 0, 0, 0, 0, 0x10, 0x00, 0x01];
    assert!(matches!(decode_frame(&over, true), FrameRead::Invalid(FrameError::InvalidSize)));
}

#[test]
fn frames_decode_as_encoded() {
    for (opcode, payload, mask) in [
        (OP_BINARY, vec![0u8, 1, 2, 255], Some([9u8, 8, 7, 6])),
        (OP_TEXT, b"resize".to_vec(), None),
        (OP_PING, Vec::new(), Some([1u8, 1, 1, 1])),
        (OP_BINARY, vec![42u8; 300], Some([0xde, 0xad, 0xbe, 0xef])),
    ] {
        let bytes = encode_frame(opcode, &payload, mask);
        match decode_frame(&bytes, mask.is_some() == false) {
            FrameRead::Complete(f, used) => {
                assert!(f.fin);
                assert_eq!(f.opcode, opcode);
                assert_eq!(f.payload, payload);
                assert_eq!(used, bytes.len());
            },
            _ => panic!("expected the frame back"),
        }
    }
}

#[test]
fn frame_start_fields() {
    assert_eq!(
        parse_frame_start(0x81, 0x85, false),
        Ok(FrameStart { fin: true, opcode: OP_TEXT, masked: true, len_code: 5 })
    );
    assert_eq!(
        parse_frame_start(0x08, 0x7e, true),
        Ok(FrameStart { fin: false, opcode: OP_CLOSE, masked: false, len_code: 126 })
    );
    assert_eq!(parse_frame_start(0x81, 0x05, false), Err(FrameError::InvalidMasking));
}

#[test]
fn extended_length_sizes() {
    assert_eq!(ext_len_size(125), 0);
    assert_eq!(ext_len_size(126), 2);
    assert_eq!(ext_len_size(127), 8);
    assert_eq!(payload_len(&[0x01, 0x00]), 256);
    assert_eq!(payload_len(&[0, 0, 0, 0, 0, 0x01, 0x11, 0x70]), 70000);
    assert_eq!(payload_len(&[]), 0);
}

#[test]
fn size_checks() {
    assert_eq!(check_frame(true, OP_BINARY, MAX_FRAME as u64), Ok(MAX_FRAME));
    assert_eq!(check_frame(true, OP_BINARY, MAX_FRAME as u64 + 1), Err(FrameError::InvalidSize));
    assert_eq!(check_frame(true, OP_PING, 125), Ok(125));
    assert_eq!(check_frame(true, OP_PING, 126), Err(FrameError::InvalidSize));
    assert_eq!(check_frame(false, OP_CLOSE, 0), Err(FrameError::InvalidSize));
    assert_eq!(check_frame(false, OP_TEXT, 10), Ok(10));
}

#[test]
fn masking_twice_restores_payload() {
    let original = b"terminal bytes".to_vec();
    let mut p = original.clone();
    apply_mask(&mut p, [0x12, 0x34, 0x56, 0x78]);
    assert_ne!(p, original);
    assert_eq!(p[0], b't' ^ 0x12);
    assert_eq!(p[5], b'n' ^ 0x34);
    apply_mask(&mut p, [0x12, 0x34, 0x56, 0x78]);
    assert_eq!(p, original);
}
