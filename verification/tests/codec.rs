use jk::codec::{decode_msg, encode_msg, exit_code, Code, Decoder, DecodeError, Encoder, Frame,
    StreamDecoder};

fn all_codes() -> Vec<Code> {
    vec![
        Code::Arg,
        Code::Locale,
        Code::Encoding,
        Code::Start,
        Code::Exit,
        Code::Stdin,
        Code::EndStdin,
        Code::Stdout,
        Code::Stderr,
    ]
}

fn encode_one(op: Code, data: &[u8]) -> Vec<u8> {
    let mut enc = Encoder::new();
    enc.frame(&Frame {
        op,
        data: data.to_vec(),
    });
    enc.buffer()
}

#[test]
fn code_values_are_zero_through_eight() {
    for (i, c) in all_codes().into_iter().enumerate() {
        assert_eq!(c.value(), i as u8);
        assert_eq!(Code::try_from(i as u8), Some(c));
    }
}

#[test]
fn op_byte_nine_is_rejected() {
    assert_eq!(Code::try_from(9), None);
}

#[test]
fn op_byte_255_is_rejected() {
    assert_eq!(Code::try_from(255), None);
}

#[test]
fn frame_wire_format_is_length_op_payload() {
    let bytes = encode_one(Code::Stdout, b"hi");
    assert_eq!(bytes, vec![0, 0, 0, 2, 7, b'h', b'i']);
}

#[test]
fn empty_frame_has_zero_length() {
    let mut enc = Encoder::new();
    enc.op(Code::Start);
    assert_eq!(enc.buffer(), vec![0, 0, 0, 0, 3]);
}

#[test]
fn string_frame_carries_utf8_with_length_prefix() {
    let mut enc = Encoder::new();
    enc.string(Code::Arg, "help");
    assert_eq!(
        enc.buffer(),
        vec![0, 0, 0, 6, 0, 0, 4, b'h', b'e', b'l', b'p']
    );
}

#[test]
fn round_trip_every_op_code_with_bytes() {
    for c in all_codes() {
        for payload in [&b""[..], b"\x00", b"abc", b"\xff\x00\x7f\x80"] {
            let bytes = encode_one(c, payload);
            let mut dec = Decoder::new(bytes);
            let f = dec.frame().expect("a complete frame decodes");
            assert_eq!(f.op, c);
            assert_eq!(f.data, payload.to_vec());
        }
    }
}

#[test]
fn round_trip_string_payloads() {
    for s in ["", "help", "büild", "a b c"] {
        let mut enc = Encoder::new();
        enc.string(Code::Locale, s);
        let mut dec = Decoder::new(enc.buffer());
        let f = dec.frame().expect("a complete frame decodes");
        assert_eq!(f.op, Code::Locale);
        let sb = s.as_bytes();
        let mut expected = vec![(sb.len() >> 8) as u8, (sb.len() & 0xff) as u8];
        expected.extend_from_slice(sb);
        assert_eq!(f.data, expected);
    }
}

#[test]
fn consecutive_frames_decode_in_order() {
    let mut enc = Encoder::new();
    enc.string(Code::Arg, "a");
    enc.op(Code::Start);
    let mut dec = Decoder::new(enc.buffer());
    assert_eq!(dec.frame().unwrap().op, Code::Arg);
    assert_eq!(dec.frame().unwrap().op, Code::Start);
    assert_eq!(dec.frame(), Err(DecodeError::Truncated));
}

#[test]
fn truncation_at_every_boundary_fails() {
    let bytes = encode_one(Code::Stdout, b"out");
    // 4 length bytes + 1 op byte + 3 payload bytes
    assert_eq!(bytes.len(), 8);
    for cut in 0..bytes.len() {
        let mut dec = Decoder::new(bytes[..cut].to_vec());
        assert_eq!(
            dec.frame(),
            Err(DecodeError::Truncated),
            "a frame cut to {} bytes must not decode",
            cut
        );
    }
}

#[test]
fn unknown_op_in_stream_fails() {
    let mut bytes = encode_one(Code::Stdout, b"x");
    bytes[4] = 9;
    let mut dec = Decoder::new(bytes.clone());
    assert_eq!(dec.frame(), Err(DecodeError::UnknownOp(9)));
    bytes[4] = 255;
    let mut dec = Decoder::new(bytes);
    assert_eq!(dec.frame(), Err(DecodeError::UnknownOp(255)));
}

#[test]
fn leading_zero_byte_is_consumed_once() {
    let mut stream = vec![0u8];
    stream.extend_from_slice(&encode_one(Code::Start, b""));
    let mut dec = Decoder::new(stream);
    dec.skip_initial_zero().expect("the zero byte is there");
    assert_eq!(dec.frame().unwrap().op, Code::Start);
}

#[test]
fn missing_leading_zero_is_an_error() {
    let mut dec = Decoder::new(vec![7u8, 1, 2]);
    assert_eq!(dec.skip_initial_zero(), Err(DecodeError::LeadingByte(7)));
    let mut dec = Decoder::new(Vec::new());
    assert_eq!(dec.skip_initial_zero(), Err(DecodeError::Truncated));
}

#[test]
fn exit_code_zero_one_minus_one() {
    assert_eq!(exit_code(&[0, 0, 0, 0]), Ok(0));
    assert_eq!(exit_code(&[0, 0, 0, 1]), Ok(1));
    assert_eq!(exit_code(&[0xFF, 0xFF, 0xFF, 0xFF]), Ok(-1));
}

#[test]
fn exit_code_large_values() {
    assert_eq!(exit_code(&[0, 0, 1, 0]), Ok(256));
    assert_eq!(exit_code(&[0x7F, 0xFF, 0xFF, 0xFF]), Ok(i32::MAX));
    assert_eq!(exit_code(&[0x80, 0, 0, 0]), Ok(i32::MIN));
}

#[test]
fn exit_code_needs_exactly_four_bytes() {
    assert_eq!(exit_code(&[]), Err(DecodeError::ExitPayload));
    assert_eq!(exit_code(&[0, 0, 0]), Err(DecodeError::ExitPayload));
    assert_eq!(exit_code(&[0, 0, 0, 0, 0]), Err(DecodeError::ExitPayload));
}

#[test]
fn socket_message_round_trip() {
    for c in all_codes() {
        let f = Frame {
            op: c,
            data: b"payload".to_vec(),
        };
        let msg = encode_msg(&f);
        assert_eq!(msg[0], c.value());
        let back = decode_msg(&msg).expect("a framed message decodes");
        assert_eq!(back.op, c);
        assert_eq!(back.data, b"payload".to_vec());
    }
}

#[test]
fn socket_message_errors() {
    assert_eq!(decode_msg(&[]), Err(DecodeError::Truncated));
    assert_eq!(decode_msg(&[9, 1, 2]), Err(DecodeError::UnknownOp(9)));
    assert_eq!(decode_msg(&[255]), Err(DecodeError::UnknownOp(255)));
}

#[test]
fn stream_decoder_assembles_frames_across_chunks() {
    let mut enc = Encoder::new();
    enc.string(Code::Arg, "aa");
    enc.frame(&Frame {
        op: Code::Stdout,
        data: b"xyz".to_vec(),
    });
    let mut stream = vec![0u8];
    stream.extend_from_slice(&enc.buffer());

    let mut dec = StreamDecoder::new();
    let mut frames = Vec::new();
    // Feed one byte at a time: frames must come out exactly at their
    // boundaries, never early, never mangled.
    for b in stream {
        dec.feed(&[b]);
        if !matches!(dec.start(), Ok(true)) {
            continue;
        }
        while let Ok(Some(f)) = dec.next() {
            frames.push(f);
        }
    }
    assert_eq!(frames.len(), 2);
    assert_eq!(frames[0].op, Code::Arg);
    assert_eq!(frames[0].data, vec![0, 2, b'a', b'a']);
    assert_eq!(frames[1].op, Code::Stdout);
    assert_eq!(frames[1].data, b"xyz".to_vec());
}

#[test]
fn stream_decoder_waits_for_the_zero_byte() {
    let mut dec = StreamDecoder::new();
    assert!(matches!(dec.start(), Ok(false)));
    dec.feed(&[0]);
    assert!(matches!(dec.start(), Ok(true)));
    assert!(matches!(dec.next(), Ok(None)));

    let mut bad = StreamDecoder::new();
    bad.feed(&[9]);
    assert!(matches!(bad.start(), Err(DecodeError::LeadingByte(9))));
}

#[test]
fn stream_decoder_rejects_unknown_op_amid_chunks() {
    let mut dec = StreamDecoder::new();
    dec.feed(&[0, 0, 0, 0, 1]);
    assert!(matches!(dec.start(), Ok(true)));
    assert!(matches!(dec.next(), Ok(None)));
    dec.feed(&[42]);
    assert!(matches!(dec.next(), Err(DecodeError::UnknownOp(42))));
}
