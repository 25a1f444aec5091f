use udp2raw_ng::{ConversationId, FrameError, FrameType, SessionId, WireFrame};

fn sample_frame() -> WireFrame {
    WireFrame {
        session_id: SessionId::from_u64(42),
        packet_number: 7,
        epoch: 0,
        frame_type: FrameType::Data,
        conversation_id: Some(ConversationId::new(9).expect("non-zero")),
        payload: b"hello".to_vec(),
    }
}

#[test]
fn frame_round_trip() {
    let frame = sample_frame();
    let encoded = frame.encode().expect("encode");
    assert_eq!(encoded.len(), 24 + frame.payload.len());
    assert_eq!(WireFrame::decode(&encoded).expect("decode"), frame);
}

#[test]
fn every_fixed_header_truncation_is_rejected_without_panicking() {
    let encoded = sample_frame().encode().expect("encode");
    for length in 0..24 {
        assert!(WireFrame::decode(&encoded[..length]).is_err());
    }
}

#[test]
fn datagram_boundary_supplies_body_length() {
    let mut encoded = sample_frame().encode().expect("encode");
    encoded.push(0);
    let decoded = WireFrame::decode(&encoded).expect("decode extended datagram");
    assert_eq!(decoded.payload, b"hello\0");
}

#[test]
fn v4_rejects_legacy_magic_reserved_heartbeat_and_nonzero_flags() {
    let encoded = sample_frame().encode().expect("encode");

    let mut legacy = encoded.clone();
    legacy[..4].copy_from_slice(b"U2NG");
    assert_eq!(WireFrame::decode(&legacy), Err(FrameError::InvalidMagic));

    let mut heartbeat = encoded.clone();
    heartbeat[1] = 17;
    assert_eq!(
        WireFrame::decode(&heartbeat),
        Err(FrameError::UnknownFrameType(17))
    );

    let mut flagged = encoded;
    flagged[3] = 1;
    assert_eq!(WireFrame::decode(&flagged), Err(FrameError::ReservedFlags));
}

#[test]
fn header_octets_stand_at_their_places() {
    let encoded = sample_frame().encode().expect("encode");
    let expected: Vec<u8> = [
        &[4, 16, 0, 0][..],
        &[0, 0, 0, 0, 0, 0, 0, 42],
        &[0, 0, 0, 0, 0, 0, 0, 7],
        &[0, 0, 0, 9],
        b"hello",
    ]
    .concat();
    assert_eq!(encoded, expected);
    assert_eq!(sample_frame().encoded_header(), Ok(expected[..24].to_vec()));
}

#[test]
fn a_decoded_datagram_is_encoded_back_unchanged() {
    let mut datagram = vec![4, 32, 200, 0];
    datagram.extend_from_slice(&[1, 2, 3, 4, 5, 6, 7, 8]);
    datagram.extend_from_slice(&[9, 10, 11, 12, 13, 14, 15, 16]);
    datagram.extend_from_slice(&[0, 0, 1, 0]);
    datagram.extend_from_slice(b"probe");
    let frame = WireFrame::decode(&datagram).expect("decode");
    assert_eq!(frame.session_id.get(), 0x0102_0304_0506_0708);
    assert_eq!(frame.packet_number, 0x090a_0b0c_0d0e_0f10);
    assert_eq!(frame.epoch, 200);
    assert_eq!(frame.frame_type, FrameType::MtuProbe);
    assert_eq!(frame.conversation_id.map(ConversationId::get), Some(256));
    assert_eq!(frame.encode(), Ok(datagram));
}

#[test]
fn fields_must_go_with_the_type() {
    let mut data_without_conversation = sample_frame();
    data_without_conversation.conversation_id = None;
    assert_eq!(
        data_without_conversation.encode(),
        Err(FrameError::InvalidFrameFields)
    );

    for frame_type in [
        FrameType::ClientHello,
        FrameType::ServerHello,
        FrameType::ClientFinish,
        FrameType::HelloRetry,
        FrameType::HandshakeAck,
    ] {
        let mut frame = sample_frame();
        frame.frame_type = frame_type;
        assert_eq!(frame.encode(), Err(FrameError::InvalidFrameFields));
        frame.conversation_id = None;
        assert!(frame.encode().is_ok());
    }

    let mut late_epoch = sample_frame();
    late_epoch.epoch = 256;
    assert_eq!(late_epoch.encode(), Err(FrameError::InvalidFrameFields));
    late_epoch.epoch = 255;
    assert!(late_epoch.encode().is_ok());
}

#[test]
fn the_longest_body_is_accepted_and_one_octet_more_is_not() {
    let mut frame = sample_frame();
    frame.payload = vec![1; 1_182];
    let longest = frame.encode().expect("longest body");
    assert_eq!(WireFrame::decode(&longest).as_ref(), Ok(&frame));
    frame.payload.push(1);
    assert_eq!(frame.encode(), Err(FrameError::PayloadTooLarge));
    let mut too_long = longest;
    too_long.push(1);
    assert_eq!(WireFrame::decode(&too_long), Err(FrameError::PayloadTooLarge));
}

#[test]
fn frame_types_have_their_codes() {
    let codes = [
        (FrameType::ClientHello, 1),
        (FrameType::ServerHello, 2),
        (FrameType::ClientFinish, 3),
        (FrameType::HelloRetry, 4),
        (FrameType::Data, 16),
        (FrameType::Close, 18),
        (FrameType::HandshakeAck, 19),
        (FrameType::ResumptionCredential, 20),
        (FrameType::MtuProbe, 32),
        (FrameType::MtuAck, 33),
    ];
    for (frame_type, code) in codes {
        assert_eq!(frame_type.code(), code);
        assert_eq!(FrameType::from_code(code), Ok(frame_type));
        assert_eq!(FrameType::try_from(code), Ok(frame_type));
        assert_eq!(frame_type.is_handshake(), code <= 4);
        assert_eq!(frame_type.is_protected(), (16..=20).contains(&code));
    }
    assert_eq!(
        FrameType::from_code(0),
        Err(FrameError::UnknownFrameType(0))
    );
}
