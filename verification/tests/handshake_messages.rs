use udp2raw_ng::handshake::{
    ClientFinish, ClientHello, HelloRetry, ResumptionCredential, ServerHello,
    issue_resumption_credential, session_keys, verify_cookie, verify_resumption_credential,
};
use udp2raw_ng::{
    CipherSuite, ConversationId, Duration, FrameType, HandshakeError, PeerId, Psk, SessionId,
    WireFrame,
};

fn psk() -> Psk {
    Psk::new(vec![6; 32]).expect("psk")
}

fn hello() -> ClientHello {
    ClientHello {
        handshake_id: [1; 16],
        client_nonce: [2; 32],
        suite: CipherSuite::Aes256Gcm,
        cookie: None,
        resumption: None,
    }
}

fn session() -> SessionId {
    SessionId::from_u64(77)
}

fn answer(resumed: bool) -> ServerHello {
    ServerHello::create(&psk(), &hello(), session(), resumed, [3; 32], [4; 32]).expect("answer")
}

fn carried(frame: &WireFrame) -> WireFrame {
    WireFrame::decode(&frame.encode().expect("encode")).expect("decode")
}

#[test]
fn a_hello_is_read_back_with_and_without_its_options() {
    let secret = [9; 32];
    let credential = issue_resumption_credential(
        &secret,
        session(),
        ConversationId::new(5).expect("non-zero"),
        1_000,
        2_000,
        [8; 16],
    )
    .expect("credential");
    let retry =
        HelloRetry::create(&psk(), &secret, &hello(), PeerId::new(1), 1_000).expect("retry");
    let lengths = [(false, false, 49), (true, false, 89), (false, true, 125), (true, true, 165)];
    for (with_cookie, with_credential, length) in lengths {
        let mut sent = hello();
        if with_cookie {
            sent.cookie = Some(retry.cookie);
        }
        if with_credential {
            sent.resumption = Some(credential);
        }
        assert_eq!(sent.encode_payload().len(), length);
        let read = ClientHello::decode(&carried(&sent.frame())).expect("hello");
        assert_eq!(read.encode_payload(), sent.encode_payload());
        assert_eq!(read.cookie.is_some(), with_cookie);
        assert_eq!(read.resumption.is_some(), with_credential);
    }
}

#[test]
fn answers_are_read_back_and_accepted() {
    for (resumed, length) in [(false, 145), (true, 146)] {
        let sent = answer(resumed);
        assert_eq!(sent.encode_payload().len(), length);
        let read = ServerHello::decode(&carried(&sent.frame(session()))).expect("answer");
        assert_eq!(read.encode_payload(), sent.encode_payload());
        assert_eq!(read.resumed, resumed);
        assert_eq!(read.verify(&psk(), &hello(), session()), Ok(()));
    }
}

#[test]
fn answers_to_something_else_are_refused() {
    let sent = answer(false);
    let mut other = hello();
    other.handshake_id = [9; 16];
    assert_eq!(
        sent.verify(&psk(), &other, session()),
        Err(HandshakeError::HandshakeIdMismatch)
    );
    other = hello();
    other.client_nonce = [9; 32];
    assert_eq!(
        sent.verify(&psk(), &other, session()),
        Err(HandshakeError::AuthenticationFailed)
    );
    other = hello();
    other.suite = CipherSuite::Aes128Gcm;
    assert_eq!(
        sent.verify(&psk(), &other, session()),
        Err(HandshakeError::CipherSuiteMismatch)
    );
    assert_eq!(
        sent.verify(&psk(), &hello(), SessionId::from_u64(78)),
        Err(HandshakeError::AuthenticationFailed)
    );
    let mut claimed = sent;
    claimed.resumed = true;
    assert_eq!(
        claimed.verify(&psk(), &hello(), session()),
        Err(HandshakeError::AuthenticationFailed)
    );
}

#[test]
fn finishes_are_accepted_for_their_own_handshake_only() {
    let sent = ClientFinish::create(&psk(), &hello(), &answer(false), session()).expect("finish");
    let read = ClientFinish::decode(&carried(&sent.frame(session()))).expect("finish");
    assert_eq!(
        read.verify(&psk(), &hello(), &answer(false), session()),
        Ok(())
    );
    assert_eq!(
        read.verify(&psk(), &hello(), &answer(true), session()),
        Err(HandshakeError::AuthenticationFailed)
    );
    let mut other = hello();
    other.handshake_id = [9; 16];
    assert_eq!(
        read.verify(&psk(), &other, &answer(false), session()),
        Err(HandshakeError::HandshakeIdMismatch)
    );
}

#[test]
fn both_ends_derive_the_same_keys() {
    let read = ServerHello::decode(&carried(&answer(false).frame(session()))).expect("answer");
    let near = session_keys(&psk(), &hello(), &read, session()).expect("client keys");
    let far = session_keys(&psk(), &hello(), &answer(false), session()).expect("server keys");
    assert_eq!(
        near.client_to_server.record_key.as_slice(),
        far.client_to_server.record_key.as_slice()
    );
    assert_eq!(
        near.server_to_client.nonce_prefix.as_slice(),
        far.server_to_client.nonce_prefix.as_slice()
    );
    let other = session_keys(&psk(), &hello(), &answer(true), session()).expect("other keys");
    assert_ne!(
        near.client_to_server.record_key.as_slice(),
        other.client_to_server.record_key.as_slice()
    );
}

#[test]
fn a_retried_hello_carries_a_cookie_that_is_accepted() {
    let secret = [9; 32];
    let route = PeerId::new(12);
    let lifetime = Duration::from_secs(30);
    let retry = HelloRetry::create(&psk(), &secret, &hello(), route, 5_000).expect("retry");
    let read = HelloRetry::decode(&carried(&retry.frame())).expect("retry");
    let retried = read.verify_and_apply(&psk(), &hello()).expect("hello");
    let accepted = |secret: &[u8], hello: &ClientHello, route: PeerId, now_ms: u64| {
        verify_cookie(secret, hello, route, now_ms, lifetime)
    };
    assert_eq!(accepted(&secret, &retried, route, 5_000), Ok(()));
    assert_eq!(accepted(&secret, &retried, route, 34_999), Ok(()));
    for refused in [
        accepted(&secret, &retried, route, 35_000),
        accepted(&secret, &retried, route, 4_999),
        accepted(&secret, &retried, PeerId::new(13), 5_000),
        accepted(&[8; 32], &retried, route, 5_000),
        accepted(&secret, &hello(), route, 5_000),
    ] {
        assert_eq!(refused, Err(HandshakeError::InvalidCookie));
    }
    let mut other = hello();
    other.client_nonce = [7; 32];
    assert_eq!(
        read.verify_and_apply(&psk(), &other).err(),
        Some(HandshakeError::AuthenticationFailed)
    );
    other.handshake_id = [7; 16];
    assert_eq!(
        read.verify_and_apply(&psk(), &other).err(),
        Some(HandshakeError::HandshakeIdMismatch)
    );
}

#[test]
fn credentials_hold_for_their_time() {
    let secret = [9; 32];
    let conversation = ConversationId::new(5).expect("non-zero");
    let credential =
        issue_resumption_credential(&secret, session(), conversation, 1_000, 2_000, [8; 16])
            .expect("credential");
    let granted = Ok((session(), conversation));
    let refused = Err(HandshakeError::InvalidResumptionCredential);
    for (now_ms, expected) in [
        (999, &refused),
        (1_000, &granted),
        (1_999, &granted),
        (2_000, &refused),
    ] {
        assert_eq!(
            &verify_resumption_credential(&secret, &credential, now_ms),
            expected
        );
    }
    assert_eq!(
        verify_resumption_credential(&[1; 32], &credential, 1_500),
        refused
    );
    let octets = credential.as_bytes();
    assert_eq!(octets.len(), 76);
    assert_eq!(octets[16..28], [0, 0, 0, 0, 0, 0, 0, 77, 0, 0, 0, 5]);
    let mut altered: [u8; 76] = octets.try_into().expect("76 octets");
    altered[27] = 6;
    assert_eq!(
        verify_resumption_credential(&secret, &ResumptionCredential::from_bytes(altered), 1_500),
        refused
    );
}

#[test]
fn malformed_messages_are_refused() {
    let mut frame = hello().frame();
    frame.payload.pop();
    assert_eq!(
        ClientHello::decode(&frame).err(),
        Some(HandshakeError::Malformed)
    );
    frame = hello().frame();
    frame.frame_type = FrameType::ServerHello;
    assert_eq!(
        ClientHello::decode(&frame).err(),
        Some(HandshakeError::Malformed)
    );
    frame = answer(false).frame(session());
    frame.session_id = SessionId::from_u64(0);
    assert_eq!(
        ServerHello::decode(&frame).err(),
        Some(HandshakeError::Malformed)
    );
    let mut finish = ClientFinish::create(&psk(), &hello(), &answer(false), session())
        .expect("finish")
        .frame(session());
    finish.payload.push(0);
    assert_eq!(
        ClientFinish::decode(&finish).err(),
        Some(HandshakeError::Malformed)
    );
    let mut retry = HelloRetry::create(&psk(), &[9; 32], &hello(), PeerId::new(1), 1)
        .expect("retry")
        .frame();
    retry.packet_number = 1;
    assert_eq!(
        HelloRetry::decode(&retry).err(),
        Some(HandshakeError::Malformed)
    );
}
