use aes_gcm::aead::{Aead, KeyInit, Payload};
use udp2raw_ng::crypto::{
    Direction, derive_session_keys, handshake_tag, hmac_tag, verify_handshake_tag, verify_hmac,
};
use udp2raw_ng::record::{RecordOpener, RecordSealer};
use udp2raw_ng::{
    CipherSuite, ConfigError, ConversationId, CryptoError, FrameError, FrameType, Psk, RecordError,
    ReplayError, SessionId, WireFrame,
};

const SUITES: [CipherSuite; 5] = [
    CipherSuite::ChaCha20Poly1305,
    CipherSuite::XChaCha20Poly1305,
    CipherSuite::Aes128Gcm,
    CipherSuite::Aes256Gcm,
    CipherSuite::NoneAuthenticated,
];

fn octets(hex: &str) -> Vec<u8> {
    (0..hex.len() / 2)
        .map(|i| u8::from_str_radix(&hex[2 * i..2 * i + 2], 16).expect("hexadecimal"))
        .collect()
}

fn keys(suite: CipherSuite) -> udp2raw_ng::crypto::SessionKeys {
    let psk = Psk::new(vec![7; 32]).expect("psk");
    derive_session_keys(
        &psk,
        suite,
        SessionId::from_u64(9),
        &[1; 32],
        &[2; 32],
        &[3; 32],
        b"transcript",
    )
    .expect("derive")
}

fn ends(suite: CipherSuite) -> (RecordSealer, RecordOpener) {
    let session_id = SessionId::from_u64(9);
    let direction = Direction::ClientToServer;
    (
        RecordSealer::new(suite, direction, session_id, keys(suite).client_to_server),
        RecordOpener::new(
            suite,
            direction,
            session_id,
            keys(suite).client_to_server,
            64,
        ),
    )
}

fn conversation() -> Option<ConversationId> {
    ConversationId::new(5)
}

#[test]
fn direction_and_purpose_keys_are_separated() {
    let psk = Psk::new(vec![7; 32]).expect("psk");
    let keys = derive_session_keys(
        &psk,
        CipherSuite::ChaCha20Poly1305,
        SessionId::from_u64(9),
        &[1; 32],
        &[2; 32],
        &[3; 32],
        b"transcript",
    )
    .expect("derive");
    assert_ne!(
        keys.client_to_server.record_key.as_slice(),
        keys.server_to_client.record_key.as_slice()
    );
    assert_ne!(
        keys.client_to_server.record_key.as_slice(),
        keys.client_to_server.nonce_prefix.as_slice()
    );
    assert_ne!(
        Direction::ClientToServer.wire_id(),
        Direction::ServerToClient.wire_id()
    );
}

#[test]
fn debug_output_redacts_secret() {
    let psk = Psk::new(vec![b'x'; 32]).expect("valid key");
    let output = psk.describe();
    assert!(output.contains("REDACTED"));
    assert!(!output.contains("xxxxxxxx"));
    assert_eq!(psk.as_bytes().len(), 32);
}

#[test]
fn a_description_tells_the_length() {
    let psk = Psk::new(vec![b'x'; 40]).expect("valid key");
    assert_eq!(psk.describe(), "Psk { length: 40, material: \"[REDACTED]\" }");
    assert_eq!(psk.len(), 40);
    assert!(!psk.is_empty());
    assert_eq!(psk.as_bytes(), &[b'x'; 40]);
}

#[test]
fn keys_have_a_shortest_and_a_longest_length() {
    assert!(matches!(
        Psk::new(vec![1; 31]),
        Err(ConfigError::PskTooShort {
            minimum: 32,
            actual: 31
        })
    ));
    assert!(Psk::new(vec![1; 32]).is_ok());
    assert!(Psk::new(vec![1; 1024]).is_ok());
    assert!(matches!(
        Psk::new(vec![1; 1025]),
        Err(ConfigError::PskTooLong { maximum: 1024 })
    ));
}

#[test]
fn tags_are_hmac_sha256() {
    let tag = hmac_tag(&[0x0b; 20], b"Hi There").expect("tag");
    assert_eq!(
        tag.to_vec(),
        octets("b0344c61d8db38535ca8afceaf0bf12b881dc200c9833da726e9376c2e32cff7")
    );
    assert_eq!(verify_hmac(&[0x0b; 20], b"Hi There", &tag), Ok(()));
    assert_eq!(
        verify_hmac(&[0x0b; 20], b"Hi there", &tag),
        Err(CryptoError::AuthenticationFailed)
    );
    assert_eq!(
        verify_hmac(&[0x0b; 20], b"Hi There", &tag[..31]),
        Err(CryptoError::AuthenticationFailed)
    );
}

#[test]
fn derived_keys_have_their_exact_values() {
    let derived = keys(CipherSuite::ChaCha20Poly1305);
    assert_eq!(
        derived.client_to_server.record_key.as_slice(),
        octets("47d3cac20efa62df6ba04f06d549cd48a6a4a1fe9979694b56f7795937ccf018")
    );
    assert_eq!(
        derived.client_to_server.nonce_prefix.as_slice(),
        octets("c0b4f5e9")
    );
    assert_eq!(
        derived.server_to_client.record_key.as_slice(),
        octets("985b89afb4dffbf84e2384e7a63a6a5aeab0f4796bcff9ba55f1624c374ef17d")
    );
    let psk = Psk::new(vec![7; 32]).expect("psk");
    let tag = handshake_tag(&psk, &[4; 16], &[1; 32], b"transcript").expect("tag");
    assert_eq!(tag.to_vec(), octets("5591a0a809c0d0dffae3f2c3cc5ece03601f60f0c261ae02003ff129853d226c"));
    assert_eq!(
        verify_handshake_tag(&psk, &[4; 16], &[1; 32], b"transcript", &tag),
        Ok(())
    );
    assert_eq!(
        verify_handshake_tag(&psk, &[5; 16], &[1; 32], b"transcript", &tag),
        Err(CryptoError::AuthenticationFailed)
    );
}

#[test]
fn suites_have_keys_of_their_own_lengths() {
    let lengths = [(32, 4), (32, 16), (16, 4), (32, 4), (32, 0)];
    for (suite, (key, prefix)) in SUITES.into_iter().zip(lengths) {
        let derived = keys(suite);
        assert_eq!(derived.client_to_server.record_key.as_slice().len(), key);
        assert_eq!(derived.server_to_client.record_key.as_slice().len(), key);
        assert_eq!(derived.client_to_server.nonce_prefix.as_slice().len(), prefix);
    }
}

#[test]
fn a_sealed_record_is_the_header_and_what_the_cipher_makes_of_the_payload() {
    let suite = CipherSuite::Aes128Gcm;
    let (mut sealer, _) = ends(suite);
    sealer
        .seal(FrameType::Data, conversation(), b"first")
        .expect("packet number zero");
    let datagram = sealer
        .seal(FrameType::Data, conversation(), b"payload")
        .expect("packet number one");
    let header: Vec<u8> = [
        &[4, 16, 0, 0][..],
        &[0, 0, 0, 0, 0, 0, 0, 9],
        &[0, 0, 0, 0, 0, 0, 0, 1],
        &[0, 0, 0, 5],
    ]
    .concat();
    let derived = keys(suite).client_to_server;
    let nonce: Vec<u8> = [derived.nonce_prefix.as_slice(), &1u64.to_be_bytes()].concat();
    let body_length = (b"payload".len() as u32 + 16).to_be_bytes();
    let aad: Vec<u8> = [&header[..], &[1, suite.wire_id()], &body_length].concat();
    let cipher = aes_gcm::Aes128Gcm::new_from_slice(derived.record_key.as_slice()).expect("key");
    let body = cipher
        .encrypt(
            nonce.as_slice().into(),
            Payload {
                msg: b"payload",
                aad: &aad,
            },
        )
        .expect("encrypt");
    assert_eq!(datagram, [header, body].concat());
}

#[test]
fn what_is_sealed_is_opened_and_hidden() {
    for suite in SUITES {
        let (mut sealer, mut opener) = ends(suite);
        let payload = b"a payload of some length";
        let datagram = sealer
            .seal(FrameType::Data, conversation(), payload)
            .expect("seal");
        let shows = datagram.windows(payload.len()).any(|part| part == payload);
        assert_eq!(shows, suite == CipherSuite::NoneAuthenticated);
        let tag = if suite == CipherSuite::NoneAuthenticated {
            32
        } else {
            16
        };
        assert_eq!(datagram.len(), 24 + payload.len() + tag);
        let record = opener.open(&datagram).expect("open");
        assert_eq!(record.frame_type, FrameType::Data);
        assert_eq!(record.conversation_id, conversation());
        assert_eq!(record.plaintext, payload);
    }
}

#[test]
fn every_octet_of_a_record_is_authenticated() {
    for suite in SUITES {
        let (mut sealer, mut opener) = ends(suite);
        let datagram = sealer
            .seal(FrameType::Data, conversation(), b"payload")
            .expect("seal");
        for place in 0..datagram.len() {
            let mut tampered = datagram.clone();
            tampered[place] ^= 0x40;
            assert!(opener.open(&tampered).is_err());
        }
        assert!(opener.open(&datagram).is_ok());
        assert!(matches!(
            opener.open(&datagram),
            Err(RecordError::Replay(ReplayError::Duplicate))
        ));
    }
}

#[test]
fn records_of_the_other_direction_are_refused() {
    let suite = CipherSuite::ChaCha20Poly1305;
    let (mut sealer, _) = ends(suite);
    let mut opener = RecordOpener::new(
        suite,
        Direction::ServerToClient,
        SessionId::from_u64(9),
        keys(suite).client_to_server,
        64,
    );
    let datagram = sealer
        .seal(FrameType::Data, conversation(), b"payload")
        .expect("seal");
    assert!(matches!(
        opener.open(&datagram),
        Err(RecordError::Crypto(CryptoError::AuthenticationFailed))
    ));
}

#[test]
fn records_are_refused_for_what_is_wrong_with_them() {
    let suite = CipherSuite::ChaCha20Poly1305;
    let (mut sealer, mut opener) = ends(suite);
    assert!(matches!(
        sealer.seal(FrameType::ClientHello, None, b""),
        Err(RecordError::InvalidRecordType)
    ));
    assert!(matches!(
        sealer.seal(FrameType::Data, None, b""),
        Err(RecordError::Frame(FrameError::InvalidFrameFields))
    ));
    let long = vec![0; 1_167];
    assert!(matches!(
        sealer.seal(FrameType::Data, conversation(), &long),
        Err(RecordError::Frame(FrameError::PayloadTooLarge))
    ));

    let mut frame = WireFrame {
        session_id: SessionId::from_u64(8),
        packet_number: 0,
        epoch: 0,
        frame_type: FrameType::Data,
        conversation_id: conversation(),
        payload: vec![0; 20],
    };
    let open = |opener: &mut RecordOpener, frame: &WireFrame| {
        opener.open(&frame.encode().expect("encode")).err()
    };
    assert_eq!(open(&mut opener, &frame), Some(RecordError::SessionMismatch));
    frame.session_id = SessionId::from_u64(9);
    frame.epoch = 1;
    assert_eq!(open(&mut opener, &frame), Some(RecordError::UnsupportedEpoch));
    frame.epoch = 0;
    frame.frame_type = FrameType::MtuProbe;
    assert_eq!(
        open(&mut opener, &frame),
        Some(RecordError::InvalidRecordType)
    );
    frame.frame_type = FrameType::Data;
    frame.payload = vec![0; 15];
    assert_eq!(open(&mut opener, &frame), Some(RecordError::TruncatedTag));
    assert_eq!(
        opener.open(&[4, 16]).err(),
        Some(RecordError::Frame(FrameError::Truncated))
    );
}

#[test]
fn suites_are_told_by_name_and_number() {
    let names = [
        "chacha20poly1305",
        "xchacha20poly1305",
        "aes128gcm",
        "aes256gcm",
        "none",
    ];
    for (suite, name) in SUITES.into_iter().zip(names) {
        assert_eq!(suite.name(), name);
        assert_eq!(CipherSuite::from_name(name), Ok(suite));
        assert_eq!(name.parse::<CipherSuite>(), Ok(suite));
        assert_eq!(CipherSuite::from_wire_id(suite.wire_id()), Ok(suite));
    }
    assert_eq!(CipherSuite::default(), CipherSuite::ChaCha20Poly1305);
    assert_eq!(
        CipherSuite::from_name("rot13"),
        Err(ConfigError::UnsupportedCipherSuite("rot13".to_owned()))
    );
    assert_eq!(
        CipherSuite::from_wire_id(200),
        Err(ConfigError::UnsupportedCipherSuite("wire id 200".to_owned()))
    );
}
