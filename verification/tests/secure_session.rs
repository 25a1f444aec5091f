use udp2raw_ng::address::SocketAddressV4;
use udp2raw_ng::client::ClientEntropy;
use udp2raw_ng::server::{AnswerSeed, ServerEntropy};
use udp2raw_ng::{
    CipherSuite, ClientDatagramDropReason, ClientEngine, ConversationId, Duration, EngineConfig,
    EngineError, HandshakeError, Instant, PeerId, Psk, RecordError, ServerEngine, SessionId,
    SessionState, SocketAddress, TunnelAction, TunnelEvent,
};

const SECOND: u64 = 1_000_000_000;

fn psk(byte: u8) -> Psk {
    Psk::new(vec![byte; 32]).expect("valid psk")
}

fn configs(suite: CipherSuite) -> (EngineConfig, EngineConfig) {
    let mut client = EngineConfig::client();
    client.cipher_suite = suite;
    let mut server = EngineConfig::server();
    server.cipher_suite = suite;
    (client, server)
}

fn local(port: u16) -> SocketAddress {
    SocketAddress::V4(SocketAddressV4 {
        ip: 0x7f00_0001,
        port,
    })
}

fn at(seconds: u64) -> Instant {
    Instant::from_nanos(seconds * SECOND)
}

fn tunnel_frame(actions: &[TunnelAction]) -> (PeerId, Vec<u8>) {
    actions
        .iter()
        .find_map(|action| match action {
            TunnelAction::SendTunnelFrame { peer_id, bytes } => Some((*peer_id, bytes.clone())),
            _ => None,
        })
        .expect("send action")
}

fn frame_from(peer_id: PeerId, bytes: &[u8]) -> TunnelEvent {
    TunnelEvent::TunnelFrame {
        peer_id,
        bytes: bytes.to_vec(),
    }
}

fn datagram(local_peer: SocketAddress, payload: &[u8]) -> TunnelEvent {
    TunnelEvent::ClientDatagram {
        local_peer,
        payload: payload.to_vec(),
    }
}

/// Carries a handshake through: a hello, the retry with a cookie, the hello that
/// carries it, the answer, the finish and the confirmation. Gives back what the
/// server and the client did last.
fn complete(
    client: &mut ClientEngine,
    server: &mut ServerEngine,
    client_peer: PeerId,
    server_peer: PeerId,
    start: &[TunnelAction],
    now: Instant,
) -> (Vec<TunnelAction>, Vec<TunnelAction>) {
    let (_, hello) = tunnel_frame(start);
    let retry_actions = server
        .handle(frame_from(client_peer, &hello), now)
        .expect("client hello");
    let (_, retry) = tunnel_frame(&retry_actions);
    let cookie_actions = client
        .handle(frame_from(server_peer, &retry), now)
        .expect("hello retry");
    let (_, cookie_hello) = tunnel_frame(&cookie_actions);
    let server_hello_actions = server
        .handle(frame_from(client_peer, &cookie_hello), now)
        .expect("client hello with cookie");
    let (_, server_hello) = tunnel_frame(&server_hello_actions);
    let finish_actions = client
        .handle(frame_from(server_peer, &server_hello), now)
        .expect("server hello");
    let (_, finish) = tunnel_frame(&finish_actions);
    let established = server
        .handle(frame_from(client_peer, &finish), now)
        .expect("finish");
    let (_, ack) = tunnel_frame(&established);
    let confirmed = client
        .handle(frame_from(server_peer, &ack), now)
        .expect("confirmation");
    (established, confirmed)
}

fn establish_with(
    client_config: EngineConfig,
    server_config: EngineConfig,
) -> (ClientEngine, ServerEngine, PeerId, PeerId, SessionId) {
    let now = at(1);
    let client_peer = PeerId::new(10);
    let server_peer = PeerId::new(20);
    let mut client = ClientEngine::new(client_config, psk(7), server_peer).expect("client");
    let mut server = ServerEngine::new(server_config, psk(7)).expect("server");
    let start = client.handle(TunnelEvent::Start, now).expect("start");
    let (established, _) = complete(
        &mut client,
        &mut server,
        client_peer,
        server_peer,
        &start,
        now,
    );
    let session_id = client.session_id().expect("client session");
    assert!(established.iter().any(|action| matches!(
        action,
        TunnelAction::SessionEstablished { session_id: id, .. } if *id == session_id
    )));
    assert_eq!(client.state(), SessionState::Ready);
    assert_eq!(server.session_state(session_id), Some(SessionState::Ready));
    (client, server, client_peer, server_peer, session_id)
}

fn establish(suite: CipherSuite) -> (ClientEngine, ServerEngine, PeerId, PeerId, SessionId) {
    let (client_config, server_config) = configs(suite);
    establish_with(client_config, server_config)
}

fn opened_conversation(actions: &[TunnelAction]) -> ConversationId {
    actions
        .iter()
        .find_map(|action| match action {
            TunnelAction::ConversationOpened {
                conversation_id, ..
            } => Some(*conversation_id),
            _ => None,
        })
        .expect("conversation")
}

#[test]
fn all_cipher_suites_support_authenticated_bidirectional_data() {
    for suite in [
        CipherSuite::ChaCha20Poly1305,
        CipherSuite::XChaCha20Poly1305,
        CipherSuite::Aes128Gcm,
        CipherSuite::Aes256Gcm,
        CipherSuite::NoneAuthenticated,
    ] {
        let now = at(1);
        let (mut client, mut server, client_peer, server_peer, session_id) = establish(suite);
        let local_peer = local(31000);
        let actions = client
            .handle(datagram(local_peer, b"request"), now)
            .expect("seal request");
        let conversation_id = opened_conversation(&actions);
        let (_, request) = tunnel_frame(&actions);
        let delivered = server
            .handle(frame_from(client_peer, &request), now)
            .expect("open request");
        assert!(delivered.iter().any(|action| matches!(
            action,
            TunnelAction::DeliverToUpstream { payload, .. } if payload == b"request"
        )));

        let response_actions = server
            .handle(
                TunnelEvent::ServerDatagram {
                    session_id,
                    conversation_id,
                    payload: b"response".to_vec(),
                },
                now,
            )
            .expect("seal response");
        let (_, response) = tunnel_frame(&response_actions);
        let delivered = client
            .handle(frame_from(server_peer, &response), now)
            .expect("open response");
        assert_eq!(
            delivered,
            vec![TunnelAction::DeliverToClient {
                local_peer,
                payload: b"response".to_vec(),
            }]
        );
    }
}

#[test]
fn tampering_and_replay_never_deliver_plaintext() {
    let now = at(1);
    let (mut client, mut server, client_peer, _, _) = establish(CipherSuite::ChaCha20Poly1305);
    let local_peer = local(31001);
    let actions = client
        .handle(datagram(local_peer, b"secret"), now)
        .expect("seal");
    let (_, valid) = tunnel_frame(&actions);
    let mut tampered = valid.clone();
    let last = tampered.last_mut().expect("tag byte");
    *last ^= 1;
    assert!(matches!(
        server.handle(frame_from(client_peer, &tampered), now),
        Err(EngineError::Record(RecordError::Crypto(_)))
    ));

    let delivered = server
        .handle(frame_from(client_peer, &valid), now)
        .expect("valid frame after failed authentication");
    assert!(delivered.iter().any(|action| matches!(
        action,
        TunnelAction::DeliverToUpstream { payload, .. } if payload == b"secret"
    )));
    assert!(matches!(
        server.handle(frame_from(client_peer, &valid), now),
        Err(EngineError::Record(RecordError::Replay(_)))
    ));
}

#[test]
fn wrong_psk_and_suite_mismatch_block_handshake() {
    let now = at(1);
    let client_peer = PeerId::new(30);
    let server_peer = PeerId::new(40);
    let (client_config, server_config) = configs(CipherSuite::ChaCha20Poly1305);
    let mut client = ClientEngine::new(client_config, psk(1), server_peer).expect("client");
    let mut server = ServerEngine::new(server_config, psk(2)).expect("server");
    let start = client.handle(TunnelEvent::Start, now).expect("start");
    let (_, client_hello) = tunnel_frame(&start);
    let server_actions = server
        .handle(frame_from(client_peer, &client_hello), now)
        .expect("server hello");
    let (_, server_hello) = tunnel_frame(&server_actions);
    assert!(
        client
            .handle(frame_from(server_peer, &server_hello), now)
            .is_err()
    );
    assert_eq!(client.state(), SessionState::Handshaking);

    let (mut client_config, mut server_config) = configs(CipherSuite::Aes128Gcm);
    server_config.cipher_suite = CipherSuite::Aes256Gcm;
    client_config.cipher_suite = CipherSuite::Aes128Gcm;
    let mut client = ClientEngine::new(client_config, psk(3), server_peer).expect("client");
    let mut server = ServerEngine::new(server_config, psk(3)).expect("server");
    let start = client.handle(TunnelEvent::Start, now).expect("start");
    let (_, hello) = tunnel_frame(&start);
    assert!(server.handle(frame_from(client_peer, &hello), now).is_err());
}

#[test]
fn application_data_is_rejected_before_ready() {
    let (config, _) = configs(CipherSuite::ChaCha20Poly1305);
    let mut client = ClientEngine::new(config, psk(9), PeerId::new(2)).expect("client");
    let local_peer = local(32000);
    assert!(matches!(
        client.handle(datagram(local_peer, &[1]), at(1)),
        Err(EngineError::SessionNotReady)
    ));
}

#[test]
fn a_wrong_key_is_refused_without_cookies_too() {
    let now = at(1);
    let (client_config, mut server_config) = configs(CipherSuite::Aes256Gcm);
    server_config.require_handshake_cookie = false;
    let server_peer = PeerId::new(40);
    let mut client = ClientEngine::new(client_config, psk(1), server_peer).expect("client");
    let mut server = ServerEngine::new(server_config, psk(2)).expect("server");
    let start = client.handle(TunnelEvent::Start, now).expect("start");
    let (_, hello) = tunnel_frame(&start);
    let answer = server
        .handle(frame_from(PeerId::new(30), &hello), now)
        .expect("answer");
    let (_, answer) = tunnel_frame(&answer);
    assert!(matches!(
        client.handle(frame_from(server_peer, &answer), now),
        Err(EngineError::Handshake(HandshakeError::AuthenticationFailed))
    ));
    assert_eq!(client.state(), SessionState::Handshaking);
}

#[test]
fn a_client_is_ready_only_after_the_confirmation() {
    let now = at(1);
    let client_peer = PeerId::new(10);
    let server_peer = PeerId::new(20);
    let (client_config, mut server_config) = configs(CipherSuite::ChaCha20Poly1305);
    server_config.require_handshake_cookie = false;
    let mut client = ClientEngine::new(client_config, psk(7), server_peer).expect("client");
    let mut server = ServerEngine::new(server_config, psk(7)).expect("server");
    let start = client.handle(TunnelEvent::Start, now).expect("start");
    let (_, hello) = tunnel_frame(&start);
    let answer = server
        .handle(frame_from(client_peer, &hello), now)
        .expect("answer");
    let (_, answer) = tunnel_frame(&answer);
    let finish = client
        .handle(frame_from(server_peer, &answer), now)
        .expect("finish");
    assert_eq!(client.state(), SessionState::Handshaking);
    let queued = client
        .handle(datagram(local(1), b"early"), now)
        .expect("queued");
    assert!(
        !queued
            .iter()
            .any(|action| matches!(action, TunnelAction::SendTunnelFrame { .. }))
    );
    let (_, finish) = tunnel_frame(&finish);
    let established = server
        .handle(frame_from(client_peer, &finish), now)
        .expect("established");
    let (_, ack) = tunnel_frame(&established);
    let ready = client
        .handle(frame_from(server_peer, &ack), now)
        .expect("ready");
    assert_eq!(client.state(), SessionState::Ready);
    let (_, early) = tunnel_frame(&ready);
    let delivered = server
        .handle(frame_from(client_peer, &early), now)
        .expect("queued datagram");
    assert!(delivered.iter().any(|action| matches!(
        action,
        TunnelAction::DeliverToUpstream { payload, .. } if payload == b"early"
    )));
}

#[test]
fn a_repeated_finish_is_answered_with_the_same_confirmation() {
    let now = at(1);
    let client_peer = PeerId::new(10);
    let server_peer = PeerId::new(20);
    let (client_config, mut server_config) = configs(CipherSuite::Aes128Gcm);
    server_config.require_handshake_cookie = false;
    let mut client = ClientEngine::new(client_config, psk(7), server_peer).expect("client");
    let mut server = ServerEngine::new(server_config, psk(7)).expect("server");
    let start = client.handle(TunnelEvent::Start, now).expect("start");
    let (_, hello) = tunnel_frame(&start);
    let first = server
        .handle(frame_from(client_peer, &hello), now)
        .expect("answer");
    let second = server
        .handle(frame_from(client_peer, &hello), now)
        .expect("the same answer");
    assert_eq!(tunnel_frame(&first), tunnel_frame(&second));
    let (_, answer) = tunnel_frame(&first);
    let finish = client
        .handle(frame_from(server_peer, &answer), now)
        .expect("finish");
    let (_, finish) = tunnel_frame(&finish);
    let first = server
        .handle(frame_from(client_peer, &finish), now)
        .expect("confirmation");
    let second = server
        .handle(frame_from(client_peer, &finish), now)
        .expect("the same confirmation");
    assert_eq!(tunnel_frame(&first), tunnel_frame(&second));
    assert_eq!(second.len(), 1);
    let (_, ack) = tunnel_frame(&first);
    client
        .handle(frame_from(server_peer, &ack), now)
        .expect("ready");
    let sent = client
        .handle(datagram(local(1), b"one"), at(2))
        .expect("request");
    server
        .handle(frame_from(client_peer, &tunnel_frame(&sent).1), at(2))
        .expect("delivered");
    server
        .handle(TunnelEvent::TimeAdvanced(at(3)), at(3))
        .expect("time passes");
    let third = server
        .handle(frame_from(client_peer, &finish), at(4))
        .expect("still the same confirmation");
    assert_eq!(third, second);
}

#[test]
fn a_cookie_is_bound_to_the_route() {
    let now = at(1);
    let server_peer = PeerId::new(20);
    let (client_config, server_config) = configs(CipherSuite::ChaCha20Poly1305);
    let mut client = ClientEngine::new(client_config, psk(7), server_peer).expect("client");
    let mut server = ServerEngine::new(server_config, psk(7)).expect("server");
    let start = client.handle(TunnelEvent::Start, now).expect("start");
    let (_, hello) = tunnel_frame(&start);
    let retry = server
        .handle(frame_from(PeerId::new(10), &hello), now)
        .expect("retry");
    let (_, retry) = tunnel_frame(&retry);
    let with_cookie = client
        .handle(frame_from(server_peer, &retry), now)
        .expect("hello with cookie");
    let (_, with_cookie) = tunnel_frame(&with_cookie);
    let again = server
        .handle(frame_from(PeerId::new(11), &with_cookie), now)
        .expect("another retry");
    let (_, again) = tunnel_frame(&again);
    assert_eq!(again[1], 4);
    let late = Instant::from_nanos(31 * SECOND);
    let expired = server
        .handle(frame_from(PeerId::new(10), &with_cookie), late)
        .expect("an old cookie");
    let (_, expired) = tunnel_frame(&expired);
    assert_eq!(expired[1], 4);
    let answered = server
        .handle(frame_from(PeerId::new(10), &with_cookie), now)
        .expect("answer");
    let (_, answered) = tunnel_frame(&answered);
    assert_eq!(answered[1], 2);
}

#[test]
fn handshake_attempts_are_limited_per_route() {
    let (client_config, mut server_config) = configs(CipherSuite::ChaCha20Poly1305);
    server_config.handshake_rate_limit_burst = 2;
    let server_peer = PeerId::new(20);
    let mut client = ClientEngine::new(client_config, psk(7), server_peer).expect("client");
    let mut server = ServerEngine::new(server_config, psk(7)).expect("server");
    let start = client.handle(TunnelEvent::Start, at(1)).expect("start");
    let (_, hello) = tunnel_frame(&start);
    for _ in 0..2 {
        assert!(
            server
                .handle(frame_from(PeerId::new(1), &hello), at(1))
                .is_ok()
        );
    }
    assert!(matches!(
        server.handle(frame_from(PeerId::new(1), &hello), at(1)),
        Err(EngineError::HandshakeRateLimited)
    ));
    assert!(
        server
            .handle(frame_from(PeerId::new(2), &hello), at(1))
            .is_ok()
    );
    let refilled = Instant::from_nanos(SECOND + 100_000_000);
    assert!(
        server
            .handle(frame_from(PeerId::new(1), &hello), refilled)
            .is_ok()
    );
}

#[test]
fn pending_handshakes_are_bounded() {
    let (client_config, mut server_config) = configs(CipherSuite::ChaCha20Poly1305);
    server_config.require_handshake_cookie = false;
    server_config.max_pending_handshakes = 3;
    server_config.max_pending_handshakes_per_peer = 2;
    let mut server = ServerEngine::new(server_config, psk(7)).expect("server");
    let hello = || {
        let mut client = ClientEngine::new(client_config, psk(7), PeerId::new(20)).expect("client");
        let start = client.handle(TunnelEvent::Start, at(1)).expect("start");
        tunnel_frame(&start).1
    };
    for _ in 0..2 {
        assert!(
            server
                .handle(frame_from(PeerId::new(1), &hello()), at(1))
                .is_ok()
        );
    }
    assert!(matches!(
        server.handle(frame_from(PeerId::new(1), &hello()), at(1)),
        Err(EngineError::PerPeerPendingHandshakeCapacity)
    ));
    assert!(
        server
            .handle(frame_from(PeerId::new(2), &hello()), at(1))
            .is_ok()
    );
    assert!(matches!(
        server.handle(frame_from(PeerId::new(2), &hello()), at(1)),
        Err(EngineError::PendingHandshakeCapacity)
    ));
}

#[test]
fn sessions_are_bounded() {
    let (client_config, mut server_config) = configs(CipherSuite::ChaCha20Poly1305);
    server_config.max_sessions = 1;
    let (_, mut server, _, _, _) = establish_with(client_config, server_config);
    let now = at(1);
    let server_peer = PeerId::new(20);
    let client_peer = PeerId::new(11);
    let mut client = ClientEngine::new(client_config, psk(7), server_peer).expect("client");
    let start = client.handle(TunnelEvent::Start, now).expect("start");
    let mut frame = tunnel_frame(&start).1;
    for _ in 0..2 {
        let answer = server
            .handle(frame_from(client_peer, &frame), now)
            .expect("server message");
        let reply = client
            .handle(frame_from(server_peer, &tunnel_frame(&answer).1), now)
            .expect("client message");
        frame = tunnel_frame(&reply).1;
    }
    assert!(matches!(
        server.handle(frame_from(client_peer, &frame), now),
        Err(EngineError::SessionCapacity)
    ));
}

#[test]
fn queued_datagrams_are_bounded_and_expire() {
    let (mut client_config, _) = configs(CipherSuite::ChaCha20Poly1305);
    client_config.reconnect_queue_capacity = 1;
    let mut client = ClientEngine::new(client_config, psk(7), PeerId::new(20)).expect("client");
    client.handle(TunnelEvent::Start, at(1)).expect("start");
    client
        .handle(datagram(local(1), b"first"), at(1))
        .expect("queued");
    let full = client
        .handle(datagram(local(2), b"second"), at(1))
        .expect("dropped");
    assert!(full.contains(&TunnelAction::ClientDatagramDropped {
        local_peer: local(2),
        reason: ClientDatagramDropReason::ReconnectQueueFull,
    }));
    let expired = client
        .handle(TunnelEvent::TimeAdvanced(at(6)), at(6))
        .expect("expired");
    assert!(expired.contains(&TunnelAction::ClientDatagramDropped {
        local_peer: local(1),
        reason: ClientDatagramDropReason::ReconnectQueueExpired,
    }));
}

#[test]
fn an_unanswered_handshake_is_repeated_and_then_given_up() {
    let (client_config, _) = configs(CipherSuite::ChaCha20Poly1305);
    let mut client = ClientEngine::new(client_config, psk(7), PeerId::new(20)).expect("client");
    let start = client.handle(TunnelEvent::Start, at(1)).expect("start");
    assert!(start.contains(&TunnelAction::ScheduleTimer(Duration::from_millis(500))));
    let early = Instant::from_nanos(SECOND + 499_999_999);
    assert_eq!(
        client
            .handle(TunnelEvent::TimeAdvanced(early), early)
            .expect("too early"),
        vec![]
    );
    let due = Instant::from_nanos(SECOND + 500_000_000);
    let repeated = client
        .handle(TunnelEvent::TimeAdvanced(due), due)
        .expect("repeated");
    assert_eq!(tunnel_frame(&repeated), tunnel_frame(&start));
    client
        .handle(datagram(local(1), b"waiting"), at(9))
        .expect("queued");
    let given_up = client
        .handle(TunnelEvent::TimeAdvanced(at(11)), at(11))
        .expect("given up");
    assert_eq!(client.state(), SessionState::Closed);
    assert!(given_up.contains(&TunnelAction::ClientDatagramDropped {
        local_peer: local(1),
        reason: ClientDatagramDropReason::SessionClosed,
    }));
    assert!(matches!(
        client.handle(datagram(local(1), b"late"), at(11)),
        Err(EngineError::SessionNotReady)
    ));
}

#[test]
fn a_resumed_session_keeps_its_conversations() {
    let now = at(1);
    let (mut client, mut server, client_peer, server_peer, first_session) =
        establish(CipherSuite::ChaCha20Poly1305);
    let local_peer = local(31000);
    let sent = client
        .handle(datagram(local_peer, b"one"), now)
        .expect("request");
    let conversation_id = opened_conversation(&sent);
    let delivered = server
        .handle(frame_from(client_peer, &tunnel_frame(&sent).1), now)
        .expect("delivered");
    for action in delivered {
        if let TunnelAction::SendTunnelFrame { bytes, .. } = action {
            client
                .handle(frame_from(server_peer, &bytes), now)
                .expect("credential");
        }
    }
    let restart = client
        .handle(TunnelEvent::Reconnect, at(2))
        .expect("reconnect");
    assert_eq!(client.state(), SessionState::Reconnecting);
    let (established, confirmed) = complete(
        &mut client,
        &mut server,
        client_peer,
        server_peer,
        &restart,
        at(2),
    );
    let second_session = client.session_id().expect("second session");
    assert_ne!(first_session, second_session);
    assert!(established.contains(&TunnelAction::SessionResumed {
        peer_id: client_peer,
        old_session_id: first_session,
        new_session_id: second_session,
    }));
    assert!(confirmed.iter().any(|action| matches!(
        action,
        TunnelAction::SessionEstablished { resumed: true, .. }
    )));
    assert_eq!(server.session_state(first_session), None);
    let reply = server
        .handle(
            TunnelEvent::ServerDatagram {
                session_id: second_session,
                conversation_id,
                payload: b"two".to_vec(),
            },
            at(2),
        )
        .expect("reply");
    assert_eq!(
        client
            .handle(frame_from(server_peer, &tunnel_frame(&reply).1), at(2))
            .expect("delivered"),
        vec![TunnelAction::DeliverToClient {
            local_peer,
            payload: b"two".to_vec(),
        }]
    );
}

#[test]
fn conversations_are_bounded_and_unknown_ones_refused() {
    let now = at(1);
    let (mut client_config, server_config) = configs(CipherSuite::NoneAuthenticated);
    client_config.max_conversations = 1;
    let (mut client, mut server, _, _, session_id) = establish_with(client_config, server_config);
    client
        .handle(datagram(local(1), b"one"), now)
        .expect("first");
    assert!(matches!(
        client.handle(datagram(local(2), b"two"), now),
        Err(EngineError::ConversationCapacity)
    ));
    let unknown = ConversationId::new(77).expect("non-zero");
    assert!(matches!(
        server.handle(
            TunnelEvent::ServerDatagram {
                session_id,
                conversation_id: unknown,
                payload: vec![1],
            },
            now,
        ),
        Err(EngineError::UnknownConversation)
    ));
    assert!(matches!(
        server.handle(
            TunnelEvent::ServerDatagram {
                session_id: SessionId::from_u64(session_id.get().wrapping_add(1)),
                conversation_id: unknown,
                payload: vec![1],
            },
            now,
        ),
        Err(EngineError::UnknownSession)
    ));
}

#[test]
fn oversized_datagrams_foreign_routes_and_foreign_roles_are_refused() {
    let now = at(1);
    let (mut client, mut server, _, _, session_id) = establish(CipherSuite::ChaCha20Poly1305);
    assert!(matches!(
        client.handle(datagram(local(1), &[0; 1151]), now),
        Err(EngineError::PayloadTooLarge)
    ));
    assert!(client.handle(datagram(local(1), &[0; 1150]), now).is_ok());
    assert!(matches!(
        client.handle(frame_from(PeerId::new(99), &[4; 30]), now),
        Err(EngineError::UnexpectedPeer)
    ));
    assert!(matches!(
        server.handle(TunnelEvent::Start, now),
        Err(EngineError::InvalidRole)
    ));
    assert!(matches!(
        client.handle(
            TunnelEvent::ServerDatagram {
                session_id,
                conversation_id: ConversationId::new(1).expect("non-zero"),
                payload: vec![],
            },
            now,
        ),
        Err(EngineError::InvalidRole)
    ));
    assert!(matches!(
        server.handle(frame_from(PeerId::new(10), &[4; 23]), now),
        Err(EngineError::Frame(_))
    ));
}

#[test]
fn engines_need_their_own_role_and_a_valid_configuration() {
    assert!(matches!(
        ClientEngine::new(EngineConfig::server(), psk(1), PeerId::new(1)),
        Err(EngineError::InvalidRole)
    ));
    assert!(matches!(
        ServerEngine::new(EngineConfig::client(), psk(1)),
        Err(EngineError::InvalidRole)
    ));
    let mut config = EngineConfig::client();
    config.max_conversations = 0;
    assert!(matches!(
        ClientEngine::new(config, psk(1), PeerId::new(1)),
        Err(EngineError::Config(_))
    ));
}

#[test]
fn idle_sessions_and_conversations_end() {
    let now = at(1);
    let (mut client, mut server, client_peer, _, session_id) =
        establish(CipherSuite::ChaCha20Poly1305);
    let sent = client
        .handle(datagram(local(1), b"one"), now)
        .expect("request");
    let conversation_id = opened_conversation(&sent);
    server
        .handle(frame_from(client_peer, &tunnel_frame(&sent).1), now)
        .expect("delivered");
    let idle = server
        .handle(TunnelEvent::TimeAdvanced(at(181)), at(181))
        .expect("idle conversation");
    assert!(idle.contains(&TunnelAction::ConversationClosed {
        session_id: Some(session_id),
        conversation_id,
    }));
    let closed = server
        .handle(TunnelEvent::TimeAdvanced(at(301)), at(301))
        .expect("idle session");
    assert!(closed.contains(&TunnelAction::SessionClosed {
        peer_id: client_peer,
        session_id,
    }));
    assert_eq!(server.session_state(session_id), None);
}

#[test]
fn a_closed_conversation_is_reported_once() {
    let now = at(1);
    let (mut client, _, _, _, session_id) = establish(CipherSuite::ChaCha20Poly1305);
    let sent = client
        .handle(datagram(local(1), b"one"), now)
        .expect("request");
    let conversation_id = opened_conversation(&sent);
    let close = || TunnelEvent::CloseConversation {
        session_id: None,
        conversation_id,
    };
    let closed = client.handle(close(), now).expect("closed");
    assert_eq!(
        closed,
        vec![TunnelAction::ConversationClosed {
            session_id: Some(session_id),
            conversation_id,
        }]
    );
    assert_eq!(client.handle(close(), now).expect("already closed"), vec![]);
    let other_session = TunnelEvent::CloseConversation {
        session_id: Some(SessionId::from_u64(session_id.get().wrapping_add(1))),
        conversation_id,
    };
    assert!(matches!(
        client.handle(other_session, now),
        Err(EngineError::UnknownSession)
    ));
}

fn sends(actions: &[TunnelAction]) -> bool {
    actions
        .iter()
        .any(|action| matches!(action, TunnelAction::SendTunnelFrame { .. }))
}

#[test]
fn an_idle_session_stays_ready_and_sends_nothing() {
    let (mut client, mut server, _, _, session_id) = establish(CipherSuite::ChaCha20Poly1305);
    for seconds in [10, 11, 12, 1000] {
        let quiet = client
            .handle(TunnelEvent::TimeAdvanced(at(seconds)), at(seconds))
            .expect("idle");
        assert!(!sends(&quiet));
        assert!(
            !quiet
                .iter()
                .any(|action| matches!(action, TunnelAction::SessionClosed { .. }))
        );
        assert_eq!(client.state(), SessionState::Ready);
        assert_eq!(client.session_id(), Some(session_id));
    }
    let quiet = server
        .handle(TunnelEvent::TimeAdvanced(at(1000)), at(1000))
        .expect("idle");
    assert!(!sends(&quiet));
}

#[test]
fn local_traffic_replaces_a_stale_session() {
    let (mut client, mut server, client_peer, server_peer, session_id) =
        establish(CipherSuite::NoneAuthenticated);
    let fresh = client
        .handle(datagram(local(1), b"in time"), at(11))
        .expect("sent at once");
    assert_eq!(client.state(), SessionState::Ready);
    assert_eq!(tunnel_frame(&fresh).1[1], 16);
    let late = Instant::from_nanos(11 * SECOND + 1);
    let restart = client
        .handle(datagram(local(1), b"too late"), late)
        .expect("queued");
    assert_eq!(client.state(), SessionState::Reconnecting);
    assert_eq!(client.session_id(), None);
    assert_eq!(
        restart[0],
        TunnelAction::SessionClosed {
            peer_id: server_peer,
            session_id,
        }
    );
    let frames: Vec<u8> = restart
        .iter()
        .filter_map(|action| match action {
            TunnelAction::SendTunnelFrame { bytes, .. } => Some(bytes[1]),
            _ => None,
        })
        .collect();
    assert_eq!(frames, vec![1]);
    let (_, confirmed) = complete(
        &mut client,
        &mut server,
        client_peer,
        server_peer,
        &restart,
        at(12),
    );
    assert_ne!(client.session_id(), Some(session_id));
    let (_, bytes) = tunnel_frame(&confirmed);
    assert_eq!(bytes[1], 16);
    assert_eq!(&bytes[24..bytes.len() - 32], b"too late");
    let next = client
        .handle(datagram(local(1), b"next"), at(13))
        .expect("sent at once");
    assert!(sends(&next));
}

#[test]
fn each_conversation_has_a_credential_of_its_own() {
    let now = at(1);
    let (mut client, mut server, client_peer, _, _) = establish(CipherSuite::NoneAuthenticated);
    let mut credentials = Vec::new();
    for port in [1, 2] {
        let sent = client
            .handle(datagram(local(port), b"request"), now)
            .expect("request");
        let conversation_id = opened_conversation(&sent);
        let delivered = server
            .handle(frame_from(client_peer, &tunnel_frame(&sent).1), now)
            .expect("delivered");
        let handed_out: Vec<Vec<u8>> = delivered
            .into_iter()
            .filter_map(|action| match action {
                TunnelAction::SendTunnelFrame { bytes, .. } if bytes[1] == 20 => Some(bytes),
                _ => None,
            })
            .collect();
        assert_eq!(handed_out.len(), 1);
        let bytes = &handed_out[0];
        assert_eq!(bytes[20..24], conversation_id.get().to_be_bytes());
        credentials.push(bytes[24..bytes.len() - 32].to_vec());
    }
    assert_eq!(credentials[0].len(), 76);
    assert_eq!(credentials[1].len(), 76);
    assert_ne!(credentials[0], credentials[1]);
}

#[test]
fn a_credential_is_handed_out_once_while_it_is_fresh() {
    let now = at(1);
    let (mut client, mut server, client_peer, _, _) = establish(CipherSuite::Aes256Gcm);
    let mut counts = Vec::new();
    for _ in 0..3 {
        let sent = client
            .handle(datagram(local(1), b"request"), now)
            .expect("request");
        let delivered = server
            .handle(frame_from(client_peer, &tunnel_frame(&sent).1), now)
            .expect("delivered");
        counts.push(sends(&delivered));
    }
    assert_eq!(counts, vec![true, false, false]);
}

#[test]
fn the_end_of_recovery_is_reported_once() {
    let now = at(1);
    let (client_config, mut server_config) = configs(CipherSuite::ChaCha20Poly1305);
    server_config.conversation_idle_timeout = Duration::from_secs(100_000);
    let (mut client, mut server, client_peer, _, session_id) =
        establish_with(client_config, server_config);
    let sent = client
        .handle(datagram(local(1), b"one"), now)
        .expect("request");
    server
        .handle(frame_from(client_peer, &tunnel_frame(&sent).1), now)
        .expect("delivered");
    let closed = server
        .handle(TunnelEvent::TimeAdvanced(at(301)), at(301))
        .expect("idle session");
    assert_eq!(
        closed,
        vec![TunnelAction::SessionClosed {
            peer_id: client_peer,
            session_id,
        }]
    );
    assert_eq!(server.session_state(session_id), None);
    let lifetime = EngineConfig::server().resumption_lifetime.as_nanos();
    let end = 301 * SECOND + u64::try_from(lifetime).expect("short");
    let reported: Vec<bool> = [end - 1, end, end + 1, end + SECOND]
        .into_iter()
        .map(|nanos| {
            let instant = Instant::from_nanos(nanos);
            server
                .handle(TunnelEvent::TimeAdvanced(instant), instant)
                .expect("time passes")
                .contains(&TunnelAction::SessionRecoveryExpired { session_id })
        })
        .collect();
    assert_eq!(reported, vec![false, true, false, false]);
}

#[test]
fn a_session_identifier_in_use_is_not_given_out_again() {
    let now = at(1);
    let (_, mut server_config) = configs(CipherSuite::ChaCha20Poly1305);
    server_config.require_handshake_cookie = false;
    let (client_config, _) = configs(CipherSuite::ChaCha20Poly1305);
    let mut server = ServerEngine::new(server_config, psk(7)).expect("server");
    let mut answer = |id: u64| {
        let mut client =
            ClientEngine::new(client_config.clone(), psk(7), PeerId::new(20)).expect("client");
        let start = client.handle(TunnelEvent::Start, now).expect("start");
        let entropy = ServerEntropy {
            session_id: Some(SessionId::from_u64(id)),
            hello: AnswerSeed::from_drawn(Ok([1; 32]), Ok([2; 32])),
            credentials: vec![],
        };
        server.handle_with(
            frame_from(PeerId::new(10), &tunnel_frame(&start).1),
            now,
            entropy,
        )
    };
    let (_, bytes) = tunnel_frame(&answer(9).expect("unused"));
    assert_eq!(bytes[4..12], 9u64.to_be_bytes());
    assert!(matches!(answer(9), Err(EngineError::RandomnessUnavailable)));
    assert!(answer(10).is_ok());
}

fn drawn(numbers: &[u32]) -> ClientEntropy {
    ClientEntropy {
        hello: None,
        conversations: numbers.iter().map(|number| ConversationId::new(*number)).collect(),
    }
}

#[test]
fn a_conversation_in_use_is_not_given_to_another_peer() {
    let now = at(1);
    let (mut client, mut server, client_peer, server_peer, session_id) =
        establish(CipherSuite::ChaCha20Poly1305);
    let first = client
        .handle_with(datagram(local(1), b"one"), now, drawn(&[7]))
        .expect("unused");
    assert_eq!(opened_conversation(&first).get(), 7);
    assert!(matches!(
        client.handle_with(datagram(local(2), b"two"), now, drawn(&[7])),
        Err(EngineError::RandomnessUnavailable)
    ));
    let second = client
        .handle_with(datagram(local(2), b"two"), now, drawn(&[8]))
        .expect("unused");
    assert_eq!(opened_conversation(&second).get(), 8);
    for (port, sent) in [(1, first), (2, second)] {
        server
            .handle(frame_from(client_peer, &tunnel_frame(&sent).1), now)
            .expect("delivered");
        let reply = server
            .handle(
                TunnelEvent::ServerDatagram {
                    session_id,
                    conversation_id: opened_conversation(&sent),
                    payload: vec![port as u8],
                },
                now,
            )
            .expect("reply");
        assert_eq!(
            client
                .handle(frame_from(server_peer, &tunnel_frame(&reply).1), now)
                .expect("delivered"),
            vec![TunnelAction::DeliverToClient {
                local_peer: local(port),
                payload: vec![port as u8],
            }]
        );
    }
}

#[test]
fn a_closed_conversation_is_not_opened_again_in_its_session() {
    let now = at(1);
    let (mut client, mut server, client_peer, server_peer, _) =
        establish(CipherSuite::ChaCha20Poly1305);
    client
        .handle_with(datagram(local(1), b"one"), now, drawn(&[7]))
        .expect("unused");
    let close = TunnelEvent::CloseConversation {
        session_id: None,
        conversation_id: ConversationId::new(7).expect("identifier"),
    };
    client.handle(close, now).expect("closed");
    assert!(matches!(
        client.handle_with(datagram(local(2), b"two"), now, drawn(&[7])),
        Err(EngineError::RandomnessUnavailable)
    ));
    client
        .handle_with(datagram(local(2), b"two"), now, drawn(&[8]))
        .expect("unused");
    client
        .handle(TunnelEvent::TimeAdvanced(at(181)), at(181))
        .expect("idle conversation");
    let restart = client
        .handle(datagram(local(3), b"three"), at(181))
        .expect("a stale session");
    complete(
        &mut client,
        &mut server,
        client_peer,
        server_peer,
        &restart,
        at(182),
    );
    let again = client
        .handle_with(datagram(local(4), b"four"), at(182), drawn(&[7]))
        .expect("a session that resumes no other");
    assert_eq!(opened_conversation(&again).get(), 7);
}

#[test]
fn idle_conversations_are_not_opened_again_either() {
    let (client_config, server_config) = configs(CipherSuite::ChaCha20Poly1305);
    let mut client_config = client_config;
    client_config.session_timeout = Duration::from_secs(1000);
    let (mut client, _, _, _, _) = establish_with(client_config, server_config);
    client
        .handle_with(datagram(local(1), b"one"), at(1), drawn(&[7]))
        .expect("unused");
    client
        .handle(TunnelEvent::TimeAdvanced(at(181)), at(181))
        .expect("idle conversation");
    assert!(matches!(
        client.handle_with(datagram(local(1), b"two"), at(181), drawn(&[7])),
        Err(EngineError::RandomnessUnavailable)
    ));
    assert!(
        client
            .handle_with(datagram(local(1), b"two"), at(181), drawn(&[8]))
            .is_ok()
    );
}

#[test]
fn waiting_peers_get_conversations_of_their_own() {
    let now = at(1);
    let client_peer = PeerId::new(10);
    let server_peer = PeerId::new(20);
    let (client_config, server_config) = configs(CipherSuite::NoneAuthenticated);
    let mut client = ClientEngine::new(client_config, psk(7), server_peer).expect("client");
    let mut server = ServerEngine::new(server_config, psk(7)).expect("server");
    let start = client.handle(TunnelEvent::Start, now).expect("start");
    for (port, payload) in [(1, b"a"), (2, b"b"), (1, b"c")] {
        client
            .handle(datagram(local(port), payload), now)
            .expect("queued");
    }
    let (_, confirmed) = complete(
        &mut client,
        &mut server,
        client_peer,
        server_peer,
        &start,
        now,
    );
    let frames: Vec<Vec<u8>> = confirmed
        .iter()
        .filter_map(|action| match action {
            TunnelAction::SendTunnelFrame { bytes, .. } => Some(bytes.clone()),
            _ => None,
        })
        .collect();
    assert_eq!(frames.len(), 3);
    let numbers: Vec<u64> = frames
        .iter()
        .map(|bytes| u64::from_be_bytes(bytes[12..20].try_into().expect("eight octets")))
        .collect();
    assert_eq!(numbers, vec![0, 1, 2]);
    assert_eq!(frames[0][20..24], frames[2][20..24]);
    assert_ne!(frames[0][20..24], frames[1][20..24]);
}

#[test]
fn queued_datagrams_are_settled_in_order() {
    let client_peer = PeerId::new(10);
    let server_peer = PeerId::new(20);
    let (client_config, server_config) = configs(CipherSuite::NoneAuthenticated);
    let mut client = ClientEngine::new(client_config, psk(7), server_peer).expect("client");
    let mut server = ServerEngine::new(server_config, psk(7)).expect("server");
    let start = client.handle(TunnelEvent::Start, at(1)).expect("start");
    client
        .handle(datagram(local(1), b"stale"), at(1))
        .expect("queued");
    client
        .handle(datagram(local(2), b"first"), at(5))
        .expect("queued");
    client
        .handle(datagram(local(3), b"second"), at(5))
        .expect("queued");
    let (_, confirmed) = complete(
        &mut client,
        &mut server,
        client_peer,
        server_peer,
        &start,
        at(6),
    );
    assert!(matches!(
        confirmed[0],
        TunnelAction::SessionEstablished { resumed: false, .. }
    ));
    assert_eq!(
        confirmed[1],
        TunnelAction::ClientDatagramDropped {
            local_peer: local(1),
            reason: ClientDatagramDropReason::ReconnectQueueExpired,
        }
    );
    let payloads: Vec<Vec<u8>> = confirmed
        .iter()
        .filter_map(|action| match action {
            TunnelAction::SendTunnelFrame { bytes, .. } => Some(bytes.clone()),
            _ => None,
        })
        .map(|bytes| bytes[24..bytes.len() - 32].to_vec())
        .collect();
    assert_eq!(payloads, vec![b"first".to_vec(), b"second".to_vec()]);
}

#[test]
fn replies_find_the_local_peer_of_their_conversation() {
    let now = at(1);
    let (mut client, mut server, client_peer, server_peer, session_id) =
        establish(CipherSuite::XChaCha20Poly1305);
    let mut conversations = Vec::new();
    for port in [1, 2, 3] {
        let sent = client
            .handle(datagram(local(port), b"hello"), now)
            .expect("sent");
        conversations.push((port, opened_conversation(&sent)));
        server
            .handle(frame_from(client_peer, &tunnel_frame(&sent).1), now)
            .expect("delivered");
    }
    for (port, conversation_id) in conversations.into_iter().rev() {
        let reply = server
            .handle(
                TunnelEvent::ServerDatagram {
                    session_id,
                    conversation_id,
                    payload: vec![port as u8],
                },
                now,
            )
            .expect("reply");
        assert_eq!(
            client
                .handle(frame_from(server_peer, &tunnel_frame(&reply).1), now)
                .expect("delivered"),
            vec![TunnelAction::DeliverToClient {
                local_peer: local(port),
                payload: vec![port as u8],
            }]
        );
    }
}

#[test]
fn frames_of_one_session_do_not_touch_another() {
    let now = at(1);
    let (mut first, mut server, first_peer, server_peer, first_session) =
        establish(CipherSuite::Aes256Gcm);
    let (client_config, _) = configs(CipherSuite::Aes256Gcm);
    let second_peer = PeerId::new(11);
    let mut second = ClientEngine::new(client_config, psk(7), server_peer).expect("client");
    let start = second.handle(TunnelEvent::Start, now).expect("start");
    complete(
        &mut second,
        &mut server,
        second_peer,
        server_peer,
        &start,
        now,
    );
    let sent = first
        .handle(datagram(local(1), b"mine"), now)
        .expect("sent");
    let frame = tunnel_frame(&sent).1;
    assert!(matches!(
        server.handle(frame_from(second_peer, &frame), now),
        Err(EngineError::UnexpectedPeer)
    ));
    let delivered = server
        .handle(frame_from(first_peer, &frame), now)
        .expect("delivered");
    assert!(delivered.iter().any(|action| matches!(
        action,
        TunnelAction::DeliverToUpstream { session_id, payload, .. }
            if *session_id == first_session && payload == b"mine"
    )));
}
