use udp2raw_ng::cli::{
    CommonSettings, CryptoArg, LogLevelArg, default_workers, permissions_are_broad,
    trim_line_ending, validate_common,
};
use udp2raw_ng::entropy::{number_drawn, octets_drawn, random_u32};
use udp2raw_ng::client::HelloSeed;
use udp2raw_ng::server::AnswerSeed;
use udp2raw_ng::{
    CipherSuite, ConfigError, ConversationHandle, ConversationId, CryptoError, Duration,
    EngineConfig, EngineError, FrameError, HandshakeError, Instant, LinuxTransportError,
    MemoryTransportError, PeerId, RecordError, ReplayError, Role, ServiceError, SessionId,
};

fn settings() -> CommonSettings {
    CommonSettings {
        secret_file_given: true,
        secret_env_given: false,
        secret_stdin: false,
        secret_given: false,
        workers: 1,
        packet_workers: 1,
        io_threads: 1,
        queue_capacity: 1,
        ttl: 64,
        hop_limit: 64,
    }
}

#[test]
fn exactly_one_secret_source_is_needed() {
    assert_eq!(validate_common(&settings()), Ok(()));
    let message =
        "exactly one of --secret-file, --secret-env, --secret-stdin, or --secret is required";
    let mut none = settings();
    none.secret_file_given = false;
    assert_eq!(validate_common(&none), Err(message.to_owned()));
    let mut two = settings();
    two.secret_stdin = true;
    assert_eq!(validate_common(&two), Err(message.to_owned()));
    let mut other = none;
    other.secret_given = true;
    assert_eq!(validate_common(&other), Ok(()));
}

#[test]
fn counts_and_hop_limits_must_not_be_zero() {
    let counts = "worker counts and queue capacity must be greater than zero";
    let hops = "--ttl and --hop-limit must be in 1..=255";
    let mut changed = settings();
    changed.workers = 0;
    assert_eq!(validate_common(&changed), Err(counts.to_owned()));
    changed = settings();
    changed.packet_workers = 0;
    assert_eq!(validate_common(&changed), Err(counts.to_owned()));
    changed = settings();
    changed.io_threads = 0;
    assert_eq!(validate_common(&changed), Err(counts.to_owned()));
    changed = settings();
    changed.queue_capacity = 0;
    assert_eq!(validate_common(&changed), Err(counts.to_owned()));
    changed = settings();
    changed.ttl = 0;
    assert_eq!(validate_common(&changed), Err(hops.to_owned()));
    changed = settings();
    changed.hop_limit = 0;
    assert_eq!(validate_common(&changed), Err(hops.to_owned()));
}

#[test]
fn one_line_ending_is_trimmed() {
    for (given, expected) in [
        (&b"secret"[..], &b"secret"[..]),
        (b"secret\n", b"secret"),
        (b"secret\r\n", b"secret"),
        (b"secret\n\n", b"secret\n"),
        (b"secret\r", b"secret\r"),
        (b"\r\n", b""),
        (b"\n", b""),
        (b"", b""),
    ] {
        assert_eq!(trim_line_ending(given.to_vec()), expected);
    }
}

#[test]
fn workers_default_to_the_parallelism_up_to_a_limit() {
    assert_eq!(default_workers(None), 1);
    assert_eq!(default_workers(Some(8)), 8);
    assert_eq!(default_workers(Some(32)), 32);
    assert_eq!(default_workers(Some(33)), 32);
}

#[test]
fn arguments_have_their_meanings() {
    assert_eq!(
        CipherSuite::from(CryptoArg::Unencrypted),
        CipherSuite::NoneAuthenticated
    );
    assert_eq!(
        CipherSuite::from(CryptoArg::XChaCha20Poly1305),
        CipherSuite::XChaCha20Poly1305
    );
    let names: Vec<&str> = [
        LogLevelArg::Error,
        LogLevelArg::Warn,
        LogLevelArg::Info,
        LogLevelArg::Debug,
        LogLevelArg::Trace,
    ]
    .into_iter()
    .map(LogLevelArg::as_str)
    .collect();
    assert_eq!(names, vec!["error", "warn", "info", "debug", "trace"]);
    assert!(!permissions_are_broad(0o100600));
    assert!(permissions_are_broad(0o100640));
    assert!(permissions_are_broad(0o100604));
}

#[test]
fn defaults_are_valid_and_have_their_values() {
    let config = EngineConfig::default();
    assert_eq!(config.validate(), Ok(()));
    assert_eq!(EngineConfig::client().role, Role::Client);
    assert_eq!(EngineConfig::server().role, Role::Server);
    assert_eq!(config.cipher_suite, CipherSuite::ChaCha20Poly1305);
    assert_eq!(config.replay_window_size, 4096);
    assert_eq!(config.max_conversations, 1024);
    assert_eq!(config.max_frame_payload, 1150);
    assert_eq!(config.handshake_retry_interval, Duration::from_millis(500));
    assert_eq!(config.handshake_max_attempts, 8);
    assert!(config.require_handshake_cookie);
    assert_eq!(config.max_sessions, 4096);
}

#[test]
fn each_fault_of_a_configuration_has_its_error() {
    let zero = Duration::from_secs(0);
    let base = EngineConfig::default;
    let cases = [
        (
            EngineConfig {
                replay_window_size: 0,
                ..base()
            },
            ConfigError::ZeroReplayWindow,
        ),
        (
            EngineConfig {
                max_conversations: 0,
                ..base()
            },
            ConfigError::ZeroConversationLimit,
        ),
        (
            EngineConfig {
                max_frame_payload: 1151,
                ..base()
            },
            ConfigError::InvalidFramePayloadLimit {
                value: 1151,
                maximum: 1150,
            },
        ),
        (
            EngineConfig {
                max_frame_payload: 0,
                ..base()
            },
            ConfigError::InvalidFramePayloadLimit {
                value: 0,
                maximum: 1150,
            },
        ),
        (
            EngineConfig {
                conversation_idle_timeout: zero,
                ..base()
            },
            ConfigError::ZeroConversationIdleTimeout,
        ),
        (
            EngineConfig {
                session_timeout: zero,
                ..base()
            },
            ConfigError::ZeroSessionTimeout,
        ),
        (
            EngineConfig {
                session_idle_timeout: zero,
                ..base()
            },
            ConfigError::ZeroSessionIdleTimeout,
        ),
        (
            EngineConfig {
                handshake_retry_interval: zero,
                ..base()
            },
            ConfigError::ZeroHandshakeRetryInterval,
        ),
        (
            EngineConfig {
                handshake_timeout: zero,
                ..base()
            },
            ConfigError::ZeroHandshakeTimeout,
        ),
        (
            EngineConfig {
                handshake_retry_interval: Duration::from_millis(10_001),
                ..base()
            },
            ConfigError::HandshakeRetryExceedsTimeout,
        ),
        (
            EngineConfig {
                handshake_max_attempts: 0,
                ..base()
            },
            ConfigError::ZeroHandshakeAttemptLimit,
        ),
        (
            EngineConfig {
                reconnect_queue_capacity: 0,
                ..base()
            },
            ConfigError::ZeroReconnectQueueCapacity,
        ),
        (
            EngineConfig {
                reconnect_queue_timeout: zero,
                ..base()
            },
            ConfigError::ZeroReconnectQueueTimeout,
        ),
        (
            EngineConfig {
                handshake_rate_limit_burst: 0,
                ..base()
            },
            ConfigError::ZeroHandshakeRateLimitBurst,
        ),
        (
            EngineConfig {
                handshake_rate_refill_interval: zero,
                ..base()
            },
            ConfigError::ZeroHandshakeRateRefillInterval,
        ),
        (
            EngineConfig {
                handshake_cookie_lifetime: zero,
                ..base()
            },
            ConfigError::ZeroHandshakeCookieLifetime,
        ),
        (
            EngineConfig {
                resumption_lifetime: zero,
                ..base()
            },
            ConfigError::ZeroResumptionLifetime,
        ),
        (
            EngineConfig {
                max_pending_handshakes: 0,
                ..base()
            },
            ConfigError::ZeroPendingHandshakeLimit,
        ),
        (
            EngineConfig {
                max_pending_handshakes_per_peer: 0,
                ..base()
            },
            ConfigError::ZeroPerPeerPendingHandshakeLimit,
        ),
        (
            EngineConfig {
                max_sessions: 0,
                ..base()
            },
            ConfigError::ZeroSessionLimit,
        ),
    ];
    for (config, error) in cases {
        assert_eq!(config.validate(), Err(error));
    }
}

#[test]
fn errors_say_what_happened() {
    let limit = ConfigError::InvalidFramePayloadLimit {
        value: 1151,
        maximum: 1150,
    };
    assert_eq!(
        limit.message(),
        "frame payload limit 1151 is outside 1..=1150"
    );
    let short = ConfigError::PskTooShort {
        minimum: 32,
        actual: 0,
    };
    assert_eq!(
        short.message(),
        "PSK must contain at least 32 bytes; got 0"
    );
    assert_eq!(
        ConfigError::PskTooLong { maximum: 1024 }.message(),
        "PSK exceeds the 1024-byte limit"
    );
    assert_eq!(
        ConfigError::UnsupportedCipherSuite("rot13".to_owned()).message(),
        "unsupported cipher suite: rot13"
    );
    assert_eq!(
        FrameError::UnknownFrameType(17).message(),
        "unknown frame type 17"
    );
    assert_eq!(
        ReplayError::TooOld.message(),
        "packet number is older than the replay window"
    );
    assert_eq!(
        CryptoError::KeyDerivationFailed.message(),
        "key derivation failed"
    );
    assert_eq!(
        EngineError::Record(RecordError::Crypto(CryptoError::AuthenticationFailed)).message(),
        "message authentication failed"
    );
    assert_eq!(
        EngineError::Handshake(HandshakeError::InvalidCookie).message(),
        "handshake cookie is invalid or expired"
    );
    assert_eq!(
        LinuxTransportError::UnknownPeer(u64::MAX).message(),
        "unknown FakeTCP peer 18446744073709551615"
    );
    assert_eq!(
        LinuxTransportError::Send("down".to_owned()).message(),
        "raw packet send failed: down"
    );
    assert_eq!(
        MemoryTransportError::QueueFull.message(),
        "memory transport receive queue is full"
    );
    assert_eq!(
        ServiceError::UnsupportedPacketWorkerCount(2).message(),
        "the UDP managed-service harness supports exactly one packet worker; got 2"
    );
    assert_eq!(ServiceError::Io("refused".to_owned()).message(), "refused");
}

#[test]
fn identifiers_keep_their_numbers() {
    assert_eq!(PeerId::new(5).get(), 5);
    assert_eq!(SessionId::from_u64(258).to_be_bytes(), [0, 0, 0, 0, 0, 0, 1, 2]);
    assert_eq!(ConversationId::new(0), None);
    assert_eq!(ConversationId::new(3).map(ConversationId::get), Some(3));
    assert_eq!(ConversationHandle::new(0), None);
    assert_eq!(ConversationHandle::new(3).map(ConversationHandle::get), Some(3));
    assert_eq!(ConversationId::from_drawn([0, 0, 0, 0]), None);
    assert_eq!(
        ConversationId::from_drawn([0, 0, 1, 0]).map(ConversationId::get),
        Some(256)
    );
    assert_eq!(SessionId::from_drawn([0, 0, 0, 0, 0, 0, 0, 7]).get(), 7);
}

#[test]
fn drawn_identifiers_differ() {
    let sessions: Vec<u64> = (0..4)
        .map(|_| SessionId::generate().expect("randomness").get())
        .collect();
    assert!(sessions.iter().any(|value| *value != sessions[0]));
    assert_ne!(
        ConversationId::generate().expect("randomness").get(),
        0
    );
    assert!(random_u32().is_ok());
}

#[test]
fn what_is_drawn_is_taken_as_it_comes() {
    assert_eq!(octets_drawn::<3>(Ok(vec![7, 8, 9])).expect("octets"), [7, 8, 9]);
    assert!(matches!(
        octets_drawn::<3>(Err(getrandom::Error::UNSUPPORTED)),
        Err(EngineError::RandomnessUnavailable)
    ));
    assert_eq!(number_drawn(Ok([1, 2, 3, 4])), Ok(0x0102_0304));
    assert_eq!(
        number_drawn(Err("no source".to_string())),
        Err(LinuxTransportError::Socket("no source".to_string()))
    );
    let seed = AnswerSeed::from_drawn(Ok([1; 32]), Ok([2; 32])).expect("both parts");
    assert_eq!(seed.server_nonce, [1; 32]);
    assert_eq!(seed.session_salt, [2; 32]);
    assert!(AnswerSeed::from_drawn(Ok([1; 32]), Err(EngineError::RandomnessUnavailable)).is_none());
    assert!(AnswerSeed::from_drawn(Err(EngineError::RandomnessUnavailable), Ok([2; 32])).is_none());
    let seed = HelloSeed::from_drawn(Ok([1; 16]), Ok([2; 32])).expect("both parts");
    assert_eq!(seed.handshake_id, [1; 16]);
    assert_eq!(seed.client_nonce, [2; 32]);
    assert!(HelloSeed::from_drawn(Ok([1; 16]), Err(EngineError::RandomnessUnavailable)).is_none());
    assert!(HelloSeed::from_drawn(Err(EngineError::RandomnessUnavailable), Ok([2; 32])).is_none());
}

#[test]
fn suites_parse_from_their_names() {
    assert_eq!("aes256gcm".parse(), Ok(CipherSuite::Aes256Gcm));
    assert_eq!(
        "rot13".parse::<CipherSuite>(),
        Err(ConfigError::UnsupportedCipherSuite("rot13".to_string()))
    );
}

#[test]
fn spans_and_instants_are_exact() {
    assert_eq!(Duration::from_millis(1_500).as_nanos(), 1_500_000_000);
    assert_eq!(Duration::from_secs(2).as_millis(), 2_000);
    assert!(Duration::from_millis(0).is_zero());
    assert_eq!(
        Duration::from_nanos(u128::MAX),
        Duration {
            secs: u64::MAX,
            nanos: 999_999_999
        }
    );
    let earlier = Instant::from_nanos(5);
    let later = Instant::from_nanos(1_000_000_007);
    assert_eq!(
        later.saturating_duration_since(earlier),
        Duration { secs: 1, nanos: 2 }
    );
    assert!(earlier.saturating_duration_since(later).is_zero());
    assert_eq!(
        Duration::from_secs(3).saturating_mul(4),
        Duration::from_secs(12)
    );
}
