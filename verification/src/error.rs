//! Error types of the protocol.

use vstd::prelude::*;

verus! {

/// A configuration that the protocol refuses.
#[derive(Debug, Eq, PartialEq)]
pub enum ConfigError {
    ZeroReplayWindow,
    ZeroConversationLimit,
    ZeroConversationIdleTimeout,
    ZeroHeartbeatInterval,
    ZeroSessionTimeout,
    HeartbeatNotBelowSessionTimeout,
    ZeroSessionIdleTimeout,
    ZeroHandshakeTimeout,
    ZeroHandshakeRetryInterval,
    HandshakeRetryExceedsTimeout,
    ZeroHandshakeAttemptLimit,
    ZeroReconnectQueueCapacity,
    ZeroReconnectQueueTimeout,
    ZeroHandshakeRateLimitBurst,
    ZeroHandshakeRateRefillInterval,
    ZeroHandshakeCookieLifetime,
    ZeroResumptionLifetime,
    ZeroPendingHandshakeLimit,
    ZeroPerPeerPendingHandshakeLimit,
    ZeroSessionLimit,
    InvalidFramePayloadLimit { value: usize, maximum: usize },
    UnsupportedCipherSuite(String),
    PskTooShort { minimum: usize, actual: usize },
    PskTooLong { maximum: usize },
}

/// A datagram that is not a frame, or a frame that cannot be written.
#[derive(Debug, Eq, PartialEq)]
pub enum FrameError {
    Truncated,
    InvalidMagic,
    UnsupportedVersion(u16),
    UnknownFrameType(u8),
    ReservedFlags,
    InvalidPayloadLength,
    PayloadTooLarge,
    InvalidFrameFields,
}

/// A packet number that the replay window refuses.
#[derive(Debug, Eq, PartialEq)]
pub enum ReplayError {
    Duplicate,
    TooOld,
}

/// A failed cryptographic operation.
#[derive(Debug, Eq, PartialEq)]
pub enum CryptoError {
    AuthenticationFailed,
    KeyDerivationFailed,
}

/// A handshake message that is refused.
#[derive(Debug, Eq, PartialEq)]
pub enum HandshakeError {
    UnexpectedMessage,
    Malformed,
    HandshakeIdMismatch,
    CipherSuiteMismatch,
    AuthenticationFailed,
    InvalidCookie,
    InvalidResumptionCredential,
    UnknownPendingHandshake,
}

/// A record that cannot be sealed or opened.
#[derive(Debug, Eq, PartialEq)]
pub enum RecordError {
    Frame(FrameError),
    Crypto(CryptoError),
    Replay(ReplayError),
    SessionMismatch,
    UnsupportedEpoch,
    InvalidRecordType,
    TruncatedTag,
    PacketNumberExhausted,
}

/// An event that an engine refuses.
#[derive(Debug)]
pub enum EngineError {
    Config(ConfigError),
    Frame(FrameError),
    Crypto(CryptoError),
    Handshake(HandshakeError),
    Record(RecordError),
    InvalidRole,
    ConversationCapacity,
    PendingHandshakeCapacity,
    PerPeerPendingHandshakeCapacity,
    HandshakeRateLimited,
    SessionCapacity,
    UnknownConversation,
    PayloadTooLarge,
    PacketNumberExhausted,
    SessionNotReady,
    UnknownSession,
    UnexpectedPeer,
    RandomnessUnavailable,
}

impl From<FrameError> for RecordError {
    fn from(error: FrameError) -> (r: Self) {
        RecordError::Frame(error)
    }
}

impl vstd::std_specs::convert::FromSpecImpl<FrameError> for RecordError {
    open spec fn obeys_from_spec() -> bool {
        true
    }

    open spec fn from_spec(error: FrameError) -> Self {
        RecordError::Frame(error)
    }
}

impl From<CryptoError> for RecordError {
    fn from(error: CryptoError) -> (r: Self) {
        RecordError::Crypto(error)
    }
}

impl vstd::std_specs::convert::FromSpecImpl<CryptoError> for RecordError {
    open spec fn obeys_from_spec() -> bool {
        true
    }

    open spec fn from_spec(error: CryptoError) -> Self {
        RecordError::Crypto(error)
    }
}

impl From<ReplayError> for RecordError {
    fn from(error: ReplayError) -> (r: Self) {
        RecordError::Replay(error)
    }
}

impl vstd::std_specs::convert::FromSpecImpl<ReplayError> for RecordError {
    open spec fn obeys_from_spec() -> bool {
        true
    }

    open spec fn from_spec(error: ReplayError) -> Self {
        RecordError::Replay(error)
    }
}

impl From<ConfigError> for EngineError {
    fn from(error: ConfigError) -> (r: Self) {
        EngineError::Config(error)
    }
}

impl vstd::std_specs::convert::FromSpecImpl<ConfigError> for EngineError {
    open spec fn obeys_from_spec() -> bool {
        true
    }

    open spec fn from_spec(error: ConfigError) -> Self {
        EngineError::Config(error)
    }
}

impl From<FrameError> for EngineError {
    fn from(error: FrameError) -> (r: Self) {
        EngineError::Frame(error)
    }
}

impl vstd::std_specs::convert::FromSpecImpl<FrameError> for EngineError {
    open spec fn obeys_from_spec() -> bool {
        true
    }

    open spec fn from_spec(error: FrameError) -> Self {
        EngineError::Frame(error)
    }
}

impl From<CryptoError> for EngineError {
    fn from(error: CryptoError) -> (r: Self) {
        EngineError::Crypto(error)
    }
}

impl vstd::std_specs::convert::FromSpecImpl<CryptoError> for EngineError {
    open spec fn obeys_from_spec() -> bool {
        true
    }

    open spec fn from_spec(error: CryptoError) -> Self {
        EngineError::Crypto(error)
    }
}

impl From<HandshakeError> for EngineError {
    fn from(error: HandshakeError) -> (r: Self) {
        EngineError::Handshake(error)
    }
}

impl vstd::std_specs::convert::FromSpecImpl<HandshakeError> for EngineError {
    open spec fn obeys_from_spec() -> bool {
        true
    }

    open spec fn from_spec(error: HandshakeError) -> Self {
        EngineError::Handshake(error)
    }
}

impl From<RecordError> for EngineError {
    fn from(error: RecordError) -> (r: Self) {
        EngineError::Record(error)
    }
}

impl vstd::std_specs::convert::FromSpecImpl<RecordError> for EngineError {
    open spec fn obeys_from_spec() -> bool {
        true
    }

    open spec fn from_spec(error: RecordError) -> Self {
        EngineError::Record(error)
    }
}

} // verus!
