//! What errors say to people.

use vstd::prelude::*;

use crate::error::{
    ConfigError, CryptoError, EngineError, FrameError, HandshakeError, RecordError, ReplayError,
};
use crate::faketcp::LinuxTransportError;
use crate::service::ServiceError;
use crate::text;
use crate::text::{decimal, join};
use crate::transport::MemoryTransportError;

verus! {

/// A text and a number behind it.
fn numbered(before: &str, number: u64) -> (r: String)
    ensures
        r@ == before@ + text::decimal_digits(number as nat),
{
    let digits: String = decimal(number);
    join(before, digits.as_str())
}

/// A text with a number in it.
fn with_number(before: &str, number: u64, after: &str) -> (r: String)
    ensures
        r@ == before@ + text::decimal_digits(number as nat) + after@,
{
    let head: String = numbered(before, number);
    join(head.as_str(), after)
}

/// What is said of a refused configuration.
pub open spec fn config_message(error: ConfigError) -> Seq<char> {
    match error {
        ConfigError::ZeroReplayWindow => "replay window size must be greater than zero"@,
        ConfigError::ZeroConversationLimit => "conversation limit must be greater than zero"@,
        ConfigError::ZeroConversationIdleTimeout =>
            "conversation idle timeout must be greater than zero"@,
        ConfigError::ZeroHeartbeatInterval => "heartbeat interval must be greater than zero"@,
        ConfigError::ZeroSessionTimeout => "session timeout must be greater than zero"@,
        ConfigError::HeartbeatNotBelowSessionTimeout =>
            "heartbeat interval must be shorter than the session timeout"@,
        ConfigError::ZeroSessionIdleTimeout =>
            "server session idle timeout must be greater than zero"@,
        ConfigError::ZeroHandshakeTimeout => "handshake timeout must be greater than zero"@,
        ConfigError::ZeroHandshakeRetryInterval =>
            "handshake retry interval must be greater than zero"@,
        ConfigError::HandshakeRetryExceedsTimeout =>
            "handshake retry interval must not exceed the handshake timeout"@,
        ConfigError::ZeroHandshakeAttemptLimit =>
            "handshake attempt limit must be greater than zero"@,
        ConfigError::ZeroReconnectQueueCapacity =>
            "reconnect queue capacity must be greater than zero"@,
        ConfigError::ZeroReconnectQueueTimeout =>
            "reconnect queue timeout must be greater than zero"@,
        ConfigError::ZeroHandshakeRateLimitBurst =>
            "handshake rate-limit burst must be greater than zero"@,
        ConfigError::ZeroHandshakeRateRefillInterval =>
            "handshake rate-limit refill interval must be greater than zero"@,
        ConfigError::ZeroHandshakeCookieLifetime =>
            "handshake cookie lifetime must be greater than zero"@,
        ConfigError::ZeroResumptionLifetime =>
            "session resumption lifetime must be greater than zero"@,
        ConfigError::ZeroPendingHandshakeLimit =>
            "pending handshake limit must be greater than zero"@,
        ConfigError::ZeroPerPeerPendingHandshakeLimit =>
            "per-peer pending handshake limit must be greater than zero"@,
        ConfigError::ZeroSessionLimit => "session limit must be greater than zero"@,
        ConfigError::InvalidFramePayloadLimit { value, maximum } => "frame payload limit "@
            + text::decimal_digits(
            value as nat,
        ) + " is outside 1..="@ + text::decimal_digits(maximum as nat),
        ConfigError::UnsupportedCipherSuite(reason) => "unsupported cipher suite: "@ + reason@,
        ConfigError::PskTooShort { minimum, actual } => "PSK must contain at least "@
            + text::decimal_digits(
            minimum as nat,
        ) + " bytes; got "@ + text::decimal_digits(actual as nat),
        ConfigError::PskTooLong { maximum } => "PSK exceeds the "@
            + text::decimal_digits(maximum as nat)
            + "-byte limit"@,
    }
}

impl ConfigError {
    pub fn message(&self) -> (r: String)
        ensures
            r@ == config_message(*self),
    {
        match self {
            ConfigError::ZeroReplayWindow =>
                "replay window size must be greater than zero".to_owned(),
            ConfigError::ZeroConversationLimit =>
                "conversation limit must be greater than zero".to_owned(),
            ConfigError::ZeroConversationIdleTimeout =>
                "conversation idle timeout must be greater than zero".to_owned(),
            ConfigError::ZeroHeartbeatInterval =>
                "heartbeat interval must be greater than zero".to_owned(),
            ConfigError::ZeroSessionTimeout =>
                "session timeout must be greater than zero".to_owned(),
            ConfigError::HeartbeatNotBelowSessionTimeout =>
                "heartbeat interval must be shorter than the session timeout".to_owned(),
            ConfigError::ZeroSessionIdleTimeout =>
                "server session idle timeout must be greater than zero".to_owned(),
            ConfigError::ZeroHandshakeTimeout =>
                "handshake timeout must be greater than zero".to_owned(),
            ConfigError::ZeroHandshakeRetryInterval =>
                "handshake retry interval must be greater than zero".to_owned(),
            ConfigError::HandshakeRetryExceedsTimeout =>
                "handshake retry interval must not exceed the handshake timeout".to_owned(),
            ConfigError::ZeroHandshakeAttemptLimit =>
                "handshake attempt limit must be greater than zero".to_owned(),
            ConfigError::ZeroReconnectQueueCapacity =>
                "reconnect queue capacity must be greater than zero".to_owned(),
            ConfigError::ZeroReconnectQueueTimeout =>
                "reconnect queue timeout must be greater than zero".to_owned(),
            ConfigError::ZeroHandshakeRateLimitBurst =>
                "handshake rate-limit burst must be greater than zero".to_owned(),
            ConfigError::ZeroHandshakeRateRefillInterval =>
                "handshake rate-limit refill interval must be greater than zero".to_owned(),
            ConfigError::ZeroHandshakeCookieLifetime =>
                "handshake cookie lifetime must be greater than zero".to_owned(),
            ConfigError::ZeroResumptionLifetime =>
                "session resumption lifetime must be greater than zero".to_owned(),
            ConfigError::ZeroPendingHandshakeLimit =>
                "pending handshake limit must be greater than zero".to_owned(),
            ConfigError::ZeroPerPeerPendingHandshakeLimit =>
                "per-peer pending handshake limit must be greater than zero".to_owned(),
            ConfigError::ZeroSessionLimit => "session limit must be greater than zero".to_owned(),
            ConfigError::InvalidFramePayloadLimit { value, maximum } => {
                let head: String = with_number(
                    "frame payload limit ",
                    *value as u64,
                    " is outside 1..=",
                );
                numbered(head.as_str(), *maximum as u64)
            },
            ConfigError::UnsupportedCipherSuite(reason) =>
                join("unsupported cipher suite: ", reason.as_str()),
            ConfigError::PskTooShort { minimum, actual } => {
                let head: String = with_number(
                    "PSK must contain at least ",
                    *minimum as u64,
                    " bytes; got ",
                );
                numbered(head.as_str(), *actual as u64)
            },
            ConfigError::PskTooLong { maximum } => with_number(
                "PSK exceeds the ",
                *maximum as u64,
                "-byte limit",
            ),
        }
    }
}

/// What is said of a refused frame.
pub open spec fn frame_message(error: FrameError) -> Seq<char> {
    match error {
        FrameError::Truncated => "frame is truncated"@,
        FrameError::InvalidMagic => "invalid frame magic"@,
        FrameError::UnsupportedVersion(number) => "unsupported protocol version "@
            + text::decimal_digits(number as nat),
        FrameError::UnknownFrameType(number) => "unknown frame type "@
            + text::decimal_digits(number as nat),
        FrameError::ReservedFlags => "reserved frame flags are non-zero"@,
        FrameError::InvalidPayloadLength => "declared payload length is invalid"@,
        FrameError::PayloadTooLarge => "payload exceeds the configured protocol limit"@,
        FrameError::InvalidFrameFields => "frame fields are invalid for its type"@,
    }
}

impl FrameError {
    pub fn message(&self) -> (r: String)
        ensures
            r@ == frame_message(*self),
    {
        match self {
            FrameError::Truncated => "frame is truncated".to_owned(),
            FrameError::InvalidMagic => "invalid frame magic".to_owned(),
            FrameError::UnsupportedVersion(number) => numbered(
                "unsupported protocol version ",
                *number as u64,
            ),
            FrameError::UnknownFrameType(number) => numbered(
                "unknown frame type ",
                *number as u64,
            ),
            FrameError::ReservedFlags => "reserved frame flags are non-zero".to_owned(),
            FrameError::InvalidPayloadLength => "declared payload length is invalid".to_owned(),
            FrameError::PayloadTooLarge =>
                "payload exceeds the configured protocol limit".to_owned(),
            FrameError::InvalidFrameFields => "frame fields are invalid for its type".to_owned(),
        }
    }
}

/// What is said of a refused packet number.
pub open spec fn replay_message(error: ReplayError) -> Seq<char> {
    match error {
        ReplayError::Duplicate => "packet number has already been accepted"@,
        ReplayError::TooOld => "packet number is older than the replay window"@,
    }
}

impl ReplayError {
    pub fn message(&self) -> (r: String)
        ensures
            r@ == replay_message(*self),
    {
        match self {
            ReplayError::Duplicate => "packet number has already been accepted".to_owned(),
            ReplayError::TooOld => "packet number is older than the replay window".to_owned(),
        }
    }
}

/// What is said of a failed cryptographic operation.
pub open spec fn crypto_message(error: CryptoError) -> Seq<char> {
    match error {
        CryptoError::AuthenticationFailed => "message authentication failed"@,
        CryptoError::KeyDerivationFailed => "key derivation failed"@,
    }
}

impl CryptoError {
    pub fn message(&self) -> (r: String)
        ensures
            r@ == crypto_message(*self),
    {
        match self {
            CryptoError::AuthenticationFailed => "message authentication failed".to_owned(),
            CryptoError::KeyDerivationFailed => "key derivation failed".to_owned(),
        }
    }
}

/// What is said of a refused handshake message.
pub open spec fn handshake_message(error: HandshakeError) -> Seq<char> {
    match error {
        HandshakeError::UnexpectedMessage => "unexpected handshake message"@,
        HandshakeError::Malformed => "malformed handshake message"@,
        HandshakeError::HandshakeIdMismatch => "handshake identifier does not match"@,
        HandshakeError::CipherSuiteMismatch => "handshake selected a different cipher suite"@,
        HandshakeError::AuthenticationFailed => "handshake transcript authentication failed"@,
        HandshakeError::InvalidCookie => "handshake cookie is invalid or expired"@,
        HandshakeError::InvalidResumptionCredential =>
            "session resumption credential is invalid or expired"@,
        HandshakeError::UnknownPendingHandshake => "no matching pending handshake"@,
    }
}

impl HandshakeError {
    pub fn message(&self) -> (r: String)
        ensures
            r@ == handshake_message(*self),
    {
        match self {
            HandshakeError::UnexpectedMessage => "unexpected handshake message".to_owned(),
            HandshakeError::Malformed => "malformed handshake message".to_owned(),
            HandshakeError::HandshakeIdMismatch => "handshake identifier does not match".to_owned(),
            HandshakeError::CipherSuiteMismatch =>
                "handshake selected a different cipher suite".to_owned(),
            HandshakeError::AuthenticationFailed =>
                "handshake transcript authentication failed".to_owned(),
            HandshakeError::InvalidCookie => "handshake cookie is invalid or expired".to_owned(),
            HandshakeError::InvalidResumptionCredential =>
                "session resumption credential is invalid or expired".to_owned(),
            HandshakeError::UnknownPendingHandshake => "no matching pending handshake".to_owned(),
        }
    }
}

/// What is said of a refused record.
pub open spec fn record_message(error: RecordError) -> Seq<char> {
    match error {
        RecordError::Frame(inner) => frame_message(inner),
        RecordError::Crypto(inner) => crypto_message(inner),
        RecordError::Replay(inner) => replay_message(inner),
        RecordError::SessionMismatch => "record belongs to another session"@,
        RecordError::UnsupportedEpoch => "record epoch is unsupported"@,
        RecordError::InvalidRecordType => "record type is not protected application data"@,
        RecordError::TruncatedTag => "record authentication tag is truncated"@,
        RecordError::PacketNumberExhausted =>
            "packet number space exhausted; a new session is required"@,
    }
}

impl RecordError {
    pub fn message(&self) -> (r: String)
        ensures
            r@ == record_message(*self),
    {
        match self {
            RecordError::Frame(inner) => inner.message(),
            RecordError::Crypto(inner) => inner.message(),
            RecordError::Replay(inner) => inner.message(),
            RecordError::SessionMismatch => "record belongs to another session".to_owned(),
            RecordError::UnsupportedEpoch => "record epoch is unsupported".to_owned(),
            RecordError::InvalidRecordType =>
                "record type is not protected application data".to_owned(),
            RecordError::TruncatedTag => "record authentication tag is truncated".to_owned(),
            RecordError::PacketNumberExhausted =>
                "packet number space exhausted; a new session is required".to_owned(),
        }
    }
}

/// What is said of a refused event.
pub open spec fn engine_message(error: EngineError) -> Seq<char> {
    match error {
        EngineError::Config(inner) => config_message(inner),
        EngineError::Frame(inner) => frame_message(inner),
        EngineError::Crypto(inner) => crypto_message(inner),
        EngineError::Handshake(inner) => handshake_message(inner),
        EngineError::Record(inner) => record_message(inner),
        EngineError::InvalidRole => "this event is not valid for the engine role"@,
        EngineError::ConversationCapacity => "conversation capacity has been reached"@,
        EngineError::PendingHandshakeCapacity => "pending handshake capacity has been reached"@,
        EngineError::PerPeerPendingHandshakeCapacity =>
            "per-peer pending handshake capacity has been reached"@,
        EngineError::HandshakeRateLimited =>
            "unauthenticated handshake rate limit has been reached for this peer"@,
        EngineError::SessionCapacity => "authenticated session capacity has been reached"@,
        EngineError::UnknownConversation => "unknown conversation"@,
        EngineError::PayloadTooLarge => "local payload exceeds the configured maximum"@,
        EngineError::PacketNumberExhausted =>
            "packet number space exhausted; a new session is required"@,
        EngineError::SessionNotReady => "session is not ready for application data"@,
        EngineError::UnknownSession => "unknown authenticated session"@,
        EngineError::UnexpectedPeer => "frame arrived from an unexpected transport peer"@,
        EngineError::RandomnessUnavailable => "operating system randomness is unavailable"@,
    }
}

impl EngineError {
    pub fn message(&self) -> (r: String)
        ensures
            r@ == engine_message(*self),
    {
        match self {
            EngineError::Config(inner) => inner.message(),
            EngineError::Frame(inner) => inner.message(),
            EngineError::Crypto(inner) => inner.message(),
            EngineError::Handshake(inner) => inner.message(),
            EngineError::Record(inner) => inner.message(),
            EngineError::InvalidRole => "this event is not valid for the engine role".to_owned(),
            EngineError::ConversationCapacity =>
                "conversation capacity has been reached".to_owned(),
            EngineError::PendingHandshakeCapacity =>
                "pending handshake capacity has been reached".to_owned(),
            EngineError::PerPeerPendingHandshakeCapacity =>
                "per-peer pending handshake capacity has been reached".to_owned(),
            EngineError::HandshakeRateLimited =>
                "unauthenticated handshake rate limit has been reached for this peer".to_owned(),
            EngineError::SessionCapacity =>
                "authenticated session capacity has been reached".to_owned(),
            EngineError::UnknownConversation => "unknown conversation".to_owned(),
            EngineError::PayloadTooLarge =>
                "local payload exceeds the configured maximum".to_owned(),
            EngineError::PacketNumberExhausted =>
                "packet number space exhausted; a new session is required".to_owned(),
            EngineError::SessionNotReady => "session is not ready for application data".to_owned(),
            EngineError::UnknownSession => "unknown authenticated session".to_owned(),
            EngineError::UnexpectedPeer =>
                "frame arrived from an unexpected transport peer".to_owned(),
            EngineError::RandomnessUnavailable =>
                "operating system randomness is unavailable".to_owned(),
        }
    }
}

/// What is said of a failed transport operation.
pub open spec fn linux_transport_message(error: LinuxTransportError) -> Seq<char> {
    match error {
        LinuxTransportError::ZeroQueueCapacity =>
            "Linux FakeTCP transport requires a non-zero receive queue capacity"@,
        LinuxTransportError::Ipv6Unsupported => "IPv6 FakeTCP transport is not implemented"@,
        LinuxTransportError::MissingClientPeer =>
            "a client FakeTCP transport requires an IPv4 peer"@,
        LinuxTransportError::ServerPeerConfigured =>
            "a server FakeTCP transport accepts peers dynamically"@,
        LinuxTransportError::Socket(reason) => "raw TCP socket setup failed: "@ + reason@,
        LinuxTransportError::Send(reason) => "raw packet send failed: "@ + reason@,
        LinuxTransportError::HandshakePending(number) =>
            "outer FakeTCP handshake is not established for peer "@
            + text::decimal_digits(number as nat),
        LinuxTransportError::UnknownPeer(number) => "unknown FakeTCP peer "@
            + text::decimal_digits(number as nat),
        LinuxTransportError::FrameTooLarge => "inner frame is too large for one TCP payload"@,
        LinuxTransportError::StatePoisoned => "Linux FakeTCP transport state lock was poisoned"@,
    }
}

impl LinuxTransportError {
    pub fn message(&self) -> (r: String)
        ensures
            r@ == linux_transport_message(*self),
    {
        match self {
            LinuxTransportError::ZeroQueueCapacity =>
                "Linux FakeTCP transport requires a non-zero receive queue capacity".to_owned(),
            LinuxTransportError::Ipv6Unsupported =>
                "IPv6 FakeTCP transport is not implemented".to_owned(),
            LinuxTransportError::MissingClientPeer =>
                "a client FakeTCP transport requires an IPv4 peer".to_owned(),
            LinuxTransportError::ServerPeerConfigured =>
                "a server FakeTCP transport accepts peers dynamically".to_owned(),
            LinuxTransportError::Socket(reason) =>
                join("raw TCP socket setup failed: ", reason.as_str()),
            LinuxTransportError::Send(reason) => join("raw packet send failed: ", reason.as_str()),
            LinuxTransportError::HandshakePending(number) => numbered(
                "outer FakeTCP handshake is not established for peer ",
                *number as u64,
            ),
            LinuxTransportError::UnknownPeer(number) => numbered(
                "unknown FakeTCP peer ",
                *number as u64,
            ),
            LinuxTransportError::FrameTooLarge =>
                "inner frame is too large for one TCP payload".to_owned(),
            LinuxTransportError::StatePoisoned =>
                "Linux FakeTCP transport state lock was poisoned".to_owned(),
        }
    }
}

/// What is said of a refused memory transport operation.
pub open spec fn memory_transport_message(error: MemoryTransportError) -> Seq<char> {
    match error {
        MemoryTransportError::ZeroCapacity =>
            "memory transport capacity must be greater than zero"@,
        MemoryTransportError::QueueFull => "memory transport receive queue is full"@,
        MemoryTransportError::PeerClosed => "memory transport peer is closed"@,
    }
}

impl MemoryTransportError {
    pub fn message(&self) -> (r: String)
        ensures
            r@ == memory_transport_message(*self),
    {
        match self {
            MemoryTransportError::ZeroCapacity =>
                "memory transport capacity must be greater than zero".to_owned(),
            MemoryTransportError::QueueFull => "memory transport receive queue is full".to_owned(),
            MemoryTransportError::PeerClosed => "memory transport peer is closed".to_owned(),
        }
    }
}

/// What is said of a service that cannot be set up or run.
pub open spec fn service_message(error: ServiceError) -> Seq<char> {
    match error {
        ServiceError::CoreConfig(inner) => config_message(inner),
        ServiceError::ZeroQueueCapacity => "queue capacity must be greater than zero"@,
        ServiceError::UnsupportedPacketWorkerCount(number) =>
            "the UDP managed-service harness supports exactly one packet worker; got "@
            + text::decimal_digits(number as nat),
        ServiceError::InvalidEngineRole => "service role does not match its engine configuration"@,
        ServiceError::Engine(inner) => engine_message(inner),
        ServiceError::Io(reason) => reason@,
    }
}

impl ServiceError {
    pub fn message(&self) -> (r: String)
        ensures
            r@ == service_message(*self),
    {
        match self {
            ServiceError::CoreConfig(inner) => inner.message(),
            ServiceError::ZeroQueueCapacity =>
                "queue capacity must be greater than zero".to_owned(),
            ServiceError::UnsupportedPacketWorkerCount(number) => numbered(
                "the UDP managed-service harness supports exactly one packet worker; got ",
                *number as u64,
            ),
            ServiceError::InvalidEngineRole =>
                "service role does not match its engine configuration".to_owned(),
            ServiceError::Engine(inner) => inner.message(),
            ServiceError::Io(reason) => reason.as_str().to_owned(),
        }
    }
}

} // verus!
