//! Engine configuration: roles, cipher suites, limits and timers.

use vstd::prelude::*;

use crate::error::ConfigError;
use crate::protocol::MAX_FRAME_PAYLOAD;
use crate::text;
use crate::text::{decimal, join, same_text};
use crate::time::Duration;

verus! {

/// Protocol endpoint role.
#[derive(Clone, Copy, Debug, Eq, PartialEq, Structural)]
pub enum Role {
    Client,
    Server,
}

/// Configured cryptographic suite.
///
/// `NoneAuthenticated` means plaintext plus a strong MAC; it never means
/// unauthenticated traffic.
#[derive(Clone, Copy, Debug, Eq, PartialEq, Structural)]
pub enum CipherSuite {
    ChaCha20Poly1305,
    XChaCha20Poly1305,
    Aes128Gcm,
    Aes256Gcm,
    NoneAuthenticated,
}

/// The octet that stands for a suite in handshake messages.
pub open spec fn suite_wire_id(suite: CipherSuite) -> u8 {
    match suite {
        CipherSuite::ChaCha20Poly1305 => 1,
        CipherSuite::XChaCha20Poly1305 => 2,
        CipherSuite::Aes128Gcm => 3,
        CipherSuite::Aes256Gcm => 4,
        CipherSuite::NoneAuthenticated => 5,
    }
}

/// The suite that an octet stands for.
pub open spec fn suite_of_wire_id(value: u8) -> Option<CipherSuite> {
    if value == 1 {
        Some(CipherSuite::ChaCha20Poly1305)
    } else if value == 2 {
        Some(CipherSuite::XChaCha20Poly1305)
    } else if value == 3 {
        Some(CipherSuite::Aes128Gcm)
    } else if value == 4 {
        Some(CipherSuite::Aes256Gcm)
    } else if value == 5 {
        Some(CipherSuite::NoneAuthenticated)
    } else {
        None
    }
}

/// The name of a suite on the command line.
pub open spec fn suite_name(suite: CipherSuite) -> Seq<char> {
    match suite {
        CipherSuite::ChaCha20Poly1305 => "chacha20poly1305"@,
        CipherSuite::XChaCha20Poly1305 => "xchacha20poly1305"@,
        CipherSuite::Aes128Gcm => "aes128gcm"@,
        CipherSuite::Aes256Gcm => "aes256gcm"@,
        CipherSuite::NoneAuthenticated => "none"@,
    }
}

impl CipherSuite {
    pub fn wire_id(self) -> (r: u8)
        ensures
            r == suite_wire_id(self),
    {
        match self {
            CipherSuite::ChaCha20Poly1305 => 1,
            CipherSuite::XChaCha20Poly1305 => 2,
            CipherSuite::Aes128Gcm => 3,
            CipherSuite::Aes256Gcm => 4,
            CipherSuite::NoneAuthenticated => 5,
        }
    }

    pub fn from_wire_id(value: u8) -> (r: Result<Self, ConfigError>)
        ensures
            match r {
                Ok(suite) => suite_of_wire_id(value) == Some(suite),
                Err(ConfigError::UnsupportedCipherSuite(text)) => suite_of_wire_id(value) is None
                    && text@ == "wire id "@ + text::decimal_digits(value as nat),
                Err(_) => false,
            },
    {
        match value {
            1 => Ok(CipherSuite::ChaCha20Poly1305),
            2 => Ok(CipherSuite::XChaCha20Poly1305),
            3 => Ok(CipherSuite::Aes128Gcm),
            4 => Ok(CipherSuite::Aes256Gcm),
            5 => Ok(CipherSuite::NoneAuthenticated),
            _ => {
                let digits: String = decimal(value as u64);
                Err(ConfigError::UnsupportedCipherSuite(join("wire id ", digits.as_str())))
            },
        }
    }

    /// The name that [`CipherSuite::from_name`] reads back.
    pub fn name(self) -> (r: &'static str)
        ensures
            r@ == suite_name(self),
    {
        match self {
            CipherSuite::ChaCha20Poly1305 => "chacha20poly1305",
            CipherSuite::XChaCha20Poly1305 => "xchacha20poly1305",
            CipherSuite::Aes128Gcm => "aes128gcm",
            CipherSuite::Aes256Gcm => "aes256gcm",
            CipherSuite::NoneAuthenticated => "none",
        }
    }

    pub fn from_name(value: &str) -> (r: Result<Self, ConfigError>)
        ensures
            match r {
                Ok(suite) => value@ == suite_name(suite),
                Err(ConfigError::UnsupportedCipherSuite(text)) => text@ == value@ && forall|
                    suite: CipherSuite,
                |
                    value@ != #[trigger] suite_name(suite),
                Err(_) => false,
            },
    {
        if same_text(value, "chacha20poly1305") {
            return Ok(CipherSuite::ChaCha20Poly1305);
        }
        if same_text(value, "xchacha20poly1305") {
            return Ok(CipherSuite::XChaCha20Poly1305);
        }
        if same_text(value, "aes128gcm") {
            return Ok(CipherSuite::Aes128Gcm);
        }
        if same_text(value, "aes256gcm") {
            return Ok(CipherSuite::Aes256Gcm);
        }
        if same_text(value, "none") {
            return Ok(CipherSuite::NoneAuthenticated);
        }
        assert forall|suite: CipherSuite| value@ != #[trigger] suite_name(suite) by {
            match suite {
                CipherSuite::ChaCha20Poly1305 => {},
                CipherSuite::XChaCha20Poly1305 => {},
                CipherSuite::Aes128Gcm => {},
                CipherSuite::Aes256Gcm => {},
                CipherSuite::NoneAuthenticated => {},
            }
        }
        Err(ConfigError::UnsupportedCipherSuite(value.to_owned()))
    }
}

impl std::str::FromStr for CipherSuite {
    type Err = ConfigError;

    fn from_str(value: &str) -> (r: Result<Self, ConfigError>)
        ensures
            match r {
                Ok(suite) => value@ == suite_name(suite),
                Err(ConfigError::UnsupportedCipherSuite(text)) => text@ == value@ && forall|
                    suite: CipherSuite,
                |
                    value@ != #[trigger] suite_name(suite),
                Err(_) => false,
            },
    {
        CipherSuite::from_name(value)
    }
}

impl Default for CipherSuite {
    fn default() -> (r: Self)
        ensures
            r == CipherSuite::ChaCha20Poly1305,
    {
        CipherSuite::ChaCha20Poly1305
    }
}

/// Every suite is known by its wire octet, and by no other one.
pub proof fn law_suite_wire_ids(suite: CipherSuite, value: u8)
    ensures
        suite_of_wire_id(suite_wire_id(suite)) == Some(suite),
        suite_of_wire_id(value) matches Some(known) ==> suite_wire_id(known) == value,
{
}

/// No two suites share a name.
pub proof fn law_suite_names_differ(a: CipherSuite, b: CipherSuite)
    ensures
        suite_name(a) == suite_name(b) ==> a == b,
{
    reveal_strlit("chacha20poly1305");
    reveal_strlit("xchacha20poly1305");
    reveal_strlit("aes128gcm");
    reveal_strlit("aes256gcm");
    reveal_strlit("none");
    assert("aes128gcm"@[3] == '1');
    assert("aes256gcm"@[3] == '2');
    assert("chacha20poly1305"@.len() == 16);
    assert("xchacha20poly1305"@.len() == 17);
    assert("aes128gcm"@.len() == 9);
    assert("aes256gcm"@.len() == 9);
    assert("none"@.len() == 4);
}

/// Resource and timer limits for a protocol engine.
#[derive(Clone, Copy, Debug)]
pub struct EngineConfig {
    pub role: Role,
    pub cipher_suite: CipherSuite,
    pub replay_window_size: usize,
    pub max_conversations: usize,
    pub max_frame_payload: usize,
    pub conversation_idle_timeout: Duration,
    pub session_timeout: Duration,
    pub session_idle_timeout: Duration,
    pub handshake_retry_interval: Duration,
    pub handshake_timeout: Duration,
    pub handshake_max_attempts: usize,
    pub reconnect_queue_capacity: usize,
    pub reconnect_queue_timeout: Duration,
    pub handshake_rate_limit_burst: usize,
    pub handshake_rate_refill_interval: Duration,
    pub require_handshake_cookie: bool,
    pub handshake_cookie_lifetime: Duration,
    pub resumption_lifetime: Duration,
    pub max_pending_handshakes: usize,
    pub max_pending_handshakes_per_peer: usize,
    pub max_sessions: usize,
}

/// The configuration that endpoints of a role start from.
pub open spec fn default_config(role: Role) -> EngineConfig {
    EngineConfig {
        role,
        cipher_suite: CipherSuite::ChaCha20Poly1305,
        replay_window_size: 4096,
        max_conversations: 1024,
        max_frame_payload: MAX_FRAME_PAYLOAD,
        conversation_idle_timeout: Duration { secs: 180, nanos: 0 },
        session_timeout: Duration { secs: 10, nanos: 0 },
        session_idle_timeout: Duration { secs: 300, nanos: 0 },
        handshake_retry_interval: Duration { secs: 0, nanos: 500_000_000 },
        handshake_timeout: Duration { secs: 10, nanos: 0 },
        handshake_max_attempts: 8,
        reconnect_queue_capacity: 256,
        reconnect_queue_timeout: Duration { secs: 5, nanos: 0 },
        handshake_rate_limit_burst: 32,
        handshake_rate_refill_interval: Duration { secs: 0, nanos: 100_000_000 },
        require_handshake_cookie: true,
        handshake_cookie_lifetime: Duration { secs: 30, nanos: 0 },
        resumption_lifetime: Duration { secs: 30, nanos: 0 },
        max_pending_handshakes: 1024,
        max_pending_handshakes_per_peer: 64,
        max_sessions: 4096,
    }
}

/// The first limit of a configuration that does not hold, if any.
pub open spec fn config_fault(c: EngineConfig) -> Option<ConfigError> {
    if c.replay_window_size == 0 {
        Some(ConfigError::ZeroReplayWindow)
    } else if c.max_conversations == 0 {
        Some(ConfigError::ZeroConversationLimit)
    } else if !(1 <= c.max_frame_payload <= MAX_FRAME_PAYLOAD) {
        Some(
            ConfigError::InvalidFramePayloadLimit {
                value: c.max_frame_payload,
                maximum: MAX_FRAME_PAYLOAD,
            },
        )
    } else if c.conversation_idle_timeout.length() == 0 {
        Some(ConfigError::ZeroConversationIdleTimeout)
    } else if c.session_timeout.length() == 0 {
        Some(ConfigError::ZeroSessionTimeout)
    } else if c.session_idle_timeout.length() == 0 {
        Some(ConfigError::ZeroSessionIdleTimeout)
    } else if c.handshake_retry_interval.length() == 0 {
        Some(ConfigError::ZeroHandshakeRetryInterval)
    } else if c.handshake_timeout.length() == 0 {
        Some(ConfigError::ZeroHandshakeTimeout)
    } else if c.handshake_retry_interval.length() > c.handshake_timeout.length() {
        Some(ConfigError::HandshakeRetryExceedsTimeout)
    } else if c.handshake_max_attempts == 0 {
        Some(ConfigError::ZeroHandshakeAttemptLimit)
    } else if c.reconnect_queue_capacity == 0 {
        Some(ConfigError::ZeroReconnectQueueCapacity)
    } else if c.reconnect_queue_timeout.length() == 0 {
        Some(ConfigError::ZeroReconnectQueueTimeout)
    } else if c.handshake_rate_limit_burst == 0 {
        Some(ConfigError::ZeroHandshakeRateLimitBurst)
    } else if c.handshake_rate_refill_interval.length() == 0 {
        Some(ConfigError::ZeroHandshakeRateRefillInterval)
    } else if c.handshake_cookie_lifetime.length() == 0 {
        Some(ConfigError::ZeroHandshakeCookieLifetime)
    } else if c.resumption_lifetime.length() == 0 {
        Some(ConfigError::ZeroResumptionLifetime)
    } else if c.max_pending_handshakes == 0 {
        Some(ConfigError::ZeroPendingHandshakeLimit)
    } else if c.max_pending_handshakes_per_peer == 0 {
        Some(ConfigError::ZeroPerPeerPendingHandshakeLimit)
    } else if c.max_sessions == 0 {
        Some(ConfigError::ZeroSessionLimit)
    } else {
        None
    }
}

/// The stock configurations are valid.
pub proof fn law_default_config_is_valid(role: Role)
    ensures
        config_fault(default_config(role)) is None,
{
}

/// What endpoints start from: how long things last, and how many there may be.
pub proof fn law_default_configuration(role: Role)
    ensures
        ({
            let c = default_config(role);
            &&& c.role == role
            &&& c.cipher_suite == CipherSuite::ChaCha20Poly1305
            &&& c.replay_window_size == 4096
            &&& c.max_conversations == 1024
            &&& c.max_frame_payload == 1150
            &&& c.conversation_idle_timeout.length() == 180_000_000_000
            &&& c.session_timeout.length() == 10_000_000_000
            &&& c.session_idle_timeout.length() == 300_000_000_000
            &&& c.handshake_retry_interval.length() == 500_000_000
            &&& c.handshake_timeout.length() == 10_000_000_000
            &&& c.handshake_max_attempts == 8
            &&& c.reconnect_queue_capacity == 256
            &&& c.reconnect_queue_timeout.length() == 5_000_000_000
            &&& c.handshake_rate_limit_burst == 32
            &&& c.handshake_rate_refill_interval.length() == 100_000_000
            &&& c.require_handshake_cookie
            &&& c.handshake_cookie_lifetime.length() == 30_000_000_000
            &&& c.resumption_lifetime.length() == 30_000_000_000
            &&& c.max_pending_handshakes == 1024
            &&& c.max_pending_handshakes_per_peer == 64
            &&& c.max_sessions == 4096
        }),
{
}

/// A configuration is valid exactly where every limit allows something, every span has a
/// length, a payload fits into a record, and a handshake has time for a second message.
pub proof fn law_valid_configurations(c: EngineConfig)
    ensures
        config_fault(c) is None <==> {
            &&& c.replay_window_size > 0
            &&& c.max_conversations > 0
            &&& 1 <= c.max_frame_payload <= 1150
            &&& c.conversation_idle_timeout.length() > 0
            &&& c.session_timeout.length() > 0
            &&& c.session_idle_timeout.length() > 0
            &&& 0 < c.handshake_retry_interval.length() <= c.handshake_timeout.length()
            &&& c.handshake_max_attempts > 0
            &&& c.reconnect_queue_capacity > 0
            &&& c.reconnect_queue_timeout.length() > 0
            &&& c.handshake_rate_limit_burst > 0
            &&& c.handshake_rate_refill_interval.length() > 0
            &&& c.handshake_cookie_lifetime.length() > 0
            &&& c.resumption_lifetime.length() > 0
            &&& c.max_pending_handshakes > 0
            &&& c.max_pending_handshakes_per_peer > 0
            &&& c.max_sessions > 0
        },
{
}

impl EngineConfig {
    pub fn client() -> (r: Self)
        ensures
            r == default_config(Role::Client),
    {
        EngineConfig { role: Role::Client, ..EngineConfig::default() }
    }

    pub fn server() -> (r: Self)
        ensures
            r == default_config(Role::Server),
    {
        EngineConfig { role: Role::Server, ..EngineConfig::default() }
    }

    pub fn validate(&self) -> (r: Result<(), ConfigError>)
        ensures
            r == match config_fault(*self) {
                Some(fault) => Err::<(), ConfigError>(fault),
                None => Ok(()),
            },
    {
        if self.replay_window_size == 0 {
            return Err(ConfigError::ZeroReplayWindow);
        }
        if self.max_conversations == 0 {
            return Err(ConfigError::ZeroConversationLimit);
        }
        if self.max_frame_payload < 1 || self.max_frame_payload > MAX_FRAME_PAYLOAD {
            return Err(
                ConfigError::InvalidFramePayloadLimit {
                    value: self.max_frame_payload,
                    maximum: MAX_FRAME_PAYLOAD,
                },
            );
        }
        if self.conversation_idle_timeout.is_zero() {
            return Err(ConfigError::ZeroConversationIdleTimeout);
        }
        if self.session_timeout.is_zero() {
            return Err(ConfigError::ZeroSessionTimeout);
        }
        if self.session_idle_timeout.is_zero() {
            return Err(ConfigError::ZeroSessionIdleTimeout);
        }
        if self.handshake_retry_interval.is_zero() {
            return Err(ConfigError::ZeroHandshakeRetryInterval);
        }
        if self.handshake_timeout.is_zero() {
            return Err(ConfigError::ZeroHandshakeTimeout);
        }
        if self.handshake_retry_interval.as_nanos() > self.handshake_timeout.as_nanos() {
            return Err(ConfigError::HandshakeRetryExceedsTimeout);
        }
        if self.handshake_max_attempts == 0 {
            return Err(ConfigError::ZeroHandshakeAttemptLimit);
        }
        if self.reconnect_queue_capacity == 0 {
            return Err(ConfigError::ZeroReconnectQueueCapacity);
        }
        if self.reconnect_queue_timeout.is_zero() {
            return Err(ConfigError::ZeroReconnectQueueTimeout);
        }
        if self.handshake_rate_limit_burst == 0 {
            return Err(ConfigError::ZeroHandshakeRateLimitBurst);
        }
        if self.handshake_rate_refill_interval.is_zero() {
            return Err(ConfigError::ZeroHandshakeRateRefillInterval);
        }
        if self.handshake_cookie_lifetime.is_zero() {
            return Err(ConfigError::ZeroHandshakeCookieLifetime);
        }
        if self.resumption_lifetime.is_zero() {
            return Err(ConfigError::ZeroResumptionLifetime);
        }
        if self.max_pending_handshakes == 0 {
            return Err(ConfigError::ZeroPendingHandshakeLimit);
        }
        if self.max_pending_handshakes_per_peer == 0 {
            return Err(ConfigError::ZeroPerPeerPendingHandshakeLimit);
        }
        if self.max_sessions == 0 {
            return Err(ConfigError::ZeroSessionLimit);
        }
        Ok(())
    }
}

impl Default for EngineConfig {
    fn default() -> (r: Self)
        ensures
            r == default_config(Role::Client),
    {
        EngineConfig {
            role: Role::Client,
            cipher_suite: CipherSuite::default(),
            replay_window_size: 4096,
            max_conversations: 1024,
            max_frame_payload: MAX_FRAME_PAYLOAD,
            conversation_idle_timeout: Duration::from_secs(180),
            session_timeout: Duration::from_secs(10),
            session_idle_timeout: Duration::from_secs(300),
            handshake_retry_interval: Duration::from_millis(500),
            handshake_timeout: Duration::from_secs(10),
            handshake_max_attempts: 8,
            reconnect_queue_capacity: 256,
            reconnect_queue_timeout: Duration::from_secs(5),
            handshake_rate_limit_burst: 32,
            handshake_rate_refill_interval: Duration::from_millis(100),
            require_handshake_cookie: true,
            handshake_cookie_lifetime: Duration::from_secs(30),
            resumption_lifetime: Duration::from_secs(30),
            max_pending_handshakes: 1024,
            max_pending_handshakes_per_peer: 64,
            max_sessions: 4096,
        }
    }
}

} // verus!
