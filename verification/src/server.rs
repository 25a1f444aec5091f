//! The server engine.

use vstd::prelude::*;

use crate::action;
use crate::action::{
    add_action, add_actions, no_actions, one_action, two_actions, ActionModel, SessionState,
    TunnelAction, TunnelEvent,
};
use crate::bytes::{copy_of, same_bytes};
use crate::config;
use crate::config::{EngineConfig, Role};
use crate::crypto::Direction;
use crate::entropy::draw;
use crate::error::{EngineError, HandshakeError, RecordError};
use crate::handshake;
use crate::handshake::{
    issue_resumption_credential, session_keys, verify_cookie, verify_resumption_credential,
    ClientFinish, ClientHello, HelloRetry, ResumptionCredential, ServerHello,
};
use crate::id::{ConversationId, PeerId, SessionId};
use crate::protocol::{FrameType, WireFrame};
use crate::record::{AuthenticatedFrame, RecordOpener, RecordSealer};
use crate::secret::{Psk, SecretBytes};
use crate::server_laws;
use crate::server_model;
use crate::server_model::{
    BucketModel, PendingModel, ResumableModel, ServerConversationModel, ServerDraws, ServerModel,
    ServerSessionModel,
};
use crate::table;
use crate::table::{Keep, Table};
use crate::time::{Duration, Instant};

verus! {

/// A handshake that waits for the client's finish.
#[derive(Clone, Copy)]
pub struct PendingHandshake {
    peer_id: PeerId,
    created_at: Instant,
    client_hello: ClientHello,
    server_hello: ServerHello,
    resume_from: Option<SessionId>,
}

impl View for PendingHandshake {
    type V = PendingModel;

    closed spec fn view(&self) -> PendingModel {
        PendingModel {
            peer_id: self.peer_id,
            created_at: self.created_at,
            hello: self.client_hello@,
            answer: self.server_hello@,
            resume_from: self.resume_from,
        }
    }
}

/// A peer's allowance of handshake attempts.
pub struct HandshakeRateBucket {
    tokens: usize,
    last_refill_at: Instant,
}

impl View for HandshakeRateBucket {
    type V = BucketModel;

    closed spec fn view(&self) -> BucketModel {
        BucketModel { tokens: self.tokens, last_refill_at: self.last_refill_at }
    }
}

/// A conversation of a session.
pub struct ServerConversation {
    last_activity: Instant,
    credential: Option<(ResumptionCredential, u128)>,
}

impl View for ServerConversation {
    type V = ServerConversationModel;

    closed spec fn view(&self) -> ServerConversationModel {
        ServerConversationModel {
            last_activity: self.last_activity,
            credential: match self.credential {
                Some((credential, expires_at)) => Some((credential@, expires_at)),
                None => None,
            },
        }
    }
}

impl ServerConversation {
    /// Whether the conversation needs a fresh credential.
    fn is_due(&self, config: &EngineConfig, now: Instant) -> (r: bool)
        ensures
            r == server_model::credential_due(self@, *config, now),
    {
        match &self.credential {
            None => true,
            Some((_, expires_at)) => {
                let now_nanos: u128 = now.nanos as u128;
                *expires_at <= now_nanos || *expires_at - now_nanos
                    <= config.resumption_lifetime.as_nanos() / 2
            },
        }
    }
}

/// The server's end of a session.
pub struct ServerSession {
    peer_id: PeerId,
    sealer: RecordSealer,
    opener: RecordOpener,
    handshake_ack: Vec<u8>,
    client_finish: Vec<u8>,
    conversations: Table<ConversationId, ServerConversation>,
    last_activity: Instant,
    expires_at: u128,
}

impl View for ServerSession {
    type V = ServerSessionModel;

    closed spec fn view(&self) -> ServerSessionModel {
        ServerSessionModel {
            peer_id: self.peer_id,
            sealer: self.sealer@,
            opener: self.opener@,
            handshake_ack: self.handshake_ack@,
            client_finish: self.client_finish@,
            conversations: self.conversations@,
            last_activity: self.last_activity,
            expires_at: self.expires_at,
        }
    }
}

/// What stays of an expired session while it can be resumed.
pub struct ResumableSession {
    conversations: Table<ConversationId, ServerConversation>,
    expires_at: u128,
}

impl View for ResumableSession {
    type V = ResumableModel;

    closed spec fn view(&self) -> ResumableModel {
        ResumableModel { conversations: self.conversations@, expires_at: self.expires_at }
    }
}

/// The random octets of an answer.
pub struct AnswerSeed {
    pub server_nonce: [u8; 32],
    pub session_salt: [u8; 32],
}

impl AnswerSeed {
    /// The seed of which both parts could be drawn.
    pub fn from_drawn(
        server_nonce: Result<[u8; 32], EngineError>,
        session_salt: Result<[u8; 32], EngineError>,
    ) -> (r: Option<Self>)
        ensures
            r == match (server_nonce, session_salt) {
                (Ok(server_nonce), Ok(session_salt)) => Some(
                    AnswerSeed { server_nonce, session_salt },
                ),
                _ => None,
            },
    {
        match (server_nonce, session_salt) {
            (Ok(server_nonce), Ok(session_salt)) => Some(
                AnswerSeed { server_nonce, session_salt },
            ),
            _ => None,
        }
    }
}

/// The random values that one event may use up.
pub struct ServerEntropy {
    /// A session identifier that is not in use.
    pub session_id: Option<SessionId>,
    /// Nonce and salt for an answer.
    pub hello: Option<AnswerSeed>,
    /// A salt for each credential.
    pub credentials: Vec<Option<[u8; 16]>>,
}

/// The octets of an optional seed.
pub open spec fn seed_model(seed: Option<AnswerSeed>) -> Option<(Seq<u8>, Seq<u8>)> {
    match seed {
        Some(seed) => Some((seed.server_nonce@, seed.session_salt@)),
        None => None,
    }
}

/// The octets of an optional salt.
pub open spec fn salt_model(salt: Option<[u8; 16]>) -> Option<Seq<u8>> {
    match salt {
        Some(salt) => Some(salt@),
        None => None,
    }
}

/// The octets of optional salts.
pub open spec fn salts_model(salts: Seq<Option<[u8; 16]>>) -> Seq<Option<Seq<u8>>> {
    salts.map_values(|salt: Option<[u8; 16]>| salt_model(salt))
}

impl View for ServerEntropy {
    type V = ServerDraws;

    open spec fn view(&self) -> ServerDraws {
        ServerDraws {
            session_id: self.session_id,
            hello: seed_model(self.hello),
            credentials: salts_model(self.credentials@),
        }
    }
}

/// Keeps the pending handshakes that may still be completed.
struct StillPending {
    now: Instant,
    timeout: Duration,
}

impl Keep<SessionId, PendingHandshake> for StillPending {
    closed spec fn test(&self) -> spec_fn(SessionId, PendingModel) -> bool {
        server_model::still_pending(self.now, self.timeout)
    }

    fn keeps(&self, key: SessionId, value: &PendingHandshake) -> (r: bool) {
        self.now.saturating_duration_since(value.created_at).as_nanos() < self.timeout.as_nanos()
    }
}

/// Keeps the conversations that are not idle.
struct StillBusy {
    now: Instant,
    timeout: Duration,
}

impl Keep<ConversationId, ServerConversation> for StillBusy {
    closed spec fn test(&self) -> spec_fn(ConversationId, ServerConversationModel) -> bool {
        server_model::still_busy(self.now, self.timeout)
    }

    fn keeps(&self, key: ConversationId, value: &ServerConversation) -> (r: bool) {
        self.now.saturating_duration_since(value.last_activity).as_nanos()
            < self.timeout.as_nanos()
    }
}

/// Keeps the sessions that are not idle.
struct StillAlive {
    now: Instant,
    timeout: Duration,
}

impl Keep<SessionId, ServerSession> for StillAlive {
    closed spec fn test(&self) -> spec_fn(SessionId, ServerSessionModel) -> bool {
        server_model::still_alive(self.now, self.timeout)
    }

    fn keeps(&self, key: SessionId, value: &ServerSession) -> (r: bool) {
        (self.now.nanos as u128) < value.expires_at || self.now.saturating_duration_since(
            value.last_activity,
        ).as_nanos() < self.timeout.as_nanos()
    }
}

/// Keeps the expired sessions that can still be resumed.
struct StillResumable {
    now: Instant,
}

impl Keep<SessionId, ResumableSession> for StillResumable {
    closed spec fn test(&self) -> spec_fn(SessionId, ResumableModel) -> bool {
        server_model::still_resumable(self.now)
    }

    fn keeps(&self, key: SessionId, value: &ResumableSession) -> (r: bool) {
        (self.now.nanos as u128) < value.expires_at
    }
}

/// Keeps the buckets that have not been full for long.
struct StillCounted {
    now: Instant,
    retention: Duration,
}

impl Keep<PeerId, HandshakeRateBucket> for StillCounted {
    closed spec fn test(&self) -> spec_fn(PeerId, BucketModel) -> bool {
        server_model::still_counted(self.now, self.retention.length())
    }

    fn keeps(&self, key: PeerId, value: &HandshakeRateBucket) -> (r: bool) {
        self.now.saturating_duration_since(value.last_refill_at).as_nanos()
            < self.retention.as_nanos()
    }
}

/// Synchronous server protocol engine.
pub struct ServerEngine {
    config: EngineConfig,
    psk: Psk,
    cookie_secret: SecretBytes,
    clock_origin: Option<Instant>,
    pending: Table<SessionId, PendingHandshake>,
    sessions: Table<SessionId, ServerSession>,
    resumable: Table<SessionId, ResumableSession>,
    handshake_rate_buckets: Table<PeerId, HandshakeRateBucket>,
}

impl View for ServerEngine {
    type V = ServerModel;

    closed spec fn view(&self) -> ServerModel {
        ServerModel {
            config: self.config,
            psk: self.psk@,
            cookie_secret: self.cookie_secret@,
            clock_origin: self.clock_origin,
            pending: self.pending@,
            sessions: self.sessions@,
            resumable: self.resumable@,
            buckets: self.handshake_rate_buckets@,
        }
    }
}

impl ServerSession {
    /// Takes a record that was opened.
    fn receive_record(
        &mut self,
        config: &EngineConfig,
        cookie_secret: &[u8],
        session_id: SessionId,
        frame: AuthenticatedFrame,
        now: Instant,
        now_ms: u64,
        salts: &Vec<Option<[u8; 16]>>,
    ) -> (r: Result<Vec<TunnelAction>, EngineError>)
        ensures
            server_model::receive_record(
                old(self)@,
                *config,
                cookie_secret@,
                session_id,
                frame@,
                now,
                now_ms,
                salts_model(salts@),
            ) == (final(self)@, action::outcome(r)),
    {
        if frame.frame_type != FrameType::Data {
            return Ok(no_actions());
        }
        let conversation_id: ConversationId = match frame.conversation_id {
            Some(conversation_id) => conversation_id,
            None => {
                return Err(EngineError::UnknownConversation);
            },
        };
        let known: Option<Option<(ResumptionCredential, u128)>> = match self.conversations.get(
            conversation_id,
        ) {
            Some(conversation) => Some(conversation.credential),
            None => None,
        };
        let is_new: bool = known.is_none();
        if is_new && self.conversations.len() >= config.max_conversations {
            return Err(EngineError::ConversationCapacity);
        }
        let credential: Option<(ResumptionCredential, u128)> = match known {
            Some(credential) => credential,
            None => None,
        };
        self.conversations.insert(
            conversation_id,
            ServerConversation { last_activity: now, credential },
        );
        let mut actions: Vec<TunnelAction> = if is_new {
            one_action(
                TunnelAction::ConversationOpened { session_id: Some(session_id), conversation_id },
            )
        } else {
            no_actions()
        };
        match self.hand_out_credentials(config, cookie_secret, session_id, now, now_ms, salts) {
            Ok(sent) => {
                add_actions(&mut actions, sent);
            },
            Err(error) => {
                return Err(error);
            },
        }
        add_action(
            &mut actions,
            TunnelAction::DeliverToUpstream {
                session_id,
                conversation_id,
                payload: frame.plaintext,
            },
        );
        add_action(&mut actions, TunnelAction::ScheduleTimer(config.session_idle_timeout));
        Ok(actions)
    }

    /// How many conversations need a fresh credential.
    fn count_due(&self, config: &EngineConfig, now: Instant) -> (r: usize)
        ensures
            r == server_model::due_count(self@.conversations, *config, now),
            r <= self@.conversations.len(),
    {
        let ghost all = self@.conversations;
        let mut count: usize = 0;
        let mut i: usize = 0;
        assert(all.take(0) =~= Seq::empty());
        while i < self.conversations.len()
            invariant
                all == self@.conversations,
                count <= i <= all.len(),
                count == server_model::due_count(all.take(i as int), *config, now),
            decreases all.len() - i,
        {
            assert(all.take(i + 1).drop_last() =~= all.take(i as int));
            if self.conversations.value_at(i).is_due(config, now) {
                count += 1;
            }
            i += 1;
        }
        assert(all.take(i as int) =~= all);
        count
    }

    /// Hands out the credentials that are due, each to the conversation that it was
    /// issued for.
    fn hand_out_credentials(
        &mut self,
        config: &EngineConfig,
        cookie_secret: &[u8],
        session_id: SessionId,
        now: Instant,
        now_ms: u64,
        salts: &Vec<Option<[u8; 16]>>,
    ) -> (r: Result<Vec<TunnelAction>, EngineError>)
        ensures
            server_model::renewed(
                old(self)@,
                *config,
                cookie_secret@,
                session_id,
                now,
                now_ms,
                salts_model(salts@),
                old(self)@.conversations.len(),
            ) == (final(self)@, action::outcome(r)),
    {
        let lifetime: u128 = config.resumption_lifetime.as_millis();
        let lifetime_ms: u64 = if lifetime > u64::MAX as u128 {
            u64::MAX
        } else {
            lifetime as u64
        };
        let ghost start = self@;
        let ghost all = start.conversations;
        let ghost drawn = salts_model(salts@);
        let mut actions: Vec<TunnelAction> = no_actions();
        let mut used: usize = 0;
        let mut i: usize = 0;
        assert(all.take(0) =~= Seq::empty());
        while i < self.conversations.len()
            invariant
                start == old(self)@,
                all == start.conversations,
                drawn == salts_model(salts@),
                lifetime_ms == server_model::capped_ms(
                    config.resumption_lifetime.length() / 1_000_000,
                ),
                used <= i <= all.len(),
                used == server_model::due_count(all.take(i as int), *config, now),
                self@.conversations.len() == all.len(),
                self@.peer_id == start.peer_id,
                forall|j: int| i <= j < all.len() ==> #[trigger] self@.conversations[j] == all[j],
                server_model::renewed(
                    start,
                    *config,
                    cookie_secret@,
                    session_id,
                    now,
                    now_ms,
                    drawn,
                    i as nat,
                ) == (self@, Ok::<Seq<ActionModel>, EngineError>(action::models(actions@))),
            decreases all.len() - i,
        {
            proof {
                assert(all.take(i + 1).drop_last() =~= all.take(i as int));
                assert(self@.conversations[i as int] == all[i as int]);
                lemma_stopped_renewal(
                    start,
                    *config,
                    cookie_secret@,
                    session_id,
                    now,
                    now_ms,
                    drawn,
                    (i + 1) as nat,
                    all.len(),
                );
            }
            if self.conversations.value_at(i).is_due(config, now) {
                let conversation_id: ConversationId = self.conversations.key_at(i);
                let salt: [u8; 16] = match salt_at(salts, used) {
                    Some(salt) => salt,
                    None => {
                        return Err(EngineError::RandomnessUnavailable);
                    },
                };
                let credential: ResumptionCredential = match issue_resumption_credential(
                    cookie_secret,
                    session_id,
                    conversation_id,
                    now_ms,
                    now_ms.saturating_add(lifetime_ms),
                    salt,
                ) {
                    Ok(credential) => credential,
                    Err(error) => {
                        return Err(EngineError::Crypto(error));
                    },
                };
                match self.sealer.seal(
                    FrameType::ResumptionCredential,
                    Some(conversation_id),
                    credential.as_bytes(),
                ) {
                    Ok(bytes) => {
                        add_action(
                            &mut actions,
                            TunnelAction::SendTunnelFrame { peer_id: self.peer_id, bytes },
                        );
                    },
                    Err(error) => {
                        return Err(EngineError::Record(error));
                    },
                }
                let conversation: &mut ServerConversation = self.conversations.value_at_mut(i);
                conversation.credential = Some((credential, now.plus(config.resumption_lifetime)));
                used += 1;
            }
            i += 1;
        }
        assert(all.take(i as int) =~= all);
        Ok(actions)
    }
}

/// The salt drawn for the credential at a place.
fn salt_at(salts: &Vec<Option<[u8; 16]>>, at: usize) -> (r: Option<[u8; 16]>)
    ensures
        salt_model(r) == server_model::drawn_salt(salts_model(salts@), at as int),
{
    if at < salts.len() {
        salts[at]
    } else {
        None
    }
}

/// Starts the time of the credentials of conversations anew.
fn carry_over(conversations: Table<ConversationId, ServerConversation>, expires_at: u128) -> (r:
    Table<ConversationId, ServerConversation>)
    ensures
        r@ == server_model::carried_over(conversations@, expires_at),
{
    let mut r: Table<ConversationId, ServerConversation> = conversations;
    let ghost all = r@;
    let ghost carried = server_model::carried_over(all, expires_at);
    let mut i: usize = 0;
    while i < r.len()
        invariant
            i <= all.len(),
            carried == server_model::carried_over(all, expires_at),
            r@ =~= carried.take(i as int) + all.skip(i as int),
        decreases all.len() - i,
    {
        let ghost before = r@;
        assert(before[i as int] == all[i as int]);
        let conversation: &mut ServerConversation = r.value_at_mut(i);
        conversation.credential = match conversation.credential {
            Some((credential, _)) => Some((credential, expires_at)),
            None => None,
        };
        assert(conversation@ == carried[i as int].1);
        assert(before.update(i as int, carried[i as int]) =~= carried.take(i + 1) + all.skip(
            i + 1,
        ));
        i += 1;
    }
    assert(carried.take(i as int) + all.skip(i as int) =~= carried);
    r
}

/// Once a credential was refused, nothing more is handed out.
proof fn lemma_stopped_renewal(
    session: ServerSessionModel,
    config: EngineConfig,
    cookie_secret: Seq<u8>,
    session_id: SessionId,
    now: Instant,
    now_ms: u64,
    salts: Seq<Option<Seq<u8>>>,
    at: nat,
    count: nat,
)
    requires
        at <= count,
    ensures
        server_model::renewed(
            session,
            config,
            cookie_secret,
            session_id,
            now,
            now_ms,
            salts,
            at,
        ).1 is Err ==> server_model::renewed(
            session,
            config,
            cookie_secret,
            session_id,
            now,
            now_ms,
            salts,
            count,
        ) == server_model::renewed(
            session,
            config,
            cookie_secret,
            session_id,
            now,
            now_ms,
            salts,
            at,
        ),
    decreases count,
{
    if at < count {
        lemma_stopped_renewal(
            session,
            config,
            cookie_secret,
            session_id,
            now,
            now_ms,
            salts,
            at,
            (count - 1) as nat,
        );
    }
}

impl ServerEngine {
    /// Sets a server up with a given cookie secret.
    pub fn with_cookie_secret(config: EngineConfig, psk: Psk, cookie_secret: [u8; 32]) -> (r: Result<
        Self,
        EngineError,
    >)
        ensures
            match r {
                Ok(engine) => {
                    &&& config::config_fault(config) is None
                    &&& config.role == Role::Server
                    &&& server_model::server_valid(engine@)
                    &&& engine@ == server_model::new_server(config, psk@, cookie_secret@)
                },
                Err(error) => match config::config_fault(config) {
                    Some(fault) => error == EngineError::Config(fault),
                    None => config.role != Role::Server && error == EngineError::InvalidRole,
                },
            },
    {
        match config.validate() {
            Ok(()) => {},
            Err(error) => {
                return Err(EngineError::Config(error));
            },
        }
        if config.role != Role::Server {
            return Err(EngineError::InvalidRole);
        }
        Ok(
            ServerEngine {
                config,
                psk,
                cookie_secret: SecretBytes::new(copy_of(cookie_secret.as_slice())),
                clock_origin: None,
                pending: Table::new(),
                sessions: Table::new(),
                resumable: Table::new(),
                handshake_rate_buckets: Table::new(),
            },
        )
    }

    /// Sets a server up with a fresh cookie secret.
    pub fn new(config: EngineConfig, psk: Psk) -> (r: Result<Self, EngineError>)
        ensures
            match r {
                Ok(engine) => {
                    &&& config::config_fault(config) is None
                    &&& config.role == Role::Server
                    &&& server_model::server_valid(engine@)
                    &&& engine@.cookie_secret.len() == 32
                    &&& engine@ == server_model::new_server(config, psk@, engine@.cookie_secret)
                },
                Err(error) => match config::config_fault(config) {
                    Some(fault) => error == EngineError::Config(fault),
                    None => if config.role != Role::Server {
                        error == EngineError::InvalidRole
                    } else {
                        error == EngineError::RandomnessUnavailable
                    },
                },
            },
    {
        match config.validate() {
            Ok(()) => {},
            Err(error) => {
                return Err(EngineError::Config(error));
            },
        }
        if config.role != Role::Server {
            return Err(EngineError::InvalidRole);
        }
        match draw::<32>() {
            Ok(cookie_secret) => ServerEngine::with_cookie_secret(config, psk, cookie_secret),
            Err(error) => Err(error),
        }
    }

    pub fn session_state(&self, session_id: SessionId) -> (r: Option<SessionState>)
        ensures
            r == server_model::session_state(self@, session_id),
    {
        if self.sessions.contains_key(session_id) {
            Some(SessionState::Ready)
        } else if self.pending.contains_key(session_id) {
            Some(SessionState::Handshaking)
        } else {
            None
        }
    }

    /// The server's millisecond clock, which starts when it is first read.
    fn now_ms(&mut self, now: Instant) -> (r: u64)
        ensures
            r == server_model::clock_ms(old(self)@, now),
            final(self)@ == server_model::clocked(old(self)@, now),
    {
        let origin: Instant = match self.clock_origin {
            Some(origin) => origin,
            None => now,
        };
        self.clock_origin = Some(origin);
        let millis: u128 = now.saturating_duration_since(origin).as_millis();
        if millis > u64::MAX as u128 {
            u64::MAX
        } else {
            millis as u64
        }
    }

    fn allow_handshake_attempt(&mut self, peer_id: PeerId, now: Instant) -> (r: bool)
        requires
            old(self)@.config.handshake_rate_refill_interval.length() > 0,
        ensures
            r == server_model::attempt_allowed(old(self)@, peer_id, now),
            final(self)@ == server_model::attempt_counted(old(self)@, peer_id, now),
    {
        let burst: usize = self.config.handshake_rate_limit_burst;
        let refill: u128 = self.config.handshake_rate_refill_interval.as_nanos();
        let (mut tokens, mut last_refill_at): (usize, Instant) = match self.handshake_rate_buckets.get(
            peer_id,
        ) {
            Some(bucket) => (bucket.tokens, bucket.last_refill_at),
            None => {
                if self.handshake_rate_buckets.len() >= self.config.max_pending_handshakes {
                    return false;
                }
                (burst, now)
            },
        };
        let refill_count: u128 = now.saturating_duration_since(last_refill_at).as_nanos() / refill;
        if refill_count != 0 {
            let added: usize = if refill_count > usize::MAX as u128 {
                usize::MAX
            } else {
                refill_count as usize
            };
            let filled: usize = tokens.saturating_add(added);
            tokens = if filled < burst {
                filled
            } else {
                burst
            };
            last_refill_at = now;
        }
        assert(server_model::bucket_of(self@, peer_id, now) == (BucketModel {
            tokens,
            last_refill_at,
        }));
        if tokens == 0 {
            self.handshake_rate_buckets.insert(
                peer_id,
                HandshakeRateBucket { tokens, last_refill_at },
            );
            return false;
        }
        self.handshake_rate_buckets.insert(
            peer_id,
            HandshakeRateBucket { tokens: tokens - 1, last_refill_at },
        );
        true
    }

    /// Where the pending handshake of a repeated hello stands.
    fn find_repeated(&self, peer_id: PeerId, hello: &ClientHello) -> (r: Option<usize>)
        ensures
            match r {
                Some(at) => at == server_model::repeated_at(self@.pending, peer_id, hello@) && at
                    < self@.pending.len(),
                None => server_model::repeated_at(self@.pending, peer_id, hello@)
                    == self@.pending.len(),
            },
    {
        let payload: Vec<u8> = hello.encode_payload();
        let mut i: usize = 0;
        assert(self@.pending.skip(0) =~= self@.pending);
        while i < self.pending.len()
            invariant
                i <= self@.pending.len(),
                payload@ == handshake::hello_payload(hello@),
                server_model::repeated_at(self@.pending, peer_id, hello@) == i
                    + server_model::repeated_at(self@.pending.skip(i as int), peer_id, hello@),
            decreases self@.pending.len() - i,
        {
            let pending: &PendingHandshake = self.pending.value_at(i);
            proof {
                assert(self@.pending.skip(i as int)[0] == self@.pending[i as int]);
                assert(self@.pending.skip(i as int).drop_first() =~= self@.pending.skip(i + 1));
            }
            if pending.peer_id == peer_id && same_bytes(
                pending.client_hello.encode_payload().as_slice(),
                payload.as_slice(),
            ) {
                return Some(i);
            }
            i += 1;
        }
        None
    }

    /// How many pending handshakes a peer has.
    fn count_pending(&self, peer_id: PeerId) -> (r: usize)
        ensures
            r == server_model::pending_of(self@.pending, peer_id),
    {
        let mut count: usize = 0;
        let mut i: usize = 0;
        assert(self@.pending.take(0) =~= Seq::empty());
        while i < self.pending.len()
            invariant
                count <= i <= self@.pending.len(),
                count == server_model::pending_of(self@.pending.take(i as int), peer_id),
            decreases self@.pending.len() - i,
        {
            assert(self@.pending.take(i + 1).drop_last() =~= self@.pending.take(i as int));
            if self.pending.value_at(i).peer_id == peer_id {
                count += 1;
            }
            i += 1;
        }
        assert(self@.pending.take(i as int) =~= self@.pending);
        count
    }

    /// Whether a session identifier can be given out.
    fn is_unused(&self, session_id: SessionId) -> (r: bool)
        ensures
            r == server_model::session_unused(self@, session_id),
    {
        session_id.get() != 0 && !self.pending.contains_key(session_id)
            && !self.sessions.contains_key(session_id) && !self.resumable.contains_key(session_id)
    }

    /// Whether a pending handshake already resumes a session.
    fn resumption_is_pending(&self, session_id: SessionId) -> (r: bool)
        ensures
            r == server_model::resumption_pending(self@.pending, session_id),
    {
        let mut i: usize = 0;
        while i < self.pending.len()
            invariant
                i <= self@.pending.len(),
                forall|j: int|
                    0 <= j < i ==> (#[trigger] self@.pending[j]).1.resume_from != Some(session_id),
            decreases self@.pending.len() - i,
        {
            match self.pending.value_at(i).resume_from {
                Some(other) => {
                    if other == session_id {
                        assert(self@.pending[i as int].1.resume_from == Some(session_id));
                        return true;
                    }
                },
                None => {},
            }
            i += 1;
        }
        false
    }

    /// The session that a hello takes over, if any.
    fn find_resumed(&self, hello: &ClientHello, now_ms: u64) -> (r: Option<SessionId>)
        ensures
            r == server_model::resumed_by(self@, hello@, now_ms),
    {
        let credential: &ResumptionCredential = match &hello.resumption {
            Some(credential) => credential,
            None => {
                return None;
            },
        };
        match verify_resumption_credential(self.cookie_secret.as_slice(), credential, now_ms) {
            Ok((session_id, conversation_id)) => {
                let active: bool = match self.sessions.get(session_id) {
                    Some(session) => match session.conversations.get(conversation_id) {
                        Some(conversation) => conversation.credential.is_some(),
                        None => false,
                    },
                    None => false,
                };
                let expired: bool = match self.resumable.get(session_id) {
                    Some(state) => state.conversations.contains_key(conversation_id),
                    None => false,
                };
                if (active || expired) && !self.resumption_is_pending(session_id) {
                    Some(session_id)
                } else {
                    None
                }
            },
            Err(_) => None,
        }
    }

    fn handle_client_hello(
        &mut self,
        peer_id: PeerId,
        frame: &WireFrame,
        now: Instant,
        entropy: ServerEntropy,
    ) -> (r: Result<Vec<TunnelAction>, EngineError>)
        requires
            server_model::engine_sound(old(self)@),
        ensures
            server_model::handle_client_hello(old(self)@, peer_id, frame@, now, entropy@) == (
                final(self)@,
                action::outcome(r),
            ),
    {
        let hello: ClientHello = match ClientHello::decode(frame) {
            Ok(hello) => hello,
            Err(error) => {
                return Err(EngineError::Handshake(error));
            },
        };
        if hello.suite != self.config.cipher_suite {
            return Err(EngineError::Handshake(HandshakeError::CipherSuiteMismatch));
        }
        if !self.allow_handshake_attempt(peer_id, now) {
            return Err(EngineError::HandshakeRateLimited);
        }
        if self.config.require_handshake_cookie {
            let now_ms: u64 = self.now_ms(now);
            if verify_cookie(
                self.cookie_secret.as_slice(),
                &hello,
                peer_id,
                now_ms,
                self.config.handshake_cookie_lifetime,
            ).is_err() {
                let retry: HelloRetry = match HelloRetry::create(
                    &self.psk,
                    self.cookie_secret.as_slice(),
                    &hello,
                    peer_id,
                    now_ms,
                ) {
                    Ok(retry) => retry,
                    Err(error) => {
                        return Err(EngineError::Crypto(error));
                    },
                };
                return match retry.frame().encode() {
                    Ok(bytes) => Ok(one_action(TunnelAction::SendTunnelFrame { peer_id, bytes })),
                    Err(error) => Err(EngineError::Frame(error)),
                };
            }
        }
        self.answer_hello(peer_id, hello, now, entropy)
    }

    /// Answers a hello within the limits on pending handshakes.
    fn answer_hello(
        &mut self,
        peer_id: PeerId,
        hello: ClientHello,
        now: Instant,
        entropy: ServerEntropy,
    ) -> (r: Result<Vec<TunnelAction>, EngineError>)
        ensures
            server_model::answer_hello(old(self)@, peer_id, hello@, now, entropy@) == (
                final(self)@,
                action::outcome(r),
            ),
    {
        match self.find_repeated(peer_id, &hello) {
            Some(at) => {
                let session_id: SessionId = self.pending.key_at(at);
                let pending: &PendingHandshake = self.pending.value_at(at);
                return match pending.server_hello.frame(session_id).encode() {
                    Ok(bytes) => Ok(one_action(TunnelAction::SendTunnelFrame { peer_id, bytes })),
                    Err(error) => Err(EngineError::Frame(error)),
                };
            },
            None => {},
        }
        if self.pending.len() >= self.config.max_pending_handshakes {
            return Err(EngineError::PendingHandshakeCapacity);
        }
        if self.count_pending(peer_id) >= self.config.max_pending_handshakes_per_peer {
            return Err(EngineError::PerPeerPendingHandshakeCapacity);
        }
        self.open_handshake(peer_id, hello, now, entropy)
    }

    /// Answers a new hello.
    fn open_handshake(
        &mut self,
        peer_id: PeerId,
        hello: ClientHello,
        now: Instant,
        entropy: ServerEntropy,
    ) -> (r: Result<Vec<TunnelAction>, EngineError>)
        ensures
            server_model::open_handshake(old(self)@, peer_id, hello@, now, entropy@) == (
                final(self)@,
                action::outcome(r),
            ),
    {
        let session_id: SessionId = match entropy.session_id {
            Some(session_id) => session_id,
            None => {
                return Err(EngineError::RandomnessUnavailable);
            },
        };
        if !self.is_unused(session_id) {
            return Err(EngineError::RandomnessUnavailable);
        }
        let now_ms: u64 = self.now_ms(now);
        let resume_from: Option<SessionId> = self.find_resumed(&hello, now_ms);
        let seed: AnswerSeed = match entropy.hello {
            Some(seed) => seed,
            None => {
                return Err(EngineError::RandomnessUnavailable);
            },
        };
        let server_hello: ServerHello = match ServerHello::create(
            &self.psk,
            &hello,
            session_id,
            resume_from.is_some(),
            seed.server_nonce,
            seed.session_salt,
        ) {
            Ok(server_hello) => server_hello,
            Err(error) => {
                return Err(EngineError::Crypto(error));
            },
        };
        let bytes: Vec<u8> = match server_hello.frame(session_id).encode() {
            Ok(bytes) => bytes,
            Err(error) => {
                return Err(EngineError::Frame(error));
            },
        };
        self.pending.insert(
            session_id,
            PendingHandshake {
                peer_id,
                created_at: now,
                client_hello: hello,
                server_hello,
                resume_from,
            },
        );
        Ok(
            two_actions(
                TunnelAction::SendTunnelFrame { peer_id, bytes },
                TunnelAction::ScheduleTimer(self.config.handshake_timeout),
            ),
        )
    }

    fn handle_client_finish(&mut self, peer_id: PeerId, frame: &WireFrame, now: Instant) -> (r:
        Result<Vec<TunnelAction>, EngineError>)
        requires
            server_model::engine_sound(old(self)@),
        ensures
            server_model::handle_client_finish(old(self)@, peer_id, frame@, now) == (
                final(self)@,
                action::outcome(r),
            ),
    {
        match self.sessions.get(frame.session_id) {
            Some(session) => {
                if session.peer_id != peer_id {
                    return Err(EngineError::UnexpectedPeer);
                }
                let encoded: Vec<u8> = match frame.encode() {
                    Ok(encoded) => encoded,
                    Err(error) => {
                        return Err(EngineError::Frame(error));
                    },
                };
                if !same_bytes(session.client_finish.as_slice(), encoded.as_slice()) {
                    return Err(EngineError::Handshake(HandshakeError::AuthenticationFailed));
                }
                return Ok(
                    one_action(
                        TunnelAction::SendTunnelFrame {
                            peer_id,
                            bytes: copy_of(session.handshake_ack.as_slice()),
                        },
                    ),
                );
            },
            None => {},
        }
        let pending: PendingHandshake = match self.pending.get(frame.session_id) {
            Some(pending) => *pending,
            None => {
                return Err(EngineError::Handshake(HandshakeError::UnknownPendingHandshake));
            },
        };
        if pending.peer_id != peer_id {
            return Err(EngineError::UnexpectedPeer);
        }
        let replaces_active_session: bool = match pending.resume_from {
            Some(session_id) => self.sessions.contains_key(session_id),
            None => false,
        };
        if self.sessions.len() >= self.config.max_sessions && !replaces_active_session {
            return Err(EngineError::SessionCapacity);
        }
        let finish: ClientFinish = match ClientFinish::decode(frame) {
            Ok(finish) => finish,
            Err(error) => {
                return Err(EngineError::Handshake(error));
            },
        };
        match finish.verify(
            &self.psk,
            &pending.client_hello,
            &pending.server_hello,
            frame.session_id,
        ) {
            Ok(()) => {},
            Err(error) => {
                return Err(EngineError::Handshake(error));
            },
        }
        self.establish(peer_id, frame, pending, now)
    }

    /// Turns a pending handshake into a session.
    fn establish(
        &mut self,
        peer_id: PeerId,
        frame: &WireFrame,
        pending: PendingHandshake,
        now: Instant,
    ) -> (r: Result<Vec<TunnelAction>, EngineError>)
        requires
            server_model::engine_sound(old(self)@),
        ensures
            server_model::establish(old(self)@, peer_id, frame@, pending@, now) == (
                final(self)@,
                action::outcome(r),
            ),
    {
        let session_id: SessionId = frame.session_id;
        let keys = match session_keys(
            &self.psk,
            &pending.client_hello,
            &pending.server_hello,
            session_id,
        ) {
            Ok(keys) => keys,
            Err(error) => {
                return Err(EngineError::Crypto(error));
            },
        };
        let mut sealer = RecordSealer::new(
            self.config.cipher_suite,
            Direction::ServerToClient,
            session_id,
            keys.server_to_client,
        );
        let empty: Vec<u8> = Vec::new();
        let handshake_ack: Vec<u8> = match sealer.seal(
            FrameType::HandshakeAck,
            None,
            empty.as_slice(),
        ) {
            Ok(ack) => ack,
            Err(error) => {
                return Err(EngineError::Record(error));
            },
        };
        let client_finish: Vec<u8> = match frame.encode() {
            Ok(encoded) => encoded,
            Err(error) => {
                return Err(EngineError::Frame(error));
            },
        };
        assert(empty@ =~= Seq::<u8>::empty());
        let ack: Vec<u8> = copy_of(handshake_ack.as_slice());
        let conversations: Table<ConversationId, ServerConversation> = carry_over(
            self.take_over(pending.resume_from),
            now.plus(self.config.resumption_lifetime),
        );
        let ghost taken = server_model::taken_over(old(self)@, pending@.resume_from);
        self.sessions.insert(
            session_id,
            ServerSession {
                peer_id,
                sealer,
                opener: RecordOpener::new(
                    self.config.cipher_suite,
                    Direction::ClientToServer,
                    session_id,
                    keys.client_to_server,
                    self.config.replay_window_size,
                ),
                handshake_ack,
                client_finish,
                conversations,
                last_activity: now,
                expires_at: now.plus(self.config.session_idle_timeout),
            },
        );
        let _ = self.pending.remove(session_id);
        let mut actions: Vec<TunnelAction> = two_actions(
            TunnelAction::SendTunnelFrame { peer_id, bytes: ack },
            TunnelAction::SessionEstablished {
                peer_id,
                session_id,
                cipher_suite: self.config.cipher_suite,
                resumed: pending.resume_from.is_some(),
            },
        );
        match pending.resume_from {
            Some(old_session_id) => {
                add_action(
                    &mut actions,
                    TunnelAction::SessionResumed {
                        peer_id,
                        old_session_id,
                        new_session_id: session_id,
                    },
                );
            },
            None => {},
        }
        add_action(&mut actions, TunnelAction::ScheduleTimer(self.config.session_idle_timeout));
        Ok(actions)
    }

    /// Takes the conversations of a session that is resumed.
    fn take_over(&mut self, resume_from: Option<SessionId>) -> (r: Table<
        ConversationId,
        ServerConversation,
    >)
        ensures
            server_model::taken_over(old(self)@, resume_from) == (final(self)@, r@),
    {
        match resume_from {
            None => Table::new(),
            Some(session_id) => match self.sessions.remove(session_id) {
                Some(session) => session.conversations,
                None => match self.resumable.remove(session_id) {
                    Some(state) => state.conversations,
                    None => Table::new(),
                },
            },
        }
    }

    fn handle_record(
        &mut self,
        peer_id: PeerId,
        session_id: SessionId,
        bytes: Vec<u8>,
        now: Instant,
        salts: &Vec<Option<[u8; 16]>>,
    ) -> (r: Result<Vec<TunnelAction>, EngineError>)
        requires
            server_model::engine_sound(old(self)@),
        ensures
            server_model::handle_record(
                old(self)@,
                peer_id,
                session_id,
                bytes@,
                now,
                salts_model(salts@),
            ) == (final(self)@, action::outcome(r)),
    {
        let now_ms: u64 = self.now_ms(now);
        let at: usize = match self.sessions.find(session_id) {
            Some(at) => at,
            None => {
                return Err(EngineError::UnknownSession);
            },
        };
        proof {
            table::lemma_position(self@.sessions, session_id);
        }
        if self.sessions.value_at(at).peer_id != peer_id {
            return Err(EngineError::UnexpectedPeer);
        }
        let ghost timed = self@;
        let session: &mut ServerSession = self.sessions.value_at_mut(at);
        let ghost before = session@;
        let frame: AuthenticatedFrame = match session.opener.open(bytes.as_slice()) {
            Ok(frame) => frame,
            Err(error) => {
                assert(session@ =~= before);
                assert(self@.sessions =~= timed.sessions);
                return Err(EngineError::Record(error));
            },
        };
        session.last_activity = now;
        session.expires_at = now.plus(self.config.session_idle_timeout);
        assert(session@ == server_model::after_record(before, self.config, bytes@, now));
        let r = session.receive_record(
            &self.config,
            self.cookie_secret.as_slice(),
            session_id,
            frame,
            now,
            now_ms,
            salts,
        );
        r
    }

    fn handle_tunnel(
        &mut self,
        peer_id: PeerId,
        bytes: Vec<u8>,
        now: Instant,
        entropy: ServerEntropy,
    ) -> (r: Result<Vec<TunnelAction>, EngineError>)
        requires
            server_model::engine_sound(old(self)@),
        ensures
            server_model::handle_tunnel(old(self)@, peer_id, bytes@, now, entropy@) == (
                final(self)@,
                action::outcome(r),
            ),
    {
        let frame: WireFrame = match WireFrame::decode(bytes.as_slice()) {
            Ok(frame) => frame,
            Err(error) => {
                return Err(EngineError::Frame(error));
            },
        };
        match frame.frame_type {
            FrameType::ClientHello => self.handle_client_hello(peer_id, &frame, now, entropy),
            FrameType::ClientFinish => self.handle_client_finish(peer_id, &frame, now),
            _ => if frame.frame_type.is_protected() {
                self.handle_record(peer_id, frame.session_id, bytes, now, &entropy.credentials)
            } else {
                Err(EngineError::Handshake(HandshakeError::UnexpectedMessage))
            },
        }
    }

    fn handle_upstream(
        &mut self,
        session_id: SessionId,
        conversation_id: ConversationId,
        payload: Vec<u8>,
        now: Instant,
    ) -> (r: Result<Vec<TunnelAction>, EngineError>)
        ensures
            server_model::handle_upstream(
                old(self)@,
                session_id,
                conversation_id,
                payload@,
                now,
            ) == (final(self)@, action::outcome(r)),
    {
        if payload.len() > self.config.max_frame_payload {
            return Err(EngineError::PayloadTooLarge);
        }
        let at: usize = match self.sessions.find(session_id) {
            Some(at) => at,
            None => {
                return Err(EngineError::UnknownSession);
            },
        };
        proof {
            table::lemma_position(self@.sessions, session_id);
        }
        if !self.sessions.value_at(at).conversations.contains_key(conversation_id) {
            return Err(EngineError::UnknownConversation);
        }
        let session: &mut ServerSession = self.sessions.value_at_mut(at);
        session.last_activity = now;
        session.expires_at = now.plus(self.config.session_idle_timeout);
        let peer_id: PeerId = session.peer_id;
        let sealed: Result<Vec<u8>, RecordError> = session.sealer.seal(
            FrameType::Data,
            Some(conversation_id),
            payload.as_slice(),
        );
        match sealed {
            Ok(bytes) => Ok(
                two_actions(
                    TunnelAction::SendTunnelFrame { peer_id, bytes },
                    TunnelAction::ScheduleTimer(self.config.session_idle_timeout),
                ),
            ),
            Err(error) => Err(EngineError::Record(error)),
        }
    }

    fn close(&mut self, session_id: SessionId, conversation_id: ConversationId) -> (r: Result<
        Vec<TunnelAction>,
        EngineError,
    >)
        ensures
            server_model::close(old(self)@, session_id, conversation_id) == (
                final(self)@,
                action::outcome(r),
            ),
    {
        let at: usize = match self.sessions.find(session_id) {
            Some(at) => at,
            None => {
                return Err(EngineError::UnknownSession);
            },
        };
        proof {
            table::lemma_position(self@.sessions, session_id);
        }
        if !self.sessions.value_at(at).conversations.contains_key(conversation_id) {
            return Err(EngineError::UnknownConversation);
        }
        let session: &mut ServerSession = self.sessions.value_at_mut(at);
        let _ = session.conversations.remove(conversation_id);
        Ok(
            one_action(
                TunnelAction::ConversationClosed {
                    session_id: Some(session_id),
                    conversation_id,
                },
            ),
        )
    }

    fn expire(&mut self, now: Instant) -> (r: Vec<TunnelAction>)
        ensures
            server_model::expire(old(self)@, now) == (final(self)@, action::models(r@)),
    {
        let _ = self.pending.extract(
            &StillPending { now, timeout: self.config.handshake_timeout },
        );
        let mut actions: Vec<TunnelAction> = self.sweep_sessions(now);
        let closed: Vec<TunnelAction> = self.expire_sessions(now);
        add_actions(&mut actions, closed);
        let lost: Vec<TunnelAction> = self.expire_resumable(now);
        add_actions(&mut actions, lost);
        let burst: usize = self.config.handshake_rate_limit_burst;
        let factor: u32 = if burst > u32::MAX as usize {
            u32::MAX
        } else {
            burst as u32
        };
        let retention: Duration = self.config.handshake_rate_refill_interval.saturating_mul(factor);
        let _ = self.handshake_rate_buckets.extract(&StillCounted { now, retention });
        actions
    }

    /// Closes the idle conversations of every session.
    fn sweep_sessions(&mut self, now: Instant) -> (r: Vec<TunnelAction>)
        ensures
            ({
                let swept = server_model::swept_sessions(
                    old(self)@.sessions,
                    now,
                    old(self)@.config.conversation_idle_timeout,
                );
                &&& final(self)@ == (ServerModel { sessions: swept.0, ..old(self)@ })
                &&& action::models(r@) == swept.1
            }),
    {
        let timeout: Duration = self.config.conversation_idle_timeout;
        let mut actions: Vec<TunnelAction> = no_actions();
        let ghost start = self@.sessions;
        let mut i: usize = 0;
        assert(start.take(0) =~= Seq::empty());
        assert(start.skip(0) =~= start);
        while i < self.sessions.len()
            invariant
                i <= start.len(),
                start == old(self)@.sessions,
                timeout == old(self)@.config.conversation_idle_timeout,
                server_model::swept_sessions(start.take(i as int), now, timeout).0.len() == i,
                self@ =~= (ServerModel {
                    sessions: server_model::swept_sessions(
                        start.take(i as int),
                        now,
                        timeout,
                    ).0 + start.skip(i as int),
                    ..old(self)@
                }),
                action::models(actions@) =~= server_model::swept_sessions(
                    start.take(i as int),
                    now,
                    timeout,
                ).1,
            decreases start.len() - i,
        {
            let ghost done = server_model::swept_sessions(start.take(i as int), now, timeout);
            proof {
                assert(start.take(i + 1).drop_last() =~= start.take(i as int));
                assert(self@.sessions[i as int] == start[i as int]);
            }
            let session_id: SessionId = self.sessions.key_at(i);
            let session: &mut ServerSession = self.sessions.value_at_mut(i);
            let gone: Vec<(ConversationId, ServerConversation)> = session.conversations.extract(
                &StillBusy { now, timeout },
            );
            let notices: Vec<TunnelAction> = closing_notices(session_id, &gone);
            add_actions(&mut actions, notices);
            proof {
                let swept = server_model::swept_session(start[i as int].1, now, timeout);
                assert((done.0 + start.skip(i as int)).update(
                    i as int,
                    (session_id, swept),
                ) =~= done.0.push((session_id, swept)) + start.skip(i + 1));
            }
            i += 1;
        }
        proof {
            assert(start.take(i as int) =~= start);
            let swept = server_model::swept_sessions(start, now, timeout);
            assert(swept.0 + start.skip(i as int) =~= swept.0);
        }
        actions
    }

    /// Closes idle sessions. Those with conversations can be resumed for a while.
    fn expire_sessions(&mut self, now: Instant) -> (r: Vec<TunnelAction>)
        ensures
            ({
                let alive = server_model::still_alive(now, old(self)@.config.session_idle_timeout);
                let expired = table::discarded(old(self)@.sessions, alive);
                &&& final(self)@ == (ServerModel {
                    sessions: table::retained(old(self)@.sessions, alive),
                    resumable: server_model::retired(
                        old(self)@.resumable,
                        expired,
                        (now.nanos + old(self)@.config.resumption_lifetime.length()) as u128,
                    ),
                    ..old(self)@
                })
                &&& action::models(r@) == server_model::session_notices(expired)
            }),
    {
        let expires_at: u128 = now.plus(self.config.resumption_lifetime);
        let mut expired: Vec<(SessionId, ServerSession)> = self.sessions.extract(
            &StillAlive { now, timeout: self.config.session_idle_timeout },
        );
        let mut actions: Vec<TunnelAction> = no_actions();
        let ghost all = table::entries_model(expired@);
        let ghost kept = self@.sessions;
        let ghost mut done: int = 0;
        assert(all.take(0) =~= Seq::empty());
        assert(all.skip(0) =~= all);
        while expired.len() > 0
            invariant
                0 <= done <= all.len(),
                table::entries_model(expired@) =~= all.skip(done),
                self@ =~= (ServerModel {
                    sessions: kept,
                    resumable: server_model::retired(
                        old(self)@.resumable,
                        all.take(done),
                        expires_at,
                    ),
                    ..old(self)@
                }),
                action::models(actions@) =~= server_model::session_notices(all.take(done)),
            decreases expired@.len(),
        {
            let ghost left = expired@;
            let (session_id, session) = expired.remove(0);
            proof {
                assert(table::entries_model(left).len() == left.len());
                assert(table::entries_model(left) == all.skip(done));
                assert(all.skip(done)[0] == all[done]);
                assert(table::entries_model(expired@) =~= table::entries_model(left).drop_first());
                assert(all.skip(done).drop_first() =~= all.skip(done + 1));
                assert(all.take(done + 1).drop_last() =~= all.take(done));
            }
            let peer_id: PeerId = session.peer_id;
            if !session.conversations.is_empty() {
                self.resumable.insert(
                    session_id,
                    ResumableSession { conversations: session.conversations, expires_at },
                );
            }
            add_action(&mut actions, TunnelAction::SessionClosed { peer_id, session_id });
            proof {
                done = done + 1;
            }
        }
        assert(all.take(done) =~= all);
        actions
    }

    /// Forgets expired sessions that can no longer be resumed.
    fn expire_resumable(&mut self, now: Instant) -> (r: Vec<TunnelAction>)
        ensures
            ({
                let test = server_model::still_resumable(now);
                &&& final(self)@ == (ServerModel {
                    resumable: table::retained(old(self)@.resumable, test),
                    ..old(self)@
                })
                &&& action::models(r@) == server_model::recovery_notices(
                    table::discarded(old(self)@.resumable, test),
                )
            }),
    {
        let lost: Vec<(SessionId, ResumableSession)> = self.resumable.extract(
            &StillResumable { now },
        );
        let ghost all = table::entries_model(lost@);
        let mut actions: Vec<TunnelAction> = no_actions();
        let mut i: usize = 0;
        while i < lost.len()
            invariant
                i <= lost@.len(),
                all == table::entries_model(lost@),
                action::models(actions@) =~= server_model::recovery_notices(all.take(i as int)),
            decreases lost@.len() - i,
        {
            let session_id: SessionId = lost[i].0;
            add_action(&mut actions, TunnelAction::SessionRecoveryExpired { session_id });
            i += 1;
        }
        assert(all.take(i as int) =~= all);
        actions
    }

    /// Handles one event with fresh randomness: what happens is what
    /// [`ServerEngine::handle_with`] does for some draw.
    pub fn handle(&mut self, event: TunnelEvent, now: Instant) -> (r: Result<
        Vec<TunnelAction>,
        EngineError,
    >)
        requires
            server_model::server_valid(old(self)@),
        ensures
            server_model::server_valid(final(self)@),
            exists|draws: ServerDraws|
                {
                    &&& server_model::drawn_for(old(self)@, event@, now, draws)
                    &&& #[trigger] server_model::server_step(old(self)@, event@, now, draws) == (
                        final(self)@,
                        action::outcome(r),
                    )
                },
    {
        let entropy: ServerEntropy = self.draw_for(&event, now);
        let ghost draws = entropy@;
        let r = self.handle_with(event, now, entropy);
        assert(server_model::server_step(old(self)@, event@, now, draws) == (
            self@,
            action::outcome(r),
        ));
        r
    }

    /// Draws what an event may use up.
    fn draw_for(&self, event: &TunnelEvent, now: Instant) -> (r: ServerEntropy)
        ensures
            server_model::drawn_for(self@, event@, now, r@),
    {
        let mut credentials: Vec<Option<[u8; 16]>> = Vec::new();
        let frame: WireFrame = match event {
            TunnelEvent::TunnelFrame { peer_id: _, bytes } => match WireFrame::decode(
                bytes.as_slice(),
            ) {
                Ok(frame) => frame,
                Err(_) => {
                    return ServerEntropy { session_id: None, hello: None, credentials };
                },
            },
            _ => {
                return ServerEntropy { session_id: None, hello: None, credentials };
            },
        };
        if frame.frame_type == FrameType::ClientHello {
            return ServerEntropy {
                session_id: self.draw_session_id(),
                hello: AnswerSeed::from_drawn(draw::<32>(), draw::<32>()),
                credentials,
            };
        }
        if frame.frame_type == FrameType::Data {
            match self.sessions.get(frame.session_id) {
                Some(session) => {
                    let due: usize = session.count_due(&self.config, now);
                    let opens: bool = match frame.conversation_id {
                        Some(id) => !session.conversations.contains_key(id),
                        None => false,
                    };
                    let mut i: usize = 0;
                    while i < due
                        invariant
                            i <= due,
                            credentials@.len() == i,
                        decreases due - i,
                    {
                        credentials.push(draw::<16>().ok());
                        i += 1;
                    }
                    if opens {
                        credentials.push(draw::<16>().ok());
                    }
                },
                None => {},
            }
        }
        proof {
            lemma_salts_valid(credentials@);
        }
        ServerEntropy { session_id: None, hello: None, credentials }
    }

    /// What a drawn session identifier is good for: one that is in use is passed
    /// over.
    fn usable(&self, drawn: Result<SessionId, EngineError>) -> (r: Result<
        Option<SessionId>,
        EngineError,
    >)
        ensures
            r == match drawn {
                Ok(candidate) => Ok::<Option<SessionId>, EngineError>(
                    if server_model::session_unused(self@, candidate) {
                        Some(candidate)
                    } else {
                        None
                    },
                ),
                Err(error) => Err(error),
            },
    {
        match drawn {
            Ok(candidate) => {
                if self.is_unused(candidate) {
                    Ok(Some(candidate))
                } else {
                    Ok(None)
                }
            },
            Err(error) => Err(error),
        }
    }

    /// Draws until a session identifier is found that is not in use.
    fn draw_session_id(&self) -> (r: Option<SessionId>)
        ensures
            r matches Some(session_id) ==> server_model::session_unused(self@, session_id),
    {
        let mut tries: u64 = u64::MAX;
        while tries > 0
            decreases tries,
        {
            match self.usable(SessionId::generate()) {
                Ok(Some(session_id)) => {
                    return Some(session_id);
                },
                Ok(None) => {},
                Err(_) => {
                    return None;
                },
            }
            tries -= 1;
        }
        None
    }

    /// Handles one event with given random values.
    pub fn handle_with(
        &mut self,
        event: TunnelEvent,
        now: Instant,
        entropy: ServerEntropy,
    ) -> (r: Result<Vec<TunnelAction>, EngineError>)
        requires
            server_model::server_valid(old(self)@),
        ensures
            server_model::server_valid(final(self)@),
            server_model::server_step(old(self)@, event@, now, entropy@) == (
                final(self)@,
                action::outcome(r),
            ),
    {
        proof {
            server_laws::law_server_stays_valid(self@, event@, now, entropy@);
        }
        match event {
            TunnelEvent::TunnelFrame { peer_id, bytes } => self.handle_tunnel(
                peer_id,
                bytes,
                now,
                entropy,
            ),
            TunnelEvent::ServerDatagram { session_id, conversation_id, payload } =>
                self.handle_upstream(session_id, conversation_id, payload, now),
            TunnelEvent::CloseConversation { session_id, conversation_id } => match session_id {
                Some(session_id) => self.close(session_id, conversation_id),
                None => Err(EngineError::UnknownSession),
            },
            TunnelEvent::TimeAdvanced(at) => Ok(self.expire(at)),
            TunnelEvent::Start => Err(EngineError::InvalidRole),
            TunnelEvent::Reconnect => Err(EngineError::InvalidRole),
            TunnelEvent::ClientDatagram { local_peer: _, payload: _ } => Err(
                EngineError::InvalidRole,
            ),
        }
    }
}

/// Salts that stand in arrays have their length.
proof fn lemma_salts_valid(salts: Seq<Option<[u8; 16]>>)
    ensures
        server_model::salts_valid(salts_model(salts)),
{
}

/// Notices that conversations of a session are closed.
fn closing_notices(session_id: SessionId, gone: &Vec<(ConversationId, ServerConversation)>) -> (r: Vec<
    TunnelAction,
>)
    ensures
        action::models(r@) == server_model::closed_notices(
            session_id,
            table::entries_model(gone@),
        ),
{
    let ghost all = table::entries_model(gone@);
    let mut actions: Vec<TunnelAction> = no_actions();
    let mut i: usize = 0;
    while i < gone.len()
        invariant
            i <= gone@.len(),
            all == table::entries_model(gone@),
            action::models(actions@) =~= server_model::closed_notices(
                session_id,
                all.take(i as int),
            ),
        decreases gone@.len() - i,
    {
        let conversation_id: ConversationId = gone[i].0;
        add_action(
            &mut actions,
            TunnelAction::ConversationClosed { session_id: Some(session_id), conversation_id },
        );
        i += 1;
    }
    assert(all.take(i as int) =~= all);
    actions
}

} // verus!
