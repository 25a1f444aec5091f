//! The client engine.

use std::collections::VecDeque;
use vstd::prelude::*;

use crate::action;
use crate::action::{
    add_action, add_actions, no_actions, one_action, two_actions, ActionModel,
    ClientDatagramDropReason, SessionState, TunnelAction, TunnelEvent,
};
use crate::address::SocketAddress;
use crate::bytes::{copy_of, same_bytes, take_array};
use crate::client_laws;
use crate::client_model;
use crate::client_model::{
    AttemptModel, ClientDraws, ClientModel, ClientSessionModel, ConversationModel, PhaseModel,
    QueuedModel,
};
use crate::config;
use crate::config::{EngineConfig, Role};
use crate::crypto::Direction;
use crate::entropy::draw;
use crate::error::{EngineError, HandshakeError, RecordError, ReplayError};
use crate::handshake;
use crate::handshake::{
    session_keys, ClientFinish, ClientHello, HelloRetry, ResumptionCredential, ServerHello,
    CREDENTIAL_LENGTH,
};
use crate::id::{ConversationId, PeerId, SessionId};
use crate::protocol::{FrameType, WireFrame};
use crate::record::{AuthenticatedFrame, RecordOpener, RecordSealer};
use crate::secret::{wipe, Psk, SecretBytes};
use crate::table;
use crate::table::{Keep, Table};
use crate::time::{Duration, Instant};

verus! {

/// A local peer's conversation.
pub struct ClientConversation {
    id: ConversationId,
    last_activity: Instant,
    resumption: Option<(SessionId, ResumptionCredential)>,
}

impl View for ClientConversation {
    type V = ConversationModel;

    closed spec fn view(&self) -> ConversationModel {
        ConversationModel {
            id: self.id,
            last_activity: self.last_activity,
            resumption: match self.resumption {
                Some((session_id, credential)) => Some((session_id, credential@)),
                None => None,
            },
        }
    }
}

/// A local datagram that waits for a session.
pub struct QueuedClientDatagram {
    local_peer: SocketAddress,
    payload: SecretBytes,
    queued_at: Instant,
}

impl View for QueuedClientDatagram {
    type V = QueuedModel;

    closed spec fn view(&self) -> QueuedModel {
        QueuedModel {
            local_peer: self.local_peer,
            payload: self.payload@,
            queued_at: self.queued_at,
        }
    }
}

/// How far a handshake has come.
enum ClientHandshakePhase {
    AwaitingServerHello,
    AwaitingServerAck { server_hello: ServerHello, finish_bytes: Vec<u8> },
}

impl View for ClientHandshakePhase {
    type V = PhaseModel;

    closed spec fn view(&self) -> PhaseModel {
        match *self {
            ClientHandshakePhase::AwaitingServerHello => PhaseModel::AwaitingServerHello,
            ClientHandshakePhase::AwaitingServerAck { server_hello, finish_bytes } =>
                PhaseModel::AwaitingServerAck { answer: server_hello@, finish_bytes: finish_bytes@ },
        }
    }
}

/// A handshake in progress.
struct ClientHandshake {
    hello: ClientHello,
    phase: ClientHandshakePhase,
    started_at: Instant,
    last_sent_at: Instant,
    attempts: usize,
}

impl View for ClientHandshake {
    type V = AttemptModel;

    closed spec fn view(&self) -> AttemptModel {
        AttemptModel {
            hello: self.hello@,
            phase: self.phase@,
            started_at: self.started_at,
            last_sent_at: self.last_sent_at,
            attempts: self.attempts,
        }
    }
}

/// The client's end of a session.
struct ClientSession {
    id: SessionId,
    sealer: RecordSealer,
    opener: RecordOpener,
    last_received_at: Instant,
    resumed: bool,
}

impl View for ClientSession {
    type V = ClientSessionModel;

    closed spec fn view(&self) -> ClientSessionModel {
        ClientSessionModel {
            id: self.id,
            sealer: self.sealer@,
            opener: self.opener@,
            last_received_at: self.last_received_at,
            resumed: self.resumed,
        }
    }
}

/// The random octets of a hello.
pub struct HelloSeed {
    pub handshake_id: [u8; 16],
    pub client_nonce: [u8; 32],
}

impl HelloSeed {
    /// The seed of which both parts could be drawn.
    pub fn from_drawn(
        handshake_id: Result<[u8; 16], EngineError>,
        client_nonce: Result<[u8; 32], EngineError>,
    ) -> (r: Option<Self>)
        ensures
            r == match (handshake_id, client_nonce) {
                (Ok(handshake_id), Ok(client_nonce)) => Some(
                    HelloSeed { handshake_id, client_nonce },
                ),
                _ => None,
            },
    {
        match (handshake_id, client_nonce) {
            (Ok(handshake_id), Ok(client_nonce)) => Some(
                HelloSeed { handshake_id, client_nonce },
            ),
            _ => None,
        }
    }
}

/// The random values that one event may use up.
pub struct ClientEntropy {
    /// Identifier and nonce for a hello.
    pub hello: Option<HelloSeed>,
    /// One conversation for each datagram that might open one.
    pub conversations: Vec<Option<ConversationId>>,
}

/// The octets of an optional seed.
pub open spec fn seed_model(seed: Option<HelloSeed>) -> Option<(Seq<u8>, Seq<u8>)> {
    match seed {
        Some(seed) => Some((seed.handshake_id@, seed.client_nonce@)),
        None => None,
    }
}

impl View for ClientEntropy {
    type V = ClientDraws;

    open spec fn view(&self) -> ClientDraws {
        ClientDraws { hello: seed_model(self.hello), conversations: self.conversations@ }
    }
}

/// Keeps the conversations that have not been silent for too long.
struct StillBusy {
    now: Instant,
    timeout: Duration,
}

impl Keep<SocketAddress, ClientConversation> for StillBusy {
    closed spec fn test(&self) -> spec_fn(SocketAddress, ConversationModel) -> bool {
        client_model::still_busy(self.now, self.timeout)
    }

    fn keeps(&self, key: SocketAddress, value: &ClientConversation) -> (r: bool) {
        self.now.saturating_duration_since(value.last_activity).as_nanos()
            < self.timeout.as_nanos()
    }
}

/// Synchronous client protocol engine.
pub struct ClientEngine {
    config: EngineConfig,
    psk: Psk,
    server_peer: PeerId,
    state: SessionState,
    handshake: Option<ClientHandshake>,
    session: Option<ClientSession>,
    by_peer: Table<SocketAddress, ClientConversation>,
    by_id: Table<ConversationId, SocketAddress>,
    /// Conversations that are closed, of which the server may still know.
    retired: Vec<ConversationId>,
    queued_datagrams: VecDeque<QueuedClientDatagram>,
}

spec fn attempt_model(attempt: Option<ClientHandshake>) -> Option<AttemptModel> {
    match attempt {
        Some(attempt) => Some(attempt@),
        None => None,
    }
}

spec fn session_model(session: Option<ClientSession>) -> Option<ClientSessionModel> {
    match session {
        Some(session) => Some(session@),
        None => None,
    }
}

spec fn queue_model(queue: Seq<QueuedClientDatagram>) -> Seq<QueuedModel> {
    queue.map_values(|queued: QueuedClientDatagram| queued@)
}

impl View for ClientEngine {
    type V = ClientModel;

    closed spec fn view(&self) -> ClientModel {
        ClientModel {
            config: self.config,
            psk: self.psk@,
            server_peer: self.server_peer,
            state: self.state,
            handshake: attempt_model(self.handshake),
            session: session_model(self.session),
            by_peer: self.by_peer@,
            by_id: self.by_id@,
            retired: self.retired@,
            queue: queue_model(self.queued_datagrams@),
        }
    }
}

impl ClientEngine {
    /// The replay windows have a width.
    spec fn wf(&self) -> bool {
        &&& self@.config.replay_window_size > 0
        &&& self@.session matches Some(session) ==> session.opener.replay.width > 0
    }

    pub fn new(config: EngineConfig, psk: Psk, server_peer: PeerId) -> (r: Result<
        Self,
        EngineError,
    >)
        ensures
            match r {
                Ok(engine) => {
                    &&& config::config_fault(config) is None
                    &&& config.role == Role::Client
                    &&& client_model::client_valid(engine@)
                    &&& engine@ == client_model::new_client(config, psk@, server_peer)
                },
                Err(error) => match config::config_fault(config) {
                    Some(fault) => error == EngineError::Config(fault),
                    None => config.role != Role::Client && error == EngineError::InvalidRole,
                },
            },
    {
        match config.validate() {
            Ok(()) => {},
            Err(error) => {
                return Err(EngineError::Config(error));
            },
        }
        if config.role != Role::Client {
            return Err(EngineError::InvalidRole);
        }
        let engine = ClientEngine {
            config,
            psk,
            server_peer,
            state: SessionState::Idle,
            handshake: None,
            session: None,
            by_peer: Table::new(),
            by_id: Table::new(),
            retired: Vec::new(),
            queued_datagrams: VecDeque::new(),
        };
        assert(engine@ =~= client_model::new_client(config, psk@, server_peer));
        Ok(engine)
    }

    pub fn state(&self) -> (r: SessionState)
        ensures
            r == self@.state,
    {
        self.state
    }

    pub fn session_id(&self) -> (r: Option<SessionId>)
        ensures
            r == client_model::current_session(self@),
    {
        match &self.session {
            Some(session) => Some(session.id),
            None => None,
        }
    }

    fn is_handshaking(&self) -> (r: bool)
        ensures
            r == client_model::in_handshake(self@.state),
    {
        match self.state {
            SessionState::Handshaking | SessionState::Reconnecting => true,
            _ => false,
        }
    }

    /// Handles one event with fresh randomness: what happens is what
    /// [`ClientEngine::handle_with`] does for some draw.
    pub fn handle(&mut self, event: TunnelEvent, now: Instant) -> (r: Result<
        Vec<TunnelAction>,
        EngineError,
    >)
        requires
            client_model::client_valid(old(self)@),
        ensures
            client_model::client_valid(final(self)@),
            exists|draws: ClientDraws|
                {
                    &&& client_model::drawn_for(old(self)@, event@, now, draws)
                    &&& #[trigger] client_model::client_step(old(self)@, event@, now, draws) == (
                        final(self)@,
                        action::outcome(r),
                    )
                },
    {
        let entropy: ClientEntropy = self.draw_for(&event, now);
        let ghost draws = entropy@;
        let r = self.handle_with(event, now, entropy);
        assert(client_model::client_step(old(self)@, event@, now, draws) == (
            self@,
            action::outcome(r),
        ));
        r
    }

    /// Whether the server has been silent for so long that the session may be dead.
    fn is_stale(&self, now: Instant) -> (r: bool)
        ensures
            r == client_model::stale(self@, now),
    {
        match &self.session {
            Some(session) => now.saturating_duration_since(session.last_received_at).as_nanos()
                > self.config.session_timeout.as_nanos(),
            None => false,
        }
    }

    /// Draws what an event may use up.
    fn draw_for(&self, event: &TunnelEvent, now: Instant) -> (r: ClientEntropy)
        ensures
            client_model::drawn_for(self@, event@, now, r@),
    {
        let mut conversations: Vec<Option<ConversationId>> = Vec::new();
        match event {
            TunnelEvent::Start => {
                let hello: Option<HelloSeed> = if self.state == SessionState::Idle {
                    HelloSeed::from_drawn(draw::<16>(), draw::<32>())
                } else {
                    None
                };
                ClientEntropy { hello, conversations }
            },
            TunnelEvent::Reconnect => {
                let hello: Option<HelloSeed> = if self.state == SessionState::Ready {
                    HelloSeed::from_drawn(draw::<16>(), draw::<32>())
                } else {
                    None
                };
                ClientEntropy { hello, conversations }
            },
            TunnelEvent::ClientDatagram { local_peer, payload: _ } => {
                if self.state != SessionState::Ready {
                    return ClientEntropy { hello: None, conversations };
                }
                if self.is_stale(now) {
                    return ClientEntropy {
                        hello: HelloSeed::from_drawn(draw::<16>(), draw::<32>()),
                        conversations,
                    };
                }
                if !self.by_peer.contains_key(*local_peer) {
                    let id: Option<ConversationId> = self.draw_conversation(&conversations);
                    conversations.push(id);
                }
                ClientEntropy { hello: None, conversations }
            },
            TunnelEvent::TunnelFrame { peer_id: _, bytes: _ } => {
                if self.is_handshaking() {
                    let count: usize = self.queued_datagrams.len();
                    let mut i: usize = 0;
                    while i < count
                        invariant
                            i <= count,
                            conversations@.len() == i,
                            client_model::conversations_valid(self@, conversations@),
                        decreases count - i,
                    {
                        let id: Option<ConversationId> = self.draw_conversation(&conversations);
                        conversations.push(id);
                        i += 1;
                    }
                }
                ClientEntropy { hello: None, conversations }
            },
            _ => ClientEntropy { hello: None, conversations },
        }
    }

    /// Whether an identifier may stand for a new conversation.
    fn is_unused(&self, id: ConversationId) -> (r: bool)
        ensures
            r == client_model::conversation_unused(self@, id),
    {
        if self.by_id.contains_key(id) {
            return false;
        }
        let mut i: usize = 0;
        while i < self.retired.len()
            invariant
                i <= self.retired@.len(),
                forall|j: int| 0 <= j < i ==> self.retired@[j] != id,
            decreases self.retired@.len() - i,
        {
            if self.retired[i] == id {
                assert(self.retired@[i as int] == id);
                return false;
            }
            i += 1;
        }
        true
    }

    /// A drawn conversation if it may be opened: its identifier is neither in use nor
    /// drawn already.
    fn usable(
        &self,
        earlier: &Vec<Option<ConversationId>>,
        drawn: Result<ConversationId, EngineError>,
    ) -> (r: Result<Option<ConversationId>, EngineError>)
        ensures
            r == match drawn {
                Ok(id) => Ok::<Option<ConversationId>, EngineError>(
                    if client_model::conversation_unused(self@, id) && !earlier@.contains(
                        Some(id),
                    ) {
                        Some(id)
                    } else {
                        None
                    },
                ),
                Err(error) => Err(error),
            },
    {
        match drawn {
            Ok(id) => {
                if self.is_unused(id) && !is_among(earlier, id) {
                    Ok(Some(id))
                } else {
                    Ok(None)
                }
            },
            Err(error) => Err(error),
        }
    }

    /// A conversation whose identifier is neither in use nor drawn already, where one
    /// could be drawn.
    fn draw_conversation(&self, earlier: &Vec<Option<ConversationId>>) -> (r: Option<
        ConversationId,
    >)
        ensures
            r matches Some(id) ==> id.number() != 0 && client_model::conversation_unused(self@, id)
                && !earlier@.contains(Some(id)),
    {
        let mut tries: u64 = u64::MAX;
        while tries > 0
            decreases tries,
        {
            match self.usable(earlier, ConversationId::generate()) {
                Ok(Some(id)) => {
                    return Some(id);
                },
                Ok(None) => {},
                Err(_) => {
                    return None;
                },
            }
            tries -= 1;
        }
        None
    }

    /// Handles one event with given random values.
    pub fn handle_with(
        &mut self,
        event: TunnelEvent,
        now: Instant,
        entropy: ClientEntropy,
    ) -> (r: Result<Vec<TunnelAction>, EngineError>)
        requires
            client_model::client_valid(old(self)@),
        ensures
            client_model::client_valid(final(self)@),
            client_model::client_step(old(self)@, event@, now, entropy@) == (
                final(self)@,
                action::outcome(r),
            ),
    {
        proof {
            client_laws::law_client_stays_valid(self@, event@, now, entropy@);
        }
        match event {
            TunnelEvent::Start => self.start(now, entropy.hello),
            TunnelEvent::Reconnect => self.reconnect(now, entropy.hello),
            TunnelEvent::ClientDatagram { local_peer, payload } => {
                let conversation: Option<ConversationId> = drawn_at(&entropy.conversations, 0);
                self.handle_local(local_peer, payload, now, entropy.hello, conversation)
            },
            TunnelEvent::TunnelFrame { peer_id, bytes } => self.handle_tunnel(
                peer_id,
                bytes,
                now,
                &entropy.conversations,
            ),
            TunnelEvent::TimeAdvanced(at) => Ok(self.expire(at)),
            TunnelEvent::CloseConversation { session_id, conversation_id } => {
                if session_id.is_some() && !same_session(session_id, self.session_id()) {
                    return Err(EngineError::UnknownSession);
                }
                Ok(self.close(conversation_id))
            },
            TunnelEvent::ServerDatagram { session_id: _, conversation_id: _, payload: _ } => Err(
                EngineError::InvalidRole,
            ),
        }
    }

    fn start(&mut self, now: Instant, seed: Option<HelloSeed>) -> (r: Result<
        Vec<TunnelAction>,
        EngineError,
    >)
        requires
            old(self).wf(),
        ensures
            final(self).wf(),
            client_model::start(old(self)@, now, seed_model(seed)) == (
                final(self)@,
                action::outcome(r),
            ),
    {
        if self.state != SessionState::Idle {
            return Err(EngineError::SessionNotReady);
        }
        self.begin_handshake(now, SessionState::Handshaking, seed)
    }

    fn reconnect(&mut self, now: Instant, seed: Option<HelloSeed>) -> (r: Result<
        Vec<TunnelAction>,
        EngineError,
    >)
        requires
            old(self).wf(),
        ensures
            final(self).wf(),
            client_model::reconnect(old(self)@, now, seed_model(seed)) == (
                final(self)@,
                action::outcome(r),
            ),
    {
        if self.state != SessionState::Ready {
            return Err(EngineError::SessionNotReady);
        }
        Ok(self.begin_reconnect(now, seed))
    }

    /// The credential that a reconnecting client presents.
    fn resumption_offer(&self) -> (r: Option<ResumptionCredential>)
        ensures
            handshake::credential_model(r) == client_model::resumption_offer(self@.by_peer),
    {
        if self.by_peer.len() == 0 {
            return None;
        }
        let first: (SessionId, ResumptionCredential) = match self.by_peer.value_at(0).resumption {
            Some(held) => held,
            None => {
                return None;
            },
        };
        let mut i: usize = 0;
        while i < self.by_peer.len()
            invariant
                i <= self.by_peer@.len(),
                self.by_peer@.len() > 0,
                self.by_peer@[0].1.resumption == Some((first.0, first.1@)),
                forall|j: int|
                    0 <= j < i ==> ((#[trigger] self.by_peer@[j]).1.resumption matches Some(held)
                        && held.0 == first.0),
            decreases self.by_peer@.len() - i,
        {
            match self.by_peer.value_at(i).resumption {
                Some(held) => {
                    if held.0 != first.0 {
                        assert(!(self.by_peer@[i as int].1.resumption matches Some(found)
                            && found.0 == first.0));
                        return None;
                    }
                },
                None => {
                    assert(self.by_peer@[i as int].1.resumption is None);
                    return None;
                },
            }
            i += 1;
        }
        Some(first.1)
    }

    fn begin_handshake(&mut self, now: Instant, state: SessionState, seed: Option<HelloSeed>) -> (r:
        Result<Vec<TunnelAction>, EngineError>)
        requires
            old(self).wf(),
        ensures
            final(self).wf(),
            client_model::begin_handshake(old(self)@, now, state, seed_model(seed)) == (
                final(self)@,
                action::outcome(r),
            ),
    {
        let seed: HelloSeed = match seed {
            Some(seed) => seed,
            None => {
                return Err(EngineError::RandomnessUnavailable);
            },
        };
        let resumption: Option<ResumptionCredential> = if state == SessionState::Reconnecting {
            self.resumption_offer()
        } else {
            None
        };
        let hello = ClientHello {
            handshake_id: seed.handshake_id,
            client_nonce: seed.client_nonce,
            suite: self.config.cipher_suite,
            cookie: None,
            resumption,
        };
        let bytes: Vec<u8> = match hello.frame().encode() {
            Ok(bytes) => bytes,
            Err(error) => {
                return Err(EngineError::Frame(error));
            },
        };
        self.handshake = Some(
            ClientHandshake {
                hello,
                phase: ClientHandshakePhase::AwaitingServerHello,
                started_at: now,
                last_sent_at: now,
                attempts: 1,
            },
        );
        self.state = state;
        Ok(
            two_actions(
                TunnelAction::SendTunnelFrame { peer_id: self.server_peer, bytes },
                TunnelAction::ScheduleTimer(self.config.handshake_retry_interval),
            ),
        )
    }

    fn begin_reconnect(&mut self, now: Instant, seed: Option<HelloSeed>) -> (r: Vec<TunnelAction>)
        requires
            old(self).wf(),
        ensures
            final(self).wf(),
            client_model::begin_reconnect(old(self)@, now, seed_model(seed)) == (
                final(self)@,
                action::models(r@),
            ),
    {
        let mut actions: Vec<TunnelAction> = no_actions();
        match self.session.take() {
            Some(session) => {
                add_action(
                    &mut actions,
                    TunnelAction::SessionClosed {
                        peer_id: self.server_peer,
                        session_id: session.id,
                    },
                );
            },
            None => {},
        }
        self.handshake = None;
        match self.begin_handshake(now, SessionState::Reconnecting, seed) {
            Ok(handshake_actions) => {
                add_actions(&mut actions, handshake_actions);
            },
            Err(_) => {
                self.state = SessionState::Closed;
            },
        }
        actions
    }

    fn handle_local(
        &mut self,
        local_peer: SocketAddress,
        payload: Vec<u8>,
        now: Instant,
        hello: Option<HelloSeed>,
        conversation: Option<ConversationId>,
    ) -> (r: Result<Vec<TunnelAction>, EngineError>)
        requires
            old(self).wf(),
        ensures
            final(self).wf(),
            client_model::handle_local(
                old(self)@,
                local_peer,
                payload@,
                now,
                seed_model(hello),
                conversation,
            ) == (final(self)@, action::outcome(r)),
    {
        if payload.len() > self.config.max_frame_payload {
            return Err(EngineError::PayloadTooLarge);
        }
        if self.state == SessionState::Ready {
            if self.is_stale(now) {
                return Ok(self.reconnect_for(local_peer, payload, now, hello));
            }
            return self.send_local(local_peer, payload, now, conversation);
        }
        if self.is_handshaking() {
            return Ok(self.enqueue(local_peer, payload, now));
        }
        Err(EngineError::SessionNotReady)
    }

    /// Puts a local datagram into the bounded queue.
    fn enqueue(&mut self, local_peer: SocketAddress, payload: Vec<u8>, now: Instant) -> (r: Vec<
        TunnelAction,
    >)
        requires
            old(self).wf(),
        ensures
            final(self).wf(),
            client_model::enqueue(old(self)@, local_peer, payload@, now) == (
                final(self)@,
                action::models(r@),
            ),
    {
        if self.queued_datagrams.len() >= self.config.reconnect_queue_capacity {
            return one_action(
                TunnelAction::ClientDatagramDropped {
                    local_peer,
                    reason: ClientDatagramDropReason::ReconnectQueueFull,
                },
            );
        }
        self.queued_datagrams.push_back(
            QueuedClientDatagram {
                local_peer,
                payload: SecretBytes::new(payload),
                queued_at: now,
            },
        );
        assert(self@.queue =~= old(self)@.queue.push(
            QueuedModel { local_peer, payload: payload@, queued_at: now },
        ));
        one_action(TunnelAction::ScheduleTimer(self.config.reconnect_queue_timeout))
    }

    /// Gives up a stale session for a local datagram, which waits for the new one.
    fn reconnect_for(
        &mut self,
        local_peer: SocketAddress,
        payload: Vec<u8>,
        now: Instant,
        hello: Option<HelloSeed>,
    ) -> (r: Vec<TunnelAction>)
        requires
            old(self).wf(),
        ensures
            final(self).wf(),
            client_model::reconnect_for(
                old(self)@,
                local_peer,
                payload@,
                now,
                seed_model(hello),
            ) == (final(self)@, action::models(r@)),
    {
        let mut actions: Vec<TunnelAction> = self.begin_reconnect(now, hello);
        if self.is_handshaking() {
            let queued: Vec<TunnelAction> = self.enqueue(local_peer, payload, now);
            add_actions(&mut actions, queued);
        } else {
            let mut payload: Vec<u8> = payload;
            wipe(&mut payload);
            add_action(
                &mut actions,
                TunnelAction::ClientDatagramDropped {
                    local_peer,
                    reason: ClientDatagramDropReason::SessionClosed,
                },
            );
        }
        actions
    }

    /// Sends a local datagram over the session if it is not too long.
    fn send_checked(
        &mut self,
        local_peer: SocketAddress,
        payload: Vec<u8>,
        now: Instant,
        conversation: Option<ConversationId>,
    ) -> (r: Result<Vec<TunnelAction>, EngineError>)
        requires
            old(self).wf(),
        ensures
            final(self).wf(),
            client_model::send_checked(old(self)@, local_peer, payload@, now, conversation) == (
                final(self)@,
                action::outcome(r),
            ),
    {
        if payload.len() > self.config.max_frame_payload {
            return Err(EngineError::PayloadTooLarge);
        }
        self.send_local(local_peer, payload, now, conversation)
    }

    /// Sends a local datagram over the session.
    fn send_local(
        &mut self,
        local_peer: SocketAddress,
        payload: Vec<u8>,
        now: Instant,
        conversation: Option<ConversationId>,
    ) -> (r: Result<Vec<TunnelAction>, EngineError>)
        requires
            old(self).wf(),
        ensures
            final(self).wf(),
            client_model::send_local(old(self)@, local_peer, payload@, now, conversation) == (
                final(self)@,
                action::outcome(r),
            ),
    {
        match self.by_peer.find(local_peer) {
            Some(at) => {
                proof {
                    table::lemma_position(self@.by_peer, local_peer);
                }
                let known: &mut ClientConversation = self.by_peer.value_at_mut(at);
                known.last_activity = now;
                let id: ConversationId = known.id;
                assert(self@.by_peer =~= table::put(
                    old(self)@.by_peer,
                    local_peer,
                    ConversationModel {
                        last_activity: now,
                        ..table::lookup(old(self)@.by_peer, local_peer)->Some_0
                    },
                ));
                self.send_data(id, payload, no_actions())
            },
            None => {
                if self.by_peer.len() >= self.config.max_conversations {
                    return Err(EngineError::ConversationCapacity);
                }
                let id: ConversationId = match conversation {
                    Some(id) => id,
                    None => {
                        return Err(EngineError::RandomnessUnavailable);
                    },
                };
                if !self.is_unused(id) {
                    return Err(EngineError::RandomnessUnavailable);
                }
                let opened = TunnelAction::ConversationOpened {
                    session_id: self.session_id(),
                    conversation_id: id,
                };
                self.by_peer.insert(
                    local_peer,
                    ClientConversation { id, last_activity: now, resumption: None },
                );
                self.by_id.insert(id, local_peer);
                self.send_data(id, payload, one_action(opened))
            },
        }
    }

    /// Seals a payload of a known conversation.
    fn send_data(
        &mut self,
        conversation_id: ConversationId,
        payload: Vec<u8>,
        earlier: Vec<TunnelAction>,
    ) -> (r: Result<Vec<TunnelAction>, EngineError>)
        requires
            old(self).wf(),
        ensures
            final(self).wf(),
            client_model::send_data(
                old(self)@,
                conversation_id,
                payload@,
                action::models(earlier@),
            ) == (final(self)@, action::outcome(r)),
    {
        let mut payload: Vec<u8> = payload;
        let mut actions: Vec<TunnelAction> = earlier;
        let sealed: Result<Vec<u8>, RecordError> = match &mut self.session {
            Some(session) => session.sealer.seal(
                FrameType::Data,
                Some(conversation_id),
                payload.as_slice(),
            ),
            None => {
                return Err(EngineError::SessionNotReady);
            },
        };
        wipe(&mut payload);
        match sealed {
            Ok(bytes) => {
                add_action(
                    &mut actions,
                    TunnelAction::SendTunnelFrame { peer_id: self.server_peer, bytes },
                );
                Ok(actions)
            },
            Err(error) => Err(EngineError::Record(error)),
        }
    }

    fn handle_tunnel(
        &mut self,
        peer_id: PeerId,
        bytes: Vec<u8>,
        now: Instant,
        conversations: &Vec<Option<ConversationId>>,
    ) -> (r: Result<Vec<TunnelAction>, EngineError>)
        requires
            old(self).wf(),
        ensures
            final(self).wf(),
            client_model::handle_tunnel(old(self)@, peer_id, bytes@, now, conversations@) == (
                final(self)@,
                action::outcome(r),
            ),
    {
        if peer_id != self.server_peer {
            return Err(EngineError::UnexpectedPeer);
        }
        let envelope: WireFrame = match WireFrame::decode(bytes.as_slice()) {
            Ok(envelope) => envelope,
            Err(error) => {
                return Err(EngineError::Frame(error));
            },
        };
        if envelope.frame_type == FrameType::HelloRetry {
            return self.handle_hello_retry(&envelope, now);
        }
        if envelope.frame_type == FrameType::ServerHello {
            return self.handle_server_hello(&envelope, now);
        }
        self.handle_protected(&envelope, bytes, now, conversations)
    }

    /// Opens a protected frame.
    fn handle_protected(
        &mut self,
        envelope: &WireFrame,
        bytes: Vec<u8>,
        now: Instant,
        conversations: &Vec<Option<ConversationId>>,
    ) -> (r: Result<Vec<TunnelAction>, EngineError>)
        requires
            old(self).wf(),
        ensures
            final(self).wf(),
            client_model::handle_protected(
                old(self)@,
                envelope@,
                bytes@,
                now,
                conversations@,
            ) == (final(self)@, action::outcome(r)),
    {
        if self.state != SessionState::Ready && !self.is_handshaking() {
            return Err(EngineError::SessionNotReady);
        }
        let was_handshaking: bool = self.is_handshaking();
        let opened: Result<AuthenticatedFrame, RecordError> = match &mut self.session {
            Some(session) => session.opener.open(bytes.as_slice()),
            None => {
                return Err(EngineError::SessionNotReady);
            },
        };
        let frame: AuthenticatedFrame = match opened {
            Ok(frame) => frame,
            Err(RecordError::Replay(ReplayError::Duplicate)) => {
                if envelope.frame_type == FrameType::HandshakeAck && self.state
                    == SessionState::Ready {
                    return Ok(no_actions());
                }
                return Err(EngineError::Record(RecordError::Replay(ReplayError::Duplicate)));
            },
            Err(error) => {
                return Err(EngineError::Record(error));
            },
        };
        if frame.frame_type == FrameType::HandshakeAck {
            if !was_handshaking {
                return Ok(no_actions());
            }
            return Ok(self.establish(now, conversations));
        }
        if self.state != SessionState::Ready {
            return Err(EngineError::SessionNotReady);
        }
        let session_id: SessionId = match &mut self.session {
            Some(session) => {
                session.last_received_at = now;
                session.id
            },
            None => {
                return Err(EngineError::SessionNotReady);
            },
        };
        self.receive_record(session_id, frame, now)
    }

    /// Takes a record of a ready session.
    fn receive_record(
        &mut self,
        session_id: SessionId,
        frame: AuthenticatedFrame,
        now: Instant,
    ) -> (r: Result<Vec<TunnelAction>, EngineError>)
        requires
            old(self).wf(),
        ensures
            final(self).wf(),
            client_model::receive_record(old(self)@, session_id, frame@, now) == (
                final(self)@,
                action::outcome(r),
            ),
    {
        if frame.frame_type != FrameType::Data && frame.frame_type
            != FrameType::ResumptionCredential {
            return Ok(no_actions());
        }
        let id: ConversationId = match frame.conversation_id {
            Some(id) => id,
            None => {
                return Err(EngineError::UnknownConversation);
            },
        };
        let local_peer: SocketAddress = match self.by_id.get(id) {
            Some(local_peer) => *local_peer,
            None => {
                return Err(EngineError::UnknownConversation);
            },
        };
        if frame.frame_type == FrameType::ResumptionCredential {
            if frame.plaintext.len() != CREDENTIAL_LENGTH {
                return Err(EngineError::Handshake(HandshakeError::InvalidResumptionCredential));
            }
            assert(frame.plaintext@.subrange(0, 76) =~= frame.plaintext@);
            let credential = ResumptionCredential::from_bytes(
                take_array::<76>(frame.plaintext.as_slice(), 0),
            );
            match self.by_peer.find(local_peer) {
                Some(at) => {
                    proof {
                        table::lemma_position(self@.by_peer, local_peer);
                    }
                    let known: &mut ClientConversation = self.by_peer.value_at_mut(at);
                    known.resumption = Some((session_id, credential));
                    known.last_activity = now;
                    assert(self@.by_peer =~= client_model::credited(
                        old(self)@.by_peer,
                        local_peer,
                        session_id,
                        frame.plaintext@,
                        now,
                    ));
                },
                None => {},
            }
            return Ok(no_actions());
        }
        match self.by_peer.find(local_peer) {
            Some(at) => {
                proof {
                    table::lemma_position(self@.by_peer, local_peer);
                }
                let known: &mut ClientConversation = self.by_peer.value_at_mut(at);
                known.last_activity = now;
                assert(self@.by_peer =~= client_model::touched(
                    old(self)@.by_peer,
                    local_peer,
                    now,
                ));
            },
            None => {},
        }
        Ok(one_action(TunnelAction::DeliverToClient { local_peer, payload: frame.plaintext }))
    }

    /// The session is ready: closes stale conversations and sends the queue.
    fn establish(&mut self, now: Instant, conversations: &Vec<Option<ConversationId>>) -> (r: Vec<
        TunnelAction,
    >)
        requires
            old(self).wf(),
            old(self)@.session is Some,
        ensures
            final(self).wf(),
            client_model::establish(
                old(self)@,
                old(self)@.session->Some_0,
                now,
                conversations@,
            ) == (
                final(self)@,
                Ok::<Seq<ActionModel>, EngineError>(action::models(r@)),
            ),
    {
        let attempted_resumption: bool = match &self.handshake {
            Some(attempt) => attempt.hello.resumption.is_some(),
            None => false,
        };
        let mut actions: Vec<TunnelAction> = no_actions();
        match &mut self.session {
            Some(session) => {
                session.last_received_at = now;
                let session_id: SessionId = session.id;
                let resumed: bool = session.resumed;
                self.handshake = None;
                self.state = SessionState::Ready;
                if attempted_resumption && !resumed {
                    actions = self.close_all();
                }
                if !resumed {
                    self.retired.clear();
                }
                add_action(
                    &mut actions,
                    TunnelAction::SessionEstablished {
                        peer_id: self.server_peer,
                        session_id,
                        cipher_suite: self.config.cipher_suite,
                        resumed,
                    },
                );
            },
            None => {
                return actions;
            },
        }
        let timer = TunnelAction::ScheduleTimer(self.config.session_timeout);
        let flushed: Vec<TunnelAction> = self.flush_queued_datagrams(now, conversations);
        add_actions(&mut actions, flushed);
        add_action(&mut actions, timer);
        actions
    }

    /// Closes every conversation without a session.
    fn close_all(&mut self) -> (r: Vec<TunnelAction>)
        requires
            old(self).wf(),
        ensures
            final(self).wf(),
            final(self)@ == (ClientModel {
                by_peer: Seq::empty(),
                by_id: Seq::empty(),
                ..old(self)@
            }),
            action::models(r@) == client_model::closed_notices(None, old(self)@.by_peer),
    {
        let mut actions: Vec<TunnelAction> = no_actions();
        let mut i: usize = 0;
        while i < self.by_peer.len()
            invariant
                i <= self.by_peer@.len(),
                *self == *old(self),
                action::models(actions@) =~= client_model::closed_notices(
                    None,
                    self.by_peer@.take(i as int),
                ),
            decreases self.by_peer@.len() - i,
        {
            let conversation_id: ConversationId = self.by_peer.value_at(i).id;
            add_action(
                &mut actions,
                TunnelAction::ConversationClosed { session_id: None, conversation_id },
            );
            i += 1;
        }
        assert(self.by_peer@.take(i as int) =~= self.by_peer@);
        self.by_peer.clear();
        self.by_id.clear();
        actions
    }

    fn handle_hello_retry(&mut self, frame: &WireFrame, now: Instant) -> (r: Result<
        Vec<TunnelAction>,
        EngineError,
    >)
        requires
            old(self).wf(),
        ensures
            final(self).wf(),
            client_model::handle_hello_retry(old(self)@, frame@, now) == (
                final(self)@,
                action::outcome(r),
            ),
    {
        if !self.is_handshaking() {
            return Err(EngineError::Handshake(HandshakeError::UnexpectedMessage));
        }
        match &mut self.handshake {
            None => Err(EngineError::SessionNotReady),
            Some(attempt) => {
                match &attempt.phase {
                    ClientHandshakePhase::AwaitingServerHello => {},
                    ClientHandshakePhase::AwaitingServerAck { server_hello: _, finish_bytes: _ } => {
                        return Err(EngineError::Handshake(HandshakeError::UnexpectedMessage));
                    },
                }
                let retry: HelloRetry = match HelloRetry::decode(frame) {
                    Ok(retry) => retry,
                    Err(error) => {
                        return Err(EngineError::Handshake(error));
                    },
                };
                let hello: ClientHello = match retry.verify_and_apply(&self.psk, &attempt.hello) {
                    Ok(hello) => hello,
                    Err(error) => {
                        return Err(EngineError::Handshake(error));
                    },
                };
                attempt.hello = hello;
                let bytes: Vec<u8> = match hello.frame().encode() {
                    Ok(bytes) => bytes,
                    Err(error) => {
                        return Err(EngineError::Frame(error));
                    },
                };
                attempt.last_sent_at = now;
                attempt.attempts = attempt.attempts.saturating_add(1);
                Ok(
                    two_actions(
                        TunnelAction::SendTunnelFrame { peer_id: self.server_peer, bytes },
                        TunnelAction::ScheduleTimer(self.config.handshake_retry_interval),
                    ),
                )
            },
        }
    }

    fn handle_server_hello(&mut self, frame: &WireFrame, now: Instant) -> (r: Result<
        Vec<TunnelAction>,
        EngineError,
    >)
        requires
            old(self).wf(),
        ensures
            final(self).wf(),
            client_model::handle_server_hello(old(self)@, frame@, now) == (
                final(self)@,
                action::outcome(r),
            ),
    {
        if !self.is_handshaking() {
            return Err(EngineError::Handshake(HandshakeError::UnexpectedMessage));
        }
        let current_session_id: Option<SessionId> = self.session_id();
        match &mut self.handshake {
            None => Err(EngineError::SessionNotReady),
            Some(attempt) => {
                let server_hello: ServerHello = match ServerHello::decode(frame) {
                    Ok(server_hello) => server_hello,
                    Err(error) => {
                        return Err(EngineError::Handshake(error));
                    },
                };
                match server_hello.verify(&self.psk, &attempt.hello, frame.session_id) {
                    Ok(()) => {},
                    Err(error) => {
                        return Err(EngineError::Handshake(error));
                    },
                }
                match &attempt.phase {
                    ClientHandshakePhase::AwaitingServerAck {
                        server_hello: expected,
                        finish_bytes,
                    } => {
                        if !same_bytes(
                            expected.encode_payload().as_slice(),
                            server_hello.encode_payload().as_slice(),
                        ) || !same_session(current_session_id, Some(frame.session_id)) {
                            return Err(EngineError::Handshake(HandshakeError::UnexpectedMessage));
                        }
                        let bytes: Vec<u8> = copy_of(finish_bytes.as_slice());
                        attempt.last_sent_at = now;
                        attempt.attempts = attempt.attempts.saturating_add(1);
                        return Ok(
                            two_actions(
                                TunnelAction::SendTunnelFrame { peer_id: self.server_peer, bytes },
                                TunnelAction::ScheduleTimer(self.config.handshake_retry_interval),
                            ),
                        );
                    },
                    ClientHandshakePhase::AwaitingServerHello => {},
                }
                let finish: ClientFinish = match ClientFinish::create(
                    &self.psk,
                    &attempt.hello,
                    &server_hello,
                    frame.session_id,
                ) {
                    Ok(finish) => finish,
                    Err(error) => {
                        return Err(EngineError::Crypto(error));
                    },
                };
                let finish_bytes: Vec<u8> = match finish.frame(frame.session_id).encode() {
                    Ok(bytes) => bytes,
                    Err(error) => {
                        return Err(EngineError::Frame(error));
                    },
                };
                let keys = match session_keys(
                    &self.psk,
                    &attempt.hello,
                    &server_hello,
                    frame.session_id,
                ) {
                    Ok(keys) => keys,
                    Err(error) => {
                        return Err(EngineError::Crypto(error));
                    },
                };
                let bytes: Vec<u8> = copy_of(finish_bytes.as_slice());
                self.session = Some(
                    ClientSession {
                        id: frame.session_id,
                        sealer: RecordSealer::new(
                            self.config.cipher_suite,
                            Direction::ClientToServer,
                            frame.session_id,
                            keys.client_to_server,
                        ),
                        opener: RecordOpener::new(
                            self.config.cipher_suite,
                            Direction::ServerToClient,
                            frame.session_id,
                            keys.server_to_client,
                            self.config.replay_window_size,
                        ),
                        last_received_at: now,
                        resumed: server_hello.resumed,
                    },
                );
                attempt.phase = ClientHandshakePhase::AwaitingServerAck {
                    server_hello,
                    finish_bytes,
                };
                attempt.last_sent_at = now;
                attempt.attempts = attempt.attempts.saturating_add(1);
                Ok(
                    two_actions(
                        TunnelAction::SendTunnelFrame { peer_id: self.server_peer, bytes },
                        TunnelAction::ScheduleTimer(self.config.handshake_retry_interval),
                    ),
                )
            },
        }
    }

    fn expire(&mut self, now: Instant) -> (r: Vec<TunnelAction>)
        requires
            old(self).wf(),
        ensures
            final(self).wf(),
            client_model::expire(old(self)@, now) == (
                final(self)@,
                action::models(r@),
            ),
    {
        let mut actions: Vec<TunnelAction> = if self.is_handshaking() {
            self.expire_handshake(now)
        } else {
            no_actions()
        };
        let ghost first = (self@, action::models(actions@));
        let queue_actions: Vec<TunnelAction> = self.expire_queued_datagrams(now);
        add_actions(&mut actions, queue_actions);
        let idle_actions: Vec<TunnelAction> = self.expire_conversations(now);
        add_actions(&mut actions, idle_actions);
        actions
    }

    /// Gives a handshake up, or sends its pending message again when it is due.
    fn expire_handshake(&mut self, now: Instant) -> (r: Vec<TunnelAction>)
        requires
            old(self).wf(),
        ensures
            final(self).wf(),
            client_model::expire_handshake(old(self)@, now) == (
                final(self)@,
                action::models(r@),
            ),
    {
        let retry_interval: u128 = self.config.handshake_retry_interval.as_nanos();
        let should_close: bool = match &self.handshake {
            Some(attempt) => now.saturating_duration_since(attempt.started_at).as_nanos()
                >= self.config.handshake_timeout.as_nanos() || (attempt.attempts
                >= self.config.handshake_max_attempts && now.saturating_duration_since(
                attempt.last_sent_at,
            ).as_nanos() >= retry_interval),
            None => {
                return no_actions();
            },
        };
        if should_close {
            let closed_session: Option<ClientSession> = self.session.take();
            self.handshake = None;
            self.state = SessionState::Closed;
            let mut actions: Vec<TunnelAction> = self.clear_queued_datagrams(
                ClientDatagramDropReason::SessionClosed,
            );
            match closed_session {
                Some(session) => {
                    add_action(
                        &mut actions,
                        TunnelAction::SessionClosed {
                            peer_id: self.server_peer,
                            session_id: session.id,
                        },
                    );
                },
                None => {},
            }
            return actions;
        }
        match &mut self.handshake {
            Some(attempt) => {
                if now.saturating_duration_since(attempt.last_sent_at).as_nanos() < retry_interval
                    || attempt.attempts >= self.config.handshake_max_attempts {
                    return no_actions();
                }
                let bytes: Vec<u8> = match &attempt.phase {
                    ClientHandshakePhase::AwaitingServerHello => match attempt.hello.frame().encode() {
                        Ok(bytes) => bytes,
                        Err(_) => {
                            return no_actions();
                        },
                    },
                    ClientHandshakePhase::AwaitingServerAck { server_hello: _, finish_bytes } =>
                        copy_of(finish_bytes.as_slice()),
                };
                attempt.last_sent_at = now;
                attempt.attempts = attempt.attempts + 1;
                two_actions(
                    TunnelAction::SendTunnelFrame { peer_id: self.server_peer, bytes },
                    TunnelAction::ScheduleTimer(self.config.handshake_retry_interval),
                )
            },
            None => no_actions(),
        }
    }

    /// Sends the queue in the order in which it was filled.
    fn flush_queued_datagrams(
        &mut self,
        now: Instant,
        conversations: &Vec<Option<ConversationId>>,
    ) -> (r: Vec<TunnelAction>)
        requires
            old(self).wf(),
            old(self)@.state == SessionState::Ready,
        ensures
            final(self).wf(),
            client_model::flush_queue(
                old(self)@,
                now,
                conversations@,
                0,
                old(self)@.queue.len(),
            ) == (final(self)@, action::models(r@)),
    {
        let mut actions: Vec<TunnelAction> = no_actions();
        let mut i: usize = 0;
        let count: usize = self.queued_datagrams.len();
        let ghost total = client_model::flush_queue(
            self@,
            now,
            conversations@,
            0,
            self@.queue.len(),
        );
        while self.queued_datagrams.len() > 0
            invariant
                self.wf(),
                self@.state == SessionState::Ready,
                self@.queue.len() == self.queued_datagrams@.len(),
                i + self@.queue.len() == count,
                ({
                    let rest = client_model::flush_queue(
                        self@,
                        now,
                        conversations@,
                        i as int,
                        self@.queue.len(),
                    );
                    total == (rest.0, action::models(actions@) + rest.1)
                }),
            decreases self.queued_datagrams@.len(),
        {
            let ghost before = self@;
            let ghost sent = action::models(actions@);
            let more: Vec<TunnelAction> = self.flush_front(now, drawn_at(conversations, i));
            add_actions(&mut actions, more);
            proof {
                let first = client_model::flush_one(
                    before,
                    now,
                    client_model::drawn(conversations@, i as int),
                );
                let rest = client_model::flush_queue(
                    first.0,
                    now,
                    conversations@,
                    i + 1,
                    (before.queue.len() - 1) as nat,
                );
                assert(sent + (first.1 + rest.1) =~= sent + first.1 + rest.1);
            }
            i += 1;
        }
        proof {
            assert(action::models(actions@) + Seq::<ActionModel>::empty() =~= action::models(
                actions@,
            ));
        }
        actions
    }

    /// Sends the first datagram of the queue.
    fn flush_front(&mut self, now: Instant, conversation: Option<ConversationId>) -> (r: Vec<
        TunnelAction,
    >)
        requires
            old(self).wf(),
            old(self)@.state == SessionState::Ready,
            old(self)@.queue.len() > 0,
        ensures
            final(self).wf(),
            final(self)@.state == SessionState::Ready,
            final(self)@.queue == old(self)@.queue.drop_first(),
            client_model::flush_one(old(self)@, now, conversation) == (
                final(self)@,
                action::models(r@),
            ),
    {
        let mut queued: QueuedClientDatagram = match self.queued_datagrams.pop_front() {
            Some(queued) => queued,
            None => {
                return no_actions();
            },
        };
        assert(self@.queue =~= old(self)@.queue.drop_first());
        if now.saturating_duration_since(queued.queued_at).as_nanos()
            >= self.config.reconnect_queue_timeout.as_nanos() {
            return one_action(
                TunnelAction::ClientDatagramDropped {
                    local_peer: queued.local_peer,
                    reason: ClientDatagramDropReason::ReconnectQueueExpired,
                },
            );
        }
        let local_peer: SocketAddress = queued.local_peer;
        let payload: Vec<u8> = queued.payload.take();
        match self.send_checked(local_peer, payload, now, conversation) {
            Ok(actions) => actions,
            Err(_) => one_action(
                TunnelAction::ClientDatagramDropped {
                    local_peer,
                    reason: ClientDatagramDropReason::SessionClosed,
                },
            ),
        }
    }

    /// Drops the datagrams that have waited too long.
    fn expire_queued_datagrams(&mut self, now: Instant) -> (r: Vec<TunnelAction>)
        requires
            old(self).wf(),
        ensures
            final(self).wf(),
            client_model::expire_queue(old(self)@, now) == (final(self)@, action::models(r@)),
    {
        let timeout: Duration = self.config.reconnect_queue_timeout;
        let mut actions: Vec<TunnelAction> = no_actions();
        let ghost start = self@.queue;
        let ghost mut count: int = 0;
        assert(start.skip(0) =~= start);
        assert(client_model::drop_notices(
            start.take(0),
            ClientDatagramDropReason::ReconnectQueueExpired,
        ) =~= Seq::empty());
        while self.queued_datagrams.len() > 0 && is_overdue(
            &self.queued_datagrams[0],
            now,
            timeout,
        )
            invariant
                self.wf(),
                0 <= count <= start.len(),
                self@ =~= (ClientModel { queue: start.skip(count), ..old(self)@ }),
                start == old(self)@.queue,
                timeout == old(self)@.config.reconnect_queue_timeout,
                client_model::overdue_count(start, now, timeout) == count
                    + client_model::overdue_count(start.skip(count), now, timeout),
                action::models(actions@) =~= client_model::drop_notices(
                    start.take(count),
                    ClientDatagramDropReason::ReconnectQueueExpired,
                ),
            decreases self.queued_datagrams@.len(),
        {
            let ghost before = self@.queue;
            match self.queued_datagrams.pop_front() {
                Some(queued) => {
                    add_action(
                        &mut actions,
                        TunnelAction::ClientDatagramDropped {
                            local_peer: queued.local_peer,
                            reason: ClientDatagramDropReason::ReconnectQueueExpired,
                        },
                    );
                    proof {
                        assert(self@.queue =~= before.drop_first());
                        assert(before[0] == start[count]);
                        assert(before.drop_first() =~= start.skip(count + 1));
                        assert(start.take(count + 1) =~= start.take(count).push(start[count]));
                        count = count + 1;
                    }
                },
                None => {},
            }
        }
        assert(client_model::overdue_count(self@.queue, now, timeout) == 0);
        if self.queued_datagrams.len() > 0 {
            add_action(&mut actions, TunnelAction::ScheduleTimer(timeout));
        }
        actions
    }

    /// Drops the whole queue.
    fn clear_queued_datagrams(&mut self, reason: ClientDatagramDropReason) -> (r: Vec<TunnelAction>)
        requires
            old(self).wf(),
        ensures
            final(self).wf(),
            final(self)@ == (ClientModel { queue: Seq::empty(), ..old(self)@ }),
            action::models(r@) == client_model::drop_notices(old(self)@.queue, reason),
    {
        let mut actions: Vec<TunnelAction> = no_actions();
        let mut i: usize = 0;
        while i < self.queued_datagrams.len()
            invariant
                *self == *old(self),
                i <= self.queued_datagrams@.len(),
                action::models(actions@) =~= client_model::drop_notices(
                    self@.queue.take(i as int),
                    reason,
                ),
            decreases self.queued_datagrams@.len() - i,
        {
            let local_peer: SocketAddress = self.queued_datagrams[i].local_peer;
            add_action(&mut actions, TunnelAction::ClientDatagramDropped { local_peer, reason });
            i += 1;
        }
        assert(self@.queue.take(i as int) =~= self@.queue);
        self.queued_datagrams.clear();
        assert(self@.queue =~= Seq::empty());
        actions
    }

    /// Closes the conversations that have been silent for too long.
    fn expire_conversations(&mut self, now: Instant) -> (r: Vec<TunnelAction>)
        requires
            old(self).wf(),
        ensures
            final(self).wf(),
            client_model::expire_conversations(old(self)@, now) == (
                final(self)@,
                action::models(r@),
            ),
    {
        let session_id: Option<SessionId> = self.session_id();
        let busy = StillBusy { now, timeout: self.config.conversation_idle_timeout };
        let gone: Vec<(SocketAddress, ClientConversation)> = self.by_peer.extract(&busy);
        let ghost all = table::entries_model(gone@);
        let ghost kept = self@.by_peer;
        let mut actions: Vec<TunnelAction> = no_actions();
        let mut i: usize = 0;
        assert(all.take(0) =~= Seq::empty());
        while i < gone.len()
            invariant
                i <= gone@.len(),
                all == table::entries_model(gone@),
                session_id == client_model::current_session(old(self)@),
                self@ =~= (ClientModel {
                    by_peer: kept,
                    by_id: client_model::forgotten(old(self)@.by_id, all.take(i as int)),
                    retired: old(self)@.retired + client_model::ids_of(all.take(i as int)),
                    ..old(self)@
                }),
                action::models(actions@) =~= client_model::closed_notices(
                    session_id,
                    all.take(i as int),
                ),
            decreases gone@.len() - i,
        {
            let conversation_id: ConversationId = gone[i].1.id;
            let _ = self.by_id.remove(conversation_id);
            self.retired.push(conversation_id);
            add_action(
                &mut actions,
                TunnelAction::ConversationClosed { session_id, conversation_id },
            );
            proof {
                assert(all[i as int].1.id == conversation_id);
                assert(all.take(i + 1).drop_last() =~= all.take(i as int));
            }
            i += 1;
        }
        assert(all.take(i as int) =~= all);
        actions
    }

    fn close(&mut self, id: ConversationId) -> (r: Vec<TunnelAction>)
        requires
            old(self).wf(),
        ensures
            final(self).wf(),
            client_model::close(old(self)@, id) == (final(self)@, action::models(r@)),
    {
        match self.by_id.remove(id) {
            Some(local_peer) => {
                let _ = self.by_peer.remove(local_peer);
                self.retired.push(id);
                one_action(
                    TunnelAction::ConversationClosed {
                        session_id: self.session_id(),
                        conversation_id: id,
                    },
                )
            },
            None => no_actions(),
        }
    }
}

/// Whether a conversation was drawn already.
fn is_among(drawn: &Vec<Option<ConversationId>>, id: ConversationId) -> (r: bool)
    ensures
        r == drawn@.contains(Some(id)),
{
    let mut i: usize = 0;
    while i < drawn.len()
        invariant
            i <= drawn@.len(),
            forall|j: int| 0 <= j < i ==> drawn@[j] != Some(id),
        decreases drawn@.len() - i,
    {
        match drawn[i] {
            Some(other) => {
                if other == id {
                    assert(drawn@[i as int] == Some(id));
                    return true;
                }
            },
            None => {},
        }
        i += 1;
    }
    false
}

/// The conversation drawn for the datagram at a place.
fn drawn_at(conversations: &Vec<Option<ConversationId>>, at: usize) -> (r: Option<ConversationId>)
    ensures
        r == client_model::drawn(conversations@, at as int),
{
    if at < conversations.len() {
        conversations[at]
    } else {
        None
    }
}

/// Whether two optional sessions are the same.
fn same_session(a: Option<SessionId>, b: Option<SessionId>) -> (r: bool)
    ensures
        r == (a == b),
{
    match (a, b) {
        (Some(a), Some(b)) => a == b,
        (None, None) => true,
        _ => false,
    }
}

/// Whether a queued datagram has waited too long.
fn is_overdue(queued: &QueuedClientDatagram, now: Instant, timeout: Duration) -> (r: bool)
    ensures
        r == client_model::overdue(queued@, now, timeout),
{
    now.saturating_duration_since(queued.queued_at).as_nanos() >= timeout.as_nanos()
}

} // verus!
