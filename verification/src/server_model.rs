//! What a server engine holds, and what every event does to it.

use vstd::prelude::*;

use crate::action::{ActionModel, EventModel, SessionState};
use crate::config;
use crate::config::{EngineConfig, Role};
use crate::crypto;
use crate::crypto::Direction;
use crate::error::{EngineError, HandshakeError};
use crate::handshake;
use crate::handshake::{AnswerModel, HelloModel};
use crate::id::{ConversationId, PeerId, SessionId};
use crate::protocol;
use crate::protocol::{FrameModel, FrameType};
use crate::record;
use crate::record::{OpenerModel, RecordModel, SealerModel};
use crate::replay;
use crate::table;
use crate::time;
use crate::time::{Duration, Instant};

verus! {

/// A handshake that waits for the client's finish.
#[verifier::ext_equal]
pub struct PendingModel {
    pub peer_id: PeerId,
    pub created_at: Instant,
    pub hello: HelloModel,
    pub answer: AnswerModel,
    pub resume_from: Option<SessionId>,
}

/// A peer's allowance of handshake attempts.
#[verifier::ext_equal]
pub struct BucketModel {
    pub tokens: usize,
    pub last_refill_at: Instant,
}

/// A conversation of a session: when it was last active, and the credential that
/// was issued for it with the time at which that runs out.
#[verifier::ext_equal]
pub struct ServerConversationModel {
    pub last_activity: Instant,
    pub credential: Option<(Seq<u8>, u128)>,
}

/// The conversations of a session.
pub type Conversations = Seq<(ConversationId, ServerConversationModel)>;

/// The server's end of a session. Points in time that lie ahead are counted in
/// nanoseconds since the clock's origin.
#[verifier::ext_equal]
pub struct ServerSessionModel {
    pub peer_id: PeerId,
    pub sealer: SealerModel,
    pub opener: OpenerModel,
    pub handshake_ack: Seq<u8>,
    pub client_finish: Seq<u8>,
    pub conversations: Conversations,
    pub last_activity: Instant,
    pub expires_at: u128,
}

/// What stays of an expired session while it can be resumed.
#[verifier::ext_equal]
pub struct ResumableModel {
    pub conversations: Conversations,
    pub expires_at: u128,
}

/// A server engine.
#[verifier::ext_equal]
pub struct ServerModel {
    pub config: EngineConfig,
    pub psk: Seq<u8>,
    pub cookie_secret: Seq<u8>,
    pub clock_origin: Option<Instant>,
    pub pending: Seq<(SessionId, PendingModel)>,
    pub sessions: Seq<(SessionId, ServerSessionModel)>,
    pub resumable: Seq<(SessionId, ResumableModel)>,
    pub buckets: Seq<(PeerId, BucketModel)>,
}

/// The random values that one event may use up: a session identifier that is not
/// in use, nonce and salt of an answer, and a salt for each credential. What could
/// not be drawn is missing.
#[verifier::ext_equal]
pub struct ServerDraws {
    pub session_id: Option<SessionId>,
    pub hello: Option<(Seq<u8>, Seq<u8>)>,
    pub credentials: Seq<Option<Seq<u8>>>,
}

/// What an event leaves behind and what the host is told.
pub type ServerStep = (ServerModel, Result<Seq<ActionModel>, EngineError>);

/// A server that has seen nothing.
pub open spec fn new_server(
    config: EngineConfig,
    psk: Seq<u8>,
    cookie_secret: Seq<u8>,
) -> ServerModel {
    ServerModel {
        config,
        psk,
        cookie_secret,
        clock_origin: None,
        pending: Seq::empty(),
        sessions: Seq::empty(),
        resumable: Seq::empty(),
        buckets: Seq::empty(),
    }
}

/// What the host sees of a session.
pub open spec fn session_state(m: ServerModel, session_id: SessionId) -> Option<SessionState> {
    if table::holds(m.sessions, session_id) {
        Some(SessionState::Ready)
    } else if table::holds(m.pending, session_id) {
        Some(SessionState::Handshaking)
    } else {
        None
    }
}

/// Where the server's millisecond clock starts: at the first instant it is asked
/// about.
pub open spec fn clock_start(m: ServerModel, now: Instant) -> Instant {
    match m.clock_origin {
        Some(origin) => origin,
        None => now,
    }
}

/// The server's millisecond clock.
pub open spec fn clock_ms(m: ServerModel, now: Instant) -> u64 {
    (time::elapsed(now, clock_start(m, now)) / 1_000_000) as u64
}

/// The server once its clock has started.
pub open spec fn clocked(m: ServerModel, now: Instant) -> ServerModel {
    ServerModel { clock_origin: Some(clock_start(m, now)), ..m }
}

/// A bucket after the tokens that time has brought.
pub open spec fn refilled(bucket: BucketModel, config: EngineConfig, now: Instant) -> BucketModel {
    let count = time::elapsed(now, bucket.last_refill_at)
        / config.handshake_rate_refill_interval.length();
    if count == 0 {
        bucket
    } else {
        BucketModel {
            tokens: if bucket.tokens + count < config.handshake_rate_limit_burst {
                (bucket.tokens + count) as usize
            } else {
                config.handshake_rate_limit_burst
            },
            last_refill_at: now,
        }
    }
}

/// The bucket of a peer before an attempt.
pub open spec fn bucket_of(m: ServerModel, peer_id: PeerId, now: Instant) -> BucketModel {
    match table::lookup(m.buckets, peer_id) {
        Some(bucket) => refilled(bucket, m.config, now),
        None => refilled(
            BucketModel { tokens: m.config.handshake_rate_limit_burst, last_refill_at: now },
            m.config,
            now,
        ),
    }
}

/// Whether a peer may try a handshake.
pub open spec fn attempt_allowed(m: ServerModel, peer_id: PeerId, now: Instant) -> bool {
    (table::holds(m.buckets, peer_id) || m.buckets.len() < m.config.max_pending_handshakes)
        && bucket_of(m, peer_id, now).tokens > 0
}

/// The server after a peer tried a handshake.
pub open spec fn attempt_counted(m: ServerModel, peer_id: PeerId, now: Instant) -> ServerModel {
    if !table::holds(m.buckets, peer_id) && m.buckets.len() >= m.config.max_pending_handshakes {
        m
    } else {
        let bucket = bucket_of(m, peer_id, now);
        ServerModel {
            buckets: table::put(
                m.buckets,
                peer_id,
                if bucket.tokens == 0 {
                    bucket
                } else {
                    BucketModel { tokens: (bucket.tokens - 1) as usize, ..bucket }
                },
            ),
            ..m
        }
    }
}

/// Whether a pending handshake is the one that a repeated hello belongs to.
pub open spec fn repeats(pending: PendingModel, peer_id: PeerId, hello: HelloModel) -> bool {
    pending.peer_id == peer_id && handshake::hello_payload(pending.hello)
        == handshake::hello_payload(hello)
}

/// Where the pending handshake of a repeated hello stands, or the number of
/// pending handshakes when the hello is new.
pub open spec fn repeated_at(
    pending: Seq<(SessionId, PendingModel)>,
    peer_id: PeerId,
    hello: HelloModel,
) -> int
    decreases pending.len(),
{
    if pending.len() == 0 {
        0
    } else if repeats(pending[0].1, peer_id, hello) {
        0
    } else {
        1 + repeated_at(pending.drop_first(), peer_id, hello)
    }
}

/// How many pending handshakes a peer has.
pub open spec fn pending_of(pending: Seq<(SessionId, PendingModel)>, peer_id: PeerId) -> nat
    decreases pending.len(),
{
    if pending.len() == 0 {
        0
    } else {
        pending_of(pending.drop_last(), peer_id) + if pending.last().1.peer_id == peer_id {
            1nat
        } else {
            0
        }
    }
}

/// Whether a session identifier can be given out.
pub open spec fn session_unused(m: ServerModel, session_id: SessionId) -> bool {
    session_id.number() != 0 && !table::holds(m.pending, session_id) && !table::holds(
        m.sessions,
        session_id,
    ) && !table::holds(m.resumable, session_id)
}

/// Whether a session holds a conversation and has issued a credential for it.
pub open spec fn resumes_active(
    m: ServerModel,
    session_id: SessionId,
    conversation_id: ConversationId,
) -> bool {
    table::lookup(m.sessions, session_id) matches Some(session) && (table::lookup(
        session.conversations,
        conversation_id,
    ) matches Some(conversation) && conversation.credential is Some)
}

/// Whether an expired session still holds a conversation.
pub open spec fn resumes_expired(
    m: ServerModel,
    session_id: SessionId,
    conversation_id: ConversationId,
) -> bool {
    table::lookup(m.resumable, session_id) matches Some(state) && table::holds(
        state.conversations,
        conversation_id,
    )
}

/// Whether a pending handshake already resumes a session.
pub open spec fn resumption_pending(
    pending: Seq<(SessionId, PendingModel)>,
    session_id: SessionId,
) -> bool {
    exists|i: int|
        0 <= i < pending.len() && (#[trigger] pending[i]).1.resume_from == Some(session_id)
}

/// The session that a hello takes over, if any.
pub open spec fn resumed_by(m: ServerModel, hello: HelloModel, now_ms: u64) -> Option<SessionId> {
    match hello.resumption {
        None => None,
        Some(credential) => match handshake::credential_grant(
            m.cookie_secret,
            credential,
            now_ms,
        ) {
            None => None,
            Some((session_id, conversation_id)) => if (resumes_active(
                m,
                session_id,
                conversation_id,
            ) || resumes_expired(m, session_id, conversation_id)) && !resumption_pending(
                m.pending,
                session_id,
            ) {
                Some(session_id)
            } else {
                None
            },
        },
    }
}

/// Answers a new hello.
pub open spec fn open_handshake(
    m: ServerModel,
    peer_id: PeerId,
    hello: HelloModel,
    now: Instant,
    draws: ServerDraws,
) -> ServerStep {
    if draws.session_id is None || !session_unused(m, draws.session_id->Some_0) {
        (m, Err(EngineError::RandomnessUnavailable))
    } else {
        let session_id = draws.session_id->Some_0;
        let timed = clocked(m, now);
        let resume_from = resumed_by(m, hello, clock_ms(m, now));
        match draws.hello {
            None => (timed, Err(EngineError::RandomnessUnavailable)),
            Some((server_nonce, session_salt)) => {
                let answer = handshake::answer_to(
                    m.psk,
                    hello,
                    session_id,
                    resume_from is Some,
                    server_nonce,
                    session_salt,
                );
                match protocol::encoded(handshake::answer_frame(answer, session_id)) {
                    Err(error) => (timed, Err(EngineError::Frame(error))),
                    Ok(bytes) => (
                        ServerModel {
                            pending: table::put(
                                m.pending,
                                session_id,
                                PendingModel {
                                    peer_id,
                                    created_at: now,
                                    hello,
                                    answer,
                                    resume_from,
                                },
                            ),
                            ..timed
                        },
                        Ok(
                            seq![
                                ActionModel::SendTunnelFrame { peer_id, bytes },
                                ActionModel::ScheduleTimer(m.config.handshake_timeout),
                            ],
                        ),
                    ),
                }
            },
        }
    }
}

/// Answers a hello: a repeated one with the answer it already got, a new one
/// within the limits on pending handshakes.
pub open spec fn answer_hello(
    m: ServerModel,
    peer_id: PeerId,
    hello: HelloModel,
    now: Instant,
    draws: ServerDraws,
) -> ServerStep {
    let at = repeated_at(m.pending, peer_id, hello);
    if at < m.pending.len() {
        match protocol::encoded(
            handshake::answer_frame(m.pending[at].1.answer, m.pending[at].0),
        ) {
            Err(error) => (m, Err(EngineError::Frame(error))),
            Ok(bytes) => (m, Ok(seq![ActionModel::SendTunnelFrame { peer_id, bytes }])),
        }
    } else if m.pending.len() >= m.config.max_pending_handshakes {
        (m, Err(EngineError::PendingHandshakeCapacity))
    } else if pending_of(m.pending, peer_id) >= m.config.max_pending_handshakes_per_peer {
        (m, Err(EngineError::PerPeerPendingHandshakeCapacity))
    } else {
        open_handshake(m, peer_id, hello, now, draws)
    }
}

/// Demands a cookie.
pub open spec fn demand_cookie(
    m: ServerModel,
    peer_id: PeerId,
    hello: HelloModel,
    now_ms: u64,
) -> Result<Seq<ActionModel>, EngineError> {
    match protocol::encoded(
        handshake::retry_frame(
            handshake::retry_for(m.psk, m.cookie_secret, hello, peer_id, now_ms),
        ),
    ) {
        Err(error) => Err(EngineError::Frame(error)),
        Ok(bytes) => Ok(seq![ActionModel::SendTunnelFrame { peer_id, bytes }]),
    }
}

/// A hello came.
pub open spec fn handle_client_hello(
    m: ServerModel,
    peer_id: PeerId,
    frame: FrameModel,
    now: Instant,
    draws: ServerDraws,
) -> ServerStep {
    match handshake::hello_of_frame(frame) {
        Err(error) => (m, Err(EngineError::Handshake(error))),
        Ok(hello) => if hello.suite != m.config.cipher_suite {
            (m, Err(EngineError::Handshake(HandshakeError::CipherSuiteMismatch)))
        } else if !attempt_allowed(m, peer_id, now) {
            (attempt_counted(m, peer_id, now), Err(EngineError::HandshakeRateLimited))
        } else {
            let counted = attempt_counted(m, peer_id, now);
            if !m.config.require_handshake_cookie {
                answer_hello(counted, peer_id, hello, now, draws)
            } else if handshake::cookie_accepted(
                m.cookie_secret,
                hello,
                peer_id,
                clock_ms(m, now),
                m.config.handshake_cookie_lifetime,
            ) {
                answer_hello(clocked(counted, now), peer_id, hello, now, draws)
            } else {
                (clocked(counted, now), demand_cookie(m, peer_id, hello, clock_ms(m, now)))
            }
        },
    }
}

/// The record layer that the server sets up for a session.
pub open spec fn fresh_sealer(m: ServerModel, pending: PendingModel, session_id: SessionId) -> SealerModel {
    SealerModel {
        suite: m.config.cipher_suite,
        direction: Direction::ServerToClient,
        session_id,
        next_packet_number: 0,
        keys: crypto::direction_keys(
            handshake::session_key_source(m.psk, pending.hello, session_id, pending.answer),
            Direction::ServerToClient,
        ),
    }
}

pub open spec fn fresh_opener(m: ServerModel, pending: PendingModel, session_id: SessionId) -> OpenerModel {
    OpenerModel {
        suite: m.config.cipher_suite,
        direction: Direction::ClientToServer,
        session_id,
        keys: crypto::direction_keys(
            handshake::session_key_source(m.psk, pending.hello, session_id, pending.answer),
            Direction::ClientToServer,
        ),
        replay: replay::fresh_window(m.config.replay_window_size as nat),
    }
}

/// The server without the session that is taken over, and the conversations that
/// come with it.
pub open spec fn taken_over(m: ServerModel, resume_from: Option<SessionId>) -> (
    ServerModel,
    Conversations,
) {
    match resume_from {
        None => (m, Seq::empty()),
        Some(session_id) => match table::lookup(m.sessions, session_id) {
            Some(session) => (
                ServerModel { sessions: table::without(m.sessions, session_id), ..m },
                session.conversations,
            ),
            None => match table::lookup(m.resumable, session_id) {
                Some(state) => (
                    ServerModel { resumable: table::without(m.resumable, session_id), ..m },
                    state.conversations,
                ),
                None => (m, Seq::empty()),
            },
        },
    }
}

/// Conversations in the session that takes them over: each keeps the credential
/// that was issued for it, whose time starts anew.
pub open spec fn carried_over(conversations: Conversations, expires_at: u128) -> Conversations {
    conversations.map_values(
        |entry: (ConversationId, ServerConversationModel)|
            (
                entry.0,
                ServerConversationModel {
                    credential: match entry.1.credential {
                        Some((credential, _)) => Some((credential, expires_at)),
                        None => None,
                    },
                    ..entry.1
                },
            ),
    )
}

/// What the host is told of an established session.
pub open spec fn established_actions(
    m: ServerModel,
    peer_id: PeerId,
    session_id: SessionId,
    resume_from: Option<SessionId>,
    ack: Seq<u8>,
) -> Seq<ActionModel> {
    let established = seq![
        ActionModel::SendTunnelFrame { peer_id, bytes: ack },
        ActionModel::SessionEstablished {
            peer_id,
            session_id,
            cipher_suite: m.config.cipher_suite,
            resumed: resume_from is Some,
        },
    ];
    let resumed = match resume_from {
        Some(old_session_id) => established.push(
            ActionModel::SessionResumed { peer_id, old_session_id, new_session_id: session_id },
        ),
        None => established,
    };
    resumed.push(ActionModel::ScheduleTimer(m.config.session_idle_timeout))
}

/// The session that a pending handshake turns into.
pub open spec fn established_session(
    m: ServerModel,
    peer_id: PeerId,
    frame: FrameModel,
    pending: PendingModel,
    now: Instant,
) -> ServerSessionModel {
    let sealer = fresh_sealer(m, pending, frame.session_id);
    ServerSessionModel {
        peer_id,
        sealer: record::after_sealing(sealer, FrameType::HandshakeAck, None, Seq::empty()),
        opener: fresh_opener(m, pending, frame.session_id),
        handshake_ack: record::sealed(sealer, FrameType::HandshakeAck, None, Seq::empty())->Ok_0,
        client_finish: protocol::encoded(frame)->Ok_0,
        conversations: carried_over(
            taken_over(m, pending.resume_from).1,
            (now.nanos + m.config.resumption_lifetime.length()) as u128,
        ),
        last_activity: now,
        expires_at: (now.nanos + m.config.session_idle_timeout.length()) as u128,
    }
}

/// Turns a pending handshake into a session.
pub open spec fn establish(
    m: ServerModel,
    peer_id: PeerId,
    frame: FrameModel,
    pending: PendingModel,
    now: Instant,
) -> ServerStep {
    let session_id = frame.session_id;
    let sealer = fresh_sealer(m, pending, session_id);
    match record::sealed(sealer, FrameType::HandshakeAck, None, Seq::empty()) {
        Err(error) => (m, Err(EngineError::Record(error))),
        Ok(ack) => match protocol::encoded(frame) {
            Err(error) => (m, Err(EngineError::Frame(error))),
            Ok(_) => {
                let taken = taken_over(m, pending.resume_from);
                let session = established_session(m, peer_id, frame, pending, now);
                (
                    ServerModel {
                        sessions: table::put(taken.0.sessions, session_id, session),
                        pending: table::without(m.pending, session_id),
                        ..taken.0
                    },
                    Ok(
                        established_actions(m, peer_id, session_id, pending.resume_from, ack),
                    ),
                )
            },
        },
    }
}

/// A finish came for a pending handshake.
pub open spec fn complete_handshake(
    m: ServerModel,
    peer_id: PeerId,
    frame: FrameModel,
    pending: PendingModel,
    now: Instant,
) -> ServerStep {
    let replaces_active = pending.resume_from matches Some(old) && table::holds(m.sessions, old);
    if pending.peer_id != peer_id {
        (m, Err(EngineError::UnexpectedPeer))
    } else if m.sessions.len() >= m.config.max_sessions && !replaces_active {
        (m, Err(EngineError::SessionCapacity))
    } else {
        match handshake::finish_of_frame(frame) {
            Err(error) => (m, Err(EngineError::Handshake(error))),
            Ok(finish) => match handshake::finish_verdict(
                m.psk,
                pending.hello,
                frame.session_id,
                pending.answer,
                finish,
            ) {
                Err(error) => (m, Err(EngineError::Handshake(error))),
                Ok(_) => establish(m, peer_id, frame, pending, now),
            },
        }
    }
}

/// A finish came.
pub open spec fn handle_client_finish(
    m: ServerModel,
    peer_id: PeerId,
    frame: FrameModel,
    now: Instant,
) -> ServerStep {
    match table::lookup(m.sessions, frame.session_id) {
        Some(session) => if session.peer_id != peer_id {
            (m, Err(EngineError::UnexpectedPeer))
        } else {
            match protocol::encoded(frame) {
                Err(error) => (m, Err(EngineError::Frame(error))),
                Ok(bytes) => if session.client_finish != bytes {
                    (m, Err(EngineError::Handshake(HandshakeError::AuthenticationFailed)))
                } else {
                    (
                        m,
                        Ok(
                            seq![
                                ActionModel::SendTunnelFrame {
                                    peer_id,
                                    bytes: session.handshake_ack,
                                },
                            ],
                        ),
                    )
                },
            }
        },
        None => match table::lookup(m.pending, frame.session_id) {
            None => (
                m,
                Err(EngineError::Handshake(HandshakeError::UnknownPendingHandshake)),
            ),
            Some(pending) => complete_handshake(m, peer_id, frame, pending, now),
        },
    }
}

/// The server with a changed session.
pub open spec fn with_session(
    m: ServerModel,
    session_id: SessionId,
    session: ServerSessionModel,
) -> ServerModel {
    ServerModel { sessions: table::put(m.sessions, session_id, session), ..m }
}

/// Whether a conversation needs a fresh credential: it has none, or no more than
/// half of its lifetime is left.
pub open spec fn credential_due(
    conversation: ServerConversationModel,
    config: EngineConfig,
    now: Instant,
) -> bool {
    match conversation.credential {
        None => true,
        Some((credential, expires_at)) => expires_at <= now.nanos || expires_at - now.nanos
            <= config.resumption_lifetime.length() / 2,
    }
}

/// How many conversations need a fresh credential.
pub open spec fn due_count(
    conversations: Conversations,
    config: EngineConfig,
    now: Instant,
) -> nat
    decreases conversations.len(),
{
    if conversations.len() == 0 {
        0
    } else {
        due_count(conversations.drop_last(), config, now) + if credential_due(
            conversations.last().1,
            config,
            now,
        ) {
            1nat
        } else {
            0
        }
    }
}

/// The salt drawn for the credential at a place.
pub open spec fn drawn_salt(salts: Seq<Option<Seq<u8>>>, at: int) -> Option<Seq<u8>> {
    if 0 <= at < salts.len() {
        salts[at]
    } else {
        None
    }
}

/// A number of milliseconds, cut to what a clock reading holds.
pub open spec fn capped_ms(value: nat) -> u64 {
    if value > u64::MAX {
        u64::MAX
    } else {
        value as u64
    }
}

/// The credential that a conversation of a session gets at a time.
pub open spec fn fresh_credential(
    cookie_secret: Seq<u8>,
    lifetime: Duration,
    session_id: SessionId,
    conversation_id: ConversationId,
    now_ms: u64,
    salt: Seq<u8>,
) -> Seq<u8> {
    handshake::credential_for(
        cookie_secret,
        session_id,
        conversation_id,
        now_ms,
        capped_ms(now_ms as nat + capped_ms(lifetime.length() / 1_000_000) as nat),
        salt,
    )
}

/// What a session does with an event: its new state and what the host is told.
pub type SessionStep = (ServerSessionModel, Result<Seq<ActionModel>, EngineError>);

/// Hands out the credentials that are due: each conversation that needs one gets a
/// fresh one of its own, sealed for it and kept beside it, until one is refused.
pub open spec fn renewed(
    session: ServerSessionModel,
    config: EngineConfig,
    cookie_secret: Seq<u8>,
    session_id: SessionId,
    now: Instant,
    now_ms: u64,
    salts: Seq<Option<Seq<u8>>>,
    count: nat,
) -> SessionStep
    decreases count,
{
    if count == 0 {
        (session, Ok(Seq::empty()))
    } else {
        let earlier = renewed(
            session,
            config,
            cookie_secret,
            session_id,
            now,
            now_ms,
            salts,
            (count - 1) as nat,
        );
        let at = count - 1;
        let entry = session.conversations[at];
        let salt = drawn_salt(
            salts,
            due_count(session.conversations.take(at), config, now) as int,
        );
        if earlier.1 is Err || !credential_due(entry.1, config, now) {
            earlier
        } else if salt is None {
            (earlier.0, Err(EngineError::RandomnessUnavailable))
        } else {
            let credential = fresh_credential(
                cookie_secret,
                config.resumption_lifetime,
                session_id,
                entry.0,
                now_ms,
                salt->Some_0,
            );
            let sealer = record::after_sealing(
                earlier.0.sealer,
                FrameType::ResumptionCredential,
                Some(entry.0),
                credential,
            );
            match record::sealed(
                earlier.0.sealer,
                FrameType::ResumptionCredential,
                Some(entry.0),
                credential,
            ) {
                Err(error) => (
                    ServerSessionModel { sealer, ..earlier.0 },
                    Err(EngineError::Record(error)),
                ),
                Ok(bytes) => (
                    ServerSessionModel {
                        sealer,
                        conversations: earlier.0.conversations.update(
                            at,
                            (
                                entry.0,
                                ServerConversationModel {
                                    credential: Some(
                                        (
                                            credential,
                                            (now.nanos
                                                + config.resumption_lifetime.length()) as u128,
                                        ),
                                    ),
                                    ..entry.1
                                },
                            ),
                        ),
                        ..earlier.0
                    },
                    Ok(
                        earlier.1->Ok_0.push(
                            ActionModel::SendTunnelFrame { peer_id: session.peer_id, bytes },
                        ),
                    ),
                ),
            }
        }
    }
}

/// A conversation that is active at a time. What is known of it stays known.
pub open spec fn active_conversation(
    conversations: Conversations,
    conversation_id: ConversationId,
    now: Instant,
) -> ServerConversationModel {
    ServerConversationModel {
        last_activity: now,
        credential: match table::lookup(conversations, conversation_id) {
            Some(conversation) => conversation.credential,
            None => None,
        },
    }
}

/// A data record of a conversation was opened.
pub open spec fn receive_data(
    session: ServerSessionModel,
    config: EngineConfig,
    cookie_secret: Seq<u8>,
    session_id: SessionId,
    conversation_id: ConversationId,
    payload: Seq<u8>,
    now: Instant,
    now_ms: u64,
    salts: Seq<Option<Seq<u8>>>,
) -> SessionStep {
    let is_new = !table::holds(session.conversations, conversation_id);
    if is_new && session.conversations.len() >= config.max_conversations {
        (session, Err(EngineError::ConversationCapacity))
    } else {
        let active = ServerSessionModel {
            conversations: table::put(
                session.conversations,
                conversation_id,
                active_conversation(session.conversations, conversation_id, now),
            ),
            ..session
        };
        let opened = if is_new {
            seq![
                ActionModel::ConversationOpened { session_id: Some(session_id), conversation_id },
            ]
        } else {
            Seq::empty()
        };
        let credited = renewed(
            active,
            config,
            cookie_secret,
            session_id,
            now,
            now_ms,
            salts,
            active.conversations.len(),
        );
        (
            credited.0,
            match credited.1 {
                Err(error) => Err(error),
                Ok(sent) => Ok(
                    (opened + sent).push(
                        ActionModel::DeliverToUpstream { session_id, conversation_id, payload },
                    ).push(ActionModel::ScheduleTimer(config.session_idle_timeout)),
                ),
            },
        )
    }
}

/// A record of a session was opened.
pub open spec fn receive_record(
    session: ServerSessionModel,
    config: EngineConfig,
    cookie_secret: Seq<u8>,
    session_id: SessionId,
    record: RecordModel,
    now: Instant,
    now_ms: u64,
    salts: Seq<Option<Seq<u8>>>,
) -> SessionStep {
    if record.frame_type != FrameType::Data {
        (session, Ok(Seq::empty()))
    } else {
        match record.conversation_id {
            None => (session, Err(EngineError::UnknownConversation)),
            Some(conversation_id) => receive_data(
                session,
                config,
                cookie_secret,
                session_id,
                conversation_id,
                record.plaintext,
                now,
                now_ms,
                salts,
            ),
        }
    }
}

/// A session after a record was opened.
pub open spec fn after_record(
    session: ServerSessionModel,
    config: EngineConfig,
    bytes: Seq<u8>,
    now: Instant,
) -> ServerSessionModel {
    ServerSessionModel {
        opener: record::after_opening(session.opener, bytes),
        last_activity: now,
        expires_at: (now.nanos + config.session_idle_timeout.length()) as u128,
        ..session
    }
}

/// A protected frame came.
pub open spec fn handle_record(
    m: ServerModel,
    peer_id: PeerId,
    session_id: SessionId,
    bytes: Seq<u8>,
    now: Instant,
    salts: Seq<Option<Seq<u8>>>,
) -> ServerStep {
    let timed = clocked(m, now);
    match table::lookup(m.sessions, session_id) {
        None => (timed, Err(EngineError::UnknownSession)),
        Some(session) => if session.peer_id != peer_id {
            (timed, Err(EngineError::UnexpectedPeer))
        } else {
            match record::opened(session.opener, bytes) {
                Err(error) => (timed, Err(EngineError::Record(error))),
                Ok(record) => {
                    let got = receive_record(
                        after_record(session, m.config, bytes, now),
                        m.config,
                        m.cookie_secret,
                        session_id,
                        record,
                        now,
                        clock_ms(m, now),
                        salts,
                    );
                    (with_session(timed, session_id, got.0), got.1)
                },
            }
        },
    }
}

/// A frame came over the transport.
pub open spec fn handle_tunnel(
    m: ServerModel,
    peer_id: PeerId,
    bytes: Seq<u8>,
    now: Instant,
    draws: ServerDraws,
) -> ServerStep {
    match protocol::decoded(bytes) {
        Err(error) => (m, Err(EngineError::Frame(error))),
        Ok(frame) => if frame.frame_type == FrameType::ClientHello {
            handle_client_hello(m, peer_id, frame, now, draws)
        } else if frame.frame_type == FrameType::ClientFinish {
            handle_client_finish(m, peer_id, frame, now)
        } else if protocol::carries_record(frame.frame_type) {
            handle_record(m, peer_id, frame.session_id, bytes, now, draws.credentials)
        } else {
            (m, Err(EngineError::Handshake(HandshakeError::UnexpectedMessage)))
        },
    }
}

/// A datagram came from the upstream of a conversation.
pub open spec fn handle_upstream(
    m: ServerModel,
    session_id: SessionId,
    conversation_id: ConversationId,
    payload: Seq<u8>,
    now: Instant,
) -> ServerStep {
    if payload.len() > m.config.max_frame_payload {
        (m, Err(EngineError::PayloadTooLarge))
    } else {
        match table::lookup(m.sessions, session_id) {
            None => (m, Err(EngineError::UnknownSession)),
            Some(session) => if !table::holds(session.conversations, conversation_id) {
                (m, Err(EngineError::UnknownConversation))
            } else {
                let next = with_session(
                    m,
                    session_id,
                    ServerSessionModel {
                        sealer: record::after_sealing(
                            session.sealer,
                            FrameType::Data,
                            Some(conversation_id),
                            payload,
                        ),
                        last_activity: now,
                        expires_at: (now.nanos + m.config.session_idle_timeout.length()) as u128,
                        ..session
                    },
                );
                match record::sealed(
                    session.sealer,
                    FrameType::Data,
                    Some(conversation_id),
                    payload,
                ) {
                    Err(error) => (next, Err(EngineError::Record(error))),
                    Ok(bytes) => (
                        next,
                        Ok(
                            seq![
                                ActionModel::SendTunnelFrame { peer_id: session.peer_id, bytes },
                                ActionModel::ScheduleTimer(m.config.session_idle_timeout),
                            ],
                        ),
                    ),
                }
            },
        }
    }
}

/// The host closes a conversation.
pub open spec fn close(
    m: ServerModel,
    session_id: SessionId,
    conversation_id: ConversationId,
) -> ServerStep {
    match table::lookup(m.sessions, session_id) {
        None => (m, Err(EngineError::UnknownSession)),
        Some(session) => if !table::holds(session.conversations, conversation_id) {
            (m, Err(EngineError::UnknownConversation))
        } else {
            (
                with_session(
                    m,
                    session_id,
                    ServerSessionModel {
                        conversations: table::without(session.conversations, conversation_id),
                        ..session
                    },
                ),
                Ok(
                    seq![
                        ActionModel::ConversationClosed {
                            session_id: Some(session_id),
                            conversation_id,
                        },
                    ],
                ),
            )
        },
    }
}

/// Pending handshakes that may still be completed.
pub open spec fn still_pending(now: Instant, timeout: Duration) -> spec_fn(
    SessionId,
    PendingModel,
) -> bool {
    |session_id: SessionId, pending: PendingModel|
        time::elapsed(now, pending.created_at) < timeout.length()
}

/// Conversations that are not idle.
pub open spec fn still_busy(now: Instant, timeout: Duration) -> spec_fn(
    ConversationId,
    ServerConversationModel,
) -> bool {
    |conversation_id: ConversationId, conversation: ServerConversationModel|
        time::elapsed(now, conversation.last_activity) < timeout.length()
}

/// Sessions that are not idle.
pub open spec fn still_alive(now: Instant, timeout: Duration) -> spec_fn(
    SessionId,
    ServerSessionModel,
) -> bool {
    |session_id: SessionId, session: ServerSessionModel|
        now.nanos < session.expires_at || time::elapsed(now, session.last_activity)
            < timeout.length()
}

/// Expired sessions that can still be resumed.
pub open spec fn still_resumable(now: Instant) -> spec_fn(SessionId, ResumableModel) -> bool {
    |session_id: SessionId, state: ResumableModel| now.nanos < state.expires_at
}

/// Buckets that have not been full for long.
pub open spec fn still_counted(now: Instant, retention: nat) -> spec_fn(PeerId, BucketModel) -> bool {
    |peer_id: PeerId, bucket: BucketModel| time::elapsed(now, bucket.last_refill_at) < retention
}

/// Notices that conversations of a session are closed.
pub open spec fn closed_notices(session_id: SessionId, closed: Conversations) -> Seq<ActionModel> {
    closed.map_values(
        |entry: (ConversationId, ServerConversationModel)|
            ActionModel::ConversationClosed {
                session_id: Some(session_id),
                conversation_id: entry.0,
            },
    )
}

/// A session without its idle conversations.
pub open spec fn swept_session(session: ServerSessionModel, now: Instant, timeout: Duration) -> ServerSessionModel {
    ServerSessionModel {
        conversations: table::retained(session.conversations, still_busy(now, timeout)),
        ..session
    }
}

/// The sessions without their idle conversations, and the notices of those.
pub open spec fn swept_sessions(
    sessions: Seq<(SessionId, ServerSessionModel)>,
    now: Instant,
    timeout: Duration,
) -> (Seq<(SessionId, ServerSessionModel)>, Seq<ActionModel>)
    decreases sessions.len(),
{
    if sessions.len() == 0 {
        (Seq::empty(), Seq::empty())
    } else {
        let earlier = swept_sessions(sessions.drop_last(), now, timeout);
        let last = sessions.last();
        (
            earlier.0.push((last.0, swept_session(last.1, now, timeout))),
            earlier.1 + closed_notices(
                last.0,
                table::discarded(last.1.conversations, still_busy(now, timeout)),
            ),
        )
    }
}

/// The resumable sessions after sessions expired: those with conversations join
/// them.
pub open spec fn retired(
    resumable: Seq<(SessionId, ResumableModel)>,
    expired: Seq<(SessionId, ServerSessionModel)>,
    expires_at: u128,
) -> Seq<(SessionId, ResumableModel)>
    decreases expired.len(),
{
    if expired.len() == 0 {
        resumable
    } else {
        let earlier = retired(resumable, expired.drop_last(), expires_at);
        let last = expired.last();
        if last.1.conversations.len() == 0 {
            earlier
        } else {
            table::put(
                earlier,
                last.0,
                ResumableModel { conversations: last.1.conversations, expires_at },
            )
        }
    }
}

/// Notices that sessions are closed.
pub open spec fn session_notices(expired: Seq<(SessionId, ServerSessionModel)>) -> Seq<ActionModel> {
    expired.map_values(
        |entry: (SessionId, ServerSessionModel)|
            ActionModel::SessionClosed { peer_id: entry.1.peer_id, session_id: entry.0 },
    )
}

/// Notices that sessions can no longer be resumed.
pub open spec fn recovery_notices(lost: Seq<(SessionId, ResumableModel)>) -> Seq<ActionModel> {
    lost.map_values(
        |entry: (SessionId, ResumableModel)|
            ActionModel::SessionRecoveryExpired { session_id: entry.0 },
    )
}

/// How long a bucket is remembered: until it must be full again.
pub open spec fn bucket_retention(config: EngineConfig) -> nat {
    let factor = if config.handshake_rate_limit_burst > u32::MAX {
        u32::MAX as nat
    } else {
        config.handshake_rate_limit_burst as nat
    };
    let whole = config.handshake_rate_refill_interval.length() * factor;
    if whole <= Duration::longest() {
        whole
    } else {
        Duration::longest()
    }
}

/// Time passes.
pub open spec fn expire(m: ServerModel, now: Instant) -> (ServerModel, Seq<ActionModel>) {
    let swept = swept_sessions(m.sessions, now, m.config.conversation_idle_timeout);
    let alive = still_alive(now, m.config.session_idle_timeout);
    let expired = table::discarded(swept.0, alive);
    let recovering = retired(
        m.resumable,
        expired,
        (now.nanos + m.config.resumption_lifetime.length()) as u128,
    );
    (
        ServerModel {
            pending: table::retained(m.pending, still_pending(now, m.config.handshake_timeout)),
            sessions: table::retained(swept.0, alive),
            resumable: table::retained(recovering, still_resumable(now)),
            buckets: table::retained(
                m.buckets,
                still_counted(now, bucket_retention(m.config)),
            ),
            ..m
        },
        swept.1 + session_notices(expired) + recovery_notices(
            table::discarded(recovering, still_resumable(now)),
        ),
    )
}

/// What the server's run-time checks rest on: intervals and replay windows are not
/// empty.
pub open spec fn engine_sound(m: ServerModel) -> bool {
    &&& m.config.replay_window_size > 0
    &&& m.config.handshake_rate_refill_interval.length() > 0
    &&& forall|i: int|
        0 <= i < m.sessions.len() ==> (#[trigger] m.sessions[i]).1.opener.replay.width > 0
}

/// Whether octets are a credential that was issued for a conversation.
pub open spec fn issued_for(
    cookie_secret: Seq<u8>,
    conversation_id: ConversationId,
    credential: Seq<u8>,
) -> bool {
    exists|session_id: SessionId, issued_ms: u64, expires_ms: u64, salt: Seq<u8>|
        credential == #[trigger] handshake::credential_for(
            cookie_secret,
            session_id,
            conversation_id,
            issued_ms,
            expires_ms,
            salt,
        )
}

/// A conversation holds no credential but its own.
pub open spec fn holds_its_own(cookie_secret: Seq<u8>) -> spec_fn(
    ConversationId,
    ServerConversationModel,
) -> bool {
    |conversation_id: ConversationId, conversation: ServerConversationModel|
        conversation.credential matches Some(held) ==> issued_for(
            cookie_secret,
            conversation_id,
            held.0,
        )
}

/// What holds of the conversations of a session.
pub open spec fn conversations_valid(
    config: EngineConfig,
    cookie_secret: Seq<u8>,
    conversations: Conversations,
) -> bool {
    &&& conversations.len() <= config.max_conversations
    &&& table::unique_keys(conversations)
    &&& table::all(conversations, holds_its_own(cookie_secret))
}

/// What holds of every session.
pub open spec fn session_valid(config: EngineConfig, cookie_secret: Seq<u8>) -> spec_fn(
    SessionId,
    ServerSessionModel,
) -> bool {
    |session_id: SessionId, session: ServerSessionModel|
        {
            &&& session.sealer.suite == config.cipher_suite
            &&& session.sealer.direction == Direction::ServerToClient
            &&& session.sealer.session_id == session_id
            &&& session.opener.suite == config.cipher_suite
            &&& session.opener.direction == Direction::ClientToServer
            &&& session.opener.session_id == session_id
            &&& replay::window_valid(session.opener.replay)
            &&& session.expires_at == session.last_activity.nanos
                + config.session_idle_timeout.length()
            &&& conversations_valid(config, cookie_secret, session.conversations)
        }
}

/// What holds of every session that can be resumed.
pub open spec fn resumable_valid(config: EngineConfig, cookie_secret: Seq<u8>) -> spec_fn(
    SessionId,
    ResumableModel,
) -> bool {
    |session_id: SessionId, state: ResumableModel|
        conversations_valid(config, cookie_secret, state.conversations)
}

/// What holds of every bucket: the attempt for which it was last looked at has taken a
/// token, if there was one.
pub open spec fn bucket_valid(config: EngineConfig) -> spec_fn(PeerId, BucketModel) -> bool {
    |peer_id: PeerId, bucket: BucketModel| bucket.tokens < config.handshake_rate_limit_burst
}

/// What holds of the lists of a server: pending handshakes, sessions, conversations
/// and rate buckets stay within their limits, and nothing is listed twice.
pub open spec fn parts_valid(m: ServerModel) -> bool {
    &&& config::config_fault(m.config) is None
    &&& m.config.role == Role::Server
    &&& m.pending.len() <= m.config.max_pending_handshakes
    &&& m.sessions.len() <= m.config.max_sessions
    &&& m.buckets.len() <= m.config.max_pending_handshakes
    &&& table::unique_keys(m.pending)
    &&& table::unique_keys(m.sessions)
    &&& table::unique_keys(m.resumable)
    &&& table::unique_keys(m.buckets)
    &&& table::all(m.sessions, session_valid(m.config, m.cookie_secret))
    &&& table::all(m.resumable, resumable_valid(m.config, m.cookie_secret))
    &&& table::all(m.buckets, bucket_valid(m.config))
}

/// Whether an identifier stands for no more than one of a pending handshake, a session
/// and a session that can be resumed.
pub open spec fn told_apart(m: ServerModel, session_id: SessionId) -> bool {
    &&& !(table::holds(m.pending, session_id) && table::holds(m.sessions, session_id))
    &&& !(table::holds(m.pending, session_id) && table::holds(m.resumable, session_id))
    &&& !(table::holds(m.sessions, session_id) && table::holds(m.resumable, session_id))
}

/// What holds of every server: its lists are in order, and no identifier stands for
/// two things.
pub open spec fn server_valid(m: ServerModel) -> bool {
    &&& parts_valid(m)
    &&& forall|session_id: SessionId| #[trigger] told_apart(m, session_id)
}

/// The frame that an event brings, where it is one.
pub open spec fn frame_of(event: EventModel) -> Option<FrameModel> {
    match event {
        EventModel::TunnelFrame { peer_id, bytes } => match protocol::decoded(bytes) {
            Ok(frame) => Some(frame),
            Err(_) => None,
        },
        _ => None,
    }
}

/// Whether an event may call for an answer to a hello.
pub open spec fn answer_wanted(event: EventModel) -> bool {
    frame_of(event) matches Some(frame) && frame.frame_type == FrameType::ClientHello
}

/// How many credentials an event may call for: those that are due in the session
/// of a data record, with that of a conversation that the record opens.
pub open spec fn salts_wanted(m: ServerModel, event: EventModel, now: Instant) -> nat {
    match frame_of(event) {
        Some(frame) if frame.frame_type == FrameType::Data => match table::lookup(
            m.sessions,
            frame.session_id,
        ) {
            Some(session) => due_count(session.conversations, m.config, now) + match
                frame.conversation_id {
                Some(id) if !table::holds(session.conversations, id) => 1nat,
                _ => 0,
            },
            None => 0,
        },
        _ => 0,
    }
}

/// Drawn salts have their length.
pub open spec fn salts_valid(salts: Seq<Option<Seq<u8>>>) -> bool {
    forall|i: int|
        0 <= i < salts.len() ==> (#[trigger] salts[i] matches Some(salt) ==> salt.len() == 16)
}

/// What is drawn for an event: octets of the right lengths, no session that is in
/// use, a try for each credential, and nothing that the event does not call for.
pub open spec fn drawn_for(
    m: ServerModel,
    event: EventModel,
    now: Instant,
    draws: ServerDraws,
) -> bool {
    &&& draws.session_id matches Some(session_id) ==> session_unused(m, session_id)
    &&& draws.hello matches Some(hello) ==> hello.0.len() == 32 && hello.1.len() == 32
    &&& salts_valid(draws.credentials)
    &&& draws.session_id is Some || draws.hello is Some ==> answer_wanted(event)
    &&& draws.credentials.len() == salts_wanted(m, event, now)
}

/// What one event does to a server.
pub open spec fn server_step(
    m: ServerModel,
    event: EventModel,
    now: Instant,
    draws: ServerDraws,
) -> ServerStep {
    match event {
        EventModel::TunnelFrame { peer_id, bytes } => handle_tunnel(m, peer_id, bytes, now, draws),
        EventModel::ServerDatagram { session_id, conversation_id, payload } => handle_upstream(
            m,
            session_id,
            conversation_id,
            payload,
            now,
        ),
        EventModel::CloseConversation { session_id, conversation_id } => match session_id {
            None => (m, Err(EngineError::UnknownSession)),
            Some(session_id) => close(m, session_id, conversation_id),
        },
        EventModel::TimeAdvanced(at) => {
            let next = expire(m, at);
            (next.0, Ok(next.1))
        },
        _ => (m, Err(EngineError::InvalidRole)),
    }
}

} // verus!
