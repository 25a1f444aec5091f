//! What a client engine holds, and what every event does to it.

use vstd::prelude::*;

use crate::action::{
    ActionModel, ClientDatagramDropReason, EventModel, SessionState,
};
use crate::address::SocketAddress;
use crate::config;
use crate::config::{EngineConfig, Role};
use crate::crypto;
use crate::crypto::Direction;
use crate::error::{EngineError, HandshakeError, RecordError, ReplayError};
use crate::handshake;
use crate::handshake::{AnswerModel, HelloModel, CREDENTIAL_LENGTH};
use crate::id::{ConversationId, PeerId, SessionId};
use crate::protocol;
use crate::protocol::{FrameModel, FrameType};
use crate::record;
use crate::record::{OpenerModel, RecordModel, SealerModel};
use crate::replay;
use crate::table;
use crate::time;
use crate::time::{Duration, Instant};

verus! {

/// A local peer's conversation.
#[verifier::ext_equal]
pub struct ConversationModel {
    pub id: ConversationId,
    pub last_activity: Instant,
    pub resumption: Option<(SessionId, Seq<u8>)>,
}

/// A local datagram that waits for a session.
#[verifier::ext_equal]
pub struct QueuedModel {
    pub local_peer: SocketAddress,
    pub payload: Seq<u8>,
    pub queued_at: Instant,
}

/// How far a handshake has come.
#[verifier::ext_equal]
pub enum PhaseModel {
    AwaitingServerHello,
    AwaitingServerAck { answer: AnswerModel, finish_bytes: Seq<u8> },
}

/// A handshake in progress.
#[verifier::ext_equal]
pub struct AttemptModel {
    pub hello: HelloModel,
    pub phase: PhaseModel,
    pub started_at: Instant,
    pub last_sent_at: Instant,
    pub attempts: usize,
}

/// The client's end of a session.
#[verifier::ext_equal]
pub struct ClientSessionModel {
    pub id: SessionId,
    pub sealer: SealerModel,
    pub opener: OpenerModel,
    pub last_received_at: Instant,
    pub resumed: bool,
}

/// The conversations of the local peers.
pub type ByPeer = Seq<(SocketAddress, ConversationModel)>;

/// The local peers of the conversations.
pub type ById = Seq<(ConversationId, SocketAddress)>;

/// A client engine.
#[verifier::ext_equal]
pub struct ClientModel {
    pub config: EngineConfig,
    pub psk: Seq<u8>,
    pub server_peer: PeerId,
    pub state: SessionState,
    pub handshake: Option<AttemptModel>,
    pub session: Option<ClientSessionModel>,
    pub by_peer: ByPeer,
    pub by_id: ById,
    /// Conversations that are closed, of which the server may still know.
    pub retired: Seq<ConversationId>,
    pub queue: Seq<QueuedModel>,
}

/// The random values that one event may use up: the identifier and nonce of a
/// hello, and a conversation for each datagram that might open one. What could
/// not be drawn is missing.
#[verifier::ext_equal]
pub struct ClientDraws {
    pub hello: Option<(Seq<u8>, Seq<u8>)>,
    pub conversations: Seq<Option<ConversationId>>,
}

/// What an event leaves behind and what the host is told.
pub type ClientStep = (ClientModel, Result<Seq<ActionModel>, EngineError>);

/// The conversation drawn for the datagram at a place.
pub open spec fn drawn(draws: Seq<Option<ConversationId>>, at: int) -> Option<ConversationId> {
    if 0 <= at < draws.len() {
        draws[at]
    } else {
        None
    }
}

/// A client that has seen nothing.
pub open spec fn new_client(config: EngineConfig, psk: Seq<u8>, server_peer: PeerId) -> ClientModel {
    ClientModel {
        config,
        psk,
        server_peer,
        state: SessionState::Idle,
        handshake: None,
        session: None,
        by_peer: Seq::empty(),
        by_id: Seq::empty(),
        retired: Seq::empty(),
        queue: Seq::empty(),
    }
}

/// Whether an identifier may stand for a new conversation: it stands for none that is
/// open, nor for one that was closed and of which late frames may still come.
pub open spec fn conversation_unused(m: ClientModel, id: ConversationId) -> bool {
    !table::holds(m.by_id, id) && !m.retired.contains(id)
}

/// Whether a handshake is under way.
pub open spec fn in_handshake(state: SessionState) -> bool {
    state == SessionState::Handshaking || state == SessionState::Reconnecting
}

/// The identifier of the current session.
pub open spec fn current_session(m: ClientModel) -> Option<SessionId> {
    match m.session {
        Some(session) => Some(session.id),
        None => None,
    }
}

/// The credential that a reconnecting client presents: that of its first
/// conversation, where all conversations hold one of the same session.
pub open spec fn resumption_offer(
    by_peer: Seq<(SocketAddress, ConversationModel)>,
) -> Option<Seq<u8>> {
    if by_peer.len() == 0 {
        None
    } else {
        match by_peer[0].1.resumption {
            None => None,
            Some((session_id, credential)) => if forall|i: int|
                0 <= i < by_peer.len() ==> ((#[trigger] by_peer[i]).1.resumption matches Some(
                    held,
                ) && held.0 == session_id) {
                Some(credential)
            } else {
                None
            },
        }
    }
}

/// Opens a handshake.
pub open spec fn begin_handshake(
    m: ClientModel,
    now: Instant,
    state: SessionState,
    draw: Option<(Seq<u8>, Seq<u8>)>,
) -> ClientStep {
    match draw {
        None => (m, Err(EngineError::RandomnessUnavailable)),
        Some((handshake_id, client_nonce)) => {
            let hello = HelloModel {
                handshake_id,
                client_nonce,
                suite: m.config.cipher_suite,
                cookie: None,
                resumption: if state == SessionState::Reconnecting {
                    resumption_offer(m.by_peer)
                } else {
                    None
                },
            };
            match protocol::encoded(handshake::hello_frame(hello)) {
                Err(error) => (m, Err(EngineError::Frame(error))),
                Ok(bytes) => (
                    ClientModel {
                        state,
                        handshake: Some(
                            AttemptModel {
                                hello,
                                phase: PhaseModel::AwaitingServerHello,
                                started_at: now,
                                last_sent_at: now,
                                attempts: 1,
                            },
                        ),
                        ..m
                    },
                    Ok(
                        seq![
                            ActionModel::SendTunnelFrame { peer_id: m.server_peer, bytes },
                            ActionModel::ScheduleTimer(m.config.handshake_retry_interval),
                        ],
                    ),
                ),
            }
        },
    }
}

pub open spec fn start(
    m: ClientModel,
    now: Instant,
    draw: Option<(Seq<u8>, Seq<u8>)>,
) -> ClientStep {
    if m.state != SessionState::Idle {
        (m, Err(EngineError::SessionNotReady))
    } else {
        begin_handshake(m, now, SessionState::Handshaking, draw)
    }
}

/// Gives up the session and opens a handshake for a new one.
pub open spec fn begin_reconnect(
    m: ClientModel,
    now: Instant,
    draw: Option<(Seq<u8>, Seq<u8>)>,
) -> (ClientModel, Seq<ActionModel>) {
    let closed = match m.session {
        Some(session) => seq![
            ActionModel::SessionClosed { peer_id: m.server_peer, session_id: session.id },
        ],
        None => Seq::empty(),
    };
    let bare = ClientModel { session: None, handshake: None, ..m };
    let next = begin_handshake(bare, now, SessionState::Reconnecting, draw);
    match next.1 {
        Ok(actions) => (next.0, closed + actions),
        Err(_) => (ClientModel { state: SessionState::Closed, ..next.0 }, closed),
    }
}

pub open spec fn reconnect(
    m: ClientModel,
    now: Instant,
    draw: Option<(Seq<u8>, Seq<u8>)>,
) -> ClientStep {
    if m.state != SessionState::Ready {
        (m, Err(EngineError::SessionNotReady))
    } else {
        let next = begin_reconnect(m, now, draw);
        (next.0, Ok(next.1))
    }
}

/// Seals a payload of a known conversation.
pub open spec fn send_data(
    m: ClientModel,
    conversation_id: ConversationId,
    payload: Seq<u8>,
    earlier: Seq<ActionModel>,
) -> ClientStep {
    match m.session {
        None => (m, Err(EngineError::SessionNotReady)),
        Some(session) => {
            let next = ClientModel {
                session: Some(
                    ClientSessionModel {
                        sealer: record::after_sealing(
                            session.sealer,
                            FrameType::Data,
                            Some(conversation_id),
                            payload,
                        ),
                        ..session
                    },
                ),
                ..m
            };
            match record::sealed(session.sealer, FrameType::Data, Some(conversation_id), payload) {
                Err(error) => (next, Err(EngineError::Record(error))),
                Ok(bytes) => (
                    next,
                    Ok(
                        earlier.push(
                            ActionModel::SendTunnelFrame { peer_id: m.server_peer, bytes },
                        ),
                    ),
                ),
            }
        },
    }
}

/// Sends a local datagram over the session, opening a conversation for a new
/// local peer under an identifier that is not in use.
pub open spec fn send_local(
    m: ClientModel,
    local_peer: SocketAddress,
    payload: Seq<u8>,
    now: Instant,
    draw: Option<ConversationId>,
) -> ClientStep {
    match table::lookup(m.by_peer, local_peer) {
        Some(conversation) => send_data(
            ClientModel {
                by_peer: table::put(
                    m.by_peer,
                    local_peer,
                    ConversationModel { last_activity: now, ..conversation },
                ),
                ..m
            },
            conversation.id,
            payload,
            Seq::empty(),
        ),
        None => if m.by_peer.len() >= m.config.max_conversations {
            (m, Err(EngineError::ConversationCapacity))
        } else {
            match draw {
                Some(id) if conversation_unused(m, id) => send_data(
                    ClientModel {
                        by_peer: table::put(
                            m.by_peer,
                            local_peer,
                            ConversationModel { id, last_activity: now, resumption: None },
                        ),
                        by_id: table::put(m.by_id, id, local_peer),
                        ..m
                    },
                    id,
                    payload,
                    seq![
                        ActionModel::ConversationOpened {
                            session_id: current_session(m),
                            conversation_id: id,
                        },
                    ],
                ),
                _ => (m, Err(EngineError::RandomnessUnavailable)),
            }
        },
    }
}

/// Sends a local datagram over the session if it is not too long.
pub open spec fn send_checked(
    m: ClientModel,
    local_peer: SocketAddress,
    payload: Seq<u8>,
    now: Instant,
    draw: Option<ConversationId>,
) -> ClientStep {
    if payload.len() > m.config.max_frame_payload {
        (m, Err(EngineError::PayloadTooLarge))
    } else {
        send_local(m, local_peer, payload, now, draw)
    }
}

/// Whether the server has been silent for so long that the session may be dead.
pub open spec fn stale(m: ClientModel, now: Instant) -> bool {
    m.session matches Some(session) && time::elapsed(now, session.last_received_at)
        > m.config.session_timeout.length()
}

/// Puts a local datagram into the bounded queue.
pub open spec fn enqueue(
    m: ClientModel,
    local_peer: SocketAddress,
    payload: Seq<u8>,
    now: Instant,
) -> (ClientModel, Seq<ActionModel>) {
    if m.queue.len() >= m.config.reconnect_queue_capacity {
        (
            m,
            seq![
                ActionModel::ClientDatagramDropped {
                    local_peer,
                    reason: ClientDatagramDropReason::ReconnectQueueFull,
                },
            ],
        )
    } else {
        (
            ClientModel {
                queue: m.queue.push(QueuedModel { local_peer, payload, queued_at: now }),
                ..m
            },
            seq![ActionModel::ScheduleTimer(m.config.reconnect_queue_timeout)],
        )
    }
}

/// Gives up a stale session for a local datagram, which waits for the new one.
pub open spec fn reconnect_for(
    m: ClientModel,
    local_peer: SocketAddress,
    payload: Seq<u8>,
    now: Instant,
    hello: Option<(Seq<u8>, Seq<u8>)>,
) -> (ClientModel, Seq<ActionModel>) {
    let next = begin_reconnect(m, now, hello);
    if in_handshake(next.0.state) {
        let queued = enqueue(next.0, local_peer, payload, now);
        (queued.0, next.1 + queued.1)
    } else {
        (
            next.0,
            next.1.push(
                ActionModel::ClientDatagramDropped {
                    local_peer,
                    reason: ClientDatagramDropReason::SessionClosed,
                },
            ),
        )
    }
}

/// Takes a datagram from a local peer: over the session when there is a live one,
/// into the bounded queue while a handshake is under way. A stale session is given
/// up first.
pub open spec fn handle_local(
    m: ClientModel,
    local_peer: SocketAddress,
    payload: Seq<u8>,
    now: Instant,
    hello: Option<(Seq<u8>, Seq<u8>)>,
    draw: Option<ConversationId>,
) -> ClientStep {
    if payload.len() > m.config.max_frame_payload {
        (m, Err(EngineError::PayloadTooLarge))
    } else if m.state == SessionState::Ready {
        if stale(m, now) {
            let next = reconnect_for(m, local_peer, payload, now, hello);
            (next.0, Ok(next.1))
        } else {
            send_local(m, local_peer, payload, now, draw)
        }
    } else if !in_handshake(m.state) {
        (m, Err(EngineError::SessionNotReady))
    } else {
        let next = enqueue(m, local_peer, payload, now);
        (next.0, Ok(next.1))
    }
}

/// Whether a queued datagram has waited too long.
pub open spec fn overdue(queued: QueuedModel, now: Instant, timeout: Duration) -> bool {
    time::elapsed(now, queued.queued_at) >= timeout.length()
}

/// Takes the first datagram out of the queue and sends it, or says why not.
pub open spec fn flush_one(m: ClientModel, now: Instant, draw: Option<ConversationId>) -> (
    ClientModel,
    Seq<ActionModel>,
) {
    let queued = m.queue[0];
    let rest = ClientModel { queue: m.queue.drop_first(), ..m };
    if overdue(queued, now, m.config.reconnect_queue_timeout) {
        (
            rest,
            seq![
                ActionModel::ClientDatagramDropped {
                    local_peer: queued.local_peer,
                    reason: ClientDatagramDropReason::ReconnectQueueExpired,
                },
            ],
        )
    } else {
        let sent = send_checked(rest, queued.local_peer, queued.payload, now, draw);
        match sent.1 {
            Ok(actions) => (sent.0, actions),
            Err(_) => (
                sent.0,
                seq![
                    ActionModel::ClientDatagramDropped {
                        local_peer: queued.local_peer,
                        reason: ClientDatagramDropReason::SessionClosed,
                    },
                ],
            ),
        }
    }
}

/// Sends the first `count` queued datagrams in the order in which they came.
pub open spec fn flush_queue(
    m: ClientModel,
    now: Instant,
    draws: Seq<Option<ConversationId>>,
    from: int,
    count: nat,
) -> (ClientModel, Seq<ActionModel>)
    decreases count,
{
    if count == 0 {
        (m, Seq::empty())
    } else {
        let first = flush_one(m, now, drawn(draws, from));
        let rest = flush_queue(first.0, now, draws, from + 1, (count - 1) as nat);
        (rest.0, first.1 + rest.1)
    }
}

/// Whether a client gives up its conversations with a confirmed session: it asked the
/// server to take them over, and the server did not.
pub open spec fn conversations_dropped(m: ClientModel, session: ClientSessionModel) -> bool {
    (m.handshake matches Some(attempt) && attempt.hello.resumption is Some) && !session.resumed
}

/// The client with a confirmed session, before the queue is sent. The server of a
/// session that resumes no other knows of no conversation that was closed.
pub open spec fn confirmed(
    m: ClientModel,
    session: ClientSessionModel,
    now: Instant,
) -> ClientModel {
    let dropped = conversations_dropped(m, session);
    ClientModel {
        state: SessionState::Ready,
        handshake: None,
        session: Some(ClientSessionModel { last_received_at: now, ..session }),
        by_peer: if dropped {
            Seq::empty()
        } else {
            m.by_peer
        },
        by_id: if dropped {
            Seq::empty()
        } else {
            m.by_id
        },
        retired: if session.resumed {
            m.retired
        } else {
            Seq::empty()
        },
        ..m
    }
}

/// The server's protected confirmation came: the session is ready. Conversations
/// that the server did not take over are closed, and the queue is sent.
pub open spec fn establish(
    m: ClientModel,
    session: ClientSessionModel,
    now: Instant,
    draws: Seq<Option<ConversationId>>,
) -> ClientStep {
    let notices = if conversations_dropped(m, session) {
        closed_notices(None, m.by_peer)
    } else {
        Seq::empty()
    };
    let established = ActionModel::SessionEstablished {
        peer_id: m.server_peer,
        session_id: session.id,
        cipher_suite: m.config.cipher_suite,
        resumed: session.resumed,
    };
    let flushed = flush_queue(confirmed(m, session, now), now, draws, 0, m.queue.len());
    (
        flushed.0,
        Ok(
            (notices.push(established) + flushed.1).push(
                ActionModel::ScheduleTimer(m.config.session_timeout),
            ),
        ),
    )
}

/// `by_peer` after activity of a conversation.
pub open spec fn touched(
    by_peer: Seq<(SocketAddress, ConversationModel)>,
    local_peer: SocketAddress,
    now: Instant,
) -> Seq<(SocketAddress, ConversationModel)> {
    match table::lookup(by_peer, local_peer) {
        Some(conversation) => table::put(
            by_peer,
            local_peer,
            ConversationModel { last_activity: now, ..conversation },
        ),
        None => by_peer,
    }
}

/// `by_peer` after a credential for a conversation came.
pub open spec fn credited(
    by_peer: Seq<(SocketAddress, ConversationModel)>,
    local_peer: SocketAddress,
    session_id: SessionId,
    credential: Seq<u8>,
    now: Instant,
) -> Seq<(SocketAddress, ConversationModel)> {
    match table::lookup(by_peer, local_peer) {
        Some(conversation) => table::put(
            by_peer,
            local_peer,
            ConversationModel {
                last_activity: now,
                resumption: Some((session_id, credential)),
                ..conversation
            },
        ),
        None => by_peer,
    }
}

/// A record came over a ready session.
pub open spec fn receive_record(
    m: ClientModel,
    session_id: SessionId,
    record: RecordModel,
    now: Instant,
) -> ClientStep {
    if record.frame_type != FrameType::Data && record.frame_type
        != FrameType::ResumptionCredential {
        (m, Ok(Seq::empty()))
    } else {
        match record.conversation_id {
            None => (m, Err(EngineError::UnknownConversation)),
            Some(id) => match table::lookup(m.by_id, id) {
                None => (m, Err(EngineError::UnknownConversation)),
                Some(local_peer) => if record.frame_type == FrameType::Data {
                    (
                        ClientModel { by_peer: touched(m.by_peer, local_peer, now), ..m },
                        Ok(
                            seq![
                                ActionModel::DeliverToClient {
                                    local_peer,
                                    payload: record.plaintext,
                                },
                            ],
                        ),
                    )
                } else if record.plaintext.len() != CREDENTIAL_LENGTH {
                    (m, Err(EngineError::Handshake(HandshakeError::InvalidResumptionCredential)))
                } else {
                    (
                        ClientModel {
                            by_peer: credited(
                                m.by_peer,
                                local_peer,
                                session_id,
                                record.plaintext,
                                now,
                            ),
                            ..m
                        },
                        Ok(Seq::empty()),
                    )
                },
            },
        }
    }
}

/// A protected frame came from the server.
pub open spec fn handle_protected(
    m: ClientModel,
    envelope: FrameModel,
    bytes: Seq<u8>,
    now: Instant,
    draws: Seq<Option<ConversationId>>,
) -> ClientStep {
    if m.state != SessionState::Ready && !in_handshake(m.state) {
        (m, Err(EngineError::SessionNotReady))
    } else {
        match m.session {
            None => (m, Err(EngineError::SessionNotReady)),
            Some(session) => {
                let seen = ClientSessionModel {
                    opener: record::after_opening(session.opener, bytes),
                    ..session
                };
                let next = ClientModel { session: Some(seen), ..m };
                match record::opened(session.opener, bytes) {
                    Err(error) => if error == RecordError::Replay(ReplayError::Duplicate)
                        && envelope.frame_type == FrameType::HandshakeAck && m.state
                        == SessionState::Ready {
                        (next, Ok(Seq::empty()))
                    } else {
                        (next, Err(EngineError::Record(error)))
                    },
                    Ok(record) => if record.frame_type == FrameType::HandshakeAck {
                        if in_handshake(m.state) {
                            establish(m, seen, now, draws)
                        } else {
                            (next, Ok(Seq::empty()))
                        }
                    } else if m.state != SessionState::Ready {
                        (next, Err(EngineError::SessionNotReady))
                    } else {
                        receive_record(
                            ClientModel {
                                session: Some(ClientSessionModel { last_received_at: now, ..seen }),
                                ..m
                            },
                            session.id,
                            record,
                            now,
                        )
                    },
                }
            },
        }
    }
}

/// One more attempt, without overflow.
pub open spec fn one_more(attempts: usize) -> usize {
    if attempts == usize::MAX {
        attempts
    } else {
        (attempts + 1) as usize
    }
}

/// A message of the handshake was sent again or for the first time.
pub open spec fn sent_again(m: ClientModel, attempt: AttemptModel, now: Instant) -> ClientModel {
    ClientModel {
        handshake: Some(
            AttemptModel {
                last_sent_at: now,
                attempts: one_more(attempt.attempts),
                ..attempt
            },
        ),
        ..m
    }
}

/// What goes out with a handshake message.
pub open spec fn handshake_actions(m: ClientModel, bytes: Seq<u8>) -> Seq<ActionModel> {
    seq![
        ActionModel::SendTunnelFrame { peer_id: m.server_peer, bytes },
        ActionModel::ScheduleTimer(m.config.handshake_retry_interval),
    ]
}

/// The server wants the hello again with a cookie.
pub open spec fn handle_hello_retry(m: ClientModel, frame: FrameModel, now: Instant) -> ClientStep {
    if !in_handshake(m.state) {
        (m, Err(EngineError::Handshake(HandshakeError::UnexpectedMessage)))
    } else {
        match m.handshake {
            None => (m, Err(EngineError::SessionNotReady)),
            Some(attempt) => if !(attempt.phase is AwaitingServerHello) {
                (m, Err(EngineError::Handshake(HandshakeError::UnexpectedMessage)))
            } else {
                match handshake::retry_of_frame(frame) {
                    Err(error) => (m, Err(EngineError::Handshake(error))),
                    Ok(retry) => match handshake::hello_after_retry(m.psk, attempt.hello, retry) {
                        Err(error) => (m, Err(EngineError::Handshake(error))),
                        Ok(hello) => {
                            let again = AttemptModel { hello, ..attempt };
                            match protocol::encoded(handshake::hello_frame(hello)) {
                                Err(error) => (
                                    ClientModel { handshake: Some(again), ..m },
                                    Err(EngineError::Frame(error)),
                                ),
                                Ok(bytes) => (
                                    sent_again(m, again, now),
                                    Ok(handshake_actions(m, bytes)),
                                ),
                            }
                        },
                    },
                }
            },
        }
    }
}

/// The session that a client sets up from the server's answer.
pub open spec fn session_from(
    m: ClientModel,
    hello: HelloModel,
    answer: AnswerModel,
    session_id: SessionId,
    now: Instant,
) -> ClientSessionModel {
    let source = handshake::session_key_source(m.psk, hello, session_id, answer);
    ClientSessionModel {
        id: session_id,
        sealer: SealerModel {
            suite: m.config.cipher_suite,
            direction: Direction::ClientToServer,
            session_id,
            next_packet_number: 0,
            keys: crypto::direction_keys(source, Direction::ClientToServer),
        },
        opener: OpenerModel {
            suite: m.config.cipher_suite,
            direction: Direction::ServerToClient,
            session_id,
            keys: crypto::direction_keys(source, Direction::ServerToClient),
            replay: replay::fresh_window(m.config.replay_window_size as nat),
        },
        last_received_at: now,
        resumed: answer.resumed,
    }
}

/// The server answered the hello.
pub open spec fn handle_server_hello(m: ClientModel, frame: FrameModel, now: Instant) -> ClientStep {
    if !in_handshake(m.state) {
        (m, Err(EngineError::Handshake(HandshakeError::UnexpectedMessage)))
    } else {
        match m.handshake {
            None => (m, Err(EngineError::SessionNotReady)),
            Some(attempt) => match handshake::answer_of_frame(frame) {
                Err(error) => (m, Err(EngineError::Handshake(error))),
                Ok(answer) => match handshake::answer_verdict(
                    m.psk,
                    attempt.hello,
                    frame.session_id,
                    answer,
                ) {
                    Err(error) => (m, Err(EngineError::Handshake(error))),
                    Ok(_) => match attempt.phase {
                        PhaseModel::AwaitingServerAck { answer: expected, finish_bytes } =>
                            if handshake::answer_payload(expected) != handshake::answer_payload(
                                answer,
                            ) || current_session(m) != Some(frame.session_id) {
                                (
                                    m,
                                    Err(
                                        EngineError::Handshake(HandshakeError::UnexpectedMessage),
                                    ),
                                )
                            } else {
                                (
                                    sent_again(m, attempt, now),
                                    Ok(handshake_actions(m, finish_bytes)),
                                )
                            },
                        PhaseModel::AwaitingServerHello => finish_handshake(
                            m,
                            attempt,
                            answer,
                            frame.session_id,
                            now,
                        ),
                    },
                },
            },
        }
    }
}

/// The client sends its finish and sets up the session.
pub open spec fn finish_handshake(
    m: ClientModel,
    attempt: AttemptModel,
    answer: AnswerModel,
    session_id: SessionId,
    now: Instant,
) -> ClientStep {
    let finish = handshake::finish_for(m.psk, attempt.hello, session_id, answer);
    match protocol::encoded(handshake::finish_frame(finish, session_id)) {
        Err(error) => (m, Err(EngineError::Frame(error))),
        Ok(finish_bytes) => (
            sent_again(
                ClientModel {
                    session: Some(session_from(m, attempt.hello, answer, session_id, now)),
                    ..m
                },
                AttemptModel {
                    phase: PhaseModel::AwaitingServerAck { answer, finish_bytes },
                    ..attempt
                },
                now,
            ),
            Ok(handshake_actions(m, finish_bytes)),
        ),
    }
}

/// A frame came over the transport.
pub open spec fn handle_tunnel(
    m: ClientModel,
    peer_id: PeerId,
    bytes: Seq<u8>,
    now: Instant,
    draws: Seq<Option<ConversationId>>,
) -> ClientStep {
    if peer_id != m.server_peer {
        (m, Err(EngineError::UnexpectedPeer))
    } else {
        match protocol::decoded(bytes) {
            Err(error) => (m, Err(EngineError::Frame(error))),
            Ok(envelope) => if envelope.frame_type == FrameType::HelloRetry {
                handle_hello_retry(m, envelope, now)
            } else if envelope.frame_type == FrameType::ServerHello {
                handle_server_hello(m, envelope, now)
            } else {
                handle_protected(m, envelope, bytes, now, draws)
            },
        }
    }
}

/// Notices that every queued datagram is dropped.
pub open spec fn drop_notices(
    queue: Seq<QueuedModel>,
    reason: ClientDatagramDropReason,
) -> Seq<ActionModel> {
    queue.map_values(
        |queued: QueuedModel|
            ActionModel::ClientDatagramDropped { local_peer: queued.local_peer, reason },
    )
}

/// Whether a handshake is given up: it took too long, or its last permitted
/// attempt went unanswered.
pub open spec fn handshake_failed(attempt: AttemptModel, config: EngineConfig, now: Instant) -> bool {
    time::elapsed(now, attempt.started_at) >= config.handshake_timeout.length() || (
    attempt.attempts >= config.handshake_max_attempts && time::elapsed(now, attempt.last_sent_at)
        >= config.handshake_retry_interval.length())
}

/// Whether a handshake message is sent again.
pub open spec fn handshake_due(attempt: AttemptModel, config: EngineConfig, now: Instant) -> bool {
    time::elapsed(now, attempt.last_sent_at) >= config.handshake_retry_interval.length()
        && attempt.attempts < config.handshake_max_attempts
}

/// The message that a handshake waits on an answer to.
pub open spec fn pending_message(attempt: AttemptModel) -> Option<Seq<u8>> {
    match attempt.phase {
        PhaseModel::AwaitingServerHello => match protocol::encoded(
            handshake::hello_frame(attempt.hello),
        ) {
            Ok(bytes) => Some(bytes),
            Err(_) => None,
        },
        PhaseModel::AwaitingServerAck { answer, finish_bytes } => Some(finish_bytes),
    }
}

/// Time passes during a handshake.
pub open spec fn expire_handshake(m: ClientModel, now: Instant) -> (ClientModel, Seq<ActionModel>) {
    match m.handshake {
        None => (m, Seq::empty()),
        Some(attempt) => if handshake_failed(attempt, m.config, now) {
            let notices = drop_notices(m.queue, ClientDatagramDropReason::SessionClosed);
            (
                ClientModel {
                    state: SessionState::Closed,
                    handshake: None,
                    session: None,
                    queue: Seq::empty(),
                    ..m
                },
                match m.session {
                    Some(session) => notices.push(
                        ActionModel::SessionClosed {
                            peer_id: m.server_peer,
                            session_id: session.id,
                        },
                    ),
                    None => notices,
                },
            )
        } else if handshake_due(attempt, m.config, now) {
            match pending_message(attempt) {
                Some(bytes) => (sent_again(m, attempt, now), handshake_actions(m, bytes)),
                None => (m, Seq::empty()),
            }
        } else {
            (m, Seq::empty())
        },
    }
}

/// How many datagrams at the front of the queue have waited too long.
pub open spec fn overdue_count(queue: Seq<QueuedModel>, now: Instant, timeout: Duration) -> nat
    decreases queue.len(),
{
    if queue.len() > 0 && overdue(queue[0], now, timeout) {
        1 + overdue_count(queue.drop_first(), now, timeout)
    } else {
        0
    }
}

/// Time passes for the queue.
pub open spec fn expire_queue(m: ClientModel, now: Instant) -> (ClientModel, Seq<ActionModel>) {
    let count = overdue_count(m.queue, now, m.config.reconnect_queue_timeout) as int;
    let left = m.queue.skip(count);
    let notices = drop_notices(
        m.queue.take(count),
        ClientDatagramDropReason::ReconnectQueueExpired,
    );
    (
        ClientModel { queue: left, ..m },
        if left.len() > 0 {
            notices.push(ActionModel::ScheduleTimer(m.config.reconnect_queue_timeout))
        } else {
            notices
        },
    )
}

/// Conversations that have not been silent for too long.
pub open spec fn still_busy(now: Instant, timeout: Duration) -> spec_fn(
    SocketAddress,
    ConversationModel,
) -> bool {
    |local_peer: SocketAddress, conversation: ConversationModel|
        time::elapsed(now, conversation.last_activity) < timeout.length()
}

/// The reverse map without several conversations.
pub open spec fn forgotten(
    by_id: Seq<(ConversationId, SocketAddress)>,
    gone: Seq<(SocketAddress, ConversationModel)>,
) -> Seq<(ConversationId, SocketAddress)>
    decreases gone.len(),
{
    if gone.len() == 0 {
        by_id
    } else {
        table::without(forgotten(by_id, gone.drop_last()), gone.last().1.id)
    }
}

/// The identifiers of several conversations.
pub open spec fn ids_of(gone: ByPeer) -> Seq<ConversationId> {
    gone.map_values(|entry: (SocketAddress, ConversationModel)| entry.1.id)
}

/// Notices that conversations are closed.
pub open spec fn closed_notices(
    session_id: Option<SessionId>,
    gone: Seq<(SocketAddress, ConversationModel)>,
) -> Seq<ActionModel> {
    gone.map_values(
        |entry: (SocketAddress, ConversationModel)|
            ActionModel::ConversationClosed { session_id, conversation_id: entry.1.id },
    )
}

/// Time passes for the conversations.
pub open spec fn expire_conversations(m: ClientModel, now: Instant) -> (
    ClientModel,
    Seq<ActionModel>,
) {
    let busy = still_busy(now, m.config.conversation_idle_timeout);
    let gone = table::discarded(m.by_peer, busy);
    (
        ClientModel {
            by_peer: table::retained(m.by_peer, busy),
            by_id: forgotten(m.by_id, gone),
            retired: m.retired + ids_of(gone),
            ..m
        },
        closed_notices(current_session(m), gone),
    )
}

/// Time passes. A session that is ready stays so, however long it is idle.
pub open spec fn expire(m: ClientModel, now: Instant) -> (ClientModel, Seq<ActionModel>) {
    let first = if in_handshake(m.state) {
        expire_handshake(m, now)
    } else {
        (m, Seq::empty())
    };
    let second = expire_queue(first.0, now);
    let third = expire_conversations(second.0, now);
    (third.0, first.1 + second.1 + third.1)
}

/// The host closes a conversation.
pub open spec fn close(m: ClientModel, id: ConversationId) -> (ClientModel, Seq<ActionModel>) {
    match table::lookup(m.by_id, id) {
        None => (m, Seq::empty()),
        Some(local_peer) => (
            ClientModel {
                by_id: table::without(m.by_id, id),
                by_peer: table::without(m.by_peer, local_peer),
                retired: m.retired.push(id),
                ..m
            },
            seq![
                ActionModel::ConversationClosed {
                    session_id: current_session(m),
                    conversation_id: id,
                },
            ],
        ),
    }
}

/// What holds of the client's end of a session.
pub open spec fn session_valid(m: ClientModel, session: ClientSessionModel) -> bool {
    &&& session.sealer.suite == m.config.cipher_suite
    &&& session.sealer.direction == Direction::ClientToServer
    &&& session.sealer.session_id == session.id
    &&& session.opener.suite == m.config.cipher_suite
    &&& session.opener.direction == Direction::ServerToClient
    &&& session.opener.session_id == session.id
    &&& replay::window_valid(session.opener.replay)
}

/// The credentials of the conversations have their length.
pub open spec fn credentials_valid(by_peer: Seq<(SocketAddress, ConversationModel)>) -> bool {
    forall|i: int|
        0 <= i < by_peer.len() ==> ((#[trigger] by_peer[i]).1.resumption matches Some(held)
            ==> held.1.len() == CREDENTIAL_LENGTH)
}

/// Queued datagrams are not too long to be sent.
pub open spec fn queue_valid(queue: Seq<QueuedModel>, config: EngineConfig) -> bool {
    forall|i: int|
        0 <= i < queue.len() ==> (#[trigger] queue[i]).payload.len() <= config.max_frame_payload
}

/// Each local peer is found under its conversation, and each conversation under its
/// local peer.
pub open spec fn agree(by_peer: ByPeer, by_id: ById) -> bool {
    &&& forall|peer: SocketAddress| #[trigger]
        table::lookup(by_peer, peer) matches Some(conversation) ==> table::lookup(
            by_id,
            conversation.id,
        ) == Some(peer)
    &&& forall|id: ConversationId| #[trigger]
        table::lookup(by_id, id) matches Some(peer) ==> (table::lookup(
            by_peer,
            peer,
        ) matches Some(conversation) && conversation.id == id)
}

/// No open conversation has the identifier of one that was closed.
pub open spec fn apart(by_id: ById, retired: Seq<ConversationId>) -> bool {
    forall|id: ConversationId| #[trigger] retired.contains(id) ==> !table::holds(by_id, id)
}

/// What holds of a client at every moment: its limits are kept, a ready client has a
/// session, one that shakes hands has a handshake, and every local peer has a
/// conversation of its own.
pub open spec fn parts_valid(m: ClientModel) -> bool {
    &&& config::config_fault(m.config) is None
    &&& m.config.role == Role::Client
    &&& m.session matches Some(session) ==> session_valid(m, session)
    &&& m.handshake matches Some(attempt) ==> handshake::hello_valid(attempt.hello)
        && attempt.hello.suite == m.config.cipher_suite
    &&& m.state == SessionState::Ready ==> m.session is Some
    &&& in_handshake(m.state) ==> m.handshake is Some
    &&& m.queue.len() <= m.config.reconnect_queue_capacity
    &&& queue_valid(m.queue, m.config)
    &&& m.by_peer.len() <= m.config.max_conversations
    &&& table::unique_keys(m.by_peer)
    &&& table::unique_keys(m.by_id)
    &&& credentials_valid(m.by_peer)
    &&& agree(m.by_peer, m.by_id)
    &&& apart(m.by_id, m.retired)
}

/// What holds of every client between events: beside what always holds, only a client
/// that shakes hands holds datagrams back.
pub open spec fn client_valid(m: ClientModel) -> bool {
    &&& parts_valid(m)
    &&& !in_handshake(m.state) ==> m.queue.len() == 0
}

/// Drawn octets have their lengths.
pub open spec fn draws_valid(draws: ClientDraws) -> bool {
    draws.hello matches Some(hello) ==> hello.0.len() == 16 && hello.1.len() == 32
}

/// How many conversations an event may open.
pub open spec fn conversations_wanted(m: ClientModel, event: EventModel, now: Instant) -> nat {
    match event {
        EventModel::ClientDatagram { local_peer, payload } => if m.state == SessionState::Ready
            && !stale(m, now) && !table::holds(m.by_peer, local_peer) {
            1
        } else {
            0
        },
        EventModel::TunnelFrame { peer_id, bytes } => if in_handshake(m.state) {
            m.queue.len()
        } else {
            0
        },
        _ => 0,
    }
}

/// Whether an event opens a handshake.
pub open spec fn hello_wanted(m: ClientModel, event: EventModel, now: Instant) -> bool {
    match event {
        EventModel::Start => m.state == SessionState::Idle,
        EventModel::Reconnect => m.state == SessionState::Ready,
        EventModel::ClientDatagram { local_peer, payload } => m.state == SessionState::Ready
            && stale(m, now),
        _ => false,
    }
}

/// Drawn conversations have a number that is not in use, and no two have the same.
pub open spec fn conversations_valid(
    m: ClientModel,
    conversations: Seq<Option<ConversationId>>,
) -> bool {
    &&& forall|i: int|
        0 <= i < conversations.len() ==> (#[trigger] conversations[i] matches Some(id)
            ==> id.number() != 0 && conversation_unused(m, id))
    &&& forall|i: int, j: int|
        #![trigger conversations[i], conversations[j]]
        0 <= i < j < conversations.len() && conversations[i] is Some ==> conversations[i]
            != conversations[j]
}

/// What is drawn for an event: octets of the right lengths, a new identifier for each
/// conversation that it may open, and nothing that it does not call for.
pub open spec fn drawn_for(
    m: ClientModel,
    event: EventModel,
    now: Instant,
    draws: ClientDraws,
) -> bool {
    &&& draws_valid(draws)
    &&& draws.hello is Some ==> hello_wanted(m, event, now)
    &&& draws.conversations.len() == conversations_wanted(m, event, now)
    &&& conversations_valid(m, draws.conversations)
}

/// What one event does to a client.
pub open spec fn client_step(
    m: ClientModel,
    event: EventModel,
    now: Instant,
    draws: ClientDraws,
) -> ClientStep {
    match event {
        EventModel::Start => start(m, now, draws.hello),
        EventModel::Reconnect => reconnect(m, now, draws.hello),
        EventModel::ClientDatagram { local_peer, payload } => handle_local(
            m,
            local_peer,
            payload,
            now,
            draws.hello,
            drawn(draws.conversations, 0),
        ),
        EventModel::TunnelFrame { peer_id, bytes } => handle_tunnel(
            m,
            peer_id,
            bytes,
            now,
            draws.conversations,
        ),
        EventModel::TimeAdvanced(at) => {
            let next = expire(m, at);
            (next.0, Ok(next.1))
        },
        EventModel::CloseConversation { session_id, conversation_id } => if session_id is Some
            && session_id != current_session(m) {
            (m, Err(EngineError::UnknownSession))
        } else {
            let next = close(m, conversation_id);
            (next.0, Ok(next.1))
        },
        EventModel::ServerDatagram { session_id, conversation_id, payload } => (
            m,
            Err(EngineError::InvalidRole),
        ),
    }
}

} // verus!
