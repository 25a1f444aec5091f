//! What every client keeps to, whatever happens to it.

use vstd::prelude::*;

use crate::action::{ActionModel, ClientDatagramDropReason, EventModel, SessionState};
use crate::address::SocketAddress;
use crate::client_model;
use crate::client_model::{
    ByPeer, ClientDraws, ClientModel, ClientSessionModel, ConversationModel, QueuedModel,
};
use crate::conversation_laws;
use crate::error::{EngineError, RecordError};
use crate::handshake;
use crate::handshake::{HelloModel, CREDENTIAL_LENGTH};
use crate::id::{ConversationId, PeerId, SessionId};
use crate::protocol;
use crate::protocol::{FrameModel, FrameType, MAX_FRAME_PAYLOAD};
use crate::record;
use crate::record::{RecordModel, SealerModel};
use crate::replay;
use crate::table;
use crate::time;
use crate::time::{Duration, Instant};

verus! {

/// A put keeps the lengths of credentials.
proof fn lemma_put_keeps_credentials(
    by_peer: Seq<(SocketAddress, ConversationModel)>,
    local_peer: SocketAddress,
    conversation: ConversationModel,
)
    requires
        client_model::credentials_valid(by_peer),
        conversation.resumption matches Some(held) ==> held.1.len() == CREDENTIAL_LENGTH,
    ensures
        client_model::credentials_valid(table::put(by_peer, local_peer, conversation)),
{
    table::lemma_position(by_peer, local_peer);
    let changed = table::put(by_peer, local_peer, conversation);
    assert forall|i: int| 0 <= i < changed.len() implies ((#[trigger] changed[i]).1.resumption matches Some(
        held,
    ) ==> held.1.len() == CREDENTIAL_LENGTH) by {
        if i < by_peer.len() && i != table::position(by_peer, local_peer) {
            assert(changed[i] == by_peer[i]);
        }
    }
}

/// A lookup finds credentials of the right length.
proof fn lemma_looked_up_credential(
    by_peer: Seq<(SocketAddress, ConversationModel)>,
    local_peer: SocketAddress,
)
    requires
        client_model::credentials_valid(by_peer),
    ensures
        table::lookup(by_peer, local_peer) matches Some(conversation) ==> (
        conversation.resumption matches Some(held) ==> held.1.len() == CREDENTIAL_LENGTH),
{
    table::lemma_position(by_peer, local_peer);
    if table::holds(by_peer, local_peer) {
        assert(by_peer[table::position(by_peer, local_peer)].1 == table::lookup(
            by_peer,
            local_peer,
        )->Some_0);
    }
}

proof fn lemma_without_keeps_credentials(
    by_peer: Seq<(SocketAddress, ConversationModel)>,
    local_peer: SocketAddress,
)
    requires
        client_model::credentials_valid(by_peer),
    ensures
        client_model::credentials_valid(table::without(by_peer, local_peer)),
{
    table::lemma_position(by_peer, local_peer);
    let changed = table::without(by_peer, local_peer);
    let at = table::position(by_peer, local_peer);
    assert forall|i: int| 0 <= i < changed.len() implies ((#[trigger] changed[i]).1.resumption matches Some(
        held,
    ) ==> held.1.len() == CREDENTIAL_LENGTH) by {
        if table::holds(by_peer, local_peer) && i >= at {
            assert(changed[i] == by_peer[i + 1]);
        } else {
            assert(changed[i] == by_peer[i]);
        }
    }
}

proof fn lemma_begin_handshake_keeps(
    m: ClientModel,
    now: Instant,
    state: SessionState,
    draw: Option<(Seq<u8>, Seq<u8>)>,
)
    requires
        client_model::parts_valid(m),
        draw matches Some(hello) ==> hello.0.len() == 16 && hello.1.len() == 32,
        client_model::in_handshake(state),
    ensures
        client_model::parts_valid(client_model::begin_handshake(m, now, state, draw).0),
{
    if m.by_peer.len() > 0 {
        assert(m.by_peer[0].1.resumption matches Some(held) ==> held.1.len() == CREDENTIAL_LENGTH);
    }
}

proof fn lemma_begin_reconnect_keeps(
    m: ClientModel,
    now: Instant,
    draw: Option<(Seq<u8>, Seq<u8>)>,
)
    requires
        client_model::parts_valid(m),
        draw matches Some(hello) ==> hello.0.len() == 16 && hello.1.len() == 32,
    ensures
        client_model::parts_valid(client_model::begin_reconnect(m, now, draw).0),
{
    let bare = ClientModel { session: None, handshake: None, state: SessionState::Closed, ..m };
    lemma_begin_handshake_keeps(bare, now, SessionState::Reconnecting, draw);
}

proof fn lemma_send_local_keeps(
    m: ClientModel,
    local_peer: SocketAddress,
    payload: Seq<u8>,
    now: Instant,
    draw: Option<ConversationId>,
)
    requires
        client_model::parts_valid(m),
    ensures
        client_model::parts_valid(
            client_model::send_local(m, local_peer, payload, now, draw).0,
        ),
        client_model::send_local(m, local_peer, payload, now, draw).0.queue == m.queue,
        client_model::send_local(m, local_peer, payload, now, draw).0.state == m.state,
        client_model::send_local(m, local_peer, payload, now, draw).0.config == m.config,
{
    lemma_looked_up_credential(m.by_peer, local_peer);
    match table::lookup(m.by_peer, local_peer) {
        Some(conversation) => {
            let active = ConversationModel { last_activity: now, ..conversation };
            table::lemma_put(m.by_peer, local_peer, active, local_peer);
            lemma_put_keeps_credentials(m.by_peer, local_peer, active);
            conversation_laws::lemma_activity_keeps(m.by_peer, m.by_id, local_peer, active);
        },
        None => {
            match draw {
                Some(id) if client_model::conversation_unused(m, id) => {
                    let opened = ConversationModel { id, last_activity: now, resumption: None };
                    table::lemma_put(m.by_peer, local_peer, opened, local_peer);
                    lemma_put_keeps_credentials(m.by_peer, local_peer, opened);
                    table::lemma_put(m.by_id, id, local_peer, id);
                    conversation_laws::lemma_opening_keeps(
                        m.by_peer,
                        m.by_id,
                        local_peer,
                        opened,
                    );
                    conversation_laws::lemma_opening_stays_apart(
                        m.by_id,
                        m.retired,
                        id,
                        local_peer,
                    );
                },
                _ => {},
            }
        },
    }
}

/// A part of a valid queue is valid.
proof fn lemma_part_of_queue(
    queue: Seq<QueuedModel>,
    config: crate::config::EngineConfig,
    from: int,
    to: int,
)
    requires
        client_model::queue_valid(queue, config),
        0 <= from <= to <= queue.len(),
    ensures
        client_model::queue_valid(queue.subrange(from, to), config),
        from == 1 && to == queue.len() ==> client_model::queue_valid(queue.drop_first(), config),
        to == queue.len() ==> client_model::queue_valid(queue.skip(from), config),
{
    let part = queue.subrange(from, to);
    assert forall|i: int| 0 <= i < part.len() implies (#[trigger] part[i]).payload.len()
        <= config.max_frame_payload by {
        assert(part[i] == queue[from + i]);
    }
    if to == queue.len() {
        assert(queue.skip(from) =~= part);
        if from == 1 {
            assert(queue.drop_first() =~= part);
        }
    }
}

/// A datagram that is not too long may be queued.
proof fn lemma_enqueue_keeps(
    m: ClientModel,
    local_peer: SocketAddress,
    payload: Seq<u8>,
    now: Instant,
)
    requires
        client_model::parts_valid(m),
        payload.len() <= m.config.max_frame_payload,
    ensures
        client_model::parts_valid(client_model::enqueue(m, local_peer, payload, now).0),
{
    let queue = m.queue.push(QueuedModel { local_peer, payload, queued_at: now });
    assert forall|i: int| 0 <= i < queue.len() implies (#[trigger] queue[i]).payload.len()
        <= m.config.max_frame_payload by {
        if i < m.queue.len() {
            assert(queue[i] == m.queue[i]);
        }
    }
}

proof fn lemma_flush_keeps(
    m: ClientModel,
    now: Instant,
    draws: Seq<Option<ConversationId>>,
    from: int,
    count: nat,
)
    requires
        client_model::parts_valid(m),
        m.state == SessionState::Ready,
        count <= m.queue.len(),
    ensures
        client_model::parts_valid(client_model::flush_queue(m, now, draws, from, count).0),
        client_model::flush_queue(m, now, draws, from, count).0.queue == m.queue.skip(count as int),
        client_model::flush_queue(m, now, draws, from, count).0.state == SessionState::Ready,
    decreases count,
{
    if count == 0 {
        assert(m.queue.skip(0) =~= m.queue);
    } else {
        let rest = ClientModel { queue: m.queue.drop_first(), ..m };
        let queued = m.queue[0];
        lemma_part_of_queue(m.queue, m.config, 1, m.queue.len() as int);
        lemma_send_local_keeps(
            rest,
            queued.local_peer,
            queued.payload,
            now,
            client_model::drawn(draws, from),
        );
        let first = client_model::flush_one(m, now, client_model::drawn(draws, from));
        assert(first.0.queue == m.queue.drop_first());
        lemma_flush_keeps(first.0, now, draws, from + 1, (count - 1) as nat);
        assert(m.queue.drop_first().skip(count - 1) =~= m.queue.skip(count as int));
    }
}

proof fn lemma_establish_keeps(
    m: ClientModel,
    session: ClientSessionModel,
    now: Instant,
    draws: Seq<Option<ConversationId>>,
)
    requires
        client_model::parts_valid(m),
        client_model::session_valid(m, session),
    ensures
        client_model::parts_valid(client_model::establish(m, session, now, draws).0),
        client_model::establish(m, session, now, draws).0.state == SessionState::Ready,
        client_model::establish(m, session, now, draws).0.queue.len() == 0,
{
    let ready = client_model::confirmed(m, session, now);
    lemma_flush_keeps(ready, now, draws, 0, m.queue.len());
}

proof fn lemma_receive_record_keeps(
    m: ClientModel,
    session_id: SessionId,
    record: RecordModel,
    now: Instant,
)
    requires
        client_model::parts_valid(m),
    ensures
        client_model::parts_valid(client_model::receive_record(m, session_id, record, now).0),
{
    if record.conversation_id is Some {
        match table::lookup(m.by_id, record.conversation_id->Some_0) {
            Some(local_peer) => {
                lemma_looked_up_credential(m.by_peer, local_peer);
                match table::lookup(m.by_peer, local_peer) {
                    Some(conversation) => {
                        let active = ConversationModel { last_activity: now, ..conversation };
                        let credited = ConversationModel {
                            last_activity: now,
                            resumption: Some((session_id, record.plaintext)),
                            ..conversation
                        };
                        table::lemma_put(m.by_peer, local_peer, active, local_peer);
                        table::lemma_put(m.by_peer, local_peer, credited, local_peer);
                        conversation_laws::lemma_activity_keeps(
                            m.by_peer,
                            m.by_id,
                            local_peer,
                            active,
                        );
                        conversation_laws::lemma_activity_keeps(
                            m.by_peer,
                            m.by_id,
                            local_peer,
                            credited,
                        );
                        lemma_put_keeps_credentials(m.by_peer, local_peer, active);
                        if record.plaintext.len() == CREDENTIAL_LENGTH {
                            lemma_put_keeps_credentials(m.by_peer, local_peer, credited);
                        }
                    },
                    None => {},
                }
            },
            None => {},
        }
    }
}

proof fn lemma_handle_protected_keeps(
    m: ClientModel,
    envelope: FrameModel,
    bytes: Seq<u8>,
    now: Instant,
    draws: Seq<Option<ConversationId>>,
)
    requires
        client_model::parts_valid(m),
    ensures
        client_model::parts_valid(
            client_model::handle_protected(m, envelope, bytes, now, draws).0,
        ),
{
    match m.session {
        None => {},
        Some(session) => {
            let seen = ClientSessionModel {
                opener: record::after_opening(session.opener, bytes),
                ..session
            };
            if record::opened(session.opener, bytes) is Ok {
                replay::law_window_stays_valid(
                    session.opener.replay,
                    protocol::decoded(bytes)->Ok_0.packet_number,
                );
            }
            assert(client_model::session_valid(m, seen));
            match record::opened(session.opener, bytes) {
                Ok(record) => {
                    lemma_establish_keeps(m, seen, now, draws);
                    let fresh = ClientModel {
                        session: Some(ClientSessionModel { last_received_at: now, ..seen }),
                        ..m
                    };
                    lemma_receive_record_keeps(fresh, session.id, record, now);
                },
                Err(_) => {},
            }
        },
    }
}

proof fn lemma_handle_server_hello_keeps(m: ClientModel, frame: FrameModel, now: Instant)
    requires
        client_model::parts_valid(m),
    ensures
        client_model::parts_valid(client_model::handle_server_hello(m, frame, now).0),
{
}

proof fn lemma_handle_hello_retry_keeps(m: ClientModel, frame: FrameModel, now: Instant)
    requires
        client_model::parts_valid(m),
    ensures
        client_model::parts_valid(client_model::handle_hello_retry(m, frame, now).0),
{
}

pub proof fn lemma_overdue_count(
    queue: Seq<client_model::QueuedModel>,
    now: Instant,
    timeout: Duration,
)
    ensures
        client_model::overdue_count(queue, now, timeout) <= queue.len(),
        forall|i: int|
            0 <= i < client_model::overdue_count(queue, now, timeout) ==> client_model::overdue(
                #[trigger] queue[i],
                now,
                timeout,
            ),
        client_model::overdue_count(queue, now, timeout) < queue.len() ==> !client_model::overdue(
            queue[client_model::overdue_count(queue, now, timeout) as int],
            now,
            timeout,
        ),
    decreases queue.len(),
{
    if queue.len() > 0 && client_model::overdue(queue[0], now, timeout) {
        let rest = queue.drop_first();
        lemma_overdue_count(rest, now, timeout);
        let count = client_model::overdue_count(queue, now, timeout);
        assert forall|i: int| 0 <= i < count implies client_model::overdue(
            #[trigger] queue[i],
            now,
            timeout,
        ) by {
            if i > 0 {
                assert(rest[i - 1] == queue[i]);
            }
        }
        if count < queue.len() {
            assert(rest[count - 1] == queue[count as int]);
        }
    }
}

proof fn lemma_forgotten(
    by_id: Seq<(ConversationId, SocketAddress)>,
    gone: Seq<(SocketAddress, ConversationModel)>,
)
    requires
        table::unique_keys(by_id),
    ensures
        table::unique_keys(client_model::forgotten(by_id, gone)),
    decreases gone.len(),
{
    if gone.len() > 0 {
        lemma_forgotten(by_id, gone.drop_last());
        table::lemma_without(
            client_model::forgotten(by_id, gone.drop_last()),
            gone.last().1.id,
            gone.last().1.id,
        );
    }
}

proof fn lemma_expire_keeps(m: ClientModel, now: Instant)
    requires
        client_model::parts_valid(m),
    ensures
        client_model::parts_valid(client_model::expire(m, now).0),
{
    let first = if client_model::in_handshake(m.state) {
        client_model::expire_handshake(m, now)
    } else {
        (m, Seq::empty())
    };
    assert(client_model::parts_valid(first.0));
    lemma_overdue_count(first.0.queue, now, first.0.config.reconnect_queue_timeout);
    lemma_part_of_queue(
        first.0.queue,
        first.0.config,
        client_model::overdue_count(
            first.0.queue,
            now,
            first.0.config.reconnect_queue_timeout,
        ) as int,
        first.0.queue.len() as int,
    );
    let second = client_model::expire_queue(first.0, now);
    assert(client_model::parts_valid(second.0));
    let busy = client_model::still_busy(now, second.0.config.conversation_idle_timeout);
    table::lemma_retained(second.0.by_peer, busy);
    let kept = table::retained(second.0.by_peer, busy);
    assert forall|i: int| 0 <= i < kept.len() implies ((#[trigger] kept[i]).1.resumption matches Some(
        held,
    ) ==> held.1.len() == CREDENTIAL_LENGTH) by {
        let j = choose|j: int|
            0 <= j < second.0.by_peer.len() && second.0.by_peer[j] == kept[i];
        assert(second.0.by_peer[j].1 == kept[i].1);
    }
    let gone = table::discarded(second.0.by_peer, busy);
    lemma_forgotten(second.0.by_id, gone);
    conversation_laws::lemma_expiry_keeps(second.0.by_peer, second.0.by_id, busy);
    conversation_laws::lemma_expiry_stays_apart(second.0.by_id, second.0.retired, gone);
}

/// Whatever happens, a client stays valid: its queue and its conversations stay
/// within their limits, a ready client has a session, a client that shakes hands
/// has a handshake and no other client holds datagrams back, and every local peer has
/// a conversation of its own.
pub proof fn law_client_stays_valid(
    m: ClientModel,
    event: EventModel,
    now: Instant,
    draws: ClientDraws,
)
    requires
        client_model::client_valid(m),
        client_model::draws_valid(draws),
    ensures
        client_model::client_valid(client_model::client_step(m, event, now, draws).0),
{
    lemma_parts_stay_valid(m, event, now, draws);
    law_only_handshakes_hold_datagrams(m, event, now, draws);
}

proof fn lemma_parts_stay_valid(
    m: ClientModel,
    event: EventModel,
    now: Instant,
    draws: ClientDraws,
)
    requires
        client_model::parts_valid(m),
        client_model::draws_valid(draws),
    ensures
        client_model::parts_valid(client_model::client_step(m, event, now, draws).0),
{
    match event {
        EventModel::Start => {
            lemma_begin_handshake_keeps(m, now, SessionState::Handshaking, draws.hello);
        },
        EventModel::Reconnect => {
            lemma_begin_reconnect_keeps(m, now, draws.hello);
        },
        EventModel::ClientDatagram { local_peer, payload } => {
            lemma_send_local_keeps(
                m,
                local_peer,
                payload,
                now,
                client_model::drawn(draws.conversations, 0),
            );
            lemma_begin_reconnect_keeps(m, now, draws.hello);
            if payload.len() <= m.config.max_frame_payload {
                let bare = client_model::begin_reconnect(m, now, draws.hello).0;
                assert(bare.config == m.config);
                lemma_enqueue_keeps(m, local_peer, payload, now);
                lemma_enqueue_keeps(bare, local_peer, payload, now);
            }
        },
        EventModel::TunnelFrame { peer_id, bytes } => {
            match protocol::decoded(bytes) {
                Ok(envelope) => {
                    lemma_handle_hello_retry_keeps(m, envelope, now);
                    lemma_handle_server_hello_keeps(m, envelope, now);
                    lemma_handle_protected_keeps(m, envelope, bytes, now, draws.conversations);
                },
                Err(_) => {},
            }
        },
        EventModel::TimeAdvanced(at) => {
            lemma_expire_keeps(m, at);
        },
        EventModel::CloseConversation { session_id, conversation_id } => {
            match table::lookup(m.by_id, conversation_id) {
                Some(local_peer) => {
                    table::lemma_without(m.by_id, conversation_id, conversation_id);
                    table::lemma_without(m.by_peer, local_peer, local_peer);
                    lemma_without_keeps_credentials(m.by_peer, local_peer);
                    conversation_laws::lemma_closing_keeps(m.by_peer, m.by_id, conversation_id);
                    conversation_laws::lemma_closing_stays_apart(
                        m.by_id,
                        m.retired,
                        conversation_id,
                    );
                },
                None => {},
            }
        },
        EventModel::ServerDatagram { session_id, conversation_id, payload } => {},
    }
}

/// A new client is valid.
pub proof fn law_new_client_is_valid(
    config: crate::config::EngineConfig,
    psk: Seq<u8>,
    server_peer: PeerId,
)
    requires
        crate::config::config_fault(config) is None,
        config.role == crate::config::Role::Client,
    ensures
        client_model::client_valid(client_model::new_client(config, psk, server_peer)),
{
}

/// Before a session is ready no local payload leaves the client: a datagram is
/// refused, or queued, or dropped because the queue is full.
pub proof fn law_no_data_before_ready(
    m: ClientModel,
    local_peer: SocketAddress,
    payload: Seq<u8>,
    now: Instant,
    draws: ClientDraws,
)
    requires
        m.state != SessionState::Ready,
    ensures
        ({
            let step = client_model::client_step(
                m,
                EventModel::ClientDatagram { local_peer, payload },
                now,
                draws,
            );
            match step.1 {
                Err(error) => step.0 == m && (error == EngineError::PayloadTooLarge || (error
                    == EngineError::SessionNotReady && !client_model::in_handshake(m.state))),
                Ok(actions) => client_model::in_handshake(m.state) && actions.len() == 1 && !(
                actions[0] is SendTunnelFrame),
            }
        }),
{
}

/// A client becomes ready only through a confirmation that its server sealed under
/// the keys of the session.
pub proof fn law_ready_needs_confirmation(
    m: ClientModel,
    event: EventModel,
    now: Instant,
    draws: ClientDraws,
)
    requires
        m.state != SessionState::Ready,
        client_model::client_step(m, event, now, draws).0.state == SessionState::Ready,
    ensures
        confirms(m, event),
{
}

/// Whether an event carries the server's confirmation of the session under way.
pub open spec fn confirms(m: ClientModel, event: EventModel) -> bool {
    match event {
        EventModel::TunnelFrame { peer_id, bytes } => {
            &&& peer_id == m.server_peer
            &&& client_model::in_handshake(m.state)
            &&& m.session is Some
            &&& match record::opened(m.session->Some_0.opener, bytes) {
                Ok(record) => record.frame_type == FrameType::HandshakeAck,
                Err(_) => false,
            }
        },
        _ => false,
    }
}

/// The payload that an event carries for a local peer: that of a data record of
/// the ready session, for the peer of the conversation that the record names.
pub open spec fn carried_payload(m: ClientModel, event: EventModel) -> Option<
    (SocketAddress, Seq<u8>),
> {
    match event {
        EventModel::TunnelFrame { peer_id, bytes } => if peer_id == m.server_peer && m.state
            == SessionState::Ready && m.session is Some {
            match record::opened(m.session->Some_0.opener, bytes) {
                Ok(record) => if record.frame_type == FrameType::Data
                    && record.conversation_id is Some {
                    match table::lookup(m.by_id, record.conversation_id->Some_0) {
                        Some(local_peer) => Some((local_peer, record.plaintext)),
                        None => None,
                    }
                } else {
                    None
                },
                Err(_) => None,
            }
        } else {
            None
        },
        _ => None,
    }
}

/// A frame that does not come from the server, is no frame, does not open, or
/// carries a handshake message that is not authentic, leaves the client as it was.
pub proof fn law_unauthentic_frames_change_nothing(
    m: ClientModel,
    peer_id: PeerId,
    bytes: Seq<u8>,
    now: Instant,
    draws: ClientDraws,
)
    requires
        peer_id != m.server_peer || protocol::decoded(bytes) is Err || (protocol::decoded(
            bytes,
        ) matches Ok(frame) && match frame.frame_type {
            FrameType::HelloRetry => handshake::retry_of_frame(frame) is Err || (
            m.handshake matches Some(attempt) && handshake::hello_after_retry(
                m.psk,
                attempt.hello,
                handshake::retry_of_frame(frame)->Ok_0,
            ) is Err),
            FrameType::ServerHello => handshake::answer_of_frame(frame) is Err || (
            m.handshake matches Some(attempt) && handshake::answer_verdict(
                m.psk,
                attempt.hello,
                frame.session_id,
                handshake::answer_of_frame(frame)->Ok_0,
            ) is Err),
            _ => m.session matches Some(session) ==> record::opened(session.opener, bytes) is Err,
        }),
    ensures
        client_model::client_step(
            m,
            EventModel::TunnelFrame { peer_id, bytes },
            now,
            draws,
        ).0 =~= m,
{
}

/// Whatever a client hands to a local peer was opened as a record of its session,
/// and the peer is the one whose conversation the record names. With what opening
/// promises, neither tampering nor replay ever delivers a payload.
pub proof fn law_only_authentic_payloads_are_delivered(
    m: ClientModel,
    event: EventModel,
    now: Instant,
    draws: ClientDraws,
    at: int,
)
    requires
        client_model::client_step(m, event, now, draws).1 matches Ok(actions) && 0 <= at
            < actions.len() && actions[at] is DeliverToClient,
    ensures
        carried_payload(m, event) is Some,
        client_model::client_step(m, event, now, draws).1->Ok_0[at]
            == (ActionModel::DeliverToClient {
            local_peer: carried_payload(m, event)->Some_0.0,
            payload: carried_payload(m, event)->Some_0.1,
        }),
{
    let actions = client_model::client_step(m, event, now, draws).1->Ok_0;
    match event {
        EventModel::TimeAdvanced(now_at) => {
            lemma_expire_delivers_nothing(m, now_at);
        },
        EventModel::TunnelFrame { peer_id, bytes } => {
            match m.session {
                Some(session) => {
                    let seen = ClientSessionModel {
                        opener: record::after_opening(session.opener, bytes),
                        ..session
                    };
                    lemma_establish_delivers_nothing(m, seen, now, draws.conversations);
                },
                None => {},
            }
        },
        _ => {},
    }
}

/// No action hands a payload to a local peer.
spec fn delivers_nothing(actions: Seq<ActionModel>) -> bool {
    forall|i: int| 0 <= i < actions.len() ==> !((#[trigger] actions[i]) is DeliverToClient)
}

proof fn lemma_flush_delivers_nothing(
    m: ClientModel,
    now: Instant,
    draws: Seq<Option<ConversationId>>,
    from: int,
    count: nat,
)
    ensures
        delivers_nothing(client_model::flush_queue(m, now, draws, from, count).1),
    decreases count,
{
    if count > 0 {
        let first = client_model::flush_one(m, now, client_model::drawn(draws, from));
        assert(delivers_nothing(first.1));
        lemma_flush_delivers_nothing(first.0, now, draws, from + 1, (count - 1) as nat);
    }
}

proof fn lemma_establish_delivers_nothing(
    m: ClientModel,
    session: ClientSessionModel,
    now: Instant,
    draws: Seq<Option<ConversationId>>,
)
    ensures
        client_model::establish(m, session, now, draws).1 matches Ok(actions) && delivers_nothing(
            actions,
        ),
{
    let ready = client_model::confirmed(m, session, now);
    lemma_flush_delivers_nothing(ready, now, draws, 0, m.queue.len());
}

proof fn lemma_expire_delivers_nothing(m: ClientModel, now: Instant)
    ensures
        delivers_nothing(client_model::expire(m, now).1),
{
    let first = if client_model::in_handshake(m.state) {
        client_model::expire_handshake(m, now)
    } else {
        (m, Seq::empty())
    };
    assert(delivers_nothing(first.1));
    let second = client_model::expire_queue(first.0, now);
    assert(delivers_nothing(second.1));
    let third = client_model::expire_conversations(second.0, now);
    assert(delivers_nothing(third.1));
}

/// Whether an action tells what became of a datagram: it went out, or it was
/// dropped.
pub open spec fn settles(action: ActionModel) -> bool {
    action is SendTunnelFrame || action is ClientDatagramDropped
}

/// The actions that tell what became of datagrams, in their order.
pub open spec fn outcomes(actions: Seq<ActionModel>) -> Seq<ActionModel>
    decreases actions.len(),
{
    if actions.len() == 0 {
        Seq::empty()
    } else {
        let earlier = outcomes(actions.drop_last());
        if settles(actions.last()) {
            earlier.push(actions.last())
        } else {
            earlier
        }
    }
}

/// Whether a frame is a datagram that the client sealed over a session as the data of
/// the conversation of its local peer.
pub open spec fn carries(
    bytes: Seq<u8>,
    sealer: SealerModel,
    by_peer: ByPeer,
    queued: QueuedModel,
) -> bool {
    table::lookup(by_peer, queued.local_peer) matches Some(conversation) && record::sealed(
        sealer,
        FrameType::Data,
        Some(conversation.id),
        queued.payload,
    ) == Ok::<Seq<u8>, RecordError>(bytes)
}

/// Whether an action tells what became of a queued datagram, where `turn` is the
/// client when the turn of the datagram came and `by_peer` are the conversations that
/// it has in the end.
pub open spec fn settles_datagram(
    action: ActionModel,
    queued: QueuedModel,
    server_peer: PeerId,
    turn: ClientModel,
    by_peer: ByPeer,
    now: Instant,
) -> bool {
    match action {
        ActionModel::SendTunnelFrame { peer_id, bytes } => peer_id == server_peer && (
        turn.session matches Some(session) && carries(bytes, session.sealer, by_peer, queued)),
        ActionModel::ClientDatagramDropped { local_peer, reason } => local_peer
            == queued.local_peer && reason == if time::elapsed(now, queued.queued_at)
            >= turn.config.reconnect_queue_timeout.length() {
            ClientDatagramDropReason::ReconnectQueueExpired
        } else {
            ClientDatagramDropReason::SessionClosed
        },
        _ => false,
    }
}

proof fn lemma_outcomes_join(a: Seq<ActionModel>, b: Seq<ActionModel>)
    ensures
        outcomes(a + b) == outcomes(a) + outcomes(b),
    decreases b.len(),
{
    if b.len() == 0 {
        assert(a + b =~= a);
        assert(outcomes(a) + outcomes(b) =~= outcomes(a));
    } else {
        lemma_outcomes_join(a, b.drop_last());
        assert((a + b).drop_last() =~= a + b.drop_last());
        assert(outcomes(a + b) =~= outcomes(a) + outcomes(b));
    }
}

/// Whether a ready client can send a queued datagram: it has not waited too long, it
/// is not too long, it belongs to a known conversation or there is room and an
/// identifier for a new one, and the session can seal it.
pub open spec fn sendable(
    m: ClientModel,
    queued: QueuedModel,
    now: Instant,
    draw: Option<ConversationId>,
) -> bool {
    &&& time::elapsed(now, queued.queued_at) < m.config.reconnect_queue_timeout.length()
    &&& queued.payload.len() <= m.config.max_frame_payload
    &&& m.session matches Some(session) && match table::lookup(m.by_peer, queued.local_peer) {
        Some(conversation) => record::sealed(
            session.sealer,
            FrameType::Data,
            Some(conversation.id),
            queued.payload,
        ) is Ok,
        None => m.by_peer.len() < m.config.max_conversations && (draw matches Some(id)
            && !table::holds(m.by_id, id) && !m.retired.contains(id) && record::sealed(
            session.sealer,
            FrameType::Data,
            Some(id),
            queued.payload,
        ) is Ok),
    }
}

proof fn lemma_flush_one_settles(m: ClientModel, now: Instant, draw: Option<ConversationId>)
    requires
        m.state == SessionState::Ready,
        m.queue.len() > 0,
    ensures
        ({
            let first = client_model::flush_one(m, now, draw);
            &&& first.0.state == SessionState::Ready
            &&& first.0.server_peer == m.server_peer
            &&& first.0.queue == m.queue.drop_first()
            &&& outcomes(first.1).len() == 1
            &&& settles_datagram(
                outcomes(first.1)[0],
                m.queue[0],
                m.server_peer,
                m,
                first.0.by_peer,
                now,
            )
            &&& outcomes(first.1)[0] is SendTunnelFrame == sendable(m, m.queue[0], now, draw)
        }),
{
    let first = client_model::flush_one(m, now, draw);
    let queued = m.queue[0];
    let rest = ClientModel { queue: m.queue.drop_first(), ..m };
    reveal_with_fuel(outcomes, 3);
    let sent = client_model::send_checked(rest, queued.local_peer, queued.payload, now, draw);
    if sent.1 is Ok && !client_model::overdue(queued, now, m.config.reconnect_queue_timeout) {
        let session = m.session->Some_0;
        let id = match table::lookup(m.by_peer, queued.local_peer) {
            Some(conversation) => conversation.id,
            None => draw->Some_0,
        };
        assert(record::sealed(session.sealer, FrameType::Data, Some(id), queued.payload) is Ok);
        let bytes = record::sealed(
            session.sealer,
            FrameType::Data,
            Some(id),
            queued.payload,
        )->Ok_0;
        let known = match table::lookup(m.by_peer, queued.local_peer) {
            Some(conversation) => ConversationModel { last_activity: now, ..conversation },
            None => ConversationModel { id, last_activity: now, resumption: None },
        };
        table::lemma_put(m.by_peer, queued.local_peer, known, queued.local_peer);
        assert(first.0.by_peer == table::put(m.by_peer, queued.local_peer, known));
        assert(carries(bytes, session.sealer, first.0.by_peer, queued));
        let send = ActionModel::SendTunnelFrame { peer_id: m.server_peer, bytes };
        assert(first.1.last() == send);
        assert(first.1.len() <= 2);
        if first.1.len() == 2 {
            assert(first.1.drop_last().last() is ConversationOpened);
            assert(first.1.drop_last().drop_last() =~= Seq::empty());
        } else {
            assert(first.1.drop_last() =~= Seq::empty());
        }
    } else {
        assert(first.1.drop_last() =~= Seq::empty());
    }
}

/// Sending the queue leaves every local peer its conversation.
proof fn lemma_flush_keeps_identifiers(
    m: ClientModel,
    now: Instant,
    draws: Seq<Option<ConversationId>>,
    from: int,
    count: nat,
    peer: SocketAddress,
)
    ensures
        table::lookup(m.by_peer, peer) matches Some(conversation) ==> (table::lookup(
            client_model::flush_queue(m, now, draws, from, count).0.by_peer,
            peer,
        ) matches Some(later) && later.id == conversation.id),
    decreases count,
{
    if count > 0 {
        let draw = client_model::drawn(draws, from);
        let first = client_model::flush_one(m, now, draw).0;
        let other = m.queue[0].local_peer;
        let known = match table::lookup(m.by_peer, other) {
            Some(conversation) => ConversationModel { last_activity: now, ..conversation },
            None => ConversationModel { id: draw->Some_0, last_activity: now, resumption: None },
        };
        table::lemma_put(m.by_peer, other, known, peer);
        assert(first.by_peer == m.by_peer || first.by_peer == table::put(
            m.by_peer,
            other,
            known,
        ));
        lemma_flush_keeps_identifiers(first, now, draws, from + 1, (count - 1) as nat, peer);
    }
}

/// Whether what is told of the datagram at a place of the queue is what became of it:
/// it was sent exactly where that could be done when its turn came.
pub open spec fn settled_at(
    m: ClientModel,
    now: Instant,
    draws: Seq<Option<ConversationId>>,
    from: int,
    by_peer: ByPeer,
    told: ActionModel,
    i: int,
) -> bool {
    let turn = client_model::flush_queue(m, now, draws, from, i as nat).0;
    &&& settles_datagram(told, m.queue[i], m.server_peer, turn, by_peer, now)
    &&& told is SendTunnelFrame == sendable(
        turn,
        m.queue[i],
        now,
        client_model::drawn(draws, from + i),
    )
}

proof fn lemma_flush_settles(
    m: ClientModel,
    now: Instant,
    draws: Seq<Option<ConversationId>>,
    from: int,
    count: nat,
)
    requires
        m.state == SessionState::Ready,
        count <= m.queue.len(),
    ensures
        ({
            let flushed = client_model::flush_queue(m, now, draws, from, count);
            let told = outcomes(flushed.1);
            &&& told.len() == count
            &&& forall|i: int|
                0 <= i < count ==> settled_at(
                    m,
                    now,
                    draws,
                    from,
                    flushed.0.by_peer,
                    #[trigger] told[i],
                    i,
                )
        }),
    decreases count,
{
    if count > 0 {
        let draw = client_model::drawn(draws, from);
        let first = client_model::flush_one(m, now, draw);
        let rest = client_model::flush_queue(first.0, now, draws, from + 1, (count - 1) as nat);
        lemma_flush_one_settles(m, now, draw);
        lemma_flush_settles(first.0, now, draws, from + 1, (count - 1) as nat);
        lemma_flush_keeps_identifiers(
            first.0,
            now,
            draws,
            from + 1,
            (count - 1) as nat,
            m.queue[0].local_peer,
        );
        lemma_outcomes_join(first.1, rest.1);
        let told = outcomes(first.1 + rest.1);
        assert forall|i: int| 0 <= i < count implies settled_at(
            m,
            now,
            draws,
            from,
            rest.0.by_peer,
            #[trigger] told[i],
            i,
        ) by {
            if i > 0 {
                assert(told[i] == outcomes(rest.1)[i - 1]);
                assert(first.0.queue[i - 1] == m.queue[i]);
                assert(client_model::flush_queue(m, now, draws, from, i as nat).0
                    == client_model::flush_queue(
                    first.0,
                    now,
                    draws,
                    from + 1,
                    (i - 1) as nat,
                ).0);
            } else {
                assert(client_model::flush_queue(m, now, draws, from, 0).0 == m);
            }
        }
    }
}

proof fn lemma_notices_settle_nothing(
    session_id: Option<SessionId>,
    gone: Seq<(SocketAddress, ConversationModel)>,
)
    ensures
        outcomes(client_model::closed_notices(session_id, gone)).len() == 0,
    decreases gone.len(),
{
    let notices = client_model::closed_notices(session_id, gone);
    if gone.len() > 0 {
        lemma_notices_settle_nothing(session_id, gone.drop_last());
        assert(notices.drop_last() =~= client_model::closed_notices(session_id, gone.drop_last()));
        assert(!settles(notices.last()));
    }
}

/// The session that an event confirms, as it is once the confirmation is opened.
pub open spec fn confirmed_session(m: ClientModel, event: EventModel) -> ClientSessionModel {
    let session = m.session->Some_0;
    ClientSessionModel {
        opener: record::after_opening(session.opener, event->TunnelFrame_bytes),
        ..session
    }
}

/// Once a session is confirmed, the queue is settled: what became of the datagrams
/// that waited is told one by one in the order in which they came, none is left, and
/// each was sent to the server, over that session and in the conversation of its local
/// peer, exactly where that could be done when its turn came; else its loss was
/// reported.
pub proof fn law_confirmation_settles_the_queue(
    m: ClientModel,
    event: EventModel,
    now: Instant,
    draws: ClientDraws,
)
    requires
        client_model::client_valid(m),
        client_model::in_handshake(m.state),
        client_model::client_step(m, event, now, draws).0.state == SessionState::Ready,
    ensures
        ({
            let step = client_model::client_step(m, event, now, draws);
            let told = outcomes(step.1->Ok_0);
            &&& step.0.queue.len() == 0
            &&& step.1 is Ok
            &&& told.len() == m.queue.len()
            &&& forall|i: int|
                0 <= i < m.queue.len() ==> settled_at(
                    client_model::confirmed(m, confirmed_session(m, event), now),
                    now,
                    draws.conversations,
                    0,
                    step.0.by_peer,
                    #[trigger] told[i],
                    i,
                )
        }),
{
    law_ready_needs_confirmation(m, event, now, draws);
    let bytes = event->TunnelFrame_bytes;
    let session = m.session->Some_0;
    let seen = ClientSessionModel {
        opener: record::after_opening(session.opener, bytes),
        ..session
    };
    replay::law_window_stays_valid(
        session.opener.replay,
        protocol::decoded(bytes)->Ok_0.packet_number,
    );
    lemma_establish_keeps(m, seen, now, draws.conversations);
    lemma_establish_settles(m, seen, now, draws.conversations);
}

proof fn lemma_establish_settles(
    m: ClientModel,
    session: ClientSessionModel,
    now: Instant,
    draws: Seq<Option<ConversationId>>,
)
    ensures
        ({
            let step = client_model::establish(m, session, now, draws);
            let ready = client_model::confirmed(m, session, now);
            let told = outcomes(step.1->Ok_0);
            &&& told == outcomes(
                client_model::flush_queue(ready, now, draws, 0, m.queue.len()).1,
            )
            &&& told.len() == m.queue.len()
            &&& forall|i: int|
                0 <= i < m.queue.len() ==> settled_at(
                    ready,
                    now,
                    draws,
                    0,
                    step.0.by_peer,
                    #[trigger] told[i],
                    i,
                )
        }),
{
    let ready = client_model::confirmed(m, session, now);
    let notices = if client_model::conversations_dropped(m, session) {
        client_model::closed_notices(None, m.by_peer)
    } else {
        Seq::empty()
    };
    let established = ActionModel::SessionEstablished {
        peer_id: m.server_peer,
        session_id: session.id,
        cipher_suite: m.config.cipher_suite,
        resumed: session.resumed,
    };
    let timer = ActionModel::ScheduleTimer(m.config.session_timeout);
    let flushed = client_model::flush_queue(ready, now, draws, 0, m.queue.len());
    lemma_flush_settles(ready, now, draws, 0, m.queue.len());
    lemma_notices_settle_nothing(None, m.by_peer);
    assert(notices.push(established).drop_last() =~= notices);
    assert(notices.push(established).last() == established && !settles(established));
    assert(outcomes(notices).len() == 0);
    assert(outcomes(notices.push(established)) =~= Seq::empty());
    lemma_outcomes_join(notices.push(established), flushed.1);
    let all = (notices.push(established) + flushed.1).push(timer);
    assert(all.drop_last() =~= notices.push(established) + flushed.1);
    assert(outcomes(all) =~= outcomes(flushed.1));
}

/// The local peers that have a conversation.
pub open spec fn peers_of(by_peer: Seq<(SocketAddress, ConversationModel)>) -> Set<SocketAddress> {
    Set::new(|peer: SocketAddress| table::holds(by_peer, peer))
}

/// How many conversations have to be opened for queued datagrams, where some local
/// peers have one already.
pub open spec fn newcomers(known: Set<SocketAddress>, queue: Seq<QueuedModel>) -> nat
    decreases queue.len(),
{
    if queue.len() == 0 {
        0
    } else if known.contains(queue[0].local_peer) {
        newcomers(known, queue.drop_first())
    } else {
        1 + newcomers(known.insert(queue[0].local_peer), queue.drop_first())
    }
}

/// A datagram for which there is room is sent, and leaves room for the others.
proof fn lemma_sendable_is_sent(
    m: ClientModel,
    now: Instant,
    draw: Option<ConversationId>,
)
    requires
        m.state == SessionState::Ready,
        m.queue.len() > 0,
        sendable(m, m.queue[0], now, draw),
    ensures
        ({
            let next = client_model::flush_one(m, now, draw).0;
            let peer = m.queue[0].local_peer;
            &&& next.state == SessionState::Ready
            &&& next.config == m.config
            &&& next.queue == m.queue.drop_first()
            &&& peers_of(next.by_peer) == peers_of(m.by_peer).insert(peer)
            &&& next.by_peer.len() == m.by_peer.len() + if table::holds(m.by_peer, peer) {
                0int
            } else {
                1
            }
            &&& next.session == Some(
                ClientSessionModel {
                    sealer: SealerModel {
                        next_packet_number: (m.session->Some_0.sealer.next_packet_number
                            + 1) as u64,
                        ..m.session->Some_0.sealer
                    },
                    ..m.session->Some_0
                },
            )
            &&& forall|id: ConversationId|
                client_model::conversation_unused(m, id) && draw != Some(id)
                    ==> #[trigger] client_model::conversation_unused(next, id)
        }),
{
    let queued = m.queue[0];
    let peer = queued.local_peer;
    let next = client_model::flush_one(m, now, draw).0;
    let value = match table::lookup(m.by_peer, peer) {
        Some(conversation) => ConversationModel { last_activity: now, ..conversation },
        None => ConversationModel { id: draw->Some_0, last_activity: now, resumption: None },
    };
    assert(next.by_peer == table::put(m.by_peer, peer, value));
    table::lemma_put(m.by_peer, peer, value, peer);
    assert forall|other: SocketAddress| peers_of(next.by_peer).contains(other) == peers_of(
        m.by_peer,
    ).insert(peer).contains(other) by {
        table::lemma_put(m.by_peer, peer, value, other);
    }
    assert(peers_of(next.by_peer) =~= peers_of(m.by_peer).insert(peer));
    assert forall|id: ConversationId|
        client_model::conversation_unused(m, id) && draw != Some(
            id,
        ) implies #[trigger] client_model::conversation_unused(next, id) by {
        if !table::holds(m.by_peer, peer) {
            table::lemma_put(m.by_id, draw->Some_0, peer, id);
        }
    }
}

/// The conversations drawn from a place on are unused, and no two are the same.
pub open spec fn fresh_from(
    m: ClientModel,
    draws: Seq<Option<ConversationId>>,
    from: int,
) -> bool {
    &&& forall|i: int|
        from <= i < draws.len() && 0 <= i ==> ((#[trigger] draws[i]) matches Some(id)
            ==> client_model::conversation_unused(m, id))
    &&& forall|i: int, j: int|
        #![trigger draws[i], draws[j]]
        from <= i < j < draws.len() && 0 <= i && draws[i] is Some ==> draws[i] != draws[j]
}

spec fn turn_sealer(turn: ClientModel, sealer: SealerModel, more: int) -> bool {
    turn.session matches Some(session) && session.sealer == record::numbered(sealer, more)
}

proof fn lemma_all_are_sent(
    m: ClientModel,
    now: Instant,
    draws: Seq<Option<ConversationId>>,
    from: int,
)
    requires
        m.state == SessionState::Ready,
        client_model::queue_valid(m.queue, m.config),
        m.config.max_frame_payload <= MAX_FRAME_PAYLOAD,
        m.session matches Some(session) && record::keys_usable(
            session.sealer.suite,
            session.sealer.keys,
        ) && session.sealer.next_packet_number + m.queue.len() <= u64::MAX,
        forall|i: int|
            0 <= i < m.queue.len() ==> !client_model::overdue(
                #[trigger] m.queue[i],
                now,
                m.config.reconnect_queue_timeout,
            ) && client_model::drawn(draws, from + i) is Some,
        from >= 0,
        fresh_from(m, draws, from),
        m.by_peer.len() + newcomers(peers_of(m.by_peer), m.queue) <= m.config.max_conversations,
    ensures
        ({
            let told = outcomes(
                client_model::flush_queue(m, now, draws, from, m.queue.len()).1,
            );
            &&& told.len() == m.queue.len()
            &&& forall|i: int| 0 <= i < told.len() ==> (#[trigger] told[i]) is SendTunnelFrame
        }),
        forall|i: nat|
            i < m.queue.len() ==> turn_sealer(
                #[trigger] client_model::flush_queue(m, now, draws, from, i).0,
                m.session->Some_0.sealer,
                i as int,
            ),
    decreases m.queue.len(),
{
    if m.queue.len() > 0 {
        let draw = client_model::drawn(draws, from);
        let queued = m.queue[0];
        assert(draws[from] == draw);
        assert(!client_model::overdue(m.queue[0], now, m.config.reconnect_queue_timeout)
            && client_model::drawn(draws, from + 0) is Some);
        assert(sendable(m, queued, now, draw));
        lemma_flush_one_settles(m, now, draw);
        lemma_sendable_is_sent(m, now, draw);
        lemma_part_of_queue(m.queue, m.config, 1, m.queue.len() as int);
        let first = client_model::flush_one(m, now, draw);
        if peers_of(m.by_peer).contains(queued.local_peer) {
            assert(peers_of(m.by_peer).insert(queued.local_peer) =~= peers_of(m.by_peer));
        }
        assert(fresh_from(first.0, draws, from + 1)) by {
            assert forall|i: int| from + 1 <= i < draws.len() && 0 <= i implies ((
            #[trigger] draws[i]) matches Some(id) ==> client_model::conversation_unused(
                first.0,
                id,
            )) by {
                if draws[i] is Some {
                    assert(client_model::conversation_unused(m, draws[i]->Some_0));
                    assert(draws[from] != draws[i]);
                }
            }
        }
        assert forall|i: int| 0 <= i < first.0.queue.len() implies !client_model::overdue(
            #[trigger] first.0.queue[i],
            now,
            first.0.config.reconnect_queue_timeout,
        ) && client_model::drawn(draws, (from + 1) + i) is Some by {
            assert(first.0.queue[i] == m.queue[i + 1]);
            assert(client_model::drawn(draws, from + (i + 1)) is Some);
            assert(from + (i + 1) == (from + 1) + i);
        }
        lemma_all_are_sent(first.0, now, draws, from + 1);
        assert forall|i: nat| i < m.queue.len() implies turn_sealer(
            #[trigger] client_model::flush_queue(m, now, draws, from, i).0,
            m.session->Some_0.sealer,
            i as int,
        ) by {
            if i > 0 {
                let later = client_model::flush_queue(
                    first.0,
                    now,
                    draws,
                    from + 1,
                    (i - 1) as nat,
                ).0;
                assert(client_model::flush_queue(m, now, draws, from, i).0 == later);
            }
        }
        let rest = client_model::flush_queue(
            first.0,
            now,
            draws,
            from + 1,
            (m.queue.len() - 1) as nat,
        );
        lemma_outcomes_join(first.1, rest.1);
        let told = outcomes(first.1 + rest.1);
        assert forall|i: int| 0 <= i < told.len() implies (
        #[trigger] told[i]) is SendTunnelFrame by {
            if i > 0 {
                assert(told[i] == outcomes(rest.1)[i - 1]);
            }
        }
    }
}

/// Sending the queue tells of no established session.
proof fn lemma_flush_establishes_nothing(
    m: ClientModel,
    now: Instant,
    draws: Seq<Option<ConversationId>>,
    from: int,
    count: nat,
)
    ensures
        forall|i: int|
            0 <= i < client_model::flush_queue(m, now, draws, from, count).1.len() ==> !((
            #[trigger] client_model::flush_queue(
                m,
                now,
                draws,
                from,
                count,
            ).1[i]) is SessionEstablished),
    decreases count,
{
    if count > 0 {
        let first = client_model::flush_one(m, now, client_model::drawn(draws, from));
        lemma_flush_establishes_nothing(first.0, now, draws, from + 1, (count - 1) as nat);
    }
}

/// A client becomes ready through the server's confirmation and through nothing else;
/// it is then told so once, before anything becomes of the queue.
pub proof fn law_confirmation_makes_ready(
    m: ClientModel,
    event: EventModel,
    now: Instant,
    draws: ClientDraws,
)
    requires
        client_model::client_valid(m),
        m.state != SessionState::Ready,
    ensures
        ({
            let step = client_model::client_step(m, event, now, draws);
            let actions = step.1->Ok_0;
            let at = established_at(m);
            &&& (step.0.state == SessionState::Ready) == confirms(m, event)
            &&& confirms(m, event) ==> {
                &&& step.1 is Ok
                &&& 0 <= at < actions.len()
                &&& outcomes(actions.take(at + 1)).len() == 0
                &&& actions.last() == ActionModel::ScheduleTimer(m.config.session_timeout)
                &&& actions[at] == (ActionModel::SessionEstablished {
                    peer_id: m.server_peer,
                    session_id: m.session->Some_0.id,
                    cipher_suite: m.config.cipher_suite,
                    resumed: m.session->Some_0.resumed,
                })
                &&& forall|i: int|
                    0 <= i < actions.len() ==> ((
                    #[trigger] actions[i]) is SessionEstablished) == (i == at)
            }
        }),
{
    if client_model::client_step(m, event, now, draws).0.state == SessionState::Ready {
        law_ready_needs_confirmation(m, event, now, draws);
    }
    if confirms(m, event) {
        let bytes = event->TunnelFrame_bytes;
        let session = m.session->Some_0;
        let seen = confirmed_session(m, event);
        replay::law_window_stays_valid(
            session.opener.replay,
            protocol::decoded(bytes)->Ok_0.packet_number,
        );
        lemma_establish_keeps(m, seen, now, draws.conversations);
        lemma_flush_establishes_nothing(
            client_model::confirmed(m, seen, now),
            now,
            draws.conversations,
            0,
            m.queue.len(),
        );
        let attempted = m.handshake matches Some(attempt) && attempt.hello.resumption is Some;
        let notices = if attempted && !seen.resumed {
            client_model::closed_notices(None, m.by_peer)
        } else {
            Seq::empty()
        };
        let established = ActionModel::SessionEstablished {
            peer_id: m.server_peer,
            session_id: session.id,
            cipher_suite: m.config.cipher_suite,
            resumed: session.resumed,
        };
        let step = client_model::client_step(m, event, now, draws);
        let at = established_at(m);
        assert(step.1->Ok_0.take(at + 1) =~= notices.push(established));
        lemma_notices_settle_nothing(None, m.by_peer);
        assert(notices.push(established).drop_last() =~= notices);
        assert(notices.push(established).last() == established);
        assert(!settles(established));
        assert(outcomes(notices).len() == 0);
        assert(outcomes(notices.push(established)) == outcomes(notices));
    }
}

/// No other event tells of an established session.
pub proof fn law_only_confirmations_establish(
    m: ClientModel,
    event: EventModel,
    now: Instant,
    draws: ClientDraws,
)
    requires
        !confirms(m, event),
    ensures
        client_model::client_step(m, event, now, draws).1 matches Ok(actions) ==> forall|i: int|
            0 <= i < actions.len() ==> !((#[trigger] actions[i]) is SessionEstablished),
{
    match event {
        EventModel::ClientDatagram { local_peer, payload } => {
            lemma_local_traffic_establishes_nothing(m, local_peer, payload, now, draws);
        },
        EventModel::TimeAdvanced(at) => {
            let first = if client_model::in_handshake(m.state) {
                client_model::expire_handshake(m, at)
            } else {
                (m, Seq::empty())
            };
            let second = client_model::expire_queue(first.0, at);
            let third = client_model::expire_conversations(second.0, at);
            assert(establishes_nothing(first.1));
            assert(establishes_nothing(second.1));
            assert(establishes_nothing(third.1));
        },
        _ => {},
    }
}

/// No action tells of an established session.
spec fn establishes_nothing(actions: Seq<ActionModel>) -> bool {
    forall|i: int| 0 <= i < actions.len() ==> !((#[trigger] actions[i]) is SessionEstablished)
}

proof fn lemma_local_traffic_establishes_nothing(
    m: ClientModel,
    local_peer: SocketAddress,
    payload: Seq<u8>,
    now: Instant,
    draws: ClientDraws,
)
    ensures
        client_model::client_step(
            m,
            EventModel::ClientDatagram { local_peer, payload },
            now,
            draws,
        ).1 matches Ok(actions) ==> establishes_nothing(actions),
{
    let next = client_model::begin_reconnect(m, now, draws.hello);
    assert(establishes_nothing(next.1));
    assert(establishes_nothing(client_model::enqueue(next.0, local_peer, payload, now).1));
}

/// Where the host is told that the session is established: after the conversations
/// that were not taken over are closed.
pub open spec fn established_at(m: ClientModel) -> int {
    let attempted = m.handshake matches Some(attempt) && attempt.hello.resumption is Some;
    if attempted && !m.session->Some_0.resumed {
        m.by_peer.len() as int
    } else {
        0
    }
}

/// Every datagram that waited is sent once the session is confirmed, one after the
/// other in the order in which they came, where none has waited too long, there is
/// room for their conversations, and identifiers could be drawn for them. Each goes out
/// over the confirmed session, in the conversation of its local peer.
pub proof fn law_waiting_datagrams_are_sent(
    m: ClientModel,
    event: EventModel,
    now: Instant,
    draws: ClientDraws,
)
    requires
        client_model::client_valid(m),
        client_model::in_handshake(m.state),
        confirms(m, event),
        record::keys_usable(
            m.session->Some_0.sealer.suite,
            m.session->Some_0.sealer.keys,
        ),
        m.session->Some_0.sealer.next_packet_number + m.queue.len() <= u64::MAX,
        forall|i: int|
            0 <= i < m.queue.len() ==> time::elapsed(now, (#[trigger] m.queue[i]).queued_at)
                < m.config.reconnect_queue_timeout.length(),
        m.queue.len() <= draws.conversations.len(),
        forall|i: int|
            0 <= i < draws.conversations.len() ==> ((
            #[trigger] draws.conversations[i]) matches Some(id) ==> !table::holds(m.by_id, id)
                && !m.retired.contains(id)) && (i < m.queue.len() ==> draws.conversations[i]
                is Some),
        forall|i: int, j: int|
            #![trigger draws.conversations[i], draws.conversations[j]]
            0 <= i < j < draws.conversations.len() && draws.conversations[i] is Some
                ==> draws.conversations[i] != draws.conversations[j],
        ({
            let by_peer = client_model::confirmed(m, confirmed_session(m, event), now).by_peer;
            by_peer.len() + newcomers(peers_of(by_peer), m.queue) <= m.config.max_conversations
        }),
    ensures
        ({
            let step = client_model::client_step(m, event, now, draws);
            let told = outcomes(step.1->Ok_0);
            &&& step.1 is Ok
            &&& step.0.state == SessionState::Ready
            &&& step.0.queue.len() == 0
            &&& told.len() == m.queue.len()
            &&& forall|i: int|
                0 <= i < m.queue.len() ==> ((
                #[trigger] told[i]) matches ActionModel::SendTunnelFrame { peer_id, bytes }
                    && peer_id == m.server_peer && carries(
                    bytes,
                    record::numbered(m.session->Some_0.sealer, i),
                    step.0.by_peer,
                    m.queue[i],
                ))
        }),
{
    law_confirmation_makes_ready(m, event, now, draws);
    law_confirmation_settles_the_queue(m, event, now, draws);
    let seen = confirmed_session(m, event);
    let ready = client_model::confirmed(m, seen, now);
    assert forall|i: int| 0 <= i < ready.queue.len() implies !client_model::overdue(
        #[trigger] ready.queue[i],
        now,
        m.config.reconnect_queue_timeout,
    ) && client_model::drawn(draws.conversations, 0 + i) is Some by {
        assert(ready.queue[i] == m.queue[i]);
        assert(draws.conversations[i] is Some);
    }
    assert(fresh_from(ready, draws.conversations, 0)) by {
        assert forall|i: int| 0 <= i < draws.conversations.len() implies ((
        #[trigger] draws.conversations[i]) matches Some(id) ==> client_model::conversation_unused(
            ready,
            id,
        )) by {
            if draws.conversations[i] is Some {
                assert(client_model::conversation_unused(m, draws.conversations[i]->Some_0));
            }
        }
    }
    lemma_all_are_sent(ready, now, draws.conversations, 0);
    lemma_establish_settles(m, seen, now, draws.conversations);
    let step = client_model::client_step(m, event, now, draws);
    let told = outcomes(step.1->Ok_0);
    assert forall|i: int| 0 <= i < m.queue.len() implies ((
    #[trigger] told[i]) matches ActionModel::SendTunnelFrame { peer_id, bytes } && peer_id
        == m.server_peer && carries(
        bytes,
        record::numbered(m.session->Some_0.sealer, i),
        step.0.by_peer,
        m.queue[i],
    )) by {
        assert(settled_at(ready, now, draws.conversations, 0, step.0.by_peer, told[i], i));
        let turn = client_model::flush_queue(ready, now, draws.conversations, 0, i as nat).0;
        assert(turn_sealer(turn, m.session->Some_0.sealer, i));
    }
}

/// Only a client that shakes hands holds datagrams back: in every other state its
/// queue is empty.
pub proof fn law_only_handshakes_hold_datagrams(
    m: ClientModel,
    event: EventModel,
    now: Instant,
    draws: ClientDraws,
)
    requires
        client_model::client_valid(m),
    ensures
        ({
            let next = client_model::client_step(m, event, now, draws).0;
            !client_model::in_handshake(next.state) ==> next.queue.len() == 0
        }),
{
    match event {
        EventModel::ClientDatagram { local_peer, payload } => {
            lemma_send_local_keeps(
                m,
                local_peer,
                payload,
                now,
                client_model::drawn(draws.conversations, 0),
            );
        },
        EventModel::TunnelFrame { peer_id, bytes } => {
            match m.session {
                Some(session) => {
                    let seen = ClientSessionModel {
                        opener: record::after_opening(session.opener, bytes),
                        ..session
                    };
                    if record::opened(session.opener, bytes) is Ok {
                        replay::law_window_stays_valid(
                            session.opener.replay,
                            protocol::decoded(bytes)->Ok_0.packet_number,
                        );
                        lemma_establish_keeps(m, seen, now, draws.conversations);
                    }
                },
                None => {},
            }
        },
        EventModel::TimeAdvanced(at) => {
            lemma_overdue_count(m.queue, at, m.config.reconnect_queue_timeout);
        },
        _ => {},
    }
}

/// A client that gave up stays closed, and takes no more datagrams.
pub proof fn law_closed_is_final(
    m: ClientModel,
    event: EventModel,
    now: Instant,
    draws: ClientDraws,
)
    requires
        m.state == SessionState::Closed,
    ensures
        client_model::client_step(m, event, now, draws).0.state == SessionState::Closed,
        event matches EventModel::ClientDatagram { local_peer, payload } ==> client_model::client_step(
            m,
            event,
            now,
            draws,
        ).1 is Err,
{
}

/// An idle session costs nothing: however much time passes, a ready client stays
/// ready on the same session, sends no frame and closes no session.
pub proof fn law_idle_sessions_send_nothing(
    m: ClientModel,
    at: Instant,
    now: Instant,
    draws: ClientDraws,
    place: int,
)
    requires
        m.state == SessionState::Ready,
    ensures
        ({
            let step = client_model::client_step(m, EventModel::TimeAdvanced(at), now, draws);
            &&& step.0.state == SessionState::Ready
            &&& step.0.session == m.session
            &&& step.1 matches Ok(actions) && (0 <= place < actions.len() ==> !(
            actions[place] is SendTunnelFrame) && !(actions[place] is SessionClosed))
        }),
{
    let second = client_model::expire_queue(m, at);
    let third = client_model::expire_conversations(second.0, at);
    let actions = client_model::client_step(m, EventModel::TimeAdvanced(at), now, draws).1->Ok_0;
    assert(actions =~= second.1 + third.1);
}

/// A local datagram never goes out over a session whose server has been silent for
/// longer than the session timeout: the session is closed, the one frame that is
/// sent is a new hello, and the datagram waits in the queue. Where no hello can be
/// drawn, its loss is reported.
pub proof fn law_stale_sessions_are_replaced(
    m: ClientModel,
    local_peer: SocketAddress,
    payload: Seq<u8>,
    now: Instant,
    draws: ClientDraws,
)
    requires
        client_model::client_valid(m),
        client_model::draws_valid(draws),
        m.state == SessionState::Ready,
        now.nanos > m.session->Some_0.last_received_at.nanos + m.config.session_timeout.length(),
        payload.len() <= m.config.max_frame_payload,
    ensures
        ({
            let step = client_model::client_step(
                m,
                EventModel::ClientDatagram { local_peer, payload },
                now,
                draws,
            );
            let closed = ActionModel::SessionClosed {
                peer_id: m.server_peer,
                session_id: m.session->Some_0.id,
            };
            &&& step.0.session is None
            &&& match draws.hello {
                Some(_) => {
                    &&& step.0.state == SessionState::Reconnecting
                    &&& step.0.queue == seq![QueuedModel { local_peer, payload, queued_at: now }]
                    &&& step.1 matches Ok(actions) && actions.len() == 4 && actions[0] == closed
                        && (actions[1] matches ActionModel::SendTunnelFrame { peer_id, bytes }
                        && peer_id == m.server_peer && (protocol::decoded(bytes) matches Ok(frame)
                        && frame.frame_type == FrameType::ClientHello)) && actions[2]
                        == ActionModel::ScheduleTimer(m.config.handshake_retry_interval)
                        && actions[3] == ActionModel::ScheduleTimer(
                        m.config.reconnect_queue_timeout,
                    )
                },
                None => {
                    &&& step.0.state == SessionState::Closed
                    &&& step.0.queue.len() == 0
                    &&& step.1 == Ok::<Seq<ActionModel>, EngineError>(
                        seq![
                            closed,
                            ActionModel::ClientDatagramDropped {
                                local_peer,
                                reason: ClientDatagramDropReason::SessionClosed,
                            },
                        ],
                    )
                },
            }
        }),
{
    let step = client_model::client_step(
        m,
        EventModel::ClientDatagram { local_peer, payload },
        now,
        draws,
    );
    match draws.hello {
        Some((handshake_id, client_nonce)) => {
            let hello = HelloModel {
                handshake_id,
                client_nonce,
                suite: m.config.cipher_suite,
                cookie: None,
                resumption: client_model::resumption_offer(m.by_peer),
            };
            if m.by_peer.len() > 0 {
                assert(m.by_peer[0].1.resumption matches Some(held) ==> held.1.len()
                    == CREDENTIAL_LENGTH);
            }
            handshake::law_hello_round_trip(hello);
            protocol::law_frame_round_trip(handshake::hello_frame(hello));
            assert(m.queue.push(QueuedModel { local_peer, payload, queued_at: now }) =~= seq![
                QueuedModel { local_peer, payload, queued_at: now },
            ]);
        },
        None => {
            assert(step.1->Ok_0 =~= seq![
                ActionModel::SessionClosed {
                    peer_id: m.server_peer,
                    session_id: m.session->Some_0.id,
                },
                ActionModel::ClientDatagramDropped {
                    local_peer,
                    reason: ClientDatagramDropReason::SessionClosed,
                },
            ]);
        },
    }
}

/// A datagram that waited its full time at the front of the queue is dropped and
/// reported, and what is left at the front has not.
pub proof fn law_queued_datagrams_expire_in_order(m: ClientModel, now: Instant)
    ensures
        ({
            let timeout = m.config.reconnect_queue_timeout;
            let left = client_model::expire_queue(m, now).0.queue;
            let count = m.queue.len() - left.len();
            &&& 0 <= count <= m.queue.len()
            &&& left == m.queue.skip(count)
            &&& forall|i: int|
                0 <= i < count ==> time::elapsed(now, (#[trigger] m.queue[i]).queued_at)
                    >= timeout.length()
            &&& left.len() > 0 ==> time::elapsed(now, left[0].queued_at) < timeout.length()
        }),
{
    let timeout = m.config.reconnect_queue_timeout;
    lemma_overdue_count(m.queue, now, timeout);
    let count = client_model::overdue_count(m.queue, now, timeout);
    assert forall|i: int| 0 <= i < count implies time::elapsed(
        now,
        (#[trigger] m.queue[i]).queued_at,
    ) >= timeout.length() by {
        assert(client_model::overdue(m.queue[i], now, timeout));
    }
}

} // verus!
