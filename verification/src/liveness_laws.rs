//! How long a client keeps a session, its conversations and the datagrams that wait.

use vstd::prelude::*;

use crate::action::{ActionModel, EventModel, SessionState};
use crate::address::SocketAddress;
use crate::client_laws;
use crate::client_model;
use crate::client_model::{ClientDraws, ClientModel, ConversationModel};
use crate::conversation_laws::{after_all, next_of, ClientInput};
use crate::error::{EngineError, RecordError, ReplayError};
use crate::handshake::CREDENTIAL_LENGTH;
use crate::id::{ConversationId, SessionId};
use crate::protocol;
use crate::protocol::FrameType;
use crate::record;
use crate::record::RecordModel;
use crate::table;
use crate::time::{Duration, Instant};

verus! {

/// Whether a span has passed from one instant to another.
pub open spec fn passed(now: Instant, since: Instant, span: Duration) -> bool {
    now.nanos >= since.nanos + span.length()
}

/// Whether more than a span has passed from one instant to another.
pub open spec fn exceeded(now: Instant, since: Instant, span: Duration) -> bool {
    now.nanos > since.nanos + span.length()
}

/// The authentic record of its session that an event brings to a client.
pub open spec fn record_of(m: ClientModel, event: EventModel) -> Option<RecordModel> {
    match (event, m.session) {
        (EventModel::TunnelFrame { peer_id, bytes }, Some(session)) => if peer_id
            == m.server_peer {
            match record::opened(session.opener, bytes) {
                Ok(record) => Some(record),
                Err(_) => None,
            }
        } else {
            None
        },
        _ => None,
    }
}

/// What the server says is a sign of life: after a record of the ready session came at
/// an instant, the session goes on and that instant is when the server was last heard.
pub proof fn law_records_are_signs_of_life(
    m: ClientModel,
    event: EventModel,
    now: Instant,
    draws: ClientDraws,
)
    requires
        client_model::client_valid(m),
        m.state == SessionState::Ready,
        record_of(m, event) matches Some(record) && record.frame_type != FrameType::HandshakeAck,
    ensures
        ({
            let next = client_model::client_step(m, event, now, draws).0;
            &&& next.state == SessionState::Ready
            &&& next.session matches Some(session) && session.id == m.session->Some_0.id
                && session.last_received_at == now && session.sealer == m.session->Some_0.sealer
        }),
{
}

/// A record that does not open is refused for its own reason and leaves the client as it
/// was; only the confirmation that a ready client has taken already is passed over in
/// silence.
pub proof fn law_refused_records_are_reported(
    m: ClientModel,
    bytes: Seq<u8>,
    now: Instant,
    draws: ClientDraws,
)
    requires
        client_model::client_valid(m),
        m.state == SessionState::Ready,
        protocol::decoded(bytes) matches Ok(frame) && frame.frame_type != FrameType::HelloRetry
            && frame.frame_type != FrameType::ServerHello,
        record::opened(m.session->Some_0.opener, bytes) is Err,
    ensures
        ({
            let step = client_model::client_step(
                m,
                EventModel::TunnelFrame { peer_id: m.server_peer, bytes },
                now,
                draws,
            );
            let error = record::opened(m.session->Some_0.opener, bytes)->Err_0;
            let frame = protocol::decoded(bytes)->Ok_0;
            &&& step.0 =~= m
            &&& step.1 == if error == RecordError::Replay(ReplayError::Duplicate)
                && frame.frame_type == FrameType::HandshakeAck {
                Ok::<Seq<ActionModel>, EngineError>(Seq::empty())
            } else {
                Err(EngineError::Record(error))
            }
        }),
{
}

/// Nothing else is: as long as a session goes on, no event but a record of it changes
/// when the server was last heard.
pub proof fn law_only_records_are_signs_of_life(
    m: ClientModel,
    event: EventModel,
    now: Instant,
    draws: ClientDraws,
)
    requires
        client_model::client_valid(m),
        m.state == SessionState::Ready,
        record_of(m, event) is None,
        client_model::client_step(m, event, now, draws).0.state == SessionState::Ready,
    ensures
        client_model::client_step(m, event, now, draws).0.session matches Some(session)
            && session.id == m.session->Some_0.id && session.last_received_at
            == m.session->Some_0.last_received_at,
{
    match event {
        EventModel::TimeAdvanced(at) => {
            let second = client_model::expire_queue(m, at);
            let third = client_model::expire_conversations(second.0, at);
            assert(client_model::client_step(m, event, now, draws).0 == third.0);
        },
        _ => {},
    }
}

/// A datagram that comes while the server was heard within the session timeout goes out
/// over the session as it is, in the conversation of its local peer: the session is not
/// closed, no handshake begins and nothing waits. It is refused only where it is too
/// long, where it needs a conversation for which there is no room or no identifier, or
/// by the record layer.
pub proof fn law_live_sessions_carry_datagrams(
    m: ClientModel,
    local_peer: SocketAddress,
    payload: Seq<u8>,
    now: Instant,
    draws: ClientDraws,
)
    requires
        client_model::client_valid(m),
        m.state == SessionState::Ready,
        payload.len() <= m.config.max_frame_payload,
        !exceeded(now, m.session->Some_0.last_received_at, m.config.session_timeout),
    ensures
        ({
            let step = client_model::client_step(
                m,
                EventModel::ClientDatagram { local_peer, payload },
                now,
                draws,
            );
            let session = m.session->Some_0;
            let draw = client_model::drawn(draws.conversations, 0);
            &&& step.0.state == SessionState::Ready
            &&& step.0.queue.len() == 0
            &&& step.0.session matches Some(later) && later.id == session.id
                && later.last_received_at == session.last_received_at
            &&& match table::lookup(m.by_peer, local_peer) {
                Some(conversation) => {
                    let sealed = record::sealed(
                        session.sealer,
                        FrameType::Data,
                        Some(conversation.id),
                        payload,
                    );
                    &&& sealed is Ok == step.1 is Ok
                    &&& step.1 matches Ok(actions) ==> actions == seq![
                        ActionModel::SendTunnelFrame {
                            peer_id: m.server_peer,
                            bytes: sealed->Ok_0,
                        },
                    ]
                },
                None => if m.by_peer.len() >= m.config.max_conversations {
                    step.1 == Err::<Seq<ActionModel>, EngineError>(
                        EngineError::ConversationCapacity,
                    )
                } else if draw matches Some(id) && !table::holds(m.by_id, id)
                    && !m.retired.contains(id) {
                    let sealed = record::sealed(
                        session.sealer,
                        FrameType::Data,
                        Some(draw->Some_0),
                        payload,
                    );
                    &&& sealed is Ok == step.1 is Ok
                    &&& step.1 matches Ok(actions) ==> actions == seq![
                        ActionModel::ConversationOpened {
                            session_id: Some(session.id),
                            conversation_id: draw->Some_0,
                        },
                        ActionModel::SendTunnelFrame {
                            peer_id: m.server_peer,
                            bytes: sealed->Ok_0,
                        },
                    ]
                } else {
                    step.1 == Err::<Seq<ActionModel>, EngineError>(
                        EngineError::RandomnessUnavailable,
                    )
                },
            }
        }),
{
    let step = client_model::client_step(
        m,
        EventModel::ClientDatagram { local_peer, payload },
        now,
        draws,
    );
    match table::lookup(m.by_peer, local_peer) {
        Some(conversation) => {
            if step.1 is Ok {
                assert(step.1->Ok_0 =~= seq![step.1->Ok_0[0]]);
            }
        },
        None => {
            if step.1 is Ok {
                assert(step.1->Ok_0 =~= seq![step.1->Ok_0[0], step.1->Ok_0[1]]);
            }
        },
    }
}

/// Whether several events come no earlier than an instant and no later than a span after
/// it, and none of them asks the client to reconnect.
pub open spec fn soon_after(inputs: Seq<ClientInput>, since: Instant, span: Duration) -> bool {
    forall|k: int|
        0 <= k < inputs.len() ==> {
            &&& (#[trigger] inputs[k]).1.nanos >= since.nanos
            &&& !exceeded(inputs[k].1, since, span)
            &&& !(inputs[k].0 is Reconnect)
            &&& client_model::draws_valid(inputs[k].2)
        }
}

proof fn lemma_ready_goes_on(m: ClientModel, input: ClientInput, since: Instant)
    requires
        client_model::client_valid(m),
        client_model::draws_valid(input.2),
        m.state == SessionState::Ready,
        m.session->Some_0.last_received_at.nanos >= since.nanos,
        input.1.nanos >= since.nanos,
        !exceeded(input.1, since, m.config.session_timeout),
        !(input.0 is Reconnect),
    ensures
        ({
            let next = next_of(m, input);
            &&& client_model::client_valid(next)
            &&& next.config == m.config
            &&& next.state == SessionState::Ready
            &&& next.session matches Some(session) && session.id == m.session->Some_0.id
                && session.last_received_at.nanos >= since.nanos
        }),
{
    reveal(next_of);
    client_laws::law_client_stays_valid(m, input.0, input.1, input.2);
    match input.0 {
        EventModel::TimeAdvanced(at) => {
            let second = client_model::expire_queue(m, at);
            let third = client_model::expire_conversations(second.0, at);
            assert(next_of(m, input) == third.0);
        },
        _ => {},
    }
}

/// A session on which the server is heard is kept: from an instant at which it was last
/// heard or later, no sequence of events gives the session up until more than the
/// session timeout has passed, unless the host asks the client to reconnect.
pub proof fn law_heard_sessions_are_kept(
    m: ClientModel,
    inputs: Seq<ClientInput>,
    since: Instant,
)
    requires
        client_model::client_valid(m),
        m.state == SessionState::Ready,
        m.session->Some_0.last_received_at.nanos >= since.nanos,
        soon_after(inputs, since, m.config.session_timeout),
    ensures
        ({
            let later = after_all(m, inputs);
            &&& client_model::client_valid(later)
            &&& later.config == m.config
            &&& later.state == SessionState::Ready
            &&& later.session matches Some(session) && session.id == m.session->Some_0.id
                && session.last_received_at.nanos >= since.nanos
        }),
    decreases inputs.len(),
{
    if inputs.len() > 0 {
        let earlier = inputs.drop_last();
        assert forall|k: int| 0 <= k < earlier.len() implies {
            &&& (#[trigger] earlier[k]).1.nanos >= since.nanos
            &&& !exceeded(earlier[k].1, since, m.config.session_timeout)
            &&& !(earlier[k].0 is Reconnect)
            &&& client_model::draws_valid(earlier[k].2)
        } by {
            assert(earlier[k] == inputs[k]);
        }
        law_heard_sessions_are_kept(m, earlier, since);
        assert(inputs[inputs.len() - 1] == inputs.last());
        lemma_ready_goes_on(after_all(m, earlier), inputs.last(), since);
    }
}

/// After the server was heard, a local datagram that comes within the session timeout
/// goes out over that same session, whatever happened in between.
pub proof fn law_datagrams_use_the_session_that_was_heard(
    m: ClientModel,
    event: EventModel,
    heard: Instant,
    draws: ClientDraws,
    between: Seq<ClientInput>,
    local_peer: SocketAddress,
    payload: Seq<u8>,
    now: Instant,
    last_draws: ClientDraws,
)
    requires
        client_model::client_valid(m),
        client_model::draws_valid(draws),
        m.state == SessionState::Ready,
        record_of(m, event) matches Some(record) && record.frame_type != FrameType::HandshakeAck,
        soon_after(between, heard, m.config.session_timeout),
        !exceeded(now, heard, m.config.session_timeout),
        client_model::client_step(
            after_all(client_model::client_step(m, event, heard, draws).0, between),
            EventModel::ClientDatagram { local_peer, payload },
            now,
            last_draws,
        ).1 is Ok,
    ensures
        ({
            let before = after_all(client_model::client_step(m, event, heard, draws).0, between);
            let step = client_model::client_step(
                before,
                EventModel::ClientDatagram { local_peer, payload },
                now,
                last_draws,
            );
            &&& step.0.state == SessionState::Ready
            &&& step.0.session matches Some(session) && session.id == m.session->Some_0.id
            &&& table::lookup(step.0.by_peer, local_peer) matches Some(conversation)
                && step.1->Ok_0.last() == (ActionModel::SendTunnelFrame {
                peer_id: before.server_peer,
                bytes: record::sealed(
                    before.session->Some_0.sealer,
                    FrameType::Data,
                    Some(conversation.id),
                    payload,
                )->Ok_0,
            })
        }),
{
    let next = client_model::client_step(m, event, heard, draws).0;
    law_records_are_signs_of_life(m, event, heard, draws);
    client_laws::law_client_stays_valid(m, event, heard, draws);
    assert(next.config == m.config);
    law_heard_sessions_are_kept(next, between, heard);
    let before = after_all(next, between);
    law_live_sessions_carry_datagrams(before, local_peer, payload, now, last_draws);
    let draw = client_model::drawn(last_draws.conversations, 0);
    let known = match table::lookup(before.by_peer, local_peer) {
        Some(conversation) => ConversationModel { last_activity: now, ..conversation },
        None => ConversationModel { id: draw->Some_0, last_activity: now, resumption: None },
    };
    table::lemma_put(before.by_peer, local_peer, known, local_peer);
}

/// A client that is confirmed has just heard the server.
pub proof fn law_confirmations_are_signs_of_life(
    m: ClientModel,
    event: EventModel,
    now: Instant,
    draws: ClientDraws,
)
    requires
        client_model::client_valid(m),
        client_model::draws_valid(draws),
        client_laws::confirms(m, event),
    ensures
        ({
            let next = client_model::client_step(m, event, now, draws).0;
            &&& next.state == SessionState::Ready
            &&& next.session matches Some(session) && session.id == m.session->Some_0.id
                && session.last_received_at == now
        }),
{
    let seen = client_laws::confirmed_session(m, event);
    let ready = client_model::confirmed(m, seen, now);
    lemma_flush_hears_nothing(ready, now, draws.conversations, 0, m.queue.len());
}

proof fn lemma_flush_hears_nothing(
    m: ClientModel,
    now: Instant,
    draws: Seq<Option<ConversationId>>,
    from: int,
    count: nat,
)
    requires
        m.session is Some,
    ensures
        ({
            let next = client_model::flush_queue(m, now, draws, from, count).0;
            &&& next.state == m.state
            &&& next.session matches Some(session) && session.id == m.session->Some_0.id
                && session.last_received_at == m.session->Some_0.last_received_at
        }),
    decreases count,
{
    if count > 0 {
        let first = client_model::flush_one(m, now, client_model::drawn(draws, from)).0;
        lemma_flush_hears_nothing(first, now, draws, from + 1, (count - 1) as nat);
    }
}

/// Whether an event is about the conversation of a local peer: a datagram of that peer,
/// a record of the conversation, or its closing.
pub open spec fn concerns(m: ClientModel, event: EventModel, peer: SocketAddress) -> bool {
    match event {
        EventModel::ClientDatagram { local_peer, payload } => local_peer == peer,
        EventModel::TunnelFrame { peer_id, bytes } => record_of(m, event) matches Some(record) && (
        record.frame_type == FrameType::HandshakeAck || (record.conversation_id matches Some(id)
            && table::lookup(m.by_id, id) == Some(peer))),
        EventModel::CloseConversation { session_id, conversation_id } => table::lookup(
            m.by_id,
            conversation_id,
        ) == Some(peer),
        EventModel::TimeAdvanced(at) => true,
        _ => false,
    }
}

/// What concerns one conversation, no other one notices.
pub proof fn law_other_conversations_are_untouched(
    m: ClientModel,
    event: EventModel,
    now: Instant,
    draws: ClientDraws,
    peer: SocketAddress,
)
    requires
        client_model::client_valid(m),
        !concerns(m, event, peer),
    ensures
        table::lookup(client_model::client_step(m, event, now, draws).0.by_peer, peer)
            == table::lookup(m.by_peer, peer),
{
    match event {
        EventModel::ClientDatagram { local_peer, payload } => {
            let draw = client_model::drawn(draws.conversations, 0);
            let known = match table::lookup(m.by_peer, local_peer) {
                Some(conversation) => ConversationModel { last_activity: now, ..conversation },
                None => ConversationModel {
                    id: draw->Some_0,
                    last_activity: now,
                    resumption: None,
                },
            };
            table::lemma_put(m.by_peer, local_peer, known, peer);
        },
        EventModel::TunnelFrame { peer_id, bytes } => {
            lemma_record_touches_one(m, event, now, draws, peer);
        },
        EventModel::CloseConversation { session_id, conversation_id } => {
            if table::holds(m.by_id, conversation_id) {
                table::lemma_without(
                    m.by_peer,
                    table::lookup(m.by_id, conversation_id)->Some_0,
                    peer,
                );
            }
        },
        _ => {},
    }
}

proof fn lemma_record_touches_one(
    m: ClientModel,
    event: EventModel,
    now: Instant,
    draws: ClientDraws,
    peer: SocketAddress,
)
    requires
        client_model::client_valid(m),
        event is TunnelFrame,
        !concerns(m, event, peer),
    ensures
        table::lookup(client_model::client_step(m, event, now, draws).0.by_peer, peer)
            == table::lookup(m.by_peer, peer),
{
    if record_of(m, event) is Some {
        let record = record_of(m, event)->Some_0;
        if record.conversation_id is Some && table::holds(
            m.by_id,
            record.conversation_id->Some_0,
        ) {
            let local_peer = table::lookup(m.by_id, record.conversation_id->Some_0)->Some_0;
            let conversation = table::lookup(m.by_peer, local_peer)->Some_0;
            table::lemma_put(
                m.by_peer,
                local_peer,
                ConversationModel { last_activity: now, ..conversation },
                peer,
            );
            table::lemma_put(
                m.by_peer,
                local_peer,
                ConversationModel {
                    last_activity: now,
                    resumption: Some((m.session->Some_0.id, record.plaintext)),
                    ..conversation
                },
                peer,
            );
        }
    }
}

/// A datagram marks the conversation of its local peer as active: over a live session
/// the conversation is the same as before, or a new one, and was last active now.
pub proof fn law_datagrams_mark_conversations(
    m: ClientModel,
    local_peer: SocketAddress,
    payload: Seq<u8>,
    now: Instant,
    draws: ClientDraws,
)
    requires
        client_model::client_valid(m),
        m.state == SessionState::Ready,
        payload.len() <= m.config.max_frame_payload,
        !exceeded(now, m.session->Some_0.last_received_at, m.config.session_timeout),
    ensures
        ({
            let step = client_model::client_step(
                m,
                EventModel::ClientDatagram { local_peer, payload },
                now,
                draws,
            );
            let before = table::lookup(m.by_peer, local_peer);
            let after = table::lookup(step.0.by_peer, local_peer);
            &&& before is Some || step.1 is Ok ==> after is Some
            &&& after matches Some(conversation) ==> conversation.last_activity == now
            &&& before matches Some(conversation) ==> after->Some_0.id == conversation.id
                && after->Some_0.resumption == conversation.resumption
        }),
{
    let draw = client_model::drawn(draws.conversations, 0);
    let known = match table::lookup(m.by_peer, local_peer) {
        Some(conversation) => ConversationModel { last_activity: now, ..conversation },
        None => ConversationModel { id: draw->Some_0, last_activity: now, resumption: None },
    };
    table::lemma_put(m.by_peer, local_peer, known, local_peer);
}

/// What the server sends for a conversation marks it as active. Data is handed to the
/// local peer of the conversation; a credential is kept for it, with the session that
/// it came over.
pub proof fn law_records_mark_conversations(
    m: ClientModel,
    event: EventModel,
    now: Instant,
    draws: ClientDraws,
    peer: SocketAddress,
)
    requires
        client_model::client_valid(m),
        m.state == SessionState::Ready,
        record_of(m, event) matches Some(record) && (record.conversation_id matches Some(id) && (
        table::lookup(m.by_peer, peer) matches Some(conversation) && conversation.id == id)) && (
        record.frame_type == FrameType::Data || (record.frame_type
            == FrameType::ResumptionCredential && record.plaintext.len() == CREDENTIAL_LENGTH)),
    ensures
        ({
            let step = client_model::client_step(m, event, now, draws);
            let record = record_of(m, event)->Some_0;
            let before = table::lookup(m.by_peer, peer)->Some_0;
            &&& step.1 == Ok::<Seq<ActionModel>, EngineError>(
                if record.frame_type == FrameType::Data {
                    seq![
                        ActionModel::DeliverToClient {
                            local_peer: peer,
                            payload: record.plaintext,
                        },
                    ]
                } else {
                    Seq::empty()
                },
            )
            &&& table::lookup(step.0.by_peer, peer) == Some(
                ConversationModel {
                    id: before.id,
                    last_activity: now,
                    resumption: if record.frame_type == FrameType::Data {
                        before.resumption
                    } else {
                        Some((m.session->Some_0.id, record.plaintext))
                    },
                },
            )
        }),
{
    let record = record_of(m, event)->Some_0;
    let conversation = table::lookup(m.by_peer, peer)->Some_0;
    assert(table::lookup(m.by_id, conversation.id) == Some(peer));
    table::lemma_put(
        m.by_peer,
        peer,
        ConversationModel { last_activity: now, ..conversation },
        peer,
    );
    table::lemma_put(
        m.by_peer,
        peer,
        ConversationModel {
            last_activity: now,
            resumption: Some((m.session->Some_0.id, record.plaintext)),
            ..conversation
        },
        peer,
    );
}

/// Whether the host is told that a conversation is closed.
pub open spec fn told_closed(actions: Seq<ActionModel>, id: ConversationId) -> bool {
    exists|i: int|
        0 <= i < actions.len() && ((
        #[trigger] actions[i]) matches ActionModel::ConversationClosed {
            session_id,
            conversation_id,
        } && conversation_id == id)
}

/// What time does to conversations: one is closed exactly when it has been idle for its
/// timeout, the host is told, and every other one stays as it is.
pub proof fn law_time_closes_idle_conversations(
    m: ClientModel,
    at: Instant,
    now: Instant,
    draws: ClientDraws,
    peer: SocketAddress,
)
    requires
        client_model::client_valid(m),
    ensures
        ({
            let step = client_model::client_step(m, EventModel::TimeAdvanced(at), now, draws);
            let idle = table::lookup(m.by_peer, peer) matches Some(conversation) && passed(
                at,
                conversation.last_activity,
                m.config.conversation_idle_timeout,
            );
            &&& step.1 is Ok
            &&& table::lookup(step.0.by_peer, peer) == if idle {
                None
            } else {
                table::lookup(m.by_peer, peer)
            }
            &&& table::lookup(m.by_peer, peer) matches Some(conversation) ==> told_closed(
                step.1->Ok_0,
                conversation.id,
            ) == idle && (idle ==> step.1->Ok_0.contains(
                ActionModel::ConversationClosed {
                    session_id: match step.0.session {
                        Some(session) => Some(session.id),
                        None => None,
                    },
                    conversation_id: conversation.id,
                },
            ))
        }),
{
    let first = if client_model::in_handshake(m.state) {
        client_model::expire_handshake(m, at)
    } else {
        (m, Seq::empty())
    };
    let second = client_model::expire_queue(first.0, at);
    let third = client_model::expire_conversations(second.0, at);
    assert(second.0.by_peer == m.by_peer && second.0.by_id == m.by_id && second.0.config
        == m.config);
    let busy = client_model::still_busy(at, m.config.conversation_idle_timeout);
    let gone = table::discarded(m.by_peer, busy);
    table::lemma_retained_lookup(m.by_peer, busy, peer);
    table::lemma_discarded(m.by_peer, busy);
    table::lemma_position(gone, peer);
    let all = first.1 + second.1 + third.1;
    if table::holds(m.by_peer, peer) {
        let conversation = table::lookup(m.by_peer, peer)->Some_0;
        if table::holds(gone, peer) {
            let p = table::position(gone, peer);
            assert(third.1[p] is ConversationClosed);
            assert(all[first.1.len() + second.1.len() + p] == third.1[p]);
        }
        if told_closed(all, conversation.id) {
            let i = choose|i: int|
                0 <= i < all.len() && ((
                #[trigger] all[i]) matches ActionModel::ConversationClosed {
                    session_id,
                    conversation_id,
                } && conversation_id == conversation.id);
            assert(i >= first.1.len()) by {
                if i < first.1.len() {
                    assert(all[i] == first.1[i]);
                }
            }
            assert(i >= first.1.len() + second.1.len()) by {
                if i < first.1.len() + second.1.len() {
                    assert(all[i] == second.1[i - first.1.len()]);
                }
            }
            let p = i - first.1.len() - second.1.len();
            assert(all[i] == third.1[p]);
            assert(gone[p].1.id == conversation.id);
            table::lemma_unique_lookup(gone, p);
            let other = gone[p].0;
            table::lemma_retained_lookup(m.by_peer, busy, other);
            assert(table::lookup(m.by_peer, other) == Some(gone[p].1));
            assert(table::lookup(m.by_id, conversation.id) == Some(other));
        }
    }
}

/// Sending the queue leaves every local peer its conversation and its credential, and
/// makes it no less active.
proof fn lemma_flush_marks(
    m: ClientModel,
    now: Instant,
    draws: Seq<Option<ConversationId>>,
    from: int,
    count: nat,
    peer: SocketAddress,
)
    ensures
        table::lookup(m.by_peer, peer) matches Some(before) ==> (table::lookup(
            client_model::flush_queue(m, now, draws, from, count).0.by_peer,
            peer,
        ) matches Some(after) && after.id == before.id && after.resumption == before.resumption && (
        after.last_activity == before.last_activity || after.last_activity == now)),
    decreases count,
{
    if count > 0 {
        let draw = client_model::drawn(draws, from);
        let first = client_model::flush_one(m, now, draw).0;
        let other = m.queue[0].local_peer;
        let known = match table::lookup(m.by_peer, other) {
            Some(conversation) => ConversationModel { last_activity: now, ..conversation },
            None => ConversationModel { id: draw->Some_0, last_activity: now, resumption: None },
        };
        table::lemma_put(m.by_peer, other, known, peer);
        assert(first.by_peer == m.by_peer || first.by_peer == table::put(
            m.by_peer,
            other,
            known,
        ));
        lemma_flush_marks(first, now, draws, from + 1, (count - 1) as nat, peer);
    }
}

/// A confirmed session keeps the conversations: where the server took them over, or was
/// not asked to, every local peer keeps its conversation and its credential. Where it
/// was asked and did not, all of them are closed and the host is told.
pub proof fn law_confirmation_keeps_conversations(
    m: ClientModel,
    event: EventModel,
    now: Instant,
    draws: ClientDraws,
    peer: SocketAddress,
)
    requires
        client_model::client_valid(m),
        client_laws::confirms(m, event),
        table::holds(m.by_peer, peer),
    ensures
        ({
            let step = client_model::client_step(m, event, now, draws);
            let before = table::lookup(m.by_peer, peer)->Some_0;
            let asked = m.handshake matches Some(attempt) && attempt.hello.resumption is Some;
            &&& step.1 is Ok
            &&& if m.session->Some_0.resumed || !asked {
                &&& table::lookup(step.0.by_peer, peer) matches Some(after) && after.id
                    == before.id && after.resumption == before.resumption && (after.last_activity
                    == before.last_activity || after.last_activity == now)
                &&& !told_closed(step.1->Ok_0, before.id)
            } else {
                step.1->Ok_0.contains(
                    ActionModel::ConversationClosed {
                        session_id: None,
                        conversation_id: before.id,
                    },
                )
            }
        }),
{
    let seen = client_laws::confirmed_session(m, event);
    let ready = client_model::confirmed(m, seen, now);
    lemma_flush_marks(ready, now, draws.conversations, 0, m.queue.len(), peer);
    lemma_flush_closes_nothing(ready, now, draws.conversations, 0, m.queue.len());
    let actions = client_model::client_step(m, event, now, draws).1->Ok_0;
    if client_model::conversations_dropped(m, seen) {
        let notices = client_model::closed_notices(None, m.by_peer);
        table::lemma_position(m.by_peer, peer);
        let p = table::position(m.by_peer, peer);
        assert(actions[p] == notices[p]);
    } else {
        let flushed = client_model::flush_queue(
            ready,
            now,
            draws.conversations,
            0,
            m.queue.len(),
        ).1;
        assert forall|i: int| 0 <= i < actions.len() implies !((
        #[trigger] actions[i]) is ConversationClosed) by {
            if 1 <= i < 1 + flushed.len() {
                assert(actions[i] == flushed[i - 1]);
            }
        }
    }
}

proof fn lemma_flush_closes_nothing(
    m: ClientModel,
    now: Instant,
    draws: Seq<Option<ConversationId>>,
    from: int,
    count: nat,
)
    ensures
        forall|i: int|
            0 <= i < client_model::flush_queue(m, now, draws, from, count).1.len() ==> !((
            #[trigger] client_model::flush_queue(
                m,
                now,
                draws,
                from,
                count,
            ).1[i]) is ConversationClosed),
    decreases count,
{
    if count > 0 {
        let first = client_model::flush_one(m, now, client_model::drawn(draws, from));
        lemma_flush_closes_nothing(first.0, now, draws, from + 1, (count - 1) as nat);
    }
}

/// Whether several events come no earlier than an instant, time does not advance by a
/// span from it, and none of them closes a conversation or gives all of them up.
pub open spec fn keeps_open(
    m: ClientModel,
    inputs: Seq<ClientInput>,
    since: Instant,
    span: Duration,
    id: ConversationId,
) -> bool {
    forall|k: int|
        0 <= k < inputs.len() ==> {
            let before = after_all(m, inputs.take(k));
            &&& (#[trigger] inputs[k]).1.nanos >= since.nanos
            &&& client_model::draws_valid(inputs[k].2)
            &&& inputs[k].0 matches EventModel::TimeAdvanced(at) ==> !passed(at, since, span)
            &&& inputs[k].0 matches EventModel::CloseConversation { session_id, conversation_id }
                ==> conversation_id != id
            &&& client_laws::confirms(before, inputs[k].0) ==> before.session->Some_0.resumed
        }
}

proof fn lemma_conversation_goes_on(
    m: ClientModel,
    input: ClientInput,
    since: Instant,
    peer: SocketAddress,
)
    requires
        client_model::client_valid(m),
        table::lookup(m.by_peer, peer) matches Some(conversation)
            && conversation.last_activity.nanos >= since.nanos,
        input.1.nanos >= since.nanos,
        client_model::draws_valid(input.2),
        input.0 matches EventModel::TimeAdvanced(at) ==> !passed(
            at,
            since,
            m.config.conversation_idle_timeout,
        ),
        input.0 matches EventModel::CloseConversation { session_id, conversation_id }
            ==> conversation_id != table::lookup(m.by_peer, peer)->Some_0.id,
        client_laws::confirms(m, input.0) ==> m.session->Some_0.resumed,
    ensures
        client_model::client_valid(next_of(m, input)),
        next_of(m, input).config == m.config,
        table::lookup(next_of(m, input).by_peer, peer) matches Some(conversation)
            && conversation.last_activity.nanos >= since.nanos && conversation.id == table::lookup(
            m.by_peer,
            peer,
        )->Some_0.id,
{
    reveal(next_of);
    let now = input.1;
    client_laws::law_client_stays_valid(m, input.0, now, input.2);
    assert(next_of(m, input).config == m.config) by {
        lemma_config_stays(m, input);
    }
    let conversation = table::lookup(m.by_peer, peer)->Some_0;
    if input.0 is TimeAdvanced {
        law_time_closes_idle_conversations(
            m,
            input.0->TimeAdvanced_0,
            now,
            input.2,
            peer,
        );
    } else if !concerns(m, input.0, peer) {
        law_other_conversations_are_untouched(m, input.0, now, input.2, peer);
    } else if client_laws::confirms(m, input.0) {
        law_confirmation_keeps_conversations(m, input.0, now, input.2, peer);
    } else {
        lemma_concern_marks(m, input, peer);
    }
}

/// What concerns a conversation and does not close it makes it no less active.
proof fn lemma_concern_marks(m: ClientModel, input: ClientInput, peer: SocketAddress)
    requires
        client_model::client_valid(m),
        table::holds(m.by_peer, peer),
        concerns(m, input.0, peer),
        !(input.0 is TimeAdvanced),
        !client_laws::confirms(m, input.0),
        input.0 matches EventModel::CloseConversation { session_id, conversation_id }
            ==> conversation_id != table::lookup(m.by_peer, peer)->Some_0.id,
    ensures
        table::lookup(
            client_model::client_step(m, input.0, input.1, input.2).0.by_peer,
            peer,
        ) matches Some(after) && after.id == table::lookup(m.by_peer, peer)->Some_0.id && (
        after.last_activity == input.1 || after.last_activity == table::lookup(
            m.by_peer,
            peer,
        )->Some_0.last_activity),
{
    let now = input.1;
    let conversation = table::lookup(m.by_peer, peer)->Some_0;
    table::lemma_put(
        m.by_peer,
        peer,
        ConversationModel { last_activity: now, ..conversation },
        peer,
    );
    match input.0 {
        EventModel::TunnelFrame { peer_id, bytes } => {
            let record = record_of(m, input.0)->Some_0;
            table::lemma_put(
                m.by_peer,
                peer,
                ConversationModel {
                    last_activity: now,
                    resumption: Some((m.session->Some_0.id, record.plaintext)),
                    ..conversation
                },
                peer,
            );
        },
        EventModel::CloseConversation { session_id, conversation_id } => {
            assert(table::lookup(m.by_id, conversation_id) == Some(peer));
        },
        _ => {},
    }
}

proof fn lemma_config_stays(m: ClientModel, input: ClientInput)
    ensures
        next_of(m, input).config == m.config,
{
    reveal(next_of);
    if m.session is Some && input.0 is TunnelFrame {
        let seen = client_laws::confirmed_session(m, input.0);
        lemma_flush_keeps_config(
            client_model::confirmed(m, seen, input.1),
            input.1,
            input.2.conversations,
            0,
            m.queue.len(),
        );
    }
}

proof fn lemma_flush_keeps_config(
    m: ClientModel,
    now: Instant,
    draws: Seq<Option<ConversationId>>,
    from: int,
    count: nat,
)
    ensures
        client_model::flush_queue(m, now, draws, from, count).0.config == m.config,
    decreases count,
{
    if count > 0 {
        let first = client_model::flush_one(m, now, client_model::drawn(draws, from)).0;
        lemma_flush_keeps_config(first, now, draws, from + 1, (count - 1) as nat);
    }
}

/// A conversation that carries traffic stays open, over sessions that come and go: once
/// it was active at an instant, no sequence of events closes it as long as time does not
/// advance by the conversation timeout from there, the host does not close it and every
/// new session takes the conversations over.
pub proof fn law_busy_conversations_stay_open(
    m: ClientModel,
    inputs: Seq<ClientInput>,
    since: Instant,
    peer: SocketAddress,
)
    requires
        client_model::client_valid(m),
        table::lookup(m.by_peer, peer) matches Some(conversation)
            && conversation.last_activity.nanos >= since.nanos && keeps_open(
            m,
            inputs,
            since,
            m.config.conversation_idle_timeout,
            conversation.id,
        ),
    ensures
        client_model::client_valid(after_all(m, inputs)),
        after_all(m, inputs).config == m.config,
        table::lookup(after_all(m, inputs).by_peer, peer) matches Some(conversation)
            && conversation.last_activity.nanos >= since.nanos && conversation.id == table::lookup(
            m.by_peer,
            peer,
        )->Some_0.id,
    decreases inputs.len(),
{
    if inputs.len() > 0 {
        let earlier = inputs.drop_last();
        let id = table::lookup(m.by_peer, peer)->Some_0.id;
        assert(keeps_open(m, earlier, since, m.config.conversation_idle_timeout, id)) by {
            assert forall|k: int| 0 <= k < earlier.len() implies {
                let before = after_all(m, earlier.take(k));
                &&& (#[trigger] earlier[k]).1.nanos >= since.nanos
                &&& client_model::draws_valid(earlier[k].2)
                &&& earlier[k].0 matches EventModel::TimeAdvanced(at) ==> !passed(
                    at,
                    since,
                    m.config.conversation_idle_timeout,
                )
                &&& earlier[k].0 matches EventModel::CloseConversation {
                    session_id,
                    conversation_id,
                } ==> conversation_id != id
                &&& client_laws::confirms(before, earlier[k].0) ==> before.session->Some_0.resumed
            } by {
                assert(earlier[k] == inputs[k]);
                assert(earlier.take(k) =~= inputs.take(k));
            }
        }
        law_busy_conversations_stay_open(m, earlier, since, peer);
        assert(inputs[inputs.len() - 1] == inputs.last());
        assert(inputs.take(inputs.len() - 1) =~= earlier);
        lemma_conversation_goes_on(after_all(m, earlier), inputs.last(), since, peer);
    }
}

/// The host closes a conversation: that one is closed, the host is told, and its local
/// peer has none any more.
pub proof fn law_closing_closes_the_conversation(
    m: ClientModel,
    session_id: Option<SessionId>,
    now: Instant,
    draws: ClientDraws,
    peer: SocketAddress,
)
    requires
        client_model::client_valid(m),
        table::holds(m.by_peer, peer),
        session_id is None || (m.session matches Some(session) && session_id == Some(session.id)),
    ensures
        ({
            let id = table::lookup(m.by_peer, peer)->Some_0.id;
            let step = client_model::client_step(
                m,
                EventModel::CloseConversation { session_id, conversation_id: id },
                now,
                draws,
            );
            &&& step.1 == Ok::<Seq<ActionModel>, EngineError>(
                seq![
                    ActionModel::ConversationClosed {
                        session_id: match m.session {
                            Some(session) => Some(session.id),
                            None => None,
                        },
                        conversation_id: id,
                    },
                ],
            )
            &&& !table::holds(step.0.by_peer, peer)
            &&& !table::holds(step.0.by_id, id)
        }),
{
    let id = table::lookup(m.by_peer, peer)->Some_0.id;
    assert(table::lookup(m.by_id, id) == Some(peer));
    table::lemma_without(m.by_peer, peer, peer);
    table::lemma_without(m.by_id, id, id);
}

/// What the server sends for no conversation of the client is handed to nobody, and what
/// carries neither data nor a credential does nothing.
pub proof fn law_other_records_are_handed_to_nobody(
    m: ClientModel,
    event: EventModel,
    now: Instant,
    draws: ClientDraws,
)
    requires
        client_model::client_valid(m),
        m.state == SessionState::Ready,
        record_of(m, event) is Some,
    ensures
        ({
            let step = client_model::client_step(m, event, now, draws);
            let record = record_of(m, event)->Some_0;
            if record.frame_type != FrameType::Data && record.frame_type
                != FrameType::ResumptionCredential {
                step.1 == Ok::<Seq<ActionModel>, EngineError>(Seq::empty()) && step.0.by_peer
                    == m.by_peer
            } else {
                !(record.conversation_id matches Some(id) && table::holds(m.by_id, id)) ==> step.1
                    == Err::<Seq<ActionModel>, EngineError>(EngineError::UnknownConversation)
                    && step.0.by_peer == m.by_peer
            }
        }),
{
}

/// The host closes a conversation that the client does not have, or one of another
/// session: nothing happens.
pub proof fn law_closing_what_is_not_there(
    m: ClientModel,
    session_id: Option<SessionId>,
    conversation_id: ConversationId,
    now: Instant,
    draws: ClientDraws,
)
    ensures
        ({
            let step = client_model::client_step(
                m,
                EventModel::CloseConversation { session_id, conversation_id },
                now,
                draws,
            );
            let named = session_id is None || (m.session matches Some(session) && session_id
                == Some(session.id));
            &&& !named ==> step == (
                m,
                Err::<Seq<ActionModel>, EngineError>(EngineError::UnknownSession),
            )
            &&& named && !table::holds(m.by_id, conversation_id) ==> step == (
                m,
                Ok::<Seq<ActionModel>, EngineError>(Seq::empty()),
            )
        }),
{
}

} // verus!
