//! Which sessions and conversations of a server stay, and for how long.

use vstd::prelude::*;

use crate::action::{ActionModel, EventModel};
use crate::error::EngineError;
use crate::id::{ConversationId, PeerId, SessionId};
use crate::protocol;
use crate::protocol::FrameType;
use crate::record;
use crate::record::RecordModel;
use crate::server_laws;
use crate::server_model;
use crate::server_model::{
    ServerConversationModel, ServerDraws, ServerModel, ServerSessionModel,
};
use crate::session_laws;
use crate::session_laws::{after_all, lives_through, next_of, resumes, ServerInput};
use crate::table;
use crate::time::{Duration, Instant};

verus! {

/// What a server knows of a conversation of a session.
pub open spec fn conversation_at(
    m: ServerModel,
    session_id: SessionId,
    conversation_id: ConversationId,
) -> Option<ServerConversationModel> {
    match table::lookup(m.sessions, session_id) {
        Some(session) => table::lookup(session.conversations, conversation_id),
        None => None,
    }
}

/// The authentic record of a session that an event brings over the session's route.
pub open spec fn record_of(
    m: ServerModel,
    event: EventModel,
    session_id: SessionId,
) -> Option<RecordModel> {
    match (event, table::lookup(m.sessions, session_id)) {
        (EventModel::TunnelFrame { peer_id, bytes }, Some(session)) => if session.peer_id
            == peer_id && (protocol::decoded(bytes) matches Ok(frame) && frame.session_id
            == session_id) {
            match record::opened(session.opener, bytes) {
                Ok(record) => Some(record),
                Err(_) => None,
            }
        } else {
            None
        },
        _ => None,
    }
}

/// Whether an event brings data of a conversation.
pub open spec fn brings_data(
    m: ServerModel,
    event: EventModel,
    session_id: SessionId,
    conversation_id: ConversationId,
) -> bool {
    record_of(m, event, session_id) matches Some(record) && record.frame_type == FrameType::Data
        && record.conversation_id == Some(conversation_id)
}

/// Whether an event closes a conversation.
pub open spec fn asks_to_close(
    event: EventModel,
    session_id: SessionId,
    conversation_id: ConversationId,
) -> bool {
    event == EventModel::CloseConversation { session_id: Some(session_id), conversation_id }
}

/// The session that an event leaves behind of one that stays.
spec fn session_after(m: ServerModel, input: ServerInput, session_id: SessionId)
    -> ServerSessionModel {
    let session = table::lookup(m.sessions, session_id)->Some_0;
    let now = input.1;
    match input.0 {
        EventModel::TunnelFrame { peer_id, bytes } => match record_of(m, input.0, session_id) {
            Some(record) => server_model::receive_record(
                server_model::after_record(session, m.config, bytes, now),
                m.config,
                m.cookie_secret,
                session_id,
                record,
                now,
                server_model::clock_ms(m, now),
                input.2.credentials,
            ).0,
            None => session,
        },
        EventModel::ServerDatagram { session_id: named, conversation_id, payload } => if named
            == session_id && payload.len() <= m.config.max_frame_payload && table::holds(
            session.conversations,
            conversation_id,
        ) {
            ServerSessionModel {
                sealer: record::after_sealing(
                    session.sealer,
                    FrameType::Data,
                    Some(conversation_id),
                    payload,
                ),
                last_activity: now,
                expires_at: (now.nanos + m.config.session_idle_timeout.length()) as u128,
                ..session
            }
        } else {
            session
        },
        EventModel::CloseConversation { session_id: named, conversation_id } => if named == Some(
            session_id,
        ) {
            ServerSessionModel {
                conversations: table::without(session.conversations, conversation_id),
                ..session
            }
        } else {
            session
        },
        EventModel::TimeAdvanced(at) => server_model::swept_session(
            session,
            at,
            m.config.conversation_idle_timeout,
        ),
        _ => session,
    }
}

proof fn lemma_session_after(m: ServerModel, input: ServerInput, session_id: SessionId)
    requires
        server_model::server_valid(m),
        table::holds(m.sessions, session_id),
        table::holds(next_of(m, input).sessions, session_id),
    ensures
        table::lookup(next_of(m, input).sessions, session_id) == Some(
            session_after(m, input, session_id),
        ),
{
    reveal(next_of);
    let now = input.1;
    let draws = input.2;
    let session = table::lookup(m.sessions, session_id)->Some_0;
    table::lemma_all_lookup(
        m.sessions,
        server_model::session_valid(m.config, m.cookie_secret),
        session_id,
    );
    match input.0 {
        EventModel::TunnelFrame { peer_id, bytes } => {
            lemma_frame_leaves_session(m, peer_id, bytes, now, draws, session_id);
        },
        EventModel::ServerDatagram { session_id: named, conversation_id, payload } => {
            if table::holds(m.sessions, named) {
                let near = table::lookup(m.sessions, named)->Some_0;
                let active = ServerSessionModel {
                    sealer: record::after_sealing(
                        near.sealer,
                        FrameType::Data,
                        Some(conversation_id),
                        payload,
                    ),
                    last_activity: now,
                    expires_at: (now.nanos + m.config.session_idle_timeout.length()) as u128,
                    ..near
                };
                table::lemma_put(m.sessions, named, active, session_id);
            }
        },
        EventModel::CloseConversation { session_id: named, conversation_id } => {
            if named is Some && table::holds(m.sessions, named->Some_0) {
                let near = table::lookup(m.sessions, named->Some_0)->Some_0;
                let closed = ServerSessionModel {
                    conversations: table::without(near.conversations, conversation_id),
                    ..near
                };
                table::lemma_put(m.sessions, named->Some_0, closed, session_id);
                if !table::holds(near.conversations, conversation_id) {
                    assert(closed == near);
                }
            }
        },
        EventModel::TimeAdvanced(at) => {
            session_laws::lemma_expire_lookup(m, at, session_id);
        },
        _ => {},
    }
}

proof fn lemma_frame_leaves_session(
    m: ServerModel,
    peer_id: PeerId,
    bytes: Seq<u8>,
    now: Instant,
    draws: ServerDraws,
    session_id: SessionId,
)
    requires
        server_model::server_valid(m),
        table::holds(m.sessions, session_id),
        table::holds(
            server_model::handle_tunnel(m, peer_id, bytes, now, draws).0.sessions,
            session_id,
        ),
    ensures
        table::lookup(
            server_model::handle_tunnel(m, peer_id, bytes, now, draws).0.sessions,
            session_id,
        ) == Some(
            session_after(m, (EventModel::TunnelFrame { peer_id, bytes }, now, draws), session_id),
        ),
{
    if protocol::decoded(bytes) is Ok {
        let frame = protocol::decoded(bytes)->Ok_0;
        if frame.frame_type == FrameType::ClientFinish {
            if !table::holds(m.sessions, frame.session_id) && table::holds(
                m.pending,
                frame.session_id,
            ) {
                session_laws::lemma_establish_lookup(
                    m,
                    peer_id,
                    frame,
                    table::lookup(m.pending, frame.session_id)->Some_0,
                    now,
                    session_id,
                );
            }
        } else if protocol::carries_record(frame.frame_type) && table::holds(
            m.sessions,
            frame.session_id,
        ) {
            let session = table::lookup(m.sessions, frame.session_id)->Some_0;
            if record::opened(session.opener, bytes) is Ok {
                let got = server_model::receive_record(
                    server_model::after_record(session, m.config, bytes, now),
                    m.config,
                    m.cookie_secret,
                    frame.session_id,
                    record::opened(session.opener, bytes)->Ok_0,
                    now,
                    server_model::clock_ms(m, now),
                    draws.credentials,
                );
                table::lemma_put(m.sessions, frame.session_id, got.0, session_id);
            }
        }
    }
}

/// What a record does to the conversations and the activity of its session.
proof fn lemma_record_marks(
    m: ServerModel,
    session: ServerSessionModel,
    session_id: SessionId,
    record: RecordModel,
    now: Instant,
    now_ms: u64,
    salts: Seq<Option<Seq<u8>>>,
    conversation_id: ConversationId,
)
    ensures
        ({
            let after = server_model::receive_record(
                session,
                m.config,
                m.cookie_secret,
                session_id,
                record,
                now,
                now_ms,
                salts,
            ).0;
            let marked = record.frame_type == FrameType::Data && record.conversation_id == Some(
                conversation_id,
            ) && (table::holds(session.conversations, conversation_id)
                || session.conversations.len() < m.config.max_conversations);
            &&& after.last_activity == session.last_activity
            &&& after.peer_id == session.peer_id
            &&& if marked {
                table::lookup(after.conversations, conversation_id) matches Some(conversation)
                    && conversation.last_activity == now
            } else {
                match (
                    table::lookup(session.conversations, conversation_id),
                    table::lookup(after.conversations, conversation_id),
                ) {
                    (Some(before), Some(later)) => later.last_activity == before.last_activity,
                    (None, None) => true,
                    _ => false,
                }
            }
        }),
{
    if record.frame_type == FrameType::Data && record.conversation_id is Some {
        let named = record.conversation_id->Some_0;
        let value = server_model::active_conversation(session.conversations, named, now);
        let active = ServerSessionModel {
            conversations: table::put(session.conversations, named, value),
            ..session
        };
        table::lemma_put(session.conversations, named, value, conversation_id);
        server_laws::lemma_renewed_keeps(
            active,
            m.config,
            m.cookie_secret,
            session_id,
            now,
            now_ms,
            salts,
            active.conversations.len(),
        );
        let after = server_model::renewed(
            active,
            m.config,
            m.cookie_secret,
            session_id,
            now,
            now_ms,
            salts,
            active.conversations.len(),
        ).0.conversations;
        table::lemma_position(active.conversations, conversation_id);
        let at = table::position(active.conversations, conversation_id);
        assert forall|j: int| 0 <= j < at implies (#[trigger] after[j]).0 != conversation_id by {
            assert(active.conversations[j].0 != conversation_id);
        }
        if at < after.len() {
            assert(after[at].0 == active.conversations[at].0);
        }
        table::lemma_position_is(after, conversation_id, at);
    }
}

/// Data marks its conversation as active: after a data record of a conversation came at
/// an instant, that instant is when the conversation and its session were last active,
/// and where nothing stands against it the payload is handed to the upstream and the
/// session's timer is set again.
pub proof fn law_data_marks_its_conversation(
    m: ServerModel,
    event: EventModel,
    now: Instant,
    draws: ServerDraws,
    session_id: SessionId,
    conversation_id: ConversationId,
)
    requires
        server_model::server_valid(m),
        brings_data(m, event, session_id, conversation_id),
        conversation_at(m, session_id, conversation_id) is Some || table::lookup(
            m.sessions,
            session_id,
        )->Some_0.conversations.len() < m.config.max_conversations,
    ensures
        ({
            let step = server_model::server_step(m, event, now, draws);
            let payload = record_of(m, event, session_id)->Some_0.plaintext;
            &&& conversation_at(step.0, session_id, conversation_id) matches Some(conversation)
                && conversation.last_activity == now
            &&& table::lookup(step.0.sessions, session_id) matches Some(session)
                && session.last_activity == now
            &&& step.1 matches Ok(actions) ==> actions.len() >= 2 && actions[actions.len() - 2] == (
            ActionModel::DeliverToUpstream { session_id, conversation_id, payload })
                && actions.last() == ActionModel::ScheduleTimer(m.config.session_idle_timeout)
        }),
{
    let input: ServerInput = (event, now, draws);
    let bytes = event->TunnelFrame_bytes;
    let session = table::lookup(m.sessions, session_id)->Some_0;
    let record = record_of(m, event, session_id)->Some_0;
    let received = server_model::after_record(session, m.config, bytes, now);
    let now_ms = server_model::clock_ms(m, now);
    lemma_record_marks(
        m,
        received,
        session_id,
        record,
        now,
        now_ms,
        draws.credentials,
        conversation_id,
    );
    let got = server_model::receive_record(
        received,
        m.config,
        m.cookie_secret,
        session_id,
        record,
        now,
        now_ms,
        draws.credentials,
    );
    table::lemma_put(m.sessions, session_id, got.0, session_id);
    let step = server_model::server_step(m, event, now, draws);
    assert(step.0.sessions == table::put(m.sessions, session_id, got.0));
    if step.1 is Ok {
        let actions = step.1->Ok_0;
        assert(actions[actions.len() - 2] == (ActionModel::DeliverToUpstream {
            session_id,
            conversation_id,
            payload: record.plaintext,
        }));
    }
}

/// Nothing but its own data and the passing of time touches a conversation: every other
/// event leaves it as active as it was, unless the host closes it or its session ends.
pub proof fn law_only_data_marks_conversations(
    m: ServerModel,
    input: ServerInput,
    session_id: SessionId,
    conversation_id: ConversationId,
)
    requires
        server_model::server_valid(m),
        table::holds(m.sessions, session_id),
        table::holds(next_of(m, input).sessions, session_id),
        !brings_data(m, input.0, session_id, conversation_id),
        !asks_to_close(input.0, session_id, conversation_id),
        !(input.0 is TimeAdvanced),
    ensures
        match (
            conversation_at(m, session_id, conversation_id),
            conversation_at(next_of(m, input), session_id, conversation_id),
        ) {
            (Some(before), Some(later)) => later.last_activity == before.last_activity,
            (None, None) => true,
            _ => false,
        },
{
    lemma_session_after(m, input, session_id);
    let session = table::lookup(m.sessions, session_id)->Some_0;
    table::lemma_all_lookup(
        m.sessions,
        server_model::session_valid(m.config, m.cookie_secret),
        session_id,
    );
    match input.0 {
        EventModel::TunnelFrame { peer_id, bytes } => {
            if record_of(m, input.0, session_id) is Some {
                lemma_record_marks(
                    m,
                    server_model::after_record(session, m.config, bytes, input.1),
                    session_id,
                    record_of(m, input.0, session_id)->Some_0,
                    input.1,
                    server_model::clock_ms(m, input.1),
                    input.2.credentials,
                    conversation_id,
                );
            }
        },
        EventModel::CloseConversation { session_id: named, conversation_id: closed } => {
            table::lemma_without(session.conversations, closed, conversation_id);
        },
        _ => {},
    }
}

/// A session is active when an authentic record of it comes and when the upstream
/// answers one of its conversations, and at no other time.
pub proof fn law_traffic_keeps_sessions_active(
    m: ServerModel,
    input: ServerInput,
    session_id: SessionId,
)
    requires
        server_model::server_valid(m),
        table::holds(m.sessions, session_id),
        table::holds(next_of(m, input).sessions, session_id),
    ensures
        ({
            let before = table::lookup(m.sessions, session_id)->Some_0;
            let later = table::lookup(next_of(m, input).sessions, session_id)->Some_0;
            let answered = input.0 matches EventModel::ServerDatagram {
                session_id: named,
                conversation_id,
                payload,
            } && named == session_id && payload.len() <= m.config.max_frame_payload
                && conversation_at(m, session_id, conversation_id) is Some;
            later.last_activity == if record_of(m, input.0, session_id) is Some || answered {
                input.1
            } else {
                before.last_activity
            }
        }),
{
    lemma_session_after(m, input, session_id);
    let session = table::lookup(m.sessions, session_id)->Some_0;
    match input.0 {
        EventModel::TunnelFrame { peer_id, bytes } => {
            if record_of(m, input.0, session_id) is Some {
                let record = record_of(m, input.0, session_id)->Some_0;
                lemma_record_marks(
                    m,
                    server_model::after_record(session, m.config, bytes, input.1),
                    session_id,
                    record,
                    input.1,
                    server_model::clock_ms(m, input.1),
                    input.2.credentials,
                    record.conversation_id->Some_0,
                );
            }
        },
        _ => {},
    }
}

/// Whether something that was last active at an instant has been idle for a span.
pub open spec fn idle_for(at: Instant, last_activity: Instant, span: Duration) -> bool {
    at.nanos >= last_activity.nanos + span.length()
}

/// Sweeping tells of the idle conversations of every session, and of no others.
proof fn lemma_swept_tells(
    sessions: Seq<(SessionId, ServerSessionModel)>,
    at: Instant,
    timeout: Duration,
    session_id: SessionId,
    conversation_id: ConversationId,
)
    requires
        table::unique_keys(sessions),
        timeout.length() > 0,
        forall|i: int|
            0 <= i < sessions.len() ==> table::unique_keys(
                (#[trigger] sessions[i]).1.conversations,
            ),
    ensures
        server_model::swept_sessions(sessions, at, timeout).1.contains(
            ActionModel::ConversationClosed { session_id: Some(session_id), conversation_id },
        ) == (table::lookup(sessions, session_id) matches Some(session) && (table::lookup(
            session.conversations,
            conversation_id,
        ) matches Some(conversation) && idle_for(at, conversation.last_activity, timeout))),
    decreases sessions.len(),
{
    let closed = ActionModel::ConversationClosed { session_id: Some(session_id), conversation_id };
    if sessions.len() > 0 {
        let earlier = sessions.drop_last();
        let last = sessions.last();
        assert(table::unique_keys(earlier)) by {
            assert forall|i: int, j: int|
                #![trigger earlier[i], earlier[j]]
                0 <= i < j < earlier.len() implies earlier[i].0 != earlier[j].0 by {
                assert(sessions[i].0 != sessions[j].0);
            }
        }
        assert forall|i: int| 0 <= i < earlier.len() implies table::unique_keys(
            (#[trigger] earlier[i]).1.conversations,
        ) by {
            assert(earlier[i] == sessions[i]);
        }
        lemma_swept_tells(earlier, at, timeout, session_id, conversation_id);
        table::lemma_position(earlier, last.0);
        assert(!table::holds(earlier, last.0)) by {
            if table::holds(earlier, last.0) {
                let p = table::position(earlier, last.0);
                assert(sessions[p].0 != sessions[sessions.len() - 1].0);
            }
        }
        assert(sessions =~= table::put(earlier, last.0, last.1));
        table::lemma_put(earlier, last.0, last.1, session_id);
        let busy = server_model::still_busy(at, timeout);
        assert(table::unique_keys(sessions[sessions.len() - 1].1.conversations));
        table::lemma_retained_lookup(last.1.conversations, busy, conversation_id);
        let gone = table::discarded(last.1.conversations, busy);
        let notices = server_model::closed_notices(last.0, gone);
        let first = server_model::swept_sessions(earlier, at, timeout).1;
        let all = first + notices;
        table::lemma_position(gone, conversation_id);
        if last.0 == session_id {
            if table::holds(gone, conversation_id) {
                let p = table::position(gone, conversation_id);
                assert(notices[p] == closed);
                assert(all[first.len() + p] == closed);
            }
            if all.contains(closed) {
                let i = choose|i: int| 0 <= i < all.len() && all[i] == closed;
                if i < first.len() {
                    assert(first.contains(closed));
                } else {
                    let g = gone[i - first.len()];
                    assert(notices[i - first.len()] == closed);
                    assert(g.0 == conversation_id);
                    if !table::holds(gone, conversation_id) {
                        assert(gone[i - first.len()].0 != conversation_id);
                    }
                }
            }
        } else {
            if all.contains(closed) {
                let i = choose|i: int| 0 <= i < all.len() && all[i] == closed;
                if i >= first.len() {
                    assert(notices[i - first.len()] == closed);
                } else {
                    assert(first[i] == closed);
                }
            }
            if first.contains(closed) {
                let i = choose|i: int| 0 <= i < first.len() && first[i] == closed;
                assert(all[i] == closed);
            }
        }
    } else {
        table::lemma_position(sessions, session_id);
    }
}

/// What time does to a session and to its conversations. A session is closed exactly
/// when it has been idle for its timeout. Of a session that stays, a conversation is
/// closed exactly when it has been idle for its own timeout, and every other one stays
/// as it is. The host is told of each conversation that was idle.
pub proof fn law_time_closes_what_is_idle(
    m: ServerModel,
    at: Instant,
    now: Instant,
    draws: ServerDraws,
    session_id: SessionId,
    conversation_id: ConversationId,
)
    requires
        server_model::server_valid(m),
    ensures
        ({
            let step = server_model::server_step(m, EventModel::TimeAdvanced(at), now, draws);
            let before = table::lookup(m.sessions, session_id);
            let after = table::lookup(step.0.sessions, session_id);
            let known = conversation_at(m, session_id, conversation_id);
            &&& step.1 is Ok
            &&& after is Some == (before matches Some(session) && !idle_for(
                at,
                session.last_activity,
                m.config.session_idle_timeout,
            ))
            &&& after matches Some(session) ==> session.last_activity
                == before->Some_0.last_activity && session.peer_id == before->Some_0.peer_id
            &&& after is Some ==> conversation_at(step.0, session_id, conversation_id) == match known {
                Some(conversation) => if idle_for(
                    at,
                    conversation.last_activity,
                    m.config.conversation_idle_timeout,
                ) {
                    None
                } else {
                    known
                },
                None => None,
            }
            &&& step.1->Ok_0.contains(
                ActionModel::ConversationClosed { session_id: Some(session_id), conversation_id },
            ) == (known matches Some(conversation) && idle_for(
                at,
                conversation.last_activity,
                m.config.conversation_idle_timeout,
            ))
            &&& before matches Some(session) ==> step.1->Ok_0.contains(
                ActionModel::SessionClosed { peer_id: session.peer_id, session_id },
            ) == (after is None)
        }),
{
    let timeout = m.config.conversation_idle_timeout;
    let valid = server_model::session_valid(m.config, m.cookie_secret);
    let alive = server_model::still_alive(at, m.config.session_idle_timeout);
    let swept = server_model::swept_sessions(m.sessions, at, timeout);
    table::lemma_all_lookup(m.sessions, valid, session_id);
    session_laws::lemma_expire_lookup(m, at, session_id);
    session_laws::lemma_swept_lookup(m, at, session_id);
    session_laws::lemma_swept_notices(m.sessions, at, timeout);
    if table::holds(m.sessions, session_id) {
        let session = table::lookup(m.sessions, session_id)->Some_0;
        table::lemma_retained_lookup(
            session.conversations,
            server_model::still_busy(at, timeout),
            conversation_id,
        );
    }
    assert forall|i: int| 0 <= i < m.sessions.len() implies table::unique_keys(
        (#[trigger] m.sessions[i]).1.conversations,
    ) by {
        assert(valid(m.sessions[i].0, m.sessions[i].1));
    }
    lemma_swept_tells(m.sessions, at, timeout, session_id, conversation_id);
    let expired = table::discarded(swept.0, alive);
    table::lemma_retained_lookup(swept.0, alive, session_id);
    table::lemma_discarded(swept.0, alive);
    let notices = server_model::session_notices(expired);
    let lost = server_model::recovery_notices(
        table::discarded(
            server_model::retired(
                m.resumable,
                expired,
                (at.nanos + m.config.resumption_lifetime.length()) as u128,
            ),
            server_model::still_resumable(at),
        ),
    );
    let actions = server_model::expire(m, at).1;
    assert(actions == swept.1 + notices + lost);
    let closed = ActionModel::ConversationClosed { session_id: Some(session_id), conversation_id };
    if actions.contains(closed) {
        let i = choose|i: int| 0 <= i < actions.len() && actions[i] == closed;
        assert(i < swept.1.len());
        assert(swept.1[i] == closed);
    }
    if swept.1.contains(closed) {
        let i = choose|i: int| 0 <= i < swept.1.len() && swept.1[i] == closed;
        assert(actions[i] == closed);
    }
    if table::holds(m.sessions, session_id) {
        let session = table::lookup(m.sessions, session_id)->Some_0;
        let ended = ActionModel::SessionClosed { peer_id: session.peer_id, session_id };
        table::lemma_position(expired, session_id);
        if table::holds(expired, session_id) {
            let p = table::position(expired, session_id);
            assert(notices[p] == ended);
            assert(actions[swept.1.len() + p] == ended);
        }
        if actions.contains(ended) {
            let i = choose|i: int| 0 <= i < actions.len() && actions[i] == ended;
            assert(i >= swept.1.len()) by {
                if i < swept.1.len() {
                    assert(swept.1[i] is ConversationClosed);
                }
            }
            let p = i - swept.1.len();
            assert(p < notices.len());
            assert(notices[p] == ended);
            assert(expired[p].0 == session_id);
            if !table::holds(expired, session_id) {
                assert(expired[p].0 != session_id);
            }
        }
    }
}

/// What time does to the sessions that can be resumed. One that ends now, with a
/// conversation that is not idle, can be resumed from now on for the resumption
/// lifetime, with those of its conversations that are not idle, each as it was. One
/// that could be resumed already stays as it is until its time is over.
pub proof fn law_time_keeps_what_can_be_resumed(
    m: ServerModel,
    at: Instant,
    now: Instant,
    draws: ServerDraws,
    session_id: SessionId,
    conversation_id: ConversationId,
)
    requires
        server_model::server_valid(m),
    ensures
        ({
            let step = server_model::server_step(m, EventModel::TimeAdvanced(at), now, draws);
            let after = table::lookup(step.0.resumable, session_id);
            let known = conversation_at(m, session_id, conversation_id);
            let busy = known matches Some(conversation) && !idle_for(
                at,
                conversation.last_activity,
                m.config.conversation_idle_timeout,
            );
            match table::lookup(m.sessions, session_id) {
                Some(session) => if !idle_for(
                    at,
                    session.last_activity,
                    m.config.session_idle_timeout,
                ) {
                    after is None
                } else {
                    &&& busy ==> after is Some
                    &&& after matches Some(state) ==> {
                        &&& state.expires_at == at.nanos + m.config.resumption_lifetime.length()
                        &&& state.conversations.len() > 0
                        &&& table::lookup(state.conversations, conversation_id) == if busy {
                            known
                        } else {
                            None
                        }
                    }
                },
                None => after == match table::lookup(m.resumable, session_id) {
                    Some(state) => if at.nanos < state.expires_at {
                        Some(state)
                    } else {
                        None
                    },
                    None => None,
                },
            }
        }),
{
    let timeout = m.config.conversation_idle_timeout;
    let valid = server_model::session_valid(m.config, m.cookie_secret);
    let alive = server_model::still_alive(at, m.config.session_idle_timeout);
    let swept = server_model::swept_sessions(m.sessions, at, timeout).0;
    assert(server_model::told_apart(m, session_id));
    table::lemma_all_lookup(m.sessions, valid, session_id);
    session_laws::lemma_expire_resumable(m, at, session_id);
    session_laws::lemma_swept_lookup(m, at, session_id);
    table::lemma_retained_lookup(swept, alive, session_id);
    let expired = table::discarded(swept, alive);
    session_laws::lemma_retired_lookup(
        m.resumable,
        expired,
        (at.nanos + m.config.resumption_lifetime.length()) as u128,
        session_id,
    );
    if table::holds(m.sessions, session_id) {
        let session = table::lookup(m.sessions, session_id)->Some_0;
        let left = table::retained(session.conversations, server_model::still_busy(at, timeout));
        table::lemma_retained_lookup(
            session.conversations,
            server_model::still_busy(at, timeout),
            conversation_id,
        );
        table::lemma_position(left, conversation_id);
    }
}

/// A pending handshake waits for its finish as long as the handshake timeout, and no
/// longer.
pub proof fn law_time_ends_pending_handshakes(
    m: ServerModel,
    at: Instant,
    now: Instant,
    draws: ServerDraws,
    session_id: SessionId,
)
    requires
        server_model::server_valid(m),
    ensures
        table::lookup(
            server_model::server_step(m, EventModel::TimeAdvanced(at), now, draws).0.pending,
            session_id,
        ) == match table::lookup(m.pending, session_id) {
            Some(pending) => if idle_for(at, pending.created_at, m.config.handshake_timeout) {
                None
            } else {
                Some(pending)
            },
            None => None,
        },
{
    table::lemma_retained_lookup(
        m.pending,
        server_model::still_pending(at, m.config.handshake_timeout),
        session_id,
    );
}

/// Whether several events come no earlier than an instant, time does not advance by a
/// span from it, and none of them closes a conversation.
pub open spec fn within(
    inputs: Seq<ServerInput>,
    since: Instant,
    span: Duration,
    session_id: SessionId,
    conversation_id: ConversationId,
) -> bool {
    forall|k: int|
        0 <= k < inputs.len() ==> {
            &&& (#[trigger] inputs[k]).1.nanos >= since.nanos
            &&& inputs[k].0 matches EventModel::TimeAdvanced(at) ==> !idle_for(at, since, span)
            &&& !asks_to_close(inputs[k].0, session_id, conversation_id)
        }
}

/// A conversation that carries traffic stays open: once it was active at an instant, no
/// sequence of events closes it as long as time does not advance by the conversation
/// timeout from there, its session lives and the host does not close it. Expiry thus
/// closes a conversation only where no data of it came for that long.
pub proof fn law_busy_conversations_stay_open(
    m: ServerModel,
    inputs: Seq<ServerInput>,
    since: Instant,
    session_id: SessionId,
    conversation_id: ConversationId,
)
    requires
        server_model::server_valid(m),
        conversation_at(m, session_id, conversation_id) matches Some(conversation)
            && conversation.last_activity.nanos >= since.nanos,
        lives_through(m, inputs, session_id),
        within(
            inputs,
            since,
            m.config.conversation_idle_timeout,
            session_id,
            conversation_id,
        ),
    ensures
        conversation_at(after_all(m, inputs), session_id, conversation_id) matches Some(
            conversation,
        ) && conversation.last_activity.nanos >= since.nanos,
        server_model::server_valid(after_all(m, inputs)),
        after_all(m, inputs).config == m.config,
    decreases inputs.len(),
{
    if inputs.len() > 0 {
        let earlier = inputs.drop_last();
        let last = inputs.last();
        assert forall|k: int| 0 <= k <= earlier.len() implies table::holds(
            (#[trigger] after_all(m, earlier.take(k))).sessions,
            session_id,
        ) by {
            assert(earlier.take(k) =~= inputs.take(k));
        }
        assert forall|k: int| 0 <= k < earlier.len() implies {
            &&& (#[trigger] earlier[k]).1.nanos >= since.nanos
            &&& earlier[k].0 matches EventModel::TimeAdvanced(at) ==> !idle_for(
                at,
                since,
                m.config.conversation_idle_timeout,
            )
            &&& !asks_to_close(earlier[k].0, session_id, conversation_id)
        } by {
            assert(earlier[k] == inputs[k]);
        }
        law_busy_conversations_stay_open(m, earlier, since, session_id, conversation_id);
        let before = after_all(m, earlier);
        assert(inputs[inputs.len() - 1] == last);
        assert(inputs.take(inputs.len() as int) =~= inputs);
        assert(table::holds(after_all(m, inputs.take(inputs.len() as int)).sessions, session_id));
        session_laws::lemma_next_is_valid(before, last);
        lemma_config_stays(before, last);
        if last.0 is TimeAdvanced {
            let at = last.0->TimeAdvanced_0;
            law_time_closes_what_is_idle(
                before,
                at,
                last.1,
                last.2,
                session_id,
                conversation_id,
            );
            assert(next_of(before, last) == server_model::server_step(
                before,
                EventModel::TimeAdvanced(at),
                last.1,
                last.2,
            ).0) by {
                reveal(next_of);
            }
        } else if brings_data(before, last.0, session_id, conversation_id) {
            law_data_marks_its_conversation(
                before,
                last.0,
                last.1,
                last.2,
                session_id,
                conversation_id,
            );
            reveal(next_of);
        } else {
            law_only_data_marks_conversations(before, last, session_id, conversation_id);
        }
    }
}

proof fn lemma_config_stays(m: ServerModel, input: ServerInput)
    ensures
        next_of(m, input).config == m.config,
{
    reveal(next_of);
}

/// A session goes on only as its traffic does, and ends only when it is idle for its
/// timeout or another session takes it over.
proof fn lemma_sessions_end(m: ServerModel, input: ServerInput, session_id: SessionId)
    requires
        server_model::server_valid(m),
        table::holds(m.sessions, session_id),
        !resumes(m, input, session_id),
        !(input.0 is TimeAdvanced),
    ensures
        table::holds(next_of(m, input).sessions, session_id),
{
    reveal(next_of);
    let now = input.1;
    let draws = input.2;
    match input.0 {
        EventModel::TunnelFrame { peer_id, bytes } => {
            if protocol::decoded(bytes) is Ok {
                let frame = protocol::decoded(bytes)->Ok_0;
                if frame.frame_type == FrameType::ClientFinish {
                    lemma_finish_ends_no_other(m, peer_id, bytes, now, draws, session_id);
                } else if protocol::carries_record(frame.frame_type) && table::holds(
                    m.sessions,
                    frame.session_id,
                ) {
                    let session = table::lookup(m.sessions, frame.session_id)->Some_0;
                    if record::opened(session.opener, bytes) is Ok {
                        let got = server_model::receive_record(
                            server_model::after_record(session, m.config, bytes, now),
                            m.config,
                            m.cookie_secret,
                            frame.session_id,
                            record::opened(session.opener, bytes)->Ok_0,
                            now,
                            server_model::clock_ms(m, now),
                            draws.credentials,
                        );
                        table::lemma_put(m.sessions, frame.session_id, got.0, session_id);
                    }
                }
            }
        },
        EventModel::ServerDatagram { session_id: named, conversation_id, payload } => {
            if table::holds(m.sessions, named) {
                let near = table::lookup(m.sessions, named)->Some_0;
                let active = ServerSessionModel {
                    sealer: record::after_sealing(
                        near.sealer,
                        FrameType::Data,
                        Some(conversation_id),
                        payload,
                    ),
                    last_activity: now,
                    expires_at: (now.nanos + m.config.session_idle_timeout.length()) as u128,
                    ..near
                };
                table::lemma_put(m.sessions, named, active, session_id);
            }
        },
        EventModel::CloseConversation { session_id: named, conversation_id } => {
            if named is Some && table::holds(m.sessions, named->Some_0) {
                let near = table::lookup(m.sessions, named->Some_0)->Some_0;
                let closed = ServerSessionModel {
                    conversations: table::without(near.conversations, conversation_id),
                    ..near
                };
                table::lemma_put(m.sessions, named->Some_0, closed, session_id);
            }
        },
        _ => {},
    }
}

proof fn lemma_finish_ends_no_other(
    m: ServerModel,
    peer_id: PeerId,
    bytes: Seq<u8>,
    now: Instant,
    draws: ServerDraws,
    session_id: SessionId,
)
    requires
        server_model::server_valid(m),
        table::holds(m.sessions, session_id),
        protocol::decoded(bytes) matches Ok(frame) && frame.frame_type == FrameType::ClientFinish,
        !resumes(m, (EventModel::TunnelFrame { peer_id, bytes }, now, draws), session_id),
    ensures
        table::holds(
            server_model::handle_tunnel(m, peer_id, bytes, now, draws).0.sessions,
            session_id,
        ),
{
    reveal(session_laws::actions_of);
    let input: ServerInput = (EventModel::TunnelFrame { peer_id, bytes }, now, draws);
    let frame = protocol::decoded(bytes)->Ok_0;
    let step = server_model::handle_tunnel(m, peer_id, bytes, now, draws);
    if !table::holds(m.sessions, frame.session_id) && table::holds(m.pending, frame.session_id) {
        let pending = table::lookup(m.pending, frame.session_id)->Some_0;
        let taken = server_model::taken_over(m, pending.resume_from);
        if step.0 != m {
            if pending.resume_from == Some(session_id) {
                let told = ActionModel::SessionResumed {
                    peer_id,
                    old_session_id: session_id,
                    new_session_id: frame.session_id,
                };
                assert(session_laws::actions_of(m, input)[2] == told);
                assert(session_laws::actions_of(m, input).contains(told));
                assert(false);
            }
            if pending.resume_from is Some {
                table::lemma_without(m.sessions, pending.resume_from->Some_0, session_id);
            }
            table::lemma_put(
                taken.0.sessions,
                frame.session_id,
                server_model::established_session(m, peer_id, frame, pending, now),
                session_id,
            );
        }
    }
}

/// Whether several events come no earlier than an instant, time does not advance by a
/// span from it, and none of them takes a session over.
pub open spec fn kept_within(
    m: ServerModel,
    inputs: Seq<ServerInput>,
    since: Instant,
    span: Duration,
    session_id: SessionId,
) -> bool {
    forall|k: int|
        0 <= k < inputs.len() ==> {
            &&& (#[trigger] inputs[k]).1.nanos >= since.nanos
            &&& inputs[k].0 matches EventModel::TimeAdvanced(at) ==> !idle_for(at, since, span)
            &&& !resumes(after_all(m, inputs.take(k)), inputs[k], session_id)
        }
}

/// A session that carries traffic lives: once it was active at an instant, no sequence
/// of events ends it as long as time does not advance by the session timeout from there
/// and no other session takes it over.
pub proof fn law_busy_sessions_live(
    m: ServerModel,
    inputs: Seq<ServerInput>,
    since: Instant,
    session_id: SessionId,
)
    requires
        server_model::server_valid(m),
        table::lookup(m.sessions, session_id) matches Some(session) && session.last_activity.nanos
            >= since.nanos,
        kept_within(m, inputs, since, m.config.session_idle_timeout, session_id),
    ensures
        table::lookup(after_all(m, inputs).sessions, session_id) matches Some(session)
            && session.last_activity.nanos >= since.nanos,
        server_model::server_valid(after_all(m, inputs)),
        after_all(m, inputs).config == m.config,
    decreases inputs.len(),
{
    if inputs.len() > 0 {
        let earlier = inputs.drop_last();
        let last = inputs.last();
        assert forall|k: int| 0 <= k < earlier.len() implies {
            &&& (#[trigger] earlier[k]).1.nanos >= since.nanos
            &&& earlier[k].0 matches EventModel::TimeAdvanced(at) ==> !idle_for(
                at,
                since,
                m.config.session_idle_timeout,
            )
            &&& !resumes(after_all(m, earlier.take(k)), earlier[k], session_id)
        } by {
            assert(earlier[k] == inputs[k]);
            assert(earlier.take(k) =~= inputs.take(k));
        }
        law_busy_sessions_live(m, earlier, since, session_id);
        let before = after_all(m, earlier);
        assert(inputs[inputs.len() - 1] == last);
        assert(inputs.take(inputs.len() - 1) =~= earlier);
        session_laws::lemma_next_is_valid(before, last);
        lemma_config_stays(before, last);
        if last.0 is TimeAdvanced {
            let at = last.0->TimeAdvanced_0;
            let session = table::lookup(before.sessions, session_id)->Some_0;
            table::lemma_all_lookup(
                before.sessions,
                server_model::session_valid(before.config, before.cookie_secret),
                session_id,
            );
            assert(table::holds(next_of(before, last).sessions, session_id)) by {
                reveal(next_of);
                session_laws::lemma_expire_lookup(before, at, session_id);
            }
        } else {
            lemma_sessions_end(before, last, session_id);
        }
        law_traffic_keeps_sessions_active(before, last, session_id);
    }
}

/// The conversations that stand for resumption under a session: those of the session
/// while it lives, and those that were kept when it ended.
pub open spec fn resumable_conversation(
    m: ServerModel,
    session_id: SessionId,
    conversation_id: ConversationId,
) -> Option<ServerConversationModel> {
    if table::holds(m.sessions, session_id) {
        conversation_at(m, session_id, conversation_id)
    } else {
        match table::lookup(m.resumable, session_id) {
            Some(state) => table::lookup(state.conversations, conversation_id),
            None => None,
        }
    }
}

/// The octets of the credential of a conversation.
pub open spec fn credential_octets(conversation: ServerConversationModel) -> Option<Seq<u8>> {
    match conversation.credential {
        Some(held) => Some(held.0),
        None => None,
    }
}

/// Where a session takes another one over, every conversation goes on: the new session
/// holds a conversation exactly where the old one did, as active as it was and with the
/// same credential, which is not renewed before half of another lifetime has passed. Of
/// the old session nothing is left.
pub proof fn law_resumption_moves_every_conversation(
    m: ServerModel,
    event: EventModel,
    now: Instant,
    draws: ServerDraws,
    peer_id: PeerId,
    old_session_id: SessionId,
    new_session_id: SessionId,
    conversation_id: ConversationId,
)
    requires
        server_model::server_valid(m),
        server_model::server_step(m, event, now, draws).1 matches Ok(actions) && actions.contains(
            ActionModel::SessionResumed { peer_id, old_session_id, new_session_id },
        ),
    ensures
        ({
            let next = server_model::server_step(m, event, now, draws).0;
            let before = resumable_conversation(m, old_session_id, conversation_id);
            let after = conversation_at(next, new_session_id, conversation_id);
            &&& table::lookup(next.sessions, new_session_id) matches Some(session)
                && session.peer_id == peer_id && session.last_activity == now
            &&& match (before, after) {
                (Some(before), Some(after)) => after.last_activity == before.last_activity
                    && credential_octets(after) == credential_octets(before) && (
                after.credential matches Some(held) ==> held.1 == now.nanos
                    + m.config.resumption_lifetime.length()),
                (None, None) => true,
                _ => false,
            }
            &&& old_session_id != new_session_id ==> !table::holds(next.sessions, old_session_id)
                && !table::holds(next.resumable, old_session_id)
        }),
{
    let told = ActionModel::SessionResumed { peer_id, old_session_id, new_session_id };
    let step = server_model::server_step(m, event, now, draws);
    let actions = step.1->Ok_0;
    let at = choose|i: int| 0 <= i < actions.len() && actions[i] == told;
    assert(server_model::told_apart(m, old_session_id));
    assert(server_model::told_apart(m, new_session_id));
    match event {
        EventModel::TunnelFrame { peer_id: from, bytes } => {
            lemma_only_finishes_resume(m, from, bytes, now, draws, at);
            let frame = protocol::decoded(bytes)->Ok_0;
            let pending = table::lookup(m.pending, frame.session_id)->Some_0;
            let taken = server_model::taken_over(m, pending.resume_from);
            let expires_at = (now.nanos + m.config.resumption_lifetime.length()) as u128;
            let session = server_model::established_session(m, from, frame, pending, now);
            table::lemma_put(taken.0.sessions, frame.session_id, session, frame.session_id);
            table::lemma_put(taken.0.sessions, frame.session_id, session, old_session_id);
            table::lemma_without(m.sessions, old_session_id, old_session_id);
            table::lemma_without(m.resumable, old_session_id, old_session_id);
            lemma_carried_lookup(taken.1, expires_at, conversation_id);
            table::lemma_position(taken.1, conversation_id);
        },
        EventModel::TimeAdvanced(when) => {
            session_laws::lemma_swept_notices(
                m.sessions,
                when,
                m.config.conversation_idle_timeout,
            );
        },
        _ => {},
    }
}

/// Only a finish that completes a pending handshake takes a session over.
proof fn lemma_only_finishes_resume(
    m: ServerModel,
    peer_id: PeerId,
    bytes: Seq<u8>,
    now: Instant,
    draws: ServerDraws,
    at: int,
)
    requires
        server_model::handle_tunnel(m, peer_id, bytes, now, draws).1 matches Ok(actions) && 0 <= at
            < actions.len() && actions[at] is SessionResumed,
    ensures
        ({
            let step = server_model::handle_tunnel(m, peer_id, bytes, now, draws);
            let frame = protocol::decoded(bytes)->Ok_0;
            let pending = table::lookup(m.pending, frame.session_id)->Some_0;
            let told = step.1->Ok_0[at];
            &&& protocol::decoded(bytes) is Ok
            &&& table::holds(m.pending, frame.session_id)
            &&& step == server_model::establish(m, peer_id, frame, pending, now)
            &&& told == (ActionModel::SessionResumed {
                peer_id,
                old_session_id: pending.resume_from->Some_0,
                new_session_id: frame.session_id,
            })
            &&& pending.resume_from is Some
        }),
{
    let step = server_model::handle_tunnel(m, peer_id, bytes, now, draws);
    let frame = protocol::decoded(bytes)->Ok_0;
    if frame.frame_type == FrameType::ClientFinish {
    } else if protocol::carries_record(frame.frame_type) && table::holds(
        m.sessions,
        frame.session_id,
    ) {
        let session = table::lookup(m.sessions, frame.session_id)->Some_0;
        if record::opened(session.opener, bytes) is Ok {
            let record = record::opened(session.opener, bytes)->Ok_0;
            session_laws::lemma_record_keeps_session(
                server_model::after_record(session, m.config, bytes, now),
                m.config,
                m.cookie_secret,
                frame.session_id,
                record,
                now,
                server_model::clock_ms(m, now),
                draws.credentials,
            );
        }
    }
}

proof fn lemma_carried_lookup(
    conversations: server_model::Conversations,
    expires_at: u128,
    conversation_id: ConversationId,
)
    ensures
        ({
            let carried = server_model::carried_over(conversations, expires_at);
            match (
                table::lookup(conversations, conversation_id),
                table::lookup(carried, conversation_id),
            ) {
                (Some(before), Some(after)) => after.last_activity == before.last_activity
                    && credential_octets(after) == credential_octets(before) && (
                after.credential matches Some(held) ==> held.1 == expires_at),
                (None, None) => true,
                _ => false,
            }
        }),
{
    let carried = server_model::carried_over(conversations, expires_at);
    table::lemma_position(conversations, conversation_id);
    let at = table::position(conversations, conversation_id);
    assert forall|j: int| 0 <= j < at implies (#[trigger] carried[j]).0 != conversation_id by {
        assert(conversations[j].0 != conversation_id);
    }
    table::lemma_position_is(carried, conversation_id, at);
}

/// Records that carry no data do nothing but show that their session is active.
pub proof fn law_other_records_only_show_activity(
    m: ServerModel,
    event: EventModel,
    now: Instant,
    draws: ServerDraws,
    session_id: SessionId,
)
    requires
        server_model::server_valid(m),
        record_of(m, event, session_id) matches Some(record) && record.frame_type
            != FrameType::Data,
    ensures
        ({
            let step = server_model::server_step(m, event, now, draws);
            let before = table::lookup(m.sessions, session_id)->Some_0;
            &&& step.1 == Ok::<Seq<ActionModel>, EngineError>(Seq::empty())
            &&& table::lookup(step.0.sessions, session_id) matches Some(after) && after.conversations
                == before.conversations && after.sealer == before.sealer && after.last_activity
                == now
        }),
{
    let bytes = event->TunnelFrame_bytes;
    let session = table::lookup(m.sessions, session_id)->Some_0;
    let received = server_model::after_record(session, m.config, bytes, now);
    table::lemma_put(m.sessions, session_id, received, session_id);
}

} // verus!
