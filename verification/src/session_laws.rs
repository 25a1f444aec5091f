//! What becomes of a server's sessions over many events.

use vstd::prelude::*;

use crate::action::{ActionModel, EventModel};
use crate::config::EngineConfig;
use crate::error::{EngineError, RecordError};
use crate::handshake;
use crate::id::{ConversationId, PeerId, SessionId};
use crate::protocol;
use crate::protocol::FrameType;
use crate::record;
use crate::record::SealerModel;
use crate::server_laws;
use crate::server_model;
use crate::server_model::{
    PendingModel, ResumableModel, ServerDraws, ServerModel, ServerSessionModel,
};
use crate::table;
use crate::time;
use crate::time::{Duration, Instant};

verus! {

/// One event with the instant at which it comes and what is drawn for it.
pub type ServerInput = (EventModel, Instant, ServerDraws);

/// A server after one event.
#[verifier::opaque]
pub open spec fn next_of(m: ServerModel, input: ServerInput) -> ServerModel {
    server_model::server_step(m, input.0, input.1, input.2).0
}

/// What the host is told of one event.
#[verifier::opaque]
pub open spec fn actions_of(m: ServerModel, input: ServerInput) -> Seq<ActionModel> {
    match server_model::server_step(m, input.0, input.1, input.2).1 {
        Ok(actions) => actions,
        Err(_) => Seq::empty(),
    }
}

pub proof fn lemma_next_is_valid(m: ServerModel, input: ServerInput)
    requires
        server_model::server_valid(m),
    ensures
        server_model::server_valid(next_of(m, input)),
{
    reveal(next_of);
    server_laws::law_server_stays_valid(m, input.0, input.1, input.2);
}

/// A server after several events.
pub open spec fn after_all(m: ServerModel, inputs: Seq<ServerInput>) -> ServerModel
    decreases inputs.len(),
{
    if inputs.len() == 0 {
        m
    } else {
        next_of(after_all(m, inputs.drop_last()), inputs.last())
    }
}

/// What never changes of a session: its route, the finish that established it and
/// the confirmation that answered it.
pub open spec fn same_session(a: ServerSessionModel, b: ServerSessionModel) -> bool {
    a.peer_id == b.peer_id && a.client_finish == b.client_finish && a.handshake_ack
        == b.handshake_ack
}

/// Where a session stands after idle conversations are swept.
pub proof fn lemma_swept_lookup(m: ServerModel, now: Instant, session_id: SessionId)
    requires
        server_model::parts_valid(m),
    ensures
        ({
            let timeout = m.config.conversation_idle_timeout;
            let swept = server_model::swept_sessions(m.sessions, now, timeout).0;
            &&& table::lookup(swept, session_id) == match table::lookup(m.sessions, session_id) {
                Some(session) => Some(server_model::swept_session(session, now, timeout)),
                None => None,
            }
            &&& table::unique_keys(swept)
        }),
{
    let timeout = m.config.conversation_idle_timeout;
    server_laws::lemma_swept_keeps(m.sessions, m.config, m.cookie_secret, now, timeout);
    let swept = server_model::swept_sessions(m.sessions, now, timeout).0;
    table::lemma_position(m.sessions, session_id);
    let at = table::position(m.sessions, session_id);
    assert forall|j: int| 0 <= j < at implies (#[trigger] swept[j]).0 != session_id by {
        assert(m.sessions[j].0 != session_id);
    }
    if at < swept.len() {
        assert(swept[at].0 == session_id);
    }
    table::lemma_position_is(swept, session_id, at);
}

/// Where a session stands after time passed.
pub proof fn lemma_expire_lookup(m: ServerModel, now: Instant, session_id: SessionId)
    requires
        server_model::parts_valid(m),
    ensures
        ({
            let next = server_model::expire(m, now).0;
            let timeout = m.config.conversation_idle_timeout;
            table::lookup(next.sessions, session_id) == match table::lookup(
                m.sessions,
                session_id,
            ) {
                Some(session) => if server_model::still_alive(now, m.config.session_idle_timeout)(
                    session_id,
                    server_model::swept_session(session, now, timeout),
                ) {
                    Some(server_model::swept_session(session, now, timeout))
                } else {
                    None
                },
                None => None,
            }
        }),
{
    lemma_swept_lookup(m, now, session_id);
    table::lemma_retained_lookup(
        server_model::swept_sessions(
            m.sessions,
            now,
            m.config.conversation_idle_timeout,
        ).0,
        server_model::still_alive(now, m.config.session_idle_timeout),
        session_id,
    );
}

/// A record leaves the route, the finish and the confirmation of its session alone.
pub proof fn lemma_record_keeps_session(
    session: ServerSessionModel,
    config: EngineConfig,
    cookie_secret: Seq<u8>,
    session_id: SessionId,
    record: record::RecordModel,
    now: Instant,
    now_ms: u64,
    salts: Seq<Option<Seq<u8>>>,
)
    ensures
        ({
            let step = server_model::receive_record(
                session,
                config,
                cookie_secret,
                session_id,
                record,
                now,
                now_ms,
                salts,
            );
            &&& same_session(step.0, session)
            &&& step.1 matches Ok(actions) ==> forall|i: int|
                0 <= i < actions.len() ==> !((#[trigger] actions[i]) is SessionRecoveryExpired)
                    && !(actions[i] is SessionResumed)
        }),
{
    if record.frame_type == FrameType::Data && record.conversation_id is Some {
        let conversation_id = record.conversation_id->Some_0;
        let active = ServerSessionModel {
            conversations: table::put(
                session.conversations,
                conversation_id,
                server_model::active_conversation(session.conversations, conversation_id, now),
            ),
            ..session
        };
        server_laws::lemma_renewed_keeps(
            active,
            config,
            cookie_secret,
            session_id,
            now,
            now_ms,
            salts,
            active.conversations.len(),
        );
    }
}

/// A finish that completes a handshake leaves every session alone but the one that
/// it takes over.
pub proof fn lemma_establish_lookup(
    m: ServerModel,
    peer_id: PeerId,
    frame: protocol::FrameModel,
    pending: PendingModel,
    now: Instant,
    session_id: SessionId,
)
    requires
        server_model::parts_valid(m),
        session_id != frame.session_id,
    ensures
        ({
            let step = server_model::establish(m, peer_id, frame, pending, now);
            &&& table::holds(step.0.sessions, session_id) ==> table::lookup(
                step.0.sessions,
                session_id,
            ) == table::lookup(m.sessions, session_id)
            &&& table::lookup(step.0.resumable, session_id) == table::lookup(
                m.resumable,
                session_id,
            ) || (step.1 is Ok && pending.resume_from == Some(session_id))
            &&& table::holds(step.0.pending, session_id) ==> table::holds(m.pending, session_id)
        }),
{
    let taken = server_model::taken_over(m, pending.resume_from);
    match pending.resume_from {
        Some(old) => {
            table::lemma_without(m.sessions, old, session_id);
            table::lemma_without(m.resumable, old, session_id);
            table::lemma_without(m.sessions, old, old);
        },
        None => {},
    }
    table::lemma_put(
        taken.0.sessions,
        frame.session_id,
        server_model::established_session(m, peer_id, frame, pending, now),
        session_id,
    );
    table::lemma_without(m.pending, frame.session_id, session_id);
}

/// As long as a session lives, no event changes its route, its finish or its
/// confirmation.
proof fn lemma_sessions_stay_themselves(m: ServerModel, input: ServerInput, session_id: SessionId)
    requires
        server_model::server_valid(m),
        table::holds(m.sessions, session_id),
        table::holds(next_of(m, input).sessions, session_id),
    ensures
        same_session(
            table::lookup(next_of(m, input).sessions, session_id)->Some_0,
            table::lookup(m.sessions, session_id)->Some_0,
        ),
{
    reveal(next_of);
    let now = input.1;
    let draws = input.2;
    match input.0 {
        EventModel::TunnelFrame { peer_id, bytes } => {
            if protocol::decoded(bytes) is Ok {
                let frame = protocol::decoded(bytes)->Ok_0;
                if frame.frame_type == FrameType::ClientFinish {
                    if !table::holds(m.sessions, frame.session_id) && table::holds(
                        m.pending,
                        frame.session_id,
                    ) {
                        lemma_establish_lookup(
                            m,
                            peer_id,
                            frame,
                            table::lookup(m.pending, frame.session_id)->Some_0,
                            now,
                            session_id,
                        );
                    }
                } else if protocol::carries_record(frame.frame_type) && table::holds(
                    m.sessions,
                    frame.session_id,
                ) {
                    let session = table::lookup(m.sessions, frame.session_id)->Some_0;
                    if record::opened(session.opener, bytes) is Ok {
                        let record = record::opened(session.opener, bytes)->Ok_0;
                        let received = server_model::after_record(session, m.config, bytes, now);
                        let got = server_model::receive_record(
                            received,
                            m.config,
                            m.cookie_secret,
                            frame.session_id,
                            record,
                            now,
                            server_model::clock_ms(m, now),
                            draws.credentials,
                        );
                        lemma_record_keeps_session(
                            received,
                            m.config,
                            m.cookie_secret,
                            frame.session_id,
                            record,
                            now,
                            server_model::clock_ms(m, now),
                            draws.credentials,
                        );
                        table::lemma_put(m.sessions, frame.session_id, got.0, session_id);
                    }
                }
            }
        },
        EventModel::ServerDatagram { session_id: named, conversation_id, payload } => {
            if table::holds(m.sessions, named) {
                let session = table::lookup(m.sessions, named)->Some_0;
                let active = ServerSessionModel {
                    sealer: record::after_sealing(
                        session.sealer,
                        FrameType::Data,
                        Some(conversation_id),
                        payload,
                    ),
                    last_activity: now,
                    expires_at: (now.nanos + m.config.session_idle_timeout.length()) as u128,
                    ..session
                };
                table::lemma_put(m.sessions, named, active, session_id);
            }
        },
        EventModel::CloseConversation { session_id: named, conversation_id } => {
            if named is Some && table::holds(m.sessions, named->Some_0) {
                let session = table::lookup(m.sessions, named->Some_0)->Some_0;
                let closed = ServerSessionModel {
                    conversations: table::without(session.conversations, conversation_id),
                    ..session
                };
                table::lemma_put(m.sessions, named->Some_0, closed, session_id);
            }
        },
        EventModel::TimeAdvanced(at) => {
            lemma_expire_lookup(m, at, session_id);
        },
        _ => {},
    }
}

/// Whether a session lives through all of several events.
pub open spec fn lives_through(
    m: ServerModel,
    inputs: Seq<ServerInput>,
    session_id: SessionId,
) -> bool {
    forall|k: int|
        0 <= k <= inputs.len() ==> table::holds(
            (#[trigger] after_all(m, inputs.take(k))).sessions,
            session_id,
        )
}

proof fn lemma_lives_unchanged(m: ServerModel, inputs: Seq<ServerInput>, session_id: SessionId)
    requires
        server_model::server_valid(m),
        lives_through(m, inputs, session_id),
    ensures
        server_model::server_valid(after_all(m, inputs)),
        table::holds(m.sessions, session_id),
        table::holds(after_all(m, inputs).sessions, session_id),
        same_session(
            table::lookup(after_all(m, inputs).sessions, session_id)->Some_0,
            table::lookup(m.sessions, session_id)->Some_0,
        ),
    decreases inputs.len(),
{
    assert(inputs.take(0) =~= Seq::empty());
    assert(after_all(m, inputs.take(0)) == m);
    assert(inputs.take(inputs.len() as int) =~= inputs);
    assert(table::holds(after_all(m, inputs.take(inputs.len() as int)).sessions, session_id));
    if inputs.len() > 0 {
        let earlier = inputs.drop_last();
        assert forall|k: int| 0 <= k <= earlier.len() implies table::holds(
            (#[trigger] after_all(m, earlier.take(k))).sessions,
            session_id,
        ) by {
            assert(earlier.take(k) =~= inputs.take(k));
        }
        lemma_lives_unchanged(m, earlier, session_id);
        let before = after_all(m, earlier);
        let last = inputs.last();
        lemma_next_is_valid(before, last);
        lemma_sessions_stay_themselves(before, last, session_id);
    }
}

/// A repeated finish is answered with the same confirmation and changes nothing, at
/// any time for as long as the session lives, whatever happened in between.
pub proof fn law_repeated_finish_gets_the_same_confirmation(
    m: ServerModel,
    peer_id: PeerId,
    bytes: Seq<u8>,
    times: (Instant, Instant),
    draws: (ServerDraws, ServerDraws),
    between: Seq<ServerInput>,
)
    requires
        server_model::server_valid(m),
        protocol::decoded(bytes) matches Ok(frame) && frame.frame_type == FrameType::ClientFinish
            && lives_through(
            next_of(m, (EventModel::TunnelFrame { peer_id, bytes }, times.0, draws.0)),
            between,
            frame.session_id,
        ),
        server_model::server_step(
            m,
            EventModel::TunnelFrame { peer_id, bytes },
            times.0,
            draws.0,
        ).1 is Ok,
    ensures
        ({
            let finish = EventModel::TunnelFrame { peer_id, bytes };
            let first = server_model::server_step(m, finish, times.0, draws.0);
            let later = after_all(first.0, between);
            server_model::server_step(later, finish, times.1, draws.1) == (
                later,
                Ok::<Seq<ActionModel>, EngineError>(seq![first.1->Ok_0[0]]),
            )
        }),
{
    reveal(next_of);
    let frame = protocol::decoded(bytes)->Ok_0;
    let session_id = frame.session_id;
    let finish = EventModel::TunnelFrame { peer_id, bytes };
    let first = server_model::server_step(m, finish, times.0, draws.0);
    if !table::holds(m.sessions, session_id) {
        let pending = table::lookup(m.pending, session_id)->Some_0;
        let taken = server_model::taken_over(m, pending.resume_from);
        let made = server_model::established_session(m, peer_id, frame, pending, times.0);
        table::lemma_put(taken.0.sessions, session_id, made, session_id);
        assert(table::lookup(first.0.sessions, session_id) == Some(made));
        assert(first.1->Ok_0[0] == (ActionModel::SendTunnelFrame {
            peer_id,
            bytes: made.handshake_ack,
        }));
    }
    server_laws::law_server_stays_valid(m, finish, times.0, draws.0);
    lemma_lives_unchanged(first.0, between, session_id);
    let later = after_all(first.0, between);
    let second = server_model::server_step(later, finish, times.1, draws.1);
    assert(second.1->Ok_0 =~= seq![first.1->Ok_0[0]]);
}

/// How often the host is told that a session can no longer be resumed.
pub open spec fn expiry_count(actions: Seq<ActionModel>, session_id: SessionId) -> nat
    decreases actions.len(),
{
    if actions.len() == 0 {
        0
    } else {
        expiry_count(actions.drop_last(), session_id) + if actions.last()
            == (ActionModel::SessionRecoveryExpired { session_id }) {
            1nat
        } else {
            0
        }
    }
}

/// How often the host is told so over several events.
pub open spec fn expiries(
    m: ServerModel,
    inputs: Seq<ServerInput>,
    session_id: SessionId,
) -> nat
    decreases inputs.len(),
{
    if inputs.len() == 0 {
        0
    } else {
        expiries(m, inputs.drop_last(), session_id) + expiry_count(
            actions_of(after_all(m, inputs.drop_last()), inputs.last()),
            session_id,
        )
    }
}

pub proof fn lemma_expiry_count_joins(
    a: Seq<ActionModel>,
    b: Seq<ActionModel>,
    session_id: SessionId,
)
    ensures
        expiry_count(a + b, session_id) == expiry_count(a, session_id) + expiry_count(
            b,
            session_id,
        ),
    decreases b.len(),
{
    if b.len() == 0 {
        assert(a + b =~= a);
    } else {
        lemma_expiry_count_joins(a, b.drop_last(), session_id);
        assert((a + b).drop_last() =~= a + b.drop_last());
    }
}

pub proof fn lemma_no_expiry(actions: Seq<ActionModel>, session_id: SessionId)
    requires
        forall|i: int|
            0 <= i < actions.len() ==> !((#[trigger] actions[i]) is SessionRecoveryExpired),
    ensures
        expiry_count(actions, session_id) == 0,
    decreases actions.len(),
{
    if actions.len() > 0 {
        let earlier = actions.drop_last();
        assert forall|i: int| 0 <= i < earlier.len() implies !((
        #[trigger] earlier[i]) is SessionRecoveryExpired) by {
            assert(earlier[i] == actions[i]);
        }
        lemma_no_expiry(earlier, session_id);
    }
}

/// A list of lost sessions in which none stands twice is told session by session.
pub proof fn lemma_recovery_notices(lost: Seq<(SessionId, ResumableModel)>, session_id: SessionId)
    requires
        table::unique_keys(lost),
    ensures
        expiry_count(server_model::recovery_notices(lost), session_id) == if table::holds(
            lost,
            session_id,
        ) {
            1nat
        } else {
            0
        },
    decreases lost.len(),
{
    let notices = server_model::recovery_notices(lost);
    if lost.len() > 0 {
        let earlier = lost.drop_last();
        let last = lost.last();
        assert(table::unique_keys(earlier)) by {
            assert forall|i: int, j: int|
                #![trigger earlier[i], earlier[j]]
                0 <= i < j < earlier.len() implies earlier[i].0 != earlier[j].0 by {
                assert(lost[i].0 != lost[j].0);
            }
        }
        lemma_recovery_notices(earlier, session_id);
        assert(notices.drop_last() =~= server_model::recovery_notices(earlier));
        assert(notices.last() == (ActionModel::SessionRecoveryExpired { session_id: last.0 }));
        table::lemma_position(earlier, last.0);
        assert(!table::holds(earlier, last.0)) by {
            if table::holds(earlier, last.0) {
                let at = table::position(earlier, last.0);
                assert(lost[at].0 != lost[lost.len() - 1].0);
            }
        }
        assert(lost =~= table::put(earlier, last.0, last.1));
        table::lemma_put(earlier, last.0, last.1, session_id);
    }
}

/// Sessions that retire leave every other session that can be resumed alone.
pub proof fn lemma_retired_lookup(
    resumable: Seq<(SessionId, ResumableModel)>,
    expired: Seq<(SessionId, ServerSessionModel)>,
    expires_at: u128,
    session_id: SessionId,
)
    requires
        table::unique_keys(expired),
    ensures
        table::lookup(server_model::retired(resumable, expired, expires_at), session_id)
            == match table::lookup(expired, session_id) {
            Some(session) => if session.conversations.len() == 0 {
                table::lookup(resumable, session_id)
            } else {
                Some(ResumableModel { conversations: session.conversations, expires_at })
            },
            None => table::lookup(resumable, session_id),
        },
    decreases expired.len(),
{
    if expired.len() > 0 {
        let earlier = expired.drop_last();
        let last = expired.last();
        assert(table::unique_keys(earlier)) by {
            assert forall|i: int, j: int|
                #![trigger earlier[i], earlier[j]]
                0 <= i < j < earlier.len() implies earlier[i].0 != earlier[j].0 by {
                assert(expired[i].0 != expired[j].0);
            }
        }
        lemma_retired_lookup(resumable, earlier, expires_at, session_id);
        table::lemma_position(earlier, last.0);
        assert(!table::holds(earlier, last.0)) by {
            if table::holds(earlier, last.0) {
                let at = table::position(earlier, last.0);
                assert(expired[at].0 != expired[expired.len() - 1].0);
            }
        }
        assert(expired =~= table::put(earlier, last.0, last.1));
        table::lemma_put(earlier, last.0, last.1, session_id);
        table::lemma_put(
            server_model::retired(resumable, earlier, expires_at),
            last.0,
            ResumableModel { conversations: last.1.conversations, expires_at },
            session_id,
        );
    }
}

/// Sweeping tells of closed conversations and of nothing else.
pub proof fn lemma_swept_notices(
    sessions: Seq<(SessionId, ServerSessionModel)>,
    now: Instant,
    timeout: Duration,
)
    ensures
        forall|i: int|
            0 <= i < server_model::swept_sessions(sessions, now, timeout).1.len() ==> (
            #[trigger] server_model::swept_sessions(
                sessions,
                now,
                timeout,
            ).1[i]) is ConversationClosed,
    decreases sessions.len(),
{
    if sessions.len() > 0 {
        lemma_swept_notices(sessions.drop_last(), now, timeout);
    }
}

/// What time does to a session that can be resumed, and what the host is told of it.
pub proof fn lemma_expire_resumable(m: ServerModel, now: Instant, session_id: SessionId)
    requires
        server_model::parts_valid(m),
    ensures
        ({
            let step = server_model::expire(m, now);
            let swept = server_model::swept_sessions(
                m.sessions,
                now,
                m.config.conversation_idle_timeout,
            ).0;
            let alive = server_model::still_alive(now, m.config.session_idle_timeout);
            let before = table::lookup(
                server_model::retired(
                    m.resumable,
                    table::discarded(swept, alive),
                    (now.nanos + m.config.resumption_lifetime.length()) as u128,
                ),
                session_id,
            );
            &&& table::lookup(step.0.resumable, session_id) == match before {
                Some(state) => if now.nanos < state.expires_at {
                    Some(state)
                } else {
                    None
                },
                None => None,
            }
            &&& expiry_count(step.1, session_id) == match before {
                Some(state) => if now.nanos < state.expires_at {
                    0nat
                } else {
                    1
                },
                None => 0,
            }
            &&& table::unique_keys(table::discarded(swept, alive))
        }),
{
    let timeout = m.config.conversation_idle_timeout;
    let swept = server_model::swept_sessions(m.sessions, now, timeout);
    let alive = server_model::still_alive(now, m.config.session_idle_timeout);
    lemma_swept_lookup(m, now, session_id);
    server_laws::lemma_swept_keeps(m.sessions, m.config, m.cookie_secret, now, timeout);
    table::lemma_discarded(swept.0, alive);
    table::lemma_all_retained(
        swept.0,
        server_model::session_valid(m.config, m.cookie_secret),
        alive,
    );
    let expired = table::discarded(swept.0, alive);
    let expires_at = (now.nanos + m.config.resumption_lifetime.length()) as u128;
    server_laws::lemma_retired_keeps(
        m.resumable,
        expired,
        m.config,
        m.cookie_secret,
        expires_at,
    );
    let recovering = server_model::retired(m.resumable, expired, expires_at);
    let keep = server_model::still_resumable(now);
    table::lemma_retained_lookup(recovering, keep, session_id);
    table::lemma_discarded(recovering, keep);
    let lost = table::discarded(recovering, keep);
    lemma_recovery_notices(lost, session_id);
    lemma_swept_notices(m.sessions, now, timeout);
    lemma_no_expiry(swept.1, session_id);
    lemma_no_expiry(server_model::session_notices(expired), session_id);
    lemma_expiry_count_joins(
        swept.1,
        server_model::session_notices(expired),
        session_id,
    );
    lemma_expiry_count_joins(
        swept.1 + server_model::session_notices(expired),
        server_model::recovery_notices(lost),
        session_id,
    );
}

/// Whether an event takes a session over.
pub open spec fn resumes(m: ServerModel, input: ServerInput, session_id: SessionId) -> bool {
    exists|peer_id: PeerId, new_session_id: SessionId| #[trigger]
        actions_of(m, input).contains(
            ActionModel::SessionResumed { peer_id, old_session_id: session_id, new_session_id },
        )
}

/// What one event does to a session that is neither active nor under negotiation.
proof fn lemma_step_resumable(m: ServerModel, input: ServerInput, session_id: SessionId)
    requires
        server_model::server_valid(m),
        !table::holds(m.sessions, session_id),
        !table::holds(m.pending, session_id),
        input.2.session_id != Some(session_id),
        !resumes(m, input, session_id),
    ensures
        ({
            let next = next_of(m, input);
            let before = table::lookup(m.resumable, session_id);
            let due = input.0 matches EventModel::TimeAdvanced(at) && (before matches Some(state)
                && state.expires_at <= at.nanos);
            &&& !table::holds(next.sessions, session_id)
            &&& !table::holds(next.pending, session_id)
            &&& table::lookup(next.resumable, session_id) == if due {
                None
            } else {
                before
            }
            &&& expiry_count(actions_of(m, input), session_id) == if due {
                1nat
            } else {
                0
            }
        }),
{
    reveal(next_of);
    reveal(actions_of);
    let now = input.1;
    let draws = input.2;
    let next = next_of(m, input);
    match input.0 {
        EventModel::TunnelFrame { peer_id, bytes } => {
            if protocol::decoded(bytes) is Ok {
                let frame = protocol::decoded(bytes)->Ok_0;
                if frame.frame_type == FrameType::ClientHello {
                    lemma_hello_opens_what_is_drawn(m, peer_id, bytes, now, draws, session_id);
                } else if frame.frame_type == FrameType::ClientFinish {
                    if !table::holds(m.sessions, frame.session_id) && table::holds(
                        m.pending,
                        frame.session_id,
                    ) {
                        let pending = table::lookup(m.pending, frame.session_id)->Some_0;
                        lemma_establish_lookup(m, peer_id, frame, pending, now, session_id);
                        let step = server_model::establish(m, peer_id, frame, pending, now);
                        if step.1 is Ok && pending.resume_from == Some(session_id)
                            && next == step.0 && actions_of(m, input) == step.1->Ok_0 {
                            let told = ActionModel::SessionResumed {
                                peer_id,
                                old_session_id: session_id,
                                new_session_id: frame.session_id,
                            };
                            assert(actions_of(m, input)[2] == told);
                            assert(actions_of(m, input).contains(told));
                            assert(resumes(m, input, session_id));
                        }
                    }
                    lemma_no_expiry(actions_of(m, input), session_id);
                } else if protocol::carries_record(frame.frame_type) && table::holds(
                    m.sessions,
                    frame.session_id,
                ) {
                    let session = table::lookup(m.sessions, frame.session_id)->Some_0;
                    if record::opened(session.opener, bytes) is Ok {
                        let record = record::opened(session.opener, bytes)->Ok_0;
                        let received = server_model::after_record(session, m.config, bytes, now);
                        let got = server_model::receive_record(
                            received,
                            m.config,
                            m.cookie_secret,
                            frame.session_id,
                            record,
                            now,
                            server_model::clock_ms(m, now),
                            draws.credentials,
                        );
                        lemma_record_keeps_session(
                            received,
                            m.config,
                            m.cookie_secret,
                            frame.session_id,
                            record,
                            now,
                            server_model::clock_ms(m, now),
                            draws.credentials,
                        );
                        table::lemma_put(m.sessions, frame.session_id, got.0, session_id);
                    }
                    lemma_no_expiry(actions_of(m, input), session_id);
                } else {
                    lemma_no_expiry(actions_of(m, input), session_id);
                }
            } else {
                lemma_no_expiry(actions_of(m, input), session_id);
            }
        },
        EventModel::ServerDatagram { session_id: named, conversation_id, payload } => {
            if table::holds(m.sessions, named) {
                let session = table::lookup(m.sessions, named)->Some_0;
                let active = ServerSessionModel {
                    sealer: record::after_sealing(
                        session.sealer,
                        FrameType::Data,
                        Some(conversation_id),
                        payload,
                    ),
                    last_activity: now,
                    expires_at: (now.nanos + m.config.session_idle_timeout.length()) as u128,
                    ..session
                };
                table::lemma_put(m.sessions, named, active, session_id);
            }
            lemma_no_expiry(actions_of(m, input), session_id);
        },
        EventModel::CloseConversation { session_id: named, conversation_id } => {
            if named is Some && table::holds(m.sessions, named->Some_0) {
                let session = table::lookup(m.sessions, named->Some_0)->Some_0;
                let closed = ServerSessionModel {
                    conversations: table::without(session.conversations, conversation_id),
                    ..session
                };
                table::lemma_put(m.sessions, named->Some_0, closed, session_id);
            }
            lemma_no_expiry(actions_of(m, input), session_id);
        },
        EventModel::TimeAdvanced(at) => {
            let swept = server_model::swept_sessions(
                m.sessions,
                at,
                m.config.conversation_idle_timeout,
            ).0;
            let alive = server_model::still_alive(at, m.config.session_idle_timeout);
            lemma_expire_lookup(m, at, session_id);
            lemma_expire_resumable(m, at, session_id);
            lemma_swept_lookup(m, at, session_id);
            table::lemma_retained_lookup(swept, alive, session_id);
            lemma_retired_lookup(
                m.resumable,
                table::discarded(swept, alive),
                (at.nanos + m.config.resumption_lifetime.length()) as u128,
                session_id,
            );
            table::lemma_retained_lookup(
                m.pending,
                server_model::still_pending(at, m.config.handshake_timeout),
                session_id,
            );
        },
        _ => {
            lemma_no_expiry(actions_of(m, input), session_id);
        },
    }
}

/// A hello opens no handshake but one for the session that was drawn.
pub proof fn lemma_hello_opens_what_is_drawn(
    m: ServerModel,
    peer_id: PeerId,
    bytes: Seq<u8>,
    now: Instant,
    draws: ServerDraws,
    session_id: SessionId,
)
    requires
        protocol::decoded(bytes) matches Ok(frame) && frame.frame_type == FrameType::ClientHello,
        draws.session_id != Some(session_id),
    ensures
        ({
            let input = (EventModel::TunnelFrame { peer_id, bytes }, now, draws);
            let next = next_of(m, input);
            &&& next.sessions == m.sessions
            &&& next.resumable == m.resumable
            &&& table::holds(next.pending, session_id) == table::holds(m.pending, session_id)
            &&& expiry_count(actions_of(m, input), session_id) == 0
        }),
{
    reveal(next_of);
    reveal(actions_of);
    let input = (EventModel::TunnelFrame { peer_id, bytes }, now, draws);
    let frame = protocol::decoded(bytes)->Ok_0;
    lemma_no_expiry(actions_of(m, input), session_id);
    if handshake::hello_of_frame(frame) is Ok && draws.session_id is Some && draws.hello is Some {
        let hello = handshake::hello_of_frame(frame)->Ok_0;
        let counted = server_model::attempt_counted(m, peer_id, now);
        let asked = if m.config.require_handshake_cookie {
            server_model::clocked(counted, now)
        } else {
            counted
        };
        let resume_from = server_model::resumed_by(
            asked,
            hello,
            server_model::clock_ms(asked, now),
        );
        let answer = handshake::answer_to(
            m.psk,
            hello,
            draws.session_id->Some_0,
            resume_from is Some,
            draws.hello->Some_0.0,
            draws.hello->Some_0.1,
        );
        table::lemma_put(
            m.pending,
            draws.session_id->Some_0,
            PendingModel { peer_id, created_at: now, hello, answer, resume_from },
            session_id,
        );
    }
}

/// Whether time reaches an instant during several events.
pub open spec fn reaches(inputs: Seq<ServerInput>, expires_at: u128) -> bool {
    exists|k: int|
        0 <= k < inputs.len() && ((#[trigger] inputs[k]).0 matches EventModel::TimeAdvanced(at)
            && expires_at <= at.nanos)
}

/// Whether a session is left alone during several events: it is not resumed, and its
/// identifier is not drawn for another one.
pub open spec fn left_alone(
    m: ServerModel,
    inputs: Seq<ServerInput>,
    session_id: SessionId,
) -> bool {
    forall|k: int|
        0 <= k < inputs.len() ==> !resumes(
            after_all(m, inputs.take(k)),
            #[trigger] inputs[k],
            session_id,
        ) && inputs[k].2.session_id != Some(session_id)
}

/// Time reaches an instant during the earlier events or with the last one.
proof fn lemma_reaches(inputs: Seq<ServerInput>, expires_at: u128)
    requires
        inputs.len() > 0,
    ensures
        reaches(inputs, expires_at) == (reaches(inputs.drop_last(), expires_at) || (
        inputs.last().0 matches EventModel::TimeAdvanced(at) && expires_at <= at.nanos)),
{
    let earlier = inputs.drop_last();
    assert(inputs[inputs.len() - 1] == inputs.last());
    if reaches(earlier, expires_at) {
        let k = choose|k: int|
            0 <= k < earlier.len() && ((#[trigger] earlier[k]).0 matches EventModel::TimeAdvanced(
                at,
            ) && expires_at <= at.nanos);
        assert(inputs[k] == earlier[k]);
    }
    if reaches(inputs, expires_at) {
        let k = choose|k: int|
            0 <= k < inputs.len() && ((#[trigger] inputs[k]).0 matches EventModel::TimeAdvanced(
                at,
            ) && expires_at <= at.nanos);
        if k < earlier.len() {
            assert(earlier[k] == inputs[k]);
        }
    }
}

/// A session that is left alone is left alone by the earlier events and by the last.
proof fn lemma_left_alone(m: ServerModel, inputs: Seq<ServerInput>, session_id: SessionId)
    requires
        inputs.len() > 0,
        left_alone(m, inputs, session_id),
    ensures
        left_alone(m, inputs.drop_last(), session_id),
        !resumes(after_all(m, inputs.drop_last()), inputs.last(), session_id),
        inputs.last().2.session_id != Some(session_id),
{
    let earlier = inputs.drop_last();
    assert forall|k: int| 0 <= k < earlier.len() implies !resumes(
        after_all(m, earlier.take(k)),
        #[trigger] earlier[k],
        session_id,
    ) && earlier[k].2.session_id != Some(session_id) by {
        assert(earlier.take(k) =~= inputs.take(k));
        assert(earlier[k] == inputs[k]);
    }
    assert(inputs.take(inputs.len() - 1) =~= earlier);
    assert(inputs[inputs.len() - 1] == inputs.last());
}

/// Whether a session can be resumed as it is, or cannot any more.
#[verifier::opaque]
pub open spec fn recovering(
    m: ServerModel,
    session_id: SessionId,
    state: Option<ResumableModel>,
) -> bool {
    &&& server_model::server_valid(m)
    &&& !table::holds(m.sessions, session_id)
    &&& !table::holds(m.pending, session_id)
    &&& table::lookup(m.resumable, session_id) == state
}

/// One event on a session that can be resumed, or cannot any more.
proof fn lemma_recovering_step(
    m: ServerModel,
    input: ServerInput,
    session_id: SessionId,
    state: Option<ResumableModel>,
)
    requires
        recovering(m, session_id, state),
        input.2.session_id != Some(session_id),
        !resumes(m, input, session_id),
    ensures
        ({
            let due = input.0 matches EventModel::TimeAdvanced(at) && (state matches Some(state)
                && state.expires_at <= at.nanos);
            &&& recovering(
                next_of(m, input),
                session_id,
                if due {
                    None
                } else {
                    state
                },
            )
            &&& expiry_count(actions_of(m, input), session_id) == if due {
                1nat
            } else {
                0
            }
        }),
{
    reveal(recovering);
    lemma_next_is_valid(m, input);
    lemma_step_resumable(m, input, session_id);
}

/// The end of a session's recovery is reported exactly once: by the first advance of
/// time that reaches the end of its recovery window, and by nothing before or after.
pub proof fn law_recovery_expiry_is_reported_once(
    m: ServerModel,
    inputs: Seq<ServerInput>,
    session_id: SessionId,
    state: ResumableModel,
)
    requires
        recovering(m, session_id, Some(state)),
        left_alone(m, inputs, session_id),
    ensures
        expiries(m, inputs, session_id) == if reaches(inputs, state.expires_at) {
            1nat
        } else {
            0
        },
        recovering(
            after_all(m, inputs),
            session_id,
            if reaches(inputs, state.expires_at) {
                None
            } else {
                Some(state)
            },
        ),
    decreases inputs.len(),
{
    if inputs.len() > 0 {
        let earlier = inputs.drop_last();
        lemma_left_alone(m, inputs, session_id);
        lemma_reaches(inputs, state.expires_at);
        law_recovery_expiry_is_reported_once(m, earlier, session_id, state);
        lemma_recovering_step(
            after_all(m, earlier),
            inputs.last(),
            session_id,
            if reaches(earlier, state.expires_at) {
                None
            } else {
                Some(state)
            },
        );
    }
}

/// A session that has been idle for too long is closed. Where it has a conversation
/// that is still busy it can be resumed for the recovery window: the end of its
/// recovery is not reported yet, and none of its busy conversations is closed.
pub proof fn law_idle_sessions_can_be_resumed(
    m: ServerModel,
    now: Instant,
    session_id: SessionId,
    conversation_id: ConversationId,
)
    requires
        server_model::server_valid(m),
        table::lookup(m.sessions, session_id) matches Some(session) && time::elapsed(
            now,
            session.last_activity,
        ) >= m.config.session_idle_timeout.length() && (table::lookup(
            session.conversations,
            conversation_id,
        ) matches Some(conversation) && time::elapsed(now, conversation.last_activity)
            < m.config.conversation_idle_timeout.length()),
    ensures
        ({
            let step = server_model::expire(m, now);
            let session = table::lookup(m.sessions, session_id)->Some_0;
            &&& !table::holds(step.0.sessions, session_id)
            &&& table::lookup(step.0.resumable, session_id) == Some(
                ResumableModel {
                    conversations: table::retained(
                        session.conversations,
                        server_model::still_busy(now, m.config.conversation_idle_timeout),
                    ),
                    expires_at: (now.nanos + m.config.resumption_lifetime.length()) as u128,
                },
            )
            &&& step.1.contains(
                ActionModel::SessionClosed { peer_id: session.peer_id, session_id },
            )
            &&& expiry_count(step.1, session_id) == 0
            &&& !step.1.contains(
                ActionModel::ConversationClosed { session_id: Some(session_id), conversation_id },
            )
        }),
{
    let timeout = m.config.conversation_idle_timeout;
    let swept = server_model::swept_sessions(m.sessions, now, timeout);
    let alive = server_model::still_alive(now, m.config.session_idle_timeout);
    let expired = table::discarded(swept.0, alive);
    let session = table::lookup(m.sessions, session_id)->Some_0;
    let after = server_model::swept_session(session, now, timeout);
    let busy = server_model::still_busy(now, timeout);
    table::lemma_all_lookup(
        m.sessions,
        server_model::session_valid(m.config, m.cookie_secret),
        session_id,
    );
    table::lemma_retained_lookup(session.conversations, busy, conversation_id);
    assert(table::holds(after.conversations, conversation_id));
    assert(after.conversations.len() > 0);
    lemma_expire_lookup(m, now, session_id);
    lemma_swept_lookup(m, now, session_id);
    table::lemma_retained_lookup(swept.0, alive, session_id);
    assert(table::lookup(expired, session_id) == Some(after));
    lemma_expire_resumable(m, now, session_id);
    lemma_retired_lookup(
        m.resumable,
        expired,
        (now.nanos + m.config.resumption_lifetime.length()) as u128,
        session_id,
    );
    let notices = server_model::session_notices(expired);
    let lost = server_model::recovery_notices(
        table::discarded(
            server_model::retired(
                m.resumable,
                expired,
                (now.nanos + m.config.resumption_lifetime.length()) as u128,
            ),
            server_model::still_resumable(now),
        ),
    );
    let actions = server_model::expire(m, now).1;
    assert(actions == swept.1 + notices + lost);
    table::lemma_position(expired, session_id);
    let at = table::position(expired, session_id);
    assert(notices[at] == (ActionModel::SessionClosed { peer_id: session.peer_id, session_id }));
    assert(actions[swept.1.len() + at] == notices[at]);
    let closed = ActionModel::ConversationClosed {
        session_id: Some(session_id),
        conversation_id,
    };
    lemma_swept_closes_idle_ones(m.sessions, now, timeout, session_id, conversation_id);
    if actions.contains(closed) {
        let i = choose|i: int| 0 <= i < actions.len() && actions[i] == closed;
        assert(i < swept.1.len());
        assert(swept.1[i] == closed);
    }
}

/// Sweeping closes no conversation that is busy.
proof fn lemma_swept_closes_idle_ones(
    sessions: Seq<(SessionId, ServerSessionModel)>,
    now: Instant,
    timeout: Duration,
    session_id: SessionId,
    conversation_id: ConversationId,
)
    requires
        table::unique_keys(sessions),
        table::lookup(sessions, session_id) matches Some(session) ==> table::unique_keys(
            session.conversations,
        ) && (table::lookup(session.conversations, conversation_id) matches Some(conversation)
            && time::elapsed(now, conversation.last_activity) < timeout.length()),
    ensures
        !server_model::swept_sessions(sessions, now, timeout).1.contains(
            ActionModel::ConversationClosed { session_id: Some(session_id), conversation_id },
        ),
    decreases sessions.len(),
{
    let closed = ActionModel::ConversationClosed {
        session_id: Some(session_id),
        conversation_id,
    };
    if sessions.len() > 0 {
        let earlier = sessions.drop_last();
        let last = sessions.last();
        let busy = server_model::still_busy(now, timeout);
        assert(table::unique_keys(earlier)) by {
            assert forall|i: int, j: int|
                #![trigger earlier[i], earlier[j]]
                0 <= i < j < earlier.len() implies earlier[i].0 != earlier[j].0 by {
                assert(sessions[i].0 != sessions[j].0);
            }
        }
        table::lemma_position(earlier, last.0);
        assert(!table::holds(earlier, last.0)) by {
            if table::holds(earlier, last.0) {
                let at = table::position(earlier, last.0);
                assert(sessions[at].0 != sessions[sessions.len() - 1].0);
            }
        }
        assert(sessions =~= table::put(earlier, last.0, last.1));
        table::lemma_put(earlier, last.0, last.1, session_id);
        lemma_swept_closes_idle_ones(earlier, now, timeout, session_id, conversation_id);
        let before = server_model::swept_sessions(earlier, now, timeout).1;
        let gone = table::discarded(last.1.conversations, busy);
        let notices = server_model::closed_notices(last.0, gone);
        let all = server_model::swept_sessions(sessions, now, timeout).1;
        assert(all == before + notices);
        if all.contains(closed) {
            let i = choose|i: int| 0 <= i < all.len() && all[i] == closed;
            if i < before.len() {
                assert(before[i] == closed);
            } else {
                let j = i - before.len();
                assert(notices[j] == closed);
                assert(last.0 == session_id && gone[j].0 == conversation_id);
                table::lemma_discarded(last.1.conversations, busy);
                table::lemma_unique_lookup(gone, j);
                table::lemma_retained_lookup(last.1.conversations, busy, conversation_id);
            }
        }
    }
}

/// A finish turns a pending handshake into a session under the same identifier.
proof fn lemma_establish_tells_apart(
    m: ServerModel,
    peer_id: PeerId,
    frame: protocol::FrameModel,
    now: Instant,
    session_id: SessionId,
)
    requires
        server_model::parts_valid(m),
        server_model::told_apart(m, session_id),
        table::holds(m.pending, frame.session_id),
        !table::holds(m.sessions, frame.session_id),
    ensures
        server_model::told_apart(
            server_model::establish(
                m,
                peer_id,
                frame,
                table::lookup(m.pending, frame.session_id)->Some_0,
                now,
            ).0,
            session_id,
        ),
{
    let pending = table::lookup(m.pending, frame.session_id)->Some_0;
    if session_id != frame.session_id {
        lemma_establish_lookup(m, peer_id, frame, pending, now, session_id);
    }
    match pending.resume_from {
        Some(old) => {
            table::lemma_without(m.sessions, old, session_id);
            table::lemma_without(m.resumable, old, session_id);
        },
        None => {},
    }
    table::lemma_without(m.pending, frame.session_id, session_id);
}

/// A hello opens a handshake under an identifier that stands for nothing else.
proof fn lemma_hello_tells_apart(
    m: ServerModel,
    peer_id: PeerId,
    bytes: Seq<u8>,
    now: Instant,
    draws: ServerDraws,
    session_id: SessionId,
)
    requires
        server_model::told_apart(m, session_id),
        protocol::decoded(bytes) matches Ok(frame) && frame.frame_type == FrameType::ClientHello,
    ensures
        server_model::told_apart(
            server_model::server_step(
                m,
                EventModel::TunnelFrame { peer_id, bytes },
                now,
                draws,
            ).0,
            session_id,
        ),
{
    if draws.session_id != Some(session_id) {
        reveal(next_of);
        lemma_hello_opens_what_is_drawn(m, peer_id, bytes, now, draws, session_id);
    }
}

/// An identifier never comes to stand for two of a pending handshake, a session and a
/// session that can be resumed, whatever is drawn for it.
pub proof fn law_session_identifiers_are_told_apart(
    m: ServerModel,
    event: EventModel,
    now: Instant,
    draws: ServerDraws,
    session_id: SessionId,
)
    requires
        server_model::server_valid(m),
    ensures
        server_model::told_apart(server_model::server_step(m, event, now, draws).0, session_id),
{
    lemma_identifiers_stay_apart(m, event, now, draws, session_id);
}

pub proof fn lemma_identifiers_stay_apart(
    m: ServerModel,
    event: EventModel,
    now: Instant,
    draws: ServerDraws,
    session_id: SessionId,
)
    requires
        server_model::parts_valid(m),
        server_model::told_apart(m, session_id),
    ensures
        server_model::told_apart(server_model::server_step(m, event, now, draws).0, session_id),
{
    match event {
        EventModel::TunnelFrame { peer_id, bytes } => {
            if protocol::decoded(bytes) is Ok {
                let frame = protocol::decoded(bytes)->Ok_0;
                if frame.frame_type == FrameType::ClientHello {
                    lemma_hello_tells_apart(m, peer_id, bytes, now, draws, session_id);
                } else if frame.frame_type == FrameType::ClientFinish {
                    if !table::holds(m.sessions, frame.session_id) && table::holds(
                        m.pending,
                        frame.session_id,
                    ) {
                        lemma_establish_tells_apart(m, peer_id, frame, now, session_id);
                    }
                } else if protocol::carries_record(frame.frame_type) && table::holds(
                    m.sessions,
                    frame.session_id,
                ) {
                    let session = table::lookup(m.sessions, frame.session_id)->Some_0;
                    if record::opened(session.opener, bytes) is Ok {
                        let got = server_model::receive_record(
                            server_model::after_record(session, m.config, bytes, now),
                            m.config,
                            m.cookie_secret,
                            frame.session_id,
                            record::opened(session.opener, bytes)->Ok_0,
                            now,
                            server_model::clock_ms(m, now),
                            draws.credentials,
                        );
                        table::lemma_put(m.sessions, frame.session_id, got.0, session_id);
                    }
                }
            }
        },
        EventModel::ServerDatagram { session_id: named, conversation_id, payload } => {
            if table::holds(m.sessions, named) {
                let session = table::lookup(m.sessions, named)->Some_0;
                let active = ServerSessionModel {
                    sealer: record::after_sealing(
                        session.sealer,
                        FrameType::Data,
                        Some(conversation_id),
                        payload,
                    ),
                    last_activity: now,
                    expires_at: (now.nanos + m.config.session_idle_timeout.length()) as u128,
                    ..session
                };
                table::lemma_put(m.sessions, named, active, session_id);
            }
        },
        EventModel::CloseConversation { session_id: named, conversation_id } => {
            if named is Some && table::holds(m.sessions, named->Some_0) {
                let session = table::lookup(m.sessions, named->Some_0)->Some_0;
                let closed = ServerSessionModel {
                    conversations: table::without(session.conversations, conversation_id),
                    ..session
                };
                table::lemma_put(m.sessions, named->Some_0, closed, session_id);
            }
        },
        EventModel::TimeAdvanced(at) => {
            let swept = server_model::swept_sessions(
                m.sessions,
                at,
                m.config.conversation_idle_timeout,
            ).0;
            let alive = server_model::still_alive(at, m.config.session_idle_timeout);
            lemma_expire_lookup(m, at, session_id);
            lemma_expire_resumable(m, at, session_id);
            lemma_swept_lookup(m, at, session_id);
            table::lemma_retained_lookup(swept, alive, session_id);
            lemma_retired_lookup(
                m.resumable,
                table::discarded(swept, alive),
                (at.nanos + m.config.resumption_lifetime.length()) as u128,
                session_id,
            );
            table::lemma_retained_lookup(
                m.pending,
                server_model::still_pending(at, m.config.handshake_timeout),
                session_id,
            );
        },
        _ => {},
    }
}

/// The end of the recovery of a session that was idle for too long is reported exactly
/// once: not when the session is closed, but when time first reaches the end of the
/// recovery window that begins then.
pub proof fn law_idle_sessions_end_their_recovery_once(
    m: ServerModel,
    now: Instant,
    session_id: SessionId,
    conversation_id: ConversationId,
    inputs: Seq<ServerInput>,
)
    requires
        server_model::server_valid(m),
        table::lookup(m.sessions, session_id) matches Some(session) && time::elapsed(
            now,
            session.last_activity,
        ) >= m.config.session_idle_timeout.length() && (table::lookup(
            session.conversations,
            conversation_id,
        ) matches Some(conversation) && time::elapsed(now, conversation.last_activity)
            < m.config.conversation_idle_timeout.length()),
        left_alone(server_model::expire(m, now).0, inputs, session_id),
    ensures
        ({
            let closed = server_model::expire(m, now);
            let end = (now.nanos + m.config.resumption_lifetime.length()) as u128;
            &&& expiry_count(closed.1, session_id) == 0
            &&& expiries(closed.0, inputs, session_id) == if reaches(inputs, end) {
                1nat
            } else {
                0
            }
        }),
{
    let closed = server_model::expire(m, now);
    let draws = ServerDraws { session_id: None, hello: None, credentials: Seq::empty() };
    let event = EventModel::TimeAdvanced(now);
    assert(server_model::told_apart(m, session_id));
    law_idle_sessions_can_be_resumed(m, now, session_id, conversation_id);
    server_laws::law_server_stays_valid(m, event, now, draws);
    table::lemma_retained_lookup(
        m.pending,
        server_model::still_pending(now, m.config.handshake_timeout),
        session_id,
    );
    let state = table::lookup(closed.0.resumable, session_id)->Some_0;
    assert(recovering(closed.0, session_id, Some(state))) by {
        reveal(recovering);
    }
    law_recovery_expiry_is_reported_once(closed.0, inputs, session_id, state);
}

/// Conversations with different identifiers never hold the same credential, in
/// whatever sessions they are.
pub proof fn law_credentials_are_not_shared(
    m: ServerModel,
    sessions: (SessionId, SessionId),
    conversations: (ConversationId, ConversationId),
)
    requires
        server_model::server_valid(m),
        conversations.0 != conversations.1,
        table::lookup(m.sessions, sessions.0) matches Some(session) && (table::lookup(
            session.conversations,
            conversations.0,
        ) matches Some(conversation) && conversation.credential is Some),
        table::lookup(m.sessions, sessions.1) matches Some(session) && (table::lookup(
            session.conversations,
            conversations.1,
        ) matches Some(conversation) && conversation.credential is Some),
    ensures
        ({
            let first = table::lookup(
                table::lookup(m.sessions, sessions.0)->Some_0.conversations,
                conversations.0,
            )->Some_0;
            let second = table::lookup(
                table::lookup(m.sessions, sessions.1)->Some_0.conversations,
                conversations.1,
            )->Some_0;
            first.credential->Some_0.0 != second.credential->Some_0.0
        }),
{
    let valid = server_model::session_valid(m.config, m.cookie_secret);
    let own = server_model::holds_its_own(m.cookie_secret);
    let first = table::lookup(m.sessions, sessions.0)->Some_0;
    let second = table::lookup(m.sessions, sessions.1)->Some_0;
    table::lemma_all_lookup(m.sessions, valid, sessions.0);
    table::lemma_all_lookup(m.sessions, valid, sessions.1);
    table::lemma_all_lookup(first.conversations, own, conversations.0);
    table::lemma_all_lookup(second.conversations, own, conversations.1);
    let a = table::lookup(first.conversations, conversations.0)->Some_0.credential->Some_0.0;
    let b = table::lookup(second.conversations, conversations.1)->Some_0.credential->Some_0.0;
    lemma_issued_apart(m.cookie_secret, conversations, (a, b));
}

/// Whether a frame carries a credential to a conversation.
pub open spec fn carries_credential(
    bytes: Seq<u8>,
    sealer: SealerModel,
    conversation_id: ConversationId,
    credential: Seq<u8>,
) -> bool {
    record::sealed(
        sealer,
        FrameType::ResumptionCredential,
        Some(conversation_id),
        credential,
    ) == Ok::<Seq<u8>, RecordError>(bytes)
}

/// The credentials that are due are handed out one by one in the order of their
/// conversations: each conversation that needs one gets a frame of its own, sealed
/// over the session for it, with a credential that was issued for it and is kept
/// beside it. Every other conversation keeps what it has.
pub proof fn law_due_credentials_are_handed_out(
    session: ServerSessionModel,
    config: EngineConfig,
    cookie_secret: Seq<u8>,
    session_id: SessionId,
    now: Instant,
    now_ms: u64,
    salts: Seq<Option<Seq<u8>>>,
    count: nat,
    at: int,
)
    requires
        count <= session.conversations.len(),
        0 <= at < session.conversations.len(),
        server_model::renewed(
            session,
            config,
            cookie_secret,
            session_id,
            now,
            now_ms,
            salts,
            count,
        ).1 is Ok,
    ensures
        ({
            let step = server_model::renewed(
                session,
                config,
                cookie_secret,
                session_id,
                now,
                now_ms,
                salts,
                count,
            );
            let frames = step.1->Ok_0;
            let entry = session.conversations[at];
            let place = server_model::due_count(session.conversations.take(at), config, now) as int;
            let credential = server_model::fresh_credential(
                cookie_secret,
                config.resumption_lifetime,
                session_id,
                entry.0,
                now_ms,
                server_model::drawn_salt(salts, place)->Some_0,
            );
            &&& frames.len() == server_model::due_count(
                session.conversations.take(count as int),
                config,
                now,
            )
            &&& step.0.sealer == record::numbered(session.sealer, frames.len() as int)
            &&& session.sealer.next_packet_number + frames.len() <= u64::MAX
            &&& step.0.conversations.len() == session.conversations.len()
            &&& if at < count && server_model::credential_due(entry.1, config, now) {
                &&& server_model::drawn_salt(salts, place) is Some
                &&& step.0.conversations[at] == (
                    entry.0,
                    server_model::ServerConversationModel {
                        credential: Some(
                            (
                                credential,
                                (now.nanos + config.resumption_lifetime.length()) as u128,
                            ),
                        ),
                        ..entry.1
                    },
                )
                &&& place < frames.len()
                &&& frames[place] matches ActionModel::SendTunnelFrame { peer_id, bytes }
                    && peer_id == session.peer_id && carries_credential(
                    bytes,
                    record::numbered(session.sealer, place),
                    entry.0,
                    credential,
                )
            } else {
                step.0.conversations[at] == entry
            }
        }),
    decreases count,
{
    let all = session.conversations;
    if count > 0 {
        let last = count - 1;
        law_due_credentials_are_handed_out(
            session,
            config,
            cookie_secret,
            session_id,
            now,
            now_ms,
            salts,
            last as nat,
            at,
        );
        assert(all.take(count as int).drop_last() =~= all.take(last));
    } else {
        assert(all.take(0) =~= Seq::empty());
    }
}

/// Whether a frame is a data record of a conversation that is new to its session, or
/// whose credential is due.
pub open spec fn wants_credential(
    m: ServerModel,
    peer_id: PeerId,
    bytes: Seq<u8>,
    now: Instant,
    session_id: SessionId,
    conversation_id: ConversationId,
) -> bool {
    &&& protocol::decoded(bytes) matches Ok(frame) && frame.session_id == session_id
        && protocol::carries_record(frame.frame_type)
    &&& table::lookup(m.sessions, session_id) matches Some(session) && session.peer_id == peer_id
        && (record::opened(session.opener, bytes) matches Ok(record) && record.frame_type
        == FrameType::Data && record.conversation_id == Some(conversation_id)) && match table::lookup(
        session.conversations,
        conversation_id,
    ) {
        Some(conversation) => server_model::credential_due(conversation, m.config, now),
        None => true,
    }
}

/// Whether the host is told to send a credential to a conversation over a session.
pub open spec fn sends_credential(
    actions: Seq<ActionModel>,
    session: ServerSessionModel,
    conversation_id: ConversationId,
    credential: Seq<u8>,
) -> bool {
    exists|place: int, frame: Seq<u8>|
        actions.contains(
            ActionModel::SendTunnelFrame { peer_id: session.peer_id, bytes: frame },
        ) && 0 <= place && #[trigger] carries_credential(
            frame,
            record::numbered(session.sealer, place),
            conversation_id,
            credential,
        )
}

/// The credential that a server keeps for a conversation.
pub open spec fn kept_credential(
    m: ServerModel,
    session_id: SessionId,
    conversation_id: ConversationId,
) -> Option<Seq<u8>> {
    match table::lookup(m.sessions, session_id) {
        Some(session) => match table::lookup(session.conversations, conversation_id) {
            Some(conversation) => match conversation.credential {
                Some(held) => Some(held.0),
                None => None,
            },
            None => None,
        },
        None => None,
    }
}

/// A data record of a conversation that needs a credential brings it one: the server
/// sends it over the session, sealed for the conversation, and keeps it.
pub proof fn law_records_bring_credentials(
    m: ServerModel,
    peer_id: PeerId,
    bytes: Seq<u8>,
    now: Instant,
    draws: ServerDraws,
    session_id: SessionId,
    conversation_id: ConversationId,
)
    requires
        server_model::server_valid(m),
        wants_credential(m, peer_id, bytes, now, session_id, conversation_id),
        server_model::server_step(
            m,
            EventModel::TunnelFrame { peer_id, bytes },
            now,
            draws,
        ).1 is Ok,
    ensures
        ({
            let step = server_model::server_step(
                m,
                EventModel::TunnelFrame { peer_id, bytes },
                now,
                draws,
            );
            kept_credential(step.0, session_id, conversation_id) matches Some(credential)
                && sends_credential(
                step.1->Ok_0,
                table::lookup(m.sessions, session_id)->Some_0,
                conversation_id,
                credential,
            ) && server_model::issued_for(m.cookie_secret, conversation_id, credential)
        }),
{
    let step = server_model::server_step(m, EventModel::TunnelFrame { peer_id, bytes }, now, draws);
    let session = table::lookup(m.sessions, session_id)->Some_0;
    let value = server_model::active_conversation(session.conversations, conversation_id, now);
    let active = ServerSessionModel {
        conversations: table::put(session.conversations, conversation_id, value),
        ..server_model::after_record(session, m.config, bytes, now)
    };
    let all = active.conversations;
    table::lemma_put(session.conversations, conversation_id, value, conversation_id);
    table::lemma_position(all, conversation_id);
    let at = table::position(all, conversation_id);
    let now_ms = server_model::clock_ms(m, now);
    law_due_credentials_are_handed_out(
        active,
        m.config,
        m.cookie_secret,
        session_id,
        now,
        now_ms,
        draws.credentials,
        all.len(),
        at,
    );
    let credited = server_model::renewed(
        active,
        m.config,
        m.cookie_secret,
        session_id,
        now,
        now_ms,
        draws.credentials,
        all.len(),
    );
    let place = server_model::due_count(all.take(at), m.config, now) as int;
    let credential = server_model::fresh_credential(
        m.cookie_secret,
        m.config.resumption_lifetime,
        session_id,
        conversation_id,
        now_ms,
        server_model::drawn_salt(draws.credentials, place)->Some_0,
    );
    assert(server_model::credential_due(all[at].1, m.config, now));
    lemma_kept_credential(
        m,
        active,
        now,
        now_ms,
        draws.credentials,
        session_id,
        conversation_id,
        credited.0,
    );
    table::lemma_put(m.sessions, session_id, credited.0, session_id);
    assert(kept_credential(step.0, session_id, conversation_id) == Some(credential));
    let frame = credited.1->Ok_0[place]->SendTunnelFrame_bytes;
    let opened = if table::holds(session.conversations, conversation_id) {
        Seq::empty()
    } else {
        seq![
            ActionModel::ConversationOpened { session_id: Some(session_id), conversation_id },
        ]
    };
    let actions = step.1->Ok_0;
    assert(actions[opened.len() + place] == credited.1->Ok_0[place]);
    assert(carries_credential(
        frame,
        record::numbered(session.sealer, place),
        conversation_id,
        credential,
    ));
}

/// Handing out credentials keeps the conversations in their places.
proof fn lemma_kept_credential(
    m: ServerModel,
    session: ServerSessionModel,
    now: Instant,
    now_ms: u64,
    salts: Seq<Option<Seq<u8>>>,
    session_id: SessionId,
    conversation_id: ConversationId,
    credited: ServerSessionModel,
)
    requires
        table::holds(session.conversations, conversation_id),
        server_model::renewed(
            session,
            m.config,
            m.cookie_secret,
            session_id,
            now,
            now_ms,
            salts,
            session.conversations.len(),
        ).1 is Ok,
        credited == server_model::renewed(
            session,
            m.config,
            m.cookie_secret,
            session_id,
            now,
            now_ms,
            salts,
            session.conversations.len(),
        ).0,
    ensures
        table::lookup(credited.conversations, conversation_id) == Some(
            credited.conversations[table::position(session.conversations, conversation_id)].1,
        ),
{
    let all = session.conversations;
    table::lemma_position(all, conversation_id);
    let at = table::position(all, conversation_id);
    assert forall|j: int| 0 <= j < all.len() implies (#[trigger] credited.conversations[j]).0
        == all[j].0 by {
        law_due_credentials_are_handed_out(
            session,
            m.config,
            m.cookie_secret,
            session_id,
            now,
            now_ms,
            salts,
            all.len(),
            j,
        );
    }
    law_due_credentials_are_handed_out(
        session,
        m.config,
        m.cookie_secret,
        session_id,
        now,
        now_ms,
        salts,
        all.len(),
        at,
    );
    table::lemma_position_is(credited.conversations, conversation_id, at);
}

/// Credentials that were issued for different conversations are different.
proof fn lemma_issued_apart(
    cookie_secret: Seq<u8>,
    conversations: (ConversationId, ConversationId),
    credentials: (Seq<u8>, Seq<u8>),
)
    requires
        conversations.0 != conversations.1,
        server_model::issued_for(cookie_secret, conversations.0, credentials.0),
        server_model::issued_for(cookie_secret, conversations.1, credentials.1),
    ensures
        credentials.0 != credentials.1,
{
    let (s, i, e, x) = choose|s: SessionId, i: u64, e: u64, x: Seq<u8>|
        credentials.0 == #[trigger] handshake::credential_for(
            cookie_secret,
            s,
            conversations.0,
            i,
            e,
            x,
        );
    let (t, j, f, y) = choose|t: SessionId, j: u64, f: u64, y: Seq<u8>|
        credentials.1 == #[trigger] handshake::credential_for(
            cookie_secret,
            t,
            conversations.1,
            j,
            f,
            y,
        );
    handshake::law_credentials_name_their_conversation(
        cookie_secret,
        (s, t),
        conversations,
        (i, j),
        (e, f),
        (x, y),
    );
}

proof fn lemma_next_keeps_secret(m: ServerModel, input: ServerInput)
    ensures
        next_of(m, input).cookie_secret == m.cookie_secret,
{
    reveal(next_of);
}

/// A server never changes the secret under which it issues credentials.
proof fn lemma_secret_stays(m: ServerModel, inputs: Seq<ServerInput>)
    ensures
        after_all(m, inputs).cookie_secret == m.cookie_secret,
    decreases inputs.len(),
{
    if inputs.len() > 0 {
        lemma_secret_stays(m, inputs.drop_last());
        lemma_next_keeps_secret(after_all(m, inputs.drop_last()), inputs.last());
    }
}

proof fn lemma_all_stay_valid(m: ServerModel, inputs: Seq<ServerInput>)
    requires
        server_model::server_valid(m),
    ensures
        server_model::server_valid(after_all(m, inputs)),
    decreases inputs.len(),
{
    if inputs.len() > 0 {
        lemma_all_stay_valid(m, inputs.drop_last());
        lemma_next_is_valid(after_all(m, inputs.drop_last()), inputs.last());
    }
}

/// Two conversations get a credential each: where data records of both come, whatever
/// happens in between, the server sends each conversation one of its own, sealed for
/// it, and the two are different.
pub proof fn law_conversations_get_separate_credentials(
    m: ServerModel,
    peers: (PeerId, PeerId),
    frames: (Seq<u8>, Seq<u8>),
    times: (Instant, Instant),
    draws: (ServerDraws, ServerDraws),
    between: Seq<ServerInput>,
    sessions: (SessionId, SessionId),
    conversations: (ConversationId, ConversationId),
)
    requires
        server_model::server_valid(m),
        conversations.0 != conversations.1,
        ({
            let first = EventModel::TunnelFrame { peer_id: peers.0, bytes: frames.0 };
            let second = EventModel::TunnelFrame { peer_id: peers.1, bytes: frames.1 };
            let later = after_all(next_of(m, (first, times.0, draws.0)), between);
            &&& wants_credential(m, peers.0, frames.0, times.0, sessions.0, conversations.0)
            &&& server_model::server_step(m, first, times.0, draws.0).1 is Ok
            &&& wants_credential(later, peers.1, frames.1, times.1, sessions.1, conversations.1)
            &&& server_model::server_step(later, second, times.1, draws.1).1 is Ok
        }),
    ensures
        ({
            let first = EventModel::TunnelFrame { peer_id: peers.0, bytes: frames.0 };
            let second = EventModel::TunnelFrame { peer_id: peers.1, bytes: frames.1 };
            let one = server_model::server_step(m, first, times.0, draws.0);
            let later = after_all(next_of(m, (first, times.0, draws.0)), between);
            let two = server_model::server_step(later, second, times.1, draws.1);
            kept_credential(one.0, sessions.0, conversations.0) matches Some(a)
                && sends_credential(
                one.1->Ok_0,
                table::lookup(m.sessions, sessions.0)->Some_0,
                conversations.0,
                a,
            ) && (kept_credential(two.0, sessions.1, conversations.1) matches Some(b)
                && sends_credential(
                two.1->Ok_0,
                table::lookup(later.sessions, sessions.1)->Some_0,
                conversations.1,
                b,
            ) && a != b)
        }),
{
    let first = EventModel::TunnelFrame { peer_id: peers.0, bytes: frames.0 };
    let second = EventModel::TunnelFrame { peer_id: peers.1, bytes: frames.1 };
    let input = (first, times.0, draws.0);
    let next = next_of(m, input);
    let later = after_all(next, between);
    law_records_bring_credentials(
        m,
        peers.0,
        frames.0,
        times.0,
        draws.0,
        sessions.0,
        conversations.0,
    );
    lemma_next_is_valid(m, input);
    lemma_all_stay_valid(next, between);
    lemma_next_keeps_secret(m, input);
    lemma_secret_stays(next, between);
    law_records_bring_credentials(
        later,
        peers.1,
        frames.1,
        times.1,
        draws.1,
        sessions.1,
        conversations.1,
    );
    let a = kept_credential(
        server_model::server_step(m, first, times.0, draws.0).0,
        sessions.0,
        conversations.0,
    )->Some_0;
    let b = kept_credential(
        server_model::server_step(later, second, times.1, draws.1).0,
        sessions.1,
        conversations.1,
    )->Some_0;
    lemma_issued_apart(m.cookie_secret, conversations, (a, b));
}

} // verus!
