//! What every server keeps to, whatever happens to it.

use vstd::prelude::*;

use crate::action::{ActionModel, EventModel};
use crate::config;
use crate::config::{EngineConfig, Role};
use crate::error::EngineError;
use crate::handshake;
use crate::handshake::HelloModel;
use crate::id::{ConversationId, PeerId, SessionId};
use crate::protocol;
use crate::protocol::{FrameModel, FrameType};
use crate::record;
use crate::record::RecordModel;
use crate::replay;
use crate::server_model;
use crate::server_model::{
    BucketModel, PendingModel, ResumableModel, ServerDraws, ServerModel, ServerSessionModel,
};
use crate::session_laws;
use crate::table;
use crate::time;
use crate::time::{Duration, Instant};

verus! {

proof fn lemma_attempt_keeps(m: ServerModel, peer_id: PeerId, now: Instant)
    requires
        server_model::parts_valid(m),
    ensures
        server_model::parts_valid(server_model::attempt_counted(m, peer_id, now)),
{
    let test = server_model::bucket_valid(m.config);
    table::lemma_all_lookup(m.buckets, test, peer_id);
    let bucket = server_model::bucket_of(m, peer_id, now);
    let counted = if bucket.tokens == 0 {
        bucket
    } else {
        BucketModel { tokens: (bucket.tokens - 1) as usize, ..bucket }
    };
    table::lemma_put(m.buckets, peer_id, counted, peer_id);
    if table::holds(m.buckets, peer_id) || m.buckets.len() < m.config.max_pending_handshakes {
        assert(test(peer_id, counted));
        table::lemma_all_put(m.buckets, test, peer_id, counted);
    }
}

proof fn lemma_answer_hello_keeps(
    m: ServerModel,
    peer_id: PeerId,
    hello: HelloModel,
    now: Instant,
    draws: ServerDraws,
)
    requires
        server_model::parts_valid(m),
    ensures
        server_model::parts_valid(
            server_model::answer_hello(m, peer_id, hello, now, draws).0,
        ),
{
    if draws.session_id is Some && draws.hello is Some {
        let session_id = draws.session_id->Some_0;
        let resume_from = server_model::resumed_by(m, hello, server_model::clock_ms(m, now));
        let answer = handshake::answer_to(
            m.psk,
            hello,
            session_id,
            resume_from is Some,
            draws.hello->Some_0.0,
            draws.hello->Some_0.1,
        );
        table::lemma_put(
            m.pending,
            session_id,
            PendingModel { peer_id, created_at: now, hello, answer, resume_from },
            session_id,
        );
    }
}

proof fn lemma_taken_over_keeps(m: ServerModel, resume_from: Option<SessionId>)
    requires
        server_model::parts_valid(m),
    ensures
        server_model::parts_valid(server_model::taken_over(m, resume_from).0),
        server_model::conversations_valid(
            m.config,
            m.cookie_secret,
            server_model::taken_over(m, resume_from).1,
        ),
{
    match resume_from {
        None => {},
        Some(session_id) => {
            table::lemma_without(m.sessions, session_id, session_id);
            table::lemma_without(m.resumable, session_id, session_id);
            table::lemma_all_without(m.sessions, server_model::session_valid(m.config, m.cookie_secret), session_id);
            table::lemma_all_without(
                m.resumable,
                server_model::resumable_valid(m.config, m.cookie_secret),
                session_id,
            );
            table::lemma_all_lookup(m.sessions, server_model::session_valid(m.config, m.cookie_secret), session_id);
            table::lemma_all_lookup(
                m.resumable,
                server_model::resumable_valid(m.config, m.cookie_secret),
                session_id,
            );
        },
    }
}

proof fn lemma_establish_keeps(
    m: ServerModel,
    peer_id: PeerId,
    frame: FrameModel,
    pending: PendingModel,
    now: Instant,
)
    requires
        server_model::parts_valid(m),
        !table::holds(m.sessions, frame.session_id),
        m.sessions.len() < m.config.max_sessions || (pending.resume_from matches Some(old)
            && table::holds(m.sessions, old)),
    ensures
        server_model::parts_valid(
            server_model::establish(m, peer_id, frame, pending, now).0,
        ),
{
    let session_id = frame.session_id;
    let next = server_model::establish(m, peer_id, frame, pending, now);
    let taken = server_model::taken_over(m, pending.resume_from);
    lemma_taken_over_keeps(m, pending.resume_from);
    if next.1 is Ok {
        let made = server_model::established_session(m, peer_id, frame, pending, now);
        lemma_carried_over_keeps(
            m.config,
            m.cookie_secret,
            taken.1,
            (now.nanos + m.config.resumption_lifetime.length()) as u128,
        );
        let test = server_model::session_valid(m.config, m.cookie_secret);
        assert(test(session_id, made));
        match pending.resume_from {
            Some(old) => {
                table::lemma_without(m.sessions, old, session_id);
            },
            None => {},
        }
        table::lemma_put(taken.0.sessions, session_id, made, session_id);
        table::lemma_all_put(taken.0.sessions, test, session_id, made);
        table::lemma_without(m.pending, session_id, session_id);
    }
}

/// Conversations that are taken over keep to their limits.
proof fn lemma_carried_over_keeps(
    config: EngineConfig,
    cookie_secret: Seq<u8>,
    conversations: server_model::Conversations,
    expires_at: u128,
)
    requires
        server_model::conversations_valid(config, cookie_secret, conversations),
    ensures
        server_model::conversations_valid(
            config,
            cookie_secret,
            server_model::carried_over(conversations, expires_at),
        ),
{
    let carried = server_model::carried_over(conversations, expires_at);
    let own = server_model::holds_its_own(cookie_secret);
    assert forall|i: int, j: int|
        #![trigger carried[i], carried[j]]
        0 <= i < j < carried.len() implies carried[i].0 != carried[j].0 by {
        assert(conversations[i].0 != conversations[j].0);
    }
    assert forall|i: int| 0 <= i < carried.len() implies own(
        (#[trigger] carried[i]).0,
        carried[i].1,
    ) by {
        assert(own(conversations[i].0, conversations[i].1));
    }
}

/// Handing out credentials changes nothing of a session but its packet numbers and
/// the credentials of its conversations, each of which holds its own.
pub proof fn lemma_renewed_keeps(
    session: ServerSessionModel,
    config: EngineConfig,
    cookie_secret: Seq<u8>,
    session_id: SessionId,
    now: Instant,
    now_ms: u64,
    salts: Seq<Option<Seq<u8>>>,
    count: nat,
)
    requires
        count <= session.conversations.len(),
    ensures
        ({
            let step = server_model::renewed(
                session,
                config,
                cookie_secret,
                session_id,
                now,
                now_ms,
                salts,
                count,
            );
            let after = step.0.conversations;
            &&& step.0 == (ServerSessionModel {
                sealer: step.0.sealer,
                conversations: after,
                ..session
            })
            &&& step.0.sealer == (record::SealerModel {
                next_packet_number: step.0.sealer.next_packet_number,
                ..session.sealer
            })
            &&& after.len() == session.conversations.len()
            &&& forall|i: int|
                0 <= i < after.len() ==> (#[trigger] after[i]).0 == session.conversations[i].0
                    && after[i].1.last_activity == session.conversations[i].1.last_activity
            &&& table::all(session.conversations, server_model::holds_its_own(cookie_secret))
                ==> table::all(after, server_model::holds_its_own(cookie_secret))
            &&& step.1 matches Ok(actions) ==> forall|i: int|
                0 <= i < actions.len() ==> (#[trigger] actions[i]) is SendTunnelFrame
        }),
    decreases count,
{
    if count > 0 {
        let at = count - 1;
        lemma_renewed_keeps(
            session,
            config,
            cookie_secret,
            session_id,
            now,
            now_ms,
            salts,
            at as nat,
        );
        let earlier = server_model::renewed(
            session,
            config,
            cookie_secret,
            session_id,
            now,
            now_ms,
            salts,
            at as nat,
        );
        let step = server_model::renewed(
            session,
            config,
            cookie_secret,
            session_id,
            now,
            now_ms,
            salts,
            count,
        );
        let entry = session.conversations[at];
        let own = server_model::holds_its_own(cookie_secret);
        let salt = server_model::drawn_salt(
            salts,
            server_model::due_count(session.conversations.take(at), config, now) as int,
        );
        if step.0.conversations != earlier.0.conversations {
            let credential = server_model::fresh_credential(
                cookie_secret,
                config.resumption_lifetime,
                session_id,
                entry.0,
                now_ms,
                salt->Some_0,
            );
            assert(server_model::issued_for(cookie_secret, entry.0, credential));
            if table::all(session.conversations, own) {
                let after = step.0.conversations;
                assert forall|i: int| 0 <= i < after.len() implies own(
                    (#[trigger] after[i]).0,
                    after[i].1,
                ) by {
                    if i != at {
                        assert(after[i] == earlier.0.conversations[i]);
                    }
                }
            }
        }
    }
}

proof fn lemma_receive_record_keeps(
    session: ServerSessionModel,
    config: EngineConfig,
    cookie_secret: Seq<u8>,
    session_id: SessionId,
    record: RecordModel,
    now: Instant,
    now_ms: u64,
    salts: Seq<Option<Seq<u8>>>,
)
    requires
        server_model::session_valid(config, cookie_secret)(session_id, session),
    ensures
        server_model::session_valid(config, cookie_secret)(
            session_id,
            server_model::receive_record(
                session,
                config,
                cookie_secret,
                session_id,
                record,
                now,
                now_ms,
                salts,
            ).0,
        ),
{
    if record.frame_type == FrameType::Data && record.conversation_id is Some {
        let conversation_id = record.conversation_id->Some_0;
        let own = server_model::holds_its_own(cookie_secret);
        let value = server_model::active_conversation(session.conversations, conversation_id, now);
        table::lemma_all_lookup(session.conversations, own, conversation_id);
        assert(own(conversation_id, value));
        table::lemma_put(session.conversations, conversation_id, value, conversation_id);
        table::lemma_all_put(session.conversations, own, conversation_id, value);
        let active = ServerSessionModel {
            conversations: table::put(session.conversations, conversation_id, value),
            ..session
        };
        lemma_renewed_keeps(
            active,
            config,
            cookie_secret,
            session_id,
            now,
            now_ms,
            salts,
            active.conversations.len(),
        );
        let after = server_model::renewed(
            active,
            config,
            cookie_secret,
            session_id,
            now,
            now_ms,
            salts,
            active.conversations.len(),
        ).0.conversations;
        assert forall|i: int, j: int|
            #![trigger after[i], after[j]]
            0 <= i < j < after.len() implies after[i].0 != after[j].0 by {
            assert(active.conversations[i].0 != active.conversations[j].0);
        }
    }
}

proof fn lemma_with_session_keeps(
    m: ServerModel,
    session_id: SessionId,
    session: ServerSessionModel,
)
    requires
        server_model::parts_valid(m),
        table::holds(m.sessions, session_id),
        server_model::session_valid(m.config, m.cookie_secret)(session_id, session),
    ensures
        server_model::parts_valid(server_model::with_session(m, session_id, session)),
{
    table::lemma_put(m.sessions, session_id, session, session_id);
    table::lemma_all_put(m.sessions, server_model::session_valid(m.config, m.cookie_secret), session_id, session);
}

proof fn lemma_handle_record_keeps(
    m: ServerModel,
    peer_id: PeerId,
    session_id: SessionId,
    bytes: Seq<u8>,
    now: Instant,
    salts: Seq<Option<Seq<u8>>>,
)
    requires
        server_model::parts_valid(m),
    ensures
        server_model::parts_valid(
            server_model::handle_record(m, peer_id, session_id, bytes, now, salts).0,
        ),
{
    let test = server_model::session_valid(m.config, m.cookie_secret);
    table::lemma_all_lookup(m.sessions, test, session_id);
    match table::lookup(m.sessions, session_id) {
        Some(session) => {
            match record::opened(session.opener, bytes) {
                Ok(record) => {
                    replay::law_window_stays_valid(
                        session.opener.replay,
                        protocol::decoded(bytes)->Ok_0.packet_number,
                    );
                    let received = server_model::after_record(session, m.config, bytes, now);
                    assert(test(session_id, received));
                    let got = server_model::receive_record(
                        received,
                        m.config,
                        m.cookie_secret,
                        session_id,
                        record,
                        now,
                        server_model::clock_ms(m, now),
                        salts,
                    );
                    lemma_receive_record_keeps(
                        received,
                        m.config,
                        m.cookie_secret,
                        session_id,
                        record,
                        now,
                        server_model::clock_ms(m, now),
                        salts,
                    );
                    lemma_with_session_keeps(server_model::clocked(m, now), session_id, got.0);
                },
                Err(_) => {},
            }
        },
        None => {},
    }
}

pub proof fn lemma_swept_keeps(
    sessions: Seq<(SessionId, ServerSessionModel)>,
    config: EngineConfig,
    cookie_secret: Seq<u8>,
    now: Instant,
    timeout: Duration,
)
    requires
        table::all(sessions, server_model::session_valid(config, cookie_secret)),
        table::unique_keys(sessions),
    ensures
        table::all(
            server_model::swept_sessions(sessions, now, timeout).0,
            server_model::session_valid(config, cookie_secret),
        ),
        server_model::swept_sessions(sessions, now, timeout).0.len() == sessions.len(),
        forall|i: int|
            0 <= i < sessions.len() ==> (#[trigger] server_model::swept_sessions(
                sessions,
                now,
                timeout,
            ).0[i]) == (
                sessions[i].0,
                server_model::swept_session(sessions[i].1, now, timeout),
            ),
        table::unique_keys(server_model::swept_sessions(sessions, now, timeout).0),
    decreases sessions.len(),
{
    if sessions.len() > 0 {
        let before = sessions.drop_last();
        let test = server_model::session_valid(config, cookie_secret);
        assert forall|i: int| 0 <= i < before.len() implies test(
            (#[trigger] before[i]).0,
            before[i].1,
        ) by {
            assert(before[i] == sessions[i]);
        }
        assert forall|i: int, j: int|
            #![trigger before[i], before[j]]
            0 <= i < j < before.len() implies before[i].0 != before[j].0 by {
            assert(sessions[i].0 != sessions[j].0);
        }
        lemma_swept_keeps(before, config, cookie_secret, now, timeout);
        let last = sessions.last();
        assert(test(sessions[sessions.len() - 1].0, sessions[sessions.len() - 1].1));
        table::lemma_retained(last.1.conversations, server_model::still_busy(now, timeout));
        table::lemma_all_retained(
            last.1.conversations,
            server_model::holds_its_own(cookie_secret),
            server_model::still_busy(now, timeout),
        );
        let swept = server_model::swept_sessions(sessions, now, timeout).0;
        assert forall|i: int| 0 <= i < sessions.len() implies (#[trigger] swept[i]) == (
            sessions[i].0,
            server_model::swept_session(sessions[i].1, now, timeout),
        ) by {
            if i < before.len() {
                assert(swept[i] == server_model::swept_sessions(before, now, timeout).0[i]);
                assert(before[i] == sessions[i]);
            }
        }
        assert forall|i: int, j: int|
            #![trigger swept[i], swept[j]]
            0 <= i < j < swept.len() implies swept[i].0 != swept[j].0 by {
            assert(sessions[i].0 != sessions[j].0);
        }
    }
}

pub proof fn lemma_retired_keeps(
    resumable: Seq<(SessionId, ResumableModel)>,
    expired: Seq<(SessionId, ServerSessionModel)>,
    config: EngineConfig,
    cookie_secret: Seq<u8>,
    expires_at: u128,
)
    requires
        table::unique_keys(resumable),
        table::all(resumable, server_model::resumable_valid(config, cookie_secret)),
        table::all(expired, server_model::session_valid(config, cookie_secret)),
    ensures
        table::unique_keys(server_model::retired(resumable, expired, expires_at)),
        table::all(
            server_model::retired(resumable, expired, expires_at),
            server_model::resumable_valid(config, cookie_secret),
        ),
    decreases expired.len(),
{
    if expired.len() > 0 {
        let before = expired.drop_last();
        let test = server_model::session_valid(config, cookie_secret);
        assert forall|i: int| 0 <= i < before.len() implies test(
            (#[trigger] before[i]).0,
            before[i].1,
        ) by {
            assert(before[i] == expired[i]);
        }
        lemma_retired_keeps(resumable, before, config, cookie_secret, expires_at);
        let earlier = server_model::retired(resumable, before, expires_at);
        let last = expired.last();
        assert(test(expired[expired.len() - 1].0, expired[expired.len() - 1].1));
        let state = ResumableModel { conversations: last.1.conversations, expires_at };
        table::lemma_put(earlier, last.0, state, last.0);
        let keep = server_model::resumable_valid(config, cookie_secret);
        assert(keep(last.0, state));
        table::lemma_all_put(earlier, keep, last.0, state);
    }
}

proof fn lemma_expire_keeps(m: ServerModel, now: Instant)
    requires
        server_model::parts_valid(m),
    ensures
        server_model::parts_valid(server_model::expire(m, now).0),
{
    let timeout = m.config.conversation_idle_timeout;
    lemma_swept_keeps(m.sessions, m.config, m.cookie_secret, now, timeout);
    let swept = server_model::swept_sessions(m.sessions, now, timeout);
    let alive = server_model::still_alive(now, m.config.session_idle_timeout);
    table::lemma_retained(swept.0, alive);
    table::lemma_all_retained(swept.0, server_model::session_valid(m.config, m.cookie_secret), alive);
    let expired = table::discarded(swept.0, alive);
    let expires_at = (now.nanos + m.config.resumption_lifetime.length()) as u128;
    lemma_retired_keeps(m.resumable, expired, m.config, m.cookie_secret, expires_at);
    let recovering = server_model::retired(m.resumable, expired, expires_at);
    table::lemma_retained(recovering, server_model::still_resumable(now));
    table::lemma_all_retained(
        recovering,
        server_model::resumable_valid(m.config, m.cookie_secret),
        server_model::still_resumable(now),
    );
    table::lemma_retained(
        m.pending,
        server_model::still_pending(now, m.config.handshake_timeout),
    );
    let counted = server_model::still_counted(now, server_model::bucket_retention(m.config));
    table::lemma_retained(m.buckets, counted);
    table::lemma_all_retained(m.buckets, server_model::bucket_valid(m.config), counted);
}

/// Whatever happens, a server stays valid: pending handshakes, sessions,
/// conversations and rate buckets stay within their limits, no session and no
/// conversation is listed twice, no identifier stands for two things, and every replay
/// window is in order.
pub proof fn law_server_stays_valid(
    m: ServerModel,
    event: EventModel,
    now: Instant,
    draws: ServerDraws,
)
    requires
        server_model::server_valid(m),
    ensures
        server_model::server_valid(server_model::server_step(m, event, now, draws).0),
        server_model::engine_sound(m),
{
    lemma_parts_stay_valid(m, event, now, draws);
    let next = server_model::server_step(m, event, now, draws).0;
    assert forall|session_id: SessionId| #[trigger] server_model::told_apart(next, session_id) by {
        assert(server_model::told_apart(m, session_id));
        session_laws::lemma_identifiers_stay_apart(m, event, now, draws, session_id);
    }
}

proof fn lemma_parts_stay_valid(
    m: ServerModel,
    event: EventModel,
    now: Instant,
    draws: ServerDraws,
)
    requires
        server_model::parts_valid(m),
    ensures
        server_model::parts_valid(server_model::server_step(m, event, now, draws).0),
        server_model::engine_sound(m),
{
    let test = server_model::session_valid(m.config, m.cookie_secret);
    assert forall|i: int| 0 <= i < m.sessions.len() implies (
    #[trigger] m.sessions[i]).1.opener.replay.width > 0 by {
        assert(test(m.sessions[i].0, m.sessions[i].1));
    }
    match event {
        EventModel::TunnelFrame { peer_id, bytes } => {
            match protocol::decoded(bytes) {
                Ok(frame) => {
                    if frame.frame_type == FrameType::ClientHello {
                        let counted = server_model::attempt_counted(m, peer_id, now);
                        lemma_attempt_keeps(m, peer_id, now);
                        match handshake::hello_of_frame(frame) {
                            Ok(hello) => {
                                lemma_answer_hello_keeps(counted, peer_id, hello, now, draws);
                                lemma_answer_hello_keeps(
                                    server_model::clocked(counted, now),
                                    peer_id,
                                    hello,
                                    now,
                                    draws,
                                );
                            },
                            Err(_) => {},
                        }
                    } else if frame.frame_type == FrameType::ClientFinish {
                        if !table::holds(m.sessions, frame.session_id) {
                            match table::lookup(m.pending, frame.session_id) {
                                Some(pending) => {
                                    if m.sessions.len() < m.config.max_sessions || (
                                    pending.resume_from matches Some(old) && table::holds(
                                        m.sessions,
                                        old,
                                    )) {
                                        lemma_establish_keeps(m, peer_id, frame, pending, now);
                                    }
                                },
                                None => {},
                            }
                        }
                    } else {
                        lemma_handle_record_keeps(
                            m,
                            peer_id,
                            frame.session_id,
                            bytes,
                            now,
                            draws.credentials,
                        );
                    }
                },
                Err(_) => {},
            }
        },
        EventModel::ServerDatagram { session_id, conversation_id, payload } => {
            table::lemma_all_lookup(m.sessions, test, session_id);
            match table::lookup(m.sessions, session_id) {
                Some(session) => {
                    let active = ServerSessionModel {
                        sealer: record::after_sealing(
                            session.sealer,
                            FrameType::Data,
                            Some(conversation_id),
                            payload,
                        ),
                        last_activity: now,
                        expires_at: (now.nanos + m.config.session_idle_timeout.length()) as u128,
                        ..session
                    };
                    lemma_with_session_keeps(m, session_id, active);
                },
                None => {},
            }
        },
        EventModel::CloseConversation { session_id, conversation_id } => {
            match session_id {
                Some(session_id) => {
                    table::lemma_all_lookup(m.sessions, test, session_id);
                    match table::lookup(m.sessions, session_id) {
                        Some(session) => {
                            table::lemma_without(
                                session.conversations,
                                conversation_id,
                                conversation_id,
                            );
                            table::lemma_all_without(
                                session.conversations,
                                server_model::holds_its_own(m.cookie_secret),
                                conversation_id,
                            );
                            let closed = ServerSessionModel {
                                conversations: table::without(
                                    session.conversations,
                                    conversation_id,
                                ),
                                ..session
                            };
                            lemma_with_session_keeps(m, session_id, closed);
                        },
                        None => {},
                    }
                },
                None => {},
            }
        },
        EventModel::TimeAdvanced(at) => {
            lemma_expire_keeps(m, at);
        },
        _ => {},
    }
}

/// A new server is valid.
pub proof fn law_new_server_is_valid(config: EngineConfig, psk: Seq<u8>, cookie_secret: Seq<u8>)
    requires
        config::config_fault(config) is None,
        config.role == Role::Server,
    ensures
        server_model::server_valid(server_model::new_server(config, psk, cookie_secret)),
{
}

/// Nothing that is not authenticated touches a session: a hello never does,
/// a finish only where it is the one that belongs to its pending handshake, and a
/// record only where it opens under the keys of its session and comes over the
/// session's route.
pub proof fn law_unauthentic_frames_touch_no_session(
    m: ServerModel,
    peer_id: PeerId,
    bytes: Seq<u8>,
    now: Instant,
    draws: ServerDraws,
)
    requires
        match protocol::decoded(bytes) {
            Err(_) => true,
            Ok(frame) => if frame.frame_type == FrameType::ClientFinish {
                match table::lookup(m.pending, frame.session_id) {
                    None => true,
                    Some(pending) => pending.peer_id != peer_id || table::holds(
                        m.sessions,
                        frame.session_id,
                    ) || match handshake::finish_of_frame(frame) {
                        Err(_) => true,
                        Ok(finish) => finish != handshake::finish_for(
                            m.psk,
                            pending.hello,
                            frame.session_id,
                            pending.answer,
                        ),
                    },
                }
            } else if protocol::carries_record(frame.frame_type) {
                match table::lookup(m.sessions, frame.session_id) {
                    None => true,
                    Some(session) => session.peer_id != peer_id || record::opened(
                        session.opener,
                        bytes,
                    ) is Err,
                }
            } else {
                true
            },
        },
    ensures
        ({
            let next = server_model::server_step(
                m,
                EventModel::TunnelFrame { peer_id, bytes },
                now,
                draws,
            ).0;
            &&& next.sessions == m.sessions
            &&& next.resumable == m.resumable
        }),
{
    match protocol::decoded(bytes) {
        Ok(frame) => {
            match (table::lookup(m.pending, frame.session_id), handshake::finish_of_frame(frame)) {
                (Some(pending), Ok(finish)) => {
                    handshake::law_finishes_are_accepted(
                        m.psk,
                        pending.hello,
                        frame.session_id,
                        pending.answer,
                        finish,
                    );
                },
                _ => {},
            }
        },
        Err(_) => {},
    }
}

/// The payload that an event carries for the upstream: that of a data record that
/// opens under the keys of its session and came over the session's route.
pub open spec fn carried_payload(m: ServerModel, event: EventModel) -> Option<
    (SessionId, ConversationId, Seq<u8>),
> {
    match event {
        EventModel::TunnelFrame { peer_id, bytes } => match protocol::decoded(bytes) {
            Err(_) => None,
            Ok(frame) => match table::lookup(m.sessions, frame.session_id) {
                None => None,
                Some(session) => if session.peer_id != peer_id {
                    None
                } else {
                    match record::opened(session.opener, bytes) {
                        Err(_) => None,
                        Ok(record) => if record.frame_type == FrameType::Data
                            && record.conversation_id is Some {
                            Some(
                                (
                                    frame.session_id,
                                    record.conversation_id->Some_0,
                                    record.plaintext,
                                ),
                            )
                        } else {
                            None
                        },
                    }
                },
            },
        },
        _ => None,
    }
}

/// Whatever a server hands to the upstream was opened as a data record of the
/// session and the conversation that it is delivered for. With what opening
/// promises, neither tampering nor replay ever delivers a payload.
pub proof fn law_only_authentic_payloads_are_delivered(
    m: ServerModel,
    event: EventModel,
    now: Instant,
    draws: ServerDraws,
    at: int,
)
    requires
        server_model::server_step(m, event, now, draws).1 matches Ok(actions) && 0 <= at
            < actions.len() && actions[at] is DeliverToUpstream,
    ensures
        carried_payload(m, event) is Some,
        server_model::server_step(m, event, now, draws).1->Ok_0[at]
            == (ActionModel::DeliverToUpstream {
            session_id: carried_payload(m, event)->Some_0.0,
            conversation_id: carried_payload(m, event)->Some_0.1,
            payload: carried_payload(m, event)->Some_0.2,
        }),
{
    let actions = server_model::server_step(m, event, now, draws).1->Ok_0;
    match event {
        EventModel::TimeAdvanced(when) => {
            lemma_expire_delivers_nothing(m, when);
        },
        EventModel::TunnelFrame { peer_id, bytes } => {
            let frame = protocol::decoded(bytes)->Ok_0;
            lemma_hello_delivers_nothing(m, peer_id, frame, now, draws);
            lemma_finish_delivers_nothing(m, peer_id, frame, now);
            if protocol::carries_record(frame.frame_type) {
                let session = table::lookup(m.sessions, frame.session_id)->Some_0;
                let record = record::opened(session.opener, bytes)->Ok_0;
                lemma_data_delivers_once(
                    server_model::after_record(session, m.config, bytes, now),
                    m.config,
                    m.cookie_secret,
                    frame.session_id,
                    record,
                    now,
                    server_model::clock_ms(m, now),
                    draws.credentials,
                    at,
                );
            }
        },
        _ => {},
    }
}

/// No action hands a payload to the upstream.
spec fn delivers_nothing(actions: Seq<ActionModel>) -> bool {
    forall|i: int| 0 <= i < actions.len() ==> !((#[trigger] actions[i]) is DeliverToUpstream)
}

proof fn lemma_hello_delivers_nothing(
    m: ServerModel,
    peer_id: PeerId,
    frame: FrameModel,
    now: Instant,
    draws: ServerDraws,
)
    ensures
        server_model::handle_client_hello(m, peer_id, frame, now, draws).1 matches Ok(actions)
            ==> delivers_nothing(actions),
{
}

proof fn lemma_finish_delivers_nothing(
    m: ServerModel,
    peer_id: PeerId,
    frame: FrameModel,
    now: Instant,
)
    ensures
        server_model::handle_client_finish(m, peer_id, frame, now).1 matches Ok(actions)
            ==> delivers_nothing(actions),
{
}

proof fn lemma_data_delivers_once(
    session: ServerSessionModel,
    config: EngineConfig,
    cookie_secret: Seq<u8>,
    session_id: SessionId,
    record: RecordModel,
    now: Instant,
    now_ms: u64,
    salts: Seq<Option<Seq<u8>>>,
    at: int,
)
    requires
        server_model::receive_record(
            session,
            config,
            cookie_secret,
            session_id,
            record,
            now,
            now_ms,
            salts,
        ).1 matches Ok(actions) && 0 <= at < actions.len() && actions[at] is DeliverToUpstream,
    ensures
        record.frame_type == FrameType::Data,
        record.conversation_id is Some,
        server_model::receive_record(
            session,
            config,
            cookie_secret,
            session_id,
            record,
            now,
            now_ms,
            salts,
        ).1->Ok_0[at] == (ActionModel::DeliverToUpstream {
            session_id,
            conversation_id: record.conversation_id->Some_0,
            payload: record.plaintext,
        }),
{
    let conversation_id = record.conversation_id->Some_0;
    let active = ServerSessionModel {
        conversations: table::put(
            session.conversations,
            conversation_id,
            server_model::active_conversation(session.conversations, conversation_id, now),
        ),
        ..session
    };
    lemma_renewed_keeps(
        active,
        config,
        cookie_secret,
        session_id,
        now,
        now_ms,
        salts,
        active.conversations.len(),
    );
}

proof fn lemma_expire_delivers_nothing(m: ServerModel, now: Instant)
    ensures
        forall|i: int|
            0 <= i < server_model::expire(m, now).1.len() ==> !((
            #[trigger] server_model::expire(m, now).1[i]) is DeliverToUpstream),
{
    lemma_swept_delivers_nothing(m.sessions, now, m.config.conversation_idle_timeout);
}

proof fn lemma_swept_delivers_nothing(
    sessions: Seq<(SessionId, ServerSessionModel)>,
    now: Instant,
    timeout: Duration,
)
    ensures
        forall|i: int|
            0 <= i < server_model::swept_sessions(sessions, now, timeout).1.len() ==> !((
            #[trigger] server_model::swept_sessions(
                sessions,
                now,
                timeout,
            ).1[i]) is DeliverToUpstream),
    decreases sessions.len(),
{
    if sessions.len() > 0 {
        lemma_swept_delivers_nothing(sessions.drop_last(), now, timeout);
    }
}

/// Sessions are isolated: what a frame of one session, a datagram for it or the
/// closing of its conversation does, no other session notices.
pub proof fn law_sessions_are_isolated(
    m: ServerModel,
    event: EventModel,
    now: Instant,
    draws: ServerDraws,
    session_id: SessionId,
    other: SessionId,
)
    requires
        other != session_id,
        match event {
            EventModel::TunnelFrame { peer_id, bytes } => protocol::decoded(bytes) matches Ok(frame)
                && protocol::carries_record(frame.frame_type) && frame.session_id == session_id,
            EventModel::ServerDatagram {
                session_id: named,
                conversation_id,
                payload,
            } => named == session_id,
            EventModel::CloseConversation { session_id: named, conversation_id } => named == Some(
                session_id,
            ),
            _ => false,
        },
    ensures
        table::lookup(server_model::server_step(m, event, now, draws).0.sessions, other)
            == table::lookup(m.sessions, other),
        server_model::server_step(m, event, now, draws).0.resumable == m.resumable,
        server_model::server_step(m, event, now, draws).0.pending == m.pending,
{
    let next = server_model::server_step(m, event, now, draws).0;
    if next.sessions != m.sessions {
        let session = table::lookup(next.sessions, session_id);
        lemma_changed_session(m, event, now, draws, session_id);
        let value = choose|value: ServerSessionModel|
            next.sessions == #[trigger] table::put(m.sessions, session_id, value);
        table::lemma_put(m.sessions, session_id, value, other);
    }
}

/// An event of a session changes the entry of that session and nothing else.
proof fn lemma_changed_session(
    m: ServerModel,
    event: EventModel,
    now: Instant,
    draws: ServerDraws,
    session_id: SessionId,
)
    requires
        server_model::server_step(m, event, now, draws).0.sessions != m.sessions,
        match event {
            EventModel::TunnelFrame { peer_id, bytes } => protocol::decoded(bytes) matches Ok(frame)
                && protocol::carries_record(frame.frame_type) && frame.session_id == session_id,
            EventModel::ServerDatagram {
                session_id: named,
                conversation_id,
                payload,
            } => named == session_id,
            EventModel::CloseConversation { session_id: named, conversation_id } => named == Some(
                session_id,
            ),
            _ => false,
        },
    ensures
        exists|value: ServerSessionModel|
            server_model::server_step(m, event, now, draws).0.sessions == #[trigger] table::put(
                m.sessions,
                session_id,
                value,
            ),
{
    let session = table::lookup(m.sessions, session_id)->Some_0;
    match event {
        EventModel::TunnelFrame { peer_id, bytes } => {
            let record = record::opened(session.opener, bytes)->Ok_0;
            let got = server_model::receive_record(
                server_model::after_record(session, m.config, bytes, now),
                m.config,
                m.cookie_secret,
                session_id,
                record,
                now,
                server_model::clock_ms(m, now),
                draws.credentials,
            );
            assert(server_model::server_step(m, event, now, draws).0.sessions == table::put(
                m.sessions,
                session_id,
                got.0,
            ));
        },
        EventModel::ServerDatagram { session_id: named, conversation_id, payload } => {
            let active = ServerSessionModel {
                sealer: record::after_sealing(
                    session.sealer,
                    FrameType::Data,
                    Some(conversation_id),
                    payload,
                ),
                last_activity: now,
                expires_at: (now.nanos + m.config.session_idle_timeout.length()) as u128,
                ..session
            };
            assert(server_model::server_step(m, event, now, draws).0.sessions == table::put(
                m.sessions,
                session_id,
                active,
            ));
        },
        EventModel::CloseConversation { session_id: named, conversation_id } => {
            let closed = ServerSessionModel {
                conversations: table::without(session.conversations, conversation_id),
                ..session
            };
            assert(server_model::server_step(m, event, now, draws).0.sessions == table::put(
                m.sessions,
                session_id,
                closed,
            ));
        },
        _ => {},
    }
}

/// A session that is resumed hands its conversations to the new session, each with
/// the credential that was issued for it, and is gone: it is neither active nor
/// resumable any more.
pub proof fn law_resumption_moves_conversations(
    m: ServerModel,
    peer_id: PeerId,
    frame: FrameModel,
    pending: PendingModel,
    now: Instant,
    old: SessionId,
)
    requires
        server_model::server_valid(m),
        pending.resume_from == Some(old),
        old != frame.session_id,
        table::holds(m.sessions, old) || table::holds(m.resumable, old),
        server_model::establish(m, peer_id, frame, pending, now).1 is Ok,
    ensures
        ({
            let step = server_model::establish(m, peer_id, frame, pending, now);
            let before = match table::lookup(m.sessions, old) {
                Some(session) => session.conversations,
                None => table::lookup(m.resumable, old)->Some_0.conversations,
            };
            &&& table::lookup(step.0.sessions, frame.session_id) matches Some(session)
                && session.conversations == server_model::carried_over(
                before,
                (now.nanos + m.config.resumption_lifetime.length()) as u128,
            )
            &&& !table::holds(step.0.sessions, old)
            &&& !table::holds(step.0.resumable, old)
            &&& step.1->Ok_0.contains(
                ActionModel::SessionResumed {
                    peer_id,
                    old_session_id: old,
                    new_session_id: frame.session_id,
                },
            )
        }),
{
    assert(server_model::told_apart(m, old));
    let step = server_model::establish(m, peer_id, frame, pending, now);
    let taken = server_model::taken_over(m, pending.resume_from);
    table::lemma_without(m.sessions, old, frame.session_id);
    table::lemma_without(m.resumable, old, frame.session_id);
    let made = table::lookup(step.0.sessions, frame.session_id);
    lemma_established_session(m, peer_id, frame, pending, now);
    let session = choose|session: ServerSessionModel|
        step.0.sessions == #[trigger] table::put(taken.0.sessions, frame.session_id, session)
            && session == server_model::established_session(m, peer_id, frame, pending, now);
    table::lemma_put(taken.0.sessions, frame.session_id, session, old);
    table::lemma_put(taken.0.sessions, frame.session_id, session, frame.session_id);
    assert(step.1->Ok_0[2] == (ActionModel::SessionResumed {
        peer_id,
        old_session_id: old,
        new_session_id: frame.session_id,
    }));
}

proof fn lemma_established_session(
    m: ServerModel,
    peer_id: PeerId,
    frame: FrameModel,
    pending: PendingModel,
    now: Instant,
)
    requires
        server_model::establish(m, peer_id, frame, pending, now).1 is Ok,
    ensures
        exists|session: ServerSessionModel|
            server_model::establish(m, peer_id, frame, pending, now).0.sessions
                == #[trigger] table::put(
                server_model::taken_over(m, pending.resume_from).0.sessions,
                frame.session_id,
                session,
            ) && session == server_model::established_session(m, peer_id, frame, pending, now),
{
    let taken = server_model::taken_over(m, pending.resume_from);
    let made = server_model::established_session(m, peer_id, frame, pending, now);
    assert(server_model::establish(m, peer_id, frame, pending, now).0.sessions == table::put(
        taken.0.sessions,
        frame.session_id,
        made,
    ));
}

/// Whether the server answers a hello instead of demanding a cookie or refusing it.
pub open spec fn answerable(
    m: ServerModel,
    peer_id: PeerId,
    hello: HelloModel,
    now: Instant,
) -> bool {
    &&& hello.suite == m.config.cipher_suite
    &&& server_model::attempt_allowed(m, peer_id, now)
    &&& m.config.require_handshake_cookie ==> handshake::cookie_accepted(
        m.cookie_secret,
        hello,
        peer_id,
        server_model::clock_ms(m, now),
        m.config.handshake_cookie_lifetime,
    )
}

/// A hello that was found nowhere is found where it is put.
proof fn lemma_repeated_at_the_end(
    pending: Seq<(SessionId, PendingModel)>,
    session_id: SessionId,
    added: PendingModel,
    peer_id: PeerId,
    hello: HelloModel,
)
    requires
        server_model::repeated_at(pending, peer_id, hello) == pending.len(),
        server_model::repeats(added, peer_id, hello),
    ensures
        server_model::repeated_at(pending.push((session_id, added)), peer_id, hello)
            == pending.len(),
    decreases pending.len(),
{
    let longer = pending.push((session_id, added));
    if pending.len() > 0 {
        lemma_repeated_at_bounds(pending.drop_first(), peer_id, hello);
        lemma_repeated_at_the_end(pending.drop_first(), session_id, added, peer_id, hello);
        assert(longer.drop_first() =~= pending.drop_first().push((session_id, added)));
    }
}

pub proof fn lemma_repeated_at_bounds(
    pending: Seq<(SessionId, PendingModel)>,
    peer_id: PeerId,
    hello: HelloModel,
)
    ensures
        0 <= server_model::repeated_at(pending, peer_id, hello) <= pending.len(),
        server_model::repeated_at(pending, peer_id, hello) < pending.len()
            ==> server_model::repeats(
            pending[server_model::repeated_at(pending, peer_id, hello)].1,
            peer_id,
            hello,
        ),
    decreases pending.len(),
{
    if pending.len() > 0 {
        let rest = pending.drop_first();
        lemma_repeated_at_bounds(rest, peer_id, hello);
        let at = server_model::repeated_at(rest, peer_id, hello);
        if at < rest.len() {
            assert(rest[at] == pending[at + 1]);
        }
    }
}

/// A repeated hello gets the answer that it already got, and opens no second
/// handshake.
pub proof fn law_repeated_hello_gets_the_same_answer(
    m: ServerModel,
    peer_id: PeerId,
    bytes: Seq<u8>,
    times: (Instant, Instant),
    draws: (ServerDraws, ServerDraws),
)
    requires
        ({
            let frame = protocol::decoded(bytes)->Ok_0;
            let hello = handshake::hello_of_frame(frame)->Ok_0;
            let first = server_model::server_step(
                m,
                EventModel::TunnelFrame { peer_id, bytes },
                times.0,
                draws.0,
            );
            &&& protocol::decoded(bytes) is Ok
            &&& frame.frame_type == FrameType::ClientHello
            &&& handshake::hello_of_frame(frame) is Ok
            &&& answerable(m, peer_id, hello, times.0)
            &&& first.1 is Ok
            &&& answerable(first.0, peer_id, hello, times.1)
        }),
    ensures
        ({
            let first = server_model::server_step(
                m,
                EventModel::TunnelFrame { peer_id, bytes },
                times.0,
                draws.0,
            );
            let second = server_model::server_step(
                first.0,
                EventModel::TunnelFrame { peer_id, bytes },
                times.1,
                draws.1,
            );
            &&& second.1 == Ok::<Seq<ActionModel>, EngineError>(seq![first.1->Ok_0[0]])
            &&& second.0.pending == first.0.pending
        }),
{
    let frame = protocol::decoded(bytes)->Ok_0;
    let hello = handshake::hello_of_frame(frame)->Ok_0;
    let counted = server_model::attempt_counted(m, peer_id, times.0);
    let asked = if m.config.require_handshake_cookie {
        server_model::clocked(counted, times.0)
    } else {
        counted
    };
    assert(asked.pending == m.pending);
    assert(asked.psk == m.psk);
    let first = server_model::answer_hello(asked, peer_id, hello, times.0, draws.0);
    lemma_repeated_at_bounds(m.pending, peer_id, hello);
    let at = server_model::repeated_at(m.pending, peer_id, hello);
    if at == m.pending.len() {
        let session_id = draws.0.session_id->Some_0;
        let resume_from = server_model::resumed_by(
            asked,
            hello,
            server_model::clock_ms(asked, times.0),
        );
        let answer = handshake::answer_to(
            m.psk,
            hello,
            session_id,
            resume_from is Some,
            draws.0.hello->Some_0.0,
            draws.0.hello->Some_0.1,
        );
        let added = PendingModel {
            peer_id,
            created_at: times.0,
            hello,
            answer,
            resume_from,
        };
        assert(first.0.pending == table::put(m.pending, session_id, added));
        assert(first.0.pending == m.pending.push((session_id, added)));
        lemma_repeated_at_the_end(m.pending, session_id, added, peer_id, hello);
    }
    let again = server_model::server_step(
        first.0,
        EventModel::TunnelFrame { peer_id, bytes },
        times.1,
        draws.1,
    );
    assert(again.1->Ok_0 =~= seq![first.1->Ok_0[0]]);
}

/// A hello without a cookie, or with one that is not accepted, leaves no trace but
/// the token that it cost: no handshake is opened and no session touched.
pub proof fn law_no_handshake_without_a_cookie(
    m: ServerModel,
    peer_id: PeerId,
    bytes: Seq<u8>,
    now: Instant,
    draws: ServerDraws,
)
    requires
        m.config.require_handshake_cookie,
        protocol::decoded(bytes) matches Ok(frame) && frame.frame_type == FrameType::ClientHello
            && (handshake::hello_of_frame(frame) matches Ok(hello)
            ==> !handshake::cookie_accepted(
            m.cookie_secret,
            hello,
            peer_id,
            server_model::clock_ms(m, now),
            m.config.handshake_cookie_lifetime,
        )),
    ensures
        ({
            let next = server_model::server_step(
                m,
                EventModel::TunnelFrame { peer_id, bytes },
                now,
                draws,
            ).0;
            &&& next.pending == m.pending
            &&& next.sessions == m.sessions
            &&& next.resumable == m.resumable
        }),
{
}

/// Time alone makes a server send no frame.
pub proof fn law_time_sends_nothing(
    m: ServerModel,
    at: Instant,
    now: Instant,
    draws: ServerDraws,
    place: int,
)
    ensures
        server_model::server_step(m, EventModel::TimeAdvanced(at), now, draws).1 matches Ok(actions)
            && (0 <= place < actions.len() ==> !(actions[place] is SendTunnelFrame)),
{
    lemma_swept_sends_nothing(m.sessions, at, m.config.conversation_idle_timeout);
}

/// No action sends a frame.
spec fn sends_nothing(actions: Seq<ActionModel>) -> bool {
    forall|i: int| 0 <= i < actions.len() ==> !((#[trigger] actions[i]) is SendTunnelFrame)
}

proof fn lemma_swept_sends_nothing(
    sessions: Seq<(SessionId, ServerSessionModel)>,
    now: Instant,
    timeout: Duration,
)
    ensures
        sends_nothing(server_model::swept_sessions(sessions, now, timeout).1),
    decreases sessions.len(),
{
    if sessions.len() > 0 {
        lemma_swept_sends_nothing(sessions.drop_last(), now, timeout);
    }
}

/// An attempt that is allowed costs a token, so that a peer that has `n` tokens
/// gets at most `n` attempts at one instant.
pub proof fn law_attempts_cost_tokens(m: ServerModel, peer_id: PeerId, now: Instant)
    requires
        server_model::server_valid(m),
        server_model::attempt_allowed(m, peer_id, now),
    ensures
        ({
            let next = server_model::attempt_counted(m, peer_id, now);
            server_model::bucket_of(next, peer_id, now).tokens == server_model::bucket_of(
                m,
                peer_id,
                now,
            ).tokens - 1
        }),
{
    let bucket = server_model::bucket_of(m, peer_id, now);
    let counted = BucketModel { tokens: (bucket.tokens - 1) as usize, ..bucket };
    table::lemma_put(m.buckets, peer_id, counted, peer_id);
    let interval = m.config.handshake_rate_refill_interval.length();
    let waited = time::elapsed(now, counted.last_refill_at);
    if waited / interval != 0 {
        assert(bucket.last_refill_at == now || (table::lookup(m.buckets, peer_id) matches Some(
            known,
        ) && known == bucket));
    } else {
        assert(server_model::refilled(counted, m.config, now) == counted);
    }
    assert(time::elapsed(now, now) == 0);
    assert(0nat / interval == 0) by (nonlinear_arith)
        requires
            interval > 0,
    ;
}

} // verus!
