//! What a client and a server achieve together.

use vstd::prelude::*;

use crate::action::{ActionModel, EventModel, SessionState};
use crate::address::SocketAddress;
use crate::client_model;
use crate::client_model::{ClientDraws, ClientModel, ClientSessionModel, ConversationModel};
use crate::config::EngineConfig;
use crate::crypto;
use crate::crypto::Direction;
use crate::error::EngineError;
use crate::handshake;
use crate::handshake::{AnswerModel, HelloModel};
use crate::id::{ConversationId, PeerId, SessionId};
use crate::protocol;
use crate::protocol::{FrameType, MAX_FRAME_PAYLOAD};
use crate::record;
use crate::record::{OpenerModel, RecordModel, SealerModel};
use crate::replay;
use crate::server_model;
use crate::server_model::{PendingModel, ServerDraws, ServerModel, ServerSessionModel};
use crate::table;
use crate::time::Instant;

verus! {

/// What [`crate::record::RecordSealer::seal`] ensures of every record that it
/// seals: the opener at the other end delivers it.
pub open spec fn delivers(
    sealer: SealerModel,
    frame_type: FrameType,
    conversation_id: Option<ConversationId>,
    plaintext: Seq<u8>,
) -> bool {
    record::sealed(sealer, frame_type, conversation_id, plaintext) matches Ok(datagram) ==> forall|
        opener: OpenerModel,
    | #[trigger]
        record::pairs(sealer, opener) ==> record::opened(opener, datagram) == record::delivered(
            opener,
            sealer.next_packet_number,
            RecordModel { frame_type, conversation_id, plaintext },
        )
}

/// The lengths that tags and derived keys have, as the functions that compute them
/// ensure of every result.
pub open spec fn derived_lengths(
    psk: Seq<u8>,
    hello: HelloModel,
    session_id: SessionId,
    answer: AnswerModel,
) -> bool {
    let source = handshake::session_key_source(psk, hello, session_id, answer);
    &&& handshake::answer_valid(answer)
    &&& handshake::finish_for(psk, hello, session_id, answer).auth_tag.len() == 32
    &&& crypto::keys_fit(hello.suite, crypto::direction_keys(source, Direction::ServerToClient))
    &&& crypto::keys_fit(hello.suite, crypto::direction_keys(source, Direction::ClientToServer))
}

/// A client that waits for the server's answer, and a server that is ready to give
/// one: they share a key and a suite, and no limit stands in the way.
pub open spec fn may_meet(
    c: ClientModel,
    m: ServerModel,
    peer_id: PeerId,
    now: Instant,
    draws: ServerDraws,
) -> bool {
    &&& client_model::client_valid(c)
    &&& server_model::server_valid(m)
    &&& c.psk == m.psk
    &&& c.config.cipher_suite == m.config.cipher_suite
    &&& client_model::in_handshake(c.state)
    &&& c.handshake matches Some(attempt) && attempt.phase is AwaitingServerHello
    &&& server_model::attempt_allowed(m, peer_id, now)
    &&& m.config.require_handshake_cookie ==> handshake::cookie_accepted(
        m.cookie_secret,
        c.handshake->Some_0.hello,
        peer_id,
        server_model::clock_ms(m, now),
        m.config.handshake_cookie_lifetime,
    )
    &&& server_model::repeated_at(m.pending, peer_id, c.handshake->Some_0.hello)
        == m.pending.len()
    &&& m.pending.len() < m.config.max_pending_handshakes
    &&& server_model::pending_of(m.pending, peer_id) < m.config.max_pending_handshakes_per_peer
    &&& m.sessions.len() < m.config.max_sessions
    &&& draws.session_id matches Some(session_id) && server_model::session_unused(m, session_id)
    &&& draws.hello is Some
}

/// The answer that the server gives when they meet.
pub open spec fn answer_given(
    c: ClientModel,
    m: ServerModel,
    peer_id: PeerId,
    now: Instant,
    draws: ServerDraws,
) -> AnswerModel {
    let hello = c.handshake->Some_0.hello;
    handshake::answer_to(
        m.psk,
        hello,
        draws.session_id->Some_0,
        server_model::resumed_by(m, hello, server_model::clock_ms(m, now)) is Some,
        draws.hello->Some_0.0,
        draws.hello->Some_0.1,
    )
}

/// The pending handshake that the server keeps.
pub open spec fn pending_kept(
    c: ClientModel,
    m: ServerModel,
    peer_id: PeerId,
    now: Instant,
    draws: ServerDraws,
) -> PendingModel {
    PendingModel {
        peer_id,
        created_at: now,
        hello: c.handshake->Some_0.hello,
        answer: answer_given(c, m, peer_id, now, draws),
        resume_from: server_model::resumed_by(
            m,
            c.handshake->Some_0.hello,
            server_model::clock_ms(m, now),
        ),
    }
}

/// What a server does with a datagram that arrives from a peer.
#[verifier::opaque]
pub open spec fn at_server(
    m: ServerModel,
    peer_id: PeerId,
    bytes: Seq<u8>,
    now: Instant,
    draws: ServerDraws,
) -> (ServerModel, Result<Seq<ActionModel>, EngineError>) {
    server_model::server_step(m, EventModel::TunnelFrame { peer_id, bytes }, now, draws)
}

/// What a client does with a datagram that arrives from its server.
#[verifier::opaque]
pub open spec fn at_client(
    c: ClientModel,
    bytes: Seq<u8>,
    now: Instant,
    draws: ClientDraws,
) -> (ClientModel, Result<Seq<ActionModel>, EngineError>) {
    client_model::client_step(
        c,
        EventModel::TunnelFrame { peer_id: c.server_peer, bytes },
        now,
        draws,
    )
}

/// The server takes the hello and answers it.
proof fn lemma_server_answers(
    c: ClientModel,
    m: ServerModel,
    peer_id: PeerId,
    now: Instant,
    draws: ServerDraws,
)
    requires
        may_meet(c, m, peer_id, now, draws),
        derived_lengths(
            m.psk,
            c.handshake->Some_0.hello,
            draws.session_id->Some_0,
            answer_given(c, m, peer_id, now, draws),
        ),
    ensures
        ({
            let hello = c.handshake->Some_0.hello;
            let session_id = draws.session_id->Some_0;
            let answer = answer_given(c, m, peer_id, now, draws);
            let bytes = protocol::encoded(handshake::hello_frame(hello))->Ok_0;
            let step = at_server(m, peer_id, bytes, now, draws);
            &&& protocol::encoded(handshake::hello_frame(hello)) is Ok
            &&& protocol::encoded(handshake::answer_frame(answer, session_id)) is Ok
            &&& step.1 == Ok::<Seq<ActionModel>, EngineError>(
                seq![
                    ActionModel::SendTunnelFrame {
                        peer_id,
                        bytes: protocol::encoded(
                            handshake::answer_frame(answer, session_id),
                        )->Ok_0,
                    },
                    ActionModel::ScheduleTimer(m.config.handshake_timeout),
                ],
            )
            &&& step.0.psk == m.psk
            &&& step.0.config == m.config
            &&& step.0.sessions == m.sessions
            &&& step.0.resumable == m.resumable
            &&& table::lookup(step.0.pending, session_id) == Some(
                pending_kept(c, m, peer_id, now, draws),
            )
        }),
{
    reveal(at_server);
    let hello = c.handshake->Some_0.hello;
    let session_id = draws.session_id->Some_0;
    let answer = answer_given(c, m, peer_id, now, draws);
    handshake::law_hello_round_trip(hello);
    protocol::law_frame_round_trip(handshake::hello_frame(hello));
    handshake::law_answer_round_trip(answer, session_id);
    table::lemma_put(
        m.pending,
        session_id,
        pending_kept(c, m, peer_id, now, draws),
        session_id,
    );
}

/// The client takes the answer and sends its finish.
proof fn lemma_client_finishes(
    c: ClientModel,
    answer: AnswerModel,
    session_id: SessionId,
    now: Instant,
    draws: ClientDraws,
)
    requires
        client_model::client_valid(c),
        client_model::in_handshake(c.state),
        c.handshake matches Some(attempt) && attempt.phase is AwaitingServerHello,
        session_id.number() != 0,
        derived_lengths(c.psk, c.handshake->Some_0.hello, session_id, answer),
        handshake::answer_verdict(c.psk, c.handshake->Some_0.hello, session_id, answer) is Ok,
    ensures
        ({
            let hello = c.handshake->Some_0.hello;
            let bytes = protocol::encoded(handshake::answer_frame(answer, session_id))->Ok_0;
            let finish = handshake::finish_frame(
                handshake::finish_for(c.psk, hello, session_id, answer),
                session_id,
            );
            let step = at_client(c, bytes, now, draws);
            &&& protocol::encoded(finish) is Ok
            &&& step.1 == Ok::<Seq<ActionModel>, EngineError>(
                client_model::handshake_actions(c, protocol::encoded(finish)->Ok_0),
            )
            &&& step.0.session == Some(
                client_model::session_from(c, hello, answer, session_id, now),
            )
            &&& step.0.state == c.state
            &&& step.0.server_peer == c.server_peer
        }),
{
    reveal(at_client);
    let hello = c.handshake->Some_0.hello;
    let finish = handshake::finish_for(c.psk, hello, session_id, answer);
    handshake::law_answer_round_trip(answer, session_id);
    protocol::law_frame_round_trip(handshake::answer_frame(answer, session_id));
    handshake::law_finish_round_trip(finish, session_id);
}

/// The server takes the finish and confirms the session.
proof fn lemma_server_confirms(
    m: ServerModel,
    peer_id: PeerId,
    pending: PendingModel,
    session_id: SessionId,
    now: Instant,
    draws: ServerDraws,
)
    requires
        m.sessions.len() < m.config.max_sessions,
        !table::holds(m.sessions, session_id),
        session_id.number() != 0,
        table::lookup(m.pending, session_id) == Some(pending),
        pending.peer_id == peer_id,
        pending.hello.handshake_id.len() == 16,
        pending.hello.suite == m.config.cipher_suite,
        derived_lengths(m.psk, pending.hello, session_id, pending.answer),
    ensures
        ({
            let finish = handshake::finish_frame(
                handshake::finish_for(m.psk, pending.hello, session_id, pending.answer),
                session_id,
            );
            let sealer = server_model::fresh_sealer(m, pending, session_id);
            let bytes = protocol::encoded(finish)->Ok_0;
            let step = at_server(m, peer_id, bytes, now, draws);
            &&& record::sealed(sealer, FrameType::HandshakeAck, None, Seq::empty()) is Ok
            &&& step.1 == Ok::<Seq<ActionModel>, EngineError>(
                server_model::established_actions(
                    m,
                    peer_id,
                    session_id,
                    pending.resume_from,
                    record::sealed(sealer, FrameType::HandshakeAck, None, Seq::empty())->Ok_0,
                ),
            )
            &&& table::lookup(step.0.sessions, session_id) matches Some(session)
                && session.peer_id == peer_id && session.sealer == record::after_sealing(
                sealer,
                FrameType::HandshakeAck,
                None,
                Seq::empty(),
            ) && session.opener == server_model::fresh_opener(m, pending, session_id)
        }),
{
    reveal(at_server);
    let finish = handshake::finish_for(m.psk, pending.hello, session_id, pending.answer);
    let frame = handshake::finish_frame(finish, session_id);
    handshake::law_finish_round_trip(finish, session_id);
    protocol::law_frame_round_trip(frame);
    handshake::law_finishes_are_accepted(
        m.psk,
        pending.hello,
        session_id,
        pending.answer,
        finish,
    );
    let sealer = server_model::fresh_sealer(m, pending, session_id);
    let taken = server_model::taken_over(m, pending.resume_from);
    let made = server_model::established_session(m, peer_id, frame, pending, now);
    table::lemma_put(taken.0.sessions, session_id, made, session_id);
}

/// Sending the queue changes nothing of a session but its packet numbers.
proof fn lemma_flush_keeps_session(
    c: ClientModel,
    now: Instant,
    draws: Seq<Option<ConversationId>>,
    from: int,
    count: nat,
)
    requires
        c.state == SessionState::Ready,
        c.session is Some,
    ensures
        ({
            let next = client_model::flush_queue(c, now, draws, from, count).0;
            let before = c.session->Some_0;
            &&& next.state == SessionState::Ready
            &&& next.session matches Some(session) && session.id == before.id && session.opener
                == before.opener && session.sealer == (SealerModel {
                next_packet_number: session.sealer.next_packet_number,
                ..before.sealer
            })
        }),
    decreases count,
{
    if count > 0 {
        let first = client_model::flush_one(c, now, client_model::drawn(draws, from));
        lemma_flush_keeps_session(first.0, now, draws, from + 1, (count - 1) as nat);
    }
}

/// The client takes the confirmation and is ready.
proof fn lemma_client_is_ready(
    c: ClientModel,
    ack: Seq<u8>,
    now: Instant,
    draws: ClientDraws,
)
    requires
        client_model::in_handshake(c.state),
        c.session is Some,
        record::opened(c.session->Some_0.opener, ack) matches Ok(record) && record.frame_type
            == FrameType::HandshakeAck,
        protocol::decoded(ack) matches Ok(frame) && frame.frame_type == FrameType::HandshakeAck,
    ensures
        ({
            let step = at_client(c, ack, now, draws);
            let before = c.session->Some_0;
            &&& step.1 is Ok
            &&& step.0.state == SessionState::Ready
            &&& step.0.session matches Some(session) && session.id == before.id && session.opener
                == record::after_opening(before.opener, ack) && session.sealer == (SealerModel {
                next_packet_number: session.sealer.next_packet_number,
                ..before.sealer
            })
        }),
{
    reveal(at_client);
    let session = c.session->Some_0;
    let seen = ClientSessionModel {
        opener: record::after_opening(session.opener, ack),
        ..session
    };
    let ready = client_model::confirmed(c, seen, now);
    lemma_flush_keeps_session(ready, now, draws.conversations, 0, c.queue.len());
}

/// A client and a server that share a key and a suite establish a session: the
/// server answers the hello, the client its answer, the server confirms, and then
/// the client is ready and the record layers of both ends fit each other.
pub proof fn law_handshake_establishes_a_session(
    c: ClientModel,
    m: ServerModel,
    peer_id: PeerId,
    times: (Instant, Instant, Instant, Instant),
    server_draws: (ServerDraws, ServerDraws),
    client_draws: (ClientDraws, ClientDraws),
)
    requires
        may_meet(c, m, peer_id, times.0, server_draws.0),
        derived_lengths(
            m.psk,
            c.handshake->Some_0.hello,
            server_draws.0.session_id->Some_0,
            answer_given(c, m, peer_id, times.0, server_draws.0),
        ),
        delivers(
            server_model::fresh_sealer(
                m,
                pending_kept(c, m, peer_id, times.0, server_draws.0),
                server_draws.0.session_id->Some_0,
            ),
            FrameType::HandshakeAck,
            None,
            Seq::empty(),
        ),
    ensures
        ({
            let session_id = server_draws.0.session_id->Some_0;
            let hello = protocol::encoded(
                handshake::hello_frame(c.handshake->Some_0.hello),
            )->Ok_0;
            let answered = at_server(m, peer_id, hello, times.0, server_draws.0);
            let answer = answered.1->Ok_0[0]->SendTunnelFrame_bytes;
            let finished = at_client(c, answer, times.1, client_draws.0);
            let finish = finished.1->Ok_0[0]->SendTunnelFrame_bytes;
            let confirmed = at_server(answered.0, peer_id, finish, times.2, server_draws.1);
            let ack = confirmed.1->Ok_0[0]->SendTunnelFrame_bytes;
            let ready = at_client(finished.0, ack, times.3, client_draws.1);
            &&& answered.1 is Ok && finished.1 is Ok && confirmed.1 is Ok && ready.1 is Ok
            &&& ready.0.state == SessionState::Ready
            &&& client_model::current_session(ready.0) == Some(session_id)
            &&& server_model::session_state(confirmed.0, session_id) == Some(SessionState::Ready)
            &&& table::lookup(confirmed.0.sessions, session_id) matches Some(far)
                && record::pairs(ready.0.session->Some_0.sealer, far.opener) && record::pairs(
                far.sealer,
                ready.0.session->Some_0.opener,
            )
        }),
{
    let session_id = server_draws.0.session_id->Some_0;
    let hello = c.handshake->Some_0.hello;
    let answer = answer_given(c, m, peer_id, times.0, server_draws.0);
    let pending = pending_kept(c, m, peer_id, times.0, server_draws.0);
    lemma_server_answers(c, m, peer_id, times.0, server_draws.0);
    let answered = at_server(
        m,
        peer_id,
        protocol::encoded(handshake::hello_frame(hello))->Ok_0,
        times.0,
        server_draws.0,
    );
    let answer_bytes = protocol::encoded(handshake::answer_frame(answer, session_id))->Ok_0;
    assert(answered.1->Ok_0[0]->SendTunnelFrame_bytes == answer_bytes);
    handshake::law_answers_are_accepted(
        m.psk,
        hello,
        session_id,
        answer.resumed,
        answer.server_nonce,
        answer.session_salt,
    );
    lemma_client_finishes(c, answer, session_id, times.1, client_draws.0);
    let finished = at_client(c, answer_bytes, times.1, client_draws.0);
    lemma_server_confirms(
        answered.0,
        peer_id,
        pending,
        session_id,
        times.2,
        server_draws.1,
    );
    let sealer = server_model::fresh_sealer(answered.0, pending, session_id);
    assert(sealer == server_model::fresh_sealer(m, pending, session_id));
    let ack = record::sealed(sealer, FrameType::HandshakeAck, None, Seq::empty())->Ok_0;
    let near = finished.0.session->Some_0;
    assert(record::pairs(sealer, near.opener));
    lemma_sealed_type(sealer, FrameType::HandshakeAck, None, Seq::empty(), near.opener);
    lemma_client_is_ready(finished.0, ack, times.3, client_draws.1);
}

/// A sealed record that opens is a frame of the type that was sealed.
proof fn lemma_sealed_type(
    sealer: SealerModel,
    frame_type: FrameType,
    conversation_id: Option<ConversationId>,
    plaintext: Seq<u8>,
    opener: OpenerModel,
)
    requires
        delivers(sealer, frame_type, conversation_id, plaintext),
        record::sealed(sealer, frame_type, conversation_id, plaintext) is Ok,
        record::pairs(sealer, opener),
        plaintext.len() <= MAX_FRAME_PAYLOAD,
        replay::admission(opener.replay, sealer.next_packet_number) is Ok,
    ensures
        ({
            let datagram = record::sealed(sealer, frame_type, conversation_id, plaintext)->Ok_0;
            &&& record::opened(opener, datagram) == Ok::<RecordModel, crate::error::RecordError>(
                RecordModel { frame_type, conversation_id, plaintext },
            )
            &&& protocol::decoded(datagram) matches Ok(frame) && frame.frame_type == frame_type
                && frame.session_id == sealer.session_id
        }),
{
}

/// A datagram that the client sends over its live session arrives: the server hands its
/// payload to the upstream of the conversation that the client has for its local peer,
/// after the credentials that are due at that moment. The conversation may be known, or
/// new to the client or to the server. Where it is known and no credential is due,
/// nothing can keep the server from doing so.
pub proof fn law_datagrams_reach_the_upstream(
    c: ClientModel,
    m: ServerModel,
    peer_id: PeerId,
    local_peer: SocketAddress,
    payload: Seq<u8>,
    times: (Instant, Instant),
    client_draws: ClientDraws,
    server_draws: ServerDraws,
)
    requires
        client_model::client_valid(c),
        c.state == SessionState::Ready,
        times.0.nanos <= c.session->Some_0.last_received_at.nanos
            + c.config.session_timeout.length(),
        payload.len() <= c.config.max_frame_payload,
        client_model::client_step(
            c,
            EventModel::ClientDatagram { local_peer, payload },
            times.0,
            client_draws,
        ).1 is Ok,
        table::lookup(m.sessions, c.session->Some_0.id) matches Some(far) && far.peer_id == peer_id
            && record::pairs(c.session->Some_0.sealer, far.opener) && replay::admission(
            far.opener.replay,
            c.session->Some_0.sealer.next_packet_number,
        ) is Ok,
        delivers(
            c.session->Some_0.sealer,
            FrameType::Data,
            Some(conversation_used(c, local_peer, client_draws)),
            payload,
        ),
    ensures
        ({
            let id = conversation_used(c, local_peer, client_draws);
            let session_id = c.session->Some_0.id;
            let sent = client_model::client_step(
                c,
                EventModel::ClientDatagram { local_peer, payload },
                times.0,
                client_draws,
            );
            let bytes = sent.1->Ok_0.last()->SendTunnelFrame_bytes;
            let received = server_model::server_step(
                m,
                EventModel::TunnelFrame { peer_id, bytes },
                times.1,
                server_draws,
            );
            let far = table::lookup(m.sessions, session_id)->Some_0;
            let deliver = ActionModel::DeliverToUpstream {
                session_id,
                conversation_id: id,
                payload,
            };
            let timer = ActionModel::ScheduleTimer(m.config.session_idle_timeout);
            &&& table::lookup(sent.0.by_peer, local_peer) matches Some(conversation)
                && conversation.id == id
            &&& sent.1->Ok_0 == if table::holds(c.by_peer, local_peer) {
                seq![ActionModel::SendTunnelFrame { peer_id: c.server_peer, bytes }]
            } else {
                seq![
                    ActionModel::ConversationOpened {
                        session_id: Some(session_id),
                        conversation_id: id,
                    },
                    ActionModel::SendTunnelFrame { peer_id: c.server_peer, bytes },
                ]
            }
            &&& received.1 matches Ok(actions) ==> actions.len() >= 2 && actions[actions.len() - 2]
                == deliver && actions.last() == timer
            &&& received.1 == Err::<Seq<ActionModel>, EngineError>(
                EngineError::ConversationCapacity,
            ) <==> !table::holds(far.conversations, id) && far.conversations.len()
                >= m.config.max_conversations
            &&& none_due(m, session_id, times.1) && table::holds(far.conversations, id)
                ==> received.1 == Ok::<Seq<ActionModel>, EngineError>(seq![deliver, timer])
        }),
{
    let id = conversation_used(c, local_peer, client_draws);
    let session_id = c.session->Some_0.id;
    let sealer = c.session->Some_0.sealer;
    let far = table::lookup(m.sessions, session_id)->Some_0;
    let sent = client_model::client_step(
        c,
        EventModel::ClientDatagram { local_peer, payload },
        times.0,
        client_draws,
    );
    let known = match table::lookup(c.by_peer, local_peer) {
        Some(conversation) => ConversationModel { last_activity: times.0, ..conversation },
        None => ConversationModel { id, last_activity: times.0, resumption: None },
    };
    table::lemma_put(c.by_peer, local_peer, known, local_peer);
    lemma_sealed_type(sealer, FrameType::Data, Some(id), payload, far.opener);
    let bytes = record::sealed(sealer, FrameType::Data, Some(id), payload)->Ok_0;
    let send = ActionModel::SendTunnelFrame { peer_id: c.server_peer, bytes };
    assert(sent.1->Ok_0.last() == send);
    if table::holds(c.by_peer, local_peer) {
        assert(sent.1->Ok_0 =~= seq![send]);
    } else {
        assert(sent.1->Ok_0 =~= seq![
            ActionModel::ConversationOpened {
                session_id: Some(session_id),
                conversation_id: id,
            },
            send,
        ]);
    }
    lemma_data_is_delivered(
        server_model::after_record(far, m.config, bytes, times.1),
        m,
        session_id,
        id,
        payload,
        times.1,
        server_draws.credentials,
        far,
    );
}

/// The conversation in which a client sends a datagram.
pub open spec fn conversation_used(
    c: ClientModel,
    local_peer: SocketAddress,
    draws: ClientDraws,
) -> ConversationId {
    match table::lookup(c.by_peer, local_peer) {
        Some(conversation) => conversation.id,
        None => client_model::drawn(draws.conversations, 0)->Some_0,
    }
}

/// What a server does with the data of a conversation.
pub proof fn lemma_data_is_delivered(
    session: ServerSessionModel,
    m: ServerModel,
    session_id: SessionId,
    id: ConversationId,
    payload: Seq<u8>,
    now: Instant,
    salts: Seq<Option<Seq<u8>>>,
    far: ServerSessionModel,
)
    requires
        table::lookup(m.sessions, session_id) == Some(far),
        session.conversations == far.conversations,
    ensures
        ({
            let received = server_model::receive_data(
                session,
                m.config,
                m.cookie_secret,
                session_id,
                id,
                payload,
                now,
                server_model::clock_ms(m, now),
                salts,
            );
            let deliver = ActionModel::DeliverToUpstream {
                session_id,
                conversation_id: id,
                payload,
            };
            let timer = ActionModel::ScheduleTimer(m.config.session_idle_timeout);
            &&& received.1 matches Ok(actions) ==> actions.len() >= 2 && actions[actions.len() - 2]
                == deliver && actions.last() == timer
            &&& received.1 == Err::<Seq<ActionModel>, EngineError>(
                EngineError::ConversationCapacity,
            ) <==> !table::holds(far.conversations, id) && far.conversations.len()
                >= m.config.max_conversations
            &&& none_due(m, session_id, now) && table::holds(far.conversations, id) ==> received.1
                == Ok::<Seq<ActionModel>, EngineError>(seq![deliver, timer])
        }),
{
    let value = server_model::active_conversation(far.conversations, id, now);
    let active = ServerSessionModel {
        conversations: table::put(far.conversations, id, value),
        ..session
    };
    let now_ms = server_model::clock_ms(m, now);
    lemma_renewal_errors(
        active,
        m.config,
        m.cookie_secret,
        session_id,
        now,
        now_ms,
        salts,
        active.conversations.len(),
    );
    if none_due(m, session_id, now) && table::holds(far.conversations, id) {
        table::lemma_position(far.conversations, id);
        assert forall|i: int| 0 <= i < active.conversations.len() implies
            !server_model::credential_due(
            (#[trigger] active.conversations[i]).1,
            m.config,
            now,
        ) by {
            assert(!server_model::credential_due(far.conversations[i].1, m.config, now));
        }
        lemma_nothing_renewed(
            active,
            m.config,
            m.cookie_secret,
            session_id,
            now,
            now_ms,
            salts,
            active.conversations.len(),
        );
        let received = server_model::receive_data(
            session,
            m.config,
            m.cookie_secret,
            session_id,
            id,
            payload,
            now,
            now_ms,
            salts,
        );
        assert(received.1->Ok_0 =~= seq![
            ActionModel::DeliverToUpstream { session_id, conversation_id: id, payload },
            ActionModel::ScheduleTimer(m.config.session_idle_timeout),
        ]);
    }
}

/// Handing out credentials is refused for want of randomness or by the record layer
/// only.
proof fn lemma_renewal_errors(
    session: ServerSessionModel,
    config: EngineConfig,
    cookie_secret: Seq<u8>,
    session_id: SessionId,
    now: Instant,
    now_ms: u64,
    salts: Seq<Option<Seq<u8>>>,
    count: nat,
)
    ensures
        server_model::renewed(
            session,
            config,
            cookie_secret,
            session_id,
            now,
            now_ms,
            salts,
            count,
        ).1 matches Err(error) ==> error == EngineError::RandomnessUnavailable
            || error is Record,
    decreases count,
{
    if count > 0 {
        lemma_renewal_errors(
            session,
            config,
            cookie_secret,
            session_id,
            now,
            now_ms,
            salts,
            (count - 1) as nat,
        );
    }
}

/// Whether no conversation of a session needs a fresh credential.
pub open spec fn none_due(m: ServerModel, session_id: SessionId, now: Instant) -> bool {
    table::lookup(m.sessions, session_id) matches Some(session) && forall|i: int|
        0 <= i < session.conversations.len() ==> !server_model::credential_due(
            (#[trigger] session.conversations[i]).1,
            m.config,
            now,
        )
}

/// Where no credential is due, none is handed out.
proof fn lemma_nothing_renewed(
    session: ServerSessionModel,
    config: EngineConfig,
    cookie_secret: Seq<u8>,
    session_id: SessionId,
    now: Instant,
    now_ms: u64,
    salts: Seq<Option<Seq<u8>>>,
    count: nat,
)
    requires
        count <= session.conversations.len(),
        forall|i: int|
            0 <= i < session.conversations.len() ==> !server_model::credential_due(
                (#[trigger] session.conversations[i]).1,
                config,
                now,
            ),
    ensures
        server_model::renewed(
            session,
            config,
            cookie_secret,
            session_id,
            now,
            now_ms,
            salts,
            count,
        ) == (session, Ok::<Seq<ActionModel>, EngineError>(Seq::empty())),
    decreases count,
{
    if count > 0 {
        lemma_nothing_renewed(
            session,
            config,
            cookie_secret,
            session_id,
            now,
            now_ms,
            salts,
            (count - 1) as nat,
        );
        assert(!server_model::credential_due(
            session.conversations[count - 1].1,
            config,
            now,
        ));
    }
}

/// A datagram that comes back from the upstream of a conversation arrives: the
/// client hands its payload to the local peer of that conversation.
pub proof fn law_replies_reach_the_local_peer(
    c: ClientModel,
    m: ServerModel,
    session_id: SessionId,
    conversation_id: ConversationId,
    payload: Seq<u8>,
    times: (Instant, Instant),
    server_draws: ServerDraws,
    client_draws: ClientDraws,
)
    requires
        c.state == SessionState::Ready,
        c.session is Some,
        table::holds(c.by_id, conversation_id),
        m.config.max_frame_payload <= MAX_FRAME_PAYLOAD,
        table::lookup(m.sessions, session_id) matches Some(far) && record::pairs(
            far.sealer,
            c.session->Some_0.opener,
        ) && replay::admission(
            c.session->Some_0.opener.replay,
            far.sealer.next_packet_number,
        ) is Ok && delivers(far.sealer, FrameType::Data, Some(conversation_id), payload),
        server_model::server_step(
            m,
            EventModel::ServerDatagram { session_id, conversation_id, payload },
            times.0,
            server_draws,
        ).1 is Ok,
    ensures
        ({
            let sent = server_model::server_step(
                m,
                EventModel::ServerDatagram { session_id, conversation_id, payload },
                times.0,
                server_draws,
            );
            let bytes = sent.1->Ok_0[0]->SendTunnelFrame_bytes;
            let received = client_model::client_step(
                c,
                EventModel::TunnelFrame { peer_id: c.server_peer, bytes },
                times.1,
                client_draws,
            );
            received.1 == Ok::<Seq<ActionModel>, EngineError>(
                seq![
                    ActionModel::DeliverToClient {
                        local_peer: table::lookup(c.by_id, conversation_id)->Some_0,
                        payload,
                    },
                ],
            )
        }),
{
    let far = table::lookup(m.sessions, session_id)->Some_0;
    lemma_sealed_type(
        far.sealer,
        FrameType::Data,
        Some(conversation_id),
        payload,
        c.session->Some_0.opener,
    );
}

} // verus!
