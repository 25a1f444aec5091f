//! What a client does while it shakes hands: what it sends, when it sends it again, when
//! it gives up, and what becomes of the datagrams that wait.

use vstd::prelude::*;

use crate::action::{ActionModel, ClientDatagramDropReason, EventModel, SessionState};
use crate::address::SocketAddress;
use crate::client_laws;
use crate::client_model;
use crate::client_model::{AttemptModel, ClientDraws, ClientModel, PhaseModel, QueuedModel};
use crate::crypto;
use crate::crypto::Direction;
use crate::error::EngineError;
use crate::handshake;
use crate::handshake::HelloModel;
use crate::id::SessionId;
use crate::liveness_laws::passed;
use crate::protocol;
use crate::protocol::FrameType;
use crate::replay;
use crate::table;
use crate::time;
use crate::time::Instant;

verus! {

/// The frames that go to the transport, in their order.
pub open spec fn frames(actions: Seq<ActionModel>) -> Seq<Seq<u8>>
    decreases actions.len(),
{
    if actions.len() == 0 {
        Seq::empty()
    } else {
        let earlier = frames(actions.drop_last());
        match actions.last() {
            ActionModel::SendTunnelFrame { peer_id, bytes } => earlier.push(bytes),
            _ => earlier,
        }
    }
}

/// The datagrams whose loss is reported, in their order: whose they were and why.
pub open spec fn losses(actions: Seq<ActionModel>) -> Seq<
    (SocketAddress, ClientDatagramDropReason),
>
    decreases actions.len(),
{
    if actions.len() == 0 {
        Seq::empty()
    } else {
        let earlier = losses(actions.drop_last());
        match actions.last() {
            ActionModel::ClientDatagramDropped { local_peer, reason } => earlier.push(
                (local_peer, reason),
            ),
            _ => earlier,
        }
    }
}

/// The report on datagrams that are lost for one reason.
pub open spec fn lost_for(queue: Seq<QueuedModel>, reason: ClientDatagramDropReason) -> Seq<
    (SocketAddress, ClientDatagramDropReason),
> {
    queue.map_values(|queued: QueuedModel| (queued.local_peer, reason))
}

proof fn lemma_join(a: Seq<ActionModel>, b: Seq<ActionModel>)
    ensures
        frames(a + b) == frames(a) + frames(b),
        losses(a + b) == losses(a) + losses(b),
    decreases b.len(),
{
    if b.len() == 0 {
        assert(a + b =~= a);
        assert(frames(a) + frames(b) =~= frames(a));
        assert(losses(a) + losses(b) =~= losses(a));
    } else {
        lemma_join(a, b.drop_last());
        assert((a + b).drop_last() =~= a + b.drop_last());
        assert(frames(a + b) =~= frames(a) + frames(b));
        assert(losses(a + b) =~= losses(a) + losses(b));
    }
}

proof fn lemma_neither(actions: Seq<ActionModel>)
    requires
        forall|i: int|
            0 <= i < actions.len() ==> !((#[trigger] actions[i]) is SendTunnelFrame) && !(
            actions[i] is ClientDatagramDropped),
    ensures
        frames(actions) == Seq::<Seq<u8>>::empty(),
        losses(actions) == Seq::<(SocketAddress, ClientDatagramDropReason)>::empty(),
    decreases actions.len(),
{
    if actions.len() > 0 {
        let earlier = actions.drop_last();
        assert forall|i: int| 0 <= i < earlier.len() implies !((
        #[trigger] earlier[i]) is SendTunnelFrame) && !(earlier[i] is ClientDatagramDropped) by {
            assert(earlier[i] == actions[i]);
        }
        lemma_neither(earlier);
        assert(!(actions[actions.len() - 1] is SendTunnelFrame));
    }
}

proof fn lemma_drop_notices(queue: Seq<QueuedModel>, reason: ClientDatagramDropReason)
    ensures
        frames(client_model::drop_notices(queue, reason)) == Seq::<Seq<u8>>::empty(),
        losses(client_model::drop_notices(queue, reason)) == lost_for(queue, reason),
    decreases queue.len(),
{
    let notices = client_model::drop_notices(queue, reason);
    if queue.len() > 0 {
        let earlier = queue.drop_last();
        lemma_drop_notices(earlier, reason);
        assert(notices.drop_last() =~= client_model::drop_notices(earlier, reason));
        assert(notices.last() == (ActionModel::ClientDatagramDropped {
            local_peer: queue.last().local_peer,
            reason,
        }));
        assert(lost_for(queue, reason) =~= lost_for(earlier, reason).push(
            (queue.last().local_peer, reason),
        ));
    } else {
        assert(lost_for(queue, reason) =~= Seq::empty());
    }
}

/// The message of a handshake that waits for an answer: the hello, or the finish.
pub open spec fn message_of(attempt: AttemptModel) -> Seq<u8> {
    match attempt.phase {
        PhaseModel::AwaitingServerHello => protocol::encoded(
            handshake::hello_frame(attempt.hello),
        )->Ok_0,
        PhaseModel::AwaitingServerAck { answer, finish_bytes } => finish_bytes,
    }
}

/// Whether a handshake is given up at an instant: it has taken the handshake timeout, or
/// the last of its permitted messages has gone unanswered for the retry interval.
pub open spec fn hopeless(m: ClientModel, at: Instant) -> bool {
    m.handshake matches Some(attempt) && (passed(
        at,
        attempt.started_at,
        m.config.handshake_timeout,
    ) || (attempt.attempts >= m.config.handshake_max_attempts && passed(
        at,
        attempt.last_sent_at,
        m.config.handshake_retry_interval,
    )))
}

/// The parts of what time tells a client.
proof fn lemma_time_parts(m: ClientModel, at: Instant)
    requires
        client_model::client_valid(m),
    ensures
        ({
            let first = if client_model::in_handshake(m.state) {
                client_model::expire_handshake(m, at)
            } else {
                (m, Seq::empty())
            };
            let second = client_model::expire_queue(first.0, at);
            let actions = client_model::expire(m, at).1;
            &&& frames(actions) == frames(first.1) + frames(second.1)
            &&& losses(actions) == losses(first.1) + losses(second.1)
            &&& client_model::expire(m, at).0 == client_model::expire_conversations(second.0, at).0
            &&& frames(second.1) == Seq::<Seq<u8>>::empty()
            &&& losses(second.1) == lost_for(
                first.0.queue.take(first.0.queue.len() - second.0.queue.len()),
                ClientDatagramDropReason::ReconnectQueueExpired,
            )
            &&& second.0.queue.len() <= first.0.queue.len()
            &&& second.0.queue == first.0.queue.skip(
                first.0.queue.len() - second.0.queue.len(),
            )
        }),
{
    let first = if client_model::in_handshake(m.state) {
        client_model::expire_handshake(m, at)
    } else {
        (m, Seq::empty())
    };
    let second = client_model::expire_queue(first.0, at);
    let third = client_model::expire_conversations(second.0, at);
    lemma_join(first.1, second.1);
    lemma_join(first.1 + second.1, third.1);
    lemma_neither(third.1);
    assert(frames(first.1) + frames(second.1) + frames(third.1) =~= frames(first.1) + frames(
        second.1,
    ));
    assert(losses(first.1) + losses(second.1) + losses(third.1) =~= losses(first.1) + losses(
        second.1,
    ));
    client_laws::lemma_overdue_count(
        first.0.queue,
        at,
        first.0.config.reconnect_queue_timeout,
    );
    let count = client_model::overdue_count(
        first.0.queue,
        at,
        first.0.config.reconnect_queue_timeout,
    ) as int;
    let notices = client_model::drop_notices(
        first.0.queue.take(count),
        ClientDatagramDropReason::ReconnectQueueExpired,
    );
    lemma_drop_notices(
        first.0.queue.take(count),
        ClientDatagramDropReason::ReconnectQueueExpired,
    );
    let timer = ActionModel::ScheduleTimer(first.0.config.reconnect_queue_timeout);
    assert(notices.push(timer).drop_last() =~= notices);
    assert(second.0.queue.len() == first.0.queue.len() - count);
}

/// What time does to a handshake. A hopeless one is given up: the client is closed, and
/// every datagram that waits is reported lost. Else the message that waits for an answer
/// is sent again, exactly when the retry interval has passed since it was last sent.
pub proof fn law_unanswered_handshakes_are_repeated(
    m: ClientModel,
    at: Instant,
    now: Instant,
    draws: ClientDraws,
)
    requires
        client_model::client_valid(m),
        client_model::in_handshake(m.state),
    ensures
        ({
            let step = client_model::client_step(m, EventModel::TimeAdvanced(at), now, draws);
            let actions = step.1->Ok_0;
            let attempt = m.handshake->Some_0;
            &&& step.1 is Ok
            &&& if hopeless(m, at) {
                &&& step.0.state == SessionState::Closed
                &&& step.0.handshake is None
                &&& step.0.session is None
                &&& step.0.queue.len() == 0
                &&& frames(actions).len() == 0
                &&& losses(actions) == lost_for(m.queue, ClientDatagramDropReason::SessionClosed)
                &&& m.session matches Some(session) ==> actions.contains(
                    ActionModel::SessionClosed {
                        peer_id: m.server_peer,
                        session_id: session.id,
                    },
                )
            } else if passed(at, attempt.last_sent_at, m.config.handshake_retry_interval) {
                &&& step.0.state == m.state
                &&& step.0.session == m.session
                &&& frames(actions) == seq![message_of(attempt)]
                &&& actions.contains(ActionModel::ScheduleTimer(m.config.handshake_retry_interval))
                &&& step.0.handshake matches Some(later) && later.hello == attempt.hello
                    && later.phase == attempt.phase && later.started_at == attempt.started_at
                    && later.last_sent_at == at && (attempt.attempts < usize::MAX
                    ==> later.attempts == attempt.attempts + 1)
            } else {
                &&& step.0.state == m.state
                &&& step.0.session == m.session
                &&& step.0.handshake == m.handshake
                &&& frames(actions).len() == 0
            }
        }),
{
    lemma_time_parts(m, at);
    let attempt = m.handshake->Some_0;
    let first = client_model::expire_handshake(m, at);
    let second = client_model::expire_queue(first.0, at);
    handshake::law_hello_round_trip(attempt.hello);
    if hopeless(m, at) {
        let notices = client_model::drop_notices(
            m.queue,
            ClientDatagramDropReason::SessionClosed,
        );
        lemma_drop_notices(m.queue, ClientDatagramDropReason::SessionClosed);
        assert(first.1 == notices || first.1.drop_last() =~= notices);
        if m.session is Some {
            let p = first.1.len() - 1;
            assert(client_model::expire(m, at).1[p] == first.1[p]);
        }
        assert(first.0.queue.take(0) =~= Seq::empty());
        assert(lost_for(
            Seq::empty(),
            ClientDatagramDropReason::ReconnectQueueExpired,
        ) =~= Seq::empty());
        assert(losses(first.1) + losses(second.1) =~= losses(first.1));
    } else if passed(at, attempt.last_sent_at, m.config.handshake_retry_interval) {
        lemma_handshake_frames(m, message_of(attempt));
        assert(client_model::expire(m, at).1[1] == first.1[1]);
        assert(frames(first.1) + frames(second.1) =~= frames(first.1));
    } else {
        assert(frames(first.1) + frames(second.1) =~= Seq::empty());
    }
}

proof fn lemma_handshake_frames(m: ClientModel, bytes: Seq<u8>)
    ensures
        frames(client_model::handshake_actions(m, bytes)) == seq![bytes],
        losses(client_model::handshake_actions(m, bytes)).len() == 0,
{
    let actions = client_model::handshake_actions(m, bytes);
    reveal_with_fuel(frames, 3);
    reveal_with_fuel(losses, 3);
    assert(actions.drop_last().drop_last() =~= Seq::empty());
    assert(actions.drop_last().last() == actions[0]);
    assert(frames(actions) =~= seq![bytes]);
}

/// What time does to datagrams that wait for a handshake that goes on: those at the
/// front that have waited for the queue timeout are reported lost one by one, and those
/// behind the first that has not stay as they are.
pub proof fn law_waiting_datagrams_expire(
    m: ClientModel,
    at: Instant,
    now: Instant,
    draws: ClientDraws,
)
    requires
        client_model::client_valid(m),
        client_model::in_handshake(m.state),
        !hopeless(m, at),
    ensures
        ({
            let step = client_model::client_step(m, EventModel::TimeAdvanced(at), now, draws);
            let count = m.queue.len() - step.0.queue.len();
            &&& step.1 is Ok
            &&& 0 <= count <= m.queue.len()
            &&& step.0.queue == m.queue.skip(count)
            &&& forall|i: int|
                0 <= i < count ==> passed(
                    at,
                    (#[trigger] m.queue[i]).queued_at,
                    m.config.reconnect_queue_timeout,
                )
            &&& count < m.queue.len() ==> !passed(
                at,
                m.queue[count].queued_at,
                m.config.reconnect_queue_timeout,
            )
            &&& losses(step.1->Ok_0) == lost_for(
                m.queue.take(count),
                ClientDatagramDropReason::ReconnectQueueExpired,
            )
            &&& count < m.queue.len() ==> step.1->Ok_0.contains(
                ActionModel::ScheduleTimer(m.config.reconnect_queue_timeout),
            )
        }),
{
    lemma_time_parts(m, at);
    let attempt = m.handshake->Some_0;
    let first = client_model::expire_handshake(m, at);
    let second = client_model::expire_queue(first.0, at);
    handshake::law_hello_round_trip(attempt.hello);
    lemma_handshake_frames(m, message_of(attempt));
    client_laws::law_queued_datagrams_expire_in_order(m, at);
    client_laws::law_queued_datagrams_expire_in_order(first.0, at);
    assert(losses(first.1) + losses(second.1) =~= losses(second.1));
    let count = m.queue.len() - second.0.queue.len();
    assert forall|i: int| 0 <= i < count implies passed(
        at,
        (#[trigger] m.queue[i]).queued_at,
        m.config.reconnect_queue_timeout,
    ) by {
        assert(time::elapsed(at, m.queue[i].queued_at)
            >= m.config.reconnect_queue_timeout.length());
    }
    if count < m.queue.len() {
        assert(second.0.queue[0] == m.queue[count]);
        let p = second.1.len() - 1;
        assert(second.1[p] == ActionModel::ScheduleTimer(m.config.reconnect_queue_timeout));
        assert(client_model::expire(m, at).1[first.1.len() + p] == second.1[p]);
    }
}

/// A datagram that comes while the client shakes hands waits behind the others, as long
/// as fewer wait than the queue takes; else its loss is reported. Nothing is sent, and
/// the handshake goes on as it was.
pub proof fn law_datagrams_wait_in_order(
    m: ClientModel,
    local_peer: SocketAddress,
    payload: Seq<u8>,
    now: Instant,
    draws: ClientDraws,
)
    requires
        client_model::in_handshake(m.state),
        payload.len() <= m.config.max_frame_payload,
    ensures
        ({
            let step = client_model::client_step(
                m,
                EventModel::ClientDatagram { local_peer, payload },
                now,
                draws,
            );
            let waits = m.queue.len() < m.config.reconnect_queue_capacity;
            &&& step.0 == (ClientModel { queue: step.0.queue, ..m })
            &&& step.0.queue == if waits {
                m.queue.push(QueuedModel { local_peer, payload, queued_at: now })
            } else {
                m.queue
            }
            &&& step.1 == Ok::<Seq<ActionModel>, EngineError>(
                seq![
                    if waits {
                        ActionModel::ScheduleTimer(m.config.reconnect_queue_timeout)
                    } else {
                        ActionModel::ClientDatagramDropped {
                            local_peer,
                            reason: ClientDatagramDropReason::ReconnectQueueFull,
                        }
                    },
                ],
            )
        }),
{
}

/// Whether every conversation of a client holds a credential of one session.
pub open spec fn all_credited(m: ClientModel, session_id: SessionId) -> bool {
    forall|peer: SocketAddress| #[trigger]
        table::holds(m.by_peer, peer) ==> (table::lookup(
            m.by_peer,
            peer,
        )->Some_0.resumption matches Some(held) && held.0 == session_id)
}

/// A client that reconnects closes its session and sends one frame, a fresh hello. Where
/// it has conversations and all of them hold a credential of one session, the hello
/// offers the credential of one of them; else it offers none.
pub proof fn law_reconnecting_clients_offer_a_credential(
    m: ClientModel,
    now: Instant,
    draws: ClientDraws,
    session_id: SessionId,
)
    requires
        client_model::client_valid(m),
        client_model::draws_valid(draws),
        draws.hello is Some,
        m.state == SessionState::Ready,
    ensures
        ({
            let step = client_model::client_step(m, EventModel::Reconnect, now, draws);
            let hello = step.0.handshake->Some_0.hello;
            &&& step.0.state == SessionState::Reconnecting
            &&& step.0.session is None
            &&& step.0.by_peer == m.by_peer
            &&& step.0.handshake matches Some(attempt) && attempt.started_at == now
                && attempt.last_sent_at == now && attempt.attempts == 1
                && attempt.phase is AwaitingServerHello
            &&& step.1 matches Ok(actions) && actions[0] == (ActionModel::SessionClosed {
                peer_id: m.server_peer,
                session_id: m.session->Some_0.id,
            }) && frames(actions) == seq![message_of(step.0.handshake->Some_0)]
            &&& hello.handshake_id == draws.hello->Some_0.0
            &&& hello.client_nonce == draws.hello->Some_0.1
            &&& hello.suite == m.config.cipher_suite
            &&& hello.cookie is None
            &&& m.by_peer.len() > 0 && all_credited(m, session_id) ==> hello.resumption is Some
            &&& hello.resumption matches Some(credential) ==> exists|
                peer: SocketAddress,
                id: SessionId,
            |
                #![trigger table::lookup(m.by_peer, peer), all_credited(m, id)]
                all_credited(m, id) && (table::lookup(m.by_peer, peer) matches Some(conversation)
                    && conversation.resumption == Some((id, credential)))
        }),
{
    let step = client_model::client_step(m, EventModel::Reconnect, now, draws);
    let hello = HelloModel {
        handshake_id: draws.hello->Some_0.0,
        client_nonce: draws.hello->Some_0.1,
        suite: m.config.cipher_suite,
        cookie: None,
        resumption: client_model::resumption_offer(m.by_peer),
    };
    if m.by_peer.len() > 0 {
        let first = m.by_peer[0];
        table::lemma_unique_lookup(m.by_peer, 0);
        assert(first.1.resumption matches Some(held) ==> held.1.len()
            == handshake::CREDENTIAL_LENGTH);
        if all_credited(m, session_id) {
            assert(table::holds(m.by_peer, first.0));
            assert forall|i: int| 0 <= i < m.by_peer.len() implies ((
            #[trigger] m.by_peer[i]).1.resumption matches Some(held) && held.0 == session_id) by {
                table::lemma_unique_lookup(m.by_peer, i);
                assert(table::holds(m.by_peer, m.by_peer[i].0));
            }
        }
        if hello.resumption is Some {
            let id = first.1.resumption->Some_0.0;
            assert(all_credited(m, id)) by {
                assert forall|peer: SocketAddress| #[trigger]
                    table::holds(m.by_peer, peer) implies (table::lookup(
                    m.by_peer,
                    peer,
                )->Some_0.resumption matches Some(held) && held.0 == id) by {
                    table::lemma_position(m.by_peer, peer);
                    let p = table::position(m.by_peer, peer);
                    assert(m.by_peer[p].1.resumption matches Some(held) && held.0 == id);
                }
            }
            assert(table::lookup(m.by_peer, first.0) == Some(first.1));
        }
    }
    handshake::law_hello_round_trip(hello);
    let actions = step.1->Ok_0;
    reveal_with_fuel(frames, 4);
    assert(actions.drop_last().drop_last().drop_last() =~= Seq::empty());
    assert(actions.drop_last().last() == actions[1]);
    assert(actions.drop_last().drop_last().last() == actions[0]);
    assert(frames(actions) =~= seq![message_of(step.0.handshake->Some_0)]);
}

/// A client that starts sends one frame, a fresh hello that offers no credential.
pub proof fn law_starting_clients_send_a_hello(m: ClientModel, now: Instant, draws: ClientDraws)
    requires
        client_model::client_valid(m),
        client_model::draws_valid(draws),
    ensures
        ({
            let step = client_model::client_step(m, EventModel::Start, now, draws);
            if m.state != SessionState::Idle {
                step.0 == m && step.1 == Err::<Seq<ActionModel>, EngineError>(
                    EngineError::SessionNotReady,
                )
            } else if draws.hello is None {
                step.0 == m && step.1 == Err::<Seq<ActionModel>, EngineError>(
                    EngineError::RandomnessUnavailable,
                )
            } else {
                let attempt = step.0.handshake->Some_0;
                &&& step.0.state == SessionState::Handshaking
                &&& step.0.handshake is Some
                &&& attempt.started_at == now && attempt.last_sent_at == now && attempt.attempts
                    == 1 && attempt.phase is AwaitingServerHello
                &&& attempt.hello == (HelloModel {
                    handshake_id: draws.hello->Some_0.0,
                    client_nonce: draws.hello->Some_0.1,
                    suite: m.config.cipher_suite,
                    cookie: None,
                    resumption: None,
                })
                &&& step.1 == Ok::<Seq<ActionModel>, EngineError>(
                    seq![
                        ActionModel::SendTunnelFrame {
                            peer_id: m.server_peer,
                            bytes: message_of(attempt),
                        },
                        ActionModel::ScheduleTimer(m.config.handshake_retry_interval),
                    ],
                )
            }
        }),
{
    if draws.hello is Some {
        let hello = HelloModel {
            handshake_id: draws.hello->Some_0.0,
            client_nonce: draws.hello->Some_0.1,
            suite: m.config.cipher_suite,
            cookie: None,
            resumption: None,
        };
        handshake::law_hello_round_trip(hello);
    }
}

/// A client whose server asks for the hello again sends it again with the cookie, and
/// with nothing else changed; its handshake goes on as it was.
pub proof fn law_hellos_are_sent_again_with_the_cookie(
    m: ClientModel,
    bytes: Seq<u8>,
    now: Instant,
    draws: ClientDraws,
)
    requires
        client_model::client_valid(m),
        client_model::in_handshake(m.state),
        m.handshake->Some_0.phase is AwaitingServerHello,
        protocol::decoded(bytes) matches Ok(frame) && frame.frame_type == FrameType::HelloRetry,
        client_model::client_step(
            m,
            EventModel::TunnelFrame { peer_id: m.server_peer, bytes },
            now,
            draws,
        ).1 is Ok,
    ensures
        ({
            let step = client_model::client_step(
                m,
                EventModel::TunnelFrame { peer_id: m.server_peer, bytes },
                now,
                draws,
            );
            let before = m.handshake->Some_0;
            let after = step.0.handshake->Some_0;
            let retry = handshake::retry_of_frame(protocol::decoded(bytes)->Ok_0)->Ok_0;
            &&& step.0 == (ClientModel { handshake: step.0.handshake, ..m })
            &&& step.0.handshake is Some
            &&& after.hello == (HelloModel { cookie: Some(retry.cookie), ..before.hello })
            &&& after.phase is AwaitingServerHello && after.started_at == before.started_at
                && after.last_sent_at == now
            &&& before.attempts < usize::MAX ==> after.attempts == before.attempts + 1
            &&& step.1->Ok_0 == seq![
                ActionModel::SendTunnelFrame {
                    peer_id: m.server_peer,
                    bytes: message_of(after),
                },
                ActionModel::ScheduleTimer(m.config.handshake_retry_interval),
            ]
        }),
{
}

/// What a client refuses, it refuses without a change: a datagram that is too long in any
/// state, any datagram and any request to reconnect where there is no session and none is
/// under way, and what is for a server.
pub proof fn law_refusals_change_nothing(
    m: ClientModel,
    event: EventModel,
    now: Instant,
    draws: ClientDraws,
)
    ensures
        ({
            let step = client_model::client_step(m, event, now, draws);
            match event {
                EventModel::ClientDatagram { local_peer, payload } => {
                    &&& payload.len() > m.config.max_frame_payload ==> step == (
                        m,
                        Err::<Seq<ActionModel>, EngineError>(EngineError::PayloadTooLarge),
                    )
                    &&& payload.len() <= m.config.max_frame_payload && (m.state
                        == SessionState::Idle || m.state == SessionState::Closed) ==> step == (
                        m,
                        Err::<Seq<ActionModel>, EngineError>(EngineError::SessionNotReady),
                    )
                },
                EventModel::Reconnect => m.state != SessionState::Ready ==> step == (
                    m,
                    Err::<Seq<ActionModel>, EngineError>(EngineError::SessionNotReady),
                ),
                EventModel::ServerDatagram { session_id, conversation_id, payload } => step == (
                    m,
                    Err::<Seq<ActionModel>, EngineError>(EngineError::InvalidRole),
                ),
                EventModel::TunnelFrame { peer_id, bytes } => peer_id != m.server_peer ==> step
                    == (m, Err::<Seq<ActionModel>, EngineError>(EngineError::UnexpectedPeer)),
                _ => true,
            }
        }),
{
}

/// A datagram on a silent session does what a request to reconnect does, and then waits:
/// the same hello goes out, with the same credential on offer.
pub proof fn law_silent_sessions_reconnect(
    m: ClientModel,
    local_peer: SocketAddress,
    payload: Seq<u8>,
    now: Instant,
    draws: ClientDraws,
)
    requires
        client_model::client_valid(m),
        client_model::draws_valid(draws),
        draws.hello is Some,
        m.state == SessionState::Ready,
        now.nanos > m.session->Some_0.last_received_at.nanos + m.config.session_timeout.length(),
        payload.len() <= m.config.max_frame_payload,
    ensures
        ({
            let asked = client_model::client_step(m, EventModel::Reconnect, now, draws);
            let step = client_model::client_step(
                m,
                EventModel::ClientDatagram { local_peer, payload },
                now,
                draws,
            );
            &&& step.0 == (ClientModel {
                queue: seq![QueuedModel { local_peer, payload, queued_at: now }],
                ..asked.0
            })
            &&& step.1 == Ok::<Seq<ActionModel>, EngineError>(
                asked.1->Ok_0.push(ActionModel::ScheduleTimer(m.config.reconnect_queue_timeout)),
            )
        }),
{
    client_laws::law_stale_sessions_are_replaced(m, local_peer, payload, now, draws);
    let asked = client_model::client_step(m, EventModel::Reconnect, now, draws);
    let step = client_model::client_step(
        m,
        EventModel::ClientDatagram { local_peer, payload },
        now,
        draws,
    );
    assert(step.1->Ok_0 =~= asked.1->Ok_0.push(
        ActionModel::ScheduleTimer(m.config.reconnect_queue_timeout),
    ));
}

/// A retry that answers the hello and carries the right tag is followed, whether or not
/// the hello brought a cookie before.
pub proof fn law_authentic_retries_are_followed(
    m: ClientModel,
    bytes: Seq<u8>,
    now: Instant,
    draws: ClientDraws,
)
    requires
        client_model::client_valid(m),
        client_model::in_handshake(m.state),
        m.handshake->Some_0.phase is AwaitingServerHello,
        protocol::decoded(bytes) matches Ok(frame) && frame.frame_type == FrameType::HelloRetry
            && (handshake::retry_of_frame(frame) matches Ok(retry) && retry.cookie.len()
            == handshake::COOKIE_LENGTH && retry.handshake_id
            == m.handshake->Some_0.hello.handshake_id && retry.auth_tag == handshake::retry_tag(
            m.psk,
            m.handshake->Some_0.hello,
            retry.cookie,
        )),
    ensures
        client_model::client_step(
            m,
            EventModel::TunnelFrame { peer_id: m.server_peer, bytes },
            now,
            draws,
        ).1 is Ok,
{
    let attempt = m.handshake->Some_0;
    let retry = handshake::retry_of_frame(protocol::decoded(bytes)->Ok_0)->Ok_0;
    handshake::law_hello_round_trip(HelloModel { cookie: Some(retry.cookie), ..attempt.hello });
}

/// An authentic answer to the hello is finished: the client sends the one finish for it,
/// and the session that the server named waits for its confirmation, with keys made from
/// the whole handshake. The same answer once more gets the same finish once more, and any
/// other one is refused.
pub proof fn law_answers_are_finished(
    m: ClientModel,
    bytes: Seq<u8>,
    now: Instant,
    draws: ClientDraws,
)
    requires
        client_model::client_valid(m),
        client_model::in_handshake(m.state),
        protocol::decoded(bytes) matches Ok(frame) && frame.frame_type == FrameType::ServerHello
            && (handshake::answer_of_frame(frame) matches Ok(answer) && answer.handshake_id
            == m.handshake->Some_0.hello.handshake_id && answer.client_nonce
            == m.handshake->Some_0.hello.client_nonce && answer.suite
            == m.handshake->Some_0.hello.suite && answer.auth_tag == handshake::answer_tag(
            m.psk,
            m.handshake->Some_0.hello,
            frame.session_id,
            answer,
        )),
    ensures
        ({
            let frame = protocol::decoded(bytes)->Ok_0;
            let answer = handshake::answer_of_frame(frame)->Ok_0;
            let before = m.handshake->Some_0;
            let step = client_model::client_step(
                m,
                EventModel::TunnelFrame { peer_id: m.server_peer, bytes },
                now,
                draws,
            );
            let finish = protocol::encoded(
                handshake::finish_frame(
                    handshake::finish_for(m.psk, before.hello, frame.session_id, answer),
                    frame.session_id,
                ),
            );
            match before.phase {
                PhaseModel::AwaitingServerHello => {
                    &&& step.1 is Ok == finish is Ok
                    &&& step.1 matches Ok(actions) ==> {
                        let after = step.0.handshake->Some_0;
                        let session = step.0.session->Some_0;
                        let source = handshake::session_key_source(
                            m.psk,
                            before.hello,
                            frame.session_id,
                            answer,
                        );
                        &&& frames(actions) == seq![finish->Ok_0]
                        &&& step.0 == (ClientModel {
                            handshake: step.0.handshake,
                            session: step.0.session,
                            ..m
                        })
                        &&& step.0.handshake is Some && step.0.session is Some
                        &&& after.phase == (PhaseModel::AwaitingServerAck {
                            answer,
                            finish_bytes: finish->Ok_0,
                        })
                        &&& after.hello == before.hello && after.started_at == before.started_at
                            && after.last_sent_at == now
                        &&& before.attempts < usize::MAX ==> after.attempts == before.attempts + 1
                        &&& session.id == frame.session_id && session.resumed == answer.resumed
                        &&& session.sealer.next_packet_number == 0
                        &&& session.sealer.keys == crypto::direction_keys(
                            source,
                            Direction::ClientToServer,
                        )
                        &&& session.opener.keys == crypto::direction_keys(
                            source,
                            Direction::ServerToClient,
                        )
                        &&& session.opener.replay == replay::fresh_window(
                            m.config.replay_window_size as nat,
                        )
                    }
                },
                PhaseModel::AwaitingServerAck { answer: expected, finish_bytes } => {
                    let same = handshake::answer_payload(expected) == handshake::answer_payload(
                        answer,
                    ) && (m.session matches Some(session) && session.id == frame.session_id);
                    &&& step.1 is Ok == same
                    &&& step.1 matches Ok(actions) ==> frames(actions) == seq![finish_bytes]
                        && step.0.session == m.session && step.0.state == m.state
                    &&& step.1 is Err ==> step.0 == m
                },
            }
        }),
{
    let frame = protocol::decoded(bytes)->Ok_0;
    let answer = handshake::answer_of_frame(frame)->Ok_0;
    let before = m.handshake->Some_0;
    let finish = protocol::encoded(
        handshake::finish_frame(
            handshake::finish_for(m.psk, before.hello, frame.session_id, answer),
            frame.session_id,
        ),
    );
    if finish is Ok {
        lemma_handshake_frames(m, finish->Ok_0);
    }
    match before.phase {
        PhaseModel::AwaitingServerAck { answer: expected, finish_bytes } => {
            lemma_handshake_frames(m, finish_bytes);
        },
        _ => {},
    }
}

} // verus!
