//! What a server does with each message of a handshake, and how long it honours what it
//! gave out.

use vstd::prelude::*;

use crate::action::{ActionModel, EventModel, SessionState};
use crate::activity_laws::{conversation_at, resumable_conversation};
use crate::bytes;
use crate::crypto;
use crate::crypto::Direction;
use crate::error::{EngineError, HandshakeError, RecordError};
use crate::handshake;
use crate::handshake::{HelloModel, RetryModel, COOKIE_LENGTH, CREDENTIAL_LENGTH};
use crate::id::{ConversationId, PeerId, SessionId};
use crate::protocol;
use crate::protocol::FrameType;
use crate::record;
use crate::record::SealerModel;
use crate::replay;
use crate::server_laws;
use crate::server_model;
use crate::server_model::{
    PendingModel, ServerConversationModel, ServerDraws, ServerModel, ServerSessionModel,
};
use crate::session_laws;
use crate::session_laws::{next_of, ServerInput};
use crate::table;
use crate::text;
use crate::time::{Duration, Instant};

verus! {

/// The hello that a datagram carries.
pub open spec fn hello_in(datagram: Seq<u8>) -> Option<HelloModel> {
    match protocol::decoded(datagram) {
        Ok(frame) => if frame.frame_type == FrameType::ClientHello {
            match handshake::hello_of_frame(frame) {
                Ok(hello) => Some(hello),
                Err(_) => None,
            }
        } else {
            None
        },
        Err(_) => None,
    }
}

/// How many pending handshakes a peer has.
pub open spec fn pending_count(pending: Seq<(SessionId, PendingModel)>, peer: PeerId) -> nat
    decreases pending.len(),
{
    if pending.len() == 0 {
        0
    } else {
        pending_count(pending.drop_first(), peer) + if pending[0].1.peer_id == peer {
            1nat
        } else {
            0
        }
    }
}

proof fn lemma_pending_count_of_last(
    pending: Seq<(SessionId, PendingModel)>,
    peer: PeerId,
)
    requires
        pending.len() > 0,
    ensures
        pending_count(pending, peer) == pending_count(pending.drop_last(), peer)
            + if pending.last().1.peer_id == peer {
            1nat
        } else {
            0
        },
    decreases pending.len(),
{
    let rest = pending.drop_first();
    if pending.len() == 1 {
        assert(rest =~= Seq::empty());
        assert(pending.drop_last() =~= Seq::empty());
    } else {
        lemma_pending_count_of_last(rest, peer);
        assert(rest.drop_last() =~= pending.drop_last().drop_first());
    }
}

proof fn lemma_pending_count(pending: Seq<(SessionId, PendingModel)>, peer: PeerId)
    ensures
        server_model::pending_of(pending, peer) == pending_count(pending, peer),
    decreases pending.len(),
{
    if pending.len() > 0 {
        lemma_pending_count(pending.drop_last(), peer);
        lemma_pending_count_of_last(pending, peer);
    }
}

/// Whether a hello of a peer waits for its finish already.
pub open spec fn waits_already(m: ServerModel, peer: PeerId, hello: HelloModel) -> bool {
    exists|i: int|
        0 <= i < m.pending.len() && (#[trigger] m.pending[i]).1.peer_id == peer
            && handshake::hello_payload(m.pending[i].1.hello) == handshake::hello_payload(hello)
}

/// Whether the server lets a hello through: it asks for no cookie, or the hello brings
/// one that it accepts.
pub open spec fn let_through(
    m: ServerModel,
    peer: PeerId,
    hello: HelloModel,
    now: Instant,
) -> bool {
    m.config.require_handshake_cookie ==> handshake::cookie_accepted(
        m.cookie_secret,
        hello,
        peer,
        server_model::clock_ms(m, now),
        m.config.handshake_cookie_lifetime,
    )
}

/// Whether a server holds a conversation that a credential lets a client resume: it is
/// open and a credential was issued for it, or it was kept when its session ended.
pub open spec fn can_be_resumed(
    m: ServerModel,
    session_id: SessionId,
    conversation_id: ConversationId,
) -> bool {
    resumable_conversation(m, session_id, conversation_id) matches Some(conversation) && (
    table::holds(m.sessions, session_id) ==> conversation.credential is Some)
}

/// A hello that is let through and is new opens a pending handshake and is answered, as
/// long as there is room for it among all pending handshakes and among those of its
/// peer. It takes a session over exactly where it brings a credential that is good for a
/// conversation which the server still holds, and no other pending handshake takes that
/// session over.
pub proof fn law_hellos_open_handshakes(
    m: ServerModel,
    peer_id: PeerId,
    datagram: Seq<u8>,
    now: Instant,
    draws: ServerDraws,
    old: SessionId,
    other: SessionId,
)
    requires
        server_model::server_valid(m),
        hello_in(datagram) matches Some(hello) && hello.suite == m.config.cipher_suite
            && let_through(m, peer_id, hello, now) && !waits_already(m, peer_id, hello),
        !(server_model::server_step(
            m,
            EventModel::TunnelFrame { peer_id, bytes: datagram },
            now,
            draws,
        ).1 matches Err(error) && error == EngineError::HandshakeRateLimited),
    ensures
        ({
            let hello = hello_in(datagram)->Some_0;
            let step = server_model::server_step(
                m,
                EventModel::TunnelFrame { peer_id, bytes: datagram },
                now,
                draws,
            );
            let drawn = draws.session_id matches Some(session_id) && session_id.number() != 0
                && !table::holds(m.pending, session_id) && !table::holds(m.sessions, session_id)
                && !table::holds(m.resumable, session_id);
            &&& step.0.sessions == m.sessions
            &&& step.0.resumable == m.resumable
            &&& if m.pending.len() >= m.config.max_pending_handshakes {
                step.0.pending == m.pending && step.1 == Err::<Seq<ActionModel>, EngineError>(
                    EngineError::PendingHandshakeCapacity,
                )
            } else if pending_count(m.pending, peer_id) >= m.config.max_pending_handshakes_per_peer {
                step.0.pending == m.pending && step.1 == Err::<Seq<ActionModel>, EngineError>(
                    EngineError::PerPeerPendingHandshakeCapacity,
                )
            } else if !drawn || draws.hello is None {
                step.0.pending == m.pending && step.1 == Err::<Seq<ActionModel>, EngineError>(
                    EngineError::RandomnessUnavailable,
                )
            } else {
                let session_id = draws.session_id->Some_0;
                let pending = table::lookup(step.0.pending, session_id)->Some_0;
                step.1 matches Ok(actions) ==> {
                    &&& table::holds(step.0.pending, session_id)
                    &&& pending.peer_id == peer_id && pending.created_at == now && pending.hello
                        == hello
                    &&& pending.answer == handshake::answer_to(
                        m.psk,
                        hello,
                        session_id,
                        pending.resume_from is Some,
                        draws.hello->Some_0.0,
                        draws.hello->Some_0.1,
                    )
                    &&& actions == seq![
                        ActionModel::SendTunnelFrame {
                            peer_id,
                            bytes: protocol::encoded(
                                handshake::answer_frame(pending.answer, session_id),
                            )->Ok_0,
                        },
                        ActionModel::ScheduleTimer(m.config.handshake_timeout),
                    ]
                    &&& other != session_id ==> table::lookup(step.0.pending, other)
                        == table::lookup(m.pending, other)
                    &&& (pending.resume_from == Some(old)) == {
                        &&& hello.resumption matches Some(credential)
                            && (handshake::credential_grant(
                            m.cookie_secret,
                            credential,
                            server_model::clock_ms(m, now),
                        ) matches Some(granted) && granted.0 == old && can_be_resumed(
                            m,
                            old,
                            granted.1,
                        ))
                        &&& forall|i: int|
                            0 <= i < m.pending.len() ==> (#[trigger] m.pending[i]).1.resume_from
                                != Some(old)
                    }
                }
            }
        }),
{
    let hello = hello_in(datagram)->Some_0;
    let frame = protocol::decoded(datagram)->Ok_0;
    let counted = server_model::attempt_counted(m, peer_id, now);
    let asked = if m.config.require_handshake_cookie {
        server_model::clocked(counted, now)
    } else {
        counted
    };
    server_laws::lemma_repeated_at_bounds(m.pending, peer_id, hello);
    let at = server_model::repeated_at(m.pending, peer_id, hello);
    if at < m.pending.len() {
        assert(m.pending[at].1.peer_id == peer_id);
    }
    lemma_pending_count(m.pending, peer_id);
    let step = server_model::server_step(
        m,
        EventModel::TunnelFrame { peer_id, bytes: datagram },
        now,
        draws,
    );
    assert(step == server_model::answer_hello(asked, peer_id, hello, now, draws));
    assert(server_model::clock_ms(asked, now) == server_model::clock_ms(m, now));
    let resume_from = server_model::resumed_by(asked, hello, server_model::clock_ms(m, now));
    lemma_resumed_by(m, asked, hello, server_model::clock_ms(m, now), old);
    if draws.session_id is Some && draws.hello is Some {
        let session_id = draws.session_id->Some_0;
        let answer = handshake::answer_to(
            m.psk,
            hello,
            session_id,
            resume_from is Some,
            draws.hello->Some_0.0,
            draws.hello->Some_0.1,
        );
        let added = PendingModel { peer_id, created_at: now, hello, answer, resume_from };
        table::lemma_put(m.pending, session_id, added, session_id);
        table::lemma_put(m.pending, session_id, added, other);
    }
}

proof fn lemma_resumed_by(
    m: ServerModel,
    asked: ServerModel,
    hello: HelloModel,
    now_ms: u64,
    old: SessionId,
)
    requires
        server_model::server_valid(m),
        asked == (ServerModel {
            buckets: asked.buckets,
            clock_origin: asked.clock_origin,
            ..m
        }),
    ensures
        (server_model::resumed_by(asked, hello, now_ms) == Some(old)) == {
            &&& hello.resumption matches Some(credential) && (handshake::credential_grant(
                m.cookie_secret,
                credential,
                now_ms,
            ) matches Some(granted) && granted.0 == old && can_be_resumed(m, old, granted.1))
            &&& forall|i: int|
                0 <= i < m.pending.len() ==> (#[trigger] m.pending[i]).1.resume_from != Some(old)
        },
{
    assert(server_model::told_apart(m, old));
}

/// A hello that is not let through opens nothing: it is answered with a cookie, made
/// now for that hello and that peer.
pub proof fn law_strangers_get_a_cookie(
    m: ServerModel,
    peer_id: PeerId,
    datagram: Seq<u8>,
    now: Instant,
    draws: ServerDraws,
)
    requires
        server_model::server_valid(m),
        hello_in(datagram) matches Some(hello) && hello.suite == m.config.cipher_suite
            && !let_through(m, peer_id, hello, now),
        server_model::server_step(
            m,
            EventModel::TunnelFrame { peer_id, bytes: datagram },
            now,
            draws,
        ).1 is Ok,
    ensures
        ({
            let hello = hello_in(datagram)->Some_0;
            let step = server_model::server_step(
                m,
                EventModel::TunnelFrame { peer_id, bytes: datagram },
                now,
                draws,
            );
            let cookie = handshake::cookie_for(
                m.cookie_secret,
                hello,
                peer_id,
                server_model::clock_ms(m, now),
            );
            let retry = RetryModel {
                handshake_id: hello.handshake_id,
                cookie,
                auth_tag: handshake::retry_tag(m.psk, hello, cookie),
            };
            &&& step.0.pending == m.pending && step.0.sessions == m.sessions && step.0.resumable
                == m.resumable
            &&& step.0.clock_origin == Some(
                match m.clock_origin {
                    Some(origin) => origin,
                    None => now,
                },
            )
            &&& step.1->Ok_0 == seq![
                ActionModel::SendTunnelFrame {
                    peer_id,
                    bytes: protocol::encoded(handshake::retry_frame(retry))->Ok_0,
                },
            ]
        }),
{
}

/// Once the clock of a server runs, it never starts again.
pub proof fn law_the_clock_runs_on(m: ServerModel, input: ServerInput)
    requires
        m.clock_origin is Some,
    ensures
        next_of(m, input).clock_origin == m.clock_origin,
{
    reveal(next_of);
}

/// The milliseconds between two readings of the clock tell the time between them, to
/// less than a millisecond.
proof fn lemma_clock(m: ServerModel, first: Instant, second: Instant)
    requires
        m.clock_origin matches Some(origin) && origin.nanos <= first.nanos <= second.nanos,
    ensures
        ({
            let a = server_model::clock_ms(m, first);
            let b = server_model::clock_ms(m, second);
            &&& a <= b
            &&& (b - a) * 1_000_000 < second.nanos - first.nanos + 1_000_000
            &&& (b - a) * 1_000_000 > second.nanos - first.nanos - 1_000_000
        }),
{
}

/// A cookie is good for its lifetime: a hello that brings back the cookie which was made
/// for it and for its peer is let through until then, and not after. The clock tells
/// milliseconds, so nothing is said of less than one around the end.
pub proof fn law_cookies_last(
    m: ServerModel,
    peer_id: PeerId,
    hello: HelloModel,
    issued: Instant,
    now: Instant,
)
    requires
        m.config.require_handshake_cookie,
        m.clock_origin matches Some(origin) && origin.nanos <= issued.nanos <= now.nanos,
        handshake::cookie_for(
            m.cookie_secret,
            hello,
            peer_id,
            server_model::clock_ms(m, issued),
        ).len() == COOKIE_LENGTH,
    ensures
        ({
            let cookie = handshake::cookie_for(
                m.cookie_secret,
                hello,
                peer_id,
                server_model::clock_ms(m, issued),
            );
            let again = HelloModel { cookie: Some(cookie), ..hello };
            let lifetime = m.config.handshake_cookie_lifetime.length();
            &&& now.nanos - issued.nanos + 1_000_000 <= lifetime ==> let_through(
                m,
                peer_id,
                again,
                now,
            )
            &&& now.nanos - issued.nanos >= lifetime + 1_000_000 ==> !let_through(
                m,
                peer_id,
                again,
                now,
            )
        }),
{
    lemma_clock(m, issued, now);
    handshake::law_retried_hello_is_accepted(
        m.psk,
        m.cookie_secret,
        hello,
        peer_id,
        server_model::clock_ms(m, issued),
        server_model::clock_ms(m, now),
        m.config.handshake_cookie_lifetime,
    );
}

/// What a cookie is signed over names the peer, the time and the hello: for another peer,
/// another time or another hello it is something else.
pub proof fn law_cookies_are_bound(
    hellos: (HelloModel, HelloModel),
    peers: (PeerId, PeerId),
    issued_ms: (u64, u64),
)
    requires
        handshake::hello_valid(hellos.0),
        handshake::hello_valid(hellos.1),
        handshake::cookie_context(hellos.0, peers.0, issued_ms.0) == handshake::cookie_context(
            hellos.1,
            peers.1,
            issued_ms.1,
        ),
    ensures
        peers.0.number() == peers.1.number(),
        issued_ms.0 == issued_ms.1,
        (HelloModel { cookie: None, ..hellos.0 }) == (HelloModel { cookie: None, ..hellos.1 }),
{
    let label = text::octets("udp2raw-ng/v4/hello-cookie");
    let n = label.len() as int;
    let bare = (
        HelloModel { cookie: None, ..hellos.0 },
        HelloModel { cookie: None, ..hellos.1 },
    );
    let a = handshake::cookie_context(hellos.0, peers.0, issued_ms.0);
    let b = handshake::cookie_context(hellos.1, peers.1, issued_ms.1);
    bytes::lemma_octet_ranges();
    bytes::lemma_be_bytes_len(peers.0.number() as nat, 8);
    bytes::lemma_be_bytes_len(peers.1.number() as nat, 8);
    bytes::lemma_be_bytes_len(issued_ms.0 as nat, 8);
    bytes::lemma_be_bytes_len(issued_ms.1 as nat, 8);
    assert(a.subrange(n, n + 8) =~= bytes::be_bytes(peers.0.number() as nat, 8));
    assert(b.subrange(n, n + 8) =~= bytes::be_bytes(peers.1.number() as nat, 8));
    assert(a.subrange(n + 8, n + 16) =~= bytes::be_bytes(issued_ms.0 as nat, 8));
    assert(b.subrange(n + 8, n + 16) =~= bytes::be_bytes(issued_ms.1 as nat, 8));
    bytes::lemma_be_bytes_injective(peers.0.number() as nat, peers.1.number() as nat, 8);
    bytes::lemma_be_bytes_injective(issued_ms.0 as nat, issued_ms.1 as nat, 8);
    assert(a.skip(n + 16) =~= handshake::hello_payload(bare.0));
    assert(b.skip(n + 16) =~= handshake::hello_payload(bare.1));
    handshake::law_hello_round_trip(bare.0);
    handshake::law_hello_round_trip(bare.1);
}

/// A credential is good for its lifetime: from when it was issued until then it lets a
/// client resume the conversation that it was issued for, and not after. The clock tells
/// milliseconds, so nothing is said of less than two around the end.
pub proof fn law_credentials_last(
    m: ServerModel,
    session_id: SessionId,
    conversation_id: ConversationId,
    salt: Seq<u8>,
    issued: Instant,
    now: Instant,
)
    requires
        conversation_id.number() != 0,
        salt.len() == 16,
        m.clock_origin matches Some(origin) && origin.nanos <= issued.nanos <= now.nanos,
        server_model::fresh_credential(
            m.cookie_secret,
            m.config.resumption_lifetime,
            session_id,
            conversation_id,
            server_model::clock_ms(m, issued),
            salt,
        ).len() == CREDENTIAL_LENGTH,
    ensures
        ({
            let credential = server_model::fresh_credential(
                m.cookie_secret,
                m.config.resumption_lifetime,
                session_id,
                conversation_id,
                server_model::clock_ms(m, issued),
                salt,
            );
            let lifetime = m.config.resumption_lifetime.length();
            let grant = handshake::credential_grant(
                m.cookie_secret,
                credential,
                server_model::clock_ms(m, now),
            );
            &&& now.nanos - issued.nanos + 2_000_000 <= lifetime ==> grant == Some(
                (session_id, conversation_id),
            )
            &&& now.nanos - issued.nanos >= lifetime + 1_000_000 ==> grant is None
        }),
{
    lemma_clock(m, issued, now);
    let a = server_model::clock_ms(m, issued);
    let b = server_model::clock_ms(m, now);
    let lifetime = m.config.resumption_lifetime.length();
    let expires = server_model::capped_ms(
        a as nat + server_model::capped_ms(lifetime / 1_000_000) as nat,
    );
    handshake::law_credential_grants_what_it_was_issued_for(
        m.cookie_secret,
        session_id,
        conversation_id,
        a,
        expires,
        salt,
        b,
    );
    let whole = lifetime / 1_000_000;
    assert(whole * 1_000_000 <= lifetime < whole * 1_000_000 + 1_000_000);
    assert(b * 1_000_000 <= now.nanos) by {
        assert(m.clock_origin is Some);
    }
}

/// A finish for a pending handshake. It has to come over the route of the hello, there
/// has to be room for a session or one that it takes the place of, and it has to be the
/// one finish that answers the answer; else it is refused and nothing changes. Then the
/// session is there and the handshake is pending no more, the client is sent the
/// confirmation, and the host is told.
pub proof fn law_finishes_establish_sessions(
    m: ServerModel,
    peer_id: PeerId,
    datagram: Seq<u8>,
    now: Instant,
    draws: ServerDraws,
)
    requires
        server_model::server_valid(m),
        protocol::decoded(datagram) matches Ok(frame) && frame.frame_type
            == FrameType::ClientFinish && !table::holds(m.sessions, frame.session_id),
    ensures
        ({
            let frame = protocol::decoded(datagram)->Ok_0;
            let session_id = frame.session_id;
            let step = server_model::server_step(
                m,
                EventModel::TunnelFrame { peer_id, bytes: datagram },
                now,
                draws,
            );
            match table::lookup(m.pending, session_id) {
                None => step.0 == m && step.1 == Err::<Seq<ActionModel>, EngineError>(
                    EngineError::Handshake(HandshakeError::UnknownPendingHandshake),
                ),
                Some(pending) => if pending.peer_id != peer_id {
                    step.0 == m && step.1 == Err::<Seq<ActionModel>, EngineError>(
                        EngineError::UnexpectedPeer,
                    )
                } else if m.sessions.len() >= m.config.max_sessions && !(
                pending.resume_from matches Some(old) && table::holds(m.sessions, old)) {
                    step.0 == m && step.1 == Err::<Seq<ActionModel>, EngineError>(
                        EngineError::SessionCapacity,
                    )
                } else if !(handshake::finish_of_frame(frame) matches Ok(finish) && finish
                    == handshake::finish_for(m.psk, pending.hello, session_id, pending.answer)) {
                    step.0 == m && (step.1 matches Err(error) && error is Handshake)
                } else {
                    &&& step.1 matches Err(error) ==> step.0 == m && (error is Record
                        || error is Frame)
                    &&& step.1 matches Ok(actions) ==> {
                        let session = table::lookup(step.0.sessions, session_id)->Some_0;
                        &&& table::holds(step.0.sessions, session_id)
                        &&& !table::holds(step.0.pending, session_id)
                        &&& session.peer_id == peer_id && session.last_activity == now
                        &&& session.client_finish == protocol::encoded(frame)->Ok_0
                        &&& session.sealer.keys == crypto::direction_keys(
                            handshake::session_key_source(
                                m.psk,
                                pending.hello,
                                session_id,
                                pending.answer,
                            ),
                            Direction::ServerToClient,
                        )
                        &&& session.opener.keys == crypto::direction_keys(
                            handshake::session_key_source(
                                m.psk,
                                pending.hello,
                                session_id,
                                pending.answer,
                            ),
                            Direction::ClientToServer,
                        )
                        &&& session.opener.replay == replay::fresh_window(
                            m.config.replay_window_size as nat,
                        )
                        &&& record::sealed(
                            SealerModel { next_packet_number: 0, ..session.sealer },
                            FrameType::HandshakeAck,
                            None,
                            Seq::empty(),
                        ) == Ok::<Seq<u8>, RecordError>(session.handshake_ack)
                        &&& pending.resume_from is None ==> session.conversations.len() == 0
                        &&& actions.len() >= 3
                        &&& actions[0] == (ActionModel::SendTunnelFrame {
                            peer_id,
                            bytes: session.handshake_ack,
                        })
                        &&& actions[1] == (ActionModel::SessionEstablished {
                            peer_id,
                            session_id,
                            cipher_suite: m.config.cipher_suite,
                            resumed: pending.resume_from is Some,
                        })
                        &&& actions.last() == ActionModel::ScheduleTimer(
                            m.config.session_idle_timeout,
                        )
                        &&& match pending.resume_from {
                            Some(old_session_id) => actions.len() == 4 && actions[2]
                                == (ActionModel::SessionResumed {
                                peer_id,
                                old_session_id,
                                new_session_id: session_id,
                            }),
                            None => actions.len() == 3,
                        }
                    }
                },
            }
        }),
{
    let frame = protocol::decoded(datagram)->Ok_0;
    let session_id = frame.session_id;
    if table::holds(m.pending, session_id) {
        let pending = table::lookup(m.pending, session_id)->Some_0;
        if handshake::finish_of_frame(frame) is Ok {
            handshake::law_finishes_are_accepted(
                m.psk,
                pending.hello,
                session_id,
                pending.answer,
                handshake::finish_of_frame(frame)->Ok_0,
            );
        }
        let taken = server_model::taken_over(m, pending.resume_from);
        table::lemma_put(
            taken.0.sessions,
            session_id,
            server_model::established_session(m, peer_id, frame, pending, now),
            session_id,
        );
        table::lemma_without(m.pending, session_id, session_id);
    }
}

/// A datagram of the upstream. It is refused where it is too long, or where there is no
/// such session or no such conversation, and then nothing changes. Else it goes to the
/// peer of the session, sealed for its conversation, and nothing of the session changes
/// but its numbering and when it was last active.
pub proof fn law_upstream_datagrams_are_sealed(
    m: ServerModel,
    session_id: SessionId,
    conversation_id: ConversationId,
    payload: Seq<u8>,
    now: Instant,
    draws: ServerDraws,
    other: SessionId,
)
    requires
        server_model::server_valid(m),
    ensures
        ({
            let step = server_model::server_step(
                m,
                EventModel::ServerDatagram { session_id, conversation_id, payload },
                now,
                draws,
            );
            let session = table::lookup(m.sessions, session_id)->Some_0;
            let sealed = record::sealed(
                session.sealer,
                FrameType::Data,
                Some(conversation_id),
                payload,
            );
            if payload.len() > m.config.max_frame_payload {
                step == (m, Err::<Seq<ActionModel>, EngineError>(EngineError::PayloadTooLarge))
            } else if !table::holds(m.sessions, session_id) {
                step == (m, Err::<Seq<ActionModel>, EngineError>(EngineError::UnknownSession))
            } else if conversation_at(m, session_id, conversation_id) is None {
                step == (m, Err::<Seq<ActionModel>, EngineError>(EngineError::UnknownConversation))
            } else {
                &&& table::lookup(step.0.sessions, session_id) matches Some(later) && later == (
                ServerSessionModel {
                    sealer: later.sealer,
                    last_activity: now,
                    expires_at: later.expires_at,
                    ..session
                })
                &&& other != session_id ==> table::lookup(step.0.sessions, other)
                    == table::lookup(m.sessions, other)
                &&& match sealed {
                    Ok(bytes) => step.1 == Ok::<Seq<ActionModel>, EngineError>(
                        seq![
                            ActionModel::SendTunnelFrame { peer_id: session.peer_id, bytes },
                            ActionModel::ScheduleTimer(m.config.session_idle_timeout),
                        ],
                    ),
                    Err(error) => step.1 == Err::<Seq<ActionModel>, EngineError>(
                        EngineError::Record(error),
                    ),
                }
            }
        }),
{
    if table::holds(m.sessions, session_id) {
        let session = table::lookup(m.sessions, session_id)->Some_0;
        let active = ServerSessionModel {
            sealer: record::after_sealing(
                session.sealer,
                FrameType::Data,
                Some(conversation_id),
                payload,
            ),
            last_activity: now,
            expires_at: (now.nanos + m.config.session_idle_timeout.length()) as u128,
            ..session
        };
        table::lemma_put(m.sessions, session_id, active, session_id);
        table::lemma_put(m.sessions, session_id, active, other);
    }
}

/// The host closes a conversation of a session: that one is closed, and every other one
/// of the session stays as it is.
pub proof fn law_closing_closes_one_conversation(
    m: ServerModel,
    session_id: SessionId,
    conversation_id: ConversationId,
    now: Instant,
    draws: ServerDraws,
    other: ConversationId,
)
    requires
        server_model::server_valid(m),
    ensures
        ({
            let step = server_model::server_step(
                m,
                EventModel::CloseConversation { session_id: Some(session_id), conversation_id },
                now,
                draws,
            );
            if !table::holds(m.sessions, session_id) {
                step == (m, Err::<Seq<ActionModel>, EngineError>(EngineError::UnknownSession))
            } else if conversation_at(m, session_id, conversation_id) is None {
                step == (m, Err::<Seq<ActionModel>, EngineError>(EngineError::UnknownConversation))
            } else {
                &&& step.1 == Ok::<Seq<ActionModel>, EngineError>(
                    seq![
                        ActionModel::ConversationClosed {
                            session_id: Some(session_id),
                            conversation_id,
                        },
                    ],
                )
                &&& table::holds(step.0.sessions, session_id)
                &&& conversation_at(step.0, session_id, conversation_id) is None
                &&& other != conversation_id ==> conversation_at(step.0, session_id, other)
                    == conversation_at(m, session_id, other)
            }
        }),
{
    if table::holds(m.sessions, session_id) {
        let session = table::lookup(m.sessions, session_id)->Some_0;
        table::lemma_all_lookup(
            m.sessions,
            server_model::session_valid(m.config, m.cookie_secret),
            session_id,
        );
        let closed = ServerSessionModel {
            conversations: table::without(session.conversations, conversation_id),
            ..session
        };
        table::lemma_put(m.sessions, session_id, closed, session_id);
        table::lemma_without(session.conversations, conversation_id, conversation_id);
        table::lemma_without(session.conversations, conversation_id, other);
    }
}

/// What the host sees of a session: it is ready once its finish has come, it shakes hands
/// while its handshake is pending, and else there is none.
pub proof fn law_session_states(m: ServerModel, session_id: SessionId)
    requires
        server_model::server_valid(m),
    ensures
        server_model::session_state(m, session_id) == Some(SessionState::Ready) <==> table::holds(
            m.sessions,
            session_id,
        ),
        server_model::session_state(m, session_id) == Some(SessionState::Handshaking)
            <==> table::holds(m.pending, session_id),
        server_model::session_state(m, session_id) is None <==> !table::holds(
            m.sessions,
            session_id,
        ) && !table::holds(m.pending, session_id),
{
    assert(server_model::told_apart(m, session_id));
}

/// Whether more than half of a credential's lifetime is left.
pub open spec fn is_fresh(
    conversation: ServerConversationModel,
    lifetime: Duration,
    now: Instant,
) -> bool {
    conversation.credential matches Some(held) && (held.1 - now.nanos) > lifetime.length() / 2
}

/// After data of a session came and was handed on, every conversation of the session
/// holds a fresh credential: where it did not, it was sent one.
pub proof fn law_conversations_hold_fresh_credentials(
    m: ServerModel,
    event: EventModel,
    now: Instant,
    draws: ServerDraws,
    session_id: SessionId,
    conversation_id: ConversationId,
    at: ConversationId,
)
    requires
        server_model::server_valid(m),
        crate::activity_laws::brings_data(m, event, session_id, at),
        server_model::server_step(m, event, now, draws).1 is Ok,
    ensures
        ({
            let step = server_model::server_step(m, event, now, draws);
            conversation_at(step.0, session_id, conversation_id) matches Some(conversation)
                ==> is_fresh(conversation, m.config.resumption_lifetime, now)
        }),
{
    let bytes = event->TunnelFrame_bytes;
    let session = table::lookup(m.sessions, session_id)->Some_0;
    let value = server_model::active_conversation(session.conversations, at, now);
    let active = ServerSessionModel {
        conversations: table::put(session.conversations, at, value),
        ..server_model::after_record(session, m.config, bytes, now)
    };
    let all = active.conversations;
    let now_ms = server_model::clock_ms(m, now);
    let credited = server_model::renewed(
        active,
        m.config,
        m.cookie_secret,
        session_id,
        now,
        now_ms,
        draws.credentials,
        all.len(),
    );
    table::lemma_put(m.sessions, session_id, credited.0, session_id);
    let step = server_model::server_step(m, event, now, draws);
    assert(step.0.sessions == table::put(m.sessions, session_id, credited.0));
    let after = credited.0.conversations;
    table::lemma_position(after, conversation_id);
    let place = table::position(after, conversation_id);
    if place < after.len() {
        server_laws::lemma_renewed_keeps(
            active,
            m.config,
            m.cookie_secret,
            session_id,
            now,
            now_ms,
            draws.credentials,
            all.len(),
        );
        session_laws::law_due_credentials_are_handed_out(
            active,
            m.config,
            m.cookie_secret,
            session_id,
            now,
            now_ms,
            draws.credentials,
            all.len(),
            place,
        );
        let lifetime = m.config.resumption_lifetime.length();
        assert(lifetime > 0);
        assert(lifetime / 2 < lifetime);
    }
}

/// Credentials are not sent without need: where the conversation is known and every
/// conversation of the session holds a fresh credential, data is handed on and nothing
/// is sent.
pub proof fn law_fresh_credentials_are_not_renewed(
    m: ServerModel,
    event: EventModel,
    now: Instant,
    draws: ServerDraws,
    session_id: SessionId,
    conversation_id: ConversationId,
)
    requires
        server_model::server_valid(m),
        crate::activity_laws::brings_data(m, event, session_id, conversation_id),
        conversation_at(m, session_id, conversation_id) is Some,
        forall|other: ConversationId| #[trigger]
            conversation_at(m, session_id, other) matches Some(conversation) ==> is_fresh(
                conversation,
                m.config.resumption_lifetime,
                now,
            ),
    ensures
        ({
            let record = crate::activity_laws::record_of(m, event, session_id)->Some_0;
            server_model::server_step(m, event, now, draws).1 == Ok::<
                Seq<ActionModel>,
                EngineError,
            >(
                seq![
                    ActionModel::DeliverToUpstream {
                        session_id,
                        conversation_id,
                        payload: record.plaintext,
                    },
                    ActionModel::ScheduleTimer(m.config.session_idle_timeout),
                ],
            )
        }),
{
    let bytes = event->TunnelFrame_bytes;
    let session = table::lookup(m.sessions, session_id)->Some_0;
    let record = crate::activity_laws::record_of(m, event, session_id)->Some_0;
    table::lemma_all_lookup(
        m.sessions,
        server_model::session_valid(m.config, m.cookie_secret),
        session_id,
    );
    assert forall|i: int| 0 <= i < session.conversations.len() implies
        !server_model::credential_due((#[trigger] session.conversations[i]).1, m.config, now) by {
        table::lemma_unique_lookup(session.conversations, i);
        assert(conversation_at(m, session_id, session.conversations[i].0) == Some(
            session.conversations[i].1,
        ));
    }
    assert(crate::tunnel_laws::none_due(m, session_id, now));
    crate::tunnel_laws::lemma_data_is_delivered(
        server_model::after_record(session, m.config, bytes, now),
        m,
        session_id,
        conversation_id,
        record.plaintext,
        now,
        draws.credentials,
        session,
    );
}

/// A hello of another suite and one that cannot be read are refused, and nothing changes.
/// So is what is for a client. A record of an unknown session, one that comes over another
/// route and one that does not open are refused for that reason, and no session changes.
pub proof fn law_refusals_change_nothing(
    m: ServerModel,
    event: EventModel,
    now: Instant,
    draws: ServerDraws,
)
    ensures
        ({
            let step = server_model::server_step(m, event, now, draws);
            match event {
                EventModel::TunnelFrame { peer_id, bytes } => {
                    &&& (protocol::decoded(bytes) matches Ok(frame) && protocol::carries_record(
                        frame.frame_type,
                    )) ==> {
                        let frame = protocol::decoded(bytes)->Ok_0;
                        match table::lookup(m.sessions, frame.session_id) {
                            None => step.0.sessions == m.sessions && step.1 == Err::<
                                Seq<ActionModel>,
                                EngineError,
                            >(EngineError::UnknownSession),
                            Some(session) => if session.peer_id != peer_id {
                                step.0.sessions == m.sessions && step.1 == Err::<
                                    Seq<ActionModel>,
                                    EngineError,
                                >(EngineError::UnexpectedPeer)
                            } else {
                                record::opened(session.opener, bytes) matches Err(error)
                                    ==> step.0.sessions == m.sessions && step.1 == Err::<
                                    Seq<ActionModel>,
                                    EngineError,
                                >(EngineError::Record(error))
                            },
                        }
                    }
                    &&& (hello_in(bytes) matches Some(hello) && hello.suite
                        != m.config.cipher_suite) ==> step == (
                        m,
                        Err::<Seq<ActionModel>, EngineError>(
                            EngineError::Handshake(HandshakeError::CipherSuiteMismatch),
                        ),
                    )
                    &&& protocol::decoded(bytes) is Err || (protocol::decoded(bytes) matches Ok(
                        frame,
                    ) && frame.frame_type == FrameType::ClientHello && hello_in(bytes) is None)
                        ==> step.0 == m && step.1 is Err
                },
                EventModel::Start | EventModel::Reconnect => step == (
                    m,
                    Err::<Seq<ActionModel>, EngineError>(EngineError::InvalidRole),
                ),
                EventModel::ClientDatagram { local_peer, payload } => step == (
                    m,
                    Err::<Seq<ActionModel>, EngineError>(EngineError::InvalidRole),
                ),
                EventModel::CloseConversation { session_id, conversation_id } => session_id is None
                    ==> step == (
                    m,
                    Err::<Seq<ActionModel>, EngineError>(EngineError::UnknownSession),
                ),
                _ => true,
            }
        }),
{
}

/// A server opens a conversation with its first data and at no other time, and tells the
/// host before anything is handed on. Beyond the limit it opens none.
pub proof fn law_data_opens_conversations(
    m: ServerModel,
    event: EventModel,
    now: Instant,
    draws: ServerDraws,
    session_id: SessionId,
    conversation_id: ConversationId,
)
    requires
        server_model::server_valid(m),
        crate::activity_laws::brings_data(m, event, session_id, conversation_id),
    ensures
        ({
            let step = server_model::server_step(m, event, now, draws);
            let known = conversation_at(m, session_id, conversation_id) is Some;
            let opened = ActionModel::ConversationOpened {
                session_id: Some(session_id),
                conversation_id,
            };
            let session = table::lookup(m.sessions, session_id)->Some_0;
            &&& !known && session.conversations.len() >= m.config.max_conversations
                ==> conversation_at(step.0, session_id, conversation_id) is None && step.1 == Err::<
                Seq<ActionModel>,
                EngineError,
            >(EngineError::ConversationCapacity)
            &&& step.1 matches Ok(actions) ==> actions.len() > 0 && (actions[0] == opened) == !known
                && actions.contains(opened) == !known
        }),
{
    let bytes = event->TunnelFrame_bytes;
    let session = table::lookup(m.sessions, session_id)->Some_0;
    let record = crate::activity_laws::record_of(m, event, session_id)->Some_0;
    let received = server_model::after_record(session, m.config, bytes, now);
    let value = server_model::active_conversation(session.conversations, conversation_id, now);
    let active = ServerSessionModel {
        conversations: table::put(session.conversations, conversation_id, value),
        ..received
    };
    let now_ms = server_model::clock_ms(m, now);
    server_laws::lemma_renewed_keeps(
        active,
        m.config,
        m.cookie_secret,
        session_id,
        now,
        now_ms,
        draws.credentials,
        active.conversations.len(),
    );
    let step = server_model::server_step(m, event, now, draws);
    let got = server_model::receive_record(
        received,
        m.config,
        m.cookie_secret,
        session_id,
        record,
        now,
        now_ms,
        draws.credentials,
    );
    table::lemma_put(m.sessions, session_id, got.0, session_id);
    assert(step.0.sessions == table::put(m.sessions, session_id, got.0));
    let opened = ActionModel::ConversationOpened { session_id: Some(session_id), conversation_id };
    if step.1 is Ok {
        let actions = step.1->Ok_0;
        let sent = server_model::renewed(
            active,
            m.config,
            m.cookie_secret,
            session_id,
            now,
            now_ms,
            draws.credentials,
            active.conversations.len(),
        ).1->Ok_0;
        if conversation_at(m, session_id, conversation_id) is Some {
            assert forall|i: int| 0 <= i < actions.len() implies !((
            #[trigger] actions[i]) is ConversationOpened) by {
                if i < sent.len() {
                    assert(actions[i] == sent[i]);
                }
            }
        } else {
            assert(actions[0] == opened);
        }
    }
}

/// A finish for a session that is there already is answered with its confirmation where
/// it is the same finish over the same route, and refused else; nothing changes either
/// way.
pub proof fn law_finishes_of_live_sessions(
    m: ServerModel,
    peer_id: PeerId,
    datagram: Seq<u8>,
    now: Instant,
    draws: ServerDraws,
)
    requires
        protocol::decoded(datagram) matches Ok(frame) && frame.frame_type
            == FrameType::ClientFinish && table::holds(m.sessions, frame.session_id),
    ensures
        ({
            let frame = protocol::decoded(datagram)->Ok_0;
            let session = table::lookup(m.sessions, frame.session_id)->Some_0;
            let step = server_model::server_step(
                m,
                EventModel::TunnelFrame { peer_id, bytes: datagram },
                now,
                draws,
            );
            &&& step.0 == m
            &&& step.1 is Ok == (session.peer_id == peer_id && datagram == session.client_finish)
            &&& step.1 matches Ok(actions) ==> actions == seq![
                ActionModel::SendTunnelFrame { peer_id, bytes: session.handshake_ack },
            ]
        }),
{
    protocol::law_datagram_round_trip(datagram);
}

/// A finish concerns the session that it establishes and the one that this takes over; no
/// other session, no other one that can be resumed and no other pending handshake
/// notices it.
pub proof fn law_finishes_leave_others_alone(
    m: ServerModel,
    peer_id: PeerId,
    datagram: Seq<u8>,
    now: Instant,
    draws: ServerDraws,
    other: SessionId,
)
    requires
        server_model::server_valid(m),
        protocol::decoded(datagram) matches Ok(frame) && frame.frame_type
            == FrameType::ClientFinish && other != frame.session_id && !(table::lookup(
            m.pending,
            frame.session_id,
        ) matches Some(pending) && pending.resume_from == Some(other)),
    ensures
        ({
            let next = server_model::server_step(
                m,
                EventModel::TunnelFrame { peer_id, bytes: datagram },
                now,
                draws,
            ).0;
            &&& table::lookup(next.sessions, other) == table::lookup(m.sessions, other)
            &&& table::lookup(next.resumable, other) == table::lookup(m.resumable, other)
            &&& table::lookup(next.pending, other) == table::lookup(m.pending, other)
        }),
{
    let frame = protocol::decoded(datagram)->Ok_0;
    if table::holds(m.pending, frame.session_id) {
        let pending = table::lookup(m.pending, frame.session_id)->Some_0;
        let taken = server_model::taken_over(m, pending.resume_from);
        if pending.resume_from is Some {
            table::lemma_without(m.sessions, pending.resume_from->Some_0, other);
            table::lemma_without(m.resumable, pending.resume_from->Some_0, other);
        }
        table::lemma_put(
            taken.0.sessions,
            frame.session_id,
            server_model::established_session(m, peer_id, frame, pending, now),
            other,
        );
        table::lemma_without(m.pending, frame.session_id, other);
    }
}

} // verus!
