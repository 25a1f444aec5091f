//! How many handshake attempts a server takes from one peer.

use vstd::arithmetic::div_mod::lemma_fundamental_div_mod;
use vstd::prelude::*;

use crate::action::EventModel;
use crate::config::EngineConfig;
use crate::error::EngineError;
use crate::handshake;
use crate::id::PeerId;
use crate::protocol;
use crate::protocol::FrameType;
use crate::server_model;
use crate::server_model::{BucketModel, ServerModel};
use crate::session_laws;
use crate::session_laws::{next_of, ServerInput};
use crate::table;
use crate::time;
use crate::time::{Duration, Instant};

verus! {

/// Whether an event is a handshake attempt of a peer: a hello of the server's suite.
pub open spec fn attempts(config: EngineConfig, input: ServerInput, peer: PeerId) -> bool {
    input.0 matches EventModel::TunnelFrame { peer_id, bytes } && peer_id == peer && (
    protocol::decoded(bytes) matches Ok(frame) && frame.frame_type == FrameType::ClientHello && (
    handshake::hello_of_frame(frame) matches Ok(hello) && hello.suite == config.cipher_suite))
}

/// Whether an attempt of a peer is taken: it is not refused for coming too often.
#[verifier::opaque]
pub open spec fn taken(m: ServerModel, input: ServerInput, peer: PeerId) -> bool {
    attempts(m.config, input, peer) && !(server_model::server_step(
        m,
        input.0,
        input.1,
        input.2,
    ).1 matches Err(error) && error == EngineError::HandshakeRateLimited)
}

/// How many attempts of a peer are taken among several events.
pub open spec fn taken_count(m: ServerModel, inputs: Seq<ServerInput>, peer: PeerId) -> nat
    decreases inputs.len(),
{
    if inputs.len() == 0 {
        0
    } else {
        taken_count(next_of(m, inputs[0]), inputs.drop_first(), peer) + if taken(
            m,
            inputs[0],
            peer,
        ) {
            1nat
        } else {
            0
        }
    }
}

/// The instant at which an event happens.
pub open spec fn instant_of(input: ServerInput) -> Instant {
    match input.0 {
        EventModel::TimeAdvanced(at) => at,
        _ => input.1,
    }
}

/// Whether several events happen one after the other from one instant to another.
pub open spec fn in_order(inputs: Seq<ServerInput>, from: Instant, to: Instant) -> bool {
    &&& from.nanos <= to.nanos
    &&& forall|i: int|
        0 <= i < inputs.len() ==> from.nanos <= instant_of(#[trigger] inputs[i]).nanos <= to.nanos
    &&& forall|i: int, j: int|
        #![trigger inputs[i], inputs[j]]
        0 <= i < j < inputs.len() ==> instant_of(inputs[i]).nanos <= instant_of(inputs[j]).nanos
}

/// How many whole refill intervals lie between two instants.
pub open spec fn intervals(config: EngineConfig, from: Instant, to: Instant) -> nat {
    time::elapsed(to, from) / config.handshake_rate_refill_interval.length()
}

/// Sums and quotients.
proof fn lemma_quotients(x: nat, y: nat, d: nat)
    requires
        d > 0,
    ensures
        x / d + y / d <= (x + y) / d <= x / d + y / d + 1,
        x < d ==> x / d == 0,
        x <= y ==> x / d <= y / d,
{
    lemma_fundamental_div_mod(x as int, d as int);
    lemma_fundamental_div_mod(y as int, d as int);
    lemma_fundamental_div_mod((x + y) as int, d as int);
    let a = x as int / d as int;
    let b = y as int / d as int;
    let c = (x + y) as int / d as int;
    let r = x as int % d as int;
    let s = y as int % d as int;
    let u = (x + y) as int % d as int;
    assert(a + b <= c <= a + b + 1) by (nonlinear_arith)
        requires
            x == d * a + r,
            y == d * b + s,
            x + y == d * c + u,
            0 <= r < d,
            0 <= s < d,
            0 <= u < d,
    ;
    if x < d {
        assert(a == 0) by (nonlinear_arith)
            requires
                x == d * a + r,
                0 <= r < d,
                0 <= x < d,
        ;
    }
    if x <= y {
        assert(a <= b) by (nonlinear_arith)
            requires
                x == d * a + r,
                y == d * b + s,
                x <= y,
                0 <= r < d,
                0 <= s < d,
        ;
    }
}

proof fn lemma_multiples(n: nat, d: nat)
    requires
        d > 0,
    ensures
        (d * n) / d == n,
{
    let x = d * n;
    lemma_fundamental_div_mod(x as int, d as int);
    let a = x as int / d as int;
    let r = x as int % d as int;
    assert(a == n) by (nonlinear_arith)
        requires
            x == d * n,
            x == d * a + r,
            0 <= r < d,
    ;
}

/// What an event does to the allowance of a peer.
proof fn lemma_bucket_step(m: ServerModel, input: ServerInput, peer: PeerId)
    requires
        server_model::server_valid(m),
    ensures
        ({
            let before = table::lookup(m.buckets, peer);
            let after = table::lookup(next_of(m, input).buckets, peer);
            let room = before is Some || m.buckets.len() < m.config.max_pending_handshakes;
            if attempts(m.config, input, peer) {
                if !room {
                    after is None && !taken(m, input, peer)
                } else {
                    let count = match before {
                        Some(bucket) => intervals(m.config, bucket.last_refill_at, input.1),
                        None => 0,
                    };
                    let burst = m.config.handshake_rate_limit_burst;
                    let tokens = match before {
                        Some(bucket) => if bucket.tokens + count < burst {
                            bucket.tokens + count
                        } else {
                            burst as int
                        },
                        None => burst as int,
                    };
                    let since = match before {
                        Some(bucket) if count == 0 => bucket.last_refill_at,
                        _ => input.1,
                    };
                    &&& after matches Some(bucket) && bucket.last_refill_at == since
                        && bucket.tokens == if tokens > 0 {
                        tokens - 1
                    } else {
                        0
                    }
                    &&& taken(m, input, peer) == (tokens > 0)
                }
            } else {
                &&& !taken(m, input, peer)
                &&& after == before || (input.0 matches EventModel::TimeAdvanced(at) && after is None
                    && (before matches Some(bucket) && time::elapsed(at, bucket.last_refill_at)
                    >= server_model::bucket_retention(m.config)))
            }
        }),
{
    reveal(next_of);
    reveal(taken);
    lemma_refills_nothing(m, input.1);
    table::lemma_all_lookup(m.buckets, server_model::bucket_valid(m.config), peer);
    match input.0 {
        EventModel::TunnelFrame { peer_id, bytes } => {
            lemma_hello_counts(m, peer_id, bytes, input, peer);
        },
        EventModel::TimeAdvanced(at) => {
            table::lemma_retained_lookup(
                m.buckets,
                server_model::still_counted(at, server_model::bucket_retention(m.config)),
                peer,
            );
        },
        _ => {},
    }
}

proof fn lemma_refills_nothing(m: ServerModel, now: Instant)
    requires
        server_model::server_valid(m),
    ensures
        intervals(m.config, now, now) == 0,
        m.config.handshake_rate_refill_interval.length() > 0,
        m.config.handshake_rate_limit_burst > 0,
{
    lemma_quotients(0, 0, m.config.handshake_rate_refill_interval.length());
}

proof fn lemma_hello_counts(
    m: ServerModel,
    peer_id: PeerId,
    bytes: Seq<u8>,
    input: ServerInput,
    peer: PeerId,
)
    requires
        server_model::server_valid(m),
        input.0 == (EventModel::TunnelFrame { peer_id, bytes }),
    ensures
        ({
            let step = server_model::server_step(m, input.0, input.1, input.2);
            let tried = attempts(m.config, input, peer_id);
            let counted = server_model::attempt_counted(m, peer_id, input.1);
            let refused = step.1 matches Err(error) && error == EngineError::HandshakeRateLimited;
            &&& table::lookup(step.0.buckets, peer) == table::lookup(
                if tried {
                    counted.buckets
                } else {
                    m.buckets
                },
                peer,
            )
            &&& tried ==> refused == !server_model::attempt_allowed(m, peer_id, input.1)
            &&& peer != peer_id ==> table::lookup(counted.buckets, peer) == table::lookup(
                m.buckets,
                peer,
            )
            &&& peer == peer_id && (table::holds(m.buckets, peer) || m.buckets.len()
                < m.config.max_pending_handshakes) ==> table::lookup(counted.buckets, peer) == Some(
                ({
                    let bucket = server_model::bucket_of(m, peer, input.1);
                    if bucket.tokens == 0 {
                        bucket
                    } else {
                        BucketModel { tokens: (bucket.tokens - 1) as usize, ..bucket }
                    }
                }),
            )
        }),
{
    let bucket = server_model::bucket_of(m, peer_id, input.1);
    let used = if bucket.tokens == 0 {
        bucket
    } else {
        BucketModel { tokens: (bucket.tokens - 1) as usize, ..bucket }
    };
    table::lemma_put(m.buckets, peer_id, used, peer);
    if protocol::decoded(bytes) is Ok {
        let frame = protocol::decoded(bytes)->Ok_0;
        if frame.frame_type == FrameType::ClientHello {
            lemma_answers_count_nothing(m, peer_id, frame, input);
        } else if frame.frame_type == FrameType::ClientFinish {
            lemma_finish_counts_nothing(m, peer_id, frame, input.1);
        }
    }
}

proof fn lemma_finish_counts_nothing(
    m: ServerModel,
    peer_id: PeerId,
    frame: protocol::FrameModel,
    now: Instant,
)
    ensures
        server_model::handle_client_finish(m, peer_id, frame, now).0.buckets == m.buckets,
{
}

proof fn lemma_answers_count_nothing(
    m: ServerModel,
    peer_id: PeerId,
    frame: protocol::FrameModel,
    input: ServerInput,
)
    ensures
        ({
            let step = server_model::handle_client_hello(m, peer_id, frame, input.1, input.2);
            let tried = handshake::hello_of_frame(frame) matches Ok(hello) && hello.suite
                == m.config.cipher_suite;
            let counted = server_model::attempt_counted(m, peer_id, input.1);
            &&& step.0.buckets == if tried {
                counted.buckets
            } else {
                m.buckets
            }
            &&& tried ==> (step.1 matches Err(error) && error
                == EngineError::HandshakeRateLimited) == !server_model::attempt_allowed(
                m,
                peer_id,
                input.1,
            )
        }),
{
}

/// Every peer has an allowance of its own: no event but its own attempts and the passing
/// of time touches it.
pub proof fn law_peers_have_their_own_allowance(m: ServerModel, input: ServerInput, peer: PeerId)
    requires
        server_model::server_valid(m),
        !attempts(m.config, input, peer),
        !(input.0 is TimeAdvanced),
    ensures
        table::lookup(next_of(m, input).buckets, peer) == table::lookup(m.buckets, peer),
{
    lemma_bucket_step(m, input, peer);
}

/// The length of time for which an unused allowance is remembered is written down
/// without being cut.
pub open spec fn retention_fits(config: EngineConfig) -> bool {
    &&& config.handshake_rate_limit_burst <= u32::MAX
    &&& config.handshake_rate_refill_interval.length() * config.handshake_rate_limit_burst
        <= Duration::longest()
}

/// However the attempts of a peer are spread among whatever else happens, the number
/// that is taken from one instant to another is at most the burst and one for each whole
/// refill interval between them; and it is never more than the tokens that the peer has
/// and one for each whole interval since they were last refilled.
pub proof fn law_attempts_are_limited(
    m: ServerModel,
    inputs: Seq<ServerInput>,
    peer: PeerId,
    from: Instant,
    to: Instant,
)
    requires
        server_model::server_valid(m),
        retention_fits(m.config),
        in_order(inputs, from, to),
    ensures
        ({
            let count = taken_count(m, inputs, peer);
            &&& count <= m.config.handshake_rate_limit_burst + intervals(m.config, from, to)
            &&& table::lookup(m.buckets, peer) matches Some(bucket) ==> count <= bucket.tokens
                + intervals(m.config, bucket.last_refill_at, to)
        }),
    decreases inputs.len(),
{
    let d = m.config.handshake_rate_refill_interval.length();
    let burst = m.config.handshake_rate_limit_burst;
    lemma_refills_nothing(m, from);
    table::lemma_all_lookup(m.buckets, server_model::bucket_valid(m.config), peer);
    if inputs.len() > 0 {
        let first = inputs[0];
        let rest = inputs.drop_first();
        let t = instant_of(first);
        let next = next_of(m, first);
        assert(in_order(rest, t, to)) by {
            assert forall|i: int| 0 <= i < rest.len() implies t.nanos <= instant_of(
                #[trigger] rest[i],
            ).nanos <= to.nanos by {
                assert(rest[i] == inputs[i + 1]);
            }
            assert forall|i: int, j: int|
                #![trigger rest[i], rest[j]]
                0 <= i < j < rest.len() implies instant_of(rest[i]).nanos <= instant_of(
                rest[j],
            ).nanos by {
                assert(rest[i] == inputs[i + 1] && rest[j] == inputs[j + 1]);
            }
        }
        session_laws::lemma_next_is_valid(m, first);
        assert(next.config == m.config) by {
            reveal(next_of);
        }
        law_attempts_are_limited(next, rest, peer, t, to);
        lemma_bucket_step(m, first, peer);
        let whole = time::elapsed(to, from);
        let later = time::elapsed(to, t);
        lemma_quotients(later, whole, d);
        match table::lookup(m.buckets, peer) {
            None => {},
            Some(bucket) => {
                let past = time::elapsed(t, bucket.last_refill_at);
                let all = time::elapsed(to, bucket.last_refill_at);
                lemma_quotients(past, later, d);
                lemma_quotients(all, past + later, d);
                lemma_quotients(later, all, d);
                if first.0 is TimeAdvanced && table::lookup(next.buckets, peer) is None {
                    lemma_dropped_bucket(m.config, past, later);
                }
            },
        }
    }
}

/// An allowance that is forgotten would be full.
proof fn lemma_dropped_bucket(config: EngineConfig, past: nat, later: nat)
    requires
        retention_fits(config),
        config.handshake_rate_refill_interval.length() > 0,
        past >= server_model::bucket_retention(config),
    ensures
        (past + later) / config.handshake_rate_refill_interval.length()
            >= config.handshake_rate_limit_burst + later
            / config.handshake_rate_refill_interval.length(),
{
    let d = config.handshake_rate_refill_interval.length();
    let n = config.handshake_rate_limit_burst as nat;
    lemma_multiples(n, d);
    lemma_quotients(d * n, past, d);
    lemma_quotients(past, later, d);
}

/// What is forgotten of a peer costs it nothing and gives it nothing: an allowance is
/// forgotten only when the time since its last refill would have filled it.
pub proof fn law_only_full_allowances_are_forgotten(
    m: ServerModel,
    input: ServerInput,
    peer: PeerId,
)
    requires
        server_model::server_valid(m),
        retention_fits(m.config),
        table::holds(m.buckets, peer),
        !table::holds(next_of(m, input).buckets, peer),
    ensures
        input.0 matches EventModel::TimeAdvanced(at) && intervals(
            m.config,
            table::lookup(m.buckets, peer)->Some_0.last_refill_at,
            at,
        ) >= m.config.handshake_rate_limit_burst,
{
    lemma_bucket_step(m, input, peer);
    lemma_refills_nothing(m, input.1);
    let bucket = table::lookup(m.buckets, peer)->Some_0;
    let at = input.0->TimeAdvanced_0;
    lemma_dropped_bucket(m.config, time::elapsed(at, bucket.last_refill_at), 0);
    lemma_quotients(0, 0, m.config.handshake_rate_refill_interval.length());
}

/// A server counts no more peers than handshakes may be pending: as long as it counts that
/// many, no attempt of another peer is taken, and it is not counted either.
pub proof fn law_uncounted_peers_are_refused(m: ServerModel, input: ServerInput, peer: PeerId)
    requires
        server_model::server_valid(m),
        attempts(m.config, input, peer),
        !table::holds(m.buckets, peer),
        m.buckets.len() >= m.config.max_pending_handshakes,
    ensures
        !taken(m, input, peer),
        !table::holds(next_of(m, input).buckets, peer),
{
    lemma_bucket_step(m, input, peer);
}

/// Whether several events are attempts of one peer at one instant.
pub open spec fn attempts_at(
    config: EngineConfig,
    inputs: Seq<ServerInput>,
    peer: PeerId,
    at: Instant,
) -> bool {
    forall|i: int|
        0 <= i < inputs.len() ==> attempts(config, #[trigger] inputs[i], peer) && inputs[i].1 == at
}

/// Tokens come back one by one: of attempts that a peer makes at one instant, as many
/// are taken as it had tokens and as whole refill intervals have passed since they were
/// last refilled, together no more than the burst. A peer that the server begins to
/// count has the whole burst.
pub proof fn law_tokens_come_back(
    m: ServerModel,
    inputs: Seq<ServerInput>,
    peer: PeerId,
    at: Instant,
)
    requires
        server_model::server_valid(m),
        attempts_at(m.config, inputs, peer, at),
        table::holds(m.buckets, peer) || m.buckets.len() < m.config.max_pending_handshakes,
    ensures
        ({
            let burst = m.config.handshake_rate_limit_burst;
            let tokens = match table::lookup(m.buckets, peer) {
                Some(bucket) => bucket.tokens + intervals(m.config, bucket.last_refill_at, at),
                None => burst as int,
            };
            let most = if tokens < burst {
                tokens
            } else {
                burst as int
            };
            taken_count(m, inputs, peer) == if inputs.len() < most {
                inputs.len() as int
            } else {
                most
            }
        }),
    decreases inputs.len(),
{
    lemma_refills_nothing(m, at);
    table::lemma_all_lookup(m.buckets, server_model::bucket_valid(m.config), peer);
    if inputs.len() > 0 {
        let first = inputs[0];
        let rest = inputs.drop_first();
        let next = next_of(m, first);
        assert(attempts(m.config, inputs[0], peer) && inputs[0].1 == at);
        session_laws::lemma_next_is_valid(m, first);
        assert(next.config == m.config) by {
            reveal(next_of);
        }
        assert forall|i: int| 0 <= i < rest.len() implies attempts(
            next.config,
            #[trigger] rest[i],
            peer,
        ) && rest[i].1 == at by {
            assert(rest[i] == inputs[i + 1]);
        }
        lemma_bucket_step(m, first, peer);
        law_tokens_come_back(next, rest, peer, at);
    }
}

} // verus!
