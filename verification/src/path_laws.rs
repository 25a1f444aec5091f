//! What a FakeTCP transport does with each segment and each frame.

use vstd::prelude::*;

use crate::address::SocketAddressV4;
use crate::faketcp;
use crate::faketcp::{
    FakeTcpRole, LinuxFakeTcpConfig, LinuxTransportError, PathModel, PathPhase, StateModel,
};
use crate::faketcp_laws;
use crate::faketcp_laws::{arrives, sender_of};
use crate::id::PeerId;
use crate::packet::{ParsedModel, RawModel};
use crate::table;
use crate::transport::PacketModel;

verus! {

/// The path of a known address.
pub open spec fn path_of(m: StateModel, address: SocketAddressV4) -> Option<PathModel> {
    match table::lookup(m.peers, address) {
        Some(peer_id) => table::lookup(m.paths, peer_id),
        None => None,
    }
}

/// Numbers count octets and start again after the last one.
pub open spec fn further(sequence: u32, octets: int) -> int {
    (sequence + octets) % 4294967296
}

/// Whether a segment carries the reset flag.
pub open spec fn resets(segment: ParsedModel) -> bool {
    (segment.flags / 4) % 2 == 1
}

/// Whether a segment brings the octets that an established path waits for.
pub open spec fn in_turn(path: PathModel, segment: ParsedModel) -> bool {
    &&& segment.payload.len() > 0
    &&& segment.sequence == path.expected_sequence
    &&& segment.acknowledgement == path.next_sequence
}

/// What a segment does on an established path, unless it is a reset. Where it brings
/// what the path waits for and there is room, its payload is handed to the host, behind
/// what waits there already and under the route of the path, the path waits for what
/// follows, the octets are acknowledged, and the host is called. Anything else changes
/// nothing at all.
pub proof fn law_segments_in_turn_are_delivered(
    m: StateModel,
    local_port: u16,
    role: FakeTcpRole,
    source: SocketAddressV4,
    segment: ParsedModel,
    drawn: Option<u32>,
)
    requires
        faketcp::state_valid(m),
        path_of(m, source) matches Some(path) && path.phase == PathPhase::Established,
        !resets(segment),
        segment.payload.len() <= u32::MAX,
    ensures
        ({
            let step = faketcp::after_segment(m, local_port, role, source, segment, drawn);
            let before = path_of(m, source)->Some_0;
            let next = step.0;
            if in_turn(before, segment) && m.incoming.len() < m.queue_capacity {
                let after = path_of(next, source)->Some_0;
                &&& next.incoming == m.incoming.push(
                    PacketModel { peer_id: before.peer_id, frame: segment.payload },
                )
                &&& path_of(next, source) is Some
                &&& after == (PathModel { expected_sequence: after.expected_sequence, ..before })
                &&& after.expected_sequence == further(
                    before.expected_sequence,
                    segment.payload.len() as int,
                )
                &&& next.pending_packets == m.pending_packets.push(
                    RawModel {
                        source: before.local_ip,
                        destination: source,
                        source_port: local_port,
                        sequence: before.next_sequence,
                        acknowledgement: after.expected_sequence,
                        flags: 16,
                        payload: Seq::empty(),
                    },
                )
                &&& step.1 == m.receiver_waker
                &&& next.receiver_waker is None
            } else {
                step.0 =~= m && step.1 is None
            }
        }),
{
    let peer_id = table::lookup(m.peers, source)->Some_0;
    let before = path_of(m, source)->Some_0;
    let read = PathModel {
        expected_sequence: faketcp::sequence_after(
            before.expected_sequence,
            segment.payload.len() as u32,
        ),
        ..before
    };
    table::lemma_put(m.paths, peer_id, read, peer_id);
    lemma_put_same(m.paths, peer_id);
    let step = faketcp::after_segment(m, local_port, role, source, segment, drawn);
    if in_turn(before, segment) && m.incoming.len() < m.queue_capacity {
        assert(step.0.pending_packets =~= m.pending_packets.push(
            step.0.pending_packets.last(),
        ));
    } else {
        assert(step.0.pending_packets =~= m.pending_packets);
    }
}

proof fn lemma_put_same(paths: Seq<(PeerId, PathModel)>, peer_id: PeerId)
    requires
        table::holds(paths, peer_id),
    ensures
        table::put(paths, peer_id, table::lookup(paths, peer_id)->Some_0) =~= paths,
{
    table::lemma_position(paths, peer_id);
}

/// The segments that carry frames one after the other on a path: each starts where the
/// one before it ended.
pub open spec fn train(
    path: PathModel,
    source_port: u16,
    sequence: int,
    waiting: Seq<Seq<u8>>,
) -> Seq<RawModel>
    decreases waiting.len(),
{
    if waiting.len() == 0 {
        Seq::empty()
    } else {
        seq![
            RawModel {
                source: path.local_ip,
                destination: path.peer,
                source_port,
                sequence: (sequence % 4294967296) as u32,
                acknowledgement: path.expected_sequence,
                flags: 24,
                payload: waiting[0],
            },
        ] + train(path, source_port, sequence + waiting[0].len(), waiting.drop_first())
    }
}

/// How many octets several frames have.
pub open spec fn octets(waiting: Seq<Seq<u8>>) -> nat
    decreases waiting.len(),
{
    if waiting.len() == 0 {
        0
    } else {
        waiting[0].len() + octets(waiting.drop_first())
    }
}

proof fn lemma_train_grows(
    path: PathModel,
    source_port: u16,
    sequence: int,
    waiting: Seq<Seq<u8>>,
    last: Seq<u8>,
)
    ensures
        train(path, source_port, sequence, waiting.push(last)) == train(
            path,
            source_port,
            sequence,
            waiting,
        ).push(
            RawModel {
                source: path.local_ip,
                destination: path.peer,
                source_port,
                sequence: ((sequence + octets(waiting)) % 4294967296) as u32,
                acknowledgement: path.expected_sequence,
                flags: 24,
                payload: last,
            },
        ),
        octets(waiting.push(last)) == octets(waiting) + last.len(),
    decreases waiting.len(),
{
    let more = waiting.push(last);
    if waiting.len() == 0 {
        assert(more.drop_first() =~= Seq::empty());
        assert(train(path, source_port, sequence, waiting) =~= Seq::empty());
        assert(train(path, source_port, sequence + last.len(), more.drop_first())
            =~= Seq::empty());
        assert(octets(more.drop_first()) == 0);
        assert(train(path, source_port, sequence, more) =~= train(
            path,
            source_port,
            sequence,
            waiting,
        ).push(train(path, source_port, sequence, more)[0]));
    } else {
        assert(more.drop_first() =~= waiting.drop_first().push(last));
        lemma_train_grows(
            path,
            source_port,
            sequence + waiting[0].len(),
            waiting.drop_first(),
            last,
        );
        assert(train(path, source_port, sequence, more) =~= train(
            path,
            source_port,
            sequence,
            waiting,
        ).push(train(path, source_port, sequence, more).last()));
    }
}

proof fn lemma_flushed_is_train(path: PathModel, source_port: u16, count: nat)
    requires
        count <= path.pending_frames.len(),
        forall|i: int|
            0 <= i < path.pending_frames.len() ==> (#[trigger] path.pending_frames[i]).len()
                <= u32::MAX,
    ensures
        ({
            let sent = faketcp::flushed(path, source_port, count);
            let gone = path.pending_frames.take(count as int);
            &&& sent.1 == train(path, source_port, path.next_sequence as int, gone)
            &&& sent.0 == (PathModel {
                next_sequence: further(path.next_sequence, octets(gone) as int) as u32,
                pending_frames: path.pending_frames.skip(count as int),
                ..path
            })
        }),
    decreases count,
{
    let gone = path.pending_frames.take(count as int);
    if count == 0 {
        assert(path.pending_frames.skip(0) =~= path.pending_frames);
        assert(gone =~= Seq::empty());
    } else {
        lemma_flushed_is_train(path, source_port, (count - 1) as nat);
        let before = path.pending_frames.take(count - 1);
        let frame = path.pending_frames[count - 1];
        assert(gone =~= before.push(frame));
        lemma_train_grows(path, source_port, path.next_sequence as int, before, frame);
        let a = path.next_sequence as int;
        let b = octets(before) as int;
        let c = frame.len() as int;
        assert(((a + b) % 4294967296 + c) % 4294967296 == (a + b + c) % 4294967296);
    }
}

/// What a segment does on a path whose handshake goes on at a client. The answer of the
/// server that acknowledges the client's own number establishes the path: it is
/// acknowledged, everything that waited goes out behind it in order, one segment for
/// each frame, and the host is called. Anything else changes nothing at all.
pub proof fn law_answers_establish_client_paths(
    m: StateModel,
    local_port: u16,
    source: SocketAddressV4,
    segment: ParsedModel,
    drawn: Option<u32>,
)
    requires
        faketcp::state_valid(m),
        path_of(m, source) matches Some(path) && path.phase == PathPhase::ClientSynSent && forall|
            i: int,
        |
            0 <= i < path.pending_frames.len() ==> (#[trigger] path.pending_frames[i]).len()
                <= u32::MAX,
    ensures
        ({
            let step = faketcp::after_segment(
                m,
                local_port,
                FakeTcpRole::Client,
                source,
                segment,
                drawn,
            );
            let before = path_of(m, source)->Some_0;
            let waiting = before.pending_frames;
            if segment.flags == 18 && segment.acknowledgement == before.next_sequence {
                let after = path_of(step.0, source)->Some_0;
                &&& path_of(step.0, source) is Some
                &&& after.phase == PathPhase::Established
                &&& after.peer == before.peer && after.peer_id == before.peer_id && after.local_ip
                    == before.local_ip
                &&& after.pending_frames.len() == 0
                &&& after.expected_sequence == further(segment.sequence, 1)
                &&& after.next_sequence == further(before.next_sequence, octets(waiting) as int)
                &&& step.0.pending_packets == m.pending_packets.push(
                    RawModel {
                        source: before.local_ip,
                        destination: source,
                        source_port: local_port,
                        sequence: before.next_sequence,
                        acknowledgement: after.expected_sequence,
                        flags: 16,
                        payload: Seq::empty(),
                    },
                ) + train(after, local_port, before.next_sequence as int, waiting)
                &&& step.0.incoming == m.incoming
                &&& step.1 == m.receiver_waker
            } else {
                step.0 =~= m && step.1 is None
            }
        }),
{
    let peer_id = table::lookup(m.peers, source)->Some_0;
    let before = path_of(m, source)->Some_0;
    let waiting = before.pending_frames;
    let ready = PathModel {
        phase: PathPhase::Established,
        expected_sequence: faketcp::sequence_after(segment.sequence, 1),
        ..before
    };
    lemma_flushed_is_train(ready, local_port, waiting.len());
    assert(waiting.take(waiting.len() as int) =~= waiting);
    let after = faketcp::flushed(ready, local_port, waiting.len()).0;
    table::lemma_put(m.paths, peer_id, after, peer_id);
    lemma_put_same(m.paths, peer_id);
    let step = faketcp::after_segment(
        m,
        local_port,
        FakeTcpRole::Client,
        source,
        segment,
        drawn,
    );
    if segment.flags == 18 && segment.acknowledgement == before.next_sequence {
        lemma_train_of_alike(ready, after, local_port, before.next_sequence as int, waiting);
        assert(step.0.pending_packets =~= m.pending_packets.push(
            RawModel {
                source: before.local_ip,
                destination: source,
                source_port: local_port,
                sequence: before.next_sequence,
                acknowledgement: after.expected_sequence,
                flags: 16,
                payload: Seq::empty(),
            },
        ) + train(after, local_port, before.next_sequence as int, waiting));
    } else {
        assert(step.0.pending_packets =~= m.pending_packets);
    }
}

proof fn lemma_train_of_alike(
    a: PathModel,
    b: PathModel,
    source_port: u16,
    sequence: int,
    waiting: Seq<Seq<u8>>,
)
    requires
        a.local_ip == b.local_ip,
        a.peer == b.peer,
        a.expected_sequence == b.expected_sequence,
    ensures
        train(a, source_port, sequence, waiting) == train(b, source_port, sequence, waiting),
    decreases waiting.len(),
{
    if waiting.len() > 0 {
        lemma_train_of_alike(
            a,
            b,
            source_port,
            sequence + waiting[0].len(),
            waiting.drop_first(),
        );
    }
}

/// What a segment does on a path whose handshake goes on at a server. The bare
/// acknowledgement of the server's own number, with the number that the path waits for,
/// establishes the path, and everything that waited goes out in order. Anything else
/// changes nothing at all.
pub proof fn law_acknowledgements_establish_server_paths(
    m: StateModel,
    local_port: u16,
    source: SocketAddressV4,
    segment: ParsedModel,
    drawn: Option<u32>,
)
    requires
        faketcp::state_valid(m),
        path_of(m, source) matches Some(path) && path.phase == PathPhase::ServerSynAckSent
            && forall|i: int|
            0 <= i < path.pending_frames.len() ==> (#[trigger] path.pending_frames[i]).len()
                <= u32::MAX,
    ensures
        ({
            let step = faketcp::after_segment(
                m,
                local_port,
                FakeTcpRole::Server,
                source,
                segment,
                drawn,
            );
            let before = path_of(m, source)->Some_0;
            let waiting = before.pending_frames;
            &&& step.1 is None
            &&& if segment.flags == 16 && segment.sequence == before.expected_sequence
                && segment.acknowledgement == before.next_sequence {
                let after = path_of(step.0, source)->Some_0;
                &&& path_of(step.0, source) is Some
                &&& after == (PathModel {
                    phase: PathPhase::Established,
                    next_sequence: after.next_sequence,
                    pending_frames: Seq::empty(),
                    ..before
                })
                &&& after.next_sequence == further(before.next_sequence, octets(waiting) as int)
                &&& step.0.pending_packets == m.pending_packets + train(
                    before,
                    local_port,
                    before.next_sequence as int,
                    waiting,
                )
                &&& step.0.incoming == m.incoming
            } else {
                step.0 =~= m
            }
        }),
{
    let peer_id = table::lookup(m.peers, source)->Some_0;
    let before = path_of(m, source)->Some_0;
    let waiting = before.pending_frames;
    let ready = PathModel { phase: PathPhase::Established, ..before };
    lemma_flushed_is_train(ready, local_port, waiting.len());
    assert(waiting.take(waiting.len() as int) =~= waiting);
    assert(waiting.skip(waiting.len() as int) =~= Seq::empty());
    lemma_train_of_alike(ready, before, local_port, before.next_sequence as int, waiting);
    let after = faketcp::flushed(ready, local_port, waiting.len()).0;
    table::lemma_put(m.paths, peer_id, after, peer_id);
    lemma_put_same(m.paths, peer_id);
    let step = faketcp::after_segment(
        m,
        local_port,
        FakeTcpRole::Server,
        source,
        segment,
        drawn,
    );
    if step.0.pending_packets.len() == m.pending_packets.len() {
        assert(step.0.pending_packets =~= m.pending_packets);
    }
}

/// What a server does with a segment of an address that it does not know: a bare `SYN`
/// opens a path whose route tells that address, answered with the server's drawn number
/// and an acknowledgement of the `SYN`. Anything else changes nothing at all.
pub proof fn law_strangers_open_paths(
    m: StateModel,
    local_port: u16,
    source: SocketAddressV4,
    segment: ParsedModel,
    sequence: u32,
)
    requires
        faketcp::state_valid(m),
        !table::holds(m.peers, source),
    ensures
        ({
            let step = faketcp::after_segment(
                m,
                local_port,
                FakeTcpRole::Server,
                source,
                segment,
                Some(sequence),
            );
            let route = table::lookup(step.0.peers, source)->Some_0;
            if segment.flags == 2 && !table::holds(m.paths, faketcp::route_of(source)) {
                let path = path_of(step.0, source)->Some_0;
                &&& route.number() == source.ip * 65536 + source.port
                &&& path_of(step.0, source) is Some
                &&& path.peer == source && path.peer_id == route && path.local_ip
                    == segment.destination
                &&& path.phase == PathPhase::ServerSynAckSent
                &&& path.pending_frames.len() == 0
                &&& path.next_sequence == further(sequence, 1)
                &&& path.expected_sequence == further(segment.sequence, 1)
                &&& step.0.pending_packets == m.pending_packets.push(
                    RawModel {
                        source: segment.destination,
                        destination: source,
                        source_port: local_port,
                        sequence,
                        acknowledgement: path.expected_sequence,
                        flags: 18,
                        payload: Seq::empty(),
                    },
                )
                &&& step.0.incoming == m.incoming
                &&& step.1 == m.receiver_waker
            } else {
                step.0 == m && step.1 is None
            }
        }),
{
    let route = faketcp::route_of(source);
    let path = faketcp::accepted_path(source, segment, sequence);
    table::lemma_put(m.peers, source, route, source);
    table::lemma_put(m.paths, route, path, route);
    PeerId::number_identifies(route, (source.ip * 0x1_0000 + source.port) as u64);
}

/// What a transport does with a frame of the host. On an established path a segment goes
/// out at once with the next number, and the path counts its octets. While the handshake
/// goes on the frame waits behind the others, as long as there is room. Where there is
/// no path, no room, or the frame is too long, nothing changes.
pub proof fn law_frames_go_out_or_wait(m: StateModel, local_port: u16, packet: PacketModel)
    requires
        faketcp::state_valid(m),
    ensures
        ({
            let step = faketcp::after_send(m, local_port, packet);
            let after = table::lookup(step.0.paths, packet.peer_id);
            &&& step.0 == (StateModel { paths: step.0.paths, ..m })
            &&& match table::lookup(m.paths, packet.peer_id) {
                _ if packet.frame.len() > 65515 => step.0 == m && step.1 == Err::<
                    Option<RawModel>,
                    LinuxTransportError,
                >(LinuxTransportError::FrameTooLarge),
                None => step.0 == m && step.1 == Err::<Option<RawModel>, LinuxTransportError>(
                    LinuxTransportError::UnknownPeer(packet.peer_id.number()),
                ),
                Some(path) => if path.phase == PathPhase::Established {
                    &&& after == Some(
                        PathModel { next_sequence: after->Some_0.next_sequence, ..path },
                    )
                    &&& after->Some_0.next_sequence == further(
                        path.next_sequence,
                        packet.frame.len() as int,
                    )
                    &&& step.1 == Ok::<Option<RawModel>, LinuxTransportError>(
                        Some(
                            RawModel {
                                source: path.local_ip,
                                destination: path.peer,
                                source_port: local_port,
                                sequence: path.next_sequence,
                                acknowledgement: path.expected_sequence,
                                flags: 24,
                                payload: packet.frame,
                            },
                        ),
                    )
                } else if path.pending_frames.len() < m.queue_capacity {
                    &&& after == Some(
                        PathModel {
                            pending_frames: path.pending_frames.push(packet.frame),
                            ..path
                        },
                    )
                    &&& step.1 == Ok::<Option<RawModel>, LinuxTransportError>(None)
                } else {
                    step.0 == m && step.1 == Err::<Option<RawModel>, LinuxTransportError>(
                        LinuxTransportError::HandshakePending(packet.peer_id.number()),
                    )
                },
            }
        }),
{
    if table::holds(m.paths, packet.peer_id) {
        let path = table::lookup(m.paths, packet.peer_id)->Some_0;
        table::lemma_put(
            m.paths,
            packet.peer_id,
            faketcp::after_frame(path, packet.frame),
            packet.peer_id,
        );
        table::lemma_put(
            m.paths,
            packet.peer_id,
            PathModel { pending_frames: path.pending_frames.push(packet.frame), ..path },
            packet.peer_id,
        );
    }
}

/// Paths are isolated: what arrives from one address, and what is sent on its path, no
/// other path notices.
pub proof fn law_paths_are_isolated(
    m: StateModel,
    local_port: u16,
    role: FakeTcpRole,
    source: SocketAddressV4,
    segment: ParsedModel,
    drawn: Option<u32>,
    packet: PacketModel,
    other: SocketAddressV4,
)
    requires
        faketcp::state_valid(m),
        other != source,
        table::lookup(m.peers, other) != Some(packet.peer_id),
    ensures
        path_of(
            faketcp::after_segment(m, local_port, role, source, segment, drawn).0,
            other,
        ) == path_of(m, other),
        path_of(faketcp::after_send(m, local_port, packet).0, other) == path_of(m, other),
{
    if table::holds(m.peers, other) {
        let theirs = table::lookup(m.peers, other)->Some_0;
        lemma_send_leaves_others(m, local_port, packet, theirs);
        lemma_segment_leaves_others(m, local_port, role, source, segment, drawn, other, theirs);
    } else {
        lemma_send_leaves_peers(m, local_port, packet);
        lemma_segment_makes_no_other(m, local_port, role, source, segment, drawn, other);
    }
}

proof fn lemma_send_leaves_peers(m: StateModel, local_port: u16, packet: PacketModel)
    ensures
        faketcp::after_send(m, local_port, packet).0.peers == m.peers,
{
}

proof fn lemma_send_leaves_others(
    m: StateModel,
    local_port: u16,
    packet: PacketModel,
    theirs: PeerId,
)
    requires
        theirs != packet.peer_id,
    ensures
        faketcp::after_send(m, local_port, packet).0.peers == m.peers,
        table::lookup(faketcp::after_send(m, local_port, packet).0.paths, theirs)
            == table::lookup(m.paths, theirs),
{
    if table::holds(m.paths, packet.peer_id) {
        let path = table::lookup(m.paths, packet.peer_id)->Some_0;
        table::lemma_put(
            m.paths,
            packet.peer_id,
            faketcp::after_frame(path, packet.frame),
            theirs,
        );
        table::lemma_put(
            m.paths,
            packet.peer_id,
            PathModel { pending_frames: path.pending_frames.push(packet.frame), ..path },
            theirs,
        );
    }
}

proof fn lemma_segment_leaves_others(
    m: StateModel,
    local_port: u16,
    role: FakeTcpRole,
    source: SocketAddressV4,
    segment: ParsedModel,
    drawn: Option<u32>,
    other: SocketAddressV4,
    theirs: PeerId,
)
    requires
        faketcp::state_valid(m),
        other != source,
        table::lookup(m.peers, other) == Some(theirs),
    ensures
        ({
            let next = faketcp::after_segment(m, local_port, role, source, segment, drawn).0;
            &&& table::lookup(next.peers, other) == Some(theirs)
            &&& table::lookup(next.paths, theirs) == table::lookup(m.paths, theirs)
        }),
{
    assert(table::lookup(m.paths, theirs)->Some_0.peer == other);
    match table::lookup(m.peers, source) {
        None => {
            if faketcp::opens_path(m, role, source, segment) && drawn is Some {
                let route = faketcp::route_of(source);
                let path = faketcp::accepted_path(source, segment, drawn->Some_0);
                table::lemma_put(m.peers, source, route, other);
                table::lemma_put(m.paths, route, path, theirs);
            }
        },
        Some(peer_id) => {
            assert(table::lookup(m.paths, peer_id)->Some_0.peer == source);
            let path = table::lookup(m.paths, peer_id)->Some_0;
            let full = m.incoming.len() >= m.queue_capacity;
            let expected = faketcp::reaction(path, local_port, role, source, segment, full);
            table::lemma_without(m.peers, source, other);
            table::lemma_without(m.paths, peer_id, theirs);
            if expected.path is Some {
                table::lemma_put(m.paths, peer_id, expected.path->Some_0, theirs);
            }
        },
    }
}

proof fn lemma_segment_makes_no_other(
    m: StateModel,
    local_port: u16,
    role: FakeTcpRole,
    source: SocketAddressV4,
    segment: ParsedModel,
    drawn: Option<u32>,
    other: SocketAddressV4,
)
    requires
        faketcp::state_valid(m),
        other != source,
        !table::holds(m.peers, other),
    ensures
        !table::holds(
            faketcp::after_segment(m, local_port, role, source, segment, drawn).0.peers,
            other,
        ),
{
    table::lemma_put(m.peers, source, faketcp::route_of(source), other);
    table::lemma_without(m.peers, source, other);
}

/// What the host gets of segments that arrive one after the other on a path.
pub open spec fn received(
    m: StateModel,
    local_port: u16,
    role: FakeTcpRole,
    segments: Seq<RawModel>,
) -> StateModel
    decreases segments.len(),
{
    if segments.len() == 0 {
        m
    } else {
        received(
            faketcp::after_segment(
                m,
                local_port,
                role,
                sender_of(segments[0]),
                arrives(segments[0]),
                None,
            ).0,
            local_port,
            role,
            segments.drop_first(),
        )
    }
}

/// A train of frames arrives: where the other end waits for its first octet, has
/// acknowledged what came before and has room, every frame is handed to its host once
/// and in order.
pub proof fn law_trains_arrive(
    path: PathModel,
    port: u16,
    sequence: int,
    waiting: Seq<Seq<u8>>,
    m: StateModel,
    local_port: u16,
    role: FakeTcpRole,
)
    requires
        faketcp::state_valid(m),
        forall|i: int|
            0 <= i < waiting.len() ==> 0 < (#[trigger] waiting[i]).len() <= u32::MAX,
        m.incoming.len() + waiting.len() <= m.queue_capacity,
        path_of(
            m,
            SocketAddressV4 { ip: path.local_ip, port },
        ) matches Some(far) && far.phase == PathPhase::Established && far.expected_sequence
            == sequence % 4294967296 && far.next_sequence == path.expected_sequence,
        sequence >= 0,
    ensures
        ({
            let near = SocketAddressV4 { ip: path.local_ip, port };
            let far = path_of(m, near)->Some_0;
            let after = received(m, local_port, role, train(path, port, sequence, waiting));
            &&& after.incoming == m.incoming + waiting.map_values(
                |frame: Seq<u8>| PacketModel { peer_id: far.peer_id, frame },
            )
            &&& path_of(after, near) matches Some(later) && later.expected_sequence == (sequence
                + octets(waiting)) % 4294967296 && later.next_sequence == far.next_sequence
                && later.phase == PathPhase::Established && later.peer_id == far.peer_id
        }),
    decreases waiting.len(),
{
    let near = SocketAddressV4 { ip: path.local_ip, port };
    let far = path_of(m, near)->Some_0;
    let handed = |frame: Seq<u8>| PacketModel { peer_id: far.peer_id, frame };
    let segments = train(path, port, sequence, waiting);
    if waiting.len() == 0 {
        assert(m.incoming + waiting.map_values(handed) =~= m.incoming);
    } else {
        let first = segments[0];
        let rest = waiting.drop_first();
        assert(sender_of(first) == near);
        assert(0 < waiting[0].len() <= u32::MAX);
        law_segments_in_turn_are_delivered(m, local_port, role, near, arrives(first), None);
        faketcp_laws::law_segments_keep_the_state_valid(
            m,
            local_port,
            role,
            near,
            arrives(first),
            None,
        );
        let next = faketcp::after_segment(m, local_port, role, near, arrives(first), None).0;
        assert forall|i: int| 0 <= i < rest.len() implies 0 < (#[trigger] rest[i]).len()
            <= u32::MAX by {
            assert(rest[i] == waiting[i + 1]);
        }
        let a = sequence;
        let b = waiting[0].len() as int;
        assert((a % 4294967296 + b) % 4294967296 == (a + b) % 4294967296);
        assert(segments.drop_first() =~= train(path, port, sequence + b, rest));
        assert(path_of(next, near)->Some_0.peer_id == far.peer_id);
        law_trains_arrive(path, port, sequence + b, rest, next, local_port, role);
        assert(m.incoming.push(handed(waiting[0])) + rest.map_values(handed) =~= m.incoming
            + waiting.map_values(handed));
    }
}

/// A client opens the path to its server with a `SYN` that carries the drawn number and
/// acknowledges nothing; what follows counts from the number after it.
pub proof fn law_clients_open_paths(
    m: StateModel,
    local: SocketAddressV4,
    peer: SocketAddressV4,
    peer_id: PeerId,
    sequence: u32,
)
    ensures
        ({
            let next = faketcp::with_client_path(m, local, peer, peer_id, sequence);
            let path = path_of(next, peer)->Some_0;
            &&& table::lookup(next.peers, peer) == Some(peer_id)
            &&& path_of(next, peer) is Some
            &&& path.peer == peer && path.peer_id == peer_id && path.local_ip == local.ip
            &&& path.phase == PathPhase::ClientSynSent
            &&& path.next_sequence == further(sequence, 1)
            &&& path.pending_frames.len() == 0
            &&& next.pending_packets == m.pending_packets.push(
                RawModel {
                    source: local.ip,
                    destination: peer,
                    source_port: local.port,
                    sequence,
                    acknowledgement: 0,
                    flags: 2,
                    payload: Seq::empty(),
                },
            )
            &&& next.incoming == m.incoming
        }),
{
    let path = PathModel {
        peer,
        peer_id,
        local_ip: local.ip,
        phase: PathPhase::ClientSynSent,
        next_sequence: faketcp::sequence_after(sequence, 1),
        expected_sequence: 0,
        pending_frames: Seq::empty(),
    };
    table::lemma_put(m.peers, peer, peer_id, peer);
    table::lemma_put(m.paths, peer_id, path, peer_id);
}

/// A transport is set up exactly where its queues hold something, it has an IPv4 address
/// of its own, and it knows its server's IPv4 address where it is a client, and no peer
/// where it is a server.
pub proof fn law_valid_transport_configurations(config: LinuxFakeTcpConfig)
    ensures
        faketcp::transport_fault(config) is None <==> {
            &&& config.queue_capacity > 0
            &&& config.local_addr is V4
            &&& config.role == FakeTcpRole::Client ==> (config.peer_addr matches Some(peer)
                && peer is V4)
            &&& config.role == FakeTcpRole::Server ==> config.peer_addr is None
        },
{
}

} // verus!
