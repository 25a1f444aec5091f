//! What holds of every FakeTCP path.

use vstd::prelude::*;

use std::task::Waker;

use crate::address::SocketAddressV4;
use crate::faketcp;
use crate::faketcp::{FakeTcpRole, PathModel, PathPhase, StateModel};
use crate::id::PeerId;
use crate::packet::{ParsedModel, RawModel, TCP_ACK, TCP_RST, TCP_SYN};
use crate::table;
use crate::transport::PacketModel;

verus! {

/// What the other end reads of a segment that was sent.
pub open spec fn arrives(raw: RawModel) -> ParsedModel {
    ParsedModel {
        source: raw.source,
        destination: raw.destination.ip,
        source_port: raw.source_port,
        destination_port: raw.destination.port,
        sequence: raw.sequence,
        acknowledgement: raw.acknowledgement,
        flags: raw.flags,
        payload: raw.payload,
    }
}

/// The address that a segment comes from.
pub open spec fn sender_of(raw: RawModel) -> SocketAddressV4 {
    SocketAddressV4 { ip: raw.source, port: raw.source_port }
}

/// Two established paths that agree on their sequence numbers.
pub open spec fn in_step(a: PathModel, b: PathModel) -> bool {
    &&& a.phase == PathPhase::Established
    &&& b.phase == PathPhase::Established
    &&& a.next_sequence == b.expected_sequence
    &&& b.next_sequence == a.expected_sequence
}

/// A new state is valid.
pub proof fn law_new_state_is_valid(queue_capacity: usize)
    ensures
        faketcp::state_valid(
            StateModel {
                paths: Seq::empty(),
                peers: Seq::empty(),
                incoming: Seq::empty(),
                pending_packets: Seq::empty(),
                receiver_waker: None,
                queue_capacity,
            },
        ),
{
}

/// Sending what waited leaves nothing waiting and changes neither peer nor route.
proof fn lemma_flushed(path: PathModel, source_port: u16, count: nat)
    requires
        count <= path.pending_frames.len(),
    ensures
        ({
            let sent = faketcp::flushed(path, source_port, count);
            &&& sent.0.peer == path.peer
            &&& sent.0.peer_id == path.peer_id
            &&& sent.0.local_ip == path.local_ip
            &&& sent.0.phase == path.phase
            &&& sent.0.expected_sequence == path.expected_sequence
            &&& sent.0.pending_frames == path.pending_frames.skip(count as int)
            &&& sent.1.len() == count
            &&& forall|i: int|
                0 <= i < count ==> (#[trigger] sent.1[i]).payload == path.pending_frames[i]
                    && sent.1[i].destination == path.peer
        }),
    decreases count,
{
    if count > 0 {
        lemma_flushed(path, source_port, (count - 1) as nat);
        let earlier = faketcp::flushed(path, source_port, (count - 1) as nat);
        let sent = faketcp::flushed(path, source_port, count);
        assert forall|i: int| 0 <= i < count implies (#[trigger] sent.1[i]).payload
            == path.pending_frames[i] && sent.1[i].destination == path.peer by {
            if i < count - 1 {
                assert(sent.1[i] == earlier.1[i]);
            }
        }
    } else {
        assert(path.pending_frames.skip(0) =~= path.pending_frames);
    }
}

/// Frames that wait for the handshake of their path go out in their order once it
/// is established, and none is lost.
pub proof fn law_waiting_frames_go_out_in_order(path: PathModel, source_port: u16)
    ensures
        ({
            let sent = faketcp::flushed(path, source_port, path.pending_frames.len());
            &&& sent.0.pending_frames.len() == 0
            &&& sent.1.len() == path.pending_frames.len()
            &&& forall|i: int|
                0 <= i < sent.1.len() ==> (#[trigger] sent.1[i]).payload == path.pending_frames[i]
                    && sent.1[i].destination == path.peer
        }),
{
    lemma_flushed(path, source_port, path.pending_frames.len());
}

/// A reaction keeps the peer and the route of a path, and no more waits for it than
/// before.
proof fn lemma_reaction_keeps_path(
    path: PathModel,
    local_port: u16,
    role: FakeTcpRole,
    source: SocketAddressV4,
    segment: ParsedModel,
    inbound_full: bool,
)
    ensures
        ({
            let expected = faketcp::reaction(
                path,
                local_port,
                role,
                source,
                segment,
                inbound_full,
            );
            &&& expected.path matches Some(next) ==> next.peer == path.peer && next.peer_id
                == path.peer_id && next.pending_frames.len() <= path.pending_frames.len()
            &&& expected.delivers is Some ==> !inbound_full && expected.path is Some
        }),
{
    let after_answer = PathModel {
        phase: PathPhase::Established,
        expected_sequence: faketcp::sequence_after(segment.sequence, 1),
        ..path
    };
    let after_finish = PathModel { phase: PathPhase::Established, ..path };
    lemma_flushed(after_answer, local_port, path.pending_frames.len());
    lemma_flushed(after_finish, local_port, path.pending_frames.len());
}

/// Whatever arrives, the queues stay within their capacity and every known address
/// keeps a path of its own.
pub proof fn law_segments_keep_the_state_valid(
    m: StateModel,
    local_port: u16,
    role: FakeTcpRole,
    source: SocketAddressV4,
    segment: ParsedModel,
    drawn: Option<u32>,
)
    requires
        faketcp::state_valid(m),
    ensures
        faketcp::state_valid(
            faketcp::after_segment(m, local_port, role, source, segment, drawn).0,
        ),
{
    let next = faketcp::after_segment(m, local_port, role, source, segment, drawn).0;
    match table::lookup(m.peers, source) {
        None => {
            if faketcp::opens_path(m, role, source, segment) && drawn is Some {
                let route = faketcp::route_of(source);
                let path = faketcp::accepted_path(source, segment, drawn->Some_0);
                table::lemma_put(m.peers, source, route, source);
                table::lemma_put(m.paths, route, path, route);
                lemma_paths_after_put(m, next, route, path);
                assert forall|address: SocketAddressV4| #[trigger]
                    table::lookup(next.peers, address) matches Some(peer_id) implies table::lookup(
                    next.paths,
                    table::lookup(next.peers, address)->Some_0,
                ) matches Some(path) && path.peer == address by {
                    table::lemma_put(m.peers, source, route, address);
                    if address != source {
                        let known = table::lookup(m.peers, address)->Some_0;
                        table::lemma_put(m.paths, route, path, known);
                    }
                }
            }
        },
        Some(peer_id) => {
            let path = table::lookup(m.paths, peer_id)->Some_0;
            let full = m.incoming.len() >= m.queue_capacity;
            let expected = faketcp::reaction(path, local_port, role, source, segment, full);
            lemma_reaction_keeps_path(path, local_port, role, source, segment, full);
            match expected.path {
                None => {
                    table::lemma_without(m.peers, source, source);
                    table::lemma_without(m.paths, peer_id, peer_id);
                    assert forall|id: PeerId| #[trigger]
                        table::lookup(next.paths, id) matches Some(_) implies table::lookup(
                        next.paths,
                        id,
                    )->Some_0.pending_frames.len() <= m.queue_capacity && table::lookup(
                        next.paths,
                        id,
                    )->Some_0.peer_id == id by {
                        table::lemma_without(m.paths, peer_id, id);
                    }
                    assert forall|address: SocketAddressV4| #[trigger]
                        table::lookup(next.peers, address) matches Some(_) implies table::lookup(
                        next.paths,
                        table::lookup(next.peers, address)->Some_0,
                    ) matches Some(path) && path.peer == address by {
                        table::lemma_without(m.peers, source, address);
                        let known = table::lookup(m.peers, address)->Some_0;
                        table::lemma_without(m.paths, peer_id, known);
                    }
                },
                Some(after) => {
                    table::lemma_put(m.paths, peer_id, after, peer_id);
                    lemma_paths_after_put(m, next, peer_id, after);
                    assert forall|address: SocketAddressV4| #[trigger]
                        table::lookup(next.peers, address) matches Some(_) implies table::lookup(
                        next.paths,
                        table::lookup(next.peers, address)->Some_0,
                    ) matches Some(path) && path.peer == address by {
                        let known = table::lookup(m.peers, address)->Some_0;
                        table::lemma_put(m.paths, peer_id, after, known);
                    }
                },
            }
        },
    }
}

proof fn lemma_paths_after_put(m: StateModel, next: StateModel, peer_id: PeerId, path: PathModel)
    requires
        faketcp::state_valid(m),
        next.paths == table::put(m.paths, peer_id, path),
        path.peer_id == peer_id,
        path.pending_frames.len() <= m.queue_capacity,
    ensures
        forall|id: PeerId| #[trigger]
            table::lookup(next.paths, id) matches Some(found) ==> found.pending_frames.len()
                <= m.queue_capacity && found.peer_id == id,
{
    assert forall|id: PeerId| #[trigger]
        table::lookup(next.paths, id) matches Some(_) implies table::lookup(
        next.paths,
        id,
    )->Some_0.pending_frames.len() <= m.queue_capacity && table::lookup(
        next.paths,
        id,
    )->Some_0.peer_id == id by {
        table::lemma_put(m.paths, peer_id, path, id);
    }
}

/// Whatever the host sends, the queues stay within their capacity and every known
/// address keeps a path of its own.
pub proof fn law_sends_keep_the_state_valid(m: StateModel, local_port: u16, packet: PacketModel)
    requires
        faketcp::state_valid(m),
    ensures
        faketcp::state_valid(faketcp::after_send(m, local_port, packet).0),
{
    let next = faketcp::after_send(m, local_port, packet).0;
    match table::lookup(m.paths, packet.peer_id) {
        None => {},
        Some(path) => {
            if next != m {
                let after = table::lookup(next.paths, packet.peer_id)->Some_0;
                let waiting = PathModel {
                    pending_frames: path.pending_frames.push(packet.frame),
                    ..path
                };
                let sent = faketcp::after_frame(path, packet.frame);
                table::lemma_put(m.paths, packet.peer_id, waiting, packet.peer_id);
                table::lemma_put(m.paths, packet.peer_id, sent, packet.peer_id);
                lemma_paths_after_put(m, next, packet.peer_id, after);
                assert forall|address: SocketAddressV4| #[trigger]
                    table::lookup(next.peers, address) matches Some(_) implies table::lookup(
                    next.paths,
                    table::lookup(next.peers, address)->Some_0,
                ) matches Some(path) && path.peer == address by {
                    let known = table::lookup(m.peers, address)->Some_0;
                    table::lemma_put(m.paths, packet.peer_id, after, known);
                }
            }
        },
    }
}

/// A client's path to a new server keeps the state valid.
pub proof fn law_client_paths_keep_the_state_valid(
    m: StateModel,
    local: SocketAddressV4,
    peer: SocketAddressV4,
    peer_id: PeerId,
    sequence: u32,
)
    requires
        faketcp::state_valid(m),
        !table::holds(m.peers, peer),
        !table::holds(m.paths, peer_id),
    ensures
        faketcp::state_valid(faketcp::with_client_path(m, local, peer, peer_id, sequence)),
{
    let next = faketcp::with_client_path(m, local, peer, peer_id, sequence);
    table::lemma_position(next.paths, peer_id);
    let path = PathModel {
        peer,
        peer_id,
        local_ip: local.ip,
        phase: PathPhase::ClientSynSent,
        next_sequence: faketcp::sequence_after(sequence, 1),
        expected_sequence: 0,
        pending_frames: Seq::empty(),
    };
    table::lemma_put(m.peers, peer, peer_id, peer);
    table::lemma_put(m.paths, peer_id, path, peer_id);
    lemma_paths_after_put(m, next, peer_id, path);
    assert forall|address: SocketAddressV4| #[trigger]
        table::lookup(next.peers, address) matches Some(_) implies table::lookup(
        next.paths,
        table::lookup(next.peers, address)->Some_0,
    ) matches Some(path) && path.peer == address by {
        table::lemma_put(m.peers, peer, peer_id, address);
        if address != peer {
            let known = table::lookup(m.peers, address)->Some_0;
            table::lemma_put(m.paths, peer_id, path, known);
        }
    }
}

/// The outer handshake: a client opens a path, the server answers its `SYN`, the
/// client acknowledges, and then both paths are established and in step.
pub proof fn law_outer_handshake_establishes_paths(
    c: StateModel,
    s: StateModel,
    client: SocketAddressV4,
    server: SocketAddressV4,
    peer_id: PeerId,
    client_sequence: u32,
    server_sequence: u32,
)
    requires
        !table::holds(s.peers, client),
        !table::holds(s.paths, faketcp::route_of(client)),
    ensures
        ({
            let opened = faketcp::with_client_path(c, client, server, peer_id, client_sequence);
            let syn = opened.pending_packets.last();
            let accepted = faketcp::after_segment(
                s,
                server.port,
                FakeTcpRole::Server,
                sender_of(syn),
                arrives(syn),
                Some(server_sequence),
            ).0;
            let answer = accepted.pending_packets.last();
            let ready = faketcp::after_segment(
                opened,
                client.port,
                FakeTcpRole::Client,
                sender_of(answer),
                arrives(answer),
                None,
            ).0;
            let ack = ready.pending_packets.last();
            let established = faketcp::after_segment(
                accepted,
                server.port,
                FakeTcpRole::Server,
                sender_of(ack),
                arrives(ack),
                None,
            ).0;
            &&& sender_of(syn) == client
            &&& sender_of(answer) == server
            &&& sender_of(ack) == client
            &&& table::lookup(ready.paths, peer_id) matches Some(near) && (table::lookup(
                established.paths,
                faketcp::route_of(client),
            ) matches Some(far) && in_step(near, far) && near.peer == server && far.peer == client)
        }),
{
    let near = PathModel {
        peer: server,
        peer_id,
        local_ip: client.ip,
        phase: PathPhase::ClientSynSent,
        next_sequence: faketcp::sequence_after(client_sequence, 1),
        expected_sequence: 0,
        pending_frames: Seq::empty(),
    };
    let opened = faketcp::with_client_path(c, client, server, peer_id, client_sequence);
    let syn = opened.pending_packets.last();
    table::lemma_put(c.peers, server, peer_id, server);
    table::lemma_put(c.paths, peer_id, near, peer_id);
    let route = faketcp::route_of(client);
    let far = faketcp::accepted_path(client, arrives(syn), server_sequence);
    assert(sender_of(syn) == client);
    let accepted = faketcp::after_segment(
        s,
        server.port,
        FakeTcpRole::Server,
        client,
        arrives(syn),
        Some(server_sequence),
    ).0;
    table::lemma_put(s.peers, client, route, client);
    table::lemma_put(s.paths, route, far, route);
    let answer = accepted.pending_packets.last();
    assert(sender_of(answer) == server);
    let full = opened.incoming.len() >= opened.queue_capacity;
    let step = faketcp::reaction(
        near,
        client.port,
        FakeTcpRole::Client,
        server,
        arrives(answer),
        full,
    );
    let near_ready = PathModel {
        phase: PathPhase::Established,
        expected_sequence: faketcp::sequence_after(server_sequence, 1),
        ..near
    };
    assert(step.path == Some(near_ready));
    assert(step.sends =~= seq![
        RawModel { destination: server, ..faketcp::control(near_ready, client.port, TCP_ACK) },
    ]);
    let ready = faketcp::after_segment(
        opened,
        client.port,
        FakeTcpRole::Client,
        server,
        arrives(answer),
        None,
    ).0;
    table::lemma_put(opened.paths, peer_id, near_ready, peer_id);
    let ack = ready.pending_packets.last();
    assert(ack == step.sends[0]);
    assert(sender_of(ack) == client);
    let far_full = accepted.incoming.len() >= accepted.queue_capacity;
    let last = faketcp::reaction(
        far,
        server.port,
        FakeTcpRole::Server,
        client,
        arrives(ack),
        far_full,
    );
    let far_ready = PathModel { phase: PathPhase::Established, ..far };
    assert(last.path == Some(far_ready));
    table::lemma_put(accepted.paths, route, far_ready, route);
}

/// A frame that goes out on a path arrives at a path that is in step with it, and
/// leaves both in step.
pub proof fn law_frames_arrive(
    a: PathModel,
    b: PathModel,
    ports: (u16, u16),
    role: FakeTcpRole,
    source: SocketAddressV4,
    frame: Seq<u8>,
)
    requires
        in_step(a, b),
        frame.len() > 0,
    ensures
        ({
            let segment = arrives(faketcp::carrier(a, ports.0, frame));
            let step = faketcp::reaction(b, ports.1, role, source, segment, false);
            &&& step.delivers == Some(frame)
            &&& step.wakes
            &&& step.path matches Some(next) && in_step(faketcp::after_frame(a, frame), next)
        }),
{
}

/// A segment that was delivered is not delivered again.
pub proof fn law_frames_are_delivered_once(
    path: PathModel,
    local_port: u16,
    role: FakeTcpRole,
    source: SocketAddressV4,
    segment: ParsedModel,
    inbound_full: bool,
)
    requires
        segment.payload.len() <= u32::MAX,
        faketcp::reaction(path, local_port, role, source, segment, false).delivers is Some,
    ensures
        ({
            let first = faketcp::reaction(path, local_port, role, source, segment, false);
            let next = first.path->Some_0;
            faketcp::reaction(next, local_port, role, source, segment, inbound_full)
                == faketcp::ignored(next)
        }),
{
}

/// A full queue takes nothing and acknowledges nothing.
pub proof fn law_full_queues_take_nothing(
    path: PathModel,
    local_port: u16,
    role: FakeTcpRole,
    source: SocketAddressV4,
    segment: ParsedModel,
)
    requires
        path.phase == PathPhase::Established,
        (segment.flags / TCP_RST) % 2 == 0,
    ensures
        faketcp::reaction(path, local_port, role, source, segment, true) == faketcp::ignored(path),
{
}

/// A reset ends an established path, and the address is unknown again.
pub proof fn law_resets_end_paths(
    m: StateModel,
    local_port: u16,
    role: FakeTcpRole,
    source: SocketAddressV4,
    segment: ParsedModel,
    drawn: Option<u32>,
)
    requires
        faketcp::state_valid(m),
        table::lookup(m.peers, source) matches Some(peer_id) && table::lookup(
            m.paths,
            peer_id,
        )->Some_0.phase == PathPhase::Established,
        (segment.flags / TCP_RST) % 2 == 1,
    ensures
        ({
            let next = faketcp::after_segment(m, local_port, role, source, segment, drawn).0;
            &&& !table::holds(next.peers, source)
            &&& !table::holds(next.paths, table::lookup(m.peers, source)->Some_0)
            &&& next.incoming == m.incoming
        }),
{
    let peer_id = table::lookup(m.peers, source)->Some_0;
    table::lemma_without(m.peers, source, source);
    table::lemma_without(m.paths, peer_id, peer_id);
}

/// Segments of strangers change nothing unless they are a bare `SYN` to a server.
pub proof fn law_strangers_change_nothing(
    m: StateModel,
    local_port: u16,
    role: FakeTcpRole,
    source: SocketAddressV4,
    segment: ParsedModel,
    drawn: Option<u32>,
)
    requires
        !table::holds(m.peers, source),
        role == FakeTcpRole::Client || segment.flags != TCP_SYN,
    ensures
        faketcp::after_segment(m, local_port, role, source, segment, drawn) == (
            m,
            None::<Waker>,
        ),
{
}

} // verus!
