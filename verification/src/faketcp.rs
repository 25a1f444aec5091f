//! The FakeTCP path: a minimal, datagram-oriented TCP handshake over raw IPv4
//! packets. There is no retransmission, flow control or stream reassembly. Inner
//! frames stay opaque; they are authenticated after delivery.

use vstd::prelude::*;

use std::collections::VecDeque;
use std::task::{Context, Poll, Waker};

use crate::address::{SocketAddress, SocketAddressV4};
use crate::entropy::random_u32;
use crate::id::PeerId;
use crate::packet::{
    ParsedModel, ParsedTcpPacket, RawModel, RawTcpPacket, TCP_ACK, TCP_PSH_ACK, TCP_RST, TCP_SYN,
    TCP_SYN_ACK,
};
use crate::table;
use crate::table::Table;
use crate::transport;
use crate::transport::{InboundPacket, OutboundPacket, PacketModel, waker_of};

verus! {

/// The longest inner frame that is taken for sending.
pub const MAX_INNER_FRAME: usize = 65_515;

#[derive(Clone, Copy, Debug, Eq, PartialEq, Structural)]
pub enum FakeTcpRole {
    Client,
    Server,
}

/// Configuration for the IPv4-only Linux FakeTCP transport.
#[derive(Clone, Copy, Debug, Eq, PartialEq, Structural)]
pub struct LinuxFakeTcpConfig {
    pub role: FakeTcpRole,
    /// Client: outer source address. Server: local destination address to accept.
    pub local_addr: SocketAddress,
    /// Required only for a client.
    pub peer_addr: Option<SocketAddress>,
    /// Stable transport route assigned to the configured client peer.
    pub local_peer: PeerId,
    /// Maximum decoded inner frames waiting for the host.
    pub queue_capacity: usize,
}

/// A transport operation that failed.
#[derive(Debug, Eq, PartialEq)]
pub enum LinuxTransportError {
    ZeroQueueCapacity,
    Ipv6Unsupported,
    MissingClientPeer,
    ServerPeerConfigured,
    /// The raw socket could not be set up, and why.
    Socket(String),
    /// The raw packet could not be sent, and why.
    Send(String),
    HandshakePending(u64),
    UnknownPeer(u64),
    FrameTooLarge,
    StatePoisoned,
}

/// What is wrong with a configuration.
pub open spec fn transport_fault(config: LinuxFakeTcpConfig) -> Option<LinuxTransportError> {
    if config.queue_capacity == 0 {
        Some(LinuxTransportError::ZeroQueueCapacity)
    } else if config.local_addr !is V4 {
        Some(LinuxTransportError::Ipv6Unsupported)
    } else {
        match config.role {
            FakeTcpRole::Client => match config.peer_addr {
                Some(SocketAddress::V4(_)) => None,
                _ => Some(LinuxTransportError::MissingClientPeer),
            },
            FakeTcpRole::Server => match config.peer_addr {
                None => None,
                Some(_) => Some(LinuxTransportError::ServerPeerConfigured),
            },
        }
    }
}

impl LinuxFakeTcpConfig {
    pub fn client(local_addr: SocketAddress, peer_addr: SocketAddress, server_peer: PeerId) -> (r:
        Self)
        ensures
            r == (LinuxFakeTcpConfig {
                role: FakeTcpRole::Client,
                local_addr,
                peer_addr: Some(peer_addr),
                local_peer: server_peer,
                queue_capacity: 1024,
            }),
    {
        LinuxFakeTcpConfig {
            role: FakeTcpRole::Client,
            local_addr,
            peer_addr: Some(peer_addr),
            local_peer: server_peer,
            queue_capacity: 1024,
        }
    }

    pub fn server(local_addr: SocketAddress) -> (r: Self)
        ensures
            r.role == FakeTcpRole::Server,
            r.local_addr == local_addr,
            r.peer_addr is None,
            r.local_peer.number() == 0,
            r.queue_capacity == 1024,
    {
        LinuxFakeTcpConfig {
            role: FakeTcpRole::Server,
            local_addr,
            peer_addr: None,
            local_peer: PeerId::new(0),
            queue_capacity: 1024,
        }
    }

    pub fn validate(&self) -> (r: Result<(), LinuxTransportError>)
        ensures
            match r {
                Ok(()) => transport_fault(*self) is None,
                Err(error) => transport_fault(*self) == Some(error),
            },
    {
        if self.queue_capacity == 0 {
            return Err(LinuxTransportError::ZeroQueueCapacity);
        }
        match self.local_addr {
            SocketAddress::V4(_) => {},
            SocketAddress::V6(_) => {
                return Err(LinuxTransportError::Ipv6Unsupported);
            },
        }
        match self.role {
            FakeTcpRole::Client => match self.peer_addr {
                Some(SocketAddress::V4(_)) => Ok(()),
                _ => Err(LinuxTransportError::MissingClientPeer),
            },
            FakeTcpRole::Server => match self.peer_addr {
                None => Ok(()),
                Some(_) => Err(LinuxTransportError::ServerPeerConfigured),
            },
        }
    }
}

/// How far the handshake of a path has come.
#[derive(Clone, Copy, Debug, Eq, PartialEq, Structural)]
pub enum PathPhase {
    ClientSynSent,
    ServerSynAckSent,
    Established,
}

/// A path to one peer.
#[derive(Debug)]
pub struct Path {
    peer: SocketAddressV4,
    peer_id: PeerId,
    local_ip: u32,
    phase: PathPhase,
    next_sequence: u32,
    expected_sequence: u32,
    pending_frames: VecDeque<Vec<u8>>,
}

/// What a [`Path`] holds.
#[verifier::ext_equal]
pub struct PathModel {
    pub peer: SocketAddressV4,
    pub peer_id: PeerId,
    pub local_ip: u32,
    pub phase: PathPhase,
    pub next_sequence: u32,
    pub expected_sequence: u32,
    pub pending_frames: Seq<Seq<u8>>,
}

/// What a list of frames says.
pub open spec fn frame_models(frames: Seq<Vec<u8>>) -> Seq<Seq<u8>> {
    frames.map_values(|frame: Vec<u8>| frame@)
}

/// What a list of packets says.
pub open spec fn raw_models(packets: Seq<RawTcpPacket>) -> Seq<RawModel> {
    packets.map_values(|raw: RawTcpPacket| raw@)
}

impl View for Path {
    type V = PathModel;

    closed spec fn view(&self) -> PathModel {
        PathModel {
            peer: self.peer,
            peer_id: self.peer_id,
            local_ip: self.local_ip,
            phase: self.phase,
            next_sequence: self.next_sequence,
            expected_sequence: self.expected_sequence,
            pending_frames: frame_models(self.pending_frames@),
        }
    }
}

/// The paths of a transport, what arrived for the host and what is to be sent.
pub struct SharedState {
    paths: Table<PeerId, Path>,
    peers: Table<SocketAddressV4, PeerId>,
    incoming: VecDeque<InboundPacket>,
    pending_packets: VecDeque<RawTcpPacket>,
    receiver_waker: Option<Waker>,
    queue_capacity: usize,
}

/// What a [`SharedState`] holds.
#[verifier::ext_equal]
pub struct StateModel {
    pub paths: Seq<(PeerId, PathModel)>,
    pub peers: Seq<(SocketAddressV4, PeerId)>,
    pub incoming: Seq<PacketModel>,
    pub pending_packets: Seq<RawModel>,
    pub receiver_waker: Option<Waker>,
    pub queue_capacity: usize,
}

impl View for SharedState {
    type V = StateModel;

    closed spec fn view(&self) -> StateModel {
        StateModel {
            paths: self.paths@,
            peers: self.peers@,
            incoming: transport::packet_models(self.incoming@),
            pending_packets: raw_models(self.pending_packets@),
            receiver_waker: self.receiver_waker,
            queue_capacity: self.queue_capacity,
        }
    }
}

/// The sequence number `count` octets further on.
pub open spec fn sequence_after(sequence: u32, count: u32) -> u32 {
    ((sequence + count) % 0x1_0000_0000) as u32
}

fn advance(sequence: u32, count: u32) -> (r: u32)
    ensures
        r == sequence_after(sequence, count),
{
    sequence.wrapping_add(count)
}

/// The route of a peer that a server hears of for the first time.
pub open spec fn route_of(address: SocketAddressV4) -> PeerId {
    PeerId::from_number((address.ip * 0x1_0000 + address.port) as u64)
}

pub fn peer_id_for(address: SocketAddressV4) -> (r: PeerId)
    ensures
        r == route_of(address),
        r.number() == address.ip * 0x1_0000 + address.port,
{
    PeerId::new(address.ip as u64 * 0x1_0000 + address.port as u64)
}

/// Addresses have the same route only if they are the same.
pub proof fn law_routes_tell_addresses_apart(a: SocketAddressV4, b: SocketAddressV4)
    ensures
        (route_of(a) == route_of(b)) == (a == b),
{
    PeerId::number_identifies(route_of(a), (a.ip * 0x1_0000 + a.port) as u64);
    PeerId::number_identifies(route_of(b), (b.ip * 0x1_0000 + b.port) as u64);
}

/// A segment without payload on a path.
pub open spec fn control(path: PathModel, source_port: u16, flags: u8) -> RawModel {
    RawModel {
        source: path.local_ip,
        destination: path.peer,
        source_port,
        sequence: path.next_sequence,
        acknowledgement: path.expected_sequence,
        flags,
        payload: Seq::empty(),
    }
}

/// A segment that carries a frame on a path.
pub open spec fn carrier(path: PathModel, source_port: u16, frame: Seq<u8>) -> RawModel {
    RawModel { flags: TCP_PSH_ACK, payload: frame, ..control(path, source_port, TCP_PSH_ACK) }
}

/// A path that has sent a frame.
pub open spec fn after_frame(path: PathModel, frame: Seq<u8>) -> PathModel {
    PathModel { next_sequence: sequence_after(path.next_sequence, frame.len() as u32), ..path }
}

/// A path that has sent the frames that waited for it, and their segments.
pub open spec fn flushed(path: PathModel, source_port: u16, count: nat) -> (
    PathModel,
    Seq<RawModel>,
)
    decreases count,
{
    if count == 0 {
        (path, Seq::empty())
    } else {
        let earlier = flushed(path, source_port, (count - 1) as nat);
        let frame = path.pending_frames[count - 1];
        (
            PathModel {
                pending_frames: path.pending_frames.skip(count as int),
                ..after_frame(earlier.0, frame)
            },
            earlier.1.push(carrier(earlier.0, source_port, frame)),
        )
    }
}

/// The path of a peer that a server hears of for the first time.
pub open spec fn accepted_path(
    source: SocketAddressV4,
    segment: ParsedModel,
    sequence: u32,
) -> PathModel {
    PathModel {
        peer: source,
        peer_id: route_of(source),
        local_ip: segment.destination,
        phase: PathPhase::ServerSynAckSent,
        next_sequence: sequence_after(sequence, 1),
        expected_sequence: sequence_after(segment.sequence, 1),
        pending_frames: Seq::empty(),
    }
}

/// Whether a segment opens a path: a server gets a bare `SYN` of an address that is
/// new to it and whose route is free.
pub open spec fn opens_path(
    m: StateModel,
    role: FakeTcpRole,
    source: SocketAddressV4,
    segment: ParsedModel,
) -> bool {
    &&& !table::holds(m.peers, source)
    &&& role == FakeTcpRole::Server
    &&& segment.flags == TCP_SYN
    &&& !table::holds(m.paths, route_of(source))
}

/// What a segment of a known peer does to its path: the new path, what is to be
/// sent, the frame that is delivered and whether the host is called. `None` where
/// the path goes.
#[verifier::ext_equal]
pub struct Reaction {
    pub path: Option<PathModel>,
    pub sends: Seq<RawModel>,
    pub delivers: Option<Seq<u8>>,
    pub wakes: bool,
}

/// Nothing happens.
pub open spec fn ignored(path: PathModel) -> Reaction {
    Reaction { path: Some(path), sends: Seq::empty(), delivers: None, wakes: false }
}

/// How a path takes a segment.
pub open spec fn reaction(
    path: PathModel,
    local_port: u16,
    role: FakeTcpRole,
    source: SocketAddressV4,
    segment: ParsedModel,
    inbound_full: bool,
) -> Reaction {
    if role == FakeTcpRole::Client && path.phase == PathPhase::ClientSynSent {
        if segment.flags == TCP_SYN_ACK && segment.acknowledgement == path.next_sequence {
            let ready = PathModel {
                phase: PathPhase::Established,
                expected_sequence: sequence_after(segment.sequence, 1),
                ..path
            };
            let sent = flushed(ready, local_port, ready.pending_frames.len());
            Reaction {
                path: Some(sent.0),
                sends: seq![
                    RawModel { destination: source, ..control(ready, local_port, TCP_ACK) },
                ] + sent.1,
                delivers: None,
                wakes: true,
            }
        } else {
            ignored(path)
        }
    } else if role == FakeTcpRole::Server && path.phase == PathPhase::ServerSynAckSent {
        if segment.flags == TCP_ACK && segment.sequence == path.expected_sequence
            && segment.acknowledgement == path.next_sequence {
            let ready = PathModel { phase: PathPhase::Established, ..path };
            let sent = flushed(ready, local_port, ready.pending_frames.len());
            Reaction { path: Some(sent.0), sends: sent.1, delivers: None, wakes: false }
        } else {
            ignored(path)
        }
    } else if path.phase == PathPhase::Established {
        if (segment.flags / TCP_RST) % 2 == 1 {
            Reaction { path: None, sends: Seq::empty(), delivers: None, wakes: false }
        } else if segment.payload.len() > 0 && segment.sequence == path.expected_sequence
            && segment.acknowledgement == path.next_sequence && !inbound_full {
            let read = PathModel {
                expected_sequence: sequence_after(
                    path.expected_sequence,
                    segment.payload.len() as u32,
                ),
                ..path
            };
            Reaction {
                path: Some(read),
                sends: seq![
                    RawModel { destination: source, ..control(read, local_port, TCP_ACK) },
                ],
                delivers: Some(segment.payload),
                wakes: true,
            }
        } else {
            ignored(path)
        }
    } else {
        ignored(path)
    }
}

/// The state after a reaction, and whom to call.
pub open spec fn reacted(
    m: StateModel,
    source: SocketAddressV4,
    peer_id: PeerId,
    path: PathModel,
    reaction: Reaction,
) -> (StateModel, Option<Waker>) {
    let sent = m.pending_packets + reaction.sends;
    match reaction.path {
        None => (
            StateModel {
                peers: table::without(m.peers, source),
                paths: table::without(m.paths, peer_id),
                pending_packets: sent,
                ..m
            },
            None,
        ),
        Some(next) => (
            StateModel {
                paths: table::put(m.paths, peer_id, next),
                incoming: match reaction.delivers {
                    Some(frame) => m.incoming.push(PacketModel { peer_id: path.peer_id, frame }),
                    None => m.incoming,
                },
                pending_packets: sent,
                receiver_waker: if reaction.wakes {
                    None
                } else {
                    m.receiver_waker
                },
                ..m
            },
            if reaction.wakes {
                m.receiver_waker
            } else {
                None
            },
        ),
    }
}

/// What a segment that arrived does to the state, and whom to call. `drawn` is the
/// first sequence number of a new path.
pub open spec fn after_segment(
    m: StateModel,
    local_port: u16,
    role: FakeTcpRole,
    source: SocketAddressV4,
    segment: ParsedModel,
    drawn: Option<u32>,
) -> (StateModel, Option<Waker>) {
    match table::lookup(m.peers, source) {
        None => if opens_path(m, role, source, segment) {
            match drawn {
                None => (m, None),
                Some(sequence) => {
                    let path = accepted_path(source, segment, sequence);
                    (
                        StateModel {
                            peers: table::put(m.peers, source, route_of(source)),
                            paths: table::put(m.paths, route_of(source), path),
                            pending_packets: m.pending_packets.push(
                                RawModel {
                                    sequence,
                                    ..control(path, local_port, TCP_SYN_ACK)
                                },
                            ),
                            receiver_waker: None,
                            ..m
                        },
                        m.receiver_waker,
                    )
                },
            }
        } else {
            (m, None)
        },
        Some(peer_id) => match table::lookup(m.paths, peer_id) {
            None => (m, None),
            Some(path) => reacted(
                m,
                source,
                peer_id,
                path,
                reaction(
                    path,
                    local_port,
                    role,
                    source,
                    segment,
                    m.incoming.len() >= m.queue_capacity,
                ),
            ),
        },
    }
}

/// What becomes of a frame that the host wants to send: a segment to send at once,
/// or nothing yet while the handshake of its path goes on.
pub open spec fn after_send(m: StateModel, local_port: u16, packet: PacketModel) -> (
    StateModel,
    Result<Option<RawModel>, LinuxTransportError>,
) {
    if packet.frame.len() > MAX_INNER_FRAME {
        (m, Err(LinuxTransportError::FrameTooLarge))
    } else {
        match table::lookup(m.paths, packet.peer_id) {
            None => (m, Err(LinuxTransportError::UnknownPeer(packet.peer_id.number()))),
            Some(path) => if path.phase != PathPhase::Established {
                if path.pending_frames.len() >= m.queue_capacity {
                    (m, Err(LinuxTransportError::HandshakePending(packet.peer_id.number())))
                } else {
                    (
                        StateModel {
                            paths: table::put(
                                m.paths,
                                packet.peer_id,
                                PathModel {
                                    pending_frames: path.pending_frames.push(packet.frame),
                                    ..path
                                },
                            ),
                            ..m
                        },
                        Ok(None),
                    )
                }
            } else {
                (
                    StateModel {
                        paths: table::put(
                            m.paths,
                            packet.peer_id,
                            after_frame(path, packet.frame),
                        ),
                        ..m
                    },
                    Ok(Some(carrier(path, local_port, packet.frame))),
                )
            },
        }
    }
}

/// A client's path to its server, and the `SYN` that opens it.
pub open spec fn with_client_path(
    m: StateModel,
    local: SocketAddressV4,
    peer: SocketAddressV4,
    peer_id: PeerId,
    sequence: u32,
) -> StateModel {
    let path = PathModel {
        peer,
        peer_id,
        local_ip: local.ip,
        phase: PathPhase::ClientSynSent,
        next_sequence: sequence_after(sequence, 1),
        expected_sequence: 0,
        pending_frames: Seq::empty(),
    };
    StateModel {
        peers: table::put(m.peers, peer, peer_id),
        paths: table::put(m.paths, peer_id, path),
        pending_packets: m.pending_packets.push(
            RawModel { sequence, ..control(path, local.port, TCP_SYN) },
        ),
        ..m
    }
}

/// Whether a segment is meant for a transport.
pub open spec fn addressed_to(segment: ParsedModel, local: SocketAddressV4) -> bool {
    segment.destination == local.ip && segment.destination_port == local.port
}

impl ParsedTcpPacket {
    /// Whether the segment is meant for a transport.
    pub fn is_addressed_to(&self, local: SocketAddressV4) -> (r: bool)
        ensures
            r == addressed_to(self@, local),
    {
        self.destination == local.ip && self.destination_port == local.port
    }

    /// The address that the segment comes from.
    pub fn sender(&self) -> (r: SocketAddressV4)
        ensures
            r == (SocketAddressV4 { ip: self@.source, port: self@.source_port }),
    {
        SocketAddressV4 { ip: self.source, port: self.source_port }
    }
}

/// The most pending frames of a path, and of frames for the host, is the capacity of
/// the queues; each known address has its own path.
pub open spec fn state_valid(m: StateModel) -> bool {
    &&& m.incoming.len() <= m.queue_capacity
    &&& table::unique_keys(m.paths)
    &&& table::unique_keys(m.peers)
    &&& forall|peer_id: PeerId| #[trigger]
        table::lookup(m.paths, peer_id) matches Some(path) ==> path.pending_frames.len()
            <= m.queue_capacity && path.peer_id == peer_id
    &&& forall|address: SocketAddressV4| #[trigger]
        table::lookup(m.peers, address) matches Some(peer_id) ==> (table::lookup(
            m.paths,
            peer_id,
        ) matches Some(path) && path.peer == address)
}

impl SharedState {
    pub fn new(queue_capacity: usize) -> (r: Self)
        ensures
            r@ == (StateModel {
                paths: Seq::empty(),
                peers: Seq::empty(),
                incoming: Seq::empty(),
                pending_packets: Seq::empty(),
                receiver_waker: None,
                queue_capacity,
            }),
    {
        let r = SharedState {
            paths: Table::new(),
            peers: Table::new(),
            incoming: VecDeque::new(),
            pending_packets: VecDeque::new(),
            receiver_waker: None,
            queue_capacity,
        };
        assert(r@.incoming =~= Seq::empty());
        assert(r@.pending_packets =~= Seq::empty());
        r
    }

    fn push_packet(&mut self, raw: RawTcpPacket)
        ensures
            final(self)@ == (StateModel {
                pending_packets: old(self)@.pending_packets.push(raw@),
                ..old(self)@
            }),
    {
        let ghost before = self@.pending_packets;
        self.pending_packets.push_back(raw);
        assert(self@.pending_packets =~= before.push(raw@));
    }

    /// Installs the path of a client with a drawn first sequence number.
    pub fn install_client_path_with(
        &mut self,
        local: SocketAddressV4,
        peer: SocketAddressV4,
        peer_id: PeerId,
        sequence: u32,
    )
        ensures
            final(self)@ == with_client_path(old(self)@, local, peer, peer_id, sequence),
    {
        let path = Path {
            peer,
            peer_id,
            local_ip: local.ip,
            phase: PathPhase::ClientSynSent,
            next_sequence: advance(sequence, 1),
            expected_sequence: 0,
            pending_frames: VecDeque::new(),
        };
        assert(path@.pending_frames =~= Seq::empty());
        self.peers.insert(peer, peer_id);
        self.paths.insert(peer_id, path);
        let payload: Vec<u8> = Vec::new();
        assert(payload@ =~= Seq::empty());
        self.push_packet(
            RawTcpPacket {
                source: local.ip,
                destination: peer,
                source_port: local.port,
                sequence,
                acknowledgement: 0,
                flags: TCP_SYN,
                payload,
            },
        );
    }

    /// Installs the path of a client.
    pub fn install_client_path(
        &mut self,
        local: SocketAddressV4,
        peer: SocketAddressV4,
        peer_id: PeerId,
    ) -> (r: Result<(), LinuxTransportError>)
        ensures
            match r {
                Ok(()) => exists|sequence: u32|
                    final(self)@ == #[trigger] with_client_path(
                        old(self)@,
                        local,
                        peer,
                        peer_id,
                        sequence,
                    ),
                Err(error) => final(self)@ == old(self)@ && error is Socket,
            },
    {
        match random_u32() {
            Ok(sequence) => {
                self.install_client_path_with(local, peer, peer_id, sequence);
                Ok(())
            },
            Err(error) => Err(error),
        }
    }

    /// Takes what is to be sent.
    pub fn take_pending(&mut self) -> (r: Vec<RawTcpPacket>)
        ensures
            raw_models(r@) == old(self)@.pending_packets,
            final(self)@ == (StateModel { pending_packets: Seq::empty(), ..old(self)@ }),
    {
        let ghost start = self@;
        let mut taken: Vec<RawTcpPacket> = Vec::new();
        let mut packets = VecDeque::new();
        std::mem::swap(&mut packets, &mut self.pending_packets);
        assert(self@.pending_packets =~= Seq::empty());
        let total: usize = packets.len();
        let mut i: usize = 0;
        assert(raw_models(taken@) + raw_models(packets@) =~= start.pending_packets);
        while i < total
            invariant
                i <= total,
                packets@.len() == total - i,
                raw_models(taken@) + raw_models(packets@) == start.pending_packets,
            decreases total - i,
        {
            let ghost before = packets@;
            match packets.pop_front() {
                Some(raw) => {
                    taken.push(raw);
                    assert(raw_models(taken@) + raw_models(packets@)
                        =~= start.pending_packets) by {
                        assert(before =~= seq![raw] + packets@);
                    }
                },
                None => {},
            }
            i += 1;
        }
        assert(raw_models(taken@) =~= start.pending_packets);
        taken
    }

    /// Takes a frame of the host for sending: a segment that comes back is to be
    /// sent at once.
    pub fn prepare_send(&mut self, local_port: u16, packet: OutboundPacket) -> (r: Result<
        Option<RawTcpPacket>,
        LinuxTransportError,
    >)
        ensures
            match r {
                Ok(None) => (
                    final(self)@,
                    Ok::<Option<RawModel>, LinuxTransportError>(None),
                ) == after_send(old(self)@, local_port, packet@),
                Ok(Some(raw)) => (
                    final(self)@,
                    Ok::<Option<RawModel>, LinuxTransportError>(Some(raw@)),
                ) == after_send(old(self)@, local_port, packet@),
                Err(error) => (
                    final(self)@,
                    Err::<Option<RawModel>, LinuxTransportError>(error),
                ) == after_send(old(self)@, local_port, packet@),
            },
    {
        if packet.frame.len() > MAX_INNER_FRAME {
            return Err(LinuxTransportError::FrameTooLarge);
        }
        let capacity: usize = self.queue_capacity;
        let ghost frame = packet.frame@;
        match self.paths.find(packet.peer_id) {
            None => Err(LinuxTransportError::UnknownPeer(packet.peer_id.get())),
            Some(at) => {
                proof {
                    table::lemma_position(self.paths@, packet.peer_id);
                }
                let path = self.paths.value_at_mut(at);
                let ghost before = path@;
                if path.phase != PathPhase::Established {
                    if path.pending_frames.len() >= capacity {
                        assert(self.paths@ =~= old(self)@.paths);
                        return Err(LinuxTransportError::HandshakePending(packet.peer_id.get()));
                    }
                    path.pending_frames.push_back(packet.frame);
                    assert(path@.pending_frames =~= before.pending_frames.push(frame));
                    return Ok(None);
                }
                let sequence: u32 = path.next_sequence;
                path.next_sequence = advance(sequence, packet.frame.len() as u32);
                Ok(
                    Some(
                        RawTcpPacket {
                            source: path.local_ip,
                            destination: path.peer,
                            source_port: local_port,
                            sequence,
                            acknowledgement: path.expected_sequence,
                            flags: TCP_PSH_ACK,
                            payload: packet.frame,
                        },
                    ),
                )
            },
        }
    }

    /// The next frame for the host, or a promise to call it.
    pub fn poll_incoming(&mut self, context: &mut Context<'_>) -> (r: Poll<
        Result<InboundPacket, LinuxTransportError>,
    >)
        ensures
            match r {
                Poll::Ready(Ok(packet)) => {
                    &&& old(self)@.incoming.len() > 0
                    &&& packet@ == old(self)@.incoming[0]
                    &&& final(self)@ == (StateModel {
                        incoming: old(self)@.incoming.drop_first(),
                        ..old(self)@
                    })
                },
                Poll::Ready(Err(_)) => false,
                Poll::Pending => {
                    &&& old(self)@.incoming.len() == 0
                    &&& final(self)@.receiver_waker is Some
                    &&& final(self)@ == (StateModel {
                        receiver_waker: final(self)@.receiver_waker,
                        ..old(self)@
                    })
                },
            },
    {
        let ghost before = self@.incoming;
        match self.incoming.pop_front() {
            Some(packet) => {
                assert(self@.incoming =~= before.drop_first());
                Poll::Ready(Ok(packet))
            },
            None => {
                self.receiver_waker = Some(waker_of(context));
                assert(self@.incoming =~= before);
                Poll::Pending
            },
        }
    }

    /// Whether a segment opens a path.
    pub fn is_opening(
        &self,
        role: FakeTcpRole,
        source: SocketAddressV4,
        segment: &ParsedTcpPacket,
    ) -> (r: bool)
        ensures
            r == opens_path(self@, role, source, segment@),
    {
        role == FakeTcpRole::Server && segment.flags == TCP_SYN && !self.peers.contains_key(source)
            && !self.paths.contains_key(peer_id_for(source))
    }

    /// Takes a segment that arrived, with the first sequence number of a path that
    /// it may open. A waker that comes back is to be called.
    pub fn handle_incoming_with(
        &mut self,
        local_port: u16,
        role: FakeTcpRole,
        source: SocketAddressV4,
        segment: ParsedTcpPacket,
        drawn: Option<u32>,
    ) -> (r: Option<Waker>)
        ensures
            (final(self)@, r) == after_segment(
                old(self)@,
                local_port,
                role,
                source,
                segment@,
                drawn,
            ),
    {
        let opening = self.is_opening(role, source, &segment);
        let peer_id = match self.peers.get(source) {
            Some(peer_id) => *peer_id,
            None => {
                if !opening {
                    return None;
                }
                return match drawn {
                    Some(sequence) => self.open_path(local_port, source, segment, sequence),
                    None => None,
                };
            },
        };
        let inbound_full = self.incoming.len() >= self.queue_capacity;
        let ghost start = self@;
        let ghost seen = segment@;
        match self.paths.find(peer_id) {
            None => None,
            Some(at) => {
                proof {
                    table::lemma_position(self.paths@, peer_id);
                }
                let ghost before = start.paths[at as int].1;
                let path = self.paths.value_at_mut(at);
                let own_peer = path.peer_id;
                let outcome = react(
                    path,
                    local_port,
                    role,
                    source,
                    segment,
                    inbound_full,
                    &mut self.pending_packets,
                );
                let ghost expected = reaction(
                    before,
                    local_port,
                    role,
                    source,
                    seen,
                    inbound_full,
                );
                if outcome.closed {
                    assert(self.paths@ =~= start.paths);
                    self.peers.remove(source);
                    self.paths.remove(peer_id);
                    assert(self@ =~= reacted(start, source, peer_id, before, expected).0);
                    return None;
                }
                match outcome.delivered {
                    Some(frame) => {
                        let ghost waiting = self@.incoming;
                        self.incoming.push_back(InboundPacket { peer_id: own_peer, frame });
                        assert(self@.incoming =~= waiting.push(
                            PacketModel { peer_id: own_peer, frame: frame@ },
                        ));
                    },
                    None => {},
                }
                if outcome.wakes {
                    let waker = self.receiver_waker.take();
                    assert(self@ =~= reacted(start, source, peer_id, before, expected).0);
                    waker
                } else {
                    assert(self@ =~= reacted(start, source, peer_id, before, expected).0);
                    None
                }
            },
        }
    }

    fn open_path(
        &mut self,
        local_port: u16,
        source: SocketAddressV4,
        segment: ParsedTcpPacket,
        sequence: u32,
    ) -> (r: Option<Waker>)
        requires
            opens_path(old(self)@, FakeTcpRole::Server, source, segment@),
        ensures
            (final(self)@, r) == after_segment(
                old(self)@,
                local_port,
                FakeTcpRole::Server,
                source,
                segment@,
                Some(sequence),
            ),
    {
        let peer_id = peer_id_for(source);
        let expected: u32 = advance(segment.sequence, 1);
        let path = Path {
            peer: source,
            peer_id,
            local_ip: segment.destination,
            phase: PathPhase::ServerSynAckSent,
            next_sequence: advance(sequence, 1),
            expected_sequence: expected,
            pending_frames: VecDeque::new(),
        };
        assert(path@.pending_frames =~= Seq::empty());
        self.peers.insert(source, peer_id);
        self.paths.insert(peer_id, path);
        let payload: Vec<u8> = Vec::new();
        assert(payload@ =~= Seq::empty());
        self.push_packet(
            RawTcpPacket {
                source: segment.destination,
                destination: source,
                source_port: local_port,
                sequence,
                acknowledgement: expected,
                flags: TCP_SYN_ACK,
                payload,
            },
        );
        self.receiver_waker.take()
    }

    /// Takes a segment that arrived. A waker that comes back is to be called. A path
    /// that cannot be given a first sequence number is not opened.
    pub fn handle_incoming(
        &mut self,
        local_port: u16,
        role: FakeTcpRole,
        source: SocketAddressV4,
        segment: ParsedTcpPacket,
    ) -> (r: Option<Waker>)
        ensures
            exists|drawn: Option<u32>|
                (final(self)@, r) == #[trigger] after_segment(
                    old(self)@,
                    local_port,
                    role,
                    source,
                    segment@,
                    drawn,
                ),
            !opens_path(old(self)@, role, source, segment@) ==> (final(self)@, r)
                == after_segment(old(self)@, local_port, role, source, segment@, None),
    {
        let drawn: Option<u32> = if self.is_opening(role, source, &segment) {
            match random_u32() {
                Ok(sequence) => Some(sequence),
                Err(_) => None,
            }
        } else {
            None
        };
        self.handle_incoming_with(local_port, role, source, segment, drawn)
    }
}

/// What a segment did to its path.
struct Outcome {
    closed: bool,
    delivered: Option<Vec<u8>>,
    wakes: bool,
}

/// A segment without payload on a path.
fn control_packet(path: &Path, destination: SocketAddressV4, source_port: u16) -> (r: RawTcpPacket)
    ensures
        r@ == (RawModel { destination, ..control(path@, source_port, TCP_ACK) }),
{
    let payload: Vec<u8> = Vec::new();
    assert(payload@ =~= Seq::empty());
    RawTcpPacket {
        source: path.local_ip,
        destination,
        source_port,
        sequence: path.next_sequence,
        acknowledgement: path.expected_sequence,
        flags: TCP_ACK,
        payload,
    }
}

/// Lets a path take a segment.
fn react(
    path: &mut Path,
    local_port: u16,
    role: FakeTcpRole,
    source: SocketAddressV4,
    segment: ParsedTcpPacket,
    inbound_full: bool,
    pending_packets: &mut VecDeque<RawTcpPacket>,
) -> (r: Outcome)
    ensures
        ({
            let expected = reaction(
                old(path)@,
                local_port,
                role,
                source,
                segment@,
                inbound_full,
            );
            &&& raw_models(final(pending_packets)@) == raw_models(old(pending_packets)@)
                + expected.sends
            &&& r.closed == (expected.path is None)
            &&& final(path)@ == match expected.path {
                Some(next) => next,
                None => old(path)@,
            }
            &&& match r.delivered {
                Some(frame) => expected.delivers == Some(frame@),
                None => expected.delivers is None,
            }
            &&& r.wakes == expected.wakes
        }),
{
    let ghost before = path@;
    let ghost waiting = raw_models(pending_packets@);
    if role == FakeTcpRole::Client && path.phase == PathPhase::ClientSynSent {
        if segment.flags == TCP_SYN_ACK && segment.acknowledgement == path.next_sequence {
            path.expected_sequence = advance(segment.sequence, 1);
            path.phase = PathPhase::Established;
            let answer = control_packet(path, source, local_port);
            pending_packets.push_back(answer);
            assert(raw_models(pending_packets@) =~= waiting.push(answer@));
            queue_pending_frames(path, local_port, pending_packets);
            let ghost expected = reaction(before, local_port, role, source, segment@, inbound_full);
            assert(raw_models(pending_packets@) =~= waiting + expected.sends);
            return Outcome { closed: false, delivered: None, wakes: true };
        }
    } else if role == FakeTcpRole::Server && path.phase == PathPhase::ServerSynAckSent {
        if segment.flags == TCP_ACK && segment.sequence == path.expected_sequence
            && segment.acknowledgement == path.next_sequence {
            path.phase = PathPhase::Established;
            queue_pending_frames(path, local_port, pending_packets);
            return Outcome { closed: false, delivered: None, wakes: false };
        }
    } else if path.phase == PathPhase::Established {
        if (segment.flags / TCP_RST) % 2 == 1 {
            assert(raw_models(pending_packets@) =~= waiting + Seq::empty());
            return Outcome { closed: true, delivered: None, wakes: false };
        }
        if segment.payload.len() > 0 && segment.sequence == path.expected_sequence
            && segment.acknowledgement == path.next_sequence && !inbound_full {
            path.expected_sequence = advance(
                path.expected_sequence,
                segment.payload.len() as u32,
            );
            let answer = control_packet(path, source, local_port);
            pending_packets.push_back(answer);
            assert(raw_models(pending_packets@) =~= waiting + seq![answer@]);
            return Outcome { closed: false, delivered: Some(segment.payload), wakes: true };
        }
    }
    assert(raw_models(pending_packets@) =~= waiting + Seq::empty());
    Outcome { closed: false, delivered: None, wakes: false }
}

/// Sends the frames that waited for a path, in their order.
fn queue_pending_frames(
    path: &mut Path,
    source_port: u16,
    pending_packets: &mut VecDeque<RawTcpPacket>,
)
    ensures
        ({
            let sent = flushed(old(path)@, source_port, old(path)@.pending_frames.len());
            &&& final(path)@ == sent.0
            &&& raw_models(final(pending_packets)@) == raw_models(old(pending_packets)@) + sent.1
        }),
{
    let ghost start = path@;
    let ghost waiting = raw_models(pending_packets@);
    let total: usize = path.pending_frames.len();
    let mut i: usize = 0;
    assert(start.pending_frames.skip(0) =~= start.pending_frames);
    assert(raw_models(pending_packets@) =~= waiting + Seq::empty());
    while i < total
        invariant
            i <= total,
            total == start.pending_frames.len(),
            path@ == flushed(start, source_port, i as nat).0,
            path@.pending_frames == start.pending_frames.skip(i as int),
            raw_models(pending_packets@) == waiting + flushed(start, source_port, i as nat).1,
        decreases total - i,
    {
        let ghost earlier = path@;
        let ghost queued = raw_models(pending_packets@);
        match path.pending_frames.pop_front() {
            Some(payload) => {
                assert(payload@ == start.pending_frames[i as int]) by {
                    assert(earlier.pending_frames[0] == payload@);
                }
                let sequence: u32 = path.next_sequence;
                path.next_sequence = advance(sequence, payload.len() as u32);
                let raw = RawTcpPacket {
                    source: path.local_ip,
                    destination: path.peer,
                    source_port,
                    sequence,
                    acknowledgement: path.expected_sequence,
                    flags: TCP_PSH_ACK,
                    payload,
                };
                pending_packets.push_back(raw);
                proof {
                    let next = flushed(start, source_port, (i + 1) as nat);
                    assert(raw_models(pending_packets@) =~= queued.push(raw@));
                    assert(queued.push(raw@) =~= waiting + next.1);
                    assert(path@.pending_frames =~= earlier.pending_frames.drop_first());
                    assert(path@.pending_frames =~= start.pending_frames.skip(i + 1));
                    assert(path@ =~= next.0);
                }
            },
            None => {
                assert(earlier.pending_frames.len() == 0);
            },
        }
        i += 1;
    }
}

} // verus!
