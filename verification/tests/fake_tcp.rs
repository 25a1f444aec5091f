use std::task::{Context, Poll, Waker};

use pnet::packet::ip::IpNextHeaderProtocols;
use pnet::packet::ipv4::{Ipv4Packet, MutableIpv4Packet, checksum};
use pnet::packet::tcp::{MutableTcpPacket, TcpFlags, TcpPacket, ipv4_checksum};
use udp2raw_ng::address::{SocketAddressV4, SocketAddressV6};
use udp2raw_ng::entropy::random_u32;
use udp2raw_ng::faketcp::{MAX_INNER_FRAME, SharedState, peer_id_for};
use udp2raw_ng::packet::{
    ParsedTcpPacket, RawTcpPacket, TCP_ACK, TCP_PSH_ACK, TCP_RST, TCP_SYN, TCP_SYN_ACK,
    build_tcp_packet, parse_ipv4_tcp,
};
use udp2raw_ng::{
    FakeTcpRole, InboundPacket, LinuxFakeTcpConfig, LinuxTransportError, OutboundPacket, PeerId,
    SocketAddress,
};

fn v4(a: u8, b: u8, c: u8, d: u8, port: u16) -> SocketAddressV4 {
    SocketAddressV4 {
        ip: u32::from_be_bytes([a, b, c, d]),
        port,
    }
}

#[test]
fn client_configuration_requires_ipv4_peer() {
    let config = LinuxFakeTcpConfig {
        role: FakeTcpRole::Client,
        local_addr: SocketAddress::V4(v4(127, 0, 0, 1, 3000)),
        peer_addr: None,
        local_peer: PeerId::new(1),
        queue_capacity: 1,
    };
    assert!(matches!(
        config.validate(),
        Err(LinuxTransportError::MissingClientPeer)
    ));
}

#[test]
fn server_peer_ids_are_stable_per_socket_address() {
    let address = v4(192, 0, 2, 1, 4096);
    assert_eq!(peer_id_for(address), peer_id_for(address));
    assert_ne!(
        peer_id_for(address),
        peer_id_for(SocketAddressV4 {
            ip: address.ip,
            port: 4097
        })
    );
}

#[test]
fn server_configuration_has_no_fixed_peer() {
    let config = LinuxFakeTcpConfig::server(SocketAddress::V4(SocketAddressV4 {
        ip: 0,
        port: 4096,
    }));
    assert!(config.validate().is_ok());
}

#[test]
fn parser_accepts_a_checksumming_valid_unfragmented_packet() {
    let bytes = ipv4_tcp_packet(b"inner-frame", 0, TcpFlags::ACK | TcpFlags::PSH);
    let parsed = parse_ipv4_tcp(&bytes).expect("packet must parse");
    assert_eq!(parsed.source_port, 40000);
    assert_eq!(parsed.destination_port, 4096);
    assert_eq!(parsed.payload, b"inner-frame");
}

#[test]
fn parser_rejects_fragmented_or_bad_checksum_packets() {
    let mut fragmented = ipv4_tcp_packet(b"frame", 1, TcpFlags::ACK);
    assert!(parse_ipv4_tcp(&fragmented).is_none());
    let last = fragmented.len() - 1;
    fragmented[last] ^= 1;
    assert!(parse_ipv4_tcp(&fragmented).is_none());
}

fn ipv4_tcp_packet(payload: &[u8], fragment_offset: u16, flags: u8) -> Vec<u8> {
    let ip_header_len = 20;
    let tcp_header_len = 20;
    let mut bytes = vec![0_u8; ip_header_len + tcp_header_len + payload.len()];
    {
        let mut ip = MutableIpv4Packet::new(&mut bytes).unwrap();
        ip.set_version(4);
        ip.set_header_length(5);
        ip.set_total_length((ip_header_len + tcp_header_len + payload.len()) as u16);
        ip.set_ttl(64);
        ip.set_next_level_protocol(IpNextHeaderProtocols::Tcp);
        ip.set_source([192, 0, 2, 1].into());
        ip.set_destination([198, 51, 100, 2].into());
        ip.set_fragment_offset(fragment_offset);
    }
    {
        let source = [192, 0, 2, 1].into();
        let destination = [198, 51, 100, 2].into();
        let mut tcp = MutableTcpPacket::new(&mut bytes[ip_header_len..]).unwrap();
        tcp.set_source(40000);
        tcp.set_destination(4096);
        tcp.set_sequence(7);
        tcp.set_acknowledgement(9);
        tcp.set_data_offset(5);
        tcp.set_flags(flags);
        tcp.set_window(65_535);
        tcp.set_payload(payload);
        tcp.set_checksum(ipv4_checksum(&tcp.to_immutable(), &source, &destination));
    }
    let mut ip = MutableIpv4Packet::new(&mut bytes).unwrap();
    ip.set_checksum(checksum(&ip.to_immutable()));
    bytes
}

#[test]
fn configurations_are_refused_for_what_is_wrong_with_them() {
    let here = SocketAddress::V4(v4(127, 0, 0, 1, 3000));
    let there = SocketAddress::V4(v4(127, 0, 0, 2, 3000));
    let six = SocketAddress::V6(SocketAddressV6 {
        ip: 1,
        port: 3000,
        flow_info: 0,
        scope_id: 0,
    });
    let client = LinuxFakeTcpConfig::client(here, there, PeerId::new(3));
    assert_eq!(client.queue_capacity, 1024);
    assert_eq!(client.validate(), Ok(()));
    let mut config = client;
    config.queue_capacity = 0;
    assert_eq!(
        config.validate(),
        Err(LinuxTransportError::ZeroQueueCapacity)
    );
    config = client;
    config.local_addr = six;
    assert_eq!(config.validate(), Err(LinuxTransportError::Ipv6Unsupported));
    config = client;
    config.peer_addr = Some(six);
    assert_eq!(
        config.validate(),
        Err(LinuxTransportError::MissingClientPeer)
    );
    let mut server = LinuxFakeTcpConfig::server(here);
    assert_eq!(server.local_peer.get(), 0);
    server.peer_addr = Some(there);
    assert_eq!(
        server.validate(),
        Err(LinuxTransportError::ServerPeerConfigured)
    );
}

#[test]
fn a_route_is_address_and_port() {
    assert_eq!(peer_id_for(v4(192, 0, 2, 1, 4096)).get(), 0xC000_0201_1000);
    assert_eq!(
        peer_id_for(v4(255, 255, 255, 255, 65535)).get(),
        0xFFFF_FFFF_FFFF
    );
}

fn sample() -> RawTcpPacket {
    RawTcpPacket {
        source: v4(192, 0, 2, 1, 0).ip,
        destination: v4(198, 51, 100, 2, 4096),
        source_port: 40000,
        sequence: 0x0102_0304,
        acknowledgement: 0xF1F2_F3F4,
        flags: TCP_PSH_ACK,
        payload: b"odd".to_vec(),
    }
}

#[test]
fn built_packets_are_read_back_and_agree_with_the_packet_library() {
    let packet = build_tcp_packet(&sample()).expect("packet");
    assert_eq!(packet.len(), 43);
    let view = Ipv4Packet::new(&packet).expect("IPv4");
    assert_eq!(view.get_version(), 4);
    assert_eq!(view.get_header_length(), 5);
    assert_eq!(view.get_total_length(), 43);
    assert_eq!(view.get_flags(), 2);
    assert_eq!(view.get_ttl(), 64);
    assert_eq!(view.get_checksum(), checksum(&view));
    let segment = TcpPacket::new(&packet[20..]).expect("TCP");
    assert_eq!(segment.get_window(), 65_535);
    assert_eq!(segment.get_data_offset(), 5);
    assert_eq!(
        segment.get_checksum(),
        ipv4_checksum(&segment, &view.get_source(), &view.get_destination())
    );
    assert_eq!(
        parse_ipv4_tcp(&packet),
        Some(ParsedTcpPacket {
            source: sample().source,
            destination: sample().destination.ip,
            source_port: 40000,
            destination_port: 4096,
            sequence: 0x0102_0304,
            acknowledgement: 0xF1F2_F3F4,
            flags: TCP_PSH_ACK,
            payload: b"odd".to_vec(),
        })
    );
}

#[test]
fn a_packet_has_a_longest_payload() {
    let mut raw = sample();
    raw.payload = vec![7; 65_495];
    let longest = build_tcp_packet(&raw).expect("longest packet");
    assert_eq!(longest.len(), 65_535);
    assert_eq!(
        parse_ipv4_tcp(&longest).map(|parsed| parsed.payload.len()),
        Some(65_495)
    );
    raw.payload.push(7);
    assert_eq!(
        build_tcp_packet(&raw),
        Err(LinuxTransportError::FrameTooLarge)
    );
}

#[test]
fn damaged_foreign_and_partial_packets_are_not_read() {
    let packet = build_tcp_packet(&sample()).expect("packet");
    for place in 0..packet.len() {
        let mut damaged = packet.clone();
        damaged[place] ^= 1;
        assert!(parse_ipv4_tcp(&damaged).is_none());
    }
    for length in 0..packet.len() {
        assert!(parse_ipv4_tcp(&packet[..length]).is_none());
    }
    let mut more_fragments = packet.clone();
    more_fragments[6] = 0x20;
    let fixed = {
        let mut view = MutableIpv4Packet::new(&mut more_fragments).expect("IPv4");
        let sum = checksum(&view.to_immutable());
        view.set_checksum(sum);
        view.get_checksum() == sum
    };
    assert!(fixed);
    assert!(parse_ipv4_tcp(&more_fragments).is_none());
}

#[test]
fn options_are_skipped() {
    let mut bytes = vec![0_u8; 20 + 24 + 3];
    {
        let mut ip = MutableIpv4Packet::new(&mut bytes).unwrap();
        ip.set_version(4);
        ip.set_header_length(5);
        ip.set_total_length(47);
        ip.set_next_level_protocol(IpNextHeaderProtocols::Tcp);
        ip.set_source([10, 0, 0, 1].into());
        ip.set_destination([10, 0, 0, 2].into());
        let sum = checksum(&ip.to_immutable());
        ip.set_checksum(sum);
    }
    bytes[20 + 12] = 0x60;
    bytes[20 + 24..].copy_from_slice(b"abc");
    {
        let mut tcp = MutableTcpPacket::new(&mut bytes[20..]).unwrap();
        let sum = ipv4_checksum(
            &tcp.to_immutable(),
            &[10, 0, 0, 1].into(),
            &[10, 0, 0, 2].into(),
        );
        tcp.set_checksum(sum);
    }
    assert_eq!(
        parse_ipv4_tcp(&bytes).map(|parsed| parsed.payload),
        Some(b"abc".to_vec())
    );
}

struct Ends {
    client: SharedState,
    server: SharedState,
    client_address: SocketAddressV4,
    server_address: SocketAddressV4,
    route: PeerId,
}

fn arrival(raw: &RawTcpPacket) -> (SocketAddressV4, ParsedTcpPacket) {
    let packet = build_tcp_packet(raw).expect("packet");
    let parsed = parse_ipv4_tcp(&packet).expect("segment");
    assert!(parsed.is_addressed_to(raw.destination));
    assert!(!parsed.is_addressed_to(v4(10, 9, 9, 9, raw.destination.port)));
    (parsed.sender(), parsed)
}

impl Ends {
    fn new(capacity: usize) -> Self {
        let client_address = v4(10, 0, 0, 1, 5000);
        let server_address = v4(10, 0, 0, 2, 4096);
        let route = PeerId::new(3);
        let mut client = SharedState::new(capacity);
        client.install_client_path_with(client_address, server_address, route, 100);
        Ends {
            client,
            server: SharedState::new(capacity),
            client_address,
            server_address,
            route,
        }
    }

    fn to_server(&mut self, raw: &RawTcpPacket) {
        let (source, segment) = arrival(raw);
        self.server.handle_incoming_with(
            self.server_address.port,
            FakeTcpRole::Server,
            source,
            segment,
            Some(900),
        );
    }

    fn to_client(&mut self, raw: &RawTcpPacket) {
        let (source, segment) = arrival(raw);
        self.client.handle_incoming(
            self.client_address.port,
            FakeTcpRole::Client,
            source,
            segment,
        );
    }

    fn exchange(&mut self) {
        loop {
            let up = self.client.take_pending();
            let down = self.server.take_pending();
            if up.is_empty() && down.is_empty() {
                return;
            }
            for raw in &up {
                self.to_server(raw);
            }
            for raw in &down {
                self.to_client(raw);
            }
        }
    }

    fn send_up(&mut self, frame: &[u8]) -> Result<Option<RawTcpPacket>, LinuxTransportError> {
        self.client.prepare_send(
            self.client_address.port,
            OutboundPacket {
                peer_id: self.route,
                frame: frame.to_vec(),
            },
        )
    }
}

fn next(state: &mut SharedState) -> Option<InboundPacket> {
    match state.poll_incoming(&mut Context::from_waker(Waker::noop())) {
        Poll::Ready(packet) => Some(packet.expect("packet")),
        Poll::Pending => None,
    }
}

#[test]
fn the_outer_handshake_has_three_steps() {
    let mut ends = Ends::new(4);
    let syn = ends.client.take_pending();
    assert_eq!(syn.len(), 1);
    assert_eq!(syn[0].flags, TCP_SYN);
    assert_eq!(syn[0].sequence, 100);
    ends.to_server(&syn[0]);
    let answer = ends.server.take_pending();
    assert_eq!(answer.len(), 1);
    assert_eq!(answer[0].flags, TCP_SYN_ACK);
    assert_eq!(answer[0].sequence, 900);
    assert_eq!(answer[0].acknowledgement, 101);
    ends.to_client(&answer[0]);
    let ack = ends.client.take_pending();
    assert_eq!(ack.len(), 1);
    assert_eq!(ack[0].flags, TCP_ACK);
    assert_eq!(ack[0].sequence, 101);
    assert_eq!(ack[0].acknowledgement, 901);
    ends.to_server(&ack[0]);
    assert!(ends.server.take_pending().is_empty());
    let sent = ends.send_up(b"frame").expect("send").expect("established");
    assert_eq!(sent.flags, TCP_PSH_ACK);
    assert_eq!(sent.sequence, 101);
    ends.to_server(&sent);
    assert_eq!(
        next(&mut ends.server),
        Some(InboundPacket {
            peer_id: peer_id_for(ends.client_address),
            frame: b"frame".to_vec(),
        })
    );
    assert_eq!(next(&mut ends.server), None);
}

#[test]
fn frames_wait_for_the_handshake_in_order() {
    let mut ends = Ends::new(2);
    assert_eq!(ends.send_up(b"one"), Ok(None));
    assert_eq!(ends.send_up(b"two"), Ok(None));
    assert_eq!(
        ends.send_up(b"three"),
        Err(LinuxTransportError::HandshakePending(3))
    );
    ends.exchange();
    let delivered: Vec<Vec<u8>> = [next(&mut ends.server), next(&mut ends.server)]
        .into_iter()
        .flatten()
        .map(|packet| packet.frame)
        .collect();
    assert_eq!(delivered, vec![b"one".to_vec(), b"two".to_vec()]);
}

#[test]
fn a_segment_is_delivered_once_and_a_full_queue_takes_nothing() {
    let mut ends = Ends::new(1);
    ends.exchange();
    let sent = ends.send_up(b"frame").expect("send").expect("established");
    ends.to_server(&sent);
    ends.to_server(&sent);
    let second = ends.send_up(b"more").expect("send").expect("established");
    ends.to_server(&second);
    assert_eq!(
        next(&mut ends.server).map(|packet| packet.frame),
        Some(b"frame".to_vec())
    );
    assert_eq!(next(&mut ends.server), None);
    ends.to_server(&second);
    assert_eq!(
        next(&mut ends.server).map(|packet| packet.frame),
        Some(b"more".to_vec())
    );
}

#[test]
fn a_reset_ends_a_path_and_strangers_are_ignored() {
    let mut ends = Ends::new(4);
    ends.exchange();
    let mut reset = ends.send_up(b"x").expect("send").expect("established");
    reset.flags = TCP_RST;
    ends.to_server(&reset);
    assert_eq!(
        ends.server.prepare_send(
            4096,
            OutboundPacket {
                peer_id: peer_id_for(ends.client_address),
                frame: vec![1],
            },
        ),
        Err(LinuxTransportError::UnknownPeer(
            peer_id_for(ends.client_address).get()
        ))
    );
    let mut stranger = reset;
    stranger.flags = TCP_ACK;
    stranger.source_port = 6000;
    ends.to_server(&stranger);
    assert!(ends.server.take_pending().is_empty());
    assert_eq!(next(&mut ends.server), None);
}

#[test]
fn oversized_frames_are_refused_at_once() {
    let mut ends = Ends::new(4);
    assert_eq!(
        ends.send_up(&vec![0; MAX_INNER_FRAME + 1]),
        Err(LinuxTransportError::FrameTooLarge)
    );
    assert_eq!(ends.send_up(&vec![0; MAX_INNER_FRAME]), Ok(None));
}

#[test]
fn a_waiting_host_is_called() {
    let mut ends = Ends::new(4);
    ends.exchange();
    assert_eq!(next(&mut ends.server), None);
    let sent = ends.send_up(b"frame").expect("send").expect("established");
    let (source, segment) = arrival(&sent);
    assert!(
        ends.server
            .handle_incoming(4096, FakeTcpRole::Server, source, segment)
            .is_some()
    );
}

#[test]
fn first_sequence_numbers_are_drawn() {
    let drawn: Vec<u32> = (0..8).map(|_| random_u32().expect("randomness")).collect();
    assert!(drawn.iter().any(|value| *value != drawn[0]));
    let mut state = SharedState::new(1);
    state
        .install_client_path(v4(10, 0, 0, 1, 1), v4(10, 0, 0, 2, 2), PeerId::new(3))
        .expect("randomness");
    assert_eq!(state.take_pending().len(), 1);
}
