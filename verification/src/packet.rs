//! Outer packets: one TCP segment in one unfragmented IPv4 packet.

use vstd::prelude::*;

use pnet::packet::ipv4::Ipv4Packet;
use pnet::packet::tcp::TcpPacket;

use crate::address::SocketAddressV4;
use crate::bytes;
use crate::bytes::{append, be_vec, piece, read_be};
use crate::faketcp::LinuxTransportError;

verus! {

pub const IPV4_HEADER_LEN: usize = 20;

pub const TCP_HEADER_LEN: usize = 20;

/// The longest packet that the length field of IPv4 can tell.
pub const MAX_PACKET: usize = 65_535;

/// The protocol number of TCP.
pub const TCP_PROTOCOL: u8 = 6;

pub const TCP_RST: u8 = 4;

pub const TCP_SYN: u8 = 2;

pub const TCP_ACK: u8 = 16;

pub const TCP_SYN_ACK: u8 = 18;

pub const TCP_PSH_ACK: u8 = 24;

/// A TCP segment to send and the addresses between which it travels.
#[derive(Clone, Debug, Eq, PartialEq)]
pub struct RawTcpPacket {
    pub source: u32,
    pub destination: SocketAddressV4,
    pub source_port: u16,
    pub sequence: u32,
    pub acknowledgement: u32,
    pub flags: u8,
    pub payload: Vec<u8>,
}

/// What a [`RawTcpPacket`] says.
#[verifier::ext_equal]
pub struct RawModel {
    pub source: u32,
    pub destination: SocketAddressV4,
    pub source_port: u16,
    pub sequence: u32,
    pub acknowledgement: u32,
    pub flags: u8,
    pub payload: Seq<u8>,
}

impl View for RawTcpPacket {
    type V = RawModel;

    open spec fn view(&self) -> RawModel {
        RawModel {
            source: self.source,
            destination: self.destination,
            source_port: self.source_port,
            sequence: self.sequence,
            acknowledgement: self.acknowledgement,
            flags: self.flags,
            payload: self.payload@,
        }
    }
}

/// A TCP segment that arrived and the addresses between which it travelled.
#[derive(Clone, Debug, Eq, PartialEq)]
pub struct ParsedTcpPacket {
    pub source: u32,
    pub destination: u32,
    pub source_port: u16,
    pub destination_port: u16,
    pub sequence: u32,
    pub acknowledgement: u32,
    pub flags: u8,
    pub payload: Vec<u8>,
}

/// What a [`ParsedTcpPacket`] says.
#[verifier::ext_equal]
pub struct ParsedModel {
    pub source: u32,
    pub destination: u32,
    pub source_port: u16,
    pub destination_port: u16,
    pub sequence: u32,
    pub acknowledgement: u32,
    pub flags: u8,
    pub payload: Seq<u8>,
}

impl View for ParsedTcpPacket {
    type V = ParsedModel;

    open spec fn view(&self) -> ParsedModel {
        ParsedModel {
            source: self.source,
            destination: self.destination,
            source_port: self.source_port,
            destination_port: self.destination_port,
            sequence: self.sequence,
            acknowledgement: self.acknowledgement,
            flags: self.flags,
            payload: self.payload@,
        }
    }
}

/// The 16-bit word at place `i`; an odd last octet counts as the high one.
pub open spec fn word_at(data: Seq<u8>, i: int) -> nat {
    data[2 * i] as nat * 256 + if 2 * i + 1 < data.len() {
        data[2 * i + 1] as nat
    } else {
        0
    }
}

/// The sum of the first `count` words without the one at place `skip`.
pub open spec fn word_sum(data: Seq<u8>, skip: int, count: nat) -> nat
    decreases count,
{
    if count == 0 {
        0
    } else {
        let i = count - 1;
        word_sum(data, skip, i as nat) + if i == skip {
            0
        } else {
            word_at(data, i)
        }
    }
}

/// How many words `data` holds.
pub open spec fn word_count(data: Seq<u8>) -> nat {
    (data.len() + 1) / 2
}

/// The complement of a sum of 16-bit words with end-around carry.
pub open spec fn complement_of(sum: nat) -> u16 {
    if sum == 0 {
        0xFFFF
    } else {
        (0xFFFE - (sum - 1) % 0xFFFF) as u16
    }
}

/// The header of a packet, as far as the packet goes.
pub open spec fn header_part(packet: Seq<u8>) -> Seq<u8> {
    let length = (packet[0] % 16) as int * 4;
    if length < IPV4_HEADER_LEN {
        packet.take(IPV4_HEADER_LEN as int)
    } else if length > packet.len() {
        packet
    } else {
        packet.take(length)
    }
}

/// The checksum that belongs into an IPv4 header.
pub open spec fn header_checksum(packet: Seq<u8>) -> u16 {
    let header = header_part(packet);
    complement_of(word_sum(header, 5, word_count(header)))
}

/// The two words of an address.
pub open spec fn address_words(ip: u32) -> nat {
    (ip / 0x1_0000 + ip % 0x1_0000) as nat
}

/// The checksum that belongs into a TCP segment between two addresses.
pub open spec fn segment_checksum(segment: Seq<u8>, source: u32, destination: u32) -> u16 {
    complement_of(
        address_words(source) + address_words(destination) + TCP_PROTOCOL as nat + segment.len()
            + word_sum(segment, 8, word_count(segment)),
    )
}

/// `pnet::packet::ipv4::checksum` of the packet view of `packet`: the complement
/// of the sum of the header's words, the checksum field taken as zero.
#[verifier::external_body]
fn ipv4_header_checksum(packet: &[u8]) -> (r: u16)
    requires
        packet@.len() >= IPV4_HEADER_LEN,
    ensures
        r == header_checksum(packet@),
{
    let view = Ipv4Packet::new(packet).expect("the packet holds an IPv4 header");
    pnet::packet::ipv4::checksum(&view)
}

/// `pnet::packet::tcp::ipv4_checksum` of the segment view of `segment`: the
/// complement of the sum of the words of both addresses, of the protocol number,
/// of the length and of the segment's words, the checksum field taken as zero.
#[verifier::external_body]
fn ipv4_segment_checksum(segment: &[u8], source: u32, destination: u32) -> (r: u16)
    requires
        TCP_HEADER_LEN <= segment@.len() <= MAX_PACKET,
    ensures
        r == segment_checksum(segment@, source, destination),
{
    let view = TcpPacket::new(segment).expect("the segment holds a TCP header");
    pnet::packet::tcp::ipv4_checksum(&view, &source.into(), &destination.into())
}

/// The IPv4 header in front of a segment.
pub open spec fn ip_header(raw: RawModel, checksum: u16) -> Seq<u8> {
    seq![0x45u8, 0u8] + bytes::be_bytes(
        IPV4_HEADER_LEN as nat + TCP_HEADER_LEN as nat + raw.payload.len(),
        2,
    ) + seq![0u8, 0u8, 0x40u8, 0u8, 64u8, TCP_PROTOCOL] + bytes::be_bytes(checksum as nat, 2)
        + bytes::be_bytes(raw.source as nat, 4) + bytes::be_bytes(raw.destination.ip as nat, 4)
}

/// The segment with its payload.
pub open spec fn tcp_segment(raw: RawModel, checksum: u16) -> Seq<u8> {
    bytes::be_bytes(raw.source_port as nat, 2) + bytes::be_bytes(raw.destination.port as nat, 2)
        + bytes::be_bytes(raw.sequence as nat, 4) + bytes::be_bytes(raw.acknowledgement as nat, 4)
        + seq![0x50u8, raw.flags, 0xFFu8, 0xFFu8] + bytes::be_bytes(checksum as nat, 2) + seq![
        0u8,
        0u8,
    ] + raw.payload
}

/// The octets of an outer packet.
pub open spec fn built(raw: RawModel) -> Result<Seq<u8>, LinuxTransportError> {
    if IPV4_HEADER_LEN + TCP_HEADER_LEN + raw.payload.len() > MAX_PACKET {
        Err(LinuxTransportError::FrameTooLarge)
    } else {
        let header = ip_header(raw, header_checksum(ip_header(raw, 0)));
        let segment = tcp_segment(
            raw,
            segment_checksum(tcp_segment(raw, 0), raw.source, raw.destination.ip),
        );
        Ok(header + segment)
    }
}

/// What the octets of a segment say.
pub open spec fn parsed_segment(segment: Seq<u8>, source: u32, destination: u32) -> Option<
    ParsedModel,
> {
    let start = (segment[12] / 16) as int * 4;
    if segment.len() < TCP_HEADER_LEN || start < TCP_HEADER_LEN || start > segment.len()
        || bytes::be_value(segment.subrange(16, 18)) != segment_checksum(
        segment,
        source,
        destination,
    ) {
        None
    } else {
        Some(
            ParsedModel {
                source,
                destination,
                source_port: bytes::be_value(segment.subrange(0, 2)) as u16,
                destination_port: bytes::be_value(segment.subrange(2, 4)) as u16,
                sequence: bytes::be_value(segment.subrange(4, 8)) as u32,
                acknowledgement: bytes::be_value(segment.subrange(8, 12)) as u32,
                flags: segment[13],
                payload: segment.subrange(start, segment.len() as int),
            },
        )
    }
}

/// Whether a packet is IPv4, whole, of the TCP protocol and its header intact.
pub open spec fn carries_segment(packet: Seq<u8>) -> bool {
    &&& packet.len() >= IPV4_HEADER_LEN
    &&& packet[0] / 16 == 4
    &&& packet[0] % 16 >= 5
    &&& bytes::be_value(packet.subrange(10, 12)) == header_checksum(packet)
    &&& packet[9] == TCP_PROTOCOL
    &&& packet[6] % 32 == 0
    &&& packet[7] == 0
    &&& (packet[6] / 32) % 2 == 0
    &&& (packet[0] % 16) as int * 4 <= bytes::be_value(packet.subrange(2, 4)) <= packet.len()
}

/// What the octets of an outer packet say.
pub open spec fn parsed(packet: Seq<u8>) -> Option<ParsedModel> {
    if carries_segment(packet) {
        parsed_segment(
            packet.subrange(
                (packet[0] % 16) as int * 4,
                bytes::be_value(packet.subrange(2, 4)) as int,
            ),
            bytes::be_value(packet.subrange(12, 16)) as u32,
            bytes::be_value(packet.subrange(16, 20)) as u32,
        )
    } else {
        None
    }
}

/// Writes the packet that carries a segment.
pub fn build_tcp_packet(raw: &RawTcpPacket) -> (r: Result<Vec<u8>, LinuxTransportError>)
    ensures
        match r {
            Ok(packet) => built(raw@) == Ok::<Seq<u8>, LinuxTransportError>(packet@),
            Err(error) => built(raw@) == Err::<Seq<u8>, LinuxTransportError>(error),
        },
{
    if raw.payload.len() > MAX_PACKET - IPV4_HEADER_LEN - TCP_HEADER_LEN {
        return Err(LinuxTransportError::FrameTooLarge);
    }
    proof {
        lemma_header_shape(raw@, 0);
        lemma_segment_shape(raw@, 0);
    }
    let blank_segment: Vec<u8> = write_segment(raw, 0);
    let segment_sum: u16 = ipv4_segment_checksum(
        blank_segment.as_slice(),
        raw.source,
        raw.destination.ip,
    );
    let blank_header: Vec<u8> = write_header(raw, 0);
    let header_sum: u16 = ipv4_header_checksum(blank_header.as_slice());
    let mut packet: Vec<u8> = write_header(raw, header_sum);
    let segment: Vec<u8> = write_segment(raw, segment_sum);
    append(&mut packet, segment.as_slice());
    Ok(packet)
}

fn write_header(raw: &RawTcpPacket, checksum: u16) -> (r: Vec<u8>)
    requires
        IPV4_HEADER_LEN + TCP_HEADER_LEN + raw.payload@.len() <= MAX_PACKET,
    ensures
        r@ == ip_header(raw@, checksum),
{
    let total: usize = IPV4_HEADER_LEN + TCP_HEADER_LEN + raw.payload.len();
    let mut header: Vec<u8> = Vec::new();
    header.push(0x45);
    header.push(0);
    append(&mut header, be_vec(total as u64, 2).as_slice());
    header.push(0);
    header.push(0);
    header.push(0x40);
    header.push(0);
    header.push(64);
    header.push(TCP_PROTOCOL);
    append(&mut header, be_vec(checksum as u64, 2).as_slice());
    append(&mut header, be_vec(raw.source as u64, 4).as_slice());
    append(&mut header, be_vec(raw.destination.ip as u64, 4).as_slice());
    assert(header@ =~= ip_header(raw@, checksum));
    header
}

fn write_segment(raw: &RawTcpPacket, checksum: u16) -> (r: Vec<u8>)
    ensures
        r@ == tcp_segment(raw@, checksum),
{
    let mut segment: Vec<u8> = Vec::new();
    append(&mut segment, be_vec(raw.source_port as u64, 2).as_slice());
    append(&mut segment, be_vec(raw.destination.port as u64, 2).as_slice());
    append(&mut segment, be_vec(raw.sequence as u64, 4).as_slice());
    append(&mut segment, be_vec(raw.acknowledgement as u64, 4).as_slice());
    segment.push(0x50);
    segment.push(raw.flags);
    segment.push(0xFF);
    segment.push(0xFF);
    append(&mut segment, be_vec(checksum as u64, 2).as_slice());
    segment.push(0);
    segment.push(0);
    append(&mut segment, raw.payload.as_slice());
    assert(segment@ =~= tcp_segment(raw@, checksum));
    segment
}

/// Reads an outer packet. A fragment, another protocol, a wrong length or a wrong
/// checksum gives nothing.
pub fn parse_ipv4_tcp(packet: &[u8]) -> (r: Option<ParsedTcpPacket>)
    ensures
        match r {
            Some(segment) => parsed(packet@) == Some(segment@),
            None => parsed(packet@) is None,
        },
{
    if packet.len() < IPV4_HEADER_LEN {
        return None;
    }
    proof {
        bytes::lemma_octet_ranges();
    }
    if packet[0] / 16 != 4 || packet[0] % 16 < 5 {
        return None;
    }
    if read_be(packet, 10, 2) != ipv4_header_checksum(packet) as u64 || packet[9] != TCP_PROTOCOL
        || packet[6] % 32 != 0 || packet[7] != 0 || (packet[6] / 32) % 2 != 0 {
        return None;
    }
    let header_length: usize = (packet[0] % 16) as usize * 4;
    let total_length: usize = read_be(packet, 2, 2) as usize;
    if total_length < header_length || total_length > packet.len() {
        return None;
    }
    let source: u32 = read_be(packet, 12, 4) as u32;
    let destination: u32 = read_be(packet, 16, 4) as u32;
    parse_segment(&packet[header_length..total_length], source, destination)
}

fn parse_segment(segment: &[u8], source: u32, destination: u32) -> (r: Option<ParsedTcpPacket>)
    requires
        segment@.len() <= MAX_PACKET,
    ensures
        match r {
            Some(read) => parsed_segment(segment@, source, destination) == Some(read@),
            None => parsed_segment(segment@, source, destination) is None,
        },
{
    if segment.len() < TCP_HEADER_LEN {
        return None;
    }
    proof {
        bytes::lemma_octet_ranges();
    }
    let start: usize = (segment[12] / 16) as usize * 4;
    if start < TCP_HEADER_LEN || start > segment.len() {
        return None;
    }
    if read_be(segment, 16, 2) != ipv4_segment_checksum(segment, source, destination) as u64 {
        return None;
    }
    Some(
        ParsedTcpPacket {
            source,
            destination,
            source_port: read_be(segment, 0, 2) as u16,
            destination_port: read_be(segment, 2, 2) as u16,
            sequence: read_be(segment, 4, 4) as u32,
            acknowledgement: read_be(segment, 8, 4) as u32,
            flags: segment[13],
            payload: piece(segment, start, segment.len()),
        },
    )
}

/// The IPv4 header takes 20 octets, and each field stands at its place.
proof fn lemma_header_shape(raw: RawModel, checksum: u16)
    requires
        IPV4_HEADER_LEN + TCP_HEADER_LEN + raw.payload.len() <= MAX_PACKET,
    ensures
        ({
            let header = ip_header(raw, checksum);
            &&& header.len() == IPV4_HEADER_LEN
            &&& header[0] == 0x45
            &&& header.subrange(2, 4) == bytes::be_bytes(
                IPV4_HEADER_LEN as nat + TCP_HEADER_LEN as nat + raw.payload.len(),
                2,
            )
            &&& header[6] == 0x40
            &&& header[7] == 0
            &&& header[9] == TCP_PROTOCOL
            &&& header.subrange(10, 12) == bytes::be_bytes(checksum as nat, 2)
            &&& header.subrange(12, 16) == bytes::be_bytes(raw.source as nat, 4)
            &&& header.subrange(16, 20) == bytes::be_bytes(raw.destination.ip as nat, 4)
            &&& forall|i: int|
                0 <= i < 20 && i != 10 && i != 11 ==> header[i] == #[trigger] ip_header(raw, 0)[i]
        }),
{
    let total = IPV4_HEADER_LEN as nat + TCP_HEADER_LEN as nat + raw.payload.len();
    bytes::lemma_be_bytes_len(total, 2);
    bytes::lemma_be_bytes_len(checksum as nat, 2);
    bytes::lemma_be_bytes_len(0, 2);
    bytes::lemma_be_bytes_len(raw.source as nat, 4);
    bytes::lemma_be_bytes_len(raw.destination.ip as nat, 4);
    let header = ip_header(raw, checksum);
    assert(header.subrange(2, 4) =~= bytes::be_bytes(total, 2));
    assert(header.subrange(10, 12) =~= bytes::be_bytes(checksum as nat, 2));
    assert(header.subrange(12, 16) =~= bytes::be_bytes(raw.source as nat, 4));
    assert(header.subrange(16, 20) =~= bytes::be_bytes(raw.destination.ip as nat, 4));
}

/// The TCP header takes 20 octets, and each field stands at its place.
proof fn lemma_segment_shape(raw: RawModel, checksum: u16)
    ensures
        ({
            let segment = tcp_segment(raw, checksum);
            &&& segment.len() == TCP_HEADER_LEN + raw.payload.len()
            &&& segment.subrange(0, 2) == bytes::be_bytes(raw.source_port as nat, 2)
            &&& segment.subrange(2, 4) == bytes::be_bytes(raw.destination.port as nat, 2)
            &&& segment.subrange(4, 8) == bytes::be_bytes(raw.sequence as nat, 4)
            &&& segment.subrange(8, 12) == bytes::be_bytes(raw.acknowledgement as nat, 4)
            &&& segment[12] == 0x50
            &&& segment[13] == raw.flags
            &&& segment.subrange(16, 18) == bytes::be_bytes(checksum as nat, 2)
            &&& segment.subrange(20, segment.len() as int) == raw.payload
            &&& forall|i: int|
                0 <= i < segment.len() && i != 16 && i != 17 ==> segment[i]
                    == #[trigger] tcp_segment(raw, 0)[i]
        }),
{
    bytes::lemma_be_bytes_len(raw.source_port as nat, 2);
    bytes::lemma_be_bytes_len(raw.destination.port as nat, 2);
    bytes::lemma_be_bytes_len(raw.sequence as nat, 4);
    bytes::lemma_be_bytes_len(raw.acknowledgement as nat, 4);
    bytes::lemma_be_bytes_len(checksum as nat, 2);
    bytes::lemma_be_bytes_len(0, 2);
    let segment = tcp_segment(raw, checksum);
    assert(segment.subrange(0, 2) =~= bytes::be_bytes(raw.source_port as nat, 2));
    assert(segment.subrange(2, 4) =~= bytes::be_bytes(raw.destination.port as nat, 2));
    assert(segment.subrange(4, 8) =~= bytes::be_bytes(raw.sequence as nat, 4));
    assert(segment.subrange(8, 12) =~= bytes::be_bytes(raw.acknowledgement as nat, 4));
    assert(segment.subrange(16, 18) =~= bytes::be_bytes(checksum as nat, 2));
    assert(segment.subrange(20, segment.len() as int) =~= raw.payload);
}

/// A skipped word does not enter the sum.
proof fn lemma_skipped_word(a: Seq<u8>, b: Seq<u8>, skip: int, count: nat)
    requires
        a.len() == b.len(),
        2 * count <= a.len() + 1,
        forall|i: int|
            0 <= i < a.len() && i != 2 * skip && i != 2 * skip + 1 ==> a[i] == #[trigger] b[i],
    ensures
        word_sum(a, skip, count) == word_sum(b, skip, count),
    decreases count,
{
    if count > 0 {
        lemma_skipped_word(a, b, skip, (count - 1) as nat);
        let i = count - 1;
        if i != skip {
            assert(a[2 * i] == b[2 * i]);
            if 2 * i + 1 < a.len() {
                assert(a[2 * i + 1] == b[2 * i + 1]);
            }
        }
    }
}

/// A packet that was built is read back as it was.
pub proof fn law_packet_round_trip(raw: RawModel)
    requires
        built(raw) is Ok,
    ensures
        parsed(built(raw)->Ok_0) == Some(
            ParsedModel {
                source: raw.source,
                destination: raw.destination.ip,
                source_port: raw.source_port,
                destination_port: raw.destination.port,
                sequence: raw.sequence,
                acknowledgement: raw.acknowledgement,
                flags: raw.flags,
                payload: raw.payload,
            },
        ),
{
    let packet = built(raw)->Ok_0;
    lemma_built_header(raw);
    lemma_built_segment(raw);
    law_intact_packets_are_read(packet);
    let segment = segment_of(packet);
    assert(segment =~= packet.skip(20));
    assert(segment.skip(20) =~= raw.payload);
}

/// What is read is neither a fragment nor damaged: both checksums agree with what
/// stands in the packet.
pub proof fn law_only_whole_and_intact_packets_are_read(packet: Seq<u8>)
    requires
        parsed(packet) is Some,
    ensures
        packet[6] % 64 == 0,
        packet[7] == 0,
        bytes::be_value(packet.subrange(10, 12)) == header_checksum(packet),
        ({
            let segment = packet.subrange(
                (packet[0] % 16) as int * 4,
                bytes::be_value(packet.subrange(2, 4)) as int,
            );
            bytes::be_value(segment.subrange(16, 18)) == segment_checksum(
                segment,
                parsed(packet)->Some_0.source,
                parsed(packet)->Some_0.destination,
            )
        }),
{
}

/// The number that two octets of a packet write.
pub open spec fn two_octets(packet: Seq<u8>, at: int) -> int {
    packet[at] * 256 + packet[at + 1]
}

/// The number that four octets of a packet write.
pub open spec fn four_octets(packet: Seq<u8>, at: int) -> int {
    two_octets(packet, at) * 65536 + two_octets(packet, at + 2)
}

proof fn lemma_octets(packet: Seq<u8>, at: int)
    requires
        0 <= at,
        at + 4 <= packet.len(),
    ensures
        bytes::be_value(packet.subrange(at, at + 2)) == two_octets(packet, at),
        bytes::be_value(packet.subrange(at, at + 4)) == four_octets(packet, at),
{
    reveal_with_fuel(bytes::be_value, 5);
    let two = packet.subrange(at, at + 2);
    let four = packet.subrange(at, at + 4);
    assert(two.drop_last().drop_last() =~= Seq::empty());
    assert(two.drop_last().last() == packet[at]);
    assert(two.last() == packet[at + 1]);
    assert(four.drop_last().drop_last() =~= two);
    assert(four.drop_last().last() == packet[at + 2]);
    assert(four.last() == packet[at + 3]);
}

/// How many octets the IPv4 header of a packet takes.
pub open spec fn ip_length(packet: Seq<u8>) -> int {
    (packet[0] % 16) * 4
}

/// The segment that a packet carries, as its lengths tell.
pub open spec fn segment_of(packet: Seq<u8>) -> Seq<u8> {
    packet.subrange(ip_length(packet), two_octets(packet, 2))
}

/// A packet is read exactly where it is IPv4 with a header of at least 20 octets, of the
/// TCP protocol and no fragment, its lengths fit each other and the packet, and both
/// checksums are right. Nothing else is looked at: neither the type of service, nor the
/// identification, the time to live, the options, the window or the urgent pointer. What
/// is read stands in the packet at its place.
pub proof fn law_intact_packets_are_read(packet: Seq<u8>)
    ensures
        parsed(packet) is Some <==> {
            let segment = segment_of(packet);
            &&& packet.len() >= 20
            &&& packet[0] / 16 == 4
            &&& ip_length(packet) >= 20
            &&& packet[9] == 6
            &&& packet[6] % 64 == 0 && packet[7] == 0
            &&& ip_length(packet) <= two_octets(packet, 2) <= packet.len()
            &&& two_octets(packet, 10) == header_checksum(packet)
            &&& segment.len() >= 20
            &&& 20 <= (segment[12] / 16) * 4 <= segment.len()
            &&& two_octets(segment, 16) == segment_checksum(
                segment,
                four_octets(packet, 12) as u32,
                four_octets(packet, 16) as u32,
            )
        },
        parsed(packet) matches Some(read) ==> {
            let segment = segment_of(packet);
            &&& read.source == four_octets(packet, 12)
            &&& read.destination == four_octets(packet, 16)
            &&& read.source_port == two_octets(segment, 0)
            &&& read.destination_port == two_octets(segment, 2)
            &&& read.sequence == four_octets(segment, 4)
            &&& read.acknowledgement == four_octets(segment, 8)
            &&& read.flags == segment[13]
            &&& read.payload == segment.skip((segment[12] / 16) * 4)
        },
{
    if packet.len() >= 20 {
        lemma_octets(packet, 2);
        lemma_octets(packet, 10);
        lemma_octets(packet, 12);
        lemma_octets(packet, 16);
        let flags = packet[6];
        assert((flags % 64 == 0) == (flags % 32 == 0 && (flags / 32) % 2 == 0));
        if ip_length(packet) <= two_octets(packet, 2) <= packet.len() {
            let segment = segment_of(packet);
            if segment.len() >= 20 {
                lemma_octets(segment, 0);
                lemma_octets(segment, 2);
                lemma_octets(segment, 4);
                lemma_octets(segment, 8);
                lemma_octets(segment, 16);
                let start = (segment[12] / 16) * 4;
                if start <= segment.len() {
                    assert(segment.skip(start) =~= segment.subrange(start, segment.len() as int));
                }
            }
        }
    }
}

/// What stands in the packet that carries a segment: a header of 20 octets without
/// options, the length of the whole, the flag against fragments, 64 hops to live, the
/// TCP protocol and the two addresses; then a TCP header of 20 octets with ports,
/// numbers and flags, an open window and nothing urgent, and the payload. Both checksums
/// are right. A packet that would be too long is not built.
pub proof fn law_packets_are_built(raw: RawModel)
    ensures
        built(raw) is Ok <==> 40 + raw.payload.len() <= 65535,
        built(raw) matches Err(error) ==> error == LinuxTransportError::FrameTooLarge,
        built(raw) matches Ok(packet) ==> {
            &&& packet.len() == 40 + raw.payload.len()
            &&& packet[0] == 0x45
            &&& packet[1] == 0
            &&& two_octets(packet, 2) == packet.len()
            &&& two_octets(packet, 4) == 0
            &&& packet[6] == 0x40
            &&& packet[7] == 0
            &&& packet[8] == 64
            &&& packet[9] == 6
            &&& two_octets(packet, 10) == header_checksum(packet)
            &&& four_octets(packet, 12) == raw.source
            &&& four_octets(packet, 16) == raw.destination.ip
            &&& two_octets(packet, 20) == raw.source_port
            &&& two_octets(packet, 22) == raw.destination.port
            &&& four_octets(packet, 24) == raw.sequence
            &&& four_octets(packet, 28) == raw.acknowledgement
            &&& packet[32] == 0x50
            &&& packet[33] == raw.flags
            &&& two_octets(packet, 34) == 65535
            &&& two_octets(packet, 36) == segment_checksum(
                packet.skip(20),
                raw.source,
                raw.destination.ip,
            )
            &&& two_octets(packet, 38) == 0
            &&& packet.skip(40) == raw.payload
        },
{
    if 40 + raw.payload.len() <= 65535 {
        lemma_built_header(raw);
        lemma_built_segment(raw);
        let packet = built(raw)->Ok_0;
        let segment = packet.skip(20);
        assert forall|i: int| 0 <= i < segment.len() implies packet[20 + i]
            == #[trigger] segment[i] by {}
        assert(packet.skip(40) =~= segment.skip(20));
    }
}

/// The first 20 octets of a packet.
proof fn lemma_built_header(raw: RawModel)
    requires
        40 + raw.payload.len() <= 65535,
    ensures
        built(raw) matches Ok(packet) && {
            &&& packet.len() == 40 + raw.payload.len()
            &&& packet[0] == 0x45 && packet[1] == 0
            &&& two_octets(packet, 2) == packet.len()
            &&& two_octets(packet, 4) == 0
            &&& packet[6] == 0x40 && packet[7] == 0 && packet[8] == 64 && packet[9] == 6
            &&& two_octets(packet, 10) == header_checksum(packet)
            &&& four_octets(packet, 12) == raw.source
            &&& four_octets(packet, 16) == raw.destination.ip
            &&& packet.skip(20) == tcp_segment(
                raw,
                segment_checksum(tcp_segment(raw, 0), raw.source, raw.destination.ip),
            )
        },
{
    let packet = built(raw)->Ok_0;
    let header_sum = header_checksum(ip_header(raw, 0));
    let segment_sum = segment_checksum(tcp_segment(raw, 0), raw.source, raw.destination.ip);
    let header = ip_header(raw, header_sum);
    let segment = tcp_segment(raw, segment_sum);
    lemma_header_shape(raw, header_sum);
    lemma_header_shape(raw, 0);
    lemma_segment_shape(raw, segment_sum);
    bytes::lemma_octet_ranges();
    bytes::lemma_be_bytes_len(40 + raw.payload.len(), 2);
    bytes::lemma_be_bytes_len(header_sum as nat, 2);
    bytes::lemma_be_round_trip(40 + raw.payload.len(), 2);
    bytes::lemma_be_round_trip(header_sum as nat, 2);
    bytes::lemma_be_round_trip(raw.source as nat, 4);
    bytes::lemma_be_round_trip(raw.destination.ip as nat, 4);
    assert(header[1] == 0 && header[4] == 0 && header[5] == 0 && header[8] == 64);
    assert(packet.subrange(2, 4) =~= header.subrange(2, 4));
    assert(packet.subrange(10, 12) =~= header.subrange(10, 12));
    assert(packet.subrange(12, 16) =~= header.subrange(12, 16));
    assert(packet.subrange(16, 20) =~= header.subrange(16, 20));
    lemma_octets(packet, 2);
    lemma_octets(packet, 10);
    lemma_octets(packet, 12);
    lemma_octets(packet, 16);
    assert(packet.skip(20) =~= segment);
    assert(header_part(packet) =~= header);
    assert(header_part(ip_header(raw, 0)) =~= ip_header(raw, 0));
    lemma_skipped_word(header, ip_header(raw, 0), 5, word_count(header));
}

/// What follows them.
proof fn lemma_built_segment(raw: RawModel)
    requires
        40 + raw.payload.len() <= 65535,
    ensures
        ({
            let segment = tcp_segment(
                raw,
                segment_checksum(tcp_segment(raw, 0), raw.source, raw.destination.ip),
            );
            &&& segment.len() == 20 + raw.payload.len()
            &&& two_octets(segment, 0) == raw.source_port
            &&& two_octets(segment, 2) == raw.destination.port
            &&& four_octets(segment, 4) == raw.sequence
            &&& four_octets(segment, 8) == raw.acknowledgement
            &&& segment[12] == 0x50 && segment[13] == raw.flags
            &&& two_octets(segment, 14) == 65535
            &&& two_octets(segment, 16) == segment_checksum(
                segment,
                raw.source,
                raw.destination.ip,
            )
            &&& two_octets(segment, 18) == 0
            &&& segment.skip(20) == raw.payload
        }),
{
    let segment_sum = segment_checksum(tcp_segment(raw, 0), raw.source, raw.destination.ip);
    let segment = tcp_segment(raw, segment_sum);
    lemma_segment_shape(raw, segment_sum);
    lemma_segment_shape(raw, 0);
    bytes::lemma_octet_ranges();
    bytes::lemma_be_bytes_len(raw.source_port as nat, 2);
    bytes::lemma_be_bytes_len(raw.destination.port as nat, 2);
    bytes::lemma_be_bytes_len(raw.sequence as nat, 4);
    bytes::lemma_be_bytes_len(raw.acknowledgement as nat, 4);
    bytes::lemma_be_bytes_len(segment_sum as nat, 2);
    bytes::lemma_be_round_trip(raw.source_port as nat, 2);
    bytes::lemma_be_round_trip(raw.destination.port as nat, 2);
    bytes::lemma_be_round_trip(raw.sequence as nat, 4);
    bytes::lemma_be_round_trip(raw.acknowledgement as nat, 4);
    bytes::lemma_be_round_trip(segment_sum as nat, 2);
    lemma_octets(segment, 0);
    lemma_octets(segment, 2);
    lemma_octets(segment, 4);
    lemma_octets(segment, 8);
    lemma_octets(segment, 16);
    assert(segment[14] == 0xFF && segment[15] == 0xFF);
    assert(segment[18] == 0 && segment[19] == 0);
    assert(segment.skip(20) =~= segment.subrange(20, segment.len() as int));
    lemma_skipped_word(segment, tcp_segment(raw, 0), 8, word_count(segment));
}

} // verus!
