//! The datagram envelope: a fixed header of 24 octets and a body.

use vstd::prelude::*;

use crate::bytes;
use crate::bytes::{append, be_vec, piece, read_be};
use crate::error::FrameError;
use crate::id::{ConversationId, SessionId};

verus! {

pub const PROTOCOL_VERSION: u16 = 4;

/// Conservative UDP payload ceiling before future per-path PMTU probing.
pub const MAX_FRAME_PAYLOAD: usize = 1_150;

/// The longest body of a frame: a payload and its authentication tag.
pub const MAX_FRAME_BODY: usize = 1_182;

pub const HEADER_LENGTH: usize = 24;

/// The first octet of every frame of this protocol version.
pub const V4_DISCRIMINATOR: u8 = 4;

#[derive(Clone, Copy, Debug, Eq, PartialEq, Structural)]
pub enum FrameType {
    ClientHello,
    ServerHello,
    ClientFinish,
    HelloRetry,
    Data,
    Close,
    HandshakeAck,
    ResumptionCredential,
    MtuProbe,
    MtuAck,
}

/// The octet that stands for a frame type.
pub open spec fn frame_type_code(frame_type: FrameType) -> u8 {
    match frame_type {
        FrameType::ClientHello => 1,
        FrameType::ServerHello => 2,
        FrameType::ClientFinish => 3,
        FrameType::HelloRetry => 4,
        FrameType::Data => 16,
        FrameType::Close => 18,
        FrameType::HandshakeAck => 19,
        FrameType::ResumptionCredential => 20,
        FrameType::MtuProbe => 32,
        FrameType::MtuAck => 33,
    }
}

/// The frame type that an octet stands for. The octet 17 is reserved.
pub open spec fn frame_type_of_code(code: u8) -> Option<FrameType> {
    if code == 1 {
        Some(FrameType::ClientHello)
    } else if code == 2 {
        Some(FrameType::ServerHello)
    } else if code == 3 {
        Some(FrameType::ClientFinish)
    } else if code == 4 {
        Some(FrameType::HelloRetry)
    } else if code == 16 {
        Some(FrameType::Data)
    } else if code == 18 {
        Some(FrameType::Close)
    } else if code == 19 {
        Some(FrameType::HandshakeAck)
    } else if code == 20 {
        Some(FrameType::ResumptionCredential)
    } else if code == 32 {
        Some(FrameType::MtuProbe)
    } else if code == 33 {
        Some(FrameType::MtuAck)
    } else {
        None
    }
}

/// Whether frames of a type carry a handshake message.
pub open spec fn carries_handshake(frame_type: FrameType) -> bool {
    frame_type == FrameType::ClientHello || frame_type == FrameType::ServerHello || frame_type
        == FrameType::ClientFinish || frame_type == FrameType::HelloRetry
}

/// Whether frames of a type carry a protected record.
pub open spec fn carries_record(frame_type: FrameType) -> bool {
    frame_type == FrameType::Data || frame_type == FrameType::Close || frame_type
        == FrameType::HandshakeAck || frame_type == FrameType::ResumptionCredential
}

impl FrameType {
    /// The octet that stands for this type.
    pub fn code(self) -> (r: u8)
        ensures
            r == frame_type_code(self),
    {
        match self {
            FrameType::ClientHello => 1,
            FrameType::ServerHello => 2,
            FrameType::ClientFinish => 3,
            FrameType::HelloRetry => 4,
            FrameType::Data => 16,
            FrameType::Close => 18,
            FrameType::HandshakeAck => 19,
            FrameType::ResumptionCredential => 20,
            FrameType::MtuProbe => 32,
            FrameType::MtuAck => 33,
        }
    }

    /// The type that an octet stands for.
    pub fn from_code(value: u8) -> (r: Result<Self, FrameError>)
        ensures
            r == match frame_type_of_code(value) {
                Some(frame_type) => Ok::<Self, FrameError>(frame_type),
                None => Err(FrameError::UnknownFrameType(value)),
            },
    {
        match value {
            1 => Ok(FrameType::ClientHello),
            2 => Ok(FrameType::ServerHello),
            3 => Ok(FrameType::ClientFinish),
            4 => Ok(FrameType::HelloRetry),
            16 => Ok(FrameType::Data),
            18 => Ok(FrameType::Close),
            19 => Ok(FrameType::HandshakeAck),
            20 => Ok(FrameType::ResumptionCredential),
            32 => Ok(FrameType::MtuProbe),
            33 => Ok(FrameType::MtuAck),
            _ => Err(FrameError::UnknownFrameType(value)),
        }
    }

    pub fn is_handshake(self) -> (r: bool)
        ensures
            r == carries_handshake(self),
    {
        match self {
            FrameType::ClientHello
            | FrameType::ServerHello
            | FrameType::ClientFinish
            | FrameType::HelloRetry => true,
            _ => false,
        }
    }

    pub fn is_protected(self) -> (r: bool)
        ensures
            r == carries_record(self),
    {
        match self {
            FrameType::Data
            | FrameType::Close
            | FrameType::HandshakeAck
            | FrameType::ResumptionCredential => true,
            _ => false,
        }
    }
}

impl TryFrom<u8> for FrameType {
    type Error = FrameError;

    fn try_from(value: u8) -> (r: Result<Self, FrameError>) {
        FrameType::from_code(value)
    }
}

impl vstd::std_specs::convert::TryFromSpecImpl<u8> for FrameType {
    open spec fn obeys_try_from_spec() -> bool {
        true
    }

    open spec fn try_from_spec(value: u8) -> Result<Self, FrameError> {
        match frame_type_of_code(value) {
            Some(frame_type) => Ok(frame_type),
            None => Err(FrameError::UnknownFrameType(value)),
        }
    }
}

/// Compact datagram envelope. The datagram boundary supplies the body length;
/// for protected frames `payload` contains ciphertext and its tag.
#[derive(Clone, Debug, Eq, PartialEq)]
pub struct WireFrame {
    pub session_id: SessionId,
    pub packet_number: u64,
    pub epoch: u32,
    pub frame_type: FrameType,
    pub conversation_id: Option<ConversationId>,
    pub payload: Vec<u8>,
}

/// What a [`WireFrame`] says.
#[verifier::ext_equal]
pub struct FrameModel {
    pub session_id: SessionId,
    pub packet_number: u64,
    pub epoch: u32,
    pub frame_type: FrameType,
    pub conversation_id: Option<ConversationId>,
    pub payload: Seq<u8>,
}

impl View for WireFrame {
    type V = FrameModel;

    open spec fn view(&self) -> FrameModel {
        FrameModel {
            session_id: self.session_id,
            packet_number: self.packet_number,
            epoch: self.epoch,
            frame_type: self.frame_type,
            conversation_id: self.conversation_id,
            payload: self.payload@,
        }
    }
}

/// The number that stands for an optional conversation in the header.
pub open spec fn conversation_number(conversation_id: Option<ConversationId>) -> u32 {
    match conversation_id {
        Some(id) => id.number(),
        None => 0,
    }
}

/// Whether the fields of a frame go with its type.
pub open spec fn fields_valid(frame: FrameModel) -> bool {
    &&& (frame.frame_type == FrameType::Data || frame.frame_type == FrameType::ResumptionCredential)
        ==> frame.conversation_id is Some
    &&& (carries_handshake(frame.frame_type) || frame.frame_type == FrameType::HandshakeAck)
        ==> frame.conversation_id is None
    &&& frame.epoch <= 255
}

/// The header of a frame whose epoch fits in one octet.
pub open spec fn header_of(frame: FrameModel) -> Seq<u8> {
    seq![V4_DISCRIMINATOR, frame_type_code(frame.frame_type), frame.epoch as u8, 0u8]
        + bytes::be_bytes(frame.session_id.number() as nat, 8) + bytes::be_bytes(
        frame.packet_number as nat,
        8,
    ) + bytes::be_bytes(conversation_number(frame.conversation_id) as nat, 4)
}

/// The datagram that carries a frame.
pub open spec fn encoded(frame: FrameModel) -> Result<Seq<u8>, FrameError> {
    if !fields_valid(frame) {
        Err(FrameError::InvalidFrameFields)
    } else if frame.payload.len() > MAX_FRAME_BODY {
        Err(FrameError::PayloadTooLarge)
    } else {
        Ok(header_of(frame) + frame.payload)
    }
}

/// The conversation that a header number stands for.
pub open spec fn conversation_of_number(number: u32) -> Option<ConversationId> {
    if number == 0 {
        None
    } else {
        Some(ConversationId::from_number(number))
    }
}

/// What the octets of a datagram say when they are read as a frame of a type.
pub open spec fn read_as(input: Seq<u8>, frame_type: FrameType) -> FrameModel {
    FrameModel {
        session_id: SessionId::from_number(bytes::be_value(input.subrange(4, 12)) as u64),
        packet_number: bytes::be_value(input.subrange(12, 20)) as u64,
        epoch: input[2] as u32,
        frame_type,
        conversation_id: conversation_of_number(
            bytes::be_value(input.subrange(20, 24)) as u32,
        ),
        payload: input.subrange(24, input.len() as int),
    }
}

/// The frame that a datagram carries.
pub open spec fn decoded(input: Seq<u8>) -> Result<FrameModel, FrameError> {
    if input.len() < HEADER_LENGTH {
        Err(FrameError::Truncated)
    } else if input[0] != V4_DISCRIMINATOR {
        Err(FrameError::InvalidMagic)
    } else {
        match frame_type_of_code(input[1]) {
            None => Err(FrameError::UnknownFrameType(input[1])),
            Some(frame_type) => if input[3] != 0 {
                Err(FrameError::ReservedFlags)
            } else if input.len() - HEADER_LENGTH > MAX_FRAME_BODY {
                Err(FrameError::PayloadTooLarge)
            } else if !fields_valid(read_as(input, frame_type)) {
                Err(FrameError::InvalidFrameFields)
            } else {
                Ok(read_as(input, frame_type))
            },
        }
    }
}

/// The header takes 24 octets, and each field stands at its place.
pub proof fn lemma_header(frame: FrameModel)
    ensures
        header_of(frame).len() == HEADER_LENGTH,
        header_of(frame)[0] == V4_DISCRIMINATOR,
        header_of(frame)[1] == frame_type_code(frame.frame_type),
        header_of(frame)[2] == frame.epoch as u8,
        header_of(frame)[3] == 0,
        header_of(frame).subrange(4, 12) == bytes::be_bytes(frame.session_id.number() as nat, 8),
        header_of(frame).subrange(12, 20) == bytes::be_bytes(frame.packet_number as nat, 8),
        header_of(frame).subrange(20, 24) == bytes::be_bytes(
            conversation_number(frame.conversation_id) as nat,
            4,
        ),
{
    bytes::lemma_be_bytes_len(frame.session_id.number() as nat, 8);
    bytes::lemma_be_bytes_len(frame.packet_number as nat, 8);
    bytes::lemma_be_bytes_len(conversation_number(frame.conversation_id) as nat, 4);
    let header = header_of(frame);
    assert(header.subrange(4, 12) =~= bytes::be_bytes(frame.session_id.number() as nat, 8));
    assert(header.subrange(12, 20) =~= bytes::be_bytes(frame.packet_number as nat, 8));
    assert(header.subrange(20, 24) =~= bytes::be_bytes(
        conversation_number(frame.conversation_id) as nat,
        4,
    ));
}

/// A frame that can be written is read back as it was.
pub proof fn law_frame_round_trip(frame: FrameModel)
    requires
        encoded(frame) is Ok,
        frame.conversation_id matches Some(id) ==> id.number() != 0,
    ensures
        decoded(encoded(frame)->Ok_0) == Ok::<FrameModel, FrameError>(frame),
        encoded(frame)->Ok_0.len() == HEADER_LENGTH + frame.payload.len(),
{
    let datagram = encoded(frame)->Ok_0;
    let header = header_of(frame);
    lemma_header(frame);
    bytes::lemma_octet_ranges();
    bytes::lemma_be_round_trip(frame.session_id.number() as nat, 8);
    bytes::lemma_be_round_trip(frame.packet_number as nat, 8);
    bytes::lemma_be_round_trip(conversation_number(frame.conversation_id) as nat, 4);
    assert(datagram.subrange(4, 12) =~= header.subrange(4, 12));
    assert(datagram.subrange(12, 20) =~= header.subrange(12, 20));
    assert(datagram.subrange(20, 24) =~= header.subrange(20, 24));
    SessionId::number_identifies(frame.session_id, 0);
    match frame.conversation_id {
        Some(id) => {
            ConversationId::number_identifies(id, 0);
        },
        None => {},
    }
    assert(read_as(datagram, frame.frame_type) =~= frame);
}

/// A datagram that can be read is the only one that carries its frame.
pub proof fn law_datagram_round_trip(input: Seq<u8>)
    requires
        decoded(input) is Ok,
    ensures
        encoded(decoded(input)->Ok_0) == Ok::<Seq<u8>, FrameError>(input),
{
    let frame = decoded(input)->Ok_0;
    bytes::lemma_octet_ranges();
    bytes::lemma_be_value_round_trip(input.subrange(4, 12));
    bytes::lemma_be_value_round_trip(input.subrange(12, 20));
    bytes::lemma_be_value_round_trip(input.subrange(20, 24));
    let session = bytes::be_value(input.subrange(4, 12)) as u64;
    let conversation = bytes::be_value(input.subrange(20, 24)) as u32;
    SessionId::number_identifies(frame.session_id, session);
    ConversationId::number_identifies(ConversationId::from_number(conversation), conversation);
    lemma_header(frame);
    assert(header_of(frame) + frame.payload =~= input);
}

/// Nothing shorter than a header is a frame, and neither is anything with a
/// foreign first octet, an unknown or reserved type, or flags.
pub proof fn law_malformed_datagrams_are_refused(input: Seq<u8>)
    ensures
        input.len() < HEADER_LENGTH ==> decoded(input) is Err,
        input.len() >= HEADER_LENGTH && input[0] != V4_DISCRIMINATOR ==> decoded(input)
            == Err::<FrameModel, FrameError>(FrameError::InvalidMagic),
        input.len() >= HEADER_LENGTH && input[0] == V4_DISCRIMINATOR && frame_type_of_code(
            input[1],
        ) is None ==> decoded(input) == Err::<FrameModel, FrameError>(
            FrameError::UnknownFrameType(input[1]),
        ),
        input.len() >= HEADER_LENGTH && input[0] == V4_DISCRIMINATOR && frame_type_of_code(
            input[1],
        ) is Some && input[3] != 0 ==> decoded(input) == Err::<FrameModel, FrameError>(
            FrameError::ReservedFlags,
        ),
        frame_type_of_code(17) is None,
{
}

/// The boundary of the datagram gives the length of the body: octets put behind a
/// frame are read as a longer body of the same frame.
pub proof fn law_datagram_boundary_gives_body(input: Seq<u8>, tail: Seq<u8>)
    requires
        decoded(input) is Ok,
        input.len() - HEADER_LENGTH + tail.len() <= MAX_FRAME_BODY,
    ensures
        decoded(input + tail) == Ok::<FrameModel, FrameError>(
            FrameModel {
                payload: decoded(input)->Ok_0.payload + tail,
                ..decoded(input)->Ok_0
            },
        ),
{
    let longer = input + tail;
    let frame = decoded(input)->Ok_0;
    assert(longer.subrange(4, 12) =~= input.subrange(4, 12));
    assert(longer.subrange(12, 20) =~= input.subrange(12, 20));
    assert(longer.subrange(20, 24) =~= input.subrange(20, 24));
    assert(read_as(longer, frame.frame_type) =~= FrameModel {
        payload: frame.payload + tail,
        ..frame
    });
}

impl WireFrame {
    pub fn encode(&self) -> (r: Result<Vec<u8>, FrameError>)
        ensures
            match r {
                Ok(datagram) => encoded(self@) == Ok::<Seq<u8>, FrameError>(datagram@),
                Err(error) => encoded(self@) == Err::<Seq<u8>, FrameError>(error),
            },
            r is Ok ==> (self.conversation_id matches Some(id) ==> id.number() != 0),
    {
        match self.validate_fields() {
            Ok(()) => {},
            Err(error) => {
                return Err(error);
            },
        }
        if self.payload.len() > MAX_FRAME_BODY {
            return Err(FrameError::PayloadTooLarge);
        }
        let mut output: Vec<u8> = match self.encoded_header() {
            Ok(header) => header,
            Err(error) => {
                return Err(error);
            },
        };
        append(&mut output, self.payload.as_slice());
        Ok(output)
    }

    pub fn decode(input: &[u8]) -> (r: Result<Self, FrameError>)
        ensures
            match r {
                Ok(frame) => decoded(input@) == Ok::<FrameModel, FrameError>(frame@),
                Err(error) => decoded(input@) == Err::<FrameModel, FrameError>(error),
            },
            r matches Ok(frame) ==> (frame.conversation_id matches Some(id) ==> id.number() != 0),
    {
        if input.len() < HEADER_LENGTH {
            return Err(FrameError::Truncated);
        }
        if input[0] != V4_DISCRIMINATOR {
            return Err(FrameError::InvalidMagic);
        }
        let frame_type = match FrameType::from_code(input[1]) {
            Ok(frame_type) => frame_type,
            Err(error) => {
                return Err(error);
            },
        };
        if input[3] != 0 {
            return Err(FrameError::ReservedFlags);
        }
        if input.len() - HEADER_LENGTH > MAX_FRAME_BODY {
            return Err(FrameError::PayloadTooLarge);
        }
        proof {
            bytes::lemma_octet_ranges();
        }
        let raw_conversation: u32 = read_be(input, 20, 4) as u32;
        let frame = WireFrame {
            session_id: SessionId::from_u64(read_be(input, 4, 8)),
            packet_number: read_be(input, 12, 8),
            epoch: input[2] as u32,
            frame_type,
            conversation_id: ConversationId::new(raw_conversation),
            payload: piece(input, HEADER_LENGTH, input.len()),
        };
        assert(frame@ =~= read_as(input@, frame_type));
        match frame.validate_fields() {
            Ok(()) => Ok(frame),
            Err(error) => Err(error),
        }
    }

    /// The header of this frame. An epoch that one octet cannot hold has none.
    pub fn encoded_header(&self) -> (r: Result<Vec<u8>, FrameError>)
        ensures
            match r {
                Ok(header) => self.epoch <= 255 && header@ == header_of(self@) && (
                self.conversation_id matches Some(id) ==> id.number() != 0),
                Err(error) => self.epoch > 255 && error == FrameError::InvalidFrameFields,
            },
    {
        if self.epoch > 255 {
            return Err(FrameError::InvalidFrameFields);
        }
        let conversation: u32 = match self.conversation_id {
            Some(id) => id.get(),
            None => 0,
        };
        let mut output: Vec<u8> = Vec::new();
        output.push(V4_DISCRIMINATOR);
        output.push(self.frame_type.code());
        output.push(self.epoch as u8);
        output.push(0);
        append(&mut output, be_vec(self.session_id.get(), 8).as_slice());
        append(&mut output, be_vec(self.packet_number, 8).as_slice());
        append(&mut output, be_vec(conversation as u64, 4).as_slice());
        assert(output@ =~= header_of(self@));
        Ok(output)
    }

    fn validate_fields(&self) -> (r: Result<(), FrameError>)
        ensures
            r == if fields_valid(self@) {
                Ok::<(), FrameError>(())
            } else {
                Err(FrameError::InvalidFrameFields)
            },
    {
        match self.frame_type {
            FrameType::Data | FrameType::ResumptionCredential => {
                if self.conversation_id.is_none() {
                    return Err(FrameError::InvalidFrameFields);
                }
            },
            FrameType::ClientHello
            | FrameType::ServerHello
            | FrameType::ClientFinish
            | FrameType::HelloRetry
            | FrameType::HandshakeAck => {
                if self.conversation_id.is_some() {
                    return Err(FrameError::InvalidFrameFields);
                }
            },
            _ => {},
        }
        if self.epoch > 255 {
            return Err(FrameError::InvalidFrameFields);
        }
        if self.frame_type.is_handshake() && self.conversation_id.is_some() {
            return Err(FrameError::InvalidFrameFields);
        }
        Ok(())
    }
}

/// What stands in a datagram: 24 octets with the version, the type, the epoch, no flags,
/// the session, the packet number and the conversation, and then the body. A frame has
/// one exactly where its conversation goes with its type, its epoch fits in an octet and
/// its body is not too long.
pub proof fn law_frames_are_laid_out(frame: FrameModel)
    ensures
        encoded(frame) is Ok <==> {
            &&& frame.epoch <= 255
            &&& frame.payload.len() <= 1182
            &&& match frame.frame_type {
                FrameType::Data | FrameType::ResumptionCredential => frame.conversation_id is Some,
                FrameType::Close | FrameType::MtuProbe | FrameType::MtuAck => true,
                _ => frame.conversation_id is None,
            }
        },
        encoded(frame) matches Ok(datagram) ==> {
            &&& datagram.len() == 24 + frame.payload.len()
            &&& datagram[0] == 4
            &&& datagram[1] == match frame.frame_type {
                FrameType::ClientHello => 1u8,
                FrameType::ServerHello => 2,
                FrameType::ClientFinish => 3,
                FrameType::HelloRetry => 4,
                FrameType::Data => 16,
                FrameType::Close => 18,
                FrameType::HandshakeAck => 19,
                FrameType::ResumptionCredential => 20,
                FrameType::MtuProbe => 32,
                FrameType::MtuAck => 33,
            }
            &&& datagram[2] == frame.epoch
            &&& datagram[3] == 0
            &&& bytes::be_value(datagram.subrange(4, 12)) == frame.session_id.number()
            &&& bytes::be_value(datagram.subrange(12, 20)) == frame.packet_number
            &&& bytes::be_value(datagram.subrange(20, 24)) == match frame.conversation_id {
                Some(id) => id.number(),
                None => 0,
            }
            &&& datagram.skip(24) == frame.payload
        },
{
    if encoded(frame) is Ok {
        let datagram = encoded(frame)->Ok_0;
        let header = header_of(frame);
        lemma_header(frame);
        bytes::lemma_octet_ranges();
        bytes::lemma_be_round_trip(frame.session_id.number() as nat, 8);
        bytes::lemma_be_round_trip(frame.packet_number as nat, 8);
        bytes::lemma_be_round_trip(conversation_number(frame.conversation_id) as nat, 4);
        assert(datagram.subrange(4, 12) =~= header.subrange(4, 12));
        assert(datagram.subrange(12, 20) =~= header.subrange(12, 20));
        assert(datagram.subrange(20, 24) =~= header.subrange(20, 24));
        assert(datagram.skip(24) =~= frame.payload);
    }
}

/// A datagram is a frame exactly where it has a header and no more than a body can have,
/// the version is right, the type is known, no flag is set, and its conversation goes
/// with its type.
pub proof fn law_datagrams_are_read(input: Seq<u8>)
    ensures
        decoded(input) is Ok <==> {
            let code = input[1];
            let named = bytes::be_value(input.subrange(20, 24)) != 0;
            &&& 24 <= input.len() <= 24 + 1182
            &&& input[0] == 4
            &&& input[3] == 0
            &&& {
                ||| (1 <= code <= 4 || code == 19) && !named
                ||| (code == 16 || code == 20) && named
                ||| code == 18 || code == 32 || code == 33
            }
        },
{
    if input.len() >= 24 {
        bytes::lemma_octet_ranges();
        bytes::lemma_be_value_round_trip(input.subrange(20, 24));
    }
}

} // verus!
