//! The record layer: sealing and opening protected frames.

use vstd::prelude::*;

use crate::cipher;
use crate::cipher::{
    aes128gcm_decrypt, aes128gcm_encrypt, aes256gcm_decrypt, aes256gcm_encrypt,
    chacha20poly1305_decrypt, chacha20poly1305_encrypt, xchacha20poly1305_decrypt,
    xchacha20poly1305_encrypt, AEAD_TAG_LENGTH, MAX_AEAD_INPUT,
};
use crate::bytes;
use crate::bytes::{append, be_vec, copy_of, take_array};
use crate::config;
use crate::config::CipherSuite;
use crate::crypto;
use crate::crypto::{hmac_tag, verify_hmac, Direction, DirectionKeys, KeysModel};
use crate::error::{CryptoError, FrameError, RecordError};
use crate::id::{ConversationId, SessionId};
use crate::protocol;
use crate::protocol::{
    FrameModel, FrameType, WireFrame, HEADER_LENGTH, MAX_FRAME_BODY, MAX_FRAME_PAYLOAD,
};
use crate::replay;
use crate::replay::{ReplayModel, ReplayWindow};

verus! {

pub const HMAC_TAG_LENGTH: usize = 32;

/// How many octets of tag end a record.
pub open spec fn tag_length(suite: CipherSuite) -> nat {
    if suite == CipherSuite::NoneAuthenticated {
        HMAC_TAG_LENGTH as nat
    } else {
        AEAD_TAG_LENGTH as nat
    }
}

/// Whether a suite can work with keys of these lengths.
pub open spec fn keys_usable(suite: CipherSuite, keys: KeysModel) -> bool {
    suite == CipherSuite::NoneAuthenticated || crypto::keys_fit(suite, keys)
}

/// The nonce of a packet: the secret prefix and the packet number.
pub open spec fn record_nonce(keys: KeysModel, packet_number: u64) -> Seq<u8> {
    keys.nonce_prefix + bytes::be_bytes(packet_number as nat, 8)
}

/// What is authenticated beside the payload: the header, the direction, the suite
/// and the length of the body, which the datagram's boundary gives.
pub open spec fn record_aad(
    frame: FrameModel,
    direction: Direction,
    suite: CipherSuite,
    body_length: nat,
) -> Seq<u8> {
    protocol::header_of(frame) + seq![
        crypto::direction_wire_id(direction),
        config::suite_wire_id(suite),
    ] + bytes::be_bytes(body_length, 4)
}

/// The protected body of a record: the payload, encrypted where the suite
/// encrypts, and its tag.
pub open spec fn protected(
    suite: CipherSuite,
    keys: KeysModel,
    packet_number: u64,
    aad: Seq<u8>,
    plaintext: Seq<u8>,
) -> Seq<u8> {
    let nonce = record_nonce(keys, packet_number);
    match suite {
        CipherSuite::ChaCha20Poly1305 => {
            let sealed = cipher::chacha20poly1305_sealed(keys.record_key, nonce, aad, plaintext);
            sealed.0 + sealed.1
        },
        CipherSuite::XChaCha20Poly1305 => {
            let sealed = cipher::xchacha20poly1305_sealed(keys.record_key, nonce, aad, plaintext);
            sealed.0 + sealed.1
        },
        CipherSuite::Aes128Gcm => {
            let sealed = cipher::aes128gcm_sealed(keys.record_key, nonce, aad, plaintext);
            sealed.0 + sealed.1
        },
        CipherSuite::Aes256Gcm => {
            let sealed = cipher::aes256gcm_sealed(keys.record_key, nonce, aad, plaintext);
            sealed.0 + sealed.1
        },
        CipherSuite::NoneAuthenticated => plaintext + crypto::hmac_sha256(
            keys.record_key,
            aad + plaintext,
        ),
    }
}

/// The payload of a protected body, where its tag is right.
pub open spec fn unprotected(
    suite: CipherSuite,
    keys: KeysModel,
    packet_number: u64,
    aad: Seq<u8>,
    ciphertext: Seq<u8>,
    tag: Seq<u8>,
) -> Option<Seq<u8>> {
    let nonce = record_nonce(keys, packet_number);
    match suite {
        CipherSuite::ChaCha20Poly1305 => cipher::chacha20poly1305_opened(
            keys.record_key,
            nonce,
            aad,
            ciphertext,
            tag,
        ),
        CipherSuite::XChaCha20Poly1305 => cipher::xchacha20poly1305_opened(
            keys.record_key,
            nonce,
            aad,
            ciphertext,
            tag,
        ),
        CipherSuite::Aes128Gcm => cipher::aes128gcm_opened(
            keys.record_key,
            nonce,
            aad,
            ciphertext,
            tag,
        ),
        CipherSuite::Aes256Gcm => cipher::aes256gcm_opened(
            keys.record_key,
            nonce,
            aad,
            ciphertext,
            tag,
        ),
        CipherSuite::NoneAuthenticated => if tag == crypto::hmac_sha256(
            keys.record_key,
            aad + ciphertext,
        ) {
            Some(ciphertext)
        } else {
            None
        },
    }
}

/// A record that was opened.
pub struct AuthenticatedFrame {
    pub frame_type: FrameType,
    pub conversation_id: Option<ConversationId>,
    pub plaintext: Vec<u8>,
}

/// What an [`AuthenticatedFrame`] says.
#[verifier::ext_equal]
pub struct RecordModel {
    pub frame_type: FrameType,
    pub conversation_id: Option<ConversationId>,
    pub plaintext: Seq<u8>,
}

impl View for AuthenticatedFrame {
    type V = RecordModel;

    open spec fn view(&self) -> RecordModel {
        RecordModel {
            frame_type: self.frame_type,
            conversation_id: self.conversation_id,
            plaintext: self.plaintext@,
        }
    }
}

/// The sending half of a session's record layer.
pub struct RecordSealer {
    suite: CipherSuite,
    direction: Direction,
    session_id: SessionId,
    next_packet_number: u64,
    keys: DirectionKeys,
}

/// What a [`RecordSealer`] holds.
#[verifier::ext_equal]
pub struct SealerModel {
    pub suite: CipherSuite,
    pub direction: Direction,
    pub session_id: SessionId,
    pub next_packet_number: u64,
    pub keys: KeysModel,
}

impl View for RecordSealer {
    type V = SealerModel;

    closed spec fn view(&self) -> SealerModel {
        SealerModel {
            suite: self.suite,
            direction: self.direction,
            session_id: self.session_id,
            next_packet_number: self.next_packet_number,
            keys: self.keys@,
        }
    }
}

/// The receiving half of a session's record layer.
pub struct RecordOpener {
    suite: CipherSuite,
    direction: Direction,
    session_id: SessionId,
    keys: DirectionKeys,
    replay: ReplayWindow,
}

/// What a [`RecordOpener`] holds.
#[verifier::ext_equal]
pub struct OpenerModel {
    pub suite: CipherSuite,
    pub direction: Direction,
    pub session_id: SessionId,
    pub keys: KeysModel,
    pub replay: ReplayModel,
}

impl View for RecordOpener {
    type V = OpenerModel;

    closed spec fn view(&self) -> OpenerModel {
        OpenerModel {
            suite: self.suite,
            direction: self.direction,
            session_id: self.session_id,
            keys: self.keys@,
            replay: self.replay@,
        }
    }
}

/// The header fields of a record.
pub open spec fn record_frame(
    session_id: SessionId,
    packet_number: u64,
    frame_type: FrameType,
    conversation_id: Option<ConversationId>,
    body: Seq<u8>,
) -> FrameModel {
    FrameModel {
        session_id,
        packet_number,
        epoch: 0,
        frame_type,
        conversation_id,
        payload: body,
    }
}

/// The datagram of a record with a given packet number.
pub open spec fn record_datagram(
    sealer: SealerModel,
    frame_type: FrameType,
    conversation_id: Option<ConversationId>,
    plaintext: Seq<u8>,
) -> Seq<u8> {
    let envelope = record_frame(
        sealer.session_id,
        sealer.next_packet_number,
        frame_type,
        conversation_id,
        Seq::empty(),
    );
    protocol::header_of(envelope) + protected(
        sealer.suite,
        sealer.keys,
        sealer.next_packet_number,
        record_aad(
            envelope,
            sealer.direction,
            sealer.suite,
            plaintext.len() + tag_length(sealer.suite),
        ),
        plaintext,
    )
}

/// What sealing gives.
pub open spec fn sealed(
    sealer: SealerModel,
    frame_type: FrameType,
    conversation_id: Option<ConversationId>,
    plaintext: Seq<u8>,
) -> Result<Seq<u8>, RecordError> {
    if !protocol::carries_record(frame_type) {
        Err(RecordError::InvalidRecordType)
    } else if sealer.next_packet_number == u64::MAX {
        Err(RecordError::PacketNumberExhausted)
    } else if !keys_usable(sealer.suite, sealer.keys) {
        Err(RecordError::Crypto(CryptoError::KeyDerivationFailed))
    } else if !protocol::fields_valid(
        record_frame(
            sealer.session_id,
            sealer.next_packet_number,
            frame_type,
            conversation_id,
            Seq::empty(),
        ),
    ) {
        Err(RecordError::Frame(FrameError::InvalidFrameFields))
    } else if plaintext.len() + tag_length(sealer.suite) > MAX_FRAME_BODY {
        Err(RecordError::Frame(FrameError::PayloadTooLarge))
    } else {
        Ok(record_datagram(sealer, frame_type, conversation_id, plaintext))
    }
}

/// The sealer after sealing: every sealed record uses up a packet number.
pub open spec fn after_sealing(
    sealer: SealerModel,
    frame_type: FrameType,
    conversation_id: Option<ConversationId>,
    plaintext: Seq<u8>,
) -> SealerModel {
    if sealed(sealer, frame_type, conversation_id, plaintext) is Ok {
        SealerModel {
            next_packet_number: (sealer.next_packet_number + 1) as u64,
            ..sealer
        }
    } else {
        sealer
    }
}

/// A sealer that has sealed a number of records more.
pub open spec fn numbered(sealer: SealerModel, more: int) -> SealerModel {
    SealerModel { next_packet_number: (sealer.next_packet_number + more) as u64, ..sealer }
}

/// What opening gives once the record is known to be authentic.
pub open spec fn delivered(opener: OpenerModel, packet_number: u64, record: RecordModel) -> Result<
    RecordModel,
    RecordError,
> {
    if record.plaintext.len() > MAX_FRAME_PAYLOAD {
        Err(RecordError::Frame(FrameError::PayloadTooLarge))
    } else {
        match replay::admission(opener.replay, packet_number) {
            Ok(_) => Ok(record),
            Err(error) => Err(RecordError::Replay(error)),
        }
    }
}

/// What opening gives for a frame.
pub open spec fn opened_frame(opener: OpenerModel, frame: FrameModel) -> Result<
    RecordModel,
    RecordError,
> {
    let split = frame.payload.len() - tag_length(opener.suite);
    if frame.session_id != opener.session_id {
        Err(RecordError::SessionMismatch)
    } else if frame.epoch != 0 {
        Err(RecordError::UnsupportedEpoch)
    } else if !protocol::carries_record(frame.frame_type) {
        Err(RecordError::InvalidRecordType)
    } else if split < 0 {
        Err(RecordError::TruncatedTag)
    } else if !keys_usable(opener.suite, opener.keys) {
        Err(RecordError::Crypto(CryptoError::KeyDerivationFailed))
    } else {
        match unprotected(
            opener.suite,
            opener.keys,
            frame.packet_number,
            record_aad(frame, opener.direction, opener.suite, frame.payload.len()),
            frame.payload.subrange(0, split),
            frame.payload.subrange(split, frame.payload.len() as int),
        ) {
            None => Err(RecordError::Crypto(CryptoError::AuthenticationFailed)),
            Some(plaintext) => delivered(
                opener,
                frame.packet_number,
                RecordModel {
                    frame_type: frame.frame_type,
                    conversation_id: frame.conversation_id,
                    plaintext,
                },
            ),
        }
    }
}

/// What opening gives for a datagram.
pub open spec fn opened(opener: OpenerModel, datagram: Seq<u8>) -> Result<
    RecordModel,
    RecordError,
> {
    match protocol::decoded(datagram) {
        Err(error) => Err(RecordError::Frame(error)),
        Ok(frame) => opened_frame(opener, frame),
    }
}

/// The opener after opening: only an authentic record that is no replay is
/// remembered.
pub open spec fn after_opening(opener: OpenerModel, datagram: Seq<u8>) -> OpenerModel {
    if opened(opener, datagram) is Ok {
        OpenerModel {
            replay: replay::presented(
                opener.replay,
                protocol::decoded(datagram)->Ok_0.packet_number,
            ),
            ..opener
        }
    } else {
        opener
    }
}

/// Whether an opener belongs to the other end of a sealer.
pub open spec fn pairs(sealer: SealerModel, opener: OpenerModel) -> bool {
    &&& sealer.suite == opener.suite
    &&& sealer.direction == opener.direction
    &&& sealer.session_id == opener.session_id
    &&& sealer.keys == opener.keys
}

/// Whether a datagram is what the holder of the sending keys seals for a record.
pub open spec fn authentic(
    opener: OpenerModel,
    packet_number: u64,
    record: RecordModel,
    datagram: Seq<u8>,
) -> bool {
    datagram == record_datagram(
        SealerModel {
            suite: opener.suite,
            direction: opener.direction,
            session_id: opener.session_id,
            next_packet_number: packet_number,
            keys: opener.keys,
        },
        record.frame_type,
        record.conversation_id,
        record.plaintext,
    )
}

/// Why a frame that is not genuine is refused: it is of another session, of another
/// epoch or of an unprotected type, it is too short for a tag, the keys do not fit the
/// suite, or else its tag is wrong.
pub open spec fn refusal(opener: OpenerModel, frame: FrameModel) -> RecordError {
    if frame.session_id != opener.session_id {
        RecordError::SessionMismatch
    } else if frame.epoch != 0 {
        RecordError::UnsupportedEpoch
    } else if !protocol::carries_record(frame.frame_type) {
        RecordError::InvalidRecordType
    } else if frame.payload.len() < tag_length(opener.suite) {
        RecordError::TruncatedTag
    } else if !keys_usable(opener.suite, opener.keys) {
        RecordError::Crypto(CryptoError::KeyDerivationFailed)
    } else {
        RecordError::Crypto(CryptoError::AuthenticationFailed)
    }
}

/// Whether a datagram is what the holder of the sending keys seals for any record
/// at all.
pub open spec fn genuine(opener: OpenerModel, datagram: Seq<u8>) -> bool {
    exists|packet_number: u64, record: RecordModel| #[trigger]
        authentic(opener, packet_number, record, datagram)
}

/// The header does not depend on the body.
proof fn lemma_header_without_body(frame: FrameModel, body: Seq<u8>)
    ensures
        protocol::header_of(FrameModel { payload: body, ..frame }) == protocol::header_of(frame),
{
}

/// Packet numbers of sealed records strictly increase, so no two records of a
/// sealer share a nonce.
pub proof fn law_nonces_never_repeat(
    keys: KeysModel,
    first: u64,
    second: u64,
)
    requires
        first != second,
    ensures
        record_nonce(keys, first) != record_nonce(keys, second),
{
    bytes::lemma_octet_ranges();
    bytes::lemma_be_bytes_len(first as nat, 8);
    bytes::lemma_be_bytes_len(second as nat, 8);
    let a = record_nonce(keys, first);
    let b = record_nonce(keys, second);
    if a == b {
        let from = keys.nonce_prefix.len() as int;
        assert(a.subrange(from, from + 8) =~= bytes::be_bytes(first as nat, 8));
        assert(b.subrange(from, from + 8) =~= bytes::be_bytes(second as nat, 8));
        bytes::lemma_be_bytes_injective(first as nat, second as nat, 8);
    }
}

/// The length of a body is authenticated: bodies of different lengths never share
/// their associated data, whatever their headers are.
pub proof fn law_body_lengths_are_authenticated(
    first: FrameModel,
    second: FrameModel,
    direction: Direction,
    suite: CipherSuite,
    lengths: (nat, nat),
)
    requires
        lengths.0 <= MAX_FRAME_BODY,
        lengths.1 <= MAX_FRAME_BODY,
        lengths.0 != lengths.1,
    ensures
        record_aad(first, direction, suite, lengths.0) != record_aad(
            second,
            direction,
            suite,
            lengths.1,
        ),
{
    let a = record_aad(first, direction, suite, lengths.0);
    let b = record_aad(second, direction, suite, lengths.1);
    protocol::lemma_header(first);
    protocol::lemma_header(second);
    bytes::lemma_octet_ranges();
    bytes::lemma_be_bytes_len(lengths.0, 4);
    bytes::lemma_be_bytes_len(lengths.1, 4);
    if a == b {
        let from = HEADER_LENGTH as int + 2;
        assert(a.subrange(from, from + 4) =~= bytes::be_bytes(lengths.0, 4));
        assert(b.subrange(from, from + 4) =~= bytes::be_bytes(lengths.1, 4));
        bytes::lemma_be_bytes_injective(lengths.0, lengths.1, 4);
    }
}

/// Everything that a header says is authenticated, and so are the direction, the suite and
/// the length of the body: where any of them differs, so does the associated data.
pub proof fn law_contexts_are_authenticated(
    frames: (FrameModel, FrameModel),
    directions: (Direction, Direction),
    suites: (CipherSuite, CipherSuite),
    lengths: (nat, nat),
)
    requires
        protocol::encoded(FrameModel { payload: Seq::empty(), ..frames.0 }) is Ok,
        protocol::encoded(FrameModel { payload: Seq::empty(), ..frames.1 }) is Ok,
        frames.0.conversation_id matches Some(id) ==> id.number() != 0,
        frames.1.conversation_id matches Some(id) ==> id.number() != 0,
        lengths.0 <= MAX_FRAME_BODY,
        lengths.1 <= MAX_FRAME_BODY,
        record_aad(frames.0, directions.0, suites.0, lengths.0) == record_aad(
            frames.1,
            directions.1,
            suites.1,
            lengths.1,
        ),
    ensures
        (FrameModel { payload: Seq::empty(), ..frames.0 }) == (FrameModel {
            payload: Seq::empty(),
            ..frames.1
        }),
        directions.0 == directions.1,
        suites.0 == suites.1,
        lengths.0 == lengths.1,
{
    let a = record_aad(frames.0, directions.0, suites.0, lengths.0);
    let b = record_aad(frames.1, directions.1, suites.1, lengths.1);
    let bare = (
        FrameModel { payload: Seq::empty(), ..frames.0 },
        FrameModel { payload: Seq::empty(), ..frames.1 },
    );
    protocol::lemma_header(frames.0);
    protocol::lemma_header(frames.1);
    bytes::lemma_octet_ranges();
    bytes::lemma_be_bytes_len(lengths.0, 4);
    bytes::lemma_be_bytes_len(lengths.1, 4);
    lemma_header_without_body(frames.0, Seq::empty());
    lemma_header_without_body(frames.1, Seq::empty());
    assert(a.subrange(0, 24) =~= protocol::header_of(bare.0));
    assert(b.subrange(0, 24) =~= protocol::header_of(bare.1));
    assert(protocol::header_of(bare.0) + bare.0.payload =~= protocol::header_of(bare.0));
    assert(protocol::header_of(bare.1) + bare.1.payload =~= protocol::header_of(bare.1));
    protocol::law_frame_round_trip(bare.0);
    protocol::law_frame_round_trip(bare.1);
    assert(a[24] == crypto::direction_wire_id(directions.0));
    assert(b[24] == crypto::direction_wire_id(directions.1));
    assert(a[25] == config::suite_wire_id(suites.0));
    assert(b[25] == config::suite_wire_id(suites.1));
    assert(a.subrange(26, 30) =~= bytes::be_bytes(lengths.0, 4));
    assert(b.subrange(26, 30) =~= bytes::be_bytes(lengths.1, 4));
    bytes::lemma_be_bytes_injective(lengths.0, lengths.1, 4);
    config::law_suite_wire_ids(suites.0, 0);
    config::law_suite_wire_ids(suites.1, 0);
}

/// A sealed record uses the sealer's packet number and the next record uses a
/// higher one; a refusal uses none.
pub proof fn law_sealing_advances_the_packet_number(
    sealer: SealerModel,
    frame_type: FrameType,
    conversation_id: Option<ConversationId>,
    plaintext: Seq<u8>,
)
    ensures
        sealed(sealer, frame_type, conversation_id, plaintext) is Ok ==> after_sealing(
            sealer,
            frame_type,
            conversation_id,
            plaintext,
        ).next_packet_number == sealer.next_packet_number + 1,
        sealed(sealer, frame_type, conversation_id, plaintext) is Err ==> after_sealing(
            sealer,
            frame_type,
            conversation_id,
            plaintext,
        ) == sealer,
{
}

/// A datagram that was opened once is refused as a replay ever after, whatever
/// was opened in between.
pub proof fn law_replays_are_refused(
    opener: OpenerModel,
    datagram: Seq<u8>,
    between: Seq<Seq<u8>>,
)
    requires
        replay::window_valid(opener.replay),
        opened(opener, datagram) is Ok,
    ensures
        opened(opened_all(after_opening(opener, datagram), between), datagram) matches Err(
            RecordError::Replay(_),
        ),
{
    let frame = protocol::decoded(datagram)->Ok_0;
    let start = after_opening(opener, datagram);
    let numbers = lemma_opened_all(start, between);
    replay::law_no_number_is_accepted_twice(opener.replay, frame.packet_number, numbers);
}

/// A record is sealed exactly where its type is protected, there is a packet number left,
/// the keys fit the suite, data and credentials have a conversation and a confirmation
/// has none, and payload and tag fit into a body together: 16 octets of tag, or 32 where
/// nothing is encrypted.
pub proof fn law_records_are_sealed(
    sealer: SealerModel,
    frame_type: FrameType,
    conversation_id: Option<ConversationId>,
    plaintext: Seq<u8>,
)
    ensures
        sealed(sealer, frame_type, conversation_id, plaintext) is Ok <==> {
            &&& match frame_type {
                FrameType::Data | FrameType::ResumptionCredential => conversation_id is Some,
                FrameType::HandshakeAck => conversation_id is None,
                FrameType::Close => true,
                _ => false,
            }
            &&& sealer.next_packet_number < u64::MAX
            &&& keys_usable(sealer.suite, sealer.keys)
            &&& plaintext.len() + (if sealer.suite == CipherSuite::NoneAuthenticated {
                32int
            } else {
                16
            }) <= 1182
        },
{
}

/// A record that is known to be authentic is delivered as it is, exactly where its
/// payload is not longer than any that is sent and its packet number is new to the
/// window; else the reason is told.
pub proof fn law_authentic_records_are_delivered(
    opener: OpenerModel,
    packet_number: u64,
    record: RecordModel,
)
    ensures
        delivered(opener, packet_number, record) == if record.plaintext.len() > 1150 {
            Err::<RecordModel, RecordError>(RecordError::Frame(FrameError::PayloadTooLarge))
        } else {
            match replay::admission(opener.replay, packet_number) {
                Ok(_) => Ok(record),
                Err(error) => Err(RecordError::Replay(error)),
            }
        },
{
}

/// The opener after several datagrams were opened in turn.
pub open spec fn opened_all(opener: OpenerModel, datagrams: Seq<Seq<u8>>) -> OpenerModel
    decreases datagrams.len(),
{
    if datagrams.len() == 0 {
        opener
    } else {
        after_opening(opened_all(opener, datagrams.drop_last()), datagrams.last())
    }
}

/// Opening touches nothing but the replay window, which sees the packet numbers
/// of the accepted records.
proof fn lemma_opened_all(opener: OpenerModel, datagrams: Seq<Seq<u8>>) -> (numbers: Seq<u64>)
    ensures
        opened_all(opener, datagrams) == (OpenerModel {
            replay: replay::presented_all(opener.replay, numbers),
            ..opener
        }),
    decreases datagrams.len(),
{
    if datagrams.len() == 0 {
        Seq::empty()
    } else {
        let earlier = lemma_opened_all(opener, datagrams.drop_last());
        let before = opened_all(opener, datagrams.drop_last());
        if opened(before, datagrams.last()) is Ok {
            let number = protocol::decoded(datagrams.last())->Ok_0.packet_number;
            let numbers = earlier.push(number);
            assert(numbers.drop_last() =~= earlier);
            numbers
        } else {
            earlier
        }
    }
}

/// A record that fails to open changes nothing: neither the keys nor the replay
/// window.
pub proof fn law_refused_records_change_nothing(opener: OpenerModel, datagram: Seq<u8>)
    requires
        opened(opener, datagram) is Err,
    ensures
        after_opening(opener, datagram) == opener,
{
}

/// A datagram of another session, of another epoch or of an unprotected type is
/// never opened.
pub proof fn law_foreign_frames_are_refused(opener: OpenerModel, datagram: Seq<u8>)
    requires
        protocol::decoded(datagram) matches Ok(frame) && (frame.session_id != opener.session_id
            || frame.epoch != 0 || !protocol::carries_record(frame.frame_type)),
    ensures
        opened(opener, datagram) is Err,
{
}

fn nonce_12(keys: &DirectionKeys, packet_number: u64) -> (r: Result<[u8; 12], CryptoError>)
    ensures
        match r {
            Ok(nonce) => keys@.nonce_prefix.len() == 4 && nonce@ == record_nonce(
                keys@,
                packet_number,
            ),
            Err(error) => keys@.nonce_prefix.len() != 4 && error
                == CryptoError::KeyDerivationFailed,
        },
{
    let prefix: &[u8] = keys.nonce_prefix.as_slice();
    if prefix.len() != 4 {
        return Err(CryptoError::KeyDerivationFailed);
    }
    let mut nonce: Vec<u8> = copy_of(prefix);
    append(&mut nonce, be_vec(packet_number, 8).as_slice());
    assert(nonce@.subrange(0, 12) =~= nonce@);
    Ok(take_array::<12>(nonce.as_slice(), 0))
}

fn nonce_24(keys: &DirectionKeys, packet_number: u64) -> (r: Result<[u8; 24], CryptoError>)
    ensures
        match r {
            Ok(nonce) => keys@.nonce_prefix.len() == 16 && nonce@ == record_nonce(
                keys@,
                packet_number,
            ),
            Err(error) => keys@.nonce_prefix.len() != 16 && error
                == CryptoError::KeyDerivationFailed,
        },
{
    let prefix: &[u8] = keys.nonce_prefix.as_slice();
    if prefix.len() != 16 {
        return Err(CryptoError::KeyDerivationFailed);
    }
    let mut nonce: Vec<u8> = copy_of(prefix);
    append(&mut nonce, be_vec(packet_number, 8).as_slice());
    assert(nonce@.subrange(0, 24) =~= nonce@);
    Ok(take_array::<24>(nonce.as_slice(), 0))
}

/// Checks the length of a record key.
fn key_of_length(keys: &DirectionKeys, length: usize) -> (r: Result<(), CryptoError>)
    ensures
        r == if keys@.record_key.len() == length {
            Ok::<(), CryptoError>(())
        } else {
            Err(CryptoError::KeyDerivationFailed)
        },
{
    if keys.record_key.as_slice().len() == length {
        Ok(())
    } else {
        Err(CryptoError::KeyDerivationFailed)
    }
}

/// What a cipher run gave, as the protected body of a record.
fn body_of(run: Result<(Vec<u8>, [u8; 16]), aes_gcm::Error>) -> (r: Result<
    Vec<u8>,
    CryptoError,
>)
    ensures
        match (run, r) {
            (Ok(parts), Ok(body)) => body@ == parts.0@ + parts.1@,
            (Err(_), Err(error)) => error == CryptoError::AuthenticationFailed,
            _ => false,
        },
{
    match run {
        Ok(parts) => {
            let mut body: Vec<u8> = parts.0;
            append(&mut body, parts.1.as_slice());
            Ok(body)
        },
        Err(_) => Err(CryptoError::AuthenticationFailed),
    }
}

/// What a decryption gave, as a payload.
fn payload_of(run: Result<Vec<u8>, aes_gcm::Error>) -> (r: Result<Vec<u8>, CryptoError>)
    ensures
        match (run, r) {
            (Ok(payload), Ok(plaintext)) => plaintext == payload,
            (Err(_), Err(error)) => error == CryptoError::AuthenticationFailed,
            _ => false,
        },
{
    match run {
        Ok(plaintext) => Ok(plaintext),
        Err(_) => Err(CryptoError::AuthenticationFailed),
    }
}

/// Protects a payload. What comes out is opened by [`unprotect`] under the same
/// keys.
fn protect(
    suite: CipherSuite,
    keys: &DirectionKeys,
    packet_number: u64,
    aad: &[u8],
    plaintext: &[u8],
) -> (r: Result<Vec<u8>, CryptoError>)
    requires
        aad@.len() <= MAX_AEAD_INPUT,
        plaintext@.len() <= MAX_AEAD_INPUT,
    ensures
        match r {
            Ok(body) => {
                &&& keys_usable(suite, keys@)
                &&& body@ == protected(suite, keys@, packet_number, aad@, plaintext@)
                &&& body@.len() == plaintext@.len() + tag_length(suite)
                &&& unprotected(
                    suite,
                    keys@,
                    packet_number,
                    aad@,
                    body@.subrange(0, plaintext@.len() as int),
                    body@.subrange(plaintext@.len() as int, body@.len() as int),
                ) == Some(plaintext@)
            },
            Err(error) => !keys_usable(suite, keys@) && error == CryptoError::KeyDerivationFailed,
        },
{
    let key: &[u8] = keys.record_key.as_slice();
    let result: Result<Vec<u8>, CryptoError> = match suite {
        CipherSuite::ChaCha20Poly1305 => match (key_of_length(keys, 32), nonce_12(
            keys,
            packet_number,
        )) {
            (Ok(()), Ok(nonce)) => body_of(chacha20poly1305_encrypt(key, &nonce, aad, plaintext)),
            _ => Err(CryptoError::KeyDerivationFailed),
        },
        CipherSuite::XChaCha20Poly1305 => match (key_of_length(keys, 32), nonce_24(
            keys,
            packet_number,
        )) {
            (Ok(()), Ok(nonce)) => body_of(xchacha20poly1305_encrypt(key, &nonce, aad, plaintext)),
            _ => Err(CryptoError::KeyDerivationFailed),
        },
        CipherSuite::Aes128Gcm => match (key_of_length(keys, 16), nonce_12(keys, packet_number)) {
            (Ok(()), Ok(nonce)) => body_of(aes128gcm_encrypt(key, &nonce, aad, plaintext)),
            _ => Err(CryptoError::KeyDerivationFailed),
        },
        CipherSuite::Aes256Gcm => match (key_of_length(keys, 32), nonce_12(keys, packet_number)) {
            (Ok(()), Ok(nonce)) => body_of(aes256gcm_encrypt(key, &nonce, aad, plaintext)),
            _ => Err(CryptoError::KeyDerivationFailed),
        },
        CipherSuite::NoneAuthenticated => {
            let mut authenticated: Vec<u8> = copy_of(aad);
            append(&mut authenticated, plaintext);
            match hmac_tag(key, authenticated.as_slice()) {
                Ok(tag) => {
                    let mut body: Vec<u8> = copy_of(plaintext);
                    append(&mut body, tag.as_slice());
                    Ok(body)
                },
                Err(error) => Err(error),
            }
        },
    };
    proof {
        if result is Ok {
            let body = result->Ok_0;
                let split = plaintext@.len() as int;
                assert(body@ =~= body@.subrange(0, split) + body@.subrange(
                    split,
                    body@.len() as int,
                ));
                let nonce = record_nonce(keys@, packet_number);
                let parts = match suite {
                    CipherSuite::ChaCha20Poly1305 => cipher::chacha20poly1305_sealed(
                        key@,
                        nonce,
                        aad@,
                        plaintext@,
                    ),
                    CipherSuite::XChaCha20Poly1305 => cipher::xchacha20poly1305_sealed(
                        key@,
                        nonce,
                        aad@,
                        plaintext@,
                    ),
                    CipherSuite::Aes128Gcm => cipher::aes128gcm_sealed(key@, nonce, aad@, plaintext@),
                    CipherSuite::Aes256Gcm => cipher::aes256gcm_sealed(key@, nonce, aad@, plaintext@),
                    CipherSuite::NoneAuthenticated => (
                        plaintext@,
                        crypto::hmac_sha256(key@, aad@ + plaintext@),
                    ),
                };
                assert(body@ =~= parts.0 + parts.1);
                assert(body@.subrange(0, split) =~= parts.0);
                assert(body@.subrange(split, body@.len() as int) =~= parts.1);
        }
    }
    result
}

/// Recovers the payload of a protected body. A success means that protecting the
/// payload gives this body.
fn unprotect(
    suite: CipherSuite,
    keys: &DirectionKeys,
    packet_number: u64,
    aad: &[u8],
    ciphertext: &[u8],
    tag: &[u8],
) -> (r: Result<Vec<u8>, CryptoError>)
    requires
        aad@.len() <= MAX_AEAD_INPUT,
        ciphertext@.len() <= MAX_AEAD_INPUT,
        tag@.len() == tag_length(suite),
    ensures
        match r {
            Ok(plaintext) => {
                &&& keys_usable(suite, keys@)
                &&& unprotected(suite, keys@, packet_number, aad@, ciphertext@, tag@) == Some(
                    plaintext@,
                )
                &&& plaintext@.len() == ciphertext@.len()
                &&& protected(suite, keys@, packet_number, aad@, plaintext@) == ciphertext@ + tag@
            },
            Err(error) => if keys_usable(suite, keys@) {
                &&& error == CryptoError::AuthenticationFailed
                &&& unprotected(suite, keys@, packet_number, aad@, ciphertext@, tag@) is None
            } else {
                error == CryptoError::KeyDerivationFailed
            },
        },
{
    let key: &[u8] = keys.record_key.as_slice();
    assert(tag@.subrange(0, tag@.len() as int) =~= tag@);
    match suite {
        CipherSuite::ChaCha20Poly1305 => {
            let short: [u8; 16] = take_array::<16>(tag, 0);
            match (key_of_length(keys, 32), nonce_12(keys, packet_number)) {
                (Ok(()), Ok(nonce)) => payload_of(
                    chacha20poly1305_decrypt(key, &nonce, aad, ciphertext, &short),
                ),
                _ => Err(CryptoError::KeyDerivationFailed),
            }
        },
        CipherSuite::XChaCha20Poly1305 => {
            let short: [u8; 16] = take_array::<16>(tag, 0);
            match (key_of_length(keys, 32), nonce_24(keys, packet_number)) {
                (Ok(()), Ok(nonce)) => payload_of(
                    xchacha20poly1305_decrypt(key, &nonce, aad, ciphertext, &short),
                ),
                _ => Err(CryptoError::KeyDerivationFailed),
            }
        },
        CipherSuite::Aes128Gcm => {
            let short: [u8; 16] = take_array::<16>(tag, 0);
            match (key_of_length(keys, 16), nonce_12(keys, packet_number)) {
                (Ok(()), Ok(nonce)) => payload_of(
                    aes128gcm_decrypt(key, &nonce, aad, ciphertext, &short),
                ),
                _ => Err(CryptoError::KeyDerivationFailed),
            }
        },
        CipherSuite::Aes256Gcm => {
            let short: [u8; 16] = take_array::<16>(tag, 0);
            match (key_of_length(keys, 32), nonce_12(keys, packet_number)) {
                (Ok(()), Ok(nonce)) => payload_of(
                    aes256gcm_decrypt(key, &nonce, aad, ciphertext, &short),
                ),
                _ => Err(CryptoError::KeyDerivationFailed),
            }
        },
        CipherSuite::NoneAuthenticated => {
            let mut authenticated: Vec<u8> = copy_of(aad);
            append(&mut authenticated, ciphertext);
            match verify_hmac(key, authenticated.as_slice(), tag) {
                Ok(()) => Ok(copy_of(ciphertext)),
                Err(error) => Err(error),
            }
        },
    }
}

/// The associated data of a frame whose body has a given length.
fn aad_of(frame: &WireFrame, direction: Direction, suite: CipherSuite, body_length: usize) -> (r:
    Result<Vec<u8>, FrameError>)
    ensures
        match r {
            Ok(aad) => frame.epoch <= 255 && aad@ == record_aad(
                frame@,
                direction,
                suite,
                body_length as nat,
            ) && aad@.len() == HEADER_LENGTH + 6,
            Err(error) => frame.epoch > 255 && error == FrameError::InvalidFrameFields,
        },
{
    match frame.encoded_header() {
        Ok(header) => {
            let mut aad: Vec<u8> = header;
            aad.push(direction.wire_id());
            aad.push(suite.wire_id());
            append(&mut aad, be_vec(body_length as u64, 4).as_slice());
            proof {
                protocol::lemma_header(frame@);
            }
            assert(aad@ =~= record_aad(frame@, direction, suite, body_length as nat));
            Ok(aad)
        },
        Err(error) => Err(error),
    }
}

impl RecordSealer {
    pub fn new(
        suite: CipherSuite,
        direction: Direction,
        session_id: SessionId,
        keys: DirectionKeys,
    ) -> (r: Self)
        ensures
            r@ == (SealerModel {
                suite,
                direction,
                session_id,
                next_packet_number: 0,
                keys: keys@,
            }),
    {
        RecordSealer { suite, direction, session_id, next_packet_number: 0, keys }
    }

    fn tag_length(&self) -> (r: usize)
        ensures
            r == tag_length(self@.suite),
    {
        match self.suite {
            CipherSuite::NoneAuthenticated => HMAC_TAG_LENGTH,
            _ => AEAD_TAG_LENGTH,
        }
    }

    /// Seals a payload under the next packet number.
    ///
    /// Whatever is sealed is delivered by the opener at the other end, unless the
    /// payload is longer than a frame may carry or the packet number falls to the
    /// opener's replay window.
    pub fn seal(
        &mut self,
        frame_type: FrameType,
        conversation_id: Option<ConversationId>,
        plaintext: &[u8],
    ) -> (r: Result<Vec<u8>, RecordError>)
        ensures
            match r {
                Ok(datagram) => sealed(old(self)@, frame_type, conversation_id, plaintext@)
                    == Ok::<Seq<u8>, RecordError>(datagram@),
                Err(error) => sealed(old(self)@, frame_type, conversation_id, plaintext@) == Err::<
                    Seq<u8>,
                    RecordError,
                >(error),
            },
            final(self)@ == after_sealing(old(self)@, frame_type, conversation_id, plaintext@),
            r matches Ok(datagram) ==> forall|opener: OpenerModel| #[trigger]
                pairs(old(self)@, opener) ==> opened(opener, datagram@) == delivered(
                    opener,
                    old(self)@.next_packet_number,
                    RecordModel { frame_type, conversation_id, plaintext: plaintext@ },
                ),
            r matches Ok(datagram) ==> datagram@.len() == HEADER_LENGTH + plaintext@.len()
                + tag_length(old(self)@.suite),
    {
        if !frame_type.is_protected() {
            return Err(RecordError::InvalidRecordType);
        }
        let packet_number: u64 = self.next_packet_number;
        let next: u64 = match packet_number.checked_add(1) {
            Some(next) => next,
            None => {
                return Err(RecordError::PacketNumberExhausted);
            },
        };
        let mut frame = WireFrame {
            session_id: self.session_id,
            packet_number,
            epoch: 0,
            frame_type,
            conversation_id,
            payload: Vec::new(),
        };
        let ghost envelope = frame@;
        assert(envelope =~= record_frame(
            self.session_id,
            packet_number,
            frame_type,
            conversation_id,
            Seq::empty(),
        ));
        let tag_length: usize = self.tag_length();
        // A payload that no frame can carry is not encrypted in full.
        let oversized: bool = plaintext.len() > MAX_FRAME_BODY - tag_length;
        let covered: &[u8] = if oversized {
            &plaintext[0..0]
        } else {
            plaintext
        };
        let aad: Vec<u8> = match aad_of(
            &frame,
            self.direction,
            self.suite,
            covered.len() + tag_length,
        ) {
            Ok(aad) => aad,
            Err(error) => {
                return Err(RecordError::Frame(error));
            },
        };
        let body: Vec<u8> = match protect(
            self.suite,
            &self.keys,
            packet_number,
            aad.as_slice(),
            covered,
        ) {
            Ok(body) => body,
            Err(error) => {
                return Err(RecordError::Crypto(error));
            },
        };
        frame.payload = body;
        let encoded: Vec<u8> = match frame.encode() {
            Ok(encoded) => encoded,
            Err(error) => {
                return Err(RecordError::Frame(error));
            },
        };
        if oversized {
            return Err(RecordError::Frame(FrameError::PayloadTooLarge));
        }
        self.next_packet_number = next;
        proof {
            lemma_header_without_body(frame@, Seq::empty());
            assert(FrameModel { payload: Seq::empty(), ..frame@ } =~= envelope);
            protocol::law_frame_round_trip(frame@);
            let split = plaintext@.len() as int;
            assert forall|opener: OpenerModel| #[trigger]
                pairs(old(self)@, opener) implies opened(opener, encoded@) == delivered(
                opener,
                packet_number,
                RecordModel { frame_type, conversation_id, plaintext: plaintext@ },
            ) by {
                assert(record_aad(
                    frame@,
                    opener.direction,
                    opener.suite,
                    frame@.payload.len(),
                ) == aad@);
                assert(frame@.payload.len() - tag_length == split);
            }
        }
        Ok(encoded)
    }
}

impl RecordOpener {
    pub fn new(
        suite: CipherSuite,
        direction: Direction,
        session_id: SessionId,
        keys: DirectionKeys,
        replay_window_size: usize,
    ) -> (r: Self)
        requires
            replay_window_size > 0,
        ensures
            r@ == (OpenerModel {
                suite,
                direction,
                session_id,
                keys: keys@,
                replay: replay::fresh_window(replay_window_size as nat),
            }),
    {
        RecordOpener {
            suite,
            direction,
            session_id,
            keys,
            replay: ReplayWindow::new(replay_window_size),
        }
    }

    /// Opens a datagram. What is delivered is exactly what the holder of the
    /// sending keys sealed.
    pub fn open(&mut self, datagram: &[u8]) -> (r: Result<AuthenticatedFrame, RecordError>)
        requires
            old(self)@.replay.width > 0,
        ensures
            match r {
                Ok(record) => opened(old(self)@, datagram@) == Ok::<RecordModel, RecordError>(
                    record@,
                ),
                Err(error) => opened(old(self)@, datagram@) == Err::<RecordModel, RecordError>(
                    error,
                ),
            },
            final(self)@ == after_opening(old(self)@, datagram@),
            r matches Ok(record) ==> authentic(
                old(self)@,
                protocol::decoded(datagram@)->Ok_0.packet_number,
                record@,
                datagram@,
            ),
            r matches Ok(record) ==> (record.conversation_id matches Some(id) ==> id.number() != 0),
            !genuine(old(self)@, datagram@) ==> final(self)@ == old(self)@ && (protocol::decoded(
                datagram@,
            ) matches Ok(frame) ==> r == Err::<AuthenticatedFrame, RecordError>(
                refusal(old(self)@, frame),
            )),
            r matches Err(RecordError::Replay(_)) ==> genuine(old(self)@, datagram@),
    {
        let frame: WireFrame = match WireFrame::decode(datagram) {
            Ok(frame) => frame,
            Err(error) => {
                return Err(RecordError::Frame(error));
            },
        };
        if frame.session_id != self.session_id {
            return Err(RecordError::SessionMismatch);
        }
        if frame.epoch != 0 {
            return Err(RecordError::UnsupportedEpoch);
        }
        if !frame.frame_type.is_protected() {
            return Err(RecordError::InvalidRecordType);
        }
        let tag_length: usize = match self.suite {
            CipherSuite::NoneAuthenticated => HMAC_TAG_LENGTH,
            _ => AEAD_TAG_LENGTH,
        };
        if frame.payload.len() < tag_length {
            return Err(RecordError::TruncatedTag);
        }
        let aad: Vec<u8> = match aad_of(
            &frame,
            self.direction,
            self.suite,
            frame.payload.len(),
        ) {
            Ok(aad) => aad,
            Err(error) => {
                return Err(RecordError::Frame(error));
            },
        };
        let split: usize = frame.payload.len() - tag_length;
        let body: &[u8] = frame.payload.as_slice();
        let plaintext: Vec<u8> = match unprotect(
            self.suite,
            &self.keys,
            frame.packet_number,
            aad.as_slice(),
            &body[0..split],
            &body[split..frame.payload.len()],
        ) {
            Ok(plaintext) => plaintext,
            Err(error) => {
                return Err(RecordError::Crypto(error));
            },
        };
        proof {
            let envelope = record_frame(
                frame.session_id,
                frame.packet_number,
                frame.frame_type,
                frame.conversation_id,
                Seq::empty(),
            );
            lemma_header_without_body(frame@, Seq::empty());
            assert(FrameModel { payload: Seq::empty(), ..frame@ } =~= envelope);
            protocol::law_datagram_round_trip(datagram@);
            assert(body@ =~= body@.subrange(0, split as int) + body@.subrange(
                split as int,
                body@.len() as int,
            ));
            assert(authentic(
                old(self)@,
                frame.packet_number,
                RecordModel {
                    frame_type: frame.frame_type,
                    conversation_id: frame.conversation_id,
                    plaintext: plaintext@,
                },
                datagram@,
            ));
        }
        if plaintext.len() > MAX_FRAME_PAYLOAD {
            return Err(RecordError::Frame(FrameError::PayloadTooLarge));
        }
        // Authentication always precedes replay mutation and plaintext delivery.
        match self.replay.accept(frame.packet_number) {
            Ok(()) => {},
            Err(error) => {
                return Err(RecordError::Replay(error));
            },
        }
        Ok(
            AuthenticatedFrame {
                frame_type: frame.frame_type,
                conversation_id: frame.conversation_id,
                plaintext,
            },
        )
    }
}

} // verus!
