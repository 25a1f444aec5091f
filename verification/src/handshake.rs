//! Handshake messages, cookies and resumption credentials.

use vstd::prelude::*;

use crate::bytes;
use crate::bytes::{append, be_vec, read_be, same_bytes, take_array};
use crate::config;
use crate::config::CipherSuite;
use crate::crypto;
use crate::crypto::{
    derive_session_keys, handshake_tag, hmac_tag, verify_handshake_tag, verify_hmac, Direction,
    KeySource, SessionKeys,
};
use crate::error::{CryptoError, HandshakeError};
use crate::id::{ConversationId, PeerId, SessionId};
use crate::protocol;
use crate::protocol::{FrameModel, FrameType, WireFrame};
use crate::secret::Psk;
use crate::text;
use crate::time::Duration;

verus! {

pub const CLIENT_HELLO_LENGTH: usize = 49;

pub const SERVER_HELLO_UNSIGNED_LENGTH: usize = 113;

pub const SERVER_HELLO_LENGTH: usize = 145;

pub const CLIENT_FINISH_LENGTH: usize = 48;

pub const HELLO_RETRY_LENGTH: usize = 88;

pub const COOKIE_LENGTH: usize = 40;

pub const CREDENTIAL_LENGTH: usize = 76;

/// How many octets of a credential its tag covers.
pub const CREDENTIAL_SIGNED_LENGTH: usize = 44;

/// A stateless handshake cookie: when it was issued, in milliseconds of the
/// server's clock, and a tag under the server's cookie secret.
#[derive(Clone, Copy)]
pub struct Cookie {
    octets: [u8; 40],
}

impl View for Cookie {
    type V = Seq<u8>;

    closed spec fn view(&self) -> Seq<u8> {
        self.octets@
    }
}

impl Cookie {
    /// Every cookie has its full length.
    pub proof fn length(&self)
        ensures
            self@.len() == COOKIE_LENGTH,
    {
    }

    pub fn from_bytes(octets: [u8; 40]) -> (r: Self)
        ensures
            r@ == octets@,
    {
        Cookie { octets }
    }

    pub fn as_bytes(&self) -> (r: &[u8])
        ensures
            r@ == self@,
            r@.len() == COOKIE_LENGTH,
    {
        self.octets.as_slice()
    }
}

/// A resumption credential: issue and expiry time in milliseconds of the server's
/// clock, session, conversation, random octets, and a tag under the server's cookie
/// secret.
#[derive(Clone, Copy)]
pub struct ResumptionCredential {
    octets: [u8; 76],
}

impl View for ResumptionCredential {
    type V = Seq<u8>;

    closed spec fn view(&self) -> Seq<u8> {
        self.octets@
    }
}

impl ResumptionCredential {
    /// Every credential has its full length.
    pub proof fn length(&self)
        ensures
            self@.len() == CREDENTIAL_LENGTH,
    {
    }

    pub fn from_bytes(octets: [u8; 76]) -> (r: Self)
        ensures
            r@ == octets@,
    {
        ResumptionCredential { octets }
    }

    pub fn as_bytes(&self) -> (r: &[u8])
        ensures
            r@ == self@,
            r@.len() == CREDENTIAL_LENGTH,
    {
        self.octets.as_slice()
    }
}

/// The octets of an optional cookie.
pub open spec fn cookie_model(cookie: Option<Cookie>) -> Option<Seq<u8>> {
    match cookie {
        Some(cookie) => Some(cookie@),
        None => None,
    }
}

/// The octets of an optional credential.
pub open spec fn credential_model(credential: Option<ResumptionCredential>) -> Option<Seq<u8>> {
    match credential {
        Some(credential) => Some(credential@),
        None => None,
    }
}

/// The octets of an optional part of a message.
pub open spec fn optional(part: Option<Seq<u8>>) -> Seq<u8> {
    match part {
        Some(octets) => octets,
        None => Seq::empty(),
    }
}

// ---------------------------------------------------------------------------
// ClientHello
// ---------------------------------------------------------------------------

/// The client's opening message.
#[derive(Clone, Copy)]
pub struct ClientHello {
    pub handshake_id: [u8; 16],
    pub client_nonce: [u8; 32],
    pub suite: CipherSuite,
    pub cookie: Option<Cookie>,
    pub resumption: Option<ResumptionCredential>,
}

/// What a [`ClientHello`] says.
#[verifier::ext_equal]
pub struct HelloModel {
    pub handshake_id: Seq<u8>,
    pub client_nonce: Seq<u8>,
    pub suite: CipherSuite,
    pub cookie: Option<Seq<u8>>,
    pub resumption: Option<Seq<u8>>,
}

impl View for ClientHello {
    type V = HelloModel;

    open spec fn view(&self) -> HelloModel {
        HelloModel {
            handshake_id: self.handshake_id@,
            client_nonce: self.client_nonce@,
            suite: self.suite,
            cookie: cookie_model(self.cookie),
            resumption: credential_model(self.resumption),
        }
    }
}

/// The lengths that the parts of a hello have.
pub open spec fn hello_valid(hello: HelloModel) -> bool {
    &&& hello.handshake_id.len() == 16
    &&& hello.client_nonce.len() == 32
    &&& hello.cookie matches Some(cookie) ==> cookie.len() == COOKIE_LENGTH
    &&& hello.resumption matches Some(credential) ==> credential.len() == CREDENTIAL_LENGTH
}

/// The payload of a hello: identifier, nonce, suite, and the cookie and the
/// credential where there are any. The four shapes differ in length.
pub open spec fn hello_payload(hello: HelloModel) -> Seq<u8> {
    hello.handshake_id + hello.client_nonce + seq![config::suite_wire_id(hello.suite)] + optional(
        hello.cookie,
    ) + optional(hello.resumption)
}

/// A frame of a handshake message.
pub open spec fn handshake_frame(
    frame_type: FrameType,
    session_id: SessionId,
    payload: Seq<u8>,
) -> FrameModel {
    FrameModel {
        session_id,
        packet_number: 0,
        epoch: 0,
        frame_type,
        conversation_id: None,
        payload,
    }
}

/// The frame of a hello.
pub open spec fn hello_frame(hello: HelloModel) -> FrameModel {
    handshake_frame(FrameType::ClientHello, SessionId::from_number(0), hello_payload(hello))
}

/// Whether a frame can be a handshake message of a type.
pub open spec fn handshake_header(frame: FrameModel, frame_type: FrameType) -> bool {
    &&& frame.frame_type == frame_type
    &&& frame.packet_number == 0
    &&& frame.epoch == 0
}

/// Whether a payload of this length ends in a credential.
pub open spec fn hello_has_credential(length: int) -> bool {
    length == CLIENT_HELLO_LENGTH + CREDENTIAL_LENGTH || length == CLIENT_HELLO_LENGTH
        + COOKIE_LENGTH + CREDENTIAL_LENGTH
}

/// Whether a payload of this length holds a cookie.
pub open spec fn hello_has_cookie(length: int) -> bool {
    length == CLIENT_HELLO_LENGTH + COOKIE_LENGTH || length == CLIENT_HELLO_LENGTH + COOKIE_LENGTH
        + CREDENTIAL_LENGTH
}

/// The hello that a frame carries.
pub open spec fn hello_of_frame(frame: FrameModel) -> Result<HelloModel, HandshakeError> {
    let payload = frame.payload;
    let length = payload.len() as int;
    let plain = length == CLIENT_HELLO_LENGTH;
    let cookie = hello_has_cookie(length);
    let credential = hello_has_credential(length);
    if !handshake_header(frame, FrameType::ClientHello) || frame.session_id.number() != 0 || !(plain
        || cookie || credential) {
        Err(HandshakeError::Malformed)
    } else {
        match config::suite_of_wire_id(payload[48]) {
            None => Err(HandshakeError::Malformed),
            Some(suite) => Ok(
                HelloModel {
                    handshake_id: payload.subrange(0, 16),
                    client_nonce: payload.subrange(16, 48),
                    suite,
                    cookie: if cookie {
                        Some(payload.subrange(49, 89))
                    } else {
                        None
                    },
                    resumption: if credential {
                        Some(payload.subrange(length - CREDENTIAL_LENGTH, length))
                    } else {
                        None
                    },
                },
            ),
        }
    }
}

/// A hello is read back as it was.
pub proof fn law_hello_round_trip(hello: HelloModel)
    requires
        hello_valid(hello),
    ensures
        hello_of_frame(hello_frame(hello)) == Ok::<HelloModel, HandshakeError>(hello),
        protocol::encoded(hello_frame(hello)) is Ok,
{
    let payload = hello_payload(hello);
    let length = payload.len() as int;
    SessionId::number_identifies(SessionId::from_number(0), 0);
    config::law_suite_wire_ids(hello.suite, 0);
    assert(payload[48] == config::suite_wire_id(hello.suite));
    assert(payload.subrange(0, 16) =~= hello.handshake_id);
    assert(payload.subrange(16, 48) =~= hello.client_nonce);
    match hello.cookie {
        Some(cookie) => {
            assert(payload.subrange(49, 89) =~= cookie);
        },
        None => {},
    }
    match hello.resumption {
        Some(credential) => {
            assert(payload.subrange(length - CREDENTIAL_LENGTH, length) =~= credential);
        },
        None => {},
    }
}

impl ClientHello {
    /// The parts of a hello have their lengths.
    pub proof fn is_valid(&self)
        ensures
            hello_valid(self@),
    {
        match self.cookie {
            Some(cookie) => cookie.length(),
            None => {},
        }
        match self.resumption {
            Some(credential) => credential.length(),
            None => {},
        }
    }

    pub fn encode_payload(&self) -> (r: Vec<u8>)
        ensures
            r@ == hello_payload(self@),
    {
        let mut payload: Vec<u8> = Vec::new();
        append(&mut payload, self.handshake_id.as_slice());
        append(&mut payload, self.client_nonce.as_slice());
        payload.push(self.suite.wire_id());
        match &self.cookie {
            Some(cookie) => {
                append(&mut payload, cookie.as_bytes());
            },
            None => {},
        }
        match &self.resumption {
            Some(credential) => {
                append(&mut payload, credential.as_bytes());
            },
            None => {},
        }
        assert(payload@ =~= hello_payload(self@));
        payload
    }

    pub fn decode(frame: &WireFrame) -> (r: Result<Self, HandshakeError>)
        ensures
            match r {
                Ok(hello) => hello_of_frame(frame@) == Ok::<HelloModel, HandshakeError>(hello@),
                Err(error) => hello_of_frame(frame@) == Err::<HelloModel, HandshakeError>(error),
            },
    {
        let length: usize = frame.payload.len();
        let has_cookie: bool = length == CLIENT_HELLO_LENGTH + COOKIE_LENGTH || length
            == CLIENT_HELLO_LENGTH + COOKIE_LENGTH + CREDENTIAL_LENGTH;
        let has_credential: bool = length == CLIENT_HELLO_LENGTH + CREDENTIAL_LENGTH || length
            == CLIENT_HELLO_LENGTH + COOKIE_LENGTH + CREDENTIAL_LENGTH;
        if frame.frame_type != FrameType::ClientHello || frame.session_id.get() != 0
            || frame.packet_number != 0 || frame.epoch != 0 || !(length == CLIENT_HELLO_LENGTH
            || has_cookie || has_credential) {
            return Err(HandshakeError::Malformed);
        }
        let suite: CipherSuite = match CipherSuite::from_wire_id(frame.payload[48]) {
            Ok(suite) => suite,
            Err(_) => {
                return Err(HandshakeError::Malformed);
            },
        };
        let payload: &[u8] = frame.payload.as_slice();
        let cookie: Option<Cookie> = if has_cookie {
            Some(Cookie::from_bytes(take_array::<40>(payload, 49)))
        } else {
            None
        };
        let resumption: Option<ResumptionCredential> = if has_credential {
            Some(
                ResumptionCredential::from_bytes(
                    take_array::<76>(payload, length - CREDENTIAL_LENGTH),
                ),
            )
        } else {
            None
        };
        Ok(
            ClientHello {
                handshake_id: take_array::<16>(payload, 0),
                client_nonce: take_array::<32>(payload, 16),
                suite,
                cookie,
                resumption,
            },
        )
    }

    pub fn frame(&self) -> (r: WireFrame)
        ensures
            r@ == hello_frame(self@),
    {
        WireFrame {
            session_id: SessionId::from_u64(0),
            packet_number: 0,
            epoch: 0,
            frame_type: FrameType::ClientHello,
            conversation_id: None,
            payload: self.encode_payload(),
        }
    }

    /// This hello without its cookie.
    pub fn without_cookie(&self) -> (r: Self)
        ensures
            r@ == (HelloModel { cookie: None, ..self@ }),
    {
        ClientHello { cookie: None, ..*self }
    }
}

// ---------------------------------------------------------------------------
// ServerHello
// ---------------------------------------------------------------------------

/// The server's answer to a hello.
#[derive(Clone, Copy)]
pub struct ServerHello {
    pub handshake_id: [u8; 16],
    pub client_nonce: [u8; 32],
    pub server_nonce: [u8; 32],
    pub session_salt: [u8; 32],
    pub suite: CipherSuite,
    pub resumed: bool,
    pub auth_tag: [u8; 32],
}

/// What a [`ServerHello`] says.
#[verifier::ext_equal]
pub struct AnswerModel {
    pub handshake_id: Seq<u8>,
    pub client_nonce: Seq<u8>,
    pub server_nonce: Seq<u8>,
    pub session_salt: Seq<u8>,
    pub suite: CipherSuite,
    pub resumed: bool,
    pub auth_tag: Seq<u8>,
}

impl View for ServerHello {
    type V = AnswerModel;

    open spec fn view(&self) -> AnswerModel {
        AnswerModel {
            handshake_id: self.handshake_id@,
            client_nonce: self.client_nonce@,
            server_nonce: self.server_nonce@,
            session_salt: self.session_salt@,
            suite: self.suite,
            resumed: self.resumed,
            auth_tag: self.auth_tag@,
        }
    }
}

/// The lengths that the parts of an answer have.
pub open spec fn answer_valid(answer: AnswerModel) -> bool {
    &&& answer.handshake_id.len() == 16
    &&& answer.client_nonce.len() == 32
    &&& answer.server_nonce.len() == 32
    &&& answer.session_salt.len() == 32
    &&& answer.auth_tag.len() == 32
}

/// The part of an answer that its tag covers. An answer that resumes a session
/// ends in one more octet.
pub open spec fn answer_unsigned(answer: AnswerModel) -> Seq<u8> {
    answer.handshake_id + answer.client_nonce + answer.server_nonce + answer.session_salt + seq![
        config::suite_wire_id(answer.suite),
    ] + if answer.resumed {
        seq![1u8]
    } else {
        Seq::empty()
    }
}

/// The payload of an answer.
pub open spec fn answer_payload(answer: AnswerModel) -> Seq<u8> {
    answer_unsigned(answer) + answer.auth_tag
}

/// The frame of an answer.
pub open spec fn answer_frame(answer: AnswerModel, session_id: SessionId) -> FrameModel {
    handshake_frame(FrameType::ServerHello, session_id, answer_payload(answer))
}

/// The answer that a frame carries.
pub open spec fn answer_of_frame(frame: FrameModel) -> Result<AnswerModel, HandshakeError> {
    let payload = frame.payload;
    let length = payload.len() as int;
    let resumed = length == SERVER_HELLO_LENGTH + 1 && payload[113] == 1;
    if !handshake_header(frame, FrameType::ServerHello) || frame.session_id.number() == 0 || !(
    length == SERVER_HELLO_LENGTH || resumed) {
        Err(HandshakeError::Malformed)
    } else {
        match config::suite_of_wire_id(payload[112]) {
            None => Err(HandshakeError::Malformed),
            Some(suite) => Ok(
                AnswerModel {
                    handshake_id: payload.subrange(0, 16),
                    client_nonce: payload.subrange(16, 48),
                    server_nonce: payload.subrange(48, 80),
                    session_salt: payload.subrange(80, 112),
                    suite,
                    resumed,
                    auth_tag: payload.subrange(length - 32, length),
                },
            ),
        }
    }
}

/// What the tag of an answer covers.
pub open spec fn server_transcript(
    hello: HelloModel,
    session_id: SessionId,
    answer: AnswerModel,
) -> Seq<u8> {
    text::octets("udp2raw-ng/v2/server-auth") + hello_payload(hello) + bytes::be_bytes(
        session_id.number() as nat,
        8,
    ) + answer_unsigned(answer)
}

/// The whole handshake so far: hello, session and signed answer.
pub open spec fn full_transcript_of(
    hello: HelloModel,
    session_id: SessionId,
    answer: AnswerModel,
) -> Seq<u8> {
    text::octets("udp2raw-ng/v2/full-transcript") + hello_payload(hello) + bytes::be_bytes(
        session_id.number() as nat,
        8,
    ) + answer_payload(answer)
}

/// The tag that belongs on an answer.
pub open spec fn answer_tag(
    psk: Seq<u8>,
    hello: HelloModel,
    session_id: SessionId,
    answer: AnswerModel,
) -> Seq<u8> {
    crypto::handshake_tag_of(
        psk,
        answer.handshake_id,
        answer.client_nonce,
        server_transcript(hello, session_id, answer),
    )
}

/// The answer that a server gives to a hello.
pub open spec fn answer_to(
    psk: Seq<u8>,
    hello: HelloModel,
    session_id: SessionId,
    resumed: bool,
    server_nonce: Seq<u8>,
    session_salt: Seq<u8>,
) -> AnswerModel {
    let unsigned = AnswerModel {
        handshake_id: hello.handshake_id,
        client_nonce: hello.client_nonce,
        server_nonce,
        session_salt,
        suite: hello.suite,
        resumed,
        auth_tag: Seq::empty(),
    };
    AnswerModel { auth_tag: answer_tag(psk, hello, session_id, unsigned), ..unsigned }
}

/// What a client thinks of an answer to its hello.
pub open spec fn answer_verdict(
    psk: Seq<u8>,
    hello: HelloModel,
    session_id: SessionId,
    answer: AnswerModel,
) -> Result<(), HandshakeError> {
    if answer.handshake_id != hello.handshake_id {
        Err(HandshakeError::HandshakeIdMismatch)
    } else if answer.client_nonce != hello.client_nonce {
        Err(HandshakeError::AuthenticationFailed)
    } else if answer.suite != hello.suite {
        Err(HandshakeError::CipherSuiteMismatch)
    } else if answer.auth_tag != answer_tag(psk, hello, session_id, answer) {
        Err(HandshakeError::AuthenticationFailed)
    } else {
        Ok(())
    }
}

/// An answer is read back as it was.
pub proof fn law_answer_round_trip(answer: AnswerModel, session_id: SessionId)
    requires
        answer_valid(answer),
        session_id.number() != 0,
    ensures
        answer_of_frame(answer_frame(answer, session_id)) == Ok::<AnswerModel, HandshakeError>(
            answer,
        ),
        protocol::encoded(answer_frame(answer, session_id)) is Ok,
{
    let payload = answer_payload(answer);
    let length = payload.len() as int;
    config::law_suite_wire_ids(answer.suite, 0);
    assert(payload[112] == config::suite_wire_id(answer.suite));
    if answer.resumed {
        assert(payload[113] == 1);
    }
    assert(payload.subrange(0, 16) =~= answer.handshake_id);
    assert(payload.subrange(16, 48) =~= answer.client_nonce);
    assert(payload.subrange(48, 80) =~= answer.server_nonce);
    assert(payload.subrange(80, 112) =~= answer.session_salt);
    assert(payload.subrange(length - 32, length) =~= answer.auth_tag);
}

/// The client accepts the answer that a server with the same key gives.
pub proof fn law_answers_are_accepted(
    psk: Seq<u8>,
    hello: HelloModel,
    session_id: SessionId,
    resumed: bool,
    server_nonce: Seq<u8>,
    session_salt: Seq<u8>,
)
    ensures
        answer_verdict(
            psk,
            hello,
            session_id,
            answer_to(psk, hello, session_id, resumed, server_nonce, session_salt),
        ) == Ok::<(), HandshakeError>(()),
{
    let answer = answer_to(psk, hello, session_id, resumed, server_nonce, session_salt);
    let unsigned = AnswerModel { auth_tag: Seq::empty(), ..answer };
    assert(answer_unsigned(answer) =~= answer_unsigned(unsigned));
}

impl ServerHello {
    /// The parts of an answer have their lengths.
    pub proof fn is_valid(&self)
        ensures
            answer_valid(self@),
    {
    }

    /// Answers a hello. `server_nonce` and `session_salt` are fresh random octets.
    pub fn create(
        psk: &Psk,
        client_hello: &ClientHello,
        session_id: SessionId,
        resumed: bool,
        server_nonce: [u8; 32],
        session_salt: [u8; 32],
    ) -> (r: Result<Self, CryptoError>)
        ensures
            r matches Ok(answer) && answer@ == answer_to(
                psk@,
                client_hello@,
                session_id,
                resumed,
                server_nonce@,
                session_salt@,
            ),
    {
        let unsigned = ServerHello {
            handshake_id: client_hello.handshake_id,
            client_nonce: client_hello.client_nonce,
            server_nonce,
            session_salt,
            suite: client_hello.suite,
            resumed,
            auth_tag: [0u8; 32],
        };
        let transcript: Vec<u8> = server_auth_transcript(client_hello, session_id, &unsigned);
        assert(answer_unsigned(unsigned@) =~= answer_unsigned(
            AnswerModel { auth_tag: Seq::empty(), ..unsigned@ },
        ));
        match handshake_tag(
            psk,
            &unsigned.handshake_id,
            &unsigned.client_nonce,
            transcript.as_slice(),
        ) {
            Ok(auth_tag) => Ok(ServerHello { auth_tag, ..unsigned }),
            Err(error) => Err(error),
        }
    }

    pub fn verify(&self, psk: &Psk, client_hello: &ClientHello, session_id: SessionId) -> (r:
        Result<(), HandshakeError>)
        ensures
            r == answer_verdict(psk@, client_hello@, session_id, self@),
    {
        if !same_bytes(self.handshake_id.as_slice(), client_hello.handshake_id.as_slice()) {
            return Err(HandshakeError::HandshakeIdMismatch);
        }
        if !same_bytes(self.client_nonce.as_slice(), client_hello.client_nonce.as_slice()) {
            return Err(HandshakeError::AuthenticationFailed);
        }
        if self.suite != client_hello.suite {
            return Err(HandshakeError::CipherSuiteMismatch);
        }
        let transcript: Vec<u8> = server_auth_transcript(client_hello, session_id, self);
        match verify_handshake_tag(
            psk,
            &self.handshake_id,
            &self.client_nonce,
            transcript.as_slice(),
            &self.auth_tag,
        ) {
            Ok(()) => Ok(()),
            Err(_) => Err(HandshakeError::AuthenticationFailed),
        }
    }

    pub fn encode_payload(&self) -> (r: Vec<u8>)
        ensures
            r@ == answer_payload(self@),
    {
        let mut payload: Vec<u8> = self.encode_unsigned_payload();
        append(&mut payload, self.auth_tag.as_slice());
        payload
    }

    fn encode_unsigned_payload(&self) -> (r: Vec<u8>)
        ensures
            r@ == answer_unsigned(self@),
    {
        let mut payload: Vec<u8> = Vec::new();
        append(&mut payload, self.handshake_id.as_slice());
        append(&mut payload, self.client_nonce.as_slice());
        append(&mut payload, self.server_nonce.as_slice());
        append(&mut payload, self.session_salt.as_slice());
        payload.push(self.suite.wire_id());
        if self.resumed {
            payload.push(1);
        }
        assert(payload@ =~= answer_unsigned(self@));
        payload
    }

    pub fn decode(frame: &WireFrame) -> (r: Result<Self, HandshakeError>)
        ensures
            match r {
                Ok(answer) => answer_of_frame(frame@) == Ok::<AnswerModel, HandshakeError>(answer@),
                Err(error) => answer_of_frame(frame@) == Err::<AnswerModel, HandshakeError>(error),
            },
    {
        let length: usize = frame.payload.len();
        let resumed: bool = length == SERVER_HELLO_LENGTH + 1 && frame.payload[113] == 1;
        if frame.frame_type != FrameType::ServerHello || frame.session_id.get() == 0
            || frame.packet_number != 0 || frame.epoch != 0 || !(length == SERVER_HELLO_LENGTH
            || resumed) {
            return Err(HandshakeError::Malformed);
        }
        let suite: CipherSuite = match CipherSuite::from_wire_id(frame.payload[112]) {
            Ok(suite) => suite,
            Err(_) => {
                return Err(HandshakeError::Malformed);
            },
        };
        let payload: &[u8] = frame.payload.as_slice();
        Ok(
            ServerHello {
                handshake_id: take_array::<16>(payload, 0),
                client_nonce: take_array::<32>(payload, 16),
                server_nonce: take_array::<32>(payload, 48),
                session_salt: take_array::<32>(payload, 80),
                suite,
                resumed,
                auth_tag: take_array::<32>(payload, length - 32),
            },
        )
    }

    pub fn frame(&self, session_id: SessionId) -> (r: WireFrame)
        ensures
            r@ == answer_frame(self@, session_id),
    {
        WireFrame {
            session_id,
            packet_number: 0,
            epoch: 0,
            frame_type: FrameType::ServerHello,
            conversation_id: None,
            payload: self.encode_payload(),
        }
    }
}

fn server_auth_transcript(
    client_hello: &ClientHello,
    session_id: SessionId,
    server_hello: &ServerHello,
) -> (r: Vec<u8>)
    ensures
        r@ == server_transcript(client_hello@, session_id, server_hello@),
{
    let mut transcript: Vec<u8> = Vec::new();
    append(&mut transcript, "udp2raw-ng/v2/server-auth".as_bytes());
    append(&mut transcript, client_hello.encode_payload().as_slice());
    append(&mut transcript, session_id.to_be_bytes().as_slice());
    append(&mut transcript, server_hello.encode_unsigned_payload().as_slice());
    assert(transcript@ =~= server_transcript(client_hello@, session_id, server_hello@));
    transcript
}

fn full_transcript(
    client_hello: &ClientHello,
    session_id: SessionId,
    server_hello: &ServerHello,
) -> (r: Vec<u8>)
    ensures
        r@ == full_transcript_of(client_hello@, session_id, server_hello@),
{
    let mut transcript: Vec<u8> = Vec::new();
    append(&mut transcript, "udp2raw-ng/v2/full-transcript".as_bytes());
    append(&mut transcript, client_hello.encode_payload().as_slice());
    append(&mut transcript, session_id.to_be_bytes().as_slice());
    append(&mut transcript, server_hello.encode_payload().as_slice());
    assert(transcript@ =~= full_transcript_of(client_hello@, session_id, server_hello@));
    transcript
}

// ---------------------------------------------------------------------------
// ClientFinish
// ---------------------------------------------------------------------------

/// The client's closing message.
#[derive(Clone, Copy)]
pub struct ClientFinish {
    pub handshake_id: [u8; 16],
    pub auth_tag: [u8; 32],
}

/// What a [`ClientFinish`] says.
#[verifier::ext_equal]
pub struct FinishModel {
    pub handshake_id: Seq<u8>,
    pub auth_tag: Seq<u8>,
}

impl View for ClientFinish {
    type V = FinishModel;

    open spec fn view(&self) -> FinishModel {
        FinishModel { handshake_id: self.handshake_id@, auth_tag: self.auth_tag@ }
    }
}

/// The frame of a finish.
pub open spec fn finish_frame(finish: FinishModel, session_id: SessionId) -> FrameModel {
    handshake_frame(
        FrameType::ClientFinish,
        session_id,
        finish.handshake_id + finish.auth_tag,
    )
}

/// The finish that a frame carries.
pub open spec fn finish_of_frame(frame: FrameModel) -> Result<FinishModel, HandshakeError> {
    if !handshake_header(frame, FrameType::ClientFinish) || frame.session_id.number() == 0
        || frame.payload.len() != CLIENT_FINISH_LENGTH {
        Err(HandshakeError::Malformed)
    } else {
        Ok(
            FinishModel {
                handshake_id: frame.payload.subrange(0, 16),
                auth_tag: frame.payload.subrange(16, 48),
            },
        )
    }
}

/// The finish that a client sends for a handshake.
pub open spec fn finish_for(
    psk: Seq<u8>,
    hello: HelloModel,
    session_id: SessionId,
    answer: AnswerModel,
) -> FinishModel {
    FinishModel {
        handshake_id: hello.handshake_id,
        auth_tag: crypto::handshake_tag_of(
            psk,
            hello.handshake_id,
            hello.client_nonce,
            full_transcript_of(hello, session_id, answer),
        ),
    }
}

/// What a server thinks of a finish.
pub open spec fn finish_verdict(
    psk: Seq<u8>,
    hello: HelloModel,
    session_id: SessionId,
    answer: AnswerModel,
    finish: FinishModel,
) -> Result<(), HandshakeError> {
    if finish.handshake_id != hello.handshake_id {
        Err(HandshakeError::HandshakeIdMismatch)
    } else if finish.auth_tag != finish_for(psk, hello, session_id, answer).auth_tag {
        Err(HandshakeError::AuthenticationFailed)
    } else {
        Ok(())
    }
}

/// A finish is read back as it was.
pub proof fn law_finish_round_trip(finish: FinishModel, session_id: SessionId)
    requires
        finish.handshake_id.len() == 16,
        finish.auth_tag.len() == 32,
        session_id.number() != 0,
    ensures
        finish_of_frame(finish_frame(finish, session_id)) == Ok::<FinishModel, HandshakeError>(
            finish,
        ),
        protocol::encoded(finish_frame(finish, session_id)) is Ok,
{
    let payload = finish.handshake_id + finish.auth_tag;
    assert(payload.subrange(0, 16) =~= finish.handshake_id);
    assert(payload.subrange(16, 48) =~= finish.auth_tag);
}

/// The server accepts a finish exactly when it carries the identifier and the tag
/// that a client with the same key and the same view of the handshake sends.
pub proof fn law_finishes_are_accepted(
    psk: Seq<u8>,
    hello: HelloModel,
    session_id: SessionId,
    answer: AnswerModel,
    finish: FinishModel,
)
    ensures
        finish_verdict(psk, hello, session_id, answer, finish) is Ok <==> finish == finish_for(
            psk,
            hello,
            session_id,
            answer,
        ),
{
}

impl ClientFinish {
    pub fn create(
        psk: &Psk,
        client_hello: &ClientHello,
        server_hello: &ServerHello,
        session_id: SessionId,
    ) -> (r: Result<Self, CryptoError>)
        ensures
            r matches Ok(finish) && finish@ == finish_for(
                psk@,
                client_hello@,
                session_id,
                server_hello@,
            ),
    {
        let transcript: Vec<u8> = full_transcript(client_hello, session_id, server_hello);
        match handshake_tag(
            psk,
            &client_hello.handshake_id,
            &client_hello.client_nonce,
            transcript.as_slice(),
        ) {
            Ok(auth_tag) => Ok(ClientFinish { handshake_id: client_hello.handshake_id, auth_tag }),
            Err(error) => Err(error),
        }
    }

    pub fn verify(
        &self,
        psk: &Psk,
        client_hello: &ClientHello,
        server_hello: &ServerHello,
        session_id: SessionId,
    ) -> (r: Result<(), HandshakeError>)
        ensures
            r == finish_verdict(psk@, client_hello@, session_id, server_hello@, self@),
    {
        if !same_bytes(self.handshake_id.as_slice(), client_hello.handshake_id.as_slice()) {
            return Err(HandshakeError::HandshakeIdMismatch);
        }
        let transcript: Vec<u8> = full_transcript(client_hello, session_id, server_hello);
        match verify_handshake_tag(
            psk,
            &self.handshake_id,
            &client_hello.client_nonce,
            transcript.as_slice(),
            &self.auth_tag,
        ) {
            Ok(()) => Ok(()),
            Err(_) => Err(HandshakeError::AuthenticationFailed),
        }
    }

    pub fn decode(frame: &WireFrame) -> (r: Result<Self, HandshakeError>)
        ensures
            match r {
                Ok(finish) => finish_of_frame(frame@) == Ok::<FinishModel, HandshakeError>(finish@),
                Err(error) => finish_of_frame(frame@) == Err::<FinishModel, HandshakeError>(error),
            },
    {
        if frame.frame_type != FrameType::ClientFinish || frame.session_id.get() == 0
            || frame.packet_number != 0 || frame.epoch != 0 || frame.payload.len()
            != CLIENT_FINISH_LENGTH {
            return Err(HandshakeError::Malformed);
        }
        let payload: &[u8] = frame.payload.as_slice();
        Ok(
            ClientFinish {
                handshake_id: take_array::<16>(payload, 0),
                auth_tag: take_array::<32>(payload, 16),
            },
        )
    }

    pub fn frame(&self, session_id: SessionId) -> (r: WireFrame)
        ensures
            r@ == finish_frame(self@, session_id),
    {
        let mut payload: Vec<u8> = Vec::new();
        append(&mut payload, self.handshake_id.as_slice());
        append(&mut payload, self.auth_tag.as_slice());
        assert(payload@ =~= self.handshake_id@ + self.auth_tag@);
        WireFrame {
            session_id,
            packet_number: 0,
            epoch: 0,
            frame_type: FrameType::ClientFinish,
            conversation_id: None,
            payload,
        }
    }
}

/// What the keys of a session are derived from, once a handshake is complete.
pub open spec fn session_key_source(
    psk: Seq<u8>,
    hello: HelloModel,
    session_id: SessionId,
    answer: AnswerModel,
) -> KeySource {
    KeySource {
        psk,
        suite: hello.suite,
        session_id,
        client_nonce: hello.client_nonce,
        server_nonce: answer.server_nonce,
        session_salt: answer.session_salt,
        transcript: full_transcript_of(hello, session_id, answer),
    }
}

/// Derives the keys of a session from its handshake.
pub fn session_keys(
    psk: &Psk,
    client_hello: &ClientHello,
    server_hello: &ServerHello,
    session_id: SessionId,
) -> (r: Result<SessionKeys, CryptoError>)
    ensures
        r matches Ok(keys) && {
            let source = session_key_source(psk@, client_hello@, session_id, server_hello@);
            &&& keys.client_to_server@ == crypto::direction_keys(source, Direction::ClientToServer)
            &&& keys.server_to_client@ == crypto::direction_keys(source, Direction::ServerToClient)
            &&& crypto::keys_fit(client_hello@.suite, keys.client_to_server@)
            &&& crypto::keys_fit(client_hello@.suite, keys.server_to_client@)
        },
{
    let transcript: Vec<u8> = full_transcript(client_hello, session_id, server_hello);
    derive_session_keys(
        psk,
        client_hello.suite,
        session_id,
        &client_hello.client_nonce,
        &server_hello.server_nonce,
        &server_hello.session_salt,
        transcript.as_slice(),
    )
}

/// The tag of an answer covers everything that it answers and everything that it
/// says: no two handshakes share the octets under the tag.
pub proof fn law_server_transcript_binds(
    hello: HelloModel,
    session_id: SessionId,
    answer: AnswerModel,
    other_hello: HelloModel,
    other_session_id: SessionId,
    other_answer: AnswerModel,
)
    requires
        hello_valid(hello),
        hello_valid(other_hello),
        answer_valid(answer),
        answer_valid(other_answer),
        server_transcript(hello, session_id, answer) == server_transcript(
            other_hello,
            other_session_id,
            other_answer,
        ),
    ensures
        hello == other_hello,
        session_id == other_session_id,
        answer == (AnswerModel { auth_tag: answer.auth_tag, ..other_answer }),
{
    let label = text::octets("udp2raw-ng/v2/server-auth");
    let a = hello_payload(hello);
    let b = hello_payload(other_hello);
    let c = answer_unsigned(answer);
    let d = answer_unsigned(other_answer);
    let m = bytes::be_bytes(session_id.number() as nat, 8);
    let n = bytes::be_bytes(other_session_id.number() as nat, 8);
    bytes::lemma_be_bytes_len(session_id.number() as nat, 8);
    bytes::lemma_be_bytes_len(other_session_id.number() as nat, 8);
    let whole = label + a + m + c;
    let start = label.len() as int;
    assert(whole.len() == start + a.len() + 8 + c.len());
    assert((label + b + n + d).len() == start + b.len() + 8 + d.len());
    assert(a.len() == b.len() && c.len() == d.len());
    let split = start + a.len() as int;
    assert(whole.subrange(start, split) =~= a);
    assert((label + b + n + d).subrange(start, split) =~= b);
    assert(whole.subrange(split, split + 8) =~= m);
    assert((label + b + n + d).subrange(split, split + 8) =~= n);
    assert(whole.subrange(split + 8, whole.len() as int) =~= c);
    assert((label + b + n + d).subrange(split + 8, whole.len() as int) =~= d);
    bytes::lemma_octet_ranges();
    bytes::lemma_be_bytes_injective(
        session_id.number() as nat,
        other_session_id.number() as nat,
        8,
    );
    SessionId::number_identifies(session_id, 0);
    SessionId::number_identifies(other_session_id, 0);
    lemma_hello_payload_injective(hello, other_hello);
    lemma_answer_unsigned_injective(answer, other_answer);
}

/// The session keys and the finish depend on the whole handshake: no two
/// handshakes share a full transcript.
pub proof fn law_full_transcript_binds(
    hello: HelloModel,
    session_id: SessionId,
    answer: AnswerModel,
    other_hello: HelloModel,
    other_session_id: SessionId,
    other_answer: AnswerModel,
)
    requires
        hello_valid(hello),
        hello_valid(other_hello),
        answer_valid(answer),
        answer_valid(other_answer),
        full_transcript_of(hello, session_id, answer) == full_transcript_of(
            other_hello,
            other_session_id,
            other_answer,
        ),
    ensures
        hello == other_hello,
        session_id == other_session_id,
        answer == other_answer,
{
    let label = text::octets("udp2raw-ng/v2/full-transcript");
    let a = hello_payload(hello);
    let b = hello_payload(other_hello);
    let c = answer_payload(answer);
    let d = answer_payload(other_answer);
    let m = bytes::be_bytes(session_id.number() as nat, 8);
    let n = bytes::be_bytes(other_session_id.number() as nat, 8);
    bytes::lemma_be_bytes_len(session_id.number() as nat, 8);
    bytes::lemma_be_bytes_len(other_session_id.number() as nat, 8);
    let whole = label + a + m + c;
    let start = label.len() as int;
    assert(whole.len() == start + a.len() + 8 + c.len());
    assert((label + b + n + d).len() == start + b.len() + 8 + d.len());
    assert(a.len() == b.len() && c.len() == d.len());
    let split = start + a.len() as int;
    assert(whole.subrange(start, split) =~= a);
    assert((label + b + n + d).subrange(start, split) =~= b);
    assert(whole.subrange(split, split + 8) =~= m);
    assert((label + b + n + d).subrange(split, split + 8) =~= n);
    assert(whole.subrange(split + 8, whole.len() as int) =~= c);
    assert((label + b + n + d).subrange(split + 8, whole.len() as int) =~= d);
    bytes::lemma_octet_ranges();
    bytes::lemma_be_bytes_injective(
        session_id.number() as nat,
        other_session_id.number() as nat,
        8,
    );
    SessionId::number_identifies(session_id, 0);
    SessionId::number_identifies(other_session_id, 0);
    lemma_hello_payload_injective(hello, other_hello);
    let cut = c.len() - 32;
    assert(c.subrange(0, cut) =~= answer_unsigned(answer));
    assert(d.subrange(0, cut) =~= answer_unsigned(other_answer));
    assert(c.subrange(cut, c.len() as int) =~= answer.auth_tag);
    assert(d.subrange(cut, d.len() as int) =~= other_answer.auth_tag);
    lemma_answer_unsigned_injective(answer, other_answer);
}

/// Where the labels of the transcripts differ.
proof fn lemma_labels()
    ensures
        text::octets("udp2raw-ng/v2/server-auth").len() == 25,
        text::octets("udp2raw-ng/v2/server-auth")[12] == 0x32,
        text::octets("udp2raw-ng/v2/server-auth")[14] == 0x73,
        text::octets("udp2raw-ng/v2/full-transcript").len() == 29,
        text::octets("udp2raw-ng/v2/full-transcript")[12] == 0x32,
        text::octets("udp2raw-ng/v2/full-transcript")[14] == 0x66,
        text::octets("udp2raw-ng/v4/hello-retry").len() == 25,
        text::octets("udp2raw-ng/v4/hello-retry")[12] == 0x34,
{
    reveal_strlit("udp2raw-ng/v2/server-auth");
    reveal_strlit("udp2raw-ng/v2/full-transcript");
    reveal_strlit("udp2raw-ng/v4/hello-retry");
    text::lemma_ascii_octets("udp2raw-ng/v2/server-auth"@);
    text::lemma_ascii_octets("udp2raw-ng/v2/full-transcript"@);
    text::lemma_ascii_octets("udp2raw-ng/v4/hello-retry"@);
}

/// The tags of a handshake are kept apart by what they are for: what the server's
/// answer is signed over is never what keys and finish are made from, and neither is
/// what a retry is signed over.
pub proof fn law_transcripts_are_told_apart(
    first: (HelloModel, SessionId, AnswerModel),
    second: (HelloModel, SessionId, AnswerModel),
    third: (HelloModel, Seq<u8>),
)
    ensures
        server_transcript(first.0, first.1, first.2) != full_transcript_of(
            second.0,
            second.1,
            second.2,
        ),
        server_transcript(first.0, first.1, first.2) != retry_transcript(third.0, third.1),
        full_transcript_of(second.0, second.1, second.2) != retry_transcript(third.0, third.1),
{
    lemma_labels();
    let server = server_transcript(first.0, first.1, first.2);
    let full = full_transcript_of(second.0, second.1, second.2);
    let retry = retry_transcript(third.0, third.1);
    assert(server[12] == 0x32 && server[14] == 0x73);
    assert(full[12] == 0x32 && full[14] == 0x66);
    assert(retry[12] == 0x34);
}

proof fn lemma_hello_payload_injective(hello: HelloModel, other: HelloModel)
    requires
        hello_valid(hello),
        hello_valid(other),
        hello_payload(hello) == hello_payload(other),
    ensures
        hello == other,
{
    law_hello_round_trip(hello);
    law_hello_round_trip(other);
    assert(hello_frame(hello) == hello_frame(other));
}

proof fn lemma_answer_unsigned_injective(answer: AnswerModel, other: AnswerModel)
    requires
        answer_valid(answer),
        answer_valid(other),
        answer_unsigned(answer) == answer_unsigned(other),
    ensures
        answer == (AnswerModel { auth_tag: answer.auth_tag, ..other }),
{
    let alike = AnswerModel { auth_tag: answer.auth_tag, ..other };
    assert(answer_unsigned(alike) =~= answer_unsigned(other));
    let session_id = SessionId::from_number(1);
    SessionId::number_identifies(session_id, 1);
    law_answer_round_trip(answer, session_id);
    law_answer_round_trip(alike, session_id);
    assert(answer_payload(answer) == answer_payload(alike));
    assert(answer_frame(answer, session_id) == answer_frame(alike, session_id));
}

// ---------------------------------------------------------------------------
// Cookies and HelloRetry
// ---------------------------------------------------------------------------

/// What the tag of a cookie covers: the sender's route, the hello without its
/// cookie, and the time of issue.
pub open spec fn cookie_context(hello: HelloModel, peer_id: PeerId, issued_ms: u64) -> Seq<u8> {
    text::octets("udp2raw-ng/v4/hello-cookie") + bytes::be_bytes(peer_id.number() as nat, 8)
        + bytes::be_bytes(issued_ms as nat, 8) + hello_payload(HelloModel { cookie: None, ..hello })
}

/// The cookie that a server issues to a peer for a hello.
pub open spec fn cookie_for(
    secret: Seq<u8>,
    hello: HelloModel,
    peer_id: PeerId,
    issued_ms: u64,
) -> Seq<u8> {
    bytes::be_bytes(issued_ms as nat, 8) + crypto::hmac_sha256(
        secret,
        cookie_context(hello, peer_id, issued_ms),
    )
}

/// When a cookie was issued.
pub open spec fn cookie_issue_time(cookie: Seq<u8>) -> u64 {
    bytes::be_value(cookie.subrange(0, 8)) as u64
}

/// Whether a hello carries a cookie that was issued to this peer for this hello,
/// not in the future and less than `lifetime` ago.
pub open spec fn cookie_accepted(
    secret: Seq<u8>,
    hello: HelloModel,
    peer_id: PeerId,
    now_ms: u64,
    lifetime: Duration,
) -> bool {
    match hello.cookie {
        None => false,
        Some(cookie) => {
            let issued_ms = cookie_issue_time(cookie);
            &&& cookie.subrange(8, 40) == crypto::hmac_sha256(
                secret,
                cookie_context(hello, peer_id, issued_ms),
            )
            &&& issued_ms <= now_ms
            &&& (now_ms - issued_ms) * 1_000_000 < lifetime.length()
        },
    }
}

/// The octets under the tag of a cookie.
fn cookie_input(client_hello: &ClientHello, peer_id: PeerId, issued_ms: u64) -> (r: Vec<u8>)
    ensures
        r@ == cookie_context(client_hello@, peer_id, issued_ms),
{
    let mut input: Vec<u8> = Vec::new();
    append(&mut input, "udp2raw-ng/v4/hello-cookie".as_bytes());
    append(&mut input, be_vec(peer_id.get(), 8).as_slice());
    append(&mut input, be_vec(issued_ms, 8).as_slice());
    append(&mut input, client_hello.without_cookie().encode_payload().as_slice());
    assert(input@ =~= cookie_context(client_hello@, peer_id, issued_ms));
    input
}

/// Checks the cookie of a hello.
pub fn verify_cookie(
    secret: &[u8],
    client_hello: &ClientHello,
    peer_id: PeerId,
    now_ms: u64,
    lifetime: Duration,
) -> (r: Result<(), HandshakeError>)
    ensures
        r == if cookie_accepted(secret@, client_hello@, peer_id, now_ms, lifetime) {
            Ok::<(), HandshakeError>(())
        } else {
            Err(HandshakeError::InvalidCookie)
        },
{
    let cookie: &Cookie = match &client_hello.cookie {
        Some(cookie) => cookie,
        None => {
            return Err(HandshakeError::InvalidCookie);
        },
    };
    let octets: &[u8] = cookie.as_bytes();
    let issued_ms: u64 = read_be(octets, 0, 8);
    let input: Vec<u8> = cookie_input(client_hello, peer_id, issued_ms);
    if verify_hmac(secret, input.as_slice(), &octets[8..40]).is_err() {
        return Err(HandshakeError::InvalidCookie);
    }
    if issued_ms > now_ms {
        return Err(HandshakeError::InvalidCookie);
    }
    if (now_ms - issued_ms) as u128 * 1_000_000 >= lifetime.as_nanos() {
        return Err(HandshakeError::InvalidCookie);
    }
    Ok(())
}

/// The server's demand to repeat a hello with a cookie.
#[derive(Clone, Copy)]
pub struct HelloRetry {
    pub handshake_id: [u8; 16],
    pub cookie: Cookie,
    pub auth_tag: [u8; 32],
}

/// What a [`HelloRetry`] says.
#[verifier::ext_equal]
pub struct RetryModel {
    pub handshake_id: Seq<u8>,
    pub cookie: Seq<u8>,
    pub auth_tag: Seq<u8>,
}

impl View for HelloRetry {
    type V = RetryModel;

    open spec fn view(&self) -> RetryModel {
        RetryModel {
            handshake_id: self.handshake_id@,
            cookie: self.cookie@,
            auth_tag: self.auth_tag@,
        }
    }
}

/// What the tag of a retry covers.
pub open spec fn retry_transcript(hello: HelloModel, cookie: Seq<u8>) -> Seq<u8> {
    text::octets("udp2raw-ng/v4/hello-retry") + cookie + hello_payload(
        HelloModel { cookie: None, ..hello },
    )
}

/// The tag that belongs on a retry.
pub open spec fn retry_tag(psk: Seq<u8>, hello: HelloModel, cookie: Seq<u8>) -> Seq<u8> {
    crypto::handshake_tag_of(
        psk,
        hello.handshake_id,
        hello.client_nonce,
        retry_transcript(hello, cookie),
    )
}

/// The retry that a server answers a hello with.
pub open spec fn retry_for(
    psk: Seq<u8>,
    secret: Seq<u8>,
    hello: HelloModel,
    peer_id: PeerId,
    now_ms: u64,
) -> RetryModel {
    let cookie = cookie_for(secret, hello, peer_id, now_ms);
    RetryModel {
        handshake_id: hello.handshake_id,
        cookie,
        auth_tag: retry_tag(psk, hello, cookie),
    }
}

/// What a client does with a retry: it repeats its hello with the cookie.
pub open spec fn hello_after_retry(psk: Seq<u8>, hello: HelloModel, retry: RetryModel) -> Result<
    HelloModel,
    HandshakeError,
> {
    if retry.handshake_id != hello.handshake_id {
        Err(HandshakeError::HandshakeIdMismatch)
    } else if retry.auth_tag != retry_tag(psk, hello, retry.cookie) {
        Err(HandshakeError::AuthenticationFailed)
    } else {
        Ok(HelloModel { cookie: Some(retry.cookie), ..hello })
    }
}

/// The frame of a retry.
pub open spec fn retry_frame(retry: RetryModel) -> FrameModel {
    handshake_frame(
        FrameType::HelloRetry,
        SessionId::from_number(0),
        retry.handshake_id + retry.cookie + retry.auth_tag,
    )
}

/// The retry that a frame carries.
pub open spec fn retry_of_frame(frame: FrameModel) -> Result<RetryModel, HandshakeError> {
    if !handshake_header(frame, FrameType::HelloRetry) || frame.session_id.number() != 0
        || frame.payload.len() != HELLO_RETRY_LENGTH {
        Err(HandshakeError::Malformed)
    } else {
        Ok(
            RetryModel {
                handshake_id: frame.payload.subrange(0, 16),
                cookie: frame.payload.subrange(16, 56),
                auth_tag: frame.payload.subrange(56, 88),
            },
        )
    }
}

/// A retry is read back as it was.
pub proof fn law_retry_round_trip(retry: RetryModel)
    requires
        retry.handshake_id.len() == 16,
        retry.cookie.len() == COOKIE_LENGTH,
        retry.auth_tag.len() == 32,
    ensures
        retry_of_frame(retry_frame(retry)) == Ok::<RetryModel, HandshakeError>(retry),
        protocol::encoded(retry_frame(retry)) is Ok,
{
    SessionId::number_identifies(SessionId::from_number(0), 0);
    let payload = retry.handshake_id + retry.cookie + retry.auth_tag;
    assert(payload.subrange(0, 16) =~= retry.handshake_id);
    assert(payload.subrange(16, 56) =~= retry.cookie);
    assert(payload.subrange(56, 88) =~= retry.auth_tag);
}

/// A client with the same key takes a server's retry, and the hello that it then
/// sends is accepted from the same peer until the cookie has expired, and not
/// after.
pub proof fn law_retried_hello_is_accepted(
    psk: Seq<u8>,
    secret: Seq<u8>,
    hello: HelloModel,
    peer_id: PeerId,
    issued_ms: u64,
    now_ms: u64,
    lifetime: Duration,
)
    requires
        retry_for(psk, secret, hello, peer_id, issued_ms).cookie.len() == COOKIE_LENGTH,
    ensures
        hello_after_retry(psk, hello, retry_for(psk, secret, hello, peer_id, issued_ms)) == Ok::<
            HelloModel,
            HandshakeError,
        >(HelloModel { cookie: Some(cookie_for(secret, hello, peer_id, issued_ms)), ..hello }),
        cookie_accepted(
            secret,
            HelloModel { cookie: Some(cookie_for(secret, hello, peer_id, issued_ms)), ..hello },
            peer_id,
            now_ms,
            lifetime,
        ) <==> issued_ms <= now_ms && (now_ms - issued_ms) * 1_000_000 < lifetime.length(),
{
    let cookie = cookie_for(secret, hello, peer_id, issued_ms);
    let retried = HelloModel { cookie: Some(cookie), ..hello };
    bytes::lemma_be_bytes_len(issued_ms as nat, 8);
    bytes::lemma_octet_ranges();
    bytes::lemma_be_round_trip(issued_ms as nat, 8);
    assert(cookie.subrange(0, 8) =~= bytes::be_bytes(issued_ms as nat, 8));
    assert(cookie.subrange(8, 40) =~= crypto::hmac_sha256(
        secret,
        cookie_context(hello, peer_id, issued_ms),
    ));
    assert(HelloModel { cookie: None, ..retried } =~= HelloModel { cookie: None, ..hello });
}

/// A hello without a cookie is never accepted where cookies are required.
pub proof fn law_missing_cookie_is_refused(
    secret: Seq<u8>,
    hello: HelloModel,
    peer_id: PeerId,
    now_ms: u64,
    lifetime: Duration,
)
    requires
        hello.cookie is None,
    ensures
        !cookie_accepted(secret, hello, peer_id, now_ms, lifetime),
{
}

impl HelloRetry {
    pub fn create(
        psk: &Psk,
        secret: &[u8],
        client_hello: &ClientHello,
        peer_id: PeerId,
        now_ms: u64,
    ) -> (r: Result<Self, CryptoError>)
        ensures
            r matches Ok(retry) && retry@ == retry_for(
                psk@,
                secret@,
                client_hello@,
                peer_id,
                now_ms,
            ),
    {
        let input: Vec<u8> = cookie_input(client_hello, peer_id, now_ms);
        let tag: [u8; 32] = match hmac_tag(secret, input.as_slice()) {
            Ok(tag) => tag,
            Err(error) => {
                return Err(error);
            },
        };
        let mut octets: Vec<u8> = be_vec(now_ms, 8);
        append(&mut octets, tag.as_slice());
        assert(octets@.subrange(0, 40) =~= octets@);
        let cookie = Cookie::from_bytes(take_array::<40>(octets.as_slice(), 0));
        let transcript: Vec<u8> = retry_input(client_hello, &cookie);
        match handshake_tag(
            psk,
            &client_hello.handshake_id,
            &client_hello.client_nonce,
            transcript.as_slice(),
        ) {
            Ok(auth_tag) => Ok(
                HelloRetry { handshake_id: client_hello.handshake_id, cookie, auth_tag },
            ),
            Err(error) => Err(error),
        }
    }

    /// The client's hello with the cookie of this retry.
    pub fn verify_and_apply(&self, psk: &Psk, client_hello: &ClientHello) -> (r: Result<
        ClientHello,
        HandshakeError,
    >)
        ensures
            match r {
                Ok(hello) => hello_after_retry(psk@, client_hello@, self@) == Ok::<
                    HelloModel,
                    HandshakeError,
                >(hello@),
                Err(error) => hello_after_retry(psk@, client_hello@, self@) == Err::<
                    HelloModel,
                    HandshakeError,
                >(error),
            },
    {
        if !same_bytes(self.handshake_id.as_slice(), client_hello.handshake_id.as_slice()) {
            return Err(HandshakeError::HandshakeIdMismatch);
        }
        let transcript: Vec<u8> = retry_input(client_hello, &self.cookie);
        match verify_handshake_tag(
            psk,
            &client_hello.handshake_id,
            &client_hello.client_nonce,
            transcript.as_slice(),
            &self.auth_tag,
        ) {
            Ok(()) => Ok(ClientHello { cookie: Some(self.cookie), ..*client_hello }),
            Err(_) => Err(HandshakeError::AuthenticationFailed),
        }
    }

    pub fn decode(frame: &WireFrame) -> (r: Result<Self, HandshakeError>)
        ensures
            match r {
                Ok(retry) => retry_of_frame(frame@) == Ok::<RetryModel, HandshakeError>(retry@),
                Err(error) => retry_of_frame(frame@) == Err::<RetryModel, HandshakeError>(error),
            },
    {
        if frame.frame_type != FrameType::HelloRetry || frame.session_id.get() != 0
            || frame.packet_number != 0 || frame.epoch != 0 || frame.payload.len()
            != HELLO_RETRY_LENGTH {
            return Err(HandshakeError::Malformed);
        }
        let payload: &[u8] = frame.payload.as_slice();
        Ok(
            HelloRetry {
                handshake_id: take_array::<16>(payload, 0),
                cookie: Cookie::from_bytes(take_array::<40>(payload, 16)),
                auth_tag: take_array::<32>(payload, 56),
            },
        )
    }

    pub fn frame(&self) -> (r: WireFrame)
        ensures
            r@ == retry_frame(self@),
    {
        let mut payload: Vec<u8> = Vec::new();
        append(&mut payload, self.handshake_id.as_slice());
        append(&mut payload, self.cookie.as_bytes());
        append(&mut payload, self.auth_tag.as_slice());
        assert(payload@ =~= self.handshake_id@ + self.cookie@ + self.auth_tag@);
        WireFrame {
            session_id: SessionId::from_u64(0),
            packet_number: 0,
            epoch: 0,
            frame_type: FrameType::HelloRetry,
            conversation_id: None,
            payload,
        }
    }
}

/// The octets under the tag of a retry.
fn retry_input(client_hello: &ClientHello, cookie: &Cookie) -> (r: Vec<u8>)
    ensures
        r@ == retry_transcript(client_hello@, cookie@),
{
    let mut input: Vec<u8> = Vec::new();
    append(&mut input, "udp2raw-ng/v4/hello-retry".as_bytes());
    append(&mut input, cookie.as_bytes());
    append(&mut input, client_hello.without_cookie().encode_payload().as_slice());
    assert(input@ =~= retry_transcript(client_hello@, cookie@));
    input
}

// ---------------------------------------------------------------------------
// Resumption credentials
// ---------------------------------------------------------------------------

/// The part of a credential that its tag covers.
pub open spec fn credential_claims(
    session_id: SessionId,
    conversation_id: ConversationId,
    issued_ms: u64,
    expires_ms: u64,
    salt: Seq<u8>,
) -> Seq<u8> {
    bytes::be_bytes(issued_ms as nat, 8) + bytes::be_bytes(expires_ms as nat, 8) + bytes::be_bytes(
        session_id.number() as nat,
        8,
    ) + bytes::be_bytes(conversation_id.number() as nat, 4) + salt
}

/// The tag of a credential.
pub open spec fn credential_tag(secret: Seq<u8>, claims: Seq<u8>) -> Seq<u8> {
    crypto::hmac_sha256(secret, text::octets("udp2raw-ng/v4/resumption") + claims)
}

/// The credential that a server issues.
pub open spec fn credential_for(
    secret: Seq<u8>,
    session_id: SessionId,
    conversation_id: ConversationId,
    issued_ms: u64,
    expires_ms: u64,
    salt: Seq<u8>,
) -> Seq<u8> {
    let claims = credential_claims(session_id, conversation_id, issued_ms, expires_ms, salt);
    claims + credential_tag(secret, claims)
}

/// The session and conversation that a credential vouches for at a time.
pub open spec fn credential_grant(secret: Seq<u8>, credential: Seq<u8>, now_ms: u64) -> Option<
    (SessionId, ConversationId),
> {
    let claims = credential.subrange(0, 44);
    let issued_ms = bytes::be_value(credential.subrange(0, 8)) as u64;
    let expires_ms = bytes::be_value(credential.subrange(8, 16)) as u64;
    let session_id = SessionId::from_number(bytes::be_value(credential.subrange(16, 24)) as u64);
    let conversation = bytes::be_value(credential.subrange(24, 28)) as u32;
    if credential.subrange(44, 76) != credential_tag(secret, claims) {
        None
    } else if !(issued_ms <= now_ms < expires_ms) || conversation == 0 {
        None
    } else {
        Some((session_id, ConversationId::from_number(conversation)))
    }
}

/// A credential vouches for the session and the conversation that it was issued
/// for, from its issue until its expiry and at no other time.
pub proof fn law_credential_grants_what_it_was_issued_for(
    secret: Seq<u8>,
    session_id: SessionId,
    conversation_id: ConversationId,
    issued_ms: u64,
    expires_ms: u64,
    salt: Seq<u8>,
    now_ms: u64,
)
    requires
        conversation_id.number() != 0,
        salt.len() == 16,
        credential_for(secret, session_id, conversation_id, issued_ms, expires_ms, salt).len()
            == CREDENTIAL_LENGTH,
    ensures
        credential_grant(
            secret,
            credential_for(secret, session_id, conversation_id, issued_ms, expires_ms, salt),
            now_ms,
        ) == if issued_ms <= now_ms < expires_ms {
            Some((session_id, conversation_id))
        } else {
            None
        },
{
    let credential = credential_for(
        secret,
        session_id,
        conversation_id,
        issued_ms,
        expires_ms,
        salt,
    );
    let claims = credential_claims(session_id, conversation_id, issued_ms, expires_ms, salt);
    bytes::lemma_octet_ranges();
    bytes::lemma_be_bytes_len(issued_ms as nat, 8);
    bytes::lemma_be_bytes_len(expires_ms as nat, 8);
    bytes::lemma_be_bytes_len(session_id.number() as nat, 8);
    bytes::lemma_be_bytes_len(conversation_id.number() as nat, 4);
    bytes::lemma_be_round_trip(issued_ms as nat, 8);
    bytes::lemma_be_round_trip(expires_ms as nat, 8);
    bytes::lemma_be_round_trip(session_id.number() as nat, 8);
    bytes::lemma_be_round_trip(conversation_id.number() as nat, 4);
    SessionId::number_identifies(session_id, 0);
    ConversationId::number_identifies(conversation_id, 0);
    assert(credential.subrange(0, 44) =~= claims);
    assert(credential.subrange(44, 76) =~= credential_tag(secret, claims));
    assert(credential.subrange(0, 8) =~= bytes::be_bytes(issued_ms as nat, 8));
    assert(credential.subrange(8, 16) =~= bytes::be_bytes(expires_ms as nat, 8));
    assert(credential.subrange(16, 24) =~= bytes::be_bytes(session_id.number() as nat, 8));
    assert(credential.subrange(24, 28) =~= bytes::be_bytes(conversation_id.number() as nat, 4));
}

/// Credentials that were issued for different conversations are different, whatever
/// else they say.
pub proof fn law_credentials_name_their_conversation(
    secret: Seq<u8>,
    sessions: (SessionId, SessionId),
    conversations: (ConversationId, ConversationId),
    issued_ms: (u64, u64),
    expires_ms: (u64, u64),
    salts: (Seq<u8>, Seq<u8>),
)
    requires
        conversations.0 != conversations.1,
    ensures
        credential_for(
            secret,
            sessions.0,
            conversations.0,
            issued_ms.0,
            expires_ms.0,
            salts.0,
        ) != credential_for(
            secret,
            sessions.1,
            conversations.1,
            issued_ms.1,
            expires_ms.1,
            salts.1,
        ),
{
    let a = credential_for(
        secret,
        sessions.0,
        conversations.0,
        issued_ms.0,
        expires_ms.0,
        salts.0,
    );
    let b = credential_for(
        secret,
        sessions.1,
        conversations.1,
        issued_ms.1,
        expires_ms.1,
        salts.1,
    );
    let first = conversations.0.number() as nat;
    let second = conversations.1.number() as nat;
    bytes::lemma_octet_ranges();
    bytes::lemma_be_bytes_len(issued_ms.0 as nat, 8);
    bytes::lemma_be_bytes_len(issued_ms.1 as nat, 8);
    bytes::lemma_be_bytes_len(expires_ms.0 as nat, 8);
    bytes::lemma_be_bytes_len(expires_ms.1 as nat, 8);
    bytes::lemma_be_bytes_len(sessions.0.number() as nat, 8);
    bytes::lemma_be_bytes_len(sessions.1.number() as nat, 8);
    bytes::lemma_be_bytes_len(first, 4);
    bytes::lemma_be_bytes_len(second, 4);
    if a == b {
        assert(a.subrange(24, 28) =~= bytes::be_bytes(first, 4));
        assert(b.subrange(24, 28) =~= bytes::be_bytes(second, 4));
        bytes::lemma_be_bytes_injective(first, second, 4);
        ConversationId::number_identifies(conversations.0, 0);
        ConversationId::number_identifies(conversations.1, 0);
    }
}

/// The octets under the tag of a credential.
fn credential_input(claims: &[u8]) -> (r: Vec<u8>)
    ensures
        r@ == text::octets("udp2raw-ng/v4/resumption") + claims@,
{
    let mut input: Vec<u8> = Vec::new();
    append(&mut input, "udp2raw-ng/v4/resumption".as_bytes());
    append(&mut input, claims);
    assert(input@ =~= text::octets("udp2raw-ng/v4/resumption") + claims@);
    input
}

/// Issues a credential. `salt` is fresh random octets.
pub fn issue_resumption_credential(
    secret: &[u8],
    session_id: SessionId,
    conversation_id: ConversationId,
    issued_ms: u64,
    expires_ms: u64,
    salt: [u8; 16],
) -> (r: Result<ResumptionCredential, CryptoError>)
    ensures
        r matches Ok(credential) && credential@ == credential_for(
            secret@,
            session_id,
            conversation_id,
            issued_ms,
            expires_ms,
            salt@,
        ),
{
    let mut octets: Vec<u8> = be_vec(issued_ms, 8);
    append(&mut octets, be_vec(expires_ms, 8).as_slice());
    append(&mut octets, session_id.to_be_bytes().as_slice());
    append(&mut octets, be_vec(conversation_id.get() as u64, 4).as_slice());
    append(&mut octets, salt.as_slice());
    proof {
        bytes::lemma_be_bytes_len(session_id.number() as nat, 8);
    }
    assert(octets@ =~= credential_claims(
        session_id,
        conversation_id,
        issued_ms,
        expires_ms,
        salt@,
    ));
    let input: Vec<u8> = credential_input(octets.as_slice());
    match hmac_tag(secret, input.as_slice()) {
        Ok(tag) => {
            append(&mut octets, tag.as_slice());
            assert(octets@.subrange(0, 76) =~= octets@);
            Ok(ResumptionCredential::from_bytes(take_array::<76>(octets.as_slice(), 0)))
        },
        Err(error) => Err(error),
    }
}

/// Checks a credential.
pub fn verify_resumption_credential(
    secret: &[u8],
    credential: &ResumptionCredential,
    now_ms: u64,
) -> (r: Result<(SessionId, ConversationId), HandshakeError>)
    ensures
        r == match credential_grant(secret@, credential@, now_ms) {
            Some(grant) => Ok::<(SessionId, ConversationId), HandshakeError>(grant),
            None => Err(HandshakeError::InvalidResumptionCredential),
        },
{
    let octets: &[u8] = credential.as_bytes();
    let input: Vec<u8> = credential_input(&octets[0..44]);
    if verify_hmac(secret, input.as_slice(), &octets[44..76]).is_err() {
        return Err(HandshakeError::InvalidResumptionCredential);
    }
    proof {
        bytes::lemma_octet_ranges();
    }
    let issued_ms: u64 = read_be(octets, 0, 8);
    let expires_ms: u64 = read_be(octets, 8, 8);
    if issued_ms > now_ms || now_ms >= expires_ms {
        return Err(HandshakeError::InvalidResumptionCredential);
    }
    let session_id = SessionId::from_u64(read_be(octets, 16, 8));
    match ConversationId::new(read_be(octets, 24, 4) as u32) {
        Some(conversation_id) => Ok((session_id, conversation_id)),
        None => Err(HandshakeError::InvalidResumptionCredential),
    }
}

/// Both ends of a completed handshake derive the same keys: what the server
/// answers arrives as it was sent, the client accepts it, the server accepts the
/// client's finish, and the keys follow from what both have seen.
pub proof fn law_both_ends_agree(
    psk: Seq<u8>,
    hello: HelloModel,
    session_id: SessionId,
    resumed: bool,
    server_nonce: Seq<u8>,
    session_salt: Seq<u8>,
)
    requires
        hello_valid(hello),
        session_id.number() != 0,
        answer_valid(answer_to(psk, hello, session_id, resumed, server_nonce, session_salt)),
        finish_for(
            psk,
            hello,
            session_id,
            answer_to(psk, hello, session_id, resumed, server_nonce, session_salt),
        ).auth_tag.len() == 32,
    ensures
        ({
            let answer = answer_to(psk, hello, session_id, resumed, server_nonce, session_salt);
            let finish = finish_for(psk, hello, session_id, answer);
            &&& hello_of_frame(hello_frame(hello)) == Ok::<HelloModel, HandshakeError>(hello)
            &&& answer_of_frame(answer_frame(answer, session_id)) == Ok::<
                AnswerModel,
                HandshakeError,
            >(answer)
            &&& answer_verdict(psk, hello, session_id, answer) is Ok
            &&& finish_of_frame(finish_frame(finish, session_id)) == Ok::<
                FinishModel,
                HandshakeError,
            >(finish)
            &&& finish_verdict(psk, hello, session_id, answer, finish) is Ok
            &&& session_key_source(
                psk,
                hello,
                session_id,
                answer_of_frame(answer_frame(answer, session_id))->Ok_0,
            ) == session_key_source(
                psk,
                hello_of_frame(hello_frame(hello))->Ok_0,
                session_id,
                answer,
            )
        }),
{
    let answer = answer_to(psk, hello, session_id, resumed, server_nonce, session_salt);
    let finish = finish_for(psk, hello, session_id, answer);
    law_hello_round_trip(hello);
    law_answer_round_trip(answer, session_id);
    law_answers_are_accepted(psk, hello, session_id, resumed, server_nonce, session_salt);
    law_finish_round_trip(finish, session_id);
}

/// What stands in a hello: its identifier, its nonce, the suite, and then the cookie and
/// the credential where it has them.
pub proof fn law_hellos_are_laid_out(hello: HelloModel)
    requires
        hello_valid(hello),
    ensures
        ({
            let payload = hello_payload(hello);
            let middle: int = if hello.cookie is Some {
                89
            } else {
                49
            };
            &&& payload.len() == middle + if hello.resumption is Some {
                76int
            } else {
                0
            }
            &&& payload.subrange(0, 16) == hello.handshake_id
            &&& payload.subrange(16, 48) == hello.client_nonce
            &&& payload[48] == config::suite_wire_id(hello.suite)
            &&& hello.cookie matches Some(cookie) ==> payload.subrange(49, 89) == cookie
            &&& hello.resumption matches Some(credential) ==> payload.subrange(
                middle,
                middle + 76,
            ) == credential
        }),
{
    let payload = hello_payload(hello);
    assert(payload.subrange(0, 16) =~= hello.handshake_id);
    assert(payload.subrange(16, 48) =~= hello.client_nonce);
    if hello.cookie is Some {
        assert(payload.subrange(49, 89) =~= hello.cookie->Some_0);
        if hello.resumption is Some {
            assert(payload.subrange(89, 165) =~= hello.resumption->Some_0);
        }
    } else if hello.resumption is Some {
        assert(payload.subrange(49, 125) =~= hello.resumption->Some_0);
    }
}

/// What stands in an answer: the identifier and the nonce of the hello, the server's nonce
/// and salt, the suite, one octet more where the session resumes another, and the tag.
pub proof fn law_answers_are_laid_out(answer: AnswerModel)
    requires
        answer_valid(answer),
    ensures
        ({
            let payload = answer_payload(answer);
            let end: int = if answer.resumed {
                114
            } else {
                113
            };
            &&& payload.len() == end + 32
            &&& payload.subrange(0, 16) == answer.handshake_id
            &&& payload.subrange(16, 48) == answer.client_nonce
            &&& payload.subrange(48, 80) == answer.server_nonce
            &&& payload.subrange(80, 112) == answer.session_salt
            &&& payload[112] == config::suite_wire_id(answer.suite)
            &&& answer.resumed ==> payload[113] == 1
            &&& payload.subrange(end, end + 32) == answer.auth_tag
        }),
{
    let payload = answer_payload(answer);
    assert(payload.subrange(0, 16) =~= answer.handshake_id);
    assert(payload.subrange(16, 48) =~= answer.client_nonce);
    assert(payload.subrange(48, 80) =~= answer.server_nonce);
    assert(payload.subrange(80, 112) =~= answer.session_salt);
    if answer.resumed {
        assert(payload.subrange(114, 146) =~= answer.auth_tag);
    } else {
        assert(payload.subrange(113, 145) =~= answer.auth_tag);
    }
}

/// What stands in a credential: when it was issued and when it runs out, the session, the
/// conversation, its salt, and a tag over all of it.
pub proof fn law_credentials_are_laid_out(
    secret: Seq<u8>,
    session_id: SessionId,
    conversation_id: ConversationId,
    issued_ms: u64,
    expires_ms: u64,
    salt: Seq<u8>,
)
    requires
        salt.len() == 16,
    ensures
        ({
            let credential = credential_for(
                secret,
                session_id,
                conversation_id,
                issued_ms,
                expires_ms,
                salt,
            );
            &&& bytes::be_value(credential.subrange(0, 8)) == issued_ms
            &&& bytes::be_value(credential.subrange(8, 16)) == expires_ms
            &&& bytes::be_value(credential.subrange(16, 24)) == session_id.number()
            &&& bytes::be_value(credential.subrange(24, 28)) == conversation_id.number()
            &&& credential.subrange(28, 44) == salt
            &&& credential.skip(44) == crypto::hmac_sha256(
                secret,
                text::octets("udp2raw-ng/v4/resumption") + credential.take(44),
            )
        }),
{
    let credential = credential_for(
        secret,
        session_id,
        conversation_id,
        issued_ms,
        expires_ms,
        salt,
    );
    let claims = credential_claims(session_id, conversation_id, issued_ms, expires_ms, salt);
    bytes::lemma_octet_ranges();
    bytes::lemma_be_bytes_len(issued_ms as nat, 8);
    bytes::lemma_be_bytes_len(expires_ms as nat, 8);
    bytes::lemma_be_bytes_len(session_id.number() as nat, 8);
    bytes::lemma_be_bytes_len(conversation_id.number() as nat, 4);
    bytes::lemma_be_round_trip(issued_ms as nat, 8);
    bytes::lemma_be_round_trip(expires_ms as nat, 8);
    bytes::lemma_be_round_trip(session_id.number() as nat, 8);
    bytes::lemma_be_round_trip(conversation_id.number() as nat, 4);
    assert(credential.subrange(0, 8) =~= bytes::be_bytes(issued_ms as nat, 8));
    assert(credential.subrange(8, 16) =~= bytes::be_bytes(expires_ms as nat, 8));
    assert(credential.subrange(16, 24) =~= bytes::be_bytes(session_id.number() as nat, 8));
    assert(credential.subrange(24, 28) =~= bytes::be_bytes(conversation_id.number() as nat, 4));
    assert(credential.subrange(28, 44) =~= salt);
    assert(credential.take(44) =~= claims);
    assert(credential.skip(44) =~= credential_tag(secret, claims));
}

} // verus!
