//! Hashing, message authentication and key derivation.

use hkdf::Hkdf;
use hmac::{Hmac, Mac};
use sha2::{Digest, Sha256};
use vstd::prelude::*;

use crate::bytes;
use crate::bytes::append;
use crate::config;
use crate::config::CipherSuite;
use crate::error::CryptoError;
use crate::id::SessionId;
use crate::secret::{Psk, SecretBytes};
use crate::text;

verus! {

/// The most octets that one HKDF-SHA256 expansion yields.
pub const MAX_HKDF_OUTPUT: usize = 8_160;

/// The error of an HMAC key that cannot be used.
#[verifier::external_type_specification]
#[verifier::external_body]
pub struct ExMacKeyError(hmac::digest::InvalidLength);

/// The error of a wrong authentication tag.
#[verifier::external_type_specification]
#[verifier::external_body]
pub struct ExMacError(hmac::digest::MacError);

/// The error of an HKDF output that is too long.
#[verifier::external_type_specification]
#[verifier::external_body]
pub struct ExHkdfError(hkdf::InvalidLength);

/// The digest of `sha2::Sha256::digest`.
pub uninterp spec fn sha256(data: Seq<u8>) -> Seq<u8>;

/// The tag of `hmac::Hmac<Sha256>` over one message.
pub uninterp spec fn hmac_sha256(key: Seq<u8>, data: Seq<u8>) -> Seq<u8>;

/// The first `length` octets that `hkdf::Hkdf<Sha256>` extracts and expands.
pub uninterp spec fn hkdf_sha256(
    salt: Seq<u8>,
    input_key: Seq<u8>,
    info: Seq<u8>,
    length: nat,
) -> Seq<u8>;

/// `sha2::Sha256::digest`: the digest has 32 octets.
#[verifier::external_body]
fn sha256_digest(data: &[u8]) -> (r: Vec<u8>)
    ensures
        r@ == sha256(data@),
        r@.len() == 32,
{
    Sha256::digest(data).to_vec()
}

/// `hmac::Hmac<Sha256>` over one message: a key of any length is taken.
#[verifier::external_body]
fn hmac_sha256_tag(key: &[u8], data: &[u8]) -> (r: Result<[u8; 32], hmac::digest::InvalidLength>)
    ensures
        r is Ok,
        r matches Ok(tag) ==> tag@ == hmac_sha256(key@, data@),
{
    let mut mac = Hmac::<Sha256>::new_from_slice(key)?;
    mac.update(data);
    Ok(mac.finalize().into_bytes().into())
}

/// `hmac::Mac::verify_slice`: succeeds on the tag of the message and on nothing
/// else.
#[verifier::external_body]
fn hmac_sha256_verify(key: &[u8], data: &[u8], tag: &[u8]) -> (r: Result<
    (),
    hmac::digest::MacError,
>)
    ensures
        r is Ok == (tag@ == hmac_sha256(key@, data@)),
{
    let mut mac = Hmac::<Sha256>::new_from_slice(key).expect("HMAC takes keys of any length");
    mac.update(data);
    mac.verify_slice(tag)
}

/// `hkdf::Hkdf<Sha256>`, extraction and expansion: yields as many octets as asked
/// for, up to 255 digests.
#[verifier::external_body]
fn hkdf_sha256_expand(salt: &[u8], input_key: &[u8], info: &[u8], length: usize) -> (r: Result<
    Vec<u8>,
    hkdf::InvalidLength,
>)
    requires
        length <= MAX_HKDF_OUTPUT,
    ensures
        r is Ok,
        r matches Ok(output) ==> output@ == hkdf_sha256(salt@, input_key@, info@, length as nat)
            && output@.len() == length,
{
    let mut output = vec![0u8; length];
    Hkdf::<Sha256>::new(Some(salt), input_key).expand(info, &mut output)?;
    Ok(output)
}

/// The way a record travels.
#[derive(Clone, Copy, Debug, Eq, PartialEq, Structural)]
pub enum Direction {
    ClientToServer,
    ServerToClient,
}

/// The label that separates the keys of the two directions.
pub open spec fn direction_label(direction: Direction) -> Seq<u8> {
    match direction {
        Direction::ClientToServer => text::octets("client-to-server"),
        Direction::ServerToClient => text::octets("server-to-client"),
    }
}

/// The octet that binds a record to its direction.
pub open spec fn direction_wire_id(direction: Direction) -> u8 {
    match direction {
        Direction::ClientToServer => 1,
        Direction::ServerToClient => 2,
    }
}

impl Direction {
    pub fn label(self) -> (r: &'static [u8])
        ensures
            r@ == direction_label(self),
    {
        match self {
            Direction::ClientToServer => "client-to-server".as_bytes(),
            Direction::ServerToClient => "server-to-client".as_bytes(),
        }
    }

    pub fn wire_id(self) -> (r: u8)
        ensures
            r == direction_wire_id(self),
    {
        match self {
            Direction::ClientToServer => 1,
            Direction::ServerToClient => 2,
        }
    }
}

/// Keys of one direction of a session.
pub struct DirectionKeys {
    pub record_key: SecretBytes,
    pub nonce_prefix: SecretBytes,
}

/// What a [`DirectionKeys`] holds.
#[verifier::ext_equal]
pub struct KeysModel {
    pub record_key: Seq<u8>,
    pub nonce_prefix: Seq<u8>,
}

impl View for DirectionKeys {
    type V = KeysModel;

    open spec fn view(&self) -> KeysModel {
        KeysModel { record_key: self.record_key@, nonce_prefix: self.nonce_prefix@ }
    }
}

/// Keys of both directions of a session.
pub struct SessionKeys {
    pub client_to_server: DirectionKeys,
    pub server_to_client: DirectionKeys,
}

/// The label of the whole protocol.
pub open spec fn protocol_domain() -> Seq<u8> {
    text::octets("udp2raw-ng/v4")
}

/// The context of the key that authenticates one handshake.
pub open spec fn handshake_info(handshake_id: Seq<u8>) -> Seq<u8> {
    protocol_domain() + text::octets("/handshake-auth/") + handshake_id
}

/// The tag of a handshake transcript.
pub open spec fn handshake_tag_of(
    psk: Seq<u8>,
    handshake_id: Seq<u8>,
    client_nonce: Seq<u8>,
    transcript: Seq<u8>,
) -> Seq<u8> {
    hmac_sha256(hkdf_sha256(client_nonce, psk, handshake_info(handshake_id), 32), transcript)
}

/// How many octets the record key of a suite has.
pub open spec fn record_key_length(suite: CipherSuite) -> nat {
    if suite == CipherSuite::Aes128Gcm {
        16
    } else {
        32
    }
}

/// How many octets the nonce prefix of a suite has.
pub open spec fn nonce_prefix_length(suite: CipherSuite) -> nat {
    match suite {
        CipherSuite::XChaCha20Poly1305 => 16,
        CipherSuite::NoneAuthenticated => 0,
        _ => 4,
    }
}

/// Whether keys have the lengths that a suite needs.
pub open spec fn keys_fit(suite: CipherSuite, keys: KeysModel) -> bool {
    keys.record_key.len() == record_key_length(suite) && keys.nonce_prefix.len()
        == nonce_prefix_length(suite)
}

/// What the keys of a session are derived from.
#[verifier::ext_equal]
pub struct KeySource {
    pub psk: Seq<u8>,
    pub suite: CipherSuite,
    pub session_id: SessionId,
    pub client_nonce: Seq<u8>,
    pub server_nonce: Seq<u8>,
    pub session_salt: Seq<u8>,
    pub transcript: Seq<u8>,
}

/// The derivation context that the keys of one direction share.
pub open spec fn direction_info(source: KeySource, direction: Direction) -> Seq<u8> {
    protocol_domain() + text::octets("/session/") + bytes::be_bytes(
        source.session_id.number() as nat,
        8,
    ) + seq![config::suite_wire_id(source.suite)] + source.client_nonce + source.server_nonce
        + sha256(source.transcript) + text::octets("/") + direction_label(direction)
}

/// The keys of one direction of a session.
pub open spec fn direction_keys(source: KeySource, direction: Direction) -> KeysModel {
    KeysModel {
        record_key: hkdf_sha256(
            source.session_salt,
            source.psk,
            direction_info(source, direction) + text::octets("/record-key"),
            record_key_length(source.suite),
        ),
        nonce_prefix: if nonce_prefix_length(source.suite) == 0 {
            Seq::empty()
        } else {
            hkdf_sha256(
                source.session_salt,
                source.psk,
                direction_info(source, direction) + text::octets("/nonce-prefix"),
                nonce_prefix_length(source.suite),
            )
        },
    }
}

/// The context from which a key of a session is derived: the protocol, the session, the
/// suite, both nonces, the digest of the whole handshake, the direction and the use.
pub open spec fn key_context(source: KeySource, direction: Direction, record_key: bool) -> Seq<u8> {
    text::octets("udp2raw-ng/v4") + text::octets("/session/") + bytes::be_bytes(
        source.session_id.number() as nat,
        8,
    ) + seq![config::suite_wire_id(source.suite)] + source.client_nonce + source.server_nonce
        + sha256(source.transcript) + text::octets("/") + match direction {
        Direction::ClientToServer => text::octets("client-to-server"),
        Direction::ServerToClient => text::octets("server-to-client"),
    } + if record_key {
        text::octets("/record-key")
    } else {
        text::octets("/nonce-prefix")
    }
}

/// Each direction of a session has a key and a nonce prefix of its own, derived from the
/// shared secret and the salt of the session in a context of its own, in the lengths that
/// the suite needs.
pub proof fn law_keys_are_derived(source: KeySource, direction: Direction)
    ensures
        direction_keys(source, direction).record_key == hkdf_sha256(
            source.session_salt,
            source.psk,
            key_context(source, direction, true),
            match source.suite {
                CipherSuite::Aes128Gcm => 16,
                _ => 32,
            },
        ),
        direction_keys(source, direction).nonce_prefix == match source.suite {
            CipherSuite::NoneAuthenticated => Seq::empty(),
            CipherSuite::XChaCha20Poly1305 => hkdf_sha256(
                source.session_salt,
                source.psk,
                key_context(source, direction, false),
                16,
            ),
            _ => hkdf_sha256(
                source.session_salt,
                source.psk,
                key_context(source, direction, false),
                4,
            ),
        },
{
}

/// No two of the keys of a session share their context.
pub proof fn law_key_contexts_differ(
    source: KeySource,
    first: (Direction, bool),
    second: (Direction, bool),
)
    requires
        first != second,
    ensures
        key_context(source, first.0, first.1) != key_context(source, second.0, second.1),
{
    reveal_strlit("client-to-server");
    reveal_strlit("server-to-client");
    reveal_strlit("/record-key");
    reveal_strlit("/nonce-prefix");
    text::lemma_ascii_octets("client-to-server"@);
    text::lemma_ascii_octets("server-to-client"@);
    text::lemma_ascii_octets("/record-key"@);
    text::lemma_ascii_octets("/nonce-prefix"@);
    let shared = text::octets("udp2raw-ng/v4") + text::octets("/session/") + bytes::be_bytes(
        source.session_id.number() as nat,
        8,
    ) + seq![config::suite_wire_id(source.suite)] + source.client_nonce + source.server_nonce
        + sha256(source.transcript) + text::octets("/");
    let a = key_context(source, first.0, first.1);
    let b = key_context(source, second.0, second.1);
    if first.1 != second.1 {
        assert(text::octets("/record-key")[10] == 0x79);
        assert(text::octets("/nonce-prefix")[12] == 0x78);
        assert(a.last() != b.last());
    } else {
        assert(text::octets("client-to-server")[0] == 0x63);
        assert(text::octets("server-to-client")[0] == 0x73);
        assert(a[shared.len() as int] != b[shared.len() as int]);
    }
}

/// The tag of a message.
pub fn hmac_tag(key: &[u8], data: &[u8]) -> (r: Result<[u8; 32], CryptoError>)
    ensures
        r matches Ok(tag) && tag@ == hmac_sha256(key@, data@),
{
    match hmac_sha256_tag(key, data) {
        Ok(tag) => Ok(tag),
        Err(_) => Err(CryptoError::KeyDerivationFailed),
    }
}

/// Checks the tag of a message.
pub fn verify_hmac(key: &[u8], data: &[u8], tag: &[u8]) -> (r: Result<(), CryptoError>)
    ensures
        r == if tag@ == hmac_sha256(key@, data@) {
            Ok::<(), CryptoError>(())
        } else {
            Err(CryptoError::AuthenticationFailed)
        },
{
    match hmac_sha256_verify(key, data, tag) {
        Ok(()) => Ok(()),
        Err(_) => Err(CryptoError::AuthenticationFailed),
    }
}

fn handshake_key(psk: &Psk, handshake_id: &[u8; 16], client_nonce: &[u8; 32]) -> (r: Result<
    SecretBytes,
    CryptoError,
>)
    ensures
        r matches Ok(key) && key@ == hkdf_sha256(client_nonce@, psk@, handshake_info(handshake_id@), 32),
{
    let mut info: Vec<u8> = Vec::new();
    append(&mut info, "udp2raw-ng/v4".as_bytes());
    append(&mut info, "/handshake-auth/".as_bytes());
    append(&mut info, handshake_id.as_slice());
    assert(info@ =~= handshake_info(handshake_id@));
    match hkdf_sha256_expand(client_nonce.as_slice(), psk.as_bytes(), info.as_slice(), 32) {
        Ok(key) => Ok(SecretBytes::new(key)),
        Err(_) => Err(CryptoError::KeyDerivationFailed),
    }
}

/// The tag of a handshake transcript.
pub fn handshake_tag(
    psk: &Psk,
    handshake_id: &[u8; 16],
    client_nonce: &[u8; 32],
    transcript: &[u8],
) -> (r: Result<[u8; 32], CryptoError>)
    ensures
        r matches Ok(tag) && tag@ == handshake_tag_of(
            psk@,
            handshake_id@,
            client_nonce@,
            transcript@,
        ),
{
    match handshake_key(psk, handshake_id, client_nonce) {
        Ok(key) => hmac_tag(key.as_slice(), transcript),
        Err(error) => Err(error),
    }
}

/// Checks the tag of a handshake transcript.
pub fn verify_handshake_tag(
    psk: &Psk,
    handshake_id: &[u8; 16],
    client_nonce: &[u8; 32],
    transcript: &[u8],
    tag: &[u8; 32],
) -> (r: Result<(), CryptoError>)
    ensures
        r == if tag@ == handshake_tag_of(psk@, handshake_id@, client_nonce@, transcript@) {
            Ok::<(), CryptoError>(())
        } else {
            Err(CryptoError::AuthenticationFailed)
        },
{
    match handshake_key(psk, handshake_id, client_nonce) {
        Ok(key) => verify_hmac(key.as_slice(), transcript, tag.as_slice()),
        Err(error) => Err(error),
    }
}

/// Derives the keys of one direction. `common` is the context that they share.
fn derive_direction(
    psk: &Psk,
    suite: CipherSuite,
    session_salt: &[u8; 32],
    common: &[u8],
) -> (r: Result<DirectionKeys, CryptoError>)
    ensures
        r matches Ok(keys) && keys@ == (KeysModel {
            record_key: hkdf_sha256(
                session_salt@,
                psk@,
                common@ + text::octets("/record-key"),
                record_key_length(suite),
            ),
            nonce_prefix: if nonce_prefix_length(suite) == 0 {
                Seq::empty()
            } else {
                hkdf_sha256(
                    session_salt@,
                    psk@,
                    common@ + text::octets("/nonce-prefix"),
                    nonce_prefix_length(suite),
                )
            },
        }) && keys_fit(suite, keys@),
{
    let key_length: usize = match suite {
        CipherSuite::Aes128Gcm => 16,
        _ => 32,
    };
    let nonce_length: usize = match suite {
        CipherSuite::XChaCha20Poly1305 => 16,
        CipherSuite::NoneAuthenticated => 0,
        _ => 4,
    };
    let mut key_info: Vec<u8> = Vec::new();
    append(&mut key_info, common);
    append(&mut key_info, "/record-key".as_bytes());
    assert(key_info@ =~= common@ + text::octets("/record-key"));
    let record_key: SecretBytes = match hkdf_sha256_expand(
        session_salt.as_slice(),
        psk.as_bytes(),
        key_info.as_slice(),
        key_length,
    ) {
        Ok(key) => SecretBytes::new(key),
        Err(_) => {
            return Err(CryptoError::KeyDerivationFailed);
        },
    };
    let nonce_prefix: SecretBytes = if nonce_length != 0 {
        let mut nonce_info: Vec<u8> = Vec::new();
        append(&mut nonce_info, common);
        append(&mut nonce_info, "/nonce-prefix".as_bytes());
        assert(nonce_info@ =~= common@ + text::octets("/nonce-prefix"));
        match hkdf_sha256_expand(
            session_salt.as_slice(),
            psk.as_bytes(),
            nonce_info.as_slice(),
            nonce_length,
        ) {
            Ok(prefix) => SecretBytes::new(prefix),
            Err(_) => {
                return Err(CryptoError::KeyDerivationFailed);
            },
        }
    } else {
        SecretBytes::new(Vec::new())
    };
    Ok(DirectionKeys { record_key, nonce_prefix })
}

/// The derivation context that the keys of one direction share.
fn direction_context(
    suite: CipherSuite,
    session_id: SessionId,
    client_nonce: &[u8; 32],
    server_nonce: &[u8; 32],
    transcript_hash: &[u8],
    direction: Direction,
) -> (r: Vec<u8>)
    ensures
        r@ == protocol_domain() + text::octets("/session/") + bytes::be_bytes(
            session_id.number() as nat,
            8,
        ) + seq![config::suite_wire_id(suite)] + client_nonce@ + server_nonce@ + transcript_hash@
            + text::octets("/") + direction_label(direction),
{
    let mut common: Vec<u8> = Vec::new();
    append(&mut common, "udp2raw-ng/v4".as_bytes());
    append(&mut common, "/session/".as_bytes());
    append(&mut common, session_id.to_be_bytes().as_slice());
    let ghost before = common@;
    common.push(suite.wire_id());
    assert(common@ =~= before + seq![config::suite_wire_id(suite)]);
    append(&mut common, client_nonce.as_slice());
    append(&mut common, server_nonce.as_slice());
    append(&mut common, transcript_hash);
    append(&mut common, "/".as_bytes());
    append(&mut common, direction.label());
    assert(common@ =~= protocol_domain() + text::octets("/session/") + bytes::be_bytes(
        session_id.number() as nat,
        8,
    ) + seq![config::suite_wire_id(suite)] + client_nonce@ + server_nonce@ + transcript_hash@
        + text::octets("/") + direction_label(direction));
    common
}

/// Derives the keys of both directions of a session.
pub fn derive_session_keys(
    psk: &Psk,
    suite: CipherSuite,
    session_id: SessionId,
    client_nonce: &[u8; 32],
    server_nonce: &[u8; 32],
    session_salt: &[u8; 32],
    transcript: &[u8],
) -> (r: Result<SessionKeys, CryptoError>)
    ensures
        r matches Ok(keys) && {
            let source = KeySource {
                psk: psk@,
                suite,
                session_id,
                client_nonce: client_nonce@,
                server_nonce: server_nonce@,
                session_salt: session_salt@,
                transcript: transcript@,
            };
            &&& keys.client_to_server@ == direction_keys(source, Direction::ClientToServer)
            &&& keys.server_to_client@ == direction_keys(source, Direction::ServerToClient)
            &&& keys_fit(suite, keys.client_to_server@)
            &&& keys_fit(suite, keys.server_to_client@)
        },
{
    let transcript_hash: Vec<u8> = sha256_digest(transcript);
    let up: Vec<u8> = direction_context(
        suite,
        session_id,
        client_nonce,
        server_nonce,
        transcript_hash.as_slice(),
        Direction::ClientToServer,
    );
    let down: Vec<u8> = direction_context(
        suite,
        session_id,
        client_nonce,
        server_nonce,
        transcript_hash.as_slice(),
        Direction::ServerToClient,
    );
    let client_to_server: DirectionKeys = match derive_direction(
        psk,
        suite,
        session_salt,
        up.as_slice(),
    ) {
        Ok(keys) => keys,
        Err(error) => {
            return Err(error);
        },
    };
    let server_to_client: DirectionKeys = match derive_direction(
        psk,
        suite,
        session_salt,
        down.as_slice(),
    ) {
        Ok(keys) => keys,
        Err(error) => {
            return Err(error);
        },
    };
    Ok(SessionKeys { client_to_server, server_to_client })
}

} // verus!
