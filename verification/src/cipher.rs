//! Authenticated encryption: the four AEAD ciphers of the record layer.
//!
//! Every function here hands its arguments to `aes-gcm` or `chacha20poly1305`.
//! What a cipher computes has a name; beside it stand only lengths and the fact
//! that encryption and decryption undo each other.

use aes_gcm::aead::{AeadInPlace, KeyInit};
use aes_gcm::{Aes128Gcm, Aes256Gcm};
use chacha20poly1305::{ChaCha20Poly1305, XChaCha20Poly1305};
use vstd::prelude::*;

verus! {

/// The longest message or associated data handed to a cipher. All four accept
/// far longer ones.
pub const MAX_AEAD_INPUT: usize = 65_535;

pub const AEAD_TAG_LENGTH: usize = 16;

/// The error of a failed encryption or decryption.
#[verifier::external_type_specification]
#[verifier::external_body]
pub struct ExAeadError(aes_gcm::Error);

/// Ciphertext and tag of `ChaCha20Poly1305::encrypt_in_place_detached`.
pub uninterp spec fn chacha20poly1305_sealed(
    key: Seq<u8>,
    nonce: Seq<u8>,
    aad: Seq<u8>,
    plaintext: Seq<u8>,
) -> (Seq<u8>, Seq<u8>);

/// Plaintext of `ChaCha20Poly1305::decrypt_in_place_detached`, where the tag is
/// right.
pub uninterp spec fn chacha20poly1305_opened(
    key: Seq<u8>,
    nonce: Seq<u8>,
    aad: Seq<u8>,
    ciphertext: Seq<u8>,
    tag: Seq<u8>,
) -> Option<Seq<u8>>;

/// Ciphertext and tag of `XChaCha20Poly1305::encrypt_in_place_detached`.
pub uninterp spec fn xchacha20poly1305_sealed(
    key: Seq<u8>,
    nonce: Seq<u8>,
    aad: Seq<u8>,
    plaintext: Seq<u8>,
) -> (Seq<u8>, Seq<u8>);

/// Plaintext of `XChaCha20Poly1305::decrypt_in_place_detached`, where the tag is
/// right.
pub uninterp spec fn xchacha20poly1305_opened(
    key: Seq<u8>,
    nonce: Seq<u8>,
    aad: Seq<u8>,
    ciphertext: Seq<u8>,
    tag: Seq<u8>,
) -> Option<Seq<u8>>;

/// Ciphertext and tag of `Aes128Gcm::encrypt_in_place_detached`.
pub uninterp spec fn aes128gcm_sealed(
    key: Seq<u8>,
    nonce: Seq<u8>,
    aad: Seq<u8>,
    plaintext: Seq<u8>,
) -> (Seq<u8>, Seq<u8>);

/// Plaintext of `Aes128Gcm::decrypt_in_place_detached`, where the tag is right.
pub uninterp spec fn aes128gcm_opened(
    key: Seq<u8>,
    nonce: Seq<u8>,
    aad: Seq<u8>,
    ciphertext: Seq<u8>,
    tag: Seq<u8>,
) -> Option<Seq<u8>>;

/// Ciphertext and tag of `Aes256Gcm::encrypt_in_place_detached`.
pub uninterp spec fn aes256gcm_sealed(
    key: Seq<u8>,
    nonce: Seq<u8>,
    aad: Seq<u8>,
    plaintext: Seq<u8>,
) -> (Seq<u8>, Seq<u8>);

/// Plaintext of `Aes256Gcm::decrypt_in_place_detached`, where the tag is right.
pub uninterp spec fn aes256gcm_opened(
    key: Seq<u8>,
    nonce: Seq<u8>,
    aad: Seq<u8>,
    ciphertext: Seq<u8>,
    tag: Seq<u8>,
) -> Option<Seq<u8>>;

/// `ChaCha20Poly1305::encrypt_in_place_detached`: succeeds on inputs of these
/// sizes, keeps the length, and gives what decryption under the same key, nonce
/// and associated data turns back into the plaintext.
#[verifier::external_body]
pub(crate) fn chacha20poly1305_encrypt(
    key: &[u8],
    nonce: &[u8; 12],
    aad: &[u8],
    plaintext: &[u8],
) -> (r: Result<(Vec<u8>, [u8; 16]), aes_gcm::Error>)
    requires
        key@.len() == 32,
        aad@.len() <= MAX_AEAD_INPUT,
        plaintext@.len() <= MAX_AEAD_INPUT,
    ensures
        r is Ok,
        r matches Ok(sealed) ==> {
            &&& (sealed.0@, sealed.1@) == chacha20poly1305_sealed(key@, nonce@, aad@, plaintext@)
            &&& sealed.0@.len() == plaintext@.len()
            &&& chacha20poly1305_opened(key@, nonce@, aad@, sealed.0@, sealed.1@) == Some(
                plaintext@,
            )
        },
{
    let cipher = ChaCha20Poly1305::new_from_slice(key).expect("a key of 32 octets");
    let mut body = plaintext.to_vec();
    let tag = cipher.encrypt_in_place_detached(nonce.into(), aad, &mut body)?;
    Ok((body, tag.into()))
}

/// `ChaCha20Poly1305::decrypt_in_place_detached`: a success means that encrypting
/// the plaintext gives this ciphertext and tag.
#[verifier::external_body]
pub(crate) fn chacha20poly1305_decrypt(
    key: &[u8],
    nonce: &[u8; 12],
    aad: &[u8],
    ciphertext: &[u8],
    tag: &[u8; 16],
) -> (r: Result<Vec<u8>, aes_gcm::Error>)
    requires
        key@.len() == 32,
        aad@.len() <= MAX_AEAD_INPUT,
        ciphertext@.len() <= MAX_AEAD_INPUT,
    ensures
        match r {
            Ok(plaintext) => {
                &&& chacha20poly1305_opened(key@, nonce@, aad@, ciphertext@, tag@) == Some(
                    plaintext@,
                )
                &&& plaintext@.len() == ciphertext@.len()
                &&& chacha20poly1305_sealed(key@, nonce@, aad@, plaintext@) == (ciphertext@, tag@)
            },
            Err(_) => chacha20poly1305_opened(key@, nonce@, aad@, ciphertext@, tag@) is None,
        },
{
    let cipher = ChaCha20Poly1305::new_from_slice(key).expect("a key of 32 octets");
    let mut body = ciphertext.to_vec();
    cipher.decrypt_in_place_detached(nonce.into(), aad, &mut body, tag.into())?;
    Ok(body)
}

/// `XChaCha20Poly1305::encrypt_in_place_detached`: succeeds on inputs of these
/// sizes, keeps the length, and gives what decryption under the same key, nonce
/// and associated data turns back into the plaintext.
#[verifier::external_body]
pub(crate) fn xchacha20poly1305_encrypt(
    key: &[u8],
    nonce: &[u8; 24],
    aad: &[u8],
    plaintext: &[u8],
) -> (r: Result<(Vec<u8>, [u8; 16]), aes_gcm::Error>)
    requires
        key@.len() == 32,
        aad@.len() <= MAX_AEAD_INPUT,
        plaintext@.len() <= MAX_AEAD_INPUT,
    ensures
        r is Ok,
        r matches Ok(sealed) ==> {
            &&& (sealed.0@, sealed.1@) == xchacha20poly1305_sealed(key@, nonce@, aad@, plaintext@)
            &&& sealed.0@.len() == plaintext@.len()
            &&& xchacha20poly1305_opened(key@, nonce@, aad@, sealed.0@, sealed.1@) == Some(
                plaintext@,
            )
        },
{
    let cipher = XChaCha20Poly1305::new_from_slice(key).expect("a key of 32 octets");
    let mut body = plaintext.to_vec();
    let tag = cipher.encrypt_in_place_detached(nonce.into(), aad, &mut body)?;
    Ok((body, tag.into()))
}

/// `XChaCha20Poly1305::decrypt_in_place_detached`: a success means that encrypting
/// the plaintext gives this ciphertext and tag.
#[verifier::external_body]
pub(crate) fn xchacha20poly1305_decrypt(
    key: &[u8],
    nonce: &[u8; 24],
    aad: &[u8],
    ciphertext: &[u8],
    tag: &[u8; 16],
) -> (r: Result<Vec<u8>, aes_gcm::Error>)
    requires
        key@.len() == 32,
        aad@.len() <= MAX_AEAD_INPUT,
        ciphertext@.len() <= MAX_AEAD_INPUT,
    ensures
        match r {
            Ok(plaintext) => {
                &&& xchacha20poly1305_opened(key@, nonce@, aad@, ciphertext@, tag@) == Some(
                    plaintext@,
                )
                &&& plaintext@.len() == ciphertext@.len()
                &&& xchacha20poly1305_sealed(key@, nonce@, aad@, plaintext@) == (ciphertext@, tag@)
            },
            Err(_) => xchacha20poly1305_opened(key@, nonce@, aad@, ciphertext@, tag@) is None,
        },
{
    let cipher = XChaCha20Poly1305::new_from_slice(key).expect("a key of 32 octets");
    let mut body = ciphertext.to_vec();
    cipher.decrypt_in_place_detached(nonce.into(), aad, &mut body, tag.into())?;
    Ok(body)
}

/// `Aes128Gcm::encrypt_in_place_detached`: succeeds on inputs of these sizes, keeps
/// the length, and gives what decryption under the same key, nonce and associated
/// data turns back into the plaintext.
#[verifier::external_body]
pub(crate) fn aes128gcm_encrypt(
    key: &[u8],
    nonce: &[u8; 12],
    aad: &[u8],
    plaintext: &[u8],
) -> (r: Result<(Vec<u8>, [u8; 16]), aes_gcm::Error>)
    requires
        key@.len() == 16,
        aad@.len() <= MAX_AEAD_INPUT,
        plaintext@.len() <= MAX_AEAD_INPUT,
    ensures
        r is Ok,
        r matches Ok(sealed) ==> {
            &&& (sealed.0@, sealed.1@) == aes128gcm_sealed(key@, nonce@, aad@, plaintext@)
            &&& sealed.0@.len() == plaintext@.len()
            &&& aes128gcm_opened(key@, nonce@, aad@, sealed.0@, sealed.1@) == Some(plaintext@)
        },
{
    let cipher = Aes128Gcm::new_from_slice(key).expect("a key of 16 octets");
    let mut body = plaintext.to_vec();
    let tag = cipher.encrypt_in_place_detached(nonce.into(), aad, &mut body)?;
    Ok((body, tag.into()))
}

/// `Aes128Gcm::decrypt_in_place_detached`: a success means that encrypting the
/// plaintext gives this ciphertext and tag.
#[verifier::external_body]
pub(crate) fn aes128gcm_decrypt(
    key: &[u8],
    nonce: &[u8; 12],
    aad: &[u8],
    ciphertext: &[u8],
    tag: &[u8; 16],
) -> (r: Result<Vec<u8>, aes_gcm::Error>)
    requires
        key@.len() == 16,
        aad@.len() <= MAX_AEAD_INPUT,
        ciphertext@.len() <= MAX_AEAD_INPUT,
    ensures
        match r {
            Ok(plaintext) => {
                &&& aes128gcm_opened(key@, nonce@, aad@, ciphertext@, tag@) == Some(plaintext@)
                &&& plaintext@.len() == ciphertext@.len()
                &&& aes128gcm_sealed(key@, nonce@, aad@, plaintext@) == (ciphertext@, tag@)
            },
            Err(_) => aes128gcm_opened(key@, nonce@, aad@, ciphertext@, tag@) is None,
        },
{
    let cipher = Aes128Gcm::new_from_slice(key).expect("a key of 16 octets");
    let mut body = ciphertext.to_vec();
    cipher.decrypt_in_place_detached(nonce.into(), aad, &mut body, tag.into())?;
    Ok(body)
}

/// `Aes256Gcm::encrypt_in_place_detached`: succeeds on inputs of these sizes, keeps
/// the length, and gives what decryption under the same key, nonce and associated
/// data turns back into the plaintext.
#[verifier::external_body]
pub(crate) fn aes256gcm_encrypt(
    key: &[u8],
    nonce: &[u8; 12],
    aad: &[u8],
    plaintext: &[u8],
) -> (r: Result<(Vec<u8>, [u8; 16]), aes_gcm::Error>)
    requires
        key@.len() == 32,
        aad@.len() <= MAX_AEAD_INPUT,
        plaintext@.len() <= MAX_AEAD_INPUT,
    ensures
        r is Ok,
        r matches Ok(sealed) ==> {
            &&& (sealed.0@, sealed.1@) == aes256gcm_sealed(key@, nonce@, aad@, plaintext@)
            &&& sealed.0@.len() == plaintext@.len()
            &&& aes256gcm_opened(key@, nonce@, aad@, sealed.0@, sealed.1@) == Some(plaintext@)
        },
{
    let cipher = Aes256Gcm::new_from_slice(key).expect("a key of 32 octets");
    let mut body = plaintext.to_vec();
    let tag = cipher.encrypt_in_place_detached(nonce.into(), aad, &mut body)?;
    Ok((body, tag.into()))
}

/// `Aes256Gcm::decrypt_in_place_detached`: a success means that encrypting the
/// plaintext gives this ciphertext and tag.
#[verifier::external_body]
pub(crate) fn aes256gcm_decrypt(
    key: &[u8],
    nonce: &[u8; 12],
    aad: &[u8],
    ciphertext: &[u8],
    tag: &[u8; 16],
) -> (r: Result<Vec<u8>, aes_gcm::Error>)
    requires
        key@.len() == 32,
        aad@.len() <= MAX_AEAD_INPUT,
        ciphertext@.len() <= MAX_AEAD_INPUT,
    ensures
        match r {
            Ok(plaintext) => {
                &&& aes256gcm_opened(key@, nonce@, aad@, ciphertext@, tag@) == Some(plaintext@)
                &&& plaintext@.len() == ciphertext@.len()
                &&& aes256gcm_sealed(key@, nonce@, aad@, plaintext@) == (ciphertext@, tag@)
            },
            Err(_) => aes256gcm_opened(key@, nonce@, aad@, ciphertext@, tag@) is None,
        },
{
    let cipher = Aes256Gcm::new_from_slice(key).expect("a key of 32 octets");
    let mut body = ciphertext.to_vec();
    cipher.decrypt_in_place_detached(nonce.into(), aad, &mut body, tag.into())?;
    Ok(body)
}

} // verus!
