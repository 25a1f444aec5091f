//! Key material that is wiped from memory when it is no longer needed.

use vstd::prelude::*;
use zeroize::{Zeroize, Zeroizing};

use crate::error::ConfigError;
use crate::text;
use crate::text::{decimal, join};

verus! {

pub const MIN_PSK_LENGTH: usize = 32;

pub const MAX_PSK_LENGTH: usize = 1024;

/// Secret octets in a `zeroize::Zeroizing<Vec<u8>>`, which overwrites them when
/// it is dropped. What the memory holds afterwards is not stated.
#[verifier::external_body]
pub struct SecretBytes {
    octets: Zeroizing<Vec<u8>>,
}

/// What a [`SecretBytes`] holds.
pub uninterp spec fn secret_contents(secret: SecretBytes) -> Seq<u8>;

impl View for SecretBytes {
    type V = Seq<u8>;

    open spec fn view(&self) -> Seq<u8> {
        secret_contents(*self)
    }
}

impl SecretBytes {
    /// `zeroize::Zeroizing::new`: the container holds the vector it was given.
    #[verifier::external_body]
    pub(crate) fn new(octets: Vec<u8>) -> (r: Self)
        ensures
            secret_contents(r) == octets@,
    {
        SecretBytes { octets: Zeroizing::new(octets) }
    }

    /// `Zeroizing`'s `Deref`: the octets that the container holds.
    #[verifier::external_body]
    fn exposed(&self) -> (r: &[u8])
        ensures
            r@ == secret_contents(*self),
    {
        self.octets.as_slice()
    }

    pub fn as_slice(&self) -> (r: &[u8])
        ensures
            r@ == self@,
    {
        self.exposed()
    }

    /// `std::mem::take` through `Zeroizing`'s `DerefMut`: the octets move out and
    /// an empty vector stays behind.
    #[verifier::external_body]
    pub(crate) fn take(&mut self) -> (r: Vec<u8>)
        ensures
            r@ == secret_contents(*old(self)),
            secret_contents(*final(self)) == Seq::<u8>::empty(),
    {
        std::mem::take(&mut *self.octets)
    }
}

/// `zeroize::Zeroize::zeroize` of a `Vec<u8>`: every octet is overwritten and the
/// vector is left empty. What the memory holds afterwards is not stated.
#[verifier::external_body]
pub(crate) fn wipe(octets: &mut Vec<u8>)
    ensures
        final(octets)@ == Seq::<u8>::empty(),
{
    octets.zeroize();
}

/// Owned pre-shared key material that is zeroized when dropped.
pub struct Psk {
    material: SecretBytes,
}

impl View for Psk {
    type V = Seq<u8>;

    closed spec fn view(&self) -> Seq<u8> {
        self.material@
    }
}

/// Why key material of a given length is refused, if it is.
pub open spec fn psk_fault(length: nat) -> Option<ConfigError> {
    if length < MIN_PSK_LENGTH {
        Some(ConfigError::PskTooShort { minimum: MIN_PSK_LENGTH, actual: length as usize })
    } else if length > MAX_PSK_LENGTH {
        Some(ConfigError::PskTooLong { maximum: MAX_PSK_LENGTH })
    } else {
        None
    }
}

/// Key material is taken exactly where it has from 32 to 1024 octets.
pub proof fn law_key_material_is_long_enough(length: nat)
    ensures
        psk_fault(length) is None <==> 32 <= length <= 1024,
{
}

impl Psk {
    pub fn new(bytes: Vec<u8>) -> (r: Result<Self, ConfigError>)
        ensures
            match r {
                Ok(psk) => psk_fault(bytes@.len()) is None && psk@ == bytes@,
                Err(error) => psk_fault(bytes@.len()) == Some(error),
            },
    {
        if bytes.len() < MIN_PSK_LENGTH {
            return Err(
                ConfigError::PskTooShort { minimum: MIN_PSK_LENGTH, actual: bytes.len() },
            );
        }
        if bytes.len() > MAX_PSK_LENGTH {
            return Err(ConfigError::PskTooLong { maximum: MAX_PSK_LENGTH });
        }
        Ok(Psk { material: SecretBytes::new(bytes) })
    }

    pub fn len(&self) -> (r: usize)
        ensures
            r == self@.len(),
    {
        self.material.as_slice().len()
    }

    pub fn is_empty(&self) -> (r: bool)
        ensures
            r == (self@.len() == 0),
    {
        self.material.as_slice().len() == 0
    }

    /// Exposes the key octets for deriving protocol keys.
    pub fn as_bytes(&self) -> (r: &[u8])
        ensures
            r@ == self@,
    {
        self.material.as_slice()
    }

    /// A description for logs. It tells the length and nothing of the material.
    pub fn describe(&self) -> (r: String)
        ensures
            r@ == "Psk { length: "@ + text::decimal_digits(self@.len())
                + ", material: \"[REDACTED]\" }"@,
    {
        let digits: String = decimal(self.len() as u64);
        let head: String = join("Psk { length: ", digits.as_str());
        join(head.as_str(), ", material: \"[REDACTED]\" }")
    }
}

} // verus!
