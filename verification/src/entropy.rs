//! Randomness from the operating system.
//!
//! What is drawn here is handed to the protocol as plain values, so that every
//! decision of the protocol is a function of its inputs.

use vstd::prelude::*;

use crate::bytes;
use crate::bytes::{read_be, take_array};
use crate::error::EngineError;
use crate::faketcp::LinuxTransportError;
use crate::id::{ConversationId, SessionId};
use crate::protocol;

verus! {

/// The most octets that are drawn at once.
pub const MAX_DRAW: usize = 64;

/// The error of an unavailable random source.
#[verifier::external_type_specification]
#[verifier::external_body]
pub struct ExRandomError(getrandom::Error);

/// `getrandom::getrandom`: on success the whole buffer was filled. Nothing is
/// said of the octets, which differ from call to call.
#[verifier::external_body]
fn random_octets(count: usize) -> (r: Result<Vec<u8>, getrandom::Error>)
    requires
        count <= MAX_DRAW,
    ensures
        r matches Ok(octets) ==> octets@.len() == count,
{
    let mut octets = vec![0u8; count];
    getrandom::getrandom(&mut octets)?;
    Ok(octets)
}

/// What a draw of `N` octets gives: the octets in their order, or that the random
/// source is unavailable.
pub fn octets_drawn<const N: usize>(drawn: Result<Vec<u8>, getrandom::Error>) -> (r: Result<
    [u8; N],
    EngineError,
>)
    requires
        drawn matches Ok(octets) ==> octets@.len() == N,
    ensures
        match drawn {
            Ok(octets) => r matches Ok(array) && array@ == octets@,
            Err(_) => r == Err::<[u8; N], EngineError>(EngineError::RandomnessUnavailable),
        },
{
    match drawn {
        Ok(octets) => {
            assert(octets@.subrange(0, N as int) =~= octets@);
            Ok(take_array::<N>(octets.as_slice(), 0))
        },
        Err(_) => Err(EngineError::RandomnessUnavailable),
    }
}

/// Draws `N` random octets: what comes back is what [`octets_drawn`] makes of the
/// draw.
pub(crate) fn draw<const N: usize>() -> (r: Result<[u8; N], EngineError>)
    requires
        N <= MAX_DRAW,
    ensures
        r matches Err(error) ==> error == EngineError::RandomnessUnavailable,
{
    octets_drawn::<N>(random_octets(N))
}

/// `Display` of `getrandom::Error`. Nothing is said of the text, which depends on
/// the system.
#[verifier::external_body]
fn random_error_text(error: getrandom::Error) -> (r: String) {
    error.to_string()
}

/// The number that four drawn octets stand for, or the reason why there are none.
pub fn number_drawn(drawn: Result<[u8; 4], String>) -> (r: Result<u32, LinuxTransportError>)
    ensures
        match drawn {
            Ok(octets) => r matches Ok(number) && number == bytes::be_value(octets@),
            Err(reason) => r == Err::<u32, LinuxTransportError>(
                LinuxTransportError::Socket(reason),
            ),
        },
{
    match drawn {
        Ok(octets) => {
            proof {
                bytes::lemma_octet_ranges();
            }
            assert(octets@.subrange(0, 4) =~= octets@);
            Ok(read_be(octets.as_slice(), 0, 4) as u32)
        },
        Err(reason) => Err(LinuxTransportError::Socket(reason)),
    }
}

/// Draws a random number, such as the first sequence number of a path: what comes
/// back is what [`number_drawn`] makes of the draw.
pub fn random_u32() -> (r: Result<u32, LinuxTransportError>)
    ensures
        r matches Err(error) ==> error is Socket,
{
    match random_octets(4) {
        Ok(octets) => number_drawn(Ok(take_array::<4>(octets.as_slice(), 0))),
        Err(error) => number_drawn(Err(random_error_text(error))),
    }
}

impl ConversationId {
    /// The conversation that four drawn octets stand for, where they are not all
    /// zero.
    pub fn from_drawn(octets: [u8; 4]) -> (r: Option<Self>)
        ensures
            r == protocol::conversation_of_number(bytes::be_value(octets@) as u32),
            bytes::be_value(octets@) <= u32::MAX,
    {
        proof {
            bytes::lemma_octet_ranges();
        }
        assert(octets@.subrange(0, 4) =~= octets@);
        let value: u64 = read_be(octets.as_slice(), 0, 4);
        ConversationId::new(value as u32)
    }

    /// Draws until the octets are not all zero.
    pub fn generate() -> (r: Result<Self, EngineError>)
        ensures
            match r {
                Ok(id) => id.number() != 0,
                Err(error) => error == EngineError::RandomnessUnavailable,
            },
    {
        let mut tries: u64 = u64::MAX;
        while tries > 0
            decreases tries,
        {
            match draw::<4>() {
                Ok(octets) => match ConversationId::from_drawn(octets) {
                    Some(id) => {
                        proof {
                            ConversationId::number_identifies(
                                id,
                                bytes::be_value(octets@) as u32,
                            );
                        }
                        return Ok(id);
                    },
                    None => {},
                },
                Err(error) => {
                    return Err(error);
                },
            }
            tries -= 1;
        }
        Err(EngineError::RandomnessUnavailable)
    }
}

impl SessionId {
    /// The session that eight drawn octets stand for.
    pub fn from_drawn(octets: [u8; 8]) -> (r: Self)
        ensures
            r.number() == bytes::be_value(octets@),
    {
        proof {
            bytes::lemma_octet_ranges();
        }
        assert(octets@.subrange(0, 8) =~= octets@);
        SessionId::from_u64(read_be(octets.as_slice(), 0, 8))
    }

    pub fn generate() -> (r: Result<Self, EngineError>)
        ensures
            r matches Err(error) ==> error == EngineError::RandomnessUnavailable,
    {
        match draw::<8>() {
            Ok(octets) => Ok(SessionId::from_drawn(octets)),
            Err(error) => Err(error),
        }
    }
}

} // verus!
