//! Strongly typed identifiers.

use vstd::prelude::*;

use crate::bytes;
use crate::bytes::{be_vec, take_array};
use crate::table::Key;

verus! {

/// Host-assigned transport route identifier. It is routing metadata, not an
/// authenticated identity.
#[derive(Clone, Copy, Debug, Eq, Hash, Ord, PartialEq, PartialOrd, Structural)]
pub struct PeerId {
    value: u64,
}

impl PeerId {
    pub closed spec fn number(self) -> u64 {
        self.value
    }

    /// The identifier with a given number.
    pub closed spec fn from_number(value: u64) -> Self {
        PeerId { value }
    }

    pub fn new(value: u64) -> (r: Self)
        ensures
            r == Self::from_number(value),
            r.number() == value,
    {
        PeerId { value }
    }

    pub fn get(self) -> (r: u64)
        ensures
            r == self.number(),
    {
        self.value
    }

    /// An identifier is its number.
    pub proof fn number_identifies(id: PeerId, value: u64)
        ensures
            Self::from_number(value).number() == value,
            Self::from_number(id.number()) == id,
    {
    }
}

/// Random stable logical conversation identifier exposed to embedding hosts.
/// It is never zero.
#[derive(Clone, Copy, Debug, Eq, Hash, Ord, PartialEq, PartialOrd, Structural)]
pub struct ConversationId {
    value: u32,
}

impl ConversationId {
    pub closed spec fn number(self) -> u32 {
        self.value
    }

    /// The identifier with a given number.
    pub closed spec fn from_number(value: u32) -> Self {
        ConversationId { value }
    }

    #[verifier::type_invariant]
    spec fn not_zero(self) -> bool {
        self.value != 0
    }

    pub fn new(value: u32) -> (r: Option<Self>)
        ensures
            r == if value == 0 {
                None::<Self>
            } else {
                Some(Self::from_number(value))
            },
            r matches Some(id) ==> id.number() == value,
    {
        if value == 0 {
            None
        } else {
            Some(ConversationId { value })
        }
    }

    pub fn get(self) -> (r: u32)
        ensures
            r == self.number(),
            r != 0,
    {
        proof {
            use_type_invariant(&self);
        }
        self.value
    }

    /// An identifier is its number.
    pub proof fn number_identifies(id: ConversationId, value: u32)
        ensures
            Self::from_number(value).number() == value,
            Self::from_number(id.number()) == id,
    {
    }
}

/// Non-zero conversation routing handle scoped to one authenticated session.
#[derive(Clone, Copy, Debug, Eq, Hash, Ord, PartialEq, PartialOrd, Structural)]
pub struct ConversationHandle {
    value: u32,
}

impl ConversationHandle {
    pub closed spec fn number(self) -> u32 {
        self.value
    }

    #[verifier::type_invariant]
    spec fn not_zero(self) -> bool {
        self.value != 0
    }

    pub fn new(value: u32) -> (r: Option<Self>)
        ensures
            r is Some == (value != 0),
            r matches Some(handle) ==> handle.number() == value,
    {
        if value == 0 {
            None
        } else {
            Some(ConversationHandle { value })
        }
    }

    pub fn get(self) -> (r: u32)
        ensures
            r == self.number(),
            r != 0,
    {
        proof {
            use_type_invariant(&self);
        }
        self.value
    }
}

/// Random logical session identifier. It is routing metadata, not a secret.
#[derive(Clone, Copy, Debug, Eq, Hash, Ord, PartialEq, PartialOrd, Structural)]
pub struct SessionId {
    value: u64,
}

impl SessionId {
    pub closed spec fn number(self) -> u64 {
        self.value
    }

    /// The identifier with a given number.
    pub closed spec fn from_number(value: u64) -> Self {
        SessionId { value }
    }

    pub fn from_u64(value: u64) -> (r: Self)
        ensures
            r == Self::from_number(value),
            r.number() == value,
    {
        SessionId { value }
    }

    pub fn get(self) -> (r: u64)
        ensures
            r == self.number(),
    {
        self.value
    }

    pub fn to_be_bytes(self) -> (r: [u8; 8])
        ensures
            r@ == bytes::be_bytes(self.number() as nat, 8),
    {
        let octets: Vec<u8> = be_vec(self.value, 8);
        assert(octets@.subrange(0, 8) =~= octets@);
        take_array::<8>(octets.as_slice(), 0)
    }

    /// An identifier is its number.
    pub proof fn number_identifies(id: SessionId, value: u64)
        ensures
            Self::from_number(value).number() == value,
            Self::from_number(id.number()) == id,
    {
    }
}

impl View for PeerId {
    type V = PeerId;

    open spec fn view(&self) -> PeerId {
        *self
    }
}

impl Key for PeerId {
    fn same(&self, other: &Self) -> (r: bool) {
        *self == *other
    }
}

impl Key for ConversationId {
    fn same(&self, other: &Self) -> (r: bool) {
        *self == *other
    }
}

impl Key for SessionId {
    fn same(&self, other: &Self) -> (r: bool) {
        *self == *other
    }
}

} // verus!
