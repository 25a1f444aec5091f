//! Socket addresses as plain numbers.

use vstd::prelude::*;

use crate::table::Key;

verus! {

/// An IPv4 address, read as a big-endian number, and a port.
#[derive(Clone, Copy, Debug, Eq, Hash, PartialEq, Structural)]
pub struct SocketAddressV4 {
    pub ip: u32,
    pub port: u16,
}

/// An IPv6 address, read as a big-endian number, with port, flow information and
/// scope.
#[derive(Clone, Copy, Debug, Eq, Hash, PartialEq, Structural)]
pub struct SocketAddressV6 {
    pub ip: u128,
    pub port: u16,
    pub flow_info: u32,
    pub scope_id: u32,
}

/// The address of a UDP or FakeTCP endpoint.
#[derive(Clone, Copy, Debug, Eq, Hash, PartialEq, Structural)]
pub enum SocketAddress {
    V4(SocketAddressV4),
    V6(SocketAddressV6),
}

impl Key for SocketAddressV4 {
    fn same(&self, other: &Self) -> (r: bool) {
        *self == *other
    }
}

impl Key for SocketAddress {
    fn same(&self, other: &Self) -> (r: bool) {
        *self == *other
    }
}

impl View for SocketAddress {
    type V = SocketAddress;

    open spec fn view(&self) -> SocketAddress {
        *self
    }
}

} // verus!
