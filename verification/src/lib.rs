//! A user-space IPv6/TCP network stack driven by a software network
//! interface: a packet-level device, a protocol engine that turns inbound
//! and outbound packet buffers into connection state transitions, and a
//! socket layer exposing connect/listen/send/receive/close semantics
//! without any kernel networking support. The caller decides when time
//! advances and when packets arrive.

use vstd::prelude::*;

pub mod addr;
pub mod device;
pub mod packet;
pub mod intf;
pub mod laws;
pub mod socket;

verus! {

/// Error returned when an interface is configured with a malformed or
/// out-of-range address, prefix length or netmask bit pattern.
#[derive(Clone, Copy, PartialEq, Eq, Structural, Debug)]
pub enum AddressError {
    /// The prefix length is larger than the 128 bits of an IPv6 address.
    PrefixTooLong,
    /// The netmask is not a contiguous run of high-order set bits.
    NonContiguousMask,
}

/// Error returned by `connect` when a connection cannot be opened.
#[derive(Clone, Copy, PartialEq, Eq, Structural, Debug)]
pub enum ConnectError {
    /// The socket registry cannot hold another connection.
    RegistryFull,
    /// The requested remote port is zero.
    BadPort,
}

/// Error returned by `listen` when a listening socket cannot be bound.
#[derive(Clone, Copy, PartialEq, Eq, Structural, Debug)]
pub enum ListenError {
    /// The socket registry cannot hold another connection.
    RegistryFull,
    /// The requested local port is zero.
    BadPort,
}

/// Error returned by `send` when the connection cannot take bytes.
#[derive(Clone, Copy, PartialEq, Eq, Structural, Debug)]
pub enum SendError {
    /// The connection is not in a state that permits sending.
    InvalidState,
    /// The handle does not name a live connection.
    BadHandle,
}

/// Error returned by `recv` when the connection cannot be read.
#[derive(Clone, Copy, PartialEq, Eq, Structural, Debug)]
pub enum RecvError {
    /// The connection is not in a state that permits reading.
    InvalidState,
    /// The peer closed its side and every received byte was already read.
    Finished,
    /// The handle does not name a live connection.
    BadHandle,
}

} // verus!
