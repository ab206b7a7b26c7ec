//! Error kinds surfaced by the protocol engine.

use vstd::prelude::*;

verus! {

/// Everything that can go wrong during a query session.
///
/// `TransportError` and `SinkClosed` are raised by the caller that drives
/// the socket and the result channel; the engine itself raises the other
/// kinds while decoding.
#[derive(Debug, PartialEq, Eq, Structural, Clone, Copy)]
pub enum ProtocolError {
    /// The underlying send or receive failed.
    TransportError,
    /// A response datagram did not begin with the fixed header sentinel.
    HeaderMismatch,
    /// A buffer ran out of bytes where the wire format required more.
    UnexpectedEof,
    /// A response datagram was too large for the protocol's bounded buffer.
    MalformedResponse,
    /// A region byte outside the nine recognized codes.
    InvalidCode,
    /// The consumer of the result channel has gone away.
    SinkClosed,
}

} // verus!
