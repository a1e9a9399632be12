//! The errors that end a handshake attempt. None is recovered from at this
//! layer: a caller that wants to try again reconnects.

use vstd::prelude::*;

verus! {

/// A wire record or a read over its payload that breaks the packet format.
#[derive(Debug, Clone, Copy, PartialEq, Eq, Structural)]
pub enum FramingError {
    /// The length field is below the minimum or above the ceiling.
    InvalidLength,
    /// The stream closed before the whole record had arrived.
    Truncated,
    /// The padding, with its length byte, does not fit in the record.
    InvalidPadding,
    /// The payload has no byte to hold a message type.
    EmptyPayload,
    /// A read would pass the end of the payload.
    OutOfBounds,
    /// A string's body is not valid UTF-8.
    Encoding,
}

/// The first message is well framed but is not the one the handshake acts on.
#[derive(Debug, Clone, Copy, PartialEq, Eq, Structural)]
pub enum DispatchError {
    /// A message type of the protocol other than the algorithm negotiation.
    UnhandledMessage(u8),
    /// A tag that names no message type known to this layer.
    UnknownMessage(u8),
}

/// The connection could not be brought to the point of a decoded first packet.
#[derive(Debug, Clone, Copy, PartialEq, Eq, Structural)]
pub enum ConnectError {
    /// The transport could not be opened, or a write or flush on it failed.
    Unreachable,
    /// The peer closed the stream where a line or a packet was to begin.
    Closed,
    /// The peer's line, the first packet or its payload breaks the format.
    Protocol(FramingError),
}

/// The cause with which a handshake attempt ended.
#[derive(Debug, Clone, Copy, PartialEq, Eq, Structural)]
pub enum HandshakeError {
    /// The connection, or the first packet on it, failed.
    Connect(ConnectError),
    /// The first packet holds a message that the handshake does not act on.
    Dispatch(DispatchError),
}

} // verus!
