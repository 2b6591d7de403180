//! The error taxonomy shared by every component.

use vstd::prelude::*;

verus! {

/// Why a wire-format message was rejected.
#[derive(Clone, Copy, Debug, PartialEq, Eq, Structural)]
pub enum DecodeError {
    /// A field, a name or a record body runs past the end of the buffer.
    Truncated,
    /// A section count in the header disagrees with the records present.
    CountMismatch,
    /// A compression pointer points forward, at itself, or the chain of
    /// pointers is longer than the configured bound.
    BadPointer,
    /// A record of the requested type has a class other than IN.
    UnsupportedClass,
    /// A label has a reserved type, or the name is longer than 255 bytes.
    BadName,
    /// The body of a record does not have the shape its type requires.
    BadRdata,
}

/// Why a name or an option was refused before anything was sent.
#[derive(Clone, Copy, Debug, PartialEq, Eq, Structural)]
pub enum ConfigError {
    /// A label is empty or longer than 63 bytes.
    BadLabel,
    /// The encoded name is longer than 255 bytes.
    NameTooLong,
    /// The channel has no nameserver to send to.
    NoServers,
    /// The retry count is zero.
    NoTries,
    /// Every transaction id is taken by an outstanding query.
    NoFreeId,
    /// The local address could not be bound.
    BindFailed,
}

/// Why a socket operation failed for good.
#[derive(Clone, Copy, Debug, PartialEq, Eq, Structural)]
pub enum TransportError {
    /// The peer refused the connection.
    ConnectionRefused,
    /// The peer closed the stream in the middle of an exchange.
    Closed,
    /// Any other failure reported by the operating system.
    Io,
}

/// The error a query's completion handler can receive.
#[derive(Clone, Copy, Debug, PartialEq, Eq, Structural)]
pub enum AresError {
    /// An option or a name was invalid.
    Config(ConfigError),
    /// A socket failed and no retry was left.
    Transport(TransportError),
    /// The response could not be decoded.
    Decode(DecodeError),
    /// The retry budget ran out without a valid response.
    Timeout,
    /// The channel was torn down while the query was pending.
    Cancelled,
}

} // verus!
