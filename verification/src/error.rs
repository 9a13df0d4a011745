//! Error taxonomy of the proxy core.
//!
//! Every error is fatal to at most one connection; none of them ever reaches the
//! listener that accepted the connection.

use vstd::prelude::*;

verus! {

/// A malformed frame or primitive on the wire.
#[derive(Clone, Copy, Debug, PartialEq, Eq, Structural)]
pub enum FramingError {
    /// A variable-length integer ran past its maximum number of bytes.
    VarIntTooLong,
    /// A packet declared a length of zero.
    EmptyPacket,
    /// The input ended before the value was complete.
    UnexpectedEof,
    /// A string's bytes are not valid UTF-8.
    InvalidUtf8,
    /// A declared length is negative or exceeds the configured maximum.
    LengthTooLarge,
    /// A compressed body is not a valid zlib stream, or inflates past the configured maximum.
    InflateFailed,
}

/// A well-framed packet that the protocol state machine cannot accept.
#[derive(Clone, Copy, Debug, PartialEq, Eq, Structural)]
pub enum ProtocolError {
    /// The packet id is not one the current state accepts.
    InvalidPacketId(i32),
    /// The handshake asked for a next state other than status or login.
    InvalidNextState(i32),
    /// The handshake announced a protocol version that does not fit 16 bits.
    IllegalProtocolVersion(i32),
    /// The payload could not be decoded.
    HandshakeFailed(FramingError),
}

/// The route table holds no entry for the requested virtual host.
#[derive(Clone, Copy, Debug, PartialEq, Eq, Structural)]
pub enum RoutingError {
    NoMatchingRoute,
}

/// The selected upstream could not be reached.
#[derive(Clone, Copy, Debug, PartialEq, Eq, Structural)]
pub enum UpstreamError {
    ConnectFailed,
}

/// The stream cipher cannot continue.
#[derive(Clone, Copy, Debug, PartialEq, Eq, Structural)]
pub enum CryptoError {
    /// The decrypted stream does not frame a packet: the two ends are out of step.
    DecryptFailed,
    /// The cryptor has not been given a shared secret yet.
    NotInitialized,
    /// Encryption was asked for on a connection that is encrypted already.
    AlreadyInitialized,
    /// The server's public key does not decode, or is too short to encrypt under.
    InvalidKey,
    /// Encrypting under the server's public key failed.
    EncryptFailed,
}

/// Why a listener stopped.
#[derive(Clone, Copy, Debug, PartialEq, Eq, Structural)]
pub enum ListenerError {
    /// The listening socket could not be bound.
    BindFailed,
    /// The accept loop ended unexpectedly.
    AcceptFailed,
}

/// Any error of the core, by the part that raised it.
#[derive(Clone, Copy, Debug, PartialEq, Eq, Structural)]
pub enum Error {
    Framing(FramingError),
    Protocol(ProtocolError),
    Routing(RoutingError),
    Upstream(UpstreamError),
    Crypto(CryptoError),
    Listener(ListenerError),
}

} // verus!
