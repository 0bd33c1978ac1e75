use vstd::prelude::*;

verus! {

/// What made a peer's behaviour illegal.
#[derive(Clone, Copy, Debug, PartialEq, Eq, Structural)]
pub enum Violation {
    /// More bytes than the window allowed, or credit past the window's size.
    WindowOverflow,
    /// Data at an offset other than the next expected one.
    OffsetMismatch,
    /// Data or a finish after the stream's end was already fixed.
    DataAfterFinish,
    /// A frame naming a stream that this side should have opened but has not.
    UnknownStream,
    /// Bytes that do not form a frame.
    MalformedFrame,
}

/// Failures surfaced by the transport.
#[derive(Clone, Copy, Debug, PartialEq, Eq, Structural)]
pub enum TransportError {
    HandshakeFailed,
    TrustRejected,
    /// The connection was closed with `reason`.
    ConnectionClosed { reason: u64 },
    /// No stream with the given id exists on this connection.
    NoSuchStream,
    /// A write after the writer finished the stream.
    StreamFinished,
    StreamReset { reason: u64 },
    ProtocolViolation { detail: Violation },
}

} // verus!
