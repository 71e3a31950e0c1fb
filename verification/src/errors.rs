use vstd::prelude::*;

verus! {

/// Every failure the wire-protocol engine reports, one variant per stage,
/// so a caller can tell a failed handshake from a session that died mid-stream.
#[derive(Debug, Clone, Copy, PartialEq, Eq, Structural)]
pub enum WireError {
    /// The four opcode bits held a value outside the closed enumeration.
    InvalidOpcode(u8),
    /// The buffer ended before a complete frame.
    FrameTruncated,
    /// The declared payload length does not fit in this machine's `usize`.
    FrameTooLong,
    /// A frame arriving from the server had its mask bit set.
    MaskedFrame,
    /// A frame with `fin = false` arrived; fragmented messages are unsupported.
    FragmentedFrame,
    /// A frame payload was not valid JSON.
    PayloadNotJson,
    /// The response head was still incomplete at its terminator.
    HeaderIncomplete,
    /// The response head was not parseable HTTP.
    HeaderMalformed,
    /// The upgrade response carried a status other than 101.
    HandshakeRejected(u16),
    /// The upgrade response carried no Sec-WebSocket-Accept header.
    AcceptMissing,
    /// A Sec-WebSocket-Accept header did not match the expected token.
    AcceptMismatch,
    /// The control-plane response carried a status other than 200.
    EndpointRejected(u16),
    /// The control-plane response declared no content.
    NoContent,
    /// The control-plane response did not declare a JSON content type.
    NotJson,
    /// A Content-Length value was not a decimal number that fits `usize`.
    BadContentLength,
}

} // verus!
