//! The failures that end a connection.

use vstd::prelude::*;

verus! {

/// A failure on the receiving side that cannot be recovered from. The peer
/// is broken or hostile, and the connection has to be dropped: the cipher
/// has consumed the bytes already.
#[derive(Clone, Copy, Debug, PartialEq, Eq, Structural)]
pub enum FatalError {
    /// A VarInt was malformed, a length was negative or over the cap, or
    /// compressed data did not inflate to the announced size.
    MalformedFrame,
    /// No packet is registered for the id in the current stage and
    /// direction.
    UnknownPacket,
    /// The payload of a packet could not be parsed, or a handshake asked for
    /// a state that does not exist.
    MalformedPayload,
}

/// The largest length that a frame, or the inflated body of one, may
/// announce: 2 MiB.
pub const MAX_PACKET_LENGTH: usize = 2_097_152;

} // verus!
