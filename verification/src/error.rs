//! The error taxonomy: malformed input on the decode side, capacity and
//! representation failures on the encode side. "Not enough bytes yet" is not
//! an error; it is reported through [`crate::status::Status::Partial`].

use vstd::prelude::*;

verus! {

/// A decode failure: the input bytes can never form a valid packet, no
/// matter how many more bytes arrive. The stream should be considered
/// desynchronized.
#[derive(Clone, Copy, PartialEq, Eq, Structural, Debug)]
pub enum DecodeError {
    /// The packet type nibble of the fixed header is not a defined type.
    PacketType,
    /// The remaining-length integer would need a fifth encoding byte.
    RemainingLength,
    /// A string field holds bytes that are not valid UTF-8.
    Utf8,
    /// The declared remaining length does not cover the variable header and
    /// payload that follow it.
    PayloadLength,
}

/// An encode failure. Encoding is not incremental: the destination is
/// supplied whole and up front, so a shortfall is an error, never a partial
/// result.
#[derive(Clone, Copy, PartialEq, Eq, Structural, Debug)]
pub enum EncodeError {
    /// The destination buffer is smaller than the computed total length.
    OutOfSpace,
    /// A value exceeds what its wire representation can hold, such as a
    /// string longer than 65535 bytes or a remaining length above the
    /// four-byte maximum.
    ValueTooBig,
}

} // verus!
