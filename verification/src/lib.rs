//! Incremental binary codec for an MQTT-family publish/subscribe wire
//! protocol.
//!
//! Decoding turns a byte buffer into typed packets and reports, via
//! [`status::Status`], either the fully decoded value together with the
//! number of bytes consumed, or the minimum number of additional bytes the
//! caller must supply before retrying. Encoding is the exact mirror and
//! writes the wire bytes into a caller-supplied destination buffer.

pub mod codec;
pub mod error;
pub mod fixed_header;
pub mod laws;
pub mod packet;
pub mod payload;
pub mod status;
pub mod variable_header;
