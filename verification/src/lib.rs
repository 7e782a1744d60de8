//! A variable-length integer (varint) codec.
//!
//! Fixed-width signed and unsigned integers are encoded into a compact byte
//! sequence of 7 payload bits per byte plus a continuation bit, and decoded
//! back with precise overflow detection for the target width. Signed values
//! go through the zigzag transform first, so small magnitudes of either sign
//! stay short on the wire.

pub mod codec;
pub mod model;

pub use codec::VarInt;
pub use codec::zigzag_decode;
pub use codec::zigzag_encode;
