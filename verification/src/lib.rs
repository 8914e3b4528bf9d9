//! Lenient decoding of hexadecimal text into minimal big-endian bytes.
//!
//! The text may carry a `0x` marker, may have an odd number of digits and may
//! start with any number of zero digits. It is read as one unsigned integer
//! literal, and the bytes that come out are that integer in big-endian order
//! with no zero byte in front. The integer zero comes out as no bytes at all.

pub mod decoder;
pub mod digit;
pub mod error;
pub mod laws;
pub mod nibbles;
pub mod pack;
pub mod prefix;
pub mod value;

pub use decoder::decode;
pub use digit::hex;
pub use error::DecodeError;
pub use prefix::strip_preamble;
