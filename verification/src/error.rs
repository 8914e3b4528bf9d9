//! The one way in which decoding fails.

use vstd::prelude::*;

verus! {

/// Why a text could not be decoded.
#[derive(Clone, Copy, Debug, PartialEq, Eq, Structural)]
pub enum DecodeError {
    /// A byte outside `0-9`, `A-F` and `a-f` stands among the digits.
    InvalidCharacter,
}

} // verus!
