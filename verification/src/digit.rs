//! Single hexadecimal digits.

use vstd::prelude::*;

use crate::error::DecodeError;

verus! {

/// Whether `byte` is the ASCII code of a hexadecimal digit, in either case.
pub open spec fn is_hex_digit(byte: u8) -> bool {
    ||| 0x30 <= byte <= 0x39
    ||| 0x41 <= byte <= 0x46
    ||| 0x61 <= byte <= 0x66
}

/// The value, from 0 to 15, of the hexadecimal digit with ASCII code `byte`.
///
/// Only meaningful where `is_hex_digit(byte)` holds.
pub open spec fn digit_value(byte: u8) -> u8
    recommends
        is_hex_digit(byte),
{
    if 0x30 <= byte <= 0x39 {
        (byte - 0x30) as u8
    } else if 0x41 <= byte <= 0x46 {
        (byte - 0x41 + 10) as u8
    } else {
        (byte - 0x61 + 10) as u8
    }
}

/// Every digit value is a nibble.
pub proof fn lemma_digit_value_is_nibble(byte: u8)
    requires
        is_hex_digit(byte),
    ensures
        digit_value(byte) < 16,
{
}

/// Converts one ASCII byte to the nibble it stands for.
///
/// Succeeds exactly on the twenty-two hexadecimal digit characters.
pub fn hex(byte: u8) -> (r: Result<u8, DecodeError>)
    ensures
        is_hex_digit(byte) ==> r == Ok::<u8, DecodeError>(digit_value(byte)),
        !is_hex_digit(byte) ==> r == Err::<u8, DecodeError>(DecodeError::InvalidCharacter),
{
    if byte >= 0x30 && byte <= 0x39 {
        return Ok(byte - 0x30);
    }
    if byte >= 0x41 && byte <= 0x46 {
        return Ok(byte - 0x41 + 0xa);
    }
    if byte >= 0x61 && byte <= 0x66 {
        return Ok(byte - 0x61 + 0xa);
    }
    Err(DecodeError::InvalidCharacter)
}

} // verus!
