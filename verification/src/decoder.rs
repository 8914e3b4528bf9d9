//! Decoding a whole text.

use vstd::prelude::*;

use crate::error::DecodeError;
use crate::nibbles::{
    all_hex_digits, digit_values, lemma_digit_values_are_nibbles, lemma_without_leading_zeros,
    strip_leading_zeros, to_nibbles, without_leading_zeros,
};
use crate::pack::{pack, packed};
use crate::prefix::{strip_preamble, without_preamble};
use crate::value::{
    bytes_value, is_minimal, lemma_leading_zeros_keep_value, lemma_minimal_bytes,
    lemma_minimal_is_unique, lemma_packing_keeps_minimal, lemma_packing_keeps_value,
    minimal_bytes, nibbles_value,
};

verus! {

/// Whether `input` can be decoded: whether all that follows its optional `0x`
/// marker is hexadecimal digits.
pub open spec fn is_decodable(input: Seq<u8>) -> bool {
    all_hex_digits(without_preamble(input))
}

/// The bytes that a decodable `input` stands for: its digits, without the
/// zeros in front, packed two to a byte.
pub open spec fn decoded(input: Seq<u8>) -> Seq<u8>
    recommends
        is_decodable(input),
{
    packed(without_leading_zeros(digit_values(without_preamble(input))))
}

/// The integer that the text `input` writes: the value of its digits, the
/// optional `0x` marker left aside.
pub open spec fn written_value(input: Seq<u8>) -> nat
    recommends
        is_decodable(input),
{
    nibbles_value(digit_values(without_preamble(input)))
}

/// What decoding `input` gives: the bytes, or the reason why there are none.
pub open spec fn decode_result(input: Seq<u8>) -> Result<Seq<u8>, DecodeError> {
    if is_decodable(input) {
        Ok(decoded(input))
    } else {
        Err(DecodeError::InvalidCharacter)
    }
}

/// The bytes that a text decodes to are the minimal big-endian bytes of the
/// integer that it writes.
pub proof fn lemma_decoded_is_minimal_bytes(input: Seq<u8>)
    requires
        is_decodable(input),
    ensures
        decoded(input) == minimal_bytes(written_value(input)),
        bytes_value(decoded(input)) == written_value(input),
        is_minimal(decoded(input)),
{
    let nibbles = digit_values(without_preamble(input));
    lemma_digit_values_are_nibbles(without_preamble(input));
    lemma_without_leading_zeros(nibbles);
    lemma_leading_zeros_keep_value(nibbles);
    lemma_packing_keeps_value(without_leading_zeros(nibbles));
    lemma_packing_keeps_minimal(without_leading_zeros(nibbles));
    lemma_minimal_bytes(written_value(input));
    lemma_minimal_is_unique(decoded(input), minimal_bytes(written_value(input)));
}

/// What a text decodes to depends on the integer that it writes and on
/// nothing else.
pub proof fn lemma_same_value_same_bytes(a: Seq<u8>, b: Seq<u8>)
    requires
        is_decodable(a),
        is_decodable(b),
    ensures
        written_value(a) == written_value(b) <==> decode_result(a) == decode_result(b),
{
    lemma_decoded_is_minimal_bytes(a);
    lemma_decoded_is_minimal_bytes(b);
}

/// Decodes hexadecimal text into the minimal big-endian bytes of the integer
/// that it writes.
///
/// A `0x` in front is skipped, zeros in front of the digits are ignored, and
/// an odd number of digits is read as if one more zero stood in front. Text
/// that writes zero, the empty text among them, decodes to no bytes. A byte
/// that is no hexadecimal digit makes the whole call fail.
pub fn decode(input: &[u8]) -> (r: Result<Vec<u8>, DecodeError>)
    ensures
        match r {
            Ok(bytes) => decode_result(input@) == Ok::<Seq<u8>, DecodeError>(bytes@),
            Err(e) => decode_result(input@) == Err::<Seq<u8>, DecodeError>(e),
        },
        r matches Ok(bytes) ==> bytes@ == minimal_bytes(written_value(input@)),
        input@.len() == 0 ==> (r matches Ok(bytes) && bytes@.len() == 0),
{
    proof {
        if is_decodable(input@) {
            lemma_decoded_is_minimal_bytes(input@);
        }
    }
    if input.is_empty() {
        assert(decoded(input@) =~= Seq::<u8>::empty());
        return Ok(Vec::new());
    }
    let digits = strip_preamble(input);
    match to_nibbles(digits) {
        Ok(nibbles) => {
            let rest = strip_leading_zeros(nibbles.as_slice());
            Ok(pack(rest))
        },
        Err(e) => Err(e),
    }
}

} // verus!
