//! What holds of decoding as a whole.

use vstd::prelude::*;

use crate::decoder::{decode_result, decoded, is_decodable};
use crate::digit::{digit_value, is_hex_digit};
use crate::error::DecodeError;
use crate::nibbles::{
    all_hex_digits, digit_values, leading_zeros, lemma_leading_zeros,
    lemma_leading_zeros_unique, without_leading_zeros,
};
use crate::pack::packed;
use crate::prefix::{has_preamble, without_preamble};
use crate::value::{is_minimal, lemma_minimal_bytes, minimal_bytes};

verus! {

/// Whether `text` writes `bytes` with two hexadecimal digits for each byte,
/// the high nibble first. The digits may be of either case.
pub open spec fn encodes(text: Seq<u8>, bytes: Seq<u8>) -> bool {
    &&& text.len() == 2 * bytes.len()
    &&& forall|i: int|
        0 <= i < bytes.len() ==> {
            &&& is_hex_digit(#[trigger] text[2 * i])
            &&& is_hex_digit(text[2 * i + 1])
            &&& 16 * digit_value(text[2 * i]) + digit_value(text[2 * i + 1]) == bytes[i]
        }
}

/// `count` zero digits in a row.
pub open spec fn zero_digits(count: nat) -> Seq<u8> {
    Seq::new(count, |i: int| 0x30u8)
}

/// Text made of hexadecimal digits alone has no `0x` marker.
pub proof fn lemma_digits_have_no_preamble(digits: Seq<u8>)
    requires
        all_hex_digits(digits),
    ensures
        !has_preamble(digits),
        without_preamble(digits) == digits,
        is_decodable(digits),
{
    if digits.len() >= 2 {
        assert(is_hex_digit(digits[1]));
    }
}

/// The marker is transparent: digits decode to the same with `0x` in front
/// of them as without.
pub proof fn lemma_preamble_is_transparent(digits: Seq<u8>)
    requires
        all_hex_digits(digits),
    ensures
        decode_result(seq![0x30u8, 0x78u8] + digits) == decode_result(digits),
{
    let marked = seq![0x30u8, 0x78u8] + digits;
    lemma_digits_have_no_preamble(digits);
    assert(has_preamble(marked));
    assert(without_preamble(marked) =~= digits);
}

/// A zero digit in front changes nothing: digits decode to the same with `0`
/// in front of them as without. In particular, an odd number of digits
/// decodes as the even number that one more zero makes of it.
pub proof fn lemma_leading_zero_is_ignored(digits: Seq<u8>)
    requires
        all_hex_digits(digits),
    ensures
        decode_result(seq![0x30u8] + digits) == decode_result(digits),
{
    let longer = seq![0x30u8] + digits;
    lemma_digits_have_no_preamble(digits);
    assert(all_hex_digits(longer)) by {
        assert forall|i: int| 0 <= i < longer.len() implies is_hex_digit(#[trigger] longer[i]) by {
            if i > 0 {
                assert(longer[i] == digits[i - 1]);
            }
        }
    }
    lemma_digits_have_no_preamble(longer);
    let nibbles = digit_values(digits);
    let more = digit_values(longer);
    assert(more =~= seq![0u8] + nibbles);
    assert(more.skip(1) =~= nibbles);
    lemma_leading_zeros(nibbles);
    assert(without_leading_zeros(more) =~= without_leading_zeros(nibbles));
}

/// Any number of zero digits in front changes nothing.
pub proof fn lemma_leading_zeros_are_ignored(count: nat, digits: Seq<u8>)
    requires
        all_hex_digits(digits),
    ensures
        decode_result(zero_digits(count) + digits) == decode_result(digits),
    decreases count,
{
    if count == 0 {
        assert(zero_digits(count) + digits =~= digits);
    } else {
        let shorter = zero_digits((count - 1) as nat) + digits;
        lemma_leading_zeros_are_ignored((count - 1) as nat, digits);
        assert forall|i: int| 0 <= i < shorter.len() implies is_hex_digit(
            #[trigger] shorter[i],
        ) by {
            if i >= count - 1 {
                assert(shorter[i] == digits[i - (count - 1)]);
            }
        }
        lemma_leading_zero_is_ignored(shorter);
        assert(seq![0x30u8] + shorter =~= zero_digits(count) + digits);
    }
}

/// Text that writes zero decodes to no bytes at all, however many zeros it
/// is made of and with or without the marker.
pub proof fn lemma_zeros_decode_to_nothing(input: Seq<u8>)
    requires
        forall|i: int|
            0 <= i < without_preamble(input).len() ==> without_preamble(input)[i] == 0x30,
    ensures
        decode_result(input) == Ok::<Seq<u8>, DecodeError>(Seq::empty()),
{
    let digits = without_preamble(input);
    let nibbles = digit_values(digits);
    lemma_leading_zeros_unique(nibbles, nibbles.len() as int);
    assert(decoded(input) =~= Seq::<u8>::empty());
}

/// Decoding undoes writing bytes out two digits to the byte, up to the zero
/// bytes in front, which it drops.
pub proof fn lemma_decode_of_encoded_bytes(bytes: Seq<u8>, text: Seq<u8>)
    requires
        encodes(text, bytes),
    ensures
        decode_result(text) == Ok::<Seq<u8>, DecodeError>(without_leading_zeros(bytes)),
{
    assert(all_hex_digits(text)) by {
        assert forall|k: int| 0 <= k < text.len() implies is_hex_digit(#[trigger] text[k]) by {
            let i = k / 2;
            assert(0 <= i < bytes.len());
            assert(is_hex_digit(text[2 * i]) && is_hex_digit(text[2 * i + 1]));
        }
    }
    lemma_digits_have_no_preamble(text);
    let nibbles = digit_values(text);
    let m = bytes.len() as int;
    let z = leading_zeros(bytes) as int;
    lemma_leading_zeros(bytes);
    assert forall|i: int| 0 <= i < m implies nibbles[2 * i] == bytes[i] / 16 && nibbles[2 * i
        + 1] == bytes[i] % 16 by {
        assert(is_hex_digit(text[2 * i]) && is_hex_digit(text[2 * i + 1]));
    }
    let start = if z < m && bytes[z] < 16 {
        2 * z + 1
    } else {
        2 * z
    };
    assert forall|k: int| 0 <= k < start implies nibbles[k] == 0 by {
        let i = k / 2;
        assert(nibbles[2 * i] == bytes[i] / 16 && nibbles[2 * i + 1] == bytes[i] % 16);
    }
    if z < m {
        assert(nibbles[2 * z] == bytes[z] / 16 && nibbles[2 * z + 1] == bytes[z] % 16);
    }
    lemma_leading_zeros_unique(nibbles, start);
    let rest = without_leading_zeros(nibbles);
    let expected = without_leading_zeros(bytes);
    assert(packed(rest).len() == expected.len());
    assert forall|j: int| 0 <= j < expected.len() implies packed(rest)[j] == expected[j] by {
        let i = z + j;
        assert(nibbles[2 * i] == bytes[i] / 16 && nibbles[2 * i + 1] == bytes[i] % 16);
    }
    assert(packed(rest) =~= expected);
}

/// Decoding inverts writing out: bytes without a zero in front, written two
/// digits to the byte, decode to themselves.
pub proof fn lemma_decode_inverts_encoding(bytes: Seq<u8>, text: Seq<u8>)
    requires
        is_minimal(bytes),
        encodes(text, bytes),
    ensures
        decode_result(text) == Ok::<Seq<u8>, DecodeError>(bytes),
{
    lemma_decode_of_encoded_bytes(bytes, text);
    assert(without_leading_zeros(bytes) =~= bytes);
}

/// The round trip of an integer: the minimal big-endian bytes of `n`, written
/// two digits to the byte, decode to themselves.
pub proof fn lemma_decode_inverts_integer_encoding(n: nat, text: Seq<u8>)
    requires
        encodes(text, minimal_bytes(n)),
    ensures
        decode_result(text) == Ok::<Seq<u8>, DecodeError>(minimal_bytes(n)),
{
    lemma_minimal_bytes(n);
    lemma_decode_inverts_encoding(minimal_bytes(n), text);
}

} // verus!
