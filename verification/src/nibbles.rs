//! Sequences of nibbles: reading them from digits and dropping the zeros in
//! front.

use vstd::prelude::*;

use crate::digit::{digit_value, hex, is_hex_digit};
use crate::error::DecodeError;

verus! {

/// Whether every byte of `digits` is a hexadecimal digit.
pub open spec fn all_hex_digits(digits: Seq<u8>) -> bool {
    forall|i: int| 0 <= i < digits.len() ==> is_hex_digit(#[trigger] digits[i])
}

/// The values of the digits of `digits`, one nibble for each, in order.
pub open spec fn digit_values(digits: Seq<u8>) -> Seq<u8> {
    Seq::new(digits.len(), |i: int| digit_value(digits[i]))
}

/// Whether every element of `nibbles` is below 16.
pub open spec fn all_nibbles(nibbles: Seq<u8>) -> bool {
    forall|i: int| 0 <= i < nibbles.len() ==> #[trigger] nibbles[i] < 16
}

/// How many zeros stand at the front of `values`.
pub open spec fn leading_zeros(values: Seq<u8>) -> nat
    decreases values.len(),
{
    if values.len() > 0 && values[0] == 0 {
        1 + leading_zeros(values.skip(1))
    } else {
        0
    }
}

/// `values` from its first nonzero element on; empty where all are zero.
pub open spec fn without_leading_zeros(values: Seq<u8>) -> Seq<u8> {
    values.skip(leading_zeros(values) as int)
}

/// The values of hexadecimal digits are nibbles.
pub proof fn lemma_digit_values_are_nibbles(digits: Seq<u8>)
    requires
        all_hex_digits(digits),
    ensures
        all_nibbles(digit_values(digits)),
{
}

/// `leading_zeros` counts exactly the zeros before the first nonzero element.
pub proof fn lemma_leading_zeros(values: Seq<u8>)
    ensures
        leading_zeros(values) <= values.len(),
        forall|i: int| 0 <= i < leading_zeros(values) ==> values[i] == 0,
        leading_zeros(values) < values.len() ==> values[leading_zeros(values) as int] != 0,
    decreases values.len(),
{
    if values.len() > 0 && values[0] == 0 {
        let rest = values.skip(1);
        lemma_leading_zeros(rest);
        assert forall|i: int| 0 <= i < leading_zeros(values) implies values[i] == 0 by {
            if i > 0 {
                assert(values[i] == rest[i - 1]);
            }
        }
        if leading_zeros(values) < values.len() {
            assert(values[leading_zeros(values) as int] == rest[leading_zeros(rest) as int]);
        }
    }
}

/// A position with only zeros before it and no zero at it is where the
/// leading zeros end.
pub proof fn lemma_leading_zeros_unique(values: Seq<u8>, k: int)
    requires
        0 <= k <= values.len(),
        forall|i: int| 0 <= i < k ==> values[i] == 0,
        k < values.len() ==> values[k] != 0,
    ensures
        leading_zeros(values) == k,
{
    lemma_leading_zeros(values);
    let z = leading_zeros(values) as int;
    if z < k {
        assert(values[z] == 0);
    } else if k < z {
        assert(values[k] == 0);
    }
}

/// What is left of a sequence of nibbles without its leading zeros is a
/// sequence of nibbles that does not start with zero.
pub proof fn lemma_without_leading_zeros(nibbles: Seq<u8>)
    ensures
        all_nibbles(nibbles) ==> all_nibbles(without_leading_zeros(nibbles)),
        without_leading_zeros(nibbles).len() > 0 ==> without_leading_zeros(nibbles)[0] != 0,
{
    lemma_leading_zeros(nibbles);
}

/// Converts every byte of `digits` to the nibble it stands for.
///
/// Fails as soon as a byte is no hexadecimal digit; nothing of the nibbles
/// read so far is handed out then.
pub fn to_nibbles(digits: &[u8]) -> (r: Result<Vec<u8>, DecodeError>)
    ensures
        match r {
            Ok(nibbles) => all_hex_digits(digits@) && nibbles@ == digit_values(digits@),
            Err(e) => !all_hex_digits(digits@) && e == DecodeError::InvalidCharacter,
        },
        r matches Ok(nibbles) ==> all_nibbles(nibbles@),
{
    let mut nibbles: Vec<u8> = Vec::with_capacity(digits.len());
    let mut i: usize = 0;
    while i < digits.len()
        invariant
            i <= digits.len(),
            nibbles.len() == i,
            forall|j: int| 0 <= j < i ==> is_hex_digit(#[trigger] digits@[j]),
            forall|j: int| 0 <= j < i ==> #[trigger] nibbles@[j] == digit_value(digits@[j]),
        decreases digits.len() - i,
    {
        match hex(digits[i]) {
            Ok(nibble) => {
                nibbles.push(nibble);
            },
            Err(e) => {
                assert(!is_hex_digit(digits@[i as int]));
                return Err(e);
            },
        }
        i += 1;
    }
    assert(nibbles@ =~= digit_values(digits@));
    Ok(nibbles)
}

/// Drops the zeros at the front of `nibbles`.
///
/// What is left starts with a nonzero nibble, or is empty where `nibbles`
/// held nothing but zeros.
pub fn strip_leading_zeros(nibbles: &[u8]) -> (rest: &[u8])
    ensures
        rest@ == without_leading_zeros(nibbles@),
        rest@.len() > 0 ==> rest@[0] != 0,
        all_nibbles(nibbles@) ==> all_nibbles(rest@),
{
    let mut k: usize = 0;
    while k < nibbles.len() && nibbles[k] == 0
        invariant
            k <= nibbles.len(),
            forall|i: int| 0 <= i < k ==> nibbles@[i] == 0,
        decreases nibbles.len() - k,
    {
        k += 1;
    }
    proof {
        lemma_leading_zeros_unique(nibbles@, k as int);
        lemma_without_leading_zeros(nibbles@);
    }
    &nibbles[k..nibbles.len()]
}

} // verus!
