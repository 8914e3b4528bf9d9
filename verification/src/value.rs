//! The integer that nibbles and bytes write.
//!
//! Read most significant first, a sequence of nibbles writes an integer in
//! base 16 and a sequence of bytes writes one in base 256. Among the byte
//! sequences that write one integer, exactly one has no zero byte in front.

use vstd::prelude::*;

use crate::nibbles::{all_nibbles, lemma_leading_zeros, without_leading_zeros};
use crate::pack::{lemma_packed_from_the_end, packed};

verus! {

/// The integer that `nibbles` writes in base 16, most significant first.
pub open spec fn nibbles_value(nibbles: Seq<u8>) -> nat
    decreases nibbles.len(),
{
    if nibbles.len() == 0 {
        0
    } else {
        16 * nibbles_value(nibbles.drop_last()) + nibbles.last() as nat
    }
}

/// The integer that `bytes` writes in base 256, most significant first.
pub open spec fn bytes_value(bytes: Seq<u8>) -> nat
    decreases bytes.len(),
{
    if bytes.len() == 0 {
        0
    } else {
        256 * bytes_value(bytes.drop_last()) + bytes.last() as nat
    }
}

/// Whether `bytes` has no zero byte in front.
pub open spec fn is_minimal(bytes: Seq<u8>) -> bool {
    bytes.len() > 0 ==> bytes[0] != 0
}

/// The big-endian bytes of `n` without a zero byte in front; none for zero.
pub open spec fn minimal_bytes(n: nat) -> Seq<u8>
    decreases n,
{
    if n == 0 {
        Seq::empty()
    } else {
        minimal_bytes(n / 256).push((n % 256) as u8)
    }
}

/// A zero in front does not change the integer that nibbles write.
pub proof fn lemma_zero_in_front_keeps_value(nibbles: Seq<u8>)
    ensures
        nibbles_value(seq![0u8] + nibbles) == nibbles_value(nibbles),
    decreases nibbles.len(),
{
    let longer = seq![0u8] + nibbles;
    if nibbles.len() == 0 {
        assert(longer.drop_last() =~= Seq::<u8>::empty());
        assert(nibbles_value(longer.drop_last()) == 0);
    } else {
        lemma_zero_in_front_keeps_value(nibbles.drop_last());
        assert(longer.drop_last() =~= seq![0u8] + nibbles.drop_last());
    }
}

/// Dropping the leading zeros does not change the integer that nibbles write.
pub proof fn lemma_leading_zeros_keep_value(nibbles: Seq<u8>)
    ensures
        nibbles_value(without_leading_zeros(nibbles)) == nibbles_value(nibbles),
    decreases nibbles.len(),
{
    if nibbles.len() > 0 && nibbles[0] == 0 {
        let rest = nibbles.skip(1);
        lemma_leading_zeros_keep_value(rest);
        lemma_leading_zeros(rest);
        assert(without_leading_zeros(nibbles) =~= without_leading_zeros(rest));
        lemma_zero_in_front_keeps_value(rest);
        assert(seq![0u8] + rest =~= nibbles);
    } else {
        assert(without_leading_zeros(nibbles) =~= nibbles);
    }
}

/// Packing keeps the integer: the bytes write in base 256 what the nibbles
/// write in base 16.
pub proof fn lemma_packing_keeps_value(nibbles: Seq<u8>)
    requires
        all_nibbles(nibbles),
    ensures
        bytes_value(packed(nibbles)) == nibbles_value(nibbles),
    decreases nibbles.len(),
{
    let n = nibbles.len() as int;
    lemma_packed_from_the_end(nibbles);
    if n >= 2 {
        let front = nibbles.take(n - 2);
        let last = (16 * nibbles[n - 2] + nibbles[n - 1]) as u8;
        let middle = nibbles.drop_last();
        lemma_packing_keeps_value(front);
        assert(packed(nibbles).drop_last() =~= packed(front));
        assert(packed(nibbles).last() == last);
        assert(bytes_value(packed(nibbles)) == 256 * bytes_value(packed(front)) + last);
        assert(middle.drop_last() =~= front);
        assert(middle.last() == nibbles[n - 2]);
        assert(nibbles_value(middle) == 16 * nibbles_value(front) + nibbles[n - 2]);
        assert(nibbles_value(nibbles) == 16 * nibbles_value(middle) + nibbles[n - 1]);
    } else if n == 1 {
        assert(packed(nibbles).drop_last() =~= Seq::<u8>::empty());
        assert(nibbles.drop_last() =~= Seq::<u8>::empty());
        assert(bytes_value(packed(nibbles).drop_last()) == 0);
        assert(nibbles_value(nibbles.drop_last()) == 0);
    }
}

/// Nibbles that do not start with zero pack into bytes that do not start with
/// zero.
pub proof fn lemma_packing_keeps_minimal(nibbles: Seq<u8>)
    requires
        all_nibbles(nibbles),
        nibbles.len() > 0 ==> nibbles[0] != 0,
    ensures
        is_minimal(packed(nibbles)),
{
}

/// Bytes that do not start with zero write a positive integer.
pub proof fn lemma_minimal_value_is_positive(bytes: Seq<u8>)
    requires
        bytes.len() > 0,
        bytes[0] != 0,
    ensures
        bytes_value(bytes) > 0,
    decreases bytes.len(),
{
    if bytes.len() > 1 {
        lemma_minimal_value_is_positive(bytes.drop_last());
    } else {
        assert(bytes.last() == bytes[0]);
    }
}

/// No two sequences of bytes without a zero in front write the same integer.
pub proof fn lemma_minimal_is_unique(a: Seq<u8>, b: Seq<u8>)
    requires
        is_minimal(a),
        is_minimal(b),
        bytes_value(a) == bytes_value(b),
    ensures
        a == b,
    decreases a.len(),
{
    if a.len() == 0 {
        if b.len() > 0 {
            lemma_minimal_value_is_positive(b);
        }
        assert(a =~= b);
    } else if b.len() == 0 {
        lemma_minimal_value_is_positive(a);
    } else {
        let a_front = a.drop_last();
        let b_front = b.drop_last();
        assert(a.last() == b.last() && bytes_value(a_front) == bytes_value(b_front));
        lemma_minimal_is_unique(a_front, b_front);
        assert(a =~= a_front.push(a.last()));
        assert(b =~= b_front.push(b.last()));
    }
}

/// `minimal_bytes(n)` writes `n` and has no zero byte in front.
pub proof fn lemma_minimal_bytes(n: nat)
    ensures
        bytes_value(minimal_bytes(n)) == n,
        is_minimal(minimal_bytes(n)),
    decreases n,
{
    if n > 0 {
        let front = minimal_bytes(n / 256);
        lemma_minimal_bytes(n / 256);
        assert(minimal_bytes(n).drop_last() =~= front);
        if front.len() > 0 {
            assert(minimal_bytes(n)[0] == front[0]);
        }
    }
}

} // verus!
