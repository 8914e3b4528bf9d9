//! Packing nibbles into bytes.

use vstd::prelude::*;

use crate::nibbles::all_nibbles;

verus! {

/// `nibbles` with one zero put in front where its length is odd, so that the
/// length is even.
pub open spec fn padded(nibbles: Seq<u8>) -> Seq<u8> {
    if nibbles.len() % 2 == 1 {
        seq![0u8] + nibbles
    } else {
        nibbles
    }
}

/// The bytes that `nibbles` pack into, most significant first.
///
/// The nibbles pair up from the least significant end, each pair giving the
/// byte `16 * high + low`. Where the count is odd, the first nibble stands
/// alone and is the first byte.
pub open spec fn packed(nibbles: Seq<u8>) -> Seq<u8> {
    let even = padded(nibbles);
    Seq::new(even.len() / 2, |j: int| (16 * even[2 * j] + even[2 * j + 1]) as u8)
}

/// There is one byte for every two nibbles, and one more for a nibble left
/// over.
pub proof fn lemma_packed_len(nibbles: Seq<u8>)
    ensures
        packed(nibbles).len() == (nibbles.len() + 1) / 2,
{
}

/// An odd number of nibbles packs as if one more zero nibble stood in front.
pub proof fn lemma_packed_odd(nibbles: Seq<u8>)
    requires
        nibbles.len() % 2 == 1,
    ensures
        packed(nibbles) == packed(seq![0u8] + nibbles),
{
}

/// Packing goes by pairs from the least significant end: the last two nibbles
/// make the last byte, and what stands before them packs on its own. A single
/// nibble is its own byte.
pub proof fn lemma_packed_from_the_end(nibbles: Seq<u8>)
    requires
        all_nibbles(nibbles),
    ensures
        nibbles.len() == 0 ==> packed(nibbles) == Seq::<u8>::empty(),
        nibbles.len() == 1 ==> packed(nibbles) == seq![nibbles[0]],
        nibbles.len() >= 2 ==> packed(nibbles) == packed(nibbles.take(nibbles.len() - 2)).push(
            (16 * nibbles[nibbles.len() - 2] + nibbles[nibbles.len() - 1]) as u8,
        ),
{
    let n = nibbles.len() as int;
    if n >= 2 {
        let front = nibbles.take(n - 2);
        let last = (16 * nibbles[n - 2] + nibbles[n - 1]) as u8;
        assert(packed(nibbles) =~= packed(front).push(last));
    } else if n == 1 {
        assert(packed(nibbles) =~= seq![nibbles[0]]);
    } else {
        assert(packed(nibbles) =~= Seq::<u8>::empty());
    }
}

/// Packs `nibbles`, most significant first, into bytes.
pub fn pack(nibbles: &[u8]) -> (bytes: Vec<u8>)
    requires
        all_nibbles(nibbles@),
    ensures
        bytes@ == packed(nibbles@),
        bytes@.len() == (nibbles@.len() + 1) / 2,
{
    let n = nibbles.len();
    let mut bytes: Vec<u8> = Vec::with_capacity(n / 2 + n % 2);
    let mut i: usize = 0;
    if n % 2 == 1 {
        bytes.push(nibbles[0]);
        i = 1;
    }
    while i < n
        invariant
            n == nibbles@.len(),
            all_nibbles(nibbles@),
            i <= n,
            i % 2 == n % 2,
            bytes.len() == (i + n % 2) / 2,
            forall|j: int| 0 <= j < bytes.len() ==> bytes@[j] == packed(nibbles@)[j],
        decreases n - i,
    {
        let high = nibbles[i];
        let low = nibbles[i + 1];
        bytes.push(high * 16 + low);
        i += 2;
    }
    assert(bytes@ =~= packed(nibbles@));
    bytes
}

} // verus!
