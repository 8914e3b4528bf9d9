//! The optional `0x` marker in front of the digits.

use vstd::prelude::*;

verus! {

/// Whether `data` starts with the two bytes `0` and `x`.
///
/// The marker is matched exactly: an upper-case `X` does not count.
pub open spec fn has_preamble(data: Seq<u8>) -> bool {
    data.len() >= 2 && data[0] == 0x30 && data[1] == 0x78
}

/// `data` without its `0x` marker, or `data` itself where it has none.
pub open spec fn without_preamble(data: Seq<u8>) -> Seq<u8> {
    if has_preamble(data) {
        data.skip(2)
    } else {
        data
    }
}

/// Drops a leading `0x` from `data`, if there is one.
pub fn strip_preamble(data: &[u8]) -> (rest: &[u8])
    ensures
        rest@ == without_preamble(data@),
{
    if data.len() >= 2 && data[0] == 0x30 && data[1] == 0x78 {
        &data[2..data.len()]
    } else {
        data
    }
}

} // verus!
