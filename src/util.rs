use vstd::prelude::*;

verus! {

/// The sum of a byte sequence, as an unbounded integer.
pub open spec fn byte_sum(s: Seq<u8>) -> int
    decreases s.len(),
{
    if s.len() == 0 {
        0
    } else {
        byte_sum(s.drop_last()) + s.last()
    }
}

/// Two's-complement negation of a value, truncated to one byte.
pub fn twos_comp(input: u64) -> (r: u8)
    ensures
        r as int == (0 - input as int) % 256,
{
    let low: u64 = input % 256;
    if low == 0 {
        0
    } else {
        (256 - low) as u8
    }
}

} // verus!
