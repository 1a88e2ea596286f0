//! Start-up of the Wi-Fi station: the seed of the network stack.
use vstd::prelude::*;

verus! {

/// The 64-bit seed made of two 32-bit random numbers: `high` in the upper
/// half and `low` in the lower half.
pub fn combine_seed(high: u32, low: u32) -> (seed: u64)
    ensures
        seed == high as nat * 0x1_0000_0000 + low as nat,
{
    let seed = (high as u64) << 32 | low as u64;
    assert(((high as u64) << 32 | low as u64) == high as u64 * 0x1_0000_0000 + low as u64)
        by (bit_vector);
    seed
}

} // verus!
