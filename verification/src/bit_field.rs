//! Bit fields of 64-bit words.

use vstd::arithmetic::power2::*;
use vstd::bits::*;
use vstd::prelude::*;

verus! {

/// The `width` bits of `x` from position `lo` on, as a number.
pub open spec fn field_of(x: nat, lo: nat, width: nat) -> nat {
    (x / pow2(lo)) % pow2(width)
}

/// Extracts a bit field.
pub fn field(x: u64, lo: u64, width: u64) -> (r: u64)
    requires
        lo < 64,
        0 < width < 64,
    ensures
        r == field_of(x as nat, lo as nat, width as nat),
        r < pow2(width as nat),
{
    proof {
        lemma_u64_shr_is_div(x, lo);
        lemma_u64_pow2_no_overflow(width as nat);
        assert(1 * pow2(width as nat) == pow2(width as nat));
        lemma_u64_shl_is_mul(1, width);
        lemma_u64_low_bits_mask_is_mod(x >> lo, width as nat);
        lemma_pow2_pos(width as nat);
    }
    (x >> lo) & ((1u64 << width) - 1)
}

} // verus!
