//! What `lop3` computes.

use vstd::prelude::*;

use crate::eval::lanes::lop3_bits;

verus! {

proof fn lemma_set_bit(x: u64, v: u64, k: u64, i: u64)
    requires
        v <= 1,
        k < 64,
        i < 64,
    ensures
        ((x | (v << k)) >> i) & 1 == (if i == k {
            ((x >> k) & 1) | v
        } else {
            (x >> i) & 1
        }),
{
    assert(v <= 1 && k < 64 && i < 64 ==> ((x | (v << k)) >> i) & 1 == (if i == k {
        ((x >> k) & 1) | v
    } else {
        (x >> i) & 1
    })) by (bit_vector);
}

/// Bit `i` of a three-input logical operation is the entry of the table that
/// the three bits `i` of its sources select, the first source's the most
/// significant; no bit past the last comes of it.
pub proof fn a_table_is_looked_up_bit_by_bit(
    a: u64,
    b: u64,
    c: u64,
    lut: u64,
    n: nat,
    i: u64,
)
    requires
        n <= 64,
        i < 64,
    ensures
        (lop3_bits(a, b, c, lut, n) >> i) & 1 == (if i < n {
            (lut >> ((4 * ((a >> i) & 1) + 2 * ((b >> i) & 1) + ((c >> i) & 1)) as u64)) & 1
        } else {
            0
        }),
    decreases n,
{
    if n > 0 {
        let k = (n - 1) as u64;
        let x = lop3_bits(a, b, c, lut, (n - 1) as nat);
        let index = (4 * ((a >> k) & 1) + 2 * ((b >> k) & 1) + ((c >> k) & 1)) as u64;
        let v = (lut >> index) & 1;
        assert(lop3_bits(a, b, c, lut, n) == x | (v << k));
        a_table_is_looked_up_bit_by_bit(a, b, c, lut, (n - 1) as nat, i);
        assert(v <= 1) by (bit_vector)
            requires
                v == (lut >> index) & 1,
        ;
        lemma_set_bit(x, v, k, i);
        if i == k {
            assert(0u64 | v == v) by (bit_vector);
        }
    } else {
        assert((0u64 >> i) & 1 == 0) by (bit_vector);
    }
}

} // verus!
