//! Thread sets, held in `fixedbitset::FixedBitSet`.
//!
//! The declarations below state what the bit-set operations used by the
//! evaluator do, over two names: the length of a set and the positions of the
//! bits that are on in its blocks.

use vstd::prelude::*;
use fixedbitset::FixedBitSet;

verus! {

/// A fixed-length set of bits.
#[verifier::external_type_specification]
#[verifier::external_body]
pub struct ExFixedBitSet(FixedBitSet);

/// Number of bits the set was made for.
pub uninterp spec fn bitset_len(s: FixedBitSet) -> usize;

/// Positions of all bits that are on in the set's blocks.
pub uninterp spec fn bitset_blocks(s: FixedBitSet) -> Set<usize>;

/// The members of a set: the bits that are on within its length.
pub open spec fn bits(s: FixedBitSet) -> Set<usize> {
    bitset_blocks(s).filter(|b: usize| b < bitset_len(s))
}

/// The set of all positions below `n`.
pub open spec fn full_set(n: usize) -> Set<usize> {
    Set::new(|b: usize| b < n)
}

/// `FixedBitSet::with_capacity`: a set of the given length with every bit off.
pub assume_specification[ FixedBitSet::with_capacity ](n: usize) -> (s: FixedBitSet)
    ensures
        bitset_len(s) == n,
        bitset_blocks(s) == Set::<usize>::empty(),
;

/// `FixedBitSet::contains`: whether the bit lies within the length and is on.
pub assume_specification[ FixedBitSet::contains ](s: &FixedBitSet, bit: usize) -> (r: bool)
    ensures
        r == (bit < bitset_len(*s) && bitset_blocks(*s).contains(bit)),
;

/// `FixedBitSet::insert`: turns one bit within the length on.
pub assume_specification[ FixedBitSet::insert ](s: &mut FixedBitSet, bit: usize)
    requires
        bit < bitset_len(*old(s)),
    ensures
        bitset_len(*final(s)) == bitset_len(*old(s)),
        bitset_blocks(*final(s)) == bitset_blocks(*old(s)).insert(bit),
;

/// `FixedBitSet::set`: turns one bit within the length on or off.
pub assume_specification[ FixedBitSet::set ](s: &mut FixedBitSet, bit: usize, enabled: bool)
    requires
        bit < bitset_len(*old(s)),
    ensures
        bitset_len(*final(s)) == bitset_len(*old(s)),
        bitset_blocks(*final(s)) == (if enabled {
            bitset_blocks(*old(s)).insert(bit)
        } else {
            bitset_blocks(*old(s)).remove(bit)
        }),
;

/// `FixedBitSet::difference_with`: turns off every bit that is on in `other`.
pub assume_specification[ FixedBitSet::difference_with ](
    s: &mut FixedBitSet,
    other: &FixedBitSet,
)
    ensures
        bitset_len(*final(s)) == bitset_len(*old(s)),
        bitset_blocks(*final(s)) == bitset_blocks(*old(s)).difference(bitset_blocks(*other)),
;

/// `FixedBitSet::union_with`: turns on every bit that is on in `other`,
/// growing to the longer of the two lengths.
pub assume_specification[ FixedBitSet::union_with ](s: &mut FixedBitSet, other: &FixedBitSet)
    ensures
        bitset_len(*final(s)) == (if bitset_len(*old(s)) < bitset_len(*other) {
            bitset_len(*other)
        } else {
            bitset_len(*old(s))
        }),
        bitset_blocks(*final(s)) == bitset_blocks(*old(s)).union(bitset_blocks(*other)),
;

/// `FixedBitSet::is_clear`: whether no bit at all is on.
pub assume_specification[ FixedBitSet::is_clear ](s: &FixedBitSet) -> (r: bool)
    ensures
        r == (bitset_blocks(*s) =~= Set::<usize>::empty()),
;

/// `FixedBitSet::clone`: the same length and the same bits.
pub assume_specification[ <FixedBitSet as Clone>::clone ](s: &FixedBitSet) -> (r: FixedBitSet)
    ensures
        bitset_len(r) == bitset_len(*s),
        bitset_blocks(r) == bitset_blocks(*s),
;

/// `FixedBitSet::set_range(.., true)`: turns on every bit within the length
/// and leaves any other bit alone.
#[verifier::external_body]
pub(crate) fn fill(s: &mut FixedBitSet)
    ensures
        bitset_len(*final(s)) == bitset_len(*old(s)),
        bitset_blocks(*final(s)) == bitset_blocks(*old(s)).union(full_set(bitset_len(*old(s)))),
{
    s.set_range(.., true);
}

/// Whether a set has a member.
pub fn has_member(s: &FixedBitSet, n: usize) -> (r: bool)
    requires
        bitset_len(*s) == n,
    ensures
        r == (bits(*s) != Set::<usize>::empty()),
{
    let mut i: usize = 0;
    while i < n
        invariant
            i <= n,
            bitset_len(*s) == n,
            forall|b: usize| b < i ==> !#[trigger] bits(*s).contains(b),
        decreases n - i,
    {
        if s.contains(i) {
            assert(bits(*s).contains(i));
            return true;
        }
        i = i + 1;
    }
    assert(bits(*s) =~= Set::<usize>::empty());
    false
}

} // verus!
