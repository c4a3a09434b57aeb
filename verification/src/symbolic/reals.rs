//! Exact real constants.

use vstd::prelude::*;

use crate::canon::number::{gcd, odd_part, twos};

verus! {

/// The number that little-endian 64-bit limbs stand for.
pub open spec fn limbs_value(s: Seq<u64>) -> nat
    decreases s.len(),
{
    if s.len() == 0 {
        0
    } else {
        s[0] as nat + 0x1_0000_0000_0000_0000 * limbs_value(s.drop_first())
    }
}

/// A constant: a rational of any size, or an infinity. Numerator and
/// denominator are little-endian 64-bit limbs.
#[derive(Debug)]
pub enum RealRepr {
    Rational { negative: bool, numer: Vec<u64>, denom: Vec<u64> },
    NegInf,
    PosInf,
}

/// An exact real constant.
#[derive(Debug)]
pub struct Real {
    pub repr: RealRepr,
}

impl Real {
    /// A rational is reduced, with a positive denominator.
    pub open spec fn wf(&self) -> bool {
        match self.repr {
            RealRepr::Rational { negative, numer, denom } => {
                &&& limbs_value(denom@) > 0
                &&& gcd(limbs_value(numer@), limbs_value(denom@)) == 1
            },
            _ => true,
        }
    }
}

/// Whether all limbs are zero.
pub fn is_zero(limbs: &Vec<u64>) -> (r: bool)
    ensures
        r == (limbs_value(limbs@) == 0),
{
    let mut i: usize = limbs.len();
    assert(limbs@.skip(i as int) =~= Seq::<u64>::empty());
    while i > 0
        invariant
            i <= limbs@.len(),
            limbs_value(limbs@.skip(i as int)) == 0,
        decreases i,
    {
        i = i - 1;
        proof {
            assert(limbs@.skip(i as int).drop_first() =~= limbs@.skip(i as int + 1));
        }
        if limbs[i] != 0 {
            proof {
                lemma_suffix_nonzero(limbs@, i as int);
            }
            return false;
        }
    }
    assert(limbs@.skip(0) =~= limbs@);
    true
}

proof fn lemma_suffix_nonzero(s: Seq<u64>, i: int)
    requires
        0 <= i < s.len(),
        limbs_value(s.skip(i)) > 0,
    ensures
        limbs_value(s) > 0,
    decreases i,
{
    if i > 0 {
        assert(s.skip(i - 1).drop_first() =~= s.skip(i));
        lemma_suffix_nonzero(s, i - 1);
    } else {
        assert(s.skip(0) =~= s);
    }
}

/// Half of each limb, with the low bit of the next limb shifted in.
spec fn is_half(r: Seq<u64>, s: Seq<u64>) -> bool {
    &&& r.len() == s.len()
    &&& forall|i: int|
        0 <= i < s.len() ==> #[trigger] r[i] == s[i] / 2 + (if i + 1 < s.len() {
            (s[i + 1] % 2) * 0x8000_0000_0000_0000
        } else {
            0
        })
}

proof fn lemma_parity(s: Seq<u64>)
    ensures
        s.len() > 0 ==> limbs_value(s) % 2 == s[0] % 2,
{
}

proof fn lemma_half(r: Seq<u64>, s: Seq<u64>)
    requires
        is_half(r, s),
    ensures
        limbs_value(r) == limbs_value(s) / 2,
    decreases s.len(),
{
    if s.len() > 0 {
        let r1 = r.drop_first();
        let s1 = s.drop_first();
        assert(is_half(r1, s1)) by {
            assert forall|i: int| 0 <= i < s1.len() implies #[trigger] r1[i] == s1[i] / 2 + (if i
                + 1 < s1.len() {
                (s1[i + 1] % 2) * 0x8000_0000_0000_0000
            } else {
                0
            }) by {
                assert(r1[i] == r[i + 1]);
            }
        }
        lemma_half(r1, s1);
        lemma_parity(s1);
        assert(r[0] == s[0] / 2 + (if 1 < s.len() {
            (s[1] % 2) * 0x8000_0000_0000_0000
        } else {
            0
        }));
        if s.len() > 1 {
            assert(s1[0] == s[1]);
        }
    }
}

/// Divides by two, dropping the remainder.
fn halve(limbs: &Vec<u64>) -> (r: Vec<u64>)
    ensures
        r@.len() == limbs@.len(),
        limbs_value(r@) == limbs_value(limbs@) / 2,
{
    let mut r: Vec<u64> = Vec::new();
    let mut i: usize = 0;
    while i < limbs.len()
        invariant
            i <= limbs@.len(),
            r@.len() == i,
            forall|j: int|
                0 <= j < i ==> #[trigger] r@[j] == limbs@[j] / 2 + (if j + 1 < limbs@.len() {
                    (limbs@[j + 1] % 2) * 0x8000_0000_0000_0000
                } else {
                    0
                }),
        decreases limbs@.len() - i,
    {
        let high: u64 = if i + 1 < limbs.len() {
            (limbs[i + 1] % 2) * 0x8000_0000_0000_0000
        } else {
            0
        };
        r.push(limbs[i] / 2 + high);
        i = i + 1;
    }
    proof {
        lemma_half(r@, limbs@);
    }
    r
}

/// Splits a positive number into its odd part and how often two divides it,
/// unless that is more often than `i32` can count.
pub fn split_twos(limbs: &Vec<u64>) -> (r: Option<(Vec<u64>, i32)>)
    requires
        limbs_value(limbs@) > 0,
    ensures
        match r {
            Some((odd, k)) => limbs_value(odd@) == odd_part(limbs_value(limbs@)) && k == twos(
                limbs_value(limbs@),
            ),
            None => twos(limbs_value(limbs@)) > i32::MAX,
        },
{
    let ghost n = limbs_value(limbs@);
    let mut odd: Vec<u64> = limbs.clone();
    assert(odd@ =~= limbs@);
    let mut k: i32 = 0;
    while odd.len() > 0 && odd[0] % 2 == 0
        invariant
            limbs_value(odd@) > 0,
            odd_part(limbs_value(odd@)) == odd_part(n),
            k + twos(limbs_value(odd@)) == twos(n),
            0 <= k,
            n == limbs_value(limbs@),
        decreases limbs_value(odd@),
    {
        proof {
            lemma_parity(odd@);
        }
        if k == i32::MAX {
            return None;
        }
        odd = halve(&odd);
        k = k + 1;
    }
    proof {
        lemma_parity(odd@);
    }
    Some((odd, k))
}

/// The value of the limbs, if it fits.
pub fn to_i128(limbs: &Vec<u64>) -> (r: Option<i128>)
    ensures
        match r {
            Some(v) => v == limbs_value(limbs@),
            None => limbs_value(limbs@) > i128::MAX,
        },
{
    let mut i: usize = limbs.len();
    assert(limbs@.skip(i as int) =~= Seq::<u64>::empty());
    let mut acc: u128 = 0;
    while i > 0
        invariant
            i <= limbs@.len(),
            acc == limbs_value(limbs@.skip(i as int)),
            acc <= 0x7fff_ffff_ffff_ffff_ffff_ffff_ffff_ffff,
        decreases i,
    {
        i = i - 1;
        proof {
            assert(limbs@.skip(i as int).drop_first() =~= limbs@.skip(i as int + 1));
        }
        if acc > 0x7fff_ffff_ffff_ffff {
            proof {
                lemma_suffix_bound(limbs@, i as int);
            }
            return None;
        }
        acc = acc * 0x1_0000_0000_0000_0000 + limbs[i] as u128;
        proof {
            assert(limbs@.skip(i as int)[0] == limbs@[i as int]);
        }
    }
    assert(limbs@.skip(0) =~= limbs@);
    Some(acc as i128)
}

proof fn lemma_suffix_bound(s: Seq<u64>, i: int)
    requires
        0 <= i < s.len(),
        limbs_value(s.skip(i)) > i128::MAX,
    ensures
        limbs_value(s) > i128::MAX,
    decreases i,
{
    if i > 0 {
        assert(s.skip(i - 1).drop_first() =~= s.skip(i));
        lemma_suffix_bound(s, i - 1);
    } else {
        assert(s.skip(0) =~= s);
    }
}

} // verus!
