//! Exact rational coefficients.
//!
//! Coefficient arithmetic is exact: cancellation never depends on
//! floating-point rounding. A coefficient is kept as `num * 2^exp2 / den` with
//! the numerator and the denominator both odd, so an IEEE constant costs only
//! its mantissa in i128 and its binary exponent - however extreme - costs
//! nothing. Overflow is a reported error, not a panic.

use vstd::arithmetic::div_mod::*;
use vstd::arithmetic::mul::*;
use vstd::arithmetic::power2::*;
use vstd::prelude::*;
use vstd::string::*;

use crate::canon::number::{
    abs, abs_of_product, coprime_to_product, divides, divisor_of_odd, divisors_of_coprime, euclid,
    gcd, gcd_commutes, gcd_divides, lemma_divides, lemma_divisor_bound, odd_part, odd_part_divides,
    odd_part_times_twos, product_of_odds, quotients_are_coprime, twos,
};
use crate::symbolic::reals::{Real, RealRepr, is_zero, limbs_value, split_twos, to_i128};
use crate::text::{int_text, push_int};

verus! {

/// A reduced dyadic-scaled rational: `num * 2^exp2 / den`, with `den > 0`,
/// `num` and `den` both odd, and gcd(num, den) = 1. Zero is `0 * 2^0 / 1`.
#[derive(Debug, Clone, Copy, PartialEq, Eq, Structural, Hash)]
pub struct Coeff {
    pub num: i128,
    pub den: i128,
    pub exp2: i32,
}

/// Coefficient arithmetic failure (overflow, division by zero, or a
/// non-finite constant).
#[derive(Debug, Clone, Copy, PartialEq, Eq, Structural)]
pub enum CoeffError {
    Overflow,
    DivByZero,
    /// The infinity of the given sign.
    NonFinite { negative: bool },
}

impl CoeffError {
    pub open spec fn spec_text(&self) -> Seq<char> {
        match self {
            CoeffError::Overflow => "rational coefficient overflowed i128"@,
            CoeffError::DivByZero => "division by a zero coefficient"@,
            CoeffError::NonFinite { negative } => if *negative {
                "non-finite constant -inf in expression"@
            } else {
                "non-finite constant inf in expression"@
            },
        }
    }

    /// The error as text.
    pub fn text(&self) -> (r: String)
        ensures
            r@ == self.spec_text(),
    {
        match self {
            CoeffError::Overflow => String::from_str("rational coefficient overflowed i128"),
            CoeffError::DivByZero => String::from_str("division by a zero coefficient"),
            CoeffError::NonFinite { negative } => {
                if *negative {
                    String::from_str("non-finite constant -inf in expression")
                } else {
                    String::from_str("non-finite constant inf in expression")
                }
            },
        }
    }
}

/// Whether `n1 * 2^e1 / d1` and `n2 * 2^e2 / d2` are the same number.
pub open spec fn same_value(n1: int, d1: int, e1: int, n2: int, d2: int, e2: int) -> bool {
    let m = if e1 <= e2 {
        e1
    } else {
        e2
    };
    n1 * pow2((e1 - m) as nat) * d2 == n2 * pow2((e2 - m) as nat) * d1
}

pub open spec fn fits_i128(n: int) -> bool {
    i128::MIN <= n <= i128::MAX
}

pub open spec fn fits_i32(n: int) -> bool {
    i32::MIN <= n <= i32::MAX
}

/// Whether `num * 2^exp2 / den` has a canonical form with machine-sized
/// fields.
pub open spec fn reducible(num: int, den: int, exp2: int) -> bool {
    let g = gcd(abs(num), abs(den));
    num == 0 || (num != i128::MIN && den != i128::MIN && fits_i32(
        exp2 + twos(abs(num) / g) - twos(abs(den) / g),
    ))
}

/// Whether `v * 2^shift` can be formed.
pub open spec fn shiftable(v: int, shift: int) -> bool {
    fits_i128(v * pow2(shift as nat))
}

impl Coeff {
    /// The canonical form, which every operation keeps.
    pub open spec fn canonical(self) -> bool {
        &&& self.den > 0
        &&& self.num == 0 ==> self.den == 1 && self.exp2 == 0
        &&& self.num != 0 ==> abs(self.num as int) % 2 == 1 && self.den % 2 == 1 && gcd(
            abs(self.num as int),
            self.den as nat,
        ) == 1
    }

    /// Whether the coefficient is the number `n * 2^e / d`.
    pub open spec fn denotes(self, n: int, d: int, e: int) -> bool {
        same_value(self.num as int, self.den as int, self.exp2 as int, n, d, e)
    }

    /// The smaller of two exponents.
    pub open spec fn common_exp(self, other: Coeff) -> int {
        if self.exp2 <= other.exp2 {
            self.exp2 as int
        } else {
            other.exp2 as int
        }
    }

    /// The numerator at a smaller exponent.
    pub open spec fn num_at(self, e: int) -> int {
        self.num * pow2((self.exp2 - e) as nat)
    }

    /// Whether `self + other` can be formed.
    pub open spec fn addable(self, other: Coeff) -> bool {
        let e = self.common_exp(other);
        let g = gcd(self.den as nat, other.den as nat) as int;
        let x = self.num_at(e) * (other.den as int / g);
        let y = other.num_at(e) * (self.den as int / g);
        let d = self.den * (other.den as int / g);
        self.num == 0 || other.num == 0 || {
            &&& shiftable(self.num as int, self.exp2 - e)
            &&& shiftable(other.num as int, other.exp2 - e)
            &&& fits_i128(x)
            &&& fits_i128(y)
            &&& fits_i128(x + y)
            &&& fits_i128(d)
            &&& reducible(x + y, d, e)
        }
    }

    /// What adding `other` returns: the exact sum in canonical form, or
    /// overflow where it cannot be formed.
    pub open spec fn is_sum(self, other: Coeff, r: Result<Coeff, CoeffError>) -> bool {
        let e = self.common_exp(other);
        match r {
            Ok(c) => self.addable(other) && c.canonical() && c.denotes(
                self.num_at(e) * other.den + other.num_at(e) * self.den,
                self.den * other.den,
                e,
            ),
            Err(err) => !self.addable(other) && err == CoeffError::Overflow,
        }
    }

    /// Whether `self * other` can be formed.
    pub open spec fn multipliable(self, other: Coeff) -> bool {
        let g1 = gcd(abs(self.num as int), other.den as nat);
        let g2 = gcd(abs(other.num as int), self.den as nat);
        self.num == 0 || other.num == 0 || {
            &&& (abs(self.num as int) / g1) * (abs(other.num as int) / g2) <= i128::MAX
            &&& (self.den as nat / g2) * (other.den as nat / g1) <= i128::MAX
            &&& fits_i32(self.exp2 + other.exp2)
        }
    }

    /// What multiplying by `other` returns.
    pub open spec fn is_product(self, other: Coeff, r: Result<Coeff, CoeffError>) -> bool {
        match r {
            Ok(c) => self.multipliable(other) && c.canonical() && c.denotes(
                self.num * other.num,
                self.den * other.den,
                self.exp2 + other.exp2,
            ),
            Err(err) => !self.multipliable(other) && err == CoeffError::Overflow,
        }
    }

    pub open spec fn spec_neg(self) -> Coeff {
        Coeff { num: (-self.num) as i128, den: self.den, exp2: self.exp2 }
    }

    pub open spec fn spec_zero() -> Coeff {
        Coeff { num: 0, den: 1, exp2: 0 }
    }

    pub open spec fn spec_one() -> Coeff {
        Coeff { num: 1, den: 1, exp2: 0 }
    }

    pub open spec fn spec_minus_one() -> Coeff {
        Coeff { num: (-1) as i128, den: 1, exp2: 0 }
    }

    /// Zero.
    #[verifier::when_used_as_spec(spec_zero)]
    pub fn zero() -> (c: Coeff)
        ensures
            c == Coeff::spec_zero(),
            c.canonical(),
    {
        Coeff { num: 0, den: 1, exp2: 0 }
    }

    /// One.
    #[verifier::when_used_as_spec(spec_one)]
    pub fn one() -> (c: Coeff)
        ensures
            c == Coeff::spec_one(),
            c.canonical(),
    {
        proof {
            lemma_gcd_one(1);
        }
        Coeff { num: 1, den: 1, exp2: 0 }
    }

    /// Minus one.
    #[verifier::when_used_as_spec(spec_minus_one)]
    pub fn minus_one() -> (c: Coeff)
        ensures
            c == Coeff::spec_minus_one(),
            c.canonical(),
    {
        proof {
            lemma_gcd_one(1);
        }
        Coeff { num: -1, den: 1, exp2: 0 }
    }

    /// `num * 2^exp2 / den` in canonical form. Every argument is free-form:
    /// the powers of two in `num` and `den` migrate into the exponent, so
    /// equal values always have equal fields.
    pub fn reduced(num: i128, den: i128, exp2: i32) -> (r: Result<Coeff, CoeffError>)
        requires
            den != 0,
        ensures
            match r {
                Ok(c) => reducible(num as int, den as int, exp2 as int) && c.canonical()
                    && c.denotes(num as int, den as int, exp2 as int),
                Err(e) => !reducible(num as int, den as int, exp2 as int) && e
                    == CoeffError::Overflow,
            },
    {
        if num == 0 {
            proof {
                lemma_zero_value(den as int, exp2 as int);
            }
            return Ok(Coeff::zero());
        }
        // The magnitude of i128::MIN has no i128 image; report it as the
        // overflow it is.
        if num == i128::MIN || den == i128::MIN {
            return Err(CoeffError::Overflow);
        }
        let an: u128 = magnitude(num);
        let ad: u128 = magnitude(den);
        let g: u128 = gcd_u128(an, ad);
        proof {
            quotients_are_coprime(an as nat, ad as nat);
        }
        let p: u128 = an / g;
        let q: u128 = ad / g;
        proof {
            lemma_positive_quotient(an as nat, g as nat);
            lemma_positive_quotient(ad as nat, g as nat);
        }
        let (po, kp) = split_twos_u128(p);
        let (qo, kq) = split_twos_u128(q);
        let e: i64 = exp2 as i64 + kp as i64 - kq as i64;
        if e < i32::MIN as i64 || e > i32::MAX as i64 {
            return Err(CoeffError::Overflow);
        }
        let negative = (num < 0) != (den < 0);
        proof {
            odd_part_times_twos(p as nat);
            odd_part_times_twos(q as nat);
            lemma_quotient_bound(an as nat, g as nat);
            lemma_quotient_bound(ad as nat, g as nat);
        }
        let n: i128 = if negative {
            -(po as i128)
        } else {
            po as i128
        };
        let c = Coeff { num: n, den: qo as i128, exp2: e as i32 };
        proof {
            odd_part_divides(p as nat);
            odd_part_divides(q as nat);
            divisors_of_coprime(po as nat, qo as nat, p as nat, q as nat);
            lemma_reduced_value(
                num as int,
                den as int,
                exp2 as int,
                g as int,
                po as int,
                kp as nat,
                qo as int,
                kq as nat,
            );
        }
        Ok(c)
    }

    pub fn from_int(v: i64) -> (c: Coeff)
        ensures
            c.canonical(),
            c.denotes(v as int, 1, 0),
    {
        proof {
            lemma_int_reducible(v);
        }
        match Coeff::reduced(v as i128, 1, 0) {
            Ok(c) => c,
            Err(_) => Coeff::zero(),
        }
    }

    /// Exact conversion from a [`Real`] constant: only the odd parts of the
    /// rational's numerator and denominator need fit i128; an infinity is a
    /// loud non-finite error.
    pub fn from_real(v: &Real) -> (r: Result<Coeff, CoeffError>)
        requires
            v.wf(),
        ensures
            match v.repr {
                RealRepr::Rational { negative, numer, denom } => {
                    let n = limbs_value(numer@);
                    let d = limbs_value(denom@);
                    let fits = n == 0 || (odd_part(n) <= i128::MAX && odd_part(d) <= i128::MAX
                        && twos(n) <= i32::MAX && twos(d) <= i32::MAX);
                    match r {
                        Ok(c) => fits && c.canonical() && c.denotes(
                            if negative {
                                -(n as int)
                            } else {
                                n as int
                            },
                            d as int,
                            0,
                        ),
                        Err(e) => !fits && e == CoeffError::Overflow,
                    }
                },
                RealRepr::NegInf => r == Err::<Coeff, CoeffError>(
                    CoeffError::NonFinite { negative: true },
                ),
                RealRepr::PosInf => r == Err::<Coeff, CoeffError>(
                    CoeffError::NonFinite { negative: false },
                ),
            },
    {
        match &v.repr {
            RealRepr::Rational { negative, numer, denom } => {
                let ghost n = limbs_value(numer@);
                let ghost d = limbs_value(denom@);
                if is_zero(numer) {
                    proof {
                        lemma_zero_value(d as int, 0);
                    }
                    return Ok(Coeff::zero());
                }
                let (num_odd, num_twos) = match split_twos(numer) {
                    Some(s) => s,
                    None => {
                        return Err(CoeffError::Overflow);
                    },
                };
                let (den_odd, den_twos) = match split_twos(denom) {
                    Some(s) => s,
                    None => {
                        return Err(CoeffError::Overflow);
                    },
                };
                let num: i128 = match to_i128(&num_odd) {
                    Some(v) => v,
                    None => {
                        return Err(CoeffError::Overflow);
                    },
                };
                let den: i128 = match to_i128(&den_odd) {
                    Some(v) => v,
                    None => {
                        return Err(CoeffError::Overflow);
                    },
                };
                let signed: i128 = if *negative {
                    -num
                } else {
                    num
                };
                let c = Coeff { num: signed, den, exp2: num_twos - den_twos };
                proof {
                    odd_part_times_twos(n);
                    odd_part_times_twos(d);
                    odd_part_divides(n);
                    odd_part_divides(d);
                    divisors_of_coprime(odd_part(n), odd_part(d), n, d);
                    let sn = if *negative {
                        -(n as int)
                    } else {
                        n as int
                    };
                    assert(n * 1 == n && d * 1 == d);
                    lemma_reduced_value(
                        sn,
                        d as int,
                        0,
                        1,
                        num as int,
                        num_twos as nat,
                        den as int,
                        den_twos as nat,
                    );
                }
                Ok(c)
            },
            RealRepr::NegInf => Err(CoeffError::NonFinite { negative: true }),
            RealRepr::PosInf => Err(CoeffError::NonFinite { negative: false }),
        }
    }

    pub fn is_zero(&self) -> (r: bool)
        ensures
            r == (self.num == 0),
    {
        self.num == 0
    }

    pub fn is_one(&self) -> (r: bool)
        ensures
            r == (*self == Coeff::one()),
    {
        self.num == 1 && self.den == 1 && self.exp2 == 0
    }

    /// The exact integer value, for a rational that denotes one that fits.
    pub fn as_integer(&self) -> (r: Option<i128>)
        requires
            self.canonical(),
        ensures
            match r {
                Some(v) => self.denotes(v as int, 1, 0),
                None => forall|v: int|
                    #![trigger self.denotes(v, 1, 0)]
                    self.denotes(v, 1, 0) ==> !fits_i128(v),
            },
    {
        if self.num == 0 {
            proof {
                lemma_zero_value(1, 0);
            }
            return Some(0);
        }
        // `num` is odd, so a negative exponent never leaves an integer.
        if self.den != 1 || self.exp2 < 0 {
            proof {
                assert forall|v: int| #![trigger self.denotes(v, 1, 0)] !self.denotes(v, 1, 0) by {
                    lemma_not_integer(*self, v);
                }
            }
            return None;
        }
        let r = shift_up(self.num, self.exp2 as u32);
        proof {
            let p = pow2(self.exp2 as nat) as int;
            assert(pow2(0) == 1) by {
                lemma2_to64();
            }
            match r {
                Some(v) => {
                    assert(v == self.num * p);
                    assert(self.num * p * 1 == v * 1 * 1);
                },
                None => {
                    assert forall|v: int|
                        #![trigger self.denotes(v, 1, 0)]
                        self.denotes(v, 1, 0) implies !fits_i128(v) by {
                        assert(self.num * p * 1 == v * 1 * 1);
                    }
                },
            }
        }
        r
    }

    pub fn add(&self, other: &Coeff) -> (r: Result<Coeff, CoeffError>)
        requires
            self.canonical(),
            other.canonical(),
        ensures
            self.is_sum(*other, r),
    {
        if self.is_zero() {
            proof {
                lemma_sum_with_zero(*self, *other);
            }
            return Ok(*other);
        }
        if other.is_zero() {
            proof {
                lemma_sum_with_zero(*self, *other);
            }
            return Ok(*self);
        }
        // Align on the smaller exponent, then a/b + c/d = (ad + cb) / bd
        // with a gcd pre-reduction on b, d.
        let exp2: i32 = if self.exp2 <= other.exp2 {
            self.exp2
        } else {
            other.exp2
        };
        // The gaps widen to i64 first: two far-apart exponents overflow an
        // i32 subtraction well before `shift_up` gets to reject the shift.
        let gap_a: u32 = (self.exp2 as i64 - exp2 as i64) as u32;
        let gap_c: u32 = (other.exp2 as i64 - exp2 as i64) as u32;
        proof {
            lemma_num_at_self(*self, *other);
        }
        let a: i128 = match shift_up(self.num, gap_a) {
            Some(a) => a,
            None => {
                return Err(CoeffError::Overflow);
            },
        };
        let c: i128 = match shift_up(other.num, gap_c) {
            Some(c) => c,
            None => {
                return Err(CoeffError::Overflow);
            },
        };
        let g: u128 = gcd_u128(self.den as u128, other.den as u128);
        proof {
            quotients_are_coprime(self.den as nat, other.den as nat);
            lemma_positive_quotient(self.den as nat, g as nat);
            lemma_positive_quotient(other.den as nat, g as nat);
            lemma_quotient_bound(self.den as nat, g as nat);
            lemma_quotient_bound(other.den as nat, g as nat);
        }
        let b: i128 = (self.den as u128 / g) as i128;
        let d: i128 = (other.den as u128 / g) as i128;
        let x: i128 = match a.checked_mul(d) {
            Some(x) => x,
            None => {
                return Err(CoeffError::Overflow);
            },
        };
        let y: i128 = match c.checked_mul(b) {
            Some(y) => y,
            None => {
                return Err(CoeffError::Overflow);
            },
        };
        let num: i128 = match x.checked_add(y) {
            Some(n) => n,
            None => {
                return Err(CoeffError::Overflow);
            },
        };
        let den: i128 = match self.den.checked_mul(d) {
            Some(n) => n,
            None => {
                return Err(CoeffError::Overflow);
            },
        };
        proof {
            assert(den > 0) by (nonlinear_arith)
                requires
                    den == self.den * d,
                    self.den > 0,
                    d > 0,
            ;
        }
        let r = Coeff::reduced(num, den, exp2);
        proof {
            match r {
                Ok(s) => {
                    lemma_sum_value(
                        s,
                        a as int,
                        c as int,
                        b as int,
                        d as int,
                        g as int,
                        exp2 as int,
                        self.den as int,
                        other.den as int,
                    );
                },
                Err(_) => {},
            }
        }
        r
    }

    pub fn mul(&self, other: &Coeff) -> (r: Result<Coeff, CoeffError>)
        requires
            self.canonical(),
            other.canonical(),
        ensures
            self.is_product(*other, r),
    {
        if self.is_zero() || other.is_zero() {
            proof {
                assert(self.num * other.num == 0) by (nonlinear_arith)
                    requires
                        self.num == 0 || other.num == 0,
                ;
                lemma_zero_value(self.den * other.den, self.exp2 + other.exp2);
            }
            return Ok(Coeff::zero());
        }
        // Cross-reducing makes the product reduced by construction, and odd
        // parts stay odd under multiplication, so the result is already
        // canonical: only the exponents have to be combined.
        let an: u128 = magnitude(self.num);
        let bn: u128 = magnitude(other.num);
        let ad: u128 = self.den as u128;
        let bd: u128 = other.den as u128;
        let g1: u128 = gcd_u128(an, bd);
        let g2: u128 = gcd_u128(bn, ad);
        proof {
            quotients_are_coprime(an as nat, bd as nat);
            quotients_are_coprime(bn as nat, ad as nat);
            lemma_positive_quotient(an as nat, g1 as nat);
            lemma_positive_quotient(bn as nat, g2 as nat);
            lemma_positive_quotient(ad as nat, g2 as nat);
            lemma_positive_quotient(bd as nat, g1 as nat);
            lemma_quotient_bound(an as nat, g1 as nat);
            lemma_quotient_bound(bn as nat, g2 as nat);
            lemma_quotient_bound(ad as nat, g2 as nat);
            lemma_quotient_bound(bd as nat, g1 as nat);
        }
        let p: u128 = an / g1;
        let q: u128 = bn / g2;
        let s: u128 = ad / g2;
        let t: u128 = bd / g1;
        let num: i128 = match (p as i128).checked_mul(q as i128) {
            Some(n) => n,
            None => {
                return Err(CoeffError::Overflow);
            },
        };
        let den: i128 = match (s as i128).checked_mul(t as i128) {
            Some(n) => n,
            None => {
                return Err(CoeffError::Overflow);
            },
        };
        let exp2: i32 = match self.exp2.checked_add(other.exp2) {
            Some(e) => e,
            None => {
                return Err(CoeffError::Overflow);
            },
        };
        let signed: i128 = if (self.num < 0) != (other.num < 0) {
            -num
        } else {
            num
        };
        let c = Coeff { num: signed, den, exp2 };
        proof {
            lemma_product_canonical(
                an as nat,
                ad as nat,
                bn as nat,
                bd as nat,
                g1 as nat,
                g2 as nat,
            );
            assert(num > 0 && den > 0) by (nonlinear_arith)
                requires
                    num == p * q,
                    den == s * t,
                    p > 0,
                    q > 0,
                    s > 0,
                    t > 0,
            ;
            assert(pow2(0) == 1) by {
                lemma2_to64();
            }
            assert(an * bn * (s * t) == p * q * (ad * bd)) by (nonlinear_arith)
                requires
                    an == p * g1,
                    bn == q * g2,
                    ad == s * g2,
                    bd == t * g1,
            ;
            let sa = self.num as int;
            let sb = other.num as int;
            let dd = self.den * other.den;
            assert(signed * dd == (sa * sb) * den) by (nonlinear_arith)
                requires
                    an * bn * (s * t) == p * q * (ad * bd),
                    num == p * q,
                    den == s * t,
                    dd == ad * bd,
                    sa == an || sa == -an,
                    sb == bn || sb == -bn,
                    signed == (if (sa < 0) != (sb < 0) {
                        -num
                    } else {
                        num as int
                    }),
                    an > 0,
                    bn > 0,
            ;
            assert(signed * 1 * dd == signed * dd);
            assert((sa * sb) * 1 * den == (sa * sb) * den);
        }
        Ok(c)
    }

    pub fn neg(&self) -> (r: Coeff)
        requires
            self.canonical(),
        ensures
            r == self.spec_neg(),
            r.canonical(),
            r.denotes(-self.num, self.den as int, self.exp2 as int),
    {
        Coeff { num: -self.num, den: self.den, exp2: self.exp2 }
    }

    /// Multiplicative inverse; error on zero.
    pub fn recip(&self) -> (r: Result<Coeff, CoeffError>)
        requires
            self.canonical(),
        ensures
            match r {
                Ok(c) => self.num != 0 && self.exp2 != i32::MIN && c.canonical() && c.denotes(
                    self.den as int,
                    self.num as int,
                    -self.exp2,
                ),
                Err(CoeffError::DivByZero) => self.num == 0,
                Err(CoeffError::Overflow) => self.num != 0 && self.exp2 == i32::MIN,
                Err(_) => false,
            },
    {
        if self.is_zero() {
            return Err(CoeffError::DivByZero);
        }
        if self.exp2 == i32::MIN {
            return Err(CoeffError::Overflow);
        }
        proof {
            lemma_recip_reducible(*self);
        }
        Coeff::reduced(self.den, self.num, -self.exp2)
    }

    pub open spec fn spec_text(self) -> Seq<char> {
        if self.exp2 >= 0 && shiftable(self.num as int, self.exp2 as int) {
            ratio_text(self.num_at(0), self.den as int)
        } else if self.exp2 < 0 && shiftable(self.den as int, -self.exp2) {
            ratio_text(self.num as int, self.den * pow2((-self.exp2) as nat))
        } else if self.den == 1 {
            int_text(self.num as int) + "*2^"@ + int_text(self.exp2 as int)
        } else {
            int_text(self.num as int) + "*2^"@ + int_text(self.exp2 as int) + "/"@ + int_text(
                self.den as int,
            )
        }
    }

    /// The coefficient as text, with the scale folded back into whichever
    /// side it belongs to, so the common small constants print as plain
    /// rationals.
    pub fn text(&self) -> (r: String)
        requires
            self.canonical(),
        ensures
            r@ == self.spec_text(),
    {
        let mut s = String::new();
        let folded = if self.exp2 >= 0 {
            match shift_up(self.num, self.exp2 as u32) {
                Some(num) => Some((num, self.den)),
                None => None,
            }
        } else {
            match shift_up(self.den, (-(self.exp2 as i64)) as u32) {
                Some(den) => Some((self.num, den)),
                None => None,
            }
        };
        match folded {
            Some((num, den)) => {
                push_int(&mut s, num);
                if den != 1 {
                    s.append("/");
                    push_int(&mut s, den);
                }
            },
            None => {
                push_int(&mut s, self.num);
                s.append("*2^");
                push_int(&mut s, self.exp2 as i128);
                if self.den != 1 {
                    s.append("/");
                    push_int(&mut s, self.den);
                }
            },
        }
        assert(s@ =~= self.spec_text());
        s
    }
}

/// A plain rational as text.
pub open spec fn ratio_text(num: int, den: int) -> Seq<char> {
    if den == 1 {
        int_text(num)
    } else {
        int_text(num) + "/"@ + int_text(den)
    }
}

/// Absolute value of a number other than the smallest one.
fn magnitude(v: i128) -> (r: u128)
    requires
        v != i128::MIN,
    ensures
        r == abs(v as int),
        r <= i128::MAX,
{
    if v < 0 {
        (-v) as u128
    } else {
        v as u128
    }
}

fn gcd_u128(a: u128, b: u128) -> (r: u128)
    requires
        a > 0 || b > 0,
    ensures
        r == gcd(a as nat, b as nat),
        r > 0,
{
    let mut x: u128 = a;
    let mut y: u128 = b;
    while y != 0
        invariant
            gcd(x as nat, y as nat) == gcd(a as nat, b as nat),
        decreases y,
    {
        let t: u128 = x % y;
        x = y;
        y = t;
    }
    proof {
        gcd_divides(a as nat, b as nat);
    }
    x
}

fn split_twos_u128(n: u128) -> (r: (u128, u32))
    requires
        n > 0,
    ensures
        r.0 == odd_part(n as nat),
        r.1 == twos(n as nat),
        r.1 <= 128,
{
    let mut odd: u128 = n;
    let mut k: u32 = 0;
    assert(pow2(0) == 1) by {
        lemma2_to64();
    }
    assert(n * 1 == n);
    while odd % 2 == 0
        invariant
            odd > 0,
            odd_part(odd as nat) == odd_part(n as nat),
            k + twos(odd as nat) == twos(n as nat),
            k <= 128,
            odd * pow2(k as nat) == n,
        decreases odd,
    {
        proof {
            lemma_pow2_unfold((k + 1) as nat);
            let h = (odd / 2) as int;
            let p = pow2(k as nat) as int;
            assert(h * (2 * p) == odd * p) by (nonlinear_arith)
                requires
                    odd == 2 * h,
            ;
            if k >= 128 {
                lemma_pow2_128();
                if k > 128 {
                    lemma_pow2_strictly_increases(128, k as nat);
                }
                assert(odd * pow2(k as nat) >= 0x1_0000_0000_0000_0000_0000_0000_0000_0000)
                    by (nonlinear_arith)
                    requires
                        odd >= 1,
                        pow2(k as nat) >= 0x1_0000_0000_0000_0000_0000_0000_0000_0000,
                ;
            }
        }
        odd = odd / 2;
        k = k + 1;
    }
    (odd, k)
}

proof fn lemma_pow2_128()
    ensures
        pow2(128) == 0x1_0000_0000_0000_0000_0000_0000_0000_0000,
        pow2(126) == 0x4000_0000_0000_0000_0000_0000_0000_0000,
{
    lemma2_to64();
    lemma2_to64_rest();
    lemma_pow2_adds(64, 64);
    lemma_pow2_adds(64, 62);
}

/// Beyond 126 bits only zero, and minus one by 127 bits, stay within i128.
proof fn lemma_far_shift(v: int, shift: nat)
    requires
        shift > 126,
    ensures
        v == 0 ==> v * pow2(shift) == 0,
        v == -1 && shift == 127 ==> v * pow2(shift) == i128::MIN,
        fits_i128(v * pow2(shift)) <==> v == 0 || (v == -1 && shift == 127),
{
    lemma_pow2_128();
    lemma_pow2_unfold(127);
    if shift > 127 {
        lemma_pow2_strictly_increases(127, shift);
    }
    if shift > 128 {
        lemma_pow2_strictly_increases(128, shift);
    }
    let p = pow2(shift) as int;
    let h = 0x8000_0000_0000_0000_0000_0000_0000_0000int;
    assert(pow2(127) == h);
    assert(v == 0 ==> v * p == 0) by (nonlinear_arith);
    assert(v == -1 ==> v * p == -p) by (nonlinear_arith);
    assert(v >= 1 ==> v * p >= h) by (nonlinear_arith)
        requires
            p >= h,
            h > 0,
    ;
    assert(v <= -2 ==> v * p <= -2 * h) by (nonlinear_arith)
        requires
            p >= h,
            h > 0,
    ;
}

/// `v * 2^shift`, or `None` when it leaves i128.
fn shift_up(v: i128, shift: u32) -> (r: Option<i128>)
    ensures
        match r {
            Some(w) => shiftable(v as int, shift as int) && w == v * pow2(shift as nat),
            None => !shiftable(v as int, shift as int),
        },
{
    if shift > 126 {
        proof {
            lemma_far_shift(v as int, shift as nat);
        }
        return if v == 0 {
            Some(0)
        } else if v == -1 && shift == 127 {
            Some(i128::MIN)
        } else {
            None
        };
    }
    let mut p: i128 = 1;
    let mut k: u32 = 0;
    assert(pow2(0) == 1) by {
        lemma2_to64();
    }
    while k < shift
        invariant
            k <= shift <= 126,
            p == pow2(k as nat),
        decreases shift - k,
    {
        proof {
            lemma_pow2_unfold((k + 1) as nat);
            lemma_pow2_128();
            if k + 1 < 126 {
                lemma_pow2_strictly_increases((k + 1) as nat, 126);
            }
        }
        p = p * 2;
        k = k + 1;
    }
    let r = p.checked_mul(v);
    assert(p * v == v * p) by (nonlinear_arith);
    r
}

// ---------------------------------------------------------------------------
// Facts
// ---------------------------------------------------------------------------

proof fn lemma_zero_value(d: int, e: int)
    ensures
        Coeff::zero().denotes(0, d, e),
        Coeff::zero().canonical(),
{
    let m = if 0 <= e {
        0
    } else {
        e
    };
    assert(0 * pow2((0 - m) as nat) * d == 0) by (nonlinear_arith);
    assert(0 * pow2((e - m) as nat) * 1 == 0) by (nonlinear_arith);
}

proof fn lemma_positive_quotient(a: nat, g: nat)
    requires
        g > 0,
        a > 0,
        a == (a / g) * g,
    ensures
        a / g > 0,
{
    if a / g == 0 {
        assert((a / g) * g == 0) by (nonlinear_arith)
            requires
                a / g == 0,
        ;
    }
}

proof fn lemma_quotient_bound(a: nat, g: nat)
    requires
        g > 0,
    ensures
        a / g <= a,
{
    lemma_div_nonincreasing(a as int, g as int);
}

/// The value of a stripped fraction.
proof fn lemma_reduced_value(
    num: int,
    den: int,
    e: int,
    g: int,
    po: int,
    kp: nat,
    qo: int,
    kq: nat,
)
    requires
        den != 0,
        num != 0,
        g > 0,
        po > 0,
        qo > 0,
        abs(num) == po * pow2(kp) * g,
        abs(den) == qo * pow2(kq) * g,
    ensures
        same_value(
            if (num < 0) != (den < 0) {
                -po
            } else {
                po
            },
            qo,
            e + kp - kq,
            num,
            den,
            e,
        ),
{
    let e1 = e + kp - kq;
    let m = if e1 <= e {
        e1
    } else {
        e
    };
    let a = pow2((e1 - m) as nat) as int;
    let b = pow2((e - m) as nat) as int;
    let tp = pow2(kp) as int;
    let tq = pow2(kq) as int;
    lemma_pow2_adds((e1 - m) as nat, kq);
    lemma_pow2_adds((e - m) as nat, kp);
    assert((e1 - m) as nat + kq == (e - m) as nat + kp);
    assert(a * tq == b * tp);
    let n1 = if (num < 0) != (den < 0) {
        -po
    } else {
        po
    };
    let an = po * tp * g;
    let ad = qo * tq * g;
    assert(po * a * ad == an * b * qo) by (nonlinear_arith)
        requires
            a * tq == b * tp,
            an == po * tp * g,
            ad == qo * tq * g,
    {
        assert(po * a * (qo * tq * g) == (po * qo * g) * (a * tq)) by (nonlinear_arith);
        assert((po * tp * g) * b * qo == (po * qo * g) * (b * tp)) by (nonlinear_arith);
    }
    if num < 0 {
        assert(num == -an);
        assert((-an) * b * qo == -(an * b * qo)) by (nonlinear_arith);
    }
    if den < 0 {
        assert(den == -ad);
        assert(po * a * (-ad) == -(po * a * ad)) by (nonlinear_arith);
        assert((-po) * a * (-ad) == po * a * ad) by (nonlinear_arith);
    }
    assert((-po) * a * ad == -(po * a * ad)) by (nonlinear_arith);
}

proof fn lemma_gcd_one(n: nat)
    ensures
        gcd(n, 1) == 1,
{
    reveal_with_fuel(gcd, 2);
    assert(n % 1 == 0);
}

proof fn lemma_twos_small(n: nat)
    requires
        n < 0x1_0000_0000_0000_0000_0000_0000_0000_0000,
    ensures
        twos(n) <= 128,
{
    if n > 0 {
        odd_part_times_twos(n);
        if twos(n) > 128 {
            lemma_pow2_128();
            lemma_pow2_strictly_increases(128, twos(n));
            let o = odd_part(n) as int;
            let p = pow2(twos(n)) as int;
            assert(o * p >= p) by (nonlinear_arith)
                requires
                    o >= 1,
                    p > 0,
            ;
        }
    }
}

proof fn lemma_int_reducible(v: i64)
    ensures
        reducible(v as int, 1, 0),
{
    lemma_gcd_one(abs(v as int));
    assert(abs(v as int) / 1 == abs(v as int));
    lemma_twos_small(abs(v as int));
    assert(twos(1) == 0);
}

proof fn lemma_odd_twos(n: nat)
    requires
        n % 2 == 1,
    ensures
        twos(n) == 0,
{
}

proof fn lemma_recip_reducible(c: Coeff)
    requires
        c.canonical(),
        c.num != 0,
        c.exp2 != i32::MIN,
    ensures
        reducible(c.den as int, c.num as int, -c.exp2),
{
    gcd_commutes(abs(c.num as int), c.den as nat);
    assert(gcd(abs(c.den as int), abs(c.num as int)) == 1);
    assert(abs(c.den as int) / 1 == c.den);
    assert(abs(c.num as int) / 1 == abs(c.num as int));
    lemma_odd_twos(abs(c.num as int));
    lemma_odd_twos(c.den as nat);
}

proof fn lemma_not_integer(c: Coeff, v: int)
    requires
        c.canonical(),
        c.num != 0,
        c.den != 1 || c.exp2 < 0,
    ensures
        !c.denotes(v, 1, 0),
{
    assert(pow2(0) == 1) by {
        lemma2_to64();
    }
    let n = abs(c.num as int);
    if !c.denotes(v, 1, 0) {
    } else if c.exp2 < 0 {
        let p = pow2((-c.exp2) as nat) as int;
        assert(c.num * 1 * 1 == v * p * c.den);
        lemma_pow2_unfold((-c.exp2) as nat);
        let h = pow2((-c.exp2 - 1) as nat) as int;
        assert(c.num == 2 * (v * h * c.den)) by (nonlinear_arith)
            requires
                c.num * 1 * 1 == v * p * c.den,
                p == 2 * h,
        ;
        assert(n % 2 == 0);
    } else {
        let p = pow2(c.exp2 as nat) as int;
        assert(c.num * p * 1 == v * 1 * c.den);
        // den divides num * p, so it divides p; being odd it is one.
        let s = if c.num < 0 {
            -v
        } else {
            v
        };
        assert(n * p == s * c.den) by (nonlinear_arith)
            requires
                c.num * p * 1 == v * 1 * c.den,
                n == (if c.num < 0 {
                    -c.num
                } else {
                    c.num as int
                }),
                s == (if c.num < 0 {
                    -v
                } else {
                    v
                }),
        ;
        lemma_divides(c.den as int, n * p, s);
        euclid(n, c.den as nat, p);
        lemma_odd_divisor_of_pow2(c.den as nat, c.exp2 as nat);
    }
}

proof fn lemma_odd_divisor_of_pow2(d: nat, k: nat)
    requires
        d % 2 == 1,
        divides(d as int, pow2(k) as int),
    ensures
        d == 1,
    decreases k,
{
    if k == 0 {
        lemma2_to64();
        lemma_divisor_bound(d as int, 1);
    } else {
        lemma_pow2_unfold(k);
        let p = pow2((k - 1) as nat) as int;
        assert(gcd(2, d) == 1) by {
            reveal_with_fuel(gcd, 4);
            gcd_commutes(2, d);
            assert(gcd(d, 2) == gcd(2, d % 2));
            assert(gcd(2, 1) == gcd(1, 0));
        }
        euclid(2, d, p);
        lemma_odd_divisor_of_pow2(d, (k - 1) as nat);
    }
}

proof fn lemma_sum_with_zero(a: Coeff, b: Coeff)
    requires
        a.canonical(),
        b.canonical(),
        a.num == 0 || b.num == 0,
    ensures
        a.num == 0 ==> a.is_sum(b, Ok(b)),
        b.num == 0 ==> a.is_sum(b, Ok(a)),
{
    let e = a.common_exp(b);
    let s = a.num_at(e) * b.den + b.num_at(e) * a.den;
    assert(pow2(0) == 1) by {
        lemma2_to64();
    }
    if a.num == 0 {
        assert(a.num_at(e) == 0) by (nonlinear_arith)
            requires
                a.num == 0,
                a.num_at(e) == a.num * pow2((a.exp2 - e) as nat),
        ;
        let x = b.num_at(e);
        assert(s == x) by (nonlinear_arith)
            requires
                s == 0 * b.den + x * a.den,
                a.den == 1,
        ;
        assert(a.den * b.den == b.den) by (nonlinear_arith)
            requires
                a.den == 1,
        ;
        assert(b.num * pow2((b.exp2 - e) as nat) * b.den == s * 1 * b.den);
        if b.exp2 as int == e {
        }
        assert(b.denotes(s, b.den as int, e));
    }
    if b.num == 0 {
        assert(b.num_at(e) == 0) by (nonlinear_arith)
            requires
                b.num == 0,
                b.num_at(e) == b.num * pow2((b.exp2 - e) as nat),
        ;
        let x = a.num_at(e);
        assert(s == x) by (nonlinear_arith)
            requires
                s == x * b.den + 0 * a.den,
                b.den == 1,
        ;
        assert(a.den * b.den == a.den) by (nonlinear_arith)
            requires
                b.den == 1,
        ;
        assert(a.num * pow2((a.exp2 - e) as nat) * a.den == s * 1 * a.den);
        assert(a.denotes(s, a.den as int, e));
    }
}

proof fn lemma_num_at_self(a: Coeff, b: Coeff)
    ensures
        a.exp2 == a.common_exp(b) ==> a.num_at(a.common_exp(b)) == a.num,
        b.exp2 == a.common_exp(b) ==> b.num_at(a.common_exp(b)) == b.num,
{
    assert(pow2(0) == 1) by {
        lemma2_to64();
    }
    assert(a.num * 1 == a.num && b.num * 1 == b.num);
}

/// A value equal to a reduced sum equals the sum over the product of the
/// denominators.
proof fn lemma_sum_value(
    s: Coeff,
    a: int,
    c: int,
    b: int,
    d: int,
    g: int,
    e: int,
    ad: int,
    bd: int,
)
    requires
        s.denotes(a * d + c * b, ad * d, e),
        ad == b * g,
        bd == d * g,
    ensures
        s.denotes(a * bd + c * ad, ad * bd, e),
{
    let m = if s.exp2 <= e {
        s.exp2 as int
    } else {
        e
    };
    let u = s.num * pow2((s.exp2 - m) as nat);
    let v = pow2((e - m) as nat) as int;
    let n = a * d + c * b;
    assert(u * (ad * bd) == (a * bd + c * ad) * v * s.den) by (nonlinear_arith)
        requires
            u * (ad * d) == n * v * s.den,
            n == a * d + c * b,
            ad == b * g,
            bd == d * g,
    {
        assert(u * (ad * (d * g)) == (u * (ad * d)) * g) by (nonlinear_arith);
        assert((n * v * s.den) * g == (n * g) * v * s.den) by (nonlinear_arith);
        assert(n * g == a * (d * g) + c * (b * g)) by (nonlinear_arith)
            requires
                n == a * d + c * b,
        ;
    }
}

proof fn lemma_product_canonical(an: nat, ad: nat, bn: nat, bd: nat, g1: nat, g2: nat)
    requires
        an % 2 == 1,
        ad % 2 == 1,
        bn % 2 == 1,
        bd % 2 == 1,
        gcd(an, ad) == 1,
        gcd(bn, bd) == 1,
        g1 == gcd(an, bd),
        g2 == gcd(bn, ad),
    ensures
        ((an / g1) * (bn / g2)) % 2 == 1,
        ((ad / g2) * (bd / g1)) % 2 == 1,
        gcd((an / g1) * (bn / g2), (ad / g2) * (bd / g1)) == 1,
{
    quotients_are_coprime(an, bd);
    quotients_are_coprime(bn, ad);
    let p = an / g1;
    let q = bn / g2;
    let r = ad / g2;
    let s = bd / g1;
    lemma_mul_is_commutative(p as int, g1 as int);
    lemma_mul_is_commutative(q as int, g2 as int);
    lemma_mul_is_commutative(r as int, g2 as int);
    lemma_mul_is_commutative(s as int, g1 as int);
    lemma_divides(p as int, an as int, g1 as int);
    lemma_divides(q as int, bn as int, g2 as int);
    lemma_divides(r as int, ad as int, g2 as int);
    lemma_divides(s as int, bd as int, g1 as int);
    divisor_of_odd(p, an);
    divisor_of_odd(q, bn);
    divisor_of_odd(r, ad);
    divisor_of_odd(s, bd);
    product_of_odds(p, q);
    product_of_odds(r, s);
    divisors_of_coprime(p, r, an, ad);
    divisors_of_coprime(q, s, bn, bd);
    coprime_to_product(p, r, s);
    coprime_to_product(q, r, s);
    gcd_commutes(p, r * s);
    gcd_commutes(q, r * s);
    coprime_to_product(r * s, p, q);
    gcd_commutes(r * s, p * q);
}

// ---------------------------------------------------------------------------
// Laws
// ---------------------------------------------------------------------------

/// Equal values always have equal fields: two canonical coefficients that are
/// the same number are the same coefficient.
pub proof fn canonical_form_is_unique(a: Coeff, b: Coeff)
    requires
        a.canonical(),
        b.canonical(),
        a.denotes(b.num as int, b.den as int, b.exp2 as int),
    ensures
        a == b,
{
    let e = a.common_exp(b);
    let pa = pow2((a.exp2 - e) as nat) as int;
    let pb = pow2((b.exp2 - e) as nat) as int;
    lemma_pow2_pos((a.exp2 - e) as nat);
    lemma_pow2_pos((b.exp2 - e) as nat);
    assert(a.num * pa * b.den == b.num * pb * a.den);
    if a.num == 0 || b.num == 0 {
        if a.num == 0 && b.num != 0 {
            assert(b.num * pb * a.den != 0) by (nonlinear_arith)
                requires
                    b.num != 0,
                    pb > 0,
                    a.den > 0,
            ;
            assert(a.num * pa * b.den == 0) by (nonlinear_arith)
                requires
                    a.num == 0,
            ;
        }
        if b.num == 0 && a.num != 0 {
            assert(a.num * pa * b.den != 0) by (nonlinear_arith)
                requires
                    a.num != 0,
                    pa > 0,
                    b.den > 0,
            ;
            assert(b.num * pb * a.den == 0) by (nonlinear_arith)
                requires
                    b.num == 0,
            ;
        }
    } else {
        lemma_same_exponent(a, b);
        lemma_same_exponent_swapped(a, b);
        assert(pow2(0) == 1) by {
            lemma2_to64();
        }
        assert(a.num * b.den == b.num * a.den) by (nonlinear_arith)
            requires
                a.num * pa * b.den == b.num * pb * a.den,
                pa == 1,
                pb == 1,
        ;
        lemma_same_denominator(a, b);
        lemma_same_denominator(b, a);
        lemma_divisor_bound(a.den as int, b.den as int);
        lemma_divisor_bound(b.den as int, a.den as int);
        assert(a.num == b.num) by (nonlinear_arith)
            requires
                a.num * b.den == b.num * a.den,
                a.den == b.den,
                a.den > 0,
        ;
    }
}

proof fn lemma_same_exponent(a: Coeff, b: Coeff)
    requires
        a.canonical(),
        b.canonical(),
        a.num != 0,
        b.num != 0,
        a.denotes(b.num as int, b.den as int, b.exp2 as int),
    ensures
        a.exp2 <= b.exp2,
{
    if a.exp2 > b.exp2 {
        let k = (a.exp2 - b.exp2) as nat;
        assert(pow2(0) == 1) by {
            lemma2_to64();
        }
        lemma_pow2_unfold(k);
        let h = pow2((k - 1) as nat) as int;
        let p = pow2(k) as int;
        assert(a.num * p * b.den == b.num * 1 * a.den);
        assert(b.num * a.den == 2 * (a.num * h * b.den)) by (nonlinear_arith)
            requires
                a.num * p * b.den == b.num * 1 * a.den,
                p == 2 * h,
        ;
        product_of_odds(abs(b.num as int), a.den as nat);
        abs_of_product(b.num as int, a.den as int);
        assert(false);
    }
}

proof fn lemma_same_exponent_swapped(a: Coeff, b: Coeff)
    requires
        a.canonical(),
        b.canonical(),
        a.num != 0,
        b.num != 0,
        a.denotes(b.num as int, b.den as int, b.exp2 as int),
    ensures
        b.exp2 <= a.exp2,
{
    assert(b.denotes(a.num as int, a.den as int, a.exp2 as int));
    lemma_same_exponent(b, a);
}

proof fn lemma_same_denominator(a: Coeff, b: Coeff)
    requires
        a.canonical(),
        a.num != 0,
        a.num * b.den == b.num * a.den,
        b.den > 0,
    ensures
        divides(a.den as int, b.den as int),
{
    let n = abs(a.num as int);
    let k = if a.num < 0 {
        -b.num
    } else {
        b.num as int
    };
    assert(n * b.den == k * a.den) by (nonlinear_arith)
        requires
            a.num * b.den == b.num * a.den,
            n == (if a.num < 0 {
                -a.num
            } else {
                a.num as int
            }),
            k == (if a.num < 0 {
                -b.num
            } else {
                b.num as int
            }),
    ;
    lemma_divides(a.den as int, n * b.den, k);
    euclid(n, a.den as nat, b.den as int);
}

proof fn lemma_gcd_self(d: nat)
    requires
        d > 0,
    ensures
        gcd(d, d) == d,
{
    reveal_with_fuel(gcd, 2);
    lemma_mod_self_0(d as int);
}

/// A coefficient that is the number zero is the coefficient zero.
pub proof fn lemma_zero_denoted(c: Coeff, d: int, e: int)
    requires
        c.canonical(),
        d > 0,
        c.denotes(0, d, e),
    ensures
        c == Coeff::zero(),
{
    let m = if c.exp2 <= e {
        c.exp2 as int
    } else {
        e
    };
    let p = pow2((c.exp2 - m) as nat) as int;
    let q = pow2((e - m) as nat) as int;
    lemma_pow2_pos((c.exp2 - m) as nat);
    assert(0 * q * c.den == 0) by (nonlinear_arith);
    assert(c.num == 0) by (nonlinear_arith)
        requires
            c.num * p * d == 0,
            p > 0,
            d > 0,
    ;
}

/// `x + (-x)` is exactly zero.
pub proof fn adding_the_negation_gives_zero(a: Coeff, r: Result<Coeff, CoeffError>)
    requires
        a.canonical(),
        a.is_sum(a.spec_neg(), r),
    ensures
        r == Ok::<Coeff, CoeffError>(Coeff::zero()),
{
    let n = a.spec_neg();
    if a.num == i128::MIN {
        assert(abs(a.num as int) % 2 == 0);
    }
    assert(n.num == -a.num);
    let e = a.exp2 as int;
    lemma_num_at_self(a, n);
    lemma_gcd_self(a.den as nat);
    lemma_div_by_self(a.den as int);
    assert(a.num * 1 == a.num && n.num * 1 == n.num && a.den * 1 == a.den);
    assert(a.addable(n));
    let dd = a.den * a.den;
    assert(dd > 0) by (nonlinear_arith)
        requires
            dd == a.den * a.den,
            a.den > 0,
    ;
    assert(a.num * a.den + n.num * a.den == 0) by (nonlinear_arith)
        requires
            n.num == -a.num,
    ;
    match r {
        Ok(c) => {
            lemma_zero_denoted(c, dd, e);
        },
        Err(_) => {},
    }
}

/// `x * (1 / x)` is exactly one.
pub proof fn multiplying_by_the_reciprocal_gives_one(
    a: Coeff,
    b: Coeff,
    r: Result<Coeff, CoeffError>,
)
    requires
        a.canonical(),
        b.canonical(),
        a.num != 0,
        a.exp2 != i32::MIN,
        b.denotes(a.den as int, a.num as int, -a.exp2),
        a.is_product(b, r),
    ensures
        r == Ok::<Coeff, CoeffError>(Coeff::one()),
{
    // The reciprocal swaps numerator and denominator.
    let inv = Coeff {
        num: (if a.num < 0 {
            -a.den
        } else {
            a.den as int
        }) as i128,
        den: abs(a.num as int) as i128,
        exp2: (-a.exp2) as i32,
    };
    if a.num == i128::MIN {
        assert(abs(a.num as int) % 2 == 0);
    }
    gcd_commutes(abs(a.num as int), a.den as nat);
    assert(inv.canonical());
    assert(pow2(0) == 1) by {
        lemma2_to64();
    }
    let n = a.num as int;
    assert(inv.num * n == a.den * inv.den) by (nonlinear_arith)
        requires
            n != 0,
            inv.num == (if n < 0 {
                -a.den
            } else {
                a.den as int
            }),
            inv.den == (if n < 0 {
                -n
            } else {
                n
            }),
    ;
    assert(inv.num * 1 * n == inv.num * n && a.den * 1 * inv.den == a.den * inv.den);
    assert(inv.denotes(a.den as int, a.num as int, -a.exp2));
    lemma_same_denoted(b, inv, a.den as int, a.num as int, -a.exp2);
    canonical_form_is_unique(b, inv);
    // The product cancels completely.
    lemma_gcd_self(abs(n));
    lemma_gcd_self(a.den as nat);
    lemma_div_by_self(abs(n) as int);
    lemma_div_by_self(a.den as int);
    assert(1nat * 1nat == 1);
    assert(a.multipliable(b));
    lemma_gcd_one(1);
    let d = a.den * b.den;
    assert(d != 0) by (nonlinear_arith)
        requires
            d == a.den * b.den,
            a.den > 0,
            b.den > 0,
    ;
    assert(n * b.num == d) by (nonlinear_arith)
        requires
            b.num * n == a.den * b.den,
            d == a.den * b.den,
    ;
    assert(1 * 1 * d == d * 1 * 1);
    assert(Coeff::one().denotes(n * b.num, d, 0));
    match r {
        Ok(c) => {
            lemma_same_denoted(c, Coeff::one(), d, d, 0);
            canonical_form_is_unique(c, Coeff::one());
        },
        Err(_) => {},
    }
}

/// Two coefficients that are both the number `n * 2^e / d` are the same
/// number.
pub proof fn lemma_same_denoted(a: Coeff, b: Coeff, n: int, d: int, e: int)
    requires
        a.den > 0,
        b.den > 0,
        d != 0,
        a.denotes(n, d, e),
        b.denotes(n, d, e),
    ensures
        a.denotes(b.num as int, b.den as int, b.exp2 as int),
{
    // Bring everything to one exponent below all three.
    let m = if a.exp2 <= b.exp2 && a.exp2 <= e {
        a.exp2 as int
    } else if b.exp2 <= e {
        b.exp2 as int
    } else {
        e
    };
    let pa = pow2((a.exp2 - m) as nat) as int;
    let pb = pow2((b.exp2 - m) as nat) as int;
    let pe = pow2((e - m) as nat) as int;
    lemma_rescale(a.num as int, a.den as int, a.exp2 as int, n, d, e, m);
    lemma_rescale(b.num as int, b.den as int, b.exp2 as int, n, d, e, m);
    assert(a.num * pa * d == n * pe * a.den);
    assert(b.num * pb * d == n * pe * b.den);
    assert(a.num * pa * b.den == b.num * pb * a.den) by (nonlinear_arith)
        requires
            a.num * pa * d == n * pe * a.den,
            b.num * pb * d == n * pe * b.den,
            d != 0,
    {
        let x = a.num * pa;
        let y = b.num * pb;
        let z = n * pe;
        assert((x * b.den) * d == (y * a.den) * d) by (nonlinear_arith)
            requires
                x * d == z * a.den,
                y * d == z * b.den,
        ;
        assert(x * b.den == y * a.den) by (nonlinear_arith)
            requires
                (x * b.den) * d == (y * a.den) * d,
                d != 0,
        ;
    }
    lemma_unscale(
        a.num as int,
        a.den as int,
        a.exp2 as int,
        b.num as int,
        b.den as int,
        b.exp2 as int,
        m,
    );
}

/// Equality of values may be stated at any exponent below both.
proof fn lemma_rescale(n1: int, d1: int, e1: int, n2: int, d2: int, e2: int, m: int)
    requires
        same_value(n1, d1, e1, n2, d2, e2),
        m <= e1,
        m <= e2,
    ensures
        n1 * pow2((e1 - m) as nat) * d2 == n2 * pow2((e2 - m) as nat) * d1,
{
    let k = if e1 <= e2 {
        e1
    } else {
        e2
    };
    lemma_pow2_adds((e1 - k) as nat, (k - m) as nat);
    lemma_pow2_adds((e2 - k) as nat, (k - m) as nat);
    let p1 = pow2((e1 - k) as nat) as int;
    let p2 = pow2((e2 - k) as nat) as int;
    let t = pow2((k - m) as nat) as int;
    assert((e1 - k) as nat + (k - m) as nat == (e1 - m) as nat);
    assert((e2 - k) as nat + (k - m) as nat == (e2 - m) as nat);
    assert(n1 * (p1 * t) * d2 == n2 * (p2 * t) * d1) by (nonlinear_arith)
        requires
            n1 * p1 * d2 == n2 * p2 * d1,
    {
        assert(n1 * (p1 * t) * d2 == (n1 * p1 * d2) * t) by (nonlinear_arith);
        assert(n2 * (p2 * t) * d1 == (n2 * p2 * d1) * t) by (nonlinear_arith);
    }
}

proof fn lemma_unscale(n1: int, d1: int, e1: int, n2: int, d2: int, e2: int, m: int)
    requires
        n1 * pow2((e1 - m) as nat) * d2 == n2 * pow2((e2 - m) as nat) * d1,
        m <= e1,
        m <= e2,
    ensures
        same_value(n1, d1, e1, n2, d2, e2),
{
    let k = if e1 <= e2 {
        e1
    } else {
        e2
    };
    lemma_pow2_adds((e1 - k) as nat, (k - m) as nat);
    lemma_pow2_adds((e2 - k) as nat, (k - m) as nat);
    lemma_pow2_pos((k - m) as nat);
    let p1 = pow2((e1 - k) as nat) as int;
    let p2 = pow2((e2 - k) as nat) as int;
    let t = pow2((k - m) as nat) as int;
    assert((e1 - k) as nat + (k - m) as nat == (e1 - m) as nat);
    assert((e2 - k) as nat + (k - m) as nat == (e2 - m) as nat);
    assert(n1 * p1 * d2 == n2 * p2 * d1) by (nonlinear_arith)
        requires
            n1 * (p1 * t) * d2 == n2 * (p2 * t) * d1,
            t > 0,
    {
        assert(n1 * (p1 * t) * d2 == (n1 * p1 * d2) * t) by (nonlinear_arith);
        assert(n2 * (p2 * t) * d1 == (n2 * p2 * d1) * t) by (nonlinear_arith);
        let u = n1 * p1 * d2;
        let v = n2 * p2 * d1;
        assert(u == v) by (nonlinear_arith)
            requires
                u * t == v * t,
                t > 0,
        ;
    }
}

/// A sum does not depend on the order of its operands.
pub proof fn addition_commutes(
    a: Coeff,
    b: Coeff,
    x: Result<Coeff, CoeffError>,
    y: Result<Coeff, CoeffError>,
)
    requires
        a.canonical(),
        b.canonical(),
        a.is_sum(b, x),
        b.is_sum(a, y),
    ensures
        x == y,
{
    gcd_commutes(a.den as nat, b.den as nat);
    let g = gcd(a.den as nat, b.den as nat) as int;
    quotients_are_coprime(a.den as nat, b.den as nat);
    let qa = a.den as int / g;
    let qb = b.den as int / g;
    assert(a.den * qb == b.den * qa) by (nonlinear_arith)
        requires
            a.den == qa * g,
            b.den == qb * g,
    ;
    let e = a.common_exp(b);
    assert(a.addable(b) == b.addable(a));
    let n = a.num_at(e) * b.den + b.num_at(e) * a.den;
    let d = a.den * b.den;
    assert(d == b.den * a.den) by (nonlinear_arith)
        requires
            d == a.den * b.den,
    ;
    assert(d != 0) by (nonlinear_arith)
        requires
            d == a.den * b.den,
            a.den > 0,
            b.den > 0,
    ;
    match (x, y) {
        (Ok(c1), Ok(c2)) => {
            lemma_same_denoted(c1, c2, n, d, e);
            canonical_form_is_unique(c1, c2);
        },
        _ => {},
    }
}

/// A product does not depend on the order of its operands.
pub proof fn multiplication_commutes(
    a: Coeff,
    b: Coeff,
    x: Result<Coeff, CoeffError>,
    y: Result<Coeff, CoeffError>,
)
    requires
        a.canonical(),
        b.canonical(),
        a.is_product(b, x),
        b.is_product(a, y),
    ensures
        x == y,
{
    let g1 = gcd(abs(a.num as int), b.den as nat);
    let g2 = gcd(abs(b.num as int), a.den as nat);
    lemma_mul_is_commutative((abs(a.num as int) / g1) as int, (abs(b.num as int) / g2) as int);
    lemma_mul_is_commutative((a.den as nat / g2) as int, (b.den as nat / g1) as int);
    assert(a.multipliable(b) == b.multipliable(a));
    lemma_mul_is_commutative(a.num as int, b.num as int);
    lemma_mul_is_commutative(a.den as int, b.den as int);
    let d = a.den * b.den;
    assert(d != 0) by (nonlinear_arith)
        requires
            d == a.den * b.den,
            a.den > 0,
            b.den > 0,
    ;
    match (x, y) {
        (Ok(c1), Ok(c2)) => {
            lemma_same_denoted(c1, c2, a.num * b.num, d, a.exp2 + b.exp2);
            canonical_form_is_unique(c1, c2);
        },
        _ => {},
    }
}

/// The numerator of a sum, stated at an exponent below all three.
proof fn lemma_sum_at(a: Coeff, b: Coeff, c: Coeff, m: int)
    requires
        a.is_sum(b, Ok(c)),
        m <= a.exp2,
        m <= b.exp2,
        m <= c.exp2,
    ensures
        c.num_at(m) * (a.den * b.den) == (a.num_at(m) * b.den + b.num_at(m) * a.den) * c.den,
{
    let e = a.common_exp(b);
    let n = a.num_at(e) * b.den + b.num_at(e) * a.den;
    lemma_rescale(c.num as int, c.den as int, c.exp2 as int, n, a.den * b.den, e, m);
    let t = pow2((e - m) as nat) as int;
    lemma_num_below(a, e, m);
    lemma_num_below(b, e, m);
    let x = a.num_at(e);
    let y = b.num_at(e);
    assert((x * b.den + y * a.den) * t == (x * t) * b.den + (y * t) * a.den) by (nonlinear_arith);
}

/// A numerator at a still smaller exponent.
proof fn lemma_num_below(c: Coeff, e: int, m: int)
    requires
        m <= e <= c.exp2,
    ensures
        c.num_at(m) == c.num_at(e) * pow2((e - m) as nat),
{
    lemma_pow2_adds((c.exp2 - e) as nat, (e - m) as nat);
    assert((c.exp2 - e) as nat + (e - m) as nat == (c.exp2 - m) as nat);
    let p = pow2((c.exp2 - e) as nat) as int;
    let q = pow2((e - m) as nat) as int;
    assert(c.num * (p * q) == (c.num * p) * q) by (nonlinear_arith);
}

/// The sum of two fractions, one of which is itself a sum.
proof fn lemma_sum_of_three(
    na: int,
    ad: int,
    nb: int,
    bd: int,
    nc: int,
    cd: int,
    ns: int,
    sd: int,
    nx: int,
    xd: int,
)
    requires
        ns * (ad * bd) == (na * bd + nb * ad) * sd,
        nx * (sd * cd) == (ns * cd + nc * sd) * xd,
        sd > 0,
    ensures
        nx * (ad * bd * cd) == (na * bd * cd + nb * ad * cd + nc * ad * bd) * xd,
{
    let s = na * bd * cd + nb * ad * cd + nc * ad * bd;
    let u = na * bd + nb * ad;
    let w = ad * bd;
    assert(s == u * cd + nc * w) by (nonlinear_arith)
        requires
            s == na * bd * cd + nb * ad * cd + nc * ad * bd,
            u == na * bd + nb * ad,
            w == ad * bd,
    ;
    assert((nx * (w * cd)) * sd == (nx * (sd * cd)) * w) by (nonlinear_arith);
    assert((ns * cd + nc * sd) * xd * w == ((ns * w) * cd + nc * sd * w) * xd) by (nonlinear_arith);
    assert((u * sd) * cd == (u * cd) * sd) by (nonlinear_arith);
    assert(nc * sd * w == (nc * w) * sd) by (nonlinear_arith);
    let (v, z) = (u * cd, nc * w);
    assert((v * sd + z * sd) * xd == ((v + z) * xd) * sd) by (nonlinear_arith);
    assert((nx * (w * cd)) * sd == (s * xd) * sd);
    assert(nx * (w * cd) == s * xd) by (nonlinear_arith)
        requires
            (nx * (w * cd)) * sd == (s * xd) * sd,
            sd > 0,
    ;
}

/// Two fractions equal to a third are equal.
proof fn lemma_equal_fractions(n1: int, d1: int, n2: int, d2: int, n: int, d: int)
    requires
        n1 * d == n * d1,
        n2 * d == n * d2,
        d != 0,
    ensures
        n1 * d2 == n2 * d1,
{
    assert((n1 * d2) * d == (n2 * d1) * d) by (nonlinear_arith)
        requires
            n1 * d == n * d1,
            n2 * d == n * d2,
    ;
    assert(n1 * d2 == n2 * d1) by (nonlinear_arith)
        requires
            (n1 * d2) * d == (n2 * d1) * d,
            d != 0,
    ;
}

pub open spec fn smaller(a: int, b: int) -> int {
    if a <= b {
        a
    } else {
        b
    }
}

/// Where all four sums can be formed, a sum of three does not depend on how it
/// is grouped.
pub proof fn addition_is_associative(
    a: Coeff,
    b: Coeff,
    c: Coeff,
    ab: Coeff,
    bc: Coeff,
    x: Coeff,
    y: Coeff,
)
    requires
        a.canonical(),
        b.canonical(),
        c.canonical(),
        a.is_sum(b, Ok(ab)),
        b.is_sum(c, Ok(bc)),
        ab.is_sum(c, Ok(x)),
        a.is_sum(bc, Ok(y)),
    ensures
        x == y,
{
    let m = smaller(
        smaller(smaller(a.exp2 as int, b.exp2 as int), smaller(c.exp2 as int, ab.exp2 as int)),
        smaller(bc.exp2 as int, smaller(x.exp2 as int, y.exp2 as int)),
    );
    lemma_sum_at(a, b, ab, m);
    lemma_sum_at(b, c, bc, m);
    lemma_sum_at(ab, c, x, m);
    lemma_sum_at(a, bc, y, m);
    let (na, nb, nc) = (a.num_at(m), b.num_at(m), c.num_at(m));
    let (ad, bd, cd) = (a.den as int, b.den as int, c.den as int);
    lemma_sum_of_three(
        na,
        ad,
        nb,
        bd,
        nc,
        cd,
        ab.num_at(m),
        ab.den as int,
        x.num_at(m),
        x.den as int,
    );
    assert(ad * bc.den == bc.den * ad) by (nonlinear_arith);
    lemma_sum_of_three(
        nb,
        bd,
        nc,
        cd,
        na,
        ad,
        bc.num_at(m),
        bc.den as int,
        y.num_at(m),
        y.den as int,
    );
    let s = na * bd * cd + nb * ad * cd + nc * ad * bd;
    let d = ad * bd * cd;
    assert(bd * cd * ad == d) by (nonlinear_arith)
        requires
            d == ad * bd * cd,
    ;
    assert(nb * cd * ad + nc * bd * ad + na * bd * cd == s) by (nonlinear_arith)
        requires
            s == na * bd * cd + nb * ad * cd + nc * ad * bd,
    ;
    assert(d != 0) by (nonlinear_arith)
        requires
            d == ad * bd * cd,
            ad > 0,
            bd > 0,
            cd > 0,
    ;
    lemma_equal_fractions(x.num_at(m), x.den as int, y.num_at(m), y.den as int, s, d);
    lemma_unscale(
        x.num as int,
        x.den as int,
        x.exp2 as int,
        y.num as int,
        y.den as int,
        y.exp2 as int,
        m,
    );
    canonical_form_is_unique(x, y);
}

/// A product with a coefficient is a product with the number it denotes.
proof fn lemma_scaled_denoted(c: Coeff, x: Coeff, n: int, d: int, e: int, k: int, l: int, f: int)
    requires
        c.den > 0,
        c.denotes(n, d, e),
        x.denotes(c.num * k, c.den * l, c.exp2 + f),
    ensures
        x.denotes(n * k, d * l, e + f),
{
    let m = smaller(x.exp2 as int, smaller(c.exp2 + f, e + f));
    lemma_rescale(c.num as int, c.den as int, c.exp2 as int, n, d, e, m - f);
    lemma_rescale(
        x.num as int,
        x.den as int,
        x.exp2 as int,
        c.num * k,
        c.den * l,
        c.exp2 + f,
        m,
    );
    assert(c.exp2 - (m - f) == c.exp2 + f - m);
    assert(e - (m - f) == e + f - m);
    let v = x.num * pow2((x.exp2 - m) as nat);
    let p = pow2((c.exp2 + f - m) as nat) as int;
    let q = pow2((e + f - m) as nat) as int;
    let (cn, cd, xd) = (c.num as int, c.den as int, x.den as int);
    assert(cn * p * d == n * q * cd);
    assert(v * (cd * l) == cn * k * p * xd);
    assert((v * (d * l)) * cd == (v * (cd * l)) * d) by (nonlinear_arith);
    assert((cn * k * p * xd) * d == (cn * p * d) * (k * xd)) by (nonlinear_arith);
    assert((n * q * cd) * (k * xd) == (n * k * q * xd) * cd) by (nonlinear_arith);
    assert(v * (d * l) == n * k * q * xd) by (nonlinear_arith)
        requires
            (v * (d * l)) * cd == (n * k * q * xd) * cd,
            cd > 0,
    ;
    lemma_unscale(
        x.num as int,
        x.den as int,
        x.exp2 as int,
        n * k,
        d * l,
        e + f,
        m,
    );
}

/// Where all four products can be formed, a product of three does not depend
/// on how it is grouped.
pub proof fn multiplication_is_associative(
    a: Coeff,
    b: Coeff,
    c: Coeff,
    ab: Coeff,
    bc: Coeff,
    x: Coeff,
    y: Coeff,
)
    requires
        a.canonical(),
        b.canonical(),
        c.canonical(),
        a.is_product(b, Ok(ab)),
        b.is_product(c, Ok(bc)),
        ab.is_product(c, Ok(x)),
        a.is_product(bc, Ok(y)),
    ensures
        x == y,
{
    let (an, bn, cn) = (a.num as int, b.num as int, c.num as int);
    let (ad, bd, cd) = (a.den as int, b.den as int, c.den as int);
    let (ea, eb, ec) = (a.exp2 as int, b.exp2 as int, c.exp2 as int);
    lemma_scaled_denoted(ab, x, an * bn, ad * bd, ea + eb, cn, cd, ec);
    lemma_mul_is_commutative(an, bc.num as int);
    lemma_mul_is_commutative(ad, bc.den as int);
    lemma_scaled_denoted(bc, y, bn * cn, bd * cd, eb + ec, an, ad, ea);
    assert(bn * cn * an == an * bn * cn) by (nonlinear_arith);
    assert(bd * cd * ad == ad * bd * cd) by (nonlinear_arith);
    let d = ad * bd * cd;
    assert(d != 0) by (nonlinear_arith)
        requires
            d == ad * bd * cd,
            ad > 0,
            bd > 0,
            cd > 0,
    ;
    lemma_same_denoted(x, y, an * bn * cn, d, ea + eb + ec);
    canonical_form_is_unique(x, y);
}

/// The numerator of a product, stated at an exponent below it.
proof fn lemma_product_at(a: Coeff, b: Coeff, c: Coeff, m: int)
    requires
        a.is_product(b, Ok(c)),
        m <= c.exp2,
        m - a.exp2 <= b.exp2,
    ensures
        c.num_at(m) * (a.den * b.den) == a.num * b.num_at(m - a.exp2) * c.den,
{
    lemma_rescale(
        c.num as int,
        c.den as int,
        c.exp2 as int,
        a.num * b.num,
        a.den * b.den,
        a.exp2 + b.exp2,
        m,
    );
    assert(b.exp2 - (m - a.exp2) == a.exp2 + b.exp2 - m);
    let p = pow2((a.exp2 + b.exp2 - m) as nat) as int;
    assert(a.num * b.num * p == a.num * (b.num * p)) by (nonlinear_arith);
}

/// `k` times a sum of fractions.
proof fn lemma_scaled_sum(
    k: int,
    kd: int,
    nb: int,
    bd: int,
    nc: int,
    cd: int,
    ns: int,
    sd: int,
    nx: int,
    xd: int,
)
    requires
        ns * (bd * cd) == (nb * cd + nc * bd) * sd,
        nx * (kd * sd) == k * ns * xd,
        sd > 0,
    ensures
        nx * (kd * (bd * cd)) == k * (nb * cd + nc * bd) * xd,
{
    let w = bd * cd;
    let u = nb * cd + nc * bd;
    assert((nx * (kd * w)) * sd == (nx * (kd * sd)) * w) by (nonlinear_arith);
    assert((k * ns * xd) * w == k * (ns * w) * xd) by (nonlinear_arith);
    assert(k * (u * sd) * xd == (k * u * xd) * sd) by (nonlinear_arith);
    assert(nx * (kd * w) == k * u * xd) by (nonlinear_arith)
        requires
            (nx * (kd * w)) * sd == (k * u * xd) * sd,
            sd > 0,
    ;
}

/// A sum of fractions, each `k` times another.
proof fn lemma_sum_of_scaled(
    k: int,
    kd: int,
    nb: int,
    bd: int,
    nc: int,
    cd: int,
    np: int,
    pd: int,
    nq: int,
    qd: int,
    ny: int,
    yd: int,
)
    requires
        np * (kd * bd) == k * nb * pd,
        nq * (kd * cd) == k * nc * qd,
        ny * (pd * qd) == (np * qd + nq * pd) * yd,
        pd > 0,
        qd > 0,
    ensures
        ny * (kd * (bd * cd)) == k * (nb * cd + nc * bd) * yd,
{
    let d = kd * (bd * cd);
    let w = pd * qd;
    assert(w > 0) by (nonlinear_arith)
        requires
            w == pd * qd,
            pd > 0,
            qd > 0,
    ;
    let (f, g) = (np * qd, nq * pd);
    assert(f * d == (np * (kd * bd)) * (cd * qd)) by (nonlinear_arith)
        requires
            f == np * qd,
            d == kd * (bd * cd),
    ;
    assert(g * d == (nq * (kd * cd)) * (bd * pd)) by (nonlinear_arith)
        requires
            g == nq * pd,
            d == kd * (bd * cd),
    ;
    assert((k * nb * pd) * (cd * qd) == (k * (nb * cd)) * w) by (nonlinear_arith)
        requires
            w == pd * qd,
    ;
    assert((k * nc * qd) * (bd * pd) == (k * (nc * bd)) * w) by (nonlinear_arith)
        requires
            w == pd * qd,
    ;
    let (u, v) = (nb * cd, nc * bd);
    assert((ny * d) * w == (ny * w) * d) by (nonlinear_arith);
    assert(((f + g) * yd) * d == (f * d + g * d) * yd) by (nonlinear_arith);
    assert(((k * u) * w + (k * v) * w) * yd == (k * (u + v) * yd) * w) by (nonlinear_arith);
    assert(ny * d == k * (u + v) * yd) by (nonlinear_arith)
        requires
            (ny * d) * w == (k * (u + v) * yd) * w,
            w > 0,
    ;
}

/// Where all five operations can be formed, multiplication distributes over
/// addition.
pub proof fn multiplication_distributes_over_addition(
    a: Coeff,
    b: Coeff,
    c: Coeff,
    sum: Coeff,
    ab: Coeff,
    ac: Coeff,
    x: Coeff,
    y: Coeff,
)
    requires
        a.canonical(),
        b.canonical(),
        c.canonical(),
        b.is_sum(c, Ok(sum)),
        a.is_product(sum, Ok(x)),
        a.is_product(b, Ok(ab)),
        a.is_product(c, Ok(ac)),
        ab.is_sum(ac, Ok(y)),
    ensures
        x == y,
{
    let ea = a.exp2 as int;
    let m = smaller(
        smaller(smaller(ab.exp2 as int, ac.exp2 as int), smaller(x.exp2 as int, y.exp2 as int)),
        smaller(smaller(b.exp2 + ea, c.exp2 + ea), sum.exp2 + ea),
    );
    let low = m - ea;
    lemma_sum_at(b, c, sum, low);
    lemma_product_at(a, sum, x, m);
    lemma_product_at(a, b, ab, m);
    lemma_product_at(a, c, ac, m);
    lemma_sum_at(ab, ac, y, m);
    let (k, kd) = (a.num as int, a.den as int);
    let (nb, bd, nc, cd) = (b.num_at(low), b.den as int, c.num_at(low), c.den as int);
    lemma_scaled_sum(
        k,
        kd,
        nb,
        bd,
        nc,
        cd,
        sum.num_at(low),
        sum.den as int,
        x.num_at(m),
        x.den as int,
    );
    lemma_sum_of_scaled(
        k,
        kd,
        nb,
        bd,
        nc,
        cd,
        ab.num_at(m),
        ab.den as int,
        ac.num_at(m),
        ac.den as int,
        y.num_at(m),
        y.den as int,
    );
    let d = kd * (bd * cd);
    assert(d != 0) by (nonlinear_arith)
        requires
            d == kd * (bd * cd),
            kd > 0,
            bd > 0,
            cd > 0,
    ;
    lemma_equal_fractions(
        x.num_at(m),
        x.den as int,
        y.num_at(m),
        y.den as int,
        k * (nb * cd + nc * bd),
        d,
    );
    lemma_unscale(
        x.num as int,
        x.den as int,
        x.exp2 as int,
        y.num as int,
        y.den as int,
        y.exp2 as int,
        m,
    );
    canonical_form_is_unique(x, y);
}

/// A number within reach has a canonical form.
pub proof fn a_reducible_number_has_a_canonical_form(num: int, den: int, exp2: int) -> (c: Coeff)
    requires
        den != 0,
        fits_i128(num),
        fits_i128(den),
        fits_i32(exp2),
        reducible(num, den, exp2),
    ensures
        c.canonical(),
        c.denotes(num, den, exp2),
{
    if num == 0 {
        lemma_zero_value(den, exp2);
        Coeff::zero()
    } else {
        let an = abs(num);
        let ad = abs(den);
        gcd_divides(an, ad);
        let g = gcd(an, ad);
        quotients_are_coprime(an, ad);
        let p = an / g;
        let q = ad / g;
        lemma_positive_quotient(an, g);
        lemma_positive_quotient(ad, g);
        let (po, kp, qo, kq) = (odd_part(p), twos(p), odd_part(q), twos(q));
        odd_part_times_twos(p);
        odd_part_times_twos(q);
        lemma_quotient_bound(an, g);
        lemma_quotient_bound(ad, g);
        odd_part_divides(p);
        odd_part_divides(q);
        lemma_divisor_bound(po as int, p as int);
        lemma_divisor_bound(qo as int, q as int);
        divisors_of_coprime(po, qo, p, q);
        lemma_reduced_value(num, den, exp2, g as int, po as int, kp, qo as int, kq);
        Coeff {
            num: (if (num < 0) != (den < 0) {
                -(po as int)
            } else {
                po as int
            }) as i128,
            den: qo as i128,
            exp2: (exp2 + kp - kq) as i32,
        }
    }
}

/// Two coefficients that can be added have a sum.
pub proof fn an_addable_pair_has_a_sum(a: Coeff, b: Coeff) -> (c: Coeff)
    requires
        a.canonical(),
        b.canonical(),
        a.addable(b),
    ensures
        a.is_sum(b, Ok(c)),
{
    if a.num == 0 {
        lemma_sum_with_zero(a, b);
        b
    } else if b.num == 0 {
        lemma_sum_with_zero(a, b);
        a
    } else {
        let e = a.common_exp(b);
        let g = gcd(a.den as nat, b.den as nat) as int;
        gcd_divides(a.den as nat, b.den as nat);
        quotients_are_coprime(a.den as nat, b.den as nat);
        lemma_positive_quotient(a.den as nat, g as nat);
        lemma_positive_quotient(b.den as nat, g as nat);
        let qa = a.den as int / g;
        let qb = b.den as int / g;
        let x = a.num_at(e) * qb;
        let y = b.num_at(e) * qa;
        let d = a.den * qb;
        assert(d > 0) by (nonlinear_arith)
            requires
                d == a.den * qb,
                a.den > 0,
                qb > 0,
        ;
        let c = a_reducible_number_has_a_canonical_form(x + y, d, e);
        lemma_sum_value(c, a.num_at(e), b.num_at(e), qa, qb, g, e, a.den as int, b.den as int);
        c
    }
}

/// Two coefficients that can be multiplied have a product.
pub proof fn a_multipliable_pair_has_a_product(a: Coeff, b: Coeff) -> (c: Coeff)
    requires
        a.canonical(),
        b.canonical(),
        a.multipliable(b),
    ensures
        a.is_product(b, Ok(c)),
{
    if a.num == 0 || b.num == 0 {
        assert(a.num * b.num == 0) by (nonlinear_arith)
            requires
                a.num == 0 || b.num == 0,
        ;
        lemma_zero_value(a.den * b.den, a.exp2 + b.exp2);
        Coeff::zero()
    } else {
        let an = abs(a.num as int);
        let bn = abs(b.num as int);
        let ad = a.den as nat;
        let bd = b.den as nat;
        let g1 = gcd(an, bd);
        let g2 = gcd(bn, ad);
        gcd_divides(an, bd);
        gcd_divides(bn, ad);
        quotients_are_coprime(an, bd);
        quotients_are_coprime(bn, ad);
        lemma_positive_quotient(an, g1);
        lemma_positive_quotient(bn, g2);
        lemma_positive_quotient(ad, g2);
        lemma_positive_quotient(bd, g1);
        let (p, q, s, t) = (an / g1, bn / g2, ad / g2, bd / g1);
        let num = p * q;
        let den = s * t;
        let signed: int = if (a.num < 0) != (b.num < 0) {
            -(num as int)
        } else {
            num as int
        };
        let c = Coeff { num: signed as i128, den: den as i128, exp2: (a.exp2 + b.exp2) as i32 };
        lemma_product_canonical(an, ad, bn, bd, g1, g2);
        assert(num > 0 && den > 0) by (nonlinear_arith)
            requires
                num == p * q,
                den == s * t,
                p > 0,
                q > 0,
                s > 0,
                t > 0,
        ;
        assert(pow2(0) == 1) by {
            lemma2_to64();
        }
        assert(an * bn * (s * t) == p * q * (ad * bd)) by (nonlinear_arith)
            requires
                an == p * g1,
                bn == q * g2,
                ad == s * g2,
                bd == t * g1,
        ;
        let sa = a.num as int;
        let sb = b.num as int;
        let dd = a.den * b.den;
        assert(signed * dd == (sa * sb) * den) by (nonlinear_arith)
            requires
                an * bn * (s * t) == p * q * (ad * bd),
                num == p * q,
                den == s * t,
                dd == ad * bd,
                sa == an || sa == -an,
                sb == bn || sb == -bn,
                signed == (if (sa < 0) != (sb < 0) {
                    -num
                } else {
                    num as int
                }),
                an > 0,
                bn > 0,
        ;
        assert(signed * 1 * dd == signed * dd);
        assert((sa * sb) * 1 * den == (sa * sb) * den);
        c
    }
}

/// Every machine integer has a canonical form.
pub proof fn an_integer_has_a_canonical_form(v: i64)
    ensures
        exists|c: Coeff| c.canonical() && c.denotes(v as int, 1, 0),
{
    lemma_int_reducible(v);
    let c = a_reducible_number_has_a_canonical_form(v as int, 1, 0);
    assert(c.canonical() && c.denotes(v as int, 1, 0));
}

/// `-1 + 1` is exactly zero.
pub proof fn one_minus_one_is_zero()
    ensures
        Coeff::minus_one().is_sum(Coeff::one(), Ok(Coeff::zero())),
{
    let a = Coeff::minus_one();
    lemma_gcd_one(1);
    lemma_num_at_self(a, Coeff::one());
    lemma_gcd_self(1);
    lemma_zero_value(1, 0);
    assert(a.spec_neg() == Coeff::one());
    assert(a.addable(Coeff::one()));
}

/// The canonical form of an integer: no denominator, and a scale that the
/// integer itself holds.
proof fn lemma_integer_form(c: Coeff, v: int)
    requires
        c.canonical(),
        c.denotes(v, 1, 0),
        v != 0,
    ensures
        c.den == 1,
        c.exp2 >= 0,
        c.num != 0,
        c.num * pow2(c.exp2 as nat) == v,
{
    assert(pow2(0) == 1) by {
        lemma2_to64();
    }
    if c.num == 0 {
        assert(0 * pow2((c.exp2 - 0) as nat) * 1 == 0);
        assert(v * pow2((0 - 0) as nat) * 1 == 0);
        assert(v * 1 * 1 == v);
    } else {
        if c.den != 1 || c.exp2 < 0 {
            lemma_not_integer(c, v);
        }
        assert(c.num * pow2(c.exp2 as nat) * 1 == v * 1 * 1);
    }
}

/// The numerator of an integer at a smaller scale is no larger than the
/// integer.
proof fn lemma_integer_at(c: Coeff, v: int, e: int)
    requires
        c.canonical(),
        c.denotes(v, 1, 0),
        v != 0,
        0 <= e <= c.exp2,
    ensures
        c.num_at(e) * pow2(e as nat) == v,
        -abs(v) <= c.num_at(e) <= abs(v),
        e <= abs(v),
{
    lemma_integer_form(c, v);
    lemma_pow2_adds((c.exp2 - e) as nat, e as nat);
    assert((c.exp2 - e) as nat + e as nat == c.exp2 as nat);
    let p = pow2((c.exp2 - e) as nat) as int;
    let q = pow2(e as nat) as int;
    assert(c.num * (p * q) == (c.num * p) * q) by (nonlinear_arith);
    let n = c.num_at(e);
    lemma_pow2_pos(e as nat);
    assert(n * q == v);
    assert(abs(n * q) >= abs(n)) by (nonlinear_arith)
        requires
            q >= 1,
    ;
    lemma_exponent_below_power(e as nat);
    assert(n != 0) by {
        if n == 0 {
            assert(n * q == 0) by (nonlinear_arith)
                requires
                    n == 0,
            ;
        }
    }
    assert(abs(n * q) >= q) by (nonlinear_arith)
        requires
            q >= 1,
            n != 0,
    ;
}

proof fn lemma_exponent_below_power(n: nat)
    ensures
        n < pow2(n),
    decreases n,
{
    if n == 0 {
        lemma2_to64();
    } else {
        lemma_exponent_below_power((n - 1) as nat);
        lemma_pow2_unfold(n);
    }
}

proof fn lemma_twos_bound(n: nat)
    requires
        n > 0,
    ensures
        twos(n) <= n,
{
    odd_part_times_twos(n);
    lemma_exponent_below_power(twos(n));
    let (o, p) = (odd_part(n) as int, pow2(twos(n)) as int);
    assert(o * p >= p) by (nonlinear_arith)
        requires
            o >= 1,
            p >= 0,
    ;
}

/// Integers of moderate size add as coefficients as they do as integers.
pub proof fn integers_add(a: Coeff, i: int, b: Coeff, j: int, c: Coeff)
    requires
        a.canonical(),
        a.denotes(i, 1, 0),
        b.canonical(),
        b.denotes(j, 1, 0),
        c.canonical(),
        c.denotes(i + j, 1, 0),
        -0x1000_0000 <= i <= 0x1000_0000,
        -0x1000_0000 <= j <= 0x1000_0000,
    ensures
        a.is_sum(b, Ok(c)),
{
    assert(pow2(0) == 1) by {
        lemma2_to64();
    }
    if i == 0 || j == 0 {
        if i == 0 {
            lemma_zero_denoted(a, 1, 0);
            lemma_sum_with_zero(a, b);
            lemma_same_denoted(b, c, j, 1, 0);
            canonical_form_is_unique(b, c);
        } else {
            lemma_zero_denoted(b, 1, 0);
            lemma_sum_with_zero(a, b);
            lemma_same_denoted(a, c, i, 1, 0);
            canonical_form_is_unique(a, c);
        }
    } else {
        let e = a.common_exp(b);
        lemma_integer_form(a, i);
        lemma_integer_form(b, j);
        lemma_integer_at(a, i, e);
        lemma_integer_at(b, j, e);
        lemma_gcd_self(1);
        lemma_gcd_one(1);
        let x = a.num_at(e);
        let y = b.num_at(e);
        assert(x * 1 == x && y * 1 == y);
        assert(a.den * 1 == 1);
        let g = gcd(abs(x + y), 1);
        gcd_divides(abs(x + y), 1);
        lemma_divisor_bound(g as int, 1);
        assert(g == 1);
        if x + y != 0 {
            lemma_twos_bound(abs(x + y));
            assert(twos(1) == 0);
            assert(abs(x + y) / 1 == abs(x + y));
            assert(abs(1) == 1);
        }
        assert(a.addable(b));
        let q = pow2(e as nat) as int;
        assert((x + y) * q == x * q + y * q) by (nonlinear_arith);
        assert((x + y) * q == i + j);
        // The sum is the same number at the common scale.
        let m = smaller(smaller(c.exp2 as int, 0), 0);
        lemma_rescale(c.num as int, c.den as int, c.exp2 as int, i + j, 1, 0, m);
        let t = pow2((0 - m) as nat) as int;
        lemma_pow2_adds(e as nat, (0 - m) as nat);
        assert(e as nat + (0 - m) as nat == (e - m) as nat);
        assert(((x + y) * q) * t == (x + y) * (q * t)) by (nonlinear_arith);
        lemma_unscale(c.num as int, c.den as int, c.exp2 as int, x + y, 1, e, m);
        assert(x * b.den + y * a.den == x + y);
        assert(a.den * b.den == 1);
    }
}

/// One and minus one are canonical and have the values that their names say.
pub proof fn the_units_are_integers()
    ensures
        Coeff::one().canonical(),
        Coeff::one().denotes(1, 1, 0),
        Coeff::minus_one().canonical(),
        Coeff::minus_one().denotes(-1, 1, 0),
{
    lemma_gcd_one(1);
    assert(pow2(0) == 1) by {
        lemma2_to64();
    }
}

impl Coeff {
    /// A negation is canonical, and has the negative value.
    pub proof fn negation_is_canonical(self)
        requires
            self.canonical(),
        ensures
            self.spec_neg().canonical(),
            self.spec_neg().denotes(-self.num, self.den as int, self.exp2 as int),
    {
    }
}

/// Multiplying by minus one negates.
pub proof fn minus_one_negates(c: Coeff)
    requires
        c.canonical(),
    ensures
        Coeff::minus_one().is_product(c, Ok(c.spec_neg())),
{
    let a = Coeff::minus_one();
    c.negation_is_canonical();
    if c.num != 0 {
        let g = gcd(abs(c.num as int), 1);
        gcd_divides(abs(c.num as int), 1);
        lemma_divisor_bound(g as int, 1);
        lemma_gcd_one(c.den as nat);
        let h = gcd(1, c.den as nat);
        gcd_divides(1, c.den as nat);
        lemma_divisor_bound(h as int, 1);
        assert(g == 1 && h == 1);
        assert(abs(a.num as int) == 1);
        assert(abs(c.num as int) / 1 == abs(c.num as int));
        assert(1nat / 1nat == 1nat);
        assert(1 * abs(c.num as int) == abs(c.num as int));
        assert(c.den as nat / 1 == c.den as nat);
        assert(1 * (c.den as nat) == c.den as nat);
        assert(a.multipliable(c));
    }
    assert(a.num * c.num == -c.num);
    assert(a.den * c.den == c.den);
}

} // verus!
