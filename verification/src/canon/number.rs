//! Divisibility, greatest common divisors and powers of two.

use vstd::arithmetic::div_mod::*;
use vstd::arithmetic::mul::*;
use vstd::arithmetic::power2::*;
use vstd::prelude::*;

verus! {

/// Absolute value.
pub open spec fn abs(n: int) -> nat {
    if n < 0 {
        (-n) as nat
    } else {
        n as nat
    }
}

/// Greatest common divisor.
pub open spec fn gcd(a: nat, b: nat) -> nat
    decreases b,
{
    if b == 0 {
        a
    } else {
        gcd(b, a % b)
    }
}

/// How often two divides `n`; zero for `n == 0`.
pub open spec fn twos(n: nat) -> nat
    decreases n,
{
    if n > 0 && n % 2 == 0 {
        1 + twos(n / 2)
    } else {
        0
    }
}

/// `n` without its factors of two.
pub open spec fn odd_part(n: nat) -> nat
    decreases n,
{
    if n > 0 && n % 2 == 0 {
        odd_part(n / 2)
    } else {
        n
    }
}

/// A positive number is its odd part times a power of two.
pub proof fn odd_part_times_twos(n: nat)
    requires
        n > 0,
    ensures
        n == odd_part(n) * pow2(twos(n)),
        odd_part(n) % 2 == 1,
        0 < odd_part(n) <= n,
    decreases n,
{
    if n % 2 == 0 {
        odd_part_times_twos(n / 2);
        lemma_pow2_unfold(twos(n));
        assert((twos(n) - 1) as nat == twos(n / 2));
        let o = odd_part(n) as int;
        let p = pow2(twos(n / 2)) as int;
        assert(o * (2 * p) == 2 * (o * p)) by (nonlinear_arith);
    } else {
        assert(pow2(0) == 1) by {
            lemma2_to64();
        }
        assert(n * 1 == n);
    }
}

/// `d` divides `n`.
pub open spec fn divides(d: int, n: int) -> bool {
    exists|k: int| n == #[trigger] (k * d)
}

pub proof fn lemma_divides(d: int, n: int, k: int)
    requires
        n == k * d,
    ensures
        divides(d, n),
{
}

proof fn lemma_divides_combination(d: int, a: int, b: int, s: int, t: int)
    requires
        divides(d, a),
        divides(d, b),
    ensures
        divides(d, a * s + b * t),
{
    let ka = choose|k: int| a == #[trigger] (k * d);
    let kb = choose|k: int| b == #[trigger] (k * d);
    assert(a * s + b * t == (ka * s + kb * t) * d) by (nonlinear_arith)
        requires
            a == ka * d,
            b == kb * d,
    ;
    lemma_divides(d, a * s + b * t, ka * s + kb * t);
}

pub proof fn lemma_divides_trans(d: int, m: int, n: int)
    requires
        divides(d, m),
        divides(m, n),
    ensures
        divides(d, n),
{
    let k = choose|k: int| m == #[trigger] (k * d);
    let j = choose|k: int| n == #[trigger] (k * m);
    assert(n == (j * k) * d) by (nonlinear_arith)
        requires
            m == k * d,
            n == j * m,
    ;
    lemma_divides(d, n, j * k);
}

/// A positive divisor of a positive number is no larger.
pub proof fn lemma_divisor_bound(d: int, n: int)
    requires
        d > 0,
        n > 0,
        divides(d, n),
    ensures
        d <= n,
{
    let k = choose|k: int| n == #[trigger] (k * d);
    assert(d <= n) by (nonlinear_arith)
        requires
            n == k * d,
            d > 0,
            n > 0,
    ;
}

/// The greatest common divisor divides both numbers.
pub proof fn gcd_divides(a: nat, b: nat)
    ensures
        divides(gcd(a, b) as int, a as int),
        divides(gcd(a, b) as int, b as int),
        a > 0 || b > 0 ==> gcd(a, b) > 0,
    decreases b,
{
    if b == 0 {
        lemma_divides(a as int, a as int, 1);
        lemma_divides(a as int, 0, 0);
    } else {
        gcd_divides(b, a % b);
        let g = gcd(a, b) as int;
        lemma_fundamental_div_mod(a as int, b as int);
        lemma_divides_combination(g, b as int, (a % b) as int, (a / b) as int, 1);
        assert((a % b) * 1 == a % b);
        assert(b * (a / b) + (a % b) * 1 == a);
    }
}

/// The greatest common divisor is an integer combination of the two numbers.
pub proof fn bezout(a: nat, b: nat) -> (st: (int, int))
    ensures
        a * st.0 + b * st.1 == gcd(a, b),
    decreases b,
{
    if b == 0 {
        assert(a * 1 + b * 0 == a) by (nonlinear_arith);
        (1, 0)
    } else {
        let (s, t) = bezout(b, a % b);
        lemma_fundamental_div_mod(a as int, b as int);
        let q = (a / b) as int;
        let r = (a % b) as int;
        assert(a * t + b * (s - q * t) == b * s + r * t) by (nonlinear_arith)
            requires
                a == b * q + r,
        ;
        (t, s - q * t)
    }
}

/// A common divisor divides the greatest common divisor.
pub proof fn common_divisor_divides_gcd(d: int, a: nat, b: nat)
    requires
        divides(d, a as int),
        divides(d, b as int),
    ensures
        divides(d, gcd(a, b) as int),
{
    let (s, t) = bezout(a, b);
    lemma_divides_combination(d, a as int, b as int, s, t);
}

/// Numbers with a combination equal to one are coprime.
pub proof fn lemma_combination_coprime(a: nat, b: nat, s: int, t: int)
    requires
        a * s + b * t == 1,
    ensures
        gcd(a, b) == 1,
{
    gcd_divides(a, b);
    let g = gcd(a, b) as int;
    lemma_divides_combination(g, a as int, b as int, s, t);
    if a == 0 && b == 0 {
        assert(a * s + b * t == 0) by (nonlinear_arith)
            requires
                a == 0,
                b == 0,
        ;
    }
    lemma_divisor_bound(g, 1);
}

/// A divisor of a product that is coprime to one factor divides the other.
pub proof fn euclid(x: nat, y: nat, z: int)
    requires
        gcd(x, y) == 1,
        divides(y as int, x * z),
    ensures
        divides(y as int, z),
{
    let (s, t) = bezout(x, y);
    let k = choose|k: int| x * z == #[trigger] (k * y);
    assert(z == (k * s + t * z) * y) by (nonlinear_arith)
        requires
            x * s + y * t == 1,
            x * z == k * y,
    ;
    lemma_divides(y as int, z, k * s + t * z);
}

/// Divisors of coprime numbers are coprime.
pub proof fn divisors_of_coprime(p: nat, r: nat, a: nat, b: nat)
    requires
        gcd(a, b) == 1,
        divides(p as int, a as int),
        divides(r as int, b as int),
    ensures
        gcd(p, r) == 1,
{
    gcd_divides(p, r);
    let g = gcd(p, r) as int;
    lemma_divides_trans(g, p as int, a as int);
    lemma_divides_trans(g, r as int, b as int);
    common_divisor_divides_gcd(g, a, b);
    if p == 0 && r == 0 {
        let k = choose|k: int| a as int == #[trigger] (k * p);
        let j = choose|k: int| b as int == #[trigger] (k * r);
        assert(a == 0 && b == 0) by (nonlinear_arith)
            requires
                a == k * p,
                b == j * r,
                p == 0,
                r == 0,
        ;
    }
    lemma_divisor_bound(g, 1);
}

/// Dividing two numbers by their greatest common divisor makes them coprime.
pub proof fn quotients_are_coprime(a: nat, b: nat)
    requires
        a > 0 || b > 0,
    ensures
        gcd(a, b) > 0,
        a == (a / gcd(a, b)) * gcd(a, b),
        b == (b / gcd(a, b)) * gcd(a, b),
        gcd(a / gcd(a, b), b / gcd(a, b)) == 1,
{
    gcd_divides(a, b);
    let g = gcd(a, b) as int;
    let ka = choose|k: int| a as int == #[trigger] (k * g);
    let kb = choose|k: int| b as int == #[trigger] (k * g);
    assert(ka >= 0 && kb >= 0) by (nonlinear_arith)
        requires
            ka * g >= 0,
            kb * g >= 0,
            g > 0,
    ;
    lemma_div_by_multiple(ka, g);
    lemma_div_by_multiple(kb, g);
    let (s, t) = bezout(a, b);
    assert(ka * s + kb * t == 1) by (nonlinear_arith)
        requires
            ka * g * s + kb * g * t == g,
            g > 0,
    {
        assert((ka * s + kb * t) * g == ka * g * s + kb * g * t) by (nonlinear_arith);
        let m = ka * s + kb * t;
        assert(m * g == g);
        assert(m == 1) by (nonlinear_arith)
            requires
                m * g == g,
                g > 0,
        ;
    }
    lemma_combination_coprime((a / gcd(a, b)) as nat, (b / gcd(a, b)) as nat, s, t);
}

/// A number coprime to two others is coprime to their product.
pub proof fn coprime_to_product(x: nat, y: nat, z: nat)
    requires
        gcd(x, y) == 1,
        gcd(x, z) == 1,
    ensures
        gcd(x, y * z) == 1,
{
    let (s, t) = bezout(x, y);
    let (u, v) = bezout(x, z);
    assert(x * (s * (x * u) + s * (z * v) + (y * t) * u) + (y * z) * (t * v) == 1)
        by (nonlinear_arith)
        requires
            x * s + y * t == 1,
            x * u + z * v == 1,
    {
        assert((x * s + y * t) * (x * u + z * v) == 1);
    }
    lemma_combination_coprime(x, y * z, s * (x * u) + s * (z * v) + (y * t) * u, t * v);
}

/// The greatest common divisor does not depend on the order.
pub proof fn gcd_commutes(a: nat, b: nat)
    ensures
        gcd(a, b) == gcd(b, a),
{
    gcd_divides(a, b);
    gcd_divides(b, a);
    common_divisor_divides_gcd(gcd(a, b) as int, b, a);
    common_divisor_divides_gcd(gcd(b, a) as int, a, b);
    if a > 0 || b > 0 {
        lemma_divisor_bound(gcd(a, b) as int, gcd(b, a) as int);
        lemma_divisor_bound(gcd(b, a) as int, gcd(a, b) as int);
    }
}

/// A divisor of an odd number is odd.
pub proof fn divisor_of_odd(d: nat, n: nat)
    requires
        n % 2 == 1,
        divides(d as int, n as int),
    ensures
        d % 2 == 1,
{
    let k = choose|k: int| n as int == #[trigger] (k * d);
    if d % 2 == 0 {
        let h = (d / 2) as int;
        assert(n == 2 * (k * h)) by (nonlinear_arith)
            requires
                n == k * d,
                d == 2 * h,
        ;
        assert(false);
    }
}

/// The product of odd numbers is odd.
pub proof fn product_of_odds(a: nat, b: nat)
    requires
        a % 2 == 1,
        b % 2 == 1,
    ensures
        (a * b) % 2 == 1,
{
    let h = (a / 2) as int;
    let k = (b / 2) as int;
    assert(a * b == 2 * (2 * (h * k) + h + k) + 1) by (nonlinear_arith)
        requires
            a == 2 * h + 1,
            b == 2 * k + 1,
    ;
}

/// The odd part divides the number.
pub proof fn odd_part_divides(n: nat)
    requires
        n > 0,
    ensures
        divides(odd_part(n) as int, n as int),
{
    odd_part_times_twos(n);
    lemma_mul_is_commutative(odd_part(n) as int, pow2(twos(n)) as int);
    lemma_divides(odd_part(n) as int, n as int, pow2(twos(n)) as int);
}

/// The absolute value of a product.
pub proof fn abs_of_product(a: int, b: int)
    ensures
        abs(a * b) == abs(a) * abs(b),
{
    assert(abs(a * b) == abs(a) * abs(b)) by (nonlinear_arith)
        requires
            abs(a) == (if a < 0 { -a } else { a }),
            abs(b) == (if b < 0 { -b } else { b }),
            abs(a * b) == (if a * b < 0 { -(a * b) } else { a * b }),
    ;
}

} // verus!
