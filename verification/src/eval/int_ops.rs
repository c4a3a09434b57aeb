//! Exact integer semantics at an instruction's width and signedness.
//!
//! A register holds an integer in its canonical reading: sign-extended for a
//! signed type, zero-extended otherwise. At 64 bits both readings are the
//! same `i64` pattern.

use vstd::arithmetic::div_mod::*;
use vstd::arithmetic::mul::*;
use vstd::arithmetic::power2::*;
use vstd::prelude::*;

use crate::lowered::{BinOp, CmpOp};
use crate::types::ScalarType;

verus! {

/// The low `bits` bits of `v`, zero-extended.
pub open spec fn low(v: int, bits: nat) -> int {
    v % (pow2(bits) as int)
}

/// The low `bits` bits of `v`, sign-extended.
pub open spec fn signed_low(v: int, bits: nat) -> int {
    if low(v, bits) >= pow2((bits - 1) as nat) {
        low(v, bits) - pow2(bits)
    } else {
        low(v, bits)
    }
}

/// The canonical reading of the low `bits` bits of `v`.
pub open spec fn canonical(v: int, bits: nat, signed: bool) -> int {
    if bits >= 64 {
        signed_low(v, 64)
    } else if signed {
        signed_low(v, bits)
    } else {
        low(v, bits)
    }
}

/// A width, at most that of a machine word.
pub open spec fn word_bits(bits: u32) -> nat {
    if bits >= 64 {
        64
    } else {
        bits as nat
    }
}

pub open spec fn spec_int_bits(ty: ScalarType) -> u32 {
    if ty.bits() > 64 {
        64
    } else {
        ty.bits()
    }
}

/// Width of a type, at most 64.
#[verifier::when_used_as_spec(spec_int_bits)]
pub fn int_bits(ty: ScalarType) -> (r: u32)
    ensures
        r == spec_int_bits(ty),
        1 <= r <= 64,
{
    if ty.bits() > 64 {
        64
    } else {
        ty.bits()
    }
}

pub open spec fn size(a: int) -> int {
    if a < 0 {
        -a
    } else {
        a
    }
}

/// Quotient rounded toward zero.
pub open spec fn truncated_div(a: int, b: int) -> int {
    if (a < 0) == (b < 0) {
        size(a) / size(b)
    } else {
        -(size(a) / size(b))
    }
}

/// The result of an integer operation on the operands' low bits, or `None`
/// for a division by zero.
pub open spec fn int_binop(op: BinOp, ty: ScalarType, a: i64, b: i64) -> Option<i64> {
    let bits = int_bits(ty) as nat;
    let signed = ty.is_signed_int();
    let ua = low(a as int, bits);
    let ub = low(b as int, bits);
    let sa = signed_low(a as int, bits);
    let sb = signed_low(b as int, bits);
    if (op == BinOp::Div || op == BinOp::Rem) && ub == 0 {
        None
    } else {
        let raw: int = match op {
            BinOp::Add => ua + ub,
            BinOp::Sub => ua - ub,
            BinOp::Mul => ua * ub,
            BinOp::Div => if signed {
                truncated_div(sa, sb)
            } else {
                ua / ub
            },
            BinOp::Rem => if signed {
                sa - sb * truncated_div(sa, sb)
            } else {
                ua % ub
            },
            BinOp::And => (ua as u64 & ub as u64) as int,
            BinOp::Or => (ua as u64 | ub as u64) as int,
            BinOp::Xor => (ua as u64 ^ ub as u64) as int,
            BinOp::Shl => if ub >= bits {
                0
            } else {
                ((ua as u64) << (ub as u64)) as int
            },
            BinOp::Shr => if signed {
                (sa as i64 >> (if ub >= bits {
                    (bits - 1) as u64
                } else {
                    ub as u64
                })) as int
            } else if ub >= bits {
                0
            } else {
                (ua as u64 >> (ub as u64)) as int
            },
            BinOp::Min => if signed {
                if sa <= sb {
                    sa
                } else {
                    sb
                }
            } else if ua <= ub {
                ua
            } else {
                ub
            },
            BinOp::Max => if signed {
                if sa >= sb {
                    sa
                } else {
                    sb
                }
            } else if ua >= ub {
                ua
            } else {
                ub
            },
        };
        Some(canonical(raw, bits, signed) as i64)
    }
}

/// Whether a comparison reads its operands as unsigned.
pub open spec fn spec_compares_unsigned(rel: CmpOp, ty: ScalarType) -> bool {
    match rel {
        CmpOp::Lo | CmpOp::Ls | CmpOp::Hi | CmpOp::Hs => true,
        _ => ty.is_unsigned_int() || ty.is_bits_type(),
    }
}

/// Whether a comparison reads its operands as unsigned.
#[verifier::when_used_as_spec(spec_compares_unsigned)]
pub fn compares_unsigned(rel: CmpOp, ty: ScalarType) -> (r: bool)
    ensures
        r == spec_compares_unsigned(rel, ty),
{
    match rel {
        CmpOp::Lo | CmpOp::Ls | CmpOp::Hi | CmpOp::Hs => true,
        _ => ty.is_unsigned_int() || ty.is_bits_type(),
    }
}

/// The outcome of a relation on two integers.
pub open spec fn relates(rel: CmpOp, x: int, y: int) -> bool {
    match rel {
        CmpOp::Eq | CmpOp::Equ => x == y,
        CmpOp::Ne | CmpOp::Neu => x != y,
        CmpOp::Lt | CmpOp::Lo | CmpOp::Ltu => x < y,
        CmpOp::Le | CmpOp::Ls | CmpOp::Leu => x <= y,
        CmpOp::Gt | CmpOp::Hi | CmpOp::Gtu => x > y,
        CmpOp::Ge | CmpOp::Hs | CmpOp::Geu => x >= y,
        CmpOp::Num => true,
        CmpOp::Nan => false,
    }
}

/// The outcome of an integer comparison at a type.
pub open spec fn int_relation(rel: CmpOp, ty: ScalarType, a: i64, b: i64) -> bool {
    let bits = int_bits(ty) as nat;
    if compares_unsigned(rel, ty) {
        relates(rel, low(a as int, bits), low(b as int, bits))
    } else {
        relates(rel, signed_low(a as int, bits), signed_low(b as int, bits))
    }
}

/// `2^bits`.
fn power(bits: u32) -> (r: u128)
    requires
        bits <= 64,
    ensures
        r == pow2(bits as nat),
        1 <= r <= 0x1_0000_0000_0000_0000,
{
    proof {
        lemma2_to64();
    }
    let mut p: u128 = 1;
    let mut i: u32 = 0;
    while i < bits
        invariant
            i <= bits <= 64,
            p == pow2(i as nat),
            1 <= p <= 0x1_0000_0000_0000_0000,
            i < 64 ==> p <= 0x8000_0000_0000_0000,
        decreases bits - i,
    {
        proof {
            lemma_pow2_unfold((i + 1) as nat);
            lemma2_to64();
            if i + 1 < 64 {
                lemma_pow2_strictly_increases((i + 1) as nat, 64);
                lemma_pow2_unfold(64);
                if i + 1 < 63 {
                    lemma_pow2_strictly_increases((i + 1) as nat, 63);
                }
            }
        }
        p = p * 2;
        i = i + 1;
    }
    p
}

/// Zero-extends the low `bits` bits of `v`; all of them from 64 on.
pub fn mask_to(v: i64, bits: u32) -> (r: u64)
    ensures
        r == low(v as int, word_bits(bits)),
        r < pow2(word_bits(bits)),
{
    low_of(
        v as i128,
        if bits >= 64 {
            64
        } else {
            bits
        },
    )
}

/// Zero-extends the low `bits` bits of `v`.
fn low_of(v: i128, bits: u32) -> (r: u64)
    requires
        bits <= 64,
        v > i128::MIN,
    ensures
        r == low(v as int, bits as nat),
        r < pow2(bits as nat),
{
    let p: u128 = power(bits);
    if v >= 0 {
        proof {
            lemma_mod_bound(v as int, p as int);
        }
        (v as u128 % p) as u64
    } else {
        let n: u128 = (-v) as u128;
        let m: u128 = n % p;
        proof {
            lemma_mod_bound(n as int, p as int);
            lemma_negated_mod(n as int, p as int);
        }
        if m == 0 {
            0
        } else {
            (p - m) as u64
        }
    }
}

proof fn lemma_negated_mod(n: int, p: int)
    requires
        n >= 0,
        p >= 1,
    ensures
        (-n) % p == (if n % p == 0 {
            0
        } else {
            p - n % p
        }),
{
    let m = n % p;
    lemma_fundamental_div_mod(n, p);
    lemma_mod_bound(n, p);
    let q = n / p;
    assert(n == p * q + m);
    if m == 0 {
        assert(-n == p * (-q) + 0) by (nonlinear_arith)
            requires
                n == p * q + m,
                m == 0,
        ;
        lemma_fundamental_div_mod_converse(-n, p, -q, 0);
    } else {
        assert(-n == p * (-q - 1) + (p - m)) by (nonlinear_arith)
            requires
                n == p * q + m,
        ;
        lemma_fundamental_div_mod_converse(-n, p, -q - 1, p - m);
    }
}

/// Sign-extends the low `bits` bits of `v`.
fn signed_low_of(v: i128, bits: u32) -> (r: i64)
    requires
        1 <= bits <= 64,
        v > i128::MIN,
    ensures
        r == signed_low(v as int, bits as nat),
{
    let m: u64 = low_of(v, bits);
    let half: u128 = power(bits - 1);
    proof {
        lemma_pow2_unfold(bits as nat);
        lemma2_to64();
        if bits < 64 {
            lemma_pow2_strictly_increases(bits as nat, 64);
        }
    }
    if m as u128 >= half {
        (m as i128 - (half * 2) as i128) as i64
    } else {
        m as i64
    }
}

/// The canonical reading of the low `bits` bits of `v`.
pub(crate) fn canonical_of(v: i128, bits: u32, signed: bool) -> (r: i64)
    requires
        bits >= 1 || !signed,
        v > i128::MIN,
    ensures
        r == canonical(v as int, bits as nat, signed),
{
    if bits >= 64 {
        signed_low_of(v, 64)
    } else if signed {
        signed_low_of(v, bits)
    } else {
        proof {
            lemma2_to64();
            lemma_pow2_unfold(64);
            if bits < 63 {
                lemma_pow2_strictly_increases(bits as nat, 63);
            }
        }
        low_of(v, bits) as i64
    }
}

/// Canonicalizes the low `bits` bits of `v`: sign-extended if `signed`, else
/// zero-extended. From 64 bits on the value stays as it is.
pub fn canon_int(v: i64, bits: u32, signed: bool) -> (r: i64)
    requires
        bits >= 1 || !signed,
    ensures
        r == canonical(v as int, bits as nat, signed),
        bits >= 64 ==> r == v,
{
    proof {
        a_word_is_canonical(v);
    }
    canonical_of(v as i128, bits, signed)
}

/// At 64 bits every machine word is its own canonical reading.
pub proof fn a_word_is_canonical(v: i64)
    ensures
        signed_low(v as int, 64) == v,
{
    lemma2_to64();
    lemma_pow2_unfold(64);
    let p = pow2(64) as int;
    if v >= 0 {
        lemma_small_mod(v as nat, p as nat);
    } else {
        assert(v as int == p * (-1) + (v + p));
        lemma_fundamental_div_mod_converse(v as int, p, -1, v + p);
    }
}

/// A canonical reading below 64 bits differs from the value by a multiple of
/// `2^bits`, lies in the range of its width, and is its own reading.
pub proof fn canonical_readings_are_fixed(v: int, bits: nat, signed: bool)
    requires
        1 <= bits < 64,
    ensures
        (canonical(v, bits, signed) - v) % (pow2(bits) as int) == 0,
        signed ==> -pow2((bits - 1) as nat) <= canonical(v, bits, signed) < pow2(
            (bits - 1) as nat,
        ),
        !signed ==> 0 <= canonical(v, bits, signed) < pow2(bits),
        canonical(canonical(v, bits, signed), bits, signed) == canonical(v, bits, signed),
{
    let p = pow2(bits) as int;
    let m = low(v, bits);
    let r = canonical(v, bits, signed);
    lemma_pow2_pos(bits);
    lemma_pow2_unfold(bits);
    lemma_mod_bound(v, p);
    lemma_fundamental_div_mod(v, p);
    let q = v / p;
    let k: int = if r == m {
        -q
    } else {
        -q - 1
    };
    assert(r - v == p * k + 0) by (nonlinear_arith)
        requires
            v == p * q + m,
            r == m && k == -q || r == m - p && k == -q - 1,
    ;
    lemma_fundamental_div_mod_converse(r - v, p, k, 0);
    if r == m {
        lemma_small_mod(m as nat, p as nat);
    } else {
        assert(r == p * (-1) + m);
        lemma_fundamental_div_mod_converse(r, p, -1, m);
    }
}

/// Quotient rounded toward zero.
fn divide(a: i64, b: i64) -> (r: i128)
    requires
        b != 0,
    ensures
        r == truncated_div(a as int, b as int),
        -0x8000_0000_0000_0000 <= r <= 0x8000_0000_0000_0000,
        0 <= size(a as int) / size(b as int) <= size(a as int),
        (size(a as int) / size(b as int)) * size(b as int) <= size(a as int),
{
    let x: u128 = if a < 0 {
        (-(a as i128)) as u128
    } else {
        a as u128
    };
    let y: u128 = if b < 0 {
        (-(b as i128)) as u128
    } else {
        b as u128
    };
    let q: u128 = x / y;
    proof {
        lemma_div_is_ordered_by_denominator(x as int, 1, y as int);
        lemma_fundamental_div_mod(x as int, y as int);
        lemma_mod_bound(x as int, y as int);
        assert((x / y) * y <= x) by (nonlinear_arith)
            requires
                x == y * (x / y) + x % y,
                x % y >= 0,
        ;
        assert(x / 1 == x);
    }
    if (a < 0) == (b < 0) {
        q as i128
    } else {
        -(q as i128)
    }
}

/// Exact integer semantics of `op` at `ty`; `None` for a division by zero.
pub fn concrete_int_binop(op: BinOp, ty: ScalarType, a: i64, b: i64) -> (r: Option<i64>)
    ensures
        r == int_binop(op, ty, a, b),
{
    let bits: u32 = int_bits(ty);
    let signed: bool = ty.is_signed_int();
    let ua: u64 = mask_to(a, bits);
    let ub: u64 = mask_to(b, bits);
    let sa: i64 = signed_low_of(a as i128, bits);
    let sb: i64 = signed_low_of(b as i128, bits);
    proof {
        lemma_zero_readings(b as int, bits as nat);
    }
    let raw: i128 = match op {
        BinOp::Add => ua as i128 + ub as i128,
        BinOp::Sub => ua as i128 - ub as i128,
        BinOp::Mul => {
            assert(0 <= ua * ub <= 0xffff_ffff_ffff_ffff * 0xffff_ffff_ffff_ffff)
                by (nonlinear_arith)
                requires
                    0 <= ua <= 0xffff_ffff_ffff_ffff,
                    0 <= ub <= 0xffff_ffff_ffff_ffff,
            ;
            let m: u128 = (ua as u128 * ub as u128) % 0x1_0000_0000_0000_0000;
            proof {
                lemma_reduced_reading(ua * ub, bits as nat, signed);
            }
            m as i128
        },
        BinOp::Div => {
            if ub == 0 {
                return None;
            }
            if signed {
                divide(sa, sb)
            } else {
                (ua / ub) as i128
            }
        },
        BinOp::Rem => {
            if ub == 0 {
                return None;
            }
            if signed {
                let q: i128 = divide(sa, sb);
                proof {
                    lemma_product_bound(sa as int, sb as int);
                }
                sa as i128 - sb as i128 * q
            } else {
                (ua % ub) as i128
            }
        },
        BinOp::And => (ua & ub) as i128,
        BinOp::Or => (ua | ub) as i128,
        BinOp::Xor => (ua ^ ub) as i128,
        BinOp::Shl => if ub >= bits as u64 {
            0
        } else {
            (ua << ub) as i128
        },
        BinOp::Shr => {
            if signed {
                let sh: u64 = if ub >= bits as u64 {
                    (bits - 1) as u64
                } else {
                    ub
                };
                (sa >> sh) as i128
            } else if ub >= bits as u64 {
                0
            } else {
                (ua >> ub) as i128
            }
        },
        BinOp::Min => {
            if signed {
                if sa <= sb {
                    sa as i128
                } else {
                    sb as i128
                }
            } else if ua <= ub {
                ua as i128
            } else {
                ub as i128
            }
        },
        BinOp::Max => {
            if signed {
                if sa >= sb {
                    sa as i128
                } else {
                    sb as i128
                }
            } else if ua >= ub {
                ua as i128
            } else {
                ub as i128
            }
        },
    };
    Some(canonical_of(raw, bits, signed))
}

/// An integer reads as zero signed if and only if it does unsigned.
proof fn lemma_zero_readings(v: int, bits: nat)
    requires
        1 <= bits,
    ensures
        low(v, bits) == 0 <==> signed_low(v, bits) == 0,
{
    lemma_pow2_pos(bits);
    lemma_pow2_pos((bits - 1) as nat);
    lemma_mod_bound(v, pow2(bits) as int);
}

/// Reducing modulo `2^64` first leaves every narrower reading alone.
proof fn lemma_reduced_reading(v: int, bits: nat, signed: bool)
    requires
        1 <= bits <= 64,
        v >= 0,
    ensures
        canonical(v % 0x1_0000_0000_0000_0000, bits, signed) == canonical(v, bits, signed),
{
    lemma2_to64();
    let k = (64 - bits) as nat;
    lemma_pow2_adds(bits, k);
    lemma_pow2_pos(bits);
    lemma_pow2_pos(k);
    lemma_mod_mod(v, pow2(bits) as int, pow2(k) as int);
    assert(pow2(64) == 0x1_0000_0000_0000_0000);
    lemma_mod_twice(v, 0x1_0000_0000_0000_0000);
}

proof fn lemma_product_bound(a: int, b: int)
    requires
        b != 0,
        -0x8000_0000_0000_0000 <= a <= 0x7fff_ffff_ffff_ffff,
        -0x8000_0000_0000_0000 <= b <= 0x7fff_ffff_ffff_ffff,
        0 <= size(a) / size(b),
        (size(a) / size(b)) * size(b) <= size(a),
    ensures
        -0x8000_0000_0000_0000 <= b * truncated_div(a, b) <= 0x8000_0000_0000_0000,
{
    let y = size(b);
    let q = size(a) / y;
    let t = truncated_div(a, b);
    assert(b * t == q * y || b * t == -(q * y)) by (nonlinear_arith)
        requires
            t == q || t == -q,
            b == y || b == -y,
    ;
    assert(q * y >= 0) by (nonlinear_arith)
        requires
            q >= 0,
            y >= 0,
    ;
}

/// The outcome of an integer comparison at a type.
pub fn concrete_relation(rel: CmpOp, ty: ScalarType, a: i64, b: i64) -> (r: bool)
    ensures
        r == int_relation(rel, ty, a, b),
{
    let bits: u32 = int_bits(ty);
    let (x, y): (i128, i128) = if compares_unsigned(rel, ty) {
        (mask_to(a, bits) as i128, mask_to(b, bits) as i128)
    } else {
        (signed_low_of(a as i128, bits) as i128, signed_low_of(b as i128, bits) as i128)
    };
    match rel {
        CmpOp::Eq | CmpOp::Equ => x == y,
        CmpOp::Ne | CmpOp::Neu => x != y,
        CmpOp::Lt | CmpOp::Lo | CmpOp::Ltu => x < y,
        CmpOp::Le | CmpOp::Ls | CmpOp::Leu => x <= y,
        CmpOp::Gt | CmpOp::Hi | CmpOp::Gtu => x > y,
        CmpOp::Ge | CmpOp::Hs | CmpOp::Geu => x >= y,
        CmpOp::Num => true,
        CmpOp::Nan => false,
    }
}

} // verus!
