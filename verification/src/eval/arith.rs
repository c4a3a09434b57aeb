//! Arithmetic of instructions over the expression arena: concrete integers
//! are computed at the instruction's width and signedness, everything else
//! becomes a real-valued node.

use vstd::arithmetic::div_mod::{lemma_fundamental_div_mod, lemma_mod_bound};
use vstd::arithmetic::mul::lemma_mul_is_commutative;
use vstd::arithmetic::power2::*;
use vstd::prelude::*;

use crate::canon::coeff::Coeff;
use crate::canon::number::abs;
use crate::eval::ThreadId;
use crate::eval::error::{Detail, EvalError};
use crate::eval::fp8::{
    FloatValue, decode_bf16_bits, decode_e4m3_byte, decode_e5m2_byte, decode_f16_bits,
    decode_f32_bits, decode_f64_bits,
};
use crate::eval::int_ops::{
    canon_int, canonical, concrete_int_binop, concrete_relation, int_binop, int_bits, int_relation,
    low, mask_to,
};
use crate::eval::value::Value;
use crate::lowered::{BinOp, Clamp, CmpOp, InstrId, UnaryOp};
use crate::symbolic::ExprId;
use crate::symbolic::arena::{ExprArena, ExprNode, Exprs};
use crate::symbols::RegId;
use crate::types::ScalarType;

verus! {

/// An evaluation step that only adds expressions.
pub type Step<T> = (Exprs, Result<T, EvalError>);

/// An instruction form that is not modeled, for a fixed reason.
pub open spec fn spec_unsupported(pc: InstrId, text: &'static str) -> EvalError {
    EvalError::Unsupported { pc, what: Detail::Text { text } }
}

/// An instruction form that is not modeled, for a fixed reason.
#[verifier::when_used_as_spec(spec_unsupported)]
pub fn unsupported(pc: InstrId, text: &'static str) -> (r: EvalError)
    ensures
        r == spec_unsupported(pc, text),
{
    EvalError::Unsupported { pc, what: Detail::Text { text } }
}

// ---------------------------------------------------------------------------
// Readings of operands
// ---------------------------------------------------------------------------

/// The real value of a bit pattern at a float type; `None` for NaN and for
/// types without a single-value pattern.
pub open spec fn spec_float_pattern(ty: ScalarType, bits: i64) -> Option<FloatValue> {
    match ty {
        ScalarType::F16 => decode_f16_bits(bits as u16),
        ScalarType::Bf16 => decode_bf16_bits(bits as u16),
        ScalarType::F32 | ScalarType::Tf32 => decode_f32_bits(bits as u32),
        ScalarType::F64 => decode_f64_bits(bits as u64),
        _ => None,
    }
}

/// The real value of a bit pattern at a float type; `None` for NaN and for
/// types without a single-value pattern.
#[verifier::when_used_as_spec(spec_float_pattern)]
pub fn float_pattern(ty: ScalarType, bits: i64) -> (r: Option<FloatValue>)
    ensures
        r == spec_float_pattern(ty, bits),
{
    match ty {
        ScalarType::F16 => decode_f16_bits(bits as u16),
        ScalarType::Bf16 => decode_bf16_bits(bits as u16),
        ScalarType::F32 | ScalarType::Tf32 => decode_f32_bits(bits as u32),
        ScalarType::F64 => decode_f64_bits(bits as u64),
        _ => None,
    }
}

/// A concrete operand re-read at the consuming type: an integer is
/// canonicalized, a bit pattern under a float type is decoded. Symbolic
/// operands, float constants and predicates pass through.
pub open spec fn canon_operand_spec(s: Exprs, ty: ScalarType, e: ExprId) -> (Exprs, ExprId) {
    if ty.is_predicate() {
        (s, e)
    } else {
        match s.as_int(e) {
            None => (s, e),
            Some(c) => if ty.is_float() {
                match float_pattern(ty, c) {
                    Some(f) => s.float(f),
                    None => (s, e),
                }
            } else {
                let canon = canonical(c as int, int_bits(ty) as nat, ty.is_signed_int());
                if canon != c {
                    s.int_const(canon as i64)
                } else {
                    (s, e)
                }
            },
        }
    }
}

/// Re-reads a concrete operand as canonical for `ty`.
pub fn canon_operand(arena: &mut ExprArena, ty: ScalarType, e: ExprId) -> (r: ExprId)
    requires
        old(arena).wf(),
    ensures
        final(arena).wf(),
        (final(arena)@, r) == canon_operand_spec(old(arena)@, ty, e),
{
    if ty.is_predicate() {
        return e;
    }
    match arena.as_int_const(e) {
        None => e,
        Some(c) => {
            if ty.is_float() {
                match float_pattern(ty, c) {
                    Some(f) => arena.float(f),
                    None => e,
                }
            } else {
                let canon: i64 = canon_int(c, int_bits(ty), ty.is_signed_int());
                if canon != c {
                    arena.int_const(canon)
                } else {
                    e
                }
            }
        },
    }
}

/// The two lanes of a packed bit pattern, low lane first; `None` if a lane
/// is NaN.
pub open spec fn spec_decode_packed_bits(bits: u64, lane_ty: ScalarType) -> Option<
    (FloatValue, FloatValue),
> {
    let (lo, hi) = match lane_ty {
        ScalarType::F32 => (
            decode_f32_bits((bits % 0x1_0000_0000) as u32),
            decode_f32_bits((bits / 0x1_0000_0000) as u32),
        ),
        ScalarType::F16 => (
            decode_f16_bits((bits % 0x1_0000) as u16),
            decode_f16_bits((bits / 0x1_0000 % 0x1_0000) as u16),
        ),
        ScalarType::Bf16 => (
            decode_bf16_bits((bits % 0x1_0000) as u16),
            decode_bf16_bits((bits / 0x1_0000 % 0x1_0000) as u16),
        ),
        _ => (None, None),
    };
    match (lo, hi) {
        (Some(x), Some(y)) => Some((x, y)),
        _ => None,
    }
}

/// Splits a packed-pair bit pattern into its two lanes' real values.
#[verifier::when_used_as_spec(spec_decode_packed_bits)]
pub fn decode_packed_bits(bits: u64, lane_ty: ScalarType) -> (r: Option<(FloatValue, FloatValue)>)
    ensures
        r == spec_decode_packed_bits(bits, lane_ty),
{
    let (lo, hi) = match lane_ty {
        ScalarType::F32 => (
            decode_f32_bits((bits % 0x1_0000_0000) as u32),
            decode_f32_bits((bits / 0x1_0000_0000) as u32),
        ),
        ScalarType::F16 => (
            decode_f16_bits((bits % 0x1_0000) as u16),
            decode_f16_bits((bits / 0x1_0000 % 0x1_0000) as u16),
        ),
        ScalarType::Bf16 => (
            decode_bf16_bits((bits % 0x1_0000) as u16),
            decode_bf16_bits((bits / 0x1_0000 % 0x1_0000) as u16),
        ),
        _ => (None, None),
    };
    match (lo, hi) {
        (Some(x), Some(y)) => Some((x, y)),
        _ => None,
    }
}

/// The integer two concrete halves of a packed value stand for.
pub open spec fn recombined(lo: i64, hi: i64, half_bits: nat) -> i64 {
    canonical(
        low(hi as int, half_bits) * pow2(half_bits) + low(lo as int, half_bits),
        64,
        true,
    ) as i64
}

/// Recombines two concrete halves of a packed value: `lo` takes the low
/// `half_bits` bits, `hi` the next ones above.
pub fn recombine_pair_halves(arena: &mut ExprArena, lo: i64, hi: i64, half_bits: u32) -> (r: ExprId)
    requires
        old(arena).wf(),
        1 <= half_bits <= 32,
    ensures
        final(arena).wf(),
        (final(arena)@, r) == old(arena)@.int_const(recombined(lo, hi, half_bits as nat)),
{
    let h: u64 = mask_to(hi, half_bits);
    let l: u64 = mask_to(lo, half_bits);
    proof {
        lemma2_to64();
        lemma2_to64_rest();
        lemma_pow2_pos(half_bits as nat);
        if half_bits < 32 {
            lemma_pow2_strictly_increases(half_bits as nat, 32);
        }
        assert(h * pow2(half_bits as nat) <= 0xffff_ffff * 0x1_0000_0000) by (nonlinear_arith)
            requires
                h < 0x1_0000_0000,
                0 < pow2(half_bits as nat) <= 0x1_0000_0000,
        ;
        vstd::bits::lemma_u64_shl_is_mul(h, half_bits as u64);
    }
    let wide: u64 = (h << (half_bits as u64)) + l;
    let v: i64 = crate::eval::int_ops::canonical_of(wide as i128, 64, true);
    arena.int_const(v)
}

// ---------------------------------------------------------------------------
// Binary operations
// ---------------------------------------------------------------------------

pub open spec fn spec_sign_mask(ty: ScalarType) -> Option<i64> {
    if ty.bits() == 16 {
        Some(0x8000)
    } else if ty.bits() == 32 {
        Some(0x8000_0000)
    } else if ty.bits() == 64 {
        Some(i64::MIN)
    } else {
        None
    }
}

/// The sign-bit mask of a type, as a register holds it.
#[verifier::when_used_as_spec(spec_sign_mask)]
fn sign_mask(ty: ScalarType) -> (r: Option<i64>)
    ensures
        r == spec_sign_mask(ty),
{
    if ty.bits() == 16 {
        Some(0x8000)
    } else if ty.bits() == 32 {
        Some(0x8000_0000)
    } else if ty.bits() == 64 {
        Some(i64::MIN)
    } else {
        None
    }
}

/// `xor` by the sign-bit mask is a float negation.
pub open spec fn xor_spec(s: Exprs, ty: ScalarType, a: ExprId, b: ExprId) -> (Exprs, ExprId) {
    match spec_sign_mask(ty) {
        None => s.with(ExprNode::BitXor(a, b)),
        Some(m) => if s.as_int(a) == Some(m) {
            s.negated(b)
        } else if s.as_int(b) == Some(m) {
            s.negated(a)
        } else {
            s.with(ExprNode::BitXor(a, b))
        },
    }
}

fn eval_xor(arena: &mut ExprArena, ty: ScalarType, a: ExprId, b: ExprId) -> (r: ExprId)
    requires
        old(arena).wf(),
    ensures
        final(arena).wf(),
        (final(arena)@, r) == xor_spec(old(arena)@, ty, a, b),
{
    match sign_mask(ty) {
        None => arena.bit_xor(a, b),
        Some(m) => {
            if let Some(c) = arena.as_int_const(a) {
                if c == m {
                    return arena.neg(b);
                }
            }
            if let Some(c) = arena.as_int_const(b) {
                if c == m {
                    return arena.neg(a);
                }
            }
            arena.bit_xor(a, b)
        },
    }
}

/// A logical operation on predicates; anything else is refused.
pub open spec fn pred_binop_spec(s: Exprs, pc: InstrId, op: BinOp, a: ExprId, b: ExprId) -> Step<
    ExprId,
> {
    let refused = EvalError::Unsupported { pc, what: Detail::OnPredicates { op } };
    match (s.as_bool(a), s.as_bool(b)) {
        (Some(x), Some(y)) => match op {
            BinOp::And => (s.bool_val(x && y).0, Ok(s.bool_val(x && y).1)),
            BinOp::Or => (s.bool_val(x || y).0, Ok(s.bool_val(x || y).1)),
            BinOp::Xor => (s.bool_val(x != y).0, Ok(s.bool_val(x != y).1)),
            _ => (s, Err(refused)),
        },
        _ => match op {
            BinOp::And => ok(s.with(ExprNode::And(a, b))),
            BinOp::Or => ok(s.with(ExprNode::Or(a, b))),
            BinOp::Xor => ok(s.with(ExprNode::Ne(a, b))),
            _ => (s, Err(refused)),
        },
    }
}

/// A step that succeeds.
pub open spec fn ok<T>(x: (Exprs, T)) -> Step<T> {
    (x.0, Ok(x.1))
}

fn eval_pred_binop(arena: &mut ExprArena, pc: InstrId, op: BinOp, a: ExprId, b: ExprId) -> (r:
    Result<ExprId, EvalError>)
    requires
        old(arena).wf(),
    ensures
        final(arena).wf(),
        (final(arena)@, r) == pred_binop_spec(old(arena)@, pc, op, a, b),
{
    match (arena.as_bool(a), arena.as_bool(b)) {
        (Some(x), Some(y)) => match op {
            BinOp::And => Ok(arena.bool_val(x && y)),
            BinOp::Or => Ok(arena.bool_val(x || y)),
            BinOp::Xor => Ok(arena.bool_val(x != y)),
            _ => Err(EvalError::Unsupported { pc, what: Detail::OnPredicates { op } }),
        },
        _ => match op {
            BinOp::And => Ok(arena.and(a, b)),
            BinOp::Or => Ok(arena.or(a, b)),
            BinOp::Xor => Ok(arena.ne(a, b)),
            _ => Err(EvalError::Unsupported { pc, what: Detail::OnPredicates { op } }),
        },
    }
}

/// The node of a binary operation on operands of which one is not a concrete
/// integer.
pub open spec fn symbolic_binop(s: Exprs, op: BinOp, ty: ScalarType, a: ExprId, b: ExprId) -> (
    Exprs,
    ExprId,
) {
    match op {
        BinOp::Add => s.plus(a, b),
        BinOp::Sub => s.minus(a, b),
        BinOp::Mul => s.times(a, b),
        BinOp::Div => s.with(ExprNode::Div(a, b)),
        BinOp::Rem => s.with(ExprNode::Rem(a, b)),
        BinOp::And => s.with(ExprNode::BitAnd(a, b)),
        BinOp::Or => s.with(ExprNode::BitOr(a, b)),
        BinOp::Xor => xor_spec(s, ty, a, b),
        BinOp::Shl => s.with(ExprNode::Shl(a, b)),
        BinOp::Shr => s.shifted_right(a, b, ty.is_signed_int()),
        BinOp::Min => s.minimum(a, b),
        BinOp::Max => s.maximum(a, b),
    }
}

pub open spec fn zero_divisor(op: BinOp, t: ThreadId, pc: InstrId) -> EvalError {
    EvalError::Unsupported {
        pc,
        what: Detail::ByZero {
            what: if op == BinOp::Div {
                "division"
            } else {
                "remainder"
            },
            thread: t,
        },
    }
}

/// A binary operation: exact on concrete integers, a real-valued node
/// otherwise.
pub open spec fn binop_spec(
    s: Exprs,
    t: ThreadId,
    pc: InstrId,
    op: BinOp,
    ty: ScalarType,
    a: ExprId,
    b: ExprId,
) -> Step<ExprId> {
    if ty.is_predicate() {
        pred_binop_spec(s, pc, op, a, b)
    } else if !ty.is_float() && s.as_int(a) is Some && s.as_int(b) is Some {
        match int_binop(op, ty, s.as_int(a)->0, s.as_int(b)->0) {
            Some(v) => ok(s.int_const(v)),
            None => (s, Err(zero_divisor(op, t, pc))),
        }
    } else {
        let (s1, x) = canon_operand_spec(s, ty, a);
        let (s2, y) = canon_operand_spec(s1, ty, b);
        ok(symbolic_binop(s2, op, ty, x, y))
    }
}

/// Evaluates a binary operation.
pub fn eval_binop(
    arena: &mut ExprArena,
    t: ThreadId,
    pc: InstrId,
    op: BinOp,
    ty: ScalarType,
    a: ExprId,
    b: ExprId,
) -> (r: Result<ExprId, EvalError>)
    requires
        old(arena).wf(),
    ensures
        final(arena).wf(),
        (final(arena)@, r) == binop_spec(old(arena)@, t, pc, op, ty, a, b),
{
    if ty.is_predicate() {
        return eval_pred_binop(arena, pc, op, a, b);
    }
    if !ty.is_float() {
        match (arena.as_i64(a), arena.as_i64(b)) {
            (Some(x), Some(y)) => {
                return match concrete_int_binop(op, ty, x, y) {
                    Some(v) => Ok(arena.int_const(v)),
                    None => {
                        let what = if op == BinOp::Div {
                            "division"
                        } else {
                            "remainder"
                        };
                        Err(EvalError::Unsupported { pc, what: Detail::ByZero { what, thread: t } })
                    },
                };
            },
            _ => {},
        }
    }
    let x = canon_operand(arena, ty, a);
    let y = canon_operand(arena, ty, b);
    Ok(
        match op {
            BinOp::Add => arena.add(x, y),
            BinOp::Sub => arena.sub(x, y),
            BinOp::Mul => arena.mul(x, y),
            BinOp::Div => arena.div(x, y),
            BinOp::Rem => arena.rem(x, y),
            BinOp::And => arena.bit_and(x, y),
            BinOp::Or => arena.bit_or(x, y),
            BinOp::Xor => eval_xor(arena, ty, x, y),
            BinOp::Shl => arena.shl(x, y),
            BinOp::Shr => {
                if ty.is_signed_int() {
                    arena.shr(x, y)
                } else {
                    arena.lshr(x, y)
                }
            },
            BinOp::Min => arena.min(x, y),
            BinOp::Max => arena.max(x, y),
        },
    )
}

/// The exact product at twice the source width.
pub open spec fn mul_wide_spec(s: Exprs, ty: ScalarType, a: ExprId, b: ExprId) -> (Exprs, ExprId) {
    let (s1, x) = canon_operand_spec(s, ty, a);
    let (s2, y) = canon_operand_spec(s1, ty, b);
    s2.times(x, y)
}

pub fn mul_wide(arena: &mut ExprArena, ty: ScalarType, a: ExprId, b: ExprId) -> (r: ExprId)
    requires
        old(arena).wf(),
    ensures
        final(arena).wf(),
        (final(arena)@, r) == mul_wide_spec(old(arena)@, ty, a, b),
{
    let x = canon_operand(arena, ty, a);
    let y = canon_operand(arena, ty, b);
    arena.mul(x, y)
}

/// The high half of the widening product, `(a * b) >> bits`.
pub open spec fn mul_hi_spec(s: Exprs, ty: ScalarType, a: ExprId, b: ExprId) -> (Exprs, ExprId) {
    let (s1, x) = canon_operand_spec(s, ty, a);
    let (s2, y) = canon_operand_spec(s1, ty, b);
    let (s3, bits) = s2.int_const(int_bits(ty) as i64);
    let (s4, product) = s3.times(x, y);
    s4.shifted_right(product, bits, ty.is_signed_int())
}

pub fn mul_hi(arena: &mut ExprArena, ty: ScalarType, a: ExprId, b: ExprId) -> (r: ExprId)
    requires
        old(arena).wf(),
    ensures
        final(arena).wf(),
        (final(arena)@, r) == mul_hi_spec(old(arena)@, ty, a, b),
{
    let x = canon_operand(arena, ty, a);
    let y = canon_operand(arena, ty, b);
    let bits = arena.int_const(int_bits(ty) as i64);
    let product = arena.mul(x, y);
    if ty.is_signed_int() {
        arena.shr(product, bits)
    } else {
        arena.lshr(product, bits)
    }
}

/// The node of a relation.
pub open spec fn relation_node(s: Exprs, rel: CmpOp, a: ExprId, b: ExprId) -> (Exprs, ExprId) {
    match rel {
        CmpOp::Eq | CmpOp::Equ => s.with(ExprNode::Eq(a, b)),
        CmpOp::Ne | CmpOp::Neu => s.with(ExprNode::Ne(a, b)),
        CmpOp::Lt | CmpOp::Lo | CmpOp::Ltu => s.with(ExprNode::Lt(a, b)),
        CmpOp::Le | CmpOp::Ls | CmpOp::Leu => s.with(ExprNode::Le(a, b)),
        CmpOp::Gt | CmpOp::Hi | CmpOp::Gtu => s.with(ExprNode::Gt(a, b)),
        CmpOp::Ge | CmpOp::Hs | CmpOp::Geu => s.with(ExprNode::Ge(a, b)),
        CmpOp::Num => s.bool_val(true),
        CmpOp::Nan => s.bool_val(false),
    }
}

/// A comparison: decided on concrete integers, a node otherwise. There are no
/// NaNs over the reals, so unordered relations coincide with ordered ones.
pub open spec fn relation_spec(s: Exprs, rel: CmpOp, ty: ScalarType, a: ExprId, b: ExprId) -> (
    Exprs,
    ExprId,
) {
    if !ty.is_float() && s.as_int(a) is Some && s.as_int(b) is Some {
        s.bool_val(int_relation(rel, ty, s.as_int(a)->0, s.as_int(b)->0))
    } else {
        let (s1, x) = canon_operand_spec(s, ty, a);
        let (s2, y) = canon_operand_spec(s1, ty, b);
        relation_node(s2, rel, x, y)
    }
}

/// Evaluates a comparison.
pub fn eval_relation(arena: &mut ExprArena, rel: CmpOp, ty: ScalarType, a: ExprId, b: ExprId) -> (r:
    ExprId)
    requires
        old(arena).wf(),
    ensures
        final(arena).wf(),
        (final(arena)@, r) == relation_spec(old(arena)@, rel, ty, a, b),
{
    if !ty.is_float() {
        match (arena.as_i64(a), arena.as_i64(b)) {
            (Some(x), Some(y)) => {
                return arena.bool_val(concrete_relation(rel, ty, x, y));
            },
            _ => {},
        }
    }
    let x = canon_operand(arena, ty, a);
    let y = canon_operand(arena, ty, b);
    match rel {
        CmpOp::Eq | CmpOp::Equ => arena.eq(x, y),
        CmpOp::Ne | CmpOp::Neu => arena.ne(x, y),
        CmpOp::Lt | CmpOp::Lo | CmpOp::Ltu => arena.lt(x, y),
        CmpOp::Le | CmpOp::Ls | CmpOp::Leu => arena.le(x, y),
        CmpOp::Gt | CmpOp::Hi | CmpOp::Gtu => arena.gt(x, y),
        CmpOp::Ge | CmpOp::Hs | CmpOp::Geu => arena.ge(x, y),
        CmpOp::Num => arena.bool_val(true),
        CmpOp::Nan => arena.bool_val(false),
    }
}

// ---------------------------------------------------------------------------
// Unary operations
// ---------------------------------------------------------------------------

/// `log2(e)` in units of `2^-72`, less a millionth part of it.
pub const LOG2E_LOW: u128 = 6812927893161586923355;

/// `log2(e)` in units of `2^-72`, plus a millionth part of it.
pub const LOG2E_HIGH: u128 = 6812941519030999115941;

/// Whether a constant is within single-precision rounding of `log2(e)` or of
/// its negation.
pub open spec fn log2e_like(c: Coeff) -> bool {
    let n = abs(c.num as int);
    if c.exp2 >= -72 {
        LOG2E_LOW * c.den <= n * pow2((c.exp2 + 72) as nat) <= LOG2E_HIGH * c.den
    } else {
        let p = pow2((-72 - c.exp2) as nat);
        LOG2E_LOW * p * c.den <= n <= LOG2E_HIGH * p * c.den
    }
}

fn is_log2e_like(c: Coeff) -> (r: bool)
    requires
        c.canonical(),
    ensures
        r == log2e_like(c),
{
    if c.num == i128::MIN {
        assert(abs(c.num as int) % 2 == 0);
        return false;
    }
    let n: u128 = if c.num < 0 {
        (-c.num) as u128
    } else {
        c.num as u128
    };
    let d: u128 = c.den as u128;
    proof {
        lemma2_to64();
        lemma_fundamental_div_mod(n as int, d as int);
        lemma_mod_bound(n as int, d as int);
        lemma_mul_is_commutative(d as int, n as int / d as int);
    }
    let whole: u128 = n / d;
    let part: u128 = n % d;
    proof {
        assert(whole <= n) by (nonlinear_arith)
            requires
                n == whole * d + part,
                d >= 1,
                part >= 0,
        ;
    }
    if c.exp2 >= -72 {
        scaled_up_like(n, d, whole, part, c.exp2 as i64 + 72)
    } else {
        let shift: i64 = -72 - c.exp2 as i64;
        let mut lo: u128 = LOG2E_LOW;
        let mut hi: u128 = LOG2E_HIGH;
        let mut i: i64 = 0;
        while i < shift
            invariant
                0 <= i <= shift,
                n == whole * d + part,
                part < d,
                whole <= n <= i128::MAX,
                lo == LOG2E_LOW * pow2(i as nat),
                hi == LOG2E_HIGH * pow2(i as nat),
                hi < 2 * lo,
                lo <= whole || i == 0,
                n == abs(c.num as int),
                d == c.den,
                c.exp2 < -72,
                shift == -72 - c.exp2,
            decreases shift - i,
        {
            proof {
                lemma_pow2_unfold((i + 1) as nat);
                assert(LOG2E_LOW * (2 * pow2(i as nat)) == 2 * (LOG2E_LOW * pow2(i as nat)))
                    by (nonlinear_arith);
                assert(LOG2E_HIGH * (2 * pow2(i as nat)) == 2 * (LOG2E_HIGH * pow2(i as nat)))
                    by (nonlinear_arith);
            }
            if lo > whole {
                proof {
                    lemma_grows(LOG2E_LOW as int, i as nat, shift as nat);
                    lemma_at_least(
                        n as int,
                        d as int,
                        whole as int,
                        part as int,
                        LOG2E_LOW * pow2(shift as nat),
                    );
                }
                return false;
            }
            let next: u128 = lo * 2;
            if next > whole {
                proof {
                    lemma_grows(LOG2E_LOW as int, (i + 1) as nat, shift as nat);
                    lemma_at_least(
                        n as int,
                        d as int,
                        whole as int,
                        part as int,
                        LOG2E_LOW * pow2(shift as nat),
                    );
                }
                return false;
            }
            lo = next;
            hi = hi * 2;
            i = i + 1;
        }
        proof {
            lemma_at_least(n as int, d as int, whole as int, part as int, lo as int);
            lemma_at_most(n as int, d as int, whole as int, part as int, hi as int);
        }
        lo <= whole && (whole < hi || (whole == hi && part == 0))
    }
}

/// Whether `n * 2^shift / d` lies within the bounds of `log2(e)`, by long
/// division.
fn scaled_up_like(n: u128, d: u128, whole: u128, part: u128, shift: i64) -> (r: bool)
    requires
        0 <= shift,
        1 <= d <= i128::MAX,
        part < d,
        n == whole * d + part,
        n <= i128::MAX,
    ensures
        r == (LOG2E_LOW * d <= n * pow2(shift as nat) <= LOG2E_HIGH * d),
{
    let mut q: u128 = whole;
    let mut rest: u128 = part;
    let mut i: i64 = 0;
    proof {
        lemma2_to64();
        assert(n * pow2(0) == n);
    }
    while i < shift
        invariant
            0 <= i <= shift,
            1 <= d <= i128::MAX,
            rest < d,
            n * pow2(i as nat) == q * d + rest,
        decreases shift - i,
    {
        if q > LOG2E_HIGH {
            proof {
                lemma_too_large(n as int, d as int, q as int, rest as int, i as nat, shift as nat);
            }
            return false;
        }
        proof {
            lemma_pow2_unfold((i + 1) as nat);
            assert(n * (2 * pow2(i as nat)) == 2 * (n * pow2(i as nat))) by (nonlinear_arith);
            assert(2 * (q * d + rest) == (2 * q) * d + 2 * rest) by (nonlinear_arith);
            assert((2 * q + 1) * d + (2 * rest - d) == (2 * q) * d + 2 * rest) by (nonlinear_arith);
        }
        let double: u128 = rest * 2;
        if double >= d {
            q = q * 2 + 1;
            rest = double - d;
        } else {
            q = q * 2;
            rest = double;
        }
        i = i + 1;
    }
    let ghost x = n * pow2(shift as nat);
    proof {
        lemma_at_least(x, d as int, q as int, rest as int, LOG2E_LOW as int);
        lemma_at_most(x, d as int, q as int, rest as int, LOG2E_HIGH as int);
    }
    LOG2E_LOW <= q && (q < LOG2E_HIGH || (q == LOG2E_HIGH && rest == 0))
}

/// A bound on a quotient is a bound on the dividend.
proof fn lemma_at_least(x: int, d: int, q: int, r: int, bound: int)
    requires
        d >= 1,
        0 <= r < d,
        x == q * d + r,
    ensures
        bound * d <= x <==> bound <= q,
{
    if bound <= q {
        assert(bound * d <= q * d) by (nonlinear_arith)
            requires
                bound <= q,
                d >= 1,
        ;
    } else {
        assert(bound * d >= (q + 1) * d) by (nonlinear_arith)
            requires
                bound >= q + 1,
                d >= 1,
        ;
        assert((q + 1) * d == q * d + d) by (nonlinear_arith);
    }
}

proof fn lemma_at_most(x: int, d: int, q: int, r: int, bound: int)
    requires
        d >= 1,
        0 <= r < d,
        x == q * d + r,
    ensures
        x <= bound * d <==> q < bound || (q == bound && r == 0),
{
    if q < bound {
        assert(bound * d >= (q + 1) * d) by (nonlinear_arith)
            requires
                bound >= q + 1,
                d >= 1,
        ;
        assert((q + 1) * d == q * d + d) by (nonlinear_arith);
    } else {
        assert(bound * d <= q * d) by (nonlinear_arith)
            requires
                bound <= q,
                d >= 1,
        ;
        if q > bound {
            assert(q * d >= (bound + 1) * d) by (nonlinear_arith)
                requires
                    q >= bound + 1,
                    d >= 1,
            ;
            assert((bound + 1) * d == bound * d + d) by (nonlinear_arith);
        }
    }
}

/// A dividend that is too large stays so when it grows.
proof fn lemma_too_large(n: int, d: int, q: int, r: int, i: nat, j: nat)
    requires
        n >= 0,
        d >= 1,
        0 <= r < d,
        n * pow2(i) == q * d + r,
        q > LOG2E_HIGH,
        i <= j,
    ensures
        n * pow2(j) > LOG2E_HIGH * d,
{
    lemma_at_most(n * pow2(i), d, q, r, LOG2E_HIGH as int);
    if n == 0 {
        assert(n * pow2(i) == 0) by (nonlinear_arith)
            requires
                n == 0,
        ;
        assert(q * d >= 1) by (nonlinear_arith)
            requires
                q >= 1,
                d >= 1,
        ;
    } else {
        lemma_grows(n, i, j);
    }
}

proof fn lemma_grows(n: int, i: nat, j: nat)
    requires
        n >= 1,
        i <= j,
    ensures
        n * pow2(i) <= n * pow2(j),
{
    if i < j {
        lemma_pow2_strictly_increases(i, j);
    }
    assert(n * pow2(i) <= n * pow2(j)) by (nonlinear_arith)
        requires
            n >= 1,
            pow2(i) <= pow2(j),
    ;
}

/// `x`, negated if the constant is negative.
pub open spec fn signed_by(s: Exprs, c: Coeff, x: ExprId) -> (Exprs, ExprId) {
    if c.num < 0 {
        s.negated(x)
    } else {
        (s, x)
    }
}

/// The sign of a `log2(e)`-like constant operand.
pub open spec fn log2e_const(s: Exprs, e: ExprId) -> Option<Coeff> {
    match s.node(e) {
        ExprNode::RealConst(c) => if log2e_like(c) {
            Some(c)
        } else {
            None
        },
        _ => None,
    }
}

/// The expression `x` with `a == log2(e) * x`, pulled out of a chain of
/// products, fused products and sums that share the factor.
pub open spec fn factor_spec(s: Exprs, a: ExprId) -> (Exprs, Option<ExprId>)
    decreases a.0,
{
    match s.node(a) {
        ExprNode::Mul(l, r) => match log2e_const(s, l) {
            Some(c) => (signed_by(s, c, r).0, Some(signed_by(s, c, r).1)),
            None => match log2e_const(s, r) {
                Some(c) => (signed_by(s, c, l).0, Some(signed_by(s, c, l).1)),
                None => (s, None),
            },
        },
        ExprNode::Fma(x, c, rest) => match log2e_const(s, c) {
            None => (s, None),
            Some(k) => {
                let (s1, x1) = signed_by(s, k, x);
                if rest.0 >= a.0 {
                    (s1, None)
                } else {
                    match factor_spec(s1, rest) {
                        (s2, None) => (s2, None),
                        (s2, Some(y)) => (s2.plus(x1, y).0, Some(s2.plus(x1, y).1)),
                    }
                }
            },
        },
        ExprNode::Add(l, r) => if l.0 >= a.0 || r.0 >= a.0 {
            (s, None)
        } else {
            match factor_spec(s, l) {
                (s1, None) => (s1, None),
                (s1, Some(x)) => match factor_spec(s1, r) {
                    (s2, None) => (s2, None),
                    (s2, Some(y)) => (s2.plus(x, y).0, Some(s2.plus(x, y).1)),
                },
            }
        },
        _ => (s, None),
    }
}

fn log2e_const_of(arena: &ExprArena, e: ExprId) -> (r: Option<Coeff>)
    requires
        arena.wf(),
    ensures
        r == log2e_const(arena@, e),
{
    match arena.node(e) {
        ExprNode::RealConst(c) => {
            proof {
                arena.lemma_constant(e);
            }
            if is_log2e_like(c) {
                Some(c)
            } else {
                None
            }
        },
        _ => None,
    }
}

fn signed_operand(arena: &mut ExprArena, c: Coeff, x: ExprId) -> (r: ExprId)
    requires
        old(arena).wf(),
    ensures
        final(arena).wf(),
        (final(arena)@, r) == signed_by(old(arena)@, c, x),
{
    if c.num < 0 {
        arena.neg(x)
    } else {
        x
    }
}

/// Pulls a `log2(e)`-like constant out of a product, fused product or sum
/// chain.
fn factor_log2e(arena: &mut ExprArena, a: ExprId) -> (r: Option<ExprId>)
    requires
        old(arena).wf(),
    ensures
        final(arena).wf(),
        (final(arena)@, r) == factor_spec(old(arena)@, a),
    decreases a.0,
{
    match arena.node(a) {
        ExprNode::Mul(l, r) => {
            if let Some(c) = log2e_const_of(arena, l) {
                return Some(signed_operand(arena, c, r));
            }
            if let Some(c) = log2e_const_of(arena, r) {
                return Some(signed_operand(arena, c, l));
            }
            None
        },
        ExprNode::Fma(x, c, rest) => {
            match log2e_const_of(arena, c) {
                None => None,
                Some(k) => {
                    let x1 = signed_operand(arena, k, x);
                    if rest.0 >= a.0 {
                        return None;
                    }
                    match factor_log2e(arena, rest) {
                        None => None,
                        Some(y) => Some(arena.add(x1, y)),
                    }
                },
            }
        },
        ExprNode::Add(l, r) => {
            if l.0 >= a.0 || r.0 >= a.0 {
                return None;
            }
            match factor_log2e(arena, l) {
                None => None,
                Some(x) => {
                    match factor_log2e(arena, r) {
                        None => None,
                        Some(y) => Some(arena.add(x, y)),
                    }
                },
            }
        },
        _ => None,
    }
}

/// `2^a`: an exact `exp` where `a` carries a `log2(e)` factor, else
/// `exp(a * ln 2)`.
pub open spec fn exp2_spec(s: Exprs, a: ExprId) -> (Exprs, ExprId) {
    match factor_spec(s, a) {
        (s1, Some(x)) => s1.with(ExprNode::Exp(x)),
        (s1, None) => {
            let (s2, ln2) = s1.float(ln2_value());
            let (s3, scaled) = s2.times(a, ln2);
            s3.with(ExprNode::Exp(scaled))
        },
    }
}

pub open spec fn spec_ln2_value() -> FloatValue {
    FloatValue::Finite { negative: false, mantissa: 0x16_2e42_fefa_39ef, exp2: (-53) as i32 }
}

/// The double nearest to the natural logarithm of two.
#[verifier::when_used_as_spec(spec_ln2_value)]
pub fn ln2_value() -> (r: FloatValue)
    ensures
        r == spec_ln2_value(),
{
    FloatValue::Finite { negative: false, mantissa: 0x16_2e42_fefa_39ef, exp2: -53 }
}

fn eval_exp2(arena: &mut ExprArena, a: ExprId) -> (r: ExprId)
    requires
        old(arena).wf(),
    ensures
        final(arena).wf(),
        (final(arena)@, r) == exp2_spec(old(arena)@, a),
{
    match factor_log2e(arena, a) {
        Some(x) => arena.exp(x),
        None => {
            let ln2 = arena.float(ln2_value());
            let scaled = arena.mul(a, ln2);
            arena.exp(scaled)
        },
    }
}

/// `tanh(a) == (exp(2a) - 1) / (exp(2a) + 1)`.
pub open spec fn tanh_spec(s: Exprs, a: ExprId) -> (Exprs, ExprId) {
    let (s1, two) = s.int_const(2);
    let (s2, one) = s1.int_const(1);
    let (s3, two_x) = s2.times(a, two);
    let (s4, e2x) = s3.with(ExprNode::Exp(two_x));
    let (s5, num) = s4.minus(e2x, one);
    let (s6, den) = s5.plus(e2x, one);
    s6.with(ExprNode::Div(num, den))
}

/// A unary operation.
pub open spec fn unop_spec(s: Exprs, pc: InstrId, op: UnaryOp, ty: ScalarType, a: ExprId) -> Step<
    ExprId,
> {
    match op {
        UnaryOp::Neg => ok(s.negated(a)),
        UnaryOp::Abs => ok(s.with(ExprNode::Abs(a))),
        UnaryOp::Not => if ty.is_predicate() {
            match s.as_bool(a) {
                Some(b) => ok(s.bool_val(!b)),
                None => ok(s.with(ExprNode::Not(a))),
            }
        } else {
            match s.as_int(a) {
                Some(c) => ok(
                    s.int_const(
                        canonical(-1 - c, int_bits(ty) as nat, ty.is_signed_int()) as i64,
                    ),
                ),
                None => ok(s.with(ExprNode::BitNot(a))),
            }
        },
        UnaryOp::Rcp => ok(s.with(ExprNode::Rcp(a))),
        UnaryOp::Sqrt => ok(s.with(ExprNode::Sqrt(a))),
        UnaryOp::Rsqrt => {
            let (s1, root) = s.with(ExprNode::Sqrt(a));
            ok(s1.with(ExprNode::Rcp(root)))
        },
        UnaryOp::Exp => ok(s.with(ExprNode::Exp(a))),
        UnaryOp::Ex2 => ok(exp2_spec(s, a)),
        UnaryOp::Tanh => ok(tanh_spec(s, a)),
        UnaryOp::Lg2 | UnaryOp::Sin | UnaryOp::Cos => (
            s,
            Err(EvalError::Unsupported { pc, what: Detail::Transcendental { op } }),
        ),
    }
}

/// Evaluates a unary operation.
pub fn eval_unop(arena: &mut ExprArena, pc: InstrId, op: UnaryOp, ty: ScalarType, a: ExprId) -> (r:
    Result<ExprId, EvalError>)
    requires
        old(arena).wf(),
    ensures
        final(arena).wf(),
        (final(arena)@, r) == unop_spec(old(arena)@, pc, op, ty, a),
{
    match op {
        UnaryOp::Neg => Ok(arena.neg(a)),
        UnaryOp::Abs => Ok(arena.abs(a)),
        UnaryOp::Not => {
            if ty.is_predicate() {
                match arena.as_bool(a) {
                    Some(b) => Ok(arena.bool_val(!b)),
                    None => Ok(arena.not(a)),
                }
            } else {
                match arena.as_i64(a) {
                    Some(c) => {
                        let flipped: i64 = -1 - c;
                        let v: i64 = canon_int(flipped, int_bits(ty), ty.is_signed_int());
                        Ok(arena.int_const(v))
                    },
                    None => Ok(arena.bit_not(a)),
                }
            }
        },
        UnaryOp::Rcp => Ok(arena.rcp(a)),
        UnaryOp::Sqrt => Ok(arena.sqrt(a)),
        UnaryOp::Rsqrt => {
            let root = arena.sqrt(a);
            Ok(arena.rcp(root))
        },
        UnaryOp::Exp => Ok(arena.exp(a)),
        UnaryOp::Ex2 => Ok(eval_exp2(arena, a)),
        UnaryOp::Tanh => {
            let two = arena.int_const(2);
            let one = arena.int_const(1);
            let two_x = arena.mul(a, two);
            let e2x = arena.exp(two_x);
            let num = arena.sub(e2x, one);
            let den = arena.add(e2x, one);
            Ok(arena.div(num, den))
        },
        UnaryOp::Lg2 | UnaryOp::Sin | UnaryOp::Cos => Err(
            EvalError::Unsupported { pc, what: Detail::Transcendental { op } },
        ),
    }
}

/// A value clamp: `.relu` is `max(r, 0)`, `.sat` is `min(max(r, 0), 1)`.
pub open spec fn clamp_spec(s: Exprs, clamp: Option<Clamp>, r: ExprId) -> (Exprs, ExprId) {
    match clamp {
        None => (s, r),
        Some(Clamp::Relu) => {
            let (s1, zero) = s.real_const(Coeff::spec_zero());
            s1.maximum(r, zero)
        },
        Some(Clamp::Sat) => {
            let (s1, zero) = s.real_const(Coeff::spec_zero());
            let (s2, one) = s1.real_const(Coeff::spec_one());
            let (s3, low_clamped) = s2.maximum(r, zero);
            s3.minimum(low_clamped, one)
        },
    }
}

/// Applies a value clamp to a result.
pub fn apply_clamp(arena: &mut ExprArena, clamp: Option<Clamp>, r: ExprId) -> (out: ExprId)
    requires
        old(arena).wf(),
    ensures
        final(arena).wf(),
        (final(arena)@, out) == clamp_spec(old(arena)@, clamp, r),
{
    match clamp {
        None => r,
        Some(Clamp::Relu) => {
            let zero = arena.real_const(Coeff::zero());
            arena.max(r, zero)
        },
        Some(Clamp::Sat) => {
            let zero = arena.real_const(Coeff::zero());
            let one = arena.real_const(Coeff::one());
            let low_clamped = arena.max(r, zero);
            arena.min(low_clamped, one)
        },
    }
}

// ---------------------------------------------------------------------------
// Conversions and memory boundaries
// ---------------------------------------------------------------------------

/// A type conversion. Between float types it is the identity over the reals;
/// an integer source is read at its own type first and renormalized at the
/// destination's.
pub open spec fn cvt_spec(
    s: Exprs,
    pc: InstrId,
    dst_ty: ScalarType,
    src_ty: ScalarType,
    a: ExprId,
) -> Step<ExprId> {
    if dst_ty.is_float() && src_ty.is_float() {
        (s, Ok(a))
    } else if src_ty.is_float() {
        (
            s,
            Err(
                EvalError::Unsupported {
                    pc,
                    what: Detail::FloatToInt { src: src_ty, dst: dst_ty },
                },
            ),
        )
    } else {
        let (s1, x) = canon_operand_spec(s, src_ty, a);
        if dst_ty.is_float() {
            ok(s1.to_float(x))
        } else {
            match s1.as_int(x) {
                Some(c) => ok(
                    s1.int_const(
                        canonical(
                            c as int,
                            int_bits(dst_ty) as nat,
                            dst_ty.is_signed_int(),
                        ) as i64,
                    ),
                ),
                None => (s1, Ok(x)),
            }
        }
    }
}

/// Evaluates a type conversion.
pub fn eval_cvt(
    arena: &mut ExprArena,
    pc: InstrId,
    dst_ty: ScalarType,
    src_ty: ScalarType,
    a: ExprId,
) -> (r: Result<ExprId, EvalError>)
    requires
        old(arena).wf(),
    ensures
        final(arena).wf(),
        (final(arena)@, r) == cvt_spec(old(arena)@, pc, dst_ty, src_ty, a),
{
    if dst_ty.is_float() && src_ty.is_float() {
        return Ok(a);
    }
    if src_ty.is_float() {
        return Err(
            EvalError::Unsupported { pc, what: Detail::FloatToInt { src: src_ty, dst: dst_ty } },
        );
    }
    let x = canon_operand(arena, src_ty, a);
    if dst_ty.is_float() {
        return Ok(arena.to_float(x));
    }
    match arena.as_int_const(x) {
        Some(c) => {
            let v: i64 = canon_int(c, int_bits(dst_ty), dst_ty.is_signed_int());
            Ok(arena.int_const(v))
        },
        None => Ok(x),
    }
}

/// Whether an expression is neither a constant nor undefined.
pub open spec fn symbolic(s: Exprs, e: ExprId) -> bool {
    !s.is_undefined(e) && !s.is_concrete(e)
}

fn is_symbolic(arena: &ExprArena, e: ExprId) -> (r: bool)
    ensures
        r == symbolic(arena@, e),
{
    !arena.is_undefined(e) && !arena.is_concrete(e)
}

/// Zero-extending a symbolic 32-bit value to 64 bits is the pair of the value
/// and zero.
pub open spec fn zero_extend_spec(
    s: Exprs,
    src_bits: u32,
    src_signed: bool,
    dst_bits: u32,
    e: ExprId,
) -> (Exprs, Option<Value>) {
    if src_bits == 32 && dst_bits == 64 && !src_signed && symbolic(s, e) {
        let (s1, zero) = s.int_const(0);
        (s1, Some(Value::Pair(e, zero)))
    } else {
        (s, None)
    }
}

pub fn zero_extend_to_pair(
    arena: &mut ExprArena,
    src_bits: u32,
    src_signed: bool,
    dst_bits: u32,
    e: ExprId,
) -> (r: Option<Value>)
    requires
        old(arena).wf(),
    ensures
        final(arena).wf(),
        (final(arena)@, r) == zero_extend_spec(old(arena)@, src_bits, src_signed, dst_bits, e),
{
    if src_bits == 32 && dst_bits == 64 && !src_signed && is_symbolic(arena, e) {
        let zero = arena.int_const(0);
        Some(Value::Pair(e, zero))
    } else {
        None
    }
}

pub open spec fn spec_reg_bits(reg: RegId) -> u32 {
    (reg.class.size_bytes() * 8) as u32
}

/// Bit width of a register's storage class.
#[verifier::when_used_as_spec(spec_reg_bits)]
pub fn reg_bits(reg: RegId) -> (r: u32)
    ensures
        r == spec_reg_bits(reg),
        8 <= r <= 128,
{
    reg.class.size_bytes() * 8
}

/// The value a store leaves in memory: a concrete integer is reduced to the
/// store type's bits, anything that would need a truncation of an unknown
/// value is refused.
pub open spec fn stored_spec(
    s: Exprs,
    t: ThreadId,
    pc: InstrId,
    ty: ScalarType,
    src_reg_bits: Option<u32>,
    v: Value,
) -> Step<Value> {
    let narrow = match src_reg_bits {
        None => true,
        Some(b) => ty.bits() < b,
    };
    match v {
        Value::Pair(_, _) if narrow => (
            s,
            Err(
                EvalError::Unsupported {
                    pc,
                    what: Detail::PairStore { bits: ty.bits(), thread: t },
                },
            ),
        ),
        Value::Mbarrier(_) => (
            s,
            Err(
                EvalError::ValueKindMismatch {
                    thread: t,
                    pc,
                    what: "mbarrier handle stored as ordinary program data",
                },
            ),
        ),
        Value::Scalar(e) if !ty.is_float() && !ty.is_predicate() => match s.as_int(e) {
            Some(c) => {
                let canon = canonical(c as int, int_bits(ty) as nat, false);
                if canon == c {
                    (s, Ok(v))
                } else {
                    let (s1, x) = s.int_const(canon as i64);
                    (s1, Ok(Value::Scalar(x)))
                }
            },
            None => match src_reg_bits {
                Some(b) if ty.bits() < b && symbolic(s, e) => (
                    s,
                    Err(
                        EvalError::Unsupported {
                            pc,
                            what: Detail::NarrowStore { bits: ty.bits(), reg_bits: b, thread: t },
                        },
                    ),
                ),
                _ => (s, Ok(v)),
            },
        },
        _ => (s, Ok(v)),
    }
}

/// Canonicalizes a value crossing a store boundary.
pub fn canon_stored(
    arena: &mut ExprArena,
    t: ThreadId,
    pc: InstrId,
    ty: ScalarType,
    src_reg_bits: Option<u32>,
    v: Value,
) -> (r: Result<Value, EvalError>)
    requires
        old(arena).wf(),
    ensures
        final(arena).wf(),
        (final(arena)@, r) == stored_spec(old(arena)@, t, pc, ty, src_reg_bits, v),
{
    let narrow: bool = match src_reg_bits {
        None => true,
        Some(b) => ty.bits() < b,
    };
    match v {
        Value::Pair(_, _) => {
            if narrow {
                return Err(
                    EvalError::Unsupported {
                        pc,
                        what: Detail::PairStore { bits: ty.bits(), thread: t },
                    },
                );
            }
            Ok(v)
        },
        Value::Mbarrier(_) => Err(
            EvalError::ValueKindMismatch {
                thread: t,
                pc,
                what: "mbarrier handle stored as ordinary program data",
            },
        ),
        Value::Quad(_, _, _, _) => Ok(v),
        Value::Scalar(e) => {
            if ty.is_float() || ty.is_predicate() {
                return Ok(v);
            }
            match arena.as_int_const(e) {
                Some(c) => {
                    let canon: i64 = canon_int(c, int_bits(ty), false);
                    if canon == c {
                        Ok(v)
                    } else {
                        Ok(Value::Scalar(arena.int_const(canon)))
                    }
                },
                None => {
                    if let Some(b) = src_reg_bits {
                        if ty.bits() < b && is_symbolic(arena, e) {
                            return Err(
                                EvalError::Unsupported {
                                    pc,
                                    what: Detail::NarrowStore {
                                        bits: ty.bits(),
                                        reg_bits: b,
                                        thread: t,
                                    },
                                },
                            );
                        }
                    }
                    Ok(v)
                },
            }
        },
    }
}

/// The value a load leaves in its register: a concrete integer is extended
/// per the load type; only a sign extension of an unknown value is refused.
pub open spec fn loaded_spec(
    s: Exprs,
    t: ThreadId,
    pc: InstrId,
    ty: ScalarType,
    dst: RegId,
    v: Value,
) -> Step<Value> {
    match v {
        Value::Mbarrier(_) => (
            s,
            Err(
                EvalError::ValueKindMismatch {
                    thread: t,
                    pc,
                    what: "mbarrier handle loaded as ordinary program data",
                },
            ),
        ),
        Value::Scalar(e) if !ty.is_float() && !ty.is_predicate() => match s.as_int(e) {
            Some(c) => {
                let canon = canonical(c as int, int_bits(ty) as nat, ty.is_signed_int());
                if canon == c {
                    (s, Ok(v))
                } else {
                    let (s1, x) = s.int_const(canon as i64);
                    (s1, Ok(Value::Scalar(x)))
                }
            },
            None => {
                let (s1, pair) = zero_extend_spec(
                    s,
                    ty.bits(),
                    ty.is_signed_int(),
                    reg_bits(dst),
                    e,
                );
                if pair is Some {
                    (s1, Ok(pair->0))
                } else if ty.bits() < reg_bits(dst) && ty.is_signed_int() && symbolic(s, e) {
                    (
                        s1,
                        Err(
                            EvalError::Unsupported {
                                pc,
                                what: Detail::NarrowLoad {
                                    bits: ty.bits(),
                                    reg_bits: reg_bits(dst),
                                    thread: t,
                                },
                            },
                        ),
                    )
                } else {
                    (s1, Ok(v))
                }
            },
        },
        _ => (s, Ok(v)),
    }
}

/// Canonicalizes a value crossing a load boundary.
pub fn canon_loaded(
    arena: &mut ExprArena,
    t: ThreadId,
    pc: InstrId,
    ty: ScalarType,
    dst: RegId,
    v: Value,
) -> (r: Result<Value, EvalError>)
    requires
        old(arena).wf(),
    ensures
        final(arena).wf(),
        (final(arena)@, r) == loaded_spec(old(arena)@, t, pc, ty, dst, v),
{
    match v {
        Value::Mbarrier(_) => Err(
            EvalError::ValueKindMismatch {
                thread: t,
                pc,
                what: "mbarrier handle loaded as ordinary program data",
            },
        ),
        Value::Scalar(e) => {
            if ty.is_float() || ty.is_predicate() {
                return Ok(v);
            }
            match arena.as_int_const(e) {
                Some(c) => {
                    let canon: i64 = canon_int(c, int_bits(ty), ty.is_signed_int());
                    if canon == c {
                        Ok(v)
                    } else {
                        Ok(Value::Scalar(arena.int_const(canon)))
                    }
                },
                None => {
                    let dst_bits: u32 = reg_bits(dst);
                    let pair = zero_extend_to_pair(
                        arena,
                        ty.bits(),
                        ty.is_signed_int(),
                        dst_bits,
                        e,
                    );
                    if let Some(p) = pair {
                        return Ok(p);
                    }
                    if ty.bits() < dst_bits && ty.is_signed_int() && is_symbolic(arena, e) {
                        return Err(
                            EvalError::Unsupported {
                                pc,
                                what: Detail::NarrowLoad {
                                    bits: ty.bits(),
                                    reg_bits: dst_bits,
                                    thread: t,
                                },
                            },
                        );
                    }
                    Ok(v)
                },
            }
        },
        _ => Ok(v),
    }
}

/// An eight-bit float format.
#[derive(Debug, Clone, Copy, PartialEq, Eq, Structural)]
pub enum ByteFormat {
    E4m3,
    E5m2,
}

pub open spec fn spec_decode_byte(format: ByteFormat, byte: u8) -> Option<FloatValue> {
    match format {
        ByteFormat::E4m3 => decode_e4m3_byte(byte),
        ByteFormat::E5m2 => decode_e5m2_byte(byte),
    }
}

/// The real value of a byte, or `None` for NaN.
#[verifier::when_used_as_spec(spec_decode_byte)]
fn decode_byte(format: ByteFormat, byte: u8) -> (r: Option<FloatValue>)
    ensures
        r == spec_decode_byte(format, byte),
{
    match format {
        ByteFormat::E4m3 => decode_e4m3_byte(byte),
        ByteFormat::E5m2 => decode_e5m2_byte(byte),
    }
}

/// The exact real constant of a byte; NaN is refused.
pub open spec fn byte_spec(
    s: Exprs,
    pc: InstrId,
    what: &'static str,
    byte: u8,
    format: ByteFormat,
) -> Step<ExprId> {
    match spec_decode_byte(format, byte) {
        Some(f) => ok(s.float(f)),
        None => (s, Err(EvalError::Unsupported { pc, what: Detail::NanByte { what, byte } })),
    }
}

/// Decodes a concrete byte into an exact real constant.
pub fn decode_fp8_byte(
    arena: &mut ExprArena,
    pc: InstrId,
    what: &'static str,
    byte: u8,
    format: ByteFormat,
) -> (r: Result<ExprId, EvalError>)
    requires
        old(arena).wf(),
    ensures
        final(arena).wf(),
        (final(arena)@, r) == byte_spec(old(arena)@, pc, what, byte, format),
{
    match decode_byte(format, byte) {
        Some(f) => Ok(arena.float(f)),
        None => Err(EvalError::Unsupported { pc, what: Detail::NanByte { what, byte } }),
    }
}

} // verus!
