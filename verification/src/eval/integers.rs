//! What integer instructions compute on concrete operands: the mathematical
//! result, wrapped to the width of the type.

use vstd::arithmetic::div_mod::{
    lemma_add_mod_noop, lemma_fundamental_div_mod, lemma_fundamental_div_mod_converse,
    lemma_mod_bound, lemma_mul_mod_noop, lemma_small_mod, lemma_sub_mod_noop,
};
use vstd::arithmetic::power2::{
    lemma2_to64, lemma_pow2_pos, lemma_pow2_strictly_increases, lemma_pow2_unfold, pow2,
};
use vstd::prelude::*;

use crate::eval::ThreadId;
use crate::eval::effects::{
    integer_at, lemma_integer, lemma_scalar, lemma_set, lemma_two, lemma_within_with, only_sets,
    sound, spare, usable, writable,
};
use crate::eval::error::EvalError;
use crate::eval::int_ops::{
    a_word_is_canonical, canonical, canonical_readings_are_fixed, int_binop, int_bits, int_relation,
    low, signed_low, size, truncated_div,
};
use crate::eval::lanes::lane_op;
use crate::eval::machine::Machine;
use crate::eval::step::Flow;
use crate::eval::value::Value;
use crate::lowered::{BinOp, CmpOp, InstrId, LoweredInstr, MulMode, Operand};
use crate::symbolic::ExprId;
use crate::symbolic::arena::{ExprNode, Exprs};
use crate::symbolic::meaning::{
    Reading, an_entered_node_is_found, canonical_exprs, within, within_is_transitive,
};
use crate::symbols::RegId;
use crate::types::ScalarType;

verus! {

/// Whether an integer is in the range of a type. Words of 64 bits are read
/// as signed ones.
pub open spec fn in_type(v: int, ty: ScalarType) -> bool {
    if ty.bits() >= 64 {
        i64::MIN <= v <= i64::MAX
    } else if ty.is_signed_int() {
        -pow2((ty.bits() - 1) as nat) <= v < pow2((ty.bits() - 1) as nat)
    } else {
        0 <= v < pow2(ty.bits() as nat)
    }
}

/// Whether `v` is `exact` but for a multiple of two to the power of the width.
pub open spec fn wraps_to(v: int, exact: int, ty: ScalarType) -> bool {
    (v - exact) % (pow2(int_bits(ty) as nat) as int) == 0
}

/// Whether `q` is `x / y` rounded toward zero, with the remainder `x - y * q`.
pub open spec fn divides_toward_zero(x: int, y: int, q: int) -> bool {
    let rest = x - y * q;
    &&& x >= 0 ==> rest >= 0
    &&& x < 0 ==> rest <= 0
    &&& size(rest) < size(y)
}

/// What the result `v` of an operation on `x` and `y` must be. The bitwise
/// operations and shifts are described on operands that are not negative.
pub open spec fn computes(op: BinOp, ty: ScalarType, x: int, y: int, v: int) -> bool {
    let word = x >= 0 && y >= 0;
    match op {
        BinOp::Add => wraps_to(v, x + y, ty),
        BinOp::Sub => wraps_to(v, x - y, ty),
        BinOp::Mul => wraps_to(v, x * y, ty),
        BinOp::Div => ty.is_signed_int() || word ==> exists|q: int|
            #[trigger] divides_toward_zero(x, y, q) && wraps_to(v, q, ty),
        BinOp::Rem => ty.is_signed_int() || word ==> exists|q: int|
            #[trigger] divides_toward_zero(x, y, q) && wraps_to(v, x - y * q, ty),
        BinOp::Min => ty.is_signed_int() || word ==> v <= x && v <= y && (v == x || v == y),
        BinOp::Max => ty.is_signed_int() || word ==> v >= x && v >= y && (v == x || v == y),
        BinOp::And => word ==> wraps_to(v, (x as u64 & y as u64) as int, ty),
        BinOp::Or => word ==> wraps_to(v, (x as u64 | y as u64) as int, ty),
        BinOp::Xor => word ==> wraps_to(v, (x as u64 ^ y as u64) as int, ty),
        BinOp::Shl => word ==> wraps_to(
            v,
            if y >= int_bits(ty) {
                0
            } else {
                ((x as u64) << (y as u64)) as int
            },
            ty,
        ),
        BinOp::Shr => word ==> v == (if y >= int_bits(ty) {
            0
        } else {
            (x as u64 >> (y as u64)) as int
        }),
    }
}

// ---------------------------------------------------------------------------
// Readings of words
// ---------------------------------------------------------------------------

proof fn lemma_readings(v: int, ty: ScalarType)
    requires
        !ty.is_float(),
        in_type(v, ty),
    ensures
        ({
            let bits = int_bits(ty) as nat;
            let p = pow2(bits) as int;
            &&& p > 0
            &&& (low(v, bits) - v) % p == 0
            &&& low(v, bits) % p == v % p
            &&& ty.is_signed_int() || bits == 64 ==> signed_low(v, bits) == v
            &&& v >= 0 ==> low(v, bits) == v
            &&& canonical(v, bits, ty.is_signed_int()) == v
        }),
{
    let bits = int_bits(ty) as nat;
    let p = pow2(bits) as int;
    lemma_pow2_pos(bits);
    lemma_pow2_unfold(bits);
    lemma2_to64();
    lemma_mod_bound(v, p);
    lemma_fundamental_div_mod(v, p);
    assert(low(v, bits) - v == p * (-(v / p)) + 0) by (nonlinear_arith)
        requires
            v == p * (v / p) + low(v, bits),
    ;
    lemma_fundamental_div_mod_converse(low(v, bits) - v, p, -(v / p), 0);
    lemma_small_mod(low(v, bits) as nat, p as nat);
    if bits == 64 {
        a_word_is_canonical(v as i64);
        if v >= 0 {
            lemma_small_mod(v as nat, p as nat);
        }
    } else if v >= 0 {
        lemma_small_mod(v as nat, p as nat);
    } else {
        assert(v == p * (-1) + (v + p));
        lemma_fundamental_div_mod_converse(v, p, -1, v + p);
    }
}

proof fn lemma_wraps(x: int, ty: ScalarType)
    requires
        !ty.is_float(),
    ensures
        ({
            let v = canonical(x, int_bits(ty) as nat, ty.is_signed_int());
            &&& in_type(v, ty)
            &&& i64::MIN <= v <= i64::MAX
            &&& wraps_to(v, x, ty)
        }),
{
    let bits = int_bits(ty) as nat;
    let p = pow2(bits) as int;
    lemma_pow2_pos(bits);
    lemma_pow2_unfold(bits);
    lemma2_to64();
    if bits < 64 {
        canonical_readings_are_fixed(x, bits, ty.is_signed_int());
        if bits < 63 {
            lemma_pow2_strictly_increases(bits, 63);
        }
        if bits - 1 < 63 {
            lemma_pow2_strictly_increases((bits - 1) as nat, 63);
        }
    } else {
        lemma_mod_bound(x, p);
        lemma_fundamental_div_mod(x, p);
        let v = signed_low(x, 64);
        let m = low(x, 64);
        let k: int = if v == m {
            -(x / p)
        } else {
            -(x / p) - 1
        };
        assert(v - x == p * k + 0) by (nonlinear_arith)
            requires
                x == p * (x / p) + m,
                v == m && k == -(x / p) || v == m - p && k == -(x / p) - 1,
        ;
        lemma_fundamental_div_mod_converse(v - x, p, k, 0);
    }
}

/// Numbers that differ by a multiple wrap alike.
proof fn lemma_congruent(v: int, a: int, b: int, p: int)
    requires
        p > 0,
        (v - a) % p == 0,
        a % p == b % p,
    ensures
        (v - b) % p == 0,
{
    lemma_fundamental_div_mod(v - a, p);
    lemma_fundamental_div_mod(a, p);
    lemma_fundamental_div_mod(b, p);
    let k = (v - a) / p + a / p - b / p;
    assert(v - b == p * k + 0) by (nonlinear_arith)
        requires
            v - a == p * ((v - a) / p),
            a == p * (a / p) + a % p,
            b == p * (b / p) + b % p,
            a % p == b % p,
            k == (v - a) / p + a / p - b / p,
    ;
    lemma_fundamental_div_mod_converse(v - b, p, k, 0);
}

proof fn lemma_truncates(x: int, y: int)
    requires
        y != 0,
    ensures
        divides_toward_zero(x, y, truncated_div(x, y)),
{
    let (a, b) = (size(x), size(y));
    lemma_fundamental_div_mod(a, b);
    lemma_mod_bound(a, b);
    let q = a / b;
    let t = truncated_div(x, y);
    let rest = x - y * t;
    assert(rest == a % b || rest == -(a % b)) by (nonlinear_arith)
        requires
            a == b * q + a % b,
            x >= 0 && a == x || x < 0 && a == -x,
            y >= 0 && b == y || y < 0 && b == -y,
            (x < 0) == (y < 0) && t == q || (x < 0) != (y < 0) && t == -q,
            rest == x - y * t,
    ;
    assert(x >= 0 ==> rest == a % b) by (nonlinear_arith)
        requires
            a == b * q + a % b,
            x >= 0 ==> a == x,
            y >= 0 && b == y || y < 0 && b == -y,
            (x < 0) == (y < 0) && t == q || (x < 0) != (y < 0) && t == -q,
            rest == x - y * t,
    ;
    assert(x < 0 ==> rest == -(a % b)) by (nonlinear_arith)
        requires
            a == b * q + a % b,
            x < 0 ==> a == -x,
            y >= 0 && b == y || y < 0 && b == -y,
            (x < 0) == (y < 0) && t == q || (x < 0) != (y < 0) && t == -q,
            rest == x - y * t,
    ;
}

proof fn lemma_shifted(x: i64, n: u64)
    requires
        x >= 0,
        n < 64,
    ensures
        (x >> n) as int == ((x as u64) >> n) as int,
        0 <= ((x as u64) >> n) as int <= x,
{
    assert(x >= 0 && n < 64 ==> (x >> n) as u64 == (x as u64) >> n && x >> n >= 0 && (x as u64) >> n
        <= x as u64) by (bit_vector);
}

/// What is to be shown of an operation.
spec fn exact(op: BinOp, ty: ScalarType, x: i64, y: i64) -> bool {
    &&& int_binop(op, ty, x, y) is None <==> (op == BinOp::Div || op == BinOp::Rem) && y == 0
    &&& int_binop(op, ty, x, y) matches Some(v) ==> in_type(v as int, ty) && computes(
        op,
        ty,
        x as int,
        y as int,
        v as int,
    )
}

proof fn lemma_ring(op: BinOp, ty: ScalarType, x: i64, y: i64)
    requires
        !ty.is_float(),
        in_type(x as int, ty),
        in_type(y as int, ty),
        op == BinOp::Add || op == BinOp::Sub || op == BinOp::Mul,
    ensures
        exact(op, ty, x, y),
{
    let bits = int_bits(ty) as nat;
    let p = pow2(bits) as int;
    let (ux, uy) = (low(x as int, bits), low(y as int, bits));
    lemma_readings(x as int, ty);
    lemma_readings(y as int, ty);
    let v = int_binop(op, ty, x, y)->0;
    if op == BinOp::Add {
        lemma_wraps(ux + uy, ty);
        lemma_add_mod_noop(ux, uy, p);
        lemma_add_mod_noop(x as int, y as int, p);
        lemma_congruent(v as int, ux + uy, x + y, p);
    } else if op == BinOp::Sub {
        lemma_wraps(ux - uy, ty);
        lemma_sub_mod_noop(ux, uy, p);
        lemma_sub_mod_noop(x as int, y as int, p);
        lemma_congruent(v as int, ux - uy, x - y, p);
    } else {
        lemma_wraps(ux * uy, ty);
        lemma_mul_mod_noop(ux, uy, p);
        lemma_mul_mod_noop(x as int, y as int, p);
        lemma_congruent(v as int, ux * uy, x * y, p);
    }
}

proof fn lemma_quotients(op: BinOp, ty: ScalarType, x: i64, y: i64)
    requires
        !ty.is_float(),
        in_type(x as int, ty),
        in_type(y as int, ty),
        op == BinOp::Div || op == BinOp::Rem,
    ensures
        exact(op, ty, x, y),
{
    let bits = int_bits(ty) as nat;
    let signed = ty.is_signed_int();
    let (ux, uy) = (low(x as int, bits), low(y as int, bits));
    let (sx, sy) = (signed_low(x as int, bits), signed_low(y as int, bits));
    lemma_readings(x as int, ty);
    lemma_readings(y as int, ty);
    lemma_pow2_pos((bits - 1) as nat);
    assert(uy == 0 <==> y == 0);
    if y != 0 {
        let v = int_binop(op, ty, x, y)->0;
        let q = truncated_div(x as int, y as int);
        lemma_truncates(x as int, y as int);
        if op == BinOp::Div {
            if signed {
                lemma_wraps(truncated_div(sx, sy), ty);
            } else {
                lemma_wraps(ux / uy, ty);
            }
            if signed || (x >= 0 && y >= 0) {
                assert(divides_toward_zero(x as int, y as int, q) && wraps_to(v as int, q, ty));
            }
        } else {
            if signed {
                lemma_wraps(sx - sy * truncated_div(sx, sy), ty);
            } else {
                lemma_wraps(ux % uy, ty);
                lemma_fundamental_div_mod(ux, uy);
            }
            if signed || (x >= 0 && y >= 0) {
                assert(divides_toward_zero(x as int, y as int, q) && wraps_to(
                    v as int,
                    x - y * q,
                    ty,
                ));
            }
        }
    }
}

proof fn lemma_extremes(op: BinOp, ty: ScalarType, x: i64, y: i64)
    requires
        !ty.is_float(),
        in_type(x as int, ty),
        in_type(y as int, ty),
        op == BinOp::Min || op == BinOp::Max,
    ensures
        exact(op, ty, x, y),
{
    let bits = int_bits(ty) as nat;
    lemma_readings(x as int, ty);
    lemma_readings(y as int, ty);
    lemma_wraps(low(x as int, bits), ty);
    lemma_wraps(low(y as int, bits), ty);
    lemma_wraps(x as int, ty);
    lemma_wraps(y as int, ty);
}

proof fn lemma_words(op: BinOp, ty: ScalarType, x: i64, y: i64)
    requires
        !ty.is_float(),
        in_type(x as int, ty),
        in_type(y as int, ty),
        op == BinOp::And || op == BinOp::Or || op == BinOp::Xor || op == BinOp::Shl,
    ensures
        exact(op, ty, x, y),
{
    let bits = int_bits(ty) as nat;
    let (ux, uy) = (low(x as int, bits), low(y as int, bits));
    lemma_readings(x as int, ty);
    lemma_readings(y as int, ty);
    lemma_wraps(0, ty);
    if op == BinOp::And {
        lemma_wraps((ux as u64 & uy as u64) as int, ty);
    } else if op == BinOp::Or {
        lemma_wraps((ux as u64 | uy as u64) as int, ty);
    } else if op == BinOp::Xor {
        lemma_wraps((ux as u64 ^ uy as u64) as int, ty);
    } else {
        lemma_wraps(((ux as u64) << (uy as u64)) as int, ty);
    }
}

proof fn lemma_right(ty: ScalarType, x: i64, y: i64)
    requires
        !ty.is_float(),
        in_type(x as int, ty),
        in_type(y as int, ty),
    ensures
        exact(BinOp::Shr, ty, x, y),
{
    let bits = int_bits(ty) as nat;
    let (ux, uy) = (low(x as int, bits), low(y as int, bits));
    let sx = signed_low(x as int, bits);
    lemma_readings(x as int, ty);
    lemma_readings(y as int, ty);
    lemma_wraps(0, ty);
    let n = if uy >= bits {
        (bits - 1) as u64
    } else {
        uy as u64
    };
    lemma_wraps((sx as i64 >> n) as int, ty);
    lemma_wraps((ux as u64 >> uy as u64) as int, ty);
    if x >= 0 && y >= 0 {
        lemma_shifted(x, n);
        if uy >= bits {
            if ty.is_signed_int() {
                lemma_high_bits(x, ty);
            }
            lemma_zero_in_type(ty);
            lemma_readings(0, ty);
        } else {
            lemma_readings((x as u64 >> n) as int, ty);
        }
    }
}

proof fn lemma_zero_in_type(ty: ScalarType)
    ensures
        in_type(0, ty),
{
    lemma_pow2_pos(ty.bits() as nat);
    lemma_pow2_pos((ty.bits() - 1) as nat);
}

/// The integer that an operation gives is the mathematical result, wrapped to
/// the width of the type, and lies in the type's range. Only a division or a
/// remainder by zero gives none.
pub proof fn an_integer_operation_is_exact(op: BinOp, ty: ScalarType, x: i64, y: i64)
    requires
        !ty.is_float(),
        in_type(x as int, ty),
        in_type(y as int, ty),
    ensures
        int_binop(op, ty, x, y) is None <==> (op == BinOp::Div || op == BinOp::Rem) && y == 0,
        int_binop(op, ty, x, y) matches Some(v) ==> in_type(v as int, ty) && computes(
            op,
            ty,
            x as int,
            y as int,
            v as int,
        ),
{
    match op {
        BinOp::Add | BinOp::Sub | BinOp::Mul => lemma_ring(op, ty, x, y),
        BinOp::Div | BinOp::Rem => lemma_quotients(op, ty, x, y),
        BinOp::Min | BinOp::Max => lemma_extremes(op, ty, x, y),
        BinOp::And | BinOp::Or | BinOp::Xor | BinOp::Shl => lemma_words(op, ty, x, y),
        BinOp::Shr => lemma_right(ty, x, y),
    }
}

/// A signed word that is not negative has no bit in the sign's place.
proof fn lemma_high_bits(x: i64, ty: ScalarType)
    requires
        !ty.is_float(),
        in_type(x as int, ty),
        x >= 0,
        ty.is_signed_int(),
    ensures
        (x >> ((int_bits(ty) - 1) as u64)) == 0,
{
    lemma2_to64();
    let n = (int_bits(ty) - 1) as u64;
    if n == 63 {
        assert(x >= 0 ==> x >> 63u64 == 0) by (bit_vector);
    } else if n == 31 {
        assert(0 <= x < 0x8000_0000 ==> x >> 31u64 == 0) by (bit_vector);
    } else if n == 15 {
        assert(0 <= x < 0x8000 ==> x >> 15u64 == 0) by (bit_vector);
    } else {
        assert(n == 7);
        assert(0 <= x < 0x80 ==> x >> 7u64 == 0) by (bit_vector);
    }
}

// ---------------------------------------------------------------------------
// Instructions
// ---------------------------------------------------------------------------

/// An integer instruction on concrete operands in the range of its type
/// leaves in its destination the mathematical result, wrapped to the width of
/// the type. Nothing else changes.
#[verifier::spinoff_prover]
pub proof fn an_integer_instruction_is_exact(
    m: Machine,
    t: ThreadId,
    pc: InstrId,
    op: BinOp,
    dst: RegId,
    a: Operand,
    b: Operand,
    ty: ScalarType,
)
    requires
        sound(m, t),
        !ty.is_float(),
        !ty.is_predicate(),
        usable(m, t, a),
        usable(m, t, b),
        integer_at(m, t, a) is Some,
        integer_at(m, t, b) is Some,
        in_type(integer_at(m, t, a)->0 as int, ty),
        in_type(integer_at(m, t, b)->0 as int, ty),
        (op == BinOp::Div || op == BinOp::Rem) ==> integer_at(m, t, b)->0 != 0,
        writable(m, t, dst),
        spare(m, 5),
    ensures
        ({
            let i = LoweredInstr::BinOp { op, dst, src_a: a, src_b: b, ty, clamp: None };
            let (n, f) = m.execute(t, pc, i);
            let (x, y) = (integer_at(m, t, a)->0, integer_at(m, t, b)->0);
            &&& f == Ok::<Flow, EvalError>(Flow::Next)
            &&& only_sets(m, n, t, dst)
            &&& integer_at(n, t, Operand::Reg(dst)) matches Some(v) && in_type(v as int, ty)
                && computes(op, ty, x as int, y as int, v as int)
        }),
{
    reveal(Machine::arithmetic);
    reveal(Machine::binop);
    let i = LoweredInstr::BinOp { op, dst, src_a: a, src_b: b, ty, clamp: None };
    assert(m.execute(t, pc, i) == crate::eval::step::flow(
        m.binop(t, pc, op, dst, a, b, ty, None),
        Flow::Next,
    ));
    lemma_two(arbitrary::<Reading<int>>(), m, t, pc, a, b);
    let m1 = m.scalar_operand(t, pc, a).0;
    let k = m1.scalar_operand(t, pc, b).0;
    assert(m.operand_value(t, pc, a).0 == m1 && m.operand_value(t, pc, a).1->Ok_0 is Scalar);
    assert(m1.operand_value(t, pc, b).0 == k && m1.operand_value(t, pc, b).1->Ok_0 is Scalar);
    lemma_usable(m, k, t, a);
    lemma_usable(m, k, t, b);
    lemma_scalar_integers(m, k, t, pc, op, dst, a, b, ty);
    assert(m.with_exprs(m.exprs) =~= m);
    lemma_scalar_integers(m, m, t, pc, op, dst, a, b, ty);
    if lane_op(op, ty) {
        reveal(Machine::wide_binop);
    } else if ty.bits() == 32 && op == BinOp::Xor {
        reveal(Machine::word_xor);
        assert(k.with_exprs(k.exprs) =~= k);
    }
}

/// New expressions change no integer operand.
proof fn lemma_usable(m: Machine, k: Machine, t: ThreadId, op: Operand)
    requires
        sound(m, t),
        usable(m, t, op),
        k == m.with_exprs(k.exprs),
        within(m.exprs, k.exprs),
    ensures
        usable(k, t, op),
        integer_at(m, t, op) is Some ==> integer_at(k, t, op) == integer_at(m, t, op),
{
    if let Operand::Reg(reg) = op {
        let e = m.reg_value(t, reg)->Scalar_0;
        assert(k.exprs.nodes[e.0 as int] == m.exprs.nodes[e.0 as int]);
    }
}

proof fn lemma_scalar_integers(
    m: Machine,
    k: Machine,
    t: ThreadId,
    pc: InstrId,
    op: BinOp,
    dst: RegId,
    a: Operand,
    b: Operand,
    ty: ScalarType,
)
    requires
        sound(m, t),
        k == m.with_exprs(k.exprs),
        within(m.exprs, k.exprs),
        canonical_exprs(k.exprs),
        !ty.is_float(),
        !ty.is_predicate(),
        usable(k, t, a),
        usable(k, t, b),
        integer_at(k, t, a) is Some,
        integer_at(k, t, b) is Some,
        in_type(integer_at(k, t, a)->0 as int, ty),
        in_type(integer_at(k, t, b)->0 as int, ty),
        (op == BinOp::Div || op == BinOp::Rem) ==> integer_at(k, t, b)->0 != 0,
        writable(m, t, dst),
        spare(k, 3),
    ensures
        ({
            let (n, f) = k.scalar_binop(t, pc, op, dst, a, b, ty, None);
            let (x, y) = (integer_at(k, t, a)->0, integer_at(k, t, b)->0);
            &&& f is Ok
            &&& only_sets(m, n, t, dst)
            &&& integer_at(n, t, Operand::Reg(dst)) matches Some(v) && in_type(v as int, ty)
                && computes(op, ty, x as int, y as int, v as int)
        }),
{
    reveal(Machine::scalar_binop);
    let (x, y) = (integer_at(k, t, a)->0, integer_at(k, t, b)->0);
    lemma_two(arbitrary::<Reading<int>>(), k, t, pc, a, b);
    let m1 = k.scalar_operand(t, pc, a).0;
    let m2 = m1.scalar_operand(t, pc, b).0;
    an_integer_operation_is_exact(op, ty, x, y);
    let node = ExprNode::IntConst(int_binop(op, ty, x, y)->0);
    let (s, z) = m2.exprs.with(node);
    lemma_within_with(m2.exprs, node);
    within_is_transitive(k.exprs, m2.exprs, s);
    within_is_transitive(m.exprs, k.exprs, s);
    let m3 = m2.with_exprs(s);
    assert(m3.with_exprs(s) =~= m3);
    assert(m3 =~= m.with_exprs(s));
    lemma_set(m, m3, t, pc, dst, Value::Scalar(z));
    an_entered_node_is_found(m2.exprs, node, s);
}

pub(crate) proof fn lemma_wrapped_sum(a: int, b: int, c: int, v: int, w: int, p: int)
    requires
        p > 0,
        (v - a) % p == 0,
        (w - (v + b)) % p == 0,
        c == a + b,
    ensures
        (w - c) % p == 0,
{
    lemma_fundamental_div_mod(v - a, p);
    lemma_fundamental_div_mod(w - (v + b), p);
    let k = (v - a) / p + (w - (v + b)) / p;
    assert(w - c == p * k + 0) by (nonlinear_arith)
        requires
            v - a == p * ((v - a) / p),
            w - (v + b) == p * ((w - (v + b)) / p),
            c == a + b,
            k == (v - a) / p + (w - (v + b)) / p,
    ;
    lemma_fundamental_div_mod_converse(w - c, p, k, 0);
}

/// `mad.lo` on concrete integers multiplies its first two sources and adds the
/// third, wrapped to the width of the type.
#[verifier::spinoff_prover]
pub proof fn mad_multiplies_and_adds(
    m: Machine,
    t: ThreadId,
    pc: InstrId,
    dst: RegId,
    a: Operand,
    b: Operand,
    c: Operand,
    ty: ScalarType,
)
    requires
        sound(m, t),
        !ty.is_float(),
        !ty.is_predicate(),
        usable(m, t, a),
        usable(m, t, b),
        usable(m, t, c),
        integer_at(m, t, a) is Some,
        integer_at(m, t, b) is Some,
        integer_at(m, t, c) is Some,
        in_type(integer_at(m, t, a)->0 as int, ty),
        in_type(integer_at(m, t, b)->0 as int, ty),
        in_type(integer_at(m, t, c)->0 as int, ty),
        writable(m, t, dst),
        spare(m, 5),
    ensures
        ({
            let i = LoweredInstr::Mad {
                dst,
                src_a: a,
                src_b: b,
                src_c: c,
                ty,
                mode: MulMode::Lo,
            };
            let (n, f) = m.execute(t, pc, i);
            let (x, y) = (integer_at(m, t, a)->0 as int, integer_at(m, t, b)->0 as int);
            let z = integer_at(m, t, c)->0 as int;
            &&& f == Ok::<Flow, EvalError>(Flow::Next)
            &&& only_sets(m, n, t, dst)
            &&& integer_at(n, t, Operand::Reg(dst)) matches Some(v) && in_type(v as int, ty)
                && wraps_to(v as int, x * y + z, ty)
        }),
{
    reveal(Machine::arithmetic);
    reveal(Machine::mad);
    let (x, y) = (integer_at(m, t, a)->0, integer_at(m, t, b)->0);
    let z = integer_at(m, t, c)->0;
    lemma_two(arbitrary::<Reading<int>>(), m, t, pc, a, b);
    let (m1, e) = m.scalar_operand(t, pc, a);
    let (m2, f) = m1.scalar_operand(t, pc, b);
    lemma_usable(m, m2, t, c);
    lemma_scalar(m2, t, pc, c);
    let (m3, g) = m2.scalar_operand(t, pc, c);
    lemma_integer(m2, t, pc, c, m3.exprs);
    within_is_transitive(m.exprs, m2.exprs, m3.exprs);
    lemma_found(m2.exprs, m3.exprs, e->Ok_0);
    lemma_found(m2.exprs, m3.exprs, f->Ok_0);
    an_integer_operation_is_exact(BinOp::Mul, ty, x, y);
    let p = int_binop(BinOp::Mul, ty, x, y)->0;
    let product = ExprNode::IntConst(p);
    let (s, q) = m3.exprs.with(product);
    lemma_within_with(m3.exprs, product);
    an_entered_node_is_found(m3.exprs, product, s);
    lemma_found(m3.exprs, s, g->Ok_0);
    an_integer_operation_is_exact(BinOp::Add, ty, p, z);
    let v = int_binop(BinOp::Add, ty, p, z)->0;
    let sum = ExprNode::IntConst(v);
    let (u, w) = s.with(sum);
    lemma_within_with(s, sum);
    an_entered_node_is_found(s, sum, u);
    within_is_transitive(m3.exprs, s, u);
    within_is_transitive(m.exprs, m3.exprs, u);
    let m5 = m3.with_exprs(s).with_exprs(u);
    assert(m5 =~= m.with_exprs(u));
    lemma_set(m, m5, t, pc, dst, Value::Scalar(w));
    lemma_pow2_pos(int_bits(ty) as nat);
    lemma_wrapped_sum(
        x * y,
        z as int,
        x * y + z,
        p as int,
        v as int,
        pow2(int_bits(ty) as nat) as int,
    );
}

/// A constant stays where it is.
proof fn lemma_found(s: Exprs, t: Exprs, e: ExprId)
    requires
        within(s, t),
    ensures
        s.as_int(e) is Some ==> t.as_int(e) == s.as_int(e),
{
    if e.0 < s.nodes.len() {
        assert(t.nodes[e.0 as int] == s.nodes[e.0 as int]);
    }
}

/// The value of an operand that is a concrete integer.
pub open spec fn value_at(m: Machine, t: ThreadId, op: Operand) -> int {
    integer_at(m, t, op)->0 as int
}

/// Whether a relation holds between two integers.
pub open spec fn holds_between(rel: CmpOp, x: int, y: int) -> bool {
    match rel {
        CmpOp::Eq | CmpOp::Equ => x == y,
        CmpOp::Ne | CmpOp::Neu => !(x == y),
        CmpOp::Lt | CmpOp::Lo | CmpOp::Ltu => x < y,
        CmpOp::Le | CmpOp::Ls | CmpOp::Leu => !(y < x),
        CmpOp::Gt | CmpOp::Hi | CmpOp::Gtu => y < x,
        CmpOp::Ge | CmpOp::Hs | CmpOp::Geu => !(x < y),
        CmpOp::Num => true,
        CmpOp::Nan => false,
    }
}

/// `setp` on concrete integers in the range of its type decides the relation:
/// by their values, or, where the relation is an unsigned one, if neither is
/// negative.
#[verifier::spinoff_prover]
pub proof fn setp_decides_integers(
    m: Machine,
    t: ThreadId,
    pc: InstrId,
    rel: CmpOp,
    dst: RegId,
    a: Operand,
    b: Operand,
    ty: ScalarType,
)
    requires
        sound(m, t),
        !ty.is_float(),
        !ty.is_predicate(),
        usable(m, t, a),
        usable(m, t, b),
        integer_at(m, t, a) is Some,
        integer_at(m, t, b) is Some,
        in_type(value_at(m, t, a), ty),
        in_type(value_at(m, t, b), ty),
        writable(m, t, dst),
        spare(m, 3),
    ensures
        ({
            let i = LoweredInstr::Setp { cmp: rel, dst, src_a: a, src_b: b, ty };
            let (n, f) = m.execute(t, pc, i);
            let (x, y) = (value_at(m, t, a), value_at(m, t, b));
            let unsigned = !ty.is_signed_int() || rel == CmpOp::Lo || rel == CmpOp::Ls || rel
                == CmpOp::Hi || rel == CmpOp::Hs;
            &&& f == Ok::<Flow, EvalError>(Flow::Next)
            &&& only_sets(m, n, t, dst)
            &&& n.reg_value(t, dst) matches Value::Scalar(e) && n.exprs.as_bool(e) matches Some(p)
                && (!unsigned || (x >= 0 && y >= 0) ==> p == holds_between(rel, x, y))
        }),
{
    reveal(Machine::arithmetic);
    reveal(Machine::bitwise);
    reveal(Machine::setp);
    let r = arbitrary::<Reading<int>>();
    let (x, y) = (integer_at(m, t, a)->0, integer_at(m, t, b)->0);
    lemma_two(r, m, t, pc, a, b);
    let m1 = m.scalar_operand(t, pc, a).0;
    let m2 = m1.scalar_operand(t, pc, b).0;
    lemma_readings(value_at(m, t, a), ty);
    lemma_readings(value_at(m, t, b), ty);
    let node = ExprNode::BoolConst(int_relation(rel, ty, x, y));
    let (s, z) = m2.exprs.with(node);
    lemma_within_with(m2.exprs, node);
    within_is_transitive(m.exprs, m2.exprs, s);
    lemma_set(m, m2.with_exprs(s), t, pc, dst, Value::Scalar(z));
    an_entered_node_is_found(m2.exprs, node, s);
}

} // verus!
