//! Register-to-register instructions.

use vstd::prelude::*;

use crate::canon::coeff::Coeff;
use crate::eval::ThreadId;
use crate::eval::arith::{
    Step, apply_clamp, binop_spec, canon_operand, canon_operand_spec, clamp_spec, cvt_spec,
    eval_binop, eval_cvt, eval_relation, eval_unop, mul_hi, mul_hi_spec, mul_wide, mul_wide_spec,
    relation_spec, unop_spec, unsupported, zero_extend_spec, zero_extend_to_pair,
};
use crate::eval::error::{Detail, EvalError, EvalResult};
use crate::eval::int_ops::{low, mask_to};
use crate::eval::interp::Interpreter;
use crate::eval::lanes::{
    LaneHalf, clamp_both, clamp_pair, eval_lop3, extract_bits, extracted, insert_bits, inserted,
    lane_op, lop3_spec, pair_bitwise_binop, pair_bitwise_spec, permute, permute_spec,
    quad_bitwise_binop, quad_xor_spec, shf_lane, shf_lane_spec, unpack_bytes, unpack_bytes_spec,
};
use crate::eval::lists::{param_at, param_len};
use crate::eval::machine::{Machine, Out, kind_mismatch};
use crate::eval::value::Value;
use crate::lowered::{BinOp, Clamp, CmpOp, InstrId, MulMode, Operand, UnaryOp};
use crate::symbolic::ExprId;
use crate::symbolic::arena::{ExprArena, ExprNode, Exprs};
use crate::symbols::{ParamId, RegId};
use crate::types::{ClampWrapMode, ScalarType, ShiftDir};

verus! {

fn is_pair(v: Value) -> (r: bool)
    ensures
        r == (v is Pair),
{
    match v {
        Value::Pair(_, _) => true,
        _ => false,
    }
}

/// The `width` low bits set.
pub open spec fn low_mask(width: u32) -> i64 {
    ((1u64 << width) - 1) as i64
}

fn low_bits(width: u32) -> (r: i64)
    requires
        width <= 32,
    ensures
        r == low_mask(width),
{
    assert((1u64 << width) >= 1) by (bit_vector)
        requires
            width <= 32,
    ;
    ((1u64 << width) - 1) as i64
}

/// The bits a funnel shift moves by: clamped to its width, or modulo it.
pub open spec fn spec_shift_amount(mode: ClampWrapMode, raw: i64) -> i64 {
    match mode {
        ClampWrapMode::Clamp => if raw < 0 {
            0
        } else if raw > 32 {
            32
        } else {
            raw
        },
        ClampWrapMode::Wrap => low(raw as int, 5) as i64,
    }
}

/// The bits a funnel shift moves by.
#[verifier::when_used_as_spec(spec_shift_amount)]
pub fn shift_amount(mode: ClampWrapMode, raw: i64) -> (r: i64)
    ensures
        r == spec_shift_amount(mode, raw),
        0 <= r <= 32,
{
    match mode {
        ClampWrapMode::Clamp => if raw < 0 {
            0
        } else if raw > 32 {
            32
        } else {
            raw
        },
        ClampWrapMode::Wrap => {
            proof {
                vstd::arithmetic::power2::lemma2_to64();
            }
            mask_to(raw, 5) as i64
        },
    }
}

/// One word of a funnel shift: nothing of it is left once it moved by its
/// whole width.
pub open spec fn funnel_part(
    s: Exprs,
    t: ThreadId,
    pc: InstrId,
    op: BinOp,
    zero: ExprId,
    x: ExprId,
    by: i64,
) -> Step<ExprId> {
    if by >= 32 {
        (s, Ok(zero))
    } else {
        let (s1, amount) = s.int_const(by);
        binop_spec(s1, t, pc, op, ScalarType::U32, x, amount)
    }
}

/// One word of a funnel shift: nothing of it is left once it moved by its
/// whole width.
pub fn shift_part(
    arena: &mut ExprArena,
    t: ThreadId,
    pc: InstrId,
    op: BinOp,
    zero: ExprId,
    x: ExprId,
    by: i64,
) -> (r: Result<ExprId, EvalError>)
    requires
        old(arena).wf(),
    ensures
        final(arena).wf(),
        (final(arena)@, r) == funnel_part(old(arena)@, t, pc, op, zero, x, by),
{
    if by >= 32 {
        Ok(zero)
    } else {
        let amount = arena.int_const(by);
        eval_binop(arena, t, pc, op, ScalarType::U32, x, amount)
    }
}

/// A funnel shift of the word `b:a` by `n` bits: the high word shifted left
/// and the low word shifted right, joined.
pub open spec fn funnel_spec(
    s: Exprs,
    t: ThreadId,
    pc: InstrId,
    dir: ShiftDir,
    n: i64,
    a: ExprId,
    b: ExprId,
) -> Step<ExprId> {
    let (up, down) = if dir == ShiftDir::Left { (n, (32 - n) as i64) } else { ((32 - n) as i64, n) };
    let (s1, zero) = s.int_const(0);
    match funnel_part(s1, t, pc, BinOp::Shl, zero, b, up) {
        (s2, Err(e)) => (s2, Err(e)),
        (s2, Ok(hi)) => {
            match funnel_part(s2, t, pc, BinOp::Shr, zero, a, down) {
                (s3, Err(e)) => (s3, Err(e)),
                (s3, Ok(lo)) => {
                    binop_spec(s3, t, pc, BinOp::Or, ScalarType::U32, hi, lo)
                },
            }
        },
    }
}

/// A funnel shift of the word `b:a` by `n` bits: the high word shifted left
/// and the low word shifted right, joined.
pub fn funnel_shift(
    arena: &mut ExprArena,
    t: ThreadId,
    pc: InstrId,
    dir: ShiftDir,
    n: i64,
    a: ExprId,
    b: ExprId,
) -> (r: Result<ExprId, EvalError>)
    requires
        old(arena).wf(),
        0 <= n <= 32,
    ensures
        final(arena).wf(),
        (final(arena)@, r) == funnel_spec(old(arena)@, t, pc, dir, n, a, b),
{
    let (up, down): (i64, i64) = if dir == ShiftDir::Left { (n, 32 - n) } else { (32 - n, n) };
    let zero = arena.int_const(0);
    let hi = match shift_part(arena, t, pc, BinOp::Shl, zero, b, up) {
        Err(e) => {
            return Err(e);
        },
        Ok(v) => v,
    };
    let lo = match shift_part(arena, t, pc, BinOp::Shr, zero, a, down) {
        Err(e) => {
            return Err(e);
        },
        Ok(v) => v,
    };
    eval_binop(arena, t, pc, BinOp::Or, ScalarType::U32, hi, lo)
}

impl Machine {
    /// `mov`: a scalar is rebound at the instruction's own type.
    #[verifier::opaque]
    pub open spec fn mov(
        self,
        t: ThreadId,
        pc: InstrId,
        dst: RegId,
        src: Operand,
        ty: ScalarType,
    ) -> Out<()> {
        match self.operand_value(t, pc, src) {
            (m, Err(e)) => (m, Err(e)),
            (m, Ok(v)) => {
                match v {
                    Value::Scalar(x) => {
                        let (s, y) = canon_operand_spec(m.exprs, ty, x);
                        let m = m.with_exprs(s);
                        m.write_reg(t, pc, dst, Value::Scalar(y))
                    },
                    Value::Mbarrier(_) => {
                        (m, Err(kind_mismatch(t, pc, "mbarrier handle used as a mov operand")))
                    },
                    _ => {
                        m.write_reg(t, pc, dst, v)
                    },
                }
            },
        }
    }

    /// `cvta`: global addresses are generic addresses already.
    #[verifier::opaque]
    pub open spec fn cvta(self, t: ThreadId, pc: InstrId, dst: RegId, src: Operand) -> Out<()> {
        match self.operand_value(t, pc, src) {
            (m, Err(e)) => (m, Err(e)),
            (m, Ok(v)) => {
                m.write_reg(t, pc, dst, v)
            },
        }
    }

    /// A kernel parameter's bound value.
    #[verifier::opaque]
    pub open spec fn load_param(
        self,
        t: ThreadId,
        pc: InstrId,
        dst: RegId,
        param: ParamId,
    ) -> Out<()> {
        if param.0 >= self.env.params.len() {
            (self, Err(unsupported(pc, "parameter without a bound value")))
        } else {
            let v = self.env.params[param.0 as int];
            self.write_reg(t, pc, dst, v)
        }
    }

    /// `prmt`: a byte permutation of two words.
    #[verifier::opaque]
    pub open spec fn prmt(
        self,
        t: ThreadId,
        pc: InstrId,
        dst: RegId,
        src_a: Operand,
        src_b: Operand,
        selector: Operand,
    ) -> Out<()> {
        match self.concrete_operand(t, pc, selector, "prmt selector") {
            (m, Err(e)) => (m, Err(e)),
            (m, Ok(sel)) => {
                match m.operand_value(t, pc, src_a) {
                    (m, Err(e)) => (m, Err(e)),
                    (m, Ok(a)) => {
                        match m.operand_value(t, pc, src_b) {
                            (m, Err(e)) => (m, Err(e)),
                            (m, Ok(b)) => {
                                match m.lift(permute_spec(m.exprs, t, pc, sel as u16, a, b)) {
                                    (m, Err(e)) => (m, Err(e)),
                                    (m, Ok(v)) => {
                                        m.write_reg(t, pc, dst, v)
                                    },
                                }
                            },
                        }
                    },
                }
            },
        }
    }

    /// `lop3`: a three-input logical operation.
    #[verifier::opaque]
    pub open spec fn lop3(
        self,
        t: ThreadId,
        pc: InstrId,
        dst: RegId,
        src_a: Operand,
        src_b: Operand,
        src_c: Operand,
        lut: Operand,
    ) -> Out<()> {
        match self.concrete_operand(t, pc, lut, "lop3 LUT") {
            (m, Err(e)) => (m, Err(e)),
            (m, Ok(table)) => {
                match m.scalar_operand(t, pc, src_a) {
                    (m, Err(e)) => (m, Err(e)),
                    (m, Ok(a)) => {
                        match m.concrete_operand(t, pc, src_b, "lop3 source b") {
                            (m, Err(e)) => (m, Err(e)),
                            (m, Ok(b)) => {
                                match m.concrete_operand(t, pc, src_c, "lop3 source c") {
                                    (m, Err(e)) => (m, Err(e)),
                                    (m, Ok(c)) => {
                                        match m.lift(
                                            lop3_spec(m.exprs, pc, table, a, b as u32, c as u32),
                                        ) {
                                            (m, Err(e)) => (m, Err(e)),
                                            (m, Ok(x)) => {
                                                m.write_reg(t, pc, dst, Value::Scalar(x))
                                            },
                                        }
                                    },
                                }
                            },
                        }
                    },
                }
            },
        }
    }

    /// A binary operation on packed pairs, lane by lane.
    #[verifier::opaque]
    pub open spec fn packed_binop(
        self,
        t: ThreadId,
        pc: InstrId,
        op: BinOp,
        dst: RegId,
        src_a: Operand,
        src_b: Operand,
        lane: ScalarType,
        clamp: Option<Clamp>,
    ) -> Out<()> {
        match self.pair_operand(t, pc, src_a, lane) {
            (m, Err(e)) => (m, Err(e)),
            (m, Ok(a)) => {
                match m.pair_operand(t, pc, src_b, lane) {
                    (m, Err(e)) => (m, Err(e)),
                    (m, Ok(b)) => {
                        match m.lift(binop_spec(m.exprs, t, pc, op, lane, a.0, b.0)) {
                            (m, Err(e)) => (m, Err(e)),
                            (m, Ok(lo)) => {
                                match m.lift(binop_spec(m.exprs, t, pc, op, lane, a.1, b.1)) {
                                    (m, Err(e)) => (m, Err(e)),
                                    (m, Ok(hi)) => {
                                        let (s, v) = clamp_both(m.exprs, clamp, lo, hi);
                                        let m = m.with_exprs(s);
                                        m.write_reg(t, pc, dst, v)
                                    },
                                }
                            },
                        }
                    },
                }
            },
        }
    }

    /// A binary operation on scalars.
    #[verifier::opaque]
    pub open spec fn scalar_binop(
        self,
        t: ThreadId,
        pc: InstrId,
        op: BinOp,
        dst: RegId,
        src_a: Operand,
        src_b: Operand,
        ty: ScalarType,
        clamp: Option<Clamp>,
    ) -> Out<()> {
        match self.scalar_operand(t, pc, src_a) {
            (m, Err(e)) => (m, Err(e)),
            (m, Ok(a)) => {
                match m.scalar_operand(t, pc, src_b) {
                    (m, Err(e)) => (m, Err(e)),
                    (m, Ok(b)) => {
                        match m.lift(binop_spec(m.exprs, t, pc, op, ty, a, b)) {
                            (m, Err(e)) => (m, Err(e)),
                            (m, Ok(x)) => {
                                let (s, y) = clamp_spec(m.exprs, clamp, x);
                                let m = m.with_exprs(s);
                                m.write_reg(t, pc, dst, Value::Scalar(y))
                            },
                        }
                    },
                }
            },
        }
    }

    /// A 64-bit bitwise operation: on lanes if an operand is a packed pair,
    /// else on scalars.
    #[verifier::opaque]
    pub open spec fn wide_binop(
        self,
        t: ThreadId,
        pc: InstrId,
        op: BinOp,
        dst: RegId,
        src_a: Operand,
        src_b: Operand,
        ty: ScalarType,
        clamp: Option<Clamp>,
    ) -> Out<()> {
        match self.operand_value(t, pc, src_a) {
            (m, Err(e)) => (m, Err(e)),
            (m, Ok(a)) => {
                match m.operand_value(t, pc, src_b) {
                    (m, Err(e)) => (m, Err(e)),
                    (m, Ok(b)) => {
                        if a is Pair || b is Pair {
                            match m.lift(pair_bitwise_spec(m.exprs, t, pc, op, ty, a, b)) {
                                (m, Err(e)) => (m, Err(e)),
                                (m, Ok(v)) => {
                                    m.write_reg(t, pc, dst, v)
                                },
                            }
                        } else {
                            m.scalar_binop(t, pc, op, dst, src_a, src_b, ty, clamp)
                        }
                    },
                }
            },
        }
    }

    /// A 32-bit XOR: on byte lanes if an operand is a byte quad, else on
    /// scalars.
    #[verifier::opaque]
    pub open spec fn word_xor(
        self,
        t: ThreadId,
        pc: InstrId,
        dst: RegId,
        src_a: Operand,
        src_b: Operand,
        ty: ScalarType,
        clamp: Option<Clamp>,
    ) -> Out<()> {
        match self.operand_value(t, pc, src_a) {
            (m, Err(e)) => (m, Err(e)),
            (m, Ok(a)) => {
                match m.operand_value(t, pc, src_b) {
                    (m, Err(e)) => (m, Err(e)),
                    (m, Ok(b)) => {
                        match m.lift(quad_xor_spec(m.exprs, t, pc, a, b)) {
                            (m, Err(e)) => (m, Err(e)),
                            (m, Ok(q)) => {
                                match q {
                                    Some(v) => {
                                        m.write_reg(t, pc, dst, v)
                                    },
                                    None => {
                                        m.scalar_binop(
                                            t,
                                            pc,
                                            BinOp::Xor,
                                            dst,
                                            src_a,
                                            src_b,
                                            ty,
                                            clamp,
                                        )
                                    },
                                }
                            },
                        }
                    },
                }
            },
        }
    }

    /// A binary operation.
    #[verifier::opaque]
    pub open spec fn binop(
        self,
        t: ThreadId,
        pc: InstrId,
        op: BinOp,
        dst: RegId,
        src_a: Operand,
        src_b: Operand,
        ty: ScalarType,
        clamp: Option<Clamp>,
    ) -> Out<()> {
        match ty.packed_lane() {
            Some(lane) => {
                self.packed_binop(t, pc, op, dst, src_a, src_b, lane, clamp)
            },
            None => {
                if lane_op(op, ty) {
                    self.wide_binop(t, pc, op, dst, src_a, src_b, ty, clamp)
                } else {
                    if ty.bits() == 32 && op == BinOp::Xor {
                        self.word_xor(t, pc, dst, src_a, src_b, ty, clamp)
                    } else {
                        self.scalar_binop(t, pc, op, dst, src_a, src_b, ty, clamp)
                    }
                }
            },
        }
    }

    /// A unary operation.
    #[verifier::opaque]
    pub open spec fn unary(
        self,
        t: ThreadId,
        pc: InstrId,
        op: UnaryOp,
        dst: RegId,
        src: Operand,
        ty: ScalarType,
    ) -> Out<()> {
        match ty.packed_lane() {
            Some(lane) => {
                match self.pair_operand(t, pc, src, lane) {
                    (m, Err(e)) => (m, Err(e)),
                    (m, Ok(a)) => {
                        match m.lift(unop_spec(m.exprs, pc, op, lane, a.0)) {
                            (m, Err(e)) => (m, Err(e)),
                            (m, Ok(lo)) => {
                                match m.lift(unop_spec(m.exprs, pc, op, lane, a.1)) {
                                    (m, Err(e)) => (m, Err(e)),
                                    (m, Ok(hi)) => {
                                        m.write_reg(t, pc, dst, Value::Pair(lo, hi))
                                    },
                                }
                            },
                        }
                    },
                }
            },
            None => {
                match self.scalar_operand(t, pc, src) {
                    (m, Err(e)) => (m, Err(e)),
                    (m, Ok(a)) => {
                        match m.lift(unop_spec(m.exprs, pc, op, ty, a)) {
                            (m, Err(e)) => (m, Err(e)),
                            (m, Ok(x)) => {
                                m.write_reg(t, pc, dst, Value::Scalar(x))
                            },
                        }
                    },
                }
            },
        }
    }

    /// `copysign`: a choice between the magnitude and its negation by the sign.
    #[verifier::opaque]
    pub open spec fn copysign(
        self,
        t: ThreadId,
        pc: InstrId,
        dst: RegId,
        sign_src: Operand,
        magnitude_src: Operand,
    ) -> Out<()> {
        match self.scalar_operand(t, pc, sign_src) {
            (m, Err(e)) => (m, Err(e)),
            (m, Ok(sign)) => {
                match m.scalar_operand(t, pc, magnitude_src) {
                    (m, Err(e)) => (m, Err(e)),
                    (m, Ok(magnitude)) => {
                        let (s, zero) = m.exprs.real_const(Coeff::spec_zero());
                        let m = m.with_exprs(s);
                        let (s, cond) = m.exprs.with(ExprNode::Ge(sign, zero));
                        let m = m.with_exprs(s);
                        let (s, plus) = m.exprs.with(ExprNode::Abs(magnitude));
                        let m = m.with_exprs(s);
                        let (s, minus) = m.exprs.negated(plus);
                        let m = m.with_exprs(s);
                        let (s, x) = m.exprs.with(ExprNode::Select(cond, plus, minus));
                        let m = m.with_exprs(s);
                        m.write_reg(t, pc, dst, Value::Scalar(x))
                    },
                }
            },
        }
    }

    /// `fma`: a fused multiply-add.
    #[verifier::opaque]
    pub open spec fn fused(
        self,
        t: ThreadId,
        pc: InstrId,
        dst: RegId,
        src_a: Operand,
        src_b: Operand,
        src_c: Operand,
        ty: ScalarType,
        clamp: Option<Clamp>,
    ) -> Out<()> {
        match ty.packed_lane() {
            Some(lane) => {
                match self.pair_operand(t, pc, src_a, lane) {
                    (m, Err(e)) => (m, Err(e)),
                    (m, Ok(a)) => {
                        match m.pair_operand(t, pc, src_b, lane) {
                            (m, Err(e)) => (m, Err(e)),
                            (m, Ok(b)) => {
                                match m.pair_operand(t, pc, src_c, lane) {
                                    (m, Err(e)) => (m, Err(e)),
                                    (m, Ok(c)) => {
                                        let (s, lo) = m.exprs.fused(a.0, b.0, c.0);
                                        let m = m.with_exprs(s);
                                        let (s, hi) = m.exprs.fused(a.1, b.1, c.1);
                                        let m = m.with_exprs(s);
                                        let (s, v) = clamp_both(m.exprs, clamp, lo, hi);
                                        let m = m.with_exprs(s);
                                        m.write_reg(t, pc, dst, v)
                                    },
                                }
                            },
                        }
                    },
                }
            },
            None => {
                match self.scalar_operand(t, pc, src_a) {
                    (m, Err(e)) => (m, Err(e)),
                    (m, Ok(a)) => {
                        match m.scalar_operand(t, pc, src_b) {
                            (m, Err(e)) => (m, Err(e)),
                            (m, Ok(b)) => {
                                match m.scalar_operand(t, pc, src_c) {
                                    (m, Err(e)) => (m, Err(e)),
                                    (m, Ok(c)) => {
                                        let (s, x) = m.exprs.fused(a, b, c);
                                        let m = m.with_exprs(s);
                                        let (s, y) = clamp_spec(m.exprs, clamp, x);
                                        let m = m.with_exprs(s);
                                        m.write_reg(t, pc, dst, Value::Scalar(y))
                                    },
                                }
                            },
                        }
                    },
                }
            },
        }
    }

    /// `mad`: an integer multiply-add.
    #[verifier::opaque]
    pub open spec fn mad(
        self,
        t: ThreadId,
        pc: InstrId,
        dst: RegId,
        src_a: Operand,
        src_b: Operand,
        src_c: Operand,
        ty: ScalarType,
        mode: MulMode,
    ) -> Out<()> {
        match self.scalar_operand(t, pc, src_a) {
            (m, Err(e)) => (m, Err(e)),
            (m, Ok(a)) => {
                match m.scalar_operand(t, pc, src_b) {
                    (m, Err(e)) => (m, Err(e)),
                    (m, Ok(b)) => {
                        match m.scalar_operand(t, pc, src_c) {
                            (m, Err(e)) => (m, Err(e)),
                            (m, Ok(c)) => {
                                match mode {
                                    MulMode::Lo => {
                                        match m.lift(
                                            binop_spec(m.exprs, t, pc, BinOp::Mul, ty, a, b),
                                        ) {
                                            (m, Err(e)) => (m, Err(e)),
                                            (m, Ok(product)) => {
                                                match m.lift(
                                                    binop_spec(
                                                        m.exprs,
                                                        t,
                                                        pc,
                                                        BinOp::Add,
                                                        ty,
                                                        product,
                                                        c,
                                                    ),
                                                ) {
                                                    (m, Err(e)) => (m, Err(e)),
                                                    (m, Ok(x)) => {
                                                        m.write_reg(t, pc, dst, Value::Scalar(x))
                                                    },
                                                }
                                            },
                                        }
                                    },
                                    MulMode::Wide => {
                                        let (s, product) = mul_wide_spec(m.exprs, ty, a, b);
                                        let m = m.with_exprs(s);
                                        let (s, x) = m.exprs.plus(product, c);
                                        let m = m.with_exprs(s);
                                        m.write_reg(t, pc, dst, Value::Scalar(x))
                                    },
                                    MulMode::Hi => {
                                        if ty.bits() > 32 {
                                            (
                                                m,
                                                Err(
                                                    EvalError::Unsupported {
                                                        pc,
                                                        what: Detail::HighHalfWidth {
                                                            what: "mad.hi",
                                                            bits: ty.bits(),
                                                        },
                                                    },
                                                ),
                                            )
                                        } else {
                                            let (s, product) = mul_hi_spec(m.exprs, ty, a, b);
                                            let m = m.with_exprs(s);
                                            let (s, x) = m.exprs.plus(product, c);
                                            let m = m.with_exprs(s);
                                            m.write_reg(t, pc, dst, Value::Scalar(x))
                                        }
                                    },
                                }
                            },
                        }
                    },
                }
            },
        }
    }

    /// `mul.wide`.
    #[verifier::opaque]
    pub open spec fn wide_product(
        self,
        t: ThreadId,
        pc: InstrId,
        dst: RegId,
        src_a: Operand,
        src_b: Operand,
        ty: ScalarType,
    ) -> Out<()> {
        match self.scalar_operand(t, pc, src_a) {
            (m, Err(e)) => (m, Err(e)),
            (m, Ok(a)) => {
                match m.scalar_operand(t, pc, src_b) {
                    (m, Err(e)) => (m, Err(e)),
                    (m, Ok(b)) => {
                        let (s, x) = mul_wide_spec(m.exprs, ty, a, b);
                        let m = m.with_exprs(s);
                        m.write_reg(t, pc, dst, Value::Scalar(x))
                    },
                }
            },
        }
    }

    /// `mul.hi`.
    #[verifier::opaque]
    pub open spec fn high_product(
        self,
        t: ThreadId,
        pc: InstrId,
        dst: RegId,
        src_a: Operand,
        src_b: Operand,
        ty: ScalarType,
    ) -> Out<()> {
        if ty.bits() > 32 {
            (
                self,
                Err(
                    EvalError::Unsupported {
                        pc,
                        what: Detail::HighHalfWidth { what: "mul.hi", bits: ty.bits() },
                    },
                ),
            )
        } else {
            match self.scalar_operand(t, pc, src_a) {
                (m, Err(e)) => (m, Err(e)),
                (m, Ok(a)) => {
                    match m.scalar_operand(t, pc, src_b) {
                        (m, Err(e)) => (m, Err(e)),
                        (m, Ok(b)) => {
                            let (s, x) = mul_hi_spec(m.exprs, ty, a, b);
                            let m = m.with_exprs(s);
                            m.write_reg(t, pc, dst, Value::Scalar(x))
                        },
                    }
                },
            }
        }
    }

    /// `bfi`: a bit field insertion.
    #[verifier::opaque]
    pub open spec fn bfi(
        self,
        t: ThreadId,
        pc: InstrId,
        dst: RegId,
        src_a: Operand,
        src_b: Operand,
        start: Operand,
        len: Operand,
    ) -> Out<()> {
        match self.concrete_operand(t, pc, src_a, "bfi operand") {
            (m, Err(e)) => (m, Err(e)),
            (m, Ok(a)) => {
                match m.concrete_operand(t, pc, src_b, "bfi operand") {
                    (m, Err(e)) => (m, Err(e)),
                    (m, Ok(b)) => {
                        match m.concrete_operand(t, pc, start, "bfi start") {
                            (m, Err(e)) => (m, Err(e)),
                            (m, Ok(at)) => {
                                match m.concrete_operand(t, pc, len, "bfi len") {
                                    (m, Err(e)) => (m, Err(e)),
                                    (m, Ok(n)) => {
                                        let x = inserted(
                                            a as u64,
                                            b as u64,
                                            (at as u64 % 256) as u64,
                                            (n as u64 % 256) as u64,
                                        ) as i64;
                                        let (s, y) = m.exprs.int_const(x);
                                        let m = m.with_exprs(s);
                                        m.write_reg(t, pc, dst, Value::Scalar(y))
                                    },
                                }
                            },
                        }
                    },
                }
            },
        }
    }

    /// `bfe`: a bit field extraction.
    #[verifier::opaque]
    pub open spec fn bfe(
        self,
        t: ThreadId,
        pc: InstrId,
        dst: RegId,
        src_a: Operand,
        start: Operand,
        len: Operand,
        ty: ScalarType,
    ) -> Out<()> {
        match self.concrete_operand(t, pc, src_a, "bfe operand") {
            (m, Err(e)) => (m, Err(e)),
            (m, Ok(a)) => {
                match m.concrete_operand(t, pc, start, "bfe start") {
                    (m, Err(e)) => (m, Err(e)),
                    (m, Ok(at)) => {
                        match m.concrete_operand(t, pc, len, "bfe len") {
                            (m, Err(e)) => (m, Err(e)),
                            (m, Ok(n)) => {
                                let x = extracted(
                                    a as u64,
                                    (at as u64 % 256) as u32,
                                    (n as u64 % 256) as u32,
                                    ty.bits() > 32,
                                    ty.is_signed_int(),
                                ) as i64;
                                let (s, y) = m.exprs.int_const(x);
                                let m = m.with_exprs(s);
                                m.write_reg(t, pc, dst, Value::Scalar(y))
                            },
                        }
                    },
                }
            },
        }
    }

    /// `shf`: a funnel shift. Half a word of packed lanes moves as lanes.
    #[verifier::opaque]
    pub open spec fn shf(
        self,
        t: ThreadId,
        pc: InstrId,
        dst: RegId,
        lo: Operand,
        hi: Operand,
        shift: Operand,
        dir: ShiftDir,
        mode: ClampWrapMode,
    ) -> Out<()> {
        match self.concrete_operand(t, pc, shift, "shf shift amount") {
            (m, Err(e)) => (m, Err(e)),
            (m, Ok(raw)) => {
                let n = shift_amount(mode, raw);
                match m.operand_value(t, pc, lo) {
                    (m, Err(e)) => (m, Err(e)),
                    (m, Ok(a)) => {
                        match m.operand_value(t, pc, hi) {
                            (m, Err(e)) => (m, Err(e)),
                            (m, Ok(b)) => {
                                if n == 16 && (a is Pair || b is Pair) {
                                    match m.lift(shf_lane_spec(m.exprs, t, pc, a, LaneHalf::High)) {
                                        (m, Err(e)) => (m, Err(e)),
                                        (m, Ok(x)) => {
                                            match m.lift(
                                                shf_lane_spec(m.exprs, t, pc, b, LaneHalf::Low),
                                            ) {
                                                (m, Err(e)) => (m, Err(e)),
                                                (m, Ok(y)) => {
                                                    m.write_reg(t, pc, dst, Value::Pair(x, y))
                                                },
                                            }
                                        },
                                    }
                                } else {
                                    match m.scalar_operand(t, pc, lo) {
                                        (m, Err(e)) => (m, Err(e)),
                                        (m, Ok(x)) => {
                                            match m.scalar_operand(t, pc, hi) {
                                                (m, Err(e)) => (m, Err(e)),
                                                (m, Ok(y)) => {
                                                    match m.lift(
                                                        funnel_spec(m.exprs, t, pc, dir, n, x, y),
                                                    ) {
                                                        (m, Err(e)) => (m, Err(e)),
                                                        (m, Ok(z)) => {
                                                            m.write_reg(
                                                                t,
                                                                pc,
                                                                dst,
                                                                Value::Scalar(z),
                                                            )
                                                        },
                                                    }
                                                },
                                            }
                                        },
                                    }
                                }
                            },
                        }
                    },
                }
            },
        }
    }

    /// `setp`: a comparison.
    #[verifier::opaque]
    pub open spec fn setp(
        self,
        t: ThreadId,
        pc: InstrId,
        rel: CmpOp,
        dst: RegId,
        src_a: Operand,
        src_b: Operand,
        ty: ScalarType,
    ) -> Out<()> {
        match self.scalar_operand(t, pc, src_a) {
            (m, Err(e)) => (m, Err(e)),
            (m, Ok(a)) => {
                match m.scalar_operand(t, pc, src_b) {
                    (m, Err(e)) => (m, Err(e)),
                    (m, Ok(b)) => {
                        let (s, x) = relation_spec(m.exprs, rel, ty, a, b);
                        let m = m.with_exprs(s);
                        m.write_reg(t, pc, dst, Value::Scalar(x))
                    },
                }
            },
        }
    }

    /// `selp`: a selection between two operands read at the instruction's type.
    #[verifier::opaque]
    pub open spec fn selp(
        self,
        t: ThreadId,
        pc: InstrId,
        dst: RegId,
        src_a: Operand,
        src_b: Operand,
        pred: Operand,
        ty: ScalarType,
    ) -> Out<()> {
        match self.scalar_operand(t, pc, src_a) {
            (m, Err(e)) => (m, Err(e)),
            (m, Ok(a)) => {
                match m.scalar_operand(t, pc, src_b) {
                    (m, Err(e)) => (m, Err(e)),
                    (m, Ok(b)) => {
                        let (s, x) = canon_operand_spec(m.exprs, ty, a);
                        let m = m.with_exprs(s);
                        let (s, y) = canon_operand_spec(m.exprs, ty, b);
                        let m = m.with_exprs(s);
                        match m.scalar_operand(t, pc, pred) {
                            (m, Err(e)) => (m, Err(e)),
                            (m, Ok(cond)) => {
                                let (s, z) = m.exprs.with(ExprNode::Select(cond, x, y));
                                let m = m.with_exprs(s);
                                m.write_reg(t, pc, dst, Value::Scalar(z))
                            },
                        }
                    },
                }
            },
        }
    }

    /// A conversion of a scalar.
    #[verifier::opaque]
    pub open spec fn convert_scalar(
        self,
        t: ThreadId,
        pc: InstrId,
        dst: RegId,
        dst_ty: ScalarType,
        src_ty: ScalarType,
        clamp: Option<Clamp>,
        a: ExprId,
    ) -> Out<()> {
        if src_ty.is_integer() && dst_ty.is_integer() {
            let (s, pair) = zero_extend_spec(
                self.exprs,
                src_ty.bits(),
                src_ty.is_signed_int(),
                dst_ty.bits(),
                a,
            );
            let m = self.with_exprs(s);
            match pair {
                Some(v) => {
                    m.write_reg(t, pc, dst, v)
                },
                None => {
                    match m.lift(cvt_spec(m.exprs, pc, dst_ty, src_ty, a)) {
                        (m, Err(e)) => (m, Err(e)),
                        (m, Ok(x)) => {
                            let (s, y) = clamp_spec(m.exprs, clamp, x);
                            let m = m.with_exprs(s);
                            m.write_reg(t, pc, dst, Value::Scalar(y))
                        },
                    }
                },
            }
        } else {
            match self.lift(cvt_spec(self.exprs, pc, dst_ty, src_ty, a)) {
                (m, Err(e)) => (m, Err(e)),
                (m, Ok(x)) => {
                    let (s, y) = clamp_spec(m.exprs, clamp, x);
                    let m = m.with_exprs(s);
                    m.write_reg(t, pc, dst, Value::Scalar(y))
                },
            }
        }
    }

    /// `cvt`: an integer truncation of packed lanes keeps the low ones.
    #[verifier::opaque]
    pub open spec fn cvt(
        self,
        t: ThreadId,
        pc: InstrId,
        dst: RegId,
        src: Operand,
        dst_ty: ScalarType,
        src_ty: ScalarType,
        clamp: Option<Clamp>,
    ) -> Out<()> {
        match self.operand_value(t, pc, src) {
            (m, Err(e)) => (m, Err(e)),
            (m, Ok(v)) => {
                let ints = src_ty.is_integer() && dst_ty.is_integer();
                match v {
                    Value::Pair(lo, _) => {
                        if ints && src_ty.bits() == 64 && dst_ty.bits() == 32 {
                            m.write_reg(t, pc, dst, Value::Scalar(lo))
                        } else {
                            match m.scalar_operand(t, pc, src) {
                                (m, Err(e)) => (m, Err(e)),
                                (m, Ok(a)) => {
                                    m.convert_scalar(t, pc, dst, dst_ty, src_ty, clamp, a)
                                },
                            }
                        }
                    },
                    Value::Quad(b0, b1, _, _) => {
                        if ints && src_ty.bits() == 32 && dst_ty.bits() == 16 {
                            m.write_reg(t, pc, dst, Value::Pair(b0, b1))
                        } else {
                            (
                                m,
                                Err(
                                    kind_mismatch(
                                        t,
                                        pc,
                                        "a packed byte-quad used as an ordinary cvt operand outside a 32->16-bit integer truncation (the .e4m3x2 family has its own dedicated cvt form)",
                                    ),
                                ),
                            )
                        }
                    },
                    Value::Scalar(a) => {
                        m.convert_scalar(t, pc, dst, dst_ty, src_ty, clamp, a)
                    },
                    Value::Mbarrier(_) => {
                        (m, Err(kind_mismatch(t, pc, "mbarrier handle used as a cvt operand")))
                    },
                }
            },
        }
    }

    /// `cvt.f16x2.e4m3x2`.
    #[verifier::opaque]
    pub open spec fn cvt_bytes(
        self,
        t: ThreadId,
        pc: InstrId,
        dst: RegId,
        src: Operand,
        relu: bool,
    ) -> Out<()> {
        match self.operand_value(t, pc, src) {
            (m, Err(e)) => (m, Err(e)),
            (m, Ok(v)) => {
                let clamp = if relu { Some(Clamp::Relu) } else { None };
                match m.lift(unpack_bytes_spec(m.exprs, t, pc, v, clamp)) {
                    (m, Err(e)) => (m, Err(e)),
                    (m, Ok(x)) => {
                        m.write_reg(t, pc, dst, x)
                    },
                }
            },
        }
    }

    /// A conversion of two sources into a packed pair.
    #[verifier::opaque]
    pub open spec fn cvt_pack(
        self,
        t: ThreadId,
        pc: InstrId,
        dst: RegId,
        src_hi: Operand,
        src_lo: Operand,
        dst_half_ty: ScalarType,
        src_ty: ScalarType,
    ) -> Out<()> {
        match self.scalar_operand(t, pc, src_hi) {
            (m, Err(e)) => (m, Err(e)),
            (m, Ok(a)) => {
                match m.lift(cvt_spec(m.exprs, pc, dst_half_ty, src_ty, a)) {
                    (m, Err(e)) => (m, Err(e)),
                    (m, Ok(hi)) => {
                        match m.scalar_operand(t, pc, src_lo) {
                            (m, Err(e)) => (m, Err(e)),
                            (m, Ok(b)) => {
                                match m.lift(cvt_spec(m.exprs, pc, dst_half_ty, src_ty, b)) {
                                    (m, Err(e)) => (m, Err(e)),
                                    (m, Ok(lo)) => {
                                        m.write_reg(t, pc, dst, Value::Pair(lo, hi))
                                    },
                                }
                            },
                        }
                    },
                }
            },
        }
    }

    /// A register write unless the destination is discarded.
    #[verifier::opaque]
    pub open spec fn write_some(
        self,
        t: ThreadId,
        pc: InstrId,
        dst: Option<RegId>,
        v: Value,
    ) -> Out<()> {
        match dst {
            Some(reg) => {
                self.write_reg(t, pc, reg, v)
            },
            None => {
                (self, Ok(()))
            },
        }
    }

    /// The two halves of a scalar bit pattern.
    #[verifier::opaque]
    pub open spec fn unpack_bits(
        self,
        t: ThreadId,
        pc: InstrId,
        lo: Option<RegId>,
        hi: Option<RegId>,
        a: ExprId,
        ty: ScalarType,
    ) -> Out<()> {
        if ty.bits() > 64 {
            (self, Err(unsupported(pc, "unpacking a 128-bit scalar")))
        } else {
            let half = (ty.bits() / 2) as u32;
            let (s, mask) = self.exprs.int_const(low_mask(half));
            let m = self.with_exprs(s);
            let (s, by) = m.exprs.int_const(half as i64);
            let m = m.with_exprs(s);
            match m.unpack_low(t, pc, lo, a, mask, ty) {
                (m, Err(e)) => (m, Err(e)),
                (m, Ok(_)) => {
                    m.unpack_high(t, pc, hi, a, by, ty)
                },
            }
        }
    }

    /// The low half of a scalar bit pattern.
    #[verifier::opaque]
    pub open spec fn unpack_low(
        self,
        t: ThreadId,
        pc: InstrId,
        dst: Option<RegId>,
        a: ExprId,
        mask: ExprId,
        ty: ScalarType,
    ) -> Out<()> {
        match dst {
            Some(reg) => {
                match self.lift(binop_spec(self.exprs, t, pc, BinOp::And, ty, a, mask)) {
                    (m, Err(e)) => (m, Err(e)),
                    (m, Ok(x)) => {
                        m.write_reg(t, pc, reg, Value::Scalar(x))
                    },
                }
            },
            None => {
                (self, Ok(()))
            },
        }
    }

    /// The high half of a scalar bit pattern.
    #[verifier::opaque]
    pub open spec fn unpack_high(
        self,
        t: ThreadId,
        pc: InstrId,
        dst: Option<RegId>,
        a: ExprId,
        by: ExprId,
        ty: ScalarType,
    ) -> Out<()> {
        match dst {
            Some(reg) => {
                match self.lift(binop_spec(self.exprs, t, pc, BinOp::Shr, ty, a, by)) {
                    (m, Err(e)) => (m, Err(e)),
                    (m, Ok(x)) => {
                        m.write_reg(t, pc, reg, Value::Scalar(x))
                    },
                }
            },
            None => {
                (self, Ok(()))
            },
        }
    }

    /// `mov {lo, hi}, src`: packed lanes are handed out as they are, a scalar
    /// is split by its bits.
    #[verifier::opaque]
    pub open spec fn unpack_halves(
        self,
        t: ThreadId,
        pc: InstrId,
        lo: Option<RegId>,
        hi: Option<RegId>,
        src: Operand,
        ty: ScalarType,
    ) -> Out<()> {
        match self.operand_value(t, pc, src) {
            (m, Err(e)) => (m, Err(e)),
            (m, Ok(v)) => {
                match v {
                    Value::Pair(a, b) => {
                        match m.write_some(t, pc, lo, Value::Scalar(a)) {
                            (m, Err(e)) => (m, Err(e)),
                            (m, Ok(_)) => {
                                m.write_some(t, pc, hi, Value::Scalar(b))
                            },
                        }
                    },
                    Value::Scalar(a) => {
                        m.unpack_bits(t, pc, lo, hi, a, ty)
                    },
                    Value::Quad(b0, b1, b2, b3) => {
                        match m.write_some(t, pc, lo, Value::Pair(b0, b1)) {
                            (m, Err(e)) => (m, Err(e)),
                            (m, Ok(_)) => {
                                m.write_some(t, pc, hi, Value::Pair(b2, b3))
                            },
                        }
                    },
                    Value::Mbarrier(_) => {
                        (m, Err(kind_mismatch(t, pc, "mbarrier handle used as an unpack operand")))
                    },
                }
            },
        }
    }

    /// `mov dst, {lo, hi}`.
    #[verifier::opaque]
    pub open spec fn pack_halves(
        self,
        t: ThreadId,
        pc: InstrId,
        dst: RegId,
        lo: Operand,
        hi: Operand,
    ) -> Out<()> {
        match self.scalar_operand(t, pc, lo) {
            (m, Err(e)) => (m, Err(e)),
            (m, Ok(a)) => {
                match m.scalar_operand(t, pc, hi) {
                    (m, Err(e)) => (m, Err(e)),
                    (m, Ok(b)) => {
                        m.write_reg(t, pc, dst, Value::Pair(a, b))
                    },
                }
            },
        }
    }

    /// `mov dst, {e0, e1, e2, e3}`.
    #[verifier::opaque]
    pub open spec fn pack_quad(
        self,
        t: ThreadId,
        pc: InstrId,
        dst: RegId,
        elems: Seq<Operand>,
    ) -> Out<()> {
        match self.scalar_operand(t, pc, elems[0]) {
            (m, Err(e)) => (m, Err(e)),
            (m, Ok(e0)) => {
                match m.scalar_operand(t, pc, elems[1]) {
                    (m, Err(e)) => (m, Err(e)),
                    (m, Ok(e1)) => {
                        match m.scalar_operand(t, pc, elems[2]) {
                            (m, Err(e)) => (m, Err(e)),
                            (m, Ok(e2)) => {
                                match m.scalar_operand(t, pc, elems[3]) {
                                    (m, Err(e)) => (m, Err(e)),
                                    (m, Ok(e3)) => {
                                        m.write_reg(t, pc, dst, Value::Quad(e0, e1, e2, e3))
                                    },
                                }
                            },
                        }
                    },
                }
            },
        }
    }

    /// `mov {e0, e1, e2, e3}, src`.
    #[verifier::opaque]
    pub open spec fn unpack_quad(
        self,
        t: ThreadId,
        pc: InstrId,
        elems: Seq<Option<RegId>>,
        src: Operand,
    ) -> Out<()> {
        match self.operand_value(t, pc, src) {
            (m, Err(e)) => (m, Err(e)),
            (m, Ok(v)) => {
                match v {
                    Value::Quad(l0, l1, l2, l3) => {
                        match m.write_some(t, pc, elems[0], Value::Scalar(l0)) {
                            (m, Err(e)) => (m, Err(e)),
                            (m, Ok(_)) => {
                                match m.write_some(t, pc, elems[1], Value::Scalar(l1)) {
                                    (m, Err(e)) => (m, Err(e)),
                                    (m, Ok(_)) => {
                                        match m.write_some(t, pc, elems[2], Value::Scalar(l2)) {
                                            (m, Err(e)) => (m, Err(e)),
                                            (m, Ok(_)) => {
                                                m.write_some(t, pc, elems[3], Value::Scalar(l3))
                                            },
                                        }
                                    },
                                }
                            },
                        }
                    },
                    _ => {
                        (
                            m,
                            Err(
                                kind_mismatch(
                                    t,
                                    pc,
                                    "mov {a,b,c,d}, src expects a four-lane packed source",
                                ),
                            ),
                        )
                    },
                }
            },
        }
    }
}

impl<'p> Interpreter<'p> {
    /// `mov`: a scalar is rebound at the instruction's own type.
    pub(crate) fn mov(
        &mut self,
        t: ThreadId,
        pc: InstrId,
        dst: RegId,
        src: &Operand,
        ty: ScalarType,
    ) -> (r: EvalResult<()>)
        requires
            old(self).wf(),
            old(self).has(t),
        ensures
            final(self).wf(),
            final(self).setup == old(self).setup,
            final(self)@.pace() == old(self)@.pace(),
            (final(self)@, r) == old(self)@.mov(t, pc, dst, *src, ty),
    {
        reveal(Machine::mov);
        let v = match self.operand_value(t, pc, src) {
            Err(e) => {
                return Err(e);
            },
            Ok(v) => v,
        };
        match v {
            Value::Scalar(x) => {
                let y = canon_operand(&mut self.arena, ty, x);
                self.write_reg(t, pc, dst, Value::Scalar(y))
            },
            Value::Mbarrier(_) => {
                Err(kind_mismatch(t, pc, "mbarrier handle used as a mov operand"))
            },
            _ => {
                self.write_reg(t, pc, dst, v)
            },
        }
    }

    /// `cvta`: global addresses are generic addresses already.
    pub(crate) fn cvta(
        &mut self,
        t: ThreadId,
        pc: InstrId,
        dst: RegId,
        src: &Operand,
    ) -> (r: EvalResult<()>)
        requires
            old(self).wf(),
            old(self).has(t),
        ensures
            final(self).wf(),
            final(self).setup == old(self).setup,
            final(self)@.pace() == old(self)@.pace(),
            (final(self)@, r) == old(self)@.cvta(t, pc, dst, *src),
    {
        reveal(Machine::cvta);
        let v = match self.operand_value(t, pc, src) {
            Err(e) => {
                return Err(e);
            },
            Ok(v) => v,
        };
        self.write_reg(t, pc, dst, v)
    }

    /// A kernel parameter's bound value.
    pub(crate) fn load_param(
        &mut self,
        t: ThreadId,
        pc: InstrId,
        dst: RegId,
        param: ParamId,
    ) -> (r: EvalResult<()>)
        requires
            old(self).wf(),
            old(self).has(t),
        ensures
            final(self).wf(),
            final(self).setup == old(self).setup,
            final(self)@.pace() == old(self)@.pace(),
            (final(self)@, r) == old(self)@.load_param(t, pc, dst, param),
    {
        reveal(Machine::load_param);
        if param.0 as usize >= param_len(&self.setup.params) {
            return Err(unsupported(pc, "parameter without a bound value"));
        }
        let v: Value = *param_at(&self.setup.params, param.0 as usize);
        self.write_reg(t, pc, dst, v)
    }

    /// `prmt`: a byte permutation of two words.
    pub(crate) fn prmt(
        &mut self,
        t: ThreadId,
        pc: InstrId,
        dst: RegId,
        src_a: &Operand,
        src_b: &Operand,
        selector: &Operand,
    ) -> (r: EvalResult<()>)
        requires
            old(self).wf(),
            old(self).has(t),
        ensures
            final(self).wf(),
            final(self).setup == old(self).setup,
            final(self)@.pace() == old(self)@.pace(),
            (final(self)@, r) == old(self)@.prmt(t, pc, dst, *src_a, *src_b, *selector),
    {
        reveal(Machine::prmt);
        let sel = match self.concrete_operand(t, pc, selector, "prmt selector") {
            Err(e) => {
                return Err(e);
            },
            Ok(v) => v,
        };
        let a = match self.operand_value(t, pc, src_a) {
            Err(e) => {
                return Err(e);
            },
            Ok(v) => v,
        };
        let b = match self.operand_value(t, pc, src_b) {
            Err(e) => {
                return Err(e);
            },
            Ok(v) => v,
        };
        let v = match permute(&mut self.arena, t, pc, sel as u16, a, b) {
            Err(e) => {
                return Err(e);
            },
            Ok(v) => v,
        };
        self.write_reg(t, pc, dst, v)
    }

    /// `lop3`: a three-input logical operation.
    pub(crate) fn lop3(
        &mut self,
        t: ThreadId,
        pc: InstrId,
        dst: RegId,
        src_a: &Operand,
        src_b: &Operand,
        src_c: &Operand,
        lut: &Operand,
    ) -> (r: EvalResult<()>)
        requires
            old(self).wf(),
            old(self).has(t),
        ensures
            final(self).wf(),
            final(self).setup == old(self).setup,
            final(self)@.pace() == old(self)@.pace(),
            (final(self)@, r) == old(self)@.lop3(t, pc, dst, *src_a, *src_b, *src_c, *lut),
    {
        reveal(Machine::lop3);
        let table = match self.concrete_operand(t, pc, lut, "lop3 LUT") {
            Err(e) => {
                return Err(e);
            },
            Ok(v) => v,
        };
        let a = match self.scalar_operand(t, pc, src_a) {
            Err(e) => {
                return Err(e);
            },
            Ok(v) => v,
        };
        let b = match self.concrete_operand(t, pc, src_b, "lop3 source b") {
            Err(e) => {
                return Err(e);
            },
            Ok(v) => v,
        };
        let c = match self.concrete_operand(t, pc, src_c, "lop3 source c") {
            Err(e) => {
                return Err(e);
            },
            Ok(v) => v,
        };
        let x = match eval_lop3(&mut self.arena, pc, table, a, b as u32, c as u32) {
            Err(e) => {
                return Err(e);
            },
            Ok(v) => v,
        };
        self.write_reg(t, pc, dst, Value::Scalar(x))
    }

    /// A binary operation on packed pairs, lane by lane.
    pub(crate) fn packed_binop(
        &mut self,
        t: ThreadId,
        pc: InstrId,
        op: BinOp,
        dst: RegId,
        src_a: &Operand,
        src_b: &Operand,
        lane: ScalarType,
        clamp: Option<Clamp>,
    ) -> (r: EvalResult<()>)
        requires
            old(self).wf(),
            old(self).has(t),
        ensures
            final(self).wf(),
            final(self).setup == old(self).setup,
            final(self)@.pace() == old(self)@.pace(),
            (final(self)@, r) == old(self)@.packed_binop(
                t,
                pc,
                op,
                dst,
                *src_a,
                *src_b,
                lane,
                clamp,
            ),
    {
        reveal(Machine::packed_binop);
        let a = match self.pair_operand(t, pc, src_a, lane) {
            Err(e) => {
                return Err(e);
            },
            Ok(v) => v,
        };
        let b = match self.pair_operand(t, pc, src_b, lane) {
            Err(e) => {
                return Err(e);
            },
            Ok(v) => v,
        };
        let lo = match eval_binop(&mut self.arena, t, pc, op, lane, a.0, b.0) {
            Err(e) => {
                return Err(e);
            },
            Ok(v) => v,
        };
        let hi = match eval_binop(&mut self.arena, t, pc, op, lane, a.1, b.1) {
            Err(e) => {
                return Err(e);
            },
            Ok(v) => v,
        };
        let v = clamp_pair(&mut self.arena, clamp, lo, hi);
        self.write_reg(t, pc, dst, v)
    }

    /// A binary operation on scalars.
    pub(crate) fn scalar_binop(
        &mut self,
        t: ThreadId,
        pc: InstrId,
        op: BinOp,
        dst: RegId,
        src_a: &Operand,
        src_b: &Operand,
        ty: ScalarType,
        clamp: Option<Clamp>,
    ) -> (r: EvalResult<()>)
        requires
            old(self).wf(),
            old(self).has(t),
        ensures
            final(self).wf(),
            final(self).setup == old(self).setup,
            final(self)@.pace() == old(self)@.pace(),
            (final(self)@, r) == old(self)@.scalar_binop(t, pc, op, dst, *src_a, *src_b, ty, clamp),
    {
        reveal(Machine::scalar_binop);
        let a = match self.scalar_operand(t, pc, src_a) {
            Err(e) => {
                return Err(e);
            },
            Ok(v) => v,
        };
        let b = match self.scalar_operand(t, pc, src_b) {
            Err(e) => {
                return Err(e);
            },
            Ok(v) => v,
        };
        let x = match eval_binop(&mut self.arena, t, pc, op, ty, a, b) {
            Err(e) => {
                return Err(e);
            },
            Ok(v) => v,
        };
        let y = apply_clamp(&mut self.arena, clamp, x);
        self.write_reg(t, pc, dst, Value::Scalar(y))
    }

    /// A 64-bit bitwise operation: on lanes if an operand is a packed pair,
    /// else on scalars.
    pub(crate) fn wide_binop(
        &mut self,
        t: ThreadId,
        pc: InstrId,
        op: BinOp,
        dst: RegId,
        src_a: &Operand,
        src_b: &Operand,
        ty: ScalarType,
        clamp: Option<Clamp>,
    ) -> (r: EvalResult<()>)
        requires
            old(self).wf(),
            old(self).has(t),
        ensures
            final(self).wf(),
            final(self).setup == old(self).setup,
            final(self)@.pace() == old(self)@.pace(),
            (final(self)@, r) == old(self)@.wide_binop(t, pc, op, dst, *src_a, *src_b, ty, clamp),
    {
        reveal(Machine::wide_binop);
        let a = match self.operand_value(t, pc, src_a) {
            Err(e) => {
                return Err(e);
            },
            Ok(v) => v,
        };
        let b = match self.operand_value(t, pc, src_b) {
            Err(e) => {
                return Err(e);
            },
            Ok(v) => v,
        };
        if is_pair(a) || is_pair(b) {
            let v = match pair_bitwise_binop(&mut self.arena, t, pc, op, ty, a, b) {
                Err(e) => {
                    return Err(e);
                },
                Ok(v) => v,
            };
            self.write_reg(t, pc, dst, v)
        } else {
            self.scalar_binop(t, pc, op, dst, src_a, src_b, ty, clamp)
        }
    }

    /// A 32-bit XOR: on byte lanes if an operand is a byte quad, else on
    /// scalars.
    pub(crate) fn word_xor(
        &mut self,
        t: ThreadId,
        pc: InstrId,
        dst: RegId,
        src_a: &Operand,
        src_b: &Operand,
        ty: ScalarType,
        clamp: Option<Clamp>,
    ) -> (r: EvalResult<()>)
        requires
            old(self).wf(),
            old(self).has(t),
        ensures
            final(self).wf(),
            final(self).setup == old(self).setup,
            final(self)@.pace() == old(self)@.pace(),
            (final(self)@, r) == old(self)@.word_xor(t, pc, dst, *src_a, *src_b, ty, clamp),
    {
        reveal(Machine::word_xor);
        let a = match self.operand_value(t, pc, src_a) {
            Err(e) => {
                return Err(e);
            },
            Ok(v) => v,
        };
        let b = match self.operand_value(t, pc, src_b) {
            Err(e) => {
                return Err(e);
            },
            Ok(v) => v,
        };
        let q = match quad_bitwise_binop(&mut self.arena, t, pc, a, b) {
            Err(e) => {
                return Err(e);
            },
            Ok(v) => v,
        };
        match q {
            Some(v) => {
                self.write_reg(t, pc, dst, v)
            },
            None => {
                self.scalar_binop(t, pc, BinOp::Xor, dst, src_a, src_b, ty, clamp)
            },
        }
    }

    /// A binary operation.
    pub(crate) fn binop(
        &mut self,
        t: ThreadId,
        pc: InstrId,
        op: BinOp,
        dst: RegId,
        src_a: &Operand,
        src_b: &Operand,
        ty: ScalarType,
        clamp: Option<Clamp>,
    ) -> (r: EvalResult<()>)
        requires
            old(self).wf(),
            old(self).has(t),
        ensures
            final(self).wf(),
            final(self).setup == old(self).setup,
            final(self)@.pace() == old(self)@.pace(),
            (final(self)@, r) == old(self)@.binop(t, pc, op, dst, *src_a, *src_b, ty, clamp),
    {
        reveal(Machine::binop);
        match ty.packed_lane() {
            Some(lane) => {
                self.packed_binop(t, pc, op, dst, src_a, src_b, lane, clamp)
            },
            None => {
                if lane_op(op, ty) {
                    self.wide_binop(t, pc, op, dst, src_a, src_b, ty, clamp)
                } else {
                    if ty.bits() == 32 && op == BinOp::Xor {
                        self.word_xor(t, pc, dst, src_a, src_b, ty, clamp)
                    } else {
                        self.scalar_binop(t, pc, op, dst, src_a, src_b, ty, clamp)
                    }
                }
            },
        }
    }

    /// A unary operation.
    pub(crate) fn unary(
        &mut self,
        t: ThreadId,
        pc: InstrId,
        op: UnaryOp,
        dst: RegId,
        src: &Operand,
        ty: ScalarType,
    ) -> (r: EvalResult<()>)
        requires
            old(self).wf(),
            old(self).has(t),
        ensures
            final(self).wf(),
            final(self).setup == old(self).setup,
            final(self)@.pace() == old(self)@.pace(),
            (final(self)@, r) == old(self)@.unary(t, pc, op, dst, *src, ty),
    {
        reveal(Machine::unary);
        match ty.packed_lane() {
            Some(lane) => {
                let a = match self.pair_operand(t, pc, src, lane) {
                    Err(e) => {
                        return Err(e);
                    },
                    Ok(v) => v,
                };
                let lo = match eval_unop(&mut self.arena, pc, op, lane, a.0) {
                    Err(e) => {
                        return Err(e);
                    },
                    Ok(v) => v,
                };
                let hi = match eval_unop(&mut self.arena, pc, op, lane, a.1) {
                    Err(e) => {
                        return Err(e);
                    },
                    Ok(v) => v,
                };
                self.write_reg(t, pc, dst, Value::Pair(lo, hi))
            },
            None => {
                let a = match self.scalar_operand(t, pc, src) {
                    Err(e) => {
                        return Err(e);
                    },
                    Ok(v) => v,
                };
                let x = match eval_unop(&mut self.arena, pc, op, ty, a) {
                    Err(e) => {
                        return Err(e);
                    },
                    Ok(v) => v,
                };
                self.write_reg(t, pc, dst, Value::Scalar(x))
            },
        }
    }

    /// `copysign`: a choice between the magnitude and its negation by the sign.
    pub(crate) fn copysign(
        &mut self,
        t: ThreadId,
        pc: InstrId,
        dst: RegId,
        sign_src: &Operand,
        magnitude_src: &Operand,
    ) -> (r: EvalResult<()>)
        requires
            old(self).wf(),
            old(self).has(t),
        ensures
            final(self).wf(),
            final(self).setup == old(self).setup,
            final(self)@.pace() == old(self)@.pace(),
            (final(self)@, r) == old(self)@.copysign(t, pc, dst, *sign_src, *magnitude_src),
    {
        reveal(Machine::copysign);
        let sign = match self.scalar_operand(t, pc, sign_src) {
            Err(e) => {
                return Err(e);
            },
            Ok(v) => v,
        };
        let magnitude = match self.scalar_operand(t, pc, magnitude_src) {
            Err(e) => {
                return Err(e);
            },
            Ok(v) => v,
        };
        let zero = self.arena.real_const(Coeff::zero());
        let cond = self.arena.ge(sign, zero);
        let plus = self.arena.abs(magnitude);
        let minus = self.arena.neg(plus);
        let x = self.arena.select(cond, plus, minus);
        self.write_reg(t, pc, dst, Value::Scalar(x))
    }

    /// `fma`: a fused multiply-add.
    pub(crate) fn fused(
        &mut self,
        t: ThreadId,
        pc: InstrId,
        dst: RegId,
        src_a: &Operand,
        src_b: &Operand,
        src_c: &Operand,
        ty: ScalarType,
        clamp: Option<Clamp>,
    ) -> (r: EvalResult<()>)
        requires
            old(self).wf(),
            old(self).has(t),
        ensures
            final(self).wf(),
            final(self).setup == old(self).setup,
            final(self)@.pace() == old(self)@.pace(),
            (final(self)@, r) == old(self)@.fused(t, pc, dst, *src_a, *src_b, *src_c, ty, clamp),
    {
        reveal(Machine::fused);
        match ty.packed_lane() {
            Some(lane) => {
                let a = match self.pair_operand(t, pc, src_a, lane) {
                    Err(e) => {
                        return Err(e);
                    },
                    Ok(v) => v,
                };
                let b = match self.pair_operand(t, pc, src_b, lane) {
                    Err(e) => {
                        return Err(e);
                    },
                    Ok(v) => v,
                };
                let c = match self.pair_operand(t, pc, src_c, lane) {
                    Err(e) => {
                        return Err(e);
                    },
                    Ok(v) => v,
                };
                let lo = self.arena.fma(a.0, b.0, c.0);
                let hi = self.arena.fma(a.1, b.1, c.1);
                let v = clamp_pair(&mut self.arena, clamp, lo, hi);
                self.write_reg(t, pc, dst, v)
            },
            None => {
                let a = match self.scalar_operand(t, pc, src_a) {
                    Err(e) => {
                        return Err(e);
                    },
                    Ok(v) => v,
                };
                let b = match self.scalar_operand(t, pc, src_b) {
                    Err(e) => {
                        return Err(e);
                    },
                    Ok(v) => v,
                };
                let c = match self.scalar_operand(t, pc, src_c) {
                    Err(e) => {
                        return Err(e);
                    },
                    Ok(v) => v,
                };
                let x = self.arena.fma(a, b, c);
                let y = apply_clamp(&mut self.arena, clamp, x);
                self.write_reg(t, pc, dst, Value::Scalar(y))
            },
        }
    }

    /// `mad`: an integer multiply-add.
    pub(crate) fn mad(
        &mut self,
        t: ThreadId,
        pc: InstrId,
        dst: RegId,
        src_a: &Operand,
        src_b: &Operand,
        src_c: &Operand,
        ty: ScalarType,
        mode: MulMode,
    ) -> (r: EvalResult<()>)
        requires
            old(self).wf(),
            old(self).has(t),
        ensures
            final(self).wf(),
            final(self).setup == old(self).setup,
            final(self)@.pace() == old(self)@.pace(),
            (final(self)@, r) == old(self)@.mad(t, pc, dst, *src_a, *src_b, *src_c, ty, mode),
    {
        reveal(Machine::mad);
        let a = match self.scalar_operand(t, pc, src_a) {
            Err(e) => {
                return Err(e);
            },
            Ok(v) => v,
        };
        let b = match self.scalar_operand(t, pc, src_b) {
            Err(e) => {
                return Err(e);
            },
            Ok(v) => v,
        };
        let c = match self.scalar_operand(t, pc, src_c) {
            Err(e) => {
                return Err(e);
            },
            Ok(v) => v,
        };
        match mode {
            MulMode::Lo => {
                let product = match eval_binop(&mut self.arena, t, pc, BinOp::Mul, ty, a, b) {
                    Err(e) => {
                        return Err(e);
                    },
                    Ok(v) => v,
                };
                let x = match eval_binop(&mut self.arena, t, pc, BinOp::Add, ty, product, c) {
                    Err(e) => {
                        return Err(e);
                    },
                    Ok(v) => v,
                };
                self.write_reg(t, pc, dst, Value::Scalar(x))
            },
            MulMode::Wide => {
                let product = mul_wide(&mut self.arena, ty, a, b);
                let x = self.arena.add(product, c);
                self.write_reg(t, pc, dst, Value::Scalar(x))
            },
            MulMode::Hi => {
                if ty.bits() > 32 {
                    return Err(
                        EvalError::Unsupported {
                            pc,
                            what: Detail::HighHalfWidth { what: "mad.hi", bits: ty.bits() },
                        },
                    );
                }
                let product = mul_hi(&mut self.arena, ty, a, b);
                let x = self.arena.add(product, c);
                self.write_reg(t, pc, dst, Value::Scalar(x))
            },
        }
    }

    /// `mul.wide`.
    pub(crate) fn wide_product(
        &mut self,
        t: ThreadId,
        pc: InstrId,
        dst: RegId,
        src_a: &Operand,
        src_b: &Operand,
        ty: ScalarType,
    ) -> (r: EvalResult<()>)
        requires
            old(self).wf(),
            old(self).has(t),
        ensures
            final(self).wf(),
            final(self).setup == old(self).setup,
            final(self)@.pace() == old(self)@.pace(),
            (final(self)@, r) == old(self)@.wide_product(t, pc, dst, *src_a, *src_b, ty),
    {
        reveal(Machine::wide_product);
        let a = match self.scalar_operand(t, pc, src_a) {
            Err(e) => {
                return Err(e);
            },
            Ok(v) => v,
        };
        let b = match self.scalar_operand(t, pc, src_b) {
            Err(e) => {
                return Err(e);
            },
            Ok(v) => v,
        };
        let x = mul_wide(&mut self.arena, ty, a, b);
        self.write_reg(t, pc, dst, Value::Scalar(x))
    }

    /// `mul.hi`.
    pub(crate) fn high_product(
        &mut self,
        t: ThreadId,
        pc: InstrId,
        dst: RegId,
        src_a: &Operand,
        src_b: &Operand,
        ty: ScalarType,
    ) -> (r: EvalResult<()>)
        requires
            old(self).wf(),
            old(self).has(t),
        ensures
            final(self).wf(),
            final(self).setup == old(self).setup,
            final(self)@.pace() == old(self)@.pace(),
            (final(self)@, r) == old(self)@.high_product(t, pc, dst, *src_a, *src_b, ty),
    {
        reveal(Machine::high_product);
        if ty.bits() > 32 {
            return Err(
                EvalError::Unsupported {
                    pc,
                    what: Detail::HighHalfWidth { what: "mul.hi", bits: ty.bits() },
                },
            );
        }
        let a = match self.scalar_operand(t, pc, src_a) {
            Err(e) => {
                return Err(e);
            },
            Ok(v) => v,
        };
        let b = match self.scalar_operand(t, pc, src_b) {
            Err(e) => {
                return Err(e);
            },
            Ok(v) => v,
        };
        let x = mul_hi(&mut self.arena, ty, a, b);
        self.write_reg(t, pc, dst, Value::Scalar(x))
    }

    /// `bfi`: a bit field insertion.
    pub(crate) fn bfi(
        &mut self,
        t: ThreadId,
        pc: InstrId,
        dst: RegId,
        src_a: &Operand,
        src_b: &Operand,
        start: &Operand,
        len: &Operand,
    ) -> (r: EvalResult<()>)
        requires
            old(self).wf(),
            old(self).has(t),
        ensures
            final(self).wf(),
            final(self).setup == old(self).setup,
            final(self)@.pace() == old(self)@.pace(),
            (final(self)@, r) == old(self)@.bfi(t, pc, dst, *src_a, *src_b, *start, *len),
    {
        reveal(Machine::bfi);
        let a = match self.concrete_operand(t, pc, src_a, "bfi operand") {
            Err(e) => {
                return Err(e);
            },
            Ok(v) => v,
        };
        let b = match self.concrete_operand(t, pc, src_b, "bfi operand") {
            Err(e) => {
                return Err(e);
            },
            Ok(v) => v,
        };
        let at = match self.concrete_operand(t, pc, start, "bfi start") {
            Err(e) => {
                return Err(e);
            },
            Ok(v) => v,
        };
        let n = match self.concrete_operand(t, pc, len, "bfi len") {
            Err(e) => {
                return Err(e);
            },
            Ok(v) => v,
        };
        let x: i64 = insert_bits(a as u64, b as u64, at as u64 % 256, n as u64 % 256) as i64;
        let y = self.arena.int_const(x);
        self.write_reg(t, pc, dst, Value::Scalar(y))
    }

    /// `bfe`: a bit field extraction.
    pub(crate) fn bfe(
        &mut self,
        t: ThreadId,
        pc: InstrId,
        dst: RegId,
        src_a: &Operand,
        start: &Operand,
        len: &Operand,
        ty: ScalarType,
    ) -> (r: EvalResult<()>)
        requires
            old(self).wf(),
            old(self).has(t),
        ensures
            final(self).wf(),
            final(self).setup == old(self).setup,
            final(self)@.pace() == old(self)@.pace(),
            (final(self)@, r) == old(self)@.bfe(t, pc, dst, *src_a, *start, *len, ty),
    {
        reveal(Machine::bfe);
        let a = match self.concrete_operand(t, pc, src_a, "bfe operand") {
            Err(e) => {
                return Err(e);
            },
            Ok(v) => v,
        };
        let at = match self.concrete_operand(t, pc, start, "bfe start") {
            Err(e) => {
                return Err(e);
            },
            Ok(v) => v,
        };
        let n = match self.concrete_operand(t, pc, len, "bfe len") {
            Err(e) => {
                return Err(e);
            },
            Ok(v) => v,
        };
        let x: i64 = extract_bits(
            a as u64,
            (at as u64 % 256) as u32,
            (n as u64 % 256) as u32,
            ty.bits() > 32,
            ty.is_signed_int(),
        ) as i64;
        let y = self.arena.int_const(x);
        self.write_reg(t, pc, dst, Value::Scalar(y))
    }

    /// `shf`: a funnel shift. Half a word of packed lanes moves as lanes.
    pub(crate) fn shf(
        &mut self,
        t: ThreadId,
        pc: InstrId,
        dst: RegId,
        lo: &Operand,
        hi: &Operand,
        shift: &Operand,
        dir: ShiftDir,
        mode: ClampWrapMode,
    ) -> (r: EvalResult<()>)
        requires
            old(self).wf(),
            old(self).has(t),
        ensures
            final(self).wf(),
            final(self).setup == old(self).setup,
            final(self)@.pace() == old(self)@.pace(),
            (final(self)@, r) == old(self)@.shf(t, pc, dst, *lo, *hi, *shift, dir, mode),
    {
        reveal(Machine::shf);
        let raw = match self.concrete_operand(t, pc, shift, "shf shift amount") {
            Err(e) => {
                return Err(e);
            },
            Ok(v) => v,
        };
        let n: i64 = shift_amount(mode, raw);
        let a = match self.operand_value(t, pc, lo) {
            Err(e) => {
                return Err(e);
            },
            Ok(v) => v,
        };
        let b = match self.operand_value(t, pc, hi) {
            Err(e) => {
                return Err(e);
            },
            Ok(v) => v,
        };
        if n == 16 && (is_pair(a) || is_pair(b)) {
            let x = match shf_lane(&mut self.arena, t, pc, a, LaneHalf::High) {
                Err(e) => {
                    return Err(e);
                },
                Ok(v) => v,
            };
            let y = match shf_lane(&mut self.arena, t, pc, b, LaneHalf::Low) {
                Err(e) => {
                    return Err(e);
                },
                Ok(v) => v,
            };
            self.write_reg(t, pc, dst, Value::Pair(x, y))
        } else {
            let x = match self.scalar_operand(t, pc, lo) {
                Err(e) => {
                    return Err(e);
                },
                Ok(v) => v,
            };
            let y = match self.scalar_operand(t, pc, hi) {
                Err(e) => {
                    return Err(e);
                },
                Ok(v) => v,
            };
            let z = match funnel_shift(&mut self.arena, t, pc, dir, n, x, y) {
                Err(e) => {
                    return Err(e);
                },
                Ok(v) => v,
            };
            self.write_reg(t, pc, dst, Value::Scalar(z))
        }
    }

    /// `setp`: a comparison.
    pub(crate) fn setp(
        &mut self,
        t: ThreadId,
        pc: InstrId,
        rel: CmpOp,
        dst: RegId,
        src_a: &Operand,
        src_b: &Operand,
        ty: ScalarType,
    ) -> (r: EvalResult<()>)
        requires
            old(self).wf(),
            old(self).has(t),
        ensures
            final(self).wf(),
            final(self).setup == old(self).setup,
            final(self)@.pace() == old(self)@.pace(),
            (final(self)@, r) == old(self)@.setp(t, pc, rel, dst, *src_a, *src_b, ty),
    {
        reveal(Machine::setp);
        let a = match self.scalar_operand(t, pc, src_a) {
            Err(e) => {
                return Err(e);
            },
            Ok(v) => v,
        };
        let b = match self.scalar_operand(t, pc, src_b) {
            Err(e) => {
                return Err(e);
            },
            Ok(v) => v,
        };
        let x = eval_relation(&mut self.arena, rel, ty, a, b);
        self.write_reg(t, pc, dst, Value::Scalar(x))
    }

    /// `selp`: a selection between two operands read at the instruction's type.
    pub(crate) fn selp(
        &mut self,
        t: ThreadId,
        pc: InstrId,
        dst: RegId,
        src_a: &Operand,
        src_b: &Operand,
        pred: &Operand,
        ty: ScalarType,
    ) -> (r: EvalResult<()>)
        requires
            old(self).wf(),
            old(self).has(t),
        ensures
            final(self).wf(),
            final(self).setup == old(self).setup,
            final(self)@.pace() == old(self)@.pace(),
            (final(self)@, r) == old(self)@.selp(t, pc, dst, *src_a, *src_b, *pred, ty),
    {
        reveal(Machine::selp);
        let a = match self.scalar_operand(t, pc, src_a) {
            Err(e) => {
                return Err(e);
            },
            Ok(v) => v,
        };
        let b = match self.scalar_operand(t, pc, src_b) {
            Err(e) => {
                return Err(e);
            },
            Ok(v) => v,
        };
        let x = canon_operand(&mut self.arena, ty, a);
        let y = canon_operand(&mut self.arena, ty, b);
        let cond = match self.scalar_operand(t, pc, pred) {
            Err(e) => {
                return Err(e);
            },
            Ok(v) => v,
        };
        let z = self.arena.select(cond, x, y);
        self.write_reg(t, pc, dst, Value::Scalar(z))
    }

    /// A conversion of a scalar.
    pub(crate) fn convert_scalar(
        &mut self,
        t: ThreadId,
        pc: InstrId,
        dst: RegId,
        dst_ty: ScalarType,
        src_ty: ScalarType,
        clamp: Option<Clamp>,
        a: ExprId,
    ) -> (r: EvalResult<()>)
        requires
            old(self).wf(),
            old(self).has(t),
        ensures
            final(self).wf(),
            final(self).setup == old(self).setup,
            final(self)@.pace() == old(self)@.pace(),
            (final(self)@, r) == old(self)@.convert_scalar(t, pc, dst, dst_ty, src_ty, clamp, a),
    {
        reveal(Machine::convert_scalar);
        if src_ty.is_integer() && dst_ty.is_integer() {
            let pair = zero_extend_to_pair(
                &mut self.arena,
                src_ty.bits(),
                src_ty.is_signed_int(),
                dst_ty.bits(),
                a,
            );
            match pair {
                Some(v) => {
                    self.write_reg(t, pc, dst, v)
                },
                None => {
                    let x = match eval_cvt(&mut self.arena, pc, dst_ty, src_ty, a) {
                        Err(e) => {
                            return Err(e);
                        },
                        Ok(v) => v,
                    };
                    let y = apply_clamp(&mut self.arena, clamp, x);
                    self.write_reg(t, pc, dst, Value::Scalar(y))
                },
            }
        } else {
            let x = match eval_cvt(&mut self.arena, pc, dst_ty, src_ty, a) {
                Err(e) => {
                    return Err(e);
                },
                Ok(v) => v,
            };
            let y = apply_clamp(&mut self.arena, clamp, x);
            self.write_reg(t, pc, dst, Value::Scalar(y))
        }
    }

    /// `cvt`: an integer truncation of packed lanes keeps the low ones.
    pub(crate) fn cvt(
        &mut self,
        t: ThreadId,
        pc: InstrId,
        dst: RegId,
        src: &Operand,
        dst_ty: ScalarType,
        src_ty: ScalarType,
        clamp: Option<Clamp>,
    ) -> (r: EvalResult<()>)
        requires
            old(self).wf(),
            old(self).has(t),
        ensures
            final(self).wf(),
            final(self).setup == old(self).setup,
            final(self)@.pace() == old(self)@.pace(),
            (final(self)@, r) == old(self)@.cvt(t, pc, dst, *src, dst_ty, src_ty, clamp),
    {
        reveal(Machine::cvt);
        let v = match self.operand_value(t, pc, src) {
            Err(e) => {
                return Err(e);
            },
            Ok(v) => v,
        };
        let ints: bool = src_ty.is_integer() && dst_ty.is_integer();
        match v {
            Value::Pair(lo, _) => {
                if ints && src_ty.bits() == 64 && dst_ty.bits() == 32 {
                    self.write_reg(t, pc, dst, Value::Scalar(lo))
                } else {
                    let a = match self.scalar_operand(t, pc, src) {
                        Err(e) => {
                            return Err(e);
                        },
                        Ok(v) => v,
                    };
                    self.convert_scalar(t, pc, dst, dst_ty, src_ty, clamp, a)
                }
            },
            Value::Quad(b0, b1, _, _) => {
                if ints && src_ty.bits() == 32 && dst_ty.bits() == 16 {
                    self.write_reg(t, pc, dst, Value::Pair(b0, b1))
                } else {
                    Err(
                        kind_mismatch(
                            t,
                            pc,
                            "a packed byte-quad used as an ordinary cvt operand outside a 32->16-bit integer truncation (the .e4m3x2 family has its own dedicated cvt form)",
                        ),
                    )
                }
            },
            Value::Scalar(a) => {
                self.convert_scalar(t, pc, dst, dst_ty, src_ty, clamp, a)
            },
            Value::Mbarrier(_) => {
                Err(kind_mismatch(t, pc, "mbarrier handle used as a cvt operand"))
            },
        }
    }

    /// `cvt.f16x2.e4m3x2`.
    pub(crate) fn cvt_bytes(
        &mut self,
        t: ThreadId,
        pc: InstrId,
        dst: RegId,
        src: &Operand,
        relu: bool,
    ) -> (r: EvalResult<()>)
        requires
            old(self).wf(),
            old(self).has(t),
        ensures
            final(self).wf(),
            final(self).setup == old(self).setup,
            final(self)@.pace() == old(self)@.pace(),
            (final(self)@, r) == old(self)@.cvt_bytes(t, pc, dst, *src, relu),
    {
        reveal(Machine::cvt_bytes);
        let v = match self.operand_value(t, pc, src) {
            Err(e) => {
                return Err(e);
            },
            Ok(v) => v,
        };
        let clamp: Option<Clamp> = if relu { Some(Clamp::Relu) } else { None };
        let x = match unpack_bytes(&mut self.arena, t, pc, v, clamp) {
            Err(e) => {
                return Err(e);
            },
            Ok(v) => v,
        };
        self.write_reg(t, pc, dst, x)
    }

    /// A conversion of two sources into a packed pair.
    pub(crate) fn cvt_pack(
        &mut self,
        t: ThreadId,
        pc: InstrId,
        dst: RegId,
        src_hi: &Operand,
        src_lo: &Operand,
        dst_half_ty: ScalarType,
        src_ty: ScalarType,
    ) -> (r: EvalResult<()>)
        requires
            old(self).wf(),
            old(self).has(t),
        ensures
            final(self).wf(),
            final(self).setup == old(self).setup,
            final(self)@.pace() == old(self)@.pace(),
            (final(self)@, r) == old(self)@.cvt_pack(
                t,
                pc,
                dst,
                *src_hi,
                *src_lo,
                dst_half_ty,
                src_ty,
            ),
    {
        reveal(Machine::cvt_pack);
        let a = match self.scalar_operand(t, pc, src_hi) {
            Err(e) => {
                return Err(e);
            },
            Ok(v) => v,
        };
        let hi = match eval_cvt(&mut self.arena, pc, dst_half_ty, src_ty, a) {
            Err(e) => {
                return Err(e);
            },
            Ok(v) => v,
        };
        let b = match self.scalar_operand(t, pc, src_lo) {
            Err(e) => {
                return Err(e);
            },
            Ok(v) => v,
        };
        let lo = match eval_cvt(&mut self.arena, pc, dst_half_ty, src_ty, b) {
            Err(e) => {
                return Err(e);
            },
            Ok(v) => v,
        };
        self.write_reg(t, pc, dst, Value::Pair(lo, hi))
    }

    /// A register write unless the destination is discarded.
    pub(crate) fn write_some(
        &mut self,
        t: ThreadId,
        pc: InstrId,
        dst: Option<RegId>,
        v: Value,
    ) -> (r: EvalResult<()>)
        requires
            old(self).wf(),
            old(self).has(t),
        ensures
            final(self).wf(),
            final(self).setup == old(self).setup,
            final(self)@.pace() == old(self)@.pace(),
            (final(self)@, r) == old(self)@.write_some(t, pc, dst, v),
    {
        reveal(Machine::write_some);
        match dst {
            Some(reg) => {
                self.write_reg(t, pc, reg, v)
            },
            None => {
                Ok(())
            },
        }
    }

    /// The two halves of a scalar bit pattern.
    pub(crate) fn unpack_bits(
        &mut self,
        t: ThreadId,
        pc: InstrId,
        lo: Option<RegId>,
        hi: Option<RegId>,
        a: ExprId,
        ty: ScalarType,
    ) -> (r: EvalResult<()>)
        requires
            old(self).wf(),
            old(self).has(t),
        ensures
            final(self).wf(),
            final(self).setup == old(self).setup,
            final(self)@.pace() == old(self)@.pace(),
            (final(self)@, r) == old(self)@.unpack_bits(t, pc, lo, hi, a, ty),
    {
        reveal(Machine::unpack_bits);
        if ty.bits() > 64 {
            return Err(unsupported(pc, "unpacking a 128-bit scalar"));
        }
        let half: u32 = ty.bits() / 2;
        let mask = self.arena.int_const(low_bits(half));
        let by = self.arena.int_const(half as i64);
        if let Err(e) = self.unpack_low(t, pc, lo, a, mask, ty) {
            return Err(e);
        }
        self.unpack_high(t, pc, hi, a, by, ty)
    }

    /// The low half of a scalar bit pattern.
    pub(crate) fn unpack_low(
        &mut self,
        t: ThreadId,
        pc: InstrId,
        dst: Option<RegId>,
        a: ExprId,
        mask: ExprId,
        ty: ScalarType,
    ) -> (r: EvalResult<()>)
        requires
            old(self).wf(),
            old(self).has(t),
        ensures
            final(self).wf(),
            final(self).setup == old(self).setup,
            final(self)@.pace() == old(self)@.pace(),
            (final(self)@, r) == old(self)@.unpack_low(t, pc, dst, a, mask, ty),
    {
        reveal(Machine::unpack_low);
        match dst {
            Some(reg) => {
                let x = match eval_binop(&mut self.arena, t, pc, BinOp::And, ty, a, mask) {
                    Err(e) => {
                        return Err(e);
                    },
                    Ok(v) => v,
                };
                self.write_reg(t, pc, reg, Value::Scalar(x))
            },
            None => {
                Ok(())
            },
        }
    }

    /// The high half of a scalar bit pattern.
    pub(crate) fn unpack_high(
        &mut self,
        t: ThreadId,
        pc: InstrId,
        dst: Option<RegId>,
        a: ExprId,
        by: ExprId,
        ty: ScalarType,
    ) -> (r: EvalResult<()>)
        requires
            old(self).wf(),
            old(self).has(t),
        ensures
            final(self).wf(),
            final(self).setup == old(self).setup,
            final(self)@.pace() == old(self)@.pace(),
            (final(self)@, r) == old(self)@.unpack_high(t, pc, dst, a, by, ty),
    {
        reveal(Machine::unpack_high);
        match dst {
            Some(reg) => {
                let x = match eval_binop(&mut self.arena, t, pc, BinOp::Shr, ty, a, by) {
                    Err(e) => {
                        return Err(e);
                    },
                    Ok(v) => v,
                };
                self.write_reg(t, pc, reg, Value::Scalar(x))
            },
            None => {
                Ok(())
            },
        }
    }

    /// `mov {lo, hi}, src`: packed lanes are handed out as they are, a scalar
    /// is split by its bits.
    pub(crate) fn unpack_halves(
        &mut self,
        t: ThreadId,
        pc: InstrId,
        lo: Option<RegId>,
        hi: Option<RegId>,
        src: &Operand,
        ty: ScalarType,
    ) -> (r: EvalResult<()>)
        requires
            old(self).wf(),
            old(self).has(t),
        ensures
            final(self).wf(),
            final(self).setup == old(self).setup,
            final(self)@.pace() == old(self)@.pace(),
            (final(self)@, r) == old(self)@.unpack_halves(t, pc, lo, hi, *src, ty),
    {
        reveal(Machine::unpack_halves);
        let v = match self.operand_value(t, pc, src) {
            Err(e) => {
                return Err(e);
            },
            Ok(v) => v,
        };
        match v {
            Value::Pair(a, b) => {
                if let Err(e) = self.write_some(t, pc, lo, Value::Scalar(a)) {
                    return Err(e);
                }
                self.write_some(t, pc, hi, Value::Scalar(b))
            },
            Value::Scalar(a) => {
                self.unpack_bits(t, pc, lo, hi, a, ty)
            },
            Value::Quad(b0, b1, b2, b3) => {
                if let Err(e) = self.write_some(t, pc, lo, Value::Pair(b0, b1)) {
                    return Err(e);
                }
                self.write_some(t, pc, hi, Value::Pair(b2, b3))
            },
            Value::Mbarrier(_) => {
                Err(kind_mismatch(t, pc, "mbarrier handle used as an unpack operand"))
            },
        }
    }

    /// `mov dst, {lo, hi}`.
    pub(crate) fn pack_halves(
        &mut self,
        t: ThreadId,
        pc: InstrId,
        dst: RegId,
        lo: &Operand,
        hi: &Operand,
    ) -> (r: EvalResult<()>)
        requires
            old(self).wf(),
            old(self).has(t),
        ensures
            final(self).wf(),
            final(self).setup == old(self).setup,
            final(self)@.pace() == old(self)@.pace(),
            (final(self)@, r) == old(self)@.pack_halves(t, pc, dst, *lo, *hi),
    {
        reveal(Machine::pack_halves);
        let a = match self.scalar_operand(t, pc, lo) {
            Err(e) => {
                return Err(e);
            },
            Ok(v) => v,
        };
        let b = match self.scalar_operand(t, pc, hi) {
            Err(e) => {
                return Err(e);
            },
            Ok(v) => v,
        };
        self.write_reg(t, pc, dst, Value::Pair(a, b))
    }

    /// `mov dst, {e0, e1, e2, e3}`.
    pub(crate) fn pack_quad(
        &mut self,
        t: ThreadId,
        pc: InstrId,
        dst: RegId,
        elems: &[Operand; 4],
    ) -> (r: EvalResult<()>)
        requires
            old(self).wf(),
            old(self).has(t),
        ensures
            final(self).wf(),
            final(self).setup == old(self).setup,
            final(self)@.pace() == old(self)@.pace(),
            (final(self)@, r) == old(self)@.pack_quad(t, pc, dst, elems@),
    {
        reveal(Machine::pack_quad);
        let e0 = match self.scalar_operand(t, pc, &elems[0]) {
            Err(e) => {
                return Err(e);
            },
            Ok(v) => v,
        };
        let e1 = match self.scalar_operand(t, pc, &elems[1]) {
            Err(e) => {
                return Err(e);
            },
            Ok(v) => v,
        };
        let e2 = match self.scalar_operand(t, pc, &elems[2]) {
            Err(e) => {
                return Err(e);
            },
            Ok(v) => v,
        };
        let e3 = match self.scalar_operand(t, pc, &elems[3]) {
            Err(e) => {
                return Err(e);
            },
            Ok(v) => v,
        };
        self.write_reg(t, pc, dst, Value::Quad(e0, e1, e2, e3))
    }

    /// `mov {e0, e1, e2, e3}, src`.
    pub(crate) fn unpack_quad(
        &mut self,
        t: ThreadId,
        pc: InstrId,
        elems: &[Option<RegId>; 4],
        src: &Operand,
    ) -> (r: EvalResult<()>)
        requires
            old(self).wf(),
            old(self).has(t),
        ensures
            final(self).wf(),
            final(self).setup == old(self).setup,
            final(self)@.pace() == old(self)@.pace(),
            (final(self)@, r) == old(self)@.unpack_quad(t, pc, elems@, *src),
    {
        reveal(Machine::unpack_quad);
        let v = match self.operand_value(t, pc, src) {
            Err(e) => {
                return Err(e);
            },
            Ok(v) => v,
        };
        match v {
            Value::Quad(l0, l1, l2, l3) => {
                if let Err(e) = self.write_some(t, pc, elems[0], Value::Scalar(l0)) {
                    return Err(e);
                }
                if let Err(e) = self.write_some(t, pc, elems[1], Value::Scalar(l1)) {
                    return Err(e);
                }
                if let Err(e) = self.write_some(t, pc, elems[2], Value::Scalar(l2)) {
                    return Err(e);
                }
                self.write_some(t, pc, elems[3], Value::Scalar(l3))
            },
            _ => {
                Err(kind_mismatch(t, pc, "mov {a,b,c,d}, src expects a four-lane packed source"))
            },
        }
    }
}

} // verus!
