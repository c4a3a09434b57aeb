//! What register instructions compute: the number in the destination, under
//! every assignment of numbers to the symbols.

use vstd::prelude::*;

use crate::canon::coeff::{Coeff, canonical_form_is_unique, the_units_are_integers};
use crate::eval::ThreadId;
use crate::eval::arith::{
    binop_spec, canon_operand_spec, clamp_spec, relation_node, relation_spec, unop_spec,
};
use crate::eval::error::EvalError;
use crate::eval::fp8::decode_f64_bits;
use crate::eval::machine::{Machine, ThreadModel};
use crate::eval::step::Flow;
use crate::eval::value::Value;
use crate::lowered::{BinOp, Clamp, CmpOp, InstrId, LoweredInstr, MemSpace, Operand, UnaryOp};
use crate::symbolic::ExprId;
use crate::symbolic::arena::{ExprNode, Exprs, canonical_node, float_node, int_coeff};
use crate::symbolic::meaning::{
    Reading, a_difference_is_the_difference, a_float_node_is_canonical,
    a_fused_product_adds_its_third_operand, a_maximum_is_the_larger, a_minimum_is_the_smaller,
    a_negation_is_the_negative, a_product_is_the_product, a_reading_holds_before, a_sum_is_the_sum,
    addressable, an_entered_node_has_its_meaning, an_entered_node_is_found,
    an_integer_coefficient_has_its_value, canonical_exprs, within, within_is_transitive,
};
use crate::symbols::RegId;
use crate::types::ScalarType;

verus! {

// ---------------------------------------------------------------------------
// Operands
// ---------------------------------------------------------------------------

/// Whether no unreleased writeback is pending on an operand's register.
pub open spec fn released(m: Machine, t: ThreadId, op: Operand) -> bool {
    op matches Operand::Reg(reg) ==> m.thread(t).wgmma.pending_since(reg) is None
}

/// Whether an operand is a single value of the arena.
pub open spec fn is_scalar(m: Machine, t: ThreadId, op: Operand) -> bool {
    match op {
        Operand::Reg(reg) => m.reg_value(t, reg) matches Value::Scalar(e) && e.0
            < m.exprs.nodes.len(),
        Operand::ImmI64(_) => true,
        Operand::ImmU64(_) => true,
        Operand::ImmF64(bits) => decode_f64_bits(bits) matches Some(f) && float_node(f)
            is RealConst,
        Operand::SpecialReg(kind) => m.special_reg(t, kind) is Some,
    }
}

/// Whether an operand is a concrete integer, which a float instruction reads
/// as a bit pattern.
pub open spec fn is_integer(m: Machine, t: ThreadId, op: Operand) -> bool {
    match op {
        Operand::Reg(reg) => m.reg_value(t, reg) matches Value::Scalar(e) && m.exprs.node(e)
            is IntConst,
        Operand::ImmI64(_) | Operand::ImmU64(_) | Operand::SpecialReg(_) => true,
        Operand::ImmF64(_) => false,
    }
}

/// The integer that an operand is, if it is a concrete one.
pub open spec fn integer_at(m: Machine, t: ThreadId, op: Operand) -> Option<i64> {
    match op {
        Operand::Reg(reg) => match m.reg_value(t, reg) {
            Value::Scalar(e) => m.exprs.as_int(e),
            _ => None,
        },
        Operand::ImmI64(v) => Some(v),
        Operand::ImmU64(v) => Some(v as i64),
        Operand::SpecialReg(kind) => m.special_reg(t, kind),
        Operand::ImmF64(_) => None,
    }
}

/// The number of an operand.
pub open spec fn number_of<K>(r: Reading<K>, m: Machine, t: ThreadId, op: Operand) -> K {
    match op {
        Operand::Reg(reg) => (r.number)(m.reg_value(t, reg)->Scalar_0),
        Operand::ImmI64(n) => r.integer(n),
        Operand::ImmU64(n) => r.integer(n as i64),
        Operand::ImmF64(bits) => r.constant(float_node(decode_f64_bits(bits)->0)->RealConst_0),
        Operand::SpecialReg(kind) => r.integer(m.special_reg(t, kind)->0),
    }
}

/// Whether a register of a thread is all that changed, apart from new
/// expressions.
pub open spec fn only_sets(m: Machine, n: Machine, t: ThreadId, dst: RegId) -> bool {
    &&& within(m.exprs, n.exprs)
    &&& n == m.with_exprs(n.exprs).with_thread(
        t,
        ThreadModel { regs: n.thread(t).regs, wgmma: n.thread(t).wgmma, ..m.thread(t) },
    )
    &&& forall|reg: RegId|
        reg != dst ==> #[trigger] n.reg_value(t, reg) == m.reg_value(t, reg)
}

/// What holds before an instruction of a thread: the thread is in the block
/// and the constants are in canonical form.
pub open spec fn sound(m: Machine, t: ThreadId) -> bool {
    t.0 < m.threads.len() && canonical_exprs(m.exprs)
}

/// Whether an operand can be read as a single value.
pub open spec fn usable(m: Machine, t: ThreadId, op: Operand) -> bool {
    released(m, t, op) && is_scalar(m, t, op)
}

/// Whether a register can be written.
pub open spec fn writable(m: Machine, t: ThreadId, dst: RegId) -> bool {
    m.thread(t).wgmma.pending_since(dst) is None
}

/// Whether a register holds one value, of the given number, afterwards.
pub open spec fn holds<K>(r: Reading<K>, n: Machine, t: ThreadId, dst: RegId, x: K) -> bool {
    n.reg_value(t, dst) matches Value::Scalar(e) && (r.number)(e) == x
}

pub(crate) proof fn lemma_within_with(s: Exprs, n: ExprNode)
    ensures
        within(s, s.with(n).0),
        s.with(n).0.nodes.len() <= s.nodes.len() + 1,
        canonical_exprs(s) && canonical_node(n) ==> canonical_exprs(s.with(n).0),
{
}

/// What reading an operand does.
pub(crate) proof fn lemma_scalar(m: Machine, t: ThreadId, pc: InstrId, op: Operand)
    requires
        sound(m, t),
        usable(m, t, op),
    ensures
        ({
            let (m1, x) = m.scalar_operand(t, pc, op);
            &&& x is Ok
            &&& m1 == m.with_exprs(m1.exprs)
            &&& within(m.exprs, m1.exprs)
            &&& m1.exprs.nodes.len() <= m.exprs.nodes.len() + 1
            &&& canonical_exprs(m1.exprs)
            &&& !is_integer(m, t, op) && addressable(m1.exprs) ==> !(m1.exprs.node(x->Ok_0)
                is IntConst) && x->Ok_0.0 < m1.exprs.nodes.len()
        }),
{
    match op {
        Operand::Reg(reg) => {},
        Operand::SpecialReg(kind) => {
            lemma_within_with(m.exprs, ExprNode::IntConst(m.special_reg(t, kind)->0));
        },
        Operand::ImmI64(v) => {
            lemma_within_with(m.exprs, ExprNode::IntConst(v));
        },
        Operand::ImmU64(v) => {
            lemma_within_with(m.exprs, ExprNode::IntConst(v as i64));
        },
        Operand::ImmF64(bits) => {
            let n = float_node(decode_f64_bits(bits)->0);
            a_float_node_is_canonical(decode_f64_bits(bits)->0);
            lemma_within_with(m.exprs, n);
            let (s, e) = m.exprs.with(n);
            if addressable(s) {
                an_entered_node_is_found(m.exprs, n, s);
            }
        },
    }
}

/// The number of an operand that was read.
proof fn lemma_number<K>(
    r: Reading<K>,
    m: Machine,
    t: ThreadId,
    pc: InstrId,
    op: Operand,
    end: Exprs,
)
    requires
        sound(m, t),
        usable(m, t, op),
        within(m.scalar_operand(t, pc, op).0.exprs, end),
        addressable(end),
        r.of(end),
    ensures
        (r.number)(m.scalar_operand(t, pc, op).1->Ok_0) == number_of(r, m, t, op),
{
    match op {
        Operand::Reg(reg) => {},
        Operand::SpecialReg(kind) => {
            let n = ExprNode::IntConst(m.special_reg(t, kind)->0);
            an_entered_node_has_its_meaning(r, m.exprs, n, end);
        },
        Operand::ImmI64(v) => {
            an_entered_node_has_its_meaning(r, m.exprs, ExprNode::IntConst(v), end);
        },
        Operand::ImmU64(v) => {
            an_entered_node_has_its_meaning(r, m.exprs, ExprNode::IntConst(v as i64), end);
        },
        Operand::ImmF64(bits) => {
            let n = float_node(decode_f64_bits(bits)->0);
            an_entered_node_has_its_meaning(r, m.exprs, n, end);
        },
    }
}

/// New expressions change no operand.
proof fn lemma_grown<K>(r: Reading<K>, m: Machine, n: Machine, t: ThreadId, op: Operand)
    requires
        sound(m, t),
        n == m.with_exprs(n.exprs),
        within(m.exprs, n.exprs),
        usable(m, t, op),
    ensures
        usable(n, t, op),
        number_of(r, n, t, op) == number_of(r, m, t, op),
        is_integer(n, t, op) == is_integer(m, t, op),
{
    if let Operand::Reg(reg) = op {
        let e = m.reg_value(t, reg)->Scalar_0;
        assert(n.exprs.nodes[e.0 as int] == m.exprs.nodes[e.0 as int]);
    }
}

/// A register write after new expressions.
pub(crate) proof fn lemma_set(
    m: Machine,
    n: Machine,
    t: ThreadId,
    pc: InstrId,
    dst: RegId,
    v: Value,
)
    requires
        sound(m, t),
        n == m.with_exprs(n.exprs),
        within(m.exprs, n.exprs),
        writable(m, t, dst),
    ensures
        n.write_reg(t, pc, dst, v).1 is Ok,
        only_sets(m, n.write_reg(t, pc, dst, v).0, t, dst),
        n.write_reg(t, pc, dst, v).0.reg_value(t, dst) == v,
        n.write_reg(t, pc, dst, v).0.exprs == n.exprs,
{
    let end = n.write_reg(t, pc, dst, v).0;
    assert(end =~= m.with_exprs(end.exprs).with_thread(
        t,
        ThreadModel { regs: end.thread(t).regs, wgmma: end.thread(t).wgmma, ..m.thread(t) },
    ));
}

// ---------------------------------------------------------------------------
// Clamps
// ---------------------------------------------------------------------------

/// What a clamp makes of a number: `.relu` the larger of it and zero, `.sat`
/// the nearest number from zero to one.
pub open spec fn clamped<K>(r: Reading<K>, clamp: Option<Clamp>, x: K) -> K {
    match clamp {
        None => x,
        Some(Clamp::Relu) => r.larger(x, r.integer(0)),
        Some(Clamp::Sat) => r.smaller(r.larger(x, r.integer(0)), r.integer(1)),
    }
}

proof fn lemma_clamp_grows(s: Exprs, clamp: Option<Clamp>, e: ExprId)
    ensures
        within(s, clamp_spec(s, clamp, e).0),
{
}

proof fn lemma_clamped<K>(
    r: Reading<K>,
    s: Exprs,
    clamp: Option<Clamp>,
    e: ExprId,
    end: Exprs,
)
    requires
        canonical_exprs(s),
        within(clamp_spec(s, clamp, e).0, end),
        addressable(end),
        r.of(end),
    ensures
        (r.number)(clamp_spec(s, clamp, e).1) == clamped(r, clamp, (r.number)(e)),
        canonical_exprs(clamp_spec(s, clamp, e).0),
{
    the_units_are_integers();
    if clamp is Some {
        let zero = ExprNode::RealConst(Coeff::spec_zero());
        let one = ExprNode::RealConst(Coeff::spec_one());
        assert(canonical_node(zero) && canonical_node(one));
        an_integer_coefficient_has_its_value(0);
        an_integer_coefficient_has_its_value(1);
        canonical_form_is_unique(int_coeff(0), Coeff::spec_zero());
        canonical_form_is_unique(int_coeff(1), Coeff::spec_one());
        let (s1, z) = s.with(zero);
        lemma_within_with(s, zero);
        if clamp == Some(Clamp::Relu) {
            lemma_maximum_grows(s1, e, z);
            within_is_transitive(s1, s1.maximum(e, z).0, end);
            an_entered_node_is_found(s, zero, end);
            an_entered_node_has_its_meaning(r, s, zero, end);
            a_maximum_is_the_larger(r, s1, e, z, end);
        } else {
            let (s2, u) = s1.with(one);
            lemma_within_with(s1, one);
            let (s3, x) = s2.maximum(e, z);
            lemma_maximum_grows(s2, e, z);
            let (s4, y) = s3.minimum(x, u);
            lemma_minimum_grows(s3, x, u);
            within_is_transitive(s3, s4, end);
            within_is_transitive(s2, s3, end);
            within_is_transitive(s1, s2, end);
            an_entered_node_is_found(s, zero, end);
            an_entered_node_has_its_meaning(r, s, zero, end);
            an_entered_node_is_found(s1, one, end);
            an_entered_node_has_its_meaning(r, s1, one, end);
            an_entered_node_is_found(s, zero, s2);
            a_maximum_is_the_larger(r, s2, e, z, end);
            an_entered_node_is_found(s1, one, s3);
            a_minimum_is_the_smaller(r, s3, x, u, end);
        }
    }
}

proof fn lemma_maximum_grows(s: Exprs, a: ExprId, b: ExprId)
    ensures
        within(s, s.maximum(a, b).0),
{
}

proof fn lemma_minimum_grows(s: Exprs, a: ExprId, b: ExprId)
    ensures
        within(s, s.minimum(a, b).0),
{
}

// ---------------------------------------------------------------------------
// Fused multiply-add
// ---------------------------------------------------------------------------

/// `fma` multiplies its first two sources and adds the third: whatever the
/// symbols stand for, the destination's number is the first times the second
/// plus the third, bounded as the clamp says. Nothing else changes.
#[verifier::spinoff_prover]
pub proof fn fma_multiplies_and_adds<K>(
    r: Reading<K>,
    m: Machine,
    t: ThreadId,
    pc: InstrId,
    dst: RegId,
    a: Operand,
    b: Operand,
    c: Operand,
    ty: ScalarType,
    clamp: Option<Clamp>,
)
    requires
        sound(m, t),
        ty.packed_lane() is None,
        usable(m, t, a),
        usable(m, t, b),
        usable(m, t, c),
        writable(m, t, dst),
    ensures
        ({
            let i = LoweredInstr::Fma { dst, src_a: a, src_b: b, src_c: c, ty, clamp };
            let (n, f) = m.execute(t, pc, i);
            &&& f == Ok::<Flow, EvalError>(Flow::Next)
            &&& only_sets(m, n, t, dst)
            &&& addressable(n.exprs) && r.of(n.exprs) ==> holds(
                r,
                n,
                t,
                dst,
                clamped(
                    r,
                    clamp,
                    r.plus(
                        r.times(number_of(r, m, t, a), number_of(r, m, t, b)),
                        number_of(r, m, t, c),
                    ),
                ),
            )
        }),
{
    reveal(Machine::arithmetic);
    reveal(Machine::fused);
    let (m1, x) = m.scalar_operand(t, pc, a);
    lemma_scalar(m, t, pc, a);
    lemma_grown(r, m, m1, t, b);
    let (m2, y) = m1.scalar_operand(t, pc, b);
    lemma_scalar(m1, t, pc, b);
    within_is_transitive(m.exprs, m1.exprs, m2.exprs);
    lemma_grown(r, m, m2, t, c);
    let (m3, z) = m2.scalar_operand(t, pc, c);
    lemma_scalar(m2, t, pc, c);
    within_is_transitive(m.exprs, m2.exprs, m3.exprs);
    let (s0, e) = m3.exprs.fused(x->Ok_0, y->Ok_0, z->Ok_0);
    lemma_fused_grows(m3.exprs, x->Ok_0, y->Ok_0, z->Ok_0);
    let (s, v) = clamp_spec(s0, clamp, e);
    lemma_clamp_grows(s0, clamp, e);
    within_is_transitive(m3.exprs, s0, s);
    within_is_transitive(m.exprs, m3.exprs, s);
    let m4 = m3.with_exprs(s0).with_exprs(s);
    assert(m4 =~= m.with_exprs(s));
    lemma_set(m, m4, t, pc, dst, Value::Scalar(v));
    if addressable(s) && r.of(s) {
        within_is_transitive(m2.exprs, m3.exprs, s);
        within_is_transitive(m1.exprs, m2.exprs, s);
        lemma_number(r, m, t, pc, a, s);
        lemma_number(r, m1, t, pc, b, s);
        lemma_number(r, m2, t, pc, c, s);
        a_fused_product_adds_its_third_operand(r, m3.exprs, x->Ok_0, y->Ok_0, z->Ok_0, s);
        lemma_clamped(r, s0, clamp, e, s);
    }
}

pub(crate) proof fn lemma_fused_grows(s: Exprs, a: ExprId, b: ExprId, c: ExprId)
    ensures
        within(s, s.fused(a, b, c).0),
{
}

/// Packed `fma` does the same in each lane: the lanes of the destination are
/// the lane products of the first two sources plus the lane of the third.
#[verifier::spinoff_prover]
pub proof fn packed_fma_multiplies_and_adds_by_lane<K>(
    r: Reading<K>,
    m: Machine,
    t: ThreadId,
    pc: InstrId,
    dst: RegId,
    a: RegId,
    b: RegId,
    c: RegId,
    ty: ScalarType,
)
    requires
        sound(m, t),
        ty.packed_lane() is Some,
        released(m, t, Operand::Reg(a)),
        released(m, t, Operand::Reg(b)),
        released(m, t, Operand::Reg(c)),
        m.reg_value(t, a) is Pair,
        m.reg_value(t, b) is Pair,
        m.reg_value(t, c) is Pair,
        writable(m, t, dst),
    ensures
        ({
            let i = LoweredInstr::Fma {
                dst,
                src_a: Operand::Reg(a),
                src_b: Operand::Reg(b),
                src_c: Operand::Reg(c),
                ty,
                clamp: None,
            };
            let (n, f) = m.execute(t, pc, i);
            let (al, ah) = (m.reg_value(t, a)->Pair_0, m.reg_value(t, a)->Pair_1);
            let (bl, bh) = (m.reg_value(t, b)->Pair_0, m.reg_value(t, b)->Pair_1);
            let (cl, ch) = (m.reg_value(t, c)->Pair_0, m.reg_value(t, c)->Pair_1);
            &&& f == Ok::<Flow, EvalError>(Flow::Next)
            &&& only_sets(m, n, t, dst)
            &&& addressable(n.exprs) && r.of(n.exprs) ==> (n.reg_value(t, dst) matches Value::Pair(
                lo,
                hi,
            ) && (r.number)(lo) == r.plus(
                r.times((r.number)(al), (r.number)(bl)),
                (r.number)(cl),
            ) && (r.number)(hi) == r.plus(
                r.times((r.number)(ah), (r.number)(bh)),
                (r.number)(ch),
            ))
        }),
{
    reveal(Machine::arithmetic);
    reveal(Machine::fused);
    let (al, ah) = (m.reg_value(t, a)->Pair_0, m.reg_value(t, a)->Pair_1);
    let (bl, bh) = (m.reg_value(t, b)->Pair_0, m.reg_value(t, b)->Pair_1);
    let (cl, ch) = (m.reg_value(t, c)->Pair_0, m.reg_value(t, c)->Pair_1);
    let (s1, lo) = m.exprs.fused(al, bl, cl);
    let (s2, hi) = s1.fused(ah, bh, ch);
    lemma_fused_grows(m.exprs, al, bl, cl);
    lemma_fused_grows(s1, ah, bh, ch);
    within_is_transitive(m.exprs, s1, s2);
    let m2 = m.with_exprs(s1).with_exprs(s2);
    assert(m2 =~= m.with_exprs(s2));
    lemma_set(m, m2, t, pc, dst, Value::Pair(lo, hi));
    if addressable(s2) && r.of(s2) {
        a_fused_product_adds_its_third_operand(r, m.exprs, al, bl, cl, s2);
        a_fused_product_adds_its_third_operand(r, s1, ah, bh, ch, s2);
    }
}

// ---------------------------------------------------------------------------
// Binary operations
// ---------------------------------------------------------------------------

/// The number that a binary operation on numbers gives, for the operations
/// that reals have.
pub open spec fn combined<K>(r: Reading<K>, op: BinOp, x: K, y: K) -> Option<K> {
    match op {
        BinOp::Add => Some(r.plus(x, y)),
        BinOp::Sub => Some(r.plus(x, r.negative(y))),
        BinOp::Mul => Some(r.times(x, y)),
        BinOp::Div => Some((r.quotient)(x, y)),
        BinOp::Rem => Some((r.remainder)(x, y)),
        BinOp::Min => Some(r.smaller(x, y)),
        BinOp::Max => Some(r.larger(x, y)),
        _ => None,
    }
}

proof fn lemma_node_grows(s: Exprs, op: BinOp, ty: ScalarType, a: ExprId, b: ExprId)
    ensures
        within(s, crate::eval::arith::symbolic_binop(s, op, ty, a, b).0),
{
}

/// What the arena makes of a binary operation on two numbers.
proof fn lemma_combined<K>(
    r: Reading<K>,
    s: Exprs,
    op: BinOp,
    ty: ScalarType,
    a: ExprId,
    b: ExprId,
    end: Exprs,
)
    requires
        canonical_exprs(s),
        !(s.node(a) is IntConst && s.node(b) is IntConst),
        within(crate::eval::arith::symbolic_binop(s, op, ty, a, b).0, end),
        addressable(end),
        r.of(end),
    ensures
        combined(r, op, (r.number)(a), (r.number)(b)) matches Some(x) ==> (r.number)(
            crate::eval::arith::symbolic_binop(s, op, ty, a, b).1,
        ) == x && canonical_exprs(crate::eval::arith::symbolic_binop(s, op, ty, a, b).0),
{
    match op {
        BinOp::Add => a_sum_is_the_sum(r, s, a, b, end),
        BinOp::Sub => a_difference_is_the_difference(r, s, a, b, end),
        BinOp::Mul => a_product_is_the_product(r, s, a, b, end),
        BinOp::Div => {
            lemma_within_with(s, ExprNode::Div(a, b));
            an_entered_node_has_its_meaning(r, s, ExprNode::Div(a, b), end);
        },
        BinOp::Rem => {
            lemma_within_with(s, ExprNode::Rem(a, b));
            an_entered_node_has_its_meaning(r, s, ExprNode::Rem(a, b), end);
        },
        BinOp::Min => a_minimum_is_the_smaller(r, s, a, b, end),
        BinOp::Max => a_maximum_is_the_larger(r, s, a, b, end),
        _ => {},
    }
}

/// A binary operation on values that are no bit patterns computes what its
/// name says: sum, difference, product, quotient, remainder, smaller or
/// larger of the first and the second source, in that order.
#[verifier::spinoff_prover]
pub proof fn a_binary_operation_combines_its_sources<K>(
    r: Reading<K>,
    m: Machine,
    t: ThreadId,
    pc: InstrId,
    op: BinOp,
    dst: RegId,
    a: Operand,
    b: Operand,
    ty: ScalarType,
)
    requires
        sound(m, t),
        ty.packed_lane() is None,
        !ty.is_predicate(),
        usable(m, t, a),
        usable(m, t, b),
        !is_integer(m, t, a),
        !is_integer(m, t, b),
        writable(m, t, dst),
        combined(r, op, number_of(r, m, t, a), number_of(r, m, t, b)) is Some,
    ensures
        ({
            let i = LoweredInstr::BinOp { op, dst, src_a: a, src_b: b, ty, clamp: None };
            let (n, f) = m.execute(t, pc, i);
            &&& addressable(n.exprs) ==> f == Ok::<Flow, EvalError>(Flow::Next) && only_sets(
                m,
                n,
                t,
                dst,
            )
            &&& addressable(n.exprs) && r.of(n.exprs) ==> holds(
                r,
                n,
                t,
                dst,
                combined(r, op, number_of(r, m, t, a), number_of(r, m, t, b))->0,
            )
        }),
{
    reveal(Machine::arithmetic);
    reveal(Machine::binop);
    reveal(Machine::scalar_binop);
    let (m1, x) = m.scalar_operand(t, pc, a);
    lemma_scalar(m, t, pc, a);
    lemma_grown(r, m, m1, t, b);
    let (m2, y) = m1.scalar_operand(t, pc, b);
    lemma_scalar(m1, t, pc, b);
    within_is_transitive(m.exprs, m1.exprs, m2.exprs);
    let (e, f) = (x->Ok_0, y->Ok_0);
    let i = LoweredInstr::BinOp { op, dst, src_a: a, src_b: b, ty, clamp: None };
    assert(m.execute(t, pc, i) == crate::eval::step::flow(
        m.scalar_binop(t, pc, op, dst, a, b, ty, None),
        Flow::Next,
    ));
    let n = m.execute(t, pc, i).0;
    let (s, z) = binop_spec(m2.exprs, t, pc, op, ty, e, f);
    if addressable(m2.exprs) {
        assert(!(m2.exprs.node(e) is IntConst)) by {
            assert(m2.exprs.nodes[e.0 as int] == m1.exprs.nodes[e.0 as int]);
        }
        assert(!(m2.exprs.node(f) is IntConst));
        assert((s, z->Ok_0) == crate::eval::arith::symbolic_binop(m2.exprs, op, ty, e, f));
        lemma_node_grows(m2.exprs, op, ty, e, f);
        within_is_transitive(m.exprs, m2.exprs, s);
        let m3 = m2.with_exprs(s);
        lemma_set(m, m3, t, pc, dst, Value::Scalar(z->Ok_0));
        if addressable(s) && r.of(s) {
            within_is_transitive(m1.exprs, m2.exprs, s);
            lemma_number(r, m, t, pc, a, s);
            lemma_number(r, m1, t, pc, b, s);
            lemma_combined(r, m2.exprs, op, ty, e, f, s);
        }
    } else {
        lemma_binop_grows(m2.exprs, t, pc, op, ty, e, f);
        within_is_transitive(m2.exprs, s, n.exprs);
    }
}

/// Whether a register holds two values that are no bit patterns.
pub open spec fn is_pair(m: Machine, t: ThreadId, reg: RegId) -> bool {
    &&& m.thread(t).wgmma.pending_since(reg) is None
    &&& m.reg_value(t, reg) matches Value::Pair(lo, hi) && lo.0 < m.exprs.nodes.len() && hi.0
        < m.exprs.nodes.len() && !(m.exprs.node(lo) is IntConst) && !(m.exprs.node(hi)
        is IntConst)
}

/// A packed binary operation does in each lane what its name says of the lanes
/// of its sources: the low lane of the result comes from the low lanes, the
/// high lane from the high ones.
#[verifier::spinoff_prover]
pub proof fn a_packed_operation_combines_its_lanes<K>(
    r: Reading<K>,
    m: Machine,
    t: ThreadId,
    pc: InstrId,
    op: BinOp,
    dst: RegId,
    a: RegId,
    b: RegId,
    ty: ScalarType,
)
    requires
        sound(m, t),
        ty.packed_lane() is Some,
        is_pair(m, t, a),
        is_pair(m, t, b),
        writable(m, t, dst),
        combined(r, op, r.k.zero, r.k.zero) is Some,
    ensures
        ({
            let i = LoweredInstr::BinOp {
                op,
                dst,
                src_a: Operand::Reg(a),
                src_b: Operand::Reg(b),
                ty,
                clamp: None,
            };
            let (n, f) = m.execute(t, pc, i);
            let (al, ah) = (m.reg_value(t, a)->Pair_0, m.reg_value(t, a)->Pair_1);
            let (bl, bh) = (m.reg_value(t, b)->Pair_0, m.reg_value(t, b)->Pair_1);
            &&& f == Ok::<Flow, EvalError>(Flow::Next)
            &&& only_sets(m, n, t, dst)
            &&& addressable(n.exprs) && r.of(n.exprs) ==> (n.reg_value(t, dst) matches Value::Pair(
                lo,
                hi,
            ) && Some((r.number)(lo)) == combined(r, op, (r.number)(al), (r.number)(bl)) && Some(
                (r.number)(hi),
            ) == combined(r, op, (r.number)(ah), (r.number)(bh)))
        }),
{
    reveal(Machine::arithmetic);
    reveal(Machine::binop);
    reveal(Machine::packed_binop);
    let lane = ty.packed_lane()->0;
    let (al, ah) = (m.reg_value(t, a)->Pair_0, m.reg_value(t, a)->Pair_1);
    let (bl, bh) = (m.reg_value(t, b)->Pair_0, m.reg_value(t, b)->Pair_1);
    let (s1, lo) = crate::eval::arith::symbolic_binop(m.exprs, op, lane, al, bl);
    lemma_node_grows(m.exprs, op, lane, al, bl);
    assert(binop_spec(m.exprs, t, pc, op, lane, al, bl) == (s1, Ok::<ExprId, EvalError>(lo)));
    assert(s1.nodes[ah.0 as int] == m.exprs.nodes[ah.0 as int]);
    assert(s1.nodes[bh.0 as int] == m.exprs.nodes[bh.0 as int]);
    let (s2, hi) = crate::eval::arith::symbolic_binop(s1, op, lane, ah, bh);
    lemma_node_grows(s1, op, lane, ah, bh);
    assert(binop_spec(s1, t, pc, op, lane, ah, bh) == (s2, Ok::<ExprId, EvalError>(hi)));
    within_is_transitive(m.exprs, s1, s2);
    let m2 = m.with_exprs(s1).with_exprs(s2);
    assert(m2 =~= m.with_exprs(s2));
    assert(m2.with_exprs(s2) =~= m2);
    lemma_set(m, m2, t, pc, dst, Value::Pair(lo, hi));
    if addressable(s2) && r.of(s2) {
        lemma_combined(r, m.exprs, op, lane, al, bl, s2);
        lemma_combined(r, s1, op, lane, ah, bh, s2);
    }
}

pub(crate) proof fn lemma_canon_grows(s: Exprs, ty: ScalarType, e: ExprId)
    ensures
        within(s, canon_operand_spec(s, ty, e).0),
{
}

proof fn lemma_binop_grows(
    s: Exprs,
    t: ThreadId,
    pc: InstrId,
    op: BinOp,
    ty: ScalarType,
    a: ExprId,
    b: ExprId,
)
    ensures
        within(s, binop_spec(s, t, pc, op, ty, a, b).0),
{
    let (s1, x) = canon_operand_spec(s, ty, a);
    let (s2, y) = canon_operand_spec(s1, ty, b);
    lemma_canon_grows(s, ty, a);
    lemma_canon_grows(s1, ty, b);
    within_is_transitive(s, s1, s2);
    lemma_node_grows(s2, op, ty, x, y);
    let s3 = crate::eval::arith::symbolic_binop(s2, op, ty, x, y).0;
    within_is_transitive(s, s2, s3);
    if ty.is_predicate() {
        lemma_pred_grows(s, pc, op, a, b);
    } else if !ty.is_float() && s.as_int(a) is Some && s.as_int(b) is Some {
    } else {
        assert(binop_spec(s, t, pc, op, ty, a, b).0 == s3);
    }
}

proof fn lemma_pred_grows(s: Exprs, pc: InstrId, op: BinOp, a: ExprId, b: ExprId)
    ensures
        within(s, crate::eval::arith::pred_binop_spec(s, pc, op, a, b).0),
{
}

// ---------------------------------------------------------------------------
// Comparisons, selections and unary operations
// ---------------------------------------------------------------------------

/// Whether there is room for `k` more expressions.
pub open spec fn spare(m: Machine, k: int) -> bool {
    m.exprs.nodes.len() + k <= usize::MAX
}

/// Reading an integer.
pub(crate) proof fn lemma_integer(m: Machine, t: ThreadId, pc: InstrId, op: Operand, end: Exprs)
    requires
        sound(m, t),
        usable(m, t, op),
        integer_at(m, t, op) is Some,
        within(m.scalar_operand(t, pc, op).0.exprs, end),
        addressable(end),
    ensures
        end.as_int(m.scalar_operand(t, pc, op).1->Ok_0) == integer_at(m, t, op),
{
    let v = integer_at(m, t, op)->0;
    match op {
        Operand::Reg(reg) => {
            let e = m.reg_value(t, reg)->Scalar_0;
            assert(end.nodes[e.0 as int] == m.exprs.nodes[e.0 as int]);
        },
        _ => {
            an_entered_node_is_found(m.exprs, ExprNode::IntConst(v), end);
        },
    }
}

/// Reading two operands.
pub(crate) proof fn lemma_two<K>(
    r: Reading<K>,
    m: Machine,
    t: ThreadId,
    pc: InstrId,
    a: Operand,
    b: Operand,
)
    requires
        sound(m, t),
        usable(m, t, a),
        usable(m, t, b),
        spare(m, 2),
    ensures
        ({
            let (m1, x) = m.scalar_operand(t, pc, a);
            let (m2, y) = m1.scalar_operand(t, pc, b);
            &&& x is Ok
            &&& y is Ok
            &&& m2 == m.with_exprs(m2.exprs)
            &&& within(m.exprs, m2.exprs)
            &&& within(m1.exprs, m2.exprs)
            &&& m2.exprs.nodes.len() <= m.exprs.nodes.len() + 2
            &&& canonical_exprs(m2.exprs)
            &&& !is_integer(m, t, a) ==> !(m2.exprs.node(x->Ok_0) is IntConst)
            &&& !is_integer(m, t, b) ==> !(m2.exprs.node(y->Ok_0) is IntConst)
            &&& integer_at(m, t, a) matches Some(v) ==> m2.exprs.as_int(x->Ok_0) == Some(v)
            &&& integer_at(m, t, b) matches Some(v) ==> m2.exprs.as_int(y->Ok_0) == Some(v)
            &&& sound(m1, t)
            &&& usable(m1, t, b)
            &&& number_of(r, m1, t, b) == number_of(r, m, t, b)
        }),
{
    let (m1, x) = m.scalar_operand(t, pc, a);
    lemma_scalar(m, t, pc, a);
    lemma_grown(r, m, m1, t, b);
    let (m2, y) = m1.scalar_operand(t, pc, b);
    lemma_scalar(m1, t, pc, b);
    within_is_transitive(m.exprs, m1.exprs, m2.exprs);
    if !is_integer(m, t, a) {
        assert(m2.exprs.nodes[x->Ok_0.0 as int] == m1.exprs.nodes[x->Ok_0.0 as int]);
    }
    if integer_at(m, t, a) is Some {
        lemma_integer(m, t, pc, a, m2.exprs);
    }
    if integer_at(m, t, b) is Some {
        assert(integer_at(m1, t, b) == integer_at(m, t, b)) by {
            if let Operand::Reg(reg) = b {
                let e = m.reg_value(t, reg)->Scalar_0;
                assert(m1.exprs.nodes[e.0 as int] == m.exprs.nodes[e.0 as int]);
            }
        }
        lemma_integer(m1, t, pc, b, m2.exprs);
    }
}

/// The truth of a relation between two numbers. Over the reals, which have no
/// NaN, unordered relations are the ordered ones.
pub open spec fn compared<K>(r: Reading<K>, rel: CmpOp, x: K, y: K) -> bool {
    match rel {
        CmpOp::Eq | CmpOp::Equ => x == y,
        CmpOp::Ne | CmpOp::Neu => x != y,
        CmpOp::Lt | CmpOp::Lo | CmpOp::Ltu => (r.less)(x, y),
        CmpOp::Le | CmpOp::Ls | CmpOp::Leu => !(r.less)(y, x),
        CmpOp::Gt | CmpOp::Hi | CmpOp::Gtu => (r.less)(y, x),
        CmpOp::Ge | CmpOp::Hs | CmpOp::Geu => !(r.less)(x, y),
        CmpOp::Num => true,
        CmpOp::Nan => false,
    }
}

/// Whether a register holds one predicate, of the given truth, afterwards.
pub open spec fn says<K>(r: Reading<K>, n: Machine, t: ThreadId, dst: RegId, p: bool) -> bool {
    n.reg_value(t, dst) matches Value::Scalar(e) && (r.truth)(e) == p
}

/// `setp` on values that are no bit patterns compares its first source with
/// its second: the predicate is true exactly if the relation holds of their
/// numbers.
#[verifier::spinoff_prover]
pub proof fn setp_compares_its_sources<K>(
    r: Reading<K>,
    m: Machine,
    t: ThreadId,
    pc: InstrId,
    rel: CmpOp,
    dst: RegId,
    a: Operand,
    b: Operand,
    ty: ScalarType,
)
    requires
        sound(m, t),
        usable(m, t, a),
        usable(m, t, b),
        !is_integer(m, t, a),
        !is_integer(m, t, b),
        writable(m, t, dst),
        spare(m, 3),
    ensures
        ({
            let i = LoweredInstr::Setp { cmp: rel, dst, src_a: a, src_b: b, ty };
            let (n, f) = m.execute(t, pc, i);
            &&& f == Ok::<Flow, EvalError>(Flow::Next)
            &&& only_sets(m, n, t, dst)
            &&& r.of(n.exprs) ==> says(
                r,
                n,
                t,
                dst,
                compared(r, rel, number_of(r, m, t, a), number_of(r, m, t, b)),
            )
        }),
{
    reveal(Machine::arithmetic);
    reveal(Machine::bitwise);
    reveal(Machine::setp);
    lemma_two(r, m, t, pc, a, b);
    let (m1, x) = m.scalar_operand(t, pc, a);
    let (m2, y) = m1.scalar_operand(t, pc, b);
    let (e, f) = (x->Ok_0, y->Ok_0);
    assert(relation_spec(m2.exprs, rel, ty, e, f) == relation_node(m2.exprs, rel, e, f));
    let node = match rel {
        CmpOp::Eq | CmpOp::Equ => ExprNode::Eq(e, f),
        CmpOp::Ne | CmpOp::Neu => ExprNode::Ne(e, f),
        CmpOp::Lt | CmpOp::Lo | CmpOp::Ltu => ExprNode::Lt(e, f),
        CmpOp::Le | CmpOp::Ls | CmpOp::Leu => ExprNode::Le(e, f),
        CmpOp::Gt | CmpOp::Hi | CmpOp::Gtu => ExprNode::Gt(e, f),
        CmpOp::Ge | CmpOp::Hs | CmpOp::Geu => ExprNode::Ge(e, f),
        CmpOp::Num => ExprNode::BoolConst(true),
        CmpOp::Nan => ExprNode::BoolConst(false),
    };
    let (s, z) = m2.exprs.with(node);
    lemma_within_with(m2.exprs, node);
    within_is_transitive(m.exprs, m2.exprs, s);
    lemma_set(m, m2.with_exprs(s), t, pc, dst, Value::Scalar(z));
    if r.of(s) {
        within_is_transitive(m1.exprs, m2.exprs, s);
        lemma_number(r, m, t, pc, a, s);
        lemma_number(r, m1, t, pc, b, s);
        an_entered_node_has_its_meaning(r, m2.exprs, node, s);
    }
}

/// `selp` gives its first source if the predicate is true, and its second
/// otherwise.
#[verifier::spinoff_prover]
pub proof fn selp_selects_by_its_predicate<K>(
    r: Reading<K>,
    m: Machine,
    t: ThreadId,
    pc: InstrId,
    dst: RegId,
    a: Operand,
    b: Operand,
    pred: RegId,
    ty: ScalarType,
)
    requires
        sound(m, t),
        usable(m, t, a),
        usable(m, t, b),
        usable(m, t, Operand::Reg(pred)),
        !is_integer(m, t, a),
        !is_integer(m, t, b),
        writable(m, t, dst),
        spare(m, 3),
    ensures
        ({
            let i = LoweredInstr::Selp { dst, src_a: a, src_b: b, pred: Operand::Reg(pred), ty };
            let (n, f) = m.execute(t, pc, i);
            let p = m.reg_value(t, pred)->Scalar_0;
            &&& f == Ok::<Flow, EvalError>(Flow::Next)
            &&& only_sets(m, n, t, dst)
            &&& r.of(n.exprs) ==> holds(
                r,
                n,
                t,
                dst,
                if (r.truth)(p) {
                    number_of(r, m, t, a)
                } else {
                    number_of(r, m, t, b)
                },
            )
        }),
{
    reveal(Machine::arithmetic);
    reveal(Machine::bitwise);
    reveal(Machine::selp);
    lemma_two(r, m, t, pc, a, b);
    let (m1, x) = m.scalar_operand(t, pc, a);
    let (m2, y) = m1.scalar_operand(t, pc, b);
    let p = m.reg_value(t, pred)->Scalar_0;
    let node = ExprNode::Select(p, x->Ok_0, y->Ok_0);
    let (s, z) = m2.exprs.with(node);
    lemma_within_with(m2.exprs, node);
    within_is_transitive(m.exprs, m2.exprs, s);
    assert(m2.with_exprs(m2.exprs) =~= m2);
    assert(m2.scalar_operand(t, pc, Operand::Reg(pred)) == (m2, Ok::<ExprId, EvalError>(p)));
    lemma_set(m, m2.with_exprs(s), t, pc, dst, Value::Scalar(z));
    if r.of(s) {
        within_is_transitive(m1.exprs, m2.exprs, s);
        lemma_number(r, m, t, pc, a, s);
        lemma_number(r, m1, t, pc, b, s);
        an_entered_node_has_its_meaning(r, m2.exprs, node, s);
    }
}

/// The number that a unary operation gives, for the operations that are
/// functions of one number.
pub open spec fn transformed<K>(r: Reading<K>, op: UnaryOp, x: K) -> Option<K> {
    match op {
        UnaryOp::Neg => Some(r.negative(x)),
        UnaryOp::Abs => Some(r.magnitude(x)),
        UnaryOp::Rcp => Some((r.reciprocal)(x)),
        UnaryOp::Sqrt => Some((r.root)(x)),
        UnaryOp::Rsqrt => Some((r.reciprocal)((r.root)(x))),
        UnaryOp::Exp => Some((r.exponential)(x)),
        _ => None,
    }
}

/// A unary operation on a finite value that is no bit pattern computes what
/// its name says of its source.
#[verifier::spinoff_prover]
pub proof fn a_unary_operation_transforms_its_source<K>(
    r: Reading<K>,
    m: Machine,
    t: ThreadId,
    pc: InstrId,
    op: UnaryOp,
    dst: RegId,
    a: RegId,
    ty: ScalarType,
)
    requires
        sound(m, t),
        ty.packed_lane() is None,
        usable(m, t, Operand::Reg(a)),
        !is_integer(m, t, Operand::Reg(a)),
        !(m.exprs.node(m.reg_value(t, a)->Scalar_0) is Infinity),
        writable(m, t, dst),
        spare(m, 2),
        transformed(r, op, number_of(r, m, t, Operand::Reg(a))) is Some,
    ensures
        ({
            let i = LoweredInstr::UnaryOp { op, dst, src: Operand::Reg(a), ty };
            let (n, f) = m.execute(t, pc, i);
            &&& f == Ok::<Flow, EvalError>(Flow::Next)
            &&& only_sets(m, n, t, dst)
            &&& r.of(n.exprs) ==> holds(
                r,
                n,
                t,
                dst,
                transformed(r, op, number_of(r, m, t, Operand::Reg(a)))->0,
            )
        }),
{
    reveal(Machine::arithmetic);
    reveal(Machine::unary);
    let e = m.reg_value(t, a)->Scalar_0;
    let (s, z) = unop_spec(m.exprs, pc, op, ty, e);
    let root = m.exprs.with(ExprNode::Sqrt(e)).0;
    lemma_within_with(m.exprs, ExprNode::Sqrt(e));
    assert(within(m.exprs, s) && addressable(s) && z is Ok) by {
        match op {
            UnaryOp::Rsqrt => {
                let rcp = ExprNode::Rcp(m.exprs.with(ExprNode::Sqrt(e)).1);
                lemma_within_with(root, rcp);
                within_is_transitive(m.exprs, root, s);
            },
            _ => {},
        }
    }
    lemma_set(m, m.with_exprs(s), t, pc, dst, Value::Scalar(z->Ok_0));
    if r.of(s) {
        match op {
            UnaryOp::Neg => a_negation_is_the_negative(r, m.exprs, e, s),
            UnaryOp::Abs => an_entered_node_has_its_meaning(r, m.exprs, ExprNode::Abs(e), s),
            UnaryOp::Rcp => an_entered_node_has_its_meaning(r, m.exprs, ExprNode::Rcp(e), s),
            UnaryOp::Sqrt => an_entered_node_has_its_meaning(r, m.exprs, ExprNode::Sqrt(e), s),
            UnaryOp::Exp => an_entered_node_has_its_meaning(r, m.exprs, ExprNode::Exp(e), s),
            UnaryOp::Rsqrt => {
                let x = m.exprs.with(ExprNode::Sqrt(e)).1;
                lemma_within_with(root, ExprNode::Rcp(x));
                an_entered_node_has_its_meaning(r, m.exprs, ExprNode::Sqrt(e), s);
                an_entered_node_has_its_meaning(r, root, ExprNode::Rcp(x), s);
            },
            _ => {},
        }
    }
}

/// `not` of a predicate is true exactly if the predicate is false.
pub proof fn not_negates_a_predicate<K>(
    r: Reading<K>,
    m: Machine,
    t: ThreadId,
    pc: InstrId,
    dst: RegId,
    a: RegId,
)
    requires
        sound(m, t),
        usable(m, t, Operand::Reg(a)),
        writable(m, t, dst),
        spare(m, 1),
    ensures
        ({
            let i = LoweredInstr::UnaryOp {
                op: UnaryOp::Not,
                dst,
                src: Operand::Reg(a),
                ty: ScalarType::Pred,
            };
            let (n, f) = m.execute(t, pc, i);
            &&& f == Ok::<Flow, EvalError>(Flow::Next)
            &&& only_sets(m, n, t, dst)
            &&& r.of(n.exprs) ==> says(r, n, t, dst, !(r.truth)(m.reg_value(t, a)->Scalar_0))
        }),
{
    reveal(Machine::arithmetic);
    reveal(Machine::unary);
    let e = m.reg_value(t, a)->Scalar_0;
    let node = match m.exprs.as_bool(e) {
        Some(b) => ExprNode::BoolConst(!b),
        None => ExprNode::Not(e),
    };
    let (s, z) = m.exprs.with(node);
    lemma_within_with(m.exprs, node);
    lemma_set(m, m.with_exprs(s), t, pc, dst, Value::Scalar(z));
    if r.of(s) {
        an_entered_node_has_its_meaning(r, m.exprs, node, s);
        a_reading_holds_before(r, m.exprs, s);
        reveal(Reading::of);
        assert(r.fits(m.exprs.node(e), e));
    }
}

/// `mov` of anything but a concrete integer, and `cvta` of anything, copies
/// the source: the destination is the same value, symbol for symbol.
pub proof fn a_move_copies_its_source(
    m: Machine,
    t: ThreadId,
    pc: InstrId,
    dst: RegId,
    a: RegId,
    ty: ScalarType,
    space: MemSpace,
    i: LoweredInstr,
)
    requires
        sound(m, t),
        released(m, t, Operand::Reg(a)),
        !is_integer(m, t, Operand::Reg(a)),
        !(m.reg_value(t, a) is Mbarrier),
        writable(m, t, dst),
        i == (LoweredInstr::Mov { dst, src: Operand::Reg(a), ty }) || i == (LoweredInstr::Cvta {
            dst,
            src: Operand::Reg(a),
            space,
        }),
    ensures
        m.execute(t, pc, i).1 == Ok::<Flow, EvalError>(Flow::Next),
        only_sets(m, m.execute(t, pc, i).0, t, dst),
        m.execute(t, pc, i).0.reg_value(t, dst) == m.reg_value(t, a),
        m.execute(t, pc, i).0.exprs == m.exprs,
{
    reveal(Machine::arithmetic);
    reveal(Machine::bitwise);
    reveal(Machine::mov);
    reveal(Machine::cvta);
    assert(m.with_exprs(m.exprs) =~= m);
    lemma_set(m, m, t, pc, dst, m.reg_value(t, a));
}

} // verus!
