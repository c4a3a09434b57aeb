//! What moving values about preserves: a load gives back what was stored, and
//! unpacking undoes packing. And where a thread finds itself.

use vstd::arithmetic::div_mod::{
    lemma_div_denominator, lemma_fundamental_div_mod, lemma_mod_bound,
};
use vstd::prelude::*;

use crate::eval::ThreadId;
use crate::eval::arith::{loaded_spec, stored_spec};
use crate::eval::effects::{spare, writable};
use crate::eval::error::EvalError;
use crate::eval::exchanges::{integer_of, lemma_concrete};
use crate::eval::laws::{a_thread_reads_back_its_store, lemma_written};
use crate::eval::machine::Machine;
use crate::eval::mem_ops::operand_reg_bits;
use crate::eval::step::{Flow, flow};
use crate::eval::value::Value;
use crate::lowered::{InstrId, LoweredInstr, MemSpace, Operand};
use crate::symbols::{RegId, SpecialRegKind};
use crate::types::ScalarType;

verus! {

/// What a thread stores as a float it loads back: if its next load is of the
/// same type and its base and offset add up to the same address, the load
/// succeeds and the destination holds the value that the source held.
#[verifier::spinoff_prover]
pub proof fn a_load_gives_back_what_was_stored(
    m: Machine,
    t: ThreadId,
    pc: InstrId,
    next: InstrId,
    space: MemSpace,
    base: Operand,
    offset: i64,
    src: RegId,
    again: Operand,
    shift: i64,
    dst: RegId,
    ty: ScalarType,
    a: i64,
    b: i64,
)
    requires
        t.0 < m.threads.len(),
        t.0 < m.locals.len(),
        ty.is_float(),
        spare(m, 1),
        m.reg_value(t, src) is Scalar,
        integer_of(m, t, base) == Some(a),
        (a as u64).wrapping_add(offset as u64) == (b as u64).wrapping_add(shift as u64),
        (a as u64).wrapping_add(offset as u64) + ty.size_bytes() <= u64::MAX,
        m.execute(
            t,
            pc,
            LoweredInstr::Store { space, base, offset, src: Operand::Reg(src), ty },
        ).1 is Ok,
        ({
            let n = m.execute(
                t,
                pc,
                LoweredInstr::Store { space, base, offset, src: Operand::Reg(src), ty },
            ).0;
            &&& spare(n, 1)
            &&& t.0 < n.threads.len()
            &&& integer_of(n, t, again) == Some(b)
            &&& again matches Operand::Reg(reg) ==> writable(n, t, reg)
            &&& writable(n, t, dst)
        }),
    ensures
        ({
            let n = m.execute(
                t,
                pc,
                LoweredInstr::Store { space, base, offset, src: Operand::Reg(src), ty },
            ).0;
            let (z, f) = n.execute(
                t,
                next,
                LoweredInstr::Load { dst, space, base: again, offset: shift, ty },
            );
            &&& f == Ok::<Flow, EvalError>(Flow::Next)
            &&& z.reg_value(t, dst) == m.reg_value(t, src)
        }),
{
    reveal(Machine::arithmetic);
    reveal(Machine::bitwise);
    reveal(Machine::movement);
    reveal(Machine::store);
    reveal(Machine::load);
    let addr = (a as u64).wrapping_add(offset as u64);
    let width = ty.size_bytes() as u64;
    let v = m.reg_value(t, src);
    lemma_concrete(m, t, pc, base, "memory address");
    let m1 = m.concrete_operand(t, pc, base, "memory address").0;
    assert(m1.with_exprs(m1.exprs) =~= m1);
    let i = LoweredInstr::Store { space, base, offset, src: Operand::Reg(src), ty };
    let n = m.execute(t, pc, i).0;
    assert(m.effective_addr(t, pc, base, offset) == (m1, Ok::<u64, EvalError>(addr)));
    assert(m1.operand_value(t, pc, Operand::Reg(src)) == (m1, Ok::<Value, EvalError>(v)));
    let bits = operand_reg_bits(Operand::Reg(src));
    assert(stored_spec(m1.exprs, t, pc, ty, bits, v) == (m1.exprs, Ok::<Value, EvalError>(v)));
    assert(m.store(t, pc, space, base, offset, Operand::Reg(src), ty) == m1.mem_write(
        t,
        pc,
        space,
        addr,
        width,
        v,
    ));
    assert(m.movement(t, pc, i) == Some(
        flow(m.store(t, pc, space, base, offset, Operand::Reg(src), ty), Flow::Next),
    ));
    assert(m1.mem_write(t, pc, space, addr, width, v).0 == n);
    assert(m1.mem_write(t, pc, space, addr, width, v).1 is Ok);
    lemma_concrete(n, t, next, again, "memory address");
    lemma_known(n, t, next, again);
    let n1 = n.concrete_operand(t, next, again, "memory address").0;
    a_thread_reads_back_its_store(m1, t, pc, space, addr, width, v, next);
    lemma_written(m1, t, pc, space, addr, width, v);
    lemma_read_ignores_expressions(n, n1, t, next, space, addr, width, v);
    let n2 = n1.mem_read(t, next, space, addr, width).0;
    assert(n2.with_exprs(n2.exprs) =~= n2);
    let k = LoweredInstr::Load { dst, space, base: again, offset: shift, ty };
    assert(n.effective_addr(t, next, again, shift) == (n1, Ok::<u64, EvalError>(addr)));
    assert(loaded_spec(n2.exprs, t, next, ty, dst, v) == (n2.exprs, Ok::<Value, EvalError>(v)));
    assert(n.load(t, next, dst, space, again, shift, ty) == n2.write_reg(t, next, dst, v));
    assert(n.movement(t, next, k) == Some(
        flow(n.load(t, next, dst, space, again, shift, ty), Flow::Next),
    ));
}

/// A concrete operand of which nothing is pending is read.
proof fn lemma_known(m: Machine, t: ThreadId, pc: InstrId, op: Operand)
    requires
        integer_of(m, t, op) is Some,
        spare(m, 1),
        op matches Operand::Reg(reg) ==> writable(m, t, reg),
    ensures
        m.concrete_operand(t, pc, op, "memory address").1 is Ok,
{
    if let Operand::ImmI64(v) = op {
        let node = crate::symbolic::arena::ExprNode::IntConst(v);
        crate::eval::effects::lemma_within_with(m.exprs, node);
        crate::symbolic::meaning::an_entered_node_is_found(
            m.exprs,
            node,
            m.exprs.with(node).0,
        );
    }
}

/// A read that finds its value does not depend on the expressions.
proof fn lemma_read_ignores_expressions(
    m: Machine,
    n: Machine,
    t: ThreadId,
    pc: InstrId,
    space: MemSpace,
    addr: u64,
    width: u64,
    v: Value,
)
    requires
        n == m.with_exprs(n.exprs),
        crate::eval::memory::read_cells(m.memory(space, t), addr, width) == Ok::<
            Value,
            crate::eval::memory::MemAccessError,
        >(v),
        m.mem_read(t, pc, space, addr, width).1 == Ok::<Value, EvalError>(v),
    ensures
        n.mem_read(t, pc, space, addr, width).1 == Ok::<Value, EvalError>(v),
        n.mem_read(t, pc, space, addr, width).0.threads == n.threads,
{
    reveal(Machine::mem_read_via);
}

/// Unpacking undoes packing: the halves that were put into a register come out
/// of it again, the low one first.
pub proof fn unpacking_undoes_packing(
    m: Machine,
    t: ThreadId,
    pc: InstrId,
    next: InstrId,
    dst: RegId,
    lo: RegId,
    hi: RegId,
    x: RegId,
    y: RegId,
    ty: ScalarType,
)
    requires
        t.0 < m.threads.len(),
        m.reg_value(t, lo) is Scalar,
        m.reg_value(t, hi) is Scalar,
        writable(m, t, lo),
        writable(m, t, hi),
        x != y,
        m.execute(
            t,
            pc,
            LoweredInstr::PackHalves { dst, lo: Operand::Reg(lo), hi: Operand::Reg(hi) },
        ).1 is Ok,
        m.execute(
            t,
            pc,
            LoweredInstr::PackHalves { dst, lo: Operand::Reg(lo), hi: Operand::Reg(hi) },
        ).0.execute(
            t,
            next,
            LoweredInstr::UnpackHalves { lo: Some(x), hi: Some(y), src: Operand::Reg(dst), ty },
        ).1 is Ok,
    ensures
        ({
            let n = m.execute(
                t,
                pc,
                LoweredInstr::PackHalves { dst, lo: Operand::Reg(lo), hi: Operand::Reg(hi) },
            ).0;
            let z = n.execute(
                t,
                next,
                LoweredInstr::UnpackHalves { lo: Some(x), hi: Some(y), src: Operand::Reg(dst), ty },
            ).0;
            &&& z.reg_value(t, x) == m.reg_value(t, lo)
            &&& z.reg_value(t, y) == m.reg_value(t, hi)
            &&& forall|u: ThreadId, reg: RegId|
                u.0 < m.threads.len() && (u != t || (reg != dst && reg != x && reg != y))
                    ==> #[trigger] z.reg_value(u, reg) == m.reg_value(u, reg)
        }),
{
    reveal(Machine::arithmetic);
    reveal(Machine::bitwise);
    reveal(Machine::movement);
    reveal(Machine::pack_halves);
    reveal(Machine::unpack_halves);
    reveal(Machine::write_some);
}

/// A thread's place in the block, by its special registers: the index in each
/// dimension is below the extent, and together they give the linear index; so
/// do the warp and the lane.
pub proof fn a_thread_knows_its_place(m: Machine, t: ThreadId)
    requires
        m.env.config.block_dim.0 > 0,
        m.env.config.block_dim.1 > 0,
        m.env.config.block_dim.0 * m.env.config.block_dim.1 <= u32::MAX,
    ensures
        ({
            let (bx, by, bz) = m.env.config.block_dim;
            let x = m.special_reg(t, SpecialRegKind::TidX)->0;
            let y = m.special_reg(t, SpecialRegKind::TidY)->0;
            let z = m.special_reg(t, SpecialRegKind::TidZ)->0;
            let lane = m.special_reg(t, SpecialRegKind::LaneId)->0;
            let warp = m.special_reg(t, SpecialRegKind::WarpId)->0;
            &&& 0 <= x < bx
            &&& 0 <= y < by
            &&& 0 <= z
            &&& t.0 == x + bx * (y + by * z)
            &&& 0 <= lane < 32
            &&& t.0 == lane + 32 * warp
            &&& m.special_reg(t, SpecialRegKind::NtidX) == Some(bx as i64)
            &&& m.special_reg(t, SpecialRegKind::NtidY) == Some(by as i64)
            &&& m.special_reg(t, SpecialRegKind::NtidZ) == Some(bz as i64)
        }),
{
    let (bx, by, bz) = m.env.config.block_dim;
    let (i, p, q) = (t.0 as int, bx as int, by as int);
    lemma_mod_bound(i, p);
    lemma_fundamental_div_mod(i, p);
    lemma_mod_bound(i / p, q);
    lemma_fundamental_div_mod(i / p, q);
    lemma_div_denominator(i, p, q);
    assert(0 <= i / p <= i) by (nonlinear_arith)
        requires
            i >= 0,
            p >= 1,
    ;
    assert(0 <= i / p / q <= i / p) by (nonlinear_arith)
        requires
            i / p >= 0,
            q >= 1,
    ;
    let (y, z) = (i / p % q, i / p / q);
    assert(i / p == y + q * z);
    assert(i == i % p + p * (y + q * z)) by (nonlinear_arith)
        requires
            i == p * (i / p) + i % p,
            i / p == y + q * z,
    ;
}

} // verus!
