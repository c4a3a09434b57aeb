//! What a load from Tensor Memory, and a vector load, give their registers.

use vstd::prelude::*;

use crate::eval::arith::loaded_spec;
use crate::eval::cooperative::masked;
use crate::eval::effects::spare;
use crate::eval::error::EvalError;
use crate::eval::exchanges::{integer_of, lemma_concrete};
use crate::eval::groupwise::{lemma_same_integer, lemma_uniform, shared_integer};
use crate::eval::machine::Machine;
use crate::eval::memory::{MemAccessError, read_cells};
use crate::eval::products::lemma_bracketed;
use crate::eval::reductions::of_the_block;
use crate::eval::value::Value;
use crate::eval::{ThreadId, WARP_SIZE};
use crate::lowered::{InstrId, LoweredInstr, MemSpace, Operand};
use crate::symbols::RegId;
use crate::types::ScalarType;

verus! {

// ---------------------------------------------------------------------------
// Tensor Memory
// ---------------------------------------------------------------------------

/// Whether `n` comes after `m` with nothing but registers, expressions and
/// marked accesses changed.
spec fn filled(m: Machine, n: Machine) -> bool {
    &&& n == (Machine { threads: n.threads, exprs: n.exprs, race: n.race, ..m })
    &&& n.threads.len() == m.threads.len()
}

/// Whether a lane's registers hold its written cells, from the `i`-th on.
spec fn has_cells(
    m: Machine,
    n: Machine,
    u: ThreadId,
    dst: Seq<RegId>,
    col: u32,
    i: int,
) -> bool {
    forall|p: int|
        i <= p < dst.len() ==> (m.tensor.get((u.0 % 128) as u32, (col + p) as u32) matches Some(
            x,
        ) ==> n.reg_value(u, #[trigger] dst[p]) == Value::Scalar(x))
}

proof fn lemma_load_lane(
    m: Machine,
    t: ThreadId,
    pc: InstrId,
    u: ThreadId,
    dst: Seq<RegId>,
    col: u32,
    i: int,
)
    requires
        0 <= i <= dst.len(),
        col + dst.len() <= u32::MAX,
        u.0 < m.threads.len(),
        dst.no_duplicates(),
        m.tensor_load_lane(t, pc, u, dst, col, i).1 is Ok,
    ensures
        ({
            let z = m.tensor_load_lane(t, pc, u, dst, col, i).0;
            &&& filled(m, z)
            &&& has_cells(m, z, u, dst, col, i)
            &&& forall|p: int|
                0 <= p < i ==> z.reg_value(u, #[trigger] dst[p]) == m.reg_value(u, dst[p])
            &&& forall|v: ThreadId, reg: RegId|
                v.0 < m.threads.len() && (v != u || !dst.contains(reg))
                    ==> #[trigger] z.reg_value(v, reg) == m.reg_value(v, reg)
        }),
    decreases dst.len() - i,
{
    if i < dst.len() {
        let lane = (u.0 % 128) as u32;
        assert(crate::eval::collective::tensor_lane(u) == lane);
        let c = (col + i) as u32;
        let cell = m.tensor.get(lane, c);
        let (s, e) = m.exprs.undefined();
        let m1 = match cell {
            Some(x) => m.write_reg(u, pc, dst[i], Value::Scalar(x)).0,
            None => m.with_exprs(s).write_reg(u, pc, dst[i], Value::Scalar(e)).0,
        };
        assert(m.tensor_load_lane(t, pc, u, dst, col, i) == m1.tensor_load_lane(
            t,
            pc,
            u,
            dst,
            col,
            i + 1,
        ));
        lemma_load_lane(m1, t, pc, u, dst, col, i + 1);
        let z = m.tensor_load_lane(t, pc, u, dst, col, i).0;
        assert(z.reg_value(u, dst[i]) == m1.reg_value(u, dst[i]));
        assert forall|p: int| 0 <= p < i implies z.reg_value(u, #[trigger] dst[p]) == m.reg_value(
            u,
            dst[p],
        ) by {
            assert(z.reg_value(u, dst[p]) == m1.reg_value(u, dst[p]));
            assert(dst[p] != dst[i]);
        }
        assert forall|v: ThreadId, reg: RegId|
            v.0 < m.threads.len() && (v != u || !dst.contains(reg))
                implies #[trigger] z.reg_value(v, reg) == m.reg_value(v, reg) by {
            assert(z.reg_value(v, reg) == m1.reg_value(v, reg));
            if v == u {
                assert(reg != dst[i]);
            }
        }
    }
}

proof fn lemma_load_lanes(
    m: Machine,
    t: ThreadId,
    pc: InstrId,
    members: Seq<ThreadId>,
    dst: Seq<RegId>,
    col: u32,
    k: int,
)
    requires
        0 <= k <= members.len(),
        col + dst.len() <= u32::MAX,
        of_the_block(members, m.threads.len()),
        dst.no_duplicates(),
        m.tensor_load_lanes(t, pc, members, dst, col, k).1 is Ok,
    ensures
        ({
            let z = m.tensor_load_lanes(t, pc, members, dst, col, k).0;
            &&& filled(m, z)
            &&& forall|l: int|
                k <= l < members.len() ==> has_cells(m, z, #[trigger] members[l], dst, col, 0)
            &&& forall|v: ThreadId, reg: RegId|
                v.0 < m.threads.len() && (!dst.contains(reg) || forall|l: int|
                    k <= l < members.len() ==> #[trigger] members[l] != v)
                    ==> #[trigger] z.reg_value(v, reg) == m.reg_value(v, reg)
        }),
    decreases members.len() - k,
{
    if k < members.len() {
        let u = members[k];
        let m1 = m.tensor_load_lane(t, pc, u, dst, col, 0).0;
        lemma_load_lane(m, t, pc, u, dst, col, 0);
        lemma_load_lanes(m1, t, pc, members, dst, col, k + 1);
        let z = m.tensor_load_lanes(t, pc, members, dst, col, k).0;
        assert forall|l: int| k <= l < members.len() implies has_cells(
            m,
            z,
            #[trigger] members[l],
            dst,
            col,
            0,
        ) by {
            if l == k {
                assert forall|o: int| k + 1 <= o < members.len() implies #[trigger] members[o]
                    != u by {
                    assert(members[k] != members[o]);
                }
                assert forall|p: int| 0 <= p < dst.len() implies z.reg_value(u, #[trigger] dst[p])
                    == m1.reg_value(u, dst[p]) by {}
            } else {
                assert(has_cells(m1, z, members[l], dst, col, 0));
            }
        }
        assert forall|v: ThreadId, reg: RegId|
            v.0 < m.threads.len() && (!dst.contains(reg) || forall|l: int|
                k <= l < members.len() ==> #[trigger] members[l] != v)
                implies #[trigger] z.reg_value(v, reg) == m.reg_value(v, reg) by {
            assert(z.reg_value(v, reg) == m1.reg_value(v, reg));
            if v == u {
                assert(members[k] == v);
            }
        }
    }
}

/// `tcgen05.ld` gives each thread cells of its own Tensor Memory lane, that of
/// its index in the warpgroup: register `i` holds the cell `i` columns past
/// the one that the address names. No other register changes.
#[verifier::spinoff_prover]
pub proof fn a_tensor_load_gives_each_thread_its_lane(
    m: Machine,
    pc: InstrId,
    mask: u32,
    members: Seq<ThreadId>,
    dst: Seq<RegId>,
    base: Operand,
    offset: i64,
    a: i64,
    l: int,
    i: int,
)
    requires
        of_the_block(members, m.threads.len()),
        m.env.program.instructions@[pc.0 as int] matches LoweredInstr::Tcgen05Ld {
            dst: d,
            taddr_base,
            taddr_offset,
        } && d@ == dst && taddr_base == base && taddr_offset == offset,
        dst.no_duplicates(),
        dst.len() <= 1024,
        shared_integer(m, members, base, a),
        spare(m, members.len() as int),
        m.warp_op(pc, mask, members).1 is Ok,
        0 <= l < members.len(),
        0 <= i < dst.len(),
    ensures
        ({
            let z = m.warp_op(pc, mask, members).0;
            let lane = (members[l].0 % 128) as u32;
            let col = (((a as u64).wrapping_add(offset as u64) as u32) % 65536 + i) as u32;
            &&& m.tensor.get(lane, col) matches Some(x) ==> z.reg_value(members[l], dst[i])
                == Value::Scalar(x)
            &&& forall|v: ThreadId, reg: RegId|
                v.0 < m.threads.len() && (!members.contains(v) || !dst.contains(reg))
                    ==> #[trigger] z.reg_value(v, reg) == m.reg_value(v, reg)
        }),
{
    lemma_bracketed(m, pc, mask, members);
    let t = members[0];
    let g = masked((t.0 / WARP_SIZE * WARP_SIZE) as u32, mask, m.env.n_threads);
    let m0 = m.counting_warp_sync().synced(g);
    let instr = m.env.program.instructions@[pc.0 as int];
    let (y, f) = m0.warp_effect(t, pc, mask, instr, members);
    assert((y, f) == m0.tcgen05_ld(t, pc, members, dst, base, offset)) by {
        reveal(Machine::warp_effect);
        reveal(Machine::matrix_effect);
    }
    reveal(Machine::tcgen05_ld);
    reveal(Machine::tensor_column);
    reveal(Machine::tensor_begin);
    reveal(Machine::uniform_concrete);
    lemma_same_integer(m, m0, members, base, a);
    let what = "tcgen05.ld taddr";
    lemma_uniform(m0, t, pc, members, base, what, None, 0, a);
    let m1 = m0.uniform(t, pc, members, base, what, None, 0).0;
    let col = (((a as u64).wrapping_add(offset as u64) as u32) % 65536) as u32;
    let m2 = m1.tensor_begin(t, pc, col, dst.len() as u64, false).0;
    lemma_load_lanes(m2, t, pc, members, dst, col, 0);
    let z = m.warp_op(pc, mask, members).0;
    assert(has_cells(m2, y, members[l], dst, col, 0));
    assert(z.reg_value(members[l], dst[i]) == y.reg_value(members[l], dst[i]));
    assert forall|v: ThreadId, reg: RegId|
        v.0 < m.threads.len() && (!members.contains(v) || !dst.contains(reg))
            implies #[trigger] z.reg_value(v, reg) == m.reg_value(v, reg) by {
        if dst.contains(reg) {
            assert forall|o: int| 0 <= o < members.len() implies #[trigger] members[o] != v by {}
        }
        assert(y.reg_value(v, reg) == m2.reg_value(v, reg));
        assert(m2.reg_value(v, reg) == m.reg_value(v, reg));
    }
}

// ---------------------------------------------------------------------------
// Vector loads
// ---------------------------------------------------------------------------

/// Whether memory holds the elements of a vector, one after another.
pub open spec fn elements_follow(
    m: Machine,
    t: ThreadId,
    space: MemSpace,
    addr: u64,
    n: int,
    ty: ScalarType,
    e: spec_fn(int) -> Value,
) -> bool {
    forall|k: int|
        0 <= k < n ==> read_cells(
            m.memory(space, t),
            (addr + k * ty.size_bytes()) as u64,
            ty.size_bytes() as u64,
        ) == Ok::<Value, MemAccessError>(#[trigger] e(k)) && e(k) is Scalar
}

proof fn lemma_elements(
    m: Machine,
    t: ThreadId,
    pc: InstrId,
    space: MemSpace,
    addr: u64,
    dst: Seq<RegId>,
    ty: ScalarType,
    e: spec_fn(int) -> Value,
    k: int,
)
    requires
        0 <= k <= dst.len() <= 16,
        t.0 < m.threads.len(),
        ty.is_float(),
        dst.no_duplicates(),
        addr + 16 * 16 <= u64::MAX,
        elements_follow(m, t, space, addr, dst.len() as int, ty, e),
        m.load_elements(t, pc, space, addr, dst, ty, k).1 is Ok,
    ensures
        ({
            let z = m.load_elements(t, pc, space, addr, dst, ty, k).0;
            &&& filled(m, z)
            &&& forall|p: int| k <= p < dst.len() ==> z.reg_value(t, #[trigger] dst[p]) == e(p)
            &&& forall|p: int|
                0 <= p < k ==> z.reg_value(t, #[trigger] dst[p]) == m.reg_value(t, dst[p])
            &&& forall|v: ThreadId, reg: RegId|
                v.0 < m.threads.len() && (v != t || !dst.contains(reg))
                    ==> #[trigger] z.reg_value(v, reg) == m.reg_value(v, reg)
        }),
    decreases dst.len() - k,
{
    if k < dst.len() {
        reveal(Machine::mem_read_via);
        let w = ty.size_bytes();
        assert(0 <= k * w <= 16 * 16) by (nonlinear_arith)
            requires
                0 <= k <= 16,
                0 <= w <= 16,
        ;
        let at = (addr + k * w) as u64;
        assert((k as u64).wrapping_mul(w as u64) == k * w);
        assert(crate::eval::mem_ops::element_at(addr, k as u64, ty) == at);
        assert(read_cells(m.memory(space, t), at, w as u64) == Ok::<Value, MemAccessError>(e(k)));
        let m1 = m.mem_read(t, pc, space, at, w as u64).0;
        assert(m1 =~= (Machine { race: m1.race, ..m }));
        assert(m1.with_exprs(m1.exprs) =~= m1);
        assert(loaded_spec(m1.exprs, t, pc, ty, dst[k], e(k)) == (
            m1.exprs,
            Ok::<Value, EvalError>(e(k)),
        ));
        let m2 = m1.write_reg(t, pc, dst[k], e(k)).0;
        assert(m2.memory(space, t) == m.memory(space, t));
        assert(elements_follow(m2, t, space, addr, dst.len() as int, ty, e)) by {
            assert forall|q: int| 0 <= q < dst.len() implies read_cells(
                m2.memory(space, t),
                (addr + q * ty.size_bytes()) as u64,
                ty.size_bytes() as u64,
            ) == Ok::<Value, MemAccessError>(#[trigger] e(q)) && e(q) is Scalar by {}
        }
        lemma_elements(m2, t, pc, space, addr, dst, ty, e, k + 1);
        let z = m.load_elements(t, pc, space, addr, dst, ty, k).0;
        assert(z.reg_value(t, dst[k]) == m2.reg_value(t, dst[k]));
        assert forall|p: int| 0 <= p < k implies z.reg_value(t, #[trigger] dst[p]) == m.reg_value(
            t,
            dst[p],
        ) by {
            assert(z.reg_value(t, dst[p]) == m2.reg_value(t, dst[p]));
            assert(dst[p] != dst[k]);
        }
        assert forall|v: ThreadId, reg: RegId|
            v.0 < m.threads.len() && (v != t || !dst.contains(reg))
                implies #[trigger] z.reg_value(v, reg) == m.reg_value(v, reg) by {
            assert(z.reg_value(v, reg) == m2.reg_value(v, reg));
            if v == t {
                assert(reg != dst[k]);
            }
        }
    }
}

/// A vector load of floats gives register `k` the `k`-th element from the
/// address on. No other register and no memory changes.
#[verifier::spinoff_prover]
pub proof fn a_vector_load_gives_consecutive_elements(
    m: Machine,
    t: ThreadId,
    pc: InstrId,
    i: LoweredInstr,
    dst: Seq<RegId>,
    space: MemSpace,
    base: Operand,
    offset: i64,
    ty: ScalarType,
    a: i64,
    e: spec_fn(int) -> Value,
    k: int,
)
    requires
        t.0 < m.threads.len(),
        spare(m, 1),
        i matches LoweredInstr::LoadVec { dst: d, space: s, base: b, offset: o, ty: y } && d@ == dst
            && s == space && b == base && o == offset && y == ty,
        ty.is_float(),
        dst.no_duplicates(),
        dst.len() <= 16,
        integer_of(m, t, base) == Some(a),
        (a as u64).wrapping_add(offset as u64) + 16 * 16 <= u64::MAX,
        elements_follow(
            m,
            t,
            space,
            (a as u64).wrapping_add(offset as u64),
            dst.len() as int,
            ty,
            e,
        ),
        m.execute(t, pc, i).1 is Ok,
        0 <= k < dst.len(),
    ensures
        ({
            let z = m.execute(t, pc, i).0;
            &&& z.reg_value(t, dst[k]) == e(k)
            &&& z.global == m.global
            &&& z.shared == m.shared
            &&& z.locals == m.locals
            &&& forall|v: ThreadId, reg: RegId|
                v.0 < m.threads.len() && (v != t || !dst.contains(reg))
                    ==> #[trigger] z.reg_value(v, reg) == m.reg_value(v, reg)
        }),
{
    reveal(Machine::arithmetic);
    reveal(Machine::bitwise);
    reveal(Machine::movement);
    reveal(Machine::load_vec);
    let addr = (a as u64).wrapping_add(offset as u64);
    lemma_concrete(m, t, pc, base, "memory address");
    let m1 = m.concrete_operand(t, pc, base, "memory address").0;
    assert(m.effective_addr(t, pc, base, offset) == (m1, Ok::<u64, EvalError>(addr)));
    assert(m1.memory(space, t) == m.memory(space, t));
    assert(elements_follow(m1, t, space, addr, dst.len() as int, ty, e)) by {
        assert forall|q: int| 0 <= q < dst.len() implies read_cells(
            m1.memory(space, t),
            (addr + q * ty.size_bytes()) as u64,
            ty.size_bytes() as u64,
        ) == Ok::<Value, MemAccessError>(#[trigger] e(q)) && e(q) is Scalar by {}
    }
    lemma_elements(m1, t, pc, space, addr, dst, ty, e, 0);
    let z = m.execute(t, pc, i).0;
    assert(z == m1.load_elements(t, pc, space, addr, dst, ty, 0).0);
    assert forall|v: ThreadId, reg: RegId|
        v.0 < m.threads.len() && (v != t || !dst.contains(reg)) implies #[trigger] z.reg_value(
        v,
        reg,
    ) == m.reg_value(v, reg) by {
        assert(m1.reg_value(v, reg) == m.reg_value(v, reg));
    }
}

} // verus!
