//! What elections and reductions across a warp give their lanes.

use vstd::arithmetic::power2::{lemma_pow2_pos, pow2};
use vstd::prelude::*;

use crate::eval::cooperative::masked;
use crate::eval::effects::{integer_at, lemma_within_with, spare};
use crate::eval::int_ops::{int_binop, int_bits};
use crate::eval::integers::{
    an_integer_operation_is_exact, computes, in_type, lemma_wrapped_sum, wraps_to,
};
use crate::eval::machine::Machine;
use crate::eval::products::{lemma_bracketed, only_registers};
use crate::eval::value::Value;
use crate::eval::{ThreadId, WARP_SIZE};
use crate::lowered::{BinOp, InstrId, LoweredInstr, Operand};
use crate::symbolic::ExprId;
use crate::symbolic::arena::{ExprNode, Exprs};
use crate::symbolic::meaning::{
    Reading, a_maximum_is_the_larger, addressable, an_entered_node_is_found, canonical_exprs,
    within, within_is_transitive,
};
use crate::symbols::RegId;
use crate::types::ScalarType;

verus! {

/// Whether the lanes that take part are threads of the block, each once.
pub open spec fn of_the_block(members: Seq<ThreadId>, n: nat) -> bool {
    &&& members.len() > 0
    &&& forall|l: int| 0 <= l < members.len() ==> (#[trigger] members[l]).0 < n
    &&& forall|k: int, l: int|
        0 <= k < l < members.len() ==> #[trigger] members[k] != #[trigger] members[l]
}

// ---------------------------------------------------------------------------
// Writing one register of every lane
// ---------------------------------------------------------------------------

proof fn lemma_broadcast(
    m: Machine,
    t: ThreadId,
    pc: InstrId,
    members: Seq<ThreadId>,
    dst: RegId,
    v: Value,
    k: int,
)
    requires
        0 <= k <= members.len(),
        of_the_block(members, m.threads.len()),
        m.broadcast_value(t, pc, members, dst, v, k).1 is Ok,
    ensures
        ({
            let z = m.broadcast_value(t, pc, members, dst, v, k).0;
            &&& only_registers(m, z)
            &&& forall|l: int|
                k <= l < members.len() ==> z.reg_value(#[trigger] members[l], dst) == v
            &&& forall|u: ThreadId, reg: RegId|
                u.0 < m.threads.len() && (reg != dst || forall|l: int|
                    k <= l < members.len() ==> #[trigger] members[l] != u)
                    ==> #[trigger] z.reg_value(u, reg) == m.reg_value(u, reg)
        }),
    decreases members.len() - k,
{
    if k < members.len() {
        let m1 = m.write_reg(members[k], pc, dst, v).0;
        lemma_broadcast(m1, t, pc, members, dst, v, k + 1);
        let z = m.broadcast_value(t, pc, members, dst, v, k).0;
        assert forall|l: int| k <= l < members.len() implies z.reg_value(#[trigger] members[l], dst)
            == v by {
            if l == k {
                assert forall|p: int| k + 1 <= p < members.len() implies #[trigger] members[p]
                    != members[k] by {}
                assert(z.reg_value(members[k], dst) == m1.reg_value(members[k], dst));
            }
        }
        assert forall|u: ThreadId, reg: RegId|
            u.0 < m.threads.len() && (reg != dst || forall|l: int|
                k <= l < members.len() ==> #[trigger] members[l] != u)
                implies #[trigger] z.reg_value(u, reg) == m.reg_value(u, reg) by {
            assert(z.reg_value(u, reg) == m1.reg_value(u, reg));
            if reg == dst {
                assert(members[k] != u);
            }
        }
    }
}

// ---------------------------------------------------------------------------
// Reductions of integers
// ---------------------------------------------------------------------------

/// The sum of the first `n` values.
pub open spec fn total(x: spec_fn(int) -> int, n: int) -> int
    decreases n,
{
    if n <= 0 {
        0
    } else {
        total(x, n - 1) + x(n - 1)
    }
}

/// Whether `v` is the first `n` values taken together: their sum, wrapped to
/// the width of the type, or the least or the greatest of them.
pub open spec fn gathers(
    op: BinOp,
    ty: ScalarType,
    x: spec_fn(int) -> int,
    n: int,
    v: int,
) -> bool {
    match op {
        BinOp::Add => wraps_to(v, total(x, n), ty),
        BinOp::Min => (forall|l: int| 0 <= l < n ==> v <= #[trigger] x(l)) && exists|l: int|
            0 <= l < n && v == #[trigger] x(l),
        BinOp::Max => (forall|l: int| 0 <= l < n ==> v >= #[trigger] x(l)) && exists|l: int|
            0 <= l < n && v == #[trigger] x(l),
        _ => true,
    }
}

/// The integers that the lanes hold in a register.
pub open spec fn values_of(m: Machine, members: Seq<ThreadId>, src: RegId) -> spec_fn(int) -> int {
    |l: int| integer_at(m, members[l], Operand::Reg(src))->0 as int
}

/// Whether every lane holds a concrete integer of the type in a register.
pub open spec fn lanes_hold_integers(
    m: Machine,
    members: Seq<ThreadId>,
    src: RegId,
    ty: ScalarType,
) -> bool {
    forall|l: int|
        0 <= l < members.len() ==> {
            let u = #[trigger] members[l];
            &&& m.reg_value(u, src) is Scalar
            &&& integer_at(m, u, Operand::Reg(src)) matches Some(v) && in_type(v as int, ty) && (
            ty.is_signed_int() || v >= 0)
        }
}

proof fn lemma_gathers(op: BinOp, ty: ScalarType, x: spec_fn(int) -> int, n: int, v: int, w: int)
    requires
        n >= 1,
        !ty.is_float(),
        gathers(op, ty, x, n, v),
        computes(op, ty, v, x(n), w),
        ty.is_signed_int() || (v >= 0 && x(n) >= 0),
    ensures
        gathers(op, ty, x, n + 1, w),
{
    match op {
        BinOp::Add => {
            let p = pow2(int_bits(ty) as nat) as int;
            lemma_pow2_pos(int_bits(ty) as nat);
            lemma_wrapped_sum(total(x, n), x(n), total(x, n + 1), v, w, p);
        },
        BinOp::Min | BinOp::Max => {
            let l = choose|l: int| 0 <= l < n && v == #[trigger] x(l);
            assert(v == x(l));
            if w == v {
                assert(0 <= l < n + 1 && w == x(l));
            } else {
                assert(w == x(n));
            }
        },
        _ => {},
    }
}

proof fn lemma_fold(
    m0: Machine,
    m: Machine,
    t: ThreadId,
    pc: InstrId,
    members: Seq<ThreadId>,
    op: BinOp,
    ty: ScalarType,
    src: RegId,
    e: ExprId,
    v: i64,
    k: int,
)
    requires
        1 <= k <= members.len(),
        of_the_block(members, m0.threads.len()),
        !ty.is_float(),
        !ty.is_predicate(),
        ty.bits() < 64,
        op == BinOp::Add || op == BinOp::Min || op == BinOp::Max,
        lanes_hold_integers(m0, members, src, ty),
        m == m0.with_exprs(m.exprs),
        within(m0.exprs, m.exprs),
        spare(m, members.len() - k),
        m.exprs.as_int(e) == Some(v),
        in_type(v as int, ty),
        ty.is_signed_int() || v >= 0,
        gathers(op, ty, values_of(m0, members, src), k, v as int),
        m.redux_fold(t, pc, members, op, ty, Operand::Reg(src), Some(e), k).1 is Ok,
    ensures
        ({
            let (z, r) = m.redux_fold(t, pc, members, op, ty, Operand::Reg(src), Some(e), k);
            &&& z == m0.with_exprs(z.exprs)
            &&& within(m0.exprs, z.exprs)
            &&& r->Ok_0 matches Some(y) && z.exprs.as_int(y) matches Some(w) && in_type(
                w as int,
                ty,
            ) && gathers(
                op,
                ty,
                values_of(m0, members, src),
                members.len() as int,
                w as int,
            )
        }),
    decreases members.len() - k,
{
    if k < members.len() {
        let u = members[k];
        let f = m0.reg_value(u, src)->Scalar_0;
        let x = integer_at(m0, u, Operand::Reg(src))->0;
        assert(m.exprs.nodes[f.0 as int] == m0.exprs.nodes[f.0 as int]);
        assert(m.exprs.as_int(f) == Some(x));
        an_integer_operation_is_exact(op, ty, v, x);
        let w = int_binop(op, ty, v, x)->0;
        let node = ExprNode::IntConst(w);
        let (s, y) = m.exprs.with(node);
        lemma_within_with(m.exprs, node);
        within_is_transitive(m0.exprs, m.exprs, s);
        an_entered_node_is_found(m.exprs, node, s);
        let values = values_of(m0, members, src);
        assert(values(k) == x);
        lemma_gathers(op, ty, values, k, v as int, w as int);
        lemma_fold(m0, m.with_exprs(s), t, pc, members, op, ty, src, y, w, k + 1);
    }
}

/// `redux.sync` on concrete integers gives every lane that takes part the sum
/// of all their values, wrapped to the width of the type, or the least or the
/// greatest of them. No other register changes.
#[verifier::spinoff_prover]
pub proof fn a_reduction_gathers_every_lane(
    m: Machine,
    pc: InstrId,
    mask: u32,
    members: Seq<ThreadId>,
    op: BinOp,
    ty: ScalarType,
    dst: RegId,
    src: RegId,
)
    requires
        of_the_block(members, m.threads.len()),
        m.env.program.instructions@[pc.0 as int] matches LoweredInstr::ReduxSync {
            op: o,
            ty: y,
            dst: d,
            src: s,
            ..
        } && o == op && y == ty && d == dst && s == Operand::Reg(src),
        !ty.is_float(),
        !ty.is_predicate(),
        ty.bits() < 64,
        op == BinOp::Add || op == BinOp::Min || op == BinOp::Max,
        lanes_hold_integers(m, members, src, ty),
        spare(m, members.len() as int),
        m.warp_op(pc, mask, members).1 is Ok,
    ensures
        ({
            let z = m.warp_op(pc, mask, members).0;
            &&& exists|v: i64|
                in_type(v as int, ty) && gathers(
                    op,
                    ty,
                    values_of(m, members, src),
                    members.len() as int,
                    v as int,
                ) && #[trigger] all_hold(z, members, dst, v)
            &&& forall|u: ThreadId, reg: RegId|
                u.0 < m.threads.len() && (reg != dst || !members.contains(u))
                    ==> #[trigger] z.reg_value(u, reg) == m.reg_value(u, reg)
        }),
{
    reveal(Machine::warp_effect);
    reveal(Machine::redux_sync);
    lemma_bracketed(m, pc, mask, members);
    let t = members[0];
    let g = masked((t.0 / WARP_SIZE * WARP_SIZE) as u32, mask, m.env.n_threads);
    let m0 = m.counting_warp_sync().synced(g);
    let e = m0.reg_value(t, src)->Scalar_0;
    let v = integer_at(m0, t, Operand::Reg(src))->0;
    let o = Operand::Reg(src);
    let values = values_of(m0, members, src);
    assert(values =~= values_of(m, members, src));
    assert forall|l: int| 0 <= l < members.len() implies {
        let u = #[trigger] members[l];
        &&& m0.reg_value(u, src) is Scalar
        &&& integer_at(m0, u, o) matches Some(x) && in_type(x as int, ty) && (
        ty.is_signed_int() || x >= 0)
    } by {
        assert(m0.reg_value(members[l], src) == m.reg_value(members[l], src));
    }
    assert(gathers(op, ty, values, 1, v as int)) by {
        assert(values(0) == v);
        assert(total(values, 1) == total(values, 0) + values(0));
        lemma_pow2_pos(int_bits(ty) as nat);
        assert(0int % (pow2(int_bits(ty) as nat) as int) == 0) by {
            vstd::arithmetic::div_mod::lemma_small_mod(0, pow2(int_bits(ty) as nat));
        }
    }
    assert(m0.with_exprs(m0.exprs) =~= m0);
    lemma_fold(m0, m0, t, pc, members, op, ty, src, e, v, 1);
    let (m1, r) = m0.redux_fold(t, pc, members, op, ty, o, Some(e), 1);
    assert(m0.redux_fold(t, pc, members, op, ty, o, None, 0) == (m1, r));
    let x = r->Ok_0->0;
    lemma_broadcast(m1, t, pc, members, dst, Value::Scalar(x), 0);
    let n = m1.broadcast_value(t, pc, members, dst, Value::Scalar(x), 0).0;
    let z = m.warp_op(pc, mask, members).0;
    let w = m1.exprs.as_int(x)->0;
    assert forall|l: int| 0 <= l < members.len() implies integer_at(
        z,
        #[trigger] members[l],
        Operand::Reg(dst),
    ) == Some(w) by {
        assert(z.reg_value(members[l], dst) == n.reg_value(members[l], dst));
    }
    assert(all_hold(z, members, dst, w));
    assert forall|u: ThreadId, reg: RegId|
        u.0 < m.threads.len() && (reg != dst || !members.contains(u))
            implies #[trigger] z.reg_value(u, reg) == m.reg_value(u, reg) by {
        assert(n.reg_value(u, reg) == m1.reg_value(u, reg)) by {
            if reg == dst {
                assert forall|l: int| 0 <= l < members.len() implies #[trigger] members[l]
                    != u by {}
            }
        }
        assert(m1.reg_value(u, reg) == m.reg_value(u, reg));
    }
}

/// Whether a register of every lane holds one integer.
pub open spec fn all_hold(m: Machine, members: Seq<ThreadId>, dst: RegId, v: i64) -> bool {
    forall|l: int|
        0 <= l < members.len() ==> integer_at(m, #[trigger] members[l], Operand::Reg(dst)) == Some(
            v,
        )
}

// ---------------------------------------------------------------------------
// The maximum across a warp
// ---------------------------------------------------------------------------

/// The larger and larger of the numbers of the first `n` lanes.
pub open spec fn largest<K>(
    r: Reading<K>,
    m: Machine,
    members: Seq<ThreadId>,
    src: RegId,
    n: int,
) -> K
    decreases n,
{
    let x = (r.number)(m.reg_value(members[n - 1], src)->Scalar_0);
    if n <= 1 {
        x
    } else {
        r.larger(largest(r, m, members, src, n - 1), x)
    }
}

proof fn lemma_max_grows(
    m: Machine,
    t: ThreadId,
    pc: InstrId,
    members: Seq<ThreadId>,
    src: RegId,
    e: Option<ExprId>,
    k: int,
)
    requires
        0 <= k <= members.len(),
    ensures
        ({
            let z = m.max_fold(t, pc, members, Operand::Reg(src), e, k).0;
            m.max_fold(t, pc, members, Operand::Reg(src), e, k).1 is Ok && (forall|l: int|
                0 <= l < members.len() ==> m.reg_value(#[trigger] members[l], src) is Scalar) ==> z
                == m.with_exprs(z.exprs) && within(m.exprs, z.exprs)
        }),
    decreases members.len() - k,
{
    assert(m.with_exprs(m.exprs) =~= m);
    if k < members.len() && m.reg_value(members[k], src) is Scalar {
        let v = m.reg_value(members[k], src)->Scalar_0;
        match e {
            None => {
                lemma_max_grows(m, t, pc, members, src, Some(v), k + 1);
            },
            Some(x) => {
                let s = m.exprs.maximum(x, v).0;
                let m1 = m.with_exprs(s);
                assert(within(m.exprs, s));
                lemma_max_grows(m1, t, pc, members, src, Some(m.exprs.maximum(x, v).1), k + 1);
                let z = m.max_fold(t, pc, members, Operand::Reg(src), e, k).0;
                if m.max_fold(t, pc, members, Operand::Reg(src), e, k).1 is Ok && forall|l: int|
                    0 <= l < members.len() ==> m.reg_value(#[trigger] members[l], src) is Scalar {
                    assert forall|l: int| 0 <= l < members.len() implies m1.reg_value(
                        #[trigger] members[l],
                        src,
                    ) is Scalar by {
                        assert(m1.reg_value(members[l], src) == m.reg_value(members[l], src));
                    }
                    within_is_transitive(m.exprs, s, z.exprs);
                }
            },
        }
    }
}

proof fn lemma_max<K>(
    r: Reading<K>,
    m0: Machine,
    m: Machine,
    t: ThreadId,
    pc: InstrId,
    members: Seq<ThreadId>,
    src: RegId,
    e: ExprId,
    k: int,
    end: Exprs,
)
    requires
        1 <= k <= members.len(),
        forall|l: int|
            0 <= l < members.len() ==> m0.reg_value(#[trigger] members[l], src) is Scalar,
        forall|l: int|
            0 <= l < members.len() ==> !(m0.exprs.node(
                m0.reg_value(#[trigger] members[l], src)->Scalar_0,
            ) is IntConst) && m0.reg_value(members[l], src)->Scalar_0.0 < m0.exprs.nodes.len(),
        m == m0.with_exprs(m.exprs),
        within(m0.exprs, m.exprs),
        canonical_exprs(m.exprs),
        (r.number)(e) == largest(r, m0, members, src, k),
        m.max_fold(t, pc, members, Operand::Reg(src), Some(e), k).1 is Ok,
        end == m.max_fold(t, pc, members, Operand::Reg(src), Some(e), k).0.exprs,
        addressable(end),
        r.of(end),
    ensures
        m.max_fold(t, pc, members, Operand::Reg(src), Some(e), k).1->Ok_0 matches Some(y) && (
        r.number)(y) == largest(r, m0, members, src, members.len() as int),
    decreases members.len() - k,
{
    if k < members.len() {
        let v = m0.reg_value(members[k], src)->Scalar_0;
        assert(m.reg_value(members[k], src) == m0.reg_value(members[k], src));
        assert(m.exprs.nodes[v.0 as int] == m0.exprs.nodes[v.0 as int]);
        let (s, y) = m.exprs.maximum(e, v);
        let m1 = m.with_exprs(s);
        assert forall|l: int| 0 <= l < members.len() implies m1.reg_value(
            #[trigger] members[l],
            src,
        ) is Scalar by {
            assert(m1.reg_value(members[l], src) == m0.reg_value(members[l], src));
        }
        lemma_max_grows(m1, t, pc, members, src, Some(y), k + 1);
        a_maximum_is_the_larger(r, m.exprs, e, v, end);
        within_is_transitive(m0.exprs, m.exprs, s);
        lemma_max(r, m0, m1, t, pc, members, src, y, k + 1, end);
    }
}

/// The warp-wide real maximum gives every lane that takes part, in both halves
/// of its register, the largest of the lanes' numbers.
#[verifier::spinoff_prover]
pub proof fn a_broadcast_maximum_is_the_largest<K>(
    r: Reading<K>,
    m: Machine,
    pc: InstrId,
    mask: u32,
    members: Seq<ThreadId>,
    dst: RegId,
    src: RegId,
    l: int,
)
    requires
        of_the_block(members, m.threads.len()),
        canonical_exprs(m.exprs),
        m.env.program.instructions@[pc.0 as int] matches LoweredInstr::ReduxSyncBroadcastMax {
            dst: d,
            src: s,
            ..
        } && d == dst && s == Operand::Reg(src),
        forall|k: int|
            0 <= k < members.len() ==> m.reg_value(#[trigger] members[k], src) is Scalar,
        forall|k: int|
            0 <= k < members.len() ==> !(m.exprs.node(
                m.reg_value(#[trigger] members[k], src)->Scalar_0,
            ) is IntConst) && m.reg_value(members[k], src)->Scalar_0.0 < m.exprs.nodes.len(),
        m.warp_op(pc, mask, members).1 is Ok,
        addressable(m.warp_op(pc, mask, members).0.exprs),
        r.of(m.warp_op(pc, mask, members).0.exprs),
        0 <= l < members.len(),
    ensures
        m.warp_op(pc, mask, members).0.reg_value(members[l], dst) matches Value::Pair(x, y) && x
            == y && (r.number)(x) == largest(r, m, members, src, members.len() as int),
{
    reveal(Machine::warp_effect);
    reveal(Machine::redux_max);
    lemma_bracketed(m, pc, mask, members);
    let t = members[0];
    let g = masked((t.0 / WARP_SIZE * WARP_SIZE) as u32, mask, m.env.n_threads);
    let m0 = m.counting_warp_sync().synced(g);
    let o = Operand::Reg(src);
    assert forall|k: int| 0 <= k < members.len() implies m0.reg_value(#[trigger] members[k], src)
        == m.reg_value(members[k], src) by {}
    let e = m0.reg_value(t, src)->Scalar_0;
    assert(m0.with_exprs(m0.exprs) =~= m0);
    let (m1, q) = m0.max_fold(t, pc, members, o, Some(e), 1);
    assert(m0.max_fold(t, pc, members, o, None, 0) == (m1, q));
    lemma_max_grows(m0, t, pc, members, src, Some(e), 1);
    let x = q->Ok_0->0;
    assert(q->Ok_0 is Some);
    lemma_broadcast(m1, t, pc, members, dst, Value::Pair(x, x), 0);
    let n = m1.broadcast_value(t, pc, members, dst, Value::Pair(x, x), 0).0;
    let z = m.warp_op(pc, mask, members).0;
    assert(z.exprs == m1.exprs);
    lemma_largest(r, m, m0, members, src, 1);
    lemma_max(r, m0, m0, t, pc, members, src, e, 1, m1.exprs);
    lemma_largest(r, m, m0, members, src, members.len() as int);
    assert(z.reg_value(members[l], dst) == n.reg_value(members[l], dst));
}

proof fn lemma_largest<K>(
    r: Reading<K>,
    m: Machine,
    n: Machine,
    members: Seq<ThreadId>,
    src: RegId,
    k: int,
)
    requires
        1 <= k <= members.len(),
        forall|l: int|
            0 <= l < members.len() ==> n.reg_value(#[trigger] members[l], src) == m.reg_value(
                members[l],
                src,
            ),
    ensures
        largest(r, m, members, src, k) == largest(r, n, members, src, k),
    decreases k,
{
    assert(n.reg_value(members[k - 1], src) == m.reg_value(members[k - 1], src));
    if k > 1 {
        lemma_largest(r, m, n, members, src, k - 1);
    }
}

// ---------------------------------------------------------------------------
// Elections
// ---------------------------------------------------------------------------

/// Whether a register holds a concrete predicate.
pub open spec fn predicate_at(m: Machine, u: ThreadId, reg: RegId) -> Option<bool> {
    match m.reg_value(u, reg) {
        Value::Scalar(e) => m.exprs.as_bool(e),
        _ => None,
    }
}

proof fn lemma_elect(
    m: Machine,
    t: ThreadId,
    pc: InstrId,
    members: Seq<ThreadId>,
    dst: Option<RegId>,
    pred: RegId,
    k: int,
)
    requires
        0 <= k <= members.len(),
        of_the_block(members, m.threads.len()),
        dst != Some(pred),
        spare(m, 2 * (members.len() - k)),
        m.elect_sync(t, pc, members, dst, pred, k).1 is Ok,
    ensures
        ({
            let z = m.elect_sync(t, pc, members, dst, pred, k).0;
            &&& z.threads.len() == m.threads.len()
            &&& within(m.exprs, z.exprs)
            &&& addressable(z.exprs)
            &&& forall|l: int|
                k <= l < members.len() ==> predicate_at(z, #[trigger] members[l], pred) == Some(
                    l == 0,
                )
            &&& forall|l: int|
                0 <= l < k ==> z.reg_value(#[trigger] members[l], pred) == m.reg_value(
                    members[l],
                    pred,
                )
            &&& k == 0 ==> (dst matches Some(d) ==> integer_at(z, members[0], Operand::Reg(d))
                == Some((members[0].0 % WARP_SIZE) as i64))
            &&& k > 0 ==> (dst matches Some(d) ==> z.reg_value(members[0], d) == m.reg_value(
                members[0],
                d,
            ))
        }),
    decreases members.len() - k,
{
    reveal(Machine::elect_value);
    if k < members.len() {
        let u = members[k];
        let node = if k == 0 {
            ExprNode::IntConst((u.0 % WARP_SIZE) as i64)
        } else {
            ExprNode::Undefined
        };
        let m1 = m.elect_value(t, pc, u, dst, k == 0).0;
        lemma_within_with(m.exprs, node);
        assert(within(m.exprs, m1.exprs) && m1.exprs.nodes.len() <= m.exprs.nodes.len() + 1);
        let yes = ExprNode::BoolConst(k == 0);
        let (s, x) = m1.exprs.with(yes);
        lemma_within_with(m1.exprs, yes);
        an_entered_node_is_found(m1.exprs, yes, s);
        let m2 = m1.with_exprs(s).write_reg(u, pc, pred, Value::Scalar(x)).0;
        lemma_elect(m2, t, pc, members, dst, pred, k + 1);
        let z = m.elect_sync(t, pc, members, dst, pred, k).0;
        within_is_transitive(m.exprs, m1.exprs, s);
        within_is_transitive(m.exprs, s, z.exprs);
        assert(z.exprs.nodes[x.0 as int] == s.nodes[x.0 as int]);
        assert(predicate_at(z, u, pred) == Some(k == 0)) by {
            assert(z.reg_value(members[k], pred) == m2.reg_value(members[k], pred));
        }
        assert forall|l: int| 0 <= l < k implies z.reg_value(#[trigger] members[l], pred)
            == m.reg_value(members[l], pred) by {
            assert(members[l] != members[k]);
            assert(z.reg_value(members[l], pred) == m2.reg_value(members[l], pred));
        }
        if let Some(d) = dst {
            if k == 0 {
                an_entered_node_is_found(m.exprs, node, m1.exprs);
                let y = m.exprs.with(node).1;
                within_is_transitive(m1.exprs, s, z.exprs);
                assert(z.exprs.nodes[y.0 as int] == m1.exprs.nodes[y.0 as int]);
                assert(z.reg_value(u, d) == m2.reg_value(u, d));
                assert(m2.reg_value(u, d) == Value::Scalar(y));
            } else {
                assert(members[0] != members[k]);
            }
        }
    }
}

/// `elect.sync` elects one leader: of the lanes that take part, in ascending
/// order, the predicate is true in the first and false in every other, and the
/// leader gets its own lane number.
pub proof fn an_election_has_one_leader(
    m: Machine,
    pc: InstrId,
    mask: u32,
    members: Seq<ThreadId>,
    dst: Option<RegId>,
    pred: RegId,
)
    requires
        of_the_block(members, m.threads.len()),
        m.env.program.instructions@[pc.0 as int] matches LoweredInstr::ElectSync {
            dst: d,
            dst_pred: p,
            ..
        } && d == dst && p == pred,
        dst != Some(pred),
        spare(m, 2 * (members.len() as int)),
        m.warp_op(pc, mask, members).1 is Ok,
    ensures
        ({
            let z = m.warp_op(pc, mask, members).0;
            &&& forall|l: int|
                0 <= l < members.len() ==> predicate_at(z, #[trigger] members[l], pred) == Some(
                    l == 0,
                )
            &&& dst matches Some(d) ==> integer_at(z, members[0], Operand::Reg(d)) == Some(
                (members[0].0 % 32) as i64,
            )
        }),
{
    reveal(Machine::warp_effect);
    lemma_bracketed(m, pc, mask, members);
    let t = members[0];
    let g = masked((t.0 / WARP_SIZE * WARP_SIZE) as u32, mask, m.env.n_threads);
    let m0 = m.counting_warp_sync().synced(g);
    lemma_elect(m0, t, pc, members, dst, pred, 0);
    let n = m0.elect_sync(t, pc, members, dst, pred, 0).0;
    let z = m.warp_op(pc, mask, members).0;
    assert forall|l: int| 0 <= l < members.len() implies predicate_at(
        z,
        #[trigger] members[l],
        pred,
    ) == Some(l == 0) by {
        assert(z.reg_value(members[l], pred) == n.reg_value(members[l], pred));
    }
    if let Some(d) = dst {
        assert(z.reg_value(members[0], d) == n.reg_value(members[0], d));
    }
}

} // verus!
