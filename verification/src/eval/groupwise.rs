//! What `wgmma.mma_async` computes: each element of the result is the old
//! element, or zero, plus the inner product of a row of `A` and a column of
//! `B`, both in shared memory.

use vstd::prelude::*;

use crate::canon::coeff::Coeff;
use crate::eval::cooperative::whole_group;
use crate::eval::effects::{lemma_fused_grows, lemma_within_with, spare};
use crate::eval::exchanges::{integer_of, lemma_concrete};
use crate::eval::groups::lemma_advanced;
use crate::eval::machine::Machine;
use crate::eval::memory::{MemAccessError, read_cells};
use crate::eval::products::{Matrix, inner_product};
use crate::eval::tcgen05_mma::{Major, operand_addr};
use crate::eval::value::Value;
use crate::eval::warpgroup::GroupOperand;
use crate::eval::wgmma::spec_wgmma_matrix_descriptor;
use crate::eval::{ThreadId, WARPGROUP_SIZE};
use crate::lowered::{InstrId, LoweredInstr, Operand};
use crate::symbolic::ExprId;
use crate::symbolic::arena::{ExprNode, Exprs, canonical_node};
use crate::symbolic::meaning::{
    Reading, a_fused_product_adds_its_third_operand, addressable, an_entered_node_has_its_meaning,
    an_entered_node_is_found, canonical_exprs, within, within_is_transitive,
};
use crate::symbols::RegId;
use crate::tensor_core::{MmaShape, group_element};
use crate::types::ScalarType;

verus! {

/// Whether shared memory holds a matrix where a descriptor says: element
/// `(mn, k)` at the place of its row, or column, `mn` and depth `k`. No
/// element is a bit pattern.
#[verifier::opaque]
pub open spec fn shared_holds(
    m: Machine,
    operand: GroupOperand,
    rows: int,
    depth: int,
    e: Matrix,
) -> bool {
    forall|mn: int, k: int|
        0 <= mn < rows && 0 <= k < depth ==> {
            let x = #[trigger] e(mn, k);
            &&& operand_addr(
                operand.desc,
                operand.major,
                mn as nat,
                k as nat,
                operand.ty.size_bytes() as nat,
            ) matches Some(addr) && read_cells(m.shared, addr, operand.ty.size_bytes() as u64)
                == Ok::<Value, MemAccessError>(Value::Scalar(x))
            &&& x.0 < m.exprs.nodes.len()
            &&& !(m.exprs.node(x) is IntConst)
        }
}

/// Whether `n` comes after `m` with nothing written to shared memory.
pub open spec fn follows(m: Machine, n: Machine) -> bool {
    &&& n.shared == m.shared
    &&& n.env == m.env
    &&& n.threads.len() == m.threads.len()
    &&& within(m.exprs, n.exprs)
}

proof fn lemma_still_holds(
    m: Machine,
    n: Machine,
    operand: GroupOperand,
    rows: int,
    depth: int,
    e: Matrix,
)
    requires
        shared_holds(m, operand, rows, depth, e),
        follows(m, n),
    ensures
        shared_holds(n, operand, rows, depth, e),
{
    reveal(shared_holds);
    assert forall|mn: int, k: int| 0 <= mn < rows && 0 <= k < depth implies {
        let x = #[trigger] e(mn, k);
        &&& x.0 < n.exprs.nodes.len()
        &&& !(n.exprs.node(x) is IntConst)
    } by {
        let x = e(mn, k);
        assert(n.exprs.nodes[x.0 as int] == m.exprs.nodes[x.0 as int]);
    }
}

/// Reading an element gives the element and marks the access, nothing more.
proof fn lemma_operand(
    m: Machine,
    t: ThreadId,
    pc: InstrId,
    u: ThreadId,
    operand: GroupOperand,
    rows: int,
    depth: int,
    e: Matrix,
    mn: u64,
    k: u64,
)
    requires
        shared_holds(m, operand, rows, depth, e),
        mn < rows,
        k < depth,
        m.group_operand(t, pc, u, operand, mn, k).1 is Ok,
    ensures
        ({
            let (n, x) = m.group_operand(t, pc, u, operand, mn, k);
            &&& x->Ok_0 == e(mn as int, k as int)
            &&& n == (Machine { race: n.race, ..m })
        }),
{
    reveal(shared_holds);
    reveal(Machine::group_operand);
    reveal(Machine::mem_read_via);
    let x = e(mn as int, k as int);
    let n = m.group_operand(t, pc, u, operand, mn, k).0;
    assert(n =~= (Machine { race: n.race, ..m }));
}

// ---------------------------------------------------------------------------
// One element
// ---------------------------------------------------------------------------

proof fn lemma_dot_grows(
    m: Machine,
    t: ThreadId,
    pc: InstrId,
    u: ThreadId,
    a: GroupOperand,
    b: GroupOperand,
    x: Matrix,
    y: Matrix,
    row: u32,
    col: u32,
    rows: int,
    cols: int,
    depth: u32,
    sum: ExprId,
    k: int,
)
    requires
        0 <= k <= depth,
        row < rows,
        col < cols,
        shared_holds(m, a, rows, depth as int, x),
        shared_holds(m, b, cols, depth as int, y),
        m.group_dot(t, pc, u, a, b, row, col, depth, sum, k).1 is Ok,
    ensures
        ({
            let n = m.group_dot(t, pc, u, a, b, row, col, depth, sum, k).0;
            &&& n == (Machine { race: n.race, exprs: n.exprs, ..m })
            &&& within(m.exprs, n.exprs)
        }),
    decreases depth - k,
{
    if k < depth {
        lemma_operand(m, t, pc, u, a, rows, depth as int, x, row as u64, k as u64);
        let m1 = m.group_operand(t, pc, u, a, row as u64, k as u64).0;
        lemma_still_holds(m, m1, b, cols, depth as int, y);
        lemma_operand(m1, t, pc, u, b, cols, depth as int, y, col as u64, k as u64);
        let m2 = m1.group_operand(t, pc, u, b, col as u64, k as u64).0;
        let (e, f) = (x(row as int, k), y(col as int, k));
        let (s, z) = m2.exprs.fused(e, f, sum);
        lemma_fused_grows(m2.exprs, e, f, sum);
        let m3 = m2.with_exprs(s);
        lemma_still_holds(m, m3, a, rows, depth as int, x);
        lemma_still_holds(m, m3, b, cols, depth as int, y);
        lemma_dot_grows(m3, t, pc, u, a, b, x, y, row, col, rows, cols, depth, z, k + 1);
        let n = m.group_dot(t, pc, u, a, b, row, col, depth, sum, k).0;
        within_is_transitive(m.exprs, s, n.exprs);
    }
}

/// The value of an element: what it started from plus the products from the
/// `k`-th on. The columns of `B` are its rows in memory.
proof fn lemma_dot<K>(
    r: Reading<K>,
    m: Machine,
    t: ThreadId,
    pc: InstrId,
    u: ThreadId,
    a: GroupOperand,
    b: GroupOperand,
    x: Matrix,
    y: Matrix,
    row: u32,
    col: u32,
    rows: int,
    cols: int,
    depth: u32,
    sum: ExprId,
    k: int,
    seed: K,
    end: Exprs,
)
    requires
        0 <= k <= depth,
        row < rows,
        col < cols,
        canonical_exprs(m.exprs),
        shared_holds(m, a, rows, depth as int, x),
        shared_holds(m, b, cols, depth as int, y),
        (r.number)(sum) == r.plus(
            seed,
            inner_product(r, x, turned(y), row as int, col as int, k),
        ),
        m.group_dot(t, pc, u, a, b, row, col, depth, sum, k).1 is Ok,
        within(m.group_dot(t, pc, u, a, b, row, col, depth, sum, k).0.exprs, end),
        addressable(end),
        r.of(end),
    ensures
        ({
            let (n, e) = m.group_dot(t, pc, u, a, b, row, col, depth, sum, k);
            &&& (r.number)(e->Ok_0) == r.plus(
                seed,
                inner_product(r, x, turned(y), row as int, col as int, depth as int),
            )
            &&& canonical_exprs(n.exprs)
        }),
    decreases depth - k,
{
    if k < depth {
        lemma_operand(m, t, pc, u, a, rows, depth as int, x, row as u64, k as u64);
        let m1 = m.group_operand(t, pc, u, a, row as u64, k as u64).0;
        lemma_still_holds(m, m1, b, cols, depth as int, y);
        lemma_operand(m1, t, pc, u, b, cols, depth as int, y, col as u64, k as u64);
        let m2 = m1.group_operand(t, pc, u, b, col as u64, k as u64).0;
        let (e, f) = (x(row as int, k), y(col as int, k));
        let (s, z) = m2.exprs.fused(e, f, sum);
        lemma_fused_grows(m2.exprs, e, f, sum);
        let m3 = m2.with_exprs(s);
        lemma_still_holds(m, m3, a, rows, depth as int, x);
        lemma_still_holds(m, m3, b, cols, depth as int, y);
        lemma_dot_grows(m3, t, pc, u, a, b, x, y, row, col, rows, cols, depth, z, k + 1);
        let n = m.group_dot(t, pc, u, a, b, row, col, depth, sum, k).0;
        within_is_transitive(s, n.exprs, end);
        a_fused_product_adds_its_third_operand(r, m2.exprs, e, f, sum, end);
        let p = inner_product(r, x, turned(y), row as int, col as int, k);
        let q = r.times((r.number)(e), (r.number)(f));
        assert(r.lawful()) by {
            reveal(Reading::of);
        }
        r.k.plus_commutes(q, r.plus(seed, p));
        r.k.plus_associates(seed, p, q);
        assert(turned(y)(k, col as int) == f);
        lemma_dot(
            r,
            m3,
            t,
            pc,
            u,
            a,
            b,
            x,
            y,
            row,
            col,
            rows,
            cols,
            depth,
            z,
            k + 1,
            seed,
            end,
        );
    }
}

/// The transpose of a matrix.
pub open spec fn turned(y: Matrix) -> Matrix {
    |k: int, j: int| y(j, k)
}

// ---------------------------------------------------------------------------
// One lane
// ---------------------------------------------------------------------------

/// Where the accumulation in a register starts.
pub open spec fn start<K>(
    r: Reading<K>,
    m: Machine,
    u: ThreadId,
    reg: RegId,
    accumulate: bool,
) -> K {
    if accumulate {
        (r.number)(m.reg_value(u, reg)->Scalar_0)
    } else {
        r.k.zero
    }
}

proof fn lemma_seed(
    m: Machine,
    t: ThreadId,
    pc: InstrId,
    u: ThreadId,
    reg: RegId,
    shape: MmaShape,
    accumulate: bool,
)
    requires
        m.group_seed(t, pc, u, reg, shape, accumulate).1 is Ok,
    ensures
        ({
            let (n, e) = m.group_seed(t, pc, u, reg, shape, accumulate);
            &&& n == m.with_exprs(n.exprs)
            &&& within(m.exprs, n.exprs)
            &&& accumulate ==> m.reg_value(u, reg) == Value::Scalar(e->Ok_0)
        }),
{
    reveal(Machine::group_seed);
    assert(m.with_exprs(m.exprs) =~= m);
    lemma_within_with(m.exprs, ExprNode::RealConst(Coeff::spec_zero()));
}

proof fn lemma_seed_number<K>(
    r: Reading<K>,
    m: Machine,
    t: ThreadId,
    pc: InstrId,
    u: ThreadId,
    reg: RegId,
    shape: MmaShape,
    accumulate: bool,
    end: Exprs,
)
    requires
        canonical_exprs(m.exprs),
        m.group_seed(t, pc, u, reg, shape, accumulate).1 is Ok,
        within(m.group_seed(t, pc, u, reg, shape, accumulate).0.exprs, end),
        addressable(end),
        r.of(end),
    ensures
        ({
            let (n, e) = m.group_seed(t, pc, u, reg, shape, accumulate);
            &&& (r.number)(e->Ok_0) == start(r, m, u, reg, accumulate)
            &&& canonical_exprs(n.exprs)
        }),
{
    lemma_seed(m, t, pc, u, reg, shape, accumulate);
    reveal(Machine::group_seed);
    if !accumulate {
        let zero = ExprNode::RealConst(Coeff::spec_zero());
        assert(canonical_node(zero));
        an_entered_node_is_found(m.exprs, zero, end);
        an_entered_node_has_its_meaning(r, m.exprs, zero, end);
        reveal(Reading::of);
        reveal(crate::symbolic::readings::Numbers::lawful);
    }
}

/// Whether, from `m` to `n`, registers other than those of a thread that a
/// list names are as they were.
pub open spec fn spares_others(
    m: Machine,
    n: Machine,
    u: ThreadId,
    dst: Seq<RegId>,
    from: int,
) -> bool {
    &&& follows(m, n)
    &&& forall|v: ThreadId, reg: RegId|
        v.0 < m.threads.len() && v != u ==> #[trigger] n.reg_value(v, reg) == m.reg_value(v, reg)
    &&& forall|reg: RegId|
        !dst.contains(reg) ==> #[trigger] n.reg_value(u, reg) == m.reg_value(u, reg)
    &&& forall|p: int|
        0 <= p < from && p < dst.len() ==> n.reg_value(u, #[trigger] dst[p]) == m.reg_value(
            u,
            dst[p],
        )
}

/// The machine after element `i` of a lane.
spec fn after_element(
    m: Machine,
    t: ThreadId,
    pc: InstrId,
    u: ThreadId,
    shape: MmaShape,
    dst: Seq<RegId>,
    a: GroupOperand,
    b: GroupOperand,
    accumulate: bool,
    i: int,
) -> Machine {
    let elem = group_element((u.0 % WARPGROUP_SIZE) as u32, i as u32);
    let (m1, seed) = m.group_seed(t, pc, u, dst[i], shape, accumulate);
    let (m2, x) = m1.group_dot(t, pc, u, a, b, elem.row, elem.col, shape.k, seed->Ok_0, 0);
    m2.write_accum(u, pc, dst[i], shape, Value::Scalar(x->Ok_0)).0
}

proof fn lemma_element(
    m: Machine,
    t: ThreadId,
    pc: InstrId,
    u: ThreadId,
    shape: MmaShape,
    dst: Seq<RegId>,
    a: GroupOperand,
    b: GroupOperand,
    x: Matrix,
    y: Matrix,
    accumulate: bool,
    i: int,
)
    requires
        u.0 < m.threads.len(),
        0 <= i < shape.n / 2,
        shape.n % 8 == 0,
        dst.no_duplicates(),
        shared_holds(m, a, 64, shape.k as int, x),
        shared_holds(m, b, shape.n as int, shape.k as int, y),
        m.group_lane(t, pc, u, shape, dst, a, b, accumulate, i).1 is Ok,
    ensures
        ({
            let m3 = after_element(m, t, pc, u, shape, dst, a, b, accumulate, i);
            &&& i < dst.len()
            &&& m.group_lane(t, pc, u, shape, dst, a, b, accumulate, i) == m3.group_lane(
                t,
                pc,
                u,
                shape,
                dst,
                a,
                b,
                accumulate,
                i + 1,
            )
            &&& spares_others(m, m3, u, dst, i)
            &&& forall|p: int|
                i < p < dst.len() ==> m3.reg_value(u, #[trigger] dst[p]) == m.reg_value(u, dst[p])
            &&& shared_holds(m3, a, 64, shape.k as int, x)
            &&& shared_holds(m3, b, shape.n as int, shape.k as int, y)
        }),
{
    let elem = group_element((u.0 % WARPGROUP_SIZE) as u32, i as u32);
    lemma_place((u.0 % WARPGROUP_SIZE) as u32, i as u32, shape.n);
    let (m1, seed) = m.group_seed(t, pc, u, dst[i], shape, accumulate);
    lemma_seed(m, t, pc, u, dst[i], shape, accumulate);
    lemma_still_holds(m, m1, a, 64, shape.k as int, x);
    lemma_still_holds(m, m1, b, shape.n as int, shape.k as int, y);
    lemma_dot_grows(
        m1,
        t,
        pc,
        u,
        a,
        b,
        x,
        y,
        elem.row,
        elem.col,
        64,
        shape.n as int,
        shape.k,
        seed->Ok_0,
        0,
    );
    let m2 = m1.group_dot(t, pc, u, a, b, elem.row, elem.col, shape.k, seed->Ok_0, 0).0;
    within_is_transitive(m.exprs, m1.exprs, m2.exprs);
    let m3 = after_element(m, t, pc, u, shape, dst, a, b, accumulate, i);
    assert(follows(m, m3));
    lemma_still_holds(m, m3, a, 64, shape.k as int, x);
    lemma_still_holds(m, m3, b, shape.n as int, shape.k as int, y);
    assert forall|v: ThreadId, reg: RegId|
        v.0 < m.threads.len() && (v != u || reg != dst[i])
            implies #[trigger] m3.reg_value(v, reg) == m.reg_value(v, reg) by {}
}

/// The element of a lane lies in the result.
proof fn lemma_place(lane: u32, i: u32, n: u32)
    requires
        lane < 128,
        n % 8 == 0,
        i < n / 2,
    ensures
        group_element(lane, i).row < 64,
        group_element(lane, i).col < n,
{
    let (l, k) = (lane as int, i as int);
    assert(k / 4 < n / 8);
    assert(8 * (k / 4) + l % 4 * 2 + k % 2 < n);
}

#[verifier::spinoff_prover]
proof fn lemma_lane_grows(
    m: Machine,
    t: ThreadId,
    pc: InstrId,
    u: ThreadId,
    shape: MmaShape,
    dst: Seq<RegId>,
    a: GroupOperand,
    b: GroupOperand,
    x: Matrix,
    y: Matrix,
    accumulate: bool,
    i: int,
)
    requires
        u.0 < m.threads.len(),
        0 <= i <= shape.n / 2,
        shape.n % 8 == 0,
        dst.no_duplicates(),
        shared_holds(m, a, 64, shape.k as int, x),
        shared_holds(m, b, shape.n as int, shape.k as int, y),
        m.group_lane(t, pc, u, shape, dst, a, b, accumulate, i).1 is Ok,
    ensures
        spares_others(
            m,
            m.group_lane(t, pc, u, shape, dst, a, b, accumulate, i).0,
            u,
            dst,
            i,
        ),
    decreases shape.n / 2 - i,
{
    if i < shape.n / 2 {
        lemma_element(m, t, pc, u, shape, dst, a, b, x, y, accumulate, i);
        let m3 = after_element(m, t, pc, u, shape, dst, a, b, accumulate, i);
        lemma_lane_grows(m3, t, pc, u, shape, dst, a, b, x, y, accumulate, i + 1);
        let n = m.group_lane(t, pc, u, shape, dst, a, b, accumulate, i).0;
        within_is_transitive(m.exprs, m3.exprs, n.exprs);
        assert forall|v: ThreadId, reg: RegId|
            v.0 < m.threads.len() && v != u implies #[trigger] n.reg_value(v, reg) == m.reg_value(
            v,
            reg,
        ) by {
            assert(n.reg_value(v, reg) == m3.reg_value(v, reg));
        }
        assert forall|reg: RegId| !dst.contains(reg) implies #[trigger] n.reg_value(u, reg)
            == m.reg_value(u, reg) by {
            assert(n.reg_value(u, reg) == m3.reg_value(u, reg));
        }
        assert forall|p: int| 0 <= p < i && p < dst.len() implies n.reg_value(u, #[trigger] dst[p])
            == m.reg_value(u, dst[p]) by {
            assert(n.reg_value(u, dst[p]) == m3.reg_value(u, dst[p]));
        }
    }
}

/// Whether a register holds an element of the result.
pub open spec fn is_element<K>(
    r: Reading<K>,
    v: Value,
    seed: K,
    x: Matrix,
    y: Matrix,
    row: int,
    col: int,
    depth: int,
) -> bool {
    v matches Value::Scalar(e) && (r.number)(e) == r.plus(
        seed,
        inner_product(r, x, turned(y), row, col, depth),
    )
}

#[verifier::spinoff_prover]
proof fn lemma_lane<K>(
    r: Reading<K>,
    m: Machine,
    t: ThreadId,
    pc: InstrId,
    u: ThreadId,
    shape: MmaShape,
    dst: Seq<RegId>,
    a: GroupOperand,
    b: GroupOperand,
    x: Matrix,
    y: Matrix,
    accumulate: bool,
    i: int,
    end: Exprs,
)
    requires
        u.0 < m.threads.len(),
        0 <= i <= shape.n / 2,
        shape.n % 8 == 0,
        dst.no_duplicates(),
        canonical_exprs(m.exprs),
        shared_holds(m, a, 64, shape.k as int, x),
        shared_holds(m, b, shape.n as int, shape.k as int, y),
        m.group_lane(t, pc, u, shape, dst, a, b, accumulate, i).1 is Ok,
        within(m.group_lane(t, pc, u, shape, dst, a, b, accumulate, i).0.exprs, end),
        addressable(end),
        r.of(end),
    ensures
        ({
            let n = m.group_lane(t, pc, u, shape, dst, a, b, accumulate, i).0;
            &&& canonical_exprs(n.exprs)
            &&& forall|q: int|
                i <= q < shape.n / 2 ==> {
                    let elem = #[trigger] group_element((u.0 % WARPGROUP_SIZE) as u32, q as u32);
                    is_element(
                        r,
                        n.reg_value(u, dst[q]),
                        start(r, m, u, dst[q], accumulate),
                        x,
                        y,
                        elem.row as int,
                        elem.col as int,
                        shape.k as int,
                    )
                }
        }),
    decreases shape.n / 2 - i,
{
    if i < shape.n / 2 {
        lemma_element(m, t, pc, u, shape, dst, a, b, x, y, accumulate, i);
        let m3 = after_element(m, t, pc, u, shape, dst, a, b, accumulate, i);
        let n = m.group_lane(t, pc, u, shape, dst, a, b, accumulate, i).0;
        lemma_lane_grows(m3, t, pc, u, shape, dst, a, b, x, y, accumulate, i + 1);
        within_is_transitive(m3.exprs, n.exprs, end);
        let elem = group_element((u.0 % WARPGROUP_SIZE) as u32, i as u32);
        lemma_place((u.0 % WARPGROUP_SIZE) as u32, i as u32, shape.n);
        let (m1, seed) = m.group_seed(t, pc, u, dst[i], shape, accumulate);
        lemma_seed(m, t, pc, u, dst[i], shape, accumulate);
        lemma_still_holds(m, m1, a, 64, shape.k as int, x);
        lemma_still_holds(m, m1, b, shape.n as int, shape.k as int, y);
        let (m2, z) = m1.group_dot(t, pc, u, a, b, elem.row, elem.col, shape.k, seed->Ok_0, 0);
        lemma_dot_grows(
            m1,
            t,
            pc,
            u,
            a,
            b,
            x,
            y,
            elem.row,
            elem.col,
            64,
            shape.n as int,
            shape.k,
            seed->Ok_0,
            0,
        );
        within_is_transitive(m1.exprs, m2.exprs, end);
        lemma_seed_number(r, m, t, pc, u, dst[i], shape, accumulate, end);
        assert(r.lawful()) by {
            reveal(Reading::of);
        }
        let from = start(r, m, u, dst[i], accumulate);
        r.k.plus_zero(from);
        lemma_dot(
            r,
            m1,
            t,
            pc,
            u,
            a,
            b,
            x,
            y,
            elem.row,
            elem.col,
            64,
            shape.n as int,
            shape.k,
            seed->Ok_0,
            0,
            from,
            end,
        );
        lemma_lane(r, m3, t, pc, u, shape, dst, a, b, x, y, accumulate, i + 1, end);
        assert(n.reg_value(u, dst[i]) == m3.reg_value(u, dst[i]));
        assert(m3.reg_value(u, dst[i]) == Value::Scalar(z->Ok_0));
        assert forall|q: int| i <= q < shape.n / 2 implies {
            let elem = #[trigger] group_element((u.0 % WARPGROUP_SIZE) as u32, q as u32);
            is_element(
                r,
                n.reg_value(u, dst[q]),
                start(r, m, u, dst[q], accumulate),
                x,
                y,
                elem.row as int,
                elem.col as int,
                shape.k as int,
            )
        } by {
            if q > i {
                lemma_enough_registers(m3, t, pc, u, shape, dst, a, b, accumulate, i + 1);
                assert(m3.reg_value(u, dst[q]) == m.reg_value(u, dst[q]));
            }
        }
    }
}

/// A lane that succeeds has a register for every element.
proof fn lemma_enough_registers(
    m: Machine,
    t: ThreadId,
    pc: InstrId,
    u: ThreadId,
    shape: MmaShape,
    dst: Seq<RegId>,
    a: GroupOperand,
    b: GroupOperand,
    accumulate: bool,
    i: int,
)
    requires
        0 <= i <= shape.n / 2,
        m.group_lane(t, pc, u, shape, dst, a, b, accumulate, i).1 is Ok,
    ensures
        i < shape.n / 2 ==> shape.n / 2 <= dst.len(),
    decreases shape.n / 2 - i,
{
    if i < shape.n / 2 {
        let m3 = after_element(m, t, pc, u, shape, dst, a, b, accumulate, i);
        assert(m.group_lane(t, pc, u, shape, dst, a, b, accumulate, i) == m3.group_lane(
            t,
            pc,
            u,
            shape,
            dst,
            a,
            b,
            accumulate,
            i + 1,
        ));
        lemma_enough_registers(m3, t, pc, u, shape, dst, a, b, accumulate, i + 1);
    }
}

// ---------------------------------------------------------------------------
// The warpgroup
// ---------------------------------------------------------------------------

/// Whether registers other than the destinations of the members from the
/// `k`-th on are as they were.
spec fn spares(m: Machine, n: Machine, members: Seq<ThreadId>, dst: Seq<RegId>, k: int) -> bool {
    &&& follows(m, n)
    &&& forall|v: ThreadId, reg: RegId|
        v.0 < m.threads.len() && (!dst.contains(reg) || forall|l: int|
            k <= l < members.len() ==> #[trigger] members[l] != v)
            ==> #[trigger] n.reg_value(v, reg) == m.reg_value(v, reg)
}

#[verifier::spinoff_prover]
proof fn lemma_lanes_grow(
    m: Machine,
    t: ThreadId,
    pc: InstrId,
    members: Seq<ThreadId>,
    shape: MmaShape,
    dst: Seq<RegId>,
    a: GroupOperand,
    b: GroupOperand,
    x: Matrix,
    y: Matrix,
    accumulate: bool,
    k: int,
)
    requires
        0 <= k <= members.len(),
        forall|l: int| 0 <= l < members.len() ==> (#[trigger] members[l]).0 < m.threads.len(),
        shape.n % 8 == 0,
        dst.no_duplicates(),
        shared_holds(m, a, 64, shape.k as int, x),
        shared_holds(m, b, shape.n as int, shape.k as int, y),
        m.group_lanes(t, pc, members, shape, dst, a, b, accumulate, k).1 is Ok,
    ensures
        spares(
            m,
            m.group_lanes(t, pc, members, shape, dst, a, b, accumulate, k).0,
            members,
            dst,
            k,
        ),
    decreases members.len() - k,
{
    if k < members.len() {
        let u = members[k];
        let m1 = m.group_lane(t, pc, u, shape, dst, a, b, accumulate, 0).0;
        lemma_lane_grows(m, t, pc, u, shape, dst, a, b, x, y, accumulate, 0);
        lemma_still_holds(m, m1, a, 64, shape.k as int, x);
        lemma_still_holds(m, m1, b, shape.n as int, shape.k as int, y);
        lemma_lanes_grow(m1, t, pc, members, shape, dst, a, b, x, y, accumulate, k + 1);
        let n = m.group_lanes(t, pc, members, shape, dst, a, b, accumulate, k).0;
        within_is_transitive(m.exprs, m1.exprs, n.exprs);
        assert forall|v: ThreadId, reg: RegId|
            v.0 < m.threads.len() && (!dst.contains(reg) || forall|l: int|
                k <= l < members.len() ==> #[trigger] members[l] != v)
                implies #[trigger] n.reg_value(v, reg) == m.reg_value(v, reg) by {
            assert(n.reg_value(v, reg) == m1.reg_value(v, reg));
            if v == u {
                assert(members[k] == v);
            }
        }
    }
}

#[verifier::spinoff_prover]
proof fn lemma_lanes<K>(
    r: Reading<K>,
    m: Machine,
    t: ThreadId,
    pc: InstrId,
    members: Seq<ThreadId>,
    shape: MmaShape,
    dst: Seq<RegId>,
    a: GroupOperand,
    b: GroupOperand,
    x: Matrix,
    y: Matrix,
    accumulate: bool,
    k: int,
    l: int,
    q: int,
    end: Exprs,
)
    requires
        0 <= k <= l < members.len(),
        0 <= q < shape.n / 2,
        forall|l: int| 0 <= l < members.len() ==> (#[trigger] members[l]).0 < m.threads.len(),
        forall|o: int, p: int|
            0 <= o < p < members.len() ==> #[trigger] members[o] != #[trigger] members[p],
        shape.n % 8 == 0,
        dst.no_duplicates(),
        canonical_exprs(m.exprs),
        shared_holds(m, a, 64, shape.k as int, x),
        shared_holds(m, b, shape.n as int, shape.k as int, y),
        m.group_lanes(t, pc, members, shape, dst, a, b, accumulate, k).1 is Ok,
        within(m.group_lanes(t, pc, members, shape, dst, a, b, accumulate, k).0.exprs, end),
        addressable(end),
        r.of(end),
    ensures
        ({
            let n = m.group_lanes(t, pc, members, shape, dst, a, b, accumulate, k).0;
            let elem = group_element((members[l].0 % WARPGROUP_SIZE) as u32, q as u32);
            is_element(
                r,
                n.reg_value(members[l], dst[q]),
                start(r, m, members[l], dst[q], accumulate),
                x,
                y,
                elem.row as int,
                elem.col as int,
                shape.k as int,
            )
        }),
    decreases members.len() - k,
{
    let u = members[k];
    let m1 = m.group_lane(t, pc, u, shape, dst, a, b, accumulate, 0).0;
    lemma_lane_grows(m, t, pc, u, shape, dst, a, b, x, y, accumulate, 0);
    lemma_still_holds(m, m1, a, 64, shape.k as int, x);
    lemma_still_holds(m, m1, b, shape.n as int, shape.k as int, y);
    lemma_lanes_grow(m1, t, pc, members, shape, dst, a, b, x, y, accumulate, k + 1);
    let n = m.group_lanes(t, pc, members, shape, dst, a, b, accumulate, k).0;
    within_is_transitive(m1.exprs, n.exprs, end);
    lemma_lane(r, m, t, pc, u, shape, dst, a, b, x, y, accumulate, 0, end);
    if l == k {
        assert forall|p: int| k + 1 <= p < members.len() implies #[trigger] members[p] != u by {
            assert(members[k] != members[p]);
        }
        assert(n.reg_value(u, dst[q]) == m1.reg_value(u, dst[q]));
        let elem = group_element((u.0 % WARPGROUP_SIZE) as u32, q as u32);
    } else {
        assert(members[k] != members[l]);
        assert(m1.reg_value(members[l], dst[q]) == m.reg_value(members[l], dst[q]));
        lemma_lanes(r, m1, t, pc, members, shape, dst, a, b, x, y, accumulate, k + 1, l, q, end);
    }
}

/// The common value of an operand.
pub(crate) proof fn lemma_uniform(
    m: Machine,
    t: ThreadId,
    pc: InstrId,
    members: Seq<ThreadId>,
    op: Operand,
    what: &'static str,
    first: Option<i64>,
    k: int,
    v: i64,
)
    requires
        0 <= k <= members.len(),
        shared_integer(m, members, op, v),
        first matches Some(x) ==> x == v,
        k == members.len() ==> first is Some,
        spare(m, members.len() - k),
        m.uniform(t, pc, members, op, what, first, k).1 is Ok,
    ensures
        ({
            let (n, x) = m.uniform(t, pc, members, op, what, first, k);
            &&& n == m.with_exprs(n.exprs)
            &&& within(m.exprs, n.exprs)
            &&& n.exprs.nodes.len() <= m.exprs.nodes.len() + (members.len() - k)
            &&& canonical_exprs(m.exprs) ==> canonical_exprs(n.exprs)
            &&& x->Ok_0 == Some(v)
        }),
    decreases members.len() - k,
{
    assert(m.with_exprs(m.exprs) =~= m);
    if k < members.len() {
        lemma_concrete(m, members[k], pc, op, what);
        let m1 = m.concrete_operand(members[k], pc, op, what).0;
        lemma_shared_integer(m, m1, members, op, v);
        lemma_uniform(m1, t, pc, members, op, what, Some(v), k + 1, v);
        let n = m.uniform(t, pc, members, op, what, first, k).0;
        within_is_transitive(m.exprs, m1.exprs, n.exprs);
    }
}

/// Whether the members of a group are all lanes of a warpgroup, in order.
pub open spec fn whole_warpgroup(members: Seq<ThreadId>, base: int, n: nat) -> bool {
    &&& 0 <= base
    &&& base % 128 == 0
    &&& base + 128 <= n
    &&& n <= u32::MAX
    &&& members.len() == 128
    &&& forall|l: int| 0 <= l < 128 ==> #[trigger] members[l] == ThreadId((base + l) as u32)
}

/// Whether an operand is the same concrete integer on every lane.
pub open spec fn shared_integer(
    m: Machine,
    members: Seq<ThreadId>,
    op: Operand,
    v: i64,
) -> bool {
    forall|l: int| 0 <= l < members.len() ==> integer_of(m, #[trigger] members[l], op) == Some(v)
}

/// An operand that a descriptor describes: rows of `K` next to one another,
/// or, transposed, columns.
pub open spec fn described(raw: i64, transposed: bool, ty: ScalarType) -> GroupOperand {
    GroupOperand {
        desc: spec_wgmma_matrix_descriptor(raw as u64),
        major: if transposed {
            Major::Mn
        } else {
            Major::K
        },
        ty,
    }
}

proof fn lemma_home(i: int, j: int, n: int)
    requires
        0 <= i < 64,
        0 <= j < n,
        n % 8 == 0,
        n <= 256,
    ensures
        ({
            let l = 32 * (i / 16) + 4 * (i % 8) + j % 8 / 2;
            let q = 4 * (j / 8) + 2 * (i % 16 / 8) + j % 2;
            let e = group_element(l as u32, q as u32);
            &&& 0 <= l < 128
            &&& 0 <= q < n / 2
            &&& e.row == i
            &&& e.col == j
        }),
{
    let (w, x, h) = (i / 16, i % 8, i % 16 / 8);
    let (c, y, z) = (j / 8, j % 8 / 2, j % 2);
    assert(i == 16 * w + 8 * h + x && 0 <= w < 4 && 0 <= h < 2 && 0 <= x < 8);
    assert(j == 8 * c + 2 * y + z && 0 <= y < 4 && 0 <= z < 2);
    let l = 32 * w + 4 * x + y;
    let q = 4 * c + 2 * h + z;
    assert(l / 32 == w && l % 32 == 4 * x + y && l % 4 == y);
    assert(l % 32 / 4 == x);
    assert(q / 4 == c && q / 2 == 2 * c + h && q % 2 == z);
    assert((2 * c + h) % 2 == h);
    assert(c < n / 8);
}

/// What a warpgroup operation leaves of its effect.
proof fn lemma_group_bracketed(m: Machine, pc: InstrId, members: Seq<ThreadId>)
    requires
        members.len() > 0,
        forall|l: int| 0 <= l < members.len() ==> (#[trigger] members[l]).0 < m.threads.len(),
        m.warpgroup_op(pc, members).1 is Ok,
    ensures
        ({
            let z = m.warpgroup_op(pc, members).0;
            let t = members[0];
            let g = whole_group(
                (t.0 / WARPGROUP_SIZE * WARPGROUP_SIZE) as u32,
                m.env.n_threads,
            );
            let m0 = m.counting_warp_sync().synced(g);
            let instr = m.env.program.instructions@[pc.0 as int];
            let (n, f) = m0.group_effect(t, pc, instr, members);
            &&& f is Ok
            &&& n.threads.len() == m.threads.len() ==> z.exprs == n.exprs && forall|
                u: ThreadId,
                reg: RegId,
            |
                u.0 < m.threads.len() && n.env == m.env ==> #[trigger] z.reg_value(u, reg)
                    == n.reg_value(u, reg)
            &&& m0.exprs == m.exprs
            &&& m0.threads == m.threads
            &&& m0.env == m.env
            &&& m0.shared == m.shared
        }),
{
    let t = members[0];
    let g = whole_group((t.0 / WARPGROUP_SIZE * WARPGROUP_SIZE) as u32, m.env.n_threads);
    let m0 = m.counting_warp_sync().synced(g);
    let instr = m.env.program.instructions@[pc.0 as int];
    let (n, f) = m0.group_effect(t, pc, instr, members);
    if n.threads.len() == m.threads.len() {
        lemma_advanced(n.synced(g), members, 0);
        let z = m.warpgroup_op(pc, members).0;
        assert(z == n.synced(g).all_advanced(members, 0));
        assert forall|u: ThreadId, reg: RegId|
            u.0 < m.threads.len() && n.env == m.env implies #[trigger] z.reg_value(u, reg)
            == n.reg_value(u, reg) by {
            assert(z.threads[u.0 as int].regs == n.threads[u.0 as int].regs);
        }
    }
}

/// The machine after the operands of the instruction were read.
#[verifier::spinoff_prover]
proof fn lemma_wgmma(
    m: Machine,
    t: ThreadId,
    pc: InstrId,
    members: Seq<ThreadId>,
    shape: MmaShape,
    dst: Seq<RegId>,
    descs: (Operand, Operand),
    scale_d: Operand,
    types: (ScalarType, ScalarType),
    transposed: (bool, bool),
    da: i64,
    db: i64,
    scale: i64,
) -> (n: Machine)
    requires
        members.len() == 128,
        spare(m, 384),
        shared_integer(m, members, descs.0, da),
        shared_integer(m, members, descs.1, db),
        shared_integer(m, members, scale_d, scale),
        m.wgmma_mma(t, pc, members, shape, dst, descs, scale_d, types, transposed).1 is Ok,
    ensures
        n == m.with_exprs(n.exprs),
        within(m.exprs, n.exprs),
        canonical_exprs(m.exprs) ==> canonical_exprs(n.exprs),
        m.wgmma_mma(t, pc, members, shape, dst, descs, scale_d, types, transposed)
            == n.group_lanes(
            t,
            pc,
            members,
            shape,
            dst,
            described(da, transposed.0, types.0),
            described(db, transposed.1, types.1),
            scale != 0,
            0,
        ),
{
    reveal(Machine::wgmma_mma);
    reveal(Machine::uniform_concrete);
    let wa = "wgmma.mma_async a-desc";
    let wb = "wgmma.mma_async b-desc";
    let ws = "wgmma.mma_async scale-d";
    lemma_uniform(m, t, pc, members, descs.0, wa, None, 0, da);
    let m1 = m.uniform(t, pc, members, descs.0, wa, None, 0).0;
    lemma_shared_integer(m, m1, members, descs.1, db);
    lemma_shared_integer(m, m1, members, scale_d, scale);
    lemma_uniform(m1, t, pc, members, descs.1, wb, None, 0, db);
    let m2 = m1.uniform(t, pc, members, descs.1, wb, None, 0).0;
    lemma_shared_integer(m1, m2, members, scale_d, scale);
    lemma_uniform(m2, t, pc, members, scale_d, ws, None, 0, scale);
    let m3 = m2.uniform(t, pc, members, scale_d, ws, None, 0).0;
    within_is_transitive(m.exprs, m1.exprs, m2.exprs);
    within_is_transitive(m.exprs, m2.exprs, m3.exprs);
    m3
}

proof fn lemma_shared_integer(
    m: Machine,
    n: Machine,
    members: Seq<ThreadId>,
    op: Operand,
    v: i64,
)
    requires
        shared_integer(m, members, op, v),
        n == m.with_exprs(n.exprs),
        within(m.exprs, n.exprs),
    ensures
        shared_integer(n, members, op, v),
{
    assert forall|l: int| 0 <= l < members.len() implies integer_of(n, #[trigger] members[l], op)
        == Some(v) by {
        assert(integer_of(m, members[l], op) == Some(v));
        if let Operand::Reg(reg) = op {
            let e = m.reg_value(members[l], reg)->Scalar_0;
            assert(n.exprs.nodes[e.0 as int] == m.exprs.nodes[e.0 as int]);
        }
    }
}

pub(crate) proof fn lemma_same_integer(
    m: Machine,
    n: Machine,
    members: Seq<ThreadId>,
    op: Operand,
    v: i64,
)
    requires
        shared_integer(m, members, op, v),
        n.threads == m.threads,
        n.env == m.env,
        n.exprs == m.exprs,
    ensures
        shared_integer(n, members, op, v),
{
    assert forall|l: int| 0 <= l < members.len() implies integer_of(n, #[trigger] members[l], op)
        == Some(v) by {
        assert(integer_of(m, members[l], op) == Some(v));
    }
}

proof fn lemma_turned_twice<K>(r: Reading<K>, a: Matrix, b: Matrix, i: int, j: int, n: int)
    ensures
        inner_product(r, a, turned(turned(b)), i, j, n) == inner_product(r, a, b, i, j, n),
    decreases n,
{
    if n > 0 {
        lemma_turned_twice(r, a, b, i, j, n - 1);
        assert(turned(turned(b))(n - 1, j) == b(n - 1, j));
    }
}

/// `wgmma.mma_async` computes `D = A * B + D`, or `A * B` if `scale-d` is
/// zero: if shared memory holds `A` (64 rows) and `B` (`n` columns) where the
/// descriptors say, then after a success the register of `D[i][j]` holds what
/// it held before, or nothing, plus the sum over `k` of `A[i][k] * B[k][j]`,
/// whatever the symbols stand for. No other register changes.
#[verifier::spinoff_prover]
pub proof fn wgmma_multiplies_and_accumulates<K>(
    r: Reading<K>,
    m: Machine,
    pc: InstrId,
    members: Seq<ThreadId>,
    base: int,
    instr: LoweredInstr,
    shape: MmaShape,
    dst: Seq<RegId>,
    da: i64,
    db: i64,
    scale: i64,
    a: Matrix,
    b: Matrix,
    i: int,
    j: int,
)
    requires
        whole_warpgroup(members, base, m.threads.len()),
        canonical_exprs(m.exprs),
        instr == m.env.program.instructions@[pc.0 as int],
        instr matches LoweredInstr::WgmmaMmaAsync {
            shape: s,
            dst: d,
            a_desc,
            b_desc,
            scale_d,
            a_type,
            b_type,
            transpose_a,
            transpose_b,
        } && s == shape && d@ == dst && shared_integer(m, members, a_desc, da) && shared_integer(
            m,
            members,
            b_desc,
            db,
        ) && shared_integer(m, members, scale_d, scale) && shared_holds(
            m,
            described(da, transpose_a, a_type),
            64,
            shape.k as int,
            a,
        ) && shared_holds(
            m,
            described(db, transpose_b, b_type),
            shape.n as int,
            shape.k as int,
            turned(b),
        ),
        shape.n % 8 == 0,
        shape.n <= 256,
        dst.no_duplicates(),
        spare(m, 384),
        m.warpgroup_op(pc, members).1 is Ok,
        addressable(m.warpgroup_op(pc, members).0.exprs),
        r.of(m.warpgroup_op(pc, members).0.exprs),
        0 <= i < 64,
        0 <= j < shape.n,
    ensures
        ({
            let z = m.warpgroup_op(pc, members).0;
            let u = ThreadId((base + 32 * (i / 16) + 4 * (i % 8) + j % 8 / 2) as u32);
            let reg = dst[4 * (j / 8) + 2 * (i % 16 / 8) + j % 2];
            let sum = inner_product(r, a, b, i, j, shape.k as int);
            &&& z.reg_value(u, reg) matches Value::Scalar(x) && (r.number)(x) == (if scale != 0 {
                r.plus((r.number)(m.reg_value(u, reg)->Scalar_0), sum)
            } else {
                sum
            })
            &&& forall|v: ThreadId, g: RegId|
                v.0 < m.threads.len() && (!members.contains(v) || !dst.contains(g))
                    ==> #[trigger] z.reg_value(v, g) == m.reg_value(v, g)
        }),
{
    assert forall|l: int| 0 <= l < members.len() implies (#[trigger] members[l]).0
        < m.threads.len() by {
        assert(members[l] == ThreadId((base + l) as u32));
    }
    assert forall|o: int, p: int| 0 <= o < p < members.len() implies #[trigger] members[o]
        != #[trigger] members[p] by {
        assert(members[o] == ThreadId((base + o) as u32));
        assert(members[p] == ThreadId((base + p) as u32));
    }
    lemma_group_bracketed(m, pc, members);
    let t = members[0];
    let g = whole_group((t.0 / WARPGROUP_SIZE * WARPGROUP_SIZE) as u32, m.env.n_threads);
    let m0 = m.counting_warp_sync().synced(g);
    if let LoweredInstr::WgmmaMmaAsync {
        shape: s,
        dst: d,
        a_desc,
        b_desc,
        scale_d,
        a_type,
        b_type,
        transpose_a,
        transpose_b,
    } = instr {
        let n = m0.group_effect(t, pc, instr, members).0;
        assert((n, m0.group_effect(t, pc, instr, members).1) == m0.wgmma_mma(
            t,
            pc,
            members,
            shape,
            dst,
            (a_desc, b_desc),
            scale_d,
            (a_type, b_type),
            (transpose_a, transpose_b),
        )) by {
            reveal(Machine::group_effect);
        }
        lemma_same_integer(m, m0, members, a_desc, da);
        lemma_same_integer(m, m0, members, b_desc, db);
        lemma_same_integer(m, m0, members, scale_d, scale);
        let k = lemma_wgmma(
            m0,
            t,
            pc,
            members,
            shape,
            dst,
            (a_desc, b_desc),
            scale_d,
            (a_type, b_type),
            (transpose_a, transpose_b),
            da,
            db,
            scale,
        );
        let p = described(da, transpose_a, a_type);
        let q = described(db, transpose_b, b_type);
        lemma_still_holds(m, k, p, 64, shape.k as int, a);
        lemma_still_holds(m, k, q, shape.n as int, shape.k as int, turned(b));
        lemma_lanes_grow(k, t, pc, members, shape, dst, p, q, a, turned(b), scale != 0, 0);
        let l = 32 * (i / 16) + 4 * (i % 8) + j % 8 / 2;
        let e = 4 * (j / 8) + 2 * (i % 16 / 8) + j % 2;
        lemma_home(i, j, shape.n as int);
        assert(members[l] == ThreadId((base + l) as u32));
        assert((members[l].0 % WARPGROUP_SIZE) as u32 == l);
        let end = n.exprs;
        lemma_lanes(
            r,
            k,
            t,
            pc,
            members,
            shape,
            dst,
            p,
            q,
            a,
            turned(b),
            scale != 0,
            0,
            l,
            e,
            end,
        );
        let z = m.warpgroup_op(pc, members).0;
        assert(z.reg_value(members[l], dst[e]) == n.reg_value(members[l], dst[e]));
        assert(k.reg_value(members[l], dst[e]) == m.reg_value(members[l], dst[e]));
        assert(r.lawful()) by {
            reveal(Reading::of);
        }
        lemma_turned_twice(r, a, b, i, j, shape.k as int);
        r.k.plus_zero(inner_product(r, a, b, i, j, shape.k as int));
        assert forall|v: ThreadId, g: RegId|
            v.0 < m.threads.len() && (!members.contains(v) || !dst.contains(g))
                implies #[trigger] z.reg_value(v, g) == m.reg_value(v, g) by {
            if dst.contains(g) {
                assert forall|o: int| 0 <= o < members.len() implies #[trigger] members[o]
                    != v by {}
            }
            assert(n.reg_value(v, g) == k.reg_value(v, g));
            assert(k.reg_value(v, g) == m.reg_value(v, g));
        }
    }
}

} // verus!
