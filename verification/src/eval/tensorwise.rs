//! What `tcgen05.mma` computes: each element of the result in Tensor Memory
//! is the old element, or zero, plus the inner product of a row of `A` and a
//! column of `B`, both in shared memory.

use vstd::arithmetic::div_mod::lemma_fundamental_div_mod;
use vstd::arithmetic::power2::pow2;
use vstd::prelude::*;

use crate::bit_field::field_of;
use crate::canon::coeff::Coeff;
use crate::eval::ThreadId;
use crate::eval::effects::{lemma_fused_grows, lemma_within_with, spare};
use crate::eval::exchanges::{integer_of, lemma_concrete};
use crate::eval::groupwise::turned;
use crate::eval::machine::Machine;
use crate::eval::memory::{MemAccessError, read_cells};
use crate::eval::products::{Matrix, inner_product};
use crate::eval::tcgen05_mma::{
    Major, MatrixDescriptor, OperandFormat, k_dim, operand_addr, spec_instruction_descriptor,
    spec_matrix_descriptor,
};
use crate::eval::tensor_ops::{dot_product, lane_disabled};
use crate::eval::value::Value;
use crate::lowered::{InstrId, LoweredInstr, Operand, Tcgen05MmaKind};
use crate::symbolic::ExprId;
use crate::symbolic::arena::{ExprNode, Exprs, canonical_node};
use crate::symbolic::meaning::{
    Reading, a_fused_product_adds_its_third_operand, addressable, an_entered_node_has_its_meaning,
    an_entered_node_is_found, canonical_exprs, within, within_is_transitive,
};

verus! {

// ---------------------------------------------------------------------------
// Inner products
// ---------------------------------------------------------------------------

proof fn lemma_dot_grows(
    s: Exprs,
    a: Seq<ExprId>,
    b: Seq<ExprId>,
    i: int,
    k: int,
    from: int,
    n: int,
    acc: ExprId,
)
    requires
        0 <= from <= n,
    ensures
        within(s, dot_product(s, a, b, i, k, from, n, acc).0),
    decreases n - from,
{
    if from < n {
        let (s1, x) = s.fused(a[i + from], b[k + from], acc);
        lemma_fused_grows(s, a[i + from], b[k + from], acc);
        lemma_dot_grows(s1, a, b, i, k, from + 1, n, x);
        within_is_transitive(s, s1, dot_product(s, a, b, i, k, from, n, acc).0);
    }
}

proof fn lemma_dot<K>(
    r: Reading<K>,
    s: Exprs,
    a: Seq<ExprId>,
    b: Seq<ExprId>,
    x: Matrix,
    y: Matrix,
    row: int,
    col: int,
    i: int,
    k: int,
    from: int,
    n: int,
    acc: ExprId,
    seed: K,
    end: Exprs,
)
    requires
        0 <= from <= n,
        forall|q: int| 0 <= q < n ==> a[i + q] == #[trigger] x(row, q),
        forall|q: int| 0 <= q < n ==> b[k + q] == #[trigger] y(q, col),
        canonical_exprs(s),
        (r.number)(acc) == r.plus(seed, inner_product(r, x, y, row, col, from)),
        within(dot_product(s, a, b, i, k, from, n, acc).0, end),
        addressable(end),
        r.of(end),
    ensures
        (r.number)(dot_product(s, a, b, i, k, from, n, acc).1) == r.plus(
            seed,
            inner_product(r, x, y, row, col, n),
        ),
        canonical_exprs(dot_product(s, a, b, i, k, from, n, acc).0),
    decreases n - from,
{
    if from < n {
        let (e, f) = (a[i + from], b[k + from]);
        assert(e == x(row, from) && f == y(from, col));
        let (s1, z) = s.fused(e, f, acc);
        lemma_fused_grows(s, e, f, acc);
        lemma_dot_grows(s1, a, b, i, k, from + 1, n, z);
        within_is_transitive(s1, dot_product(s1, a, b, i, k, from + 1, n, z).0, end);
        a_fused_product_adds_its_third_operand(r, s, e, f, acc, end);
        let p = inner_product(r, x, y, row, col, from);
        let q = r.times((r.number)(e), (r.number)(f));
        assert(r.lawful()) by {
            reveal(Reading::of);
        }
        r.k.plus_commutes(q, r.plus(seed, p));
        r.k.plus_associates(seed, p, q);
        lemma_dot(r, s1, a, b, x, y, row, col, i, k, from + 1, n, z, seed, end);
    }
}

// ---------------------------------------------------------------------------
// Elements
// ---------------------------------------------------------------------------

/// Where an accumulation starts: from the cell's number, or from zero.
pub open spec fn cell_start<K>(
    r: Reading<K>,
    m: Machine,
    lane: u32,
    col: u32,
    accumulate: bool,
) -> K {
    if accumulate {
        (r.number)(m.tensor.get(lane, col)->0)
    } else {
        r.k.zero
    }
}

/// Whether a cell of Tensor Memory holds an element of the result.
pub open spec fn cell_is<K>(
    r: Reading<K>,
    m: Machine,
    lane: u32,
    col: u32,
    seed: K,
    x: Matrix,
    y: Matrix,
    i: int,
    j: int,
    depth: int,
) -> bool {
    m.tensor.get(lane, col) matches Some(e) && (r.number)(e) == r.plus(
        seed,
        inner_product(r, x, y, i, j, depth),
    )
}

/// Whether only expressions and cells are new.
pub open spec fn only_cells(m: Machine, n: Machine) -> bool {
    &&& n == (Machine { exprs: n.exprs, tensor: n.tensor, ..m })
    &&& within(m.exprs, n.exprs)
}

/// Whether a sequence holds the rows of a matrix one after another.
pub open spec fn rows_of(a: Seq<ExprId>, x: Matrix, rows: int, depth: int) -> bool {
    forall|i: int, q: int|
        0 <= i < rows && 0 <= q < depth ==> a[i * depth + q] == #[trigger] x(i, q)
}

proof fn lemma_cell_grows(
    m: Machine,
    t: ThreadId,
    pc: InstrId,
    lane: u32,
    col: u32,
    accumulate: bool,
    a: Seq<ExprId>,
    b: Seq<ExprId>,
    row: u64,
    column: u64,
    depth: u64,
)
    requires
        m.mma_cell(t, pc, lane, col, accumulate, a, b, row, column, depth).1 is Ok,
    ensures
        ({
            let n = m.mma_cell(t, pc, lane, col, accumulate, a, b, row, column, depth).0;
            &&& only_cells(m, n)
            &&& n.tensor.get(lane, col) is Some
            &&& forall|v: u32, c: u32|
                v != lane || c != col ==> #[trigger] n.tensor.get(v, c) == m.tensor.get(v, c)
        }),
{
    reveal(Machine::mma_cell);
    reveal(Machine::mma_seed);
    lemma_within_with(m.exprs, ExprNode::Undefined);
    lemma_within_with(m.exprs, ExprNode::RealConst(Coeff::spec_zero()));
    let (m1, seed) = m.mma_seed(t, pc, lane, col, accumulate);
    let (i, k) = ((row * depth) as u64 as int, (column * depth) as u64 as int);
    lemma_dot_grows(m1.exprs, a, b, i, k, 0, depth as int, seed->Ok_0);
    let s = dot_product(m1.exprs, a, b, i, k, 0, depth as int, seed->Ok_0).0;
    within_is_transitive(m.exprs, m1.exprs, s);
    let n = m.mma_cell(t, pc, lane, col, accumulate, a, b, row, column, depth).0;
    assert(n =~= (Machine { exprs: n.exprs, tensor: n.tensor, ..m }));
}

proof fn lemma_cell<K>(
    r: Reading<K>,
    m: Machine,
    t: ThreadId,
    pc: InstrId,
    lane: u32,
    col: u32,
    accumulate: bool,
    a: Seq<ExprId>,
    b: Seq<ExprId>,
    x: Matrix,
    y: Matrix,
    row: u64,
    column: u64,
    rows: int,
    cols: int,
    depth: u64,
    end: Exprs,
)
    requires
        canonical_exprs(m.exprs),
        row < rows <= 256,
        column < cols <= 512,
        depth <= 32,
        rows_of(a, x, rows, depth as int),
        rows_of(b, turned(y), cols, depth as int),
        accumulate ==> m.tensor.get(lane, col) is Some,
        m.mma_cell(t, pc, lane, col, accumulate, a, b, row, column, depth).1 is Ok,
        within(
            m.mma_cell(t, pc, lane, col, accumulate, a, b, row, column, depth).0.exprs,
            end,
        ),
        addressable(end),
        r.of(end),
    ensures
        ({
            let n = m.mma_cell(t, pc, lane, col, accumulate, a, b, row, column, depth).0;
            &&& canonical_exprs(n.exprs)
            &&& cell_is(
                r,
                n,
                lane,
                col,
                cell_start(r, m, lane, col, accumulate),
                x,
                y,
                row as int,
                column as int,
                depth as int,
            )
        }),
{
    reveal(Machine::mma_cell);
    reveal(Machine::mma_seed);
    let (m1, seed) = m.mma_seed(t, pc, lane, col, accumulate);
    let (i, k) = (row * depth, column * depth);
    assert(0 <= i <= 256 * 32 && 0 <= k <= 512 * 32) by (nonlinear_arith)
        requires
            0 <= row <= 256,
            0 <= column <= 512,
            0 <= depth <= 32,
            i == row * depth,
            k == column * depth,
    ;
    let s = dot_product(m1.exprs, a, b, i, k, 0, depth as int, seed->Ok_0).0;
    lemma_dot_grows(m1.exprs, a, b, i, k, 0, depth as int, seed->Ok_0);
    within_is_transitive(m1.exprs, s, end);
    let from = cell_start(r, m, lane, col, accumulate);
    assert(r.lawful()) by {
        reveal(Reading::of);
    }
    if !accumulate {
        let zero = ExprNode::RealConst(Coeff::spec_zero());
        assert(canonical_node(zero));
        lemma_within_with(m.exprs, zero);
        an_entered_node_is_found(m.exprs, zero, end);
        an_entered_node_has_its_meaning(r, m.exprs, zero, end);
        reveal(crate::symbolic::readings::Numbers::lawful);
    }
    r.k.plus_zero(from);
    assert forall|q: int| 0 <= q < depth implies a[i + q] == #[trigger] x(row as int, q) by {}
    assert forall|q: int| 0 <= q < depth implies b[k + q] == #[trigger] y(q, column as int) by {
        assert(turned(y)(column as int, q) == y(q, column as int));
    }
    lemma_dot(
        r,
        m1.exprs,
        a,
        b,
        x,
        y,
        row as int,
        column as int,
        i,
        k,
        0,
        depth as int,
        seed->Ok_0,
        from,
        end,
    );
}

// ---------------------------------------------------------------------------
// Rows
// ---------------------------------------------------------------------------

/// Whether cells of other lanes, and of a lane outside some columns, are as
/// they were.
spec fn keeps(m: Machine, n: Machine, lane: u32, low: int, high: int) -> bool {
    &&& only_cells(m, n)
    &&& forall|v: u32, c: u32|
        v != lane || c < low || high <= c ==> #[trigger] n.tensor.get(v, c) == m.tensor.get(v, c)
}

proof fn lemma_row_grows(
    m: Machine,
    t: ThreadId,
    pc: InstrId,
    lane: u32,
    base: u32,
    accumulate: bool,
    a: Seq<ExprId>,
    b: Seq<ExprId>,
    n: u64,
    depth: u64,
    column: int,
)
    requires
        0 <= column <= n,
        base + n <= u32::MAX,
        m.mma_row(t, pc, lane, base, accumulate, a, b, n, depth, column).1 is Ok,
    ensures
        keeps(
            m,
            m.mma_row(t, pc, lane, base, accumulate, a, b, n, depth, column).0,
            lane,
            base + column,
            base + n,
        ),
    decreases n - column,
{
    let z = m.mma_row(t, pc, lane, base, accumulate, a, b, n, depth, column).0;
    if column < n {
        let col = (base + column) as u32;
        assert(base.saturating_add(column as u32) == col);
        lemma_cell_grows(
            m,
            t,
            pc,
            lane,
            col,
            accumulate,
            a,
            b,
            lane as u64,
            column as u64,
            depth,
        );
        let m1 = m.mma_cell(
            t,
            pc,
            lane,
            col,
            accumulate,
            a,
            b,
            lane as u64,
            column as u64,
            depth,
        ).0;
        lemma_row_grows(m1, t, pc, lane, base, accumulate, a, b, n, depth, column + 1);
        within_is_transitive(m.exprs, m1.exprs, z.exprs);
        assert forall|v: u32, c: u32|
            v != lane || c < base + column || base + n <= c implies #[trigger] z.tensor.get(v, c)
            == m.tensor.get(v, c) by {
            assert(z.tensor.get(v, c) == m1.tensor.get(v, c));
        }
    }
}

#[verifier::spinoff_prover]
proof fn lemma_row<K>(
    r: Reading<K>,
    m: Machine,
    t: ThreadId,
    pc: InstrId,
    lane: u32,
    base: u32,
    accumulate: bool,
    a: Seq<ExprId>,
    b: Seq<ExprId>,
    x: Matrix,
    y: Matrix,
    n: u64,
    depth: u64,
    column: int,
    end: Exprs,
)
    requires
        0 <= column <= n <= 512,
        base + n <= u32::MAX,
        lane < 128,
        depth <= 32,
        canonical_exprs(m.exprs),
        rows_of(a, x, 128, depth as int),
        rows_of(b, turned(y), n as int, depth as int),
        accumulate ==> forall|j: int|
            0 <= j < n ==> #[trigger] m.tensor.get(lane, (base + j) as u32) is Some,
        m.mma_row(t, pc, lane, base, accumulate, a, b, n, depth, column).1 is Ok,
        within(m.mma_row(t, pc, lane, base, accumulate, a, b, n, depth, column).0.exprs, end),
        addressable(end),
        r.of(end),
    ensures
        ({
            let z = m.mma_row(t, pc, lane, base, accumulate, a, b, n, depth, column).0;
            &&& canonical_exprs(z.exprs)
            &&& forall|j: int|
                column <= j < n ==> cell_is(
                    r,
                    z,
                    lane,
                    (base + j) as u32,
                    cell_start(r, m, lane, #[trigger] ((base + j) as u32), accumulate),
                    x,
                    y,
                    lane as int,
                    j,
                    depth as int,
                )
        }),
    decreases n - column,
{
    let z = m.mma_row(t, pc, lane, base, accumulate, a, b, n, depth, column).0;
    if column < n {
        let col = (base + column) as u32;
        assert(base.saturating_add(column as u32) == col);
        let m1 = m.mma_cell(
            t,
            pc,
            lane,
            col,
            accumulate,
            a,
            b,
            lane as u64,
            column as u64,
            depth,
        ).0;
        lemma_cell_grows(
            m,
            t,
            pc,
            lane,
            col,
            accumulate,
            a,
            b,
            lane as u64,
            column as u64,
            depth,
        );
        lemma_row_grows(m1, t, pc, lane, base, accumulate, a, b, n, depth, column + 1);
        within_is_transitive(m1.exprs, z.exprs, end);
        if accumulate {
            assert(m.tensor.get(lane, (base + column) as u32) is Some);
        }
        lemma_cell(
            r,
            m,
            t,
            pc,
            lane,
            col,
            accumulate,
            a,
            b,
            x,
            y,
            lane as u64,
            column as u64,
            128,
            n as int,
            depth,
            end,
        );
        if accumulate {
            assert forall|j: int| 0 <= j < n implies #[trigger] m1.tensor.get(
                lane,
                (base + j) as u32,
            ) is Some by {
                assert(m.tensor.get(lane, (base + j) as u32) is Some);
            }
        }
        lemma_row(r, m1, t, pc, lane, base, accumulate, a, b, x, y, n, depth, column + 1, end);
        assert forall|j: int| column <= j < n implies cell_is(
            r,
            z,
            lane,
            (base + j) as u32,
            cell_start(r, m, lane, #[trigger] ((base + j) as u32), accumulate),
            x,
            y,
            lane as int,
            j,
            depth as int,
        ) by {
            let c = (base + j) as u32;
            if j == column {
                assert(z.tensor.get(lane, c) == m1.tensor.get(lane, c));
            } else {
                assert(m1.tensor.get(lane, c) == m.tensor.get(lane, c));
            }
        }
    }
}

proof fn lemma_rows_grow(
    m: Machine,
    t: ThreadId,
    pc: InstrId,
    base: u32,
    accumulate: bool,
    masks: Seq<u32>,
    a: Seq<ExprId>,
    b: Seq<ExprId>,
    n: u64,
    depth: u64,
    lane: int,
)
    requires
        0 <= lane <= 128,
        base + n <= u32::MAX,
        m.mma_rows(t, pc, base, accumulate, masks, a, b, n, depth, lane).1 is Ok,
    ensures
        ({
            let z = m.mma_rows(t, pc, base, accumulate, masks, a, b, n, depth, lane).0;
            &&& only_cells(m, z)
            &&& forall|v: u32, c: u32|
                v < lane || v >= 128 || lane_disabled(masks, v) || c < base || base + n <= c
                    ==> #[trigger] z.tensor.get(v, c) == m.tensor.get(v, c)
        }),
    decreases 128 - lane,
{
    if lane < 128 {
        let z = m.mma_rows(t, pc, base, accumulate, masks, a, b, n, depth, lane).0;
        if lane_disabled(masks, lane as u32) {
            lemma_rows_grow(m, t, pc, base, accumulate, masks, a, b, n, depth, lane + 1);
        } else {
            let m1 = m.mma_row(t, pc, lane as u32, base, accumulate, a, b, n, depth, 0).0;
            lemma_row_grows(m, t, pc, lane as u32, base, accumulate, a, b, n, depth, 0);
            lemma_rows_grow(m1, t, pc, base, accumulate, masks, a, b, n, depth, lane + 1);
            within_is_transitive(m.exprs, m1.exprs, z.exprs);
            assert forall|v: u32, c: u32|
                v < lane || v >= 128 || lane_disabled(masks, v) || c < base || base + n <= c
                    implies #[trigger] z.tensor.get(v, c) == m.tensor.get(v, c) by {
                assert(z.tensor.get(v, c) == m1.tensor.get(v, c));
            }
        }
    }
}

#[verifier::spinoff_prover]
proof fn lemma_rows<K>(
    r: Reading<K>,
    m: Machine,
    t: ThreadId,
    pc: InstrId,
    base: u32,
    accumulate: bool,
    masks: Seq<u32>,
    a: Seq<ExprId>,
    b: Seq<ExprId>,
    x: Matrix,
    y: Matrix,
    n: u64,
    depth: u64,
    lane: int,
    i: int,
    j: int,
    end: Exprs,
)
    requires
        0 <= lane <= i < 128,
        0 <= j < n <= 512,
        !lane_disabled(masks, i as u32),
        base + n <= u32::MAX,
        depth <= 32,
        canonical_exprs(m.exprs),
        rows_of(a, x, 128, depth as int),
        rows_of(b, turned(y), n as int, depth as int),
        accumulate ==> forall|v: u32, c: u32|
            v < 128 && base <= c < base + n ==> #[trigger] m.tensor.get(v, c) is Some,
        m.mma_rows(t, pc, base, accumulate, masks, a, b, n, depth, lane).1 is Ok,
        within(m.mma_rows(t, pc, base, accumulate, masks, a, b, n, depth, lane).0.exprs, end),
        addressable(end),
        r.of(end),
    ensures
        ({
            let z = m.mma_rows(t, pc, base, accumulate, masks, a, b, n, depth, lane).0;
            cell_is(
                r,
                z,
                i as u32,
                (base + j) as u32,
                cell_start(r, m, i as u32, (base + j) as u32, accumulate),
                x,
                y,
                i,
                j,
                depth as int,
            )
        }),
    decreases 128 - lane,
{
    let z = m.mma_rows(t, pc, base, accumulate, masks, a, b, n, depth, lane).0;
    let c = (base + j) as u32;
    if lane_disabled(masks, lane as u32) {
        lemma_rows(
            r,
            m,
            t,
            pc,
            base,
            accumulate,
            masks,
            a,
            b,
            x,
            y,
            n,
            depth,
            lane + 1,
            i,
            j,
            end,
        );
    } else {
        let m1 = m.mma_row(t, pc, lane as u32, base, accumulate, a, b, n, depth, 0).0;
        lemma_row_grows(m, t, pc, lane as u32, base, accumulate, a, b, n, depth, 0);
        lemma_rows_grow(m1, t, pc, base, accumulate, masks, a, b, n, depth, lane + 1);
        within_is_transitive(m1.exprs, z.exprs, end);
        lemma_row(r, m, t, pc, lane as u32, base, accumulate, a, b, x, y, n, depth, 0, end);
        if lane == i {
            assert(z.tensor.get(i as u32, c) == m1.tensor.get(i as u32, c));
            assert(cell_start(r, m, i as u32, (base + j) as u32, accumulate) == cell_start(
                r,
                m,
                lane as u32,
                c,
                accumulate,
            ));
        } else {
            if accumulate {
                assert forall|v: u32, d: u32|
                    v < 128 && base <= d < base + n implies #[trigger] m1.tensor.get(v, d)
                    is Some by {
                    assert(m.tensor.get(v, d) is Some);
                    if v == lane {
                        let q = d - base;
                        assert(d == (base + q) as u32);
                        let s = cell_start(r, m, lane as u32, (base + q) as u32, accumulate);
                    }
                }
            }
            assert(m1.tensor.get(i as u32, c) == m.tensor.get(i as u32, c));
            lemma_rows(
                r,
                m1,
                t,
                pc,
                base,
                accumulate,
                masks,
                a,
                b,
                x,
                y,
                n,
                depth,
                lane + 1,
                i,
                j,
                end,
            );
        }
    }
}

// ---------------------------------------------------------------------------
// Operands
// ---------------------------------------------------------------------------

/// The dimension in which an operand's elements lie next to one another.
pub open spec fn leading(transposed: bool) -> Major {
    if transposed {
        Major::Mn
    } else {
        Major::K
    }
}

/// Whether shared memory holds a matrix where a descriptor says. No element is
/// a bit pattern.
#[verifier::opaque]
pub open spec fn memory_holds(
    m: Machine,
    desc: MatrixDescriptor,
    transposed: bool,
    format: OperandFormat,
    rows: int,
    depth: int,
    e: Matrix,
) -> bool {
    forall|mn: int, k: int|
        0 <= mn < rows && 0 <= k < depth ==> {
            let x = #[trigger] e(mn, k);
            &&& operand_addr(
                desc,
                leading(transposed),
                mn as nat,
                k as nat,
                format.bytes() as nat,
            ) matches Some(addr) && read_cells(m.shared, addr, format.bytes()) == Ok::<
                Value,
                MemAccessError,
            >(Value::Scalar(x))
            &&& x.0 < m.exprs.nodes.len()
            &&& !(m.exprs.node(x) is IntConst)
        }
}

/// Whether only accesses are newly marked.
spec fn only_reads(m: Machine, n: Machine) -> bool {
    n == (Machine { race: n.race, ..m })
}

proof fn lemma_memory_holds(
    m: Machine,
    n: Machine,
    desc: MatrixDescriptor,
    transposed: bool,
    format: OperandFormat,
    rows: int,
    depth: int,
    e: Matrix,
)
    requires
        memory_holds(m, desc, transposed, format, rows, depth, e),
        n.shared == m.shared,
        within(m.exprs, n.exprs),
    ensures
        memory_holds(n, desc, transposed, format, rows, depth, e),
{
    reveal(memory_holds);
    assert forall|mn: int, k: int| 0 <= mn < rows && 0 <= k < depth implies {
        let x = #[trigger] e(mn, k);
        &&& x.0 < n.exprs.nodes.len()
        &&& !(n.exprs.node(x) is IntConst)
    } by {
        let x = e(mn, k);
        assert(n.exprs.nodes[x.0 as int] == m.exprs.nodes[x.0 as int]);
    }
}

proof fn lemma_elements(
    m: Machine,
    t: ThreadId,
    pc: InstrId,
    desc: MatrixDescriptor,
    transposed: bool,
    format: OperandFormat,
    rows: int,
    depth: u64,
    total: u64,
    e: Matrix,
    elems: Seq<ExprId>,
    i: int,
)
    requires
        0 < depth <= 32,
        0 <= i <= total,
        total == rows * depth,
        elems.len() == i,
        forall|q: int|
            0 <= q < i ==> #[trigger] elems[q] == e(q / (depth as int), q % (depth as int)),
        memory_holds(m, desc, transposed, format, rows, depth as int, e),
        m.mma_operand(
            t,
            pc,
            desc,
            leading(transposed),
            format,
            total,
            depth,
            elems,
            i,
        ).1 is Ok,
    ensures
        ({
            let (n, s) = m.mma_operand(
                t,
                pc,
                desc,
                leading(transposed),
                format,
                total,
                depth,
                elems,
                i,
            );
            &&& only_reads(m, n)
            &&& s->Ok_0.len() == total
            &&& forall|q: int|
                0 <= q < total ==> #[trigger] s->Ok_0[q] == e(
                    q / (depth as int),
                    q % (depth as int),
                )
        }),
    decreases total - i,
{
    if i < total {
        let d = depth as int;
        let (mn, k) = (i / d, i % d);
        lemma_fundamental_div_mod(i, d);
        vstd::arithmetic::div_mod::lemma_mod_bound(i, d);
        assert(0 <= mn < rows) by (nonlinear_arith)
            requires
                i == d * mn + k,
                0 <= k < d,
                0 <= i < rows * d,
        ;
        reveal(memory_holds);
        reveal(Machine::mem_read_via);
        let x = e(mn, k);
        let major = leading(transposed);
        let addr = operand_addr(desc, major, mn as nat, k as nat, format.bytes() as nat)->0;
        let m1 = m.mem_read_via(
            t,
            pc,
            crate::lowered::MemSpace::Shared,
            addr,
            format.bytes(),
            crate::eval::race::Proxy::Async,
        ).0;
        assert(only_reads(m, m1)) by {
            assert(m1 =~= (Machine { race: m1.race, ..m }));
        }
        assert(m1.with_exprs(m1.exprs) =~= m1);
        assert(m.mma_operand(t, pc, desc, major, format, total, depth, elems, i)
            == m1.mma_operand(t, pc, desc, major, format, total, depth, elems.push(x), i + 1));
        lemma_memory_holds(m, m1, desc, transposed, format, rows, depth as int, e);
        let next = elems.push(x);
        assert forall|q: int| 0 <= q < i + 1 implies #[trigger] next[q] == e(q / d, q % d) by {
            if q < i {
                assert(next[q] == elems[q]);
            }
        }
        lemma_elements(
            m1,
            t,
            pc,
            desc,
            transposed,
            format,
            rows,
            depth,
            total,
            e,
            next,
            i + 1,
        );
    }
}

proof fn lemma_matrix(
    m: Machine,
    t: ThreadId,
    pc: InstrId,
    desc: MatrixDescriptor,
    transposed: bool,
    format: OperandFormat,
    rows: u32,
    kind: Tcgen05MmaKind,
    e: Matrix,
)
    requires
        rows <= 512,
        memory_holds(m, desc, transposed, format, rows as int, k_dim(kind) as int, e),
        m.operand_matrix(t, pc, desc, transposed, format, rows, kind).1 is Ok,
    ensures
        ({
            let (n, s) = m.operand_matrix(t, pc, desc, transposed, format, rows, kind);
            &&& only_reads(m, n)
            &&& rows_of(s->Ok_0, e, rows as int, k_dim(kind) as int)
        }),
{
    reveal(Machine::operand_matrix);
    let d = k_dim(kind) as int;
    let total = rows * d;
    assert(0 <= total <= 512 * 32) by (nonlinear_arith)
        requires
            0 <= rows <= 512,
            0 <= d <= 32,
            total == rows * d,
    ;
    lemma_elements(
        m,
        t,
        pc,
        desc,
        transposed,
        format,
        rows as int,
        k_dim(kind),
        total as u64,
        e,
        Seq::empty(),
        0,
    );
    let s = m.operand_matrix(t, pc, desc, transposed, format, rows, kind).1->Ok_0;
    assert forall|i: int, q: int| 0 <= i < rows && 0 <= q < d implies s[i * d + q] == #[trigger] e(
        i,
        q,
    ) by {
        vstd::arithmetic::div_mod::lemma_fundamental_div_mod_converse(i * d + q, d, i, q);
        assert(0 <= i * d + q < total) by (nonlinear_arith)
            requires
                0 <= i < rows,
                0 <= q < d,
                total == rows * d,
        ;
    }
}

// ---------------------------------------------------------------------------
// The instruction
// ---------------------------------------------------------------------------

/// Whether `n` comes after `m` with nothing but new expressions and marked
/// accesses.
spec fn later(m: Machine, n: Machine) -> bool {
    &&& n == (Machine { race: n.race, exprs: n.exprs, ..m })
    &&& within(m.exprs, n.exprs)
    &&& canonical_exprs(m.exprs) ==> canonical_exprs(n.exprs)
}

/// Reading a concrete operand later on.
proof fn lemma_value(
    m0: Machine,
    m: Machine,
    t: ThreadId,
    pc: InstrId,
    op: Operand,
    what: &'static str,
    v: i64,
)
    requires
        later(m0, m),
        spare(m, 1),
        integer_of(m0, t, op) == Some(v),
        m.concrete_operand(t, pc, op, what).1 is Ok,
    ensures
        ({
            let (n, x) = m.concrete_operand(t, pc, op, what);
            &&& later(m0, n)
            &&& within(m.exprs, n.exprs)
            &&& n.exprs.nodes.len() <= m.exprs.nodes.len() + 1
            &&& x->Ok_0 == v
        }),
{
    assert(integer_of(m, t, op) == Some(v)) by {
        if let Operand::Reg(reg) = op {
            let e = m0.reg_value(t, reg)->Scalar_0;
            assert(m.exprs.nodes[e.0 as int] == m0.exprs.nodes[e.0 as int]);
        }
    }
    lemma_concrete(m, t, pc, op, what);
    let n = m.concrete_operand(t, pc, op, what).0;
    within_is_transitive(m0.exprs, m.exprs, n.exprs);
}

proof fn lemma_masks(
    m0: Machine,
    m: Machine,
    t: ThreadId,
    pc: InstrId,
    ops: Seq<Operand>,
    words: Seq<i64>,
    masks: Seq<u32>,
    k: int,
)
    requires
        0 <= k <= ops.len() <= 4,
        ops.len() == words.len(),
        later(m0, m),
        spare(m, ops.len() - k),
        forall|q: int|
            0 <= q < ops.len() ==> integer_of(m0, t, #[trigger] ops[q]) == Some(words[q]),
        masks.len() == k,
        forall|q: int| 0 <= q < k ==> #[trigger] masks[q] == words[q] as u32,
        m.lane_masks(t, pc, ops, masks, k).1 is Ok,
    ensures
        ({
            let (n, x) = m.lane_masks(t, pc, ops, masks, k);
            &&& later(m0, n)
            &&& x->Ok_0.len() == words.len()
            &&& forall|q: int| 0 <= q < words.len() ==> #[trigger] x->Ok_0[q] == words[q] as u32
        }),
    decreases ops.len() - k,
{
    if k < ops.len() {
        assert(integer_of(m0, t, ops[k]) == Some(words[k]));
        lemma_value(m0, m, t, pc, ops[k], "tcgen05.mma disable-output-lane", words[k]);
        let m1 = m.concrete_operand(t, pc, ops[k], "tcgen05.mma disable-output-lane").0;
        lemma_masks(m0, m1, t, pc, ops, words, masks.push(words[k] as u32), k + 1);
    }
}

/// Whether the words of a mask of disabled lanes hold a lane.
pub open spec fn left_out(words: Seq<i64>, lane: int) -> bool {
    lane / 32 < words.len() && (words[lane / 32] as u32 >> ((lane % 32) as u32)) & 1 != 0
}

/// The concrete operands of a `tcgen05.mma`: what the instruction descriptor,
/// the matrix descriptors and the other operands are for the thread.
pub struct Issue {
    pub idesc: i64,
    pub a_desc: i64,
    pub b_desc: i64,
    pub enable: i64,
    pub base: i64,
    pub disabled: Seq<i64>,
}

/// Whether an instruction is a `tcgen05.mma` with these operands.
pub open spec fn issues(m: Machine, t: ThreadId, i: LoweredInstr, q: Issue) -> bool {
    &&& i matches LoweredInstr::Tcgen05Mma {
        d_tmem_base,
        a_desc,
        b_desc,
        idesc,
        disable_output_lane,
        enable_input_d,
        ..
    }
    &&& integer_of(m, t, idesc) == Some(q.idesc)
    &&& integer_of(m, t, a_desc) == Some(q.a_desc)
    &&& integer_of(m, t, b_desc) == Some(q.b_desc)
    &&& integer_of(m, t, enable_input_d) == Some(q.enable)
    &&& integer_of(m, t, d_tmem_base) == Some(q.base)
    &&& disable_output_lane@.len() == q.disabled.len()
    &&& q.disabled.len() <= 4
    &&& forall|k: int|
        0 <= k < q.disabled.len() ==> integer_of(m, t, #[trigger] disable_output_lane@[k]) == Some(
            q.disabled[k],
        )
}

/// Columns of `B`, of which the instruction descriptor holds the eighth.
pub open spec fn columns(q: Issue) -> int {
    8 * (field_of(q.idesc as u32 as nat, 17, 6) as int)
}

/// The first column of the result.
pub open spec fn first_column(i: LoweredInstr, q: Issue) -> u32 {
    (q.base as u64).wrapping_add(i->d_tmem_offset as u64) as u32
}

/// Whether shared memory holds `A`, of 128 rows, and `B`.
pub open spec fn operands_hold(
    m: Machine,
    i: LoweredInstr,
    q: Issue,
    a: Matrix,
    b: Matrix,
) -> bool {
    let raw = q.idesc as u32 as nat;
    let kind = i->Tcgen05Mma_kind;
    let depth = k_dim(kind) as int;
    &&& memory_holds(
        m,
        spec_matrix_descriptor(q.a_desc as u64)->Ok_0,
        field_of(raw, 15, 1) != 0,
        OperandFormat::spec_decode(kind, field_of(raw, 7, 3) as u32)->0,
        128,
        depth,
        a,
    )
    &&& memory_holds(
        m,
        spec_matrix_descriptor(q.b_desc as u64)->Ok_0,
        field_of(raw, 16, 1) != 0,
        OperandFormat::spec_decode(kind, field_of(raw, 10, 3) as u32)->0,
        columns(q),
        depth,
        turned(b),
    )
}

/// `tcgen05.mma` computes `D = A * B + D`, or `A * B` where the input is not
/// enabled: if shared memory holds `A` and `B` where the descriptors say, then
/// after a success the cell of `D[i][j]`, in lane `i` and the `j`-th column
/// from the first, holds what it held before, or nothing, plus the sum over
/// `k` of `A[i][k] * B[k][j]`, whatever the symbols stand for. A lane that is
/// left out, and every other column, is as it was.
#[verifier::spinoff_prover]
pub proof fn tcgen05_mma_multiplies_and_accumulates<K>(
    r: Reading<K>,
    m: Machine,
    t: ThreadId,
    pc: InstrId,
    i: LoweredInstr,
    q: Issue,
    a: Matrix,
    b: Matrix,
    row: int,
    col: int,
)
    requires
        canonical_exprs(m.exprs),
        spare(m, 16),
        issues(m, t, i, q),
        operands_hold(m, i, q, a, b),
        first_column(i, q) + columns(q) <= u32::MAX,
        q.enable != 0 ==> forall|v: u32, c: u32|
            v < 128 && first_column(i, q) <= c < first_column(i, q) + columns(q)
                ==> #[trigger] m.tensor.get(v, c) is Some,
        m.execute(t, pc, i).1 is Ok,
        addressable(m.execute(t, pc, i).0.exprs),
        r.of(m.execute(t, pc, i).0.exprs),
        0 <= row < 128,
        0 <= col < columns(q),
    ensures
        ({
            let n = m.execute(t, pc, i).0;
            let base = first_column(i, q);
            let c = (base + col) as u32;
            let sum = inner_product(r, a, b, row, col, k_dim(i->Tcgen05Mma_kind) as int);
            &&& !left_out(q.disabled, row) ==> (n.tensor.get(row as u32, c) matches Some(e) && (
            r.number)(e) == (if q.enable != 0 {
                r.plus((r.number)(m.tensor.get(row as u32, c)->0), sum)
            } else {
                sum
            }))
            &&& forall|v: u32, d: u32|
                v >= 128 || left_out(q.disabled, v as int) || d < base || base + columns(q) <= d
                    ==> #[trigger] n.tensor.get(v, d) == m.tensor.get(v, d)
            &&& n.threads == m.threads
            &&& n.shared == m.shared
        }),
{
    reveal(Machine::arithmetic);
    reveal(Machine::bitwise);
    reveal(Machine::movement);
    reveal(Machine::asynchronous);
    reveal(Machine::tcgen05_mma);
    reveal(Machine::mma_form);
    reveal(Machine::mma_descs);
    reveal(Machine::mma_product);
    if let LoweredInstr::Tcgen05Mma {
        kind,
        d_tmem_base,
        d_tmem_offset,
        a_desc,
        b_desc,
        idesc,
        disable_output_lane,
        enable_input_d,
    } = i {
        let raw = q.idesc as u32;
        let id = spec_instruction_descriptor(raw);
        assert(field_of(raw as nat, 17, 6) < 64) by {
            lemma_field_small(raw as nat, 17);
        }
        assert(id.n == columns(q));
        assert(m.with_exprs(m.exprs) =~= m);
        assert(later(m, m));
        lemma_value(m, m, t, pc, idesc, "tcgen05.mma idesc", q.idesc);
        let m1 = m.concrete_operand(t, pc, idesc, "tcgen05.mma idesc").0;
        let formats = m1.mma_form(t, pc, kind, raw).1->Ok_0;
        assert(m1.mma_form(t, pc, kind, raw).0 == m1);
        lemma_value(m, m1, t, pc, a_desc, "tcgen05.mma a-desc", q.a_desc);
        let m2 = m1.concrete_operand(t, pc, a_desc, "tcgen05.mma a-desc").0;
        lemma_value(m, m2, t, pc, b_desc, "tcgen05.mma b-desc", q.b_desc);
        let m3 = m2.concrete_operand(t, pc, b_desc, "tcgen05.mma b-desc").0;
        let descs = m1.mma_descs(t, pc, a_desc, b_desc).1->Ok_0;
        assert(m1.mma_descs(t, pc, a_desc, b_desc).0 == m3);
        let depth = k_dim(kind);
        lemma_memory_holds(
            m,
            m3,
            descs.0,
            id.transpose_a,
            formats.0,
            128,
            depth as int,
            a,
        );
        lemma_matrix(m3, t, pc, descs.0, id.transpose_a, formats.0, 128, kind, a);
        let (m4, xs) = m3.operand_matrix(t, pc, descs.0, id.transpose_a, formats.0, 128, kind);
        lemma_memory_holds(
            m,
            m4,
            descs.1,
            id.transpose_b,
            formats.1,
            columns(q),
            depth as int,
            turned(b),
        );
        lemma_matrix(m4, t, pc, descs.1, id.transpose_b, formats.1, id.n, kind, turned(b));
        let (m5, ys) = m4.operand_matrix(t, pc, descs.1, id.transpose_b, formats.1, id.n, kind);
        assert(later(m, m5));
        lemma_value(m, m5, t, pc, enable_input_d, "tcgen05.mma enable-input-d", q.enable);
        let m6 = m5.concrete_operand(t, pc, enable_input_d, "tcgen05.mma enable-input-d").0;
        lemma_value(m, m6, t, pc, d_tmem_base, "memory address", q.base);
        let m7 = m6.concrete_operand(t, pc, d_tmem_base, "memory address").0;
        let base = first_column(i, q);
        lemma_masks(m, m7, t, pc, disable_output_lane@, q.disabled, Seq::empty(), 0);
        let (m8, ws) = m7.lane_masks(t, pc, disable_output_lane@, Seq::empty(), 0);
        let masks = ws->Ok_0;
        let accumulate = q.enable != 0;
        let n = m.execute(t, pc, i).0;
        assert(n == m8.mma_rows(
            t,
            pc,
            base,
            accumulate,
            masks,
            xs->Ok_0,
            ys->Ok_0,
            id.n as u64,
            depth,
            0,
        ).0);
        lemma_rows_grow(
            m8,
            t,
            pc,
            base,
            accumulate,
            masks,
            xs->Ok_0,
            ys->Ok_0,
            id.n as u64,
            depth,
            0,
        );
        assert forall|v: u32| v < 128 implies #[trigger] lane_disabled(masks, v) == left_out(
            q.disabled,
            v as int,
        ) by {
            if v / 32 < masks.len() {
                assert(masks[(v / 32) as int] == q.disabled[(v / 32) as int] as u32);
            }
        }
        assert(r.lawful()) by {
            reveal(Reading::of);
        }
        if !left_out(q.disabled, row) {
            assert(!lane_disabled(masks, row as u32));
            lemma_rows(
                r,
                m8,
                t,
                pc,
                base,
                accumulate,
                masks,
                xs->Ok_0,
                ys->Ok_0,
                a,
                b,
                id.n as u64,
                depth,
                0,
                row,
                col,
                n.exprs,
            );
            r.k.plus_zero(inner_product(r, a, b, row, col, depth as int));
        }
    }
}

/// A field of six bits is below 64.
proof fn lemma_field_small(x: nat, lo: nat)
    ensures
        field_of(x, lo, 6) < 64,
{
    vstd::arithmetic::power2::lemma2_to64();
    vstd::arithmetic::power2::lemma_pow2_pos(lo);
    let y = x / pow2(lo);
    vstd::arithmetic::div_mod::lemma_mod_bound(y as int, 64);
}

} // verus!
