//! What matrix products compute: each element of the result is the element of
//! the accumulator plus the inner product of a row and a column, under every
//! assignment of numbers to the symbols.

use vstd::prelude::*;

use crate::eval::cooperative::{masked, reg_operands};
use crate::eval::effects::lemma_fused_grows;
use crate::eval::groups::lemma_advanced;
use crate::eval::machine::Machine;
use crate::eval::value::Value;
use crate::eval::warp::{
    a_cell, b_cell, c_cell, cell_at, chain_spec, fragment_cell, no_cells, placed, product_spec,
};
use crate::eval::{ThreadId, WARP_SIZE};
use crate::lowered::{InstrId, LoweredInstr};
use crate::symbolic::ExprId;
use crate::symbolic::arena::Exprs;
use crate::symbolic::meaning::{
    Reading, a_fused_product_adds_its_third_operand, addressable, canonical_exprs, within,
    within_is_transitive,
};
use crate::symbols::RegId;
use crate::tensor_core::Fragment;

verus! {

/// A matrix of expressions.
pub type Matrix = spec_fn(int, int) -> ExprId;

/// The sum of the first `n` products of a row of `a` and a column of `b`.
pub open spec fn inner_product<K>(r: Reading<K>, a: Matrix, b: Matrix, i: int, j: int, n: int) -> K
    decreases n,
{
    if n <= 0 {
        r.k.zero
    } else {
        r.plus(
            inner_product(r, a, b, i, j, n - 1),
            r.times((r.number)(a(i, n - 1)), (r.number)(b(n - 1, j))),
        )
    }
}

/// Whether every filled cell holds the expression that belongs there.
pub open spec fn agrees(cells: Seq<Option<ExprId>>, want: spec_fn(int) -> ExprId) -> bool {
    forall|q: int| 0 <= q < cells.len() ==> (#[trigger] cells[q] matches Some(e) ==> e == want(q))
}

// ---------------------------------------------------------------------------
// Gathering
// ---------------------------------------------------------------------------

/// The half of a register that a fragment element is.
pub open spec fn half_of(v: Value, high: bool) -> ExprId {
    if high {
        v->Pair_1
    } else {
        v->Pair_0
    }
}

proof fn lemma_halves(
    m: Machine,
    t: ThreadId,
    pc: InstrId,
    u: ThreadId,
    regs: Seq<RegId>,
    fragment: Fragment,
    base: u32,
    cells: Seq<Option<ExprId>>,
    want: spec_fn(int) -> ExprId,
    i: int,
)
    requires
        0 <= i <= fragment.count(),
        agrees(cells, want),
        forall|q: u32|
            q < fragment.count() ==> ({
                let e = #[trigger] fragment.spec_element((u.0 % WARP_SIZE) as u32, q);
                half_of(m.reg_value(u, regs[e.reg_idx as int]), e.high_half) == want(
                    fragment_cell(base, fragment, e),
                )
            }),
        m.gather_halves(t, pc, u, regs, fragment, base, cells, i).1 is Ok,
    ensures
        m.gather_halves(t, pc, u, regs, fragment, base, cells, i).0 == m,
        agrees(m.gather_halves(t, pc, u, regs, fragment, base, cells, i).1->Ok_0, want),
    decreases fragment.count() - i,
{
    if i < fragment.count() {
        let e = fragment.spec_element((u.0 % WARP_SIZE) as u32, i as u32);
        let v = m.reg_value(u, regs[e.reg_idx as int]);
        let next = placed(
            cells,
            fragment_cell(base, fragment, e),
            Some(
                if e.high_half {
                    v->Pair_1
                } else {
                    v->Pair_0
                },
            ),
        );
        assert(agrees(next, want));
        lemma_halves(m, t, pc, u, regs, fragment, base, next, want, i + 1);
    }
}

proof fn lemma_floats(
    m: Machine,
    t: ThreadId,
    pc: InstrId,
    u: ThreadId,
    regs: Seq<RegId>,
    fragment: Fragment,
    base: u32,
    cells: Seq<Option<ExprId>>,
    want: spec_fn(int) -> ExprId,
    i: int,
)
    requires
        0 <= i <= fragment.count(),
        agrees(cells, want),
        forall|q: u32|
            q < fragment.count() ==> ({
                let e = #[trigger] fragment.spec_element((u.0 % WARP_SIZE) as u32, q);
                m.reg_value(u, regs[e.reg_idx as int]) == Value::Scalar(
                    want(fragment_cell(base, fragment, e)),
                )
            }),
        m.gather_floats(t, pc, u, reg_operands(regs), fragment, base, cells, i).1 is Ok,
    ensures
        m.gather_floats(t, pc, u, reg_operands(regs), fragment, base, cells, i).0 == m,
        agrees(
            m.gather_floats(t, pc, u, reg_operands(regs), fragment, base, cells, i).1->Ok_0,
            want,
        ),
    decreases fragment.count() - i,
{
    if i < fragment.count() {
        let e = fragment.spec_element((u.0 % WARP_SIZE) as u32, i as u32);
        let cell = fragment_cell(base, fragment, e);
        let next = placed(cells, cell, Some(want(cell)));
        assert(agrees(next, want));
        lemma_floats(m, t, pc, u, regs, fragment, base, next, want, i + 1);
    }
}

/// Whether a thread holds its part of the matrices.
pub open spec fn holds_part(
    m: Machine,
    u: ThreadId,
    maps: (Fragment, Fragment, Fragment),
    src_a: Seq<RegId>,
    src_b: Seq<RegId>,
    src_c: Seq<RegId>,
    want: spec_fn(int) -> ExprId,
) -> bool {
    let lane = (u.0 % WARP_SIZE) as u32;
    &&& forall|q: u32|
        q < maps.0.count() ==> ({
            let e = #[trigger] maps.0.spec_element(lane, q);
            half_of(m.reg_value(u, src_a[e.reg_idx as int]), e.high_half) == want(
                fragment_cell(0, maps.0, e),
            )
        })
    &&& forall|q: u32|
        q < maps.1.count() ==> ({
            let e = #[trigger] maps.1.spec_element(lane, q);
            half_of(m.reg_value(u, src_b[e.reg_idx as int]), e.high_half) == want(
                fragment_cell(256, maps.1, e),
            )
        })
    &&& forall|q: u32|
        q < maps.2.count() ==> ({
            let e = #[trigger] maps.2.spec_element(lane, q);
            m.reg_value(u, src_c[e.reg_idx as int]) == Value::Scalar(
                want(fragment_cell((256 + 16 * maps.2.cols()) as u32, maps.2, e)),
            )
        })
}

proof fn lemma_gathered(
    m: Machine,
    t: ThreadId,
    pc: InstrId,
    members: Seq<ThreadId>,
    maps: (Fragment, Fragment, Fragment),
    src_a: Seq<RegId>,
    src_b: Seq<RegId>,
    src_c: Seq<RegId>,
    cells: Seq<Option<ExprId>>,
    want: spec_fn(int) -> ExprId,
    k: int,
)
    requires
        0 <= k <= members.len(),
        agrees(cells, want),
        forall|l: int|
            0 <= l < members.len() ==> holds_part(
                m,
                #[trigger] members[l],
                maps,
                src_a,
                src_b,
                src_c,
                want,
            ),
        m.gather(t, pc, members, maps, src_a, src_b, reg_operands(src_c), cells, k).1 is Ok,
    ensures
        m.gather(t, pc, members, maps, src_a, src_b, reg_operands(src_c), cells, k).0 == m,
        agrees(
            m.gather(t, pc, members, maps, src_a, src_b, reg_operands(src_c), cells, k).1->Ok_0,
            want,
        ),
    decreases members.len() - k,
{
    if k < members.len() {
        let u = members[k];
        assert(holds_part(m, u, maps, src_a, src_b, src_c, want));
        lemma_halves(m, t, pc, u, src_a, maps.0, 0, cells, want, 0);
        let c1 = m.gather_halves(t, pc, u, src_a, maps.0, 0, cells, 0).1->Ok_0;
        lemma_halves(m, t, pc, u, src_b, maps.1, 256, c1, want, 0);
        let c2 = m.gather_halves(t, pc, u, src_b, maps.1, 256, c1, 0).1->Ok_0;
        let base = (256 + 16 * maps.2.cols()) as u32;
        lemma_floats(m, t, pc, u, src_c, maps.2, base, c2, want, 0);
        let c3 = m.gather_floats(t, pc, u, reg_operands(src_c), maps.2, base, c2, 0).1->Ok_0;
        lemma_gathered(m, t, pc, members, maps, src_a, src_b, src_c, c3, want, k + 1);
    }
}

// ---------------------------------------------------------------------------
// Multiplying
// ---------------------------------------------------------------------------

proof fn lemma_chain_grows(
    s: Exprs,
    pc: InstrId,
    cells: Seq<Option<ExprId>>,
    i: u32,
    j: u32,
    n: u32,
    sum: ExprId,
    k: int,
)
    ensures
        within(s, chain_spec(s, pc, cells, i, j, n, sum, k).0),
    decreases 16 - k,
{
    if k < 16 {
        match (cell_at(cells, a_cell(i as int, k)), cell_at(cells, b_cell(k, j as int, n as int))) {
            (Some(a), Some(b)) => {
                let (s1, x) = s.fused(a, b, sum);
                lemma_fused_grows(s, a, b, sum);
                lemma_chain_grows(s1, pc, cells, i, j, n, x, k + 1);
                within_is_transitive(s, s1, chain_spec(s, pc, cells, i, j, n, sum, k).0);
            },
            _ => {},
        }
    }
}

proof fn lemma_chain<K>(
    r: Reading<K>,
    s: Exprs,
    pc: InstrId,
    cells: Seq<Option<ExprId>>,
    i: u32,
    j: u32,
    n: u32,
    sum: ExprId,
    k: int,
    a: Matrix,
    b: Matrix,
    want: spec_fn(int) -> ExprId,
    start: K,
    end: Exprs,
)
    requires
        0 <= k <= 16,
        canonical_exprs(s),
        agrees(cells, want),
        forall|q: int|
            0 <= q < 16 ==> #[trigger] a(i as int, q) == want(a_cell(i as int, q)) && b(
                q,
                j as int,
            ) == want(b_cell(q, j as int, n as int)),
        chain_spec(s, pc, cells, i, j, n, sum, k).1 is Ok,
        within(chain_spec(s, pc, cells, i, j, n, sum, k).0, end),
        addressable(end),
        r.of(end),
        (r.number)(sum) == r.plus(start, inner_product(r, a, b, i as int, j as int, k)),
    ensures
        canonical_exprs(chain_spec(s, pc, cells, i, j, n, sum, k).0),
        (r.number)(chain_spec(s, pc, cells, i, j, n, sum, k).1->Ok_0) == r.plus(
            start,
            inner_product(r, a, b, i as int, j as int, 16),
        ),
    decreases 16 - k,
{
    if k < 16 {
        let x = cell_at(cells, a_cell(i as int, k))->0;
        let y = cell_at(cells, b_cell(k, j as int, n as int))->0;
        assert(cells[a_cell(i as int, k)] == Some(x));
        assert(cells[b_cell(k, j as int, n as int)] == Some(y));
        assert(x == a(i as int, k) && y == b(k, j as int));
        let (s1, next) = s.fused(x, y, sum);
        lemma_chain_grows(s1, pc, cells, i, j, n, next, k + 1);
        within_is_transitive(s1, chain_spec(s1, pc, cells, i, j, n, next, k + 1).0, end);
        a_fused_product_adds_its_third_operand(r, s, x, y, sum, end);
        let p = r.times((r.number)(x), (r.number)(y));
        let part = inner_product(r, a, b, i as int, j as int, k);
        assert(r.lawful()) by {
            reveal(Reading::of);
        }
        r.k.plus_commutes(p, r.plus(start, part));
        r.k.plus_associates(start, part, p);
        lemma_chain(r, s1, pc, cells, i, j, n, next, k + 1, a, b, want, start, end);
    }
}

proof fn lemma_product_grows(
    s: Exprs,
    pc: InstrId,
    cells: Seq<Option<ExprId>>,
    n: u32,
    d: Seq<ExprId>,
    q: int,
)
    ensures
        within(s, product_spec(s, pc, cells, n, d, q).0),
    decreases 16 * n - q,
{
    if q < 16 * n {
        if let Some(c) = cell_at(cells, c_cell(q, n as int)) {
            let i = (q / (n as int)) as u32;
            let j = (q % (n as int)) as u32;
            let (s1, x) = chain_spec(s, pc, cells, i, j, n, c, 0);
            lemma_chain_grows(s, pc, cells, i, j, n, c, 0);
            if let Ok(e) = x {
                lemma_product_grows(s1, pc, cells, n, d.push(e), q + 1);
                within_is_transitive(s, s1, product_spec(s, pc, cells, n, d, q).0);
            }
        }
    }
}

/// Where the elements of three matrices belong among the cells.
pub open spec fn lays_out(
    want: spec_fn(int) -> ExprId,
    n: int,
    a: Matrix,
    b: Matrix,
    c: Matrix,
) -> bool {
    &&& forall|i: int, q: int|
        0 <= i < 16 && 0 <= q < 16 ==> #[trigger] a(i, q) == want(a_cell(i, q))
    &&& forall|q: int, j: int|
        0 <= q < 16 && 0 <= j < n ==> #[trigger] b(q, j) == want(b_cell(q, j, n))
    &&& forall|i: int, j: int|
        0 <= i < 16 && 0 <= j < n ==> #[trigger] c(i, j) == want(c_cell(i * n + j, n))
}

/// What the product of the cells is.
proof fn lemma_product<K>(
    r: Reading<K>,
    s: Exprs,
    pc: InstrId,
    cells: Seq<Option<ExprId>>,
    n: u32,
    d: Seq<ExprId>,
    q: int,
    a: Matrix,
    b: Matrix,
    c: Matrix,
    want: spec_fn(int) -> ExprId,
    end: Exprs,
)
    requires
        n == 8 || n == 16,
        0 <= q <= 16 * n,
        d.len() == q,
        canonical_exprs(s),
        agrees(cells, want),
        lays_out(want, n as int, a, b, c),
        product_spec(s, pc, cells, n, d, q).1 is Ok,
        within(product_spec(s, pc, cells, n, d, q).0, end),
        addressable(end),
        r.of(end),
        forall|p: int|
            0 <= p < q ==> (r.number)(#[trigger] d[p]) == r.plus(
                (r.number)(c(p / (n as int), p % (n as int))),
                inner_product(r, a, b, p / (n as int), p % (n as int), 16),
            ),
    ensures
        ({
            let z = product_spec(s, pc, cells, n, d, q).1->Ok_0;
            &&& z.len() == 16 * n
            &&& forall|p: int|
                0 <= p < 16 * n ==> (r.number)(#[trigger] z[p]) == r.plus(
                    (r.number)(c(p / (n as int), p % (n as int))),
                    inner_product(r, a, b, p / (n as int), p % (n as int), 16),
                )
        }),
    decreases 16 * n - q,
{
    if q < 16 * n {
        let m = n as int;
        let (i, j) = (q / m, q % m);
        assert(0 <= i < 16 && 0 <= j < m && i * m + j == q) by {
            if n == 8 {
                assert(0 <= q / 8 < 16 && 0 <= q % 8 < 8 && (q / 8) * 8 + q % 8 == q);
            } else {
                assert(0 <= q / 16 < 16 && 0 <= q % 16 < 16 && (q / 16) * 16 + q % 16 == q);
            }
        }
        let e = cell_at(cells, c_cell(q, m))->0;
        assert(cells[c_cell(q, m)] == Some(e));
        assert(e == c(i, j));
        let (s1, x) = chain_spec(s, pc, cells, i as u32, j as u32, n, e, 0);
        lemma_product_grows(s1, pc, cells, n, d.push(x->Ok_0), q + 1);
        within_is_transitive(s1, product_spec(s, pc, cells, n, d, q).0, end);
        assert(r.lawful()) by {
            reveal(Reading::of);
        }
        r.k.plus_zero((r.number)(e));
        assert forall|p: int| 0 <= p < 16 implies #[trigger] a(i, p) == want(a_cell(i, p)) && b(
            p,
            j,
        ) == want(b_cell(p, j, m)) by {
            let _ = b(p, j);
        }
        lemma_chain(
            r,
            s,
            pc,
            cells,
            i as u32,
            j as u32,
            n,
            e,
            0,
            a,
            b,
            want,
            (r.number)(e),
            end,
        );
        let next = d.push(x->Ok_0);
        assert forall|p: int| 0 <= p < q + 1 implies (r.number)(#[trigger] next[p]) == r.plus(
            (r.number)(c(p / m, p % m)),
            inner_product(r, a, b, p / m, p % m, 16),
        ) by {
            if p < q {
                assert(next[p] == d[p]);
            }
        }
        lemma_product(r, s1, pc, cells, n, next, q + 1, a, b, c, want, end);
    }
}

// ---------------------------------------------------------------------------
// Handing out
// ---------------------------------------------------------------------------

/// Whether only registers changed.
pub open spec fn only_registers(m: Machine, n: Machine) -> bool {
    &&& n == (Machine { threads: n.threads, ..m })
    &&& n.threads.len() == m.threads.len()
}

proof fn lemma_scatter_lane(
    m: Machine,
    t: ThreadId,
    pc: InstrId,
    u: ThreadId,
    dst: Seq<RegId>,
    fragment: Fragment,
    d: Seq<ExprId>,
    i: int,
)
    requires
        fragment == Fragment::NarrowC || fragment == Fragment::SquareC,
        0 <= i <= fragment.count(),
        dst.no_duplicates(),
        u.0 < m.threads.len(),
        m.scatter_lane(t, pc, u, dst, fragment, d, i).1 is Ok,
    ensures
        ({
            let z = m.scatter_lane(t, pc, u, dst, fragment, d, i).0;
            &&& only_registers(m, z)
            &&& forall|q: u32|
                i <= q < fragment.count() ==> ({
                    let e = #[trigger] fragment.spec_element((u.0 % WARP_SIZE) as u32, q);
                    z.reg_value(u, dst[e.reg_idx as int]) == Value::Scalar(
                        d[fragment_cell(0, fragment, e)],
                    )
                })
            &&& forall|q: int|
                0 <= q < i && q < dst.len() ==> z.reg_value(u, #[trigger] dst[q]) == m.reg_value(
                    u,
                    dst[q],
                )
            &&& forall|v: ThreadId, reg: RegId|
                v.0 < m.threads.len() && v != u ==> #[trigger] z.reg_value(v, reg) == m.reg_value(
                    v,
                    reg,
                )
            &&& forall|reg: RegId|
                !dst.contains(reg) ==> #[trigger] z.reg_value(u, reg) == m.reg_value(u, reg)
        }),
    decreases fragment.count() - i,
{
    if i < fragment.count() {
        let e = fragment.spec_element((u.0 % WARP_SIZE) as u32, i as u32);
        assert(e.reg_idx == i);
        let x = d[fragment_cell(0, fragment, e)];
        let m1 = m.write_reg(u, pc, dst[e.reg_idx as int], Value::Scalar(x)).0;
        lemma_scatter_lane(m1, t, pc, u, dst, fragment, d, i + 1);
        let z = m.scatter_lane(t, pc, u, dst, fragment, d, i).0;
        assert(z.reg_value(u, dst[i]) == m1.reg_value(u, dst[i]));
        assert forall|q: int| 0 <= q < i && q < dst.len() implies z.reg_value(u, #[trigger] dst[q])
            == m.reg_value(u, dst[q]) by {
            assert(z.reg_value(u, dst[q]) == m1.reg_value(u, dst[q]));
            assert(dst[q] != dst[i]);
        }
        assert forall|reg: RegId| !dst.contains(reg) implies #[trigger] z.reg_value(u, reg)
            == m.reg_value(u, reg) by {
            assert(reg != dst[i]);
        }
    }
}

proof fn lemma_scatter(
    m: Machine,
    t: ThreadId,
    pc: InstrId,
    members: Seq<ThreadId>,
    dst: Seq<RegId>,
    fragment: Fragment,
    d: Seq<ExprId>,
    k: int,
)
    requires
        fragment == Fragment::NarrowC || fragment == Fragment::SquareC,
        0 <= k <= members.len(),
        dst.no_duplicates(),
        forall|l: int| 0 <= l < members.len() ==> (#[trigger] members[l]).0 < m.threads.len(),
        forall|l: int, p: int|
            0 <= l < p < members.len() ==> #[trigger] members[l] != #[trigger] members[p],
        m.scatter(t, pc, members, dst, fragment, d, k).1 is Ok,
    ensures
        ({
            let z = m.scatter(t, pc, members, dst, fragment, d, k).0;
            &&& only_registers(m, z)
            &&& forall|l: int, q: u32|
                k <= l < members.len() && q < fragment.count() ==> ({
                    let e = #[trigger] fragment.spec_element((members[l].0 % WARP_SIZE) as u32, q);
                    z.reg_value(members[l], dst[e.reg_idx as int]) == Value::Scalar(
                        d[fragment_cell(0, fragment, e)],
                    )
                })
            &&& forall|v: ThreadId, reg: RegId|
                v.0 < m.threads.len() && ((forall|l: int|
                    k <= l < members.len() ==> #[trigger] members[l] != v) || !dst.contains(reg))
                    ==> #[trigger] z.reg_value(v, reg) == m.reg_value(v, reg)
        }),
    decreases members.len() - k,
{
    if k < members.len() {
        let u = members[k];
        let m1 = m.scatter_lane(t, pc, u, dst, fragment, d, 0).0;
        lemma_scatter_lane(m, t, pc, u, dst, fragment, d, 0);
        lemma_scatter(m1, t, pc, members, dst, fragment, d, k + 1);
        let z = m.scatter(t, pc, members, dst, fragment, d, k).0;
        assert forall|l: int, q: u32| k <= l < members.len() && q < fragment.count() implies ({
            let e = #[trigger] fragment.spec_element((members[l].0 % WARP_SIZE) as u32, q);
            z.reg_value(members[l], dst[e.reg_idx as int]) == Value::Scalar(
                d[fragment_cell(0, fragment, e)],
            )
        }) by {
            if l == k {
                let e = fragment.spec_element((u.0 % WARP_SIZE) as u32, q);
                assert forall|p: int| k + 1 <= p < members.len() implies #[trigger] members[p]
                    != u by {
                    assert(members[k] != members[p]);
                }
                assert(z.reg_value(u, dst[e.reg_idx as int]) == m1.reg_value(
                    u,
                    dst[e.reg_idx as int],
                ));
            }
        }
        assert forall|v: ThreadId, reg: RegId|
            v.0 < m.threads.len() && ((forall|l: int|
                k <= l < members.len() ==> #[trigger] members[l] != v) || !dst.contains(reg))
                implies #[trigger] z.reg_value(v, reg) == m.reg_value(v, reg) by {
            assert(z.reg_value(v, reg) == m1.reg_value(v, reg));
            if v != u {
                assert(m1.reg_value(v, reg) == m.reg_value(v, reg));
            } else {
                assert(members[k] == v);
            }
        }
    }
}

// ---------------------------------------------------------------------------
// The product of a warp
// ---------------------------------------------------------------------------

proof fn lemma_warp_threads(
    m: Machine,
    t: ThreadId,
    pc: InstrId,
    members: Seq<ThreadId>,
    maps: (Fragment, Fragment, Fragment),
    dst: Seq<RegId>,
    src_a: Seq<RegId>,
    src_b: Seq<RegId>,
    src_c: Seq<RegId>,
    want: spec_fn(int) -> ExprId,
)
    requires
        maps.2 == Fragment::NarrowC || maps.2 == Fragment::SquareC,
        dst.no_duplicates(),
        forall|p: int| 0 <= p < members.len() ==> (#[trigger] members[p]).0 < m.threads.len(),
        forall|o: int, p: int|
            0 <= o < p < members.len() ==> #[trigger] members[o] != #[trigger] members[p],
        forall|p: int|
            0 <= p < members.len() ==> holds_part(
                m,
                #[trigger] members[p],
                maps,
                src_a,
                src_b,
                src_c,
                want,
            ),
        m.warp_product(t, pc, members, maps, dst, src_a, src_b, reg_operands(src_c)).1 is Ok,
    ensures
        m.warp_product(
            t,
            pc,
            members,
            maps,
            dst,
            src_a,
            src_b,
            reg_operands(src_c),
        ).0.threads.len() == m.threads.len(),
{
    reveal(Machine::warp_product);
    let n = maps.2.cols();
    let none = no_cells((256 + 32 * n) as nat);
    assert(agrees(none, want));
    lemma_gathered(m, t, pc, members, maps, src_a, src_b, src_c, none, want, 0);
    let cells = m.gather(
        t,
        pc,
        members,
        maps,
        src_a,
        src_b,
        reg_operands(src_c),
        none,
        0,
    ).1->Ok_0;
    let (s, ds) = product_spec(m.exprs, pc, cells, n, Seq::empty(), 0);
    lemma_scatter(m.with_exprs(s), t, pc, members, dst, maps.2, ds->Ok_0, 0);
}

/// What a warp holds after a product of the matrices that it held before.
proof fn lemma_warp_product<K>(
    r: Reading<K>,
    m: Machine,
    t: ThreadId,
    pc: InstrId,
    members: Seq<ThreadId>,
    maps: (Fragment, Fragment, Fragment),
    dst: Seq<RegId>,
    src_a: Seq<RegId>,
    src_b: Seq<RegId>,
    src_c: Seq<RegId>,
    a: Matrix,
    b: Matrix,
    c: Matrix,
    want: spec_fn(int) -> ExprId,
    l: int,
    q: u32,
)
    requires
        maps.2 == Fragment::NarrowC || maps.2 == Fragment::SquareC,
        canonical_exprs(m.exprs),
        dst.no_duplicates(),
        forall|p: int| 0 <= p < members.len() ==> (#[trigger] members[p]).0 < m.threads.len(),
        forall|o: int, p: int|
            0 <= o < p < members.len() ==> #[trigger] members[o] != #[trigger] members[p],
        forall|p: int|
            0 <= p < members.len() ==> holds_part(
                m,
                #[trigger] members[p],
                maps,
                src_a,
                src_b,
                src_c,
                want,
            ),
        lays_out(want, maps.2.cols() as int, a, b, c),
        0 <= l < members.len(),
        q < maps.2.count(),
        m.warp_product(t, pc, members, maps, dst, src_a, src_b, reg_operands(src_c)).1 is Ok,
        addressable(
            m.warp_product(t, pc, members, maps, dst, src_a, src_b, reg_operands(src_c)).0.exprs,
        ),
        r.of(
            m.warp_product(t, pc, members, maps, dst, src_a, src_b, reg_operands(src_c)).0.exprs,
        ),
    ensures
        ({
            let z = m.warp_product(
                t,
                pc,
                members,
                maps,
                dst,
                src_a,
                src_b,
                reg_operands(src_c),
            ).0;
            let e = maps.2.spec_element((members[l].0 % WARP_SIZE) as u32, q);
            &&& z.race == m.race
            &&& z.threads.len() == m.threads.len()
            &&& z.reg_value(members[l], dst[e.reg_idx as int]) matches Value::Scalar(x) && (
            r.number)(x) == r.plus(
                (r.number)(c(e.row as int, e.col as int)),
                inner_product(r, a, b, e.row as int, e.col as int, 16),
            )
            &&& forall|v: ThreadId, reg: RegId|
                v.0 < m.threads.len() && (!members.contains(v) || !dst.contains(reg))
                    ==> #[trigger] z.reg_value(v, reg) == m.reg_value(v, reg)
        }),
{
    reveal(Machine::warp_product);
    let n = maps.2.cols();
    let none = no_cells((256 + 32 * n) as nat);
    assert(agrees(none, want));
    lemma_gathered(m, t, pc, members, maps, src_a, src_b, src_c, none, want, 0);
    let cells = m.gather(
        t,
        pc,
        members,
        maps,
        src_a,
        src_b,
        reg_operands(src_c),
        none,
        0,
    ).1->Ok_0;
    let (s, ds) = product_spec(m.exprs, pc, cells, n, Seq::empty(), 0);
    let d = ds->Ok_0;
    let m1 = m.with_exprs(s);
    lemma_scatter(m1, t, pc, members, dst, maps.2, d, 0);
    let z = m1.scatter(t, pc, members, dst, maps.2, d, 0).0;
    assert(z.exprs == s);
    lemma_product(r, m.exprs, pc, cells, n, Seq::empty(), 0, a, b, c, want, s);
    let e = maps.2.spec_element((members[l].0 % WARP_SIZE) as u32, q);
    let p = fragment_cell(0, maps.2, e);
    assert(e.row < 16 && e.col < n);
    assert(p == e.row * n + e.col);
    assert(0 <= p < 16 * n && p / (n as int) == e.row && p % (n as int) == e.col) by {
        if n == 8 {
            assert((e.row * 8 + e.col) / 8 == e.row && (e.row * 8 + e.col) % 8 == e.col);
        } else {
            assert((e.row * 16 + e.col) / 16 == e.row && (e.row * 16 + e.col) % 16 == e.col);
        }
    }
    assert((r.number)(d[p]) == r.plus(
        (r.number)(c(e.row as int, e.col as int)),
        inner_product(r, a, b, e.row as int, e.col as int, 16),
    ));
    assert forall|v: ThreadId, reg: RegId|
        v.0 < m.threads.len() && (!members.contains(v) || !dst.contains(reg))
            implies #[trigger] z.reg_value(v, reg) == m.reg_value(v, reg) by {
        if !members.contains(v) {
            assert forall|o: int| 0 <= o < members.len() implies #[trigger] members[o] != v by {}
        }
        assert(z.reg_value(v, reg) == m1.reg_value(v, reg));
    }
}

/// Whether a warp holds `A` (16x16), `B` (16x8) and `C` (16x8) as `mma.sync`
/// of shape `m16n8k16` has them: lane `4 * (i % 8) + k % 8 / 2` holds
/// `A[i][k]`, lane `4 * j + k % 8 / 2` holds `B[k][j]`, and lane
/// `4 * (i % 8) + j / 2` holds `C[i][j]`.
#[verifier::opaque]
pub open spec fn warp_holds(
    m: Machine,
    base: int,
    src_a: Seq<RegId>,
    src_b: Seq<RegId>,
    src_c: Seq<RegId>,
    a: Matrix,
    b: Matrix,
    c: Matrix,
) -> bool {
    &&& forall|i: int, k: int|
        0 <= i < 16 && 0 <= k < 16 ==> half_of(
            m.reg_value(
                ThreadId((base + 4 * (i % 8) + k % 8 / 2) as u32),
                src_a[i / 8 + 2 * (k / 8)],
            ),
            k % 2 == 1,
        ) == #[trigger] a(i, k)
    &&& forall|k: int, j: int|
        0 <= k < 16 && 0 <= j < 8 ==> half_of(
            m.reg_value(ThreadId((base + 4 * j + k % 8 / 2) as u32), src_b[k / 8]),
            k % 2 == 1,
        ) == #[trigger] b(k, j)
    &&& forall|i: int, j: int|
        0 <= i < 16 && 0 <= j < 8 ==> m.reg_value(
            ThreadId((base + 4 * (i % 8) + j / 2) as u32),
            src_c[2 * (i / 8) + j % 2],
        ) == Value::Scalar(#[trigger] c(i, j))
}

/// Whether the members of a group are all lanes of a warp, in order.
pub open spec fn whole_warp(members: Seq<ThreadId>, base: int, n: nat) -> bool {
    &&& 0 <= base
    &&& base % 32 == 0
    &&& base + 32 <= n
    &&& n <= u32::MAX
    &&& members.len() == 32
    &&& forall|l: int| 0 <= l < 32 ==> #[trigger] members[l] == ThreadId((base + l) as u32)
}

spec fn cells_of(n: int, a: Matrix, b: Matrix, c: Matrix) -> spec_fn(int) -> ExprId {
    |q: int|
        if q < 256 {
            a(q / 16, q % 16)
        } else if q < 256 + 16 * n {
            b((q - 256) / n, (q - 256) % n)
        } else {
            c((q - 256 - 16 * n) / n, (q - 256 - 16 * n) % n)
        }
}

proof fn lemma_row_col(n: int, i: int, j: int)
    requires
        n == 8 || n == 16,
        0 <= i,
        0 <= j < n,
    ensures
        (i * n + j) / n == i,
        (i * n + j) % n == j,
        i < 16 ==> 0 <= i * n + j < 16 * n,
{
    if n == 8 {
        assert((i * 8 + j) / 8 == i && (i * 8 + j) % 8 == j);
    } else {
        assert((i * 16 + j) / 16 == i && (i * 16 + j) % 16 == j);
    }
}

proof fn lemma_cells(n: int, a: Matrix, b: Matrix, c: Matrix)
    requires
        n == 8 || n == 16,
    ensures
        lays_out(cells_of(n, a, b, c), n, a, b, c),
{
    let want = cells_of(n, a, b, c);
    assert forall|i: int, q: int| 0 <= i < 16 && 0 <= q < 16 implies #[trigger] a(i, q) == want(
        a_cell(i, q),
    ) by {
        lemma_row_col(16, i, q);
    }
    assert forall|q: int, j: int| 0 <= q < 16 && 0 <= j < n implies #[trigger] b(q, j) == want(
        b_cell(q, j, n),
    ) by {
        lemma_row_col(n, q, j);
        assert(b_cell(q, j, n) - 256 == q * n + j);
    }
    assert forall|i: int, j: int| 0 <= i < 16 && 0 <= j < n implies #[trigger] c(i, j) == want(
        c_cell(i * n + j, n),
    ) by {
        lemma_row_col(n, i, j);
        assert(c_cell(i * n + j, n) - 256 - 16 * n == i * n + j);
    }
}

proof fn lemma_narrow_a(l: int, q: int)
    requires
        0 <= l < 32,
        0 <= q < 8,
    ensures
        ({
            let e = Fragment::NarrowA.spec_element(l as u32, q as u32);
            let (i, k) = (e.row as int, e.col as int);
            &&& 0 <= i < 16
            &&& 0 <= k < 16
            &&& 4 * (i % 8) + k % 8 / 2 == l
            &&& i / 8 + 2 * (k / 8) == e.reg_idx
            &&& e.high_half == (k % 2 == 1)
        }),
{
    let (x, y) = (l / 4, l % 4);
    let (h, p, z) = (q / 4, q / 2 % 2, q % 2);
    assert(q == 4 * h + 2 * p + z && 0 <= h < 2 && 0 <= p < 2 && 0 <= z < 2);
    assert(l == 4 * x + y && 0 <= x < 8 && 0 <= y < 4);
    assert(q / 2 == 2 * h + p);
    assert((x + 8 * p) % 8 == x && (x + 8 * p) / 8 == p);
    let k = y * 2 + z + 8 * h;
    assert(k % 8 == y * 2 + z && k / 8 == h);
    assert((y * 2 + z) / 2 == y);
    assert(k % 2 == z);
}

proof fn lemma_narrow_b(l: int, q: int)
    requires
        0 <= l < 32,
        0 <= q < 4,
    ensures
        ({
            let e = Fragment::NarrowB.spec_element(l as u32, q as u32);
            let (k, j) = (e.row as int, e.col as int);
            &&& 0 <= k < 16
            &&& 0 <= j < 8
            &&& 4 * j + k % 8 / 2 == l
            &&& k / 8 == e.reg_idx
            &&& e.high_half == (k % 2 == 1)
        }),
{
    let (x, y) = (l / 4, l % 4);
    let (h, z) = (q / 2, q % 2);
    assert(l == 4 * x + y && 0 <= x < 8 && 0 <= y < 4);
    let k = y * 2 + z + 8 * h;
    assert(k % 8 == y * 2 + z && k / 8 == h);
    assert((y * 2 + z) / 2 == y);
    assert(k % 2 == z);
}

proof fn lemma_narrow_c(l: int, q: int)
    requires
        0 <= l < 32,
        0 <= q < 4,
    ensures
        ({
            let e = Fragment::NarrowC.spec_element(l as u32, q as u32);
            let (i, j) = (e.row as int, e.col as int);
            &&& 0 <= i < 16
            &&& 0 <= j < 8
            &&& 4 * (i % 8) + j / 2 == l
            &&& 2 * (i / 8) + j % 2 == e.reg_idx
        }),
{
    let (x, y) = (l / 4, l % 4);
    let (h, z) = (q / 2, q % 2);
    assert(l == 4 * x + y && 0 <= x < 8 && 0 <= y < 4);
    assert((x + 8 * h) % 8 == x && (x + 8 * h) / 8 == h);
    let j = y * 2 + z;
    assert(j / 2 == y && j % 2 == z);
}

proof fn lemma_narrow_parts(
    m: Machine,
    base: int,
    l: int,
    src_a: Seq<RegId>,
    src_b: Seq<RegId>,
    src_c: Seq<RegId>,
    a: Matrix,
    b: Matrix,
    c: Matrix,
)
    requires
        0 <= l < 32,
        0 <= base,
        base % 32 == 0,
        base + 32 <= u32::MAX,
        warp_holds(m, base, src_a, src_b, src_c, a, b, c),
    ensures
        holds_part(
            m,
            ThreadId((base + l) as u32),
            (Fragment::NarrowA, Fragment::NarrowB, Fragment::NarrowC),
            src_a,
            src_b,
            src_c,
            cells_of(8, a, b, c),
        ),
{
    reveal(warp_holds);
    let u = ThreadId((base + l) as u32);
    let lane = (u.0 % WARP_SIZE) as u32;
    assert(lane == l);
    let want = cells_of(8, a, b, c);
    lemma_cells(8, a, b, c);
    assert forall|q: u32| q < Fragment::NarrowA.spec_count() implies ({
        let e = #[trigger] Fragment::NarrowA.spec_element(lane, q);
        half_of(m.reg_value(u, src_a[e.reg_idx as int]), e.high_half) == want(
            fragment_cell(0, Fragment::NarrowA, e),
        )
    }) by {
        lemma_narrow_a(l, q as int);
        let e = Fragment::NarrowA.spec_element(lane, q);
        let (i, k) = (e.row as int, e.col as int);
        assert(a(i, k) == want(a_cell(i, k)));
        assert(fragment_cell(0, Fragment::NarrowA, e) == a_cell(i, k));
    }
    assert forall|q: u32| q < Fragment::NarrowB.spec_count() implies ({
        let e = #[trigger] Fragment::NarrowB.spec_element(lane, q);
        half_of(m.reg_value(u, src_b[e.reg_idx as int]), e.high_half) == want(
            fragment_cell(256, Fragment::NarrowB, e),
        )
    }) by {
        lemma_narrow_b(l, q as int);
        let e = Fragment::NarrowB.spec_element(lane, q);
        let (k, j) = (e.row as int, e.col as int);
        assert(b(k, j) == want(b_cell(k, j, 8)));
        assert(fragment_cell(256, Fragment::NarrowB, e) == b_cell(k, j, 8));
    }
    assert forall|q: u32| q < Fragment::NarrowC.spec_count() implies ({
        let e = #[trigger] Fragment::NarrowC.spec_element(lane, q);
        m.reg_value(u, src_c[e.reg_idx as int]) == Value::Scalar(
            want(fragment_cell((256 + 16 * 8) as u32, Fragment::NarrowC, e)),
        )
    }) by {
        lemma_narrow_c(l, q as int);
        let e = Fragment::NarrowC.spec_element(lane, q);
        let (i, j) = (e.row as int, e.col as int);
        assert(c(i, j) == want(c_cell(i * 8 + j, 8)));
        assert(fragment_cell((256 + 16 * 8) as u32, Fragment::NarrowC, e) == c_cell(i * 8 + j, 8));
    }
}

/// What a warp operation leaves of its effect.
pub(crate) proof fn lemma_bracketed(
    m: Machine,
    pc: InstrId,
    mask: u32,
    members: Seq<ThreadId>,
)
    requires
        forall|l: int| 0 <= l < members.len() ==> (#[trigger] members[l]).0 < m.threads.len(),
        m.warp_op(pc, mask, members).1 is Ok,
    ensures
        ({
            let z = m.warp_op(pc, mask, members).0;
            let t = members[0];
            let g = masked((t.0 / WARP_SIZE * WARP_SIZE) as u32, mask, m.env.n_threads);
            let m0 = m.counting_warp_sync().synced(g);
            let instr = m.env.program.instructions@[pc.0 as int];
            let (n, f) = m0.warp_effect(t, pc, mask, instr, members);
            &&& f is Ok
            &&& n.threads.len() == m.threads.len() ==> z.exprs == n.exprs && forall|
                u: ThreadId,
                reg: RegId,
            |
                u.0 < m.threads.len() ==> #[trigger] z.reg_value(u, reg) == (if n.thread(
                    u,
                ).regs.contains_key(reg) {
                    n.thread(u).regs[reg]
                } else {
                    Value::Scalar(n.env.undefined)
                })
            &&& m0.exprs == m.exprs
            &&& m0.threads == m.threads
            &&& m0.env == m.env
        }),
{
    let t = members[0];
    let g = masked((t.0 / WARP_SIZE * WARP_SIZE) as u32, mask, m.env.n_threads);
    let m0 = m.counting_warp_sync().synced(g);
    let instr = m.env.program.instructions@[pc.0 as int];
    let (n, f) = m0.warp_effect(t, pc, mask, instr, members);
    if n.threads.len() == m.threads.len() {
        lemma_advanced(n.synced(g), members, 0);
        let z = m.warp_op(pc, mask, members).0;
        assert(z == n.synced(g).all_advanced(members, 0));
        assert forall|u: ThreadId, reg: RegId| u.0 < m.threads.len() implies #[trigger] z.reg_value(
            u,
            reg,
        ) == n.reg_value(u, reg) by {
            assert(z.threads[u.0 as int].regs == n.threads[u.0 as int].regs);
        }
    }
}

proof fn lemma_same_parts(
    m: Machine,
    n: Machine,
    u: ThreadId,
    maps: (Fragment, Fragment, Fragment),
    src_a: Seq<RegId>,
    src_b: Seq<RegId>,
    src_c: Seq<RegId>,
    want: spec_fn(int) -> ExprId,
)
    requires
        holds_part(m, u, maps, src_a, src_b, src_c, want),
        n.threads == m.threads,
        n.env == m.env,
    ensures
        holds_part(n, u, maps, src_a, src_b, src_c, want),
{
    assert forall|v: ThreadId, reg: RegId| n.reg_value(v, reg) == m.reg_value(v, reg) by {}
}

/// What a warp operation that is a product leaves in the register of an
/// element of the result.
#[verifier::spinoff_prover]
proof fn lemma_product_in_place<K>(
    r: Reading<K>,
    m: Machine,
    pc: InstrId,
    mask: u32,
    members: Seq<ThreadId>,
    maps: (Fragment, Fragment, Fragment),
    dst: Seq<RegId>,
    src_a: Seq<RegId>,
    src_b: Seq<RegId>,
    src_c: Seq<RegId>,
    a: Matrix,
    b: Matrix,
    c: Matrix,
    want: spec_fn(int) -> ExprId,
    l: int,
    q: u32,
)
    requires
        maps.2 == Fragment::NarrowC || maps.2 == Fragment::SquareC,
        canonical_exprs(m.exprs),
        dst.no_duplicates(),
        forall|p: int| 0 <= p < members.len() ==> (#[trigger] members[p]).0 < m.threads.len(),
        forall|o: int, p: int|
            0 <= o < p < members.len() ==> #[trigger] members[o] != #[trigger] members[p],
        forall|p: int|
            0 <= p < members.len() ==> holds_part(
                m,
                #[trigger] members[p],
                maps,
                src_a,
                src_b,
                src_c,
                want,
            ),
        lays_out(want, maps.2.cols() as int, a, b, c),
        0 <= l < members.len(),
        q < maps.2.count(),
        m.env.program.instructions@[pc.0 as int] matches LoweredInstr::Mma {
            dst: d,
            src_a: x,
            src_b: y,
            src_c: z,
            ..
        } ==> maps == (Fragment::NarrowA, Fragment::NarrowB, Fragment::NarrowC) && d@ == dst && x@
            == src_a && y@ == src_b && z@ == reg_operands(src_c),
        m.env.program.instructions@[pc.0 as int] matches LoweredInstr::WmmaMma {
            dst: d,
            src_a: x,
            src_b: y,
            src_c: z,
            ..
        } ==> maps == (Fragment::SquareHalves, Fragment::SquareHalves, Fragment::SquareC) && d@
            == dst && x@ == src_a && y@ == src_b && z@ == src_c,
        m.env.program.instructions@[pc.0 as int] is Mma
            || m.env.program.instructions@[pc.0 as int] is WmmaMma,
        m.warp_op(pc, mask, members).1 is Ok,
        addressable(m.warp_op(pc, mask, members).0.exprs),
        r.of(m.warp_op(pc, mask, members).0.exprs),
    ensures
        ({
            let z = m.warp_op(pc, mask, members).0;
            let e = maps.2.spec_element((members[l].0 % WARP_SIZE) as u32, q);
            &&& z.reg_value(members[l], dst[e.reg_idx as int]) matches Value::Scalar(x) && (
            r.number)(x) == r.plus(
                (r.number)(c(e.row as int, e.col as int)),
                inner_product(r, a, b, e.row as int, e.col as int, 16),
            )
            &&& forall|v: ThreadId, reg: RegId|
                v.0 < m.threads.len() && (!members.contains(v) || !dst.contains(reg))
                    ==> #[trigger] z.reg_value(v, reg) == m.reg_value(v, reg)
        }),
{
    lemma_bracketed(m, pc, mask, members);
    let t = members[0];
    let g = masked((t.0 / WARP_SIZE * WARP_SIZE) as u32, mask, m.env.n_threads);
    let m0 = m.counting_warp_sync().synced(g);
    let instr = m.env.program.instructions@[pc.0 as int];
    let (n, f) = m0.warp_effect(t, pc, mask, instr, members);
    assert((n, f) == m0.warp_product(
        t,
        pc,
        members,
        maps,
        dst,
        src_a,
        src_b,
        reg_operands(src_c),
    )) by {
        reveal(Machine::warp_effect);
        reveal(Machine::matrix_effect);
    }
    assert forall|p: int| 0 <= p < members.len() implies holds_part(
        m0,
        #[trigger] members[p],
        maps,
        src_a,
        src_b,
        src_c,
        want,
    ) by {
        lemma_same_parts(m, m0, members[p], maps, src_a, src_b, src_c, want);
    }
    lemma_warp_threads(m0, t, pc, members, maps, dst, src_a, src_b, src_c, want);
    lemma_warp_product(
        r,
        m0,
        t,
        pc,
        members,
        maps,
        dst,
        src_a,
        src_b,
        src_c,
        a,
        b,
        c,
        want,
        l,
        q,
    );
    let z = m.warp_op(pc, mask, members).0;
    let e = maps.2.spec_element((members[l].0 % WARP_SIZE) as u32, q);
    assert(z.reg_value(members[l], dst[e.reg_idx as int]) == n.reg_value(
        members[l],
        dst[e.reg_idx as int],
    ));
    assert forall|v: ThreadId, reg: RegId|
        v.0 < m.threads.len() && (!members.contains(v) || !dst.contains(reg))
            implies #[trigger] z.reg_value(v, reg) == m.reg_value(v, reg) by {
        assert(n.reg_value(v, reg) == m0.reg_value(v, reg));
    }
}

proof fn lemma_narrow_home(i: int, j: int)
    requires
        0 <= i < 16,
        0 <= j < 8,
    ensures
        ({
            let (l, q) = (4 * (i % 8) + j / 2, 2 * (i / 8) + j % 2);
            let e = Fragment::NarrowC.spec_element(l as u32, q as u32);
            &&& 0 <= l < 32
            &&& 0 <= q < 4
            &&& e.row == i
            &&& e.col == j
            &&& e.reg_idx == q
        }),
{
    let (x, y, h, z) = (i % 8, j / 2, i / 8, j % 2);
    let l = 4 * x + y;
    let q = 2 * h + z;
    assert(l / 4 == x && l % 4 == y && q / 2 == h && q % 2 == z);
}

proof fn lemma_square_home(i: int, j: int)
    requires
        0 <= i < 16,
        0 <= j < 16,
    ensures
        ({
            let (l, q) = (2 * i + j / 8, j % 8);
            let e = Fragment::SquareC.spec_element(l as u32, q as u32);
            &&& 0 <= l < 32
            &&& 0 <= q < 8
            &&& e.row == i
            &&& e.col == j
            &&& e.reg_idx == q
        }),
{
    let l = 2 * i + j / 8;
    assert(l / 2 == i && l % 2 == j / 8);
}

/// The lanes of a warp are threads of the block, each once.
proof fn lemma_lanes(members: Seq<ThreadId>, base: int, n: nat)
    requires
        whole_warp(members, base, n),
    ensures
        forall|p: int| 0 <= p < members.len() ==> (#[trigger] members[p]).0 < n,
        forall|o: int, p: int|
            0 <= o < p < members.len() ==> #[trigger] members[o] != #[trigger] members[p],
{
    assert forall|o: int, p: int| 0 <= o < p < members.len() implies #[trigger] members[o]
        != #[trigger] members[p] by {
        assert(members[o] == ThreadId((base + o) as u32));
        assert(members[p] == ThreadId((base + p) as u32));
    }
}

/// `mma.sync` computes `D = A * B + C`: if the warp holds the matrices `A`,
/// `B` and `C` before a successful product, then afterwards the register of
/// `D[i][j]` holds the number of `C[i][j]` plus the sum over `k` of
/// `A[i][k] * B[k][j]`, whatever the symbols stand for. No other register
/// changes.
#[verifier::spinoff_prover]
pub proof fn mma_multiplies_and_accumulates<K>(
    r: Reading<K>,
    m: Machine,
    pc: InstrId,
    mask: u32,
    members: Seq<ThreadId>,
    base: int,
    dst: Seq<RegId>,
    src_a: Seq<RegId>,
    src_b: Seq<RegId>,
    src_c: Seq<RegId>,
    a: Matrix,
    b: Matrix,
    c: Matrix,
    i: int,
    j: int,
)
    requires
        whole_warp(members, base, m.threads.len()),
        canonical_exprs(m.exprs),
        m.env.program.instructions@[pc.0 as int] matches LoweredInstr::Mma {
            dst: d,
            src_a: x,
            src_b: y,
            src_c: z,
            ..
        } && d@ == dst && x@ == src_a && y@ == src_b && z@ == reg_operands(src_c),
        dst.no_duplicates(),
        warp_holds(m, base, src_a, src_b, src_c, a, b, c),
        m.warp_op(pc, mask, members).1 is Ok,
        addressable(m.warp_op(pc, mask, members).0.exprs),
        r.of(m.warp_op(pc, mask, members).0.exprs),
        0 <= i < 16,
        0 <= j < 8,
    ensures
        ({
            let z = m.warp_op(pc, mask, members).0;
            let u = ThreadId((base + 4 * (i % 8) + j / 2) as u32);
            &&& z.reg_value(u, dst[2 * (i / 8) + j % 2]) matches Value::Scalar(x) && (r.number)(x)
                == r.plus((r.number)(c(i, j)), inner_product(r, a, b, i, j, 16))
            &&& forall|v: ThreadId, reg: RegId|
                v.0 < m.threads.len() && (!members.contains(v) || !dst.contains(reg))
                    ==> #[trigger] z.reg_value(v, reg) == m.reg_value(v, reg)
        }),
{
    let maps = (Fragment::NarrowA, Fragment::NarrowB, Fragment::NarrowC);
    let want = cells_of(8, a, b, c);
    lemma_cells(8, a, b, c);
    lemma_lanes(members, base, m.threads.len());
    assert forall|p: int| 0 <= p < members.len() implies holds_part(
        m,
        #[trigger] members[p],
        maps,
        src_a,
        src_b,
        src_c,
        want,
    ) by {
        lemma_narrow_parts(m, base, p, src_a, src_b, src_c, a, b, c);
    }
    // The element that holds D[i][j].
    let l = 4 * (i % 8) + j / 2;
    let q = 2 * (i / 8) + j % 2;
    lemma_narrow_home(i, j);
    assert(members[l] == ThreadId((base + l) as u32));
    assert((members[l].0 % WARP_SIZE) as u32 == l);
    lemma_product_in_place(
        r,
        m,
        pc,
        mask,
        members,
        maps,
        dst,
        src_a,
        src_b,
        src_c,
        a,
        b,
        c,
        want,
        l,
        q as u32,
    );
}

/// With all of `A` zero, `mma.sync` leaves the numbers of `C` in `D`.
pub proof fn mma_of_a_zero_matrix_gives_its_accumulator<K>(
    r: Reading<K>,
    m: Machine,
    pc: InstrId,
    mask: u32,
    members: Seq<ThreadId>,
    base: int,
    dst: Seq<RegId>,
    src_a: Seq<RegId>,
    src_b: Seq<RegId>,
    src_c: Seq<RegId>,
    a: Matrix,
    b: Matrix,
    c: Matrix,
    i: int,
    j: int,
)
    requires
        whole_warp(members, base, m.threads.len()),
        canonical_exprs(m.exprs),
        m.env.program.instructions@[pc.0 as int] matches LoweredInstr::Mma {
            dst: d,
            src_a: x,
            src_b: y,
            src_c: z,
            ..
        } && d@ == dst && x@ == src_a && y@ == src_b && z@ == reg_operands(src_c),
        dst.no_duplicates(),
        warp_holds(m, base, src_a, src_b, src_c, a, b, c),
        forall|p: int, q: int|
            0 <= p < 16 && 0 <= q < 16 ==> (r.number)(#[trigger] a(p, q)) == r.k.zero,
        m.warp_op(pc, mask, members).1 is Ok,
        addressable(m.warp_op(pc, mask, members).0.exprs),
        r.of(m.warp_op(pc, mask, members).0.exprs),
        0 <= i < 16,
        0 <= j < 8,
    ensures
        m.warp_op(pc, mask, members).0.reg_value(
            ThreadId((base + 4 * (i % 8) + j / 2) as u32),
            dst[2 * (i / 8) + j % 2],
        ) matches Value::Scalar(x) && (r.number)(x) == (r.number)(c(i, j)),
{
    mma_multiplies_and_accumulates(
        r,
        m,
        pc,
        mask,
        members,
        base,
        dst,
        src_a,
        src_b,
        src_c,
        a,
        b,
        c,
        i,
        j,
    );
    assert(r.lawful()) by {
        reveal(Reading::of);
    }
    lemma_zero_product(r, a, b, i, j, 16);
    r.k.plus_zero((r.number)(c(i, j)));
}

proof fn lemma_zero_product<K>(r: Reading<K>, a: Matrix, b: Matrix, i: int, j: int, n: int)
    requires
        r.lawful(),
        0 <= n <= 16,
        0 <= i < 16,
        forall|p: int, q: int|
            0 <= p < 16 && 0 <= q < 16 ==> (r.number)(#[trigger] a(p, q)) == r.k.zero,
    ensures
        inner_product(r, a, b, i, j, n) == r.k.zero,
    decreases n,
{
    if n > 0 {
        lemma_zero_product(r, a, b, i, j, n - 1);
        let y = (r.number)(b(n - 1, j));
        assert((r.number)(a(i, n - 1)) == r.k.zero);
        r.k.times_zero(y);
        r.k.plus_zero(r.k.zero);
    }
}

/// Whether a warp holds `A`, `B` and `C` (16x16 each) as `wmma.mma` has them:
/// lanes `r` and `r + 16` both hold row `r` of `A` and of `B`, two elements to
/// a register, and lane `2 * i + j / 8` holds `C[i][j]`.
#[verifier::opaque]
pub open spec fn warp_holds_square(
    m: Machine,
    base: int,
    src_a: Seq<RegId>,
    src_b: Seq<RegId>,
    src_c: Seq<RegId>,
    a: Matrix,
    b: Matrix,
    c: Matrix,
) -> bool {
    &&& forall|i: int, k: int, h: int|
        0 <= i < 16 && 0 <= k < 16 && 0 <= h < 2 ==> half_of(
            #[trigger] m.reg_value(ThreadId((base + i + 16 * h) as u32), src_a[k / 2]),
            k % 2 == 1,
        ) == #[trigger] a(i, k)
    &&& forall|k: int, j: int, h: int|
        0 <= k < 16 && 0 <= j < 16 && 0 <= h < 2 ==> half_of(
            #[trigger] m.reg_value(ThreadId((base + k + 16 * h) as u32), src_b[j / 2]),
            j % 2 == 1,
        ) == #[trigger] b(k, j)
    &&& forall|i: int, j: int|
        0 <= i < 16 && 0 <= j < 16 ==> m.reg_value(
            ThreadId((base + 2 * i + j / 8) as u32),
            src_c[j % 8],
        ) == Value::Scalar(#[trigger] c(i, j))
}

proof fn lemma_square_parts(
    m: Machine,
    base: int,
    l: int,
    src_a: Seq<RegId>,
    src_b: Seq<RegId>,
    src_c: Seq<RegId>,
    a: Matrix,
    b: Matrix,
    c: Matrix,
)
    requires
        0 <= l < 32,
        0 <= base,
        base % 32 == 0,
        base + 32 <= u32::MAX,
        warp_holds_square(m, base, src_a, src_b, src_c, a, b, c),
    ensures
        holds_part(
            m,
            ThreadId((base + l) as u32),
            (Fragment::SquareHalves, Fragment::SquareHalves, Fragment::SquareC),
            src_a,
            src_b,
            src_c,
            cells_of(16, a, b, c),
        ),
{
    reveal(warp_holds_square);
    let u = ThreadId((base + l) as u32);
    let lane = (u.0 % WARP_SIZE) as u32;
    assert(lane == l);
    let want = cells_of(16, a, b, c);
    lemma_cells(16, a, b, c);
    let halves = Fragment::SquareHalves;
    let (x, h) = (l % 16, l / 16);
    assert(l == x + 16 * h && 0 <= h < 2 && 0 <= x < 16);
    assert(u == ThreadId((base + x + 16 * h) as u32));
    assert forall|q: u32| q < halves.spec_count() implies ({
        let e = #[trigger] halves.spec_element(lane, q);
        half_of(m.reg_value(u, src_a[e.reg_idx as int]), e.high_half) == want(
            fragment_cell(0, halves, e),
        )
    }) by {
        let e = halves.spec_element(lane, q);
        let k = q as int;
        assert(m.reg_value(ThreadId((base + x + 16 * h) as u32), src_a[k / 2]) == m.reg_value(
            u,
            src_a[e.reg_idx as int],
        ));
        assert(a(x, k) == want(a_cell(x, k)));
        assert(fragment_cell(0, halves, e) == a_cell(x, k));
    }
    assert forall|q: u32| q < halves.spec_count() implies ({
        let e = #[trigger] halves.spec_element(lane, q);
        half_of(m.reg_value(u, src_b[e.reg_idx as int]), e.high_half) == want(
            fragment_cell(256, halves, e),
        )
    }) by {
        let e = halves.spec_element(lane, q);
        let k = q as int;
        assert(m.reg_value(ThreadId((base + x + 16 * h) as u32), src_b[k / 2]) == m.reg_value(
            u,
            src_b[e.reg_idx as int],
        ));
        assert(b(x, k) == want(b_cell(x, k, 16)));
        assert(fragment_cell(256, halves, e) == b_cell(x, k, 16));
    }
    assert forall|q: u32| q < Fragment::SquareC.spec_count() implies ({
        let e = #[trigger] Fragment::SquareC.spec_element(lane, q);
        m.reg_value(u, src_c[e.reg_idx as int]) == Value::Scalar(
            want(fragment_cell((256 + 16 * 16) as u32, Fragment::SquareC, e)),
        )
    }) by {
        let e = Fragment::SquareC.spec_element(lane, q);
        let (i, j) = (l / 2, l % 2 * 8 + q as int);
        assert(2 * i + j / 8 == l && j % 8 == q);
        assert(c(i, j) == want(c_cell(i * 16 + j, 16)));
        assert(fragment_cell((256 + 16 * 16) as u32, Fragment::SquareC, e) == c_cell(
            i * 16 + j,
            16,
        ));
    }
}

/// `wmma.mma` computes `D = A * B + C`: if the warp holds the matrices `A`,
/// `B` and `C` before a successful product, then afterwards the register of
/// `D[i][j]` holds the number of `C[i][j]` plus the sum over `k` of
/// `A[i][k] * B[k][j]`, whatever the symbols stand for. No other register
/// changes.
#[verifier::spinoff_prover]
pub proof fn wmma_multiplies_and_accumulates<K>(
    r: Reading<K>,
    m: Machine,
    pc: InstrId,
    mask: u32,
    members: Seq<ThreadId>,
    base: int,
    dst: Seq<RegId>,
    src_a: Seq<RegId>,
    src_b: Seq<RegId>,
    src_c: Seq<RegId>,
    a: Matrix,
    b: Matrix,
    c: Matrix,
    i: int,
    j: int,
)
    requires
        whole_warp(members, base, m.threads.len()),
        canonical_exprs(m.exprs),
        m.env.program.instructions@[pc.0 as int] matches LoweredInstr::WmmaMma {
            dst: d,
            src_a: x,
            src_b: y,
            src_c: z,
            ..
        } && d@ == dst && x@ == src_a && y@ == src_b && z@ == src_c,
        dst.no_duplicates(),
        warp_holds_square(m, base, src_a, src_b, src_c, a, b, c),
        m.warp_op(pc, mask, members).1 is Ok,
        addressable(m.warp_op(pc, mask, members).0.exprs),
        r.of(m.warp_op(pc, mask, members).0.exprs),
        0 <= i < 16,
        0 <= j < 16,
    ensures
        ({
            let z = m.warp_op(pc, mask, members).0;
            let u = ThreadId((base + 2 * i + j / 8) as u32);
            &&& z.reg_value(u, dst[j % 8]) matches Value::Scalar(x) && (r.number)(x)
                == r.plus((r.number)(c(i, j)), inner_product(r, a, b, i, j, 16))
            &&& forall|v: ThreadId, reg: RegId|
                v.0 < m.threads.len() && (!members.contains(v) || !dst.contains(reg))
                    ==> #[trigger] z.reg_value(v, reg) == m.reg_value(v, reg)
        }),
{
    let maps = (Fragment::SquareHalves, Fragment::SquareHalves, Fragment::SquareC);
    let want = cells_of(16, a, b, c);
    lemma_cells(16, a, b, c);
    lemma_lanes(members, base, m.threads.len());
    assert forall|p: int| 0 <= p < members.len() implies holds_part(
        m,
        #[trigger] members[p],
        maps,
        src_a,
        src_b,
        src_c,
        want,
    ) by {
        lemma_square_parts(m, base, p, src_a, src_b, src_c, a, b, c);
    }
    // The element that holds D[i][j].
    let l = 2 * i + j / 8;
    let q = j % 8;
    lemma_square_home(i, j);
    assert(members[l] == ThreadId((base + l) as u32));
    assert((members[l].0 % WARP_SIZE) as u32 == l);
    lemma_product_in_place(
        r,
        m,
        pc,
        mask,
        members,
        maps,
        dst,
        src_a,
        src_b,
        src_c,
        a,
        b,
        c,
        want,
        l,
        q as u32,
    );
}

} // verus!
