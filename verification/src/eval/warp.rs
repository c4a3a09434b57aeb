//! Data movement and compute of the warp-cooperative operations:
//! `shfl.sync`, `ldmatrix`, `mma.sync` and the `wmma` family.
//!
//! Every memory access is attributed to the lane that owns the fragment
//! element, so race checking stays byte- and thread-precise.

use vstd::prelude::*;

use crate::eval::arith::{Step, unsupported};
use crate::eval::error::{Detail, EvalError, EvalResult, WarpFault};
use crate::eval::int_ops::{low, mask_to};
use crate::eval::interp::Interpreter;
use crate::eval::machine::{Machine, Out, kind_mismatch, viewed};
use crate::eval::value::Value;
use crate::eval::{ThreadId, WARP_SIZE};
use crate::lowered::{InstrId, MemSpace, Operand, ShflMode};
use crate::symbolic::ExprId;
use crate::symbolic::arena::{ExprArena, Exprs};
use crate::symbols::RegId;
use crate::tensor_core::{Fragment, FragmentElement, MmaLayout, MmaOperand};
use crate::types::ScalarType;

verus! {

/// A list with one slot filled; a slot beyond it is ignored.
pub open spec fn placed<T>(s: Seq<T>, i: int, v: T) -> Seq<T> {
    if 0 <= i < s.len() {
        s.update(i, v)
    } else {
        s
    }
}

fn place<T>(s: &mut Vec<T>, i: usize, v: T)
    ensures
        final(s)@ == placed(old(s)@, i as int, v),
{
    if i < s.len() {
        s.set(i, v);
    }
}

/// A filled slot of a list.
pub open spec fn slot<T>(s: Seq<Option<T>>, i: int) -> Option<T> {
    if 0 <= i < s.len() {
        s[i]
    } else {
        None
    }
}

fn get_slot<T: Copy>(s: &Vec<Option<T>>, i: usize) -> (r: Option<T>)
    ensures
        r == slot(s@, i as int),
{
    if i < s.len() {
        s[i]
    } else {
        None
    }
}

/// An element of the matrices under assembly.
pub open spec fn cell_at(cells: Seq<Option<ExprId>>, i: int) -> Option<ExprId> {
    slot(cells, i)
}

fn get_cell(cells: &Vec<Option<ExprId>>, i: u32) -> (r: Option<ExprId>)
    ensures
        r == cell_at(cells@, i as int),
{
    get_slot(cells, i as usize)
}

/// Place of `A[i][k]` among the matrices under assembly: `A` comes first, 16
/// columns wide.
pub open spec fn a_cell(i: int, k: int) -> int {
    i * 16 + k
}

/// Place of `B[k][j]`: `B` follows, `n` columns wide.
pub open spec fn b_cell(k: int, j: int, n: int) -> int {
    256 + k * n + j
}

/// Place of element `q` of `C` in row-major order: `C` comes last.
pub open spec fn c_cell(q: int, n: int) -> int {
    256 + 16 * n + q
}

/// Place of a fragment element in a matrix that starts at `base`.
pub open spec fn fragment_cell(base: u32, fragment: Fragment, elem: FragmentElement) -> int {
    base + elem.row * fragment.cols() + elem.col
}

fn cell_index(base: u32, fragment: Fragment, elem: FragmentElement) -> (r: usize)
    requires
        base <= 512,
        elem.row < 16,
        elem.col < fragment.spec_cols(),
    ensures
        r == fragment_cell(base, fragment, elem),
{
    let cols: u32 = fragment.cols();
    let row: u32 = elem.row;
    assert(0 <= row * cols <= 15 * 16) by (nonlinear_arith)
        requires
            0 <= row <= 15,
            0 <= cols <= 16,
    ;
    (base + row * cols + elem.col) as usize
}

pub open spec fn no_values() -> Seq<Option<Value>> {
    Seq::new(32, |i: int| None)
}

fn empty_values() -> (r: Vec<Option<Value>>)
    ensures
        r@ == no_values(),
{
    let mut v: Vec<Option<Value>> = Vec::new();
    let mut i: usize = 0;
    while i < 32
        invariant
            i <= 32,
            v@ == Seq::new(i as nat, |k: int| None::<Value>),
        decreases 32 - i,
    {
        v.push(None);
        i = i + 1;
        assert(v@ =~= Seq::new(i as nat, |k: int| None::<Value>));
    }
    v
}

pub open spec fn no_cells(n: nat) -> Seq<Option<ExprId>> {
    Seq::new(n, |i: int| None)
}

fn empty_cells(n: u32) -> (r: Vec<Option<ExprId>>)
    ensures
        r@ == no_cells(n as nat),
{
    let mut v: Vec<Option<ExprId>> = Vec::new();
    let mut i: u32 = 0;
    while i < n
        invariant
            i <= n,
            v@ == Seq::new(i as nat, |k: int| None::<ExprId>),
        decreases n - i,
    {
        v.push(None);
        i = i + 1;
        assert(v@ =~= Seq::new(i as nat, |k: int| None::<ExprId>));
    }
    v
}

/// The lane that a shuffle reads, and whether it is in range: up, down,
/// butterfly or indexed within a segment of the warp. A lane out of range
/// reads itself.
pub open spec fn spec_shfl_source(mode: ShflMode, lane: u32, b: i64, c: i64) -> (u32, bool) {
    let by = low(b as int, 5) as u32;
    let bound = low(c as int, 5) as u32;
    let segment = low((c >> 8u64) as int, 5) as u32;
    let last = (lane & segment) | (bound & !segment);
    let (source, in_range) = match mode {
        ShflMode::Up => (lane - by, lane - by >= last),
        ShflMode::Down => (lane + by, lane + by <= last),
        ShflMode::Bfly => ((lane ^ by) as int, (lane ^ by) <= last),
        ShflMode::Idx => (
            ((lane & segment) | (by & !segment)) as int,
            ((lane & segment) | (by & !segment)) <= last,
        ),
    };
    (
        if in_range {
            source as u32
        } else {
            lane
        },
        in_range,
    )
}

/// Computes the lane that a shuffle reads.
#[verifier::when_used_as_spec(spec_shfl_source)]
pub fn shfl_source(mode: ShflMode, lane: u32, b: i64, c: i64) -> (r: (u32, bool))
    requires
        lane < 32,
    ensures
        r == spec_shfl_source(mode, lane, b, c),
        r.0 < 32,
{
    proof {
        vstd::arithmetic::power2::lemma2_to64();
    }
    let by: u32 = mask_to(b, 5) as u32;
    let bound: u32 = mask_to(c, 5) as u32;
    let segment: u32 = mask_to(c >> 8u64, 5) as u32;
    assert(by < 32 && bound < 32 && segment < 32);
    let last: u32 = (lane & segment) | (bound & !segment);
    let indexed: u32 = (lane & segment) | (by & !segment);
    assert(last < 32 && indexed < 32 && (lane ^ by) < 32) by (bit_vector)
        requires
            last == (lane & segment) | (bound & !segment),
            indexed == (lane & segment) | (by & !segment),
            lane < 32,
            by < 32,
            bound < 32,
            segment < 32,
    ;
    match mode {
        ShflMode::Up => if lane >= by && lane - by >= last {
            (lane - by, true)
        } else {
            (lane, false)
        },
        ShflMode::Down => if lane + by <= last {
            (lane + by, true)
        } else {
            (lane, false)
        },
        ShflMode::Bfly => if (lane ^ by) <= last {
            (lane ^ by, true)
        } else {
            (lane, false)
        },
        ShflMode::Idx => if indexed <= last {
            (indexed, true)
        } else {
            (lane, false)
        },
    }
}

/// Elements between the start of a matrix in memory and one of its elements.
pub open spec fn elem_offset(layout: MmaLayout, row: u32, col: u32, stride: u64) -> u64 {
    match layout {
        MmaLayout::Row => (row as u64).wrapping_mul(stride).wrapping_add(col as u64),
        MmaLayout::Col => (col as u64).wrapping_mul(stride).wrapping_add(row as u64),
    }
}

/// Address of a fragment element in a matrix in memory.
pub open spec fn spec_wmma_addr(
    place: (u64, u64),
    layout: MmaLayout,
    elem: FragmentElement,
    bytes: u64,
) -> u64 {
    place.0.wrapping_add(elem_offset(layout, elem.row, elem.col, place.1).wrapping_mul(bytes))
}

/// Address of a fragment element in a matrix in memory.
#[verifier::when_used_as_spec(spec_wmma_addr)]
pub fn wmma_addr(
    place: (u64, u64),
    layout: MmaLayout,
    elem: FragmentElement,
    bytes: u64,
) -> (r: u64)
    ensures
        r == spec_wmma_addr(place, layout, elem, bytes),
{
    let off: u64 = match layout {
        MmaLayout::Row => (elem.row as u64).wrapping_mul(place.1).wrapping_add(elem.col as u64),
        MmaLayout::Col => (elem.col as u64).wrapping_mul(place.1).wrapping_add(elem.row as u64),
    };
    place.0.wrapping_add(off.wrapping_mul(bytes))
}

fn beyond_space(base: u64, stride: u64, ty: ScalarType) -> (r: bool)
    ensures
        r == (base + (15 * stride + 15) * ty.size_bytes() > u64::MAX),
{
    let bytes: u128 = ty.size_bytes() as u128;
    let most: u128 = 15 * stride as u128 + 15;
    assert(most * bytes <= 0x10_0000_0000_0000_0000 * 16) by (nonlinear_arith)
        requires
            most <= 0x10_0000_0000_0000_0000,
            bytes <= 16,
    ;
    base as u128 + most * bytes > u64::MAX as u128
}

impl<'p> Interpreter<'p> {
    /// Whether all threads of a list belong to the block.
    pub open spec fn has_all(&self, members: Seq<ThreadId>) -> bool {
        forall|i: int|
            0 <= i < members.len() ==> (#[trigger] members[i]).0 < self.setup.n_threads
    }
}

/// Row `i` of `A` times column `j` of `B`, added to a seed from the `k`-th
/// product on.
pub open spec fn chain_spec(
    s: Exprs,
    pc: InstrId,
    cells: Seq<Option<ExprId>>,
    i: u32,
    j: u32,
    n: u32,
    sum: ExprId,
    k: int,
) -> Step<ExprId>
    decreases 16 - k,
{
    if k >= 16 {
        (s, Ok(sum))
    } else {
        match cell_at(cells, a_cell(i as int, k)) {
            None => (
                s,
                Err(
                    EvalError::Unsupported {
                        pc,
                        what: Detail::FragmentHole { row: i, col: k as u32 },
                    },
                ),
            ),
            Some(a) => {
                match cell_at(cells, b_cell(k, j as int, n as int)) {
                    None => (
                        s,
                        Err(
                            EvalError::Unsupported {
                                pc,
                                what: Detail::FragmentHole { row: k as u32, col: j },
                            },
                        ),
                    ),
                    Some(b) => {
                        let (s1, x) = s.fused(a, b, sum);
                        chain_spec(s1, pc, cells, i, j, n, x, k + 1)
                    },
                }
            },
        }
    }
}

/// `A * B + C` in row-major order from the `q`-th element on.
pub open spec fn product_spec(
    s: Exprs,
    pc: InstrId,
    cells: Seq<Option<ExprId>>,
    n: u32,
    d: Seq<ExprId>,
    q: int,
) -> Step<Seq<ExprId>>
    decreases (16 * n) - q,
{
    if q >= (16 * n) {
        (s, Ok(d))
    } else {
        match cell_at(cells, c_cell(q, n as int)) {
            None => (
                s,
                Err(
                    EvalError::Unsupported {
                        pc,
                        what: Detail::FragmentHole {
                            row: (q / (n as int)) as u32,
                            col: (q % (n as int)) as u32,
                        },
                    },
                ),
            ),
            Some(c) => {
                match chain_spec(
                    s,
                    pc,
                    cells,
                    (q / (n as int)) as u32,
                    (q % (n as int)) as u32,
                    n,
                    c,
                    0,
                ) {
                    (s1, Err(e)) => (s1, Err(e)),
                    (s1, Ok(x)) => {
                        product_spec(s1, pc, cells, n, d.push(x), q + 1)
                    },
                }
            },
        }
    }
}

/// Row `i` of `A` times column `j` of `B`, added to a seed from the `k`-th
/// product on.
pub fn fma_chain(
    arena: &mut ExprArena,
    pc: InstrId,
    cells: &Vec<Option<ExprId>>,
    i: u32,
    j: u32,
    n: u32,
    seed: ExprId,
) -> (r: Result<ExprId, EvalError>)
    requires
        old(arena).wf(),
        i < 16,
        j < n,
        n == 8 || n == 16,
    ensures
        final(arena).wf(),
        (final(arena)@, r) == chain_spec(old(arena)@, pc, cells@, i, j, n, seed, 0),
{
    let mut sum: ExprId = seed;
    let mut k: u32 = 0;
    while k < 16
        invariant
            arena.wf(),
            i < 16,
            j < n,
            n == 8 || n == 16,
            k <= 16,
            chain_spec(old(arena)@, pc, cells@, i, j, n, seed, 0) == chain_spec(
                arena@,
                pc,
                cells@,
                i,
                j,
                n,
                sum,
                k as int,
            ),
        decreases 16 - k,
    {
        let a = match get_cell(cells, i * 16 + k) {
            None => {
                return Err(
                    EvalError::Unsupported {
                        pc,
                        what: Detail::FragmentHole { row: i, col: k as u32 },
                    },
                );
            },
            Some(v) => v,
        };
        assert(k * n <= 15 * 16) by (nonlinear_arith) requires 0 <= k <= 15, 0 <= n <= 16;
        let b = match get_cell(cells, 256 + k * n + j) {
            None => {
                return Err(
                    EvalError::Unsupported {
                        pc,
                        what: Detail::FragmentHole { row: k as u32, col: j },
                    },
                );
            },
            Some(v) => v,
        };
        let x = arena.fma(a, b, sum);
        sum = x;
        k = k + 1;
    }
    Ok(sum)
}

/// `A * B + C` in row-major order from the `q`-th element on.
pub fn matmul_acc(
    arena: &mut ExprArena,
    pc: InstrId,
    cells: &Vec<Option<ExprId>>,
    n: u32,
) -> (r: Result<Vec<ExprId>, EvalError>)
    requires
        old(arena).wf(),
        n == 8 || n == 16,
    ensures
        final(arena).wf(),
        (final(arena)@, viewed(r)) == product_spec(old(arena)@, pc, cells@, n, Seq::empty(), 0),
{
    let mut d: Vec<ExprId> = Vec::new();
    let mut q: u32 = 0;
    while q < 16 * n
        invariant
            arena.wf(),
            n == 8 || n == 16,
            q <= 16 * n,
            product_spec(
                old(arena)@,
                pc,
                cells@,
                n,
                Seq::empty(),
                0,
            ) == product_spec(arena@, pc, cells@, n, d@, q as int),
        decreases 16 * n - q,
    {
        assert(q / n < 16) by (nonlinear_arith) requires 0 <= q < 16 * n, n > 0;
        let c = match get_cell(cells, 256 + 16 * n + q) {
            None => {
                return Err(
                    EvalError::Unsupported {
                        pc,
                        what: Detail::FragmentHole { row: q / n, col: q % n },
                    },
                );
            },
            Some(v) => v,
        };
        let x = match fma_chain(arena, pc, cells, q / n, q % n, n, c) {
            Err(e) => {
                return Err(e);
            },
            Ok(v) => v,
        };
        d.push(x);
        q = q + 1;
    }
    Ok(d)
}

impl Machine {
    /// The value of an operand that has to be the same on every lane, from the
    /// `k`-th lane on.
    pub open spec fn uniform(
        self,
        t: ThreadId,
        pc: InstrId,
        members: Seq<ThreadId>,
        op: Operand,
        what: &'static str,
        first: Option<i64>,
        k: int,
    ) -> Out<Option<i64>>
        decreases members.len() - k,
    {
        if k >= members.len() {
            (self, Ok(first))
        } else {
            match self.concrete_operand(members[k], pc, op, what) {
                (m, Err(e)) => (m, Err(e)),
                (m, Ok(v)) => {
                    match first {
                        None => {
                            m.uniform(t, pc, members, op, what, Some(v), k + 1)
                        },
                        Some(x) => {
                            if x != v {
                                (
                                    m,
                                    Err(
                                        EvalError::WarpMismatch {
                                            pc,
                                            reason: WarpFault::Differs { what, first: x, other: v },
                                        },
                                    ),
                                )
                            } else {
                                m.uniform(t, pc, members, op, what, first, k + 1)
                            }
                        },
                    }
                },
            }
        }
    }

    /// An operand that has to be concrete and the same on every lane.
    #[verifier::opaque]
    pub open spec fn uniform_concrete(
        self,
        t: ThreadId,
        pc: InstrId,
        members: Seq<ThreadId>,
        op: Operand,
        what: &'static str,
    ) -> Out<i64> {
        match self.uniform(t, pc, members, op, what, None, 0) {
            (m, Err(e)) => (m, Err(e)),
            (m, Ok(v)) => {
                match v {
                    None => {
                        (
                            m,
                            Err(
                                EvalError::WarpMismatch {
                                    pc,
                                    reason: WarpFault::Text { text: "empty warp group" },
                                },
                            ),
                        )
                    },
                    Some(x) => {
                        (m, Ok(x))
                    },
                }
            },
        }
    }

    /// The source values of a shuffle by lane, from the `k`-th member on.
    pub open spec fn shfl_sources(
        self,
        t: ThreadId,
        pc: InstrId,
        members: Seq<ThreadId>,
        src: Operand,
        values: Seq<Option<Value>>,
        k: int,
    ) -> Out<Seq<Option<Value>>>
        decreases members.len() - k,
    {
        if k >= members.len() {
            (self, Ok(values))
        } else {
            match self.operand_value(members[k], pc, src) {
                (m, Err(e)) => (m, Err(e)),
                (m, Ok(v)) => {
                    m.shfl_sources(
                        t,
                        pc,
                        members,
                        src,
                        placed(values, (members[k].0 % WARP_SIZE) as int, Some(v)),
                        k + 1,
                    )
                },
            }
        }
    }

    /// What a lane gets from a shuffle: its predicate and the value of its
    /// source lane.
    #[verifier::opaque]
    pub open spec fn shfl_result(
        self,
        t: ThreadId,
        pc: InstrId,
        u: ThreadId,
        mask: u32,
        mode: ShflMode,
        values: Seq<Option<Value>>,
        lane_op: Operand,
        clamp: Operand,
    ) -> Out<(ThreadId, bool, Value)> {
        match self.concrete_operand(u, pc, lane_op, "shfl.sync lane operand") {
            (m, Err(e)) => (m, Err(e)),
            (m, Ok(b)) => {
                match m.concrete_operand(u, pc, clamp, "shfl.sync clamp operand") {
                    (m, Err(e)) => (m, Err(e)),
                    (m, Ok(c)) => {
                        let source = shfl_source(mode, (u.0 % WARP_SIZE) as u32, b, c);
                        if (mask >> source.0) & 1 == 0 {
                            (
                                m,
                                Err(
                                    EvalError::WarpMismatch {
                                        pc,
                                        reason: WarpFault::SourceOutsideMask {
                                            lane: (u.0 % WARP_SIZE) as i64,
                                            source: source.0 as i64,
                                            mask,
                                        },
                                    },
                                ),
                            )
                        } else {
                            match slot(values, source.0 as int) {
                                Some(v) => {
                                    (m, Ok((u, source.1, v)))
                                },
                                None => {
                                    let (s, x) = m.exprs.undefined();
                                    let m = m.with_exprs(s);
                                    (m, Ok((u, source.1, Value::Scalar(x))))
                                },
                            }
                        }
                    },
                }
            },
        }
    }

    /// What the members get from a shuffle, from the `k`-th on.
    pub open spec fn shfl_results(
        self,
        t: ThreadId,
        pc: InstrId,
        members: Seq<ThreadId>,
        mask: u32,
        mode: ShflMode,
        values: Seq<Option<Value>>,
        lane_op: Operand,
        clamp: Operand,
        results: Seq<(ThreadId, bool, Value)>,
        k: int,
    ) -> Out<Seq<(ThreadId, bool, Value)>>
        decreases members.len() - k,
    {
        if k >= members.len() {
            (self, Ok(results))
        } else {
            match self.shfl_result(t, pc, members[k], mask, mode, values, lane_op, clamp) {
                (m, Err(e)) => (m, Err(e)),
                (m, Ok(x)) => {
                    m.shfl_results(
                        t,
                        pc,
                        members,
                        mask,
                        mode,
                        values,
                        lane_op,
                        clamp,
                        results.push(x),
                        k + 1,
                    )
                },
            }
        }
    }

    /// The writes of a shuffle from the `k`-th member on.
    pub open spec fn shfl_write(
        self,
        t: ThreadId,
        pc: InstrId,
        results: Seq<(ThreadId, bool, Value)>,
        dst: RegId,
        dst_pred: Option<RegId>,
        k: int,
    ) -> Out<()>
        decreases results.len() - k,
    {
        if k >= results.len() {
            (self, Ok(()))
        } else {
            let it = results[k];
            match self.write_reg(it.0, pc, dst, it.2) {
                (m, Err(e)) => (m, Err(e)),
                (m, Ok(_)) => {
                    match dst_pred {
                        None => {
                            m.shfl_write(t, pc, results, dst, dst_pred, k + 1)
                        },
                        Some(p) => {
                            let (s, x) = m.exprs.bool_val(it.1);
                            let m = m.with_exprs(s);
                            match m.write_reg(it.0, pc, p, Value::Scalar(x)) {
                                (m, Err(e)) => (m, Err(e)),
                                (m, Ok(_)) => {
                                    m.shfl_write(t, pc, results, dst, dst_pred, k + 1)
                                },
                            }
                        },
                    }
                },
            }
        }
    }

    /// `shfl.sync`: an exchange of register values within the mask group. The
    /// data of an exited source lane is undefined.
    #[verifier::opaque]
    pub open spec fn shfl_sync(
        self,
        t: ThreadId,
        pc: InstrId,
        mask: u32,
        members: Seq<ThreadId>,
        mode: ShflMode,
        dst: RegId,
        dst_pred: Option<RegId>,
        src: Operand,
        lane_op: Operand,
        clamp: Operand,
    ) -> Out<()> {
        match self.shfl_sources(t, pc, members, src, no_values(), 0) {
            (m, Err(e)) => (m, Err(e)),
            (m, Ok(values)) => {
                match m.shfl_results(
                    t,
                    pc,
                    members,
                    mask,
                    mode,
                    values,
                    lane_op,
                    clamp,
                    Seq::empty(),
                    0,
                ) {
                    (m, Err(e)) => (m, Err(e)),
                    (m, Ok(results)) => {
                        m.shfl_write(t, pc, results, dst, dst_pred, 0)
                    },
                }
            },
        }
    }

    /// The row addresses that the first lanes of a warp supply, from the `q`-th
    /// on; every row is one aligned 16-byte access.
    pub open spec fn row_addrs(
        self,
        t: ThreadId,
        pc: InstrId,
        members: Seq<ThreadId>,
        addr: Operand,
        addr_offset: i64,
        rows: u64,
        what: &'static str,
        addrs: Seq<u64>,
        q: int,
    ) -> Out<Seq<u64>>
        decreases rows - q,
    {
        if q >= rows {
            (self, Ok(addrs))
        } else {
            if q >= members.len() {
                (self, Err(unsupported(pc, "more matrix rows than lanes")))
            } else {
                match self.concrete_operand(members[q], pc, addr, what) {
                    (m, Err(e)) => (m, Err(e)),
                    (m, Ok(a)) => {
                        let at = (a as u64).wrapping_add(addr_offset as u64);
                        match Machine::alignment_error(members[q], pc, MemSpace::Shared, at, 16) {
                            Some(e) => (m, Err(e)),
                            None => {
                                m.row_addrs(
                                    t,
                                    pc,
                                    members,
                                    addr,
                                    addr_offset,
                                    rows,
                                    what,
                                    addrs.push(at),
                                    q + 1,
                                )
                            },
                        }
                    },
                }
            }
        }
    }

    /// One 16-bit element of a matrix in shared memory.
    #[verifier::opaque]
    pub open spec fn matrix_half(
        self,
        t: ThreadId,
        pc: InstrId,
        u: ThreadId,
        addr: u64,
    ) -> Out<ExprId> {
        match self.mem_read(u, pc, MemSpace::Shared, addr, 2) {
            (m, Err(e)) => (m, Err(e)),
            (m, Ok(v)) => {
                match v {
                    Value::Scalar(e) => {
                        (m, Ok(e))
                    },
                    _ => {
                        (m, Err(kind_mismatch(u, pc, "ldmatrix element is not a scalar")))
                    },
                }
            },
        }
    }

    /// What a lane gets of matrix `i`: two neighbours of a row, or of a column
    /// if transposed.
    #[verifier::opaque]
    pub open spec fn matrix_value(
        self,
        t: ThreadId,
        pc: InstrId,
        u: ThreadId,
        addrs: Seq<u64>,
        i: u64,
        trans: bool,
    ) -> Out<Value> {
        let lane = (u.0 % WARP_SIZE) as u32;
        if trans {
            match self.matrix_half(
                t,
                pc,
                u,
                addrs[i * 8 + 2 * (lane % 4)].wrapping_add((lane / 4 * 2) as u64),
            ) {
                (m, Err(e)) => (m, Err(e)),
                (m, Ok(lo)) => {
                    match m.matrix_half(
                        t,
                        pc,
                        u,
                        addrs[i * 8 + 2 * (lane % 4) + 1].wrapping_add((lane / 4 * 2) as u64),
                    ) {
                        (m, Err(e)) => (m, Err(e)),
                        (m, Ok(hi)) => {
                            (m, Ok(Value::Pair(lo, hi)))
                        },
                    }
                },
            }
        } else {
            self.mem_read(
                u,
                pc,
                MemSpace::Shared,
                addrs[i * 8 + lane / 4].wrapping_add((lane % 4 * 4) as u64),
                4,
            )
        }
    }

    /// A lane's share of the matrices from the `i`-th on.
    pub open spec fn lane_matrices(
        self,
        t: ThreadId,
        pc: InstrId,
        u: ThreadId,
        dst: Seq<RegId>,
        addrs: Seq<u64>,
        trans: bool,
        i: int,
    ) -> Out<()>
        decreases dst.len() - i,
    {
        if i >= dst.len() {
            (self, Ok(()))
        } else {
            match self.matrix_value(t, pc, u, addrs, i as u64, trans) {
                (m, Err(e)) => (m, Err(e)),
                (m, Ok(v)) => {
                    match m.write_reg(u, pc, dst[i], v) {
                        (m, Err(e)) => (m, Err(e)),
                        (m, Ok(_)) => {
                            m.lane_matrices(t, pc, u, dst, addrs, trans, i + 1)
                        },
                    }
                },
            }
        }
    }

    /// The members' shares of the matrices from the `k`-th member on.
    pub open spec fn load_matrices(
        self,
        t: ThreadId,
        pc: InstrId,
        members: Seq<ThreadId>,
        dst: Seq<RegId>,
        addrs: Seq<u64>,
        trans: bool,
        k: int,
    ) -> Out<()>
        decreases members.len() - k,
    {
        if k >= members.len() {
            (self, Ok(()))
        } else {
            match self.lane_matrices(t, pc, members[k], dst, addrs, trans, 0) {
                (m, Err(e)) => (m, Err(e)),
                (m, Ok(_)) => {
                    m.load_matrices(t, pc, members, dst, addrs, trans, k + 1)
                },
            }
        }
    }

    /// `ldmatrix`: a cooperative load of 8x8 matrices of 16-bit elements.
    #[verifier::opaque]
    pub open spec fn ldmatrix(
        self,
        t: ThreadId,
        pc: InstrId,
        members: Seq<ThreadId>,
        dst: Seq<RegId>,
        addr: Operand,
        addr_offset: i64,
        trans: bool,
    ) -> Out<()> {
        if dst.len() > 4 {
            (self, Err(unsupported(pc, "more matrix rows than lanes")))
        } else {
            match self.row_addrs(
                t,
                pc,
                members,
                addr,
                addr_offset,
                (dst.len() * 8) as u64,
                "ldmatrix row address",
                Seq::empty(),
                0,
            ) {
                (m, Err(e)) => (m, Err(e)),
                (m, Ok(addrs)) => {
                    m.load_matrices(t, pc, members, dst, addrs, trans, 0)
                },
            }
        }
    }

    /// Places a lane's packed fragment into a matrix from its `i`-th element
    /// on.
    pub open spec fn gather_halves(
        self,
        t: ThreadId,
        pc: InstrId,
        u: ThreadId,
        regs: Seq<RegId>,
        fragment: Fragment,
        base: u32,
        cells: Seq<Option<ExprId>>,
        i: int,
    ) -> Out<Seq<Option<ExprId>>>
        decreases fragment.count() - i,
    {
        if i >= fragment.count() {
            (self, Ok(cells))
        } else {
            let elem = fragment.element((u.0 % WARP_SIZE) as u32, i as u32);
            if elem.reg_idx >= regs.len() {
                (self, Err(unsupported(pc, "too few fragment registers")))
            } else {
                match self.read_reg(u, pc, regs[elem.reg_idx as int]) {
                    Err(e) => (self, Err(e)),
                    Ok(v) => {
                        match v {
                            Value::Pair(lo, hi) => {
                                self.gather_halves(
                                    t,
                                    pc,
                                    u,
                                    regs,
                                    fragment,
                                    base,
                                    placed(
                                        cells,
                                        fragment_cell(base, fragment, elem),
                                        Some(if elem.high_half { hi } else { lo }),
                                    ),
                                    i + 1,
                                )
                            },
                            _ => {
                                (
                                    self,
                                    Err(
                                        kind_mismatch(
                                            u,
                                            pc,
                                            "matrix fragment register does not hold a packed f16 pair",
                                        ),
                                    ),
                                )
                            },
                        }
                    },
                }
            }
        }
    }

    /// Places a lane's accumulator fragment into a matrix from its `i`-th
    /// element on.
    pub open spec fn gather_floats(
        self,
        t: ThreadId,
        pc: InstrId,
        u: ThreadId,
        ops: Seq<Operand>,
        fragment: Fragment,
        base: u32,
        cells: Seq<Option<ExprId>>,
        i: int,
    ) -> Out<Seq<Option<ExprId>>>
        decreases fragment.count() - i,
    {
        if i >= fragment.count() {
            (self, Ok(cells))
        } else {
            let elem = fragment.element((u.0 % WARP_SIZE) as u32, i as u32);
            if elem.reg_idx >= ops.len() {
                (self, Err(unsupported(pc, "too few fragment registers")))
            } else {
                match self.operand_value(u, pc, ops[elem.reg_idx as int]) {
                    (m, Err(e)) => (m, Err(e)),
                    (m, Ok(v)) => {
                        match v {
                            Value::Scalar(e) => {
                                m.gather_floats(
                                    t,
                                    pc,
                                    u,
                                    ops,
                                    fragment,
                                    base,
                                    placed(cells, fragment_cell(base, fragment, elem), Some(e)),
                                    i + 1,
                                )
                            },
                            _ => {
                                (
                                    m,
                                    Err(
                                        kind_mismatch(
                                            u,
                                            pc,
                                            "accumulator fragment register holds a packed pair",
                                        ),
                                    ),
                                )
                            },
                        }
                    },
                }
            }
        }
    }

    /// The matrices `A`, `B` and `C` put together from the lanes' fragments,
    /// from the `k`-th member on.
    pub open spec fn gather(
        self,
        t: ThreadId,
        pc: InstrId,
        members: Seq<ThreadId>,
        maps: (Fragment, Fragment, Fragment),
        src_a: Seq<RegId>,
        src_b: Seq<RegId>,
        src_c: Seq<Operand>,
        cells: Seq<Option<ExprId>>,
        k: int,
    ) -> Out<Seq<Option<ExprId>>>
        decreases members.len() - k,
    {
        if k >= members.len() {
            (self, Ok(cells))
        } else {
            match self.gather_halves(t, pc, members[k], src_a, maps.0, 0, cells, 0) {
                (m, Err(e)) => (m, Err(e)),
                (m, Ok(with_a)) => {
                    match m.gather_halves(t, pc, members[k], src_b, maps.1, 256, with_a, 0) {
                        (m, Err(e)) => (m, Err(e)),
                        (m, Ok(with_b)) => {
                            match m.gather_floats(
                                t,
                                pc,
                                members[k],
                                src_c,
                                maps.2,
                                (256 + 16 * maps.2.cols()) as u32,
                                with_b,
                                0,
                            ) {
                                (m, Err(e)) => (m, Err(e)),
                                (m, Ok(with_c)) => {
                                    m.gather(
                                        t,
                                        pc,
                                        members,
                                        maps,
                                        src_a,
                                        src_b,
                                        src_c,
                                        with_c,
                                        k + 1,
                                    )
                                },
                            }
                        },
                    }
                },
            }
        }
    }

    /// A lane's share of a result from its `i`-th element on.
    pub open spec fn scatter_lane(
        self,
        t: ThreadId,
        pc: InstrId,
        u: ThreadId,
        dst: Seq<RegId>,
        fragment: Fragment,
        d: Seq<ExprId>,
        i: int,
    ) -> Out<()>
        decreases fragment.count() - i,
    {
        if i >= fragment.count() {
            (self, Ok(()))
        } else {
            let elem = fragment.element((u.0 % WARP_SIZE) as u32, i as u32);
            if elem.reg_idx >= dst.len() {
                (self, Err(unsupported(pc, "too few fragment registers")))
            } else {
                if fragment_cell(0, fragment, elem) >= d.len() {
                    (
                        self,
                        Err(
                            EvalError::Unsupported {
                                pc,
                                what: Detail::FragmentHole { row: elem.row, col: elem.col },
                            },
                        ),
                    )
                } else {
                    let x = d[fragment_cell(0, fragment, elem)];
                    match self.write_reg(u, pc, dst[elem.reg_idx as int], Value::Scalar(x)) {
                        (m, Err(e)) => (m, Err(e)),
                        (m, Ok(_)) => {
                            m.scatter_lane(t, pc, u, dst, fragment, d, i + 1)
                        },
                    }
                }
            }
        }
    }

    /// The lanes' shares of a result from the `k`-th member on.
    pub open spec fn scatter(
        self,
        t: ThreadId,
        pc: InstrId,
        members: Seq<ThreadId>,
        dst: Seq<RegId>,
        fragment: Fragment,
        d: Seq<ExprId>,
        k: int,
    ) -> Out<()>
        decreases members.len() - k,
    {
        if k >= members.len() {
            (self, Ok(()))
        } else {
            match self.scatter_lane(t, pc, members[k], dst, fragment, d, 0) {
                (m, Err(e)) => (m, Err(e)),
                (m, Ok(_)) => {
                    m.scatter(t, pc, members, dst, fragment, d, k + 1)
                },
            }
        }
    }

    /// `D = A * B + C` on the lanes' fragments.
    #[verifier::opaque]
    pub open spec fn warp_product(
        self,
        t: ThreadId,
        pc: InstrId,
        members: Seq<ThreadId>,
        maps: (Fragment, Fragment, Fragment),
        dst: Seq<RegId>,
        src_a: Seq<RegId>,
        src_b: Seq<RegId>,
        src_c: Seq<Operand>,
    ) -> Out<()> {
        let n = maps.2.cols();
        match self.gather(
            t,
            pc,
            members,
            maps,
            src_a,
            src_b,
            src_c,
            no_cells((256 + 32 * n) as nat),
            0,
        ) {
            (m, Err(e)) => (m, Err(e)),
            (m, Ok(cells)) => {
                match m.lift(product_spec(m.exprs, pc, cells, n, Seq::empty(), 0)) {
                    (m, Err(e)) => (m, Err(e)),
                    (m, Ok(d)) => {
                        m.scatter(t, pc, members, dst, maps.2, d, 0)
                    },
                }
            },
        }
    }

    /// A matrix's stride in memory: at least its leading dimension, from an
    /// aligned base, with aligned rows, inside the address space.
    #[verifier::opaque]
    pub open spec fn wmma_addressing(
        self,
        t: ThreadId,
        pc: InstrId,
        space: MemSpace,
        base: u64,
        stride: i64,
        ty: ScalarType,
    ) -> Out<u64> {
        if stride < 16 {
            (self, Err(EvalError::WmmaStrideTooSmall { pc, stride, minimum: 16 }))
        } else {
            match Machine::alignment_error(t, pc, space, base, 32) {
                Some(e) => (self, Err(e)),
                None => {
                    if base + (15 * stride + 15) * ty.size_bytes() > u64::MAX {
                        (
                            self,
                            Err(
                                EvalError::Unsupported {
                                    pc,
                                    what: Detail::WmmaFootprint { base, stride: stride as u64 },
                                },
                            ),
                        )
                    } else {
                        let row_bytes = (stride * ty.size_bytes()) as u64;
                        if row_bytes % 16 != 0 {
                            (
                                self,
                                Err(
                                    EvalError::Misaligned {
                                        thread: t,
                                        pc,
                                        space,
                                        addr: (base + row_bytes) as u64,
                                        required: 16,
                                    },
                                ),
                            )
                        } else {
                            (self, Ok(stride as u64))
                        }
                    }
                },
            }
        }
    }

    /// The base address and stride of a matrix in memory, the same on every
    /// lane.
    #[verifier::opaque]
    pub open spec fn wmma_place(
        self,
        t: ThreadId,
        pc: InstrId,
        members: Seq<ThreadId>,
        addr: Operand,
        addr_offset: i64,
        stride: Operand,
        space: MemSpace,
        ty: ScalarType,
        names: (&'static str, &'static str),
    ) -> Out<(u64, u64)> {
        match self.uniform_concrete(t, pc, members, addr, names.0) {
            (m, Err(e)) => (m, Err(e)),
            (m, Ok(a)) => {
                match m.uniform_concrete(t, pc, members, stride, names.1) {
                    (m, Err(e)) => (m, Err(e)),
                    (m, Ok(s)) => {
                        let base = (a as u64).wrapping_add(addr_offset as u64);
                        match m.wmma_addressing(t, pc, space, base, s, ty) {
                            (m, Err(e)) => (m, Err(e)),
                            (m, Ok(n)) => {
                                (m, Ok((base, n)))
                            },
                        }
                    },
                }
            },
        }
    }

    /// The elements of a lane's fragment read from memory, from the `i`-th on.
    pub open spec fn wmma_elements(
        self,
        t: ThreadId,
        pc: InstrId,
        u: ThreadId,
        place: (u64, u64),
        layout: MmaLayout,
        space: MemSpace,
        fragment: Fragment,
        bytes: u64,
        what: &'static str,
        elems: Seq<ExprId>,
        i: int,
    ) -> Out<Seq<ExprId>>
        decreases fragment.count() - i,
    {
        if i >= fragment.count() {
            (self, Ok(elems))
        } else {
            let elem = fragment.element((u.0 % WARP_SIZE) as u32, i as u32);
            match self.mem_read(u, pc, space, wmma_addr(place, layout, elem, bytes), bytes) {
                (m, Err(e)) => (m, Err(e)),
                (m, Ok(v)) => {
                    match v {
                        Value::Scalar(e) => {
                            m.wmma_elements(
                                t,
                                pc,
                                u,
                                place,
                                layout,
                                space,
                                fragment,
                                bytes,
                                what,
                                elems.push(e),
                                i + 1,
                            )
                        },
                        _ => {
                            (m, Err(kind_mismatch(u, pc, what)))
                        },
                    }
                },
            }
        }
    }

    /// Packs neighbouring elements into registers from the `i`-th on.
    pub open spec fn write_pairs(
        self,
        t: ThreadId,
        pc: InstrId,
        u: ThreadId,
        dst: Seq<RegId>,
        elems: Seq<ExprId>,
        i: int,
    ) -> Out<()>
        decreases dst.len() - i,
    {
        if i >= dst.len() {
            (self, Ok(()))
        } else {
            if i >= elems.len() / 2 {
                (self, Err(unsupported(pc, "incomplete wmma fragment")))
            } else {
                match self.write_reg(u, pc, dst[i], Value::Pair(elems[2 * i], elems[2 * i + 1])) {
                    (m, Err(e)) => (m, Err(e)),
                    (m, Ok(_)) => {
                        m.write_pairs(t, pc, u, dst, elems, i + 1)
                    },
                }
            }
        }
    }

    /// Writes elements to registers from the `i`-th on.
    pub open spec fn write_floats(
        self,
        t: ThreadId,
        pc: InstrId,
        u: ThreadId,
        dst: Seq<RegId>,
        elems: Seq<ExprId>,
        i: int,
    ) -> Out<()>
        decreases elems.len() - i,
    {
        if i >= elems.len() {
            (self, Ok(()))
        } else {
            if i >= dst.len() {
                (self, Err(unsupported(pc, "too few fragment registers")))
            } else {
                match self.write_reg(u, pc, dst[i], Value::Scalar(elems[i])) {
                    (m, Err(e)) => (m, Err(e)),
                    (m, Ok(_)) => {
                        m.write_floats(t, pc, u, dst, elems, i + 1)
                    },
                }
            }
        }
    }

    /// Loads the packed fragments from the `k`-th member on.
    pub open spec fn wmma_load_halves(
        self,
        t: ThreadId,
        pc: InstrId,
        members: Seq<ThreadId>,
        place: (u64, u64),
        layout: MmaLayout,
        space: MemSpace,
        dst: Seq<RegId>,
        k: int,
    ) -> Out<()>
        decreases members.len() - k,
    {
        if k >= members.len() {
            (self, Ok(()))
        } else {
            match self.wmma_elements(
                t,
                pc,
                members[k],
                place,
                layout,
                space,
                Fragment::SquareHalves,
                2,
                "wmma.load f16 element is not a scalar",
                Seq::empty(),
                0,
            ) {
                (m, Err(e)) => (m, Err(e)),
                (m, Ok(elems)) => {
                    if elems.len() > 64 {
                        (m, Err(unsupported(pc, "incomplete wmma fragment")))
                    } else {
                        match m.write_pairs(t, pc, members[k], dst, elems, 0) {
                            (m, Err(e)) => (m, Err(e)),
                            (m, Ok(_)) => {
                                m.wmma_load_halves(t, pc, members, place, layout, space, dst, k + 1)
                            },
                        }
                    }
                },
            }
        }
    }

    /// Loads the accumulator fragments from the `k`-th member on.
    pub open spec fn wmma_load_floats(
        self,
        t: ThreadId,
        pc: InstrId,
        members: Seq<ThreadId>,
        place: (u64, u64),
        layout: MmaLayout,
        space: MemSpace,
        dst: Seq<RegId>,
        k: int,
    ) -> Out<()>
        decreases members.len() - k,
    {
        if k >= members.len() {
            (self, Ok(()))
        } else {
            match self.wmma_elements(
                t,
                pc,
                members[k],
                place,
                layout,
                space,
                Fragment::SquareC,
                4,
                "wmma.load f32 element is not a scalar",
                Seq::empty(),
                0,
            ) {
                (m, Err(e)) => (m, Err(e)),
                (m, Ok(elems)) => {
                    match m.write_floats(t, pc, members[k], dst, elems, 0) {
                        (m, Err(e)) => (m, Err(e)),
                        (m, Ok(_)) => {
                            m.wmma_load_floats(t, pc, members, place, layout, space, dst, k + 1)
                        },
                    }
                },
            }
        }
    }

    /// `wmma.load`.
    #[verifier::opaque]
    pub open spec fn wmma_load(
        self,
        t: ThreadId,
        pc: InstrId,
        members: Seq<ThreadId>,
        operand: MmaOperand,
        layout: MmaLayout,
        dst: Seq<RegId>,
        addr: Operand,
        addr_offset: i64,
        stride: Operand,
        ty: ScalarType,
        space: MemSpace,
    ) -> Out<()> {
        match self.wmma_place(
            t,
            pc,
            members,
            addr,
            addr_offset,
            stride,
            space,
            ty,
            ("wmma.load address", "wmma.load stride"),
        ) {
            (m, Err(e)) => (m, Err(e)),
            (m, Ok(place)) => {
                match operand {
                    MmaOperand::A | MmaOperand::B => {
                        if ty != ScalarType::F16 && ty != ScalarType::B16 {
                            (
                                m,
                                Err(
                                    EvalError::Unsupported { pc, what: Detail::WmmaElement { ty } },
                                ),
                            )
                        } else {
                            m.wmma_load_halves(t, pc, members, place, layout, space, dst, 0)
                        }
                    },
                    MmaOperand::C => {
                        m.wmma_load_floats(t, pc, members, place, layout, space, dst, 0)
                    },
                    MmaOperand::D => {
                        (m, Err(unsupported(pc, "wmma.load.d")))
                    },
                }
            },
        }
    }

    /// Stores a lane's accumulator fragment from its `i`-th element on.
    pub open spec fn wmma_store_lane(
        self,
        t: ThreadId,
        pc: InstrId,
        u: ThreadId,
        place: (u64, u64),
        layout: MmaLayout,
        space: MemSpace,
        src: Seq<RegId>,
        i: int,
    ) -> Out<()>
        decreases 8 - i,
    {
        if i >= 8 {
            (self, Ok(()))
        } else {
            let elem = Fragment::SquareC.element((u.0 % WARP_SIZE) as u32, i as u32);
            if elem.reg_idx >= src.len() {
                (self, Err(unsupported(pc, "too few fragment registers")))
            } else {
                match self.read_reg(u, pc, src[elem.reg_idx as int]) {
                    Err(e) => (self, Err(e)),
                    Ok(v) => {
                        match self.mem_write(
                            u,
                            pc,
                            space,
                            wmma_addr(place, layout, elem, 4),
                            4,
                            v,
                        ) {
                            (m, Err(e)) => (m, Err(e)),
                            (m, Ok(_)) => {
                                m.wmma_store_lane(t, pc, u, place, layout, space, src, i + 1)
                            },
                        }
                    },
                }
            }
        }
    }

    /// Stores the accumulator fragments from the `k`-th member on.
    pub open spec fn wmma_store_lanes(
        self,
        t: ThreadId,
        pc: InstrId,
        members: Seq<ThreadId>,
        place: (u64, u64),
        layout: MmaLayout,
        space: MemSpace,
        src: Seq<RegId>,
        k: int,
    ) -> Out<()>
        decreases members.len() - k,
    {
        if k >= members.len() {
            (self, Ok(()))
        } else {
            match self.wmma_store_lane(t, pc, members[k], place, layout, space, src, 0) {
                (m, Err(e)) => (m, Err(e)),
                (m, Ok(_)) => {
                    m.wmma_store_lanes(t, pc, members, place, layout, space, src, k + 1)
                },
            }
        }
    }

    /// `wmma.store`.
    #[verifier::opaque]
    pub open spec fn wmma_store(
        self,
        t: ThreadId,
        pc: InstrId,
        members: Seq<ThreadId>,
        layout: MmaLayout,
        src: Seq<RegId>,
        addr: Operand,
        addr_offset: i64,
        stride: Operand,
        ty: ScalarType,
        space: MemSpace,
    ) -> Out<()> {
        match self.wmma_place(
            t,
            pc,
            members,
            addr,
            addr_offset,
            stride,
            space,
            ty,
            ("wmma.store address", "wmma.store stride"),
        ) {
            (m, Err(e)) => (m, Err(e)),
            (m, Ok(place)) => {
                m.wmma_store_lanes(t, pc, members, place, layout, space, src, 0)
            },
        }
    }
}

impl<'p> Interpreter<'p> {
    /// The value of an operand that has to be the same on every lane, from the
    /// `k`-th lane on.
    pub(crate) fn uniform(
        &mut self,
        t: ThreadId,
        pc: InstrId,
        members: &Vec<ThreadId>,
        op: &Operand,
        what: &'static str,
    ) -> (r: EvalResult<Option<i64>>)
        requires
            old(self).wf(),
            old(self).has(t),
            old(self).has_all(members@),
        ensures
            final(self).wf(),
            final(self).setup == old(self).setup,
            final(self)@.pace() == old(self)@.pace(),
            (final(self)@, r) == old(self)@.uniform(t, pc, members@, *op, what, None, 0),
    {
        let mut first: Option<i64> = None;
        let mut k: usize = 0;
        while k < members.len()
            invariant
                self.wf(),
                self.has(t),
                self.setup == old(self).setup,
                self@.pace() == old(self)@.pace(),
                old(self).has_all(members@),
                k <= members@.len(),
                old(self)@.uniform(t, pc, members@, *op, what, None, 0) == self@.uniform(
                    t,
                    pc,
                    members@,
                    *op,
                    what,
                    first,
                    k as int,
                ),
            decreases members@.len() - k,
        {
            let v = match self.concrete_operand(members[k], pc, op, what) {
                Err(e) => {
                    return Err(e);
                },
                Ok(v) => v,
            };
            match first {
                None => {
                    first = Some(v);
                },
                Some(x) => {
                    if x != v {
                        return Err(
                            EvalError::WarpMismatch {
                                pc,
                                reason: WarpFault::Differs { what, first: x, other: v },
                            },
                        );
                    }
                    
                },
            }
            k = k + 1;
        }
        Ok(first)
    }

    /// An operand that has to be concrete and the same on every lane.
    pub(crate) fn uniform_concrete(
        &mut self,
        t: ThreadId,
        pc: InstrId,
        members: &Vec<ThreadId>,
        op: &Operand,
        what: &'static str,
    ) -> (r: EvalResult<i64>)
        requires
            old(self).wf(),
            old(self).has(t),
            old(self).has_all(members@),
        ensures
            final(self).wf(),
            final(self).setup == old(self).setup,
            final(self)@.pace() == old(self)@.pace(),
            (final(self)@, r) == old(self)@.uniform_concrete(t, pc, members@, *op, what),
    {
        reveal(Machine::uniform_concrete);
        let v = match self.uniform(t, pc, members, op, what) {
            Err(e) => {
                return Err(e);
            },
            Ok(v) => v,
        };
        match v {
            None => {
                Err(
                    EvalError::WarpMismatch {
                        pc,
                        reason: WarpFault::Text { text: "empty warp group" },
                    },
                )
            },
            Some(x) => {
                Ok(x)
            },
        }
    }

    /// The source values of a shuffle by lane, from the `k`-th member on.
    pub(crate) fn shfl_sources(
        &mut self,
        t: ThreadId,
        pc: InstrId,
        members: &Vec<ThreadId>,
        src: &Operand,
        start: Vec<Option<Value>>,
    ) -> (r: EvalResult<Vec<Option<Value>>>)
        requires
            old(self).wf(),
            old(self).has(t),
            old(self).has_all(members@),
        ensures
            final(self).wf(),
            final(self).setup == old(self).setup,
            final(self)@.pace() == old(self)@.pace(),
            (final(self)@, viewed(r)) == old(self)@.shfl_sources(t, pc, members@, *src, start@, 0),
    {
        let mut values: Vec<Option<Value>> = start;
        let mut k: usize = 0;
        while k < members.len()
            invariant
                self.wf(),
                self.has(t),
                self.setup == old(self).setup,
                self@.pace() == old(self)@.pace(),
                old(self).has_all(members@),
                k <= members@.len(),
                old(self)@.shfl_sources(t, pc, members@, *src, start@, 0) == self@.shfl_sources(
                    t,
                    pc,
                    members@,
                    *src,
                    values@,
                    k as int,
                ),
            decreases members@.len() - k,
        {
            let v = match self.operand_value(members[k], pc, src) {
                Err(e) => {
                    return Err(e);
                },
                Ok(v) => v,
            };
            place(&mut values, (members[k].0 % WARP_SIZE) as usize, Some(v));
            k = k + 1;
        }
        Ok(values)
    }

    /// What a lane gets from a shuffle: its predicate and the value of its
    /// source lane.
    pub(crate) fn shfl_result(
        &mut self,
        t: ThreadId,
        pc: InstrId,
        u: ThreadId,
        mask: u32,
        mode: ShflMode,
        values: &Vec<Option<Value>>,
        lane_op: &Operand,
        clamp: &Operand,
    ) -> (r: EvalResult<(ThreadId, bool, Value)>)
        requires
            old(self).wf(),
            old(self).has(t),
            old(self).has(u),
        ensures
            final(self).wf(),
            final(self).setup == old(self).setup,
            final(self)@.pace() == old(self)@.pace(),
            (final(self)@, r) == old(self)@.shfl_result(
                t,
                pc,
                u,
                mask,
                mode,
                values@,
                *lane_op,
                *clamp,
            ),
    {
        reveal(Machine::shfl_result);
        let b = match self.concrete_operand(u, pc, lane_op, "shfl.sync lane operand") {
            Err(e) => {
                return Err(e);
            },
            Ok(v) => v,
        };
        let c = match self.concrete_operand(u, pc, clamp, "shfl.sync clamp operand") {
            Err(e) => {
                return Err(e);
            },
            Ok(v) => v,
        };
        let source: (u32, bool) = shfl_source(mode, u.0 % WARP_SIZE, b, c);
        if (mask >> source.0) & 1 == 0 {
            return Err(
                EvalError::WarpMismatch {
                    pc,
                    reason: WarpFault::SourceOutsideMask {
                        lane: (u.0 % WARP_SIZE) as i64,
                        source: source.0 as i64,
                        mask,
                    },
                },
            );
        }
        match get_slot(values, source.0 as usize) {
            Some(v) => {
                Ok((u, source.1, v))
            },
            None => {
                let x = self.arena.undefined();
                Ok((u, source.1, Value::Scalar(x)))
            },
        }
    }

    /// What the members get from a shuffle, from the `k`-th on.
    pub(crate) fn shfl_results(
        &mut self,
        t: ThreadId,
        pc: InstrId,
        members: &Vec<ThreadId>,
        mask: u32,
        mode: ShflMode,
        values: &Vec<Option<Value>>,
        lane_op: &Operand,
        clamp: &Operand,
    ) -> (r: EvalResult<Vec<(ThreadId, bool, Value)>>)
        requires
            old(self).wf(),
            old(self).has(t),
            old(self).has_all(members@),
        ensures
            final(self).wf(),
            final(self).setup == old(self).setup,
            final(self)@.pace() == old(self)@.pace(),
            (final(self)@, viewed(r)) == old(self)@.shfl_results(
                t,
                pc,
                members@,
                mask,
                mode,
                values@,
                *lane_op,
                *clamp,
                Seq::empty(),
                0,
            ),
            r matches Ok(v) ==> forall|i: int| 0 <= i < v@.len() ==> (#[trigger] v@[i]).0.0 < old(self).setup.n_threads,
    {
        let mut results: Vec<(ThreadId, bool, Value)> = Vec::new();
        let mut k: usize = 0;
        while k < members.len()
            invariant
                self.wf(),
                self.has(t),
                self.setup == old(self).setup,
                self@.pace() == old(self)@.pace(),
                old(self).has_all(members@),
                forall|i: int| 0 <= i < results@.len() ==> (#[trigger] results@[i]).0.0
                < old(self).setup.n_threads,
                k <= members@.len(),
                old(self)@.shfl_results(t, pc, members@, mask, mode, values@, *lane_op, *clamp, Seq::empty(), 0) == self@.shfl_results(
                    t,
                    pc,
                    members@,
                    mask,
                    mode,
                    values@,
                    *lane_op,
                    *clamp,
                    results@,
                    k as int,
                ),
            decreases members@.len() - k,
        {
            let x = match self.shfl_result(t, pc, members[k], mask, mode, values, lane_op, clamp) {
                Err(e) => {
                    return Err(e);
                },
                Ok(v) => v,
            };
            assert(x.0 == members@[k as int]) by { reveal(Machine::shfl_result); }
            results.push(x);
            k = k + 1;
        }
        Ok(results)
    }

    /// The writes of a shuffle from the `k`-th member on.
    pub(crate) fn shfl_write(
        &mut self,
        t: ThreadId,
        pc: InstrId,
        results: &Vec<(ThreadId, bool, Value)>,
        dst: RegId,
        dst_pred: Option<RegId>,
    ) -> (r: EvalResult<()>)
        requires
            old(self).wf(),
            old(self).has(t),
            forall|i: int| 0 <= i < results@.len() ==> (#[trigger] results@[i]).0.0
                < old(self).setup.n_threads,
        ensures
            final(self).wf(),
            final(self).setup == old(self).setup,
            final(self)@.pace() == old(self)@.pace(),
            (final(self)@, r) == old(self)@.shfl_write(t, pc, results@, dst, dst_pred, 0),
    {
        let mut k: usize = 0;
        while k < results.len()
            invariant
                self.wf(),
                self.has(t),
                self.setup == old(self).setup,
                self@.pace() == old(self)@.pace(),
                forall|i: int| 0 <= i < results@.len() ==> (#[trigger] results@[i]).0.0
                < old(self).setup.n_threads,
                k <= results@.len(),
                old(self)@.shfl_write(t, pc, results@, dst, dst_pred, 0) == self@.shfl_write(
                    t,
                    pc,
                    results@,
                    dst,
                    dst_pred,
                    k as int,
                ),
            decreases results@.len() - k,
        {
            let it: (ThreadId, bool, Value) = results[k];
            if let Err(e) = self.write_reg(it.0, pc, dst, it.2) {
                return Err(e);
            }
            match dst_pred {
                None => {
                    
                },
                Some(p) => {
                    let x = self.arena.bool_val(it.1);
                    if let Err(e) = self.write_reg(it.0, pc, p, Value::Scalar(x)) {
                        return Err(e);
                    }
                    
                },
            }
            k = k + 1;
        }
        Ok(())
    }

    /// `shfl.sync`: an exchange of register values within the mask group. The
    /// data of an exited source lane is undefined.
    pub(crate) fn shfl_sync(
        &mut self,
        t: ThreadId,
        pc: InstrId,
        mask: u32,
        members: &Vec<ThreadId>,
        mode: ShflMode,
        dst: RegId,
        dst_pred: Option<RegId>,
        src: &Operand,
        lane_op: &Operand,
        clamp: &Operand,
    ) -> (r: EvalResult<()>)
        requires
            old(self).wf(),
            old(self).has(t),
            old(self).has_all(members@),
        ensures
            final(self).wf(),
            final(self).setup == old(self).setup,
            final(self)@.pace() == old(self)@.pace(),
            (final(self)@, r) == old(self)@.shfl_sync(
                t,
                pc,
                mask,
                members@,
                mode,
                dst,
                dst_pred,
                *src,
                *lane_op,
                *clamp,
            ),
    {
        reveal(Machine::shfl_sync);
        let values = match self.shfl_sources(t, pc, members, src, empty_values()) {
            Err(e) => {
                return Err(e);
            },
            Ok(v) => v,
        };
        let results = match self.shfl_results(t, pc, members, mask, mode, &values, lane_op, clamp) {
            Err(e) => {
                return Err(e);
            },
            Ok(v) => v,
        };
        self.shfl_write(t, pc, &results, dst, dst_pred)
    }

    /// The row addresses that the first lanes of a warp supply, from the `q`-th
    /// on; every row is one aligned 16-byte access.
    pub(crate) fn row_addrs(
        &mut self,
        t: ThreadId,
        pc: InstrId,
        members: &Vec<ThreadId>,
        addr: &Operand,
        addr_offset: i64,
        rows: u64,
        what: &'static str,
    ) -> (r: EvalResult<Vec<u64>>)
        requires
            old(self).wf(),
            old(self).has(t),
            old(self).has_all(members@),
        ensures
            final(self).wf(),
            final(self).setup == old(self).setup,
            final(self)@.pace() == old(self)@.pace(),
            (final(self)@, viewed(r)) == old(self)@.row_addrs(
                t,
                pc,
                members@,
                *addr,
                addr_offset,
                rows,
                what,
                Seq::empty(),
                0,
            ),
            r matches Ok(v) ==> v@.len() == rows,
    {
        let mut addrs: Vec<u64> = Vec::new();
        let mut q: u64 = 0;
        while q < rows
            invariant
                self.wf(),
                self.has(t),
                self.setup == old(self).setup,
                self@.pace() == old(self)@.pace(),
                old(self).has_all(members@),
                addrs@.len() == q,
                q <= rows,
                old(self)@.row_addrs(t, pc, members@, *addr, addr_offset, rows, what, Seq::empty(), 0) == self@.row_addrs(
                    t,
                    pc,
                    members@,
                    *addr,
                    addr_offset,
                    rows,
                    what,
                    addrs@,
                    q as int,
                ),
            decreases rows - q,
        {
            if q >= members.len() as u64 {
                return Err(unsupported(pc, "more matrix rows than lanes"));
            }
            let a = match self.concrete_operand(members[q as usize], pc, addr, what) {
                Err(e) => {
                    return Err(e);
                },
                Ok(v) => v,
            };
            let at: u64 = (a as u64).wrapping_add(addr_offset as u64);
            if let Err(e) = self.check_alignment(
                members[q as usize],
                pc,
                MemSpace::Shared,
                at,
                16,
            ) {
                return Err(e);
            }
            addrs.push(at);
            q = q + 1;
        }
        Ok(addrs)
    }

    /// One 16-bit element of a matrix in shared memory.
    pub(crate) fn matrix_half(
        &mut self,
        t: ThreadId,
        pc: InstrId,
        u: ThreadId,
        addr: u64,
    ) -> (r: EvalResult<ExprId>)
        requires
            old(self).wf(),
            old(self).has(t),
            old(self).has(u),
        ensures
            final(self).wf(),
            final(self).setup == old(self).setup,
            final(self)@.pace() == old(self)@.pace(),
            (final(self)@, r) == old(self)@.matrix_half(t, pc, u, addr),
    {
        reveal(Machine::matrix_half);
        let v = match self.mem_read(u, pc, MemSpace::Shared, addr, 2) {
            Err(e) => {
                return Err(e);
            },
            Ok(v) => v,
        };
        match v {
            Value::Scalar(e) => {
                Ok(e)
            },
            _ => {
                Err(kind_mismatch(u, pc, "ldmatrix element is not a scalar"))
            },
        }
    }

    /// What a lane gets of matrix `i`: two neighbours of a row, or of a column
    /// if transposed.
    pub(crate) fn matrix_value(
        &mut self,
        t: ThreadId,
        pc: InstrId,
        u: ThreadId,
        addrs: &Vec<u64>,
        i: u64,
        trans: bool,
    ) -> (r: EvalResult<Value>)
        requires
            old(self).wf(),
            old(self).has(t),
            old(self).has(u),
            i * 8 + 8 <= addrs@.len() <= u32::MAX,
        ensures
            final(self).wf(),
            final(self).setup == old(self).setup,
            final(self)@.pace() == old(self)@.pace(),
            (final(self)@, r) == old(self)@.matrix_value(t, pc, u, addrs@, i, trans),
    {
        reveal(Machine::matrix_value);
        let lane: u32 = u.0 % WARP_SIZE;
        if trans {
            let lo = match self.matrix_half(
                t,
                pc,
                u,
                addrs[(i * 8 + 2 * (lane % 4) as u64) as usize].wrapping_add((lane / 4 * 2) as u64),
            ) {
                Err(e) => {
                    return Err(e);
                },
                Ok(v) => v,
            };
            let hi = match self.matrix_half(
                t,
                pc,
                u,
                addrs[(i * 8 + 2 * (lane % 4) as u64 + 1) as usize].wrapping_add(
                    (lane / 4 * 2) as u64,
                ),
            ) {
                Err(e) => {
                    return Err(e);
                },
                Ok(v) => v,
            };
            Ok(Value::Pair(lo, hi))
        } else {
            self.mem_read(
                u,
                pc,
                MemSpace::Shared,
                addrs[(i * 8 + (lane / 4) as u64) as usize].wrapping_add((lane % 4 * 4) as u64),
                4,
            )
        }
    }

    /// A lane's share of the matrices from the `i`-th on.
    pub(crate) fn lane_matrices(
        &mut self,
        t: ThreadId,
        pc: InstrId,
        u: ThreadId,
        dst: &Vec<RegId>,
        addrs: &Vec<u64>,
        trans: bool,
    ) -> (r: EvalResult<()>)
        requires
            old(self).wf(),
            old(self).has(t),
            old(self).has(u),
            dst@.len() * 8 == addrs@.len() <= u32::MAX,
        ensures
            final(self).wf(),
            final(self).setup == old(self).setup,
            final(self)@.pace() == old(self)@.pace(),
            (final(self)@, r) == old(self)@.lane_matrices(t, pc, u, dst@, addrs@, trans, 0),
    {
        let mut i: usize = 0;
        while i < dst.len()
            invariant
                self.wf(),
                self.has(t),
                self.setup == old(self).setup,
                self@.pace() == old(self)@.pace(),
                old(self).has(u),
                dst@.len() * 8 == addrs@.len() <= u32::MAX,
                i <= dst@.len(),
                old(self)@.lane_matrices(t, pc, u, dst@, addrs@, trans, 0) == self@.lane_matrices(
                    t,
                    pc,
                    u,
                    dst@,
                    addrs@,
                    trans,
                    i as int,
                ),
            decreases dst@.len() - i,
        {
            let v = match self.matrix_value(t, pc, u, addrs, i as u64, trans) {
                Err(e) => {
                    return Err(e);
                },
                Ok(v) => v,
            };
            if let Err(e) = self.write_reg(u, pc, dst[i], v) {
                return Err(e);
            }
            
            i = i + 1;
        }
        Ok(())
    }

    /// The members' shares of the matrices from the `k`-th member on.
    pub(crate) fn load_matrices(
        &mut self,
        t: ThreadId,
        pc: InstrId,
        members: &Vec<ThreadId>,
        dst: &Vec<RegId>,
        addrs: &Vec<u64>,
        trans: bool,
    ) -> (r: EvalResult<()>)
        requires
            old(self).wf(),
            old(self).has(t),
            old(self).has_all(members@),
            dst@.len() * 8 == addrs@.len() <= u32::MAX,
        ensures
            final(self).wf(),
            final(self).setup == old(self).setup,
            final(self)@.pace() == old(self)@.pace(),
            (final(self)@, r) == old(self)@.load_matrices(t, pc, members@, dst@, addrs@, trans, 0),
    {
        let mut k: usize = 0;
        while k < members.len()
            invariant
                self.wf(),
                self.has(t),
                self.setup == old(self).setup,
                self@.pace() == old(self)@.pace(),
                old(self).has_all(members@),
                dst@.len() * 8 == addrs@.len() <= u32::MAX,
                k <= members@.len(),
                old(self)@.load_matrices(t, pc, members@, dst@, addrs@, trans, 0) == self@.load_matrices(
                    t,
                    pc,
                    members@,
                    dst@,
                    addrs@,
                    trans,
                    k as int,
                ),
            decreases members@.len() - k,
        {
            if let Err(e) = self.lane_matrices(t, pc, members[k], dst, addrs, trans) {
                return Err(e);
            }
            
            k = k + 1;
        }
        Ok(())
    }

    /// `ldmatrix`: a cooperative load of 8x8 matrices of 16-bit elements.
    pub(crate) fn ldmatrix(
        &mut self,
        t: ThreadId,
        pc: InstrId,
        members: &Vec<ThreadId>,
        dst: &Vec<RegId>,
        addr: &Operand,
        addr_offset: i64,
        trans: bool,
    ) -> (r: EvalResult<()>)
        requires
            old(self).wf(),
            old(self).has(t),
            old(self).has_all(members@),
        ensures
            final(self).wf(),
            final(self).setup == old(self).setup,
            final(self)@.pace() == old(self)@.pace(),
            (final(self)@, r) == old(self)@.ldmatrix(
                t,
                pc,
                members@,
                dst@,
                *addr,
                addr_offset,
                trans,
            ),
    {
        reveal(Machine::ldmatrix);
        if dst.len() > 4 {
            return Err(unsupported(pc, "more matrix rows than lanes"));
        }
        let addrs = match self.row_addrs(
            t,
            pc,
            members,
            addr,
            addr_offset,
            dst.len() as u64 * 8,
            "ldmatrix row address",
        ) {
            Err(e) => {
                return Err(e);
            },
            Ok(v) => v,
        };
        self.load_matrices(t, pc, members, dst, &addrs, trans)
    }

    /// Places a lane's packed fragment into a matrix from its `i`-th element
    /// on.
    pub(crate) fn gather_halves(
        &mut self,
        t: ThreadId,
        pc: InstrId,
        u: ThreadId,
        regs: &Vec<RegId>,
        fragment: Fragment,
        base: u32,
        start: Vec<Option<ExprId>>,
    ) -> (r: EvalResult<Vec<Option<ExprId>>>)
        requires
            old(self).wf(),
            old(self).has(t),
            old(self).has(u),
            base <= 512,
        ensures
            final(self).wf(),
            final(self).setup == old(self).setup,
            final(self)@.pace() == old(self)@.pace(),
            (final(self)@, viewed(r)) == old(self)@.gather_halves(
                t,
                pc,
                u,
                regs@,
                fragment,
                base,
                start@,
                0,
            ),
    {
        let mut cells: Vec<Option<ExprId>> = start;
        let mut i: u32 = 0;
        while i < fragment.count()
            invariant
                self.wf(),
                self.has(t),
                self.setup == old(self).setup,
                self@.pace() == old(self)@.pace(),
                old(self).has(u),
                base <= 512,
                i <= fragment.count(),
                old(self)@.gather_halves(t, pc, u, regs@, fragment, base, start@, 0) == self@.gather_halves(
                    t,
                    pc,
                    u,
                    regs@,
                    fragment,
                    base,
                    cells@,
                    i as int,
                ),
            decreases fragment.count() - i,
        {
            let elem: FragmentElement = fragment.element(u.0 % WARP_SIZE, i);
            if elem.reg_idx as usize >= regs.len() {
                return Err(unsupported(pc, "too few fragment registers"));
            }
            let v = match self.read_reg(u, pc, regs[elem.reg_idx as usize]) {
                Err(e) => {
                    return Err(e);
                },
                Ok(v) => v,
            };
            match v {
                Value::Pair(lo, hi) => {
                    place(
                        &mut cells,
                        cell_index(base, fragment, elem),
                        Some(if elem.high_half { hi } else { lo }),
                    );
                },
                _ => {
                    return Err(
                        kind_mismatch(
                            u,
                            pc,
                            "matrix fragment register does not hold a packed f16 pair",
                        ),
                    );
                },
            }
            i = i + 1;
        }
        Ok(cells)
    }

    /// Places a lane's accumulator fragment into a matrix from its `i`-th
    /// element on.
    pub(crate) fn gather_floats(
        &mut self,
        t: ThreadId,
        pc: InstrId,
        u: ThreadId,
        ops: &Vec<Operand>,
        fragment: Fragment,
        base: u32,
        start: Vec<Option<ExprId>>,
    ) -> (r: EvalResult<Vec<Option<ExprId>>>)
        requires
            old(self).wf(),
            old(self).has(t),
            old(self).has(u),
            base <= 512,
        ensures
            final(self).wf(),
            final(self).setup == old(self).setup,
            final(self)@.pace() == old(self)@.pace(),
            (final(self)@, viewed(r)) == old(self)@.gather_floats(
                t,
                pc,
                u,
                ops@,
                fragment,
                base,
                start@,
                0,
            ),
    {
        let mut cells: Vec<Option<ExprId>> = start;
        let mut i: u32 = 0;
        while i < fragment.count()
            invariant
                self.wf(),
                self.has(t),
                self.setup == old(self).setup,
                self@.pace() == old(self)@.pace(),
                old(self).has(u),
                base <= 512,
                i <= fragment.count(),
                old(self)@.gather_floats(t, pc, u, ops@, fragment, base, start@, 0) == self@.gather_floats(
                    t,
                    pc,
                    u,
                    ops@,
                    fragment,
                    base,
                    cells@,
                    i as int,
                ),
            decreases fragment.count() - i,
        {
            let elem: FragmentElement = fragment.element(u.0 % WARP_SIZE, i);
            if elem.reg_idx as usize >= ops.len() {
                return Err(unsupported(pc, "too few fragment registers"));
            }
            let v = match self.operand_value(u, pc, &ops[elem.reg_idx as usize]) {
                Err(e) => {
                    return Err(e);
                },
                Ok(v) => v,
            };
            match v {
                Value::Scalar(e) => {
                    place(&mut cells, cell_index(base, fragment, elem), Some(e));
                },
                _ => {
                    return Err(
                        kind_mismatch(u, pc, "accumulator fragment register holds a packed pair"),
                    );
                },
            }
            i = i + 1;
        }
        Ok(cells)
    }

    /// The matrices `A`, `B` and `C` put together from the lanes' fragments,
    /// from the `k`-th member on.
    pub(crate) fn gather(
        &mut self,
        t: ThreadId,
        pc: InstrId,
        members: &Vec<ThreadId>,
        maps: (Fragment, Fragment, Fragment),
        src_a: &Vec<RegId>,
        src_b: &Vec<RegId>,
        src_c: &Vec<Operand>,
        start: Vec<Option<ExprId>>,
    ) -> (r: EvalResult<Vec<Option<ExprId>>>)
        requires
            old(self).wf(),
            old(self).has(t),
            old(self).has_all(members@),
        ensures
            final(self).wf(),
            final(self).setup == old(self).setup,
            final(self)@.pace() == old(self)@.pace(),
            (final(self)@, viewed(r)) == old(self)@.gather(
                t,
                pc,
                members@,
                maps,
                src_a@,
                src_b@,
                src_c@,
                start@,
                0,
            ),
    {
        let mut cells: Vec<Option<ExprId>> = start;
        let mut k: usize = 0;
        while k < members.len()
            invariant
                self.wf(),
                self.has(t),
                self.setup == old(self).setup,
                self@.pace() == old(self)@.pace(),
                old(self).has_all(members@),
                k <= members@.len(),
                old(self)@.gather(t, pc, members@, maps, src_a@, src_b@, src_c@, start@, 0) == self@.gather(
                    t,
                    pc,
                    members@,
                    maps,
                    src_a@,
                    src_b@,
                    src_c@,
                    cells@,
                    k as int,
                ),
            decreases members@.len() - k,
        {
            let with_a = match self.gather_halves(t, pc, members[k], src_a, maps.0, 0, cells) {
                Err(e) => {
                    return Err(e);
                },
                Ok(v) => v,
            };
            let with_b = match self.gather_halves(t, pc, members[k], src_b, maps.1, 256, with_a) {
                Err(e) => {
                    return Err(e);
                },
                Ok(v) => v,
            };
            let with_c = match self.gather_floats(
                t,
                pc,
                members[k],
                src_c,
                maps.2,
                256 + 16 * maps.2.cols(),
                with_b,
            ) {
                Err(e) => {
                    return Err(e);
                },
                Ok(v) => v,
            };
            cells = with_c;
            k = k + 1;
        }
        Ok(cells)
    }

    /// A lane's share of a result from its `i`-th element on.
    pub(crate) fn scatter_lane(
        &mut self,
        t: ThreadId,
        pc: InstrId,
        u: ThreadId,
        dst: &Vec<RegId>,
        fragment: Fragment,
        d: &Vec<ExprId>,
    ) -> (r: EvalResult<()>)
        requires
            old(self).wf(),
            old(self).has(t),
            old(self).has(u),
        ensures
            final(self).wf(),
            final(self).setup == old(self).setup,
            final(self)@.pace() == old(self)@.pace(),
            (final(self)@, r) == old(self)@.scatter_lane(t, pc, u, dst@, fragment, d@, 0),
    {
        let mut i: u32 = 0;
        while i < fragment.count()
            invariant
                self.wf(),
                self.has(t),
                self.setup == old(self).setup,
                self@.pace() == old(self)@.pace(),
                old(self).has(u),
                i <= fragment.count(),
                old(self)@.scatter_lane(t, pc, u, dst@, fragment, d@, 0) == self@.scatter_lane(
                    t,
                    pc,
                    u,
                    dst@,
                    fragment,
                    d@,
                    i as int,
                ),
            decreases fragment.count() - i,
        {
            let elem: FragmentElement = fragment.element(u.0 % WARP_SIZE, i);
            if elem.reg_idx as usize >= dst.len() {
                return Err(unsupported(pc, "too few fragment registers"));
            }
            if cell_index(0, fragment, elem) >= d.len() {
                return Err(
                    EvalError::Unsupported {
                        pc,
                        what: Detail::FragmentHole { row: elem.row, col: elem.col },
                    },
                );
            }
            let x: ExprId = d[cell_index(0, fragment, elem)];
            if let Err(e) = self.write_reg(u, pc, dst[elem.reg_idx as usize], Value::Scalar(x)) {
                return Err(e);
            }
            
            i = i + 1;
        }
        Ok(())
    }

    /// The lanes' shares of a result from the `k`-th member on.
    pub(crate) fn scatter(
        &mut self,
        t: ThreadId,
        pc: InstrId,
        members: &Vec<ThreadId>,
        dst: &Vec<RegId>,
        fragment: Fragment,
        d: &Vec<ExprId>,
    ) -> (r: EvalResult<()>)
        requires
            old(self).wf(),
            old(self).has(t),
            old(self).has_all(members@),
        ensures
            final(self).wf(),
            final(self).setup == old(self).setup,
            final(self)@.pace() == old(self)@.pace(),
            (final(self)@, r) == old(self)@.scatter(t, pc, members@, dst@, fragment, d@, 0),
    {
        let mut k: usize = 0;
        while k < members.len()
            invariant
                self.wf(),
                self.has(t),
                self.setup == old(self).setup,
                self@.pace() == old(self)@.pace(),
                old(self).has_all(members@),
                k <= members@.len(),
                old(self)@.scatter(t, pc, members@, dst@, fragment, d@, 0) == self@.scatter(
                    t,
                    pc,
                    members@,
                    dst@,
                    fragment,
                    d@,
                    k as int,
                ),
            decreases members@.len() - k,
        {
            if let Err(e) = self.scatter_lane(t, pc, members[k], dst, fragment, d) {
                return Err(e);
            }
            
            k = k + 1;
        }
        Ok(())
    }

    /// `D = A * B + C` on the lanes' fragments.
    pub(crate) fn warp_product(
        &mut self,
        t: ThreadId,
        pc: InstrId,
        members: &Vec<ThreadId>,
        maps: (Fragment, Fragment, Fragment),
        dst: &Vec<RegId>,
        src_a: &Vec<RegId>,
        src_b: &Vec<RegId>,
        src_c: &Vec<Operand>,
    ) -> (r: EvalResult<()>)
        requires
            old(self).wf(),
            old(self).has(t),
            old(self).has_all(members@),
        ensures
            final(self).wf(),
            final(self).setup == old(self).setup,
            final(self)@.pace() == old(self)@.pace(),
            (final(self)@, r) == old(self)@.warp_product(
                t,
                pc,
                members@,
                maps,
                dst@,
                src_a@,
                src_b@,
                src_c@,
            ),
    {
        reveal(Machine::warp_product);
        let n: u32 = maps.2.cols();
        let cells = match self.gather(
            t,
            pc,
            members,
            maps,
            src_a,
            src_b,
            src_c,
            empty_cells(256 + 32 * n),
        ) {
            Err(e) => {
                return Err(e);
            },
            Ok(v) => v,
        };
        let d = match matmul_acc(&mut self.arena, pc, &cells, n) {
            Err(e) => {
                return Err(e);
            },
            Ok(v) => v,
        };
        self.scatter(t, pc, members, dst, maps.2, &d)
    }

    /// A matrix's stride in memory: at least its leading dimension, from an
    /// aligned base, with aligned rows, inside the address space.
    pub(crate) fn wmma_addressing(
        &mut self,
        t: ThreadId,
        pc: InstrId,
        space: MemSpace,
        base: u64,
        stride: i64,
        ty: ScalarType,
    ) -> (r: EvalResult<u64>)
        requires
            old(self).wf(),
            old(self).has(t),
        ensures
            final(self).wf(),
            final(self).setup == old(self).setup,
            final(self)@.pace() == old(self)@.pace(),
            (final(self)@, r) == old(self)@.wmma_addressing(t, pc, space, base, stride, ty),
    {
        reveal(Machine::wmma_addressing);
        if stride < 16 {
            return Err(EvalError::WmmaStrideTooSmall { pc, stride, minimum: 16 });
        }
        if let Err(e) = self.check_alignment(t, pc, space, base, 32) {
            return Err(e);
        }
        if beyond_space(base, stride as u64, ty) {
            return Err(
                EvalError::Unsupported {
                    pc,
                    what: Detail::WmmaFootprint { base, stride: stride as u64 },
                },
            );
        }
        assert(
            stride * ty.size_bytes() <= (15 * stride + 15) * ty.size_bytes() && stride * ty.size_bytes() >= 0
        ) by (nonlinear_arith) requires stride >= 16, ty.size_bytes() >= 1;
        let row_bytes: u64 = stride as u64 * ty.size_bytes() as u64;
        if row_bytes % 16 != 0 {
            return Err(
                EvalError::Misaligned {
                    thread: t,
                    pc,
                    space,
                    addr: base + row_bytes,
                    required: 16,
                },
            );
        }
        Ok(stride as u64)
    }

    /// The base address and stride of a matrix in memory, the same on every
    /// lane.
    pub(crate) fn wmma_place(
        &mut self,
        t: ThreadId,
        pc: InstrId,
        members: &Vec<ThreadId>,
        addr: &Operand,
        addr_offset: i64,
        stride: &Operand,
        space: MemSpace,
        ty: ScalarType,
        names: (&'static str, &'static str),
    ) -> (r: EvalResult<(u64, u64)>)
        requires
            old(self).wf(),
            old(self).has(t),
            old(self).has_all(members@),
        ensures
            final(self).wf(),
            final(self).setup == old(self).setup,
            final(self)@.pace() == old(self)@.pace(),
            (final(self)@, r) == old(self)@.wmma_place(
                t,
                pc,
                members@,
                *addr,
                addr_offset,
                *stride,
                space,
                ty,
                names,
            ),
    {
        reveal(Machine::wmma_place);
        let a = match self.uniform_concrete(t, pc, members, addr, names.0) {
            Err(e) => {
                return Err(e);
            },
            Ok(v) => v,
        };
        let s = match self.uniform_concrete(t, pc, members, stride, names.1) {
            Err(e) => {
                return Err(e);
            },
            Ok(v) => v,
        };
        let base: u64 = (a as u64).wrapping_add(addr_offset as u64);
        let n = match self.wmma_addressing(t, pc, space, base, s, ty) {
            Err(e) => {
                return Err(e);
            },
            Ok(v) => v,
        };
        Ok((base, n))
    }

    /// The elements of a lane's fragment read from memory, from the `i`-th on.
    pub(crate) fn wmma_elements(
        &mut self,
        t: ThreadId,
        pc: InstrId,
        u: ThreadId,
        place: (u64, u64),
        layout: MmaLayout,
        space: MemSpace,
        fragment: Fragment,
        bytes: u64,
        what: &'static str,
    ) -> (r: EvalResult<Vec<ExprId>>)
        requires
            old(self).wf(),
            old(self).has(t),
            old(self).has(u),
            bytes >= 1,
        ensures
            final(self).wf(),
            final(self).setup == old(self).setup,
            final(self)@.pace() == old(self)@.pace(),
            (final(self)@, viewed(r)) == old(self)@.wmma_elements(
                t,
                pc,
                u,
                place,
                layout,
                space,
                fragment,
                bytes,
                what,
                Seq::empty(),
                0,
            ),
    {
        let mut elems: Vec<ExprId> = Vec::new();
        let mut i: u32 = 0;
        while i < fragment.count()
            invariant
                self.wf(),
                self.has(t),
                self.setup == old(self).setup,
                self@.pace() == old(self)@.pace(),
                old(self).has(u),
                bytes >= 1,
                i <= fragment.count(),
                old(self)@.wmma_elements(t, pc, u, place, layout, space, fragment, bytes, what, Seq::empty(), 0) == self@.wmma_elements(
                    t,
                    pc,
                    u,
                    place,
                    layout,
                    space,
                    fragment,
                    bytes,
                    what,
                    elems@,
                    i as int,
                ),
            decreases fragment.count() - i,
        {
            let elem: FragmentElement = fragment.element(u.0 % WARP_SIZE, i);
            let v = match self.mem_read(
                u,
                pc,
                space,
                wmma_addr(place, layout, elem, bytes),
                bytes,
            ) {
                Err(e) => {
                    return Err(e);
                },
                Ok(v) => v,
            };
            match v {
                Value::Scalar(e) => {
                    elems.push(e);
                },
                _ => {
                    return Err(kind_mismatch(u, pc, what));
                },
            }
            i = i + 1;
        }
        Ok(elems)
    }

    /// Packs neighbouring elements into registers from the `i`-th on.
    pub(crate) fn write_pairs(
        &mut self,
        t: ThreadId,
        pc: InstrId,
        u: ThreadId,
        dst: &Vec<RegId>,
        elems: &Vec<ExprId>,
    ) -> (r: EvalResult<()>)
        requires
            old(self).wf(),
            old(self).has(t),
            old(self).has(u),
            elems@.len() <= 64,
        ensures
            final(self).wf(),
            final(self).setup == old(self).setup,
            final(self)@.pace() == old(self)@.pace(),
            (final(self)@, r) == old(self)@.write_pairs(t, pc, u, dst@, elems@, 0),
    {
        let mut i: usize = 0;
        while i < dst.len()
            invariant
                self.wf(),
                self.has(t),
                self.setup == old(self).setup,
                self@.pace() == old(self)@.pace(),
                old(self).has(u),
                elems@.len() <= 64,
                i <= dst@.len(),
                old(self)@.write_pairs(t, pc, u, dst@, elems@, 0) == self@.write_pairs(
                    t,
                    pc,
                    u,
                    dst@,
                    elems@,
                    i as int,
                ),
            decreases dst@.len() - i,
        {
            if i >= elems.len() / 2 {
                return Err(unsupported(pc, "incomplete wmma fragment"));
            }
            if let Err(e) = self.write_reg(
                u,
                pc,
                dst[i],
                Value::Pair(elems[2 * i], elems[2 * i + 1]),
            ) {
                return Err(e);
            }
            
            i = i + 1;
        }
        Ok(())
    }

    /// Writes elements to registers from the `i`-th on.
    pub(crate) fn write_floats(
        &mut self,
        t: ThreadId,
        pc: InstrId,
        u: ThreadId,
        dst: &Vec<RegId>,
        elems: &Vec<ExprId>,
    ) -> (r: EvalResult<()>)
        requires
            old(self).wf(),
            old(self).has(t),
            old(self).has(u),
        ensures
            final(self).wf(),
            final(self).setup == old(self).setup,
            final(self)@.pace() == old(self)@.pace(),
            (final(self)@, r) == old(self)@.write_floats(t, pc, u, dst@, elems@, 0),
    {
        let mut i: usize = 0;
        while i < elems.len()
            invariant
                self.wf(),
                self.has(t),
                self.setup == old(self).setup,
                self@.pace() == old(self)@.pace(),
                old(self).has(u),
                i <= elems@.len(),
                old(self)@.write_floats(t, pc, u, dst@, elems@, 0) == self@.write_floats(
                    t,
                    pc,
                    u,
                    dst@,
                    elems@,
                    i as int,
                ),
            decreases elems@.len() - i,
        {
            if i >= dst.len() {
                return Err(unsupported(pc, "too few fragment registers"));
            }
            if let Err(e) = self.write_reg(u, pc, dst[i], Value::Scalar(elems[i])) {
                return Err(e);
            }
            
            i = i + 1;
        }
        Ok(())
    }

    /// Loads the packed fragments from the `k`-th member on.
    pub(crate) fn wmma_load_halves(
        &mut self,
        t: ThreadId,
        pc: InstrId,
        members: &Vec<ThreadId>,
        place: (u64, u64),
        layout: MmaLayout,
        space: MemSpace,
        dst: &Vec<RegId>,
    ) -> (r: EvalResult<()>)
        requires
            old(self).wf(),
            old(self).has(t),
            old(self).has_all(members@),
        ensures
            final(self).wf(),
            final(self).setup == old(self).setup,
            final(self)@.pace() == old(self)@.pace(),
            (final(self)@, r) == old(self)@.wmma_load_halves(
                t,
                pc,
                members@,
                place,
                layout,
                space,
                dst@,
                0,
            ),
    {
        let mut k: usize = 0;
        while k < members.len()
            invariant
                self.wf(),
                self.has(t),
                self.setup == old(self).setup,
                self@.pace() == old(self)@.pace(),
                old(self).has_all(members@),
                k <= members@.len(),
                old(self)@.wmma_load_halves(t, pc, members@, place, layout, space, dst@, 0) == self@.wmma_load_halves(
                    t,
                    pc,
                    members@,
                    place,
                    layout,
                    space,
                    dst@,
                    k as int,
                ),
            decreases members@.len() - k,
        {
            let elems = match self.wmma_elements(
                t,
                pc,
                members[k],
                place,
                layout,
                space,
                Fragment::SquareHalves,
                2,
                "wmma.load f16 element is not a scalar",
            ) {
                Err(e) => {
                    return Err(e);
                },
                Ok(v) => v,
            };
            if elems.len() > 64 {
                return Err(unsupported(pc, "incomplete wmma fragment"));
            }
            if let Err(e) = self.write_pairs(t, pc, members[k], dst, &elems) {
                return Err(e);
            }
            
            k = k + 1;
        }
        Ok(())
    }

    /// Loads the accumulator fragments from the `k`-th member on.
    pub(crate) fn wmma_load_floats(
        &mut self,
        t: ThreadId,
        pc: InstrId,
        members: &Vec<ThreadId>,
        place: (u64, u64),
        layout: MmaLayout,
        space: MemSpace,
        dst: &Vec<RegId>,
    ) -> (r: EvalResult<()>)
        requires
            old(self).wf(),
            old(self).has(t),
            old(self).has_all(members@),
        ensures
            final(self).wf(),
            final(self).setup == old(self).setup,
            final(self)@.pace() == old(self)@.pace(),
            (final(self)@, r) == old(self)@.wmma_load_floats(
                t,
                pc,
                members@,
                place,
                layout,
                space,
                dst@,
                0,
            ),
    {
        let mut k: usize = 0;
        while k < members.len()
            invariant
                self.wf(),
                self.has(t),
                self.setup == old(self).setup,
                self@.pace() == old(self)@.pace(),
                old(self).has_all(members@),
                k <= members@.len(),
                old(self)@.wmma_load_floats(t, pc, members@, place, layout, space, dst@, 0) == self@.wmma_load_floats(
                    t,
                    pc,
                    members@,
                    place,
                    layout,
                    space,
                    dst@,
                    k as int,
                ),
            decreases members@.len() - k,
        {
            let elems = match self.wmma_elements(
                t,
                pc,
                members[k],
                place,
                layout,
                space,
                Fragment::SquareC,
                4,
                "wmma.load f32 element is not a scalar",
            ) {
                Err(e) => {
                    return Err(e);
                },
                Ok(v) => v,
            };
            if let Err(e) = self.write_floats(t, pc, members[k], dst, &elems) {
                return Err(e);
            }
            
            k = k + 1;
        }
        Ok(())
    }

    /// `wmma.load`.
    pub(crate) fn wmma_load(
        &mut self,
        t: ThreadId,
        pc: InstrId,
        members: &Vec<ThreadId>,
        operand: MmaOperand,
        layout: MmaLayout,
        dst: &Vec<RegId>,
        addr: &Operand,
        addr_offset: i64,
        stride: &Operand,
        ty: ScalarType,
        space: MemSpace,
    ) -> (r: EvalResult<()>)
        requires
            old(self).wf(),
            old(self).has(t),
            old(self).has_all(members@),
        ensures
            final(self).wf(),
            final(self).setup == old(self).setup,
            final(self)@.pace() == old(self)@.pace(),
            (final(self)@, r) == old(self)@.wmma_load(
                t,
                pc,
                members@,
                operand,
                layout,
                dst@,
                *addr,
                addr_offset,
                *stride,
                ty,
                space,
            ),
    {
        reveal(Machine::wmma_load);
        let place = match self.wmma_place(
            t,
            pc,
            members,
            addr,
            addr_offset,
            stride,
            space,
            ty,
            ("wmma.load address", "wmma.load stride"),
        ) {
            Err(e) => {
                return Err(e);
            },
            Ok(v) => v,
        };
        match operand {
            MmaOperand::A | MmaOperand::B => {
                if ty != ScalarType::F16 && ty != ScalarType::B16 {
                    return Err(EvalError::Unsupported { pc, what: Detail::WmmaElement { ty } });
                }
                self.wmma_load_halves(t, pc, members, place, layout, space, dst)
            },
            MmaOperand::C => {
                self.wmma_load_floats(t, pc, members, place, layout, space, dst)
            },
            MmaOperand::D => {
                Err(unsupported(pc, "wmma.load.d"))
            },
        }
    }

    /// Stores a lane's accumulator fragment from its `i`-th element on.
    pub(crate) fn wmma_store_lane(
        &mut self,
        t: ThreadId,
        pc: InstrId,
        u: ThreadId,
        place: (u64, u64),
        layout: MmaLayout,
        space: MemSpace,
        src: &Vec<RegId>,
    ) -> (r: EvalResult<()>)
        requires
            old(self).wf(),
            old(self).has(t),
            old(self).has(u),
        ensures
            final(self).wf(),
            final(self).setup == old(self).setup,
            final(self)@.pace() == old(self)@.pace(),
            (final(self)@, r) == old(self)@.wmma_store_lane(
                t,
                pc,
                u,
                place,
                layout,
                space,
                src@,
                0,
            ),
    {
        let mut i: u32 = 0;
        while i < 8
            invariant
                self.wf(),
                self.has(t),
                self.setup == old(self).setup,
                self@.pace() == old(self)@.pace(),
                old(self).has(u),
                i <= 8,
                old(self)@.wmma_store_lane(t, pc, u, place, layout, space, src@, 0) == self@.wmma_store_lane(
                    t,
                    pc,
                    u,
                    place,
                    layout,
                    space,
                    src@,
                    i as int,
                ),
            decreases 8 - i,
        {
            let elem: FragmentElement = Fragment::SquareC.element(u.0 % WARP_SIZE, i);
            if elem.reg_idx as usize >= src.len() {
                return Err(unsupported(pc, "too few fragment registers"));
            }
            let v = match self.read_reg(u, pc, src[elem.reg_idx as usize]) {
                Err(e) => {
                    return Err(e);
                },
                Ok(v) => v,
            };
            if let Err(e) = self.mem_write(u, pc, space, wmma_addr(place, layout, elem, 4), 4, v) {
                return Err(e);
            }
            
            i = i + 1;
        }
        Ok(())
    }

    /// Stores the accumulator fragments from the `k`-th member on.
    pub(crate) fn wmma_store_lanes(
        &mut self,
        t: ThreadId,
        pc: InstrId,
        members: &Vec<ThreadId>,
        place: (u64, u64),
        layout: MmaLayout,
        space: MemSpace,
        src: &Vec<RegId>,
    ) -> (r: EvalResult<()>)
        requires
            old(self).wf(),
            old(self).has(t),
            old(self).has_all(members@),
        ensures
            final(self).wf(),
            final(self).setup == old(self).setup,
            final(self)@.pace() == old(self)@.pace(),
            (final(self)@, r) == old(self)@.wmma_store_lanes(
                t,
                pc,
                members@,
                place,
                layout,
                space,
                src@,
                0,
            ),
    {
        let mut k: usize = 0;
        while k < members.len()
            invariant
                self.wf(),
                self.has(t),
                self.setup == old(self).setup,
                self@.pace() == old(self)@.pace(),
                old(self).has_all(members@),
                k <= members@.len(),
                old(self)@.wmma_store_lanes(t, pc, members@, place, layout, space, src@, 0) == self@.wmma_store_lanes(
                    t,
                    pc,
                    members@,
                    place,
                    layout,
                    space,
                    src@,
                    k as int,
                ),
            decreases members@.len() - k,
        {
            if let Err(e) = self.wmma_store_lane(t, pc, members[k], place, layout, space, src) {
                return Err(e);
            }
            
            k = k + 1;
        }
        Ok(())
    }

    /// `wmma.store`.
    pub(crate) fn wmma_store(
        &mut self,
        t: ThreadId,
        pc: InstrId,
        members: &Vec<ThreadId>,
        layout: MmaLayout,
        src: &Vec<RegId>,
        addr: &Operand,
        addr_offset: i64,
        stride: &Operand,
        ty: ScalarType,
        space: MemSpace,
    ) -> (r: EvalResult<()>)
        requires
            old(self).wf(),
            old(self).has(t),
            old(self).has_all(members@),
        ensures
            final(self).wf(),
            final(self).setup == old(self).setup,
            final(self)@.pace() == old(self)@.pace(),
            (final(self)@, r) == old(self)@.wmma_store(
                t,
                pc,
                members@,
                layout,
                src@,
                *addr,
                addr_offset,
                *stride,
                ty,
                space,
            ),
    {
        reveal(Machine::wmma_store);
        let place = match self.wmma_place(
            t,
            pc,
            members,
            addr,
            addr_offset,
            stride,
            space,
            ty,
            ("wmma.store address", "wmma.store stride"),
        ) {
            Err(e) => {
                return Err(e);
            },
            Ok(v) => v,
        };
        self.wmma_store_lanes(t, pc, members, place, layout, space, src)
    }
}

} // verus!
