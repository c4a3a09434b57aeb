//! More warp-cooperative operations: elections, reductions, matrix stores and
//! Tensor Memory transfers.

use vstd::prelude::*;

use crate::eval::arith::{binop_spec, eval_binop, unsupported};
use crate::eval::error::{AccessSite, EvalError, EvalResult, WarpFault};
use crate::eval::interp::Interpreter;
use crate::eval::machine::{Machine, Out, kind_mismatch, tcgen05_error};
use crate::eval::tensor_memory::TensorMemError;
use crate::eval::value::Value;
use crate::eval::{ThreadId, WARP_SIZE};
use crate::lowered::{BinOp, InstrId, MemSpace, Operand};
use crate::symbolic::ExprId;
use crate::symbols::RegId;
use crate::types::ScalarType;

verus! {

pub open spec fn spec_quadrant_of(t: ThreadId) -> u32 {
    (t.0 / WARP_SIZE % 4) as u32
}

/// The Tensor Memory quadrant of a thread's warp.
#[verifier::when_used_as_spec(spec_quadrant_of)]
pub fn quadrant_of(t: ThreadId) -> (r: u32)
    ensures
        r == spec_quadrant_of(t),
        r < 4,
{
    t.0 / WARP_SIZE % 4
}

pub open spec fn spec_tensor_lane(u: ThreadId) -> u32 {
    (quadrant_of(u) * 32 + u.0 % WARP_SIZE) as u32
}

/// The Tensor Memory lane of a thread.
#[verifier::when_used_as_spec(spec_tensor_lane)]
pub fn tensor_lane(u: ThreadId) -> (r: u32)
    ensures
        r == spec_tensor_lane(u),
        r < 128,
{
    quadrant_of(u) * 32 + u.0 % WARP_SIZE
}

/// Column `i` of an access; past the last representable column it stays
/// there, where no column can be allocated.
pub open spec fn spec_column_at(col: u32, i: u64) -> u32 {
    if col + i > u32::MAX {
        u32::MAX
    } else {
        (col + i) as u32
    }
}

/// Column `i` of an access.
#[verifier::when_used_as_spec(spec_column_at)]
pub fn column_at(col: u32, i: u64) -> (r: u32)
    ensures
        r == spec_column_at(col, i),
{
    if i > (u32::MAX - col) as u64 {
        u32::MAX
    } else {
        col + i as u32
    }
}

impl Machine {
    /// The lane id that an election gives its leader; undefined for any other
    /// lane.
    #[verifier::opaque]
    pub open spec fn elect_value(
        self,
        t: ThreadId,
        pc: InstrId,
        u: ThreadId,
        dst: Option<RegId>,
        leader: bool,
    ) -> Out<()> {
        match dst {
            None => {
                (self, Ok(()))
            },
            Some(reg) => {
                if leader {
                    let (s, x) = self.exprs.int_const((u.0 % WARP_SIZE) as i64);
                    let m = self.with_exprs(s);
                    m.write_reg(u, pc, reg, Value::Scalar(x))
                } else {
                    let (s, x) = self.exprs.undefined();
                    let m = self.with_exprs(s);
                    m.write_reg(u, pc, reg, Value::Scalar(x))
                }
            },
        }
    }

    /// `elect.sync` from the `k`-th member on: the lowest live lane of the mask
    /// is the leader.
    pub open spec fn elect_sync(
        self,
        t: ThreadId,
        pc: InstrId,
        members: Seq<ThreadId>,
        dst: Option<RegId>,
        dst_pred: RegId,
        k: int,
    ) -> Out<()>
        decreases members.len() - k,
    {
        if k >= members.len() {
            (self, Ok(()))
        } else {
            match self.elect_value(t, pc, members[k], dst, k == 0) {
                (m, Err(e)) => (m, Err(e)),
                (m, Ok(_)) => {
                    let (s, x) = m.exprs.bool_val(k == 0);
                    let m = m.with_exprs(s);
                    match m.write_reg(members[k], pc, dst_pred, Value::Scalar(x)) {
                        (m, Err(e)) => (m, Err(e)),
                        (m, Ok(_)) => {
                            m.elect_sync(t, pc, members, dst, dst_pred, k + 1)
                        },
                    }
                },
            }
        }
    }

    /// The members' values folded by an operation, from the `k`-th member on.
    pub open spec fn redux_fold(
        self,
        t: ThreadId,
        pc: InstrId,
        members: Seq<ThreadId>,
        op: BinOp,
        ty: ScalarType,
        src: Operand,
        sum: Option<ExprId>,
        k: int,
    ) -> Out<Option<ExprId>>
        decreases members.len() - k,
    {
        if k >= members.len() {
            (self, Ok(sum))
        } else {
            match self.scalar_operand(members[k], pc, src) {
                (m, Err(e)) => (m, Err(e)),
                (m, Ok(v)) => {
                    match sum {
                        None => {
                            m.redux_fold(t, pc, members, op, ty, src, Some(v), k + 1)
                        },
                        Some(x) => {
                            match m.lift(binop_spec(m.exprs, members[k], pc, op, ty, x, v)) {
                                (m, Err(e)) => (m, Err(e)),
                                (m, Ok(y)) => {
                                    m.redux_fold(t, pc, members, op, ty, src, Some(y), k + 1)
                                },
                            }
                        },
                    }
                },
            }
        }
    }

    /// The maximum of the members' values, from the `k`-th member on.
    pub open spec fn max_fold(
        self,
        t: ThreadId,
        pc: InstrId,
        members: Seq<ThreadId>,
        src: Operand,
        sum: Option<ExprId>,
        k: int,
    ) -> Out<Option<ExprId>>
        decreases members.len() - k,
    {
        if k >= members.len() {
            (self, Ok(sum))
        } else {
            match self.scalar_operand(members[k], pc, src) {
                (m, Err(e)) => (m, Err(e)),
                (m, Ok(v)) => {
                    match sum {
                        None => {
                            m.max_fold(t, pc, members, src, Some(v), k + 1)
                        },
                        Some(x) => {
                            let (s, y) = m.exprs.maximum(x, v);
                            let m = m.with_exprs(s);
                            m.max_fold(t, pc, members, src, Some(y), k + 1)
                        },
                    }
                },
            }
        }
    }

    /// Writes one value to a register of every member, from the `k`-th on.
    pub open spec fn broadcast_value(
        self,
        t: ThreadId,
        pc: InstrId,
        members: Seq<ThreadId>,
        dst: RegId,
        v: Value,
        k: int,
    ) -> Out<()>
        decreases members.len() - k,
    {
        if k >= members.len() {
            (self, Ok(()))
        } else {
            match self.write_reg(members[k], pc, dst, v) {
                (m, Err(e)) => (m, Err(e)),
                (m, Ok(_)) => {
                    m.broadcast_value(t, pc, members, dst, v, k + 1)
                },
            }
        }
    }

    /// `redux.sync`: folds the live lanes' values and gives the result to each
    /// of them.
    #[verifier::opaque]
    pub open spec fn redux_sync(
        self,
        t: ThreadId,
        pc: InstrId,
        members: Seq<ThreadId>,
        op: BinOp,
        ty: ScalarType,
        dst: RegId,
        src: Operand,
    ) -> Out<()> {
        match self.redux_fold(t, pc, members, op, ty, src, None, 0) {
            (m, Err(e)) => (m, Err(e)),
            (m, Ok(sum)) => {
                match sum {
                    None => {
                        (
                            m,
                            Err(
                                EvalError::WarpMismatch {
                                    pc,
                                    reason: WarpFault::Text { text: "empty warp group" },
                                },
                            ),
                        )
                    },
                    Some(x) => {
                        m.broadcast_value(t, pc, members, dst, Value::Scalar(x), 0)
                    },
                }
            },
        }
    }

    /// The maximum across a warp, given to each live lane as a pair of itself.
    #[verifier::opaque]
    pub open spec fn redux_max(
        self,
        t: ThreadId,
        pc: InstrId,
        members: Seq<ThreadId>,
        dst: RegId,
        src: Operand,
    ) -> Out<()> {
        match self.max_fold(t, pc, members, src, None, 0) {
            (m, Err(e)) => (m, Err(e)),
            (m, Ok(sum)) => {
                match sum {
                    None => {
                        (
                            m,
                            Err(
                                EvalError::WarpMismatch {
                                    pc,
                                    reason: WarpFault::Text { text: "empty warp group" },
                                },
                            ),
                        )
                    },
                    Some(x) => {
                        m.broadcast_value(t, pc, members, dst, Value::Pair(x, x), 0)
                    },
                }
            },
        }
    }

    /// A lane's share of matrix `i`: two neighbours of a row, or of a column if
    /// transposed.
    #[verifier::opaque]
    pub open spec fn store_matrix(
        self,
        t: ThreadId,
        pc: InstrId,
        u: ThreadId,
        addrs: Seq<u64>,
        i: u64,
        trans: bool,
        v: Value,
    ) -> Out<()> {
        let lane = (u.0 % WARP_SIZE) as u32;
        if trans {
            match v {
                Value::Pair(lo, hi) => {
                    match self.mem_write(
                        u,
                        pc,
                        MemSpace::Shared,
                        addrs[i * 8 + 2 * (lane % 4)].wrapping_add((lane / 4 * 2) as u64),
                        2,
                        Value::Scalar(lo),
                    ) {
                        (m, Err(e)) => (m, Err(e)),
                        (m, Ok(_)) => {
                            m.mem_write(
                                u,
                                pc,
                                MemSpace::Shared,
                                addrs[i * 8 + 2 * (lane % 4) + 1].wrapping_add(
                                    (lane / 4 * 2) as u64,
                                ),
                                2,
                                Value::Scalar(hi),
                            )
                        },
                    }
                },
                _ => {
                    (self, Err(kind_mismatch(u, pc, "stmatrix source does not hold a packed pair")))
                },
            }
        } else {
            self.mem_write(
                u,
                pc,
                MemSpace::Shared,
                addrs[i * 8 + lane / 4].wrapping_add((lane % 4 * 4) as u64),
                4,
                v,
            )
        }
    }

    /// A lane's share of the matrices from the `i`-th on.
    pub open spec fn store_lane_matrices(
        self,
        t: ThreadId,
        pc: InstrId,
        u: ThreadId,
        src: Seq<Operand>,
        addrs: Seq<u64>,
        trans: bool,
        i: int,
    ) -> Out<()>
        decreases src.len() - i,
    {
        if i >= src.len() {
            (self, Ok(()))
        } else {
            match self.operand_value(u, pc, src[i]) {
                (m, Err(e)) => (m, Err(e)),
                (m, Ok(v)) => {
                    match m.store_matrix(t, pc, u, addrs, i as u64, trans, v) {
                        (m, Err(e)) => (m, Err(e)),
                        (m, Ok(_)) => {
                            m.store_lane_matrices(t, pc, u, src, addrs, trans, i + 1)
                        },
                    }
                },
            }
        }
    }

    /// The members' shares of the matrices from the `k`-th member on.
    pub open spec fn store_matrices(
        self,
        t: ThreadId,
        pc: InstrId,
        members: Seq<ThreadId>,
        src: Seq<Operand>,
        addrs: Seq<u64>,
        trans: bool,
        k: int,
    ) -> Out<()>
        decreases members.len() - k,
    {
        if k >= members.len() {
            (self, Ok(()))
        } else {
            match self.store_lane_matrices(t, pc, members[k], src, addrs, trans, 0) {
                (m, Err(e)) => (m, Err(e)),
                (m, Ok(_)) => {
                    m.store_matrices(t, pc, members, src, addrs, trans, k + 1)
                },
            }
        }
    }

    /// `stmatrix`: a cooperative store of 8x8 matrices of 16-bit elements.
    #[verifier::opaque]
    pub open spec fn stmatrix(
        self,
        t: ThreadId,
        pc: InstrId,
        members: Seq<ThreadId>,
        addr: Operand,
        addr_offset: i64,
        src: Seq<Operand>,
        trans: bool,
    ) -> Out<()> {
        if src.len() > 4 {
            (self, Err(unsupported(pc, "more matrix rows than lanes")))
        } else {
            match self.row_addrs(
                t,
                pc,
                members,
                addr,
                addr_offset,
                (src.len() * 8) as u64,
                "stmatrix row address",
                Seq::empty(),
                0,
            ) {
                (m, Err(e)) => (m, Err(e)),
                (m, Ok(addrs)) => {
                    m.store_matrices(t, pc, members, src, addrs, trans, 0)
                },
            }
        }
    }

    /// `tcgen05.alloc`: allocates Tensor Memory columns and writes their
    /// address to shared memory.
    #[verifier::opaque]
    pub open spec fn tcgen05_alloc(
        self,
        t: ThreadId,
        pc: InstrId,
        dst_base: Operand,
        dst_offset: i64,
        num_cols: u32,
    ) -> Out<()> {
        match self.effective_addr(t, pc, dst_base, dst_offset) {
            (m, Err(e)) => (m, Err(e)),
            (m, Ok(addr)) => {
                match m.tensor.alloc_error(num_cols) {
                    Some(e) => {
                        (m, Err(tcgen05_error(t, pc, e)))
                    },
                    None => {
                        let at = m.tensor.high_water;
                        let m = m.with_tensor(m.tensor.allocated(num_cols));
                        let (s, x) = m.exprs.int_const(at as i64);
                        let m = m.with_exprs(s);
                        m.mem_write(t, pc, MemSpace::Shared, addr, 4, Value::Scalar(x))
                    },
                }
            },
        }
    }

    /// `tcgen05.dealloc`.
    #[verifier::opaque]
    pub open spec fn tcgen05_dealloc(
        self,
        t: ThreadId,
        pc: InstrId,
        members: Seq<ThreadId>,
        taddr: Operand,
        num_cols: u32,
    ) -> Out<()> {
        match self.uniform_concrete(t, pc, members, taddr, "tcgen05.dealloc taddr") {
            (m, Err(e)) => (m, Err(e)),
            (m, Ok(a)) => {
                if m.tensor.dealloc_index(a as u32, num_cols) >= m.tensor.live.len() {
                    (
                        m,
                        Err(
                            tcgen05_error(
                                t,
                                pc,
                                TensorMemError::DeallocMismatch { taddr: a as u32, num_cols },
                            ),
                        ),
                    )
                } else {
                    let m = m.with_tensor(
                        m.tensor.deallocated(m.tensor.dealloc_index(a as u32, num_cols)),
                    );
                    (m, Ok(()))
                }
            },
        }
    }

    /// The first column of a Tensor Memory access. The upper half of the
    /// address names lanes, which have to be the warp's own quadrant.
    #[verifier::opaque]
    pub open spec fn tensor_column(
        self,
        t: ThreadId,
        pc: InstrId,
        members: Seq<ThreadId>,
        base: Operand,
        offset: i64,
        what: &'static str,
    ) -> Out<u32> {
        match self.uniform_concrete(t, pc, members, base, what) {
            (m, Err(e)) => (m, Err(e)),
            (m, Ok(a)) => {
                let taddr = (a as u64).wrapping_add(offset as u64) as u32;
                if taddr / 65536 != quadrant_of(t) * 32 {
                    (
                        m,
                        Err(
                            EvalError::Tcgen05LaneRestrictionViolation {
                                thread: t,
                                pc,
                                lane_base: (taddr / 65536) as u32,
                                expected_quadrant_base: (quadrant_of(t) * 32) as u32,
                            },
                        ),
                    )
                } else {
                    (m, Ok((taddr % 65536) as u32))
                }
            },
        }
    }

    /// Records an asynchronous Tensor Memory access of the warp's quadrant,
    /// unless it overlaps one in flight.
    #[verifier::opaque]
    pub open spec fn tensor_begin(
        self,
        t: ThreadId,
        pc: InstrId,
        col: u32,
        n: u64,
        is_st: bool,
    ) -> Out<()> {
        if col + n > u32::MAX {
            (
                self,
                Err(
                    tcgen05_error(
                        t,
                        pc,
                        TensorMemError::NotAllocated { lane: (quadrant_of(t) * 32) as u32, col },
                    ),
                ),
            )
        } else {
            let site = AccessSite { thread: t, pc, is_write: is_st };
            match self.race.tcgen05_conflict(quadrant_of(t), col, n as u32, is_st) {
                Some(prior) => {
                    (
                        self,
                        Err(
                            EvalError::Tcgen05AsyncHazard {
                                quadrant: quadrant_of(t),
                                start_col: col,
                                num_cols: n as u32,
                                prior,
                                current: site,
                            },
                        ),
                    )
                },
                None => {
                    let m = self.with_race(
                        self.race.tcgen05_pending(quadrant_of(t), is_st, (col, n as u32, site)),
                    );
                    (m, Ok(()))
                },
            }
        }
    }

    /// A lane's columns loaded from the `i`-th on; an unwritten cell is
    /// undefined.
    pub open spec fn tensor_load_lane(
        self,
        t: ThreadId,
        pc: InstrId,
        u: ThreadId,
        dst: Seq<RegId>,
        col: u32,
        i: int,
    ) -> Out<()>
        decreases dst.len() - i,
    {
        if i >= dst.len() {
            (self, Ok(()))
        } else {
            match self.tensor_cell(tensor_lane(u), column_at(col, i as u64)) {
                Err(e) => {
                    (self, Err(tcgen05_error(u, pc, e)))
                },
                Ok(None) => {
                    let (s, x) = self.exprs.undefined();
                    let m = self.with_exprs(s);
                    match m.write_reg(u, pc, dst[i], Value::Scalar(x)) {
                        (m, Err(e)) => (m, Err(e)),
                        (m, Ok(_)) => {
                            m.tensor_load_lane(t, pc, u, dst, col, i + 1)
                        },
                    }
                },
                Ok(Some(x)) => {
                    match self.write_reg(u, pc, dst[i], Value::Scalar(x)) {
                        (m, Err(e)) => (m, Err(e)),
                        (m, Ok(_)) => {
                            m.tensor_load_lane(t, pc, u, dst, col, i + 1)
                        },
                    }
                },
            }
        }
    }

    /// The members' columns loaded from the `k`-th member on.
    pub open spec fn tensor_load_lanes(
        self,
        t: ThreadId,
        pc: InstrId,
        members: Seq<ThreadId>,
        dst: Seq<RegId>,
        col: u32,
        k: int,
    ) -> Out<()>
        decreases members.len() - k,
    {
        if k >= members.len() {
            (self, Ok(()))
        } else {
            match self.tensor_load_lane(t, pc, members[k], dst, col, 0) {
                (m, Err(e)) => (m, Err(e)),
                (m, Ok(_)) => {
                    m.tensor_load_lanes(t, pc, members, dst, col, k + 1)
                },
            }
        }
    }

    /// `tcgen05.ld`: a collective load of Tensor Memory columns, one register
    /// per column.
    #[verifier::opaque]
    pub open spec fn tcgen05_ld(
        self,
        t: ThreadId,
        pc: InstrId,
        members: Seq<ThreadId>,
        dst: Seq<RegId>,
        base: Operand,
        offset: i64,
    ) -> Out<()> {
        match self.tensor_column(t, pc, members, base, offset, "tcgen05.ld taddr") {
            (m, Err(e)) => (m, Err(e)),
            (m, Ok(col)) => {
                match m.tensor_begin(t, pc, col, dst.len() as u64, false) {
                    (m, Err(e)) => (m, Err(e)),
                    (m, Ok(_)) => {
                        m.tensor_load_lanes(t, pc, members, dst, col, 0)
                    },
                }
            },
        }
    }

    /// A lane's columns stored from the `i`-th on.
    pub open spec fn tensor_store_lane(
        self,
        t: ThreadId,
        pc: InstrId,
        u: ThreadId,
        src: Seq<Operand>,
        col: u32,
        i: int,
    ) -> Out<()>
        decreases src.len() - i,
    {
        if i >= src.len() {
            (self, Ok(()))
        } else {
            match self.scalar_operand(u, pc, src[i]) {
                (m, Err(e)) => (m, Err(e)),
                (m, Ok(x)) => {
                    if !m.tensor.is_live(column_at(col, i as u64)) {
                        (
                            m,
                            Err(
                                tcgen05_error(
                                    u,
                                    pc,
                                    TensorMemError::NotAllocated {
                                        lane: tensor_lane(u),
                                        col: column_at(col, i as u64),
                                    },
                                ),
                            ),
                        )
                    } else {
                        let m = m.with_tensor(
                            m.tensor.written(tensor_lane(u), column_at(col, i as u64), x),
                        );
                        m.tensor_store_lane(t, pc, u, src, col, i + 1)
                    }
                },
            }
        }
    }

    /// The members' columns stored from the `k`-th member on.
    pub open spec fn tensor_store_lanes(
        self,
        t: ThreadId,
        pc: InstrId,
        members: Seq<ThreadId>,
        src: Seq<Operand>,
        col: u32,
        k: int,
    ) -> Out<()>
        decreases members.len() - k,
    {
        if k >= members.len() {
            (self, Ok(()))
        } else {
            match self.tensor_store_lane(t, pc, members[k], src, col, 0) {
                (m, Err(e)) => (m, Err(e)),
                (m, Ok(_)) => {
                    m.tensor_store_lanes(t, pc, members, src, col, k + 1)
                },
            }
        }
    }

    /// `tcgen05.st`: a collective store of Tensor Memory columns, one operand
    /// per column.
    #[verifier::opaque]
    pub open spec fn tcgen05_st(
        self,
        t: ThreadId,
        pc: InstrId,
        members: Seq<ThreadId>,
        base: Operand,
        offset: i64,
        src: Seq<Operand>,
    ) -> Out<()> {
        match self.tensor_column(t, pc, members, base, offset, "tcgen05.st taddr") {
            (m, Err(e)) => (m, Err(e)),
            (m, Ok(col)) => {
                match m.tensor_begin(t, pc, col, src.len() as u64, true) {
                    (m, Err(e)) => (m, Err(e)),
                    (m, Ok(_)) => {
                        m.tensor_store_lanes(t, pc, members, src, col, 0)
                    },
                }
            },
        }
    }
}

impl<'p> Interpreter<'p> {
    /// The lane id that an election gives its leader; undefined for any other
    /// lane.
    pub(crate) fn elect_value(
        &mut self,
        t: ThreadId,
        pc: InstrId,
        u: ThreadId,
        dst: Option<RegId>,
        leader: bool,
    ) -> (r: EvalResult<()>)
        requires
            old(self).wf(),
            old(self).has(t),
            old(self).has(u),
        ensures
            final(self).wf(),
            final(self).setup == old(self).setup,
            final(self)@.pace() == old(self)@.pace(),
            (final(self)@, r) == old(self)@.elect_value(t, pc, u, dst, leader),
    {
        reveal(Machine::elect_value);
        match dst {
            None => {
                Ok(())
            },
            Some(reg) => {
                if leader {
                    let x = self.arena.int_const((u.0 % WARP_SIZE) as i64);
                    self.write_reg(u, pc, reg, Value::Scalar(x))
                } else {
                    let x = self.arena.undefined();
                    self.write_reg(u, pc, reg, Value::Scalar(x))
                }
            },
        }
    }

    /// `elect.sync` from the `k`-th member on: the lowest live lane of the mask
    /// is the leader.
    pub(crate) fn elect_sync(
        &mut self,
        t: ThreadId,
        pc: InstrId,
        members: &Vec<ThreadId>,
        dst: Option<RegId>,
        dst_pred: RegId,
    ) -> (r: EvalResult<()>)
        requires
            old(self).wf(),
            old(self).has(t),
            old(self).has_all(members@),
        ensures
            final(self).wf(),
            final(self).setup == old(self).setup,
            final(self)@.pace() == old(self)@.pace(),
            (final(self)@, r) == old(self)@.elect_sync(t, pc, members@, dst, dst_pred, 0),
    {
        let mut k: usize = 0;
        while k < members.len()
            invariant
                self.wf(),
                self.has(t),
                self.setup == old(self).setup,
                self@.pace() == old(self)@.pace(),
                old(self).has_all(members@),
                k <= members@.len(),
                old(self)@.elect_sync(t, pc, members@, dst, dst_pred, 0) == self@.elect_sync(
                    t,
                    pc,
                    members@,
                    dst,
                    dst_pred,
                    k as int,
                ),
            decreases members@.len() - k,
        {
            if let Err(e) = self.elect_value(t, pc, members[k], dst, k == 0) {
                return Err(e);
            }
            let x = self.arena.bool_val(k == 0);
            if let Err(e) = self.write_reg(members[k], pc, dst_pred, Value::Scalar(x)) {
                return Err(e);
            }
            
            k = k + 1;
        }
        Ok(())
    }

    /// The members' values folded by an operation, from the `k`-th member on.
    pub(crate) fn redux_fold(
        &mut self,
        t: ThreadId,
        pc: InstrId,
        members: &Vec<ThreadId>,
        op: BinOp,
        ty: ScalarType,
        src: &Operand,
    ) -> (r: EvalResult<Option<ExprId>>)
        requires
            old(self).wf(),
            old(self).has(t),
            old(self).has_all(members@),
        ensures
            final(self).wf(),
            final(self).setup == old(self).setup,
            final(self)@.pace() == old(self)@.pace(),
            (final(self)@, r) == old(self)@.redux_fold(t, pc, members@, op, ty, *src, None, 0),
    {
        let mut sum: Option<ExprId> = None;
        let mut k: usize = 0;
        while k < members.len()
            invariant
                self.wf(),
                self.has(t),
                self.setup == old(self).setup,
                self@.pace() == old(self)@.pace(),
                old(self).has_all(members@),
                k <= members@.len(),
                old(self)@.redux_fold(t, pc, members@, op, ty, *src, None, 0) == self@.redux_fold(
                    t,
                    pc,
                    members@,
                    op,
                    ty,
                    *src,
                    sum,
                    k as int,
                ),
            decreases members@.len() - k,
        {
            let v = match self.scalar_operand(members[k], pc, src) {
                Err(e) => {
                    return Err(e);
                },
                Ok(v) => v,
            };
            match sum {
                None => {
                    sum = Some(v);
                },
                Some(x) => {
                    let y = match eval_binop(&mut self.arena, members[k], pc, op, ty, x, v) {
                        Err(e) => {
                            return Err(e);
                        },
                        Ok(v) => v,
                    };
                    sum = Some(y);
                },
            }
            k = k + 1;
        }
        Ok(sum)
    }

    /// The maximum of the members' values, from the `k`-th member on.
    pub(crate) fn max_fold(
        &mut self,
        t: ThreadId,
        pc: InstrId,
        members: &Vec<ThreadId>,
        src: &Operand,
    ) -> (r: EvalResult<Option<ExprId>>)
        requires
            old(self).wf(),
            old(self).has(t),
            old(self).has_all(members@),
        ensures
            final(self).wf(),
            final(self).setup == old(self).setup,
            final(self)@.pace() == old(self)@.pace(),
            (final(self)@, r) == old(self)@.max_fold(t, pc, members@, *src, None, 0),
    {
        let mut sum: Option<ExprId> = None;
        let mut k: usize = 0;
        while k < members.len()
            invariant
                self.wf(),
                self.has(t),
                self.setup == old(self).setup,
                self@.pace() == old(self)@.pace(),
                old(self).has_all(members@),
                k <= members@.len(),
                old(self)@.max_fold(t, pc, members@, *src, None, 0) == self@.max_fold(
                    t,
                    pc,
                    members@,
                    *src,
                    sum,
                    k as int,
                ),
            decreases members@.len() - k,
        {
            let v = match self.scalar_operand(members[k], pc, src) {
                Err(e) => {
                    return Err(e);
                },
                Ok(v) => v,
            };
            match sum {
                None => {
                    sum = Some(v);
                },
                Some(x) => {
                    let y = self.arena.max(x, v);
                    sum = Some(y);
                },
            }
            k = k + 1;
        }
        Ok(sum)
    }

    /// Writes one value to a register of every member, from the `k`-th on.
    pub(crate) fn broadcast_value(
        &mut self,
        t: ThreadId,
        pc: InstrId,
        members: &Vec<ThreadId>,
        dst: RegId,
        v: Value,
    ) -> (r: EvalResult<()>)
        requires
            old(self).wf(),
            old(self).has(t),
            old(self).has_all(members@),
        ensures
            final(self).wf(),
            final(self).setup == old(self).setup,
            final(self)@.pace() == old(self)@.pace(),
            (final(self)@, r) == old(self)@.broadcast_value(t, pc, members@, dst, v, 0),
    {
        let mut k: usize = 0;
        while k < members.len()
            invariant
                self.wf(),
                self.has(t),
                self.setup == old(self).setup,
                self@.pace() == old(self)@.pace(),
                old(self).has_all(members@),
                k <= members@.len(),
                old(self)@.broadcast_value(t, pc, members@, dst, v, 0) == self@.broadcast_value(
                    t,
                    pc,
                    members@,
                    dst,
                    v,
                    k as int,
                ),
            decreases members@.len() - k,
        {
            if let Err(e) = self.write_reg(members[k], pc, dst, v) {
                return Err(e);
            }
            
            k = k + 1;
        }
        Ok(())
    }

    /// `redux.sync`: folds the live lanes' values and gives the result to each
    /// of them.
    pub(crate) fn redux_sync(
        &mut self,
        t: ThreadId,
        pc: InstrId,
        members: &Vec<ThreadId>,
        op: BinOp,
        ty: ScalarType,
        dst: RegId,
        src: &Operand,
    ) -> (r: EvalResult<()>)
        requires
            old(self).wf(),
            old(self).has(t),
            old(self).has_all(members@),
        ensures
            final(self).wf(),
            final(self).setup == old(self).setup,
            final(self)@.pace() == old(self)@.pace(),
            (final(self)@, r) == old(self)@.redux_sync(t, pc, members@, op, ty, dst, *src),
    {
        reveal(Machine::redux_sync);
        let sum = match self.redux_fold(t, pc, members, op, ty, src) {
            Err(e) => {
                return Err(e);
            },
            Ok(v) => v,
        };
        match sum {
            None => {
                Err(
                    EvalError::WarpMismatch {
                        pc,
                        reason: WarpFault::Text { text: "empty warp group" },
                    },
                )
            },
            Some(x) => {
                self.broadcast_value(t, pc, members, dst, Value::Scalar(x))
            },
        }
    }

    /// The maximum across a warp, given to each live lane as a pair of itself.
    pub(crate) fn redux_max(
        &mut self,
        t: ThreadId,
        pc: InstrId,
        members: &Vec<ThreadId>,
        dst: RegId,
        src: &Operand,
    ) -> (r: EvalResult<()>)
        requires
            old(self).wf(),
            old(self).has(t),
            old(self).has_all(members@),
        ensures
            final(self).wf(),
            final(self).setup == old(self).setup,
            final(self)@.pace() == old(self)@.pace(),
            (final(self)@, r) == old(self)@.redux_max(t, pc, members@, dst, *src),
    {
        reveal(Machine::redux_max);
        let sum = match self.max_fold(t, pc, members, src) {
            Err(e) => {
                return Err(e);
            },
            Ok(v) => v,
        };
        match sum {
            None => {
                Err(
                    EvalError::WarpMismatch {
                        pc,
                        reason: WarpFault::Text { text: "empty warp group" },
                    },
                )
            },
            Some(x) => {
                self.broadcast_value(t, pc, members, dst, Value::Pair(x, x))
            },
        }
    }

    /// A lane's share of matrix `i`: two neighbours of a row, or of a column if
    /// transposed.
    pub(crate) fn store_matrix(
        &mut self,
        t: ThreadId,
        pc: InstrId,
        u: ThreadId,
        addrs: &Vec<u64>,
        i: u64,
        trans: bool,
        v: Value,
    ) -> (r: EvalResult<()>)
        requires
            old(self).wf(),
            old(self).has(t),
            old(self).has(u),
            i * 8 + 8 <= addrs@.len() <= u32::MAX,
        ensures
            final(self).wf(),
            final(self).setup == old(self).setup,
            final(self)@.pace() == old(self)@.pace(),
            (final(self)@, r) == old(self)@.store_matrix(t, pc, u, addrs@, i, trans, v),
    {
        reveal(Machine::store_matrix);
        let lane: u32 = u.0 % WARP_SIZE;
        if trans {
            match v {
                Value::Pair(lo, hi) => {
                    if let Err(e) = self.mem_write(
                        u,
                        pc,
                        MemSpace::Shared,
                        addrs[(i * 8 + 2 * (lane % 4) as u64) as usize].wrapping_add(
                            (lane / 4 * 2) as u64,
                        ),
                        2,
                        Value::Scalar(lo),
                    ) {
                        return Err(e);
                    }
                    self.mem_write(
                        u,
                        pc,
                        MemSpace::Shared,
                        addrs[(i * 8 + 2 * (lane % 4) as u64 + 1) as usize].wrapping_add(
                            (lane / 4 * 2) as u64,
                        ),
                        2,
                        Value::Scalar(hi),
                    )
                },
                _ => {
                    Err(kind_mismatch(u, pc, "stmatrix source does not hold a packed pair"))
                },
            }
        } else {
            self.mem_write(
                u,
                pc,
                MemSpace::Shared,
                addrs[(i * 8 + (lane / 4) as u64) as usize].wrapping_add((lane % 4 * 4) as u64),
                4,
                v,
            )
        }
    }

    /// A lane's share of the matrices from the `i`-th on.
    pub(crate) fn store_lane_matrices(
        &mut self,
        t: ThreadId,
        pc: InstrId,
        u: ThreadId,
        src: &Vec<Operand>,
        addrs: &Vec<u64>,
        trans: bool,
    ) -> (r: EvalResult<()>)
        requires
            old(self).wf(),
            old(self).has(t),
            old(self).has(u),
            src@.len() * 8 == addrs@.len() <= u32::MAX,
        ensures
            final(self).wf(),
            final(self).setup == old(self).setup,
            final(self)@.pace() == old(self)@.pace(),
            (final(self)@, r) == old(self)@.store_lane_matrices(t, pc, u, src@, addrs@, trans, 0),
    {
        let mut i: usize = 0;
        while i < src.len()
            invariant
                self.wf(),
                self.has(t),
                self.setup == old(self).setup,
                self@.pace() == old(self)@.pace(),
                old(self).has(u),
                src@.len() * 8 == addrs@.len() <= u32::MAX,
                i <= src@.len(),
                old(self)@.store_lane_matrices(t, pc, u, src@, addrs@, trans, 0) == self@.store_lane_matrices(
                    t,
                    pc,
                    u,
                    src@,
                    addrs@,
                    trans,
                    i as int,
                ),
            decreases src@.len() - i,
        {
            let v = match self.operand_value(u, pc, &src[i]) {
                Err(e) => {
                    return Err(e);
                },
                Ok(v) => v,
            };
            if let Err(e) = self.store_matrix(t, pc, u, addrs, i as u64, trans, v) {
                return Err(e);
            }
            
            i = i + 1;
        }
        Ok(())
    }

    /// The members' shares of the matrices from the `k`-th member on.
    pub(crate) fn store_matrices(
        &mut self,
        t: ThreadId,
        pc: InstrId,
        members: &Vec<ThreadId>,
        src: &Vec<Operand>,
        addrs: &Vec<u64>,
        trans: bool,
    ) -> (r: EvalResult<()>)
        requires
            old(self).wf(),
            old(self).has(t),
            old(self).has_all(members@),
            src@.len() * 8 == addrs@.len() <= u32::MAX,
        ensures
            final(self).wf(),
            final(self).setup == old(self).setup,
            final(self)@.pace() == old(self)@.pace(),
            (final(self)@, r) == old(self)@.store_matrices(t, pc, members@, src@, addrs@, trans, 0),
    {
        let mut k: usize = 0;
        while k < members.len()
            invariant
                self.wf(),
                self.has(t),
                self.setup == old(self).setup,
                self@.pace() == old(self)@.pace(),
                old(self).has_all(members@),
                src@.len() * 8 == addrs@.len() <= u32::MAX,
                k <= members@.len(),
                old(self)@.store_matrices(t, pc, members@, src@, addrs@, trans, 0) == self@.store_matrices(
                    t,
                    pc,
                    members@,
                    src@,
                    addrs@,
                    trans,
                    k as int,
                ),
            decreases members@.len() - k,
        {
            if let Err(e) = self.store_lane_matrices(t, pc, members[k], src, addrs, trans) {
                return Err(e);
            }
            
            k = k + 1;
        }
        Ok(())
    }

    /// `stmatrix`: a cooperative store of 8x8 matrices of 16-bit elements.
    pub(crate) fn stmatrix(
        &mut self,
        t: ThreadId,
        pc: InstrId,
        members: &Vec<ThreadId>,
        addr: &Operand,
        addr_offset: i64,
        src: &Vec<Operand>,
        trans: bool,
    ) -> (r: EvalResult<()>)
        requires
            old(self).wf(),
            old(self).has(t),
            old(self).has_all(members@),
        ensures
            final(self).wf(),
            final(self).setup == old(self).setup,
            final(self)@.pace() == old(self)@.pace(),
            (final(self)@, r) == old(self)@.stmatrix(
                t,
                pc,
                members@,
                *addr,
                addr_offset,
                src@,
                trans,
            ),
    {
        reveal(Machine::stmatrix);
        if src.len() > 4 {
            return Err(unsupported(pc, "more matrix rows than lanes"));
        }
        let addrs = match self.row_addrs(
            t,
            pc,
            members,
            addr,
            addr_offset,
            src.len() as u64 * 8,
            "stmatrix row address",
        ) {
            Err(e) => {
                return Err(e);
            },
            Ok(v) => v,
        };
        self.store_matrices(t, pc, members, src, &addrs, trans)
    }

    /// `tcgen05.alloc`: allocates Tensor Memory columns and writes their
    /// address to shared memory.
    pub(crate) fn tcgen05_alloc(
        &mut self,
        t: ThreadId,
        pc: InstrId,
        dst_base: &Operand,
        dst_offset: i64,
        num_cols: u32,
    ) -> (r: EvalResult<()>)
        requires
            old(self).wf(),
            old(self).has(t),
        ensures
            final(self).wf(),
            final(self).setup == old(self).setup,
            final(self)@.pace() == old(self)@.pace(),
            (final(self)@, r) == old(self)@.tcgen05_alloc(t, pc, *dst_base, dst_offset, num_cols),
    {
        reveal(Machine::tcgen05_alloc);
        let addr = match self.effective_addr(t, pc, dst_base, dst_offset) {
            Err(e) => {
                return Err(e);
            },
            Ok(v) => v,
        };
        match self.tensor.allocate(num_cols) {
            Err(e) => {
                Err(tcgen05_error(t, pc, e))
            },
            Ok(col) => {
                let at: u32 = col;
                
                let x = self.arena.int_const(at as i64);
                self.mem_write(t, pc, MemSpace::Shared, addr, 4, Value::Scalar(x))
            },
        }
    }

    /// `tcgen05.dealloc`.
    pub(crate) fn tcgen05_dealloc(
        &mut self,
        t: ThreadId,
        pc: InstrId,
        members: &Vec<ThreadId>,
        taddr: &Operand,
        num_cols: u32,
    ) -> (r: EvalResult<()>)
        requires
            old(self).wf(),
            old(self).has(t),
            old(self).has_all(members@),
        ensures
            final(self).wf(),
            final(self).setup == old(self).setup,
            final(self)@.pace() == old(self)@.pace(),
            (final(self)@, r) == old(self)@.tcgen05_dealloc(t, pc, members@, *taddr, num_cols),
    {
        reveal(Machine::tcgen05_dealloc);
        let a = match self.uniform_concrete(t, pc, members, taddr, "tcgen05.dealloc taddr") {
            Err(e) => {
                return Err(e);
            },
            Ok(v) => v,
        };
        if self.tensor.dealloc(a as u32, num_cols).is_err() {
            return Err(
                tcgen05_error(t, pc, TensorMemError::DeallocMismatch { taddr: a as u32, num_cols }),
            );
        }
        
        Ok(())
    }

    /// The first column of a Tensor Memory access. The upper half of the
    /// address names lanes, which have to be the warp's own quadrant.
    pub(crate) fn tensor_column(
        &mut self,
        t: ThreadId,
        pc: InstrId,
        members: &Vec<ThreadId>,
        base: &Operand,
        offset: i64,
        what: &'static str,
    ) -> (r: EvalResult<u32>)
        requires
            old(self).wf(),
            old(self).has(t),
            old(self).has_all(members@),
        ensures
            final(self).wf(),
            final(self).setup == old(self).setup,
            final(self)@.pace() == old(self)@.pace(),
            (final(self)@, r) == old(self)@.tensor_column(t, pc, members@, *base, offset, what),
    {
        reveal(Machine::tensor_column);
        let a = match self.uniform_concrete(t, pc, members, base, what) {
            Err(e) => {
                return Err(e);
            },
            Ok(v) => v,
        };
        let taddr: u32 = (a as u64).wrapping_add(offset as u64) as u32;
        if taddr / 65536 != quadrant_of(t) * 32 {
            return Err(
                EvalError::Tcgen05LaneRestrictionViolation {
                    thread: t,
                    pc,
                    lane_base: taddr / 65536,
                    expected_quadrant_base: quadrant_of(t) * 32,
                },
            );
        }
        Ok(taddr % 65536)
    }

    /// Records an asynchronous Tensor Memory access of the warp's quadrant,
    /// unless it overlaps one in flight.
    pub(crate) fn tensor_begin(
        &mut self,
        t: ThreadId,
        pc: InstrId,
        col: u32,
        n: u64,
        is_st: bool,
    ) -> (r: EvalResult<()>)
        requires
            old(self).wf(),
            old(self).has(t),
        ensures
            final(self).wf(),
            final(self).setup == old(self).setup,
            final(self)@.pace() == old(self)@.pace(),
            (final(self)@, r) == old(self)@.tensor_begin(t, pc, col, n, is_st),
    {
        reveal(Machine::tensor_begin);
        if n > u32::MAX as u64 - col as u64 {
            return Err(
                tcgen05_error(
                    t,
                    pc,
                    TensorMemError::NotAllocated { lane: quadrant_of(t) * 32, col },
                ),
            );
        }
        let site: AccessSite = AccessSite { thread: t, pc, is_write: is_st };
        match self.race.tcgen05_begin(quadrant_of(t), col, n as u32, is_st, site) {
            Err(h) => {
                Err(
                    EvalError::Tcgen05AsyncHazard {
                        quadrant: h.quadrant,
                        start_col: h.start_col,
                        num_cols: h.num_cols,
                        prior: h.prior,
                        current: h.current,
                    },
                )
            },
            Ok(_) => {
                
                Ok(())
            },
        }
    }

    /// A lane's columns loaded from the `i`-th on; an unwritten cell is
    /// undefined.
    pub(crate) fn tensor_load_lane(
        &mut self,
        t: ThreadId,
        pc: InstrId,
        u: ThreadId,
        dst: &Vec<RegId>,
        col: u32,
    ) -> (r: EvalResult<()>)
        requires
            old(self).wf(),
            old(self).has(t),
            old(self).has(u),
        ensures
            final(self).wf(),
            final(self).setup == old(self).setup,
            final(self)@.pace() == old(self)@.pace(),
            (final(self)@, r) == old(self)@.tensor_load_lane(t, pc, u, dst@, col, 0),
    {
        let mut i: usize = 0;
        while i < dst.len()
            invariant
                self.wf(),
                self.has(t),
                self.setup == old(self).setup,
                self@.pace() == old(self)@.pace(),
                old(self).has(u),
                i <= dst@.len(),
                old(self)@.tensor_load_lane(t, pc, u, dst@, col, 0) == self@.tensor_load_lane(
                    t,
                    pc,
                    u,
                    dst@,
                    col,
                    i as int,
                ),
            decreases dst@.len() - i,
        {
            match self.tensor.read(tensor_lane(u), column_at(col, i as u64)) {
                Err(e) => {
                    return Err(tcgen05_error(u, pc, e));
                },
                Ok(None) => {
                    let x = self.arena.undefined();
                    if let Err(e) = self.write_reg(u, pc, dst[i], Value::Scalar(x)) {
                        return Err(e);
                    }
                    
                },
                Ok(Some(x)) => {
                    if let Err(e) = self.write_reg(u, pc, dst[i], Value::Scalar(x)) {
                        return Err(e);
                    }
                    
                },
            }
            i = i + 1;
        }
        Ok(())
    }

    /// The members' columns loaded from the `k`-th member on.
    pub(crate) fn tensor_load_lanes(
        &mut self,
        t: ThreadId,
        pc: InstrId,
        members: &Vec<ThreadId>,
        dst: &Vec<RegId>,
        col: u32,
    ) -> (r: EvalResult<()>)
        requires
            old(self).wf(),
            old(self).has(t),
            old(self).has_all(members@),
        ensures
            final(self).wf(),
            final(self).setup == old(self).setup,
            final(self)@.pace() == old(self)@.pace(),
            (final(self)@, r) == old(self)@.tensor_load_lanes(t, pc, members@, dst@, col, 0),
    {
        let mut k: usize = 0;
        while k < members.len()
            invariant
                self.wf(),
                self.has(t),
                self.setup == old(self).setup,
                self@.pace() == old(self)@.pace(),
                old(self).has_all(members@),
                k <= members@.len(),
                old(self)@.tensor_load_lanes(t, pc, members@, dst@, col, 0) == self@.tensor_load_lanes(
                    t,
                    pc,
                    members@,
                    dst@,
                    col,
                    k as int,
                ),
            decreases members@.len() - k,
        {
            if let Err(e) = self.tensor_load_lane(t, pc, members[k], dst, col) {
                return Err(e);
            }
            
            k = k + 1;
        }
        Ok(())
    }

    /// `tcgen05.ld`: a collective load of Tensor Memory columns, one register
    /// per column.
    pub(crate) fn tcgen05_ld(
        &mut self,
        t: ThreadId,
        pc: InstrId,
        members: &Vec<ThreadId>,
        dst: &Vec<RegId>,
        base: &Operand,
        offset: i64,
    ) -> (r: EvalResult<()>)
        requires
            old(self).wf(),
            old(self).has(t),
            old(self).has_all(members@),
        ensures
            final(self).wf(),
            final(self).setup == old(self).setup,
            final(self)@.pace() == old(self)@.pace(),
            (final(self)@, r) == old(self)@.tcgen05_ld(t, pc, members@, dst@, *base, offset),
    {
        reveal(Machine::tcgen05_ld);
        let col = match self.tensor_column(t, pc, members, base, offset, "tcgen05.ld taddr") {
            Err(e) => {
                return Err(e);
            },
            Ok(v) => v,
        };
        if let Err(e) = self.tensor_begin(t, pc, col, dst.len() as u64, false) {
            return Err(e);
        }
        self.tensor_load_lanes(t, pc, members, dst, col)
    }

    /// A lane's columns stored from the `i`-th on.
    pub(crate) fn tensor_store_lane(
        &mut self,
        t: ThreadId,
        pc: InstrId,
        u: ThreadId,
        src: &Vec<Operand>,
        col: u32,
    ) -> (r: EvalResult<()>)
        requires
            old(self).wf(),
            old(self).has(t),
            old(self).has(u),
        ensures
            final(self).wf(),
            final(self).setup == old(self).setup,
            final(self)@.pace() == old(self)@.pace(),
            (final(self)@, r) == old(self)@.tensor_store_lane(t, pc, u, src@, col, 0),
    {
        let mut i: usize = 0;
        while i < src.len()
            invariant
                self.wf(),
                self.has(t),
                self.setup == old(self).setup,
                self@.pace() == old(self)@.pace(),
                old(self).has(u),
                i <= src@.len(),
                old(self)@.tensor_store_lane(t, pc, u, src@, col, 0) == self@.tensor_store_lane(
                    t,
                    pc,
                    u,
                    src@,
                    col,
                    i as int,
                ),
            decreases src@.len() - i,
        {
            let x = match self.scalar_operand(u, pc, &src[i]) {
                Err(e) => {
                    return Err(e);
                },
                Ok(v) => v,
            };
            if self.tensor.write(tensor_lane(u), column_at(col, i as u64), x).is_err() {
                return Err(
                    tcgen05_error(
                        u,
                        pc,
                        TensorMemError::NotAllocated {
                            lane: tensor_lane(u),
                            col: column_at(col, i as u64),
                        },
                    ),
                );
            }
            
            
            i = i + 1;
        }
        Ok(())
    }

    /// The members' columns stored from the `k`-th member on.
    pub(crate) fn tensor_store_lanes(
        &mut self,
        t: ThreadId,
        pc: InstrId,
        members: &Vec<ThreadId>,
        src: &Vec<Operand>,
        col: u32,
    ) -> (r: EvalResult<()>)
        requires
            old(self).wf(),
            old(self).has(t),
            old(self).has_all(members@),
        ensures
            final(self).wf(),
            final(self).setup == old(self).setup,
            final(self)@.pace() == old(self)@.pace(),
            (final(self)@, r) == old(self)@.tensor_store_lanes(t, pc, members@, src@, col, 0),
    {
        let mut k: usize = 0;
        while k < members.len()
            invariant
                self.wf(),
                self.has(t),
                self.setup == old(self).setup,
                self@.pace() == old(self)@.pace(),
                old(self).has_all(members@),
                k <= members@.len(),
                old(self)@.tensor_store_lanes(t, pc, members@, src@, col, 0) == self@.tensor_store_lanes(
                    t,
                    pc,
                    members@,
                    src@,
                    col,
                    k as int,
                ),
            decreases members@.len() - k,
        {
            if let Err(e) = self.tensor_store_lane(t, pc, members[k], src, col) {
                return Err(e);
            }
            
            k = k + 1;
        }
        Ok(())
    }

    /// `tcgen05.st`: a collective store of Tensor Memory columns, one operand
    /// per column.
    pub(crate) fn tcgen05_st(
        &mut self,
        t: ThreadId,
        pc: InstrId,
        members: &Vec<ThreadId>,
        base: &Operand,
        offset: i64,
        src: &Vec<Operand>,
    ) -> (r: EvalResult<()>)
        requires
            old(self).wf(),
            old(self).has(t),
            old(self).has_all(members@),
        ensures
            final(self).wf(),
            final(self).setup == old(self).setup,
            final(self)@.pace() == old(self)@.pace(),
            (final(self)@, r) == old(self)@.tcgen05_st(t, pc, members@, *base, offset, src@),
    {
        reveal(Machine::tcgen05_st);
        let col = match self.tensor_column(t, pc, members, base, offset, "tcgen05.st taddr") {
            Err(e) => {
                return Err(e);
            },
            Ok(v) => v,
        };
        if let Err(e) = self.tensor_begin(t, pc, col, src.len() as u64, true) {
            return Err(e);
        }
        self.tensor_store_lanes(t, pc, members, src, col)
    }
}

} // verus!
