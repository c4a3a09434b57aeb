//! Cooperative operations of a warp or a warpgroup: what a complete group
//! executes once all of its live threads have arrived.
//!
//! Each operation is a synchronization of its group, on both sides of the
//! operation's data movement and compute.

use vstd::prelude::*;
use fixedbitset::FixedBitSet;

use crate::eval::arith::unsupported;
use crate::eval::bitset::{bits, bitset_blocks, bitset_len};
use crate::eval::collective::quadrant_of;
use crate::eval::error::{Detail, EvalError, EvalResult, WarpFault};
use crate::eval::interp::Interpreter;
use crate::eval::lists::thread_at_mut;
use crate::eval::machine::{Machine, Out, Stats, Status, ThreadModel};
use crate::eval::step::counted;
use crate::eval::tensor_memory::TensorState;
use crate::eval::{ThreadId, WARPGROUP_SIZE, WARP_SIZE};
use crate::lowered::{InstrId, LoweredInstr, Operand, kind_name_at};
use crate::symbols::RegId;
use crate::tensor_core::{Fragment, MmaLayout, MmaShape};

verus! {

pub open spec fn spec_exited_lanes(
    pc: InstrId,
    what: &'static str,
    live: u64,
) -> Option<EvalError> {
    if live != WARP_SIZE {
        Some(EvalError::WarpMismatch { pc, reason: WarpFault::ExitedLanes { what, live } })
    } else {
        None
    }
}

/// The error of a tensor-core operation whose warp has exited lanes.
#[verifier::when_used_as_spec(spec_exited_lanes)]
pub fn exited_lanes(pc: InstrId, what: &'static str, live: u64) -> (r: Option<EvalError>)
    ensures
        r == spec_exited_lanes(pc, what, live),
{
    if live != WARP_SIZE as u64 {
        Some(EvalError::WarpMismatch { pc, reason: WarpFault::ExitedLanes { what, live } })
    } else {
        None
    }
}

/// The error of a `wmma` operation with an unmodeled shape or exited lanes.
pub open spec fn spec_wmma_refusal(pc: InstrId, shape: MmaShape, live: u64) -> Option<EvalError> {
    if shape != (MmaShape { m: 16, n: 16, k: 16 }) {
        Some(
            EvalError::Unsupported { pc, what: Detail::UnsupportedShape { what: "wmma", shape } },
        )
    } else {
        exited_lanes(pc, "wmma", live)
    }
}

/// The error of a `wmma` operation with an unmodeled shape or exited lanes.
#[verifier::when_used_as_spec(spec_wmma_refusal)]
pub fn wmma_refusal(pc: InstrId, shape: MmaShape, live: u64) -> (r: Option<EvalError>)
    ensures
        r == spec_wmma_refusal(pc, shape, live),
{
    if shape != (MmaShape { m: 16, n: 16, k: 16 }) {
        Some(
            EvalError::Unsupported { pc, what: Detail::UnsupportedShape { what: "wmma", shape } },
        )
    } else {
        exited_lanes(pc, "wmma", live)
    }
}

/// Why an operation cannot be executed by a warp of which `live` lanes are
/// live, as far as the instruction itself tells.
pub open spec fn warp_refusal(pc: InstrId, instr: LoweredInstr, live: u64) -> Option<EvalError> {
    match &instr {
        LoweredInstr::BarWarpSync { .. } | LoweredInstr::ShflSync { .. } => None,
        LoweredInstr::ElectSync { .. } | LoweredInstr::ReduxSync { .. } => None,
        LoweredInstr::ReduxSyncBroadcastMax { .. } => None,
        LoweredInstr::Ldmatrix { dst, num, .. } => match exited_lanes(pc, "ldmatrix", live) {
            Some(e) => Some(e),
            None => if dst@.len() != *num {
                Some(
                    EvalError::Unsupported {
                        pc,
                        what: Detail::LdmatrixRegisters { num: *num, found: dst@.len() as u64 },
                    },
                )
            } else {
                None
            },
        },
        LoweredInstr::Stmatrix { src, num, .. } => match exited_lanes(pc, "stmatrix", live) {
            Some(e) => Some(e),
            None => if src@.len() != *num {
                Some(unsupported(pc, "stmatrix with a wrong number of source registers"))
            } else {
                None
            },
        },
        LoweredInstr::Mma { shape, a_layout, b_layout, .. } => if *shape != (MmaShape {
            m: 16,
            n: 8,
            k: 16,
        }) {
            Some(
                EvalError::Unsupported {
                    pc,
                    what: Detail::UnsupportedShape { what: "mma", shape: *shape },
                },
            )
        } else if *a_layout != MmaLayout::Row || *b_layout != MmaLayout::Col {
            Some(unsupported(pc, "mma with non-row.col layouts"))
        } else {
            exited_lanes(pc, "mma.sync", live)
        },
        LoweredInstr::WmmaLoad { shape, .. } => wmma_refusal(pc, *shape, live),
        LoweredInstr::WmmaStore { shape, .. } => wmma_refusal(pc, *shape, live),
        LoweredInstr::WmmaMma { shape, .. } => wmma_refusal(pc, *shape, live),
        LoweredInstr::Tcgen05Alloc { .. } => exited_lanes(pc, "tcgen05.alloc", live),
        LoweredInstr::Tcgen05Dealloc { .. } => exited_lanes(pc, "tcgen05.dealloc", live),
        LoweredInstr::Tcgen05RelinquishAllocPermit => exited_lanes(
            pc,
            "tcgen05.relinquish_alloc_permit",
            live,
        ),
        LoweredInstr::Tcgen05Ld { .. } => exited_lanes(pc, "tcgen05.ld", live),
        LoweredInstr::Tcgen05St { .. } => exited_lanes(pc, "tcgen05.st", live),
        LoweredInstr::Tcgen05Wait { .. } => exited_lanes(pc, "tcgen05.wait", live),
        _ => Some(
            EvalError::Unsupported {
                pc,
                what: Detail::WarpDispatch { kind: kind_name_at(instr.kind_index()) },
            },
        ),
    }
}

/// Checks every precondition that rejects a warp operation outright, from the
/// instruction and the number of live lanes alone.
fn check_warp_op_preconditions(
    pc: InstrId,
    instr: &LoweredInstr,
    live: u64,
) -> (r: Option<EvalError>)
    ensures
        r == warp_refusal(pc, *instr, live),
{
    match instr {
        LoweredInstr::BarWarpSync { .. } | LoweredInstr::ShflSync { .. } => None,
        LoweredInstr::ElectSync { .. } | LoweredInstr::ReduxSync { .. } => None,
        LoweredInstr::ReduxSyncBroadcastMax { .. } => None,
        LoweredInstr::Ldmatrix { dst, num, .. } => match exited_lanes(pc, "ldmatrix", live) {
            Some(e) => Some(e),
            None => if dst.len() as u64 != *num as u64 {
                Some(
                    EvalError::Unsupported {
                        pc,
                        what: Detail::LdmatrixRegisters { num: *num, found: dst.len() as u64 },
                    },
                )
            } else {
                None
            },
        },
        LoweredInstr::Stmatrix { src, num, .. } => match exited_lanes(pc, "stmatrix", live) {
            Some(e) => Some(e),
            None => if src.len() as u64 != *num as u64 {
                Some(unsupported(pc, "stmatrix with a wrong number of source registers"))
            } else {
                None
            },
        },
        LoweredInstr::Mma { shape, a_layout, b_layout, .. } => if *shape != (MmaShape {
            m: 16,
            n: 8,
            k: 16,
        }) {
            Some(
                EvalError::Unsupported {
                    pc,
                    what: Detail::UnsupportedShape { what: "mma", shape: *shape },
                },
            )
        } else if *a_layout != MmaLayout::Row || *b_layout != MmaLayout::Col {
            Some(unsupported(pc, "mma with non-row.col layouts"))
        } else {
            exited_lanes(pc, "mma.sync", live)
        },
        LoweredInstr::WmmaLoad { shape, .. } => wmma_refusal(pc, *shape, live),
        LoweredInstr::WmmaStore { shape, .. } => wmma_refusal(pc, *shape, live),
        LoweredInstr::WmmaMma { shape, .. } => wmma_refusal(pc, *shape, live),
        LoweredInstr::Tcgen05Alloc { .. } => exited_lanes(pc, "tcgen05.alloc", live),
        LoweredInstr::Tcgen05Dealloc { .. } => exited_lanes(pc, "tcgen05.dealloc", live),
        LoweredInstr::Tcgen05RelinquishAllocPermit => exited_lanes(
            pc,
            "tcgen05.relinquish_alloc_permit",
            live,
        ),
        LoweredInstr::Tcgen05Ld { .. } => exited_lanes(pc, "tcgen05.ld", live),
        LoweredInstr::Tcgen05St { .. } => exited_lanes(pc, "tcgen05.st", live),
        LoweredInstr::Tcgen05Wait { .. } => exited_lanes(pc, "tcgen05.wait", live),
        _ => Some(
            EvalError::Unsupported {
                pc,
                what: Detail::WarpDispatch { kind: instr.kind_name() },
            },
        ),
    }
}

/// Registers as operands.
pub open spec fn reg_operands(regs: Seq<RegId>) -> Seq<Operand> {
    regs.map_values(|r: RegId| Operand::Reg(r))
}

fn as_operands(regs: &Vec<RegId>) -> (r: Vec<Operand>)
    ensures
        r@ == reg_operands(regs@),
{
    let mut ops: Vec<Operand> = Vec::new();
    let mut i: usize = 0;
    while i < regs.len()
        invariant
            i <= regs@.len(),
            ops@ == reg_operands(regs@.take(i as int)),
        decreases regs@.len() - i,
    {
        ops.push(Operand::Reg(regs[i]));
        i = i + 1;
        assert(ops@ =~= reg_operands(regs@.take(i as int)));
    }
    assert(regs@.take(regs@.len() as int) =~= regs@);
    ops
}

/// The fragments of `mma.sync`.
pub open spec fn spec_narrow() -> (Fragment, Fragment, Fragment) {
    (Fragment::NarrowA, Fragment::NarrowB, Fragment::NarrowC)
}

/// The fragments of `wmma.mma`.
pub open spec fn spec_square() -> (Fragment, Fragment, Fragment) {
    (Fragment::SquareHalves, Fragment::SquareHalves, Fragment::SquareC)
}

/// The threads of the warp from `base` on whose lanes a mask names.
pub open spec fn masked(base: u32, mask: u32, n_threads: u32) -> Set<usize> {
    Set::new(
        |b: usize|
            base <= b < base + WARP_SIZE && b < n_threads && (mask >> ((b - base) as u32)) & 1
                != 0,
    )
}

/// The threads of the warpgroup from `base` on.
pub open spec fn whole_group(base: u32, n_threads: u32) -> Set<usize> {
    Set::new(|b: usize| base <= b < base + WARPGROUP_SIZE && b < n_threads)
}

pub open spec fn spec_next_pc(pc: InstrId) -> InstrId {
    if pc.0 == u32::MAX {
        pc
    } else {
        InstrId((pc.0 + 1) as u32)
    }
}

/// The instruction after one.
#[verifier::when_used_as_spec(spec_next_pc)]
pub fn next_pc(pc: InstrId) -> (r: InstrId)
    ensures
        r == spec_next_pc(pc),
{
    if pc.0 == u32::MAX {
        pc
    } else {
        InstrId(pc.0 + 1)
    }
}

/// Statuses with some threads woken.
pub open spec fn woken(after: Seq<Status>, before: Seq<Status>) -> bool {
    after.len() == before.len() && forall|i: int|
        0 <= i < after.len() ==> (#[trigger] after[i] == before[i] || after[i] == Status::Ready)
}

impl Machine {
    /// One more fired warp operation.
    pub open spec fn counting_warp_sync(self) -> Machine {
        Machine {
            stats: Stats { warp_syncs: counted(self.stats.warp_syncs), ..self.stats },
            ..self
        }
    }

    /// The data movement and compute of a warp operation.
    #[verifier::opaque]
    pub open spec fn warp_effect(
        self,
        t: ThreadId,
        pc: InstrId,
        mask: u32,
        instr: LoweredInstr,
        members: Seq<ThreadId>,
    ) -> Out<()> {
        match &instr {
            LoweredInstr::BarWarpSync { .. } => (self, Ok(())),
            LoweredInstr::ShflSync { mode, dst, dst_pred, src, offset_or_lane, clamp, .. } => {
                self.shfl_sync(
                    t,
                    pc,
                    mask,
                    members,
                    *mode,
                    *dst,
                    *dst_pred,
                    *src,
                    *offset_or_lane,
                    *clamp,
                )
            },
            LoweredInstr::ElectSync { dst, dst_pred, .. } => self.elect_sync(
                t,
                pc,
                members,
                *dst,
                *dst_pred,
                0,
            ),
            LoweredInstr::ReduxSync { op, ty, dst, src, .. } => self.redux_sync(
                t,
                pc,
                members,
                *op,
                *ty,
                *dst,
                *src,
            ),
            LoweredInstr::ReduxSyncBroadcastMax { dst, src, .. } => self.redux_max(
                t,
                pc,
                members,
                *dst,
                *src,
            ),
            LoweredInstr::Ldmatrix { dst, addr, addr_offset, trans, .. } => self.ldmatrix(
                t,
                pc,
                members,
                dst@,
                *addr,
                *addr_offset,
                *trans,
            ),
            LoweredInstr::Stmatrix { addr, addr_offset, src, trans, .. } => self.stmatrix(
                t,
                pc,
                members,
                *addr,
                *addr_offset,
                src@,
                *trans,
            ),
            _ => self.matrix_effect(t, pc, instr, members),
        }
    }

    /// The data movement and compute of a tensor operation of a warp.
    #[verifier::opaque]
    pub open spec fn matrix_effect(
        self,
        t: ThreadId,
        pc: InstrId,
        instr: LoweredInstr,
        members: Seq<ThreadId>,
    ) -> Out<()> {
        match &instr {
            LoweredInstr::Mma { dst, src_a, src_b, src_c, .. } => self.warp_product(
                t,
                pc,
                members,
                spec_narrow(),
                dst@,
                src_a@,
                src_b@,
                src_c@,
            ),
            LoweredInstr::WmmaLoad {
                operand,
                layout,
                dst,
                addr,
                addr_offset,
                stride,
                elem_type,
                space,
                ..
            } => self.wmma_load(
                t,
                pc,
                members,
                *operand,
                *layout,
                dst@,
                *addr,
                *addr_offset,
                *stride,
                *elem_type,
                *space,
            ),
            LoweredInstr::WmmaStore {
                layout,
                src,
                addr,
                addr_offset,
                stride,
                elem_type,
                space,
                ..
            } => self.wmma_store(
                t,
                pc,
                members,
                *layout,
                src@,
                *addr,
                *addr_offset,
                *stride,
                *elem_type,
                *space,
            ),
            LoweredInstr::WmmaMma { dst, src_a, src_b, src_c, .. } => self.warp_product(
                t,
                pc,
                members,
                spec_square(),
                dst@,
                src_a@,
                src_b@,
                reg_operands(src_c@),
            ),
            LoweredInstr::Tcgen05Alloc { dst_base, dst_offset, num_cols } => self.tcgen05_alloc(
                t,
                pc,
                *dst_base,
                *dst_offset,
                *num_cols,
            ),
            LoweredInstr::Tcgen05Dealloc { taddr, num_cols } => self.tcgen05_dealloc(
                t,
                pc,
                members,
                *taddr,
                *num_cols,
            ),
            LoweredInstr::Tcgen05RelinquishAllocPermit => (
                self.with_tensor(TensorState { relinquished: true, ..self.tensor }),
                Ok(()),
            ),
            LoweredInstr::Tcgen05Ld { dst, taddr_base, taddr_offset } => self.tcgen05_ld(
                t,
                pc,
                members,
                dst@,
                *taddr_base,
                *taddr_offset,
            ),
            LoweredInstr::Tcgen05St { taddr_base, taddr_offset, src } => self.tcgen05_st(
                t,
                pc,
                members,
                *taddr_base,
                *taddr_offset,
                src@,
            ),
            LoweredInstr::Tcgen05Wait { is_st } => (
                self.with_race(self.race.tcgen05_released(quadrant_of(t), *is_st)),
                Ok(()),
            ),
            _ => (
                self,
                Err(
                    EvalError::Unsupported {
                        pc,
                        what: Detail::WarpDispatch { kind: kind_name_at(instr.kind_index()) },
                    },
                ),
            ),
        }
    }

    /// A thread unblocked and moved past its instruction.
    pub open spec fn advanced(self, t: ThreadId) -> Machine {
        self.with_thread(
            t,
            ThreadModel {
                status: Status::Ready,
                pc: next_pc(self.thread(t).pc),
                ..self.thread(t)
            },
        )
    }

    /// The members of a group unblocked from the `k`-th on.
    pub open spec fn all_advanced(self, members: Seq<ThreadId>, k: int) -> Machine
        decreases members.len() - k,
    {
        if k >= members.len() {
            self
        } else {
            self.advanced(members[k]).all_advanced(members, k + 1)
        }
    }

    pub open spec fn synced(self, group: Set<usize>) -> Machine {
        self.with_race(self.race.synced_group(group))
    }

    /// A complete warp group executes its operation: it is refused before
    /// anything changes, or else bracketed by synchronizations of every lane
    /// in the mask, exited ones included. Only live members execute and
    /// advance.
    pub open spec fn warp_op(self, pc: InstrId, mask: u32, members: Seq<ThreadId>) -> Out<()> {
        let t = members[0];
        let group = masked((t.0 / WARP_SIZE * WARP_SIZE) as u32, mask, self.env.n_threads);
        if pc.0 >= self.env.program.instructions@.len() {
            (self, Err(unsupported(pc, "warp group blocked past the end of the program")))
        } else {
            let instr = self.env.program.instructions@[pc.0 as int];
            match warp_refusal(pc, instr, members.len() as u64) {
                Some(e) => (self, Err(e)),
                None => match self.counting_warp_sync().synced(group).warp_effect(
                    t,
                    pc,
                    mask,
                    instr,
                    members,
                ) {
                    (m, Err(e)) => (m, Err(e)),
                    (m, Ok(_)) => (m.synced(group).all_advanced(members, 0), Ok(())),
                },
            }
        }
    }

    /// The data movement and compute of a warpgroup operation.
    #[verifier::opaque]
    pub open spec fn group_effect(
        self,
        t: ThreadId,
        pc: InstrId,
        instr: LoweredInstr,
        members: Seq<ThreadId>,
    ) -> Out<()> {
        match &instr {
            LoweredInstr::WgmmaMmaAsync {
                shape,
                dst,
                a_desc,
                b_desc,
                scale_d,
                a_type,
                b_type,
                transpose_a,
                transpose_b,
            } => self.wgmma_mma(
                t,
                pc,
                members,
                *shape,
                dst@,
                (*a_desc, *b_desc),
                *scale_d,
                (*a_type, *b_type),
                (*transpose_a, *transpose_b),
            ),
            _ => (
                self,
                Err(
                    EvalError::Unsupported {
                        pc,
                        what: Detail::WarpDispatch { kind: kind_name_at(instr.kind_index()) },
                    },
                ),
            ),
        }
    }

    /// A complete warpgroup executes its operation, bracketed by
    /// synchronizations of the whole group.
    pub open spec fn warpgroup_op(self, pc: InstrId, members: Seq<ThreadId>) -> Out<()> {
        let t = members[0];
        let group = whole_group(
            (t.0 / WARPGROUP_SIZE * WARPGROUP_SIZE) as u32,
            self.env.n_threads,
        );
        if pc.0 >= self.env.program.instructions@.len() {
            (self, Err(unsupported(pc, "warp group blocked past the end of the program")))
        } else {
            match self.counting_warp_sync().synced(group).group_effect(
                t,
                pc,
                self.env.program.instructions@[pc.0 as int],
                members,
            ) {
                (m, Err(e)) => (m, Err(e)),
                (m, Ok(_)) => (m.synced(group).all_advanced(members, 0), Ok(())),
            }
        }
    }
}

impl<'p> Interpreter<'p> {
    fn matrix_effect(
        &mut self,
        t: ThreadId,
        pc: InstrId,
        instr: &LoweredInstr,
        members: &Vec<ThreadId>,
    ) -> (r: EvalResult<()>)
        requires
            old(self).wf(),
            old(self).has(t),
            old(self).has_all(members@),
        ensures
            final(self).wf(),
            final(self).setup == old(self).setup,
            final(self)@.pace() == old(self)@.pace(),
            (final(self)@, r) == old(self)@.matrix_effect(t, pc, *instr, members@),
    {
        reveal(Machine::matrix_effect);
        match instr {
            LoweredInstr::Mma { dst, src_a, src_b, src_c, .. } => self.warp_product(
                t,
                pc,
                members,
                (Fragment::NarrowA, Fragment::NarrowB, Fragment::NarrowC),
                dst,
                src_a,
                src_b,
                src_c,
            ),
            LoweredInstr::WmmaLoad {
                operand,
                layout,
                dst,
                addr,
                addr_offset,
                stride,
                elem_type,
                space,
                ..
            } => self.wmma_load(
                t,
                pc,
                members,
                *operand,
                *layout,
                dst,
                addr,
                *addr_offset,
                stride,
                *elem_type,
                *space,
            ),
            LoweredInstr::WmmaStore {
                layout,
                src,
                addr,
                addr_offset,
                stride,
                elem_type,
                space,
                ..
            } => self.wmma_store(
                t,
                pc,
                members,
                *layout,
                src,
                addr,
                *addr_offset,
                stride,
                *elem_type,
                *space,
            ),
            LoweredInstr::WmmaMma { dst, src_a, src_b, src_c, .. } => {
                let ops = as_operands(src_c);
                self.warp_product(
                    t,
                    pc,
                    members,
                    (Fragment::SquareHalves, Fragment::SquareHalves, Fragment::SquareC),
                    dst,
                    src_a,
                    src_b,
                    &ops,
                )
            },
            LoweredInstr::Tcgen05Alloc { dst_base, dst_offset, num_cols } => self.tcgen05_alloc(
                t,
                pc,
                dst_base,
                *dst_offset,
                *num_cols,
            ),
            LoweredInstr::Tcgen05Dealloc { taddr, num_cols } => self.tcgen05_dealloc(
                t,
                pc,
                members,
                taddr,
                *num_cols,
            ),
            LoweredInstr::Tcgen05RelinquishAllocPermit => {
                self.tensor.relinquish_alloc_permit();
                Ok(())
            },
            LoweredInstr::Tcgen05Ld { dst, taddr_base, taddr_offset } => self.tcgen05_ld(
                t,
                pc,
                members,
                dst,
                taddr_base,
                *taddr_offset,
            ),
            LoweredInstr::Tcgen05St { taddr_base, taddr_offset, src } => self.tcgen05_st(
                t,
                pc,
                members,
                taddr_base,
                *taddr_offset,
                src,
            ),
            LoweredInstr::Tcgen05Wait { is_st } => {
                self.race.tcgen05_wait(quadrant_of(t), *is_st);
                Ok(())
            },
            _ => Err(
                EvalError::Unsupported {
                    pc,
                    what: Detail::WarpDispatch { kind: instr.kind_name() },
                },
            ),
        }
    }

    fn warp_effect(
        &mut self,
        t: ThreadId,
        pc: InstrId,
        mask: u32,
        instr: &LoweredInstr,
        members: &Vec<ThreadId>,
    ) -> (r: EvalResult<()>)
        requires
            old(self).wf(),
            old(self).has(t),
            old(self).has_all(members@),
        ensures
            final(self).wf(),
            final(self).setup == old(self).setup,
            final(self)@.pace() == old(self)@.pace(),
            (final(self)@, r) == old(self)@.warp_effect(t, pc, mask, *instr, members@),
    {
        reveal(Machine::warp_effect);
        match instr {
            LoweredInstr::BarWarpSync { .. } => Ok(()),
            LoweredInstr::ShflSync { mode, dst, dst_pred, src, offset_or_lane, clamp, .. } => {
                self.shfl_sync(
                    t,
                    pc,
                    mask,
                    members,
                    *mode,
                    *dst,
                    *dst_pred,
                    src,
                    offset_or_lane,
                    clamp,
                )
            },
            LoweredInstr::ElectSync { dst, dst_pred, .. } => self.elect_sync(
                t,
                pc,
                members,
                *dst,
                *dst_pred,
            ),
            LoweredInstr::ReduxSync { op, ty, dst, src, .. } => self.redux_sync(
                t,
                pc,
                members,
                *op,
                *ty,
                *dst,
                src,
            ),
            LoweredInstr::ReduxSyncBroadcastMax { dst, src, .. } => self.redux_max(
                t,
                pc,
                members,
                *dst,
                src,
            ),
            LoweredInstr::Ldmatrix { dst, addr, addr_offset, trans, .. } => self.ldmatrix(
                t,
                pc,
                members,
                dst,
                addr,
                *addr_offset,
                *trans,
            ),
            LoweredInstr::Stmatrix { addr, addr_offset, src, trans, .. } => self.stmatrix(
                t,
                pc,
                members,
                addr,
                *addr_offset,
                src,
                *trans,
            ),
            _ => self.matrix_effect(t, pc, instr, members),
        }
    }

    /// Applies the synchronization of a fired warp group.
    fn sync_warp_group(&mut self, base: u32, mask: u32)
        requires
            old(self).wf(),
        ensures
            final(self).wf(),
            final(self).setup == old(self).setup,
            final(self)@.pace() == old(self)@.pace(),
            final(self)@ == old(self)@.synced(masked(base, mask, old(self).setup.n_threads)),
    {
        let n: u32 = self.setup.n_threads;
        let mut group = FixedBitSet::with_capacity(n as usize);
        let mut lane: u32 = 0;
        while lane < WARP_SIZE
            invariant
                lane <= WARP_SIZE,
                bitset_len(group) == n,
                forall|b: usize|
                    bitset_blocks(group).contains(b) <==> base <= b < base + lane && b < n && (
                    mask >> ((b - base) as u32)) & 1 != 0,
            decreases WARP_SIZE - lane,
        {
            if (mask >> lane) & 1 != 0 && n > base && lane < n - base {
                group.insert((base + lane) as usize);
            }
            lane = lane + 1;
        }
        assert(bits(group) =~= masked(base, mask, n));
        self.race.sync_group(&group);
    }

    fn sync_whole_group(&mut self, base: u32)
        requires
            old(self).wf(),
            base + WARPGROUP_SIZE <= u32::MAX,
        ensures
            final(self).wf(),
            final(self).setup == old(self).setup,
            final(self)@.pace() == old(self)@.pace(),
            final(self)@ == old(self)@.synced(whole_group(base, old(self).setup.n_threads)),
    {
        let n: u32 = self.setup.n_threads;
        let mut group = FixedBitSet::with_capacity(n as usize);
        let mut lane: u32 = 0;
        while lane < WARPGROUP_SIZE
            invariant
                lane <= WARPGROUP_SIZE,
                base + WARPGROUP_SIZE <= u32::MAX,
                bitset_len(group) == n,
                forall|b: usize|
                    bitset_blocks(group).contains(b) <==> base <= b < base + lane && b < n,
            decreases WARPGROUP_SIZE - lane,
        {
            if base + lane < n {
                group.insert((base + lane) as usize);
            }
            lane = lane + 1;
        }
        assert(bits(group) =~= whole_group(base, n));
        self.race.sync_group(&group);
    }

    /// Unblocks a thread and advances its program counter.
    pub(crate) fn advance(&mut self, t: ThreadId)
        requires
            old(self).wf(),
            old(self).has(t),
        ensures
            final(self).wf(),
            final(self).setup == old(self).setup,
            final(self)@ == old(self)@.advanced(t),
            final(self)@.stats == old(self)@.stats,
            woken(final(self)@.pace().1, old(self)@.pace().1),
            final(self)@.pace().1[t.0 as int] == Status::Ready,
    {
        let i: usize = t.0 as usize;
        let th = thread_at_mut(&mut self.threads, i);
        th.status = Status::Ready;
        th.pc = next_pc(th.pc);
        assert(self@.threads =~= old(self)@.advanced(t).threads);
    }

    /// Unblocks the members of a fired group and advances their program
    /// counters.
    fn advance_warp_group(&mut self, members: &Vec<ThreadId>)
        requires
            old(self).wf(),
            old(self).has_all(members@),
        ensures
            final(self).wf(),
            final(self).setup == old(self).setup,
            final(self)@ == old(self)@.all_advanced(members@, 0),
            final(self)@.stats == old(self)@.stats,
            woken(final(self)@.pace().1, old(self)@.pace().1),
            members@.len() > 0 ==> final(self)@.pace().1[members@[0].0 as int] == Status::Ready,
    {
        let mut k: usize = 0;
        while k < members.len()
            invariant
                self.wf(),
                self.setup == old(self).setup,
                old(self).has_all(members@),
                k <= members@.len(),
                old(self)@.all_advanced(members@, 0) == self@.all_advanced(members@, k as int),
                self@.stats == old(self)@.stats,
                woken(self@.pace().1, old(self)@.pace().1),
                k > 0 ==> self@.pace().1[members@[0].0 as int] == Status::Ready,
            decreases members@.len() - k,
        {
            self.advance(members[k]);
            k = k + 1;
        }
    }

    /// Executes a complete warp group blocked at `pc`. `members` holds the
    /// live lanes; exited lanes of the mask arrive implicitly.
    pub(crate) fn execute_warp_op(&mut self, pc: InstrId, mask: u32, members: &Vec<ThreadId>) -> (r:
        EvalResult<()>)
        requires
            old(self).wf(),
            members@.len() > 0,
            members@.len() <= WARP_SIZE,
            old(self).has_all(members@),
        ensures
            final(self).wf(),
            final(self).setup == old(self).setup,
            (final(self)@, r) == old(self)@.warp_op(pc, mask, members@),
            r is Ok ==> final(self)@.stats.instructions == old(self)@.stats.instructions,
            r is Ok ==> woken(final(self)@.pace().1, old(self)@.pace().1),
            r is Ok ==> final(self)@.pace().1[members@[0].0 as int] == Status::Ready,
    {
        let program = self.setup.program;
        let t = members[0];
        let instr = match program.instruction(pc) {
            None => {
                return Err(unsupported(pc, "warp group blocked past the end of the program"));
            },
            Some(i) => i,
        };
        if let Some(e) = check_warp_op_preconditions(pc, instr, members.len() as u64) {
            return Err(e);
        }
        let base: u32 = t.0 / WARP_SIZE * WARP_SIZE;
        self.stats.warp_syncs = counted(self.stats.warp_syncs);
        self.sync_warp_group(base, mask);
        match self.warp_effect(t, pc, mask, instr, members) {
            Err(e) => Err(e),
            Ok(_) => {
                self.sync_warp_group(base, mask);
                self.advance_warp_group(members);
                Ok(())
            },
        }
    }

    fn group_effect(
        &mut self,
        t: ThreadId,
        pc: InstrId,
        instr: &LoweredInstr,
        members: &Vec<ThreadId>,
    ) -> (r: EvalResult<()>)
        requires
            old(self).wf(),
            old(self).has(t),
            old(self).has_all(members@),
        ensures
            final(self).wf(),
            final(self).setup == old(self).setup,
            final(self)@.pace() == old(self)@.pace(),
            (final(self)@, r) == old(self)@.group_effect(t, pc, *instr, members@),
    {
        reveal(Machine::group_effect);
        match instr {
            LoweredInstr::WgmmaMmaAsync {
                shape,
                dst,
                a_desc,
                b_desc,
                scale_d,
                a_type,
                b_type,
                transpose_a,
                transpose_b,
            } => self.exec_wgmma_mma_async(
                t,
                pc,
                members,
                *shape,
                dst,
                (*a_desc, *b_desc),
                scale_d,
                (*a_type, *b_type),
                (*transpose_a, *transpose_b),
            ),
            _ => Err(
                EvalError::Unsupported {
                    pc,
                    what: Detail::WarpDispatch { kind: instr.kind_name() },
                },
            ),
        }
    }

    /// Executes a complete warpgroup blocked at `pc`. `members` holds the
    /// live threads; exited ones arrive implicitly.
    pub(crate) fn execute_warpgroup_op(&mut self, pc: InstrId, members: &Vec<ThreadId>) -> (r:
        EvalResult<()>)
        requires
            old(self).wf(),
            members@.len() > 0,
            old(self).has_all(members@),
            members@[0].0 / WARPGROUP_SIZE * WARPGROUP_SIZE + WARPGROUP_SIZE
                <= old(self).setup.n_threads,
        ensures
            final(self).wf(),
            final(self).setup == old(self).setup,
            (final(self)@, r) == old(self)@.warpgroup_op(pc, members@),
            r is Ok ==> final(self)@.stats.instructions == old(self)@.stats.instructions,
            r is Ok ==> woken(final(self)@.pace().1, old(self)@.pace().1),
            r is Ok ==> final(self)@.pace().1[members@[0].0 as int] == Status::Ready,
    {
        let program = self.setup.program;
        let t = members[0];
        let instr = match program.instruction(pc) {
            None => {
                return Err(unsupported(pc, "warp group blocked past the end of the program"));
            },
            Some(i) => i,
        };
        let base: u32 = t.0 / WARPGROUP_SIZE * WARPGROUP_SIZE;
        self.stats.warp_syncs = counted(self.stats.warp_syncs);
        self.sync_whole_group(base);
        match self.group_effect(t, pc, instr, members) {
            Err(e) => Err(e),
            Ok(_) => {
                self.sync_whole_group(base);
                self.advance_warp_group(members);
                Ok(())
            },
        }
    }
}

// ---------------------------------------------------------------------------
// Laws
// ---------------------------------------------------------------------------

/// A warp operation that its preconditions reject changes nothing.
pub proof fn a_refused_operation_changes_nothing(
    m: Machine,
    pc: InstrId,
    mask: u32,
    members: Seq<ThreadId>,
)
    requires
        pc.0 < m.env.program.instructions@.len(),
        warp_refusal(
            pc,
            m.env.program.instructions@[pc.0 as int],
            members.len() as u64,
        ) is Some,
    ensures
        m.warp_op(pc, mask, members).0 == m,
        m.warp_op(pc, mask, members).1 is Err,
{
}

/// Tensor-core operations need every lane of their warp live.
pub proof fn tensor_operations_need_a_live_warp(
    m: Machine,
    pc: InstrId,
    mask: u32,
    members: Seq<ThreadId>,
)
    requires
        pc.0 < m.env.program.instructions@.len(),
        members.len() < WARP_SIZE,
        !(m.env.program.instructions@[pc.0 as int] is BarWarpSync),
        !(m.env.program.instructions@[pc.0 as int] is ShflSync),
        !(m.env.program.instructions@[pc.0 as int] is ElectSync),
        !(m.env.program.instructions@[pc.0 as int] is ReduxSync),
        !(m.env.program.instructions@[pc.0 as int] is ReduxSyncBroadcastMax),
    ensures
        m.warp_op(pc, mask, members).0 == m,
        m.warp_op(pc, mask, members).1 is Err,
{
}

} // verus!
