//! Single-instruction execution of one thread.

use vstd::prelude::*;

use crate::eval::ThreadId;
use crate::eval::arith::unsupported;
use crate::eval::error::{EvalError, EvalResult};
use crate::eval::interp::Interpreter;
use crate::eval::lists::{thread_at, thread_at_mut};
use crate::eval::machine::{Machine, Out, Stats, Status, ThreadModel};
use crate::eval::wgmma_regs::WgmmaModel;
use crate::lowered::{InstrId, LoweredInstr, LoweredProgram};

verus! {

/// Where a thread goes after an instruction.
#[derive(Debug, Clone, Copy, PartialEq, Eq, Structural)]
pub enum Flow {
    /// To the next instruction.
    Next,
    /// To a branch target.
    Jump(InstrId),
    /// Nowhere: it blocked or exited.
    Stay,
}

/// An instruction's effect and where the thread goes after it.
pub open spec fn flow(o: Out<()>, f: Flow) -> Out<Flow> {
    match o {
        (m, Err(e)) => (m, Err(e)),
        (m, Ok(_)) => (m, Ok(f)),
    }
}

fn proceed(r: EvalResult<()>, f: Flow) -> (o: EvalResult<Flow>)
    ensures
        o == (match r {
            Err(e) => Err::<Flow, EvalError>(e),
            Ok(_) => Ok(f),
        }),
{
    match r {
        Err(e) => Err(e),
        Ok(_) => Ok(f),
    }
}

pub open spec fn spec_counted(n: u64) -> u64 {
    if n == u64::MAX {
        u64::MAX
    } else {
        (n + 1) as u64
    }
}

/// A counter, one further.
#[verifier::when_used_as_spec(spec_counted)]
pub fn counted(n: u64) -> (r: u64)
    ensures
        r == spec_counted(n),
{
    n.saturating_add(1)
}

impl Machine {
    pub open spec fn with_wgmma(self, t: ThreadId, wgmma: WgmmaModel) -> Machine {
        self.with_thread(t, ThreadModel { wgmma, ..self.thread(t) })
    }

    /// Arithmetic. None for any other
    /// instruction.
    #[verifier::opaque]
    pub open spec fn arithmetic(
        self,
        t: ThreadId,
        pc: InstrId,
        instr: LoweredInstr,
    ) -> Option<Out<Flow>> {
        match &instr {
            LoweredInstr::BinOp { op, dst, src_a, src_b, ty, clamp } => Some(
                flow(self.binop(t, pc, *op, *dst, *src_a, *src_b, *ty, *clamp), Flow::Next),
            ),
            LoweredInstr::UnaryOp { op, dst, src, ty } => Some(
                flow(self.unary(t, pc, *op, *dst, *src, *ty), Flow::Next),
            ),
            LoweredInstr::Copysign { dst, sign_src, magnitude_src, .. } => Some(
                flow(self.copysign(t, pc, *dst, *sign_src, *magnitude_src), Flow::Next),
            ),
            LoweredInstr::Fma { dst, src_a, src_b, src_c, ty, clamp } => Some(
                flow(self.fused(t, pc, *dst, *src_a, *src_b, *src_c, *ty, *clamp), Flow::Next),
            ),
            LoweredInstr::Mad { dst, src_a, src_b, src_c, ty, mode } => Some(
                flow(self.mad(t, pc, *dst, *src_a, *src_b, *src_c, *ty, *mode), Flow::Next),
            ),
            LoweredInstr::MulWide { dst, src_a, src_b, src_ty } => Some(
                flow(self.wide_product(t, pc, *dst, *src_a, *src_b, *src_ty), Flow::Next),
            ),
            LoweredInstr::MulHi { dst, src_a, src_b, ty } => Some(
                flow(self.high_product(t, pc, *dst, *src_a, *src_b, *ty), Flow::Next),
            ),
            _ => None,
        }
    }

    /// Moves, bit operations and comparisons. None for any other
    /// instruction.
    #[verifier::opaque]
    pub open spec fn bitwise(
        self,
        t: ThreadId,
        pc: InstrId,
        instr: LoweredInstr,
    ) -> Option<Out<Flow>> {
        match &instr {
            LoweredInstr::Mov { dst, src, ty } => Some(
                flow(self.mov(t, pc, *dst, *src, *ty), Flow::Next),
            ),
            LoweredInstr::Cvta { dst, src, .. } => Some(
                flow(self.cvta(t, pc, *dst, *src), Flow::Next),
            ),
            LoweredInstr::Prmt { dst, src_a, src_b, selector } => Some(
                flow(self.prmt(t, pc, *dst, *src_a, *src_b, *selector), Flow::Next),
            ),
            LoweredInstr::Lop3 { dst, src_a, src_b, src_c, lut } => Some(
                flow(self.lop3(t, pc, *dst, *src_a, *src_b, *src_c, *lut), Flow::Next),
            ),
            LoweredInstr::Bfi { dst, src_a, src_b, start, len, .. } => Some(
                flow(self.bfi(t, pc, *dst, *src_a, *src_b, *start, *len), Flow::Next),
            ),
            LoweredInstr::Bfe { dst, src_a, start, len, ty } => Some(
                flow(self.bfe(t, pc, *dst, *src_a, *start, *len, *ty), Flow::Next),
            ),
            LoweredInstr::Shf { dst, lo, hi, shift, dir, mode } => Some(
                flow(self.shf(t, pc, *dst, *lo, *hi, *shift, *dir, *mode), Flow::Next),
            ),
            LoweredInstr::Setp { cmp, dst, src_a, src_b, ty } => Some(
                flow(self.setp(t, pc, *cmp, *dst, *src_a, *src_b, *ty), Flow::Next),
            ),
            LoweredInstr::Selp { dst, src_a, src_b, pred, ty } => Some(
                flow(self.selp(t, pc, *dst, *src_a, *src_b, *pred, *ty), Flow::Next),
            ),
            LoweredInstr::SetVal { .. } => Some(
                (self, Err(unsupported(pc, "set (value-producing comparison)"))),
            ),
            _ => None,
        }
    }

    /// Conversions, packing, loads, stores and asynchronous copies. None for any other
    /// instruction.
    #[verifier::opaque]
    pub open spec fn movement(
        self,
        t: ThreadId,
        pc: InstrId,
        instr: LoweredInstr,
    ) -> Option<Out<Flow>> {
        match &instr {
            LoweredInstr::LoadParam { dst, param_id } => Some(
                flow(self.load_param(t, pc, *dst, *param_id), Flow::Next),
            ),
            LoweredInstr::Load { dst, space, base, offset, ty } => Some(
                flow(self.load(t, pc, *dst, *space, *base, *offset, *ty), Flow::Next),
            ),
            LoweredInstr::LoadVec { dst, space, base, offset, ty } => Some(
                flow(self.load_vec(t, pc, dst@, *space, *base, *offset, *ty), Flow::Next),
            ),
            LoweredInstr::Store { space, base, offset, src, ty } => Some(
                flow(self.store(t, pc, *space, *base, *offset, *src, *ty), Flow::Next),
            ),
            LoweredInstr::StoreVec { space, base, offset, src, ty } => Some(
                flow(self.store_vec(t, pc, *space, *base, *offset, src@, *ty), Flow::Next),
            ),
            LoweredInstr::CpAsync {
                dst_base,
                dst_offset,
                src_base,
                src_offset,
                cp_size,
                src_size,
            } => Some(
                flow(
                    self.cp_async(
                        t,
                        pc,
                        *dst_base,
                        *dst_offset,
                        *src_base,
                        *src_offset,
                        *cp_size,
                        *src_size,
                    ),
                    Flow::Next,
                ),
            ),
            LoweredInstr::Cvt { dst, src, dst_ty, src_ty, clamp } => Some(
                flow(self.cvt(t, pc, *dst, *src, *dst_ty, *src_ty, *clamp), Flow::Next),
            ),
            LoweredInstr::CvtE4m3x2ToF16x2 { dst, src, relu } => Some(
                flow(self.cvt_bytes(t, pc, *dst, *src, *relu), Flow::Next),
            ),
            LoweredInstr::CvtPackHalves { dst, src_hi, src_lo, dst_half_ty, src_ty } => Some(
                flow(
                    self.cvt_pack(t, pc, *dst, *src_hi, *src_lo, *dst_half_ty, *src_ty),
                    Flow::Next,
                ),
            ),
            LoweredInstr::UnpackHalves { lo, hi, src, ty } => Some(
                flow(self.unpack_halves(t, pc, *lo, *hi, *src, *ty), Flow::Next),
            ),
            LoweredInstr::PackHalves { dst, lo, hi } => Some(
                flow(self.pack_halves(t, pc, *dst, *lo, *hi), Flow::Next),
            ),
            LoweredInstr::PackQuad { dst, elems } => Some(
                flow(self.pack_quad(t, pc, *dst, elems@), Flow::Next),
            ),
            LoweredInstr::UnpackQuad { elems, src } => Some(
                flow(self.unpack_quad(t, pc, elems@, *src), Flow::Next),
            ),
            LoweredInstr::CpAsyncCommitGroup => Some((self.with_commit(t), Ok(Flow::Next))),
            LoweredInstr::CpAsyncWaitGroup { n } => Some(
                flow(self.cp_async_wait(t, pc, *n), Flow::Next),
            ),
            LoweredInstr::Activemask { dst } => Some(
                flow(self.activemask(t, pc, *dst), Flow::Next),
            ),
            _ => None,
        }
    }

    /// Barrier objects, tensor copies and matrix operations. None for any other
    /// instruction.
    #[verifier::opaque]
    pub open spec fn asynchronous(
        self,
        t: ThreadId,
        pc: InstrId,
        instr: LoweredInstr,
    ) -> Option<Out<Flow>> {
        match &instr {
            LoweredInstr::FenceProxyAsync { restrict } => Some(
                (self.with_race(self.race.fence(t, *restrict)), Ok(Flow::Next)),
            ),
            LoweredInstr::WgmmaFence => Some(
                (self.with_wgmma(t, self.thread(t).wgmma.fenced()), Ok(Flow::Next)),
            ),
            LoweredInstr::WgmmaCommitGroup => Some(
                (self.with_wgmma(t, self.thread(t).wgmma.committed()), Ok(Flow::Next)),
            ),
            LoweredInstr::WgmmaWaitGroup { n } => Some(
                (self.with_wgmma(t, self.thread(t).wgmma.waited(*n)), Ok(Flow::Next)),
            ),
            LoweredInstr::Tcgen05Mma {
                kind,
                d_tmem_base,
                d_tmem_offset,
                a_desc,
                b_desc,
                idesc,
                disable_output_lane,
                enable_input_d,
            } => Some(
                flow(
                    self.tcgen05_mma(
                        t,
                        pc,
                        *kind,
                        *d_tmem_base,
                        *d_tmem_offset,
                        *a_desc,
                        *b_desc,
                        *idesc,
                        disable_output_lane@,
                        *enable_input_d,
                    ),
                    Flow::Next,
                ),
            ),
            LoweredInstr::Tcgen05Commit { addr_base, addr_offset } => Some(
                flow(self.tcgen05_commit(t, pc, *addr_base, *addr_offset), Flow::Next),
            ),
            LoweredInstr::TensormapReplace { space, addr_base, addr_offset, field } => Some(
                flow(
                    self.tensormap_replace(t, pc, *space, *addr_base, *addr_offset, *field),
                    Flow::Next,
                ),
            ),
            LoweredInstr::TensormapCpFenceproxy { dst_base, dst_offset, src_base, src_offset } => Some(
                flow(
                    self.tensormap_copy(t, pc, *dst_base, *dst_offset, *src_base, *src_offset),
                    Flow::Next,
                ),
            ),
            LoweredInstr::CpAsyncBulkTensorLoad {
                dst_base,
                dst_offset,
                tensormap_space,
                tensormap_base,
                tensormap_offset,
                coords,
                mbar_base,
                mbar_offset,
            } => Some(
                flow(
                    self.bulk_tensor_load(
                        t,
                        pc,
                        *dst_base,
                        *dst_offset,
                        *tensormap_space,
                        *tensormap_base,
                        *tensormap_offset,
                        coords@,
                        *mbar_base,
                        *mbar_offset,
                    ),
                    Flow::Next,
                ),
            ),
            LoweredInstr::MbarrierInit { addr_base, addr_offset, count } => Some(
                flow(self.mbarrier_init(t, pc, *addr_base, *addr_offset, *count), Flow::Next),
            ),
            LoweredInstr::MbarrierInval { addr_base, addr_offset } => Some(
                flow(self.mbarrier_inval(t, pc, *addr_base, *addr_offset), Flow::Next),
            ),
            LoweredInstr::MbarrierArrive { state, addr_base, addr_offset, count, expect_tx } => Some(
                flow(
                    self.mbarrier_arrive(
                        t,
                        pc,
                        *state,
                        *addr_base,
                        *addr_offset,
                        *count,
                        *expect_tx,
                    ),
                    Flow::Next,
                ),
            ),
            LoweredInstr::MbarrierCompleteTx { addr_base, addr_offset, tx_count } => Some(
                flow(
                    self.mbarrier_complete_tx(t, pc, *addr_base, *addr_offset, *tx_count),
                    Flow::Next,
                ),
            ),
            LoweredInstr::MbarrierWaitParity { addr_base, addr_offset, phase_parity, .. } => Some(
                flow(
                    self.mbarrier_wait(t, pc, *addr_base, *addr_offset, *phase_parity),
                    Flow::Stay,
                ),
            ),
            _ => None,
        }
    }

    /// Control flow and cooperative instructions.
    #[verifier::opaque]
    pub open spec fn control(self, t: ThreadId, pc: InstrId, instr: LoweredInstr) -> Out<Flow> {
        match &instr {
            LoweredInstr::Bra { target } => (self, Ok(Flow::Jump(*target))),
            LoweredInstr::Ret | LoweredInstr::Exit => flow(self.exit(t, pc), Flow::Stay),
            LoweredInstr::BarSync { barrier_id } => flow(
                self.bar_sync(t, pc, *barrier_id),
                Flow::Stay,
            ),
            LoweredInstr::BarWarpSync { mask } => flow(
                self.block_with_mask(t, pc, *mask, "warp sync mask"),
                Flow::Stay,
            ),
            LoweredInstr::Shfl { .. } => (
                self,
                Err(unsupported(pc, "shfl without .sync (deprecated warp-unsynchronized shuffle)")),
            ),
            LoweredInstr::ShflSync { membermask, .. } => flow(
                self.block_with_mask(t, pc, *membermask, "shfl.sync membermask"),
                Flow::Stay,
            ),
            LoweredInstr::ElectSync { membermask, .. } => flow(
                self.block_with_mask(t, pc, *membermask, "elect.sync membermask"),
                Flow::Stay,
            ),
            LoweredInstr::ReduxSync { membermask, .. } => flow(
                self.block_with_mask(t, pc, *membermask, "redux.sync membermask"),
                Flow::Stay,
            ),
            LoweredInstr::ReduxSyncBroadcastMax { membermask, .. } => flow(
                self.block_with_mask(t, pc, *membermask, "redux.sync membermask"),
                Flow::Stay,
            ),
            LoweredInstr::Ldmatrix { .. }
            | LoweredInstr::Mma { .. }
            | LoweredInstr::WmmaLoad { .. }
            | LoweredInstr::WmmaStore { .. }
            | LoweredInstr::WmmaMma { .. }
            | LoweredInstr::Stmatrix { .. }
            | LoweredInstr::Tcgen05Alloc { .. }
            | LoweredInstr::Tcgen05Dealloc { .. }
            | LoweredInstr::Tcgen05RelinquishAllocPermit
            | LoweredInstr::Tcgen05Ld { .. }
            | LoweredInstr::Tcgen05St { .. }
            | LoweredInstr::Tcgen05Wait { .. } => flow(
                self.block_at_warp_op(t, pc, u32::MAX),
                Flow::Stay,
            ),
            LoweredInstr::WgmmaMmaAsync { .. } => (
                self.with_status(t, Status::AtWarpgroupOp),
                Ok(Flow::Stay),
            ),
            LoweredInstr::Trap => (self, Err(EvalError::TrapReached { thread: t, pc })),
            // Fences without a data effect and no-ops.
            _ => (self, Ok(Flow::Next)),
        }
    }

    /// The effect of one instruction.
    pub open spec fn execute(self, t: ThreadId, pc: InstrId, instr: LoweredInstr) -> Out<Flow> {
        match self.arithmetic(t, pc, instr) {
            Some(o) => o,
            None => match self.bitwise(t, pc, instr) {
                Some(o) => o,
                None => match self.movement(t, pc, instr) {
                    Some(o) => o,
                    None => match self.asynchronous(t, pc, instr) {
                        Some(o) => o,
                        None => self.control(t, pc, instr),
                    },
                },
            },
        }
    }

    /// One more executed instruction of a kind.
    pub open spec fn counting(self, kind: usize) -> Machine {
        Machine {
            stats: Stats { instructions: counted(self.stats.instructions), ..self.stats },
            op_counts: self.op_counts.update(
                kind as int,
                counted(self.op_counts[kind as int]),
            ),
            ..self
        }
    }

    /// Whether the guard of an instruction, if it has one, lets it execute.
    pub open spec fn guard(self, t: ThreadId, pc: InstrId) -> Result<bool, EvalError> {
        match self.env.program.spec_predicate(pc) {
            None => Ok(true),
            Some(p) => match self.read_reg(t, pc, p.reg) {
                Err(e) => Err(e),
                Ok(v) => match self.concrete_bool(t, pc, v, "guard predicate") {
                    Err(e) => Err(e),
                    Ok(b) => Ok(b != p.negated),
                },
            },
        }
    }

    /// The thread moved past an instruction.
    pub open spec fn moved(self, t: ThreadId, pc: InstrId, f: Flow) -> Machine {
        match f {
            Flow::Next => self.with_pc(t, InstrId((pc.0 + 1) as u32)),
            Flow::Jump(target) => self.with_pc(t, target),
            Flow::Stay => self,
        }
    }

    /// One step of a thread: the instruction at its program counter is
    /// counted, then executed unless its guard is false.
    #[verifier::opaque]
    pub open spec fn step(self, t: ThreadId) -> Out<()> {
        let pc = self.thread(t).pc;
        if pc.0 >= self.env.program.instructions@.len() {
            (self, Err(unsupported(pc, "execution fell off the end of the program")))
        } else {
            let instr = self.env.program.instructions@[pc.0 as int];
            let m = self.counting(instr.spec_kind_index());
            if self.stats.instructions >= m.env.config.max_instructions {
                (m, Err(EvalError::InstructionLimit { limit: m.env.config.max_instructions }))
            } else {
                match m.guard(t, pc) {
                    Err(e) => (m, Err(e)),
                    Ok(false) => (m.moved(t, pc, Flow::Next), Ok(())),
                    Ok(true) => match m.execute(t, pc, instr) {
                        (m1, Err(e)) => (m1, Err(e)),
                        (m1, Ok(f)) => (m1.moved(t, pc, f), Ok(())),
                    },
                }
            }
        }
    }
}

impl<'p> Interpreter<'p> {
    fn wgmma_fence(&mut self, t: ThreadId)
        requires
            old(self).wf(),
            old(self).has(t),
        ensures
            final(self).wf(),
            final(self).setup == old(self).setup,
            final(self)@.pace() == old(self)@.pace(),
            final(self)@ == old(self)@.with_wgmma(t, old(self)@.thread(t).wgmma.fenced()),
    {
        let i: usize = t.0 as usize;
        thread_at_mut(&mut self.threads, i).wgmma.fence();
        assert(self@.threads =~= old(self)@.with_wgmma(
            t,
            old(self)@.thread(t).wgmma.fenced(),
        ).threads);
        assert(self@.pace().1 =~= old(self)@.pace().1);
    }

    fn wgmma_commit(&mut self, t: ThreadId)
        requires
            old(self).wf(),
            old(self).has(t),
        ensures
            final(self).wf(),
            final(self).setup == old(self).setup,
            final(self)@.pace() == old(self)@.pace(),
            final(self)@ == old(self)@.with_wgmma(t, old(self)@.thread(t).wgmma.committed()),
    {
        let i: usize = t.0 as usize;
        thread_at_mut(&mut self.threads, i).wgmma.commit_group();
        assert(self@.threads =~= old(self)@.with_wgmma(
            t,
            old(self)@.thread(t).wgmma.committed(),
        ).threads);
        assert(self@.pace().1 =~= old(self)@.pace().1);
    }

    fn wgmma_wait(&mut self, t: ThreadId, n: u32)
        requires
            old(self).wf(),
            old(self).has(t),
        ensures
            final(self).wf(),
            final(self).setup == old(self).setup,
            final(self)@.pace() == old(self)@.pace(),
            final(self)@ == old(self)@.with_wgmma(t, old(self)@.thread(t).wgmma.waited(n)),
    {
        let i: usize = t.0 as usize;
        thread_at_mut(&mut self.threads, i).wgmma.wait_group(n);
        assert(self@.threads =~= old(self)@.with_wgmma(
            t,
            old(self)@.thread(t).wgmma.waited(n),
        ).threads);
        assert(self@.pace().1 =~= old(self)@.pace().1);
    }

    fn arithmetic(
        &mut self,
        t: ThreadId,
        pc: InstrId,
        instr: &LoweredInstr,
    ) -> (r: Option<EvalResult<Flow>>)
        requires
            old(self).wf(),
            old(self).has(t),
        ensures
            final(self).wf(),
            final(self).setup == old(self).setup,
            final(self)@.stats.instructions == old(self)@.stats.instructions,
            match r {
                Some(x) => old(self)@.arithmetic(t, pc, *instr) == Some((final(self)@, x)),
                None => old(self)@.arithmetic(t, pc, *instr) is None && final(self)@ == old(self)@,
            },
    {
        reveal(Machine::arithmetic);
        match instr {
            LoweredInstr::BinOp { op, dst, src_a, src_b, ty, clamp } => Some(
                proceed(self.binop(t, pc, *op, *dst, src_a, src_b, *ty, *clamp), Flow::Next),
            ),
            LoweredInstr::UnaryOp { op, dst, src, ty } => Some(
                proceed(self.unary(t, pc, *op, *dst, src, *ty), Flow::Next),
            ),
            LoweredInstr::Copysign { dst, sign_src, magnitude_src, .. } => Some(
                proceed(self.copysign(t, pc, *dst, sign_src, magnitude_src), Flow::Next),
            ),
            LoweredInstr::Fma { dst, src_a, src_b, src_c, ty, clamp } => Some(
                proceed(self.fused(t, pc, *dst, src_a, src_b, src_c, *ty, *clamp), Flow::Next),
            ),
            LoweredInstr::Mad { dst, src_a, src_b, src_c, ty, mode } => Some(
                proceed(self.mad(t, pc, *dst, src_a, src_b, src_c, *ty, *mode), Flow::Next),
            ),
            LoweredInstr::MulWide { dst, src_a, src_b, src_ty } => Some(
                proceed(self.wide_product(t, pc, *dst, src_a, src_b, *src_ty), Flow::Next),
            ),
            LoweredInstr::MulHi { dst, src_a, src_b, ty } => Some(
                proceed(self.high_product(t, pc, *dst, src_a, src_b, *ty), Flow::Next),
            ),
            _ => None,
        }
    }

    fn bitwise(
        &mut self,
        t: ThreadId,
        pc: InstrId,
        instr: &LoweredInstr,
    ) -> (r: Option<EvalResult<Flow>>)
        requires
            old(self).wf(),
            old(self).has(t),
        ensures
            final(self).wf(),
            final(self).setup == old(self).setup,
            final(self)@.stats.instructions == old(self)@.stats.instructions,
            match r {
                Some(x) => old(self)@.bitwise(t, pc, *instr) == Some((final(self)@, x)),
                None => old(self)@.bitwise(t, pc, *instr) is None && final(self)@ == old(self)@,
            },
    {
        reveal(Machine::bitwise);
        match instr {
            LoweredInstr::Mov { dst, src, ty } => Some(
                proceed(self.mov(t, pc, *dst, src, *ty), Flow::Next),
            ),
            LoweredInstr::Cvta { dst, src, .. } => Some(
                proceed(self.cvta(t, pc, *dst, src), Flow::Next),
            ),
            LoweredInstr::Prmt { dst, src_a, src_b, selector } => Some(
                proceed(self.prmt(t, pc, *dst, src_a, src_b, selector), Flow::Next),
            ),
            LoweredInstr::Lop3 { dst, src_a, src_b, src_c, lut } => Some(
                proceed(self.lop3(t, pc, *dst, src_a, src_b, src_c, lut), Flow::Next),
            ),
            LoweredInstr::Bfi { dst, src_a, src_b, start, len, .. } => Some(
                proceed(self.bfi(t, pc, *dst, src_a, src_b, start, len), Flow::Next),
            ),
            LoweredInstr::Bfe { dst, src_a, start, len, ty } => Some(
                proceed(self.bfe(t, pc, *dst, src_a, start, len, *ty), Flow::Next),
            ),
            LoweredInstr::Shf { dst, lo, hi, shift, dir, mode } => Some(
                proceed(self.shf(t, pc, *dst, lo, hi, shift, *dir, *mode), Flow::Next),
            ),
            LoweredInstr::Setp { cmp, dst, src_a, src_b, ty } => Some(
                proceed(self.setp(t, pc, *cmp, *dst, src_a, src_b, *ty), Flow::Next),
            ),
            LoweredInstr::Selp { dst, src_a, src_b, pred, ty } => Some(
                proceed(self.selp(t, pc, *dst, src_a, src_b, pred, *ty), Flow::Next),
            ),
            LoweredInstr::SetVal { .. } => Some(
                Err(unsupported(pc, "set (value-producing comparison)")),
            ),
            _ => None,
        }
    }

    fn movement(
        &mut self,
        t: ThreadId,
        pc: InstrId,
        instr: &LoweredInstr,
    ) -> (r: Option<EvalResult<Flow>>)
        requires
            old(self).wf(),
            old(self).has(t),
        ensures
            final(self).wf(),
            final(self).setup == old(self).setup,
            final(self)@.stats.instructions == old(self)@.stats.instructions,
            match r {
                Some(x) => old(self)@.movement(t, pc, *instr) == Some((final(self)@, x)),
                None => old(self)@.movement(t, pc, *instr) is None && final(self)@ == old(self)@,
            },
    {
        reveal(Machine::movement);
        match instr {
            LoweredInstr::LoadParam { dst, param_id } => Some(
                proceed(self.load_param(t, pc, *dst, *param_id), Flow::Next),
            ),
            LoweredInstr::Load { dst, space, base, offset, ty } => Some(
                proceed(self.load(t, pc, *dst, *space, base, *offset, *ty), Flow::Next),
            ),
            LoweredInstr::LoadVec { dst, space, base, offset, ty } => Some(
                proceed(self.load_vec(t, pc, dst, *space, base, *offset, *ty), Flow::Next),
            ),
            LoweredInstr::Store { space, base, offset, src, ty } => Some(
                proceed(self.store(t, pc, *space, base, *offset, src, *ty), Flow::Next),
            ),
            LoweredInstr::StoreVec { space, base, offset, src, ty } => Some(
                proceed(self.store_vec(t, pc, *space, base, *offset, src, *ty), Flow::Next),
            ),
            LoweredInstr::CpAsync {
                dst_base,
                dst_offset,
                src_base,
                src_offset,
                cp_size,
                src_size,
            } => Some(
                proceed(
                    self.cp_async(
                        t,
                        pc,
                        dst_base,
                        *dst_offset,
                        src_base,
                        *src_offset,
                        *cp_size,
                        *src_size,
                    ),
                    Flow::Next,
                ),
            ),
            LoweredInstr::Cvt { dst, src, dst_ty, src_ty, clamp } => Some(
                proceed(self.cvt(t, pc, *dst, src, *dst_ty, *src_ty, *clamp), Flow::Next),
            ),
            LoweredInstr::CvtE4m3x2ToF16x2 { dst, src, relu } => Some(
                proceed(self.cvt_bytes(t, pc, *dst, src, *relu), Flow::Next),
            ),
            LoweredInstr::CvtPackHalves { dst, src_hi, src_lo, dst_half_ty, src_ty } => Some(
                proceed(
                    self.cvt_pack(t, pc, *dst, src_hi, src_lo, *dst_half_ty, *src_ty),
                    Flow::Next,
                ),
            ),
            LoweredInstr::UnpackHalves { lo, hi, src, ty } => Some(
                proceed(self.unpack_halves(t, pc, *lo, *hi, src, *ty), Flow::Next),
            ),
            LoweredInstr::PackHalves { dst, lo, hi } => Some(
                proceed(self.pack_halves(t, pc, *dst, lo, hi), Flow::Next),
            ),
            LoweredInstr::PackQuad { dst, elems } => Some(
                proceed(self.pack_quad(t, pc, *dst, elems), Flow::Next),
            ),
            LoweredInstr::UnpackQuad { elems, src } => Some(
                proceed(self.unpack_quad(t, pc, elems, src), Flow::Next),
            ),
            LoweredInstr::CpAsyncCommitGroup => {
                self.commit_copies(t);
                Some(Ok(Flow::Next))
            },
            LoweredInstr::CpAsyncWaitGroup { n } => Some(
                proceed(self.cp_async_wait(t, pc, *n), Flow::Next),
            ),
            LoweredInstr::Activemask { dst } => Some(
                proceed(self.activemask(t, pc, *dst), Flow::Next),
            ),
            _ => None,
        }
    }

    fn asynchronous(
        &mut self,
        t: ThreadId,
        pc: InstrId,
        instr: &LoweredInstr,
    ) -> (r: Option<EvalResult<Flow>>)
        requires
            old(self).wf(),
            old(self).has(t),
        ensures
            final(self).wf(),
            final(self).setup == old(self).setup,
            final(self)@.stats.instructions == old(self)@.stats.instructions,
            match r {
                Some(x) => old(self)@.asynchronous(t, pc, *instr) == Some((final(self)@, x)),
                None => old(self)@.asynchronous(t, pc, *instr) is None && final(self)@ == old(self)@,
            },
    {
        reveal(Machine::asynchronous);
        match instr {
            LoweredInstr::FenceProxyAsync { restrict } => {
                self.race.clear_async_proxy_fence(t, *restrict);
                Some(Ok(Flow::Next))
            },
            LoweredInstr::WgmmaFence => {
                self.wgmma_fence(t);
                Some(Ok(Flow::Next))
            },
            LoweredInstr::WgmmaCommitGroup => {
                self.wgmma_commit(t);
                Some(Ok(Flow::Next))
            },
            LoweredInstr::WgmmaWaitGroup { n } => {
                self.wgmma_wait(t, *n);
                Some(Ok(Flow::Next))
            },
            LoweredInstr::Tcgen05Mma {
                kind,
                d_tmem_base,
                d_tmem_offset,
                a_desc,
                b_desc,
                idesc,
                disable_output_lane,
                enable_input_d,
            } => Some(
                proceed(
                    self.tcgen05_mma(
                        t,
                        pc,
                        *kind,
                        d_tmem_base,
                        *d_tmem_offset,
                        a_desc,
                        b_desc,
                        idesc,
                        disable_output_lane,
                        enable_input_d,
                    ),
                    Flow::Next,
                ),
            ),
            LoweredInstr::Tcgen05Commit { addr_base, addr_offset } => Some(
                proceed(self.tcgen05_commit(t, pc, addr_base, *addr_offset), Flow::Next),
            ),
            LoweredInstr::TensormapReplace { space, addr_base, addr_offset, field } => Some(
                proceed(
                    self.tensormap_replace(t, pc, *space, addr_base, *addr_offset, *field),
                    Flow::Next,
                ),
            ),
            LoweredInstr::TensormapCpFenceproxy { dst_base, dst_offset, src_base, src_offset } => Some(
                proceed(
                    self.tensormap_copy(t, pc, dst_base, *dst_offset, src_base, *src_offset),
                    Flow::Next,
                ),
            ),
            LoweredInstr::CpAsyncBulkTensorLoad {
                dst_base,
                dst_offset,
                tensormap_space,
                tensormap_base,
                tensormap_offset,
                coords,
                mbar_base,
                mbar_offset,
            } => Some(
                proceed(
                    self.bulk_tensor_load(
                        t,
                        pc,
                        dst_base,
                        *dst_offset,
                        *tensormap_space,
                        tensormap_base,
                        *tensormap_offset,
                        coords,
                        mbar_base,
                        *mbar_offset,
                    ),
                    Flow::Next,
                ),
            ),
            LoweredInstr::MbarrierInit { addr_base, addr_offset, count } => Some(
                proceed(self.mbarrier_init(t, pc, addr_base, *addr_offset, count), Flow::Next),
            ),
            LoweredInstr::MbarrierInval { addr_base, addr_offset } => Some(
                proceed(self.mbarrier_inval(t, pc, addr_base, *addr_offset), Flow::Next),
            ),
            LoweredInstr::MbarrierArrive { state, addr_base, addr_offset, count, expect_tx } => Some(
                proceed(
                    self.mbarrier_arrive(
                        t,
                        pc,
                        *state,
                        addr_base,
                        *addr_offset,
                        *count,
                        *expect_tx,
                    ),
                    Flow::Next,
                ),
            ),
            LoweredInstr::MbarrierCompleteTx { addr_base, addr_offset, tx_count } => Some(
                proceed(
                    self.mbarrier_complete_tx(t, pc, addr_base, *addr_offset, tx_count),
                    Flow::Next,
                ),
            ),
            LoweredInstr::MbarrierWaitParity { addr_base, addr_offset, phase_parity, .. } => Some(
                proceed(
                    self.mbarrier_wait(t, pc, addr_base, *addr_offset, phase_parity),
                    Flow::Stay,
                ),
            ),
            _ => None,
        }
    }

    fn control(&mut self, t: ThreadId, pc: InstrId, instr: &LoweredInstr) -> (r: EvalResult<Flow>)
        requires
            old(self).wf(),
            old(self).has(t),
        ensures
            final(self).wf(),
            final(self).setup == old(self).setup,
            final(self)@.stats.instructions == old(self)@.stats.instructions,
            (final(self)@, r) == old(self)@.control(t, pc, *instr),
    {
        reveal(Machine::control);
        match instr {
            LoweredInstr::Bra { target } => Ok(Flow::Jump(*target)),
            LoweredInstr::Ret | LoweredInstr::Exit => proceed(self.exit(t, pc), Flow::Stay),
            LoweredInstr::BarSync { barrier_id } => proceed(
                self.bar_sync(t, pc, *barrier_id),
                Flow::Stay,
            ),
            LoweredInstr::BarWarpSync { mask } => proceed(
                self.block_with_mask(t, pc, mask, "warp sync mask"),
                Flow::Stay,
            ),
            LoweredInstr::Shfl { .. } => Err(
                unsupported(pc, "shfl without .sync (deprecated warp-unsynchronized shuffle)"),
            ),
            LoweredInstr::ShflSync { membermask, .. } => proceed(
                self.block_with_mask(t, pc, membermask, "shfl.sync membermask"),
                Flow::Stay,
            ),
            LoweredInstr::ElectSync { membermask, .. } => proceed(
                self.block_with_mask(t, pc, membermask, "elect.sync membermask"),
                Flow::Stay,
            ),
            LoweredInstr::ReduxSync { membermask, .. } => proceed(
                self.block_with_mask(t, pc, membermask, "redux.sync membermask"),
                Flow::Stay,
            ),
            LoweredInstr::ReduxSyncBroadcastMax { membermask, .. } => proceed(
                self.block_with_mask(t, pc, membermask, "redux.sync membermask"),
                Flow::Stay,
            ),
            LoweredInstr::Ldmatrix { .. }
            | LoweredInstr::Mma { .. }
            | LoweredInstr::WmmaLoad { .. }
            | LoweredInstr::WmmaStore { .. }
            | LoweredInstr::WmmaMma { .. }
            | LoweredInstr::Stmatrix { .. }
            | LoweredInstr::Tcgen05Alloc { .. }
            | LoweredInstr::Tcgen05Dealloc { .. }
            | LoweredInstr::Tcgen05RelinquishAllocPermit
            | LoweredInstr::Tcgen05Ld { .. }
            | LoweredInstr::Tcgen05St { .. }
            | LoweredInstr::Tcgen05Wait { .. } => proceed(
                self.block_at_warp_op(t, pc, u32::MAX),
                Flow::Stay,
            ),
            LoweredInstr::WgmmaMmaAsync { .. } => {
                self.set_status(t, Status::AtWarpgroupOp);
                Ok(Flow::Stay)
            },
            LoweredInstr::Trap => Err(EvalError::TrapReached { thread: t, pc }),
            _ => Ok(Flow::Next),
        }
    }

    /// Executes one instruction.
    fn execute(&mut self, t: ThreadId, pc: InstrId, instr: &LoweredInstr) -> (r: EvalResult<Flow>)
        requires
            old(self).wf(),
            old(self).has(t),
        ensures
            final(self).wf(),
            final(self).setup == old(self).setup,
            final(self)@.stats.instructions == old(self)@.stats.instructions,
            (final(self)@, r) == old(self)@.execute(t, pc, *instr),
    {
        if let Some(r) = self.arithmetic(t, pc, instr) {
            return r;
        }
        if let Some(r) = self.bitwise(t, pc, instr) {
            return r;
        }
        if let Some(r) = self.movement(t, pc, instr) {
            return r;
        }
        if let Some(r) = self.asynchronous(t, pc, instr) {
            return r;
        }
        self.control(t, pc, instr)
    }

    fn count(&mut self, kind: usize)
        requires
            old(self).wf(),
            kind < old(self).op_counts@.len(),
        ensures
            final(self).wf(),
            final(self).setup == old(self).setup,
            final(self)@ == old(self)@.counting(kind),
    {
        self.stats.instructions = counted(self.stats.instructions);
        let n: u64 = counted(self.op_counts[kind]);
        self.op_counts.set(kind, n);
    }

    fn guard(&self, t: ThreadId, pc: InstrId, program: &LoweredProgram) -> (r: EvalResult<bool>)
        requires
            self.wf(),
            self.has(t),
            *program == *self.setup.program,
        ensures
            r == self@.guard(t, pc),
    {
        match program.predicate(pc) {
            None => Ok(true),
            Some(p) => match self.read_reg(t, pc, p.reg) {
                Err(e) => Err(e),
                Ok(v) => match self.as_concrete_bool(t, pc, v, "guard predicate") {
                    Err(e) => Err(e),
                    Ok(b) => Ok(b != p.negated),
                },
            },
        }
    }

    fn move_on(&mut self, t: ThreadId, pc: InstrId, f: Flow)
        requires
            old(self).wf(),
            old(self).has(t),
            pc.0 < u32::MAX,
        ensures
            final(self).wf(),
            final(self).setup == old(self).setup,
            final(self)@.pace() == old(self)@.pace(),
            final(self)@ == old(self)@.moved(t, pc, f),
    {
        match f {
            Flow::Next => self.set_pc(t, InstrId(pc.0 + 1)),
            Flow::Jump(target) => self.set_pc(t, target),
            Flow::Stay => {},
        }
    }

    /// Executes the instruction at a thread's program counter.
    pub(crate) fn step(&mut self, t: ThreadId) -> (r: EvalResult<()>)
        requires
            old(self).wf(),
            old(self).has(t),
        ensures
            final(self).wf(),
            final(self).setup == old(self).setup,
            (final(self)@, r) == old(self)@.step(t),
            r is Ok ==> old(self)@.stats.instructions < old(self)@.env.config.max_instructions,
            r is Ok ==> final(self)@.stats.instructions == old(self)@.stats.instructions + 1,
    {
        reveal(Machine::step);
        let program = self.setup.program;
        let pc = thread_at(&self.threads, t.0 as usize).pc;
        let instr = match program.instruction(pc) {
            None => {
                return Err(unsupported(pc, "execution fell off the end of the program"));
            },
            Some(i) => i,
        };
        let executed: u64 = self.stats.instructions;
        self.count(instr.kind_index());
        if executed >= self.setup.config.max_instructions {
            return Err(
                EvalError::InstructionLimit { limit: self.setup.config.max_instructions },
            );
        }
        match self.guard(t, pc, program) {
            Err(e) => Err(e),
            Ok(open) => {
                if !open {
                    self.move_on(t, pc, Flow::Next);
                    return Ok(());
                }
                match self.execute(t, pc, instr) {
                    Err(e) => Err(e),
                    Ok(f) => {
                        self.move_on(t, pc, f);
                        Ok(())
                    },
                }
            },
        }
    }
}

} // verus!
