//! The interpreter: round-robin symbolic execution with race detection.
//!
//! Each thread runs until it blocks (barrier or warp-cooperative operation)
//! or exits; then the next ready thread runs. When no thread is ready,
//! complete barrier and warp groups fire; if none can, the program is
//! deadlocked.

use vstd::prelude::*;

use crate::eval::arith::{decode_packed_bits, recombine_pair_halves, unsupported};
use crate::eval::config::AnalysisConfig;
use crate::eval::error::{AccessSite, Detail, EvalError, EvalResult};
use crate::eval::fp8::decode_f64_bits;
use crate::eval::lists::{MemoryList, ParamList, ThreadList, thread_at, thread_at_mut};
use crate::eval::machine::{
    CopyModel, Env, Machine, PendingCopy, Region, Stats, Status, ThreadModel, all_wf,
};
use crate::eval::mbarrier::MbarrierTable;
use crate::eval::memory::{Cells, Memory};
use crate::eval::race::RaceTracker;
use crate::eval::target::TargetFeatures;
use crate::eval::tensor_map_table::TensorMapTable;
use crate::eval::tensor_memory::TensorMemory;
use crate::eval::value::{RegFile, Value};
use crate::eval::wgmma_regs::WgmmaRegState;
use crate::eval::{ThreadId, WARP_SIZE};
use crate::lowered::{InstrId, KIND_COUNT, LoweredProgram, Operand};
use crate::symbolic::ExprId;
use crate::symbolic::arena::ExprArena;
use crate::symbols::{RegId, SpecialRegKind};
use crate::tensor_core::MmaShape;
use crate::types::{RegClass, ScalarType};

verus! {

/// One thread of the block.
pub struct ThreadState {
    pub pc: InstrId,
    pub regs: RegFile,
    pub status: Status,
    /// `cp.async` copies issued since the last commit.
    pub uncommitted: Vec<PendingCopy>,
    /// Committed copy groups, oldest first.
    pub groups: Vec<Vec<PendingCopy>>,
    pub wgmma: WgmmaRegState,
}

pub open spec fn copy_models(v: Seq<PendingCopy>) -> Seq<CopyModel> {
    v.map_values(|c: PendingCopy| c@)
}

pub open spec fn group_models(v: Seq<Vec<PendingCopy>>) -> Seq<Seq<CopyModel>> {
    v.map_values(|g: Vec<PendingCopy>| copy_models(g@))
}

impl View for ThreadState {
    type V = ThreadModel;

    open spec fn view(&self) -> ThreadModel {
        ThreadModel {
            pc: self.pc,
            regs: self.regs@,
            status: self.status,
            uncommitted: copy_models(self.uncommitted@),
            groups: group_models(self.groups@),
            wgmma: self.wgmma@,
        }
    }
}

/// What stays the same during a run.
pub struct Setup<'p> {
    pub program: &'p LoweredProgram,
    pub config: AnalysisConfig,
    pub n_threads: u32,
    /// Shared node returned for reads of never-written registers.
    pub undefined: ExprId,
    pub params: ParamList,
    /// Declared regions per space; every access must fall entirely inside
    /// one of them.
    pub global: Vec<Region>,
    pub shared: Vec<Region>,
    pub local: Vec<Region>,
    /// Feature gates of the module's target.
    pub features: TargetFeatures,
}

impl<'p> View for Setup<'p> {
    type V = Env;

    open spec fn view(&self) -> Env {
        Env {
            program: *self.program,
            config: self.config,
            n_threads: self.n_threads,
            undefined: self.undefined,
            params: self.params@,
            global: self.global@,
            shared: self.shared@,
            local: self.local@,
            features: self.features,
        }
    }
}

impl<'p> Setup<'p> {
    pub open spec fn wf(&self) -> bool {
        let (bx, by, bz) = self.config.block_dim;
        &&& self.n_threads >= 1
        &&& self.n_threads == bx * by * bz
        &&& all_wf(self.global@)
        &&& all_wf(self.shared@)
        &&& all_wf(self.local@)
        &&& forall|i: int|
            0 <= i < self.config.arrays@.len() ==> (#[trigger] self.config.arrays@[i]).wf()
        &&& self.program.instructions@.len() <= u32::MAX
    }
}

/// A symbolic run of one thread block.
pub struct Interpreter<'p> {
    pub setup: Setup<'p>,
    pub arena: ExprArena,
    pub threads: ThreadList,
    pub global: Memory,
    pub shared: Memory,
    pub locals: MemoryList,
    pub tensor: TensorMemory,
    pub race: RaceTracker,
    pub mbarriers: MbarrierTable,
    pub tensor_maps: TensorMapTable,
    pub stats: Stats,
    /// Instruction counts, indexed by kind.
    pub op_counts: Vec<u64>,
}

pub open spec fn thread_models(v: Seq<ThreadState>) -> Seq<ThreadModel> {
    v.map_values(|t: ThreadState| t@)
}

pub open spec fn memory_models(v: Seq<Memory>) -> Seq<Cells> {
    v.map_values(|m: Memory| m@)
}

impl<'p> View for Interpreter<'p> {
    type V = Machine;

    open spec fn view(&self) -> Machine {
        Machine {
            exprs: self.arena@,
            threads: thread_models(self.threads@),
            global: self.global@,
            shared: self.shared@,
            locals: memory_models(self.locals@),
            tensor: self.tensor@,
            race: self.race@,
            mbarriers: self.mbarriers@,
            maps: self.tensor_maps@,
            stats: self.stats,
            op_counts: self.op_counts@,
            env: self.setup@,
        }
    }
}

impl<'p> Interpreter<'p> {
    pub open spec fn wf(&self) -> bool {
        &&& self.setup.wf()
        &&& self.arena.wf()
        &&& self.threads@.len() == self.setup.n_threads
        &&& self.locals@.len() == self.setup.n_threads
        &&& self.global.wf()
        &&& self.shared.wf()
        &&& forall|i: int| 0 <= i < self.locals@.len() ==> (#[trigger] self.locals@[i]).wf()
        &&& self.tensor.wf()
        &&& self.race.wf()
        &&& self.race@.n_threads == self.setup.n_threads
        &&& self.mbarriers.wf()
        &&& self.mbarriers.threads() == self.setup.n_threads
        &&& self.tensor_maps.wf()
        &&& self.op_counts@.len() == KIND_COUNT
    }

    /// Whether a thread belongs to the block.
    pub open spec fn has(&self, t: ThreadId) -> bool {
        t.0 < self.setup.n_threads
    }

    // -----------------------------------------------------------------------
    // Threads
    // -----------------------------------------------------------------------

    pub(crate) fn set_pc(&mut self, t: ThreadId, pc: InstrId)
        requires
            old(self).wf(),
            old(self).has(t),
        ensures
            final(self).wf(),
            final(self).setup == old(self).setup,
            final(self)@.pace() == old(self)@.pace(),
            final(self)@ == old(self)@.with_pc(t, pc),
    {
        let i: usize = t.0 as usize;
        thread_at_mut(&mut self.threads, i).pc = pc;
        assert(self@.threads =~= old(self)@.with_pc(t, pc).threads);
        assert(self@.pace().1 =~= old(self)@.pace().1);
    }

    pub(crate) fn set_status(&mut self, t: ThreadId, status: Status)
        requires
            old(self).wf(),
            old(self).has(t),
        ensures
            final(self).wf(),
            final(self).setup == old(self).setup,
            final(self)@ == old(self)@.with_status(t, status),
    {
        let i: usize = t.0 as usize;
        thread_at_mut(&mut self.threads, i).status = status;
        assert(self@.threads =~= old(self)@.with_status(t, status).threads);
    }

    // -----------------------------------------------------------------------
    // Registers
    // -----------------------------------------------------------------------

    fn check_wgmma_pending(&self, t: ThreadId, pc: InstrId, reg: RegId) -> (r: EvalResult<()>)
        requires
            self.wf(),
            self.has(t),
        ensures
            r == (match self@.pending_hazard(t, pc, reg) {
                Some(e) => Err::<(), EvalError>(e),
                None => Ok(()),
            }),
    {
        match thread_at(&self.threads, t.0 as usize).wgmma.pending_since(reg) {
            Some(p) => Err(
                EvalError::WgmmaWaitGroupHazard {
                    thread: t,
                    pc,
                    reg,
                    prior_write: AccessSite { thread: t, pc: p, is_write: true },
                },
            ),
            None => Ok(()),
        }
    }

    fn reg_value(&self, t: ThreadId, reg: RegId) -> (r: Value)
        requires
            self.wf(),
            self.has(t),
        ensures
            r == self@.reg_value(t, reg),
    {
        match thread_at(&self.threads, t.0 as usize).regs.read(reg) {
            Some(v) => v,
            None => Value::Scalar(self.setup.undefined),
        }
    }

    /// Reads a register. A never-written one is undefined, which is an error
    /// only where a concrete value or an output needs it.
    pub(crate) fn read_reg(&self, t: ThreadId, pc: InstrId, reg: RegId) -> (r: EvalResult<Value>)
        requires
            self.wf(),
            self.has(t),
        ensures
            r == self@.read_reg(t, pc, reg),
    {
        match self.check_wgmma_pending(t, pc, reg) {
            Err(e) => Err(e),
            Ok(_) => Ok(self.reg_value(t, reg)),
        }
    }

    /// Writes a register. Every register write but an accumulator writeback
    /// goes through here.
    pub(crate) fn write_reg(&mut self, t: ThreadId, pc: InstrId, reg: RegId, value: Value) -> (r:
        EvalResult<()>)
        requires
            old(self).wf(),
            old(self).has(t),
        ensures
            final(self).wf(),
            final(self).setup == old(self).setup,
            final(self)@.pace() == old(self)@.pace(),
            (final(self)@, r) == old(self)@.write_reg(t, pc, reg, value),
    {
        match self.check_wgmma_pending(t, pc, reg) {
            Err(e) => Err(e),
            Ok(_) => {
                let i: usize = t.0 as usize;
                let th = thread_at_mut(&mut self.threads, i);
                th.regs.write(reg, value);
                th.wgmma.record_write(reg, pc);
                assert(self@.threads =~= old(self)@.write_reg(t, pc, reg, value).0.threads);
                assert(self@.pace().1 =~= old(self)@.pace().1);
                Ok(())
            },
        }
    }

    fn check_wgmma_fence(&self, t: ThreadId, pc: InstrId, reg: RegId, shape: MmaShape) -> (r:
        EvalResult<()>)
        requires
            self.wf(),
            self.has(t),
        ensures
            r == (match self@.fence_hazard(t, pc, reg, shape) {
                Some(e) => Err::<(), EvalError>(e),
                None => Ok(()),
            }),
    {
        let w = &thread_at(&self.threads, t.0 as usize).wgmma;
        if w.is_fenced_for(reg, shape) {
            return Ok(());
        }
        let prior_write = match w.last_write_pc(reg) {
            Some(p) => Some(AccessSite { thread: t, pc: p, is_write: true }),
            None => None,
        };
        Err(EvalError::WgmmaFenceHazard { thread: t, pc, reg, shape, prior_write })
    }

    /// Reads a `wgmma.mma_async` accumulator seed.
    pub(crate) fn read_reg_wgmma_accum(
        &self,
        t: ThreadId,
        pc: InstrId,
        reg: RegId,
        shape: MmaShape,
    ) -> (r: EvalResult<Value>)
        requires
            self.wf(),
            self.has(t),
        ensures
            r == self@.read_accum(t, pc, reg, shape),
    {
        match self.check_wgmma_fence(t, pc, reg, shape) {
            Err(e) => Err(e),
            Ok(_) => Ok(self.reg_value(t, reg)),
        }
    }

    /// Writes a `wgmma.mma_async` accumulator result.
    pub(crate) fn write_reg_wgmma_accum(
        &mut self,
        t: ThreadId,
        pc: InstrId,
        reg: RegId,
        shape: MmaShape,
        value: Value,
    ) -> (r: EvalResult<()>)
        requires
            old(self).wf(),
            old(self).has(t),
        ensures
            final(self).wf(),
            final(self).setup == old(self).setup,
            final(self)@.pace() == old(self)@.pace(),
            (final(self)@, r) == old(self)@.write_accum(t, pc, reg, shape, value),
    {
        match self.check_wgmma_fence(t, pc, reg, shape) {
            Err(e) => Err(e),
            Ok(_) => {
                let i: usize = t.0 as usize;
                let th = thread_at_mut(&mut self.threads, i);
                th.regs.write(reg, value);
                th.wgmma.record_wgmma_write(reg, shape, pc);
                assert(self@.threads =~= old(self)@.write_accum(
                    t,
                    pc,
                    reg,
                    shape,
                    value,
                ).0.threads);
                Ok(())
            },
        }
    }

    // -----------------------------------------------------------------------
    // Operands
    // -----------------------------------------------------------------------

    fn special_reg(&self, t: ThreadId, kind: SpecialRegKind) -> (r: Option<i64>)
        requires
            self.wf(),
            self.has(t),
        ensures
            r == self@.special_reg(t, kind),
    {
        let (bx, by, bz) = self.setup.config.block_dim;
        let (gx, gy, gz) = self.setup.config.grid_dim;
        proof {
            lemma_positive_dims(bx as int, by as int, bz as int);
        }
        match kind {
            SpecialRegKind::TidX => Some((t.0 % bx) as i64),
            SpecialRegKind::TidY => Some(((t.0 / bx) % by) as i64),
            SpecialRegKind::TidZ => Some((t.0 / (bx * by)) as i64),
            SpecialRegKind::NtidX => Some(bx as i64),
            SpecialRegKind::NtidY => Some(by as i64),
            SpecialRegKind::NtidZ => Some(bz as i64),
            SpecialRegKind::CtaidX | SpecialRegKind::CtaidY | SpecialRegKind::CtaidZ => Some(0),
            SpecialRegKind::NctaidX => Some(gx as i64),
            SpecialRegKind::NctaidY => Some(gy as i64),
            SpecialRegKind::NctaidZ => Some(gz as i64),
            SpecialRegKind::LaneId => Some((t.0 % WARP_SIZE) as i64),
            SpecialRegKind::WarpId => Some((t.0 / WARP_SIZE) as i64),
            SpecialRegKind::NWarpId => Some(
                ((self.setup.n_threads as u64 + WARP_SIZE as u64 - 1) / WARP_SIZE as u64) as i64,
            ),
            SpecialRegKind::DynamicSmemSize => Some(self.setup.config.dynamic_shared_bytes as i64),
            _ => None,
        }
    }

    /// Resolves an operand to a value.
    pub(crate) fn operand_value(
        &mut self,
        t: ThreadId,
        pc: InstrId,
        op: &Operand,
    ) -> (r: EvalResult<
        Value,
    >)
        requires
            old(self).wf(),
            old(self).has(t),
        ensures
            final(self).wf(),
            final(self).setup == old(self).setup,
            final(self)@.pace() == old(self)@.pace(),
            (final(self)@, r) == old(self)@.operand_value(t, pc, *op),
    {
        match *op {
            Operand::Reg(reg) => self.read_reg(t, pc, reg),
            Operand::SpecialReg(kind) => {
                match self.special_reg(t, kind) {
                    Some(v) => Ok(Value::Scalar(self.arena.int_const(v))),
                    None => Err(
                        EvalError::Unsupported { pc, what: Detail::SpecialRegister { kind } },
                    ),
                }
            },
            Operand::ImmI64(v) => Ok(Value::Scalar(self.arena.int_const(v))),
            Operand::ImmU64(v) => Ok(Value::Scalar(self.arena.int_const(v as i64))),
            Operand::ImmF64(bits) => {
                match decode_f64_bits(bits) {
                    Some(f) => Ok(Value::Scalar(self.arena.float(f))),
                    None => Err(unsupported(pc, "float immediate: NaN")),
                }
            },
        }
    }

    /// Resolves an operand that must be a scalar.
    pub(crate) fn scalar_operand(
        &mut self,
        t: ThreadId,
        pc: InstrId,
        op: &Operand,
    ) -> (r: EvalResult<
        ExprId,
    >)
        requires
            old(self).wf(),
            old(self).has(t),
        ensures
            final(self).wf(),
            final(self).setup == old(self).setup,
            final(self)@.pace() == old(self)@.pace(),
            (final(self)@, r) == old(self)@.scalar_operand(t, pc, *op),
    {
        let v = match self.operand_value(t, pc, op) {
            Err(e) => {
                return Err(e);
            },
            Ok(v) => v,
        };
        match v {
            Value::Scalar(e) => Ok(e),
            Value::Pair(lo, hi) => {
                let half: Option<u32> = match *op {
                    Operand::Reg(reg) => match reg.class {
                        RegClass::Bits64 => Some(32),
                        RegClass::Bits32 => Some(16),
                        _ => None,
                    },
                    _ => None,
                };
                match (half, self.arena.as_int_const(lo), self.arena.as_int_const(hi)) {
                    (Some(w), Some(l), Some(h)) => Ok(
                        recombine_pair_halves(&mut self.arena, l, h, w),
                    ),
                    _ => Err(
                        EvalError::ValueKindMismatch {
                            thread: t,
                            pc,
                            what: "packed pair used as a scalar",
                        },
                    ),
                }
            },
            Value::Quad(_, _, _, _) => Err(
                EvalError::ValueKindMismatch {
                    thread: t,
                    pc,
                    what: "packed byte-quad used as a scalar",
                },
            ),
            Value::Mbarrier(_) => Err(
                EvalError::ValueKindMismatch {
                    thread: t,
                    pc,
                    what: "mbarrier handle used as a scalar",
                },
            ),
        }
    }

    /// Resolves an operand that must be a packed pair of `lane_ty` lanes.
    pub(crate) fn pair_operand(
        &mut self,
        t: ThreadId,
        pc: InstrId,
        op: &Operand,
        lane_ty: ScalarType,
    ) -> (r:
        EvalResult<(ExprId, ExprId)>)
        requires
            old(self).wf(),
            old(self).has(t),
        ensures
            final(self).wf(),
            final(self).setup == old(self).setup,
            final(self)@.pace() == old(self)@.pace(),
            (final(self)@, r) == old(self)@.pair_operand(t, pc, *op, lane_ty),
    {
        let v = match self.operand_value(t, pc, op) {
            Err(e) => {
                return Err(e);
            },
            Ok(v) => v,
        };
        match v {
            Value::Pair(lo, hi) => Ok((lo, hi)),
            Value::Scalar(e) => {
                match self.arena.as_i64(e) {
                    None => Err(
                        EvalError::ValueKindMismatch {
                            thread: t,
                            pc,
                            what: "symbolic scalar used as a packed pair",
                        },
                    ),
                    Some(c) => {
                        match decode_packed_bits(c as u64, lane_ty) {
                            None => Err(unsupported(pc, "NaN half in a packed-pair bit pattern")),
                            Some((x, y)) => {
                                let lo = self.arena.float(x);
                                let hi = self.arena.float(y);
                                Ok((lo, hi))
                            },
                        }
                    },
                }
            },
            Value::Quad(_, _, _, _) => Err(
                EvalError::ValueKindMismatch {
                    thread: t,
                    pc,
                    what: "packed byte-quad used as a packed pair",
                },
            ),
            Value::Mbarrier(_) => Err(
                EvalError::ValueKindMismatch {
                    thread: t,
                    pc,
                    what: "mbarrier handle used as a packed pair",
                },
            ),
        }
    }

    /// Resolves an operand that must be a concrete integer.
    pub(crate) fn concrete_operand(
        &mut self,
        t: ThreadId,
        pc: InstrId,
        op: &Operand,
        what: &'static str,
    ) -> (r: EvalResult<i64>)
        requires
            old(self).wf(),
            old(self).has(t),
        ensures
            final(self).wf(),
            final(self).setup == old(self).setup,
            final(self)@.pace() == old(self)@.pace(),
            (final(self)@, r) == old(self)@.concrete_operand(t, pc, *op, what),
    {
        match self.scalar_operand(t, pc, op) {
            Err(e) => Err(e),
            Ok(e) => match self.arena.as_i64(e) {
                Some(c) => Ok(c),
                None => Err(EvalError::NotConcrete { thread: t, pc, what }),
            },
        }
    }

    /// Resolves an operand that must be a concrete, non-negative integer.
    pub(crate) fn non_negative_operand(
        &mut self,
        t: ThreadId,
        pc: InstrId,
        op: &Operand,
        what: &'static str,
    ) -> (r: EvalResult<u64>)
        requires
            old(self).wf(),
            old(self).has(t),
        ensures
            final(self).wf(),
            final(self).setup == old(self).setup,
            final(self)@.pace() == old(self)@.pace(),
            (final(self)@, r) == old(self)@.non_negative_operand(t, pc, *op, what),
    {
        match self.concrete_operand(t, pc, op, what) {
            Err(e) => Err(e),
            Ok(v) => if v < 0 {
                Err(EvalError::Unsupported { pc, what: Detail::Negative { what, value: v } })
            } else {
                Ok(v as u64)
            },
        }
    }

    /// Resolves a value that must be a concrete truth value.
    pub(crate) fn as_concrete_bool(
        &self,
        t: ThreadId,
        pc: InstrId,
        value: Value,
        what: &'static str,
    ) -> (r:
        EvalResult<bool>)
        ensures
            r == self@.concrete_bool(t, pc, value, what),
    {
        match value {
            Value::Scalar(e) => match self.arena.as_bool(e) {
                Some(b) => Ok(b),
                None => Err(EvalError::NotConcrete { thread: t, pc, what }),
            },
            _ => Err(
                EvalError::ValueKindMismatch {
                    thread: t,
                    pc,
                    what: "packed pair used as a predicate",
                },
            ),
        }
    }

    /// Computes the concrete effective address `base + offset`, modulo
    /// `2^64`. Whether anything lies there is for the bounds check to say.
    pub(crate) fn effective_addr(
        &mut self,
        t: ThreadId,
        pc: InstrId,
        base: &Operand,
        offset: i64,
    ) -> (r:
        EvalResult<u64>)
        requires
            old(self).wf(),
            old(self).has(t),
        ensures
            final(self).wf(),
            final(self).setup == old(self).setup,
            final(self)@.pace() == old(self)@.pace(),
            (final(self)@, r) == old(self)@.effective_addr(t, pc, *base, offset),
    {
        match self.concrete_operand(t, pc, base, "memory address") {
            Err(e) => Err(e),
            Ok(b) => Ok((b as u64).wrapping_add(offset as u64)),
        }
    }
}

proof fn lemma_positive_dims(bx: int, by: int, bz: int)
    requires
        bx >= 0,
        by >= 0,
        bz >= 0,
        1 <= bx * by * bz <= u32::MAX,
    ensures
        bx >= 1,
        by >= 1,
        1 <= bx * by <= u32::MAX,
{
    assert(bx >= 1 && by >= 1 && 1 <= bx * by <= u32::MAX) by (nonlinear_arith)
        requires
            bx >= 0,
            by >= 0,
            bz >= 0,
            1 <= bx * by * bz <= u32::MAX,
    ;
}

} // verus!
