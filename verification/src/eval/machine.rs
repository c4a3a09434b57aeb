//! The state of a kernel run, as contracts speak of it, and what register,
//! operand and memory accesses do to it.

use vstd::prelude::*;

use crate::eval::arith::{Step, recombined, unsupported};
use crate::eval::config::AnalysisConfig;
use crate::eval::error::{AccessSite, Detail, EvalError};
use crate::eval::fp8::decode_f64_bits;
use crate::eval::mbarrier::Mbarrier;
use crate::eval::memory::{Cells, MemAccessError};
use crate::eval::race::{MemHazard, RaceState};
use crate::eval::target::TargetFeatures;
use crate::eval::tensor_map_table::TensorMapFields;
use crate::eval::tensor_memory::{TensorMemError, TensorState};
use crate::eval::value::{MbarrierId, Value};
use crate::eval::wgmma_regs::WgmmaModel;
use crate::eval::{ThreadId, WARP_SIZE};
use crate::lowered::{InstrId, LoweredProgram, MemSpace, Operand};
use crate::symbolic::ExprId;
use crate::symbolic::arena::Exprs;
use crate::symbols::{RegId, SpecialRegKind};
use crate::tensor_core::MmaShape;
use crate::types::{RegClass, ScalarType};

verus! {

/// Execution statistics.
#[derive(Debug, Clone, Copy, PartialEq, Eq, Structural)]
pub struct Stats {
    /// Total instructions executed across all threads
    pub instructions: u64,
    /// `bar.sync` executions across all threads
    pub block_syncs: u64,
    /// Warp-level sync operations, counted once per fired group
    pub warp_syncs: u64,
}

impl Stats {
    pub fn zero() -> (r: Self)
        ensures
            r == (Stats { instructions: 0, block_syncs: 0, warp_syncs: 0 }),
    {
        Stats { instructions: 0, block_syncs: 0, warp_syncs: 0 }
    }
}

/// Scheduling status of one thread.
#[allow(inconsistent_fields)]
#[derive(Debug, Clone, Copy, PartialEq, Eq, Structural)]
pub enum Status {
    Ready,
    /// Blocked at `bar.sync id`
    AtBarrier { id: u32 },
    /// Blocked at a warp-cooperative instruction; `mask` holds the
    /// participating lanes of the thread's warp.
    AtWarpOp { mask: u32 },
    /// Blocked at a warpgroup-cooperative instruction, which always involves
    /// the whole warpgroup.
    AtWarpgroupOp,
    /// Blocked at an `mbarrier` wait. Any other thread's arrival can satisfy
    /// it, so threads blocked here are woken independently.
    AtMbarrier { id: MbarrierId, phase_parity: bool },
    Exited,
}

/// A contiguous validity region within one memory space.
#[derive(Debug, Clone, Copy, PartialEq, Eq, Structural)]
pub struct Region {
    pub base: u64,
    pub size: u64,
}

impl Region {
    /// The region ends within the address space.
    pub open spec fn wf(self) -> bool {
        self.base + self.size <= u64::MAX
    }

    pub open spec fn spec_contains(&self, addr: u64, width: u64) -> bool {
        self.base <= addr && addr + width <= self.base + self.size
    }

    /// Whether the whole access lies in the region. No sum is formed, so no
    /// address can wrap into it.
    #[verifier::when_used_as_spec(spec_contains)]
    pub fn contains(&self, addr: u64, width: u64) -> (r: bool)
        ensures
            r == self.spec_contains(addr, width),
    {
        width <= self.size && addr >= self.base && addr - self.base <= self.size - width
    }

    pub open spec fn spec_owns(&self, addr: u64) -> bool {
        self.base <= addr < self.base + self.size
    }

    /// Whether the byte lies in the region.
    #[verifier::when_used_as_spec(spec_owns)]
    pub fn owns(&self, addr: u64) -> (r: bool)
        ensures
            r == self.spec_owns(addr),
    {
        addr >= self.base && addr - self.base < self.size
    }
}

/// One `cp.async` copy issued but not yet completed: its value is captured
/// at issue, the write is deferred until its group is waited for.
#[derive(Debug)]
pub struct PendingCopy {
    pub dst_addr: u64,
    pub src_addr: u64,
    /// Slot width in bytes.
    pub cp_size: u64,
    /// Bytes of the source actually read.
    pub real_bytes: u64,
    /// One value per 4-byte word of the slot.
    pub words: Vec<Value>,
    /// The issuing instruction.
    pub pc: InstrId,
}

/// What a [`PendingCopy`] holds.
#[verifier::ext_equal]
pub struct CopyModel {
    pub dst_addr: u64,
    pub src_addr: u64,
    pub cp_size: u64,
    pub real_bytes: u64,
    pub words: Seq<Value>,
    pub pc: InstrId,
}

impl View for PendingCopy {
    type V = CopyModel;

    open spec fn view(&self) -> CopyModel {
        CopyModel {
            dst_addr: self.dst_addr,
            src_addr: self.src_addr,
            cp_size: self.cp_size,
            real_bytes: self.real_bytes,
            words: self.words@,
            pc: self.pc,
        }
    }
}

/// One thread.
#[verifier::ext_equal]
pub struct ThreadModel {
    pub pc: InstrId,
    pub regs: Map<RegId, Value>,
    pub status: Status,
    /// Copies issued since the last commit.
    pub uncommitted: Seq<CopyModel>,
    /// Committed copy groups, oldest first.
    pub groups: Seq<Seq<CopyModel>>,
    pub wgmma: WgmmaModel,
}

/// What stays the same during a run.
#[verifier::ext_equal]
pub struct Env {
    pub program: LoweredProgram,
    pub config: AnalysisConfig,
    pub n_threads: u32,
    /// The value of never-written registers.
    pub undefined: ExprId,
    pub params: Seq<Value>,
    pub global: Seq<Region>,
    pub shared: Seq<Region>,
    pub local: Seq<Region>,
    pub features: TargetFeatures,
}

/// The state of a run.
#[verifier::ext_equal]
pub struct Machine {
    pub exprs: Exprs,
    pub threads: Seq<ThreadModel>,
    pub global: Cells,
    pub shared: Cells,
    pub locals: Seq<Cells>,
    pub tensor: TensorState,
    pub race: RaceState,
    pub mbarriers: Seq<Mbarrier>,
    pub maps: Map<(MemSpace, u64), TensorMapFields>,
    pub stats: Stats,
    pub op_counts: Seq<u64>,
    pub env: Env,
}

/// The state after a step, and what the step returned.
pub type Out<T> = (Machine, Result<T, EvalError>);

/// A list as contracts speak of it.
pub open spec fn viewed<T>(r: Result<Vec<T>, EvalError>) -> Result<Seq<T>, EvalError> {
    match r {
        Ok(v) => Ok(v@),
        Err(e) => Err(e),
    }
}

// ---------------------------------------------------------------------------
// Errors
// ---------------------------------------------------------------------------

pub open spec fn spec_mem_error(
    t: ThreadId,
    pc: InstrId,
    space: MemSpace,
    e: MemAccessError,
) -> EvalError {
    match e {
        MemAccessError::Uninitialized { addr } => EvalError::UninitializedMemory {
            thread: t,
            pc,
            space,
            addr,
        },
        MemAccessError::Reinterpret { addr, width, found } => EvalError::Reinterpretation {
            thread: t,
            pc,
            space,
            addr,
            width,
            found,
        },
        MemAccessError::MbarrierOverwrite { addr } => EvalError::MbarrierOverwrite {
            thread: t,
            pc,
            space,
            addr,
        },
        MemAccessError::NoLiveMbarrier { addr } => EvalError::NoLiveMbarrier {
            thread: t,
            pc,
            space,
            addr,
        },
    }
}

/// A refused memory access, as the accessing thread reports it.
#[verifier::when_used_as_spec(spec_mem_error)]
pub fn mem_error(t: ThreadId, pc: InstrId, space: MemSpace, e: MemAccessError) -> (r: EvalError)
    ensures
        r == spec_mem_error(t, pc, space, e),
{
    match e {
        MemAccessError::Uninitialized { addr } => EvalError::UninitializedMemory {
            thread: t,
            pc,
            space,
            addr,
        },
        MemAccessError::Reinterpret { addr, width, found } => EvalError::Reinterpretation {
            thread: t,
            pc,
            space,
            addr,
            width,
            found,
        },
        MemAccessError::MbarrierOverwrite { addr } => EvalError::MbarrierOverwrite {
            thread: t,
            pc,
            space,
            addr,
        },
        MemAccessError::NoLiveMbarrier { addr } => EvalError::NoLiveMbarrier {
            thread: t,
            pc,
            space,
            addr,
        },
    }
}

pub open spec fn spec_mem_hazard_error(h: MemHazard) -> EvalError {
    match h {
        MemHazard::Race(i) => EvalError::DataRace {
            space: i.space,
            addr: i.addr,
            prior: i.prior,
            current: i.current,
        },
        MemHazard::AsyncCopy(i) => EvalError::AsyncCopyHazard {
            space: i.space,
            addr: i.addr,
            prior: i.prior,
            current: i.current,
        },
        MemHazard::AsyncProxyUnfenced(i) => EvalError::AsyncProxyFenceHazard {
            space: i.space,
            addr: i.addr,
            prior: i.prior,
            current: i.current,
        },
        MemHazard::GenericProxyUnfenced(i) => EvalError::GenericProxyFenceHazard {
            space: i.space,
            addr: i.addr,
            prior: i.prior,
            current: i.current,
        },
    }
}

/// A memory hazard as an error.
#[verifier::when_used_as_spec(spec_mem_hazard_error)]
pub fn mem_hazard_error(h: MemHazard) -> (r: EvalError)
    ensures
        r == spec_mem_hazard_error(h),
{
    match h {
        MemHazard::Race(i) => EvalError::DataRace {
            space: i.space,
            addr: i.addr,
            prior: i.prior,
            current: i.current,
        },
        MemHazard::AsyncCopy(i) => EvalError::AsyncCopyHazard {
            space: i.space,
            addr: i.addr,
            prior: i.prior,
            current: i.current,
        },
        MemHazard::AsyncProxyUnfenced(i) => EvalError::AsyncProxyFenceHazard {
            space: i.space,
            addr: i.addr,
            prior: i.prior,
            current: i.current,
        },
        MemHazard::GenericProxyUnfenced(i) => EvalError::GenericProxyFenceHazard {
            space: i.space,
            addr: i.addr,
            prior: i.prior,
            current: i.current,
        },
    }
}

pub open spec fn spec_tcgen05_error(t: ThreadId, pc: InstrId, e: TensorMemError) -> EvalError {
    match e {
        TensorMemError::InvalidColumnCount { num_cols } => EvalError::Tcgen05InvalidColumnCount {
            thread: t,
            pc,
            num_cols,
        },
        TensorMemError::OutOfSpace { requested, available } => EvalError::Tcgen05OutOfSpace {
            thread: t,
            pc,
            requested,
            available,
        },
        TensorMemError::AllocAfterRelinquish => EvalError::Tcgen05AllocAfterRelinquish {
            thread: t,
            pc,
        },
        TensorMemError::DeallocMismatch { taddr, num_cols } => EvalError::Tcgen05DeallocMismatch {
            thread: t,
            pc,
            taddr,
            num_cols,
        },
        TensorMemError::NotAllocated { lane, col } => EvalError::Tcgen05NotAllocated {
            thread: t,
            pc,
            lane,
            col,
        },
    }
}

/// A Tensor Memory failure as an error.
#[verifier::when_used_as_spec(spec_tcgen05_error)]
pub fn tcgen05_error(t: ThreadId, pc: InstrId, e: TensorMemError) -> (r: EvalError)
    ensures
        r == spec_tcgen05_error(t, pc, e),
{
    match e {
        TensorMemError::InvalidColumnCount { num_cols } => EvalError::Tcgen05InvalidColumnCount {
            thread: t,
            pc,
            num_cols,
        },
        TensorMemError::OutOfSpace { requested, available } => EvalError::Tcgen05OutOfSpace {
            thread: t,
            pc,
            requested,
            available,
        },
        TensorMemError::AllocAfterRelinquish => EvalError::Tcgen05AllocAfterRelinquish {
            thread: t,
            pc,
        },
        TensorMemError::DeallocMismatch { taddr, num_cols } => EvalError::Tcgen05DeallocMismatch {
            thread: t,
            pc,
            taddr,
            num_cols,
        },
        TensorMemError::NotAllocated { lane, col } => EvalError::Tcgen05NotAllocated {
            thread: t,
            pc,
            lane,
            col,
        },
    }
}

// ---------------------------------------------------------------------------
// Regions
// ---------------------------------------------------------------------------

/// The first region from `i` on that owns the byte.
pub open spec fn first_owner(regions: Seq<Region>, addr: u64, i: int) -> Option<Region>
    decreases regions.len() - i,
{
    if i >= regions.len() {
        None
    } else if regions[i].owns(addr) {
        Some(regions[i])
    } else {
        first_owner(regions, addr, i + 1)
    }
}

/// Whether the region that owns the first byte contains the whole access.
pub open spec fn in_region(regions: Seq<Region>, addr: u64, width: u64) -> bool {
    match first_owner(regions, addr, 0) {
        Some(r) => r.contains(addr, width),
        None => false,
    }
}

pub open spec fn all_wf(regions: Seq<Region>) -> bool {
    forall|i: int| 0 <= i < regions.len() ==> (#[trigger] regions[i]).wf()
}

/// Looks for the region that owns the first byte of an access.
pub fn find_region(regions: &Vec<Region>, addr: u64, width: u64) -> (r: bool)
    ensures
        r == in_region(regions@, addr, width),
{
    let mut i: usize = 0;
    while i < regions.len()
        invariant
            i <= regions@.len(),
            first_owner(regions@, addr, 0) == first_owner(regions@, addr, i as int),
        decreases regions@.len() - i,
    {
        if regions[i].owns(addr) {
            return regions[i].contains(addr, width);
        }
        i = i + 1;
    }
    false
}

pub open spec fn spec_is_multiple(addr: u64, required: u64) -> bool {
    if required == 0 {
        addr == 0
    } else {
        addr % required == 0
    }
}

/// Whether an address is a multiple of an alignment; of zero, only zero is.
#[verifier::when_used_as_spec(spec_is_multiple)]
pub fn is_multiple(addr: u64, required: u64) -> (r: bool)
    ensures
        r == spec_is_multiple(addr, required),
{
    if required == 0 {
        addr == 0
    } else {
        addr % required == 0
    }
}

/// Region checks never overflow: an access that one admits ends within the
/// address space, whatever address it came from.
pub proof fn checked_accesses_do_not_wrap(regions: Seq<Region>, addr: u64, width: u64, i: int)
    requires
        all_wf(regions),
        0 <= i,
    ensures
        first_owner(regions, addr, i) matches Some(r) && r.contains(addr, width) ==> addr + width
            <= u64::MAX,
    decreases regions.len() - i,
{
    if i < regions.len() && !regions[i].owns(addr) {
        checked_accesses_do_not_wrap(regions, addr, width, i + 1);
    }
}

// ---------------------------------------------------------------------------
// Registers and operands
// ---------------------------------------------------------------------------

pub open spec fn spec_kind_mismatch(t: ThreadId, pc: InstrId, what: &'static str) -> EvalError {
    EvalError::ValueKindMismatch { thread: t, pc, what }
}

/// An operand of the wrong kind.
#[verifier::when_used_as_spec(spec_kind_mismatch)]
pub fn kind_mismatch(t: ThreadId, pc: InstrId, what: &'static str) -> (r: EvalError)
    ensures
        r == spec_kind_mismatch(t, pc, what),
{
    EvalError::ValueKindMismatch { thread: t, pc, what }
}

impl Machine {
    pub open spec fn with_exprs(self, exprs: Exprs) -> Machine {
        Machine { exprs, ..self }
    }

    /// What the scheduler goes by: the instructions executed so far and the
    /// status of every thread.
    pub open spec fn pace(self) -> (u64, Seq<Status>) {
        (self.stats.instructions, self.threads.map_values(|t: ThreadModel| t.status))
    }

    /// A step of the expression arena as a step of the machine.
    pub open spec fn lift<T>(self, step: Step<T>) -> Out<T> {
        (self.with_exprs(step.0), step.1)
    }

    pub open spec fn thread(self, t: ThreadId) -> ThreadModel {
        self.threads[t.0 as int]
    }

    pub open spec fn with_thread(self, t: ThreadId, model: ThreadModel) -> Machine {
        Machine { threads: self.threads.update(t.0 as int, model), ..self }
    }

    pub open spec fn with_pc(self, t: ThreadId, pc: InstrId) -> Machine {
        self.with_thread(t, ThreadModel { pc, ..self.thread(t) })
    }

    pub open spec fn with_status(self, t: ThreadId, status: Status) -> Machine {
        self.with_thread(t, ThreadModel { status, ..self.thread(t) })
    }

    /// A register value without any hazard check; a never-written register is
    /// undefined.
    pub open spec fn reg_value(self, t: ThreadId, reg: RegId) -> Value {
        if self.thread(t).regs.contains_key(reg) {
            self.thread(t).regs[reg]
        } else {
            Value::Scalar(self.env.undefined)
        }
    }

    /// The hazard of touching a register whose accumulator writeback is
    /// unreleased.
    pub open spec fn pending_hazard(
        self,
        t: ThreadId,
        pc: InstrId,
        reg: RegId,
    ) -> Option<EvalError> {
        match self.thread(t).wgmma.pending_since(reg) {
            Some(p) => Some(
                EvalError::WgmmaWaitGroupHazard {
                    thread: t,
                    pc,
                    reg,
                    prior_write: AccessSite { thread: t, pc: p, is_write: true },
                },
            ),
            None => None,
        }
    }

    /// A register read.
    pub open spec fn read_reg(self, t: ThreadId, pc: InstrId, reg: RegId) -> Result<
        Value,
        EvalError,
    > {
        match self.pending_hazard(t, pc, reg) {
            Some(e) => Err(e),
            None => Ok(self.reg_value(t, reg)),
        }
    }

    /// A register write.
    pub open spec fn write_reg(self, t: ThreadId, pc: InstrId, reg: RegId, v: Value) -> Out<()> {
        match self.pending_hazard(t, pc, reg) {
            Some(e) => (self, Err(e)),
            None => (
                self.with_thread(
                    t,
                    ThreadModel {
                        regs: self.thread(t).regs.insert(reg, v),
                        wgmma: self.thread(t).wgmma.after_write(reg, pc),
                        ..self.thread(t)
                    },
                ),
                Ok(()),
            ),
        }
    }

    /// The hazard of an accumulator access that no fence orders.
    pub open spec fn fence_hazard(
        self,
        t: ThreadId,
        pc: InstrId,
        reg: RegId,
        shape: MmaShape,
    ) -> Option<EvalError> {
        let w = self.thread(t).wgmma;
        if w.is_fenced_for(reg, shape) {
            None
        } else {
            Some(
                EvalError::WgmmaFenceHazard {
                    thread: t,
                    pc,
                    reg,
                    shape,
                    prior_write: match w.last_write_pc(reg) {
                        Some(p) => Some(AccessSite { thread: t, pc: p, is_write: true }),
                        None => None,
                    },
                },
            )
        }
    }

    /// An accumulator read, exempt from the release rule.
    pub open spec fn read_accum(
        self,
        t: ThreadId,
        pc: InstrId,
        reg: RegId,
        shape: MmaShape,
    ) -> Result<
        Value,
        EvalError,
    > {
        match self.fence_hazard(t, pc, reg, shape) {
            Some(e) => Err(e),
            None => Ok(self.reg_value(t, reg)),
        }
    }

    /// An accumulator writeback, exempt from the release rule.
    pub open spec fn write_accum(
        self,
        t: ThreadId,
        pc: InstrId,
        reg: RegId,
        shape: MmaShape,
        v: Value,
    ) -> Out<()> {
        match self.fence_hazard(t, pc, reg, shape) {
            Some(e) => (self, Err(e)),
            None => (
                self.with_thread(
                    t,
                    ThreadModel {
                        regs: self.thread(t).regs.insert(reg, v),
                        wgmma: self.thread(t).wgmma.after_wgmma_write(reg, shape, pc),
                        ..self.thread(t)
                    },
                ),
                Ok(()),
            ),
        }
    }

    /// The value of a special register. The block under analysis is block
    /// (0, 0, 0).
    pub open spec fn special_reg(self, t: ThreadId, kind: SpecialRegKind) -> Option<i64> {
        let (bx, by, bz) = self.env.config.block_dim;
        let (gx, gy, gz) = self.env.config.grid_dim;
        match kind {
            SpecialRegKind::TidX => Some((t.0 as int % bx as int) as i64),
            SpecialRegKind::TidY => Some(((t.0 as int / bx as int) % by as int) as i64),
            SpecialRegKind::TidZ => Some((t.0 as int / (bx * by)) as i64),
            SpecialRegKind::NtidX => Some(bx as i64),
            SpecialRegKind::NtidY => Some(by as i64),
            SpecialRegKind::NtidZ => Some(bz as i64),
            SpecialRegKind::CtaidX | SpecialRegKind::CtaidY | SpecialRegKind::CtaidZ => Some(0),
            SpecialRegKind::NctaidX => Some(gx as i64),
            SpecialRegKind::NctaidY => Some(gy as i64),
            SpecialRegKind::NctaidZ => Some(gz as i64),
            SpecialRegKind::LaneId => Some((t.0 % WARP_SIZE) as i64),
            SpecialRegKind::WarpId => Some((t.0 / WARP_SIZE) as i64),
            SpecialRegKind::NWarpId => Some(
                ((self.env.n_threads + WARP_SIZE - 1) / (WARP_SIZE as int)) as i64,
            ),
            SpecialRegKind::DynamicSmemSize => Some(self.env.config.dynamic_shared_bytes as i64),
            _ => None,
        }
    }

    /// An operand as a value.
    pub open spec fn operand_value(self, t: ThreadId, pc: InstrId, op: Operand) -> Out<Value> {
        match op {
            Operand::Reg(reg) => (self, self.read_reg(t, pc, reg)),
            Operand::SpecialReg(kind) => match self.special_reg(t, kind) {
                Some(v) => self.constant(self.exprs.int_const(v)),
                None => (
                    self,
                    Err(EvalError::Unsupported { pc, what: Detail::SpecialRegister { kind } }),
                ),
            },
            Operand::ImmI64(v) => self.constant(self.exprs.int_const(v)),
            Operand::ImmU64(v) => self.constant(self.exprs.int_const(v as i64)),
            Operand::ImmF64(bits) => match decode_f64_bits(bits) {
                Some(f) => self.constant(self.exprs.float(f)),
                None => (self, Err(unsupported(pc, "float immediate: NaN"))),
            },
        }
    }

    /// A freshly entered expression as a scalar.
    pub open spec fn constant(self, x: (Exprs, ExprId)) -> Out<Value> {
        (self.with_exprs(x.0), Ok(Value::Scalar(x.1)))
    }

    /// Bits of each half of a pair that an operand's register can hold as one
    /// integer.
    pub open spec fn half_bits(op: Operand) -> Option<u32> {
        match op {
            Operand::Reg(reg) => match reg.class {
                RegClass::Bits64 => Some(32u32),
                RegClass::Bits32 => Some(16u32),
                _ => None,
            },
            _ => None,
        }
    }

    /// An operand that must be a scalar. A pair of concrete integer halves
    /// reads as the integer they make up.
    pub open spec fn scalar_operand(self, t: ThreadId, pc: InstrId, op: Operand) -> Out<ExprId> {
        match self.operand_value(t, pc, op) {
            (m, Err(e)) => (m, Err(e)),
            (m, Ok(v)) => match v {
                Value::Scalar(e) => (m, Ok(e)),
                Value::Pair(lo, hi) => match (
                    Machine::half_bits(op),
                    m.exprs.as_int(lo),
                    m.exprs.as_int(hi),
                ) {
                    (Some(w), Some(l), Some(h)) => {
                        let (s, e) = m.exprs.int_const(recombined(l, h, w as nat));
                        (m.with_exprs(s), Ok(e))
                    },
                    _ => (m, Err(kind_mismatch(t, pc, "packed pair used as a scalar"))),
                },
                Value::Quad(_, _, _, _) => (
                    m,
                    Err(kind_mismatch(t, pc, "packed byte-quad used as a scalar")),
                ),
                Value::Mbarrier(_) => (
                    m,
                    Err(kind_mismatch(t, pc, "mbarrier handle used as a scalar")),
                ),
            },
        }
    }

    /// An operand that must be a packed pair of the given lanes. A concrete
    /// scalar is a bit pattern, decoded lane by lane.
    pub open spec fn pair_operand(
        self,
        t: ThreadId,
        pc: InstrId,
        op: Operand,
        lane_ty: ScalarType,
    ) -> Out<
        (ExprId, ExprId),
    > {
        match self.operand_value(t, pc, op) {
            (m, Err(e)) => (m, Err(e)),
            (m, Ok(v)) => match v {
                Value::Pair(lo, hi) => (m, Ok((lo, hi))),
                Value::Scalar(e) => match m.exprs.as_int(e) {
                    None => (
                        m,
                        Err(kind_mismatch(t, pc, "symbolic scalar used as a packed pair")),
                    ),
                    Some(c) => match crate::eval::arith::decode_packed_bits(c as u64, lane_ty) {
                        None => (m, Err(unsupported(pc, "NaN half in a packed-pair bit pattern"))),
                        Some((x, y)) => {
                            let (s1, lo) = m.exprs.float(x);
                            let (s2, hi) = s1.float(y);
                            (m.with_exprs(s2), Ok((lo, hi)))
                        },
                    },
                },
                Value::Quad(_, _, _, _) => (
                    m,
                    Err(kind_mismatch(t, pc, "packed byte-quad used as a packed pair")),
                ),
                Value::Mbarrier(_) => (
                    m,
                    Err(kind_mismatch(t, pc, "mbarrier handle used as a packed pair")),
                ),
            },
        }
    }

    /// An operand that must be a concrete integer.
    pub open spec fn concrete_operand(
        self,
        t: ThreadId,
        pc: InstrId,
        op: Operand,
        what: &'static str,
    ) -> Out<i64> {
        match self.scalar_operand(t, pc, op) {
            (m, Err(e)) => (m, Err(e)),
            (m, Ok(e)) => match m.exprs.as_int(e) {
                Some(c) => (m, Ok(c)),
                None => (m, Err(EvalError::NotConcrete { thread: t, pc, what })),
            },
        }
    }

    /// An operand that must be a concrete integer of at least zero.
    pub open spec fn non_negative_operand(
        self,
        t: ThreadId,
        pc: InstrId,
        op: Operand,
        what: &'static str,
    ) -> Out<u64> {
        match self.concrete_operand(t, pc, op, what) {
            (m, Err(e)) => (m, Err(e)),
            (m, Ok(v)) => if v < 0 {
                (
                    m,
                    Err(
                        EvalError::Unsupported { pc, what: Detail::Negative { what, value: v } },
                    ),
                )
            } else {
                (m, Ok(v as u64))
            },
        }
    }

    /// A value that must be a concrete truth value.
    pub open spec fn concrete_bool(
        self,
        t: ThreadId,
        pc: InstrId,
        v: Value,
        what: &'static str,
    ) -> Result<bool, EvalError> {
        match v {
            Value::Scalar(e) => match self.exprs.as_bool(e) {
                Some(b) => Ok(b),
                None => Err(EvalError::NotConcrete { thread: t, pc, what }),
            },
            _ => Err(kind_mismatch(t, pc, "packed pair used as a predicate")),
        }
    }

    /// The address `base + offset`, modulo `2^64`.
    pub open spec fn effective_addr(
        self,
        t: ThreadId,
        pc: InstrId,
        base: Operand,
        offset: i64,
    ) -> Out<
        u64,
    > {
        match self.concrete_operand(t, pc, base, "memory address") {
            (m, Err(e)) => (m, Err(e)),
            (m, Ok(b)) => (m, Ok((b as u64).wrapping_add(offset as u64))),
        }
    }
}

} // verus!
