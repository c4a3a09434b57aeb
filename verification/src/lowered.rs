//! Lowered PTX instructions.
//!
//! The instruction set that results from lowering a kernel: resolved register
//! references, resolved branch targets, and unified instruction formats.

use vstd::prelude::*;
use vstd::string::*;
use id_collections::IdVec;

use crate::symbols::{ParamId, RegId, SpecialRegKind, SymbolTable};
use crate::tensor_core::{MmaLayout, MmaOperand, MmaShape};
use crate::tensor_map::TensormapFieldWrite;
use crate::text::{dec_text, push_dec};
use crate::types::{ClampWrapMode, RegCounts, ScalarType, ShiftDir};

verus! {

/// Instruction index (program counter).
#[derive(Debug, Clone, Copy, PartialEq, Eq, Structural, Hash)]
pub struct InstrId(pub u32);

/// A resolved operand - either a register, immediate, or special register
#[derive(Debug, Clone, Copy, PartialEq, Eq, Structural)]
pub enum Operand {
    /// A general-purpose register
    Reg(RegId),
    /// A special register (resolved at runtime based on thread ID)
    SpecialReg(SpecialRegKind),
    /// Immediate signed integer
    ImmI64(i64),
    /// Immediate unsigned integer
    ImmU64(u64),
    /// Immediate float, as the bits of an IEEE double
    ImmF64(u64),
}

impl Operand {
    pub open spec fn spec_is_register(&self) -> bool {
        self is Reg || self is SpecialReg
    }

    /// Check if this is a register (general or special)
    #[verifier::when_used_as_spec(spec_is_register)]
    pub fn is_register(&self) -> (r: bool)
        ensures
            r == self.spec_is_register(),
    {
        match self {
            Operand::Reg(_) | Operand::SpecialReg(_) => true,
            _ => false,
        }
    }

    pub open spec fn spec_is_immediate(&self) -> bool {
        self is ImmI64 || self is ImmU64 || self is ImmF64
    }

    /// Check if this is an immediate
    #[verifier::when_used_as_spec(spec_is_immediate)]
    pub fn is_immediate(&self) -> (r: bool)
        ensures
            r == self.spec_is_immediate(),
    {
        match self {
            Operand::ImmI64(_) | Operand::ImmU64(_) | Operand::ImmF64(_) => true,
            _ => false,
        }
    }

    pub open spec fn spec_as_reg(&self) -> Option<RegId> {
        match self {
            Operand::Reg(r) => Some(*r),
            _ => None,
        }
    }

    /// Extract the RegId if this is a general-purpose register operand.
    #[verifier::when_used_as_spec(spec_as_reg)]
    pub fn as_reg(&self) -> (r: Option<RegId>)
        ensures
            r == self.spec_as_reg(),
    {
        match self {
            Operand::Reg(r) => Some(*r),
            _ => None,
        }
    }
}

/// The optional third data operand of `cp.async`.
#[derive(Debug, Clone, Copy)]
pub enum CpAsyncSrcSize {
    /// Neither `src-size` nor `ignore-src` given: all `cp_size` bytes are copied.
    Full,
    /// The `src-size` operand: this many bytes (must be <= `cp_size`) are
    /// copied, the rest of the destination is zero-filled.
    Sized(Operand),
    /// The `ignore-src` predicate operand: if true at runtime, the
    /// destination is entirely zero-filled; if false, behaves as `Full`.
    IgnoreSrc(Operand),
}

/// A predicate guard for an instruction
#[derive(Debug, Clone, Copy, PartialEq, Eq, Structural)]
pub struct Predicate {
    pub reg: RegId,
    pub negated: bool,
}

/// Comparison operators for setp/set
#[derive(Debug, Clone, Copy, PartialEq, Eq, Structural)]
pub enum CmpOp {
    // Ordered comparisons (for integers or floats, return false if NaN)
    Eq,
    Ne,
    Lt,
    Le,
    Gt,
    Ge,
    // Unsigned integer comparisons
    Lo,
    Ls,
    Hi,
    Hs,
    // Unordered float comparisons (return true if NaN)
    Equ,
    Neu,
    Ltu,
    Leu,
    Gtu,
    Geu,
    // NaN checks
    Num, // Both operands are numbers (not NaN)
    Nan, // Either operand is NaN
}

/// Binary arithmetic/logic operations
#[derive(Debug, Clone, Copy, PartialEq, Eq, Structural)]
pub enum BinOp {
    // Arithmetic
    Add,
    Sub,
    Mul,
    Div,
    Rem,
    // Bitwise
    And,
    Or,
    Xor,
    // Shifts
    Shl,
    Shr,
    // Min/Max
    Min,
    Max,
}

impl BinOp {
    pub open spec fn spec_as_str(&self) -> &'static str {
        match self {
            BinOp::Add => "add",
            BinOp::Sub => "sub",
            BinOp::Mul => "mul",
            BinOp::Div => "div",
            BinOp::Rem => "rem",
            BinOp::And => "and",
            BinOp::Or => "or",
            BinOp::Xor => "xor",
            BinOp::Shl => "shl",
            BinOp::Shr => "shr",
            BinOp::Min => "min",
            BinOp::Max => "max",
        }
    }

    /// The operation's mnemonic.
    #[verifier::when_used_as_spec(spec_as_str)]
    pub fn as_str(&self) -> (r: &'static str)
        ensures
            r == self.spec_as_str(),
    {
        match self {
            BinOp::Add => "add",
            BinOp::Sub => "sub",
            BinOp::Mul => "mul",
            BinOp::Div => "div",
            BinOp::Rem => "rem",
            BinOp::And => "and",
            BinOp::Or => "or",
            BinOp::Xor => "xor",
            BinOp::Shl => "shl",
            BinOp::Shr => "shr",
            BinOp::Min => "min",
            BinOp::Max => "max",
        }
    }
}

/// Unary operations
#[derive(Debug, Clone, Copy, PartialEq, Eq, Structural)]
pub enum UnaryOp {
    // Arithmetic
    Neg,
    Abs,
    // Bitwise
    Not,
    // Floating-point
    Rcp,
    Sqrt,
    Rsqrt,
    // Transcendental
    Ex2,
    Lg2,
    Sin,
    Cos,
    /// Natural exponential e^x
    Exp,
    /// Hyperbolic tangent
    Tanh,
}

impl UnaryOp {
    pub open spec fn spec_as_str(&self) -> &'static str {
        match self {
            UnaryOp::Neg => "neg",
            UnaryOp::Abs => "abs",
            UnaryOp::Not => "not",
            UnaryOp::Rcp => "rcp",
            UnaryOp::Sqrt => "sqrt",
            UnaryOp::Rsqrt => "rsqrt",
            UnaryOp::Ex2 => "ex2",
            UnaryOp::Lg2 => "lg2",
            UnaryOp::Sin => "sin",
            UnaryOp::Cos => "cos",
            UnaryOp::Exp => "exp",
            UnaryOp::Tanh => "tanh",
        }
    }

    /// The operation's mnemonic.
    #[verifier::when_used_as_spec(spec_as_str)]
    pub fn as_str(&self) -> (r: &'static str)
        ensures
            r == self.spec_as_str(),
    {
        match self {
            UnaryOp::Neg => "neg",
            UnaryOp::Abs => "abs",
            UnaryOp::Not => "not",
            UnaryOp::Rcp => "rcp",
            UnaryOp::Sqrt => "sqrt",
            UnaryOp::Rsqrt => "rsqrt",
            UnaryOp::Ex2 => "ex2",
            UnaryOp::Lg2 => "lg2",
            UnaryOp::Sin => "sin",
            UnaryOp::Cos => "cos",
            UnaryOp::Exp => "exp",
            UnaryOp::Tanh => "tanh",
        }
    }
}

/// Memory space
#[derive(Debug, Clone, Copy, PartialEq, Eq, Structural, Hash)]
pub enum MemSpace {
    Global,
    Shared,
    Local,
    Param,
    Const,
}

/// `tcgen05.mma`'s `.kind` qualifier: selects the operand element types and the
/// fixed `K` of one operation.
#[derive(Debug, Clone, Copy, PartialEq, Eq, Structural)]
pub enum Tcgen05MmaKind {
    /// `.kind::f16`: f16/bf16 operands, `K = 16`.
    F16,
    /// `.kind::f8f6f4`: 8/6/4-bit float operands, `K = 32`.
    F8f6f4,
}

/// Shuffle mode for warp shuffle operations
#[derive(Debug, Clone, Copy, PartialEq, Eq, Structural)]
pub enum ShflMode {
    Up,
    Down,
    Bfly,
    Idx,
}

/// Integer multiply mode (hi/lo for wide multiply)
#[derive(Debug, Clone, Copy, PartialEq, Eq, Structural)]
pub enum MulMode {
    Lo,
    Hi,
    Wide,
}

/// Float value clamp applied to an instruction's result.
#[derive(Debug, Clone, Copy, PartialEq, Eq, Structural)]
pub enum Clamp {
    /// `.sat`: clamp the result to [0.0, 1.0].
    Sat,
    /// `.relu`: clamp the result to [0.0, +inf).
    Relu,
}

/// A lowered instruction, fully resolved.
#[allow(inconsistent_fields)]
#[derive(Debug)]
pub enum LoweredInstr {
    /// Load from parameter space.
    LoadParam { dst: RegId, param_id: ParamId },
    /// Load from memory: `dst = mem[base + offset]`.
    Load {
        dst: RegId,
        space: MemSpace,
        base: Operand,
        offset: i64,
        ty: ScalarType,
    },
    /// Vector load: `dst[0..n] = mem[base + offset]`.
    LoadVec {
        dst: Vec<RegId>,
        space: MemSpace,
        base: Operand,
        offset: i64,
        ty: ScalarType,
    },
    /// Store to memory: `mem[base + offset] = src`.
    Store {
        space: MemSpace,
        base: Operand,
        offset: i64,
        src: Operand,
        ty: ScalarType,
    },
    /// Vector store; each source element may be any operand.
    StoreVec {
        space: MemSpace,
        base: Operand,
        offset: i64,
        src: Vec<Operand>,
        ty: ScalarType,
    },
    /// Asynchronous copy of `cp_size` (4, 8 or 16) bytes from global to
    /// shared memory.
    CpAsync {
        dst_base: Operand,
        dst_offset: i64,
        src_base: Operand,
        src_offset: i64,
        cp_size: u32,
        src_size: CpAsyncSrcSize,
    },
    /// `dst = src`.
    Mov {
        dst: RegId,
        src: Operand,
        ty: ScalarType,
    },
    /// Convert an address to or from the generic space.
    Cvta {
        dst: RegId,
        src: Operand,
        space: MemSpace,
    },
    /// Byte permutation `prmt.b32 d, a, b, selector`.
    Prmt {
        dst: RegId,
        src_a: Operand,
        src_b: Operand,
        selector: Operand,
    },
    /// Three-input logical operation `lop3.b32 d, a, b, c, lut`.
    Lop3 {
        dst: RegId,
        src_a: Operand,
        src_b: Operand,
        src_c: Operand,
        lut: Operand,
    },
    /// Binary operation; the clamp is for float forms only.
    BinOp {
        op: BinOp,
        dst: RegId,
        src_a: Operand,
        src_b: Operand,
        ty: ScalarType,
        clamp: Option<Clamp>,
    },
    /// Unary operation.
    UnaryOp {
        op: UnaryOp,
        dst: RegId,
        src: Operand,
        ty: ScalarType,
    },
    /// `|magnitude_src|` with the sign of `sign_src`.
    Copysign {
        dst: RegId,
        sign_src: Operand,
        magnitude_src: Operand,
        ty: ScalarType,
    },
    /// Fused multiply-add: `dst = src_a * src_b + src_c`.
    Fma {
        dst: RegId,
        src_a: Operand,
        src_b: Operand,
        src_c: Operand,
        ty: ScalarType,
        clamp: Option<Clamp>,
    },
    /// Integer multiply-add.
    Mad {
        dst: RegId,
        src_a: Operand,
        src_b: Operand,
        src_c: Operand,
        ty: ScalarType,
        mode: MulMode,
    },
    /// Product of twice the source width.
    MulWide {
        dst: RegId,
        src_a: Operand,
        src_b: Operand,
        src_ty: ScalarType,
    },
    /// High half of the product: `(src_a * src_b) >> bits(ty)`.
    MulHi {
        dst: RegId,
        src_a: Operand,
        src_b: Operand,
        ty: ScalarType,
    },
    /// Bit field insert: bits of `src_a` into `src_b` at `start`, `len` of
    /// them.
    Bfi {
        dst: RegId,
        src_a: Operand,
        src_b: Operand,
        start: Operand,
        len: Operand,
        ty: ScalarType,
    },
    /// Bit field extract: bits `[start, start + len)` of `src_a`, extended
    /// per `ty`.
    Bfe {
        dst: RegId,
        src_a: Operand,
        start: Operand,
        len: Operand,
        ty: ScalarType,
    },
    /// Set predicate from a comparison.
    Setp {
        cmp: CmpOp,
        dst: RegId,
        src_a: Operand,
        src_b: Operand,
        ty: ScalarType,
    },
    /// `dst = pred ? src_a : src_b`.
    Selp {
        dst: RegId,
        src_a: Operand,
        src_b: Operand,
        pred: Operand,
        ty: ScalarType,
    },
    /// `dst = comparison ? 1 : 0`.
    SetVal {
        cmp: CmpOp,
        dst: RegId,
        src_a: Operand,
        src_b: Operand,
        src_ty: ScalarType,
        dst_ty: ScalarType,
    },
    /// Type conversion; the clamp is for float-to-float conversions only.
    Cvt {
        dst: RegId,
        src: Operand,
        dst_ty: ScalarType,
        src_ty: ScalarType,
        clamp: Option<Clamp>,
    },
    /// Unpack two packed `.e4m3` bytes into an `.f16x2` pair.
    CvtE4m3x2ToF16x2 {
        dst: RegId,
        src: Operand,
        relu: bool,
    },
    /// Two-source packed-half convert; `dst_half_ty` is the type of each
    /// lane.
    CvtPackHalves {
        dst: RegId,
        src_hi: Operand,
        src_lo: Operand,
        dst_half_ty: ScalarType,
        src_ty: ScalarType,
    },
    /// `mov.bN {lo, hi}, src`; a `None` half is discarded.
    UnpackHalves {
        lo: Option<RegId>,
        hi: Option<RegId>,
        src: Operand,
        ty: ScalarType,
    },
    /// `mov.bN dst, {lo, hi}`.
    PackHalves {
        dst: RegId,
        lo: Operand,
        hi: Operand,
    },
    /// `mov.b128 dst, {e0, e1, e2, e3}`; lane 0 is the least significant.
    PackQuad {
        dst: RegId,
        elems: [Operand; 4],
    },
    /// `mov.b128 {e0, e1, e2, e3}, src`; a `None` lane is discarded.
    UnpackQuad {
        elems: [Option<RegId>; 4],
        src: Operand,
    },
    /// Funnel shift of the 64-bit value `hi:lo`.
    Shf {
        dst: RegId,
        lo: Operand,
        hi: Operand,
        shift: Operand,
        dir: ShiftDir,
        mode: ClampWrapMode,
    },
    /// Branch.
    Bra { target: InstrId },
    /// Return.
    Ret,
    /// Exit the thread.
    Exit,
    /// CTA barrier.
    BarSync { barrier_id: u32 },
    /// Warp barrier.
    BarWarpSync { mask: Operand },
    /// Memory fence.
    Membar { scope: MembarScope },
    /// Ordering fence without a data effect.
    Fence,
    /// `fence.proxy.async`, restricted to one space if given.
    FenceProxyAsync { restrict: Option<MemSpace> },
    /// Seal the uncommitted copies of the thread into a group.
    CpAsyncCommitGroup,
    /// Wait until at most `n` groups of the thread are pending.
    CpAsyncWaitGroup { n: u32 },
    /// Warp shuffle.
    Shfl {
        mode: ShflMode,
        dst: RegId,
        dst_pred: Option<RegId>,
        src: Operand,
        offset_or_lane: Operand,
        clamp: Operand,
    },
    /// Warp shuffle with a member mask.
    ShflSync {
        mode: ShflMode,
        dst: RegId,
        dst_pred: Option<RegId>,
        src: Operand,
        offset_or_lane: Operand,
        clamp: Operand,
        membermask: Operand,
    },
    /// Elect the lowest live lane of the mask as leader.
    ElectSync {
        dst: Option<RegId>,
        dst_pred: RegId,
        membermask: Operand,
    },
    /// Warp-wide reduction, broadcast to every live lane of the mask.
    ReduxSync {
        op: BinOp,
        ty: ScalarType,
        dst: RegId,
        src: Operand,
        membermask: Operand,
    },
    /// Warp-wide real maximum, written as a packed pair of itself.
    ReduxSyncBroadcastMax {
        dst: RegId,
        src: Operand,
        membermask: Operand,
    },
    /// Cooperative load of `num` 8x8 matrices from shared memory.
    Ldmatrix {
        dst: Vec<RegId>,
        addr: Operand,
        addr_offset: i64,
        num: u32,
        trans: bool,
    },
    /// `mma.sync`; the accumulator may be any operand.
    Mma {
        shape: MmaShape,
        dst: Vec<RegId>,
        src_a: Vec<RegId>,
        src_b: Vec<RegId>,
        src_c: Vec<Operand>,
        a_layout: MmaLayout,
        b_layout: MmaLayout,
        a_type: ScalarType,
        b_type: ScalarType,
        d_type: ScalarType,
        c_type: ScalarType,
    },
    /// `wmma.load`.
    WmmaLoad {
        operand: MmaOperand,
        shape: MmaShape,
        layout: MmaLayout,
        dst: Vec<RegId>,
        addr: Operand,
        addr_offset: i64,
        stride: Operand,
        elem_type: ScalarType,
        space: MemSpace,
    },
    /// `wmma.store`.
    WmmaStore {
        shape: MmaShape,
        layout: MmaLayout,
        src: Vec<RegId>,
        addr: Operand,
        addr_offset: i64,
        stride: Operand,
        elem_type: ScalarType,
        space: MemSpace,
    },
    /// `wmma.mma`.
    WmmaMma {
        shape: MmaShape,
        dst: Vec<RegId>,
        src_a: Vec<RegId>,
        src_b: Vec<RegId>,
        src_c: Vec<RegId>,
        a_layout: MmaLayout,
        b_layout: MmaLayout,
        d_type: ScalarType,
        c_type: ScalarType,
    },
    /// Allocate Tensor Memory columns and write their address to shared
    /// memory.
    Tcgen05Alloc {
        dst_base: Operand,
        dst_offset: i64,
        num_cols: u32,
    },
    /// Deallocate Tensor Memory columns.
    Tcgen05Dealloc { taddr: Operand, num_cols: u32 },
    /// Give up the right to allocate further Tensor Memory.
    Tcgen05RelinquishAllocPermit,
    /// Collective load of Tensor Memory columns, one register per column.
    Tcgen05Ld {
        dst: Vec<RegId>,
        taddr_base: Operand,
        taddr_offset: i64,
    },
    /// Collective store of Tensor Memory columns, one operand per column.
    Tcgen05St {
        taddr_base: Operand,
        taddr_offset: i64,
        src: Vec<Operand>,
    },
    /// Wait for the pending loads (`is_st = false`) or stores of the
    /// quadrant.
    Tcgen05Wait { is_st: bool },
    /// `D = A*B + D` (or `A*B`) into Tensor Memory, issued by one thread; a
    /// set bit of `disable_output_lane` skips that lane.
    Tcgen05Mma {
        kind: Tcgen05MmaKind,
        d_tmem_base: Operand,
        d_tmem_offset: i64,
        a_desc: Operand,
        b_desc: Operand,
        idesc: Operand,
        disable_output_lane: Vec<Operand>,
        enable_input_d: Operand,
    },
    /// Ordering fence without a data effect.
    Tcgen05Fence,
    /// Arrive on an mbarrier once the thread's earlier operations completed.
    Tcgen05Commit {
        addr_base: Operand,
        addr_offset: i64,
    },
    /// Warpgroup-wide `D = A*B + D` (or `A*B`) on shared-memory operands;
    /// `dst` is also the accumulator.
    WgmmaMmaAsync {
        shape: MmaShape,
        dst: Vec<RegId>,
        a_desc: Operand,
        b_desc: Operand,
        scale_d: Operand,
        a_type: ScalarType,
        b_type: ScalarType,
        transpose_a: bool,
        transpose_b: bool,
    },
    /// Order the thread's register accesses before a following
    /// `WgmmaMmaAsync`.
    WgmmaFence,
    /// Seal the thread's uncommitted warpgroup operations into a group.
    WgmmaCommitGroup,
    /// Wait until at most `n` warpgroup groups are pending.
    WgmmaWaitGroup { n: u32 },
    /// Cooperative store of `num` 8x8 matrices to shared memory.
    Stmatrix {
        addr: Operand,
        addr_offset: i64,
        src: Vec<Operand>,
        num: u32,
        trans: bool,
    },
    /// Write one named field of a tensor-map object.
    TensormapReplace {
        space: MemSpace,
        addr_base: Operand,
        addr_offset: i64,
        field: TensormapFieldWrite,
    },
    /// Copy a tensor-map object from shared to global memory.
    TensormapCpFenceproxy {
        dst_base: Operand,
        dst_offset: i64,
        src_base: Operand,
        src_offset: i64,
    },
    /// Proxy fence without a data effect.
    FenceProxyTensormap,
    /// Tensor copy from global to shared memory, completing on an mbarrier.
    CpAsyncBulkTensorLoad {
        dst_base: Operand,
        dst_offset: i64,
        tensormap_space: MemSpace,
        tensormap_base: Operand,
        tensormap_offset: i64,
        coords: Vec<Operand>,
        mbar_base: Operand,
        mbar_offset: i64,
    },
    /// Create an mbarrier object that needs `count` arrivals per phase.
    MbarrierInit {
        addr_base: Operand,
        addr_offset: i64,
        count: Operand,
    },
    /// Destroy an mbarrier object.
    MbarrierInval {
        addr_base: Operand,
        addr_offset: i64,
    },
    /// Arrive on an mbarrier, optionally raising its expected transaction
    /// count; `state` receives the phase token.
    MbarrierArrive {
        state: Option<RegId>,
        addr_base: Operand,
        addr_offset: i64,
        count: Option<Operand>,
        expect_tx: Option<Operand>,
    },
    /// Complete part of an mbarrier's expected transactions.
    MbarrierCompleteTx {
        addr_base: Operand,
        addr_offset: i64,
        tx_count: Operand,
    },
    /// Block until the phase of the given parity completed, then set
    /// `wait_complete`.
    MbarrierWaitParity {
        wait_complete: RegId,
        addr_base: Operand,
        addr_offset: i64,
        phase_parity: Operand,
    },
    /// Mask of the live lanes of the warp.
    Activemask { dst: RegId },
    /// Abort.
    Trap,
    /// No operation.
    Nop,
}

/// Number of distinct [`LoweredInstr`] kinds.
pub const KIND_COUNT: usize = 76;

pub open spec fn spec_kind_name_at(i: usize) -> &'static str {
    match i {
        0 => "LoadParam",
        1 => "Load",
        2 => "LoadVec",
        3 => "Store",
        4 => "StoreVec",
        5 => "CpAsync",
        6 => "Mov",
        7 => "Cvta",
        8 => "Prmt",
        9 => "Lop3",
        10 => "BinOp",
        11 => "UnaryOp",
        12 => "Copysign",
        13 => "Fma",
        14 => "Mad",
        15 => "MulWide",
        16 => "MulHi",
        17 => "Bfi",
        18 => "Bfe",
        19 => "Setp",
        20 => "Selp",
        21 => "Set",
        22 => "Cvt",
        23 => "CvtE4m3x2ToF16x2",
        24 => "CvtPackHalves",
        25 => "UnpackHalves",
        26 => "PackHalves",
        27 => "PackQuad",
        28 => "UnpackQuad",
        29 => "Shf",
        30 => "Bra",
        31 => "Ret",
        32 => "Exit",
        33 => "BarSync",
        34 => "BarWarpSync",
        35 => "Membar",
        36 => "Fence",
        37 => "FenceProxyAsync",
        38 => "CpAsyncCommitGroup",
        39 => "CpAsyncWaitGroup",
        40 => "Shfl",
        41 => "ShflSync",
        42 => "ElectSync",
        43 => "ReduxSync",
        44 => "ReduxSyncBroadcastMax",
        45 => "Ldmatrix",
        46 => "Mma",
        47 => "WmmaLoad",
        48 => "WmmaStore",
        49 => "WmmaMma",
        50 => "Tcgen05Alloc",
        51 => "Tcgen05Dealloc",
        52 => "Tcgen05RelinquishAllocPermit",
        53 => "Tcgen05Ld",
        54 => "Tcgen05St",
        55 => "Tcgen05Wait",
        56 => "Tcgen05Mma",
        57 => "Tcgen05Fence",
        58 => "Tcgen05Commit",
        59 => "WgmmaMmaAsync",
        60 => "WgmmaFence",
        61 => "WgmmaCommitGroup",
        62 => "WgmmaWaitGroup",
        63 => "Stmatrix",
        64 => "TensormapReplace",
        65 => "TensormapCpFenceproxy",
        66 => "FenceProxyTensormap",
        67 => "CpAsyncBulkTensorLoad",
        68 => "MbarrierInit",
        69 => "MbarrierInval",
        70 => "MbarrierArrive",
        71 => "MbarrierCompleteTx",
        72 => "MbarrierWaitParity",
        73 => "Activemask",
        74 => "Trap",
        _ => "Nop",
    }
}

/// Name of the instruction kind with the given dense index.
#[verifier::when_used_as_spec(spec_kind_name_at)]
pub fn kind_name_at(i: usize) -> (r: &'static str)
    ensures
        r == spec_kind_name_at(i),
{
    match i {
        0 => "LoadParam",
        1 => "Load",
        2 => "LoadVec",
        3 => "Store",
        4 => "StoreVec",
        5 => "CpAsync",
        6 => "Mov",
        7 => "Cvta",
        8 => "Prmt",
        9 => "Lop3",
        10 => "BinOp",
        11 => "UnaryOp",
        12 => "Copysign",
        13 => "Fma",
        14 => "Mad",
        15 => "MulWide",
        16 => "MulHi",
        17 => "Bfi",
        18 => "Bfe",
        19 => "Setp",
        20 => "Selp",
        21 => "Set",
        22 => "Cvt",
        23 => "CvtE4m3x2ToF16x2",
        24 => "CvtPackHalves",
        25 => "UnpackHalves",
        26 => "PackHalves",
        27 => "PackQuad",
        28 => "UnpackQuad",
        29 => "Shf",
        30 => "Bra",
        31 => "Ret",
        32 => "Exit",
        33 => "BarSync",
        34 => "BarWarpSync",
        35 => "Membar",
        36 => "Fence",
        37 => "FenceProxyAsync",
        38 => "CpAsyncCommitGroup",
        39 => "CpAsyncWaitGroup",
        40 => "Shfl",
        41 => "ShflSync",
        42 => "ElectSync",
        43 => "ReduxSync",
        44 => "ReduxSyncBroadcastMax",
        45 => "Ldmatrix",
        46 => "Mma",
        47 => "WmmaLoad",
        48 => "WmmaStore",
        49 => "WmmaMma",
        50 => "Tcgen05Alloc",
        51 => "Tcgen05Dealloc",
        52 => "Tcgen05RelinquishAllocPermit",
        53 => "Tcgen05Ld",
        54 => "Tcgen05St",
        55 => "Tcgen05Wait",
        56 => "Tcgen05Mma",
        57 => "Tcgen05Fence",
        58 => "Tcgen05Commit",
        59 => "WgmmaMmaAsync",
        60 => "WgmmaFence",
        61 => "WgmmaCommitGroup",
        62 => "WgmmaWaitGroup",
        63 => "Stmatrix",
        64 => "TensormapReplace",
        65 => "TensormapCpFenceproxy",
        66 => "FenceProxyTensormap",
        67 => "CpAsyncBulkTensorLoad",
        68 => "MbarrierInit",
        69 => "MbarrierInval",
        70 => "MbarrierArrive",
        71 => "MbarrierCompleteTx",
        72 => "MbarrierWaitParity",
        73 => "Activemask",
        74 => "Trap",
        _ => "Nop",
    }
}

pub open spec fn no_regs() -> Seq<RegId> {
    Seq::empty()
}

/// The general-purpose register an operand reads, if any.
pub open spec fn reg_of(op: Operand) -> Seq<RegId> {
    match op {
        Operand::Reg(r) => seq![r],
        _ => Seq::empty(),
    }
}

/// The general-purpose registers that operands read, in order.
pub open spec fn regs_of(ops: Seq<Operand>) -> Seq<RegId>
    decreases ops.len(),
{
    if ops.len() == 0 {
        Seq::empty()
    } else {
        regs_of(ops.drop_last()) + reg_of(ops.last())
    }
}

pub open spec fn opt_reg(r: Option<RegId>) -> Seq<RegId> {
    match r {
        Some(r) => seq![r],
        None => Seq::empty(),
    }
}

pub open spec fn opt_operand_reg(op: Option<Operand>) -> Seq<RegId> {
    match op {
        Some(op) => reg_of(op),
        None => Seq::empty(),
    }
}

/// The register that a tensor-map field write reads.
pub open spec fn field_regs(field: TensormapFieldWrite) -> Seq<RegId> {
    match field {
        TensormapFieldWrite::GlobalAddress(v) => reg_of(v),
        TensormapFieldWrite::Rank(v) => reg_of(v),
        TensormapFieldWrite::BoxDim { new_val, .. } => reg_of(new_val),
        TensormapFieldWrite::GlobalDim { new_val, .. } => reg_of(new_val),
        TensormapFieldWrite::GlobalStride { new_val, .. } => reg_of(new_val),
        TensormapFieldWrite::ElementStride { new_val, .. } => reg_of(new_val),
        _ => Seq::empty(),
    }
}

fn push_reg(r: &mut Vec<RegId>, reg: RegId)
    ensures
        final(r)@ == old(r)@ + seq![reg],
{
    r.push(reg);
    assert(r@ =~= old(r)@ + seq![reg]);
}

fn push_operand(r: &mut Vec<RegId>, op: &Operand)
    ensures
        final(r)@ == old(r)@ + reg_of(*op),
{
    match op {
        Operand::Reg(reg) => {
            r.push(*reg);
        },
        _ => {},
    }
    assert(r@ =~= old(r)@ + reg_of(*op));
}

fn push_opt_operand(r: &mut Vec<RegId>, op: &Option<Operand>)
    ensures
        final(r)@ == old(r)@ + opt_operand_reg(*op),
{
    match op {
        Some(op) => {
            push_operand(r, op);
        },
        None => {},
    }
    assert(r@ =~= old(r)@ + opt_operand_reg(*op));
}

fn push_operands(r: &mut Vec<RegId>, ops: &Vec<Operand>)
    ensures
        final(r)@ == old(r)@ + regs_of(ops@),
{
    let mut i: usize = 0;
    assert(r@ =~= old(r)@ + regs_of(ops@.take(0)));
    while i < ops.len()
        invariant
            i <= ops@.len(),
            r@ == old(r)@ + regs_of(ops@.take(i as int)),
        decreases ops@.len() - i,
    {
        push_operand(r, &ops[i]);
        proof {
            let next = ops@.take(i as int + 1);
            assert(next.drop_last() =~= ops@.take(i as int));
            assert(r@ =~= old(r)@ + regs_of(next));
        }
        i = i + 1;
    }
    assert(ops@.take(ops@.len() as int) =~= ops@);
}

fn push_regs(r: &mut Vec<RegId>, regs: &Vec<RegId>)
    ensures
        final(r)@ == old(r)@ + regs@,
{
    let mut i: usize = 0;
    assert(r@ =~= old(r)@ + regs@.take(0));
    while i < regs.len()
        invariant
            i <= regs@.len(),
            r@ == old(r)@ + regs@.take(i as int),
        decreases regs@.len() - i,
    {
        r.push(regs[i]);
        assert(r@ =~= old(r)@ + regs@.take(i as int + 1));
        i = i + 1;
    }
    assert(regs@.take(regs@.len() as int) =~= regs@);
}

fn push_opt_reg(r: &mut Vec<RegId>, reg: &Option<RegId>)
    ensures
        final(r)@ == old(r)@ + opt_reg(*reg),
{
    match reg {
        Some(reg) => {
            r.push(*reg);
        },
        None => {},
    }
    assert(r@ =~= old(r)@ + opt_reg(*reg));
}

fn push_field_regs(r: &mut Vec<RegId>, field: &TensormapFieldWrite)
    ensures
        final(r)@ == old(r)@ + field_regs(*field),
{
    match field {
        TensormapFieldWrite::GlobalAddress(v)
        | TensormapFieldWrite::Rank(v)
        | TensormapFieldWrite::BoxDim { new_val: v, .. }
        | TensormapFieldWrite::GlobalDim { new_val: v, .. }
        | TensormapFieldWrite::GlobalStride { new_val: v, .. }
        | TensormapFieldWrite::ElementStride { new_val: v, .. } => {
            push_operand(r, v);
        },
        _ => {},
    }
    assert(r@ =~= old(r)@ + field_regs(*field));
}

impl LoweredInstr {
    pub open spec fn spec_kind_index(&self) -> usize {
        match self {
            LoweredInstr::LoadParam { .. } => 0,
            LoweredInstr::Load { .. } => 1,
            LoweredInstr::LoadVec { .. } => 2,
            LoweredInstr::Store { .. } => 3,
            LoweredInstr::StoreVec { .. } => 4,
            LoweredInstr::CpAsync { .. } => 5,
            LoweredInstr::Mov { .. } => 6,
            LoweredInstr::Cvta { .. } => 7,
            LoweredInstr::Prmt { .. } => 8,
            LoweredInstr::Lop3 { .. } => 9,
            LoweredInstr::BinOp { .. } => 10,
            LoweredInstr::UnaryOp { .. } => 11,
            LoweredInstr::Copysign { .. } => 12,
            LoweredInstr::Fma { .. } => 13,
            LoweredInstr::Mad { .. } => 14,
            LoweredInstr::MulWide { .. } => 15,
            LoweredInstr::MulHi { .. } => 16,
            LoweredInstr::Bfi { .. } => 17,
            LoweredInstr::Bfe { .. } => 18,
            LoweredInstr::Setp { .. } => 19,
            LoweredInstr::Selp { .. } => 20,
            LoweredInstr::SetVal { .. } => 21,
            LoweredInstr::Cvt { .. } => 22,
            LoweredInstr::CvtE4m3x2ToF16x2 { .. } => 23,
            LoweredInstr::CvtPackHalves { .. } => 24,
            LoweredInstr::UnpackHalves { .. } => 25,
            LoweredInstr::PackHalves { .. } => 26,
            LoweredInstr::PackQuad { .. } => 27,
            LoweredInstr::UnpackQuad { .. } => 28,
            LoweredInstr::Shf { .. } => 29,
            LoweredInstr::Bra { .. } => 30,
            LoweredInstr::Ret => 31,
            LoweredInstr::Exit => 32,
            LoweredInstr::BarSync { .. } => 33,
            LoweredInstr::BarWarpSync { .. } => 34,
            LoweredInstr::Membar { .. } => 35,
            LoweredInstr::Fence => 36,
            LoweredInstr::FenceProxyAsync { .. } => 37,
            LoweredInstr::CpAsyncCommitGroup => 38,
            LoweredInstr::CpAsyncWaitGroup { .. } => 39,
            LoweredInstr::Shfl { .. } => 40,
            LoweredInstr::ShflSync { .. } => 41,
            LoweredInstr::ElectSync { .. } => 42,
            LoweredInstr::ReduxSync { .. } => 43,
            LoweredInstr::ReduxSyncBroadcastMax { .. } => 44,
            LoweredInstr::Ldmatrix { .. } => 45,
            LoweredInstr::Mma { .. } => 46,
            LoweredInstr::WmmaLoad { .. } => 47,
            LoweredInstr::WmmaStore { .. } => 48,
            LoweredInstr::WmmaMma { .. } => 49,
            LoweredInstr::Tcgen05Alloc { .. } => 50,
            LoweredInstr::Tcgen05Dealloc { .. } => 51,
            LoweredInstr::Tcgen05RelinquishAllocPermit => 52,
            LoweredInstr::Tcgen05Ld { .. } => 53,
            LoweredInstr::Tcgen05St { .. } => 54,
            LoweredInstr::Tcgen05Wait { .. } => 55,
            LoweredInstr::Tcgen05Mma { .. } => 56,
            LoweredInstr::Tcgen05Fence => 57,
            LoweredInstr::Tcgen05Commit { .. } => 58,
            LoweredInstr::WgmmaMmaAsync { .. } => 59,
            LoweredInstr::WgmmaFence => 60,
            LoweredInstr::WgmmaCommitGroup => 61,
            LoweredInstr::WgmmaWaitGroup { .. } => 62,
            LoweredInstr::Stmatrix { .. } => 63,
            LoweredInstr::TensormapReplace { .. } => 64,
            LoweredInstr::TensormapCpFenceproxy { .. } => 65,
            LoweredInstr::FenceProxyTensormap => 66,
            LoweredInstr::CpAsyncBulkTensorLoad { .. } => 67,
            LoweredInstr::MbarrierInit { .. } => 68,
            LoweredInstr::MbarrierInval { .. } => 69,
            LoweredInstr::MbarrierArrive { .. } => 70,
            LoweredInstr::MbarrierCompleteTx { .. } => 71,
            LoweredInstr::MbarrierWaitParity { .. } => 72,
            LoweredInstr::Activemask { .. } => 73,
            LoweredInstr::Trap => 74,
            LoweredInstr::Nop => 75,
        }
    }

    /// Dense index of this instruction's kind.
    #[verifier::when_used_as_spec(spec_kind_index)]
    pub fn kind_index(&self) -> (r: usize)
        ensures
            r == self.spec_kind_index(),
            r < KIND_COUNT,
    {
        match self {
            LoweredInstr::LoadParam { .. } => 0,
            LoweredInstr::Load { .. } => 1,
            LoweredInstr::LoadVec { .. } => 2,
            LoweredInstr::Store { .. } => 3,
            LoweredInstr::StoreVec { .. } => 4,
            LoweredInstr::CpAsync { .. } => 5,
            LoweredInstr::Mov { .. } => 6,
            LoweredInstr::Cvta { .. } => 7,
            LoweredInstr::Prmt { .. } => 8,
            LoweredInstr::Lop3 { .. } => 9,
            LoweredInstr::BinOp { .. } => 10,
            LoweredInstr::UnaryOp { .. } => 11,
            LoweredInstr::Copysign { .. } => 12,
            LoweredInstr::Fma { .. } => 13,
            LoweredInstr::Mad { .. } => 14,
            LoweredInstr::MulWide { .. } => 15,
            LoweredInstr::MulHi { .. } => 16,
            LoweredInstr::Bfi { .. } => 17,
            LoweredInstr::Bfe { .. } => 18,
            LoweredInstr::Setp { .. } => 19,
            LoweredInstr::Selp { .. } => 20,
            LoweredInstr::SetVal { .. } => 21,
            LoweredInstr::Cvt { .. } => 22,
            LoweredInstr::CvtE4m3x2ToF16x2 { .. } => 23,
            LoweredInstr::CvtPackHalves { .. } => 24,
            LoweredInstr::UnpackHalves { .. } => 25,
            LoweredInstr::PackHalves { .. } => 26,
            LoweredInstr::PackQuad { .. } => 27,
            LoweredInstr::UnpackQuad { .. } => 28,
            LoweredInstr::Shf { .. } => 29,
            LoweredInstr::Bra { .. } => 30,
            LoweredInstr::Ret => 31,
            LoweredInstr::Exit => 32,
            LoweredInstr::BarSync { .. } => 33,
            LoweredInstr::BarWarpSync { .. } => 34,
            LoweredInstr::Membar { .. } => 35,
            LoweredInstr::Fence => 36,
            LoweredInstr::FenceProxyAsync { .. } => 37,
            LoweredInstr::CpAsyncCommitGroup => 38,
            LoweredInstr::CpAsyncWaitGroup { .. } => 39,
            LoweredInstr::Shfl { .. } => 40,
            LoweredInstr::ShflSync { .. } => 41,
            LoweredInstr::ElectSync { .. } => 42,
            LoweredInstr::ReduxSync { .. } => 43,
            LoweredInstr::ReduxSyncBroadcastMax { .. } => 44,
            LoweredInstr::Ldmatrix { .. } => 45,
            LoweredInstr::Mma { .. } => 46,
            LoweredInstr::WmmaLoad { .. } => 47,
            LoweredInstr::WmmaStore { .. } => 48,
            LoweredInstr::WmmaMma { .. } => 49,
            LoweredInstr::Tcgen05Alloc { .. } => 50,
            LoweredInstr::Tcgen05Dealloc { .. } => 51,
            LoweredInstr::Tcgen05RelinquishAllocPermit => 52,
            LoweredInstr::Tcgen05Ld { .. } => 53,
            LoweredInstr::Tcgen05St { .. } => 54,
            LoweredInstr::Tcgen05Wait { .. } => 55,
            LoweredInstr::Tcgen05Mma { .. } => 56,
            LoweredInstr::Tcgen05Fence => 57,
            LoweredInstr::Tcgen05Commit { .. } => 58,
            LoweredInstr::WgmmaMmaAsync { .. } => 59,
            LoweredInstr::WgmmaFence => 60,
            LoweredInstr::WgmmaCommitGroup => 61,
            LoweredInstr::WgmmaWaitGroup { .. } => 62,
            LoweredInstr::Stmatrix { .. } => 63,
            LoweredInstr::TensormapReplace { .. } => 64,
            LoweredInstr::TensormapCpFenceproxy { .. } => 65,
            LoweredInstr::FenceProxyTensormap => 66,
            LoweredInstr::CpAsyncBulkTensorLoad { .. } => 67,
            LoweredInstr::MbarrierInit { .. } => 68,
            LoweredInstr::MbarrierInval { .. } => 69,
            LoweredInstr::MbarrierArrive { .. } => 70,
            LoweredInstr::MbarrierCompleteTx { .. } => 71,
            LoweredInstr::MbarrierWaitParity { .. } => 72,
            LoweredInstr::Activemask { .. } => 73,
            LoweredInstr::Trap => 74,
            LoweredInstr::Nop => 75,
        }
    }

    /// Short, static instruction-kind name for profiling/stats.
    pub fn kind_name(&self) -> (r: &'static str)
        ensures
            r == kind_name_at(self.kind_index()),
    {
        kind_name_at(self.kind_index())
    }

    /// The general-purpose registers the instruction reads, in operand order.
    pub open spec fn reads(&self) -> Seq<RegId> {
        match self {
            LoweredInstr::CpAsync { dst_base, src_base, src_size, .. } => no_regs() + reg_of(
                *dst_base,
            ) + reg_of(*src_base) + (match src_size {
                CpAsyncSrcSize::Sized(op) => reg_of(*op),
                CpAsyncSrcSize::IgnoreSrc(op) => reg_of(*op),
                CpAsyncSrcSize::Full => no_regs(),
            }),
            LoweredInstr::PackQuad { elems, .. } => no_regs() + reg_of(elems@[0]) + reg_of(
                elems@[1],
            ) + reg_of(elems@[2]) + reg_of(elems@[3]),
            LoweredInstr::TensormapReplace { addr_base, field, .. } => no_regs() + reg_of(
                *addr_base,
            ) + field_regs(*field),
            LoweredInstr::MbarrierArrive { addr_base, count, expect_tx, .. } => no_regs() + reg_of(
                *addr_base,
            ) + opt_operand_reg(*count) + opt_operand_reg(*expect_tx),
            LoweredInstr::Load { base, .. } => no_regs() + reg_of(*base),
            LoweredInstr::LoadVec { base, .. } => no_regs() + reg_of(*base),
            LoweredInstr::Store { base, src, .. } => no_regs() + reg_of(*base) + reg_of(*src),
            LoweredInstr::StoreVec { base, src, .. } => no_regs() + reg_of(*base) + regs_of(src@),
            LoweredInstr::Mov { src, .. } => no_regs() + reg_of(*src),
            LoweredInstr::Cvta { src, .. } => no_regs() + reg_of(*src),
            LoweredInstr::Prmt {
                src_a,
                src_b,
                selector,
                ..
            } => no_regs() + reg_of(*src_a) + reg_of(*src_b) + reg_of(*selector),
            LoweredInstr::Lop3 {
                src_a,
                src_b,
                src_c,
                lut,
                ..
            } => no_regs() + reg_of(*src_a) + reg_of(*src_b) + reg_of(*src_c) + reg_of(*lut),
            LoweredInstr::BinOp { src_a, src_b, .. } => no_regs() + reg_of(*src_a) + reg_of(*src_b),
            LoweredInstr::UnaryOp { src, .. } => no_regs() + reg_of(*src),
            LoweredInstr::Copysign {
                sign_src,
                magnitude_src,
                ..
            } => no_regs() + reg_of(*sign_src) + reg_of(*magnitude_src),
            LoweredInstr::Fma {
                src_a,
                src_b,
                src_c,
                ..
            } => no_regs() + reg_of(*src_a) + reg_of(*src_b) + reg_of(*src_c),
            LoweredInstr::Mad {
                src_a,
                src_b,
                src_c,
                ..
            } => no_regs() + reg_of(*src_a) + reg_of(*src_b) + reg_of(*src_c),
            LoweredInstr::MulWide { src_a, src_b, .. } => no_regs() + reg_of(*src_a)
                + reg_of(*src_b),
            LoweredInstr::MulHi { src_a, src_b, .. } => no_regs() + reg_of(*src_a) + reg_of(*src_b),
            LoweredInstr::Bfi {
                src_a,
                src_b,
                start,
                len,
                ..
            } => no_regs() + reg_of(*src_a) + reg_of(*src_b) + reg_of(*start) + reg_of(*len),
            LoweredInstr::Bfe {
                src_a,
                start,
                len,
                ..
            } => no_regs() + reg_of(*src_a) + reg_of(*start) + reg_of(*len),
            LoweredInstr::Setp { src_a, src_b, .. } => no_regs() + reg_of(*src_a) + reg_of(*src_b),
            LoweredInstr::Selp {
                src_a,
                src_b,
                pred,
                ..
            } => no_regs() + reg_of(*src_a) + reg_of(*src_b) + reg_of(*pred),
            LoweredInstr::SetVal { src_a, src_b, .. } => no_regs() + reg_of(*src_a)
                + reg_of(*src_b),
            LoweredInstr::Cvt { src, .. } => no_regs() + reg_of(*src),
            LoweredInstr::CvtE4m3x2ToF16x2 { src, .. } => no_regs() + reg_of(*src),
            LoweredInstr::CvtPackHalves {
                src_hi,
                src_lo,
                ..
            } => no_regs() + reg_of(*src_hi) + reg_of(*src_lo),
            LoweredInstr::UnpackHalves { src, .. } => no_regs() + reg_of(*src),
            LoweredInstr::PackHalves { lo, hi, .. } => no_regs() + reg_of(*lo) + reg_of(*hi),
            LoweredInstr::UnpackQuad { src, .. } => no_regs() + reg_of(*src),
            LoweredInstr::Shf { lo, hi, shift, .. } => no_regs() + reg_of(*lo) + reg_of(*hi)
                + reg_of(*shift),
            LoweredInstr::BarWarpSync { mask, .. } => no_regs() + reg_of(*mask),
            LoweredInstr::Shfl {
                src,
                offset_or_lane,
                clamp,
                ..
            } => no_regs() + reg_of(*src) + reg_of(*offset_or_lane) + reg_of(*clamp),
            LoweredInstr::ShflSync {
                src,
                offset_or_lane,
                clamp,
                membermask,
                ..
            } => no_regs() + reg_of(*src) + reg_of(*offset_or_lane) + reg_of(*clamp)
                + reg_of(*membermask),
            LoweredInstr::ElectSync { membermask, .. } => no_regs() + reg_of(*membermask),
            LoweredInstr::ReduxSync {
                src,
                membermask,
                ..
            } => no_regs() + reg_of(*src) + reg_of(*membermask),
            LoweredInstr::ReduxSyncBroadcastMax {
                src,
                membermask,
                ..
            } => no_regs() + reg_of(*src) + reg_of(*membermask),
            LoweredInstr::Ldmatrix { addr, .. } => no_regs() + reg_of(*addr),
            LoweredInstr::Mma {
                src_a,
                src_b,
                src_c,
                ..
            } => no_regs() + src_a@ + src_b@ + regs_of(src_c@),
            LoweredInstr::WmmaLoad { addr, stride, .. } => no_regs() + reg_of(*addr)
                + reg_of(*stride),
            LoweredInstr::WmmaStore {
                src,
                addr,
                stride,
                ..
            } => no_regs() + src@ + reg_of(*addr) + reg_of(*stride),
            LoweredInstr::WmmaMma {
                src_a,
                src_b,
                src_c,
                ..
            } => no_regs() + src_a@ + src_b@ + src_c@,
            LoweredInstr::Tcgen05Alloc { dst_base, .. } => no_regs() + reg_of(*dst_base),
            LoweredInstr::Tcgen05Dealloc { taddr, .. } => no_regs() + reg_of(*taddr),
            LoweredInstr::Tcgen05Ld { taddr_base, .. } => no_regs() + reg_of(*taddr_base),
            LoweredInstr::Tcgen05St {
                taddr_base,
                src,
                ..
            } => no_regs() + reg_of(*taddr_base) + regs_of(src@),
            LoweredInstr::Tcgen05Mma {
                d_tmem_base,
                a_desc,
                b_desc,
                idesc,
                enable_input_d,
                disable_output_lane,
                ..
            } => no_regs() + reg_of(*d_tmem_base) + reg_of(*a_desc) + reg_of(*b_desc)
                + reg_of(*idesc) + reg_of(*enable_input_d) + regs_of(disable_output_lane@),
            LoweredInstr::Tcgen05Commit { addr_base, .. } => no_regs() + reg_of(*addr_base),
            LoweredInstr::WgmmaMmaAsync {
                a_desc,
                b_desc,
                scale_d,
                dst,
                ..
            } => no_regs() + reg_of(*a_desc) + reg_of(*b_desc) + reg_of(*scale_d) + dst@,
            LoweredInstr::Stmatrix { addr, src, .. } => no_regs() + reg_of(*addr) + regs_of(src@),
            LoweredInstr::TensormapCpFenceproxy {
                dst_base,
                src_base,
                ..
            } => no_regs() + reg_of(*dst_base) + reg_of(*src_base),
            LoweredInstr::CpAsyncBulkTensorLoad {
                dst_base,
                tensormap_base,
                mbar_base,
                coords,
                ..
            } => no_regs() + reg_of(*dst_base) + reg_of(*tensormap_base) + reg_of(*mbar_base)
                + regs_of(coords@),
            LoweredInstr::MbarrierInit {
                addr_base,
                count,
                ..
            } => no_regs() + reg_of(*addr_base) + reg_of(*count),
            LoweredInstr::MbarrierInval { addr_base, .. } => no_regs() + reg_of(*addr_base),
            LoweredInstr::MbarrierCompleteTx {
                addr_base,
                tx_count,
                ..
            } => no_regs() + reg_of(*addr_base) + reg_of(*tx_count),
            LoweredInstr::MbarrierWaitParity {
                addr_base,
                phase_parity,
                ..
            } => no_regs() + reg_of(*addr_base) + reg_of(*phase_parity),
            LoweredInstr::LoadParam { .. }
            | LoweredInstr::Bra { .. }
            | LoweredInstr::Ret
            | LoweredInstr::Exit
            | LoweredInstr::BarSync { .. }
            | LoweredInstr::Membar { .. }
            | LoweredInstr::Fence
            | LoweredInstr::FenceProxyAsync { .. }
            | LoweredInstr::CpAsyncCommitGroup
            | LoweredInstr::CpAsyncWaitGroup { .. }
            | LoweredInstr::Tcgen05RelinquishAllocPermit
            | LoweredInstr::Tcgen05Wait { .. }
            | LoweredInstr::Tcgen05Fence
            | LoweredInstr::WgmmaFence
            | LoweredInstr::WgmmaCommitGroup
            | LoweredInstr::WgmmaWaitGroup { .. }
            | LoweredInstr::FenceProxyTensormap
            | LoweredInstr::Activemask { .. }
            | LoweredInstr::Trap
            | LoweredInstr::Nop => no_regs(),
        }
    }

    /// Collect all general-purpose registers read by this instruction.
    ///
    /// Does not include predicate guards or special registers. The accumulator
    /// of `WgmmaMmaAsync` is included: whether it is read is known only at run
    /// time.
    pub fn source_regs(&self) -> (r: Vec<RegId>)
        ensures
            r@ == self.reads(),
    {
        let mut r: Vec<RegId> = Vec::new();
        match self {
            LoweredInstr::CpAsync { dst_base, src_base, src_size, .. } => {
                push_operand(&mut r, dst_base);
                push_operand(&mut r, src_base);
                match src_size {
                    CpAsyncSrcSize::Sized(op) | CpAsyncSrcSize::IgnoreSrc(op) => {
                        push_operand(&mut r, op);
                    },
                    CpAsyncSrcSize::Full => {
                        assert(r@ =~= r@ + no_regs());
                    },
                }
            },
            LoweredInstr::PackQuad { elems, .. } => {
                push_operand(&mut r, &elems[0]);
                push_operand(&mut r, &elems[1]);
                push_operand(&mut r, &elems[2]);
                push_operand(&mut r, &elems[3]);
            },
            LoweredInstr::TensormapReplace { addr_base, field, .. } => {
                push_operand(&mut r, addr_base);
                push_field_regs(&mut r, field);
            },
            LoweredInstr::MbarrierArrive { addr_base, count, expect_tx, .. } => {
                push_operand(&mut r, addr_base);
                push_opt_operand(&mut r, count);
                push_opt_operand(&mut r, expect_tx);
            },
            LoweredInstr::Load { base, .. } => {
                push_operand(&mut r, base);
            },
            LoweredInstr::LoadVec { base, .. } => {
                push_operand(&mut r, base);
            },
            LoweredInstr::Store { base, src, .. } => {
                push_operand(&mut r, base);
                push_operand(&mut r, src);
            },
            LoweredInstr::StoreVec { base, src, .. } => {
                push_operand(&mut r, base);
                push_operands(&mut r, src);
            },
            LoweredInstr::Mov { src, .. } => {
                push_operand(&mut r, src);
            },
            LoweredInstr::Cvta { src, .. } => {
                push_operand(&mut r, src);
            },
            LoweredInstr::Prmt { src_a, src_b, selector, .. } => {
                push_operand(&mut r, src_a);
                push_operand(&mut r, src_b);
                push_operand(&mut r, selector);
            },
            LoweredInstr::Lop3 { src_a, src_b, src_c, lut, .. } => {
                push_operand(&mut r, src_a);
                push_operand(&mut r, src_b);
                push_operand(&mut r, src_c);
                push_operand(&mut r, lut);
            },
            LoweredInstr::BinOp { src_a, src_b, .. } => {
                push_operand(&mut r, src_a);
                push_operand(&mut r, src_b);
            },
            LoweredInstr::UnaryOp { src, .. } => {
                push_operand(&mut r, src);
            },
            LoweredInstr::Copysign { sign_src, magnitude_src, .. } => {
                push_operand(&mut r, sign_src);
                push_operand(&mut r, magnitude_src);
            },
            LoweredInstr::Fma { src_a, src_b, src_c, .. } => {
                push_operand(&mut r, src_a);
                push_operand(&mut r, src_b);
                push_operand(&mut r, src_c);
            },
            LoweredInstr::Mad { src_a, src_b, src_c, .. } => {
                push_operand(&mut r, src_a);
                push_operand(&mut r, src_b);
                push_operand(&mut r, src_c);
            },
            LoweredInstr::MulWide { src_a, src_b, .. } => {
                push_operand(&mut r, src_a);
                push_operand(&mut r, src_b);
            },
            LoweredInstr::MulHi { src_a, src_b, .. } => {
                push_operand(&mut r, src_a);
                push_operand(&mut r, src_b);
            },
            LoweredInstr::Bfi { src_a, src_b, start, len, .. } => {
                push_operand(&mut r, src_a);
                push_operand(&mut r, src_b);
                push_operand(&mut r, start);
                push_operand(&mut r, len);
            },
            LoweredInstr::Bfe { src_a, start, len, .. } => {
                push_operand(&mut r, src_a);
                push_operand(&mut r, start);
                push_operand(&mut r, len);
            },
            LoweredInstr::Setp { src_a, src_b, .. } => {
                push_operand(&mut r, src_a);
                push_operand(&mut r, src_b);
            },
            LoweredInstr::Selp { src_a, src_b, pred, .. } => {
                push_operand(&mut r, src_a);
                push_operand(&mut r, src_b);
                push_operand(&mut r, pred);
            },
            LoweredInstr::SetVal { src_a, src_b, .. } => {
                push_operand(&mut r, src_a);
                push_operand(&mut r, src_b);
            },
            LoweredInstr::Cvt { src, .. } => {
                push_operand(&mut r, src);
            },
            LoweredInstr::CvtE4m3x2ToF16x2 { src, .. } => {
                push_operand(&mut r, src);
            },
            LoweredInstr::CvtPackHalves { src_hi, src_lo, .. } => {
                push_operand(&mut r, src_hi);
                push_operand(&mut r, src_lo);
            },
            LoweredInstr::UnpackHalves { src, .. } => {
                push_operand(&mut r, src);
            },
            LoweredInstr::PackHalves { lo, hi, .. } => {
                push_operand(&mut r, lo);
                push_operand(&mut r, hi);
            },
            LoweredInstr::UnpackQuad { src, .. } => {
                push_operand(&mut r, src);
            },
            LoweredInstr::Shf { lo, hi, shift, .. } => {
                push_operand(&mut r, lo);
                push_operand(&mut r, hi);
                push_operand(&mut r, shift);
            },
            LoweredInstr::BarWarpSync { mask, .. } => {
                push_operand(&mut r, mask);
            },
            LoweredInstr::Shfl { src, offset_or_lane, clamp, .. } => {
                push_operand(&mut r, src);
                push_operand(&mut r, offset_or_lane);
                push_operand(&mut r, clamp);
            },
            LoweredInstr::ShflSync { src, offset_or_lane, clamp, membermask, .. } => {
                push_operand(&mut r, src);
                push_operand(&mut r, offset_or_lane);
                push_operand(&mut r, clamp);
                push_operand(&mut r, membermask);
            },
            LoweredInstr::ElectSync { membermask, .. } => {
                push_operand(&mut r, membermask);
            },
            LoweredInstr::ReduxSync { src, membermask, .. } => {
                push_operand(&mut r, src);
                push_operand(&mut r, membermask);
            },
            LoweredInstr::ReduxSyncBroadcastMax { src, membermask, .. } => {
                push_operand(&mut r, src);
                push_operand(&mut r, membermask);
            },
            LoweredInstr::Ldmatrix { addr, .. } => {
                push_operand(&mut r, addr);
            },
            LoweredInstr::Mma { src_a, src_b, src_c, .. } => {
                push_regs(&mut r, src_a);
                push_regs(&mut r, src_b);
                push_operands(&mut r, src_c);
            },
            LoweredInstr::WmmaLoad { addr, stride, .. } => {
                push_operand(&mut r, addr);
                push_operand(&mut r, stride);
            },
            LoweredInstr::WmmaStore { src, addr, stride, .. } => {
                push_regs(&mut r, src);
                push_operand(&mut r, addr);
                push_operand(&mut r, stride);
            },
            LoweredInstr::WmmaMma { src_a, src_b, src_c, .. } => {
                push_regs(&mut r, src_a);
                push_regs(&mut r, src_b);
                push_regs(&mut r, src_c);
            },
            LoweredInstr::Tcgen05Alloc { dst_base, .. } => {
                push_operand(&mut r, dst_base);
            },
            LoweredInstr::Tcgen05Dealloc { taddr, .. } => {
                push_operand(&mut r, taddr);
            },
            LoweredInstr::Tcgen05Ld { taddr_base, .. } => {
                push_operand(&mut r, taddr_base);
            },
            LoweredInstr::Tcgen05St { taddr_base, src, .. } => {
                push_operand(&mut r, taddr_base);
                push_operands(&mut r, src);
            },
            LoweredInstr::Tcgen05Mma {
                d_tmem_base,
                a_desc,
                b_desc,
                idesc,
                enable_input_d,
                disable_output_lane,
                ..
            } => {
                push_operand(&mut r, d_tmem_base);
                push_operand(&mut r, a_desc);
                push_operand(&mut r, b_desc);
                push_operand(&mut r, idesc);
                push_operand(&mut r, enable_input_d);
                push_operands(&mut r, disable_output_lane);
            },
            LoweredInstr::Tcgen05Commit { addr_base, .. } => {
                push_operand(&mut r, addr_base);
            },
            LoweredInstr::WgmmaMmaAsync { a_desc, b_desc, scale_d, dst, .. } => {
                push_operand(&mut r, a_desc);
                push_operand(&mut r, b_desc);
                push_operand(&mut r, scale_d);
                push_regs(&mut r, dst);
            },
            LoweredInstr::Stmatrix { addr, src, .. } => {
                push_operand(&mut r, addr);
                push_operands(&mut r, src);
            },
            LoweredInstr::TensormapCpFenceproxy { dst_base, src_base, .. } => {
                push_operand(&mut r, dst_base);
                push_operand(&mut r, src_base);
            },
            LoweredInstr::CpAsyncBulkTensorLoad {
                dst_base,
                tensormap_base,
                mbar_base,
                coords,
                ..
            } => {
                push_operand(&mut r, dst_base);
                push_operand(&mut r, tensormap_base);
                push_operand(&mut r, mbar_base);
                push_operands(&mut r, coords);
            },
            LoweredInstr::MbarrierInit { addr_base, count, .. } => {
                push_operand(&mut r, addr_base);
                push_operand(&mut r, count);
            },
            LoweredInstr::MbarrierInval { addr_base, .. } => {
                push_operand(&mut r, addr_base);
            },
            LoweredInstr::MbarrierCompleteTx { addr_base, tx_count, .. } => {
                push_operand(&mut r, addr_base);
                push_operand(&mut r, tx_count);
            },
            LoweredInstr::MbarrierWaitParity { addr_base, phase_parity, .. } => {
                push_operand(&mut r, addr_base);
                push_operand(&mut r, phase_parity);
            },
            LoweredInstr::LoadParam { .. }
            | LoweredInstr::Bra { .. }
            | LoweredInstr::Ret
            | LoweredInstr::Exit
            | LoweredInstr::BarSync { .. }
            | LoweredInstr::Membar { .. }
            | LoweredInstr::Fence
            | LoweredInstr::FenceProxyAsync { .. }
            | LoweredInstr::CpAsyncCommitGroup
            | LoweredInstr::CpAsyncWaitGroup { .. }
            | LoweredInstr::Tcgen05RelinquishAllocPermit
            | LoweredInstr::Tcgen05Wait { .. }
            | LoweredInstr::Tcgen05Fence
            | LoweredInstr::WgmmaFence
            | LoweredInstr::WgmmaCommitGroup
            | LoweredInstr::WgmmaWaitGroup { .. }
            | LoweredInstr::FenceProxyTensormap
            | LoweredInstr::Activemask { .. }
            | LoweredInstr::Trap
            | LoweredInstr::Nop => {},
        }
        r
    }

    /// The general-purpose registers the instruction writes.
    pub open spec fn writes(&self) -> Seq<RegId> {
        match self {
            LoweredInstr::LoadParam { dst, .. } => no_regs() + seq![*dst],
            LoweredInstr::Load { dst, .. } => no_regs() + seq![*dst],
            LoweredInstr::Mov { dst, .. } => no_regs() + seq![*dst],
            LoweredInstr::Cvta { dst, .. } => no_regs() + seq![*dst],
            LoweredInstr::Prmt { dst, .. } => no_regs() + seq![*dst],
            LoweredInstr::Lop3 { dst, .. } => no_regs() + seq![*dst],
            LoweredInstr::BinOp { dst, .. } => no_regs() + seq![*dst],
            LoweredInstr::UnaryOp { dst, .. } => no_regs() + seq![*dst],
            LoweredInstr::Copysign { dst, .. } => no_regs() + seq![*dst],
            LoweredInstr::Fma { dst, .. } => no_regs() + seq![*dst],
            LoweredInstr::Mad { dst, .. } => no_regs() + seq![*dst],
            LoweredInstr::MulWide { dst, .. } => no_regs() + seq![*dst],
            LoweredInstr::MulHi { dst, .. } => no_regs() + seq![*dst],
            LoweredInstr::Bfi { dst, .. } => no_regs() + seq![*dst],
            LoweredInstr::Bfe { dst, .. } => no_regs() + seq![*dst],
            LoweredInstr::Setp { dst, .. } => no_regs() + seq![*dst],
            LoweredInstr::Selp { dst, .. } => no_regs() + seq![*dst],
            LoweredInstr::SetVal { dst, .. } => no_regs() + seq![*dst],
            LoweredInstr::Cvt { dst, .. } => no_regs() + seq![*dst],
            LoweredInstr::CvtE4m3x2ToF16x2 { dst, .. } => no_regs() + seq![*dst],
            LoweredInstr::CvtPackHalves { dst, .. } => no_regs() + seq![*dst],
            LoweredInstr::PackHalves { dst, .. } => no_regs() + seq![*dst],
            LoweredInstr::PackQuad { dst, .. } => no_regs() + seq![*dst],
            LoweredInstr::Shf { dst, .. } => no_regs() + seq![*dst],
            LoweredInstr::ReduxSync { dst, .. } => no_regs() + seq![*dst],
            LoweredInstr::ReduxSyncBroadcastMax { dst, .. } => no_regs() + seq![*dst],
            LoweredInstr::Activemask { dst, .. } => no_regs() + seq![*dst],
            LoweredInstr::LoadVec { dst, .. } => no_regs() + dst@,
            LoweredInstr::Ldmatrix { dst, .. } => no_regs() + dst@,
            LoweredInstr::Mma { dst, .. } => no_regs() + dst@,
            LoweredInstr::WmmaLoad { dst, .. } => no_regs() + dst@,
            LoweredInstr::WmmaMma { dst, .. } => no_regs() + dst@,
            LoweredInstr::Tcgen05Ld { dst, .. } => no_regs() + dst@,
            LoweredInstr::WgmmaMmaAsync { dst, .. } => no_regs() + dst@,
            LoweredInstr::Shfl { dst, dst_pred, .. } => no_regs() + seq![*dst] + opt_reg(*dst_pred),
            LoweredInstr::ShflSync { dst, dst_pred, .. } => no_regs() + seq![*dst] + opt_reg(
                *dst_pred,
            ),
            LoweredInstr::UnpackHalves { lo, hi, .. } => no_regs() + opt_reg(*lo) + opt_reg(*hi),
            LoweredInstr::UnpackQuad { elems, .. } => no_regs() + opt_reg(elems@[0]) + opt_reg(
                elems@[1],
            ) + opt_reg(elems@[2]) + opt_reg(elems@[3]),
            LoweredInstr::ElectSync { dst, dst_pred, .. } => no_regs() + seq![*dst_pred] + opt_reg(
                *dst,
            ),
            LoweredInstr::MbarrierArrive { state, .. } => no_regs() + opt_reg(*state),
            LoweredInstr::MbarrierWaitParity { wait_complete, .. } => no_regs() + seq![
                *wait_complete,
            ],
            LoweredInstr::Store { .. }
            | LoweredInstr::StoreVec { .. }
            | LoweredInstr::CpAsync { .. }
            | LoweredInstr::Bra { .. }
            | LoweredInstr::Ret
            | LoweredInstr::Exit
            | LoweredInstr::BarSync { .. }
            | LoweredInstr::BarWarpSync { .. }
            | LoweredInstr::Membar { .. }
            | LoweredInstr::Fence
            | LoweredInstr::FenceProxyAsync { .. }
            | LoweredInstr::CpAsyncCommitGroup
            | LoweredInstr::CpAsyncWaitGroup { .. }
            | LoweredInstr::WmmaStore { .. }
            | LoweredInstr::Tcgen05Alloc { .. }
            | LoweredInstr::Tcgen05Dealloc { .. }
            | LoweredInstr::Tcgen05RelinquishAllocPermit
            | LoweredInstr::Tcgen05St { .. }
            | LoweredInstr::Tcgen05Wait { .. }
            | LoweredInstr::Tcgen05Mma { .. }
            | LoweredInstr::Tcgen05Fence
            | LoweredInstr::Tcgen05Commit { .. }
            | LoweredInstr::WgmmaFence
            | LoweredInstr::WgmmaCommitGroup
            | LoweredInstr::WgmmaWaitGroup { .. }
            | LoweredInstr::Stmatrix { .. }
            | LoweredInstr::TensormapReplace { .. }
            | LoweredInstr::TensormapCpFenceproxy { .. }
            | LoweredInstr::FenceProxyTensormap
            | LoweredInstr::CpAsyncBulkTensorLoad { .. }
            | LoweredInstr::MbarrierInit { .. }
            | LoweredInstr::MbarrierInval { .. }
            | LoweredInstr::MbarrierCompleteTx { .. }
            | LoweredInstr::Trap
            | LoweredInstr::Nop => no_regs(),
        }
    }

    /// Collect all general-purpose registers written by this instruction.
    pub fn dest_regs(&self) -> (r: Vec<RegId>)
        ensures
            r@ == self.writes(),
    {
        let mut r: Vec<RegId> = Vec::new();
        match self {
            LoweredInstr::LoadParam { dst, .. }
            | LoweredInstr::Load { dst, .. }
            | LoweredInstr::Mov { dst, .. }
            | LoweredInstr::Cvta { dst, .. }
            | LoweredInstr::Prmt { dst, .. }
            | LoweredInstr::Lop3 { dst, .. }
            | LoweredInstr::BinOp { dst, .. }
            | LoweredInstr::UnaryOp { dst, .. }
            | LoweredInstr::Copysign { dst, .. }
            | LoweredInstr::Fma { dst, .. }
            | LoweredInstr::Mad { dst, .. }
            | LoweredInstr::MulWide { dst, .. }
            | LoweredInstr::MulHi { dst, .. }
            | LoweredInstr::Bfi { dst, .. }
            | LoweredInstr::Bfe { dst, .. }
            | LoweredInstr::Setp { dst, .. }
            | LoweredInstr::Selp { dst, .. }
            | LoweredInstr::SetVal { dst, .. }
            | LoweredInstr::Cvt { dst, .. }
            | LoweredInstr::CvtE4m3x2ToF16x2 { dst, .. }
            | LoweredInstr::CvtPackHalves { dst, .. }
            | LoweredInstr::PackHalves { dst, .. }
            | LoweredInstr::PackQuad { dst, .. }
            | LoweredInstr::Shf { dst, .. }
            | LoweredInstr::ReduxSync { dst, .. }
            | LoweredInstr::ReduxSyncBroadcastMax { dst, .. }
            | LoweredInstr::Activemask { dst, .. } => {
                push_reg(&mut r, *dst);
            },
            LoweredInstr::LoadVec { dst, .. }
            | LoweredInstr::Ldmatrix { dst, .. }
            | LoweredInstr::Mma { dst, .. }
            | LoweredInstr::WmmaLoad { dst, .. }
            | LoweredInstr::WmmaMma { dst, .. }
            | LoweredInstr::Tcgen05Ld { dst, .. }
            | LoweredInstr::WgmmaMmaAsync { dst, .. } => {
                push_regs(&mut r, dst);
            },
            LoweredInstr::Shfl { dst, dst_pred, .. }
            | LoweredInstr::ShflSync { dst, dst_pred, .. } => {
                push_reg(&mut r, *dst);
                push_opt_reg(&mut r, dst_pred);
            },
            LoweredInstr::UnpackHalves { lo, hi, .. } => {
                push_opt_reg(&mut r, lo);
                push_opt_reg(&mut r, hi);
            },
            LoweredInstr::UnpackQuad { elems, .. } => {
                push_opt_reg(&mut r, &elems[0]);
                push_opt_reg(&mut r, &elems[1]);
                push_opt_reg(&mut r, &elems[2]);
                push_opt_reg(&mut r, &elems[3]);
            },
            LoweredInstr::ElectSync { dst, dst_pred, .. } => {
                push_reg(&mut r, *dst_pred);
                push_opt_reg(&mut r, dst);
            },
            LoweredInstr::MbarrierArrive { state, .. } => {
                push_opt_reg(&mut r, state);
            },
            LoweredInstr::MbarrierWaitParity { wait_complete, .. } => {
                push_reg(&mut r, *wait_complete);
            },
            LoweredInstr::Store { .. }
            | LoweredInstr::StoreVec { .. }
            | LoweredInstr::CpAsync { .. }
            | LoweredInstr::Bra { .. }
            | LoweredInstr::Ret
            | LoweredInstr::Exit
            | LoweredInstr::BarSync { .. }
            | LoweredInstr::BarWarpSync { .. }
            | LoweredInstr::Membar { .. }
            | LoweredInstr::Fence
            | LoweredInstr::FenceProxyAsync { .. }
            | LoweredInstr::CpAsyncCommitGroup
            | LoweredInstr::CpAsyncWaitGroup { .. }
            | LoweredInstr::WmmaStore { .. }
            | LoweredInstr::Tcgen05Alloc { .. }
            | LoweredInstr::Tcgen05Dealloc { .. }
            | LoweredInstr::Tcgen05RelinquishAllocPermit
            | LoweredInstr::Tcgen05St { .. }
            | LoweredInstr::Tcgen05Wait { .. }
            | LoweredInstr::Tcgen05Mma { .. }
            | LoweredInstr::Tcgen05Fence
            | LoweredInstr::Tcgen05Commit { .. }
            | LoweredInstr::WgmmaFence
            | LoweredInstr::WgmmaCommitGroup
            | LoweredInstr::WgmmaWaitGroup { .. }
            | LoweredInstr::Stmatrix { .. }
            | LoweredInstr::TensormapReplace { .. }
            | LoweredInstr::TensormapCpFenceproxy { .. }
            | LoweredInstr::FenceProxyTensormap
            | LoweredInstr::CpAsyncBulkTensorLoad { .. }
            | LoweredInstr::MbarrierInit { .. }
            | LoweredInstr::MbarrierInval { .. }
            | LoweredInstr::MbarrierCompleteTx { .. }
            | LoweredInstr::Trap
            | LoweredInstr::Nop => {},
        }
        r
    }
}

/// Scope for memory barriers
#[derive(Debug, Clone, Copy, PartialEq, Eq, Structural)]
pub enum MembarScope {
    Cta,
    Gpu,
    Sys,
}

/// A range of source bytes.
#[derive(Debug, Clone, Copy, PartialEq, Eq, Structural)]
pub struct Span {
    pub start: usize,
    pub end: usize,
}

/// The instructions of a program, by program counter, held in an
/// `id_collections::IdVec`.
#[verifier::external_body]
#[derive(Debug)]
pub struct InstrList {
    inner: IdVec<usize, LoweredInstr>,
}

/// The instructions of a list, in order.
pub uninterp spec fn numbered_instructions(l: InstrList) -> Seq<LoweredInstr>;

impl View for InstrList {
    type V = Seq<LoweredInstr>;

    open spec fn view(&self) -> Seq<LoweredInstr> {
        numbered_instructions(*self)
    }
}

/// `IdVec::from_vec`: the elements of a vector, numbered in its order. With
/// numbers of the width of a length every vector can be numbered.
#[verifier::external_body]
fn number_instructions(v: Vec<LoweredInstr>) -> (l: InstrList)
    ensures
        numbered_instructions(l) == v@,
{
    InstrList { inner: IdVec::from_vec(v) }
}

/// `IdVec::get`: the instruction of a number in use, none for any other.
#[verifier::external_body]
fn instruction_at(l: &InstrList, id: usize) -> (r: Option<&LoweredInstr>)
    ensures
        match r {
            Some(i) => id < numbered_instructions(*l).len() && *i == numbered_instructions(
                *l,
            )[id as int],
            None => id >= numbered_instructions(*l).len(),
        },
{
    l.inner.get(id)
}

/// `IdVec::len`: the number of instructions.
#[verifier::external_body]
fn instruction_count(l: &InstrList) -> (n: usize)
    ensures
        n == numbered_instructions(*l).len(),
{
    l.inner.len()
}

/// `IdVec::is_empty`: whether there are no instructions.
#[verifier::external_body]
fn no_instructions(l: &InstrList) -> (r: bool)
    ensures
        r == (numbered_instructions(*l).len() == 0),
{
    l.inner.is_empty()
}

/// The guards of a program, by program counter, held in an
/// `id_collections::IdVec`.
#[verifier::external_body]
#[derive(Debug)]
pub struct GuardList {
    inner: IdVec<usize, Option<Predicate>>,
}

/// The guards of a list, in order.
pub uninterp spec fn numbered_guards(l: GuardList) -> Seq<Option<Predicate>>;

impl View for GuardList {
    type V = Seq<Option<Predicate>>;

    open spec fn view(&self) -> Seq<Option<Predicate>> {
        numbered_guards(*self)
    }
}

/// `IdVec::from_vec`: the elements of a vector, numbered in its order. With
/// numbers of the width of a length every vector can be numbered.
#[verifier::external_body]
fn number_guards(v: Vec<Option<Predicate>>) -> (l: GuardList)
    ensures
        numbered_guards(l) == v@,
{
    GuardList { inner: IdVec::from_vec(v) }
}

/// `IdVec::get`: the guard of a number in use, none for any other.
#[verifier::external_body]
fn guard_at(l: &GuardList, id: usize) -> (r: Option<&Option<Predicate>>)
    ensures
        match r {
            Some(p) => id < numbered_guards(*l).len() && *p == numbered_guards(*l)[id as int],
            None => id >= numbered_guards(*l).len(),
        },
{
    l.inner.get(id)
}

/// A fully lowered and resolved PTX program
#[derive(Debug)]
pub struct LoweredProgram {
    /// Linear sequence of instructions
    pub instructions: InstrList,
    /// Predicate guards for each instruction (None if unconditional)
    pub predicates: GuardList,
    /// Symbol table
    pub symbols: SymbolTable,
    /// Source span of each instruction that has one
    pub spans: Vec<Option<Span>>,
    /// Entry point PC (usually 0)
    pub entry_pc: InstrId,
}

impl LoweredProgram {
    /// A program of the given instructions, each with its guard, if any.
    pub fn new(
        instructions: Vec<LoweredInstr>,
        predicates: Vec<Option<Predicate>>,
        symbols: SymbolTable,
        spans: Vec<Option<Span>>,
        entry_pc: InstrId,
    ) -> (r: Self)
        ensures
            r.instructions@ == instructions@,
            r.predicates@ == predicates@,
            r.symbols == symbols,
            r.spans == spans,
            r.entry_pc == entry_pc,
    {
        LoweredProgram {
            instructions: number_instructions(instructions),
            predicates: number_guards(predicates),
            symbols,
            spans,
            entry_pc,
        }
    }

    /// Get instruction at PC
    pub fn instruction(&self, pc: InstrId) -> (r: Option<&LoweredInstr>)
        ensures
            match r {
                Some(i) => pc.0 < self.instructions@.len() && *i == self.instructions@[pc.0 as int],
                None => pc.0 >= self.instructions@.len(),
            },
    {
        instruction_at(&self.instructions, pc.0 as usize)
    }

    pub open spec fn spec_predicate(&self, pc: InstrId) -> Option<Predicate> {
        if pc.0 < self.predicates@.len() {
            self.predicates@[pc.0 as int]
        } else {
            None
        }
    }

    /// Get predicate for instruction at PC
    pub fn predicate(&self, pc: InstrId) -> (r: Option<&Predicate>)
        ensures
            match r {
                Some(p) => self.spec_predicate(pc) == Some(*p),
                None => self.spec_predicate(pc) is None,
            },
    {
        match guard_at(&self.predicates, pc.0 as usize) {
            Some(p) => p.as_ref(),
            None => None,
        }
    }

    pub open spec fn reg_text(&self, reg: RegId) -> Seq<char> {
        let i = self.symbols.name_index(reg, 0);
        if i < self.symbols.reg_names@.len() {
            self.symbols.reg_names@[i].1@
        } else {
            reg.class.name()@ + "["@ + dec_text(reg.index.0 as nat) + "]"@
        }
    }

    /// Format a register for error messages
    pub fn format_reg(&self, reg: RegId) -> (r: String)
        ensures
            r@ == self.reg_text(reg),
    {
        match self.symbols.register_name(reg) {
            Some(name) => name.clone(),
            None => {
                let mut s = String::from_str(reg.class.name());
                s.append("[");
                push_dec(&mut s, reg.index.0 as u128);
                s.append("]");
                s
            },
        }
    }

    pub open spec fn spec_instruction_span(&self, pc: InstrId) -> Option<Span> {
        if pc.0 < self.spans@.len() {
            self.spans@[pc.0 as int]
        } else {
            None
        }
    }

    /// Get the source span for an instruction
    pub fn instruction_span(&self, pc: InstrId) -> (r: Option<Span>)
        ensures
            r == self.spec_instruction_span(pc),
    {
        let i: usize = pc.0 as usize;
        if i < self.spans.len() {
            self.spans[i]
        } else {
            None
        }
    }

    /// Number of instructions
    pub fn len(&self) -> (r: usize)
        ensures
            r == self.instructions@.len(),
    {
        instruction_count(&self.instructions)
    }

    /// Check if program is empty
    pub fn is_empty(&self) -> (r: bool)
        ensures
            r == (self.instructions@.len() == 0),
    {
        no_instructions(&self.instructions)
    }

    /// Get register counts per class
    pub fn register_counts(&self) -> (r: RegCounts)
        ensures
            r == self.symbols.reg_counts,
    {
        self.symbols.reg_counts
    }
}

impl MemSpace {
    pub open spec fn spec_debug_name(&self) -> &'static str {
        match self {
            MemSpace::Global => "Global",
            MemSpace::Shared => "Shared",
            MemSpace::Local => "Local",
            MemSpace::Param => "Param",
            MemSpace::Const => "Const",
        }
    }

    /// The name of the variant.
    #[verifier::when_used_as_spec(spec_debug_name)]
    pub fn debug_name(&self) -> (r: &'static str)
        ensures
            r == self.spec_debug_name(),
    {
        match self {
            MemSpace::Global => "Global",
            MemSpace::Shared => "Shared",
            MemSpace::Local => "Local",
            MemSpace::Param => "Param",
            MemSpace::Const => "Const",
        }
    }
}

impl BinOp {
    pub open spec fn spec_debug_name(&self) -> &'static str {
        match self {
            BinOp::Add => "Add",
            BinOp::Sub => "Sub",
            BinOp::Mul => "Mul",
            BinOp::Div => "Div",
            BinOp::Rem => "Rem",
            BinOp::And => "And",
            BinOp::Or => "Or",
            BinOp::Xor => "Xor",
            BinOp::Shl => "Shl",
            BinOp::Shr => "Shr",
            BinOp::Min => "Min",
            BinOp::Max => "Max",
        }
    }

    /// The name of the variant.
    #[verifier::when_used_as_spec(spec_debug_name)]
    pub fn debug_name(&self) -> (r: &'static str)
        ensures
            r == self.spec_debug_name(),
    {
        match self {
            BinOp::Add => "Add",
            BinOp::Sub => "Sub",
            BinOp::Mul => "Mul",
            BinOp::Div => "Div",
            BinOp::Rem => "Rem",
            BinOp::And => "And",
            BinOp::Or => "Or",
            BinOp::Xor => "Xor",
            BinOp::Shl => "Shl",
            BinOp::Shr => "Shr",
            BinOp::Min => "Min",
            BinOp::Max => "Max",
        }
    }
}

impl Tcgen05MmaKind {
    pub open spec fn spec_debug_name(&self) -> &'static str {
        match self {
            Tcgen05MmaKind::F16 => "F16",
            Tcgen05MmaKind::F8f6f4 => "F8f6f4",
        }
    }

    /// The name of the variant.
    #[verifier::when_used_as_spec(spec_debug_name)]
    pub fn debug_name(&self) -> (r: &'static str)
        ensures
            r == self.spec_debug_name(),
    {
        match self {
            Tcgen05MmaKind::F16 => "F16",
            Tcgen05MmaKind::F8f6f4 => "F8f6f4",
        }
    }
}

} // verus!
