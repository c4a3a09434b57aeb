//! The text of every evaluation error.

use volta_analysis::eval::error::{AccessSite, Detail, EvalError, WarpFault};
use volta_analysis::eval::memory::GranuleKind;
use volta_analysis::eval::ThreadId;
use volta_analysis::lowered::{InstrId, MemSpace};
use volta_analysis::symbols::RegId;
use volta_analysis::tensor_core::MmaShape;
use volta_analysis::types::RegClass;

const T: ThreadId = ThreadId(3);
const PC: InstrId = InstrId(12);
const SPACE: MemSpace = MemSpace::Shared;
const SHAPE: MmaShape = MmaShape { m: 64, n: 8, k: 16 };

fn reg() -> RegId {
    RegId::new(RegClass::Bits32, 5)
}

fn prior() -> AccessSite {
    AccessSite {
        thread: ThreadId(0),
        pc: InstrId(4),
        is_write: true,
    }
}

fn current() -> AccessSite {
    AccessSite {
        thread: T,
        pc: PC,
        is_write: false,
    }
}

fn check(e: EvalError, text: &str) {
    assert_eq!(e.text(), text);
}

#[test]
fn access_sites_name_kind_thread_and_instruction() {
    assert_eq!(prior().text(), "write by t0 at pc:4");
    assert_eq!(current().text(), "read by t3 at pc:12");
}

#[test]
fn memory_conflicts_name_both_sides() {
    let (prior, current) = (prior(), current());
    check(
        EvalError::DataRace { space: SPACE, addr: 0x10, prior, current },
        "data race on Shared[0x10]: read by t3 at pc:12 conflicts with write by t0 at pc:4",
    );
    check(
        EvalError::AsyncCopyHazard { space: SPACE, addr: 0x10, prior, current },
        "cp.async hazard on Shared[0x10]: read by t3 at pc:12 conflicts with in-flight write by \
         t0 at pc:4",
    );
    check(
        EvalError::AsyncProxyFenceHazard { space: SPACE, addr: 0x10, prior, current },
        "missing fence.proxy.async on Shared[0x10]: read by t3 at pc:12 observed the async-proxy \
         write write by t0 at pc:4 without an intervening fence.proxy.async (sm_90+ requires \
         this fence to order cp.async/TMA writes against later accesses through either proxy; \
         bar.sync alone does not provide it)",
    );
    check(
        EvalError::GenericProxyFenceHazard { space: SPACE, addr: 0x10, prior, current },
        "missing fence.proxy.async on Shared[0x10]: read by t3 at pc:12 observed the \
         generic-proxy write write by t0 at pc:4 without an intervening fence.proxy.async by its \
         writer",
    );
    check(
        EvalError::Tcgen05AsyncHazard {
            quadrant: 1,
            start_col: 32,
            num_cols: 64,
            prior,
            current,
        },
        "tcgen05 async hazard on tensor-memory quadrant 1 cols [32, 96): read by t3 at pc:12 \
         conflicts with in-flight write by t0 at pc:4",
    );
}

#[test]
fn register_hazards_name_the_register() {
    check(
        EvalError::WgmmaFenceHazard {
            thread: T,
            pc: PC,
            reg: reg(),
            shape: SHAPE,
            prior_write: Some(prior()),
        },
        "missing wgmma.fence on %r5: t3 at pc:12 accesses %r5 as a wgmma.mma_async .m64n8k16 \
         accumulator, but it was last written by write by t0 at pc:4 with no intervening \
         wgmma.fence (PTX ISA 9.7.17.7.1 requires a fence between a register access and any \
         wgmma.mma_async that accesses the same register, except when both accesses are \
         accumulator accesses of the same shape)",
    );
    check(
        EvalError::WgmmaFenceHazard {
            thread: T,
            pc: PC,
            reg: reg(),
            shape: SHAPE,
            prior_write: None,
        },
        "missing wgmma.fence on %r5: t3 at pc:12 is this warpgroup's first wgmma.mma_async \
         access to %r5 (.m64n8k16), but no wgmma.fence has been executed yet (PTX ISA 9.7.17.7.1 \
         requires a wgmma.fence before the first wgmma.mma_async operation in a warpgroup)",
    );
    check(
        EvalError::WgmmaWaitGroupHazard {
            thread: T,
            pc: PC,
            reg: reg(),
            prior_write: prior(),
        },
        "missing wgmma.wait_group on %r5: t3 at pc:12 accesses %r5, which write by t0 at pc:4 \
         wrote as a wgmma.mma_async accumulator not yet released by a covering wgmma.wait_group \
         (PTX ISA 9.7.17.7.3 makes this undefined behavior unless the access is that same \
         wgmma.mma_async chain's own next same-shape accumulator seed-read or writeback)",
    );
    check(
        EvalError::UninitializedRegister { thread: T, pc: PC, reg: reg() },
        "t3: read of uninitialized register %r5 at pc:12",
    );
}

#[test]
fn memory_errors_name_the_address() {
    check(
        EvalError::UninitializedMemory { thread: T, pc: PC, space: SPACE, addr: 0x20 },
        "t3: read of uninitialized Shared memory at 0x20 (pc:12)",
    );
    check(
        EvalError::OutOfBounds { thread: T, pc: PC, space: SPACE, addr: 0x20, width: 4 },
        "t3: out-of-bounds Shared access at 0x20 (width 4) at pc:12",
    );
    check(
        EvalError::Misaligned { thread: T, pc: PC, space: SPACE, addr: 0x21, required: 4 },
        "t3: misaligned Shared access at 0x21 (must be 4-byte aligned) at pc:12; PTX requires \
         natural alignment, so hardware behavior is undefined",
    );
    check(
        EvalError::WmmaStrideTooSmall { pc: PC, stride: -8, minimum: 16 },
        "wmma stride -8 is below the matrix leading dimension 16 at pc:12; PTX defines strides \
         below the default as undefined behavior",
    );
    let reinterpreted = |found| EvalError::Reinterpretation {
        thread: T,
        pc: PC,
        space: SPACE,
        addr: 0x20,
        width: 2,
        found,
    };
    check(
        reinterpreted(None),
        "t3: unsupported reinterpretation of Shared memory at 0x20 (width 2) at pc:12",
    );
    for (kind, name) in [
        (GranuleKind::Scalar, "scalar"),
        (GranuleKind::Pair, "packed-pair"),
        (GranuleKind::Quad, "packed-quad"),
    ] {
        check(
            reinterpreted(Some((0x1c, 8, kind))),
            &format!(
                "t3: unsupported reinterpretation of Shared memory at 0x20 (width 2) at pc:12; \
                 the bytes belong to a 8-byte {name} granule written at 0x1c"
            ),
        );
    }
    check(
        EvalError::MbarrierOverwrite { thread: T, pc: PC, space: SPACE, addr: 0x20 },
        "t3: ordinary write to Shared memory at 0x20 overwrote a live mbarrier object at pc:12; \
         mbarrier.inval must run first",
    );
    check(
        EvalError::NoLiveMbarrier { thread: T, pc: PC, space: SPACE, addr: 0x20 },
        "t3: no live mbarrier object at Shared[0x20] at pc:12 (never initialized, already \
         invalidated, or holding ordinary data)",
    );
    check(
        EvalError::TensorMapNotFound { thread: T, pc: PC, space: SPACE, addr: 0x20 },
        "t3: pc:12 references a tensor-map object at Shared[0x20] that was never written by \
         tensormap.replace",
    );
    check(
        EvalError::TensorMapFieldMissing { thread: T, pc: PC, field: "rank" },
        "t3: pc:12 uses a tensor-map object missing its `.rank` field",
    );
}

#[test]
fn run_errors_say_what_stopped_the_run() {
    check(
        EvalError::Deadlock { blocked: vec![(T, PC), (ThreadId(1), PC)] },
        "deadlock: 2 thread(s) blocked",
    );
    check(
        EvalError::NotConcrete { thread: T, pc: PC, what: "branch predicate" },
        "t3: branch predicate is symbolic at pc:12; the kernel is not a structured-CTA under \
         this configuration",
    );
    check(
        EvalError::ValueKindMismatch { thread: T, pc: PC, what: "expected scalar" },
        "t3: value kind mismatch (expected scalar) at pc:12",
    );
    check(
        EvalError::UndefinedOutput { array: "out".to_string(), index: 7 },
        "output element out[7] is undefined (uninitialized read)",
    );
    check(EvalError::TrapReached { thread: T, pc: PC }, "t3: trap reached at pc:12");
    check(
        EvalError::InstructionLimit { limit: 100 },
        "instruction limit exceeded (100 instructions)",
    );
    check(
        EvalError::Config { message: "bad".to_string() },
        "configuration error: bad",
    );
    check(
        EvalError::Unsupported { pc: PC, what: Detail::SpaceAccess { space: MemSpace::Const } },
        &format!("unsupported at pc:12: {}", Detail::SpaceAccess { space: MemSpace::Const }.text()),
    );
    check(
        EvalError::Unsupported { pc: PC, what: Detail::NanByte { what: "cvt", byte: 0x7f } },
        "unsupported at pc:12: cvt: source byte 0x7f encodes NaN, which Volta's real-valued \
         model cannot represent",
    );
    check(
        EvalError::WarpMismatch {
            pc: PC,
            reason: WarpFault::ExitedLanes { what: "mma.sync", live: 30 },
        },
        "warp-op mismatch at pc:12: mma.sync requires all 32 warp lanes live, but only 30 are \
         (the PTX ISA defines the instruction as undefined if any thread in the warp has exited)",
    );
}

#[test]
fn tensor_memory_errors_name_the_columns() {
    check(
        EvalError::Tcgen05InvalidColumnCount { thread: T, pc: PC, num_cols: 48 },
        "t3: tcgen05.alloc nCols=48 at pc:12 must be a power of 2 in [32, 512]",
    );
    check(
        EvalError::Tcgen05OutOfSpace { thread: T, pc: PC, requested: 64, available: 32 },
        "t3: tcgen05.alloc requested 64 tensor-memory column(s) at pc:12 but only 32 remain \
         unallocated",
    );
    check(
        EvalError::Tcgen05AllocAfterRelinquish { thread: T, pc: PC },
        "t3: tcgen05.alloc at pc:12 after this CTA relinquished its allocation permit",
    );
    check(
        EvalError::Tcgen05DeallocMismatch { thread: T, pc: PC, taddr: 32, num_cols: 64 },
        "t3: tcgen05.dealloc at pc:12 of (taddr=0x20, nCols=64) does not match any live \
         allocation",
    );
    check(
        EvalError::Tcgen05NotAllocated { thread: T, pc: PC, lane: 2, col: 40 },
        "t3: tcgen05.ld/.st at pc:12 touched tensor-memory (lane=2, col=40) outside any live \
         allocation",
    );
    check(
        EvalError::Tcgen05LaneRestrictionViolation {
            thread: T,
            pc: PC,
            lane_base: 32,
            expected_quadrant_base: 0,
        },
        "t3: tcgen05.ld/.st at pc:12 addresses tensor-memory lane quadrant 32 - the issuing warp \
         may only access its own quadrant, starting at lane 0",
    );
}
