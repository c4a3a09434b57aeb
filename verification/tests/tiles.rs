//! Matrix operations on symbolic tiles: every result element is compared
//! with the sum of products it stands for, at chosen input values.

use volta_analysis::driver::analyze_program;
use volta_analysis::eval::config::{AnalysisConfig, ArrayDef, ArrayKind};
use volta_analysis::eval::error::EvalError;
use volta_analysis::eval::outputs::AnalysisOutput;
use volta_analysis::eval::target::TargetFeatures;
use volta_analysis::lowered::{
    BinOp, CmpOp, CpAsyncSrcSize, InstrId, LoweredInstr, LoweredProgram, MemSpace, Operand,
    Predicate, Tcgen05MmaKind,
};
use volta_analysis::symbolic::arena::{ExprArena, ExprNode};
use volta_analysis::symbolic::ExprId;
use volta_analysis::symbols::{RegId, SharedVar, SpecialRegKind, SymbolTable};
use volta_analysis::tensor_core::{group_element, Fragment, MmaLayout, MmaOperand, MmaShape};
use volta_analysis::tensor_map::{
    TensorElemType, TensorFillMode, TensorInterleaveLayout, TensorSwizzleAtomicity,
    TensorSwizzleMode, TensormapFieldWrite,
};
use volta_analysis::types::{RegClass, RegCounts, ScalarType};

const SHARED: MemSpace = MemSpace::Shared;
const GLOBAL: MemSpace = MemSpace::Global;

fn h(n: u32) -> RegId {
    RegId::new(RegClass::Bits16, n)
}

fn r(n: u32) -> RegId {
    RegId::new(RegClass::Bits32, n)
}

fn rd(n: u32) -> RegId {
    RegId::new(RegClass::Bits64, n)
}

fn p(n: u32) -> RegId {
    RegId::new(RegClass::Pred, n)
}

fn reg(x: RegId) -> Operand {
    Operand::Reg(x)
}

fn regs(from: u32, n: u32) -> Vec<RegId> {
    (from..from + n).map(r).collect()
}

fn imm(v: i64) -> Operand {
    Operand::ImmI64(v)
}

const A: i64 = 0x10000;
const B: i64 = 0x20000;
const OUT: i64 = 0x30000;
const MAP: i64 = 0x40000;

/// A kernel under construction.
struct Kernel {
    lines: Vec<(LoweredInstr, Option<Predicate>)>,
}

impl Kernel {
    fn new() -> Kernel {
        let mut k = Kernel { lines: vec![] };
        k.put(LoweredInstr::Mov {
            dst: r(0),
            src: Operand::SpecialReg(SpecialRegKind::TidX),
            ty: ScalarType::U32,
        });
        k.put(LoweredInstr::Setp {
            cmp: CmpOp::Eq,
            dst: p(0),
            src_a: reg(r(0)),
            src_b: imm(0),
            ty: ScalarType::S32,
        });
        k
    }

    fn put(&mut self, i: LoweredInstr) {
        self.lines.push((i, None));
    }

    /// An instruction for the threads whose predicate holds.
    fn put_if(&mut self, pred: RegId, i: LoweredInstr) {
        self.lines.push((
            i,
            Some(Predicate {
                reg: pred,
                negated: false,
            }),
        ));
    }

    /// An instruction of the first thread alone.
    fn first(&mut self, i: LoweredInstr) {
        self.put_if(p(0), i);
    }

    fn op(&mut self, op: BinOp, dst: RegId, a: Operand, b: Operand, ty: ScalarType) {
        self.put(LoweredInstr::BinOp {
            op,
            dst,
            src_a: a,
            src_b: b,
            ty,
            clamp: None,
        });
    }

    /// `dst = table[tid]`, by a chain of selections.
    fn pick(&mut self, dst: RegId, table: &[i64]) {
        self.put(LoweredInstr::Mov {
            dst,
            src: imm(table[0]),
            ty: ScalarType::S64,
        });
        for (t, &v) in table.iter().enumerate().skip(1) {
            self.put(LoweredInstr::Setp {
                cmp: CmpOp::Eq,
                dst: p(1),
                src_a: reg(r(0)),
                src_b: imm(t as i64),
                ty: ScalarType::S32,
            });
            self.put_if(
                p(1),
                LoweredInstr::Mov {
                    dst,
                    src: imm(v),
                    ty: ScalarType::S64,
                },
            );
        }
    }

    fn load(&mut self, space: MemSpace, dst: RegId, base: Operand, ty: ScalarType) {
        self.put(LoweredInstr::Load {
            dst,
            space,
            base,
            offset: 0,
            ty,
        });
    }

    fn store(&mut self, base: Operand, offset: i64, src: RegId, ty: ScalarType) {
        self.put(LoweredInstr::Store {
            space: GLOBAL,
            base,
            offset,
            src: reg(src),
            ty,
        });
    }

    /// Copies `16 * chunks` bytes from global `from` to shared `to`, one
    /// chunk to a thread.
    fn stage(&mut self, from: i64, to: i64, chunks: i64) {
        self.put(LoweredInstr::Setp {
            cmp: CmpOp::Lt,
            dst: p(2),
            src_a: reg(r(0)),
            src_b: imm(chunks),
            ty: ScalarType::S32,
        });
        self.put(LoweredInstr::MulWide {
            dst: rd(20),
            src_a: reg(r(0)),
            src_b: imm(16),
            src_ty: ScalarType::U32,
        });
        self.put_if(
            p(2),
            LoweredInstr::CpAsync {
                dst_base: reg(rd(20)),
                dst_offset: to,
                src_base: reg(rd(20)),
                src_offset: from,
                cp_size: 16,
                src_size: CpAsyncSrcSize::Full,
            },
        );
    }

    fn staged(&mut self) {
        self.put(LoweredInstr::CpAsyncCommitGroup);
        self.put(LoweredInstr::CpAsyncWaitGroup { n: 0 });
        self.put(LoweredInstr::BarSync { barrier_id: 0 });
    }

    fn finish(mut self) -> LoweredProgram {
        self.put(LoweredInstr::Exit);
        let (instructions, predicates) = self.lines.into_iter().unzip();
        LoweredProgram::new(
            instructions,
            predicates,
            SymbolTable {
                params: vec![],
                global_vars: vec![],
                module_global_size: 0,
                shared_vars: vec![SharedVar {
                    offset: 0,
                    size_bytes: 0x4000,
                    is_extern: false,
                }],
                extern_shared_base: None,
                local_vars: vec![],
                reg_counts: RegCounts {
                    pred: 4,
                    bits8: 0,
                    bits16: 8,
                    bits32: 64,
                    bits64: 32,
                    bits128: 0,
                },
                reg_names: vec![],
            },
            vec![],
            InstrId(0),
        )
    }
}

fn array(name: &str, base: i64, elem_width: u64, len: u64, kind: ArrayKind) -> ArrayDef {
    ArrayDef {
        name: name.to_string(),
        base: base as u64,
        elem_width,
        len,
        kind,
    }
}

/// Half-precision inputs `a` and `b` and an output.
fn run_with(
    threads: u32,
    k: Kernel,
    out_width: u64,
    features: TargetFeatures,
) -> Result<AnalysisOutput, EvalError> {
    let mut c = AnalysisConfig::new((threads, 1, 1));
    c.arrays.push(array("a", A, 2, 4096, ArrayKind::Input));
    c.arrays.push(array("b", B, 2, 4096, ArrayKind::Input));
    c.arrays
        .push(array("out", OUT, out_width, 4096, ArrayKind::Output));
    c.arrays.push(array("map", MAP, 4, 32, ArrayKind::Input));
    analyze_program(&k.finish(), c, features)
}

fn plain() -> TargetFeatures {
    TargetFeatures {
        async_proxy_fence: false,
    }
}

fn run(threads: u32, k: Kernel, out_width: u64) -> AnalysisOutput {
    match run_with(threads, k, out_width, plain()) {
        Ok(o) => o,
        Err(e) => panic!("{}", e.text()),
    }
}

/// The value given to an input element.
fn input(name: &str, i: u64) -> i64 {
    let seed = if name == "a" { 7 } else { 13 };
    ((i * seed + i / 5) % 11) as i64 - 5
}

fn value(arena: &ExprArena, e: ExprId) -> i64 {
    match arena.node(e) {
        ExprNode::IntConst(v) => v,
        ExprNode::RealConst(c) => c.as_integer().unwrap() as i64,
        ExprNode::InputElement(s, i) => input(&arena.string(s), i),
        ExprNode::ToFloat(x) => value(arena, x),
        ExprNode::Add(x, y) => value(arena, x) + value(arena, y),
        ExprNode::Mul(x, y) => value(arena, x) * value(arena, y),
        ExprNode::Fma(x, y, z) => value(arena, x) * value(arena, y) + value(arena, z),
        other => panic!("no value for {other:?}"),
    }
}

/// Checks that the output is `rows x cols` sums of `depth` products, where
/// the elements of `A` and `B` are given by their indices.
fn check_product(
    o: &AnalysisOutput,
    rows: u64,
    cols: u64,
    depth: u64,
    a: impl Fn(u64, u64) -> u64,
    b: impl Fn(u64, u64) -> u64,
) {
    let elems = &o.outputs[0].1;
    assert_eq!(elems.len() as u64, rows * cols);
    for &(i, e) in elems {
        let (row, col) = (i / cols, i % cols);
        let want: i64 = (0..depth)
            .map(|k| input("a", a(row, k)) * input("b", b(k, col)))
            .sum();
        assert_eq!(value(&o.arena, e), want, "row {row} col {col}");
    }
}

// ---------------------------------------------------------------------------
// Warps
// ---------------------------------------------------------------------------

#[test]
fn matrices_load_and_store_by_lanes() {
    for trans in [false, true] {
        let mut k = Kernel::new();
        k.stage(A, 0, 8);
        k.staged();
        k.put(LoweredInstr::MulWide {
            dst: rd(1),
            src_a: reg(r(0)),
            src_b: imm(16),
            src_ty: ScalarType::U32,
        });
        // Only the first eight lanes name rows.
        k.op(BinOp::Rem, rd(1), reg(rd(1)), imm(128), ScalarType::U64);
        k.put(LoweredInstr::Ldmatrix {
            dst: vec![r(5)],
            addr: reg(rd(1)),
            addr_offset: 0,
            num: 1,
            trans,
        });
        k.put(LoweredInstr::Stmatrix {
            addr: reg(rd(1)),
            addr_offset: 1024,
            src: vec![reg(r(5))],
            num: 1,
            trans: false,
        });
        k.put(LoweredInstr::BarSync { barrier_id: 0 });
        k.put(LoweredInstr::MulWide {
            dst: rd(2),
            src_a: reg(r(0)),
            src_b: imm(4),
            src_ty: ScalarType::U32,
        });
        k.op(BinOp::Add, rd(3), reg(rd(2)), imm(1024), ScalarType::S64);
        k.load(SHARED, r(6), reg(rd(3)), ScalarType::B32);
        k.put(LoweredInstr::UnpackHalves {
            lo: Some(h(0)),
            hi: Some(h(1)),
            src: reg(r(6)),
            ty: ScalarType::B32,
        });
        k.op(BinOp::Add, rd(4), reg(rd(2)), imm(OUT), ScalarType::S64);
        k.store(reg(rd(4)), 0, h(0), ScalarType::B16);
        k.store(reg(rd(4)), 2, h(1), ScalarType::B16);
        let o = run(32, k, 2);
        assert_eq!(o.outputs[0].1.len(), 64);
        for &(i, e) in &o.outputs[0].1 {
            let (row, col) = (i / 8, i % 8);
            let from = if trans { col * 8 + row } else { i };
            assert_eq!(value(&o.arena, e), input("a", from), "trans {trans} element {i}");
        }
    }
}

#[test]
fn a_warp_multiplies_its_fragments() {
    let mut k = Kernel::new();
    // Row-major A of 16 columns, B stored by columns of 16.
    for reg_idx in 0..4u32 {
        let table: Vec<i64> = (0..32)
            .map(|lane| {
                let e = Fragment::NarrowA.element(lane, 2 * reg_idx);
                A + (e.row as i64 * 16 + e.col as i64) * 2
            })
            .collect();
        k.pick(rd(1), &table);
        k.load(GLOBAL, r(10 + reg_idx), reg(rd(1)), ScalarType::B32);
    }
    for reg_idx in 0..2u32 {
        let table: Vec<i64> = (0..32)
            .map(|lane| {
                let e = Fragment::NarrowB.element(lane, 2 * reg_idx);
                B + (e.col as i64 * 16 + e.row as i64) * 2
            })
            .collect();
        k.pick(rd(1), &table);
        k.load(GLOBAL, r(14 + reg_idx), reg(rd(1)), ScalarType::B32);
    }
    k.put(LoweredInstr::Mma {
        shape: MmaShape::new(16, 8, 16),
        dst: regs(20, 4),
        src_a: regs(10, 4),
        src_b: regs(14, 2),
        src_c: vec![Operand::ImmF64(0); 4],
        a_layout: MmaLayout::Row,
        b_layout: MmaLayout::Col,
        a_type: ScalarType::F16,
        b_type: ScalarType::F16,
        d_type: ScalarType::F32,
        c_type: ScalarType::F32,
    });
    for i in 0..4u32 {
        let table: Vec<i64> = (0..32)
            .map(|lane| {
                let e = Fragment::NarrowC.element(lane, i);
                OUT + (e.row as i64 * 8 + e.col as i64) * 4
            })
            .collect();
        k.pick(rd(1), &table);
        k.store(reg(rd(1)), 0, r(20 + i), ScalarType::F32);
    }
    let o = run(32, k, 4);
    check_product(&o, 16, 8, 16, |m, k| m * 16 + k, |k, n| n * 16 + k);
}

#[test]
fn a_warp_multiplies_whole_matrices() {
    for b_layout in [MmaLayout::Row, MmaLayout::Col] {
        let shape = MmaShape::new(16, 16, 16);
        let mut k = Kernel::new();
        let mut fragment = |operand, layout, dst, base| {
            k.put(LoweredInstr::WmmaLoad {
                operand,
                shape,
                layout,
                dst,
                addr: imm(base),
                addr_offset: 0,
                stride: imm(16),
                elem_type: ScalarType::F16,
                space: GLOBAL,
            })
        };
        fragment(MmaOperand::A, MmaLayout::Row, regs(8, 8), A);
        fragment(MmaOperand::B, b_layout, regs(16, 8), B);
        for i in 24..32 {
            k.put(LoweredInstr::Mov {
                dst: r(i),
                src: Operand::ImmF64(0),
                ty: ScalarType::F32,
            });
        }
        k.put(LoweredInstr::WmmaMma {
            shape,
            dst: regs(32, 8),
            src_a: regs(8, 8),
            src_b: regs(16, 8),
            src_c: regs(24, 8),
            a_layout: MmaLayout::Row,
            b_layout,
            d_type: ScalarType::F32,
            c_type: ScalarType::F32,
        });
        k.put(LoweredInstr::WmmaStore {
            shape,
            layout: MmaLayout::Row,
            src: regs(32, 8),
            addr: imm(OUT),
            addr_offset: 0,
            stride: imm(16),
            elem_type: ScalarType::F32,
            space: GLOBAL,
        });
        let o = run(32, k, 4);
        check_product(
            &o,
            16,
            16,
            16,
            |m, k| m * 16 + k,
            |k, n| if b_layout == MmaLayout::Row { k * 16 + n } else { n * 16 + k },
        );
    }
}

#[test]
fn a_stride_below_the_matrix_is_refused() {
    let mut k = Kernel::new();
    k.put(LoweredInstr::WmmaLoad {
        operand: MmaOperand::A,
        shape: MmaShape::new(16, 16, 16),
        layout: MmaLayout::Row,
        dst: regs(8, 8),
        addr: imm(A),
        addr_offset: 0,
        stride: imm(8),
        elem_type: ScalarType::F16,
        space: GLOBAL,
    });
    assert!(matches!(
        run_with(32, k, 4, plain()),
        Err(EvalError::WmmaStrideTooSmall { stride: 8, minimum: 16, .. })
    ));
}

// ---------------------------------------------------------------------------
// Warpgroups
// ---------------------------------------------------------------------------

/// A descriptor of an unswizzled matrix with the given row pitch.
fn descriptor(start: i64, pitch: i64) -> Operand {
    imm((start >> 4) | ((pitch >> 4) << 32))
}

fn group_kernel(fence: bool, wait: bool) -> Kernel {
    let mut k = Kernel::new();
    k.stage(A, 0, 128);
    k.stage(B, 0x1000, 16);
    k.staged();
    if fence {
        k.put(LoweredInstr::WgmmaFence);
    }
    k.put(LoweredInstr::WgmmaMmaAsync {
        shape: MmaShape::new(64, 8, 16),
        dst: regs(20, 4),
        a_desc: descriptor(0, 32),
        b_desc: descriptor(0x1000, 32),
        scale_d: imm(0),
        a_type: ScalarType::F16,
        b_type: ScalarType::F16,
        transpose_a: false,
        transpose_b: false,
    });
    k.put(LoweredInstr::WgmmaCommitGroup);
    if wait {
        k.put(LoweredInstr::WgmmaWaitGroup { n: 0 });
    }
    for i in 0..4u32 {
        let table: Vec<i64> = (0..128)
            .map(|lane| {
                let e = group_element(lane, i);
                OUT + (e.row as i64 * 8 + e.col as i64) * 4
            })
            .collect();
        k.pick(rd(1), &table);
        k.store(reg(rd(1)), 0, r(20 + i), ScalarType::F32);
    }
    k
}

#[test]
fn a_warpgroup_multiplies_shared_tiles() {
    let o = run(128, group_kernel(true, true), 4);
    check_product(&o, 64, 8, 16, |m, k| m * 16 + k, |k, n| n * 16 + k);
}

#[test]
fn warpgroup_products_need_their_fence_and_wait() {
    assert!(matches!(
        run_with(128, group_kernel(false, true), 4, plain()),
        Err(EvalError::WgmmaFenceHazard { prior_write: None, .. })
    ));
    assert!(matches!(
        run_with(128, group_kernel(true, false), 4, plain()),
        Err(EvalError::WgmmaWaitGroupHazard { .. })
    ));
}

#[test]
fn async_reads_of_staged_tiles_need_a_proxy_fence() {
    let strict = TargetFeatures {
        async_proxy_fence: true,
    };
    let e = run_with(128, group_kernel(true, true), 4, strict).err().unwrap();
    assert!(
        matches!(
            e,
            EvalError::AsyncProxyFenceHazard { .. } | EvalError::GenericProxyFenceHazard { .. }
        ),
        "{}",
        e.text()
    );
}

// ---------------------------------------------------------------------------
// Tensor memory
// ---------------------------------------------------------------------------

#[test]
fn one_thread_multiplies_into_tensor_memory() {
    let n = 16i64;
    let mut k = Kernel::new();
    // 128x16 halves for A, 16x16 for B.
    k.stage(A, 0, 128);
    k.op(BinOp::Add, rd(21), reg(rd(20)), imm(0), ScalarType::S64);
    k.put(LoweredInstr::CpAsync {
        dst_base: reg(rd(21)),
        dst_offset: 2048,
        src_base: reg(rd(21)),
        src_offset: A + 2048,
        cp_size: 16,
        src_size: CpAsyncSrcSize::Full,
    });
    k.stage(B, 0x2000, 32);
    k.staged();
    k.first(LoweredInstr::MbarrierInit {
        addr_base: imm(0x3000),
        addr_offset: 0,
        count: imm(1),
    });
    k.put(LoweredInstr::Setp {
        cmp: CmpOp::Lt,
        dst: p(3),
        src_a: reg(r(0)),
        src_b: imm(32),
        ty: ScalarType::S32,
    });
    k.put_if(
        p(3),
        LoweredInstr::Tcgen05Alloc {
            dst_base: imm(0x3100),
            dst_offset: 0,
            num_cols: 32,
        },
    );
    k.put(LoweredInstr::BarSync { barrier_id: 0 });
    k.first(LoweredInstr::Tcgen05Mma {
        kind: Tcgen05MmaKind::F16,
        d_tmem_base: imm(0),
        d_tmem_offset: 0,
        a_desc: descriptor(0, 32),
        b_desc: descriptor(0x2000, 32),
        idesc: imm((1 << 4) | ((n >> 3) << 17) | ((128 >> 4) << 24)),
        disable_output_lane: vec![],
        enable_input_d: imm(0),
    });
    k.first(LoweredInstr::Tcgen05Commit {
        addr_base: imm(0x3000),
        addr_offset: 0,
    });
    k.put(LoweredInstr::MbarrierWaitParity {
        wait_complete: p(1),
        addr_base: imm(0x3000),
        addr_offset: 0,
        phase_parity: imm(0),
    });
    let table: Vec<i64> = (0..128).map(|t| (t / 32 * 32) << 16).collect();
    k.pick(rd(1), &table);
    k.put(LoweredInstr::Tcgen05Ld {
        dst: regs(20, n as u32),
        taddr_base: reg(rd(1)),
        taddr_offset: 0,
    });
    k.put(LoweredInstr::Tcgen05Wait { is_st: false });
    k.put(LoweredInstr::MulWide {
        dst: rd(2),
        src_a: reg(r(0)),
        src_b: imm(4 * n),
        src_ty: ScalarType::U32,
    });
    k.op(BinOp::Add, rd(3), reg(rd(2)), imm(OUT), ScalarType::S64);
    for col in 0..n {
        k.store(reg(rd(3)), 4 * col, r(20 + col as u32), ScalarType::F32);
    }
    let o = run(128, k, 4);
    check_product(&o, 128, n as u64, 16, |m, k| m * 16 + k, |k, n| n * 16 + k);
}

// ---------------------------------------------------------------------------
// Tensor maps
// ---------------------------------------------------------------------------

fn bulk_kernel(rank: bool) -> Kernel {
    let mut k = Kernel::new();
    let mut field = |field| {
        k.put(LoweredInstr::TensormapReplace {
            space: GLOBAL,
            addr_base: imm(MAP),
            addr_offset: 0,
            field,
        })
    };
    field(TensormapFieldWrite::GlobalAddress(imm(A)));
    if rank {
        field(TensormapFieldWrite::Rank(imm(1)));
    }
    for (ord, size) in [(0, 8), (1, 4)] {
        field(TensormapFieldWrite::BoxDim {
            ord,
            new_val: imm(size),
        });
        field(TensormapFieldWrite::ElementStride {
            ord,
            new_val: imm(1),
        });
    }
    // A tensor of 20 columns and 30 rows.
    field(TensormapFieldWrite::GlobalDim {
        ord: 0,
        new_val: imm(20),
    });
    field(TensormapFieldWrite::GlobalDim {
        ord: 1,
        new_val: imm(30),
    });
    field(TensormapFieldWrite::GlobalStride {
        ord: 0,
        new_val: imm(48),
    });
    field(TensormapFieldWrite::Elemtype(TensorElemType::F16));
    field(TensormapFieldWrite::InterleaveLayout(
        TensorInterleaveLayout::NoInterleave,
    ));
    field(TensormapFieldWrite::SwizzleMode(TensorSwizzleMode::NoSwizzle));
    field(TensormapFieldWrite::SwizzleAtomicity(
        TensorSwizzleAtomicity::Atomicity16B,
    ));
    field(TensormapFieldWrite::FillMode(TensorFillMode::Zero));
    k.put(LoweredInstr::MbarrierInit {
        addr_base: imm(0x3000),
        addr_offset: 0,
        count: imm(1),
    });
    k.put(LoweredInstr::MbarrierArrive {
        state: None,
        addr_base: imm(0x3000),
        addr_offset: 0,
        count: None,
        expect_tx: Some(imm(64)),
    });
    k.put(LoweredInstr::CpAsyncBulkTensorLoad {
        dst_base: imm(0),
        dst_offset: 0,
        tensormap_space: GLOBAL,
        tensormap_base: imm(MAP),
        tensormap_offset: 0,
        coords: vec![imm(16), imm(28)],
        mbar_base: imm(0x3000),
        mbar_offset: 0,
    });
    k.put(LoweredInstr::MbarrierWaitParity {
        wait_complete: p(1),
        addr_base: imm(0x3000),
        addr_offset: 0,
        phase_parity: imm(0),
    });
    for i in 0..32 {
        k.load(SHARED, h(0), imm(2 * i), ScalarType::B16);
        k.store(imm(OUT), 2 * i, h(0), ScalarType::B16);
    }
    k
}

#[test]
fn a_tensor_copy_fills_what_lies_outside() {
    let o = run(1, bulk_kernel(true), 2);
    assert_eq!(o.outputs[0].1.len(), 32);
    for &(i, e) in &o.outputs[0].1 {
        let (col, row) = (16 + i % 8, 28 + i / 8);
        let want = if col < 20 && row < 30 {
            input("a", row * 24 + col)
        } else {
            0
        };
        assert_eq!(value(&o.arena, e), want, "col {col} row {row}");
    }
}

#[test]
fn a_tensor_copy_needs_every_field() {
    assert!(matches!(
        run_with(1, bulk_kernel(false), 2, plain()),
        Err(EvalError::TensorMapFieldMissing { .. })
    ));
}
