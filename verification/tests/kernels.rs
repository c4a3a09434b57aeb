//! Small kernels, run to their outputs or to the error they deserve.

use volta_analysis::driver::{analyze_kernel, analyze_program, Function, Module, TopLevelItem};
use volta_analysis::eval::config::{AnalysisConfig, ArrayDef, ArrayKind, ParamValue};
use volta_analysis::eval::error::{EvalError, WarpFault};
use volta_analysis::eval::interp::Interpreter;
use volta_analysis::eval::outputs::AnalysisOutput;
use volta_analysis::eval::target::TargetFeatures;
use volta_analysis::eval::ThreadId;
use volta_analysis::lowered::{
    BinOp, CmpOp, CpAsyncSrcSize, InstrId, LoweredInstr, LoweredProgram, MemSpace, Operand,
    Predicate, ShflMode,
};
use volta_analysis::symbolic::arena::{ExprArena, ExprNode};
use volta_analysis::symbolic::ExprId;
use volta_analysis::symbols::{
    GlobalVar, ParamId, RegId, SharedVar, SpecialRegKind, SymbolTable, MODULE_GLOBAL_BASE,
};
use volta_analysis::tensor_core::{MmaLayout, MmaShape};
use volta_analysis::types::{RegClass, RegCounts, ScalarType};

const SHARED: MemSpace = MemSpace::Shared;
const GLOBAL: MemSpace = MemSpace::Global;

fn r(n: u32) -> RegId {
    RegId::new(RegClass::Bits32, n)
}

fn rd(n: u32) -> RegId {
    RegId::new(RegClass::Bits64, n)
}

fn p(n: u32) -> RegId {
    RegId::new(RegClass::Pred, n)
}

fn reg(x: RegId) -> Operand {
    Operand::Reg(x)
}

fn imm(v: i64) -> Operand {
    Operand::ImmI64(v)
}

fn tid() -> Operand {
    Operand::SpecialReg(SpecialRegKind::TidX)
}

/// One instruction, with its guard.
type Line = (LoweredInstr, Option<Predicate>);

fn always(i: LoweredInstr) -> Line {
    (i, None)
}

fn when(pred: RegId, i: LoweredInstr) -> Line {
    (
        i,
        Some(Predicate {
            reg: pred,
            negated: false,
        }),
    )
}

fn symbols(params: usize) -> SymbolTable {
    SymbolTable {
        params: (0..params).map(|i| format!("p{i}")).collect(),
        global_vars: vec![],
        module_global_size: 0,
        shared_vars: vec![SharedVar {
            offset: 0,
            size_bytes: 4096,
            is_extern: false,
        }],
        extern_shared_base: None,
        local_vars: vec![],
        reg_counts: RegCounts {
            pred: 8,
            bits8: 4,
            bits16: 4,
            bits32: 64,
            bits64: 32,
            bits128: 2,
        },
        reg_names: vec![(r(1), "%lane".to_string())],
    }
}

fn program_of(symbols: SymbolTable, lines: Vec<Line>) -> LoweredProgram {
    let (instructions, predicates): (Vec<_>, Vec<_>) = lines.into_iter().unzip();
    LoweredProgram::new(instructions, predicates, symbols, vec![], InstrId(0))
}

fn program(params: usize, lines: Vec<Line>) -> LoweredProgram {
    program_of(symbols(params), lines)
}

fn array(name: &str, base: u64, elem_width: u64, len: u64, kind: ArrayKind) -> ArrayDef {
    ArrayDef {
        name: name.to_string(),
        base,
        elem_width,
        len,
        kind,
    }
}

/// Arrays `a` and `b` as inputs and `out` as output, each of 64 words.
fn config(threads: u32) -> AnalysisConfig {
    let mut c = AnalysisConfig::new((threads, 1, 1));
    c.arrays.push(array("a", 0x1000, 4, 64, ArrayKind::Input));
    c.arrays.push(array("b", 0x2000, 4, 64, ArrayKind::Input));
    c.arrays.push(array("out", 0x3000, 4, 64, ArrayKind::Output));
    c
}

const A: i64 = 0x1000;
const B: i64 = 0x2000;
const OUT: i64 = 0x3000;

fn features() -> TargetFeatures {
    TargetFeatures {
        async_proxy_fence: false,
    }
}

fn analyze(program: &LoweredProgram, config: AnalysisConfig) -> Result<AnalysisOutput, EvalError> {
    analyze_program(program, config, features())
}

fn run(threads: u32, lines: Vec<Line>) -> Result<AnalysisOutput, EvalError> {
    analyze(&program(0, lines), config(threads))
}

fn fails(threads: u32, lines: Vec<Line>) -> EvalError {
    match run(threads, lines) {
        Err(e) => e,
        Ok(_) => panic!("the kernel should not succeed"),
    }
}

// ---------------------------------------------------------------------------
// Instructions
// ---------------------------------------------------------------------------

fn mov(dst: RegId, src: Operand) -> Line {
    always(LoweredInstr::Mov {
        dst,
        src,
        ty: ScalarType::B32,
    })
}

fn mov64(dst: RegId, src: Operand) -> Line {
    always(LoweredInstr::Mov {
        dst,
        src,
        ty: ScalarType::B64,
    })
}

fn binop(op: BinOp, dst: RegId, src_a: Operand, src_b: Operand, ty: ScalarType) -> Line {
    always(LoweredInstr::BinOp {
        op,
        dst,
        src_a,
        src_b,
        ty,
        clamp: None,
    })
}

fn load(space: MemSpace, dst: RegId, base: Operand, offset: i64) -> Line {
    always(LoweredInstr::Load {
        dst,
        space,
        base,
        offset,
        ty: ScalarType::F32,
    })
}

fn store(space: MemSpace, base: Operand, offset: i64, src: Operand) -> Line {
    always(LoweredInstr::Store {
        space,
        base,
        offset,
        src,
        ty: ScalarType::F32,
    })
}

fn setp(cmp: CmpOp, dst: RegId, src_a: Operand, src_b: Operand) -> Line {
    always(LoweredInstr::Setp {
        cmp,
        dst,
        src_a,
        src_b,
        ty: ScalarType::S32,
    })
}

fn bar(id: u32) -> Line {
    always(LoweredInstr::BarSync { barrier_id: id })
}

fn exit() -> Line {
    always(LoweredInstr::Exit)
}

/// Puts `4 * tid` into `rd(0)`.
fn offsets() -> Vec<Line> {
    vec![
        mov(r(0), tid()),
        always(LoweredInstr::MulWide {
            dst: rd(0),
            src_a: reg(r(0)),
            src_b: imm(4),
            src_ty: ScalarType::U32,
        }),
    ]
}

fn kernel(body: Vec<Line>) -> Vec<Line> {
    let mut lines = offsets();
    lines.extend(body);
    lines.push(exit());
    lines
}

/// `dst = rd(0) + base`.
fn at(dst: RegId, base: i64) -> Line {
    binop(BinOp::Add, dst, reg(rd(0)), imm(base), ScalarType::S64)
}

fn out(o: &AnalysisOutput) -> &Vec<(u64, ExprId)> {
    &o.outputs[0].1
}

fn is_input(arena: &ExprArena, e: ExprId, name: &str, index: u64) -> bool {
    match arena.node(e) {
        ExprNode::InputElement(s, i) => arena.string(s) == name && i == index,
        _ => false,
    }
}

// ---------------------------------------------------------------------------
// Element-wise kernels
// ---------------------------------------------------------------------------

fn sum_kernel() -> Vec<Line> {
    kernel(vec![
        at(rd(1), A),
        at(rd(2), B),
        at(rd(3), OUT),
        load(GLOBAL, r(2), reg(rd(1)), 0),
        load(GLOBAL, r(3), reg(rd(2)), 0),
        binop(BinOp::Add, r(4), reg(r(2)), reg(r(3)), ScalarType::F32),
        store(GLOBAL, reg(rd(3)), 0, reg(r(4))),
    ])
}

#[test]
fn each_thread_adds_its_elements() {
    let o = run(4, sum_kernel()).unwrap();
    assert_eq!(o.outputs.len(), 1);
    assert_eq!(o.outputs[0].0, "out");
    let indices: Vec<u64> = out(&o).iter().map(|e| e.0).collect();
    assert_eq!(indices, [0, 1, 2, 3]);
    for &(i, e) in out(&o) {
        match o.arena.node(e) {
            ExprNode::Add(x, y) => {
                assert!(is_input(&o.arena, x, "a", i));
                assert!(is_input(&o.arena, y, "b", i));
            }
            other => panic!("element {i} is {other:?}"),
        }
    }
    assert_eq!(o.stats.instructions, 4 * 10);
    let counts: Vec<(&str, u64)> = o.op_counts.clone();
    assert_eq!(
        counts,
        [
            ("BinOp", 16),
            ("Exit", 4),
            ("Load", 8),
            ("Mov", 4),
            ("MulWide", 4),
            ("Store", 4)
        ]
    );
}

#[test]
fn runs_are_repeatable() {
    let (x, y) = (run(8, sum_kernel()).unwrap(), run(8, sum_kernel()).unwrap());
    assert_eq!(x.outputs, y.outputs);
    assert_eq!(x.arena.node_count(), y.arena.node_count());
}

#[test]
fn parameters_reach_the_kernel() {
    let lines = vec![
        always(LoweredInstr::LoadParam {
            dst: rd(1),
            param_id: ParamId(0),
        }),
        always(LoweredInstr::LoadParam {
            dst: r(1),
            param_id: ParamId(1),
        }),
        always(LoweredInstr::LoadParam {
            dst: r(2),
            param_id: ParamId(2),
        }),
        binop(BinOp::Mul, r(3), reg(r(1)), reg(r(2)), ScalarType::F32),
        store(GLOBAL, reg(rd(1)), 8, reg(r(3))),
        exit(),
    ];
    let mut c = config(1);
    c.params = vec![
        ParamValue::ArrayPtr("out".to_string()),
        ParamValue::SymFloat("alpha".to_string()),
        ParamValue::Float(0.5f64.to_bits()),
    ];
    let o = analyze(&program(3, lines), c).unwrap();
    let (index, e) = out(&o)[0];
    assert_eq!(index, 2);
    match o.arena.node(e) {
        ExprNode::Mul(x, y) => {
            assert!(matches!(o.arena.node(x), ExprNode::ParamSymbol(s)
                if o.arena.string(s) == "alpha"));
            match o.arena.node(y) {
                ExprNode::RealConst(c) => assert_eq!(c.text(), "1/2"),
                other => panic!("{other:?}"),
            }
        }
        other => panic!("{other:?}"),
    }
}

#[test]
fn modules_are_analyzed_by_kernel() {
    let module: Module<(), ()> = Module {
        items: vec![TopLevelItem::Entry(Function {
            name: "sum".to_string(),
            body: (),
        })],
    };
    let lowered = program(0, sum_kernel());
    let o = analyze_kernel(&module, Some("sum"), Ok(&lowered), config(2), features()).unwrap();
    assert_eq!(out(&o).len(), 2);
    let missing = analyze_kernel(&module, Some("max"), Ok(&lowered), config(2), features());
    assert_eq!(
        missing.err().unwrap().text(),
        "no kernel named 'max' in module"
    );
    let failed = analyze_kernel(
        &module,
        None,
        Err("no label".to_string()),
        config(2),
        features(),
    );
    assert_eq!(failed.err().unwrap().text(), "lowering failed: no label");
    let refused = analyze_kernel(&module, None, Ok(&lowered), config(0), features());
    assert_eq!(
        refused.err().unwrap().text(),
        "configuration error: block has zero threads"
    );
}

// ---------------------------------------------------------------------------
// Races and barriers
// ---------------------------------------------------------------------------

#[test]
fn an_unsynchronized_exchange_is_a_race() {
    let e = fails(
        2,
        kernel(vec![
            store(SHARED, reg(rd(0)), 0, imm(1)),
            load(SHARED, r(2), imm(0), 0),
        ]),
    );
    match e {
        EvalError::DataRace { space, addr, prior, current } => {
            assert_eq!((space, addr), (SHARED, 0));
            assert_eq!((prior.thread, prior.is_write), (ThreadId(0), true));
            assert_eq!((current.thread, current.is_write), (ThreadId(1), false));
        }
        other => panic!("{}", other.text()),
    }
}

#[test]
fn a_barrier_orders_an_exchange() {
    let o = run(
        2,
        kernel(vec![
            at(rd(1), A),
            at(rd(3), OUT),
            load(GLOBAL, r(2), reg(rd(1)), 0),
            store(SHARED, reg(rd(0)), 0, reg(r(2))),
            bar(0),
            load(SHARED, r(3), imm(0), 0),
            load(SHARED, r(4), imm(4), 0),
            binop(BinOp::Max, r(5), reg(r(3)), reg(r(4)), ScalarType::F32),
            store(GLOBAL, reg(rd(3)), 0, reg(r(5))),
        ]),
    )
    .unwrap();
    assert_eq!(o.stats.block_syncs, 2);
    // Both threads compute the same maximum.
    assert_eq!(out(&o)[0].1, out(&o)[1].1);
    match o.arena.node(out(&o)[0].1) {
        ExprNode::Max(x, y) => {
            assert!(is_input(&o.arena, x, "a", 0));
            assert!(is_input(&o.arena, y, "a", 1));
        }
        other => panic!("{other:?}"),
    }
}

#[test]
fn stores_of_the_same_value_do_not_race() {
    let same = kernel(vec![store(SHARED, imm(0), 0, imm(7))]);
    assert!(run(2, same).is_ok());
    let differing = kernel(vec![store(SHARED, imm(0), 0, reg(r(0)))]);
    assert!(matches!(fails(2, differing), EvalError::DataRace { .. }));
}

/// Three elements of `a` in registers, and which of two threads this is.
fn three_elements() -> Vec<Line> {
    vec![
        load(GLOBAL, r(10), imm(A), 0),
        load(GLOBAL, r(11), imm(A), 4),
        load(GLOBAL, r(12), imm(A), 8),
        setp(CmpOp::Eq, p(0), tid(), imm(0)),
        setp(CmpOp::Eq, p(1), tid(), imm(1)),
    ]
}

fn add(dst: u32, a: u32, b: u32) -> LoweredInstr {
    binop(BinOp::Add, r(dst), reg(r(a)), reg(r(b)), ScalarType::F32).0
}

#[test]
fn stores_of_one_sum_do_not_race_however_it_was_added_up() {
    let mut body = three_elements();
    body.push(when(p(0), add(20, 10, 11)));
    body.push(when(p(0), add(20, 20, 12)));
    body.push(when(p(1), add(20, 12, 11)));
    body.push(when(p(1), add(20, 10, 20)));
    body.push(store(GLOBAL, imm(OUT), 0, reg(r(20))));
    let o = run(2, kernel(body)).unwrap();
    assert_eq!(out(&o).len(), 1);

    // A term that occurs once more makes another sum.
    let mut body = three_elements();
    body.push(when(p(0), add(20, 10, 11)));
    body.push(when(p(1), add(20, 11, 10)));
    body.push(when(p(1), add(20, 20, 10)));
    body.push(store(GLOBAL, imm(OUT), 0, reg(r(20))));
    assert!(matches!(fails(2, kernel(body)), EvalError::DataRace { .. }));
}

#[test]
fn threads_at_different_barriers_deadlock() {
    let e = fails(
        2,
        vec![
            mov(r(0), tid()),
            setp(CmpOp::Eq, p(0), reg(r(0)), imm(0)),
            when(p(0), LoweredInstr::Bra { target: InstrId(5) }),
            bar(1),
            exit(),
            bar(2),
            exit(),
        ],
    );
    match e {
        EvalError::Deadlock { blocked } => assert_eq!(
            blocked,
            [(ThreadId(0), InstrId(5)), (ThreadId(1), InstrId(3))]
        ),
        other => panic!("{}", other.text()),
    }
}

#[test]
fn exited_threads_do_not_hold_up_a_barrier() {
    let o = run(
        2,
        vec![
            mov(r(0), tid()),
            setp(CmpOp::Eq, p(0), reg(r(0)), imm(0)),
            when(p(0), LoweredInstr::Exit),
            bar(0),
            store(GLOBAL, imm(OUT), 4, imm(3)),
            exit(),
        ],
    )
    .unwrap();
    assert_eq!(out(&o).len(), 1);
    assert_eq!(out(&o)[0].0, 1);
}

#[test]
fn an_endless_loop_meets_the_limit() {
    let mut c = config(1);
    c.max_instructions = 10;
    let p = program(0, vec![always(LoweredInstr::Bra { target: InstrId(0) })]);
    match analyze(&p, c) {
        Err(EvalError::InstructionLimit { limit }) => assert_eq!(limit, 10),
        other => panic!("{:?}", other.err()),
    }
}

// ---------------------------------------------------------------------------
// Memory
// ---------------------------------------------------------------------------

#[test]
fn bad_accesses_are_reported() {
    assert!(matches!(
        fails(1, kernel(vec![store(GLOBAL, imm(0x9000), 0, imm(1))])),
        EvalError::OutOfBounds { addr: 0x9000, width: 4, .. }
    ));
    assert!(matches!(
        fails(1, kernel(vec![store(SHARED, imm(2), 0, imm(1))])),
        EvalError::Misaligned { addr: 2, required: 4, .. }
    ));
    assert!(matches!(
        fails(1, kernel(vec![store(GLOBAL, imm(OUT), 0, reg(r(9)))])),
        EvalError::UndefinedOutput { index: 0, .. }
    ));
    assert!(matches!(
        fails(1, kernel(vec![always(LoweredInstr::Trap)])),
        EvalError::TrapReached { .. }
    ));
}

#[test]
fn symbolic_addresses_are_not_concrete() {
    let e = fails(
        1,
        kernel(vec![
            load(GLOBAL, r(2), imm(A), 0),
            load(SHARED, r(3), reg(r(2)), 0),
        ]),
    );
    assert!(matches!(e, EvalError::NotConcrete { .. }), "{}", e.text());
}

#[test]
fn undefined_outputs_are_reported() {
    let e = fails(
        1,
        kernel(vec![
            load(SHARED, r(2), imm(8), 0),
            store(GLOBAL, imm(OUT), 12, reg(r(2))),
        ]),
    );
    assert_eq!(
        e.text(),
        "output element out[3] is undefined (uninitialized read)"
    );
}

#[test]
fn concrete_words_split_and_join() {
    // A 64-bit word is read back as its halves.
    let word = 0x1122_3344_5566_7788i64;
    let o = run(
        1,
        kernel(vec![
            mov64(rd(4), imm(word)),
            always(LoweredInstr::Store {
                space: SHARED,
                base: imm(16),
                offset: 0,
                src: reg(rd(4)),
                ty: ScalarType::B64,
            }),
            always(LoweredInstr::Load {
                dst: r(2),
                space: SHARED,
                base: imm(20),
                offset: 0,
                ty: ScalarType::U32,
            }),
            store(GLOBAL, imm(OUT), 0, reg(r(2))),
        ]),
    )
    .unwrap();
    assert_eq!(o.arena.as_int_const(out(&o)[0].1), Some(0x1122_3344));
}

#[test]
fn elements_of_another_width_are_refused() {
    let wide = |addr: i64| {
        kernel(vec![
            mov64(rd(4), imm(5)),
            always(LoweredInstr::Store {
                space: GLOBAL,
                base: imm(addr),
                offset: 0,
                src: reg(rd(4)),
                ty: ScalarType::U64,
            }),
        ])
    };
    assert_eq!(
        fails(1, wide(OUT + 8)).text(),
        "configuration error: output array 'out' element 2 was written at width 8 (element width 4)"
    );
    let narrow = kernel(vec![
        always(LoweredInstr::Store {
            space: GLOBAL,
            base: imm(OUT),
            offset: 6,
            src: imm(1),
            ty: ScalarType::U16,
        }),
    ]);
    assert_eq!(
        fails(1, narrow).text(),
        "configuration error: output array 'out' was written at misaligned offset 0x6"
    );
}

// ---------------------------------------------------------------------------
// Setting up
// ---------------------------------------------------------------------------

fn refused(symbols: SymbolTable, c: AnalysisConfig) -> String {
    match Interpreter::new(&program_of(symbols, vec![exit()]), c, features()) {
        Err(EvalError::Config { message }) => message,
        Err(other) => panic!("{}", other.text()),
        Ok(_) => panic!("the configuration should be refused"),
    }
}

#[test]
fn unfit_configurations_are_refused() {
    assert_eq!(refused(symbols(0), config(0)), "block has zero threads");
    assert_eq!(
        refused(symbols(2), config(1)),
        "kernel declares 2 parameters but 0 were provided"
    );
    let mut c = config(1);
    c.params.push(ParamValue::ArrayPtr("c".to_string()));
    assert_eq!(
        refused(symbols(1), c),
        "parameter references unknown array 'c'"
    );

    let mut s = symbols(0);
    s.module_global_size = 16;
    let mut c = config(1);
    c.arrays
        .push(array("m", MODULE_GLOBAL_BASE, 4, 4, ArrayKind::Input));
    assert_eq!(
        refused(s, c),
        "array 'm' ([0x4000000000000000, 0x4000000000000010)) overlaps the reserved \
         module-global region [0x4000000000000000, 0x4000000000000010)"
    );

    let mut s = symbols(0);
    s.shared_vars.push(SharedVar {
        offset: u64::MAX,
        size_bytes: 2,
        is_extern: false,
    });
    assert_eq!(
        refused(s, config(1)),
        "shared variable region [0xffffffffffffffff, 0xffffffffffffffff + 2) overflows the \
         address space"
    );

    let mut s = symbols(0);
    s.shared_vars.push(SharedVar {
        offset: 0,
        size_bytes: 0,
        is_extern: true,
    });
    s.extern_shared_base = Some(4096);
    assert_eq!(
        refused(s, config(1)),
        "kernel uses extern shared memory; set dynamic_shared_bytes"
    );

    let mut c = config(1);
    c.global_values.push(("n".to_string(), 3));
    assert_eq!(
        refused(symbols(0), c),
        "no module-scope .global variable named 'n'"
    );
}

#[test]
fn module_variables_hold_their_values() {
    let mut s = symbols(0);
    s.module_global_size = 4;
    s.global_vars.push(GlobalVar {
        name: "n".to_string(),
        addr: MODULE_GLOBAL_BASE,
        size_bytes: 4,
    });
    let mut c = config(1);
    c.global_values.push(("n".to_string(), 41));
    let lines = kernel(vec![
        always(LoweredInstr::Load {
            dst: r(2),
            space: GLOBAL,
            base: Operand::ImmU64(MODULE_GLOBAL_BASE),
            offset: 0,
            ty: ScalarType::S32,
        }),
        binop(BinOp::Add, r(3), reg(r(2)), imm(1), ScalarType::S32),
        store(GLOBAL, imm(OUT), 0, reg(r(3))),
    ]);
    let o = analyze(&program_of(s, lines), c).unwrap();
    assert_eq!(o.arena.as_int_const(out(&o)[0].1), Some(42));
}

#[test]
fn registers_are_named_by_source_or_class() {
    let p = program(0, vec![exit()]);
    assert_eq!(p.format_reg(r(1)), "%lane");
    assert_eq!(p.format_reg(rd(7)), "Bits64[7]");
}

// ---------------------------------------------------------------------------
// Warps
// ---------------------------------------------------------------------------

fn full_mask() -> Operand {
    imm(0xFFFF_FFFF)
}

#[test]
fn a_butterfly_exchanges_lanes() {
    let mut body = vec![at(rd(1), A), at(rd(3), OUT), load(GLOBAL, r(2), reg(rd(1)), 0)];
    body.push(always(LoweredInstr::ShflSync {
        mode: ShflMode::Bfly,
        dst: r(3),
        dst_pred: None,
        src: reg(r(2)),
        offset_or_lane: imm(5),
        clamp: imm(31),
        membermask: full_mask(),
    }));
    body.push(store(GLOBAL, reg(rd(3)), 0, reg(r(3))));
    let o = run(32, kernel(body)).unwrap();
    assert_eq!(o.stats.warp_syncs, 1);
    for &(i, e) in out(&o) {
        assert!(is_input(&o.arena, e, "a", i ^ 5));
    }
}

#[test]
fn a_mask_beyond_the_block_is_refused() {
    let e = fails(
        8,
        vec![always(LoweredInstr::BarWarpSync { mask: full_mask() }), exit()],
    );
    assert!(matches!(
        e,
        EvalError::WarpMismatch {
            reason: WarpFault::LaneBeyondBlock { lane: 8, n_threads: 8, .. },
            ..
        }
    ));
}

#[test]
fn a_warp_elects_its_lowest_lane() {
    let o = run(
        32,
        kernel(vec![
            at(rd(3), OUT),
            always(LoweredInstr::ElectSync {
                dst: Some(r(2)),
                dst_pred: p(1),
                membermask: full_mask(),
            }),
            when(
                p(1),
                LoweredInstr::Store {
                    space: GLOBAL,
                    base: reg(rd(3)),
                    offset: 0,
                    src: reg(r(2)),
                    ty: ScalarType::U32,
                },
            ),
        ]),
    )
    .unwrap();
    assert_eq!(out(&o).len(), 1);
    assert_eq!(o.arena.as_int_const(out(&o)[0].1), Some(0));
    assert_eq!(out(&o)[0].0, 0);
}

#[test]
fn a_warp_adds_up_its_lanes() {
    let o = run(
        32,
        kernel(vec![
            at(rd(3), OUT),
            always(LoweredInstr::ReduxSync {
                op: BinOp::Add,
                ty: ScalarType::S32,
                dst: r(2),
                src: reg(r(0)),
                membermask: full_mask(),
            }),
            store(GLOBAL, reg(rd(3)), 0, reg(r(2))),
        ]),
    )
    .unwrap();
    assert_eq!(out(&o).len(), 32);
    for &(_, e) in out(&o) {
        assert_eq!(o.arena.as_int_const(e), Some(31 * 32 / 2));
    }
}

#[test]
fn a_product_needs_its_whole_warp() {
    let regs = |n: u32, from: u32| (from..from + n).map(r).collect::<Vec<_>>();
    let lines = vec![
        mov(r(0), tid()),
        setp(CmpOp::Eq, p(0), reg(r(0)), imm(31)),
        when(p(0), LoweredInstr::Exit),
        always(LoweredInstr::Mma {
            shape: MmaShape::new(16, 8, 16),
            dst: regs(4, 20),
            src_a: regs(4, 10),
            src_b: regs(2, 14),
            src_c: vec![imm(0); 4],
            a_layout: MmaLayout::Row,
            b_layout: MmaLayout::Col,
            a_type: ScalarType::F16,
            b_type: ScalarType::F16,
            d_type: ScalarType::F32,
            c_type: ScalarType::F32,
        }),
        exit(),
    ];
    assert!(matches!(
        fails(32, lines),
        EvalError::WarpMismatch { .. } | EvalError::Deadlock { .. }
    ));
}

// ---------------------------------------------------------------------------
// Asynchronous copies and memory barriers
// ---------------------------------------------------------------------------

fn copy() -> Line {
    always(LoweredInstr::CpAsync {
        dst_base: imm(0),
        dst_offset: 0,
        src_base: imm(A),
        src_offset: 8,
        cp_size: 4,
        src_size: CpAsyncSrcSize::Full,
    })
}

#[test]
fn copies_arrive_after_the_wait() {
    let lines = |wait: bool| {
        let mut body = vec![copy(), always(LoweredInstr::CpAsyncCommitGroup)];
        if wait {
            body.push(always(LoweredInstr::CpAsyncWaitGroup { n: 0 }));
        }
        body.push(load(SHARED, r(2), imm(0), 0));
        body.push(store(GLOBAL, imm(OUT), 0, reg(r(2))));
        kernel(body)
    };
    let o = run(1, lines(true)).unwrap();
    assert!(is_input(&o.arena, out(&o)[0].1, "a", 2));
    assert!(matches!(
        fails(1, lines(false)),
        EvalError::AsyncCopyHazard { .. }
    ));
}

#[test]
fn leaving_with_copies_in_flight_is_refused() {
    let e = fails(1, kernel(vec![copy()]));
    assert_eq!(
        e.text(),
        "unsupported at pc:3: thread exited with 1 async-copy operation(s) still pending \
         (missing cp.async.wait_group/wait_all)"
    );
}

#[test]
fn a_memory_barrier_hands_over_a_value() {
    let lines = vec![
        mov(r(0), tid()),
        setp(CmpOp::Eq, p(0), reg(r(0)), imm(0)),
        when(
            p(0),
            LoweredInstr::MbarrierInit {
                addr_base: imm(64),
                addr_offset: 0,
                count: imm(1),
            },
        ),
        bar(0),
        when(
            p(0),
            LoweredInstr::Store {
                space: SHARED,
                base: imm(0),
                offset: 0,
                src: imm(9),
                ty: ScalarType::U32,
            },
        ),
        when(
            p(0),
            LoweredInstr::MbarrierArrive {
                state: None,
                addr_base: imm(64),
                addr_offset: 0,
                count: None,
                expect_tx: None,
            },
        ),
        always(LoweredInstr::MbarrierWaitParity {
            wait_complete: p(1),
            addr_base: imm(64),
            addr_offset: 0,
            phase_parity: imm(0),
        }),
        always(LoweredInstr::Load {
            dst: r(2),
            space: SHARED,
            base: imm(0),
            offset: 0,
            ty: ScalarType::U32,
        }),
        always(LoweredInstr::MulWide {
            dst: rd(0),
            src_a: reg(r(0)),
            src_b: imm(4),
            src_ty: ScalarType::U32,
        }),
        at(rd(3), OUT),
        store(GLOBAL, reg(rd(3)), 0, reg(r(2))),
        exit(),
    ];
    let o = run(2, lines).unwrap();
    let values: Vec<_> = out(&o)
        .iter()
        .map(|e| o.arena.as_int_const(e.1))
        .collect();
    assert_eq!(values, [Some(9), Some(9)]);
}

#[test]
fn a_memory_barrier_is_no_ordinary_data() {
    let init = always(LoweredInstr::MbarrierInit {
        addr_base: imm(64),
        addr_offset: 0,
        count: imm(1),
    });
    let e = fails(1, kernel(vec![init, store(SHARED, imm(64), 0, imm(1))]));
    assert!(
        matches!(
            e,
            EvalError::MbarrierOverwrite { .. } | EvalError::Reinterpretation { .. }
        ),
        "{}",
        e.text()
    );
    let arrive = always(LoweredInstr::MbarrierArrive {
        state: None,
        addr_base: imm(128),
        addr_offset: 0,
        count: None,
        expect_tx: None,
    });
    assert!(matches!(
        fails(1, kernel(vec![arrive])),
        EvalError::NoLiveMbarrier { addr: 128, .. }
    ));
}

// ---------------------------------------------------------------------------
// Tensor memory
// ---------------------------------------------------------------------------

#[test]
fn tensor_memory_gives_back_what_was_stored() {
    let o = run(
        32,
        kernel(vec![
            at(rd(1), A),
            at(rd(3), OUT),
            load(GLOBAL, r(2), reg(rd(1)), 0),
            always(LoweredInstr::Tcgen05Alloc {
                dst_base: imm(0),
                dst_offset: 0,
                num_cols: 32,
            }),
            always(LoweredInstr::Tcgen05St {
                taddr_base: imm(0),
                taddr_offset: 3,
                src: vec![reg(r(2))],
            }),
            always(LoweredInstr::Tcgen05Wait { is_st: true }),
            always(LoweredInstr::Tcgen05Ld {
                dst: vec![r(3)],
                taddr_base: imm(0),
                taddr_offset: 3,
            }),
            always(LoweredInstr::Tcgen05Wait { is_st: false }),
            store(GLOBAL, reg(rd(3)), 0, reg(r(3))),
            always(LoweredInstr::Tcgen05Dealloc {
                taddr: imm(0),
                num_cols: 32,
            }),
        ]),
    )
    .unwrap();
    for &(i, e) in out(&o) {
        assert!(is_input(&o.arena, e, "a", i));
    }
}

#[test]
fn tensor_memory_is_allocated_before_use() {
    let e = fails(
        32,
        kernel(vec![always(LoweredInstr::Tcgen05Ld {
            dst: vec![r(3)],
            taddr_base: imm(0),
            taddr_offset: 0,
        })]),
    );
    assert!(matches!(e, EvalError::Tcgen05NotAllocated { .. }), "{}", e.text());
    let e = fails(
        32,
        kernel(vec![always(LoweredInstr::Tcgen05Alloc {
            dst_base: imm(0),
            dst_offset: 0,
            num_cols: 48,
        })]),
    );
    assert!(matches!(
        e,
        EvalError::Tcgen05InvalidColumnCount { num_cols: 48, .. }
    ));
}
