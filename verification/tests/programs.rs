//! Operands, configurations and the pairing of outputs.

use volta_analysis::driver::{
    check_output_equivalence, check_output_equivalence_with, elements_to_check, find_kernel,
    module_vars, op_profile, paired_elements, write_op_counts, AnalysisError, EquivCheckError,
    EquivCheckOptions, EquivOutcome, Function, Module, TopLevelItem, VcDump, VcSnapshot, Verdict,
};
use volta_analysis::eval::config::{AnalysisConfig, ArrayDef, ArrayKind, ParamValue};
use volta_analysis::eval::machine::Stats;
use volta_analysis::eval::outputs::AnalysisOutput;
use volta_analysis::eval::target::{Arch, Target, TargetFeatures};
use volta_analysis::lowered::{
    BinOp, InstrId, LoweredInstr, LoweredProgram, Operand, Predicate, Span,
};
use volta_analysis::symbolic::arena::{shared_count, ExprArena};
use volta_analysis::symbolic::ExprId;
use volta_analysis::symbols::{RegId, SymbolTable};
use volta_analysis::types::{RegClass, RegCounts};

#[test]
fn test_operand_types() {
    let reg = Operand::Reg(RegId::new(RegClass::Bits32, 0));
    assert!(reg.is_register());
    assert!(!reg.is_immediate());

    let imm = Operand::ImmI64(42);
    assert!(!imm.is_register());
    assert!(imm.is_immediate());
}

fn no_symbols() -> SymbolTable {
    SymbolTable {
        params: vec![],
        global_vars: vec![],
        module_global_size: 0,
        shared_vars: vec![],
        extern_shared_base: None,
        local_vars: vec![],
        reg_counts: RegCounts {
            pred: 1,
            bits8: 0,
            bits16: 0,
            bits32: 0,
            bits64: 0,
            bits128: 0,
        },
        reg_names: vec![],
    }
}

#[test]
fn programs_are_numbered_from_zero() {
    let guard = Predicate {
        reg: RegId::new(RegClass::Pred, 0),
        negated: true,
    };
    let program = LoweredProgram::new(
        vec![LoweredInstr::Nop, LoweredInstr::Trap, LoweredInstr::Exit],
        vec![None, Some(guard)],
        no_symbols(),
        vec![None, Some(Span { start: 3, end: 8 })],
        InstrId(0),
    );
    assert_eq!(program.len(), 3);
    assert!(!program.is_empty());
    assert!(matches!(
        program.instruction(InstrId(0)),
        Some(LoweredInstr::Nop)
    ));
    assert!(matches!(
        program.instruction(InstrId(1)),
        Some(LoweredInstr::Trap)
    ));
    assert!(matches!(
        program.instruction(InstrId(2)),
        Some(LoweredInstr::Exit)
    ));
    assert!(program.instruction(InstrId(3)).is_none());
    assert!(program.predicate(InstrId(0)).is_none());
    assert!(program.predicate(InstrId(1)).is_some_and(|p| p.negated));
    assert!(program.predicate(InstrId(2)).is_none());
    assert_eq!(
        program.instruction_span(InstrId(1)),
        Some(Span { start: 3, end: 8 })
    );

    let empty = LoweredProgram::new(vec![], vec![], no_symbols(), vec![], InstrId(0));
    assert_eq!(empty.len(), 0);
    assert!(empty.is_empty());
    assert!(empty.instruction(InstrId(0)).is_none());
}

#[test]
fn test_binop_names() {
    assert_eq!(BinOp::Add.as_str(), "add");
    assert_eq!(BinOp::Mul.as_str(), "mul");
    assert_eq!(BinOp::Shl.as_str(), "shl");
}

fn array(name: &str, base: u64, len: u64) -> ArrayDef {
    ArrayDef {
        name: name.to_string(),
        base,
        elem_width: 4,
        len,
        kind: ArrayKind::Input,
    }
}

#[test]
fn validate_accepts_disjoint_arrays_and_plain_sym_names() {
    let mut config = AnalysisConfig::new((1, 1, 1));
    config.arrays.push(array("in", 0x1000, 16));
    config.arrays.push(array("out", 0x2000, 16));
    config
        .params
        .push(ParamValue::SymFloat("alpha".to_string()));
    assert_eq!(config.validate(), Ok(()));
}

#[test]
fn validate_rejects_ambiguous_identities() {
    let mut dup = AnalysisConfig::new((1, 1, 1));
    dup.arrays.push(array("x", 0x1000, 16));
    dup.arrays.push(array("x", 0x2000, 16));
    assert!(dup.validate().is_err());

    let mut overlap = AnalysisConfig::new((1, 1, 1));
    overlap.arrays.push(array("a", 0x1000, 16));
    overlap.arrays.push(array("b", 0x1020, 16));
    assert!(overlap.validate().is_err());

    let mut bracketed = AnalysisConfig::new((1, 1, 1));
    bracketed
        .params
        .push(ParamValue::SymFloat("x[0]".to_string()));
    assert!(bracketed.validate().is_err());

    let mut dup_sym = AnalysisConfig::new((1, 1, 1));
    dup_sym
        .params
        .push(ParamValue::SymFloat("alpha".to_string()));
    dup_sym
        .params
        .push(ParamValue::SymFloat("alpha".to_string()));
    assert!(dup_sym.validate().is_err());
}

fn output_with(arrays: &[(&str, &[u64])]) -> AnalysisOutput {
    let mut arena = ExprArena::new();
    let outputs = arrays
        .iter()
        .map(|(name, indices)| {
            let elems = indices
                .iter()
                .map(|&i| {
                    let sid = arena.intern_string(&name.to_string());
                    (i, arena.input_element(sid, i))
                })
                .collect();
            (name.to_string(), elems)
        })
        .collect();
    AnalysisOutput {
        arena,
        outputs,
        stats: Stats::zero(),
        op_counts: Vec::new(),
    }
}

fn names(names: &[&str]) -> Vec<String> {
    names.iter().map(|n| n.to_string()).collect()
}

#[test]
fn paired_elements_follows_the_callers_list() {
    let reference = output_with(&[("out", &[0, 1])]);
    let optimized = output_with(&[("out", &[0, 1]), ("aux", &[0])]);

    // The array that is not named is ignored.
    let paired = paired_elements(&reference, &optimized, &names(&["out"])).unwrap();
    assert_eq!(paired.len(), 1);
    assert_eq!(paired[0].1.len(), 2);

    // Naming an array absent from either side is an error.
    assert!(paired_elements(&reference, &optimized, &names(&["aux"])).is_err());
    assert!(paired_elements(&optimized, &reference, &names(&["out", "aux"])).is_err());
    assert!(paired_elements(&reference, &optimized, &names(&["missing"])).is_err());

    // An empty list is an error, not a vacuous pass.
    assert!(paired_elements(&reference, &optimized, &[]).is_err());

    // Differing footprints for a named array are an error.
    let narrower = output_with(&[("out", &[0])]);
    assert!(paired_elements(&reference, &narrower, &names(&["out"])).is_err());
}

fn pairing_text(a: &[(&str, &[u64])], b: &[(&str, &[u64])], list: &[&str]) -> String {
    paired_elements(&output_with(a), &output_with(b), &names(list))
        .unwrap_err()
        .text()
}

#[test]
fn pairing_errors_say_what_differs() {
    let out: &[(&str, &[u64])] = &[("out", &[0, 1])];
    assert_eq!(
        pairing_text(out, out, &[]),
        "output shape mismatch: no arrays specified to check"
    );
    assert_eq!(
        pairing_text(&[], out, &["out"]),
        "output shape mismatch: reference run has no output array 'out'"
    );
    assert_eq!(
        pairing_text(out, &[], &["out"]),
        "output shape mismatch: optimized run has no output array 'out'"
    );
    assert_eq!(
        pairing_text(out, &[("out", &[0])], &["out"]),
        "output shape mismatch: array 'out': 2 elements written vs 1"
    );
    assert_eq!(
        pairing_text(out, &[("out", &[0, 3])], &["out"]),
        "output shape mismatch: array 'out': written footprints differ (element 1 vs 3)"
    );
}

fn verdict(equal: bool) -> Verdict {
    Verdict {
        equivalent: Ok(equal),
        oracle: Ok(()),
    }
}

#[test]
fn verdicts_become_a_report() {
    let a = output_with(&[("x", &[0, 1, 2]), ("y", &[4, 5])]);
    let b = output_with(&[("y", &[4, 5]), ("x", &[0, 1, 2])]);
    let list = names(&["x", "y"]);

    let all = [true, true, false, true, false].map(verdict);
    let r = check_output_equivalence_with(&a, &b, &list, &EquivCheckOptions::default(), &all)
        .unwrap();
    assert_eq!((r.elements_checked, r.elements_total), (5, 5));
    match r.outcome {
        EquivOutcome::NotEquivalent { mismatches } => {
            let found: Vec<(&str, u64)> = mismatches
                .iter()
                .map(|m| (m.array.as_str(), m.index))
                .collect();
            assert_eq!(found, [("x", 2), ("y", 5)]);
        }
        EquivOutcome::Equivalent => panic!("two elements differ"),
    }

    // A sample covers the first elements of each array.
    let options = EquivCheckOptions {
        sample: 1,
        verify_numeric: false,
        recycle_terms: 0,
    };
    let paired = paired_elements(&a, &b, &list).unwrap();
    assert_eq!(elements_to_check(&paired, &options).len(), 2);
    let r = check_output_equivalence_with(&a, &b, &list, &options, &[true, true].map(verdict))
        .unwrap();
    assert_eq!((r.elements_checked, r.elements_total), (2, 5));
    assert!(matches!(r.outcome, EquivOutcome::Equivalent));

    let same = [true; 5].map(verdict);
    assert!(matches!(
        check_output_equivalence(&a, &b, &list, &same),
        Ok(EquivOutcome::Equivalent)
    ));
}

#[test]
fn recycling_does_not_change_the_outcome() {
    let a = output_with(&[("x", &[0, 1, 2])]);
    let list = names(&["x"]);
    for recycle_terms in [0, 1, 250_000] {
        let options = EquivCheckOptions {
            sample: 0,
            verify_numeric: false,
            recycle_terms,
        };
        let verdicts = [true, false, true].map(verdict);
        let r = check_output_equivalence_with(&a, &a, &list, &options, &verdicts).unwrap();
        assert_eq!((r.elements_checked, r.elements_total), (3, 3));
        match r.outcome {
            EquivOutcome::NotEquivalent { mismatches } => {
                assert_eq!(mismatches.len(), 1);
                assert_eq!(mismatches[0].index, 1);
            }
            EquivOutcome::Equivalent => panic!("one element differs"),
        }
    }
}

#[test]
fn failed_verdicts_end_a_comparison() {
    let a = output_with(&[("x", &[0, 7])]);
    let list = names(&["x"]);
    let failed = [
        verdict(true),
        Verdict {
            equivalent: Err("too deep".to_string()),
            oracle: Ok(()),
        },
    ];
    let e = check_output_equivalence(&a, &a, &list, &failed).unwrap_err();
    assert!(matches!(e, EquivCheckError::Equiv(_)));
    assert_eq!(e.text(), "equivalence check failed: too deep");

    let doubted = [
        verdict(true),
        Verdict {
            equivalent: Ok(true),
            oracle: Err("values differ".to_string()),
        },
    ];
    // Without the oracle its answer does not matter.
    assert!(check_output_equivalence(&a, &a, &list, &doubted).is_ok());
    let options = EquivCheckOptions {
        sample: 0,
        verify_numeric: true,
        recycle_terms: 0,
    };
    let e = check_output_equivalence_with(&a, &a, &list, &options, &doubted).unwrap_err();
    assert_eq!(e.text(), "numeric oracle: array 'x' element 7: values differ");
}

#[test]
fn kernels_are_found_by_name_or_first() {
    let entry = |name: &str, body: u32| {
        TopLevelItem::Entry(Function {
            name: name.to_string(),
            body,
        })
    };
    let module = Module {
        items: vec![
            TopLevelItem::Variable("a"),
            entry("first", 1),
            TopLevelItem::Other,
            entry("second", 2),
            TopLevelItem::Variable("b"),
        ],
    };
    assert_eq!(find_kernel(&module, None).unwrap().body, 1);
    assert_eq!(find_kernel(&module, Some("second")).unwrap().body, 2);
    assert_eq!(
        find_kernel(&module, Some("third")).err().unwrap().text(),
        "no kernel named 'third' in module"
    );
    assert_eq!(module_vars(&module), [&"a", &"b"]);

    let empty: Module<u32, u32> = Module { items: vec![] };
    assert_eq!(
        find_kernel(&empty, None).err().unwrap().text(),
        "no kernel entry in module"
    );
    assert_eq!(
        AnalysisError::Lower("no such register".to_string()).text(),
        "lowering failed: no such register"
    );
}

#[test]
fn snapshots_are_checked_against_their_arena() {
    let good = VcSnapshot::from_output(output_with(&[("out", &[0, 1])]));
    assert_eq!(good.validate(), Ok(()));

    let mut dangling = VcSnapshot::from_output(output_with(&[("out", &[0, 1])]));
    dangling.outputs[0].1[1].1 = ExprId(9);
    assert_eq!(
        dangling.validate(),
        Err("output 'out' element 1 references expression 9 but the arena has 2 nodes".to_string())
    );

    let dump = VcDump {
        reference: good,
        optimized: dangling,
    };
    assert_eq!(
        dump.validate().unwrap_err(),
        "optimized: output 'out' element 1 references expression 9 but the arena has 2 nodes"
    );

    let again = dump.reference.into_analysis_output();
    assert_eq!(again.outputs[0].0, "out");
    assert!(again.op_counts.is_empty());
}

#[test]
fn profiles_put_the_most_executed_first() {
    let counts = vec![("Add", 3), ("Load", 7), ("Mov", 3), ("Store", 1)];
    let (total, entries) = op_profile(&counts);
    assert_eq!(total, 14);
    assert_eq!(
        entries,
        [("Load", 7), ("Add", 3), ("Mov", 3), ("Store", 1)]
    );
    let shares = names(&["50.0", "21.4", "21.4", "7.1"]);
    assert_eq!(
        write_op_counts("run", &entries, &shares),
        "run profile:\n\
         \x20 Load                      7  ( 50.0%)\n\
         \x20 Add                       3  ( 21.4%)\n\
         \x20 Mov                       3  ( 21.4%)\n\
         \x20 Store                     1  (  7.1%)\n"
    );
    assert_eq!(write_op_counts("run", &vec![], &vec![]), "");
}

#[test]
fn one_recent_architecture_asks_for_the_stricter_check() {
    let target = |archs: &[u32]| Target {
        archs: archs.iter().map(|&a| Arch(a)).collect(),
    };
    assert!(!TargetFeatures::from_target(&target(&[])).async_proxy_fence);
    assert!(!TargetFeatures::from_target(&target(&[80, 89])).async_proxy_fence);
    assert!(TargetFeatures::from_target(&target(&[80, 90])).async_proxy_fence);
}

#[test]
fn shared_expressions_are_counted() {
    let mut arena = ExprArena::new();
    let name = arena.intern_string(&"x".to_string());
    let a = arena.input_element(name, 0);
    let b = arena.input_element(name, 1);
    let q = arena.div(a, b);
    let _ = arena.rem(q, a);
    let counts = arena.parent_counts();
    assert_eq!(counts, [2, 1, 1, 0]);
    assert_eq!(shared_count(&counts), 1);
}
