//! Building an interpreter: parameter binding, memory regions and the
//! initial state of a run.

use vstd::prelude::*;
use vstd::string::*;

use crate::eval::config::{AnalysisConfig, ArrayDef, ParamValue, valid_array_is_wf};
use crate::eval::error::{EvalError, EvalResult};
use crate::eval::fp8::decode_f64_bits;
use crate::eval::interp::{
    Interpreter, Setup, ThreadState, copy_models, group_models, memory_models, thread_models,
};
use crate::eval::lists::{ParamList, no_params, number_memories, number_threads, param_push};
use crate::eval::machine::{Env, Machine, Region, Stats, Status, ThreadModel, all_wf};
use crate::eval::mbarrier::MbarrierTable;
use crate::eval::memory::{Cells, Granule, Memory, first_covered};
use crate::eval::race::{RaceState, RaceTracker};
use crate::eval::target::TargetFeatures;
use crate::eval::tensor_map_table::TensorMapTable;
use crate::eval::tensor_memory::{TensorMemory, TensorState};
use crate::eval::value::{RegFile, Value};
use crate::eval::wgmma_regs::{WgmmaModel, WgmmaRegState};
use crate::lowered::{InstrId, KIND_COUNT, LoweredProgram};
use crate::symbolic::arena::{ExprArena, ExprNode, Exprs};
use crate::symbols::{
    GlobalVar, LocalVar, MODULE_GLOBAL_BASE, SharedVar, SymbolTable,
};
use crate::text::{dec_text, hex_text, push_dec, push_hex};

verus! {

// ---------------------------------------------------------------------------
// Messages
// ---------------------------------------------------------------------------

pub open spec fn param_count_text(declared: nat, provided: nat) -> Seq<char> {
    "kernel declares "@ + dec_text(declared) + " parameters but "@ + dec_text(provided)
        + " were provided"@
}

pub open spec fn unknown_array_text(name: Seq<char>) -> Seq<char> {
    "parameter references unknown array '"@ + name + "'"@
}

pub open spec fn region_text(what: Seq<char>, base: u64, size: u64) -> Seq<char> {
    what + " region ["@ + hex_text(base as nat) + ", "@ + hex_text(base as nat) + " + "@
        + dec_text(size as nat) + ") overflows the address space"@
}

pub open spec fn window_text(a: ArrayDef, end: u64) -> Seq<char> {
    "array '"@ + a.name@ + "' (["@ + hex_text(a.base as nat) + ", "@ + hex_text(a.end() as nat)
        + ")) overlaps the reserved module-global region ["@ + hex_text(
        MODULE_GLOBAL_BASE as nat,
    ) + ", "@ + hex_text(end as nat) + ")"@
}

pub open spec fn no_variable_text(name: Seq<char>) -> Seq<char> {
    "no module-scope .global variable named '"@ + name + "'"@
}

pub open spec fn placed_twice_text(name: Seq<char>) -> Seq<char> {
    "module-scope .global variable '"@ + name + "' cannot be initialized"@
}

fn config_error<T>(message: String) -> (r: EvalResult<T>)
    ensures
        r == Err::<T, EvalError>(EvalError::Config { message }),
{
    Err(EvalError::Config { message })
}

fn named(before: &str, name: &String, after: &str) -> (r: String)
    ensures
        r@ == before@ + name@ + after@,
{
    let mut s = String::from_str(before);
    s.append(name.as_str());
    s.append(after);
    s
}

// ---------------------------------------------------------------------------
// Parameters
// ---------------------------------------------------------------------------

/// The value of one parameter.
pub open spec fn bound_param(config: AnalysisConfig, s: Exprs, p: ParamValue) -> (
    Exprs,
    Result<Value, Seq<char>>,
) {
    match p {
        ParamValue::Int(v) => {
            let (s1, e) = s.int_const(v);
            (s1, Ok(Value::Scalar(e)))
        },
        ParamValue::Float(b) => match decode_f64_bits(b) {
            None => (s, Err("float parameter: NaN"@)),
            Some(f) => {
                let (s1, e) = s.float(f);
                (s1, Ok(Value::Scalar(e)))
            },
        },
        ParamValue::SymFloat(name) => {
            let (s1, id) = s.with_string(name@);
            let (s2, e) = s1.with(ExprNode::ParamSymbol(id));
            (s2, Ok(Value::Scalar(e)))
        },
        ParamValue::ArrayPtr(name) => {
            let i = config.array_index(name@, 0);
            if i >= config.arrays@.len() {
                (s, Err(unknown_array_text(name@)))
            } else {
                let (s1, e) = s.int_const(config.arrays@[i].base as i64);
                (s1, Ok(Value::Scalar(e)))
            }
        },
    }
}

/// The values of the parameters from the `i`-th on, after those in `acc`.
pub open spec fn bound_params(config: AnalysisConfig, s: Exprs, acc: Seq<Value>, i: int) -> (
    Exprs,
    Result<Seq<Value>, Seq<char>>,
)
    decreases config.params@.len() - i,
{
    if i >= config.params@.len() {
        (s, Ok(acc))
    } else {
        match bound_param(config, s, config.params@[i]) {
            (s1, Err(e)) => (s1, Err(e)),
            (s1, Ok(v)) => bound_params(config, s1, acc.push(v), i + 1),
        }
    }
}

fn bind_param(config: &AnalysisConfig, arena: &mut ExprArena, p: &ParamValue) -> (r: Result<
    Value,
    String,
>)
    requires
        old(arena).wf(),
    ensures
        final(arena).wf(),
        final(arena)@ == bound_param(*config, old(arena)@, *p).0,
        match (r, bound_param(*config, old(arena)@, *p).1) {
            (Ok(v), Ok(w)) => v == w,
            (Err(e), Err(w)) => e@ == w,
            _ => false,
        },
{
    match p {
        ParamValue::Int(v) => {
            let e = arena.int_const(*v);
            Ok(Value::Scalar(e))
        },
        ParamValue::Float(b) => match decode_f64_bits(*b) {
            None => Err(String::from_str("float parameter: NaN")),
            Some(f) => {
                let e = arena.float(f);
                Ok(Value::Scalar(e))
            },
        },
        ParamValue::SymFloat(name) => {
            let id = arena.intern_string(name);
            let e = arena.param_symbol(id);
            Ok(Value::Scalar(e))
        },
        ParamValue::ArrayPtr(name) => match config.array(name.as_str()) {
            None => Err(named("parameter references unknown array '", name, "'")),
            Some(a) => {
                let e = arena.int_const(a.base as i64);
                Ok(Value::Scalar(e))
            },
        },
    }
}

fn bind_params(config: &AnalysisConfig, arena: &mut ExprArena) -> (r: Result<ParamList, String>)
    requires
        old(arena).wf(),
    ensures
        final(arena).wf(),
        final(arena)@ == bound_params(*config, old(arena)@, Seq::empty(), 0).0,
        match (r, bound_params(*config, old(arena)@, Seq::empty(), 0).1) {
            (Ok(v), Ok(w)) => v@ == w,
            (Err(e), Err(w)) => e@ == w,
            _ => false,
        },
{
    let mut values = no_params();
    let mut i: usize = 0;
    while i < config.params.len()
        invariant
            arena.wf(),
            i <= config.params@.len(),
            bound_params(*config, old(arena)@, Seq::empty(), 0) == bound_params(
                *config,
                arena@,
                values@,
                i as int,
            ),
        decreases config.params@.len() - i,
    {
        match bind_param(config, arena, &config.params[i]) {
            Err(e) => {
                return Err(e);
            },
            Ok(v) => {
                param_push(&mut values, v);
            },
        }
        i = i + 1;
    }
    Ok(values)
}

// ---------------------------------------------------------------------------
// Regions
// ---------------------------------------------------------------------------

/// The error of an array that reaches into the module-global window.
pub open spec fn window_error(arrays: Seq<ArrayDef>, size: u64, i: int) -> Option<Seq<char>>
    decreases arrays.len() - i,
{
    if size == 0 || i >= arrays.len() {
        None
    } else if arrays[i].base < MODULE_GLOBAL_BASE + size && MODULE_GLOBAL_BASE
        < arrays[i].end() {
        Some(window_text(arrays[i], (MODULE_GLOBAL_BASE + size) as u64))
    } else {
        window_error(arrays, size, i + 1)
    }
}

fn check_window(arrays: &Vec<ArrayDef>, size: u64) -> (r: Result<(), String>)
    requires
        forall|i: int| 0 <= i < arrays@.len() ==> (#[trigger] arrays@[i]).wf(),
        MODULE_GLOBAL_BASE + size <= u64::MAX,
    ensures
        match r {
            Ok(_) => window_error(arrays@, size, 0) is None,
            Err(e) => window_error(arrays@, size, 0) == Some(e@),
        },
{
    if size == 0 {
        return Ok(());
    }
    let end: u64 = MODULE_GLOBAL_BASE + size;
    let mut i: usize = 0;
    while i < arrays.len()
        invariant
            forall|i: int| 0 <= i < arrays@.len() ==> (#[trigger] arrays@[i]).wf(),
            MODULE_GLOBAL_BASE + size <= u64::MAX,
            end == MODULE_GLOBAL_BASE + size,
            size > 0,
            i <= arrays@.len(),
            window_error(arrays@, size, 0) == window_error(arrays@, size, i as int),
        decreases arrays@.len() - i,
    {
        let a = &arrays[i];
        assert(arrays@[i as int].wf());
        proof {
            let (w, n) = (a.elem_width as int, a.len as int);
            assert(w * n >= 0) by (nonlinear_arith)
                requires
                    w >= 0,
                    n >= 0,
            ;
        }
        let array_end: u64 = a.base + a.size_bytes();
        if a.base < end && MODULE_GLOBAL_BASE < array_end {
            let mut s = String::from_str("array '");
            s.append(a.name.as_str());
            s.append("' ([");
            push_hex(&mut s, a.base as u128);
            s.append(", ");
            push_hex(&mut s, array_end as u128);
            s.append(")) overlaps the reserved module-global region [");
            push_hex(&mut s, MODULE_GLOBAL_BASE as u128);
            s.append(", ");
            push_hex(&mut s, end as u128);
            s.append(")");
            return Err(s);
        }
        i = i + 1;
    }
    Ok(())
}

/// A list of regions with one more.
pub open spec fn with_region(list: Seq<Region>, what: Seq<char>, base: u64, size: u64) -> Result<
    Seq<Region>,
    Seq<char>,
> {
    if base + size > u64::MAX {
        Err(region_text(what, base, size))
    } else {
        Ok(list.push(Region { base, size }))
    }
}

fn push_region(list: &mut Vec<Region>, base: u64, size: u64, what: &str) -> (r: Result<(), String>)
    ensures
        match (r, with_region(old(list)@, what@, base, size)) {
            (Ok(_), Ok(l)) => final(list)@ == l && (all_wf(old(list)@) ==> all_wf(
                final(list)@,
            )),
            (Err(e), Err(t)) => e@ == t,
            _ => false,
        },
{
    if size > u64::MAX - base {
        let mut s = String::from_str(what);
        s.append(" region [");
        push_hex(&mut s, base as u128);
        s.append(", ");
        push_hex(&mut s, base as u128);
        s.append(" + ");
        push_dec(&mut s, size as u128);
        s.append(") overflows the address space");
        return Err(s);
    }
    list.push(Region { base, size });
    Ok(())
}

/// The regions of the arrays from the `i`-th on, after those in `acc`.
pub open spec fn array_regions(arrays: Seq<ArrayDef>, acc: Seq<Region>, i: int) -> Result<
    Seq<Region>,
    Seq<char>,
>
    decreases arrays.len() - i,
{
    if i >= arrays.len() {
        Ok(acc)
    } else {
        match with_region(acc, "array"@, arrays[i].base, arrays[i].bytes() as u64) {
            Err(e) => Err(e),
            Ok(l) => array_regions(arrays, l, i + 1),
        }
    }
}

/// The regions of the module-scope variables from the `i`-th on.
pub open spec fn global_regions(vars: Seq<GlobalVar>, acc: Seq<Region>, i: int) -> Result<
    Seq<Region>,
    Seq<char>,
>
    decreases vars.len() - i,
{
    if i >= vars.len() {
        Ok(acc)
    } else {
        match with_region(acc, "global variable"@, vars[i].addr, vars[i].size_bytes) {
            Err(e) => Err(e),
            Ok(l) => global_regions(vars, l, i + 1),
        }
    }
}

/// The regions of the static shared variables from the `i`-th on.
pub open spec fn shared_regions(vars: Seq<SharedVar>, acc: Seq<Region>, i: int) -> Result<
    Seq<Region>,
    Seq<char>,
>
    decreases vars.len() - i,
{
    if i >= vars.len() {
        Ok(acc)
    } else if vars[i].is_extern {
        shared_regions(vars, acc, i + 1)
    } else {
        match with_region(acc, "shared variable"@, vars[i].offset, vars[i].size_bytes) {
            Err(e) => Err(e),
            Ok(l) => shared_regions(vars, l, i + 1),
        }
    }
}

/// The regions of the local variables from the `i`-th on.
pub open spec fn local_regions(vars: Seq<LocalVar>, acc: Seq<Region>, i: int) -> Result<
    Seq<Region>,
    Seq<char>,
>
    decreases vars.len() - i,
{
    if i >= vars.len() {
        Ok(acc)
    } else {
        match with_region(acc, "local variable"@, vars[i].offset, vars[i].size_bytes) {
            Err(e) => Err(e),
            Ok(l) => local_regions(vars, l, i + 1),
        }
    }
}

/// Whether some shared variable is an extern one.
pub open spec fn uses_extern_shared(vars: Seq<SharedVar>, i: int) -> bool
    decreases vars.len() - i,
{
    if i >= vars.len() {
        false
    } else {
        vars[i].is_extern || uses_extern_shared(vars, i + 1)
    }
}

/// The regions of global, shared and local memory.
pub open spec fn all_regions(symbols: SymbolTable, config: AnalysisConfig) -> Result<
    (Seq<Region>, Seq<Region>, Seq<Region>),
    Seq<char>,
> {
    match array_regions(config.arrays@, Seq::empty(), 0) {
        Err(e) => Err(e),
        Ok(arrays) => match global_regions(symbols.global_vars@, arrays, 0) {
            Err(e) => Err(e),
            Ok(global) => if uses_extern_shared(symbols.shared_vars@, 0)
                && config.dynamic_shared_bytes == 0 {
                Err("kernel uses extern shared memory; set dynamic_shared_bytes"@)
            } else {
                match shared_regions(symbols.shared_vars@, Seq::empty(), 0) {
                    Err(e) => Err(e),
                    Ok(statics) => match (match symbols.extern_shared_base {
                        None => Ok(statics),
                        Some(base) => with_region(
                            statics,
                            "dynamic shared"@,
                            base,
                            config.dynamic_shared_bytes,
                        ),
                    }) {
                        Err(e) => Err(e),
                        Ok(shared) => match local_regions(
                            symbols.local_vars@,
                            Seq::empty(),
                            0,
                        ) {
                            Err(e) => Err(e),
                            Ok(local) => Ok((global, shared, local)),
                        },
                    },
                }
            },
        },
    }
}

fn has_extern_shared(vars: &Vec<SharedVar>) -> (r: bool)
    ensures
        r == uses_extern_shared(vars@, 0),
{
    let mut i: usize = 0;
    while i < vars.len()
        invariant
            i <= vars@.len(),
            uses_extern_shared(vars@, 0) == uses_extern_shared(vars@, i as int),
        decreases vars@.len() - i,
    {
        if vars[i].is_extern {
            return true;
        }
        i = i + 1;
    }
    false
}

fn build_global_regions(symbols: &SymbolTable, config: &AnalysisConfig) -> (r: Result<
    Vec<Region>,
    String,
>)
    requires
        forall|i: int|
            0 <= i < config.arrays@.len() ==> (#[trigger] config.arrays@[i]).wf(),
    ensures
        match (
            r,
            match array_regions(config.arrays@, Seq::empty(), 0) {
                Err(e) => Err(e),
                Ok(arrays) => global_regions(symbols.global_vars@, arrays, 0),
            },
        ) {
            (Ok(v), Ok(l)) => v@ == l && all_wf(v@),
            (Err(e), Err(t)) => e@ == t,
            _ => false,
        },
{
    let mut list: Vec<Region> = Vec::new();
    let mut i: usize = 0;
    while i < config.arrays.len()
        invariant
            forall|i: int|
                0 <= i < config.arrays@.len() ==> (#[trigger] config.arrays@[i]).wf(),
            i <= config.arrays@.len(),
            all_wf(list@),
            array_regions(config.arrays@, Seq::empty(), 0) == array_regions(
                config.arrays@,
                list@,
                i as int,
            ),
        decreases config.arrays@.len() - i,
    {
        assert(config.arrays@[i as int].wf());
        if let Err(e) = push_region(
            &mut list,
            config.arrays[i].base,
            config.arrays[i].size_bytes(),
            "array",
        ) {
            return Err(e);
        }
        i = i + 1;
    }
    let ghost arrays = list@;
    let mut k: usize = 0;
    while k < symbols.global_vars.len()
        invariant
            k <= symbols.global_vars@.len(),
            all_wf(list@),
            array_regions(config.arrays@, Seq::empty(), 0) == Ok::<Seq<Region>, Seq<char>>(
                arrays,
            ),
            global_regions(symbols.global_vars@, arrays, 0) == global_regions(
                symbols.global_vars@,
                list@,
                k as int,
            ),
        decreases symbols.global_vars@.len() - k,
    {
        if let Err(e) = push_region(
            &mut list,
            symbols.global_vars[k].addr,
            symbols.global_vars[k].size_bytes,
            "global variable",
        ) {
            return Err(e);
        }
        k = k + 1;
    }
    Ok(list)
}

fn build_shared_regions(symbols: &SymbolTable, config: &AnalysisConfig) -> (r: Result<
    Vec<Region>,
    String,
>)
    ensures
        match (
            r,
            match shared_regions(symbols.shared_vars@, Seq::empty(), 0) {
                Err(e) => Err(e),
                Ok(statics) => match symbols.extern_shared_base {
                    None => Ok(statics),
                    Some(base) => with_region(
                        statics,
                        "dynamic shared"@,
                        base,
                        config.dynamic_shared_bytes,
                    ),
                },
            },
        ) {
            (Ok(v), Ok(l)) => v@ == l && all_wf(v@),
            (Err(e), Err(t)) => e@ == t,
            _ => false,
        },
{
    let mut list: Vec<Region> = Vec::new();
    let mut i: usize = 0;
    while i < symbols.shared_vars.len()
        invariant
            i <= symbols.shared_vars@.len(),
            all_wf(list@),
            shared_regions(symbols.shared_vars@, Seq::empty(), 0) == shared_regions(
                symbols.shared_vars@,
                list@,
                i as int,
            ),
        decreases symbols.shared_vars@.len() - i,
    {
        let var = symbols.shared_vars[i];
        if !var.is_extern {
            if let Err(e) = push_region(&mut list, var.offset, var.size_bytes, "shared variable") {
                return Err(e);
            }
        }
        i = i + 1;
    }
    if let Some(base) = symbols.extern_shared_base {
        if let Err(e) = push_region(
            &mut list,
            base,
            config.dynamic_shared_bytes,
            "dynamic shared",
        ) {
            return Err(e);
        }
    }
    Ok(list)
}

fn build_local_regions(symbols: &SymbolTable) -> (r: Result<Vec<Region>, String>)
    ensures
        match (r, local_regions(symbols.local_vars@, Seq::empty(), 0)) {
            (Ok(v), Ok(l)) => v@ == l && all_wf(v@),
            (Err(e), Err(t)) => e@ == t,
            _ => false,
        },
{
    let mut list: Vec<Region> = Vec::new();
    let mut i: usize = 0;
    while i < symbols.local_vars.len()
        invariant
            i <= symbols.local_vars@.len(),
            all_wf(list@),
            local_regions(symbols.local_vars@, Seq::empty(), 0) == local_regions(
                symbols.local_vars@,
                list@,
                i as int,
            ),
        decreases symbols.local_vars@.len() - i,
    {
        let var = symbols.local_vars[i];
        if let Err(e) = push_region(&mut list, var.offset, var.size_bytes, "local variable") {
            return Err(e);
        }
        i = i + 1;
    }
    Ok(list)
}

fn build_regions(symbols: &SymbolTable, config: &AnalysisConfig) -> (r: Result<
    (Vec<Region>, Vec<Region>, Vec<Region>),
    String,
>)
    requires
        forall|i: int|
            0 <= i < config.arrays@.len() ==> (#[trigger] config.arrays@[i]).wf(),
    ensures
        match (r, all_regions(*symbols, *config)) {
            (Ok(v), Ok(l)) => (v.0@, v.1@, v.2@) == l && all_wf(v.0@) && all_wf(v.1@) && all_wf(
                v.2@,
            ),
            (Err(e), Err(t)) => e@ == t,
            _ => false,
        },
{
    let global = match build_global_regions(symbols, config) {
        Err(e) => {
            return Err(e);
        },
        Ok(l) => l,
    };
    if config.dynamic_shared_bytes == 0 {
        if has_extern_shared(&symbols.shared_vars) {
            return Err(
                String::from_str("kernel uses extern shared memory; set dynamic_shared_bytes"),
            );
        }
    }
    let shared = match build_shared_regions(symbols, config) {
        Err(e) => {
            return Err(e);
        },
        Ok(l) => l,
    };
    match build_local_regions(symbols) {
        Err(e) => Err(e),
        Ok(local) => Ok((global, shared, local)),
    }
}

// ---------------------------------------------------------------------------
// Module-scope variables
// ---------------------------------------------------------------------------

/// Position of the first module-scope variable of a name, from `i` on.
pub open spec fn var_index(vars: Seq<GlobalVar>, name: Seq<char>, i: int) -> int
    decreases vars.len() - i,
{
    if i >= vars.len() {
        vars.len() as int
    } else if vars[i].name@ == name {
        i
    } else {
        var_index(vars, name, i + 1)
    }
}

fn find_var(vars: &Vec<GlobalVar>, name: &String) -> (r: Option<usize>)
    ensures
        match r {
            Some(i) => i == var_index(vars@, name@, 0) && i < vars@.len(),
            None => var_index(vars@, name@, 0) == vars@.len(),
        },
{
    let mut i: usize = 0;
    while i < vars.len()
        invariant
            i <= vars@.len(),
            var_index(vars@, name@, 0) == var_index(vars@, name@, i as int),
        decreases vars@.len() - i,
    {
        if vars[i].name == *name {
            return Some(i);
        }
        i = i + 1;
    }
    None
}

/// Global memory with the given variables initialized, from the `i`-th on.
pub open spec fn placed_globals(
    vars: Seq<GlobalVar>,
    values: Seq<(String, i64)>,
    s: Exprs,
    cells: Cells,
    i: int,
) -> (Exprs, Result<Cells, Seq<char>>)
    decreases values.len() - i,
{
    if i >= values.len() {
        (s, Ok(cells))
    } else {
        let k = var_index(vars, values[i].0@, 0);
        if k >= vars.len() {
            (s, Err(no_variable_text(values[i].0@)))
        } else {
            let (s1, e) = s.int_const(values[i].1);
            let (addr, width) = (vars[k].addr, vars[k].size_bytes);
            if width == 0 || addr + width > u64::MAX || first_covered(cells, addr, width, 0)
                is Some {
                (s1, Err(placed_twice_text(values[i].0@)))
            } else {
                placed_globals(
                    vars,
                    values,
                    s1,
                    cells.insert(addr, Granule { width, value: Value::Scalar(e), dirty: false }),
                    i + 1,
                )
            }
        }
    }
}

fn place_globals(vars: &Vec<GlobalVar>, values: &Vec<(String, i64)>, arena: &mut ExprArena) -> (r:
    Result<Memory, String>)
    requires
        old(arena).wf(),
    ensures
        final(arena).wf(),
        final(arena)@ == placed_globals(vars@, values@, old(arena)@, Cells::empty(), 0).0,
        match (r, placed_globals(vars@, values@, old(arena)@, Cells::empty(), 0).1) {
            (Ok(m), Ok(c)) => m@ == c && m.wf(),
            (Err(e), Err(t)) => e@ == t,
            _ => false,
        },
{
    let mut memory = Memory::new();
    let mut i: usize = 0;
    while i < values.len()
        invariant
            arena.wf(),
            memory.wf(),
            i <= values@.len(),
            placed_globals(vars@, values@, old(arena)@, Cells::empty(), 0) == placed_globals(
                vars@,
                values@,
                arena@,
                memory@,
                i as int,
            ),
        decreases values@.len() - i,
    {
        let name = &values[i].0;
        match find_var(vars, name) {
            None => {
                return Err(named("no module-scope .global variable named '", name, "'"));
            },
            Some(k) => {
                let e = arena.int_const(values[i].1);
                let addr: u64 = vars[k].addr;
                let width: u64 = vars[k].size_bytes;
                if width == 0 || width > u64::MAX - addr {
                    return Err(
                        named("module-scope .global variable '", name, "' cannot be initialized"),
                    );
                }
                if memory.init(addr, width, Value::Scalar(e)).is_err() {
                    return Err(
                        named("module-scope .global variable '", name, "' cannot be initialized"),
                    );
                }
            },
        }
        i = i + 1;
    }
    Ok(memory)
}

// ---------------------------------------------------------------------------
// The initial state
// ---------------------------------------------------------------------------

/// A thread before its first instruction.
pub open spec fn fresh_thread(entry: InstrId) -> ThreadModel {
    ThreadModel {
        pc: entry,
        regs: Map::empty(),
        status: Status::Ready,
        uncommitted: Seq::empty(),
        groups: Seq::empty(),
        wgmma: WgmmaModel::initial(),
    }
}

impl Machine {
    /// The state before the first instruction: every thread at the entry,
    /// every memory empty but for the given global cells.
    pub open spec fn initial(env: Env, exprs: Exprs, global: Cells) -> Machine {
        Machine {
            exprs,
            threads: Seq::new(env.n_threads as nat, |i: int| fresh_thread(env.program.entry_pc)),
            global,
            shared: Cells::empty(),
            locals: Seq::new(env.n_threads as nat, |i: int| Cells::empty()),
            tensor: TensorState::initial(),
            race: RaceState::initial(env.n_threads as usize),
            mbarriers: Seq::empty(),
            maps: Map::empty(),
            stats: Stats { instructions: 0, block_syncs: 0, warp_syncs: 0 },
            op_counts: Seq::new(KIND_COUNT as nat, |i: int| 0u64),
            env,
        }
    }

    /// The state before the first instruction of a program under a
    /// configuration, or what is wrong with the configuration.
    pub open spec fn set_up(
        program: LoweredProgram,
        config: AnalysisConfig,
        features: TargetFeatures,
    ) -> Result<
        Machine,
        Seq<char>,
    > {
        let (s, undefined) = Exprs::initial().undefined();
        if config.threads() == 0 {
            Err("block has zero threads"@)
        } else if config.error() is Some {
            Err(config.error()->0)
        } else if program.symbols.params@.len() != config.params@.len() {
            Err(param_count_text(program.symbols.params@.len(), config.params@.len()))
        } else {
            match bound_params(config, s, Seq::empty(), 0) {
                (_, Err(e)) => Err(e),
                (s1, Ok(params)) => match window_error(
                    config.arrays@,
                    program.symbols.module_global_size,
                    0,
                ) {
                    Some(e) => Err(e),
                    None => match all_regions(program.symbols, config) {
                        Err(e) => Err(e),
                        Ok((global, shared, local)) => match placed_globals(
                            program.symbols.global_vars@,
                            config.global_values@,
                            s1,
                            Cells::empty(),
                            0,
                        ) {
                            (_, Err(e)) => Err(e),
                            (s2, Ok(cells)) => Ok(
                                Machine::initial(
                                    Env {
                                        program,
                                        config,
                                        n_threads: config.threads() as u32,
                                        undefined,
                                        params,
                                        global,
                                        shared,
                                        local,
                                        features,
                                    },
                                    s2,
                                    cells,
                                ),
                            ),
                        },
                    },
                },
            }
        }
    }
}

fn fresh_threads(n: u32, program: &LoweredProgram) -> (r: Vec<ThreadState>)
    ensures
        r@.len() == n,
        thread_models(r@) == Seq::new(n as nat, |i: int| fresh_thread(program.entry_pc)),
{
    let counts = program.register_counts();
    let mut threads: Vec<ThreadState> = Vec::new();
    let mut i: u32 = 0;
    while i < n
        invariant
            i <= n,
            threads@.len() == i,
            thread_models(threads@) == Seq::new(
                i as nat,
                |k: int| fresh_thread(program.entry_pc),
            ),
        decreases n - i,
    {
        let th = ThreadState {
            pc: program.entry_pc,
            regs: RegFile::new(&counts),
            status: Status::Ready,
            uncommitted: Vec::new(),
            groups: Vec::new(),
            wgmma: WgmmaRegState::new(),
        };
        assert(copy_models(th.uncommitted@) =~= Seq::empty());
        assert(group_models(th.groups@) =~= Seq::empty());
        let ghost before = threads@;
        assert(th@ == fresh_thread(program.entry_pc));
        threads.push(th);
        i = i + 1;
        assert(thread_models(threads@) =~= thread_models(before).push(
            fresh_thread(program.entry_pc),
        ));
        assert(thread_models(threads@) =~= Seq::new(
            i as nat,
            |k: int| fresh_thread(program.entry_pc),
        ));
    }
    threads
}

fn fresh_memories(n: u32) -> (r: Vec<Memory>)
    ensures
        r@.len() == n,
        memory_models(r@) == Seq::new(n as nat, |i: int| Cells::empty()),
        forall|i: int| 0 <= i < r@.len() ==> (#[trigger] r@[i]).wf(),
{
    let mut memories: Vec<Memory> = Vec::new();
    let mut i: u32 = 0;
    while i < n
        invariant
            i <= n,
            memories@.len() == i,
            memory_models(memories@) == Seq::new(i as nat, |k: int| Cells::empty()),
            forall|k: int| 0 <= k < memories@.len() ==> (#[trigger] memories@[k]).wf(),
        decreases n - i,
    {
        let ghost before = memories@;
        memories.push(Memory::new());
        i = i + 1;
        assert(memory_models(memories@) =~= memory_models(before).push(Cells::empty()));
        assert(memory_models(memories@) =~= Seq::new(i as nat, |k: int| Cells::empty()));
    }
    memories
}

fn zero_counts() -> (r: Vec<u64>)
    ensures
        r@ == Seq::new(KIND_COUNT as nat, |i: int| 0u64),
{
    let mut counts: Vec<u64> = Vec::new();
    let mut i: usize = 0;
    while i < KIND_COUNT
        invariant
            i <= KIND_COUNT,
            counts@ == Seq::new(i as nat, |k: int| 0u64),
        decreases KIND_COUNT - i,
    {
        counts.push(0);
        i = i + 1;
        assert(counts@ =~= Seq::new(i as nat, |k: int| 0u64));
    }
    counts
}

impl<'p> Interpreter<'p> {
    /// An interpreter before its first instruction. Fails on a configuration
    /// that does not fit the program.
    pub fn new(program: &'p LoweredProgram, config: AnalysisConfig, features: TargetFeatures) -> (r:
        EvalResult<Self>)
        requires
            config.block_dim.0 * config.block_dim.1 <= u32::MAX,
            config.threads() <= u32::MAX,
            program.instructions@.len() <= u32::MAX,
            program.symbols.wf(),
        ensures
            match (r, Machine::set_up(*program, config, features)) {
                (Ok(i), Ok(m)) => i.wf() && i@ == m,
                (Err(e), Err(t)) => e matches EvalError::Config { message } && message@ == t,
                _ => false,
            },
    {
        let n_threads: u32 = config.num_threads();
        if n_threads == 0 {
            return config_error(String::from_str("block has zero threads"));
        }
        if let Err(e) = config.validate() {
            return config_error(e);
        }
        proof {
            assert forall|i: int| 0 <= i < config.arrays@.len() implies (
            #[trigger] config.arrays@[i]).wf() by {
                valid_array_is_wf(config, i);
            }
        }
        let mut arena = ExprArena::new();
        let undefined = arena.undefined();
        if program.symbols.params.len() != config.params.len() {
            let mut s = String::from_str("kernel declares ");
            push_dec(&mut s, program.symbols.params.len() as u128);
            s.append(" parameters but ");
            push_dec(&mut s, config.params.len() as u128);
            s.append(" were provided");
            return config_error(s);
        }
        let params = match bind_params(&config, &mut arena) {
            Err(e) => {
                return config_error(e);
            },
            Ok(p) => p,
        };
        if let Err(e) = check_window(&config.arrays, program.symbols.module_global_size) {
            return config_error(e);
        }
        let (global_regions, shared_regions, local_regions) = match build_regions(
            &program.symbols,
            &config,
        ) {
            Err(e) => {
                return config_error(e);
            },
            Ok(l) => l,
        };
        let global = match place_globals(
            &program.symbols.global_vars,
            &config.global_values,
            &mut arena,
        ) {
            Err(e) => {
                return config_error(e);
            },
            Ok(m) => m,
        };
        let ghost cells = global@;
        let ghost exprs = arena@;
        let setup = Setup {
            program,
            config,
            n_threads,
            undefined,
            params,
            global: global_regions,
            shared: shared_regions,
            local: local_regions,
            features,
        };
        let r = Interpreter {
            setup,
            arena,
            threads: number_threads(fresh_threads(n_threads, program)),
            global,
            shared: Memory::new(),
            locals: number_memories(fresh_memories(n_threads)),
            tensor: TensorMemory::new(),
            race: RaceTracker::new(n_threads as usize),
            mbarriers: MbarrierTable::new(n_threads as usize),
            tensor_maps: TensorMapTable::new(),
            stats: Stats::zero(),
            op_counts: zero_counts(),
        };
        assert(r@ == Machine::initial(r.setup@, exprs, cells));
        Ok(r)
    }

    /// Execution statistics so far.
    pub fn stats(&self) -> (r: Stats)
        ensures
            r == self@.stats,
    {
        self.stats
    }
}

} // verus!
