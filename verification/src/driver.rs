//! From a module's kernels to per-element expressions, and from two runs to
//! a verdict on their outputs.

use vstd::multiset::*;
use vstd::prelude::*;
use vstd::seq_lib::*;
use vstd::string::*;

use crate::eval::config::AnalysisConfig;
use crate::eval::error::EvalError;
use crate::eval::interp::Interpreter;
use crate::eval::machine::{Machine, Stats};
use crate::eval::outputs::{
    AnalysisOutput, Elements, Footprints, OutputFootprints, footprint, footprints, in_order,
    named_counts, states,
};
use crate::eval::schedule::{Finish, failure};
use crate::eval::target::TargetFeatures;
use crate::lowered::LoweredProgram;
use crate::symbolic::ExprId;
use crate::symbolic::arena::ExprArena;
use crate::text::{
    before, before_is_total, before_is_transitive, dec_text, filler, is_before, push_dec,
    push_filler,
};

verus! {

// ---------------------------------------------------------------------------
// Modules
// ---------------------------------------------------------------------------

/// A function of a module: its name, and its body in whatever form the
/// parser gives it.
pub struct Function<B> {
    pub name: String,
    pub body: B,
}

/// One top-level item of a module.
pub enum TopLevelItem<B, V> {
    /// A kernel entry point.
    Entry(Function<B>),
    /// A module-scope variable.
    Variable(V),
    /// Anything else.
    Other,
}

/// A parsed module.
pub struct Module<B, V> {
    pub items: Vec<TopLevelItem<B, V>>,
}

/// Whether an item is a kernel entry, of the given name if there is one.
pub open spec fn is_kernel<B, V>(item: TopLevelItem<B, V>, name: Option<Seq<char>>) -> bool {
    item matches TopLevelItem::Entry(f) && (name matches Some(n) ==> f.name@ == n)
}

/// Position of the first such entry from `i` on.
pub open spec fn kernel_index<B, V>(
    items: Seq<TopLevelItem<B, V>>,
    name: Option<Seq<char>>,
    i: int,
) -> int
    decreases items.len() - i,
{
    if i >= items.len() || is_kernel(items[i], name) {
        i
    } else {
        kernel_index(items, name, i + 1)
    }
}

pub open spec fn name_of(name: Option<&str>) -> Option<Seq<char>> {
    match name {
        Some(n) => Some(n@),
        None => None,
    }
}

/// Errors from the end-to-end analysis of one kernel.
#[derive(Debug)]
pub enum AnalysisError {
    KernelNotFound { name: Option<String> },
    /// Lowering failed, for the stated reason.
    Lower(String),
    Eval(EvalError),
}

impl AnalysisError {
    /// The text of the error.
    pub open spec fn spec_text(&self) -> Seq<char> {
        match self {
            AnalysisError::KernelNotFound { name: Some(name) } => "no kernel named '"@ + name@
                + "' in module"@,
            AnalysisError::KernelNotFound { name: None } => "no kernel entry in module"@,
            AnalysisError::Lower(e) => "lowering failed: "@ + e@,
            AnalysisError::Eval(e) => e.spec_text(),
        }
    }

    /// The text of the error.
    pub fn text(&self) -> (r: String)
        ensures
            r@ == self.spec_text(),
    {
        match self {
            AnalysisError::KernelNotFound { name: Some(name) } => {
                let mut s = String::from_str("no kernel named '");
                s.append(name.as_str());
                s.append("' in module");
                s
            },
            AnalysisError::KernelNotFound { name: None } => {
                String::from_str("no kernel entry in module")
            },
            AnalysisError::Lower(e) => {
                let mut s = String::from_str("lowering failed: ");
                s.append(e.as_str());
                s
            },
            AnalysisError::Eval(e) => e.text(),
        }
    }
}

/// Whether an error says that the kernel asked for is missing.
pub open spec fn is_missing(e: AnalysisError, asked: Option<Seq<char>>) -> bool {
    e matches AnalysisError::KernelNotFound { name } && match (name, asked) {
        (Some(n), Some(a)) => n@ == a,
        (None, None) => true,
        _ => false,
    }
}

fn not_found(name: Option<&str>) -> (r: AnalysisError)
    ensures
        is_missing(r, name_of(name)),
{
    match name {
        Some(n) => AnalysisError::KernelNotFound { name: Some(String::from_str(n)) },
        None => AnalysisError::KernelNotFound { name: None },
    }
}

/// Finds a kernel entry point by name, or the first entry if there is no
/// name.
pub fn find_kernel<'m, B, V>(module: &'m Module<B, V>, name: Option<&str>) -> (r: Result<
    &'m Function<B>,
    AnalysisError,
>)
    ensures
        ({
            let k = kernel_index(module.items@, name_of(name), 0);
            match r {
                Ok(f) => k < module.items@.len() && module.items@[k] == TopLevelItem::<B, V>::Entry(
                    *f,
                ),
                Err(e) => k == module.items@.len() && is_missing(e, name_of(name)),
            }
        }),
{
    let mut i: usize = 0;
    while i < module.items.len()
        invariant
            i <= module.items@.len(),
            kernel_index(module.items@, name_of(name), 0) == kernel_index(
                module.items@,
                name_of(name),
                i as int,
            ),
        decreases module.items@.len() - i,
    {
        if let TopLevelItem::Entry(f) = &module.items[i] {
            let wanted = match name {
                None => true,
                Some(n) => same_text(&f.name, n),
            };
            if wanted {
                return Ok(f);
            }
        }
        i = i + 1;
    }
    Err(not_found(name))
}

fn same_text(a: &String, b: &str) -> (r: bool)
    ensures
        r == (a@ == b@),
{
    proof {
        before_is_total(a@, b@);
    }
    !is_before(a.as_str(), b) && !is_before(b, a.as_str())
}

/// The variables among the items from `i` on, after those in `acc`.
pub open spec fn variables<B, V>(items: Seq<TopLevelItem<B, V>>, acc: Seq<V>, i: int) -> Seq<V>
    decreases items.len() - i,
{
    if i >= items.len() {
        acc
    } else {
        match items[i] {
            TopLevelItem::Variable(v) => variables(items, acc.push(v), i + 1),
            _ => variables(items, acc, i + 1),
        }
    }
}

/// The module-level variable declarations, in order.
pub fn module_vars<B, V>(module: &Module<B, V>) -> (r: Vec<&V>)
    ensures
        r@.unref() == variables(module.items@, Seq::empty(), 0),
{
    let mut vars: Vec<&V> = Vec::new();
    let mut i: usize = 0;
    assert(vars@.unref() =~= Seq::empty());
    while i < module.items.len()
        invariant
            i <= module.items@.len(),
            variables(module.items@, Seq::empty(), 0) == variables(
                module.items@,
                vars@.unref(),
                i as int,
            ),
        decreases module.items@.len() - i,
    {
        if let TopLevelItem::Variable(v) = &module.items[i] {
            let ghost earlier = vars@;
            vars.push(v);
            assert(vars@.unref() =~= earlier.unref().push(*v));
        }
        i = i + 1;
    }
    vars
}

// ---------------------------------------------------------------------------
// Analyzing a kernel
// ---------------------------------------------------------------------------

/// Whether an output is the one that a finished run leaves.
pub open spec fn is_output_of(o: AnalysisOutput, end: Machine) -> bool {
    &&& o.arena.wf()
    &&& o.arena@ == end.outputs().0
    &&& end.outputs().1 == Ok::<Footprints, crate::eval::outputs::OutputFault>(
        footprints(o.outputs@),
    )
    &&& o.stats == end.stats
    &&& o.op_counts@ == named_counts(end.op_counts, Seq::empty(), 0)
    &&& in_order(o.op_counts@)
}

/// Whether a result is what analyzing a program comes to: the configuration
/// is refused, the run ends in an error, the outputs cannot be read off, or
/// there is an output.
pub open spec fn is_analysis_of(
    r: Result<AnalysisOutput, EvalError>,
    program: LoweredProgram,
    config: AnalysisConfig,
    features: TargetFeatures,
) -> bool {
    match Machine::set_up(program, config, features) {
        Err(t) => r matches Err(EvalError::Config { message }) && message@ == t,
        Ok(m) => exists|end: Machine, how: Finish|
            #[trigger] m.runs_to(end, how) && match how {
                Finish::Done => match (r, end.outputs().1) {
                    (Ok(o), Ok(_)) => is_output_of(o, end),
                    (Err(e), Err(f)) => states(e, f),
                    _ => false,
                },
                _ => r matches Err(e) && failure(e) == how,
            },
    }
}

/// Symbolically executes all threads of block (0, 0, 0) of a lowered kernel
/// under the given configuration.
pub fn analyze_program(
    program: &LoweredProgram,
    config: AnalysisConfig,
    features: TargetFeatures,
) -> (r: Result<AnalysisOutput, EvalError>)
    requires
        config.block_dim.0 * config.block_dim.1 <= u32::MAX,
        config.threads() <= u32::MAX,
        program.instructions@.len() <= u32::MAX,
        program.symbols.wf(),
    ensures
        is_analysis_of(r, *program, config, features),
{
    let mut interp = match Interpreter::new(program, config, features) {
        Err(e) => {
            return Err(e);
        },
        Ok(i) => i,
    };
    let ghost start = interp@;
    let outcome = interp.run();
    let ghost end = interp@;
    match outcome {
        Err(e) => {
            assert(start.runs_to(end, failure(e)));
            Err(e)
        },
        Ok(_) => {
            assert(start.runs_to(end, Finish::Done));
            interp.into_output()
        },
    }
}

/// Analyzes one kernel of a module, given what lowering it came to.
pub fn analyze_kernel<B, V>(
    module: &Module<B, V>,
    kernel: Option<&str>,
    lowered: Result<&LoweredProgram, String>,
    config: AnalysisConfig,
    features: TargetFeatures,
) -> (r: Result<AnalysisOutput, AnalysisError>)
    requires
        config.block_dim.0 * config.block_dim.1 <= u32::MAX,
        config.threads() <= u32::MAX,
        lowered matches Ok(p) ==> p.instructions@.len() <= u32::MAX && p.symbols.wf(),
    ensures
        if kernel_index(module.items@, name_of(kernel), 0) == module.items@.len() {
            r matches Err(e) && is_missing(e, name_of(kernel))
        } else {
            match lowered {
                Err(why) => r == Err::<AnalysisOutput, AnalysisError>(AnalysisError::Lower(why)),
                Ok(p) => match r {
                    Ok(o) => is_analysis_of(Ok(o), *p, config, features),
                    Err(e) => e matches AnalysisError::Eval(e) && is_analysis_of(
                        Err(e),
                        *p,
                        config,
                        features,
                    ),
                },
            }
        },
{
    if let Err(e) = find_kernel(module, kernel) {
        return Err(e);
    }
    match lowered {
        Err(why) => Err(AnalysisError::Lower(why)),
        Ok(program) => match analyze_program(program, config, features) {
            Ok(o) => Ok(o),
            Err(e) => Err(AnalysisError::Eval(e)),
        },
    }
}

// ---------------------------------------------------------------------------
// Pairing the outputs of two runs
// ---------------------------------------------------------------------------

/// A single output element where the two kernels disagree.
#[derive(Debug)]
pub struct Mismatch {
    pub array: String,
    pub index: u64,
}

/// Result of comparing two analysis outputs.
#[derive(Debug)]
pub enum EquivOutcome {
    Equivalent,
    NotEquivalent { mismatches: Vec<Mismatch> },
}

/// Errors from output comparison.
#[derive(Debug)]
pub enum EquivCheckError {
    /// The two outputs have different arrays or element counts.
    ShapeMismatch { message: String },
    /// The underlying symbolic check failed, for the stated reason.
    Equiv(String),
    /// The numeric oracle contradicted (or could not confirm) a verdict.
    Numeric { message: String },
}

impl EquivCheckError {
    /// The text of the error.
    pub open spec fn spec_text(&self) -> Seq<char> {
        match self {
            EquivCheckError::ShapeMismatch { message } => "output shape mismatch: "@ + message@,
            EquivCheckError::Equiv(e) => "equivalence check failed: "@ + e@,
            EquivCheckError::Numeric { message } => "numeric oracle: "@ + message@,
        }
    }

    /// The text of the error.
    pub fn text(&self) -> (r: String)
        ensures
            r@ == self.spec_text(),
    {
        let (head, tail) = match self {
            EquivCheckError::ShapeMismatch { message } => ("output shape mismatch: ", message),
            EquivCheckError::Equiv(e) => ("equivalence check failed: ", e),
            EquivCheckError::Numeric { message } => ("numeric oracle: ", message),
        };
        let mut s = String::from_str(head);
        s.append(tail.as_str());
        s
    }
}

/// The written elements of an array in both runs.
pub type PairedArray = (String, Vec<(u64, ExprId, ExprId)>);

/// A paired array in the model.
pub type Pairs = (Seq<char>, Seq<(u64, ExprId, ExprId)>);

pub open spec fn pairs_of(v: Seq<PairedArray>) -> Seq<Pairs> {
    v.map_values(|e: PairedArray| (e.0@, e.1@))
}

pub open spec fn missing_text(run: Seq<char>, name: Seq<char>) -> Seq<char> {
    run + " run has no output array '"@ + name + "'"@
}

pub open spec fn count_text(name: Seq<char>, a: nat, b: nat) -> Seq<char> {
    "array '"@ + name + "': "@ + dec_text(a) + " elements written vs "@ + dec_text(b)
}

pub open spec fn footprint_text(name: Seq<char>, a: u64, b: u64) -> Seq<char> {
    "array '"@ + name + "': written footprints differ (element "@ + dec_text(a as nat) + " vs "@
        + dec_text(b as nat) + ")"@
}

/// Position of the first array of a name, from `i` on.
pub open spec fn array_index(l: Footprints, name: Seq<char>, i: int) -> int
    decreases l.len() - i,
{
    if i >= l.len() || l[i].0 == name {
        i
    } else {
        array_index(l, name, i + 1)
    }
}

/// The elements of two lists side by side from the `i`-th on, after those in
/// `acc`, or the first two indices that differ.
pub open spec fn zipped(
    a: Elements,
    b: Elements,
    acc: Seq<(u64, ExprId, ExprId)>,
    i: int,
) -> Result<Seq<(u64, ExprId, ExprId)>, (u64, u64)>
    decreases a.len() - i,
{
    if i >= a.len() {
        Ok(acc)
    } else if a[i].0 != b[i].0 {
        Err((a[i].0, b[i].0))
    } else {
        zipped(a, b, acc.push((a[i].0, a[i].1, b[i].1)), i + 1)
    }
}

/// The elements of one named array in both runs, or what is wrong.
pub open spec fn paired_array(
    reference: Footprints,
    optimized: Footprints,
    name: Seq<char>,
) -> Result<
    Seq<(u64, ExprId, ExprId)>,
    Seq<char>,
> {
    let (r, o) = (array_index(reference, name, 0), array_index(optimized, name, 0));
    if r >= reference.len() {
        Err(missing_text("reference"@, name))
    } else if o >= optimized.len() {
        Err(missing_text("optimized"@, name))
    } else if reference[r].1.len() != optimized[o].1.len() {
        Err(count_text(name, reference[r].1.len(), optimized[o].1.len()))
    } else {
        match zipped(reference[r].1, optimized[o].1, Seq::empty(), 0) {
            Err((x, y)) => Err(footprint_text(name, x, y)),
            Ok(common) => Ok(common),
        }
    }
}

/// The named arrays from the `i`-th on paired, after those in `acc`.
pub open spec fn paired_from(
    reference: Footprints,
    optimized: Footprints,
    names: Seq<String>,
    acc: Seq<Pairs>,
    i: int,
) -> Result<Seq<Pairs>, Seq<char>>
    decreases names.len() - i,
{
    if i >= names.len() {
        Ok(acc)
    } else {
        match paired_array(reference, optimized, names[i]@) {
            Err(e) => Err(e),
            Ok(common) => paired_from(
                reference,
                optimized,
                names,
                acc.push((names[i]@, common)),
                i + 1,
            ),
        }
    }
}

/// The named arrays paired, or what is wrong.
pub open spec fn paired(reference: Footprints, optimized: Footprints, names: Seq<String>) -> Result<
    Seq<Pairs>,
    Seq<char>,
> {
    if names.len() == 0 {
        Err("no arrays specified to check"@)
    } else {
        paired_from(reference, optimized, names, Seq::empty(), 0)
    }
}

fn find_array(l: &OutputFootprints, name: &String) -> (r: Option<usize>)
    ensures
        match r {
            Some(i) => i < l@.len() && i == array_index(footprints(l@), name@, 0),
            None => array_index(footprints(l@), name@, 0) == l@.len(),
        },
{
    let mut i: usize = 0;
    while i < l.len()
        invariant
            i <= l@.len(),
            array_index(footprints(l@), name@, 0) == array_index(
                footprints(l@),
                name@,
                i as int,
            ),
        decreases l@.len() - i,
    {
        assert(footprints(l@)[i as int] == footprint(l@[i as int]));
        if l[i].0 == *name {
            return Some(i);
        }
        i = i + 1;
    }
    None
}

fn missing(run: &str, name: &String) -> (r: String)
    ensures
        r@ == missing_text(run@, name@),
{
    let mut s = String::from_str(run);
    s.append(" run has no output array '");
    s.append(name.as_str());
    s.append("'");
    s
}

fn zip(name: &String, a: &Vec<(u64, ExprId)>, b: &Vec<(u64, ExprId)>) -> (r: Result<
    Vec<(u64, ExprId, ExprId)>,
    String,
>)
    requires
        a@.len() == b@.len(),
    ensures
        match (r, zipped(a@, b@, Seq::empty(), 0)) {
            (Ok(v), Ok(l)) => v@ == l,
            (Err(e), Err((x, y))) => e@ == footprint_text(name@, x, y),
            _ => false,
        },
{
    let mut common: Vec<(u64, ExprId, ExprId)> = Vec::new();
    let mut i: usize = 0;
    while i < a.len()
        invariant
            a@.len() == b@.len(),
            i <= a@.len(),
            zipped(a@, b@, Seq::empty(), 0) == zipped(a@, b@, common@, i as int),
        decreases a@.len() - i,
    {
        if a[i].0 != b[i].0 {
            let mut s = String::from_str("array '");
            s.append(name.as_str());
            s.append("': written footprints differ (element ");
            push_dec(&mut s, a[i].0 as u128);
            s.append(" vs ");
            push_dec(&mut s, b[i].0 as u128);
            s.append(")");
            return Err(s);
        }
        common.push((a[i].0, a[i].1, b[i].1));
        i = i + 1;
    }
    Ok(common)
}

fn pair_array(reference: &OutputFootprints, optimized: &OutputFootprints, name: &String) -> (r:
    Result<Vec<(u64, ExprId, ExprId)>, String>)
    ensures
        match (r, paired_array(footprints(reference@), footprints(optimized@), name@)) {
            (Ok(v), Ok(l)) => v@ == l,
            (Err(e), Err(t)) => e@ == t,
            _ => false,
        },
{
    let a = match find_array(reference, name) {
        None => {
            return Err(missing("reference", name));
        },
        Some(i) => i,
    };
    let b = match find_array(optimized, name) {
        None => {
            return Err(missing("optimized", name));
        },
        Some(i) => i,
    };
    assert(footprints(reference@)[a as int] == footprint(reference@[a as int]));
    assert(footprints(optimized@)[b as int] == footprint(optimized@[b as int]));
    let (x, y) = (&reference[a].1, &optimized[b].1);
    if x.len() != y.len() {
        let mut s = String::from_str("array '");
        s.append(name.as_str());
        s.append("': ");
        push_dec(&mut s, x.len() as u128);
        s.append(" elements written vs ");
        push_dec(&mut s, y.len() as u128);
        return Err(s);
    }
    zip(name, x, y)
}

/// Pairs up the two runs' written elements for each array the caller names:
/// both runs must have written every named array with an identical index
/// set, element for element. Arrays the caller does not name are not
/// compared. The list must be nonempty: checking nothing is an error, not a
/// vacuous pass.
pub fn paired_elements(
    reference: &AnalysisOutput,
    optimized: &AnalysisOutput,
    arrays: &[String],
) -> (r: Result<Vec<PairedArray>, EquivCheckError>)
    ensures
        match (r, paired(footprints(reference.outputs@), footprints(optimized.outputs@), arrays@)) {
            (Ok(v), Ok(l)) => pairs_of(v@) == l,
            (Err(e), Err(t)) => e matches EquivCheckError::ShapeMismatch { message } && message@
                == t,
            _ => false,
        },
{
    if arrays.len() == 0 {
        return Err(
            EquivCheckError::ShapeMismatch {
                message: String::from_str("no arrays specified to check"),
            },
        );
    }
    let mut result: Vec<PairedArray> = Vec::new();
    assert(pairs_of(result@) =~= Seq::empty());
    let mut i: usize = 0;
    while i < arrays.len()
        invariant
            i <= arrays@.len(),
            arrays@.len() > 0,
            paired(footprints(reference.outputs@), footprints(optimized.outputs@), arrays@)
                == paired_from(
                footprints(reference.outputs@),
                footprints(optimized.outputs@),
                arrays@,
                pairs_of(result@),
                i as int,
            ),
        decreases arrays@.len() - i,
    {
        match pair_array(&reference.outputs, &optimized.outputs, &arrays[i]) {
            Err(message) => {
                return Err(EquivCheckError::ShapeMismatch { message });
            },
            Ok(common) => {
                let ghost earlier = result@;
                result.push((arrays[i].clone(), common));
                assert(pairs_of(result@) =~= pairs_of(earlier).push(
                    (arrays@[i as int]@, common@),
                ));
            },
        }
        i = i + 1;
    }
    Ok(result)
}

// ---------------------------------------------------------------------------
// The verdict
// ---------------------------------------------------------------------------

/// Options for [`check_output_equivalence_with`].
#[derive(Debug, Clone, Copy)]
pub struct EquivCheckOptions {
    /// Check at most this many common elements per array (0 = all).
    pub sample: u64,
    /// Confirm every verdict with the numeric oracle.
    pub verify_numeric: bool,
    /// Recycle the decision procedure's intern tables past this many terms
    /// (0 = never).
    pub recycle_terms: usize,
}

impl Default for EquivCheckOptions {
    /// Every element and no oracle. When to recycle is left open, since it
    /// does not matter to the outcome.
    fn default() -> (r: Self)
        ensures
            r.sample == 0,
            !r.verify_numeric,
    {
        EquivCheckOptions { sample: 0, verify_numeric: false, recycle_terms: 0 }
    }
}

/// What was found out about one pair of elements.
#[derive(Debug)]
pub struct Verdict {
    /// Whether the decision procedure found them equal, or why it failed.
    pub equivalent: Result<bool, String>,
    /// Whether the numeric oracle confirmed that, or what it said.
    pub oracle: Result<(), String>,
}

/// The outcome of a comparison plus how much of the footprint it covered.
#[derive(Debug)]
pub struct EquivCheckReport {
    pub outcome: EquivOutcome,
    /// Elements actually compared (less than total when sampling).
    pub elements_checked: u64,
    /// Comparable elements in the reference footprints.
    pub elements_total: u64,
}

/// How many elements of an array are checked.
pub open spec fn limit(options: EquivCheckOptions, n: nat) -> nat {
    if options.sample == 0 || n <= options.sample {
        n
    } else {
        options.sample as nat
    }
}

/// How many elements of the first `n` arrays are checked.
pub open spec fn checked_count(l: Seq<Pairs>, options: EquivCheckOptions, n: int) -> nat
    decreases n,
{
    if n <= 0 {
        0
    } else {
        checked_count(l, options, n - 1) + limit(options, l[n - 1].1.len())
    }
}

/// How many elements the first `n` arrays have.
pub open spec fn total_count(l: Seq<Pairs>, n: int) -> nat
    decreases n,
{
    if n <= 0 {
        0
    } else {
        total_count(l, n - 1) + l[n - 1].1.len()
    }
}

/// The checked pairs of an array from the `i`-th on, after those in `acc`.
pub open spec fn checked_in(
    l: Seq<(u64, ExprId, ExprId)>,
    n: nat,
    acc: Seq<(ExprId, ExprId)>,
    i: int,
) -> Seq<(ExprId, ExprId)>
    decreases n - i,
{
    if i >= n {
        acc
    } else {
        checked_in(l, n, acc.push((l[i].1, l[i].2)), i + 1)
    }
}

/// The checked pairs of the arrays from the `i`-th on, after those in `acc`.
pub open spec fn checked_from(
    l: Seq<Pairs>,
    options: EquivCheckOptions,
    acc: Seq<(ExprId, ExprId)>,
    i: int,
) -> Seq<(ExprId, ExprId)>
    decreases l.len() - i,
{
    if i >= l.len() {
        acc
    } else {
        checked_from(
            l,
            options,
            checked_in(l[i].1, limit(options, l[i].1.len()), acc, 0),
            i + 1,
        )
    }
}

fn limit_of(options: &EquivCheckOptions, n: usize) -> (r: usize)
    ensures
        r == limit(*options, n as nat),
        r <= n,
{
    if options.sample == 0 || n as u64 <= options.sample {
        n
    } else {
        options.sample as usize
    }
}

/// The pairs of expressions to decide, in the order in which
/// [`check_output_equivalence_with`] takes their verdicts.
pub fn elements_to_check(paired: &Vec<PairedArray>, options: &EquivCheckOptions) -> (r: Vec<
    (ExprId, ExprId),
>)
    ensures
        r@ == checked_from(pairs_of(paired@), *options, Seq::empty(), 0),
{
    let mut r: Vec<(ExprId, ExprId)> = Vec::new();
    let mut i: usize = 0;
    while i < paired.len()
        invariant
            i <= paired@.len(),
            checked_from(pairs_of(paired@), *options, Seq::empty(), 0) == checked_from(
                pairs_of(paired@),
                *options,
                r@,
                i as int,
            ),
        decreases paired@.len() - i,
    {
        let common = &paired[i].1;
        let n = limit_of(options, common.len());
        let ghost start = r@;
        let mut k: usize = 0;
        while k < n
            invariant
                k <= n <= common@.len(),
                checked_in(common@, n as nat, start, 0) == checked_in(
                    common@,
                    n as nat,
                    r@,
                    k as int,
                ),
            decreases n - k,
        {
            r.push((common[k].1, common[k].2));
            k = k + 1;
        }
        assert(pairs_of(paired@)[i as int].1 == common@);
        i = i + 1;
    }
    r
}

/// Mismatches in the model.
pub open spec fn mismatch_views(v: Seq<Mismatch>) -> Seq<(Seq<char>, u64)> {
    v.map_values(|m: Mismatch| (m.array@, m.index))
}

pub open spec fn numeric_text(name: Seq<char>, index: u64, message: Seq<char>) -> Seq<char> {
    "array '"@ + name + "' element "@ + dec_text(index as nat) + ": "@ + message
}

/// Why a comparison failed.
pub enum CheckFault {
    Shape(Seq<char>),
    Equiv(Seq<char>),
    Numeric(Seq<char>),
}

/// Whether an error states a fault.
pub open spec fn tells(e: EquivCheckError, f: CheckFault) -> bool {
    match (e, f) {
        (EquivCheckError::ShapeMismatch { message }, CheckFault::Shape(t)) => message@ == t,
        (EquivCheckError::Equiv(message), CheckFault::Equiv(t)) => message@ == t,
        (EquivCheckError::Numeric { message }, CheckFault::Numeric(t)) => message@ == t,
        _ => false,
    }
}

/// The mismatches among the first `n` elements of an array, from the `i`-th
/// on, after those in `acc`; element `i` has the verdict at `base + i`.
pub open spec fn mismatches_in(
    p: Pairs,
    n: nat,
    verify: bool,
    verdicts: Seq<Verdict>,
    base: int,
    acc: Seq<(Seq<char>, u64)>,
    i: int,
) -> Result<Seq<(Seq<char>, u64)>, CheckFault>
    decreases n - i,
{
    if i >= n {
        Ok(acc)
    } else {
        let v = verdicts[base + i];
        match v.equivalent {
            Err(e) => Err(CheckFault::Equiv(e@)),
            Ok(equal) => if verify && v.oracle is Err {
                Err(CheckFault::Numeric(numeric_text(p.0, p.1[i].0, v.oracle->Err_0@)))
            } else if equal {
                mismatches_in(p, n, verify, verdicts, base, acc, i + 1)
            } else {
                mismatches_in(p, n, verify, verdicts, base, acc.push((p.0, p.1[i].0)), i + 1)
            },
        }
    }
}

/// The mismatches in the arrays from the `i`-th on, after those in `acc`.
pub open spec fn mismatches_from(
    l: Seq<Pairs>,
    options: EquivCheckOptions,
    verdicts: Seq<Verdict>,
    acc: Seq<(Seq<char>, u64)>,
    i: int,
) -> Result<Seq<(Seq<char>, u64)>, CheckFault>
    decreases l.len() - i,
{
    if i >= l.len() {
        Ok(acc)
    } else {
        match mismatches_in(
            l[i],
            limit(options, l[i].1.len()),
            options.verify_numeric,
            verdicts,
            checked_count(l, options, i) as int,
            acc,
            0,
        ) {
            Err(e) => Err(e),
            Ok(more) => mismatches_from(l, options, verdicts, more, i + 1),
        }
    }
}

/// The mismatches of a comparison, or why it failed.
pub open spec fn comparison(
    reference: Footprints,
    optimized: Footprints,
    names: Seq<String>,
    options: EquivCheckOptions,
    verdicts: Seq<Verdict>,
) -> Result<Seq<(Seq<char>, u64)>, CheckFault> {
    match paired(reference, optimized, names) {
        Err(t) => Err(CheckFault::Shape(t)),
        Ok(l) => mismatches_from(l, options, verdicts, Seq::empty(), 0),
    }
}

/// Whether an outcome says that exactly the given elements differ.
pub open spec fn reports(outcome: EquivOutcome, mismatches: Seq<(Seq<char>, u64)>) -> bool {
    match outcome {
        EquivOutcome::Equivalent => mismatches.len() == 0,
        EquivOutcome::NotEquivalent { mismatches: m } => mismatches.len() > 0 && mismatch_views(m@)
            == mismatches,
    }
}

proof fn lemma_checked_prefix(l: Seq<Pairs>, options: EquivCheckOptions, i: int, n: int)
    requires
        0 <= i <= n,
    ensures
        checked_count(l, options, i) <= checked_count(l, options, n),
        total_count(l, i) <= total_count(l, n),
    decreases n,
{
    if i < n {
        lemma_checked_prefix(l, options, i, n - 1);
    }
}

proof fn lemma_checked_at_most_total(l: Seq<Pairs>, options: EquivCheckOptions, n: int)
    ensures
        checked_count(l, options, n) <= total_count(l, n),
    decreases n,
{
    if n > 0 {
        lemma_checked_at_most_total(l, options, n - 1);
    }
}

fn numeric_error(name: &String, index: u64, message: &String) -> (r: EquivCheckError)
    ensures
        tells(r, CheckFault::Numeric(numeric_text(name@, index, message@))),
{
    let mut s = String::from_str("array '");
    s.append(name.as_str());
    s.append("' element ");
    push_dec(&mut s, index as u128);
    s.append(": ");
    s.append(message.as_str());
    EquivCheckError::Numeric { message: s }
}

fn compare_array(
    pair: &PairedArray,
    n: usize,
    verify: bool,
    verdicts: &[Verdict],
    base: usize,
    mismatches: &mut Vec<Mismatch>,
) -> (r: Result<(), EquivCheckError>)
    requires
        n <= pair.1@.len(),
        base + n <= verdicts@.len(),
    ensures
        match (
            r,
            mismatches_in(
                (pair.0@, pair.1@),
                n as nat,
                verify,
                verdicts@,
                base as int,
                mismatch_views(old(mismatches)@),
                0,
            ),
        ) {
            (Ok(_), Ok(l)) => mismatch_views(final(mismatches)@) == l,
            (Err(e), Err(f)) => tells(e, f),
            _ => false,
        },
{
    let ghost p: Pairs = (pair.0@, pair.1@);
    let end: usize = verdicts.len();
    let mut i: usize = 0;
    while i < n
        invariant
            end == verdicts@.len(),
            p == (pair.0@, pair.1@),
            i <= n <= pair.1@.len(),
            base + n <= verdicts@.len(),
            mismatches_in(
                p,
                n as nat,
                verify,
                verdicts@,
                base as int,
                mismatch_views(old(mismatches)@),
                0,
            ) == mismatches_in(
                p,
                n as nat,
                verify,
                verdicts@,
                base as int,
                mismatch_views(mismatches@),
                i as int,
            ),
        decreases n - i,
    {
        let index: u64 = pair.1[i].0;
        match &verdicts[base + i].equivalent {
            Err(e) => {
                return Err(EquivCheckError::Equiv(e.clone()));
            },
            Ok(equal) => {
                if verify {
                    if let Err(message) = &verdicts[base + i].oracle {
                        return Err(numeric_error(&pair.0, index, message));
                    }
                }
                if !*equal {
                    let ghost earlier = mismatches@;
                    mismatches.push(Mismatch { array: pair.0.clone(), index });
                    assert(mismatch_views(mismatches@) =~= mismatch_views(earlier).push(
                        (pair.0@, index),
                    ));
                }
            },
        }
        i = i + 1;
    }
    Ok(())
}

/// Checks two analysis outputs element by element under `options`, given the
/// verdicts on the pairs that [`elements_to_check`] lists.
pub fn check_output_equivalence_with(
    reference: &AnalysisOutput,
    optimized: &AnalysisOutput,
    arrays: &[String],
    options: &EquivCheckOptions,
    verdicts: &[Verdict],
) -> (r: Result<EquivCheckReport, EquivCheckError>)
    requires
        paired(
            footprints(reference.outputs@),
            footprints(optimized.outputs@),
            arrays@,
        ) matches Ok(l) ==> checked_count(l, *options, l.len() as int) <= verdicts@.len()
            && total_count(l, l.len() as int) <= u64::MAX,
    ensures
        match (
            r,
            comparison(
                footprints(reference.outputs@),
                footprints(optimized.outputs@),
                arrays@,
                *options,
                verdicts@,
            ),
        ) {
            (Ok(report), Ok(m)) => {
                let l = paired(
                    footprints(reference.outputs@),
                    footprints(optimized.outputs@),
                    arrays@,
                )->Ok_0;
                &&& reports(report.outcome, m)
                &&& report.elements_checked == checked_count(l, *options, l.len() as int)
                &&& report.elements_total == total_count(l, l.len() as int)
            },
            (Err(e), Err(f)) => tells(e, f),
            _ => false,
        },
{
    let pairs = match paired_elements(reference, optimized, arrays) {
        Err(e) => {
            return Err(e);
        },
        Ok(p) => p,
    };
    let ghost l = pairs_of(pairs@);
    let mut mismatches: Vec<Mismatch> = Vec::new();
    assert(mismatch_views(mismatches@) =~= Seq::empty());
    let given: usize = verdicts.len();
    let mut checked: u64 = 0;
    let mut total: u64 = 0;
    let mut i: usize = 0;
    proof {
        lemma_checked_at_most_total(l, *options, l.len() as int);
    }
    while i < pairs.len()
        invariant
            l == pairs_of(pairs@),
            paired(footprints(reference.outputs@), footprints(optimized.outputs@), arrays@) == Ok::<
                Seq<Pairs>,
                Seq<char>,
            >(l),
            given == verdicts@.len(),
            i <= pairs@.len(),
            checked == checked_count(l, *options, i as int),
            total == total_count(l, i as int),
            checked_count(l, *options, l.len() as int) <= verdicts@.len(),
            checked_count(l, *options, l.len() as int) <= total_count(l, l.len() as int),
            total_count(l, l.len() as int) <= u64::MAX,
            mismatches_from(l, *options, verdicts@, Seq::empty(), 0) == mismatches_from(
                l,
                *options,
                verdicts@,
                mismatch_views(mismatches@),
                i as int,
            ),
        decreases pairs@.len() - i,
    {
        let n = limit_of(options, pairs[i].1.len());
        proof {
            assert(l[i as int] == (pairs@[i as int].0@, pairs@[i as int].1@));
            lemma_checked_prefix(l, *options, i as int + 1, l.len() as int);
        }
        if let Err(e) = compare_array(
            &pairs[i],
            n,
            options.verify_numeric,
            verdicts,
            checked as usize,
            &mut mismatches,
        ) {
            return Err(e);
        }
        checked = checked + n as u64;
        total = total + pairs[i].1.len() as u64;
        i = i + 1;
    }
    let outcome = if mismatches.len() == 0 {
        EquivOutcome::Equivalent
    } else {
        EquivOutcome::NotEquivalent { mismatches }
    };
    Ok(EquivCheckReport { outcome, elements_checked: checked, elements_total: total })
}

/// Checks that two analysis outputs agree on every element of every named
/// array under the default options: all elements checked, no numeric oracle.
pub fn check_output_equivalence(
    reference: &AnalysisOutput,
    optimized: &AnalysisOutput,
    arrays: &[String],
    verdicts: &[Verdict],
) -> (r: Result<EquivOutcome, EquivCheckError>)
    requires
        paired(
            footprints(reference.outputs@),
            footprints(optimized.outputs@),
            arrays@,
        ) matches Ok(l) ==> total_count(l, l.len() as int) <= verdicts@.len(),
    ensures
        match (
            r,
            comparison(
                footprints(reference.outputs@),
                footprints(optimized.outputs@),
                arrays@,
                (EquivCheckOptions { sample: 0, verify_numeric: false, recycle_terms: 0 }),
                verdicts@,
            ),
        ) {
            (Ok(outcome), Ok(m)) => reports(outcome, m),
            (Err(e), Err(f)) => tells(e, f),
            _ => false,
        },
{
    let options = EquivCheckOptions::default();
    let given: usize = verdicts.len();
    proof {
        assert(given == verdicts@.len());
        let p = paired(footprints(reference.outputs@), footprints(optimized.outputs@), arrays@);
        if let Ok(l) = p {
            lemma_checked_at_most_total(l, options, l.len() as int);
        }
        recycling_does_not_matter(
            footprints(reference.outputs@),
            footprints(optimized.outputs@),
            arrays@,
            options,
            EquivCheckOptions { recycle_terms: 0, ..options },
            verdicts@,
        );
    }
    match check_output_equivalence_with(reference, optimized, arrays, &options, verdicts) {
        Err(e) => Err(e),
        Ok(report) => Ok(report.outcome),
    }
}

// ---------------------------------------------------------------------------
// Snapshots
// ---------------------------------------------------------------------------

/// A snapshot of one kernel's verification conditions: the expression arena
/// plus the output footprint.
pub struct VcSnapshot {
    pub arena: ExprArena,
    pub outputs: OutputFootprints,
}

pub open spec fn dangling_text(name: Seq<char>, index: u64, root: usize, nodes: nat) -> Seq<char> {
    "output '"@ + name + "' element "@ + dec_text(index as nat) + " references expression "@
        + dec_text(root as nat) + " but the arena has "@ + dec_text(nodes) + " nodes"@
}

/// The first element from `i` on whose root lies outside an arena of `nodes`
/// nodes.
pub open spec fn dangling_in(l: Elements, nodes: nat, i: int) -> Option<(u64, ExprId)>
    decreases l.len() - i,
{
    if i >= l.len() {
        None
    } else if (l[i].1).0 >= nodes {
        Some(l[i])
    } else {
        dangling_in(l, nodes, i + 1)
    }
}

/// What is wrong with the roots of the arrays from `i` on.
pub open spec fn dangling_from(l: Footprints, nodes: nat, i: int) -> Option<Seq<char>>
    decreases l.len() - i,
{
    if i >= l.len() {
        None
    } else {
        match dangling_in(l[i].1, nodes, 0) {
            Some((index, root)) => Some(dangling_text(l[i].0, index, root.0, nodes)),
            None => dangling_from(l, nodes, i + 1),
        }
    }
}

impl VcSnapshot {
    /// What is wrong with the snapshot: an operand that does not come before
    /// its node, or a root outside the arena.
    pub open spec fn fault(&self) -> Option<Seq<char>> {
        if !self.arena@.ordered() {
            Some("an expression does not come after its operands"@)
        } else {
            dangling_from(footprints(self.outputs@), self.arena@.nodes.len(), 0)
        }
    }

    pub fn from_output(output: AnalysisOutput) -> (r: Self)
        ensures
            r.arena == output.arena,
            r.outputs == output.outputs,
    {
        VcSnapshot { arena: output.arena, outputs: output.outputs }
    }

    /// The shape that the comparison takes. Statistics and counts are empty:
    /// they belong to a run, and a snapshot has none to report.
    pub fn into_analysis_output(self) -> (r: AnalysisOutput)
        ensures
            r.arena == self.arena,
            r.outputs == self.outputs,
            r.stats == (Stats { instructions: 0, block_syncs: 0, warp_syncs: 0 }),
            r.op_counts@.len() == 0,
    {
        AnalysisOutput {
            arena: self.arena,
            outputs: self.outputs,
            stats: Stats::zero(),
            op_counts: Vec::new(),
        }
    }

    /// Checks that every id in the snapshot points inside its arena.
    pub fn validate(&self) -> (r: Result<(), String>)
        ensures
            match r {
                Ok(_) => self.fault() is None,
                Err(e) => self.fault() == Some(e@),
            },
    {
        if !self.arena.validate() {
            return Err(String::from_str("an expression does not come after its operands"));
        }
        let nodes = self.arena.node_count();
        let mut i: usize = 0;
        while i < self.outputs.len()
            invariant
                i <= self.outputs@.len(),
                nodes == self.arena@.nodes.len(),
                self.fault() == dangling_from(
                    footprints(self.outputs@),
                    nodes as nat,
                    i as int,
                ),
            decreases self.outputs@.len() - i,
        {
            let elems = &self.outputs[i].1;
            assert(footprints(self.outputs@)[i as int] == footprint(self.outputs@[i as int]));
            let mut k: usize = 0;
            while k < elems.len()
                invariant
                    k <= elems@.len(),
                    i < self.outputs@.len(),
                    elems@ == self.outputs@[i as int].1@,
                    nodes == self.arena@.nodes.len(),
                    dangling_in(elems@, nodes as nat, 0) == dangling_in(
                        elems@,
                        nodes as nat,
                        k as int,
                    ),
                    footprints(self.outputs@)[i as int] == footprint(self.outputs@[i as int]),
                    self.fault() == dangling_from(
                        footprints(self.outputs@),
                        nodes as nat,
                        i as int,
                    ),
                decreases elems@.len() - k,
            {
                let (index, root) = elems[k];
                if root.0 >= nodes {
                    let mut s = String::from_str("output '");
                    s.append(self.outputs[i].0.as_str());
                    s.append("' element ");
                    push_dec(&mut s, index as u128);
                    s.append(" references expression ");
                    push_dec(&mut s, root.0 as u128);
                    s.append(" but the arena has ");
                    push_dec(&mut s, nodes as u128);
                    s.append(" nodes");
                    return Err(s);
                }
                k = k + 1;
            }
            i = i + 1;
        }
        Ok(())
    }
}

/// The reference and optimized kernels' verification conditions.
pub struct VcDump {
    pub reference: VcSnapshot,
    pub optimized: VcSnapshot,
}

impl VcDump {
    /// What is wrong with the first invalid snapshot.
    pub open spec fn fault(&self) -> Option<Seq<char>> {
        match (self.reference.fault(), self.optimized.fault()) {
            (Some(e), _) => Some("reference: "@ + e),
            (None, Some(e)) => Some("optimized: "@ + e),
            (None, None) => None,
        }
    }

    /// Validates both snapshots.
    pub fn validate(&self) -> (r: Result<(), String>)
        ensures
            match r {
                Ok(_) => self.fault() is None,
                Err(e) => self.fault() == Some(e@),
            },
    {
        if let Err(e) = self.reference.validate() {
            let mut s = String::from_str("reference: ");
            s.append(e.as_str());
            return Err(s);
        }
        if let Err(e) = self.optimized.validate() {
            let mut s = String::from_str("optimized: ");
            s.append(e.as_str());
            return Err(s);
        }
        Ok(())
    }
}

// ---------------------------------------------------------------------------
// The profile
// ---------------------------------------------------------------------------

/// Whether an entry stands before another in a profile: more executions
/// first, and by name among equals.
pub open spec fn ranks_before(a: (&'static str, u64), b: (&'static str, u64)) -> bool {
    a.1 > b.1 || (a.1 == b.1 && before(a.0@, b.0@))
}

/// No later entry ranks before an earlier one.
pub open spec fn ranked(l: Seq<(&'static str, u64)>) -> bool {
    forall|i: int, j: int|
        0 <= i < j < l.len() ==> !ranks_before(#[trigger] l[j], #[trigger] l[i])
}

/// The sum of the first `n` counts.
pub open spec fn count_sum(l: Seq<(&'static str, u64)>, n: int) -> nat
    decreases n,
{
    if n <= 0 {
        0
    } else {
        count_sum(l, n - 1) + l[n - 1].1 as nat
    }
}

/// Adds an entry to a ranked list.
fn insert_ranked(l: &mut Vec<(&'static str, u64)>, e: (&'static str, u64))
    requires
        ranked(old(l)@),
    ensures
        ranked(final(l)@),
        final(l)@.to_multiset() == old(l)@.to_multiset().insert(e),
{
    broadcast use group_to_multiset_ensures;

    let mut k: usize = 0;
    while k < l.len() && !(e.1 > l[k].1 || (e.1 == l[k].1 && is_before(e.0, l[k].0)))
        invariant
            k <= l@.len(),
            forall|i: int| 0 <= i < k ==> !ranks_before(e, #[trigger] l@[i]),
        decreases l@.len() - k,
    {
        k = k + 1;
    }
    let ghost earlier = l@;
    l.insert(k, e);
    proof {
        let now = l@;
        assert(now.to_multiset() =~= earlier.to_multiset().insert(e));
        assert forall|i: int, j: int| 0 <= i < j < now.len() implies !ranks_before(
            #[trigger] now[j],
            #[trigger] now[i],
        ) by {
            let (a, b) = (if i < k {
                i
            } else {
                i - 1
            }, if j < k {
                j
            } else {
                j - 1
            });
            if i != k && j != k {
                assert(now[i] == earlier[a] && now[j] == earlier[b]);
            } else if j == k {
                assert(now[i] == earlier[i]);
            } else {
                assert(now[j] == earlier[j - 1]);
                if j - 1 > k {
                    assert(!ranks_before(earlier[j - 1], earlier[k as int]));
                }
                before_is_total(e.0@, earlier[k as int].0@);
                before_is_total(e.0@, now[j].0@);
                before_is_total(now[j].0@, earlier[k as int].0@);
                if before(now[j].0@, e.0@) && before(e.0@, earlier[k as int].0@) {
                    before_is_transitive(now[j].0@, e.0@, earlier[k as int].0@);
                }
            }
        }
    }
}

/// The execution profile: the total, and the entries, most-executed first
/// and by name among equals.
pub fn op_profile(counts: &Vec<(&'static str, u64)>) -> (r: (u64, Vec<(&'static str, u64)>))
    requires
        count_sum(counts@, counts@.len() as int) <= u64::MAX,
    ensures
        r.0 == count_sum(counts@, counts@.len() as int),
        ranked(r.1@),
        r.1@.to_multiset() == counts@.to_multiset(),
{
    broadcast use group_to_multiset_ensures;

    let mut total: u64 = 0;
    let mut entries: Vec<(&'static str, u64)> = Vec::new();
    let mut i: usize = 0;
    assert(counts@.take(0) =~= entries@);
    while i < counts.len()
        invariant
            i <= counts@.len(),
            count_sum(counts@, counts@.len() as int) <= u64::MAX,
            total == count_sum(counts@, i as int),
            ranked(entries@),
            entries@.to_multiset() == counts@.take(i as int).to_multiset(),
        decreases counts@.len() - i,
    {
        proof {
            lemma_count_sum(counts@, i as int + 1, counts@.len() as int);
            let seen = counts@.take(i as int);
            assert(counts@.take(i as int + 1) =~= seen.push(counts@[i as int]));
            assert(seen.push(counts@[i as int]).to_multiset() =~= seen.to_multiset().insert(
                counts@[i as int],
            )) by {
                broadcast use group_to_multiset_ensures;

            }
        }
        total = total + counts[i].1;
        insert_ranked(&mut entries, counts[i]);
        i = i + 1;
    }
    assert(counts@.take(i as int) =~= counts@);
    (total, entries)
}

/// One line of a profile: kind, count and share, in columns.
pub open spec fn profile_line(e: (&'static str, u64), share: Seq<char>) -> Seq<char> {
    "  "@ + e.0@ + filler(e.0@, 16) + " "@ + filler(dec_text(e.1 as nat), 10) + dec_text(
        e.1 as nat,
    ) + "  ("@ + filler(share, 5) + share + "%)\n"@
}

fn push_profile_line(s: &mut String, e: (&'static str, u64), share: &String)
    ensures
        final(s)@ == old(s)@ + profile_line(e, share@),
{
    let mut number = String::from_str("");
    proof {
        reveal_strlit("");
    }
    push_dec(&mut number, e.1 as u128);
    assert(number@ =~= dec_text(e.1 as nat));
    s.append("  ");
    s.append(e.0);
    push_filler(s, e.0, 16);
    s.append(" ");
    push_filler(s, number.as_str(), 10);
    s.append(number.as_str());
    s.append("  (");
    push_filler(s, share.as_str(), 5);
    s.append(share.as_str());
    s.append("%)\n");
    assert(s@ =~= old(s)@ + profile_line(e, share@));
}

/// The first `n` lines of a profile.
pub open spec fn profile_lines(
    entries: Seq<(&'static str, u64)>,
    shares: Seq<String>,
    n: int,
) -> Seq<char>
    decreases n,
{
    if n <= 0 {
        Seq::empty()
    } else {
        profile_lines(entries, shares, n - 1) + profile_line(entries[n - 1], shares[n - 1]@)
    }
}

/// The text of an execution profile, most-executed first, from the entries
/// that [`op_profile`] gives and each one's share of the total in percent.
/// There is no text without entries.
pub fn write_op_counts(
    label: &str,
    entries: &Vec<(&'static str, u64)>,
    shares: &Vec<String>,
) -> (r: String)
    requires
        shares@.len() == entries@.len(),
    ensures
        r@ == (if entries@.len() == 0 {
            Seq::empty()
        } else {
            label@ + " profile:\n"@ + profile_lines(entries@, shares@, entries@.len() as int)
        }),
{
    let mut s = String::from_str("");
    proof {
        reveal_strlit("");
    }
    assert(s@ =~= Seq::empty());
    if entries.len() == 0 {
        return s;
    }
    s.append(label);
    s.append(" profile:\n");
    assert(s@ =~= label@ + " profile:\n"@);
    let ghost head = label@ + " profile:\n"@;
    let mut i: usize = 0;
    assert(s@ =~= head + profile_lines(entries@, shares@, 0));
    while i < entries.len()
        invariant
            shares@.len() == entries@.len(),
            i <= entries@.len(),
            s@ == head + profile_lines(entries@, shares@, i as int),
        decreases entries@.len() - i,
    {
        let ghost earlier = s@;
        push_profile_line(&mut s, entries[i], &shares[i]);
        i = i + 1;
        assert(
            earlier + profile_line(
                entries@[i - 1],
                shares@[i - 1]@,
            ) =~= head + profile_lines(entries@, shares@, i as int)
        );
    }
    s
}

proof fn lemma_count_sum(l: Seq<(&'static str, u64)>, i: int, n: int)
    requires
        0 <= i <= n,
    ensures
        count_sum(l, i) <= count_sum(l, n),
    decreases n,
{
    if i < n {
        lemma_count_sum(l, i, n - 1);
    }
}

// ---------------------------------------------------------------------------
// Laws
// ---------------------------------------------------------------------------

/// A comparison covers exactly the arrays that the caller names, in that
/// order.
pub proof fn pairing_follows_the_callers_list(
    reference: Footprints,
    optimized: Footprints,
    names: Seq<String>,
)
    requires
        paired(reference, optimized, names) is Ok,
    ensures
        names.len() > 0,
        paired(reference, optimized, names)->Ok_0.len() == names.len(),
        forall|i: int|
            0 <= i < names.len() ==> (#[trigger] paired(reference, optimized, names)->Ok_0[i]).0
                == names[i]@ && paired_array(reference, optimized, names[i]@) == Ok::<
                Seq<(u64, ExprId, ExprId)>,
                Seq<char>,
            >(paired(reference, optimized, names)->Ok_0[i].1),
{
    lemma_paired_from(reference, optimized, names, Seq::empty(), 0);
}

proof fn lemma_paired_from(
    reference: Footprints,
    optimized: Footprints,
    names: Seq<String>,
    acc: Seq<Pairs>,
    i: int,
)
    requires
        0 <= i <= names.len(),
        acc.len() == i,
        forall|k: int|
            0 <= k < i ==> (#[trigger] acc[k]).0 == names[k]@ && paired_array(
                reference,
                optimized,
                names[k]@,
            ) == Ok::<Seq<(u64, ExprId, ExprId)>, Seq<char>>(acc[k].1),
        paired_from(reference, optimized, names, acc, i) is Ok,
    ensures
        ({
            let l = paired_from(reference, optimized, names, acc, i)->Ok_0;
            &&& l.len() == names.len()
            &&& forall|k: int|
                0 <= k < names.len() ==> (#[trigger] l[k]).0 == names[k]@ && paired_array(
                    reference,
                    optimized,
                    names[k]@,
                ) == Ok::<Seq<(u64, ExprId, ExprId)>, Seq<char>>(l[k].1)
        }),
    decreases names.len() - i,
{
    if i < names.len() {
        let common = paired_array(reference, optimized, names[i]@)->Ok_0;
        lemma_paired_from(reference, optimized, names, acc.push((names[i]@, common)), i + 1);
    }
}

/// Arrays that are not named do not matter: what the other arrays hold
/// changes nothing as long as the named one is the same.
pub proof fn unnamed_arrays_are_ignored(
    reference: Footprints,
    optimized: Footprints,
    extra: (Seq<char>, Elements),
    name: Seq<char>,
)
    requires
        extra.0 != name,
    ensures
        paired_array(reference, optimized.push(extra), name) == paired_array(
            reference,
            optimized,
            name,
        ),
        paired_array(reference.push(extra), optimized, name) == paired_array(
            reference,
            optimized,
            name,
        ),
{
    lemma_index_push(optimized, extra, name, 0);
    lemma_index_push(reference, extra, name, 0);
    let (r, o) = (array_index(reference, name, 0), array_index(optimized, name, 0));
    if r < reference.len() {
        assert(reference.push(extra)[r] == reference[r]);
    }
    if o < optimized.len() {
        assert(optimized.push(extra)[o] == optimized[o]);
    }
}

proof fn lemma_index_push(l: Footprints, extra: (Seq<char>, Elements), name: Seq<char>, i: int)
    requires
        extra.0 != name,
        0 <= i <= l.len(),
    ensures
        i <= array_index(l, name, i) <= l.len(),
        array_index(l.push(extra), name, i) == (if array_index(l, name, i) < l.len() {
            array_index(l, name, i)
        } else {
            l.len() as int + 1
        }),
    decreases l.len() - i,
{
    if i < l.len() {
        lemma_index_push(l, extra, name, i + 1);
    } else {
        reveal_with_fuel(array_index, 3);
    }
}

/// Two paired elements are the elements of one index: both runs wrote it.
pub proof fn paired_elements_share_their_index(a: Elements, b: Elements, k: int)
    requires
        a.len() == b.len(),
        zipped(a, b, Seq::empty(), 0) is Ok,
        0 <= k < a.len(),
    ensures
        zipped(a, b, Seq::empty(), 0)->Ok_0.len() == a.len(),
        zipped(a, b, Seq::empty(), 0)->Ok_0[k] == (a[k].0, a[k].1, b[k].1),
        a[k].0 == b[k].0,
{
    lemma_zipped(a, b, Seq::empty(), 0);
    let l = zipped(a, b, Seq::empty(), 0)->Ok_0;
    assert(l[k] == (a[k].0, a[k].1, b[k].1));
}

proof fn lemma_zipped(a: Elements, b: Elements, acc: Seq<(u64, ExprId, ExprId)>, i: int)
    requires
        a.len() == b.len(),
        0 <= i <= a.len(),
        acc.len() == i,
        forall|k: int|
            0 <= k < i ==> #[trigger] acc[k] == (a[k].0, a[k].1, b[k].1) && a[k].0 == b[k].0,
        zipped(a, b, acc, i) is Ok,
    ensures
        ({
            let l = zipped(a, b, acc, i)->Ok_0;
            &&& l.len() == a.len()
            &&& forall|k: int|
                0 <= k < a.len() ==> #[trigger] l[k] == (a[k].0, a[k].1, b[k].1) && a[k].0
                    == b[k].0
        }),
    decreases a.len() - i,
{
    if i < a.len() {
        let more = acc.push((a[i].0, a[i].1, b[i].1));
        assert forall|k: int| 0 <= k < i + 1 implies #[trigger] more[k] == (
            a[k].0,
            a[k].1,
            b[k].1,
        ) && a[k].0 == b[k].0 by {
            if k < i {
                assert(more[k] == acc[k]);
            }
        }
        lemma_zipped(a, b, more, i + 1);
    }
}

/// It does not matter when the intern tables are recycled: two comparisons
/// that differ in that alone end alike.
pub proof fn recycling_does_not_matter(
    reference: Footprints,
    optimized: Footprints,
    names: Seq<String>,
    a: EquivCheckOptions,
    b: EquivCheckOptions,
    verdicts: Seq<Verdict>,
)
    requires
        a.sample == b.sample,
        a.verify_numeric == b.verify_numeric,
    ensures
        comparison(reference, optimized, names, a, verdicts) == comparison(
            reference,
            optimized,
            names,
            b,
            verdicts,
        ),
        paired(reference, optimized, names) matches Ok(l) ==> checked_count(l, a, l.len() as int)
            == checked_count(l, b, l.len() as int),
{
    if let Ok(l) = paired(reference, optimized, names) {
        lemma_same_counts(l, a, b, l.len() as int);
        lemma_same_mismatches(l, a, b, verdicts, Seq::empty(), 0);
    }
}

proof fn lemma_same_counts(l: Seq<Pairs>, a: EquivCheckOptions, b: EquivCheckOptions, n: int)
    requires
        a.sample == b.sample,
    ensures
        checked_count(l, a, n) == checked_count(l, b, n),
    decreases n,
{
    if n > 0 {
        lemma_same_counts(l, a, b, n - 1);
    }
}

proof fn lemma_same_mismatches(
    l: Seq<Pairs>,
    a: EquivCheckOptions,
    b: EquivCheckOptions,
    verdicts: Seq<Verdict>,
    acc: Seq<(Seq<char>, u64)>,
    i: int,
)
    requires
        a.sample == b.sample,
        a.verify_numeric == b.verify_numeric,
    ensures
        mismatches_from(l, a, verdicts, acc, i) == mismatches_from(l, b, verdicts, acc, i),
    decreases l.len() - i,
{
    if i < l.len() {
        lemma_same_counts(l, a, b, i);
        let here = mismatches_in(
            l[i],
            limit(a, l[i].1.len()),
            a.verify_numeric,
            verdicts,
            checked_count(l, a, i) as int,
            acc,
            0,
        );
        if let Ok(more) = here {
            lemma_same_mismatches(l, a, b, verdicts, more, i + 1);
        }
    }
}

/// The checked elements of the first `n` arrays, in order: of each array the
/// first few, or all.
pub open spec fn checked_elements(l: Seq<Pairs>, options: EquivCheckOptions, n: int) -> Seq<
    (Seq<char>, u64),
>
    decreases n,
{
    if n <= 0 {
        Seq::empty()
    } else {
        checked_elements(l, options, n - 1) + Seq::new(
            limit(options, l[n - 1].1.len()),
            |j: int| (l[n - 1].0, l[n - 1].1[j].0),
        )
    }
}

/// Those of the first `n` elements that the decision procedure found to
/// differ, in order.
pub open spec fn refuted(s: Seq<(Seq<char>, u64)>, verdicts: Seq<Verdict>, n: int) -> Seq<
    (Seq<char>, u64),
>
    decreases n,
{
    if n <= 0 {
        Seq::empty()
    } else if verdicts[n - 1].equivalent == Ok::<bool, String>(false) {
        refuted(s, verdicts, n - 1).push(s[n - 1])
    } else {
        refuted(s, verdicts, n - 1)
    }
}

/// Whether a verdict could be reached, and confirmed where that is asked for.
pub open spec fn settled(v: Verdict, verify: bool) -> bool {
    v.equivalent is Ok && (verify ==> v.oracle is Ok)
}

/// A comparison of paired arrays succeeds exactly when every checked element
/// has a verdict. It then finds the elements with a negative one, all of them
/// and in order, and there are none exactly when every verdict is positive.
pub proof fn the_mismatches_are_the_refuted_elements(
    reference: Footprints,
    optimized: Footprints,
    names: Seq<String>,
    options: EquivCheckOptions,
    verdicts: Seq<Verdict>,
    l: Seq<Pairs>,
)
    requires
        paired(reference, optimized, names) == Ok::<Seq<Pairs>, Seq<char>>(l),
    ensures
        ({
            let s = checked_elements(l, options, l.len() as int);
            &&& s.len() == checked_count(l, options, l.len() as int)
            &&& match comparison(reference, optimized, names, options, verdicts) {
                Ok(m) => {
                    &&& m == refuted(s, verdicts, s.len() as int)
                    &&& forall|j: int|
                        0 <= j < s.len() ==> settled(#[trigger] verdicts[j], options.verify_numeric)
                    &&& m.len() == 0 <==> forall|j: int|
                        0 <= j < s.len() ==> (#[trigger] verdicts[j]).equivalent == Ok::<
                            bool,
                            String,
                        >(true)
                },
                Err(_) => exists|j: int|
                    0 <= j < s.len() && !settled(#[trigger] verdicts[j], options.verify_numeric),
            }
        }),
{
    lemma_elements_from(l, options, verdicts, 0);
    let s = checked_elements(l, options, l.len() as int);
    lemma_elements_count(l, options, l.len() as int);
    if comparison(reference, optimized, names, options, verdicts) is Ok {
        lemma_none_refuted(s, verdicts, s.len() as int, options.verify_numeric);
    }
}

proof fn lemma_elements_count(l: Seq<Pairs>, options: EquivCheckOptions, n: int)
    ensures
        checked_elements(l, options, n).len() == checked_count(l, options, n),
    decreases n,
{
    if n > 0 {
        lemma_elements_count(l, options, n - 1);
    }
}

/// The elements of the first arrays come first.
proof fn lemma_elements_prefix(l: Seq<Pairs>, options: EquivCheckOptions, i: int, n: int)
    requires
        0 <= i <= n,
    ensures
        checked_count(l, options, i) <= checked_count(l, options, n),
        forall|j: int|
            0 <= j < checked_count(l, options, i) ==> checked_elements(l, options, n)[j]
                == #[trigger] checked_elements(l, options, i)[j],
    decreases n,
{
    lemma_elements_count(l, options, i);
    if i < n {
        lemma_elements_prefix(l, options, i, n - 1);
        lemma_elements_count(l, options, n - 1);
    }
}

proof fn lemma_none_refuted(
    s: Seq<(Seq<char>, u64)>,
    verdicts: Seq<Verdict>,
    n: int,
    verify: bool,
)
    requires
        forall|j: int| 0 <= j < n ==> settled(#[trigger] verdicts[j], verify),
    ensures
        refuted(s, verdicts, n).len() == 0 <==> forall|j: int|
            0 <= j < n ==> (#[trigger] verdicts[j]).equivalent == Ok::<bool, String>(true),
    decreases n,
{
    if n > 0 {
        lemma_none_refuted(s, verdicts, n - 1, verify);
        let v = verdicts[n - 1];
        assert(settled(v, verify));
        match v.equivalent {
            Ok(equal) => {
                assert(v.equivalent == Ok::<bool, String>(equal));
            },
            Err(_) => {},
        }
    }
}

proof fn lemma_elements_in(
    p: Pairs,
    n: nat,
    verify: bool,
    verdicts: Seq<Verdict>,
    base: int,
    s: Seq<(Seq<char>, u64)>,
    i: int,
)
    requires
        0 <= base,
        0 <= i <= n,
        base + n <= s.len(),
        forall|j: int| 0 <= j < n ==> #[trigger] s[base + j] == (p.0, p.1[j].0),
    ensures
        match mismatches_in(p, n, verify, verdicts, base, refuted(s, verdicts, base + i), i) {
            Ok(m) => {
                &&& m == refuted(s, verdicts, base + n)
                &&& forall|j: int|
                    base + i <= j < base + n ==> settled(#[trigger] verdicts[j], verify)
            },
            Err(_) => exists|j: int|
                base + i <= j < base + n && !settled(#[trigger] verdicts[j], verify),
        },
    decreases n - i,
{
    if i < n {
        let v = verdicts[base + i];
        assert(s[base + i] == (p.0, p.1[i].0));
        if settled(v, verify) {
            lemma_elements_in(p, n, verify, verdicts, base, s, i + 1);
        } else {
            assert(!settled(verdicts[base + i], verify));
        }
    }
}

proof fn lemma_elements_from(
    l: Seq<Pairs>,
    options: EquivCheckOptions,
    verdicts: Seq<Verdict>,
    i: int,
)
    requires
        0 <= i <= l.len(),
    ensures
        ({
            let s = checked_elements(l, options, l.len() as int);
            let from = checked_count(l, options, i) as int;
            match mismatches_from(l, options, verdicts, refuted(s, verdicts, from), i) {
                Ok(m) => {
                    &&& m == refuted(s, verdicts, s.len() as int)
                    &&& forall|j: int|
                        from <= j < s.len() ==> settled(
                            #[trigger] verdicts[j],
                            options.verify_numeric,
                        )
                },
                Err(_) => exists|j: int|
                    from <= j < s.len() && !settled(#[trigger] verdicts[j], options.verify_numeric),
            }
        }),
    decreases l.len() - i,
{
    let s = checked_elements(l, options, l.len() as int);
    let from = checked_count(l, options, i) as int;
    lemma_elements_count(l, options, l.len() as int);
    if i < l.len() {
        let n = limit(options, l[i].1.len());
        lemma_elements_prefix(l, options, i + 1, l.len() as int);
        lemma_elements_count(l, options, i);
        lemma_elements_count(l, options, i + 1);
        assert forall|j: int| 0 <= j < n implies #[trigger] s[from + j] == (
            l[i].0,
            l[i].1[j].0,
        ) by {
            let t = checked_elements(l, options, i + 1);
            assert(t[from + j] == (l[i].0, l[i].1[j].0));
            assert(s[from + j] == t[from + j]);
        }
        lemma_elements_in(l[i], n, options.verify_numeric, verdicts, from, s, 0);
        lemma_elements_from(l, options, verdicts, i + 1);
    }
}

} // verus!
