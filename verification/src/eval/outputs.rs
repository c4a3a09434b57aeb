//! What a run wrote: the elements of the output arrays, and the profile of
//! executed instructions.

use vstd::prelude::*;
use vstd::string::*;

use crate::eval::arith::{recombine_pair_halves, recombined};
use crate::eval::config::ArrayDef;
use crate::eval::error::{EvalError, EvalResult};
use crate::eval::interp::Interpreter;
use crate::eval::machine::{Machine, Stats};
use crate::eval::memory::{Cells, covers, dirty_entry, has_start, is_dirty_list, valid_cells};
use crate::eval::value::Value;
use crate::lowered::{KIND_COUNT, kind_name_at};
use crate::symbolic::ExprId;
use crate::symbolic::arena::{ExprArena, Exprs};
use crate::text::{
    before, before_is_total, before_is_transitive, dec_text, hex_text, is_before, push_dec,
    push_hex,
};

verus! {

/// The written elements of each output array, in the order of the
/// configuration: index and value, by ascending index.
pub type OutputFootprints = Vec<(String, Vec<(u64, ExprId)>)>;

/// One written granule: start, width and value.
pub type Cell = (u64, u64, Value);

/// The elements of an array, in the model.
pub type Elements = Seq<(u64, ExprId)>;

/// Output footprints in the model.
pub type Footprints = Seq<(Seq<char>, Elements)>;

pub open spec fn footprint(e: (String, Vec<(u64, ExprId)>)) -> (Seq<char>, Elements) {
    (e.0@, e.1@)
}

pub open spec fn footprints(v: Seq<(String, Vec<(u64, ExprId)>)>) -> Footprints {
    v.map_values(|e: (String, Vec<(u64, ExprId)>)| footprint(e))
}

/// Why the outputs of a run cannot be read off.
pub enum OutputFault {
    /// The writes do not fit the array's elements.
    Config(Seq<char>),
    /// An element of the named array is undefined.
    Undefined(Seq<char>, u64),
}

/// Whether an error states a fault.
pub open spec fn states(e: EvalError, f: OutputFault) -> bool {
    match f {
        OutputFault::Config(text) => e matches EvalError::Config { message } && message@ == text,
        OutputFault::Undefined(name, i) => e matches EvalError::UndefinedOutput { array, index }
            && array@ == name && index == i,
    }
}

pub open spec fn misaligned_text(name: Seq<char>, offset: u64) -> Seq<char> {
    "output array '"@ + name + "' was written at misaligned offset "@ + hex_text(offset as nat)
}

pub open spec fn width_text(name: Seq<char>, index: u64, width: u64, elem_width: u64) -> Seq<
    char,
> {
    "output array '"@ + name + "' element "@ + dec_text(index as nat) + " was written at width "@
        + dec_text(width as nat) + " (element width "@ + dec_text(elem_width as nat) + ")"@
}

/// The value of one element written as a packed pair: two integer constants
/// are the halves of one integer.
pub open spec fn joined(s: Exprs, width: u64, value: Value) -> (Exprs, Value) {
    match value {
        Value::Pair(lo, hi) => match (s.as_int(lo), s.as_int(hi)) {
            (Some(l), Some(h)) => if width <= 8 {
                let (s1, e) = s.int_const(recombined(l, h, (width * 4) as nat));
                (s1, Value::Scalar(e))
            } else {
                (s, value)
            },
            _ => (s, value),
        },
        _ => (s, value),
    }
}

/// Whether a granule lies in an array.
pub open spec fn in_array(a: ArrayDef, c: Cell) -> bool {
    a.base <= c.0 && c.0 + c.1 <= a.end()
}

/// The elements that one granule holds: none outside the array, one of its
/// own width, or two adjacent ones as a packed pair.
pub open spec fn cell_elements(a: ArrayDef, s: Exprs, c: Cell) -> (
    Exprs,
    Result<Elements, OutputFault>,
) {
    let (addr, width, value) = c;
    if !in_array(a, c) {
        (s, Ok(Seq::empty()))
    } else {
        let offset = (addr - a.base) as u64;
        let index = offset / a.elem_width;
        if offset % a.elem_width != 0 {
            (s, Err(OutputFault::Config(misaligned_text(a.name@, offset))))
        } else if width == a.elem_width {
            let (s1, v) = joined(s, width, value);
            match v {
                Value::Scalar(e) => if s1.is_undefined(e) {
                    (s1, Err(OutputFault::Undefined(a.name@, index)))
                } else {
                    (s1, Ok(seq![(index, e)]))
                },
                _ => (
                    s1,
                    Err(OutputFault::Config(width_text(a.name@, index, width, a.elem_width))),
                ),
            }
        } else {
            match value {
                Value::Pair(lo, hi) => if width != 2 * a.elem_width {
                    (
                        s,
                        Err(OutputFault::Config(width_text(a.name@, index, width, a.elem_width))),
                    )
                } else if s.is_undefined(lo) {
                    (s, Err(OutputFault::Undefined(a.name@, index)))
                } else if s.is_undefined(hi) {
                    (s, Err(OutputFault::Undefined(a.name@, (index + 1) as u64)))
                } else {
                    (s, Ok(seq![(index, lo), ((index + 1) as u64, hi)]))
                },
                _ => (
                    s,
                    Err(OutputFault::Config(width_text(a.name@, index, width, a.elem_width))),
                ),
            }
        }
    }
}

/// The elements of an array in the granules from the `i`-th on, after those
/// in `acc`.
pub open spec fn array_elements(a: ArrayDef, s: Exprs, cells: Seq<Cell>, acc: Elements, i: int) -> (
    Exprs,
    Result<Elements, OutputFault>,
)
    decreases cells.len() - i,
{
    if i >= cells.len() {
        (s, Ok(acc))
    } else {
        match cell_elements(a, s, cells[i]) {
            (s1, Err(e)) => (s1, Err(e)),
            (s1, Ok(more)) => array_elements(a, s1, cells, acc + more, i + 1),
        }
    }
}

/// The footprints of the output arrays from the `i`-th array on, after those
/// in `acc`.
pub open spec fn all_elements(
    arrays: Seq<ArrayDef>,
    s: Exprs,
    cells: Seq<Cell>,
    acc: Footprints,
    i: int,
) -> (Exprs, Result<Footprints, OutputFault>)
    decreases arrays.len() - i,
{
    if i >= arrays.len() {
        (s, Ok(acc))
    } else if !arrays[i].kind.is_output() {
        all_elements(arrays, s, cells, acc, i + 1)
    } else {
        match array_elements(arrays[i], s, cells, Seq::empty(), 0) {
            (s1, Err(e)) => (s1, Err(e)),
            (s1, Ok(elems)) => all_elements(
                arrays,
                s1,
                cells,
                acc.push((arrays[i].name@, elems)),
                i + 1,
            ),
        }
    }
}

/// The granules that the program wrote, by ascending start.
pub open spec fn dirty_list(cells: Cells) -> Seq<Cell> {
    choose|s: Seq<Cell>| is_dirty_list(cells, s)
}

impl Machine {
    /// The footprints of the output arrays.
    pub open spec fn outputs(self) -> (Exprs, Result<Footprints, OutputFault>) {
        all_elements(
            self.env.config.arrays@,
            self.exprs,
            dirty_list(self.global),
            Seq::empty(),
            0,
        )
    }
}

/// There is one list of written granules.
proof fn lemma_one_dirty_list(cells: Cells, a: Seq<Cell>, b: Seq<Cell>)
    requires
        is_dirty_list(cells, a),
        is_dirty_list(cells, b),
    ensures
        a == b,
{
    lemma_dirty_prefix(cells, a, b, a.len() as int);
    lemma_dirty_prefix(cells, b, a, b.len() as int);
    assert(a =~= b);
}

proof fn lemma_dirty_prefix(cells: Cells, a: Seq<Cell>, b: Seq<Cell>, n: int)
    requires
        is_dirty_list(cells, a),
        is_dirty_list(cells, b),
        0 <= n <= a.len(),
    ensures
        n <= b.len(),
        forall|i: int| 0 <= i < n ==> a[i] == b[i],
    decreases n,
{
    if n > 0 {
        lemma_dirty_prefix(cells, a, b, n - 1);
        assert(dirty_entry(cells, a[n - 1]));
        assert(has_start(b, a[n - 1].0));
        let j = choose|j: int| 0 <= j < b.len() && (#[trigger] b[j]).0 == a[n - 1].0;
        if j < n - 1 {
            assert(a[j] == b[j]);
            assert(a[j].0 < a[n - 1].0);
        }
        assert(dirty_entry(cells, b[n - 1]));
        assert(has_start(a, b[n - 1].0));
        let k = choose|k: int| 0 <= k < a.len() && (#[trigger] a[k]).0 == b[n - 1].0;
        if k < n - 1 {
            assert(a[k] == b[k]);
            assert(b[k].0 < b[n - 1].0);
        }
        if j > n - 1 {
            assert(b[n - 1].0 < b[j].0);
            if k > n - 1 {
                assert(a[n - 1].0 < a[k].0);
            }
        }
        assert(dirty_entry(cells, b[j]));
    }
}

// ---------------------------------------------------------------------------
// Reading the outputs off
// ---------------------------------------------------------------------------

fn misaligned(name: &String, offset: u64) -> (r: EvalError)
    ensures
        states(r, OutputFault::Config(misaligned_text(name@, offset))),
{
    let mut s = String::from_str("output array '");
    s.append(name.as_str());
    s.append("' was written at misaligned offset ");
    push_hex(&mut s, offset as u128);
    EvalError::Config { message: s }
}

fn wrong_width(name: &String, index: u64, width: u64, elem_width: u64) -> (r: EvalError)
    ensures
        states(r, OutputFault::Config(width_text(name@, index, width, elem_width))),
{
    let mut s = String::from_str("output array '");
    s.append(name.as_str());
    s.append("' element ");
    push_dec(&mut s, index as u128);
    s.append(" was written at width ");
    push_dec(&mut s, width as u128);
    s.append(" (element width ");
    push_dec(&mut s, elem_width as u128);
    s.append(")");
    EvalError::Config { message: s }
}

fn undefined_at(name: &String, index: u64) -> (r: EvalError)
    ensures
        states(r, OutputFault::Undefined(name@, index)),
{
    EvalError::UndefinedOutput { array: name.clone(), index }
}

fn join(arena: &mut ExprArena, width: u64, value: Value) -> (r: Value)
    requires
        old(arena).wf(),
        width > 0,
    ensures
        final(arena).wf(),
        (final(arena)@, r) == joined(old(arena)@, width, value),
{
    match value {
        Value::Pair(lo, hi) => match (arena.as_int_const(lo), arena.as_int_const(hi)) {
            (Some(l), Some(h)) => {
                if width <= 8 {
                    let half_bits: u32 = width as u32 * 4;
                    Value::Scalar(recombine_pair_halves(arena, l, h, half_bits))
                } else {
                    value
                }
            },
            _ => value,
        },
        _ => value,
    }
}

/// Adds the elements that one granule holds.
fn add_cell(arena: &mut ExprArena, a: &ArrayDef, c: Cell, elems: &mut Vec<(u64, ExprId)>) -> (r:
    EvalResult<()>)
    requires
        old(arena).wf(),
        a.wf(),
    ensures
        final(arena).wf(),
        final(arena)@ == cell_elements(*a, old(arena)@, c).0,
        match (r, cell_elements(*a, old(arena)@, c).1) {
            (Ok(_), Ok(more)) => final(elems)@ == old(elems)@ + more,
            (Err(e), Err(f)) => states(e, f),
            _ => false,
        },
{
    let (addr, width, value) = c;
    let size: u64 = a.size_bytes();
    if addr < a.base || width > size || addr - a.base > size - width {
        assert(elems@ =~= old(elems)@ + Seq::<(u64, ExprId)>::empty());
        return Ok(());
    }
    let offset: u64 = addr - a.base;
    if offset % a.elem_width != 0 {
        return Err(misaligned(&a.name, offset));
    }
    let index: u64 = offset / a.elem_width;
    if width == a.elem_width {
        match join(arena, width, value) {
            Value::Scalar(e) => {
                if arena.is_undefined(e) {
                    return Err(undefined_at(&a.name, index));
                }
                elems.push((index, e));
                assert(elems@ =~= old(elems)@ + seq![(index, e)]);
                Ok(())
            },
            _ => Err(wrong_width(&a.name, index, width, a.elem_width)),
        }
    } else {
        match value {
            Value::Pair(lo, hi) => {
                if width % 2 != 0 || width / 2 != a.elem_width {
                    return Err(wrong_width(&a.name, index, width, a.elem_width));
                }
                assert(index < u64::MAX) by {
                    lemma_index_bound(offset as int, a.elem_width as int, width as int);
                }
                if arena.is_undefined(lo) {
                    return Err(undefined_at(&a.name, index));
                }
                if arena.is_undefined(hi) {
                    return Err(undefined_at(&a.name, index + 1));
                }
                elems.push((index, lo));
                elems.push((index + 1, hi));
                assert(elems@ =~= old(elems)@ + seq![(index, lo), ((index + 1) as u64, hi)]);
                Ok(())
            },
            _ => Err(wrong_width(&a.name, index, width, a.elem_width)),
        }
    }
}

proof fn lemma_index_bound(offset: int, elem: int, width: int)
    requires
        0 <= offset,
        offset + width <= u64::MAX,
        elem > 0,
        width == 2 * elem,
    ensures
        offset / elem < u64::MAX,
{
    assert(offset / elem <= offset) by (nonlinear_arith)
        requires
            0 <= offset,
            elem > 0,
    ;
}

fn elements_of(arena: &mut ExprArena, a: &ArrayDef, cells: &Vec<Cell>) -> (r: EvalResult<
    Vec<(u64, ExprId)>,
>)
    requires
        old(arena).wf(),
        a.wf(),
    ensures
        final(arena).wf(),
        final(arena)@ == array_elements(*a, old(arena)@, cells@, Seq::empty(), 0).0,
        match (r, array_elements(*a, old(arena)@, cells@, Seq::empty(), 0).1) {
            (Ok(v), Ok(l)) => v@ == l,
            (Err(e), Err(f)) => states(e, f),
            _ => false,
        },
{
    let mut elems: Vec<(u64, ExprId)> = Vec::new();
    let mut i: usize = 0;
    while i < cells.len()
        invariant
            arena.wf(),
            a.wf(),
            i <= cells@.len(),
            array_elements(*a, old(arena)@, cells@, Seq::empty(), 0) == array_elements(
                *a,
                arena@,
                cells@,
                elems@,
                i as int,
            ),
        decreases cells@.len() - i,
    {
        if let Err(e) = add_cell(arena, a, cells[i], &mut elems) {
            return Err(e);
        }
        i = i + 1;
    }
    Ok(elems)
}

impl<'p> Interpreter<'p> {
    /// The written elements of every output array.
    pub fn extract_outputs(&mut self) -> (r: EvalResult<OutputFootprints>)
        requires
            old(self).wf(),
        ensures
            final(self).wf(),
            final(self)@ == (Machine { exprs: old(self)@.outputs().0, ..old(self)@ }),
            match (r, old(self)@.outputs().1) {
                (Ok(v), Ok(f)) => footprints(v@) == f,
                (Err(e), Err(f)) => states(e, f),
                _ => false,
            },
    {
        let cells = self.global.dirty_cells();
        proof {
            lemma_one_dirty_list(self.global@, cells@, dirty_list(self.global@));
        }
        let mut outputs: OutputFootprints = Vec::new();
        assert(footprints(outputs@) =~= Seq::empty());
        let mut i: usize = 0;
        while i < self.setup.config.arrays.len()
            invariant
                self.wf(),
                cells@ == dirty_list(old(self)@.global),
                self@ == (Machine { exprs: self@.exprs, ..old(self)@ }),
                i <= self.setup.config.arrays@.len(),
                old(self)@.outputs() == all_elements(
                    self.setup.config.arrays@,
                    self@.exprs,
                    cells@,
                    footprints(outputs@),
                    i as int,
                ),
            decreases self.setup.config.arrays@.len() - i,
        {
            if self.setup.config.arrays[i].kind.is_output() {
                match elements_of(&mut self.arena, &self.setup.config.arrays[i], &cells) {
                    Err(e) => {
                        return Err(e);
                    },
                    Ok(elems) => {
                        let ghost earlier = outputs@;
                        let name = self.setup.config.arrays[i].name.clone();
                        outputs.push((name, elems));
                        assert(footprints(outputs@) =~= footprints(earlier).push(
                            (self.setup.config.arrays@[i as int].name@, elems@),
                        ));
                    },
                }
            }
            i = i + 1;
        }
        Ok(outputs)
    }
}

// ---------------------------------------------------------------------------
// The profile
// ---------------------------------------------------------------------------

/// A count of executed instructions by kind, in dictionary order of the
/// kinds.
pub type OpCounts = Vec<(&'static str, u64)>;

/// The names stand in dictionary order, each once.
pub open spec fn in_order(l: Seq<(&'static str, u64)>) -> bool {
    forall|i: int, j: int|
        0 <= i < j < l.len() ==> before((#[trigger] l[i]).0@, (#[trigger] l[j]).0@)
}

/// Position of the first name from `i` on that does not stand before `name`.
pub open spec fn place_of(l: Seq<(&'static str, u64)>, name: Seq<char>, i: int) -> int
    decreases l.len() - i,
{
    if i >= l.len() || !before(l[i].0@, name) {
        i
    } else {
        place_of(l, name, i + 1)
    }
}

/// The counts with that of one name set.
pub open spec fn with_count(l: Seq<(&'static str, u64)>, name: &'static str, count: u64) -> Seq<
    (&'static str, u64),
> {
    let k = place_of(l, name@, 0);
    if k < l.len() && l[k].0@ == name@ {
        l.update(k, (l[k].0, count))
    } else {
        l.insert(k, (name, count))
    }
}

/// The nonzero counts from the `i`-th kind on, added to those in `acc`.
pub open spec fn named_counts(
    counts: Seq<u64>,
    acc: Seq<(&'static str, u64)>,
    i: int,
) -> Seq<(&'static str, u64)>
    decreases counts.len() - i,
{
    if i >= counts.len() {
        acc
    } else if counts[i] > 0 {
        named_counts(counts, with_count(acc, kind_name_at(i as usize), counts[i]), i + 1)
    } else {
        named_counts(counts, acc, i + 1)
    }
}

proof fn lemma_place(l: Seq<(&'static str, u64)>, name: Seq<char>, i: int)
    requires
        in_order(l),
        0 <= i <= l.len(),
    ensures
        i <= place_of(l, name, i) <= l.len(),
        forall|k: int| i <= k < place_of(l, name, i) ==> before((#[trigger] l[k]).0@, name),
        place_of(l, name, i) < l.len() ==> !before(l[place_of(l, name, i)].0@, name),
    decreases l.len() - i,
{
    if i < l.len() && before(l[i].0@, name) {
        lemma_place(l, name, i + 1);
    }
}

proof fn lemma_with_count(l: Seq<(&'static str, u64)>, name: &'static str, count: u64)
    requires
        in_order(l),
    ensures
        in_order(with_count(l, name, count)),
{
    lemma_place(l, name@, 0);
    let k = place_of(l, name@, 0);
    let r = with_count(l, name, count);
    assert forall|i: int, j: int| 0 <= i < j < r.len() implies before(
        (#[trigger] r[i]).0@,
        (#[trigger] r[j]).0@,
    ) by {
        if k < l.len() && l[k].0@ == name@ {
            assert(r[i].0 == l[i].0 && r[j].0 == l[j].0);
        } else {
            if k < l.len() {
                before_is_total(l[k].0@, name@);
            }
            if i < k {
                assert(r[i] == l[i]);
            } else if i > k {
                assert(r[i] == l[i - 1]);
            }
            if j < k {
                assert(r[j] == l[j]);
            } else if j > k {
                assert(r[j] == l[j - 1]);
            }
            if i == k && j > k + 1 {
                assert(before(l[k].0@, l[j - 1].0@));
                before_is_transitive(name@, l[k].0@, l[j - 1].0@);
            }
        }
    }
}

fn set_count(l: &mut OpCounts, name: &'static str, count: u64)
    requires
        in_order(old(l)@),
    ensures
        final(l)@ == with_count(old(l)@, name, count),
        in_order(final(l)@),
{
    proof {
        lemma_with_count(l@, name, count);
        lemma_place(l@, name@, 0);
    }
    let mut k: usize = 0;
    while k < l.len() && is_before(l[k].0, name)
        invariant
            k <= l@.len(),
            place_of(l@, name@, 0) == place_of(l@, name@, k as int),
        decreases l@.len() - k,
    {
        k = k + 1;
    }
    if k < l.len() && !is_before(name, l[k].0) {
        proof {
            before_is_total(l@[k as int].0@, name@);
        }
        let kind = l[k].0;
        l.set(k, (kind, count));
    } else {
        proof {
            if k < l.len() {
                before_is_total(l@[k as int].0@, name@);
            }
        }
        l.insert(k, (name, count));
    }
}

fn name_counts(counts: &Vec<u64>) -> (r: OpCounts)
    requires
        counts@.len() == KIND_COUNT,
    ensures
        r@ == named_counts(counts@, Seq::empty(), 0),
        in_order(r@),
{
    let mut l: OpCounts = Vec::new();
    let mut i: usize = 0;
    while i < counts.len()
        invariant
            i <= counts@.len(),
            in_order(l@),
            named_counts(counts@, Seq::empty(), 0) == named_counts(counts@, l@, i as int),
        decreases counts@.len() - i,
    {
        if counts[i] > 0 {
            set_count(&mut l, kind_name_at(i), counts[i]);
        }
        i = i + 1;
    }
    l
}

// ---------------------------------------------------------------------------
// The result of a run
// ---------------------------------------------------------------------------

/// Everything a finished run leaves behind.
pub struct AnalysisOutput {
    pub arena: ExprArena,
    /// Output arrays with their written elements.
    pub outputs: OutputFootprints,
    pub stats: Stats,
    /// Executed instructions by kind.
    pub op_counts: OpCounts,
}

impl<'p> Interpreter<'p> {
    /// Consumes the interpreter and gives the output of its run.
    pub fn into_output(self) -> (r: EvalResult<AnalysisOutput>)
        requires
            self.wf(),
        ensures
            match (r, self@.outputs().1) {
                (Ok(o), Ok(f)) => o.arena.wf() && o.arena@ == self@.outputs().0 && footprints(
                    o.outputs@,
                ) == f && o.stats == self@.stats && o.op_counts@ == named_counts(
                    self@.op_counts,
                    Seq::empty(),
                    0,
                ) && in_order(o.op_counts@),
                (Err(e), Err(f)) => states(e, f),
                _ => false,
            },
    {
        let mut run = self;
        match run.extract_outputs() {
            Err(e) => Err(e),
            Ok(outputs) => {
                let op_counts = name_counts(&run.op_counts);
                Ok(AnalysisOutput { arena: run.arena, outputs, stats: run.stats, op_counts })
            },
        }
    }
}

// ---------------------------------------------------------------------------
// Laws
// ---------------------------------------------------------------------------

/// The elements stand in ascending order, each once.
pub open spec fn ascending_elements(l: Elements) -> bool {
    forall|i: int, j: int| 0 <= i < j < l.len() ==> (#[trigger] l[i]).0 < (#[trigger] l[j]).0
}

/// Every element lies below the given byte offset of the array.
pub open spec fn elements_end_by(a: ArrayDef, l: Elements, end: int) -> bool {
    forall|i: int| 0 <= i < l.len() ==> ((#[trigger] l[i]).0 + 1) * a.elem_width <= end - a.base
}

proof fn lemma_cell_elements(a: ArrayDef, s: Exprs, c: Cell, acc: Elements, end: int)
    requires
        a.wf(),
        ascending_elements(acc),
        elements_end_by(a, acc, end),
        end <= c.0,
        cell_elements(a, s, c).1 is Ok,
    ensures
        ascending_elements(acc + cell_elements(a, s, c).1->Ok_0),
        elements_end_by(a, acc + cell_elements(a, s, c).1->Ok_0, c.0 + c.1),
{
    let more = cell_elements(a, s, c).1->Ok_0;
    let r = acc + more;
    let w = a.elem_width as int;
    if in_array(a, c) {
        let offset = c.0 - a.base;
        let index = offset / w;
        assert(index * w == offset) by (nonlinear_arith)
            requires
                w > 0,
                offset % w == 0,
                index == offset / w,
        ;
        assert((index + 1) * w == offset + w) by (nonlinear_arith)
            requires
                index * w == offset,
        ;
        assert((index + 2) * w == offset + 2 * w) by (nonlinear_arith)
            requires
                index * w == offset,
        ;
        if c.1 != a.elem_width {
            lemma_index_bound(offset, w, c.1 as int);
        }
        assert forall|i: int| 0 <= i < acc.len() implies (#[trigger] acc[i]).0 < index by {
            let x = acc[i].0 as int;
            assert((x + 1) * w <= end - a.base);
            assert(x < index) by (nonlinear_arith)
                requires
                    (x + 1) * w <= offset,
                    index * w == offset,
                    w > 0,
            ;
        }
        assert forall|i: int, j: int| 0 <= i < j < r.len() implies (#[trigger] r[i]).0 < (
        #[trigger] r[j]).0 by {
            if j < acc.len() {
                assert(acc[i].0 < acc[j].0);
            } else if i < acc.len() {
                assert(acc[i].0 < index);
            }
        }
    } else {
        assert(r =~= acc);
    }
    assert forall|i: int| 0 <= i < r.len() implies ((#[trigger] r[i]).0 + 1) * a.elem_width <= c.0
        + c.1 - a.base by {
        if i < acc.len() {
            assert((acc[i].0 + 1) * a.elem_width <= end - a.base);
        }
    }
}

proof fn lemma_array_elements(
    a: ArrayDef,
    s: Exprs,
    cells: Cells,
    list: Seq<Cell>,
    acc: Elements,
    i: int,
)
    requires
        a.wf(),
        valid_cells(cells),
        is_dirty_list(cells, list),
        0 <= i <= list.len(),
        ascending_elements(acc),
        i == 0 ==> acc.len() == 0,
        i > 0 ==> elements_end_by(a, acc, list[i - 1].0 + list[i - 1].1),
        array_elements(a, s, list, acc, i).1 is Ok,
    ensures
        ascending_elements(array_elements(a, s, list, acc, i).1->Ok_0),
    decreases list.len() - i,
{
    if i < list.len() {
        let end = if i == 0 {
            0
        } else {
            list[i - 1].0 + list[i - 1].1
        };
        if i > 0 {
            assert(dirty_entry(cells, list[i - 1]));
            assert(dirty_entry(cells, list[i]));
            assert(list[i - 1].0 < list[i].0);
            assert(covers(cells, list[i].0, list[i].0 as int));
            if end > list[i].0 {
                assert(covers(cells, list[i - 1].0, list[i].0 as int));
            }
        }
        lemma_cell_elements(a, s, list[i], acc, end);
        let (s1, more) = cell_elements(a, s, list[i]);
        lemma_array_elements(a, s1, cells, list, acc + more->Ok_0, i + 1);
    }
}

/// The elements of an array come out by ascending index, each once.
pub proof fn elements_are_ascending(a: ArrayDef, s: Exprs, cells: Cells, list: Seq<Cell>)
    requires
        a.wf(),
        valid_cells(cells),
        is_dirty_list(cells, list),
        array_elements(a, s, list, Seq::empty(), 0).1 is Ok,
    ensures
        ascending_elements(array_elements(a, s, list, Seq::empty(), 0).1->Ok_0),
{
    lemma_array_elements(a, s, cells, list, Seq::empty(), 0);
}

} // verus!
