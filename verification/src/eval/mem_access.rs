//! Memory accesses of a run: bounds, alignment, race checks, and the lazily
//! materialized input arrays.

use vstd::arithmetic::div_mod::*;
use vstd::prelude::*;

use crate::eval::ThreadId;
use crate::eval::config::{ArrayDef, ArrayKind};
use crate::eval::error::{Detail, EvalError, EvalResult};
use crate::eval::int_ops::{low, mask_to};
use crate::eval::interp::Interpreter;
use crate::eval::lists::{memory_at, memory_at_mut};
use crate::eval::machine::{
    Machine, Out, checked_accesses_do_not_wrap, find_region, in_region, is_multiple, mem_error,
    mem_hazard_error,
};
use crate::eval::memory::{
    Cells, Granule, GranuleKind, MemAccessError, first_covered, halved, read_cells, scalar_cell_of,
    write_refused, written,
};
use crate::eval::race::{MemHazard, Proxy, RaceState};
use crate::eval::value::Value;
use crate::lowered::{InstrId, MemSpace};
use crate::symbolic::ExprId;
use crate::symbolic::arena::{ExprArena, ExprNode, Exprs};
use crate::symbolic::sums::{check_same_sum, same_sum};

verus! {

/// Spaces with byte-addressed memory.
pub open spec fn has_memory(space: MemSpace) -> bool {
    space == MemSpace::Global || space == MemSpace::Shared || space == MemSpace::Local
}

/// Whether a number is a power of two.
pub open spec fn power_of_two(n: u64) -> bool
    decreases n,
{
    n == 1 || (n > 1 && n % 2 == 0 && power_of_two(n / 2))
}

fn is_power_of_two(n: u64) -> (r: bool)
    ensures
        r == power_of_two(n),
    decreases n,
{
    if n <= 1 {
        n == 1
    } else {
        n % 2 == 0 && is_power_of_two(n / 2)
    }
}

/// Whether `[addr, addr + width)` is one of the equal power-of-two parts of
/// the granule at `start`.
pub open spec fn is_part(start: u64, found_width: u64, addr: u64, width: u64) -> bool {
    &&& width >= 1
    &&& width < found_width
    &&& power_of_two(found_width / width)
    &&& addr >= start
    &&& addr + width <= start + found_width
    &&& (addr - start) % (width as int) == 0
}

/// Whether two values are the same reals, lane by lane: the same expressions,
/// or the same polynomials.
#[verifier::opaque]
pub open spec fn same_reals(s: Exprs, a: Value, b: Value) -> bool {
    match (a, b) {
        (Value::Scalar(x), Value::Scalar(y)) => same_sum(s, x, y),
        (Value::Pair(xl, xh), Value::Pair(yl, yh)) => same_sum(s, xl, yl) && same_sum(s, xh, yh),
        _ => false,
    }
}

/// Whether two values are the same reals, lane by lane: the same expressions,
/// or the same polynomials in any order and grouping, as the lanes of a warp
/// leave them that reduced one sum. Expressions are interned, so structurally
/// equal ones are the same. A division, a root or an exponential is one factor
/// here, equal only to itself.
pub fn same_real_value(arena: &ExprArena, a: Value, b: Value) -> (r: bool)
    requires
        arena.wf(),
    ensures
        r == same_reals(arena@, a, b),
{
    reveal(same_reals);
    match (a, b) {
        (Value::Scalar(x), Value::Scalar(y)) => check_same_sum(arena, x, y),
        (Value::Pair(xl, xh), Value::Pair(yl, yh)) => check_same_sum(arena, xl, yl)
            && check_same_sum(arena, xh, yh),
        _ => false,
    }
}

impl Machine {
    pub open spec fn with_race(self, race: RaceState) -> Machine {
        Machine { race, ..self }
    }

    /// The granules of a space, as a thread sees them.
    pub open spec fn memory(self, space: MemSpace, t: ThreadId) -> Cells {
        match space {
            MemSpace::Global => self.global,
            MemSpace::Shared => self.shared,
            _ => self.locals[t.0 as int],
        }
    }

    pub open spec fn with_memory(self, space: MemSpace, t: ThreadId, cells: Cells) -> Machine {
        match space {
            MemSpace::Global => Machine { global: cells, ..self },
            MemSpace::Shared => Machine { shared: cells, ..self },
            _ => Machine { locals: self.locals.update(t.0 as int, cells), ..self },
        }
    }

    /// The error of an access that no single region contains.
    pub open spec fn bounds_error(
        self,
        t: ThreadId,
        pc: InstrId,
        space: MemSpace,
        addr: u64,
        width: u64,
    ) -> Option<EvalError> {
        let regions = match space {
            MemSpace::Global => self.env.global,
            MemSpace::Shared => self.env.shared,
            _ => self.env.local,
        };
        if !has_memory(space) {
            Some(EvalError::Unsupported { pc, what: Detail::SpaceAccess { space } })
        } else if in_region(regions, addr, width) {
            None
        } else {
            Some(EvalError::OutOfBounds { thread: t, pc, space, addr, width })
        }
    }

    /// The error of a misaligned access.
    pub open spec fn alignment_error(
        t: ThreadId,
        pc: InstrId,
        space: MemSpace,
        addr: u64,
        required: u64,
    ) -> Option<EvalError> {
        if is_multiple(addr, required) {
            None
        } else {
            Some(EvalError::Misaligned { thread: t, pc, space, addr, required })
        }
    }

    /// The error of an access that is out of bounds or misaligned.
    pub open spec fn access_error(
        self,
        t: ThreadId,
        pc: InstrId,
        space: MemSpace,
        addr: u64,
        width: u64,
    ) -> Option<EvalError> {
        match self.bounds_error(t, pc, space, addr, width) {
            Some(e) => Some(e),
            None => Machine::alignment_error(t, pc, space, addr, width),
        }
    }

    // -----------------------------------------------------------------------
    // Input arrays
    // -----------------------------------------------------------------------

    /// The value of an input element: its index for an index array, else a
    /// symbol named by the array and the index.
    pub open spec fn input_value(self, array: ArrayDef, index: u64) -> (Exprs, ExprId) {
        if array.kind == ArrayKind::IndexInput {
            self.exprs.int_const(index as i64)
        } else {
            let (s, name) = self.exprs.with_string(array.name@);
            s.with(ExprNode::InputElement(name, index))
        }
    }

    /// Enters element `index` of an input array, if nothing starts there.
    /// Also says whether it was placed.
    pub open spec fn with_element(self, array: ArrayDef, index: u64) -> (Machine, bool) {
        let addr = (array.base + index * array.elem_width) as u64;
        if self.global.contains_key(addr) {
            (self, false)
        } else {
            let (s, e) = self.input_value(array, index);
            if first_covered(self.global, addr, array.elem_width, 0) is None {
                (
                    Machine {
                        exprs: s,
                        global: self.global.insert(
                            addr,
                            Granule {
                                width: array.elem_width,
                                value: Value::Scalar(e),
                                dirty: false,
                            },
                        ),
                        ..self
                    },
                    true,
                )
            } else {
                (self.with_exprs(s), false)
            }
        }
    }

    /// Enters the elements `[first, end)` of an input array.
    pub open spec fn with_elements(self, array: ArrayDef, first: int, end: int) -> (Machine, bool)
        decreases end - first,
    {
        if first >= end {
            (self, false)
        } else {
            let (m, before) = self.with_elements(array, first, end - 1);
            let (m1, placed) = m.with_element(array, (end - 1) as u64);
            (m1, before || placed)
        }
    }

    /// The elements of an array that `[addr, addr + width)` overlaps, from
    /// the first up to and excluding the last plus one.
    pub open spec fn touched(array: ArrayDef, addr: u64, width: u64) -> (int, int) {
        let from = if addr >= array.base {
            addr as int
        } else {
            array.base as int
        };
        let to = if addr + width <= array.end() {
            addr + width
        } else {
            array.end()
        };
        if from < to {
            (
                (from - array.base) / (array.elem_width as int),
                (to - 1 - array.base) / (array.elem_width as int) + 1,
            )
        } else {
            (0, 0)
        }
    }

    /// Enters every missing input element that the access overlaps, from the
    /// first `n` arrays. Also says whether any was placed.
    pub open spec fn materialized(self, addr: u64, width: u64, n: int) -> (Machine, bool)
        decreases n,
    {
        if n <= 0 {
            (self, false)
        } else {
            let (m, before) = self.materialized(addr, width, n - 1);
            let array = self.env.config.arrays@[n - 1];
            if array.kind.is_input() {
                let (first, end) = Machine::touched(array, addr, width);
                let (m1, placed) = m.with_elements(array, first, end);
                (m1, before || placed)
            } else {
                (m, before)
            }
        }
    }

    /// Enters every missing input element that the access overlaps.
    pub open spec fn materialize(self, addr: u64, width: u64) -> (Machine, bool) {
        self.materialized(addr, width, self.env.config.arrays@.len() as int)
    }

    // -----------------------------------------------------------------------
    // Splitting concrete words
    // -----------------------------------------------------------------------

    /// Halves the concrete scalar at `start` toward the access until it is a
    /// granule of its own. Also says whether that was reached.
    pub open spec fn halved_toward(
        self,
        space: MemSpace,
        t: ThreadId,
        start: u64,
        found_width: u64,
        addr: u64,
        width: u64,
    ) -> (Machine, bool)
        decreases found_width,
    {
        let cells = self.memory(space, t);
        if found_width <= width {
            (self, true)
        } else {
            match scalar_cell_of(cells, start) {
                None => (self, false),
                Some((w, e, _)) => match self.exprs.as_int(e) {
                    None => (self, false),
                    Some(c) => if w != found_width || w % 2 != 0 || w > 8 {
                        (self, false)
                    } else {
                        let half = (found_width / 2) as u64;
                        let bits = (half * 8) as nat;
                        let (s1, lo) = self.exprs.int_const(low(c as int, bits) as i64);
                        let (s2, hi) = s1.int_const(
                            low((c >> (half * 8) as u64) as int, bits) as i64,
                        );
                        let m = self.with_exprs(s2).with_memory(
                            space,
                            t,
                            halved(cells, start, lo, hi),
                        );
                        m.halved_toward(
                            space,
                            t,
                            if addr >= start + half {
                                (start + half) as u64
                            } else {
                                start
                            },
                            half,
                            addr,
                            width,
                        )
                    },
                },
            }
        }
    }

    /// Splits the concrete scalar granule at `start` so that the access is a
    /// whole granule. Also says whether it was possible.
    pub open spec fn split_for(
        self,
        space: MemSpace,
        t: ThreadId,
        start: u64,
        found_width: u64,
        addr: u64,
        width: u64,
    ) -> (Machine, bool) {
        if is_part(start, found_width, addr, width) {
            self.halved_toward(space, t, start, found_width, addr, width)
        } else {
            (self, false)
        }
    }

    // -----------------------------------------------------------------------
    // Reads and writes
    // -----------------------------------------------------------------------

    /// A plain read of the granules, as an outcome.
    pub open spec fn read_again(
        self,
        t: ThreadId,
        pc: InstrId,
        space: MemSpace,
        addr: u64,
        width: u64,
    ) -> Out<Value> {
        match read_cells(self.memory(space, t), addr, width) {
            Ok(v) => (self, Ok(v)),
            Err(e) => (self, Err(mem_error(t, pc, space, e))),
        }
    }

    /// What a read does that found no granule to read: a global access enters
    /// the input elements it overlaps, bytes nobody wrote are undefined, and
    /// anything else is an error.
    pub open spec fn read_missing(
        self,
        t: ThreadId,
        pc: InstrId,
        space: MemSpace,
        addr: u64,
        width: u64,
        e: MemAccessError,
    ) -> Out<Value> {
        let bare = e is Uninitialized;
        if space == MemSpace::Global && (bare || e is Reinterpret) {
            let (m, any) = self.materialize(addr, width);
            if any {
                m.read_again(t, pc, space, addr, width)
            } else if bare {
                m.constant(m.exprs.undefined())
            } else {
                (m, Err(mem_error(t, pc, space, e)))
            }
        } else if space == MemSpace::Shared && bare {
            self.constant(self.exprs.undefined())
        } else {
            (self, Err(mem_error(t, pc, space, e)))
        }
    }

    /// The value of a checked read.
    pub open spec fn read_value(
        self,
        t: ThreadId,
        pc: InstrId,
        space: MemSpace,
        addr: u64,
        width: u64,
    ) -> Out<Value> {
        match read_cells(self.memory(space, t), addr, width) {
            Ok(v) => (self, Ok(v)),
            Err(e) => match e {
                MemAccessError::Reinterpret {
                    found: Some((start, found_width, GranuleKind::Scalar)),
                    ..
                } => {
                    let (m, done) = self.split_for(space, t, start, found_width, addr, width);
                    if done {
                        m.read_again(t, pc, space, addr, width)
                    } else {
                        m.read_missing(t, pc, space, addr, width, e)
                    }
                },
                _ => self.read_missing(t, pc, space, addr, width, e),
            },
        }
    }

    /// A read through a memory proxy: bounds, alignment, race and fence
    /// checks, then the value.
    #[verifier::opaque]
    pub open spec fn mem_read_via(
        self,
        t: ThreadId,
        pc: InstrId,
        space: MemSpace,
        addr: u64,
        width: u64,
        proxy: Proxy,
    ) -> Out<Value> {
        match self.access_error(t, pc, space, addr, width) {
            Some(e) => (self, Err(e)),
            None => if space == MemSpace::Local {
                self.read_value(t, pc, space, addr, width)
            } else {
                let m = self.with_race(self.race.after_read(space, addr, width, t, pc, proxy));
                match self.race.read_hazard(space, addr, width, t, pc, proxy) {
                    Some(h) => (m, Err(mem_hazard_error(h))),
                    None => m.read_value(t, pc, space, addr, width),
                }
            },
        }
    }

    /// An ordinary read.
    pub open spec fn mem_read(
        self,
        t: ThreadId,
        pc: InstrId,
        space: MemSpace,
        addr: u64,
        width: u64,
    ) -> Out<Value> {
        self.mem_read_via(t, pc, space, addr, width, Proxy::Generic)
    }

    /// Whether a write that races with an earlier write stores the value that
    /// is already there.
    pub open spec fn benign(
        self,
        h: MemHazard,
        t: ThreadId,
        space: MemSpace,
        addr: u64,
        width: u64,
        value: Value,
    ) -> bool {
        h matches MemHazard::Race(info) && info.prior.is_write && (read_cells(
            self.memory(space, t),
            addr,
            width,
        ) matches Ok(present) && same_reals(self.exprs, present, value))
    }

    /// The race check of a write. A store of the value already there is
    /// benign against the previous writer.
    pub open spec fn write_checked(
        self,
        t: ThreadId,
        pc: InstrId,
        space: MemSpace,
        addr: u64,
        width: u64,
        value: Value,
    ) -> Out<()> {
        let m = self.with_race(self.race.after_write(space, addr, width, t, pc, false));
        match self.race.write_hazard(space, addr, width, t, pc, false) {
            None => (m, Ok(())),
            Some(h) => if m.benign(h, t, space, addr, width, value) {
                let m1 = m.with_race(m.race.after_write(space, addr, width, t, pc, true));
                match m.race.write_hazard(space, addr, width, t, pc, true) {
                    None => (m1, Ok(())),
                    Some(h1) => (m1, Err(mem_hazard_error(h1))),
                }
            } else {
                (m, Err(mem_hazard_error(h)))
            },
        }
    }

    /// A plain write of the granules, as an outcome.
    pub open spec fn write_again(
        self,
        t: ThreadId,
        pc: InstrId,
        space: MemSpace,
        addr: u64,
        width: u64,
        value: Value,
    ) -> Out<()> {
        let cells = self.memory(space, t);
        match write_refused(cells, addr, width, value, 0) {
            None => (self.with_memory(space, t, written(cells, addr, width, value)), Ok(())),
            Some(e) => (self, Err(mem_error(t, pc, space, e))),
        }
    }

    /// A checked write.
    pub open spec fn write_value(
        self,
        t: ThreadId,
        pc: InstrId,
        space: MemSpace,
        addr: u64,
        width: u64,
        value: Value,
    ) -> Out<()> {
        match write_refused(self.memory(space, t), addr, width, value, 0) {
            None => self.write_again(t, pc, space, addr, width, value),
            Some(e) => match e {
                MemAccessError::Reinterpret {
                    found: Some((start, found_width, GranuleKind::Scalar)),
                    ..
                } => {
                    let (m, done) = self.split_for(space, t, start, found_width, addr, width);
                    if done {
                        m.write_again(t, pc, space, addr, width, value)
                    } else {
                        (m, Err(mem_error(t, pc, space, e)))
                    }
                },
                _ => (self, Err(mem_error(t, pc, space, e))),
            },
        }
    }

    /// A write: bounds, alignment and race checks, then the store. On targets
    /// with an async proxy a shared store is marked as unfenced.
    #[verifier::opaque]
    pub open spec fn mem_write(
        self,
        t: ThreadId,
        pc: InstrId,
        space: MemSpace,
        addr: u64,
        width: u64,
        value: Value,
    ) -> Out<()> {
        match self.access_error(t, pc, space, addr, width) {
            Some(e) => (self, Err(e)),
            None => if space == MemSpace::Local {
                self.write_value(t, pc, space, addr, width, value)
            } else {
                match self.write_checked(t, pc, space, addr, width, value) {
                    (m, Err(e)) => (m, Err(e)),
                    (m, Ok(_)) => {
                        let m1 = if space == MemSpace::Shared
                            && self.env.features.async_proxy_fence {
                            m.with_race(
                                m.race.mark_generic(
                                    addr,
                                    addr + width,
                                    crate::eval::error::AccessSite {
                                        thread: t,
                                        pc,
                                        is_write: true,
                                    },
                                ),
                            )
                        } else {
                            m
                        };
                        m1.write_value(t, pc, space, addr, width, value)
                    },
                }
            },
        }
    }
}

impl<'p> Interpreter<'p> {
    /// Checks that the region owning the first byte contains the whole
    /// access.
    pub(crate) fn check_bounds(
        &self,
        t: ThreadId,
        pc: InstrId,
        space: MemSpace,
        addr: u64,
        width: u64,
    ) -> (r: EvalResult<()>)
        requires
            self.wf(),
        ensures
            match self@.bounds_error(t, pc, space, addr, width) {
                Some(e) => r == Err::<(), EvalError>(e),
                None => r == Ok::<(), EvalError>(()) && addr + width <= u64::MAX,
            },
    {
        let regions = match space {
            MemSpace::Global => &self.setup.global,
            MemSpace::Shared => &self.setup.shared,
            MemSpace::Local => &self.setup.local,
            _ => {
                return Err(EvalError::Unsupported { pc, what: Detail::SpaceAccess { space } });
            },
        };
        proof {
            checked_accesses_do_not_wrap(regions@, addr, width, 0);
        }
        if find_region(regions, addr, width) {
            Ok(())
        } else {
            Err(EvalError::OutOfBounds { thread: t, pc, space, addr, width })
        }
    }

    /// Checks natural alignment.
    pub(crate) fn check_alignment(
        &self,
        t: ThreadId,
        pc: InstrId,
        space: MemSpace,
        addr: u64,
        required: u64,
    ) -> (r: EvalResult<()>)
        ensures
            r == (match Machine::alignment_error(t, pc, space, addr, required) {
                Some(e) => Err::<(), EvalError>(e),
                None => Ok(()),
            }),
    {
        if is_multiple(addr, required) {
            Ok(())
        } else {
            Err(EvalError::Misaligned { thread: t, pc, space, addr, required })
        }
    }

    /// Enters one input element, if nothing starts at its address.
    fn materialize_element(&mut self, i: usize, index: u64) -> (r: bool)
        requires
            old(self).wf(),
            i < old(self).setup.config.arrays@.len(),
            index < old(self).setup.config.arrays@[i as int].len,
        ensures
            final(self).wf(),
            final(self).setup == old(self).setup,
            final(self)@.pace() == old(self)@.pace(),
            (final(self)@, r) == old(self)@.with_element(
                old(self).setup.config.arrays@[i as int],
                index,
            ),
    {
        let array = &self.setup.config.arrays[i];
        proof {
            lemma_element(*array, index as int);
        }
        let addr: u64 = array.base + index * array.elem_width;
        let width: u64 = array.elem_width;
        if self.global.has_cell_at(addr) {
            return false;
        }
        let e = if array.kind == ArrayKind::IndexInput {
            self.arena.int_const(index as i64)
        } else {
            let name = self.arena.intern_string(&array.name);
            self.arena.input_element(name, index)
        };
        match self.global.init(addr, width, Value::Scalar(e)) {
            Ok(_) => true,
            Err(_) => false,
        }
    }

    /// Creates the symbols of every input element that overlaps
    /// `[addr, addr + width)` and is not yet present. Returns whether any was
    /// created.
    fn materialize_input(&mut self, addr: u64, width: u64) -> (r: bool)
        requires
            old(self).wf(),
            addr + width <= u64::MAX,
        ensures
            final(self).wf(),
            final(self).setup == old(self).setup,
            final(self)@.pace() == old(self)@.pace(),
            (final(self)@, r) == old(self)@.materialize(addr, width),
    {
        let mut any: bool = false;
        let mut i: usize = 0;
        let n: usize = self.setup.config.arrays.len();
        while i < n
            invariant
                self.wf(),
                self.setup == old(self).setup,
                self@.pace() == old(self)@.pace(),
                n == self.setup.config.arrays@.len(),
                i <= n,
                addr + width <= u64::MAX,
                (self@, any) == old(self)@.materialized(addr, width, i as int),
            decreases n - i,
        {
            let ghost array = self.setup.config.arrays@[i as int];
            let ghost m = self@;
            let ghost before = any;
            assert(array.wf());
            if self.setup.config.arrays[i].kind.is_input() {
                let base: u64 = self.setup.config.arrays[i].base;
                let elem: u64 = self.setup.config.arrays[i].elem_width;
                let size: u64 = self.setup.config.arrays[i].size_bytes();
                let end: u64 = base + size;
                let from: u64 = if addr >= base {
                    addr
                } else {
                    base
                };
                let to: u64 = if addr + width <= end {
                    addr + width
                } else {
                    end
                };
                if from < to {
                    let first: u64 = (from - base) / elem;
                    proof {
                        lemma_last_element(array, to - 1 - base);
                        lemma_div_is_ordered(from - base, to - 1 - base, elem as int);
                        lemma_div_pos_is_pos(from - base, elem as int);
                    }
                    let stop: u64 = (to - 1 - base) / elem + 1;
                    let mut k: u64 = first;
                    assert((self@, false) == m.with_elements(array, first as int, k as int));
                    let mut placed: bool = false;
                    while k < stop
                        invariant
                            self.wf(),
                            self.setup == old(self).setup,
                            self@.pace() == old(self)@.pace(),
                            i < self.setup.config.arrays@.len(),
                            array == self.setup.config.arrays@[i as int],
                            first <= k <= stop <= array.len,
                            (self@, placed) == m.with_elements(array, first as int, k as int),
                        decreases stop - k,
                    {
                        let new: bool = self.materialize_element(i, k);
                        placed = placed || new;
                        k = k + 1;
                    }
                    any = any || placed;
                }
                assert((self@, any) == old(self)@.materialized(addr, width, i + 1));
            }
            i = i + 1;
        }
        any
    }

    /// Splits the concrete scalar granule at `start` into exact halves,
    /// toward the access, until the access is a whole granule. Returns
    /// whether that was reached.
    fn split_concrete_scalar(
        &mut self,
        space: MemSpace,
        t: ThreadId,
        start: u64,
        found_width: u64,
        addr: u64,
        width: u64,
    ) -> (r: bool)
        requires
            old(self).wf(),
            old(self).has(t),
            has_memory(space),
            addr + width <= u64::MAX,
        ensures
            final(self).wf(),
            final(self).setup == old(self).setup,
            final(self)@.pace() == old(self)@.pace(),
            (final(self)@, r) == old(self)@.split_for(space, t, start, found_width, addr, width),
    {
        if width == 0 || width >= found_width || !is_power_of_two(found_width / width) || addr
            < start || (addr - start) % width != 0 {
            return false;
        }
        if (addr + width) as u128 > start as u128 + found_width as u128 {
            return false;
        }
        self.halve_toward(space, t, start, found_width, addr, width)
    }

    fn halve_toward(
        &mut self,
        space: MemSpace,
        t: ThreadId,
        start: u64,
        found_width: u64,
        addr: u64,
        width: u64,
    ) -> (r: bool)
        requires
            old(self).wf(),
            old(self).has(t),
            has_memory(space),
        ensures
            final(self).wf(),
            final(self).setup == old(self).setup,
            final(self)@.pace() == old(self)@.pace(),
            (final(self)@, r) == old(self)@.halved_toward(
                space,
                t,
                start,
                found_width,
                addr,
                width,
            ),
        decreases found_width,
    {
        if found_width <= width {
            return true;
        }
        let cell = match space {
            MemSpace::Global => self.global.scalar_cell(start),
            MemSpace::Shared => self.shared.scalar_cell(start),
            _ => memory_at(&self.locals, t.0 as usize).scalar_cell(start),
        };
        match cell {
            None => false,
            Some((w, e, _)) => {
                match self.arena.as_int_const(e) {
                    None => false,
                    Some(c) => {
                        if w != found_width || w % 2 != 0 || w > 8 {
                            return false;
                        }
                        let half: u64 = found_width / 2;
                        proof {
                            self.lemma_memory_valid(space, t);
                        }
                        let bits: u32 = (half * 8) as u32;
                        let x: u64 = mask_to(c, bits);
                        let y: u64 = mask_to(c >> (half * 8), bits);
                        let lo = self.arena.int_const(x as i64);
                        let hi = self.arena.int_const(y as i64);
                        match space {
                            MemSpace::Global => self.global.split_scalar(start, lo, hi),
                            MemSpace::Shared => self.shared.split_scalar(start, lo, hi),
                            _ => {
                                let i: usize = t.0 as usize;
                                let ghost before = self.locals@;
                                memory_at_mut(&mut self.locals, i).split_scalar(start, lo, hi);
                                assert(self@.locals =~= old(self)@.locals.update(
                                    i as int,
                                    halved(before[i as int]@, start, lo, hi),
                                ));
                            },
                        }
                        let next: u64 = if addr as u128 >= start as u128 + half as u128 {
                            start + half
                        } else {
                            start
                        };
                        self.halve_toward(space, t, next, half, addr, width)
                    },
                }
            },
        }
    }

    fn read_again(&self, t: ThreadId, pc: InstrId, space: MemSpace, addr: u64, width: u64) -> (r:
        EvalResult<Value>)
        requires
            self.wf(),
            self.has(t),
            has_memory(space),
            width >= 1,
            addr + width <= u64::MAX,
        ensures
            (self@, r) == self@.read_again(t, pc, space, addr, width),
    {
        match self.read_granules(t, space, addr, width) {
            Ok(v) => Ok(v),
            Err(e) => Err(mem_error(t, pc, space, e)),
        }
    }

    fn read_granules(&self, t: ThreadId, space: MemSpace, addr: u64, width: u64) -> (r: Result<
        Value,
        MemAccessError,
    >)
        requires
            self.wf(),
            self.has(t),
            has_memory(space),
            width >= 1,
            addr + width <= u64::MAX,
        ensures
            r == read_cells(self@.memory(space, t), addr, width),
    {
        match space {
            MemSpace::Global => self.global.read(addr, width),
            MemSpace::Shared => self.shared.read(addr, width),
            _ => memory_at(&self.locals, t.0 as usize).read(addr, width),
        }
    }

    fn read_missing(
        &mut self,
        t: ThreadId,
        pc: InstrId,
        space: MemSpace,
        addr: u64,
        width: u64,
        e: MemAccessError,
    ) -> (r: EvalResult<Value>)
        requires
            old(self).wf(),
            old(self).has(t),
            has_memory(space),
            width >= 1,
            addr + width <= u64::MAX,
        ensures
            final(self).wf(),
            final(self).setup == old(self).setup,
            final(self)@.pace() == old(self)@.pace(),
            (final(self)@, r) == old(self)@.read_missing(t, pc, space, addr, width, e),
    {
        let bare: bool = matches!(e, MemAccessError::Uninitialized { .. });
        let typed: bool = matches!(e, MemAccessError::Reinterpret { .. });
        if space == MemSpace::Global && (bare || typed) {
            if self.materialize_input(addr, width) {
                self.read_again(t, pc, space, addr, width)
            } else if bare {
                Ok(Value::Scalar(self.arena.undefined()))
            } else {
                Err(mem_error(t, pc, space, e))
            }
        } else if space == MemSpace::Shared && bare {
            Ok(Value::Scalar(self.arena.undefined()))
        } else {
            Err(mem_error(t, pc, space, e))
        }
    }

    fn read_value(
        &mut self,
        t: ThreadId,
        pc: InstrId,
        space: MemSpace,
        addr: u64,
        width: u64,
    ) -> (r:
        EvalResult<Value>)
        requires
            old(self).wf(),
            old(self).has(t),
            has_memory(space),
            width >= 1,
            addr + width <= u64::MAX,
        ensures
            final(self).wf(),
            final(self).setup == old(self).setup,
            final(self)@.pace() == old(self)@.pace(),
            (final(self)@, r) == old(self)@.read_value(t, pc, space, addr, width),
    {
        match self.read_granules(t, space, addr, width) {
            Ok(v) => Ok(v),
            Err(e) => {
                if let MemAccessError::Reinterpret { found, .. } = e {
                    if let Some((start, found_width, kind)) = found {
                        if kind == GranuleKind::Scalar {
                            if self.split_concrete_scalar(
                                space,
                                t,
                                start,
                                found_width,
                                addr,
                                width,
                            ) {
                                return self.read_again(t, pc, space, addr, width);
                            }
                        }
                    }
                }
                self.read_missing(t, pc, space, addr, width, e)
            },
        }
    }

    /// Bounds-checks, race-checks and reads memory through a memory proxy.
    ///
    /// Reading in-bounds shared or global bytes that were never written is
    /// undefined rather than an error: the read is still recorded, so a later
    /// conflicting write is reported as a race.
    pub(crate) fn mem_read_via(
        &mut self,
        t: ThreadId,
        pc: InstrId,
        space: MemSpace,
        addr: u64,
        width: u64,
        proxy: Proxy,
    ) -> (r: EvalResult<Value>)
        requires
            old(self).wf(),
            old(self).has(t),
            width >= 1,
        ensures
            final(self).wf(),
            final(self).setup == old(self).setup,
            final(self)@.pace() == old(self)@.pace(),
            (final(self)@, r) == old(self)@.mem_read_via(t, pc, space, addr, width, proxy),
    {
        reveal(Machine::mem_read_via);
        if let Err(e) = self.check_bounds(t, pc, space, addr, width) {
            return Err(e);
        }
        if let Err(e) = self.check_alignment(t, pc, space, addr, width) {
            return Err(e);
        }
        if space != MemSpace::Local {
            if let Err(h) = self.race.read_via(space, addr, width, t, pc, proxy) {
                return Err(mem_hazard_error(h));
            }
        }
        self.read_value(t, pc, space, addr, width)
    }

    /// Bounds-checks, race-checks and reads memory.
    pub(crate) fn mem_read(
        &mut self,
        t: ThreadId,
        pc: InstrId,
        space: MemSpace,
        addr: u64,
        width: u64,
    ) -> (r:
        EvalResult<Value>)
        requires
            old(self).wf(),
            old(self).has(t),
            width >= 1,
        ensures
            final(self).wf(),
            final(self).setup == old(self).setup,
            final(self)@.pace() == old(self)@.pace(),
            (final(self)@, r) == old(self)@.mem_read(t, pc, space, addr, width),
    {
        self.mem_read_via(t, pc, space, addr, width, Proxy::Generic)
    }

    fn write_granules(
        &mut self,
        t: ThreadId,
        space: MemSpace,
        addr: u64,
        width: u64,
        value: Value,
    ) -> (r:
        Result<(), MemAccessError>)
        requires
            old(self).wf(),
            old(self).has(t),
            has_memory(space),
            width >= 1,
            addr + width <= u64::MAX,
        ensures
            final(self).wf(),
            final(self).setup == old(self).setup,
            final(self)@.pace() == old(self)@.pace(),
            match write_refused(old(self)@.memory(space, t), addr, width, value, 0) {
                Some(e) => r == Err::<(), MemAccessError>(e) && final(self)@ == old(self)@,
                None => r == Ok::<(), MemAccessError>(()) && final(self)@
                    == old(self)@.with_memory(
                    space,
                    t,
                    written(old(self)@.memory(space, t), addr, width, value),
                ),
            },
    {
        match space {
            MemSpace::Global => self.global.write(addr, width, value),
            MemSpace::Shared => self.shared.write(addr, width, value),
            _ => {
                let i: usize = t.0 as usize;
                let r = memory_at_mut(&mut self.locals, i).write(addr, width, value);
                proof {
                    if r is Ok {
                        assert(self@.locals =~= old(self)@.locals.update(
                            i as int,
                            written(old(self)@.memory(space, t), addr, width, value),
                        ));
                    } else {
                        assert(self@.locals =~= old(self)@.locals);
                    }
                }
                r
            },
        }
    }

    fn write_value(
        &mut self,
        t: ThreadId,
        pc: InstrId,
        space: MemSpace,
        addr: u64,
        width: u64,
        value: Value,
    ) -> (r: EvalResult<()>)
        requires
            old(self).wf(),
            old(self).has(t),
            has_memory(space),
            width >= 1,
            addr + width <= u64::MAX,
        ensures
            final(self).wf(),
            final(self).setup == old(self).setup,
            final(self)@.pace() == old(self)@.pace(),
            (final(self)@, r) == old(self)@.write_value(t, pc, space, addr, width, value),
    {
        match self.write_granules(t, space, addr, width, value) {
            Ok(_) => Ok(()),
            Err(e) => {
                if let MemAccessError::Reinterpret { found, .. } = e {
                    if let Some((start, found_width, kind)) = found {
                        if kind == GranuleKind::Scalar {
                            if self.split_concrete_scalar(
                                space,
                                t,
                                start,
                                found_width,
                                addr,
                                width,
                            ) {
                                return match self.write_granules(t, space, addr, width, value) {
                                    Ok(_) => Ok(()),
                                    Err(e1) => Err(mem_error(t, pc, space, e1)),
                                };
                            }
                        }
                    }
                }
                Err(mem_error(t, pc, space, e))
            },
        }
    }

    /// Records a write, or says what it runs into.
    fn record_write(
        &mut self,
        t: ThreadId,
        pc: InstrId,
        space: MemSpace,
        addr: u64,
        width: u64,
        same_value: bool,
    ) -> (r: Result<(), MemHazard>)
        requires
            old(self).wf(),
            addr + width <= u64::MAX,
        ensures
            final(self).wf(),
            final(self).setup == old(self).setup,
            final(self)@.pace() == old(self)@.pace(),
            final(self)@ == old(self)@.with_race(
                old(self)@.race.after_write(space, addr, width, t, pc, same_value),
            ),
            r == (match old(self)@.race.write_hazard(space, addr, width, t, pc, same_value) {
                Some(h) => Err::<(), MemHazard>(h),
                None => Ok(()),
            }),
    {
        self.race.write_with(space, addr, width, t, pc, same_value)
    }

    /// Whether a hazard is a race with a write of what is stored anyway.
    fn stores_the_same(
        &self,
        h: &MemHazard,
        t: ThreadId,
        space: MemSpace,
        addr: u64,
        width: u64,
        value: Value,
    ) -> (r: bool)
        requires
            self.wf(),
            self.has(t),
            has_memory(space),
            width >= 1,
            addr + width <= u64::MAX,
        ensures
            r == self@.benign(*h, t, space, addr, width, value),
    {
        if let MemHazard::Race(info) = h {
            if info.prior.is_write {
                if let Ok(present) = self.read_granules(t, space, addr, width) {
                    return same_real_value(&self.arena, present, value);
                }
            }
        }
        false
    }

    fn check_write(
        &mut self,
        t: ThreadId,
        pc: InstrId,
        space: MemSpace,
        addr: u64,
        width: u64,
        value: Value,
    ) -> (r: EvalResult<()>)
        requires
            old(self).wf(),
            old(self).has(t),
            space == MemSpace::Global || space == MemSpace::Shared,
            width >= 1,
            addr + width <= u64::MAX,
        ensures
            final(self).wf(),
            final(self).setup == old(self).setup,
            final(self)@.pace() == old(self)@.pace(),
            (final(self)@, r) == old(self)@.write_checked(t, pc, space, addr, width, value),
    {
        match self.record_write(t, pc, space, addr, width, false) {
            Ok(_) => Ok(()),
            Err(h) => {
                if self.stores_the_same(&h, t, space, addr, width, value) {
                    match self.record_write(t, pc, space, addr, width, true) {
                        Ok(_) => Ok(()),
                        Err(h1) => Err(mem_hazard_error(h1)),
                    }
                } else {
                    Err(mem_hazard_error(h))
                }
            },
        }
    }

    /// Bounds-checks, race-checks and writes memory.
    pub(crate) fn mem_write(
        &mut self,
        t: ThreadId,
        pc: InstrId,
        space: MemSpace,
        addr: u64,
        width: u64,
        value: Value,
    ) -> (r: EvalResult<()>)
        requires
            old(self).wf(),
            old(self).has(t),
            width >= 1,
        ensures
            final(self).wf(),
            final(self).setup == old(self).setup,
            final(self)@.pace() == old(self)@.pace(),
            (final(self)@, r) == old(self)@.mem_write(t, pc, space, addr, width, value),
            r is Ok ==> addr + width <= u64::MAX,
    {
        reveal(Machine::mem_write);
        if let Err(e) = self.check_bounds(t, pc, space, addr, width) {
            return Err(e);
        }
        if let Err(e) = self.check_alignment(t, pc, space, addr, width) {
            return Err(e);
        }
        if space != MemSpace::Local {
            if let Err(e) = self.check_write(t, pc, space, addr, width, value) {
                return Err(e);
            }
            if space == MemSpace::Shared && self.setup.features.async_proxy_fence {
                self.race.mark_generic_unfenced(addr, width, t, pc);
            }
        }
        self.write_value(t, pc, space, addr, width, value)
    }

    proof fn lemma_memory_valid(&self, space: MemSpace, t: ThreadId)
        requires
            self.wf(),
            self.has(t),
        ensures
            crate::eval::memory::valid_cells(self@.memory(space, t)),
    {
        match space {
            MemSpace::Global => self.global.lemma_valid(),
            MemSpace::Shared => self.shared.lemma_valid(),
            _ => self.locals@[t.0 as int].lemma_valid(),
        }
    }
}

proof fn lemma_element(array: ArrayDef, index: int)
    requires
        array.wf(),
        0 <= index < array.len,
    ensures
        0 <= index * array.elem_width,
        array.base + index * array.elem_width + array.elem_width <= array.end(),
{
    assert(0 <= index * array.elem_width && index * array.elem_width + array.elem_width
        <= array.elem_width * array.len) by (nonlinear_arith)
        requires
            0 <= index < array.len,
            array.elem_width > 0,
    ;
}

proof fn lemma_last_element(array: ArrayDef, offset: int)
    requires
        array.wf(),
        0 <= offset < array.bytes(),
    ensures
        0 <= offset / (array.elem_width as int) < array.len,
{
    assert(0 <= offset / (array.elem_width as int) < array.len) by (nonlinear_arith)
        requires
            0 <= offset < array.elem_width * array.len,
            array.elem_width > 0,
    ;
}

} // verus!
