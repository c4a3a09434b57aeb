//! Tensor Memory: a small, fixed-size, per-CTA scratch space private to
//! `tcgen05.*` instructions.
//!
//! Its cells are always 32-bit, it is never itself a kernel output, and its
//! valid bounds are dynamic - tracked by `.alloc`/`.dealloc`.

use vstd::prelude::*;

use crate::symbolic::ExprId;

verus! {

/// Lanes per CTA's Tensor Memory.
pub const LANES: u32 = 128;

/// Columns per CTA's Tensor Memory.
pub const COLUMNS: u32 = 512;

/// Failure modes of the Tensor Memory allocator.
#[derive(Debug, Clone, Copy, PartialEq, Eq, Structural)]
pub enum TensorMemError {
    /// The number of columns is not a power of 2 in `[32, 512]`.
    InvalidColumnCount { num_cols: u32 },
    /// Not enough unallocated columns remain.
    OutOfSpace { requested: u32, available: u32 },
    /// `.alloc` after this CTA already relinquished its allocation permit.
    AllocAfterRelinquish,
    /// `.dealloc`'s `(taddr, nCols)` doesn't match any live allocation.
    DeallocMismatch { taddr: u32, num_cols: u32 },
    /// A `tcgen05.ld`/`.st` touched a column outside every live allocation.
    NotAllocated { lane: u32, col: u32 },
}

/// What a [`TensorMemory`] holds.
#[verifier::ext_equal]
pub struct TensorState {
    /// Live allocations, as `(base column, number of columns)`, in order of
    /// allocation.
    pub live: Seq<(u32, u32)>,
    /// The next unallocated column.
    pub high_water: u32,
    pub relinquished: bool,
    /// Written cells, by `(lane, column)`.
    pub cells: Map<(u32, u32), ExprId>,
}

/// A column count that may be allocated.
pub open spec fn valid_column_count(n: u32) -> bool {
    n == 32 || n == 64 || n == 128 || n == 256 || n == 512
}

/// Position of the first `entry` from `i` on.
pub open spec fn entry_index(s: Seq<(u32, u32)>, entry: (u32, u32), i: int) -> int
    decreases s.len() - i,
{
    if i >= s.len() {
        s.len() as int
    } else if s[i] == entry {
        i
    } else {
        entry_index(s, entry, i + 1)
    }
}

impl TensorState {
    pub open spec fn initial() -> TensorState {
        TensorState {
            live: Seq::empty(),
            high_water: 0,
            relinquished: false,
            cells: Map::empty(),
        }
    }

    /// Whether some live allocation covers the column.
    pub open spec fn is_live(self, col: u32) -> bool {
        exists|i: int|
            0 <= i < self.live.len() && (#[trigger] self.live[i]).0 <= col < self.live[i].0
                + self.live[i].1
    }

    /// The error of an allocation, if any.
    pub open spec fn alloc_error(self, num_cols: u32) -> Option<TensorMemError> {
        if self.relinquished {
            Some(TensorMemError::AllocAfterRelinquish)
        } else if !valid_column_count(num_cols) {
            Some(TensorMemError::InvalidColumnCount { num_cols })
        } else if self.high_water + num_cols > COLUMNS {
            Some(
                TensorMemError::OutOfSpace {
                    requested: num_cols,
                    available: (COLUMNS - self.high_water) as u32,
                },
            )
        } else {
            None
        }
    }

    pub open spec fn allocated(self, num_cols: u32) -> TensorState {
        TensorState {
            live: self.live.push((self.high_water, num_cols)),
            high_water: (self.high_water + num_cols) as u32,
            ..self
        }
    }

    pub open spec fn dealloc_index(self, taddr: u32, num_cols: u32) -> int {
        entry_index(self.live, (taddr, num_cols), 0)
    }

    pub open spec fn deallocated(self, i: int) -> TensorState {
        TensorState { live: self.live.remove(i), ..self }
    }

    pub open spec fn get(self, lane: u32, col: u32) -> Option<ExprId> {
        if self.cells.contains_key((lane, col)) {
            Some(self.cells[(lane, col)])
        } else {
            None
        }
    }

    pub open spec fn written(self, lane: u32, col: u32, value: ExprId) -> TensorState {
        TensorState { cells: self.cells.insert((lane, col), value), ..self }
    }

    /// Every allocation lies below the bump pointer, in order and without
    /// overlap, and no cell at or above the pointer was ever written.
    pub open spec fn valid(self) -> bool {
        &&& self.high_water <= COLUMNS
        &&& forall|i: int|
            0 <= i < self.live.len() ==> (#[trigger] self.live[i]).0 + self.live[i].1
                <= self.high_water
        &&& forall|i: int, j: int|
            0 <= i < j < self.live.len() ==> (#[trigger] self.live[i]).0 + self.live[i].1 <= (
            #[trigger] self.live[j]).0
        &&& forall|k: (u32, u32)| #[trigger] self.cells.contains_key(k) ==> k.1 < self.high_water
    }
}

/// The Tensor Memory allocator and cell store of one CTA.
///
/// A bump allocator: `.dealloc` removes a range but never lets a later
/// `.alloc` reuse its columns.
#[derive(Debug)]
pub struct TensorMemory {
    /// Currently-live allocations, as `(base_col, num_cols)`.
    allocated: Vec<(u32, u32)>,
    /// Never-decreasing bump pointer: the next unallocated column.
    high_water: u32,
    permit_relinquished: bool,
    /// `LANES * COLUMNS` cells once any was written; empty until then.
    cells: Vec<Option<ExprId>>,
}

impl View for TensorMemory {
    type V = TensorState;

    closed spec fn view(&self) -> TensorState {
        TensorState {
            live: self.allocated@,
            high_water: self.high_water,
            relinquished: self.permit_relinquished,
            cells: Map::new(
                |k: (u32, u32)|
                    {
                        &&& k.0 < LANES
                        &&& k.1 < COLUMNS
                        &&& self.cells@.len() > 0
                        &&& self.cells@[k.0 * COLUMNS + k.1] is Some
                    },
                |k: (u32, u32)| self.cells@[k.0 * COLUMNS + k.1]->0,
            ),
        }
    }
}

impl TensorMemory {
    /// Validity: the state is valid, and the cells are laid out or not at all.
    pub closed spec fn wf(&self) -> bool {
        &&& self@.valid()
        &&& self.cells@.len() == 0 || self.cells@.len() == LANES * COLUMNS
    }

    pub fn new() -> (r: Self)
        ensures
            r.wf(),
            r@ == TensorState::initial(),
    {
        let r = TensorMemory {
            allocated: Vec::new(),
            high_water: 0,
            permit_relinquished: false,
            cells: Vec::new(),
        };
        assert(r@ =~= TensorState::initial());
        r
    }

    /// Allocate `num_cols` columns, returning their base column. An
    /// allocation spans all lanes of its columns.
    pub fn allocate(&mut self, num_cols: u32) -> (r: Result<u32, TensorMemError>)
        requires
            old(self).wf(),
        ensures
            final(self).wf(),
            match old(self)@.alloc_error(num_cols) {
                Some(e) => r == Err::<u32, TensorMemError>(e) && final(self)@ == old(self)@,
                None => r == Ok::<u32, TensorMemError>(old(self)@.high_water) && final(self)@
                    == old(self)@.allocated(num_cols),
            },
            r matches Ok(base) ==> base + num_cols <= COLUMNS && forall|lane: u32, col: u32|
                base <= col < base + num_cols ==> (#[trigger] final(self)@.get(lane, col)) is None,
    {
        if self.permit_relinquished {
            return Err(TensorMemError::AllocAfterRelinquish);
        }
        if !(num_cols == 32 || num_cols == 64 || num_cols == 128 || num_cols == 256 || num_cols
            == 512) {
            return Err(TensorMemError::InvalidColumnCount { num_cols });
        }
        let base: u32 = self.high_water;
        if base + num_cols > COLUMNS {
            return Err(
                TensorMemError::OutOfSpace { requested: num_cols, available: COLUMNS - base },
            );
        }
        self.high_water = base + num_cols;
        self.allocated.push((base, num_cols));
        assert(self@ =~= old(self)@.allocated(num_cols));
        Ok(base)
    }

    /// Deallocate the live range `(taddr, num_cols)`. Errors if no such exact
    /// range is currently allocated.
    pub fn dealloc(&mut self, taddr: u32, num_cols: u32) -> (r: Result<(), TensorMemError>)
        requires
            old(self).wf(),
        ensures
            final(self).wf(),
            ({
                let i = old(self)@.dealloc_index(taddr, num_cols);
                if i < old(self)@.live.len() {
                    r == Ok::<(), TensorMemError>(()) && final(self)@ == old(self)@.deallocated(i)
                } else {
                    r == Err::<(), TensorMemError>(
                        TensorMemError::DeallocMismatch { taddr, num_cols },
                    ) && final(self)@ == old(self)@
                }
            }),
    {
        let mut i: usize = 0;
        while i < self.allocated.len()
            invariant
                i <= self.allocated@.len(),
                *self == *old(self),
                self.wf(),
                self@.dealloc_index(taddr, num_cols) == entry_index(
                    self.allocated@,
                    (taddr, num_cols),
                    i as int,
                ),
            decreases self.allocated@.len() - i,
        {
            let (base, cols) = self.allocated[i];
            if base == taddr && cols == num_cols {
                self.allocated.remove(i);
                assert(self@ =~= old(self)@.deallocated(i as int));
                assert(self.wf()) by {
                    let a = self.allocated@;
                    let b = old(self).allocated@;
                    assert forall|j: int| 0 <= j < a.len() implies a[j] == b[if j < i {
                        j
                    } else {
                        j + 1
                    }] by {}
                }
                return Ok(());
            }
            i = i + 1;
        }
        Err(TensorMemError::DeallocMismatch { taddr, num_cols })
    }

    fn is_allocated(&self, col: u32) -> (r: bool)
        requires
            self.wf(),
        ensures
            r == self@.is_live(col),
    {
        let mut i: usize = 0;
        while i < self.allocated.len()
            invariant
                i <= self.allocated@.len(),
                self.wf(),
                forall|j: int|
                    0 <= j < i ==> !((#[trigger] self.allocated@[j]).0 <= col
                        < self.allocated@[j].0 + self.allocated@[j].1),
            decreases self.allocated@.len() - i,
        {
            let (base, cols) = self.allocated[i];
            assert(self@.live[i as int].0 + self@.live[i as int].1 <= self.high_water);
            if col >= base && col < base + cols {
                assert(self@.live[i as int].0 <= col);
                return true;
            }
            i = i + 1;
        }
        false
    }

    /// Read cell `(lane, col)`: `Ok(None)` for an allocated-but-never-written
    /// cell, `Err` if `col` isn't currently allocated at all.
    pub fn read(&self, lane: u32, col: u32) -> (r: Result<Option<ExprId>, TensorMemError>)
        requires
            self.wf(),
        ensures
            r == (if self@.is_live(col) {
                Ok::<Option<ExprId>, TensorMemError>(self@.get(lane, col))
            } else {
                Err(TensorMemError::NotAllocated { lane, col })
            }),
    {
        if !self.is_allocated(col) {
            return Err(TensorMemError::NotAllocated { lane, col });
        }
        proof {
            self.live_is_in_range(col);
        }
        if lane >= LANES || self.cells.len() == 0 {
            return Ok(None);
        }
        Ok(self.cells[(lane * COLUMNS + col) as usize])
    }

    /// Write cell `(lane, col)`. Errors if `col` isn't currently allocated.
    pub fn write(&mut self, lane: u32, col: u32, value: ExprId) -> (r: Result<(), TensorMemError>)
        requires
            old(self).wf(),
            old(self)@.is_live(col) ==> lane < LANES,
        ensures
            final(self).wf(),
            if old(self)@.is_live(col) {
                r == Ok::<(), TensorMemError>(()) && final(self)@ == old(self)@.written(
                    lane,
                    col,
                    value,
                )
            } else {
                r == Err::<(), TensorMemError>(TensorMemError::NotAllocated { lane, col })
                    && final(self)@ == old(self)@
            },
    {
        if !self.is_allocated(col) {
            return Err(TensorMemError::NotAllocated { lane, col });
        }
        proof {
            self.live_is_in_range(col);
        }
        if self.cells.len() == 0 {
            let mut cells: Vec<Option<ExprId>> = Vec::new();
            let mut i: u32 = 0;
            while i < LANES * COLUMNS
                invariant
                    i <= LANES * COLUMNS,
                    cells@.len() == i,
                    forall|j: int| 0 <= j < cells@.len() ==> #[trigger] cells@[j] is None,
                decreases LANES * COLUMNS - i,
            {
                cells.push(None);
                i = i + 1;
            }
            self.cells = cells;
        }
        let at: u32 = lane * COLUMNS + col;
        self.cells.set(at as usize, Some(value));
        proof {
            assert forall|k: (u32, u32)|
                k.0 < LANES && k.1 < COLUMNS && k.0 * COLUMNS + k.1 == at implies k == (
                lane,
                col,
            ) by {}
            assert(self@.cells =~= old(self)@.cells.insert((lane, col), value));
            assert(self@ =~= old(self)@.written(lane, col, value));
        }
        Ok(())
    }

    /// Mark this CTA as having relinquished its right to allocate further
    /// Tensor Memory.
    pub fn relinquish_alloc_permit(&mut self)
        requires
            old(self).wf(),
        ensures
            final(self).wf(),
            final(self)@ == (TensorState { relinquished: true, ..old(self)@ }),
    {
        self.permit_relinquished = true;
    }

    /// What a Tensor Memory holds is always valid.
    pub proof fn state_is_valid(&self)
        requires
            self.wf(),
        ensures
            self@.valid(),
    {
    }

    /// A live column lies within Tensor Memory.
    pub proof fn live_is_in_range(&self, col: u32)
        requires
            self.wf(),
            self@.is_live(col),
        ensures
            col < COLUMNS,
    {
    }

    /// Live allocations never overlap.
    pub proof fn allocations_are_disjoint(&self, i: int, j: int, col: u32)
        requires
            self.wf(),
            0 <= i < j < self@.live.len(),
        ensures
            !(self@.live[i].0 <= col < self@.live[i].0 + self@.live[i].1 && self@.live[j].0 <= col
                < self@.live[j].0 + self@.live[j].1),
    {
    }
}

// ---------------------------------------------------------------------------
// Laws
// ---------------------------------------------------------------------------

/// A read gives back the last write to the cell, and no other cell changes.
pub proof fn read_after_write(
    s: TensorState,
    lane: u32,
    col: u32,
    value: ExprId,
    lane2: u32,
    col2: u32,
)
    ensures
        s.written(lane, col, value).get(lane2, col2) == (if lane2 == lane && col2 == col {
            Some(value)
        } else {
            s.get(lane2, col2)
        }),
        s.written(lane, col, value).is_live(col2) == s.is_live(col2),
{
    let z = s.written(lane, col, value);
    assert(z.live == s.live);
}

/// Allocating makes exactly the new columns live, and bases only increase.
pub proof fn alloc_makes_columns_live(s: TensorState, num_cols: u32, col: u32)
    requires
        s.alloc_error(num_cols) is None,
    ensures
        s.allocated(num_cols).is_live(col) == (s.is_live(col) || s.high_water <= col < s.high_water
            + num_cols),
        s.allocated(num_cols).high_water > s.high_water,
{
    let z = s.allocated(num_cols);
    let n = s.live.len() as int;
    assert(z.live[n] == (s.high_water, num_cols));
    if s.is_live(col) {
        let i = choose|i: int|
            0 <= i < s.live.len() && (#[trigger] s.live[i]).0 <= col < s.live[i].0 + s.live[i].1;
        assert(z.live[i] == s.live[i]);
    }
    if z.is_live(col) {
        let i = choose|i: int|
            0 <= i < z.live.len() && (#[trigger] z.live[i]).0 <= col < z.live[i].0 + z.live[i].1;
        if i < n {
            assert(s.live[i] == z.live[i]);
        }
    }
}

/// One call on a Tensor Memory.
pub enum TensorCall {
    Alloc { num_cols: u32 },
    Dealloc { taddr: u32, num_cols: u32 },
    Write { lane: u32, col: u32, value: ExprId },
    Relinquish,
}

/// The state after one more call; a refused one changes nothing.
pub open spec fn after(s: TensorState, c: TensorCall) -> TensorState {
    match c {
        TensorCall::Alloc { num_cols } => if s.alloc_error(num_cols) is None {
            s.allocated(num_cols)
        } else {
            s
        },
        TensorCall::Dealloc { taddr, num_cols } => {
            let i = s.dealloc_index(taddr, num_cols);
            if i < s.live.len() {
                s.deallocated(i)
            } else {
                s
            }
        },
        TensorCall::Write { lane, col, value } => if s.is_live(col) {
            s.written(lane, col, value)
        } else {
            s
        },
        TensorCall::Relinquish => TensorState { relinquished: true, ..s },
    }
}

/// The state after a history of calls.
pub open spec fn replayed(h: Seq<TensorCall>) -> TensorState
    decreases h.len(),
{
    if h.len() == 0 {
        TensorState::initial()
    } else {
        after(replayed(h.drop_last()), h.last())
    }
}

/// The columns that call `i` of a history was granted, if it was an allocation
/// that succeeded: the base and the count.
pub open spec fn granted(h: Seq<TensorCall>, i: int) -> Option<(u32, u32)> {
    match h[i] {
        TensorCall::Alloc { num_cols } => if replayed(h.take(i)).alloc_error(num_cols) is None {
            Some((replayed(h.take(i)).high_water, num_cols))
        } else {
            None
        },
        _ => None,
    }
}

/// The columns granted by the first `n` calls.
pub open spec fn granted_columns(h: Seq<TensorCall>, n: int) -> nat
    decreases n,
{
    if n <= 0 {
        0
    } else {
        granted_columns(h, n - 1) + (match granted(h, n - 1) {
            Some((_, cols)) => cols as nat,
            None => 0,
        })
    }
}

proof fn lemma_entry_index(s: Seq<(u32, u32)>, entry: (u32, u32), i: int)
    requires
        0 <= i <= s.len(),
    ensures
        i <= entry_index(s, entry, i) <= s.len(),
    decreases s.len() - i,
{
    if i < s.len() {
        lemma_entry_index(s, entry, i + 1);
    }
}

/// Every call keeps a valid state valid and never lowers the bump pointer.
pub proof fn calls_keep_validity(s: TensorState, c: TensorCall)
    requires
        s.valid(),
    ensures
        after(s, c).valid(),
        after(s, c).high_water >= s.high_water,
{
    let z = after(s, c);
    match c {
        TensorCall::Alloc { num_cols } => {
            if s.alloc_error(num_cols) is None {
                assert forall|i: int| 0 <= i < z.live.len() implies (#[trigger] z.live[i]).0
                    + z.live[i].1 <= z.high_water by {
                    if i < s.live.len() {
                        assert(z.live[i] == s.live[i]);
                    }
                }
                assert forall|i: int, j: int| 0 <= i < j < z.live.len() implies (
                #[trigger] z.live[i]).0 + z.live[i].1 <= (#[trigger] z.live[j]).0 by {
                    assert(z.live[i] == s.live[i]);
                    if j < s.live.len() {
                        assert(z.live[j] == s.live[j]);
                    }
                }
            }
        },
        TensorCall::Dealloc { taddr, num_cols } => {
            let k = s.dealloc_index(taddr, num_cols);
            lemma_entry_index(s.live, (taddr, num_cols), 0);
            if k < s.live.len() {
                assert forall|i: int| 0 <= i < z.live.len() implies #[trigger] z.live[i]
                    == s.live[if i < k {
                    i
                } else {
                    i + 1
                }] by {}
            }
        },
        TensorCall::Write { lane, col, .. } => {
            if s.is_live(col) {
                let i = choose|i: int|
                    0 <= i < s.live.len() && (#[trigger] s.live[i]).0 <= col < s.live[i].0
                        + s.live[i].1;
                assert(s.live[i].0 + s.live[i].1 <= s.high_water);
            }
        },
        TensorCall::Relinquish => {},
    }
}

/// The bump pointer is the sum of all columns granted so far.
proof fn lemma_bump(h: Seq<TensorCall>, n: int)
    requires
        0 <= n <= h.len(),
    ensures
        replayed(h.take(n)).valid(),
        replayed(h.take(n)).high_water == granted_columns(h, n),
    decreases n,
{
    if n == 0 {
        assert(h.take(0) =~= Seq::<TensorCall>::empty());
    } else {
        lemma_bump(h, n - 1);
        assert(h.take(n).drop_last() =~= h.take(n - 1));
        assert(h.take(n).last() == h[n - 1]);
        calls_keep_validity(replayed(h.take(n - 1)), h[n - 1]);
    }
}

proof fn lemma_granted_grow(h: Seq<TensorCall>, i: int, n: int)
    requires
        0 <= i <= n <= h.len(),
    ensures
        granted_columns(h, i) <= granted_columns(h, n),
    decreases n - i,
{
    if i < n {
        lemma_granted_grow(h, i, n - 1);
    }
}

/// An allocation that succeeds starts at the sum of all columns granted
/// before, within Tensor Memory; so it meets no range ever granted, whether or
/// not it was given back since. Each of its cells is unwritten, and every
/// other column answers a read as before.
pub proof fn fresh_columns_are_unwritten(
    h: Seq<TensorCall>,
    num_cols: u32,
    lane: u32,
    col: u32,
    i: int,
)
    requires
        replayed(h).alloc_error(num_cols) is None,
    ensures
        ({
            let s = replayed(h);
            let z = s.allocated(num_cols);
            let base = s.high_water;
            &&& base == granted_columns(h, h.len() as int)
            &&& base + num_cols <= COLUMNS
            &&& 0 <= i < h.len() ==> (granted(h, i) matches Some((b, n)) ==> b + n <= base)
            &&& base <= col < base + num_cols ==> z.is_live(col) && z.get(lane, col) is None
            &&& !(base <= col < base + num_cols) ==> z.is_live(col) == s.is_live(col)
            &&& z.get(lane, col) == s.get(lane, col)
        }),
{
    let s = replayed(h);
    assert(h.take(h.len() as int) =~= h);
    lemma_bump(h, h.len() as int);
    alloc_makes_columns_live(s, num_cols, col);
    if 0 <= i < h.len() {
        lemma_bump(h, i);
        lemma_granted_grow(h, i + 1, h.len() as int);
    }
    if s.cells.contains_key((lane, col)) {
        assert(col < s.high_water);
    }
}

} // verus!
