//! Granule memory: one memory space as disjoint granules, each holding one
//! value at the width it was written at.
//!
//! A granule never wraps around the address space, and no two granules share
//! a byte. A read at a granule's own width gives its value back; wider reads
//! compose adjacent scalar granules into packed lanes, and narrower reads of
//! a packed granule select whole lanes. Everything else is a
//! reinterpretation, which is refused.

use std::collections::HashMap;

use vstd::prelude::*;
use vstd::std_specs::iter::IteratorSpec;

use crate::eval::value::{MbarrierId, Value};
use crate::sort::{ascending, sort};
use crate::symbolic::ExprId;

verus! {

/// What kind of value a granule holds.
#[derive(Debug, Clone, Copy, PartialEq, Eq, Structural)]
pub enum GranuleKind {
    Scalar,
    Pair,
    Quad,
}

/// Why an access was refused.
#[derive(Debug, Clone, Copy, PartialEq, Eq)]
pub enum MemAccessError {
    /// No byte of the access was ever written.
    Uninitialized { addr: u64 },
    /// The bytes belong to a granule with no reading at this width.
    Reinterpret { addr: u64, width: u64, found: Option<(u64, u64, GranuleKind)> },
    /// An ordinary write hit a live `mbarrier` object.
    MbarrierOverwrite { addr: u64 },
    /// There is no live `mbarrier` object at the address.
    NoLiveMbarrier { addr: u64 },
}

/// One written range: its width, its value, and whether the program wrote it
/// (as opposed to its being part of the initial contents).
#[derive(Debug, Clone, Copy, PartialEq, Eq, Structural)]
pub struct Granule {
    pub width: u64,
    pub value: Value,
    pub dirty: bool,
}

impl Granule {
    pub open spec fn spec_lanes(self) -> u64 {
        match self.value {
            Value::Pair(_, _) => 2,
            Value::Quad(_, _, _, _) => 4,
            _ => 1,
        }
    }

    /// Number of packed lanes.
    #[verifier::when_used_as_spec(spec_lanes)]
    pub fn lanes(self) -> (r: u64)
        ensures
            r == self.spec_lanes(),
    {
        match self.value {
            Value::Pair(_, _) => 2,
            Value::Quad(_, _, _, _) => 4,
            _ => 1,
        }
    }

    /// Whether the granule holds packed lanes of equal whole-byte width.
    pub open spec fn packed(self) -> bool {
        self.lanes() > 1 && self.width % self.lanes() == 0
    }

    pub open spec fn spec_kind(self) -> Option<GranuleKind> {
        match self.value {
            Value::Scalar(_) => Some(GranuleKind::Scalar),
            Value::Pair(_, _) => Some(GranuleKind::Pair),
            Value::Quad(_, _, _, _) => Some(GranuleKind::Quad),
            Value::Mbarrier(_) => None,
        }
    }

    /// The kind of the value; `mbarrier` objects have none.
    #[verifier::when_used_as_spec(spec_kind)]
    pub fn kind(self) -> (r: Option<GranuleKind>)
        ensures
            r == self.spec_kind(),
    {
        match self.value {
            Value::Scalar(_) => Some(GranuleKind::Scalar),
            Value::Pair(_, _) => Some(GranuleKind::Pair),
            Value::Quad(_, _, _, _) => Some(GranuleKind::Quad),
            Value::Mbarrier(_) => None,
        }
    }

    pub open spec fn spec_lane(self, k: u64) -> ExprId {
        match self.value {
            Value::Scalar(e) => e,
            Value::Pair(lo, hi) => if k == 0 {
                lo
            } else {
                hi
            },
            Value::Quad(a, b, c, d) => if k == 0 {
                a
            } else if k == 1 {
                b
            } else if k == 2 {
                c
            } else {
                d
            },
            Value::Mbarrier(_) => ExprId(0),
        }
    }

    /// Lane `k` of the value.
    #[verifier::when_used_as_spec(spec_lane)]
    pub fn lane(self, k: u64) -> (r: ExprId)
        ensures
            r == self.spec_lane(k),
    {
        match self.value {
            Value::Scalar(e) => e,
            Value::Pair(lo, hi) => if k == 0 {
                lo
            } else {
                hi
            },
            Value::Quad(a, b, c, d) => if k == 0 {
                a
            } else if k == 1 {
                b
            } else if k == 2 {
                c
            } else {
                d
            },
            Value::Mbarrier(_) => ExprId(0),
        }
    }
}

/// The granules of one space, by start address.
pub type Cells = Map<u64, Granule>;

/// Whether the granule at `s` holds byte `b`.
pub open spec fn covers(cells: Cells, s: u64, b: int) -> bool {
    cells.contains_key(s) && s <= b < s + cells[s].width
}

/// Start of the granule that holds byte `b`.
pub open spec fn cell_at(cells: Cells, b: int) -> Option<u64> {
    if exists|s: u64| covers(cells, s, b) {
        Some(choose|s: u64| covers(cells, s, b))
    } else {
        None
    }
}

/// No granule is empty or wraps, and no byte belongs to two.
pub open spec fn valid_cells(cells: Cells) -> bool {
    &&& forall|s: u64|
        #[trigger] cells.contains_key(s) ==> cells[s].width >= 1 && s + cells[s].width
            <= 0x1_0000_0000_0000_0000
    &&& forall|s: u64, q: u64, b: int|
        #[trigger] covers(cells, s, b) && #[trigger] covers(cells, q, b) ==> s == q
}

/// Whether the granule at `s` holds a scalar of the given width.
pub open spec fn scalar_of(cells: Cells, s: int, width: int) -> Option<ExprId> {
    if 0 <= s <= u64::MAX && cells.contains_key(s as u64) && cells[s as u64].width == width {
        cells[s as u64].value.as_scalar()
    } else {
        None
    }
}

/// Whether the granule at `s` holds a pair of the given width.
pub open spec fn pair_of(cells: Cells, s: int, width: int) -> Option<(ExprId, ExprId)> {
    if 0 <= s <= u64::MAX && cells.contains_key(s as u64) && cells[s as u64].width == width {
        cells[s as u64].value.as_pair()
    } else {
        None
    }
}

/// The value adjacent granules compose to: two scalar halves make a pair, two
/// pair halves or four scalar quarters make a quad.
pub open spec fn composed(cells: Cells, addr: u64, width: u64) -> Option<Value> {
    let h = width as int / 2;
    let q = width as int / 4;
    if width % 2 == 0 && scalar_of(cells, addr as int, h) is Some && scalar_of(
        cells,
        addr + h,
        h,
    ) is Some {
        Some(
            Value::Pair(
                scalar_of(cells, addr as int, h)->0,
                scalar_of(cells, addr + h, h)->0,
            ),
        )
    } else if width % 2 == 0 && pair_of(cells, addr as int, h) is Some && pair_of(
        cells,
        addr + h,
        h,
    ) is Some {
        let (a, b) = pair_of(cells, addr as int, h)->0;
        let (c, d) = pair_of(cells, addr + h, h)->0;
        Some(Value::Quad(a, b, c, d))
    } else if width % 4 == 0 && scalar_of(cells, addr as int, q) is Some && scalar_of(
        cells,
        addr + q,
        q,
    ) is Some && scalar_of(cells, addr + 2 * q, q) is Some && scalar_of(
        cells,
        addr + 3 * q,
        q,
    ) is Some {
        Some(
            Value::Quad(
                scalar_of(cells, addr as int, q)->0,
                scalar_of(cells, addr + q, q)->0,
                scalar_of(cells, addr + 2 * q, q)->0,
                scalar_of(cells, addr + 3 * q, q)->0,
            ),
        )
    } else {
        None
    }
}

/// The whole lanes of a packed granule that the access selects: one lane is
/// a scalar, the lower or upper two of four are a pair.
pub open spec fn selected(cells: Cells, addr: u64, width: u64) -> Option<Value> {
    match cell_at(cells, addr as int) {
        None => None,
        Some(s) => {
            let g = cells[s];
            let lw = g.width / g.lanes();
            let off = (addr - s) as u64;
            if !g.packed() || lw == 0 || off % lw != 0 || addr + width > s + g.width {
                None
            } else if width == lw {
                Some(Value::Scalar(g.lane(off / lw)))
            } else if g.lanes() == 4 && width == 2 * lw && (off == 0 || off == 2 * lw) {
                Some(Value::Pair(g.lane(off / lw), g.lane((off / lw + 1) as u64)))
            } else {
                None
            }
        },
    }
}

/// The first byte of the access, from `i` on, that some granule holds.
pub open spec fn first_covered(cells: Cells, addr: u64, width: u64, i: int) -> Option<u64>
    decreases width - i,
{
    if i >= width {
        None
    } else {
        match cell_at(cells, addr + i) {
            Some(s) => Some(s),
            None => first_covered(cells, addr, width, i + 1),
        }
    }
}

/// The granule at `s`, as a reinterpretation reports it.
pub open spec fn found_cell(cells: Cells, s: u64) -> Option<(u64, u64, GranuleKind)> {
    match cells[s].kind() {
        Some(k) => Some((s, cells[s].width, k)),
        None => None,
    }
}

/// What a read returns.
pub open spec fn read_cells(cells: Cells, addr: u64, width: u64) -> Result<Value, MemAccessError> {
    if cells.contains_key(addr) && cells[addr].width == width {
        Ok(cells[addr].value)
    } else if composed(cells, addr, width) is Some {
        Ok(composed(cells, addr, width)->0)
    } else if selected(cells, addr, width) is Some {
        Ok(selected(cells, addr, width)->0)
    } else {
        match first_covered(cells, addr, width, 0) {
            None => Err(MemAccessError::Uninitialized { addr }),
            Some(s) => Err(
                MemAccessError::Reinterpret { addr, width, found: found_cell(cells, s) },
            ),
        }
    }
}

/// Whether the granule at `s` lies inside the access.
pub open spec fn inside(cells: Cells, s: u64, addr: u64, width: u64) -> bool {
    addr <= s && s + cells[s].width <= addr + width
}

/// Whether a write may replace the part of the granule at `s` that it
/// covers: the whole granule, or whole lanes of it.
pub open spec fn replaceable(cells: Cells, s: u64, addr: u64, width: u64) -> bool {
    let g = cells[s];
    let lw = g.width / g.lanes();
    inside(cells, s, addr, width) || (g.packed() && (addr > s ==> (addr - s) % (lw as int) == 0)
        && (addr + width < s + g.width ==> (addr + width - s) % (lw as int) == 0))
}

/// Why the write is refused, looking at its bytes from `i` on.
pub open spec fn write_refused(
    cells: Cells,
    addr: u64,
    width: u64,
    value: Value,
    i: int,
) -> Option<MemAccessError>
    decreases width - i,
{
    if i >= width {
        None
    } else {
        match cell_at(cells, addr + i) {
            None => write_refused(cells, addr, width, value, i + 1),
            Some(s) => if cells[s].value is Mbarrier && !(value is Mbarrier && s == addr
                && cells[s].width == width) {
                Some(MemAccessError::MbarrierOverwrite { addr })
            } else if !replaceable(cells, s, addr, width) {
                Some(MemAccessError::Reinterpret { addr, width, found: found_cell(cells, s) })
            } else {
                write_refused(cells, addr, width, value, i + 1)
            },
        }
    }
}

/// The granule at `s` as one scalar granule per lane.
pub open spec fn unpacked(cells: Cells, s: u64) -> Cells {
    let g = cells[s];
    let lw = (g.width / g.lanes()) as u64;
    let l = |k: u64| Granule { width: lw, value: Value::Scalar(g.lane(k)), dirty: g.dirty };
    if !g.packed() {
        cells
    } else if g.lanes() == 2 {
        cells.insert(s, l(0)).insert((s + lw) as u64, l(1))
    } else {
        cells.insert(s, l(0)).insert((s + lw) as u64, l(1)).insert(
            (s + 2 * lw) as u64,
            l(2),
        ).insert((s + 3 * lw) as u64, l(3))
    }
}

/// The memory without the granule that holds byte `b`, of which lanes that
/// the access does not cover stay.
pub open spec fn cleared_at(cells: Cells, addr: u64, width: u64, b: int) -> Cells {
    match cell_at(cells, b) {
        None => cells,
        Some(s) => {
            let split = if inside(cells, s, addr, width) {
                cells
            } else {
                unpacked(cells, s)
            };
            match cell_at(split, b) {
                Some(q) => split.remove(q),
                None => split,
            }
        },
    }
}

/// The memory with the first `i` bytes of the access cleared.
pub open spec fn cleared(cells: Cells, addr: u64, width: u64, i: int) -> Cells
    decreases i,
{
    if i <= 0 {
        cells
    } else {
        cleared_at(cleared(cells, addr, width, i - 1), addr, width, addr + i - 1)
    }
}

/// The memory after a write: the touched granules make way for the new one.
pub open spec fn written(cells: Cells, addr: u64, width: u64, value: Value) -> Cells {
    cleared(cells, addr, width, width as int).insert(addr, Granule { width, value, dirty: true })
}

/// The `mbarrier` object at exactly this address.
pub open spec fn mbarrier_at(cells: Cells, addr: u64) -> Option<MbarrierId> {
    if cells.contains_key(addr) {
        match cells[addr].value {
            Value::Mbarrier(id) => Some(id),
            _ => None,
        }
    } else {
        None
    }
}

/// One memory space.
pub struct Memory {
    cells: HashMap<u64, Granule>,
    /// For every held byte, the start of its granule.
    owner: HashMap<u64, u64>,
}

impl View for Memory {
    type V = Cells;

    closed spec fn view(&self) -> Cells {
        self.cells@
    }
}

/// The owner index of the granules.
spec fn indexes(owner: Map<u64, u64>, cells: Cells) -> bool {
    forall|b: u64, s: u64|
        (owner.contains_key(b) && owner[b] == s) <==> #[trigger] covers(cells, s, b as int)
}

/// The owner index of the granules, less the first `i` bytes from `s`.
spec fn indexes_but(owner: Map<u64, u64>, cells: Cells, s: u64, i: int) -> bool {
    forall|b: u64, q: u64|
        (owner.contains_key(b) && owner[b] == q) <==> (#[trigger] covers(cells, q, b as int) && !(s
            <= b < s + i))
}

proof fn lemma_index_removed(owner: Map<u64, u64>, cells: Cells, s: u64, i: int)
    requires
        indexes_but(owner, cells, s, i),
        0 <= i,
        s + i <= u64::MAX,
    ensures
        indexes_but(owner.remove((s + i) as u64), cells, s, i + 1),
{
    let after = owner.remove((s + i) as u64);
    assert forall|b: u64, q: u64|
        (after.contains_key(b) && after[b] == q) <==> (#[trigger] covers(cells, q, b as int) && !(s
            <= b < s + i + 1)) by {
        assert((owner.contains_key(b) && owner[b] == q) <==> (covers(cells, q, b as int) && !(s
            <= b < s + i)));
    }
}

proof fn lemma_cell_at(cells: Cells, s: u64, b: int)
    requires
        valid_cells(cells),
        covers(cells, s, b),
    ensures
        cell_at(cells, b) == Some(s),
{
}

impl Memory {
    /// The granules are disjoint and indexed by their bytes.
    pub closed spec fn wf(&self) -> bool {
        &&& valid_cells(self.cells@)
        &&& indexes(self.owner@, self.cells@)
    }

    pub proof fn lemma_valid(&self)
        requires
            self.wf(),
        ensures
            valid_cells(self@),
    {
    }

    pub fn new() -> (r: Self)
        ensures
            r.wf(),
            r@ == Cells::empty(),
    {
        let r = Memory { cells: HashMap::new(), owner: HashMap::new() };
        assert(r@ =~= Cells::empty());
        r
    }

    /// Start of the granule that holds byte `b`.
    fn owner_of(&self, b: u64) -> (r: Option<u64>)
        requires
            self.wf(),
        ensures
            r == cell_at(self@, b as int),
            r matches Some(s) ==> covers(self@, s, b as int),
    {
        match self.owner.get(&b) {
            Some(s) => {
                proof {
                    assert(covers(self.cells@, *s, b as int));
                    lemma_cell_at(self.cells@, *s, b as int);
                }
                Some(*s)
            },
            None => {
                assert forall|s: u64| !covers(self.cells@, s, b as int) by {}
                None
            },
        }
    }

    fn cell(&self, s: u64) -> (r: Granule)
        requires
            self@.contains_key(s),
        ensures
            r == self@[s],
    {
        *self.cells.get(&s).unwrap()
    }

    /// Removes the granule at `s`.
    fn remove_cell(&mut self, s: u64)
        requires
            old(self).wf(),
            old(self)@.contains_key(s),
        ensures
            final(self).wf(),
            final(self)@ == old(self)@.remove(s),
    {
        let g = self.cell(s);
        let mut i: u64 = 0;
        while i < g.width
            invariant
                self.cells@ == old(self).cells@,
                old(self).wf(),
                old(self)@.contains_key(s),
                g == old(self)@[s],
                i <= g.width,
                indexes_but(self.owner@, old(self).cells@, s, i as int),
            decreases g.width - i,
        {
            let ghost before = self.owner@;
            let byte: u64 = s + i;
            self.owner.remove(&byte);
            proof {
                assert(self.owner@ == before.remove(byte));
                assert(indexes_but(before, old(self).cells@, s, i as int));
                lemma_index_removed(before, old(self).cells@, s, i as int);
            }
            i = i + 1;
        }
        self.cells.remove(&s);
        proof {
            let c0 = old(self).cells@;
            let c1 = self.cells@;
            assert forall|q: u64, b: int| #[trigger] covers(c1, q, b) <==> covers(c0, q, b) && q
                != s by {}
            assert forall|b: u64, q: u64|
                (self.owner@.contains_key(b) && self.owner@[b] == q) <==> #[trigger] covers(
                    c1,
                    q,
                    b as int,
                ) by {
                assert(covers(c0, q, b as int) && s <= b < s + g.width ==> covers(
                    c0,
                    s,
                    b as int,
                ));
                assert(covers(c1, q, b as int) <==> covers(c0, q, b as int) && q != s);
            }
            assert(valid_cells(c1));
        }
    }

    /// Enters a granule over bytes that no granule holds.
    fn put_cell(&mut self, s: u64, g: Granule)
        requires
            old(self).wf(),
            g.width >= 1,
            s + g.width <= 0x1_0000_0000_0000_0000,
            forall|b: int| s <= b < s + g.width ==> #[trigger] cell_at(old(self)@, b) is None,
        ensures
            final(self).wf(),
            final(self)@ == old(self)@.insert(s, g),
    {
        proof {
            assert forall|b: int, q: u64| s <= b < s + g.width implies !#[trigger] covers(
                old(self)@,
                q,
                b,
            ) by {
                assert(cell_at(old(self)@, b) is None);
            }
        }
        let mut i: u64 = 0;
        while i < g.width
            invariant
                self.cells@ == old(self).cells@,
                old(self).wf(),
                s + g.width <= 0x1_0000_0000_0000_0000,
                i <= g.width,
                forall|b: int, q: u64|
                    s <= b < s + g.width ==> !#[trigger] covers(old(self)@, q, b),
                forall|b: u64, q: u64|
                    (self.owner@.contains_key(b) && self.owner@[b] == q) <==> (
                    #[trigger] covers(old(self).cells@, q, b as int) || (q == s && s <= b < s
                        + i)),
            decreases g.width - i,
        {
            let ghost before = self.owner@;
            let byte: u64 = s + i;
            self.owner.insert(byte, s);
            proof {
                assert forall|b: u64, q: u64|
                    (self.owner@.contains_key(b) && self.owner@[b] == q) <==> (
                    #[trigger] covers(old(self).cells@, q, b as int) || (q == s && s <= b < s + i
                        + 1)) by {
                    assert((before.contains_key(b) && before[b] == q) <==> (covers(
                        old(self).cells@,
                        q,
                        b as int,
                    ) || (q == s && s <= b < s + i)));
                    if b == byte {
                        assert(!covers(old(self)@, q, b as int));
                    }
                }
            }
            i = i + 1;
        }
        self.cells.insert(s, g);
        proof {
            let c0 = old(self).cells@;
            let c1 = self.cells@;
            assert(!c0.contains_key(s)) by {
                if c0.contains_key(s) {
                    assert(covers(c0, s, s as int));
                }
            }
            assert forall|q: u64, b: int| #[trigger] covers(c1, q, b) <==> (covers(c0, q, b) || (q
                == s && s <= b < s + g.width)) by {}
            assert(valid_cells(c1)) by {
                assert forall|q: u64, r: u64, b: int|
                    #[trigger] covers(c1, q, b) && #[trigger] covers(c1, r, b) implies q == r by {
                    assert(covers(c1, q, b) <==> (covers(c0, q, b) || (q == s && s <= b < s
                        + g.width)));
                    assert(covers(c1, r, b) <==> (covers(c0, r, b) || (r == s && s <= b < s
                        + g.width)));
                }
            }
        }
    }

    fn scalar_at(&self, s: u64, width: u64) -> (r: Option<ExprId>)
        ensures
            r == scalar_of(self@, s as int, width as int),
    {
        match self.cells.get(&s) {
            Some(g) => if g.width == width {
                g.value.as_scalar()
            } else {
                None
            },
            None => None,
        }
    }

    fn pair_at(&self, s: u64, width: u64) -> (r: Option<(ExprId, ExprId)>)
        ensures
            r == pair_of(self@, s as int, width as int),
    {
        match self.cells.get(&s) {
            Some(g) => if g.width == width {
                g.value.as_pair()
            } else {
                None
            },
            None => None,
        }
    }

    fn compose(&self, addr: u64, width: u64) -> (r: Option<Value>)
        requires
            addr + width <= 0x1_0000_0000_0000_0000,
            width >= 1,
        ensures
            r == composed(self@, addr, width),
    {
        if width % 2 == 0 {
            let h: u64 = width / 2;
            match (self.scalar_at(addr, h), self.scalar_at(addr + h, h)) {
                (Some(lo), Some(hi)) => {
                    return Some(Value::Pair(lo, hi));
                },
                _ => {},
            }
            match (self.pair_at(addr, h), self.pair_at(addr + h, h)) {
                (Some((a, b)), Some((c, d))) => {
                    return Some(Value::Quad(a, b, c, d));
                },
                _ => {},
            }
        }
        if width % 4 == 0 {
            let q: u64 = width / 4;
            match (
                self.scalar_at(addr, q),
                self.scalar_at(addr + q, q),
                self.scalar_at(addr + 2 * q, q),
                self.scalar_at(addr + 3 * q, q),
            ) {
                (Some(a), Some(b), Some(c), Some(d)) => {
                    return Some(Value::Quad(a, b, c, d));
                },
                _ => {},
            }
        }
        None
    }

    fn select(&self, addr: u64, width: u64) -> (r: Option<Value>)
        requires
            self.wf(),
            addr + width <= 0x1_0000_0000_0000_0000,
            width >= 1,
        ensures
            r == selected(self@, addr, width),
    {
        match self.owner_of(addr) {
            None => None,
            Some(s) => {
                let g = self.cell(s);
                let n: u64 = g.lanes();
                if n <= 1 || g.width % n != 0 {
                    return None;
                }
                let lw: u64 = g.width / n;
                if lw == 0 {
                    return None;
                }
                let off: u64 = addr - s;
                if off % lw != 0 || width > g.width || off > g.width - width {
                    return None;
                }
                assert(off < g.width);
                assert(2 * lw <= g.width) by (nonlinear_arith)
                    requires
                        lw == g.width / n,
                        n >= 2,
                ;
                if width == lw {
                    Some(Value::Scalar(g.lane(off / lw)))
                } else if n == 4 && width == 2 * lw && (off == 0 || off == 2 * lw) {
                    assert(off / lw <= 2) by (nonlinear_arith)
                        requires
                            off == 0 || off == 2 * lw,
                            lw > 0,
                    ;
                    Some(Value::Pair(g.lane(off / lw), g.lane(off / lw + 1)))
                } else {
                    None
                }
            },
        }
    }

    fn first_cell(&self, addr: u64, width: u64) -> (r: Option<u64>)
        requires
            self.wf(),
            addr + width <= 0x1_0000_0000_0000_0000,
        ensures
            r == first_covered(self@, addr, width, 0),
            r matches Some(s) ==> self@.contains_key(s),
    {
        let mut i: u64 = 0;
        while i < width
            invariant
                self.wf(),
                addr + width <= 0x1_0000_0000_0000_0000,
                i <= width,
                first_covered(self@, addr, width, 0) == first_covered(
                    self@,
                    addr,
                    width,
                    i as int,
                ),
            decreases width - i,
        {
            let byte: u64 = addr + i;
            match self.owner_of(byte) {
                Some(s) => {
                    return Some(s);
                },
                None => {},
            }
            i = i + 1;
        }
        None
    }

    fn found(&self, s: u64) -> (r: Option<(u64, u64, GranuleKind)>)
        requires
            self@.contains_key(s),
        ensures
            r == found_cell(self@, s),
    {
        let g = self.cell(s);
        match g.kind() {
            Some(k) => Some((s, g.width, k)),
            None => None,
        }
    }

    /// Reads the value of `width` bytes at `addr`.
    pub fn read(&self, addr: u64, width: u64) -> (r: Result<Value, MemAccessError>)
        requires
            self.wf(),
            width >= 1,
            addr + width <= 0x1_0000_0000_0000_0000,
        ensures
            r == read_cells(self@, addr, width),
    {
        match self.cells.get(&addr) {
            Some(g) => {
                if g.width == width {
                    return Ok(g.value);
                }
            },
            None => {},
        }
        if let Some(v) = self.compose(addr, width) {
            return Ok(v);
        }
        if let Some(v) = self.select(addr, width) {
            return Ok(v);
        }
        match self.first_cell(addr, width) {
            None => Err(MemAccessError::Uninitialized { addr }),
            Some(s) => Err(MemAccessError::Reinterpret { addr, width, found: self.found(s) }),
        }
    }

    fn is_inside(&self, s: u64, addr: u64, width: u64) -> (r: bool)
        requires
            self.wf(),
            self@.contains_key(s),
        ensures
            r == inside(self@, s, addr, width),
    {
        let g = self.cell(s);
        addr <= s && g.width <= width && s - addr <= width - g.width
    }

    fn is_replaceable(&self, s: u64, addr: u64, width: u64) -> (r: bool)
        requires
            self.wf(),
            self@.contains_key(s),
            width >= 1,
            addr + width <= 0x1_0000_0000_0000_0000,
            exists|b: int| covers(self@, s, b) && addr <= b < addr + width,
        ensures
            r == replaceable(self@, s, addr, width),
    {
        if self.is_inside(s, addr, width) {
            return true;
        }
        let g = self.cell(s);
        let n: u64 = g.lanes();
        if n <= 1 || g.width % n != 0 {
            return false;
        }
        let lw: u64 = g.width / n;
        assert(lw >= 1) by (nonlinear_arith)
            requires
                g.width >= 1,
                g.width % n == 0,
                lw == g.width / n,
                n > 1,
        ;
        let starts: bool = addr <= s || (addr - s) % lw == 0;
        // Bytes of the granule from its start to the end of the write, if
        // the write ends inside it.
        let ends: bool = if addr >= s {
            let off: u64 = addr - s;
            assert(off < g.width);
            width >= g.width - off || (off + width) % lw == 0
        } else {
            let before: u64 = s - addr;
            assert(before < width);
            width - before >= g.width || (width - before) % lw == 0
        };
        starts && ends
    }

    fn refusal(&self, addr: u64, width: u64, value: Value) -> (r: Option<MemAccessError>)
        requires
            self.wf(),
            width >= 1,
            addr + width <= 0x1_0000_0000_0000_0000,
        ensures
            r == write_refused(self@, addr, width, value, 0),
    {
        let exact: bool = matches!(value, Value::Mbarrier(_));
        let mut i: u64 = 0;
        while i < width
            invariant
                self.wf(),
                width >= 1,
                addr + width <= 0x1_0000_0000_0000_0000,
                i <= width,
                exact == (value is Mbarrier),
                write_refused(self@, addr, width, value, 0) == write_refused(
                    self@,
                    addr,
                    width,
                    value,
                    i as int,
                ),
            decreases width - i,
        {
            let byte: u64 = addr + i;
            match self.owner_of(byte) {
                Some(s) => {
                    let g = self.cell(s);
                    let barrier: bool = matches!(g.value, Value::Mbarrier(_));
                    if barrier && !(exact && s == addr && g.width == width) {
                        return Some(MemAccessError::MbarrierOverwrite { addr });
                    }
                    assert(covers(self@, s, byte as int) && addr <= byte as int && (byte as int)
                        < addr + width);
                    if !self.is_replaceable(s, addr, width) {
                        return Some(
                            MemAccessError::Reinterpret { addr, width, found: self.found(s) },
                        );
                    }
                },
                None => {},
            }
            i = i + 1;
        }
        None
    }

    /// Replaces a packed granule by one scalar granule per lane.
    fn unpack(&mut self, s: u64)
        requires
            old(self).wf(),
            old(self)@.contains_key(s),
            old(self)@[s].packed(),
        ensures
            final(self).wf(),
            final(self)@ == unpacked(old(self)@, s),
    {
        let g = self.cell(s);
        let n: u64 = g.lanes();
        let lw: u64 = g.width / n;
        assert(n == 2 || n == 4);
        assert(lw >= 1 && (n == 2 ==> 2 * lw == g.width) && (n == 4 ==> 4 * lw == g.width))
            by (nonlinear_arith)
            requires
                g.width >= 1,
                g.width % n == 0,
                lw == g.width / n,
                n == 2 || n == 4,
        ;
        assert(s + g.width <= 0x1_0000_0000_0000_0000) by {
            assert(self.cells@.contains_key(s));
        }
        let ghost c0 = self@;
        self.remove_cell(s);
        proof {
            assert forall|b: int| s <= b < s + g.width implies #[trigger] cell_at(self@, b) is None by {
                lemma_removed(c0, s, b);
            }
        }
        let ghost c1 = self@;
        let l0 = Granule { width: lw, value: Value::Scalar(g.lane(0)), dirty: g.dirty };
        let l1 = Granule { width: lw, value: Value::Scalar(g.lane(1)), dirty: g.dirty };
        self.put_cell(s, l0);
        proof {
            assert forall|b: int| s + lw <= b < s + g.width implies #[trigger] cell_at(
                self@,
                b,
            ) is None by {
                assert(cell_at(c1, b) is None);
                lemma_entered(c1, s, l0, b);
            }
        }
        let ghost c2 = self@;
        self.put_cell(s + lw, l1);
        if n == 4 {
            let l2 = Granule { width: lw, value: Value::Scalar(g.lane(2)), dirty: g.dirty };
            let l3 = Granule { width: lw, value: Value::Scalar(g.lane(3)), dirty: g.dirty };
            let ghost s1 = (s + lw) as u64;
            proof {
                assert forall|b: int| s + 2 * lw <= b < s + g.width implies #[trigger] cell_at(
                    self@,
                    b,
                ) is None by {
                    assert(cell_at(c2, b) is None);
                    lemma_entered(c2, s1, l1, b);
                }
            }
            let ghost c3 = self@;
            self.put_cell(s + 2 * lw, l2);
            proof {
                assert forall|b: int| s + 3 * lw <= b < s + g.width implies #[trigger] cell_at(
                    self@,
                    b,
                ) is None by {
                    assert(cell_at(c3, b) is None);
                    lemma_entered(c3, (s + 2 * lw) as u64, l2, b);
                }
            }
            self.put_cell(s + 3 * lw, l3);
        }
        proof {
            assert(self@ =~= unpacked(c0, s));
        }
    }

    /// Writes `value` over `width` bytes at `addr`. A refused write changes
    /// nothing.
    pub fn write(&mut self, addr: u64, width: u64, value: Value) -> (r: Result<(), MemAccessError>)
        requires
            old(self).wf(),
            width >= 1,
            addr + width <= 0x1_0000_0000_0000_0000,
        ensures
            final(self).wf(),
            match write_refused(old(self)@, addr, width, value, 0) {
                Some(e) => r == Err::<(), MemAccessError>(e) && final(self)@ == old(self)@,
                None => r == Ok::<(), MemAccessError>(()) && final(self)@ == written(
                    old(self)@,
                    addr,
                    width,
                    value,
                ),
            },
    {
        if let Some(e) = self.refusal(addr, width, value) {
            return Err(e);
        }
        let ghost c0 = self@;
        proof {
            lemma_nothing_cleared(c0, addr, width, value);
        }
        let mut i: u64 = 0;
        while i < width
            invariant
                self.wf(),
                width >= 1,
                addr + width <= 0x1_0000_0000_0000_0000,
                i <= width,
                self@ == cleared(c0, addr, width, i as int),
                clearing(self@, addr, width, i as int),
            decreases width - i,
        {
            let byte: u64 = addr + i;
            let ghost c = self@;
            match self.owner_of(byte) {
                Some(s) => {
                    assert(replaceable(c, s, addr, width));
                    if !self.is_inside(s, addr, width) {
                        self.unpack(s);
                        proof {
                            lemma_unpacked_clearing(c, s, addr, width, i as int);
                        }
                    }
                    let ghost split = self@;
                    match self.owner_of(byte) {
                        Some(q) => {
                            self.remove_cell(q);
                            proof {
                                lemma_removed_clearing(split, q, addr, width, i as int);
                            }
                        },
                        None => {
                            assert(!exists|q: u64| covers(split, q, byte as int));
                        },
                    }
                },
                None => {
                    assert(!exists|q: u64| covers(c, q, byte as int));
                },
            }
            i = i + 1;
        }
        proof {
            assert forall|b: int| addr <= b < addr + width implies #[trigger] cell_at(self@, b) is None by {
                assert(!exists|s: u64| covers(self@, s, b));
            }
        }
        self.put_cell(addr, Granule { width, value, dirty: true });
        Ok(())
    }

    /// Whether some granule starts at `addr`.
    pub fn has_cell_at(&self, addr: u64) -> (r: bool)
        ensures
            r == self@.contains_key(addr),
    {
        self.cells.contains_key(&addr)
    }

    /// Places initial contents over bytes that no granule holds.
    pub fn init(&mut self, addr: u64, width: u64, value: Value) -> (r: Result<(), MemAccessError>)
        requires
            old(self).wf(),
            width >= 1,
            addr + width <= 0x1_0000_0000_0000_0000,
        ensures
            final(self).wf(),
            match first_covered(old(self)@, addr, width, 0) {
                Some(s) => final(self)@ == old(self)@ && r == Err::<(), MemAccessError>(
                    MemAccessError::Reinterpret { addr, width, found: found_cell(old(self)@, s) },
                ),
                None => r == Ok::<(), MemAccessError>(()) && final(self)@ == old(self)@.insert(
                    addr,
                    Granule { width, value, dirty: false },
                ),
            },
    {
        match self.first_cell(addr, width) {
            Some(s) => Err(MemAccessError::Reinterpret { addr, width, found: self.found(s) }),
            None => {
                proof {
                    assert forall|b: int| addr <= b < addr + width implies #[trigger] cell_at(
                        self@,
                        b,
                    ) is None by {
                        lemma_none_covered(self@, addr, width, 0, b - addr);
                    }
                }
                self.put_cell(addr, Granule { width, value, dirty: false });
                Ok(())
            },
        }
    }

    /// The scalar granule at `start`: its width, value and dirty mark.
    pub fn scalar_cell(&self, start: u64) -> (r: Option<(u64, ExprId, bool)>)
        ensures
            r == scalar_cell_of(self@, start),
    {
        match self.cells.get(&start) {
            Some(g) => match g.value {
                Value::Scalar(e) => Some((g.width, e, g.dirty)),
                _ => None,
            },
            None => None,
        }
    }

    /// Splits the granule at `start` into two scalar halves.
    pub fn split_scalar(&mut self, start: u64, lo: ExprId, hi: ExprId)
        requires
            old(self).wf(),
            old(self)@.contains_key(start),
            old(self)@[start].width >= 2,
            old(self)@[start].width % 2 == 0,
        ensures
            final(self).wf(),
            final(self)@ == halved(old(self)@, start, lo, hi),
    {
        let g = self.cell(start);
        let half: u64 = g.width / 2;
        let ghost c0 = self@;
        self.remove_cell(start);
        proof {
            assert forall|b: int| start <= b < start + g.width implies #[trigger] cell_at(
                self@,
                b,
            ) is None by {
                lemma_removed(c0, start, b);
            }
        }
        let ghost c1 = self@;
        let l0 = Granule { width: half, value: Value::Scalar(lo), dirty: g.dirty };
        self.put_cell(start, l0);
        proof {
            assert forall|b: int| start + half <= b < start + g.width implies #[trigger] cell_at(
                self@,
                b,
            ) is None by {
                assert(cell_at(c1, b) is None);
                lemma_entered(c1, start, l0, b);
            }
        }
        self.put_cell(
            start + half,
            Granule { width: half, value: Value::Scalar(hi), dirty: g.dirty },
        );
        proof {
            assert(self@ =~= halved(c0, start, lo, hi));
        }
    }

    /// The granules the program wrote: start, width and value, by ascending
    /// start.
    pub fn dirty_cells(&self) -> (r: Vec<(u64, u64, Value)>)
        ensures
            is_dirty_list(self@, r@),
    {
        let mut starts: Vec<u64> = Vec::new();
        let keys = self.cells.keys();
        let ghost full = keys.remaining();
        for k in it: keys
            invariant
                it.seq() == full,
                full.unref().to_set() == self.cells@.dom(),
                forall|i: int|
                    0 <= i < starts@.len() ==> is_dirty(self.cells@, #[trigger] starts@[i]),
                forall|i: int|
                    0 <= i < it.index() && is_dirty(self.cells@, *#[trigger] full[i])
                        ==> starts@.contains(*full[i]),
        {
            proof {
                assert(full.unref()[it.index() as int] == *full[it.index() as int]);
                assert(full.unref().to_set().contains(*k));
            }
            let g = self.cell(*k);
            if g.dirty {
                let ghost before = starts@;
                starts.push(*k);
                proof {
                    assert(starts@[before.len() as int] == *k);
                    assert forall|x: u64| before.contains(x) implies starts@.contains(x) by {
                        let w = before.index_of(x);
                        assert(starts@[w] == x);
                    }
                }
            }
        }
        proof {
            assert forall|a: u64| is_dirty(self.cells@, a) implies starts@.contains(a) by {
                assert(full.unref().to_set().contains(a));
                let w = full.unref().index_of(a);
                assert(*full[w] == a);
            }
        }
        let order = sort(&starts);
        let mut r: Vec<(u64, u64, Value)> = Vec::new();
        let mut i: usize = 0;
        while i < order.len()
            invariant
                i <= order@.len(),
                ascending(order@),
                forall|x: u64| order@.contains(x) <==> starts@.contains(x),
                forall|q: int|
                    0 <= q < starts@.len() ==> is_dirty(self.cells@, #[trigger] starts@[q]),
                forall|q: int|
                    0 <= q < r@.len() ==> dirty_entry(self.cells@, #[trigger] r@[q]),
                forall|p: int, q: int|
                    0 <= p < q < r@.len() ==> (#[trigger] r@[p]).0 < (#[trigger] r@[q]).0,
                r@.len() == 0 <==> i == 0,
                i > 0 ==> r@[r@.len() - 1].0 == order@[i - 1],
                forall|q: int|
                    0 <= q < i ==> has_start(r@, #[trigger] order@[q]),
            decreases order@.len() - i,
        {
            let a: u64 = order[i];
            let ghost before = r@;
            assert(order@.contains(order@[i as int]));
            assert(is_dirty(self.cells@, a)) by {
                let w = starts@.index_of(a);
                assert(starts@[w] == a);
            }
            if i == 0 || order[i - 1] < a {
                let g = self.cell(a);
                r.push((a, g.width, g.value));
                proof {
                    assert(r@[before.len() as int].0 == a);
                    assert forall|q: int| 0 <= q < i implies has_start(
                        r@,
                        #[trigger] order@[q],
                    ) by {
                        let w = choose|w: int| 0 <= w < before.len() && before[w].0 == order@[q];
                        assert(r@[w].0 == order@[q]);
                    }
                    assert forall|p: int, q: int| 0 <= p < q < r@.len() implies (
                    #[trigger] r@[p]).0 < (#[trigger] r@[q]).0 by {
                        if q == before.len() {
                            assert(r@[p] == before[p]);
                            assert(before[before.len() - 1].0 < a);
                            if p < before.len() - 1 {
                                assert(before[p].0 < before[before.len() - 1].0);
                            }
                        } else {
                            assert(r@[p] == before[p] && r@[q] == before[q]);
                        }
                    }
                }
            }
            assert(has_start(r@, a)) by {
                assert(r@[r@.len() - 1].0 == a);
            }
            i = i + 1;
        }
        proof {
            assert forall|a: u64| is_dirty(self@, a) implies has_start(r@, a) by {
                assert(starts@.contains(a));
                let w = order@.index_of(a);
                assert(order@[w] == a);
            }
        }
        r
    }

    /// The `mbarrier` object at `addr`.
    pub fn read_mbarrier(&self, addr: u64) -> (r: Result<MbarrierId, MemAccessError>)
        ensures
            r == (match mbarrier_at(self@, addr) {
                Some(id) => Ok(id),
                None => Err(MemAccessError::NoLiveMbarrier { addr }),
            }),
    {
        match self.cells.get(&addr) {
            Some(g) => match g.value {
                Value::Mbarrier(id) => Ok(id),
                _ => Err(MemAccessError::NoLiveMbarrier { addr }),
            },
            None => Err(MemAccessError::NoLiveMbarrier { addr }),
        }
    }

    /// Ends the life of the `mbarrier` object at `addr`.
    pub fn invalidate_mbarrier(&mut self, addr: u64) -> (r: Result<(), MemAccessError>)
        requires
            old(self).wf(),
        ensures
            final(self).wf(),
            match mbarrier_at(old(self)@, addr) {
                Some(_) => r == Ok::<(), MemAccessError>(()) && final(self)@ == old(self)@.remove(
                    addr,
                ),
                None => r == Err::<(), MemAccessError>(MemAccessError::NoLiveMbarrier { addr })
                    && final(self)@ == old(self)@,
            },
    {
        match self.read_mbarrier(addr) {
            Ok(_) => {
                self.remove_cell(addr);
                Ok(())
            },
            Err(e) => Err(e),
        }
    }
}

/// Whether the program wrote the granule at `a`.
pub open spec fn is_dirty(cells: Cells, a: u64) -> bool {
    cells.contains_key(a) && cells[a].dirty
}

pub open spec fn dirty_entry(cells: Cells, e: (u64, u64, Value)) -> bool {
    is_dirty(cells, e.0) && e.1 == cells[e.0].width && e.2 == cells[e.0].value
}

pub open spec fn has_start(s: Seq<(u64, u64, Value)>, a: u64) -> bool {
    exists|i: int| 0 <= i < s.len() && (#[trigger] s[i]).0 == a
}

/// Every granule the program wrote, by ascending start.
pub open spec fn is_dirty_list(cells: Cells, s: Seq<(u64, u64, Value)>) -> bool {
    &&& forall|i: int, j: int| 0 <= i < j < s.len() ==> (#[trigger] s[i]).0 < (#[trigger] s[j]).0
    &&& forall|i: int| 0 <= i < s.len() ==> dirty_entry(cells, #[trigger] s[i])
    &&& forall|a: u64| is_dirty(cells, a) ==> #[trigger] has_start(s, a)
}

/// The first `i` bytes of the access are free, and every granule that holds
/// one of the others may be replaced.
spec fn clearing(c: Cells, addr: u64, width: u64, i: int) -> bool {
    forall|s: u64, b: int|
        #[trigger] covers(c, s, b) && addr <= b < addr + width ==> b >= addr + i && replaceable(
            c,
            s,
            addr,
            width,
        )
}

proof fn lemma_not_refused(
    cells: Cells,
    addr: u64,
    width: u64,
    value: Value,
    i: int,
    j: int,
)
    requires
        write_refused(cells, addr, width, value, i) is None,
        0 <= i <= j < width,
    ensures
        cell_at(cells, addr + j) matches Some(s) ==> replaceable(cells, s, addr, width),
    decreases width - i,
{
    if i < j {
        lemma_not_refused(cells, addr, width, value, i + 1, j);
    }
}

proof fn lemma_nothing_cleared(cells: Cells, addr: u64, width: u64, value: Value)
    requires
        valid_cells(cells),
        write_refused(cells, addr, width, value, 0) is None,
    ensures
        clearing(cells, addr, width, 0),
{
    assert forall|s: u64, b: int|
        #[trigger] covers(cells, s, b) && addr <= b < addr + width implies replaceable(
        cells,
        s,
        addr,
        width,
    ) by {
        lemma_cell_at(cells, s, b);
        lemma_not_refused(cells, addr, width, value, 0, b - addr);
    }
}

/// A whole number of lanes does not end inside a lane.
proof fn lemma_lane_boundary(lw: int, k: int, x: int)
    requires
        lw >= 1,
        x % lw == 0,
    ensures
        !(k * lw < x < k * lw + lw),
{
    vstd::arithmetic::div_mod::lemma_fundamental_div_mod(x, lw);
    let m = x / lw;
    assert(!(k * lw < x < k * lw + lw)) by (nonlinear_arith)
        requires
            x == lw * m,
            lw >= 1,
    ;
}

proof fn lemma_lane_inside(c: Cells, s: u64, k: int, addr: u64, width: u64, b: int)
    requires
        valid_cells(c),
        c.contains_key(s),
        c[s].packed(),
        replaceable(c, s, addr, width),
        0 <= k < c[s].lanes(),
        ({
            let lw = c[s].width as int / c[s].lanes() as int;
            s + k * lw <= b < s + k * lw + lw
        }),
        addr <= b < addr + width,
    ensures
        ({
            let lw = c[s].width as int / c[s].lanes() as int;
            addr <= s + k * lw && s + k * lw + lw <= addr + width
        }),
{
    let lw = c[s].width as int / c[s].lanes() as int;
    let n = c[s].lanes() as int;
    assert(lw >= 1 && lw * n == c[s].width) by (nonlinear_arith)
        requires
            c[s].width >= 1,
            c[s].width as int % n == 0,
            lw == c[s].width as int / n,
            n > 1,
    ;
    assert(k * lw + lw <= c[s].width && k * lw >= 0) by (nonlinear_arith)
        requires
            lw * n == c[s].width,
            0 <= k < n,
            lw >= 1,
    ;
    if inside(c, s, addr, width) {
    } else {
        if s + k * lw < addr {
            lemma_lane_boundary(lw, k, addr - s);
        }
        if addr + width < s + k * lw + lw {
            lemma_lane_boundary(lw, k, addr + width - s);
        }
    }
}

proof fn lemma_unpacked_clearing(c: Cells, s: u64, addr: u64, width: u64, i: int)
    requires
        valid_cells(c),
        clearing(c, addr, width, i),
        c.contains_key(s),
        c[s].packed(),
        replaceable(c, s, addr, width),
    ensures
        clearing(unpacked(c, s), addr, width, i),
{
    let c1 = unpacked(c, s);
    let g = c[s];
    let n = g.lanes() as int;
    let lw = g.width as int / n;
    assert(lw >= 1 && lw * n == g.width) by (nonlinear_arith)
        requires
            g.width >= 1,
            g.width as int % n == 0,
            lw == g.width as int / n,
            n > 1,
    ;
    assert forall|q: u64, b: int|
        #[trigger] covers(c1, q, b) && addr <= b < addr + width implies b >= addr + i
        && replaceable(c1, q, addr, width) by {
        let k = if q == s {
            0int
        } else if q == s + lw {
            1
        } else if n == 4 && q == s + 2 * lw {
            2
        } else if n == 4 && q == s + 3 * lw {
            3
        } else {
            -1
        };
        if k >= 0 {
            assert(k * lw == q - s) by (nonlinear_arith)
                requires
                    (k == 0 && q == s) || (k == 1 && q == s + lw) || (k == 2 && q == s + 2 * lw)
                        || (k == 3 && q == s + 3 * lw),
            ;
            assert(k < n);
            assert(c1[q].width == lw);
            assert(k * lw + lw <= g.width && k * lw >= 0) by (nonlinear_arith)
                requires
                    lw * n == g.width,
                    0 <= k < n,
                    lw >= 1,
            ;
            assert(covers(c, s, b));
            lemma_lane_inside(c, s, k, addr, width, b);
        } else {
            assert(covers(c, q, b));
        }
    }
}

proof fn lemma_removed_clearing(c: Cells, q: u64, addr: u64, width: u64, i: int)
    requires
        valid_cells(c),
        clearing(c, addr, width, i),
        covers(c, q, addr + i),
    ensures
        clearing(c.remove(q), addr, width, i + 1),
{
    let c1 = c.remove(q);
    assert forall|s: u64, b: int|
        #[trigger] covers(c1, s, b) && addr <= b < addr + width implies b >= addr + i + 1
        && replaceable(c1, s, addr, width) by {
        assert(covers(c, s, b));
    }
}

/// The scalar granule at `start`: its width, value and dirty mark.
pub open spec fn scalar_cell_of(cells: Cells, start: u64) -> Option<(u64, ExprId, bool)> {
    if cells.contains_key(start) {
        match cells[start].value {
            Value::Scalar(e) => Some((cells[start].width, e, cells[start].dirty)),
            _ => None,
        }
    } else {
        None
    }
}

/// The granule at `start` as two scalar halves.
pub open spec fn halved(cells: Cells, start: u64, lo: ExprId, hi: ExprId) -> Cells {
    let g = cells[start];
    let half = (g.width / 2) as u64;
    cells.insert(start, Granule { width: half, value: Value::Scalar(lo), dirty: g.dirty }).insert(
        (start + half) as u64,
        Granule { width: half, value: Value::Scalar(hi), dirty: g.dirty },
    )
}

proof fn lemma_removed(cells: Cells, s: u64, b: int)
    requires
        valid_cells(cells),
        covers(cells, s, b),
    ensures
        cell_at(cells.remove(s), b) is None,
{
    let c1 = cells.remove(s);
    assert forall|q: u64| !covers(c1, q, b) by {
        if covers(c1, q, b) {
            assert(covers(cells, q, b));
        }
    }
}

proof fn lemma_entered(cells: Cells, s: u64, g: Granule, b: int)
    requires
        cell_at(cells, b) is None,
        !(s <= b < s + g.width),
    ensures
        cell_at(cells.insert(s, g), b) is None,
{
    let c1 = cells.insert(s, g);
    assert forall|q: u64| !covers(c1, q, b) by {
        if covers(c1, q, b) {
            assert(covers(cells, q, b));
        }
    }
}

proof fn lemma_none_covered(cells: Cells, addr: u64, width: u64, i: int, j: int)
    requires
        first_covered(cells, addr, width, i) is None,
        0 <= i <= j < width,
    ensures
        cell_at(cells, addr + j) is None,
    decreases width - i,
{
    if i < j {
        lemma_none_covered(cells, addr, width, i + 1, j);
    }
}

// ---------------------------------------------------------------------------
// Laws
// ---------------------------------------------------------------------------

/// A read at the address and width of the last write gives back what was
/// written.
pub proof fn read_after_write(cells: Cells, addr: u64, width: u64, value: Value)
    ensures
        read_cells(written(cells, addr, width, value), addr, width) == Ok::<
            Value,
            MemAccessError,
        >(value),
{
}

/// A granule beside the written bytes is untouched by clearing them.
proof fn lemma_cleared_keeps(c: Cells, addr: u64, width: u64, i: int, s: u64)
    requires
        valid_cells(c),
        c.contains_key(s),
        s + c[s].width <= addr || addr + width <= s,
        0 <= i <= width,
    ensures
        cleared(c, addr, width, i).contains_key(s),
        cleared(c, addr, width, i)[s] == c[s],
        forall|q: u64, b: int|
            #[trigger] covers(cleared(c, addr, width, i), q, b) && s <= b < s + c[s].width
                ==> q == s,
        in_bounds(cleared(c, addr, width, i)),
    decreases i,
{
    assert forall|q: u64, b: int| #[trigger] covers(c, q, b) && s <= b < s
        + c[s].width implies q == s by {
        assert(covers(c, s, b));
    }
    if i > 0 {
        let before = cleared(c, addr, width, i - 1);
        lemma_cleared_keeps(c, addr, width, i - 1, s);
        let byte = addr + i - 1;
        match cell_at(before, byte) {
            None => {},
            Some(p) => {
                assert(covers(before, p, byte));
                assert(p != s);
                let split = if inside(before, p, addr, width) {
                    before
                } else {
                    unpacked(before, p)
                };
                assert(in_bounds(split) && split.contains_key(s) && split[s] == c[s] && forall|
                    q: u64,
                    b: int,
                |
                    #[trigger] covers(split, q, b) && s <= b < s + c[s].width ==> q == s) by {
                    if !inside(before, p, addr, width) && before[p].packed() {
                        lemma_unpacked_beside(before, p, s);
                        lemma_unpacked_in_bounds(before, p);
                    }
                }
                match cell_at(split, byte) {
                    Some(q) => {
                        assert(covers(split, q, byte));
                        assert(q != s);
                        let after = split.remove(q);
                        assert forall|r: u64, b: int|
                            #[trigger] covers(after, r, b) && s <= b < s + c[s].width implies r
                            == s by {
                            assert(covers(split, r, b));
                        }
                    },
                    None => {},
                }
            },
        }
    }
}

/// No granule is empty or wraps.
spec fn in_bounds(c: Cells) -> bool {
    forall|s: u64|
        #[trigger] c.contains_key(s) ==> c[s].width >= 1 && s + c[s].width
            <= 0x1_0000_0000_0000_0000
}

proof fn lemma_unpacked_in_bounds(c: Cells, s: u64)
    requires
        in_bounds(c),
        c.contains_key(s),
        c[s].packed(),
    ensures
        in_bounds(unpacked(c, s)),
{
    let g = c[s];
    let n = g.lanes() as int;
    let lw = g.width as int / n;
    assert(lw >= 1 && lw * n == g.width) by (nonlinear_arith)
        requires
            g.width >= 1,
            g.width as int % n == 0,
            lw == g.width as int / n,
            n > 1,
    ;
}

proof fn lemma_unpacked_beside(c: Cells, p: u64, s: u64)
    requires
        c.contains_key(p),
        c.contains_key(s),
        p != s,
        c[p].packed(),
        c[p].width >= 1,
        c[s].width >= 1,
        p + c[p].width <= 0x1_0000_0000_0000_0000,
        forall|q: u64, b: int|
            #[trigger] covers(c, q, b) && s <= b < s + c[s].width ==> q == s,
    ensures
        unpacked(c, p).contains_key(s),
        unpacked(c, p)[s] == c[s],
        forall|q: u64, b: int|
            #[trigger] covers(unpacked(c, p), q, b) && s <= b < s + c[s].width ==> q == s,
{
    let g = c[p];
    let n = g.lanes() as int;
    let lw = g.width as int / n;
    assert(lw >= 1 && lw * n == g.width) by (nonlinear_arith)
        requires
            g.width >= 1,
            g.width as int % n == 0,
            lw == g.width as int / n,
            n > 1,
    ;
    assert(!(p <= s < p + g.width)) by {
        if p <= s < p + g.width {
            assert(covers(c, p, s as int));
        }
    }
    let c1 = unpacked(c, p);
    assert forall|q: u64, b: int| #[trigger] covers(c1, q, b) && s <= b < s + c[s].width implies q
        == s by {
        if p <= b < p + g.width {
            assert(covers(c, p, b));
        } else {
            assert(covers(c, q, b));
        }
    }
}

/// A write touches only its own bytes: a granule beside them stays as it is.
pub proof fn a_write_keeps_other_granules(
    cells: Cells,
    addr: u64,
    width: u64,
    value: Value,
    s: u64,
)
    requires
        valid_cells(cells),
        width >= 1,
        cells.contains_key(s),
        s + cells[s].width <= addr || addr + width <= s,
    ensures
        written(cells, addr, width, value).contains_key(s),
        written(cells, addr, width, value)[s] == cells[s],
{
    lemma_cleared_keeps(cells, addr, width, width as int, s);
}

impl GranuleKind {
    pub open spec fn spec_name(&self) -> &'static str {
        match self {
            GranuleKind::Scalar => "scalar",
            GranuleKind::Pair => "packed-pair",
            GranuleKind::Quad => "packed-quad",
        }
    }

    /// The kind in words.
    #[verifier::when_used_as_spec(spec_name)]
    pub fn name(&self) -> (r: &'static str)
        ensures
            r == self.spec_name(),
    {
        match self {
            GranuleKind::Scalar => "scalar",
            GranuleKind::Pair => "packed-pair",
            GranuleKind::Quad => "packed-quad",
        }
    }
}

} // verus!
