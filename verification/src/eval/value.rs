//! Runtime values and per-thread register files.

use vstd::prelude::*;

use crate::symbolic::ExprId;
use crate::symbols::RegId;
use crate::types::{RegClass, RegCounts};

verus! {

/// Handle to one `mbarrier` object's state, held by a [`Value::Mbarrier`] in
/// the memory granule the object's address resolves to.
#[derive(Debug, Clone, Copy, PartialEq, Eq, Structural, Hash)]
pub struct MbarrierId(pub usize);

/// A value held in a register or a memory granule.
///
/// `Pair` is a packed pair of halves living in one register or word, `Quad`
/// four lanes. The lanes are separate expressions and never bit-encoded.
///
/// `Mbarrier` is not program data: it only ever lives in a memory granule at
/// an `mbarrier` object's address.
#[derive(Debug, Clone, Copy, PartialEq, Eq, Structural)]
pub enum Value {
    /// A single scalar expression
    Scalar(ExprId),
    /// Two packed halves: (lo, hi)
    Pair(ExprId, ExprId),
    /// Four packed lanes, lowest first
    Quad(ExprId, ExprId, ExprId, ExprId),
    /// An `mbarrier` object's state, by handle.
    Mbarrier(MbarrierId),
}

impl Value {
    pub open spec fn spec_as_scalar(self) -> Option<ExprId> {
        match self {
            Value::Scalar(e) => Some(e),
            _ => None,
        }
    }

    /// The scalar expression, if this is a scalar.
    #[verifier::when_used_as_spec(spec_as_scalar)]
    pub fn as_scalar(self) -> (r: Option<ExprId>)
        ensures
            r == self.spec_as_scalar(),
    {
        match self {
            Value::Scalar(e) => Some(e),
            _ => None,
        }
    }

    pub open spec fn spec_as_pair(self) -> Option<(ExprId, ExprId)> {
        match self {
            Value::Pair(lo, hi) => Some((lo, hi)),
            _ => None,
        }
    }

    /// The packed pair halves, if this is a pair.
    #[verifier::when_used_as_spec(spec_as_pair)]
    pub fn as_pair(self) -> (r: Option<(ExprId, ExprId)>)
        ensures
            r == self.spec_as_pair(),
    {
        match self {
            Value::Pair(lo, hi) => Some((lo, hi)),
            _ => None,
        }
    }
}

/// A per-thread register file, indexed by (class, index).
///
/// Registers start uninitialized; reading one before writing it gives `None`.
/// A class is laid out for the declared number of registers and grows to fit
/// a register beyond it.
#[derive(Debug)]
pub struct RegFile {
    pred: Vec<Option<Value>>,
    bits8: Vec<Option<Value>>,
    bits16: Vec<Option<Value>>,
    bits32: Vec<Option<Value>>,
    bits64: Vec<Option<Value>>,
    bits128: Vec<Option<Value>>,
}

impl View for RegFile {
    type V = Map<RegId, Value>;

    closed spec fn view(&self) -> Map<RegId, Value> {
        Map::new(
            |r: RegId| {
                let v = self.class_seq(r.class);
                r.index.0 < v.len() && v[r.index.0 as int] is Some
            },
            |r: RegId| self.class_seq(r.class)[r.index.0 as int]->0,
        )
    }
}

/// `n` uninitialized registers.
fn blank(n: u32) -> (v: Vec<Option<Value>>)
    ensures
        forall|i: int| 0 <= i < v@.len() ==> #[trigger] v@[i] is None,
        v@.len() == n,
{
    let mut v: Vec<Option<Value>> = Vec::new();
    let mut i: u32 = 0;
    while i < n
        invariant
            i <= n,
            v@.len() == i,
            forall|j: int| 0 <= j < v@.len() ==> #[trigger] v@[j] is None,
        decreases n - i,
    {
        v.push(None);
        i = i + 1;
    }
    v
}

/// Sets one register of a class.
fn put(v: &mut Vec<Option<Value>>, index: u32, value: Value)
    ensures
        final(v)@.len() == (if index < old(v)@.len() {
            old(v)@.len()
        } else {
            (index + 1) as nat
        }),
        forall|i: int|
            0 <= i < final(v)@.len() ==> #[trigger] final(v)@[i] == (if i == index {
                Some(value)
            } else if i < old(v)@.len() {
                old(v)@[i]
            } else {
                None
            }),
{
    while v.len() <= index as usize
        invariant
            old(v)@.len() <= v@.len(),
            v@.len() == old(v)@.len() || v@.len() <= index + 1,
            forall|i: int|
                0 <= i < v@.len() ==> #[trigger] v@[i] == (if i < old(v)@.len() {
                    old(v)@[i]
                } else {
                    None
                }),
        decreases index + 1 - v@.len(),
    {
        v.push(None);
    }
    v.set(index as usize, Some(value));
}

impl RegFile {
    spec fn class_seq(&self, class: RegClass) -> Seq<Option<Value>> {
        match class {
            RegClass::Pred => self.pred@,
            RegClass::Bits8 => self.bits8@,
            RegClass::Bits16 => self.bits16@,
            RegClass::Bits32 => self.bits32@,
            RegClass::Bits64 => self.bits64@,
            RegClass::Bits128 => self.bits128@,
        }
    }

    /// How many registers of a class are laid out.
    pub closed spec fn laid_out(&self, class: RegClass) -> nat {
        self.class_seq(class).len()
    }

    /// The declared registers of each class, all uninitialized.
    pub fn new(counts: &RegCounts) -> (r: Self)
        ensures
            r@ == Map::<RegId, Value>::empty(),
            forall|class: RegClass| #[trigger] r.laid_out(class) == counts.get(class),
    {
        let r = RegFile {
            pred: blank(counts.get(RegClass::Pred)),
            bits8: blank(counts.get(RegClass::Bits8)),
            bits16: blank(counts.get(RegClass::Bits16)),
            bits32: blank(counts.get(RegClass::Bits32)),
            bits64: blank(counts.get(RegClass::Bits64)),
            bits128: blank(counts.get(RegClass::Bits128)),
        };
        assert(r@ =~= Map::<RegId, Value>::empty());
        r
    }

    /// The value of a register, if it was written.
    pub fn read(&self, reg: RegId) -> (r: Option<Value>)
        ensures
            r == (if self@.contains_key(reg) {
                Some(self@[reg])
            } else {
                None
            }),
    {
        let v = match reg.class {
            RegClass::Pred => &self.pred,
            RegClass::Bits8 => &self.bits8,
            RegClass::Bits16 => &self.bits16,
            RegClass::Bits32 => &self.bits32,
            RegClass::Bits64 => &self.bits64,
            RegClass::Bits128 => &self.bits128,
        };
        let i: usize = reg.index.0 as usize;
        if i < v.len() {
            v[i]
        } else {
            None
        }
    }

    /// Sets a register. Its class grows to fit it; the others keep their size.
    pub fn write(&mut self, reg: RegId, value: Value)
        ensures
            final(self)@ == old(self)@.insert(reg, value),
            forall|class: RegClass| #[trigger]
                final(self).laid_out(class) == (if class == reg.class && reg.index.0
                    >= old(self).laid_out(class) {
                    (reg.index.0 + 1) as nat
                } else {
                    old(self).laid_out(class)
                }),
    {
        match reg.class {
            RegClass::Pred => put(&mut self.pred, reg.index.0, value),
            RegClass::Bits8 => put(&mut self.bits8, reg.index.0, value),
            RegClass::Bits16 => put(&mut self.bits16, reg.index.0, value),
            RegClass::Bits32 => put(&mut self.bits32, reg.index.0, value),
            RegClass::Bits64 => put(&mut self.bits64, reg.index.0, value),
            RegClass::Bits128 => put(&mut self.bits128, reg.index.0, value),
        }
        assert(self@ =~= old(self)@.insert(reg, value)) by {
            assert forall|q: RegId| q.class == reg.class && q.index.0 == reg.index.0 implies q
                == reg by {
                assert(q.index == reg.index);
            }
        }
    }
}

} // verus!
